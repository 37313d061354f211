//! Orderings: sorting, and the smallest or largest of some values.
use vstd::prelude::*;
use crate::call::{fail, fault_step};
use crate::code::RelOp;
use crate::collect::{collections_grew, rebuild_result, rebuild_shape};
use crate::exc::{fault, value_error, Exc, VErr};
use crate::frame::ReturnAction;
use crate::machine::{restacked, CompareCont, CompareJob, OrderCont, OrderJob, OrderKind, OrderState, Step, Task, Vm};
use crate::membership::{defers, ord_defers, relate_result, try_relation, SCAN_DEPTH};
use crate::number::Order;
use crate::relation::{no_order_text, ordered, try_order, Ordered, DEPTH_LIMIT};
use crate::seqop::SeqShape;
use crate::sorting::{before, carried_on, counting, lemma_carried_on, met, near, sort_step, sorted, weak_below, weak_order, Less, Merge, Sorter};
use crate::text::join2;
use crate::value::{Heap, Value};
use crate::wake::faults;

verus! {

/// The items at these places.
pub open spec fn permuted(items: Seq<Value>, places: Seq<usize>) -> Seq<Value> {
    Seq::new(places.len(), |k: int| if places[k] < items.len() { items[places[k] as int] } else { Value::Null })
}

/// The items at these places.
pub fn apply_permutation(items: &Vec<Value>, places: &Vec<usize>) -> (r: Vec<Value>)
    ensures r@ == permuted(items@, places@),
{
    let mut out: Vec<Value> = Vec::new();
    let mut k: usize = 0;
    while k < places.len()
        invariant k <= places.len(), out@ =~= permuted(items@, places@).take(k as int),
        decreases places.len() - k,
    {
        let v = if places[k] < items.len() { items[places[k]] } else { Value::Null };
        out.push(v);
        k += 1;
    }
    assert(out@ =~= permuted(items@, places@));
    out
}

/// Comparing places by their keys, as far as no method of a program is needed.
pub open spec fn key_less(h: Heap, keys: Seq<Value>) -> Less {
    |a: int, b: int| ordered(h, keys[a], keys[b], DEPTH_LIMIT as nat) == Ordered::Known(Order::Less)
}

/// Whether the order of two keys is known without a program's method, one way
/// round at least.
pub open spec fn known_keys(h: Heap, keys: Seq<Value>) -> Less {
    |a: int, b: int| ordered(h, keys[a], keys[b], DEPTH_LIMIT as nat) is Known
}

/// Two keys that have no order, or whose order only a program can say.
pub open spec fn unordered_keys(h: Heap, keys: Seq<Value>, e: VErr, a: int, b: int) -> bool {
    &&& 0 <= a < keys.len()
    &&& 0 <= b < keys.len()
    &&& match ordered(h, keys[a], keys[b], DEPTH_LIMIT as nat) {
        Ordered::Refused(x, y) => e@ == (Exc::TypeError, no_order_text(h, "<"@, x, y)),
        Ordered::Ask => e@ == (Exc::RuntimeError, needs_program_text()),
        Ordered::Known(_) => false,
    }
}

/// The message for an ordering that cannot be done without a program's method.
pub open spec fn needs_program_text() -> Seq<char> {
    "internal: a native ordering met a value with its own order"@
}

/// What sorting keys natively comes to: the places in a stable order, each
/// once, or two keys that have no order. Where it succeeds, every two keys that
/// end side by side do have one.
pub open spec fn native_sort_result(h: Heap, keys: Seq<Value>, reverse: bool, r: Result<Vec<usize>, VErr>) -> bool {
    match r {
        Ok(p) => {
            &&& p@.to_multiset() == counting(keys.len()).to_multiset()
            &&& p@.len() == keys.len()
            &&& forall|k: int| 0 <= k < p@.len() ==> #[trigger] p@[k] < keys.len()
            &&& weak_below(key_less(h, keys), keys.len()) ==> sorted(p@, key_less(h, keys), reverse)
            &&& forall|k: int| 0 <= k < p@.len() - 1 ==> #[trigger] near(known_keys(h, keys), p@, k)
        },
        Err(e) => exists|a: int, b: int| #[trigger] unordered_keys(h, keys, e, a, b),
    }
}

/// The places of the keys in a stable order.
pub fn sort_native(h: &Heap, keys: &Vec<Value>, reverse: bool) -> (r: Result<Vec<usize>, VErr>)
    ensures native_sort_result(*h, keys@, reverse, r),
{
    let mut s = Sorter::new(keys.len());
    let ghost less = key_less(*h, keys@);
    let ghost lt = carried_on(less, keys@.len());
    let ghost known = known_keys(*h, keys@);
    assert(s.state().ordered(lt, reverse));
    assert(s.state().chained(known));
    let (s1, q) = s.step(reverse, None);
    s = s1;
    let mut ask = q;
    loop
        invariant
            s.state().n() == keys.len(),
            s.state().wf(),
            less == key_less(*h, keys@),
            lt == carried_on(less, keys@.len()),
            known == known_keys(*h, keys@),
            weak_order(lt) ==> s.state().ordered(lt, reverse),
            s.state().chained(known),
            match ask {
                Some((x, y)) => s.state().asks() && (x as int, y as int) == s.state().question(reverse)
                    && x < keys.len() && y < keys.len(),
                None => s.state().done(),
            },
        decreases s.state().left().0, s.state().left().1, s.state().left().2,
    {
        match ask {
            None => {
                let p = s.places();
                proof {
                    if weak_below(less, keys@.len()) {
                        if keys@.len() > 0 {
                            lemma_carried_on(less, keys@.len());
                        }
                        assert forall|a: int, b: int| 0 <= a < b < p@.len()
                            implies before(less, reverse, #[trigger] p@[a] as int, #[trigger] p@[b] as int) by {
                            assert(before(lt, reverse, p@[a] as int, p@[b] as int));
                        }
                    }
                }
                return Ok(p);
            }
            Some((x, y)) => {
                let answer: bool = match try_order(h, keys[x], keys[y], "<", DEPTH_LIMIT) {
                    Err(e) => {
                        assert(unordered_keys(*h, keys@, e, x as int, y as int));
                        return Err(e);
                    }
                    Ok(None) => {
                        let e = fault(Exc::RuntimeError, "internal: a native ordering met a value with its own order");
                        assert(unordered_keys(*h, keys@, e, x as int, y as int));
                        return Err(e);
                    }
                    Ok(Some(o)) => matches!(o, Order::Less),
                };
                assert(answer == lt(x as int, y as int));
                assert(met(known, x as int, y as int));
                let ghost before = s.state();
                let (s1, q) = s.step(reverse, Some(answer));
                proof {
                    assert(sort_step(before, s1.state(), reverse, Some(answer), q));
                    assert(before.chained(known));
                    if weak_order(lt) {
                        assert(before.ordered(lt, reverse));
                    }
                }
                s = s1;
                ask = q;
            }
        }
    }
}

/// The place of the smallest or largest of the first `n` keys, the first of
/// several; or what kept two keys from being compared.
pub open spec fn extreme_at(h: Heap, keys: Seq<Value>, want_min: bool, n: int) -> Result<int, Ordered>
    decreases n,
{
    if n <= 1 {
        Ok(0)
    } else {
        match extreme_at(h, keys, want_min, n - 1) {
            Err(o) => Err(o),
            Ok(best) => match ordered(h, keys[n - 1], keys[best], DEPTH_LIMIT as nat) {
                Ordered::Known(o) => Ok(if o == (if want_min { Order::Less } else { Order::Greater }) { n - 1 } else { best }),
                other => Err(other),
            },
        }
    }
}

proof fn lemma_extreme_err(h: Heap, keys: Seq<Value>, want_min: bool, i: int, n: int)
    requires 1 <= i <= n, extreme_at(h, keys, want_min, i) is Err,
    ensures extreme_at(h, keys, want_min, n) == extreme_at(h, keys, want_min, i),
    decreases n - i,
{
    if i < n {
        lemma_extreme_err(h, keys, want_min, i, n - 1);
    }
}

/// What the fault says when two keys could not be compared.
pub open spec fn extreme_fault(h: Heap, want_min: bool, o: Ordered) -> (Exc, Seq<char>) {
    match o {
        Ordered::Refused(x, y) => (Exc::TypeError, no_order_text(h, if want_min { "<"@ } else { ">"@ }, x, y)),
        _ => (Exc::RuntimeError, needs_program_text()),
    }
}

fn extreme_native(h: &Heap, keys: &Vec<Value>, want_min: bool, n: usize) -> (r: Result<usize, VErr>)
    requires 1 <= n <= keys.len(),
    ensures
        match extreme_at(*h, keys@, want_min, n as int) {
            Ok(b) => r matches Ok(x) && x == b && x < n,
            Err(o) => r matches Err(e) && e@ == extreme_fault(*h, want_min, o),
        },
{
    let sym = if want_min { "<" } else { ">" };
    let mut best: usize = 0;
    let mut i: usize = 1;
    while i < n
        invariant
            1 <= i <= n,
            n <= keys.len(),
            best < i,
            sym@ == (if want_min { "<"@ } else { ">"@ }),
            extreme_at(*h, keys@, want_min, i as int) == Ok::<int, Ordered>(best as int),
        decreases n - i,
    {
        match try_order(h, keys[i], keys[best], sym, DEPTH_LIMIT) {
            Err(e) => {
                proof { lemma_extreme_err(*h, keys@, want_min, i + 1, n as int); }
                return Err(e);
            }
            Ok(None) => {
                proof { lemma_extreme_err(*h, keys@, want_min, i + 1, n as int); }
                return Err(fault(Exc::RuntimeError, "internal: a native ordering met a value with its own order"));
            }
            Ok(Some(o)) => {
                let hit: bool = if want_min { matches!(o, Order::Less) } else { matches!(o, Order::Greater) };
                if hit {
                    best = i;
                }
            }
        }
        i += 1;
    }
    Ok(best)
}

impl OrderKind {
    /// What the program called the ordering.
    pub open spec fn who(self) -> Seq<char> {
        match self {
            OrderKind::Sort(_) => "sort_by"@,
            OrderKind::Extreme { want_min, by } => if want_min {
                if by { "min_by"@ } else { "min"@ }
            } else {
                if by { "max_by"@ } else { "max"@ }
            },
        }
    }

    /// What the program called the ordering.
    pub fn name(self) -> (r: &'static str)
        ensures r@ == self.who(),
    {
        match self {
            OrderKind::Sort(_) => "sort_by",
            OrderKind::Extreme { want_min, by } => if want_min {
                if by { "min_by" } else { "min" }
            } else {
                if by { "max_by" } else { "max" }
            },
        }
    }
}

/// What handing over a finished ordering does.
pub open spec fn order_delivered(a: Vm, b: Vm, cont: OrderCont, v: Value, r: Step) -> bool {
    match cont {
        OrderCont::Push => r is Next && restacked(a, b, a.stack().push(v)) && b.heap == a.heap,
        OrderCont::Callback => (r matches Step::Give(g) && *g == (ReturnAction::DriveSeq, v)) && b == a,
    }
}

/// What handing over a sorted collection does.
pub open spec fn order_rebuilt(a: Vm, b: Vm, shape: SeqShape, items: Seq<Value>, cont: OrderCont, r: Step) -> bool {
    exists|m: Vm, v: Result<Value, VErr>| {
        &&& m == (Vm { heap: m.heap, ..a })
        &&& collections_grew(a.heap, m.heap)
        &&& #[trigger] rebuild_result(a.heap, m.heap, shape, items, v)
        &&& match v {
            Ok(x) => order_delivered(m, b, cont, x, r),
            Err(e) => faults(r, e@.0, e@.1) && b == m,
        }
    }
}

/// What an ordering that needs no method of a program comes to.
pub open spec fn native_order_result(a: Vm, b: Vm, kind: OrderKind, items: Seq<Value>, keys: Seq<Value>, reverse: bool, cont: OrderCont, r: Step) -> bool {
    match kind {
        OrderKind::Extreme { want_min, by } => {
            let n = if items.len() < keys.len() { items.len() } else { keys.len() };
            if n == 0 {
                faults(r, Exc::ValueError, kind.who() + "() arg is an empty sequence"@) && b == a
            } else {
                match extreme_at(a.heap, keys, want_min, n as int) {
                    Ok(best) => order_delivered(a, b, cont, items[best], r),
                    Err(o) => faults(r, extreme_fault(a.heap, want_min, o).0, extreme_fault(a.heap, want_min, o).1) && b == a,
                }
            }
        },
        OrderKind::Sort(shape) => exists|p: Result<Vec<usize>, VErr>| {
            &&& #[trigger] native_sort_result(a.heap, keys, reverse, p)
            &&& match p {
                Ok(places) => order_rebuilt(a, b, shape, permuted(items, places@), cont, r),
                Err(e) => faults(r, e@.0, e@.1) && b == a,
            }
        },
    }
}

/// Whether one of the keys may need a program's method to be ordered.
pub open spec fn some_defer(h: Heap, keys: Seq<Value>) -> bool {
    exists|k: int| 0 <= k < keys.len() && #[trigger] defers(h, keys[k], SCAN_DEPTH as nat)
}

fn any_defer(h: &Heap, keys: &Vec<Value>) -> (r: bool)
    ensures r == some_defer(*h, keys@),
{
    let mut i: usize = 0;
    while i < keys.len()
        invariant
            i <= keys.len(),
            forall|k: int| 0 <= k < i ==> !#[trigger] defers(*h, keys@[k], SCAN_DEPTH as nat),
        decreases keys.len() - i,
    {
        if ord_defers(h, keys[i]) {
            assert(defers(*h, keys@[i as int], SCAN_DEPTH as nat));
            return true;
        }
        i += 1;
    }
    false
}

/// A job for this ordering that has not begun.
pub open spec fn order_begun(j: OrderJob, kind: OrderKind, items: Seq<Value>, keys: Seq<Value>, reverse: bool, cont: OrderCont) -> bool {
    &&& j.kind == kind
    &&& j.cont == cont
    &&& j.items@ == items
    &&& j.keys@ == keys
    &&& j.reverse == reverse
    &&& match kind {
        OrderKind::Extreme { .. } => j.state == (OrderState::Fold { best: 0, next: 1 }),
        OrderKind::Sort(_) => j.state matches OrderState::Merge(s) && s.state().n() == keys.len() && s.state().wf() && s.state().fresh()
            && forall|lt: Less| #[trigger] s.state().ordered(lt, reverse),
    }
}

/// What beginning an ordering does: it is done at once where no method of a
/// program is needed, and is a job otherwise.
pub open spec fn begin_order_result(a: Vm, b: Vm, kind: OrderKind, items: Seq<Value>, keys: Seq<Value>, reverse: bool, cont: OrderCont, r: Step) -> bool {
    if !some_defer(a.heap, keys) {
        native_order_result(a, b, kind, items, keys, reverse, cont, r)
    } else {
        &&& r == Step::Order(None)
        &&& b == (Vm { task: Task { orders: b.task.orders, ..a.task }, ..a })
        &&& b.task.orders@.len() == a.task.orders@.len() + 1
        &&& b.task.orders@.drop_last() == a.task.orders@
        &&& order_begun(b.task.orders@.last(), kind, items, keys, reverse, cont)
    }
}

/// What the fold does with the answer it waited for, and the two places it
/// asks about next.
pub open spec fn fold_step(best: usize, next: usize, n: nat, answer: Option<bool>, to: OrderState, ask: Option<(usize, usize)>) -> bool {
    let taken = answer == Some(true);
    let b = if taken { next } else { best };
    let x = if answer is Some && next < n { (next + 1) as usize } else { next };
    &&& to == (OrderState::Fold { best: b, next: x })
    &&& ask == (if x < n && b < n { Some((x, b)) } else { None })
}

/// What an ordering asks next, or that it is done.
pub open spec fn order_step(j: OrderJob, k: OrderJob, answer: Option<bool>, ask: Option<(usize, usize)>) -> bool {
    &&& k == (OrderJob { state: k.state, ..j })
    &&& match j.state {
        OrderState::Fold { best, next } => fold_step(best, next, j.keys@.len(), answer, k.state, ask),
        OrderState::Merge(s) => k.state matches OrderState::Merge(t) && sort_step(s.state(), t.state(), j.reverse, answer, ask),
    }
}

/// The operator an ordering asks with: a sort in `<`, a largest in `>`.
pub open spec fn order_op(j: OrderJob) -> RelOp {
    match j.state {
        OrderState::Fold { .. } => match j.kind {
            OrderKind::Extreme { want_min, .. } => if want_min { RelOp::Lt } else { RelOp::Gt },
            _ => RelOp::Gt,
        },
        OrderState::Merge(_) => RelOp::Lt,
    }
}

/// What a finished ordering job comes to.
pub open spec fn order_finished(a: Vm, b: Vm, j: OrderJob, r: Step) -> bool {
    match j.state {
        OrderState::Fold { best, .. } => order_delivered(a, b, j.cont, if best < j.items@.len() { j.items@[best as int] } else { Value::Null }, r),
        OrderState::Merge(s) => order_rebuilt(a, b, match j.kind {
            OrderKind::Sort(shape) => shape,
            _ => SeqShape::List,
        }, permuted(j.items@, s.state().src@), j.cont, r),
    }
}

/// The task without its innermost ordering.
pub open spec fn without_order(a: Vm, m: Vm) -> bool {
    &&& m == (Vm { task: Task { orders: m.task.orders, ..a.task }, ..a })
    &&& m.task.orders@ == a.task.orders@.drop_last()
}

/// What driving the innermost ordering does: it asks on, natively where that
/// answers, or it is finished.
pub open spec fn drive_order_result(a: Vm, b: Vm, answer: Option<bool>, r: Step) -> bool {
    let j = a.task.orders@.last();
    exists|k: OrderJob, ask: Option<(usize, usize)>| {
        &&& #[trigger] order_step(j, k, answer, ask)
        &&& match ask {
            None => exists|m: Vm| #[trigger] without_order(a, m) && order_finished(m, b, k, r),
            Some((x, y)) => {
                &&& b.task.orders@.len() == a.task.orders@.len()
                &&& b.task.orders@.drop_last() == a.task.orders@.drop_last()
                &&& b.task.orders@.last() == k
                &&& order_asks(a, b, j, x, y, r)
            },
        }
    }
}

/// What becomes of a question of an ordering.
pub open spec fn order_asks(a: Vm, b: Vm, j: OrderJob, x: usize, y: usize, r: Step) -> bool {
    if x >= j.keys@.len() || y >= j.keys@.len() {
        faults(r, Exc::RuntimeError, "internal: an ordering asked about a key it does not have"@)
            && b == (Vm { task: Task { orders: b.task.orders, ..a.task }, ..a })
    } else {
        let l = j.keys@[x as int];
        let q = j.keys@[y as int];
        exists|native: Result<Option<bool>, VErr>| {
            &&& #[trigger] relate_result(a.heap, order_op(j), l, q, native)
            &&& match native {
                Err(e) => faults(r, e@.0, e@.1) && b == (Vm { task: Task { orders: b.task.orders, ..a.task }, ..a }),
                Ok(Some(v)) => r == Step::Order(Some(v)) && b == (Vm { task: Task { orders: b.task.orders, ..a.task }, ..a }),
                Ok(None) => {
                    &&& r matches Step::Ask(p) && *p == (l, q, order_op(j))
                    &&& b == (Vm { task: Task { orders: b.task.orders, compares: b.task.compares, ..a.task }, ..a })
                    &&& b.task.compares@.len() == a.task.compares@.len() + 1
                    &&& b.task.compares@.drop_last() == a.task.compares@
                    &&& b.task.compares@.last().levels@.len() == 0
                    &&& b.task.compares@.last().cont == CompareCont::Order
                },
            }
        }
    }
}

impl Vm {
    /// Hand a finished ordering to whoever asked for it.
    pub fn deliver_order(&mut self, cont: OrderCont, v: Value) -> (r: Step)
        requires old(self).running(),
        ensures order_delivered(*old(self), *final(self), cont, v, r),
    {
        match cont {
            OrderCont::Push => {
                self.push(v);
                Step::Next
            }
            OrderCont::Callback => Step::Give(Box::new((ReturnAction::DriveSeq, v))),
        }
    }

    /// Turn sorted elements into the collection asked for, and hand it over.
    pub fn finish_order(&mut self, shape: SeqShape, items: Vec<Value>, cont: OrderCont) -> (r: Step)
        requires old(self).running(),
        ensures order_rebuilt(*old(self), *final(self), shape, items@, cont, r),
    {
        let ghost a = *self;
        let ghost iv = items@;
        let v = rebuild_shape(&mut self.heap, shape, items);
        let ghost m = *self;
        let ghost vv = v;
        assert(rebuild_result(a.heap, m.heap, shape, iv, vv));
        match v {
            Ok(x) => self.deliver_order(cont, x),
            Err(e) => fail(e),
        }
    }

    /// An ordering that needs no method of a program.
    pub fn finish_order_native(&mut self, kind: OrderKind, items: Vec<Value>, keys: Vec<Value>, reverse: bool, cont: OrderCont) -> (r: Step)
        requires old(self).running(),
        ensures native_order_result(*old(self), *final(self), kind, items@, keys@, reverse, cont, r),
    {
        match kind {
            OrderKind::Extreme { want_min, by: _ } => {
                let n = if items.len() < keys.len() { items.len() } else { keys.len() };
                if n == 0 {
                    return fail(value_error(join2(kind.name(), "() arg is an empty sequence")));
                }
                match extreme_native(&self.heap, &keys, want_min, n) {
                    Err(e) => fail(e),
                    Ok(best) => self.deliver_order(cont, items[best]),
                }
            }
            OrderKind::Sort(shape) => {
                let p = sort_native(&self.heap, &keys, reverse);
                let ghost pv = p;
                assert(native_sort_result(self.heap, keys@, reverse, pv));
                match p {
                    Err(e) => fail(e),
                    Ok(places) => {
                        let out = apply_permutation(&items, &places);
                        self.finish_order(shape, out, cont)
                    }
                }
            }
        }
    }

    /// Begin an ordering of `items` by `keys`.
    pub fn begin_order(&mut self, kind: OrderKind, items: Vec<Value>, keys: Vec<Value>, reverse: bool, cont: OrderCont) -> (r: Step)
        requires old(self).running(),
        ensures begin_order_result(*old(self), *final(self), kind, items@, keys@, reverse, cont, r),
    {
        let deferring = any_defer(&self.heap, &keys);
        if !deferring {
            return self.finish_order_native(kind, items, keys, reverse, cont);
        }
        let state = match kind {
            OrderKind::Extreme { want_min: _, by: _ } => OrderState::Fold { best: 0, next: 1 },
            OrderKind::Sort(_) => OrderState::Merge(Sorter::new(keys.len())),
        };
        self.task.orders.push(OrderJob { kind, cont, keys, items, reverse, state });
        assert(self.task.orders@.drop_last() =~= old(self).task.orders@);
        Step::Order(None)
    }

    /// Drive the innermost ordering, given the answer it waited for.
    pub fn drive_order(&mut self, answer: Option<bool>) -> (r: Step)
        requires
            old(self).running(),
            old(self).task.orders@.len() > 0,
        ensures drive_order_result(*old(self), *final(self), answer, r),
    {
        let ghost a = *self;
        let ghost j0 = self.task.orders@.last();
        let mut job = match self.task.orders.pop() {
            Some(j) => j,
            None => {
                return Step::Next;
            }
        };
        let op = match &job.state {
            OrderState::Fold { best: _, next: _ } => match job.kind {
                OrderKind::Extreme { want_min, by: _ } => if want_min { RelOp::Lt } else { RelOp::Gt },
                _ => RelOp::Gt,
            },
            OrderState::Merge(_) => RelOp::Lt,
        };
        let n = job.keys.len();
        let (state, ask): (OrderState, Option<(usize, usize)>) = match job.state {
            OrderState::Fold { best, next } => {
                let b = if matches!(answer, Some(true)) { next } else { best };
                let x = if answer.is_some() && next < n { next + 1 } else { next };
                (OrderState::Fold { best: b, next: x }, if x < n && b < n { Some((x, b)) } else { None })
            }
            OrderState::Merge(s) => {
                let (t, q) = s.step(job.reverse, answer);
                (OrderState::Merge(t), q)
            }
        };
        let OrderJob { kind, cont, keys, items, reverse, state: _ } = job;
        let job = OrderJob { kind, cont, keys, items, reverse, state };
        let ghost k = job;
        assert(order_step(j0, k, answer, ask));
        match ask {
            None => {
                let ghost m = *self;
                assert(without_order(a, m));
                let OrderJob { kind, cont, keys: _, items, reverse: _, state } = job;
                match state {
                    OrderState::Fold { best, next: _ } => {
                        let v = if best < items.len() { items[best] } else { Value::Null };
                        self.deliver_order(cont, v)
                    }
                    OrderState::Merge(s) => {
                        let places = s.places();
                        let out = apply_permutation(&items, &places);
                        let shape = match kind {
                            OrderKind::Sort(shape) => shape,
                            OrderKind::Extreme { want_min: _, by: _ } => SeqShape::List,
                        };
                        self.finish_order(shape, out, cont)
                    }
                }
            }
            Some((x, y)) => {
                if x >= n || y >= n {
                    self.task.orders.push(job);
                    assert(self.task.orders@.drop_last() =~= a.task.orders@.drop_last());
                    return fault_step(Exc::RuntimeError, "internal: an ordering asked about a key it does not have");
                }
                let l = job.keys[x];
                let q = job.keys[y];
                self.task.orders.push(job);
                assert(self.task.orders@.drop_last() =~= a.task.orders@.drop_last());
                let native = try_relation(&self.heap, op, l, q);
                let ghost nv = native;
                assert(relate_result(a.heap, order_op(j0), l, q, nv));
                match native {
                    Err(e) => fail(e),
                    Ok(Some(v)) => Step::Order(Some(v)),
                    Ok(None) => {
                        self.task.compares.push(CompareJob { levels: Vec::new(), cont: CompareCont::Order });
                        assert(self.task.compares@.drop_last() =~= a.task.compares@);
                        Step::Ask(Box::new((l, q, op)))
                    }
                }
            }
        }
    }
}

} // verus!
