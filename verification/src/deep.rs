//! Comparison that runs a program's own comparison methods.
//!
//! A comparison of containers that meets such a method is suspended: each
//! level of it waits for the answer of a smaller one, and the machine goes on
//! in between.
use vstd::prelude::*;
use crate::call::{fail, fault_step, user_result};
use crate::code::RelOp;
use crate::exc::{Exc, VErr};
use crate::frame::ReturnAction;
use crate::keys::{dict_find, lookup_key};
use crate::machine::{restacked, CompareCont, CompareJob, Level, Step, Task, Vm};
use crate::membership::{membership_items, relate_result, try_relation};
use crate::names::kind_name;
use crate::number::Order;
use crate::relation::{is_same_object, no_order, no_order_text, op_symbol, ord_holds, reflect_dunder, rel_dunder, rel_holds, rel_reflected, rel_symbol, rich_dunder, same_object, DEPTH_LIMIT};
use crate::value::{Heap, Value};
use crate::wake::faults;

verus! {

/// Which method a comparison at the top level of an expression runs, on which
/// operand, and what is done with its answer.
pub ghost struct Dispatch {
    pub func: usize,
    pub defclass: usize,
    pub recv: Value,
    pub arg: Value,
    pub action: ReturnAction,
}

/// The method that decides `a op b`: the left operand's, or the right operand's
/// mirrored one. `!=` falls back to the opposite of `==`.
pub open spec fn dispatch(h: Heap, op: RelOp, a: Value, b: Value) -> Option<Dispatch> {
    match rel_dunder(op) {
        None => None,
        Some(name) => match h.method_of(a, name) {
            Some((f, c)) => Some(Dispatch { func: f, defclass: c, recv: a, arg: b, action: ReturnAction::Normal }),
            None => match (if op == RelOp::NotEq { h.method_of(a, "__eq__"@) } else { None }) {
                Some((f, c)) => Some(Dispatch { func: f, defclass: c, recv: a, arg: b, action: ReturnAction::NegateBool }),
                None => match h.method_of(b, rel_reflected(op)) {
                    Some((f, c)) => Some(Dispatch { func: f, defclass: c, recv: b, arg: a, action: ReturnAction::Normal }),
                    None => match (if op == RelOp::NotEq { h.method_of(b, "__eq__"@) } else { None }) {
                        Some((f, c)) => Some(Dispatch { func: f, defclass: c, recv: b, arg: a, action: ReturnAction::NegateBool }),
                        None => None,
                    },
                },
            },
        },
    }
}

/// A comparison job was begun between `a` and `b`, with these levels.
pub open spec fn compare_begun(a: Vm, b: Vm, cont: CompareCont) -> bool {
    &&& b == (Vm { task: Task { compares: b.task.compares, ..a.task }, ..a })
    &&& b.task.compares@.len() == a.task.compares@.len() + 1
    &&& b.task.compares@.drop_last() == a.task.compares@
    &&& b.task.compares@.last().cont == cont
}

/// What beginning a deep comparison does.
pub open spec fn begin_compare_result(a: Vm, b: Vm, op: RelOp, x: Value, y: Value, r: Step) -> bool {
    let negate = op == RelOp::NotEq || op == RelOp::NotIn;
    match op {
        RelOp::In | RelOp::NotIn => {
            let items = match y {
                Value::List(l) => Some(a.heap.list(l)),
                Value::Tuple(t) => Some(a.heap.tuple(t)),
                _ => None,
            };
            match items {
                Some(s) => {
                    &&& r == Step::Drive(crate::machine::Job::Compare)
                    &&& compare_begun(a, b, CompareCont::Push { negate })
                    &&& b.task.compares@.last().levels@.len() == 1
                    &&& b.task.compares@.last().levels@[0] matches Level::Contains { items, item, i }
                        && items@ == s && item == x && i == 0
                },
                None => faults(r, Exc::RuntimeError, "internal: "@ + kind_name(a.heap, y)
                    + " membership does not dispatch (item "@ + kind_name(a.heap, x) + ")"@) && b == a,
            }
        },
        _ => {
            &&& r matches Step::Ask(q) && *q == (x, y, if op == RelOp::NotEq { RelOp::Eq } else { op })
            &&& compare_begun(a, b, CompareCont::Push { negate })
            &&& b.task.compares@.last().levels@.len() == 0
        },
    }
}

/// What a comparison does that cannot be decided natively. At the top level
/// the method's own value is the result, whatever it is.
pub open spec fn compare_slow_result(a: Vm, b: Vm, op: RelOp, x: Value, y: Value, r: Step) -> bool {
    match dispatch(a.heap, op, x, y) {
        Some(d) => user_result(a, b, d.func, d.recv, d.defclass, seq![d.arg], Seq::empty(), d.action, r),
        None => begin_compare_result(a, b, op, x, y, r),
    }
}

/// What the comparison operators do.
pub open spec fn compare_result(a: Vm, b: Vm, op: RelOp, x: Value, y: Value, r: Step) -> bool {
    exists|native: Result<Option<bool>, VErr>| {
        &&& #[trigger] relate_result(a.heap, op, x, y, native)
        &&& match native {
            Err(e) => faults(r, e@.0, e@.1) && b == a,
            Ok(Some(v)) => r is Next && restacked(a, b, a.stack().push(Value::Bool(v))) && b.heap == a.heap,
            Ok(None) => compare_slow_result(a, b, op, x, y, r),
        }
    }
}

fn one(v: Value) -> (r: Vec<Value>)
    ensures r@ == seq![v],
{
    let mut out: Vec<Value> = Vec::new();
    out.push(v);
    assert(out@ =~= seq![v]);
    out
}

impl Vm {
    /// A comparison that a program's method takes part in.
    pub fn compare_slow(&mut self, op: RelOp, x: Value, y: Value) -> (r: Step)
        ensures compare_slow_result(*old(self), *final(self), op, x, y, r),
    {
        match rich_dunder(op) {
            None => {}
            Some(name) => {
                match self.heap.instance_method(x, name) {
                    Some((f, c)) => {
                        return self.invoke_user(f, x, c, one(y), Vec::new(), ReturnAction::Normal);
                    }
                    None => {}
                }
                let negating = matches!(op, RelOp::NotEq);
                if negating {
                    match self.heap.instance_method(x, "__eq__") {
                        Some((f, c)) => {
                            return self.invoke_user(f, x, c, one(y), Vec::new(), ReturnAction::NegateBool);
                        }
                        None => {}
                    }
                }
                match self.heap.instance_method(y, reflect_dunder(op)) {
                    Some((f, c)) => {
                        return self.invoke_user(f, y, c, one(x), Vec::new(), ReturnAction::Normal);
                    }
                    None => {}
                }
                if negating {
                    match self.heap.instance_method(y, "__eq__") {
                        Some((f, c)) => {
                            return self.invoke_user(f, y, c, one(x), Vec::new(), ReturnAction::NegateBool);
                        }
                        None => {}
                    }
                }
            }
        }
        self.begin_compare(op, x, y)
    }

    /// Begin a deep comparison. `!=` and `not in` are `==` and `in` with the
    /// answer turned round.
    pub fn begin_compare(&mut self, op: RelOp, x: Value, y: Value) -> (r: Step)
        ensures begin_compare_result(*old(self), *final(self), op, x, y, r),
    {
        let negate = matches!(op, RelOp::NotEq | RelOp::NotIn);
        match op {
            RelOp::In | RelOp::NotIn => {
                let items = match membership_items(&self.heap, y, x) {
                    Ok(v) => v,
                    Err(e) => {
                        return fail(e);
                    }
                };
                let mut levels: Vec<Level> = Vec::new();
                levels.push(Level::Contains { items, item: x, i: 0 });
                self.task.compares.push(CompareJob { levels, cont: CompareCont::Push { negate } });
                assert(self.task.compares@.drop_last() =~= old(self).task.compares@);
                Step::Drive(crate::machine::Job::Compare)
            }
            _ => {
                self.task.compares.push(CompareJob { levels: Vec::new(), cont: CompareCont::Push { negate } });
                assert(self.task.compares@.drop_last() =~= old(self).task.compares@);
                Step::Ask(Box::new((x, y, if matches!(op, RelOp::NotEq) { RelOp::Eq } else { op })))
            }
        }
    }

    /// A comparison operator.
    pub fn compare(&mut self, op: RelOp, x: Value, y: Value) -> (r: Step)
        requires old(self).running(),
        ensures compare_result(*old(self), *final(self), op, x, y, r),
    {
        let native = try_relation(&self.heap, op, x, y);
        let ghost nv = native;
        assert(relate_result(self.heap, op, x, y, nv));
        match native {
            Err(e) => fail(e),
            Ok(Some(v)) => {
                self.push(Value::Bool(v));
                Step::Next
            }
            Ok(None) => self.compare_slow(op, x, y),
        }
    }
}

/// Which method decides a pair inside a deep comparison.
pub open spec fn pair_dispatch(h: Heap, op: RelOp, x: Value, y: Value) -> Option<Dispatch> {
    match rel_dunder(op) {
        None => None,
        Some(name) => match h.method_of(x, name) {
            Some((f, c)) => Some(Dispatch { func: f, defclass: c, recv: x, arg: y, action: ReturnAction::DriveCompare }),
            None => match h.method_of(y, rel_reflected(op)) {
                Some((f, c)) => Some(Dispatch { func: f, defclass: c, recv: y, arg: x, action: ReturnAction::DriveCompare }),
                None => None,
            },
        },
    }
}

/// The innermost comparison of `b` is that of `a` with one more level.
pub open spec fn deepened(a: Vm, b: Vm) -> bool {
    let j = a.task.compares@.last();
    let k = b.task.compares@.last();
    &&& b == (Vm { task: Task { compares: b.task.compares, ..a.task }, ..a })
    &&& b.task.compares@.len() == a.task.compares@.len()
    &&& b.task.compares@.drop_last() == a.task.compares@.drop_last()
    &&& k.cont == j.cont
    &&& k.levels@.len() == j.levels@.len() + 1
    &&& k.levels@.drop_last() == j.levels@
}

/// The values of two dicts paired up by key; `None` where a key of the first is
/// not in the second.
pub open spec fn paired_values(h: Heap, xs: Seq<(Value, Value)>, ys: Seq<(Value, Value)>, n: int) -> Option<(Seq<Value>, Seq<Value>)>
    decreases n,
{
    if n <= 0 {
        Some((Seq::empty(), Seq::empty()))
    } else {
        match paired_values(h, xs, ys, n - 1) {
            None => None,
            Some((p, q)) => match lookup_key(h, ys, xs[n - 1].0) {
                None => None,
                Some(v) => Some((p.push(xs[n - 1].1), q.push(v))),
            },
        }
    }
}

proof fn lemma_paired_none(h: Heap, xs: Seq<(Value, Value)>, ys: Seq<(Value, Value)>, i: int, n: int)
    requires 0 <= i <= n, paired_values(h, xs, ys, i) is None,
    ensures paired_values(h, xs, ys, n) is None,
    decreases n - i,
{
    if i < n {
        lemma_paired_none(h, xs, ys, i, n - 1);
    }
}

fn pair_values(h: &Heap, x: usize, y: usize) -> (r: Option<(Vec<Value>, Vec<Value>)>)
    ensures
        match paired_values(*h, h.dict(x), h.dict(y), h.dict(x).len() as int) {
            Some((p, q)) => r matches Some((u, v)) && u@ == p && v@ == q,
            None => r is None,
        },
{
    let n = h.dict_len(x);
    let mut p: Vec<Value> = Vec::new();
    let mut q: Vec<Value> = Vec::new();
    let mut i: usize = 0;
    while i < n
        invariant
            i <= n,
            n == h.dict(x).len(),
            paired_values(*h, h.dict(x), h.dict(y), i as int) == Some((p@, q@)),
        decreases n - i,
    {
        let e = h.dict_at(x, i);
        match dict_find(h, y, e.0) {
            None => {
                proof { lemma_paired_none(*h, h.dict(x), h.dict(y), i + 1, n as int); }
                return None;
            }
            Some(j) => {
                p.push(e.1);
                q.push(h.dict_at(y, j).1);
            }
        }
        i += 1;
    }
    Some((p, q))
}

/// What becomes of a pair that neither native code nor a method of its own
/// decides: its parts are compared, or it is settled by what it is.
pub open spec fn structural_result(a: Vm, b: Vm, op: RelOp, x: Value, y: Value, r: Step) -> bool {
    let drive = Step::Drive(crate::machine::Job::Compare);
    match (x, y) {
        (Value::List(p), Value::List(q)) => {
            &&& r == drive && deepened(a, b)
            &&& b.task.compares@.last().levels@.last() matches Level::Items { a: u, b: v, i, op: o, deciding }
                && u@ == a.heap.list(p) && v@ == a.heap.list(q) && i == 0 && o == op && !deciding
        },
        (Value::Tuple(p), Value::Tuple(q)) => {
            &&& r == drive && deepened(a, b)
            &&& b.task.compares@.last().levels@.last() matches Level::Items { a: u, b: v, i, op: o, deciding }
                && u@ == a.heap.tuple(p) && v@ == a.heap.tuple(q) && i == 0 && o == op && !deciding
        },
        (Value::Dict(p), Value::Dict(q)) => if a.heap.dict(p).len() != a.heap.dict(q).len() {
            r == Step::Answer(false) && b == a
        } else {
            match paired_values(a.heap, a.heap.dict(p), a.heap.dict(q), a.heap.dict(p).len() as int) {
                None => r == Step::Answer(false) && b == a,
                Some((s, t)) => {
                    &&& r == drive && deepened(a, b)
                    &&& b.task.compares@.last().levels@.last() matches Level::Vals { a: u, b: v, i }
                        && u@ == s && v@ == t && i == 0
                },
            }
        },
        (Value::Method(p), Value::Method(q)) => {
            &&& r matches Step::Ask(w) && *w == (receiver_of(a.heap, p), receiver_of(a.heap, q), RelOp::Eq)
            &&& b == a
        },
        _ => match op {
            RelOp::Eq | RelOp::NotEq => r == Step::Answer(same_object(x, y)) && b == a,
            _ => faults(r, Exc::TypeError, no_order_text(a.heap, rel_symbol(op), x, y)) && b == a,
        },
    }
}

/// The receiver of a bound method.
pub open spec fn receiver_of(h: Heap, m: usize) -> Value {
    if m < h.methods@.len() { h.methods@[m as int].receiver } else { Value::Null }
}

/// What deciding one pair of the innermost comparison does.
pub open spec fn pair_result(a: Vm, b: Vm, op: RelOp, x: Value, y: Value, r: Step) -> bool {
    exists|native: Result<Option<bool>, VErr>| {
        &&& #[trigger] relate_result(a.heap, op, x, y, native)
        &&& match native {
            Err(e) => faults(r, e@.0, e@.1) && b == a,
            Ok(Some(v)) => r == Step::Answer(v) && b == a,
            Ok(None) => match pair_dispatch(a.heap, op, x, y) {
                Some(d) => exists|m: Vm| {
                    &&& #[trigger] deepened(a, m)
                    &&& m.task.compares@.last().levels@.last() is Dunder
                    &&& user_result(m, b, d.func, d.recv, d.defclass, seq![d.arg], Seq::empty(), d.action, r)
                },
                None => if a.task.compares@.last().levels@.len() >= DEPTH_LIMIT {
                    faults(r, Exc::RecursionError, "maximum recursion depth exceeded in comparison"@) && b == a
                } else {
                    structural_result(a, b, op, x, y, r)
                },
            },
        }
    }
}

impl Vm {
    fn push_level(&mut self, level: Level)
        requires old(self).task.compares@.len() > 0,
        ensures
            deepened(*old(self), *final(self)),
            final(self).task.compares@.last().levels@.last() == level,
    {
        let n = self.task.compares.len();
        self.task.compares[n - 1].levels.push(level);
        assert(self.task.compares@.drop_last() =~= old(self).task.compares@.drop_last());
        assert(self.task.compares@.last().levels@.drop_last() =~= old(self).task.compares@.last().levels@);
    }

    /// Decide one pair of the innermost comparison.
    pub fn step_pair(&mut self, x: Value, y: Value, op: RelOp) -> (r: Step)
        requires old(self).task.compares@.len() > 0,
        ensures pair_result(*old(self), *final(self), op, x, y, r),
    {
        let ghost a = *self;
        let native = try_relation(&self.heap, op, x, y);
        let ghost nv = native;
        assert(relate_result(a.heap, op, x, y, nv));
        match native {
            Err(e) => {
                return fail(e);
            }
            Ok(Some(v)) => {
                return Step::Answer(v);
            }
            Ok(None) => {}
        }
        if let Some(name) = rich_dunder(op) {
            if let Some((f, c)) = self.heap.instance_method(x, name) {
                self.push_level(Level::Dunder);
                let ghost m = *self;
                assert(deepened(a, m));
                return self.invoke_user(f, x, c, one(y), Vec::new(), ReturnAction::DriveCompare);
            }
            if let Some((f, c)) = self.heap.instance_method(y, reflect_dunder(op)) {
                self.push_level(Level::Dunder);
                let ghost m = *self;
                assert(deepened(a, m));
                return self.invoke_user(f, y, c, one(x), Vec::new(), ReturnAction::DriveCompare);
            }
        }
        let n = self.task.compares.len();
        if self.task.compares[n - 1].levels.len() >= DEPTH_LIMIT {
            return fault_step(Exc::RecursionError, "maximum recursion depth exceeded in comparison");
        }
        match (x, y) {
            (Value::List(p), Value::List(q)) => {
                let level = Level::Items { a: self.heap.list_copy(p), b: self.heap.list_copy(q), i: 0, op, deciding: false };
                self.push_level(level);
                Step::Drive(crate::machine::Job::Compare)
            }
            (Value::Tuple(p), Value::Tuple(q)) => {
                let level = Level::Items { a: self.heap.tuple_copy(p), b: self.heap.tuple_copy(q), i: 0, op, deciding: false };
                self.push_level(level);
                Step::Drive(crate::machine::Job::Compare)
            }
            (Value::Dict(p), Value::Dict(q)) => {
                if self.heap.dict_len(p) != self.heap.dict_len(q) {
                    return Step::Answer(false);
                }
                match pair_values(&self.heap, p, q) {
                    None => Step::Answer(false),
                    Some((s, t)) => {
                        self.push_level(Level::Vals { a: s, b: t, i: 0 });
                        Step::Drive(crate::machine::Job::Compare)
                    }
                }
            }
            (Value::Method(p), Value::Method(q)) => {
                let s = if p < self.heap.methods.len() { self.heap.methods[p].receiver } else { Value::Null };
                let t = if q < self.heap.methods.len() { self.heap.methods[q].receiver } else { Value::Null };
                Step::Ask(Box::new((s, t, RelOp::Eq)))
            }
            _ => match op {
                RelOp::Eq | RelOp::NotEq => Step::Answer(is_same_object(x, y)),
                _ => fail(no_order(&self.heap, op_symbol(op), x, y)),
            },
        }
    }
}

/// What a level does next.
pub ghost enum LevelNext {
    /// It is decided.
    Done(bool),
    /// It wants this pair compared.
    Ask(Value, Value, RelOp),
    /// It settled an element by itself.
    Retry,
}

/// How two lengths stand.
pub open spec fn sizes(a: nat, b: nat) -> Order {
    if a < b { Order::Less } else if a > b { Order::Greater } else { Order::Equal }
}

/// What a level does next, given the answer it waited for, and the level it is
/// then.
pub open spec fn level_step(l: Level, to: Level, incoming: Option<bool>, next: LevelNext) -> bool {
    match l {
        Level::Dunder => to == l && next == LevelNext::Done(incoming == Some(true)),
        Level::Items { a, b, i, op, deciding } => {
            &&& to matches Level::Items { a: a2, b: b2, i: i2, op: op2, deciding: d2 }
                && a2 == a && b2 == b && op2 == op && {
                    if deciding {
                        next == LevelNext::Done(incoming == Some(true)) && i2 == i && d2 == deciding
                    } else if incoming == Some(false) && 0 < i <= a@.len() && i <= b@.len() {
                        // The first pair that differs decides, by the operator.
                        if op == RelOp::Eq {
                            next == LevelNext::Done(false) && i2 == i && !d2
                        } else {
                            next == LevelNext::Ask(a@[i - 1], b@[i - 1], op) && i2 == i && d2
                        }
                    } else if i < a@.len() && i < b@.len() {
                        &&& i2 == i + 1 && !d2
                        &&& next == (if same_object(a@[i as int], b@[i as int]) {
                            LevelNext::Retry
                        } else {
                            LevelNext::Ask(a@[i as int], b@[i as int], RelOp::Eq)
                        })
                    } else {
                        next == LevelNext::Done(rel_holds(op, sizes(a@.len(), b@.len()))) && i2 == i && !d2
                    }
                }
        },
        Level::Vals { a, b, i } => {
            &&& to matches Level::Vals { a: a2, b: b2, i: i2 }
                && a2 == a && b2 == b && {
                    if incoming == Some(false) {
                        next == LevelNext::Done(false) && i2 == i
                    } else if i < a@.len() && i < b@.len() {
                        &&& i2 == i + 1
                        &&& next == (if same_object(a@[i as int], b@[i as int]) {
                            LevelNext::Retry
                        } else {
                            LevelNext::Ask(a@[i as int], b@[i as int], RelOp::Eq)
                        })
                    } else {
                        next == LevelNext::Done(true) && i2 == i
                    }
                }
        },
        Level::Contains { items, item, i } => {
            &&& to matches Level::Contains { items: s2, item: t2, i: i2 }
                && s2 == items && t2 == item && {
                    if incoming == Some(true) {
                        next == LevelNext::Done(true) && i2 == i
                    } else if i < items@.len() {
                        &&& i2 == i + 1
                        &&& next == (if same_object(items@[i as int], item) {
                            LevelNext::Done(true)
                        } else {
                            LevelNext::Ask(items@[i as int], item, RelOp::Eq)
                        })
                    } else {
                        next == LevelNext::Done(false) && i2 == i
                    }
                }
        },
    }
}

/// What advancing the innermost level of the innermost comparison does.
pub open spec fn advance_result(a: Vm, b: Vm, incoming: Option<bool>, r: Step) -> bool {
    let j = a.task.compares@.last();
    exists|to: Level, next: LevelNext| {
        let k = b.task.compares@.last();
        &&& #[trigger] level_step(j.levels@.last(), to, incoming, next)
        &&& b == (Vm { task: Task { compares: b.task.compares, ..a.task }, ..a })
        &&& b.task.compares@.len() == a.task.compares@.len()
        &&& b.task.compares@.drop_last() == a.task.compares@.drop_last()
        &&& k.cont == j.cont
        &&& match next {
            LevelNext::Done(v) => r == Step::Answer(v) && k.levels@ == j.levels@.drop_last(),
            LevelNext::Ask(x, y, op) => (r matches Step::Ask(q) && *q == (x, y, op))
                && k.levels@ == j.levels@.drop_last().push(to),
            LevelNext::Retry => r == Step::Drive(crate::machine::Job::Compare)
                && k.levels@ == j.levels@.drop_last().push(to),
        }
    }
}

/// A level's next move, before it is a step.
enum Move {
    Done(bool),
    Ask(Value, Value, RelOp),
    Retry,
}

impl Move {
    spec fn next(&self) -> LevelNext {
        match *self {
            Move::Done(v) => LevelNext::Done(v),
            Move::Ask(x, y, op) => LevelNext::Ask(x, y, op),
            Move::Retry => LevelNext::Retry,
        }
    }
}

fn advance_level(l: Level, incoming: Option<bool>) -> (r: (Level, Move))
    ensures level_step(l, r.0, incoming, r.1.next()),
{
    match l {
        Level::Dunder => {
            let v = matches!(incoming, Some(true));
            (Level::Dunder, Move::Done(v))
        }
        Level::Items { a, b, i, op, deciding } => {
            if deciding {
                let v = matches!(incoming, Some(true));
                let to = Level::Items { a, b, i, op, deciding };
                return (to, Move::Done(v));
            }
            if matches!(incoming, Some(false)) && 0 < i && i <= a.len() && i <= b.len() {
                if matches!(op, RelOp::Eq) {
                    let to = Level::Items { a, b, i, op, deciding: false };
                    return (to, Move::Done(false));
                }
                let x = a[i - 1];
                let y = b[i - 1];
                let to = Level::Items { a, b, i, op, deciding: true };
                return (to, Move::Ask(x, y, op));
            }
            if i < a.len() && i < b.len() {
                let x = a[i];
                let y = b[i];
                let to = Level::Items { a, b, i: i + 1, op, deciding: false };
                if is_same_object(x, y) {
                    return (to, Move::Retry);
                }
                return (to, Move::Ask(x, y, RelOp::Eq));
            }
            let o = if a.len() < b.len() { Order::Less } else if a.len() > b.len() { Order::Greater } else { Order::Equal };
            let v = ord_holds(op, o);
            let to = Level::Items { a, b, i, op, deciding: false };
            (to, Move::Done(v))
        }
        Level::Vals { a, b, i } => {
            if matches!(incoming, Some(false)) {
                let to = Level::Vals { a, b, i };
                return (to, Move::Done(false));
            }
            if i < a.len() && i < b.len() {
                let x = a[i];
                let y = b[i];
                let to = Level::Vals { a, b, i: i + 1 };
                if is_same_object(x, y) {
                    return (to, Move::Retry);
                }
                return (to, Move::Ask(x, y, RelOp::Eq));
            }
            let to = Level::Vals { a, b, i };
            (to, Move::Done(true))
        }
        Level::Contains { items, item, i } => {
            if matches!(incoming, Some(true)) {
                let to = Level::Contains { items, item, i };
                return (to, Move::Done(true));
            }
            if i < items.len() {
                let x = items[i];
                let to = Level::Contains { items, item, i: i + 1 };
                if is_same_object(x, item) {
                    return (to, Move::Done(true));
                }
                return (to, Move::Ask(x, item, RelOp::Eq));
            }
            let to = Level::Contains { items, item, i };
            (to, Move::Done(false))
        }
    }
}

/// What an answer does to the innermost comparison.
pub open spec fn answer_result(a: Vm, b: Vm, v: bool, r: Step) -> bool {
    let j = a.task.compares@.last();
    if j.levels@.len() > 0 {
        advance_result(a, b, Some(v), r)
    } else {
        match j.cont {
            CompareCont::Push { negate } => exists|m: Vm| {
                &&& #[trigger] without_compare(a, m)
                &&& r is Next
                &&& restacked(m, b, a.stack().push(Value::Bool(v != negate)))
                &&& b.heap == a.heap
            },
            CompareCont::Order => r == Step::Order(Some(v)) && without_compare(a, b),
        }
    }
}

/// The task without its innermost comparison.
pub open spec fn without_compare(a: Vm, m: Vm) -> bool {
    &&& m == (Vm { task: Task { compares: m.task.compares, ..a.task }, ..a })
    &&& m.task.compares@ == a.task.compares@.drop_last()
}

impl Vm {
    /// Advance the innermost level of the innermost comparison.
    pub fn advance(&mut self, incoming: Option<bool>) -> (r: Step)
        requires
            old(self).task.compares@.len() > 0,
            old(self).task.compares@.last().levels@.len() > 0,
        ensures advance_result(*old(self), *final(self), incoming, r),
    {
        let ghost a = *self;
        let ghost j = a.task.compares@.last();
        let n = self.task.compares.len();
        let top = match self.task.compares[n - 1].levels.pop() {
            Some(l) => l,
            None => Level::Dunder,
        };
        let ghost l0 = top;
        assert(l0 == j.levels@.last());
        assert(self.task.compares@.drop_last() =~= a.task.compares@.drop_last());
        let (to, mv) = advance_level(top, incoming);
        let ghost t = to;
        assert(level_step(l0, t, incoming, mv.next()));
        match mv {
            Move::Done(v) => Step::Answer(v),
            Move::Ask(x, y, op) => {
                self.task.compares[n - 1].levels.push(to);
                assert(self.task.compares@.drop_last() =~= a.task.compares@.drop_last());
                Step::Ask(Box::new((x, y, op)))
            }
            Move::Retry => {
                self.task.compares[n - 1].levels.push(to);
                assert(self.task.compares@.drop_last() =~= a.task.compares@.drop_last());
                Step::Drive(crate::machine::Job::Compare)
            }
        }
    }

    /// Give the innermost comparison the answer it waits for.
    pub fn answer(&mut self, v: bool) -> (r: Step)
        requires
            old(self).running(),
            old(self).task.compares@.len() > 0,
        ensures answer_result(*old(self), *final(self), v, r),
    {
        let ghost a = *self;
        let n = self.task.compares.len();
        if self.task.compares[n - 1].levels.len() > 0 {
            return self.advance(Some(v));
        }
        let cont = self.task.compares[n - 1].cont;
        let _j = self.task.compares.pop();
        let ghost m = *self;
        assert(without_compare(a, m));
        match cont {
            CompareCont::Push { negate } => {
                self.push(Value::Bool(v != negate));
                Step::Next
            }
            CompareCont::Order => Step::Order(Some(v)),
        }
    }
}

} // verus!
