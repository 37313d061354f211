//! What holds across the parts of the machine.
use vstd::prelude::*;
use crate::arith::{holds_int, invert_result, neg_result, Arith};
use crate::bigint::{floor_div, floor_mod};
use crate::call::{func_result, makes_generator, user_result};
use crate::collect::run_end;
use crate::exc::{Exc, VErr};
use crate::exceptions::{digits_value, exit_code_of};
use crate::control::last_finally;
use crate::flow::return_result;
use crate::frame::{Frame, ReturnAction};
use crate::machine::{Keyword, Step, Task, Vm, MAX_FRAMES};
use crate::modules::exit_asked;
use crate::names::truthy;
use crate::number::{num, Num};
use crate::program::{pick_result, settled, End, Picked, Run};
use crate::reactor::Reactor;
use crate::repr::{holders, instances_from, instances_within, repr_entries, repr_instances, repr_items, repr_value, Splice};
use crate::run::Slice;
use crate::sched::{IoWait, Park};
use crate::step::end_finally_result;
use crate::streams::armed_wait;
use crate::tasks::start_result;
use crate::text::{digit_char, int_text, nat_text};
use crate::value::{Heap, TaskId, Value};
use crate::wake::faults;

verus! {

/// The quotient and the remainder of two integers belong together, and the
/// remainder has the sign of the divisor.
pub proof fn quotient_and_remainder(a: int, b: int)
    requires b != 0,
    ensures
        b * floor_div(a, b) + floor_mod(a, b) == a,
        b > 0 ==> 0 <= floor_mod(a, b) < b,
        b < 0 ==> b < floor_mod(a, b) <= 0,
{
    if b > 0 {
        vstd::arithmetic::div_mod::lemma_fundamental_div_mod(a, b);
        vstd::arithmetic::div_mod::lemma_mod_bound(a, b);
    } else {
        vstd::arithmetic::div_mod::lemma_fundamental_div_mod(-a, -b);
        vstd::arithmetic::div_mod::lemma_mod_bound(-a, -b);
        let q = (-a) / (-b);
        assert((-b) * q == -(b * q)) by (nonlinear_arith);
    }
}

/// Negating an integer twice gives it back, however large it is on the way.
pub proof fn negating_twice(h: Heap, h2: Heap, h3: Heap, v: Value, x: int, once: Result<Arith, VErr>, twice: Result<Arith, VErr>)
    requires
        num(h, v) == Some(Num::Int(x)),
        neg_result(h, h2, v, once),
        once matches Ok(Arith::Done(w)) ==> neg_result(h2, h3, w, twice),
    ensures
        once is Ok && once->Ok_0 is Done,
        twice matches Ok(Arith::Done(u)) && holds_int(h3, u, x),
{
    let w = (once->Ok_0)->Done_0;
    assert(num(h2, w) == Some(Num::Int(-x)));
}

/// Inverting an integer twice gives it back.
pub proof fn inverting_twice(h: Heap, h2: Heap, h3: Heap, v: Value, x: int, once: Result<Value, VErr>, twice: Result<Value, VErr>)
    requires
        num(h, v) == Some(Num::Int(x)),
        invert_result(h, h2, v, once),
        once matches Ok(w) ==> invert_result(h2, h3, w, twice),
    ensures
        once is Ok,
        twice matches Ok(u) && holds_int(h3, u, x),
{
    let w = once->Ok_0;
    assert(num(h2, w) == Some(Num::Int(-x - 1)));
}

/// An integer is inline exactly where it fits: its value decides how it is
/// held, and not the way it was computed.
pub proof fn integers_are_canonical(h: Heap, v: Value, w: Value, n: int)
    requires
        holds_int(h, v, n),
        holds_int(h, w, n),
    ensures
        i64::MIN <= n <= i64::MAX ==> v == w && v == Value::Int(n as i64),
        !(i64::MIN <= n <= i64::MAX) ==> v is Big && w is Big,
{
}

proof fn lemma_digits_of(n: nat)
    ensures
        digits_value(nat_text(n)) == Some(n as int),
        nat_text(n).len() > 0,
        nat_text(n)[0] != '-' && nat_text(n)[0] != '+',
    decreases n,
{
    let t = nat_text(n);
    if n < 10 {
        assert(t.drop_last() =~= Seq::empty());
        assert(t.last() == digit_char(n));
        assert(digits_value(Seq::<char>::empty()) == Some(0int));
    } else {
        lemma_digits_of(n / 10);
        assert(t.drop_last() =~= nat_text(n / 10));
        assert(t.last() == digit_char(n % 10));
        assert(t[0] == nat_text(n / 10)[0]);
    }
}

/// `sys.exit(n)` exits with `n`: the code survives its way through the fault
/// that carries it.
pub proof fn exit_codes_arrive(args: Seq<Value>)
    requires exit_asked(args) matches Some(n) && -0x8000_0000 <= n <= 0x7fff_ffff,
    ensures exit_code_of(int_text(exit_asked(args)->0 as int)) == exit_asked(args)->0,
{
    let n = exit_asked(args)->0 as int;
    let t = int_text(n);
    if n < 0 {
        lemma_digits_of((-n) as nat);
        assert(t.skip(1) =~= nat_text((-n) as nat));
        assert(t[0] == '-');
    } else {
        lemma_digits_of(n as nat);
    }
}

/// A deadline is fixed when an operation first waits, and stays: waiting again
/// moves neither it nor the name its timer knows it by.
pub proof fn deadlines_are_fixed_once(a: Vm, b: Vm, re: Reactor, task: TaskId, w: IoWait, token: usize, now: u64, r: Result<IoWait, VErr>)
    requires
        armed_wait(a, b, re, task, w, token, now, r),
        w.seq != 0,
    ensures
        r matches Ok(v) && v.deadline == w.deadline && v.seq == w.seq && v.op == w.op,
        b.reactor.timers == re.timers,
{
}

/// What `take_while` keeps and what `drop_while` keeps are all there was.
pub proof fn leading_runs_split(h: Heap, items: Seq<Value>, results: Seq<Value>, n: int)
    requires 0 <= n <= items.len(),
    ensures
        0 <= run_end(h, results, n, 0) <= n,
        items.subrange(0, run_end(h, results, n, 0)) + items.subrange(run_end(h, results, n, 0), n) == items.take(n),
        forall|i: int| 0 <= i < run_end(h, results, n, 0) ==> truthy(h, #[trigger] results[i]),
        run_end(h, results, n, 0) < n ==> !truthy(h, results[run_end(h, results, n, 0)]),
{
    lemma_run(h, results, n, 0);
    let k = run_end(h, results, n, 0);
    assert(items.subrange(0, k) + items.subrange(k, n) =~= items.take(n));
}

proof fn lemma_run(h: Heap, rs: Seq<Value>, n: int, i: int)
    requires 0 <= i <= n,
    ensures
        i <= run_end(h, rs, n, i) <= n,
        forall|j: int| i <= j < run_end(h, rs, n, i) ==> truthy(h, #[trigger] rs[j]),
        run_end(h, rs, n, i) < n ==> !truthy(h, rs[run_end(h, rs, n, i)]),
    decreases n - i,
{
    if i < n && truthy(h, rs[i]) {
        lemma_run(h, rs, n, i + 1);
        assert forall|j: int| i <= j < run_end(h, rs, n, i) implies truthy(h, #[trigger] rs[j]) by {
        }
    }
}

/// Everybody who can run or waits.
pub open spec fn others_left(a: Vm) -> nat {
    a.ready@.len() + a.parked@.len()
}

/// A task that yields or waits is not lost: it is among the others afterwards,
/// unless the program ends there in a deadlock.
pub proof fn suspending_loses_nobody(a: Vm, ra: Run, p: Box<Park>, b: Vm, rb: Run, end: Option<End>)
    requires
        settled(a, ra, Slice::Parked(p), b, rb, end),
        end is None,
    ensures
        others_left(b) == others_left(a) + 1,
        b.heap == a.heap,
        rb.result == ra.result,
{
}

/// A deadlock is reported only when nobody can run and nothing outside the
/// machine can wake anybody; whoever yields never causes one.
pub proof fn deadlocks_are_real(a: Vm, ra: Run, p: Box<Park>, b: Vm, rb: Run, end: Option<End>)
    requires
        settled(a, ra, Slice::Parked(p), b, rb, end),
        end is Some,
    ensures
        a.ready@.len() == 0,
        a.reactor.idle(),
        !(*p is Yield) && !(*p is YieldReady),
{
}

/// Changing tasks takes exactly one, the one that could run for the longest,
/// and the program ends only when nobody is left or nobody can ever be woken.
pub proof fn picking_is_fair(a: Vm, ra: Run, b: Vm, rb: Run, p: Picked)
    requires pick_result(a, ra, b, rb, p),
    ensures
        p is Task ==> others_left(b) == others_left(a) - 1 && b.task == a.ready@[0],
        p is Wait ==> b == a && !a.reactor.idle(),
        p is Ended ==> a.ready@.len() == 0 && (a.parked@.len() == 0 || a.reactor.idle()),
{
}

/// A spawned call is bound as the direct call is: it fails for the same reason,
/// in the same words, before there is a task.
pub proof fn spawning_binds_like_calling(a: Vm, b: Vm, c: Vm, func: usize, args: Seq<Value>, kwargs: Seq<Keyword>, spawned: Step, called: Step)
    requires
        start_result(a, b, func, None, None, args, kwargs, spawned),
        func_result(a, c, func, args, kwargs, called),
        !makes_generator(a.heap, func),
        a.task.frames@.len() < MAX_FRAMES,
    ensures
        spawned is Fault <==> called is Fault,
        spawned matches Step::Fault(e) ==> b == a && (called matches Step::Fault(f) && (*f)@ == (*e)@),
{
}

/// No call makes a task's frames more than the limit.
pub proof fn calls_respect_the_limit(a: Vm, b: Vm, func: usize, recv: Value, defclass: usize, args: Seq<Value>, kwargs: Seq<Keyword>, action: ReturnAction, r: Step)
    requires
        user_result(a, b, func, recv, defclass, args, kwargs, action, r),
        a.task.frames@.len() <= MAX_FRAMES,
    ensures
        b.task.frames@.len() <= MAX_FRAMES,
        a.task.frames@.len() == MAX_FRAMES ==> faults(r, Exc::RecursionError, crate::call::too_deep_text()),
{
}

/// A call comes back to where it was made. Whatever its body did in its own
/// frame, the value is on the caller's stack, and the caller is as it was.
pub proof fn calls_come_back(a: Vm, b: Vm, c: Vm, d: Vm, func: usize, args: Seq<Value>, kwargs: Seq<Keyword>, v: Value, called: Step, back: Step)
    requires
        a.running(),
        a.task.frames@.len() < MAX_FRAMES,
        !makes_generator(a.heap, func),
        func_result(a, b, func, args, kwargs, called),
        called is Next,
        c.task.frames@.len() == b.task.frames@.len(),
        c.task.frames@.drop_last() == b.task.frames@.drop_last(),
        c.top().ret_action == b.top().ret_action,
        last_finally(c.top().blocks@) is None,
        return_result(c, d, v, back),
    ensures
        back is Next,
        d.task.frames@.len() == a.task.frames@.len(),
        d.task.frames@.drop_last() == a.task.frames@.drop_last(),
        d.top() == (Frame { stack: d.top().stack, ..a.top() }),
        d.stack() == a.stack().push(v),
        d.heap == c.heap,
{
    assert(b.task.frames@.drop_last() =~= a.task.frames@);
}

/// A `return` inside a `try` with a `finally` leaves only after the `finally`
/// has run, and then with the value it had.
pub proof fn returns_run_finally_first(a: Vm, b: Vm, c: Vm, d: Vm, v: Value, r: Step, end: Step)
    requires
        a.running(),
        last_finally(a.top().blocks@) is Some,
        return_result(a, b, v, r),
        c.task.finally_why == b.task.finally_why,
        end_finally_result(c, d, end),
    ensures
        r is Next,
        b.task.frames@.len() == a.task.frames@.len(),
        exists|m: Vm| m == (Vm { task: Task { finally_why: m.task.finally_why, ..c.task }, ..c })
            && m.task.finally_why@ == a.task.finally_why@ && #[trigger] return_result(m, d, v, end),
{
    assert(b.task.finally_why@.drop_last() =~= a.task.finally_why@);
}

/// Rendering a container uses exactly the texts of the instances that were
/// collected for it, each once.
pub proof fn renderings_use_every_text(h: Heap, v: Value, texts: Seq<Seq<char>>)
    requires
        texts.len() == repr_instances(h, v, Seq::empty()).len(),
        texts.len() <= usize::MAX,
    ensures repr_value(h, v, Splice { on: true, texts }, 0, Seq::empty()).1 == texts.len(),
{
    lemma_texts_used(h, v, Splice { on: true, texts }, 0, Seq::empty());
}

proof fn lemma_texts_used(h: Heap, v: Value, sp: Splice, idx: nat, path: Seq<Value>)
    requires
        sp.on,
        sp.texts.len() <= usize::MAX,
        idx + repr_instances(h, v, path).len() <= sp.texts.len(),
    ensures repr_value(h, v, sp, idx, path).1 == idx + repr_instances(h, v, path).len(),
    decreases holders(h) - path.len(), 0int, 0int,
{
    let cyclic = path.contains(v) || path.len() >= holders(h);
    if !cyclic {
        match v {
            Value::List(i) => lemma_items_used(h, h.list(i), 0, sp, idx, path.push(v)),
            Value::Tuple(i) => lemma_items_used(h, h.tuple(i), 0, sp, idx, path.push(v)),
            Value::Dict(i) => lemma_entries_used(h, h.dict(i), 0, sp, idx, path.push(v)),
            _ => {}
        }
    }
}

proof fn lemma_items_used(h: Heap, items: Seq<Value>, k: int, sp: Splice, idx: nat, path: Seq<Value>)
    requires
        sp.on,
        sp.texts.len() <= usize::MAX,
        idx + instances_from(h, items, k, path).len() <= sp.texts.len(),
    ensures repr_items(h, items, k, sp, idx, path).1 == idx + instances_from(h, items, k, path).len(),
    decreases holders(h) - path.len(), 1int, items.len() - k,
{
    if 0 <= k < items.len() {
        lemma_texts_used(h, items[k], sp, idx, path);
        let n = repr_value(h, items[k], sp, idx, path).1;
        lemma_items_used(h, items, k + 1, sp, n, path);
    }
}

proof fn lemma_entries_used(h: Heap, items: Seq<(Value, Value)>, k: int, sp: Splice, idx: nat, path: Seq<Value>)
    requires
        sp.on,
        sp.texts.len() <= usize::MAX,
        idx + instances_within(h, items, k, path).len() <= sp.texts.len(),
    ensures repr_entries(h, items, k, sp, idx, path).1 == idx + instances_within(h, items, k, path).len(),
    decreases holders(h) - path.len(), 1int, items.len() - k,
{
    if 0 <= k < items.len() {
        lemma_texts_used(h, items[k].0, sp, idx, path);
        let n = repr_value(h, items[k].0, sp, idx, path).1;
        lemma_texts_used(h, items[k].1, sp, n, path);
        let o = repr_value(h, items[k].1, sp, n, path).1;
        lemma_entries_used(h, items, k + 1, sp, o, path);
    }
}

} // verus!
