//! What tasks give each other.
use vstd::prelude::*;
use crate::bind::bind_result;
use crate::calllaws::{arguments_arrive, arrived, holds, tidy};
use crate::catchlaws::built_in;
use crate::code::VarTarget;
use crate::exc::{exc_places, Exc, VErr};
use crate::exceptions::{registered, registered_as};
use crate::frame::Frame;
use crate::machine::{Keyword, Step, Vm};
use crate::sched::{Park, Parked};
use crate::tasks::{chan_result, end_wakes, finish_result, join_result, spawn_result, start_result, Outcome};
use crate::value::{Heap, TaskId, Value};
use crate::wake::{all_woken, parked_at, raises, woken, Wake};

verus! {

proof fn lemma_handles(a: Vm, b: Vm, ws: Seq<Wake>)
    requires all_woken(a, b, ws),
    ensures b.heap.handles == a.heap.handles,
    decreases ws.len(),
{
    if ws.len() > 0 {
        let m = choose|m: Vm| all_woken(a, m, ws.drop_last()) && #[trigger] woken(m, b, ws.last());
        lemma_handles(a, m, ws.drop_last());
    }
}

/// A task that joins one that has returned gets what it returned, and one that
/// joins one that failed gets its exception, whenever it joins.
pub proof fn joining_gives_the_outcome(a: Vm, b: Vm, h: usize, o: Outcome, c: Vm, d: Vm, r: Step)
    requires
        finish_result(a, b, h, o),
        h < a.heap.handles@.len(),
        c.heap.handles == b.heap.handles,
        c.task.id != b.heap.handles@[h as int].id,
        c.running(),
        join_result(c, d, h, r),
    ensures
        o matches Outcome::Returned(v) ==> r is Next && d.stack() == c.stack().push(v),
        o matches Outcome::Failed(exc, text) ==> r == Step::Raise(exc),
{
    let joiners = a.heap.handles@[h as int].joiners@;
    let m = choose|m: Vm| {
        &&& m == (Vm { task: m.task, heap: m.heap, ..a })
        &&& m.task.is_fresh()
        &&& crate::tasks::only_handle(a.heap, m.heap, h)
        &&& crate::tasks::end_state(m.heap.handles@[h as int].state, joiners, o)
        &&& m.heap.handles@[h as int].joiners@.len() == 0
        &&& #[trigger] all_woken(m, b, end_wakes(joiners, o))
    };
    lemma_handles(m, b, end_wakes(joiners, o));
}

/// Joining a task that still runs waits for it, as the last in line, and a task
/// that joins itself is refused.
pub proof fn joining_waits(a: Vm, b: Vm, h: usize, r: Step)
    requires
        join_result(a, b, h, r),
        h < a.heap.handles@.len(),
    ensures
        a.heap.handles@[h as int].id == a.task.id ==> raises(b.heap, a.excs@, r, Exc::RuntimeError, "a task cannot join itself"@),
        a.heap.handles@[h as int].id != a.task.id && a.heap.handles@[h as int].state is Running ==> {
            &&& r matches Step::Park(p) && *p == Park::Join(h)
            &&& b.heap.handles@[h as int].joiners@.last() == a.task.id
            &&& b.heap.handles@[h as int].joiners@.drop_last() == a.heap.handles@[h as int].joiners@
            &&& b.task == a.task
        },
{
    if a.heap.handles@[h as int].id != a.task.id && a.heap.handles@[h as int].state is Running {
        assert(b.heap.handles@[h as int].joiners@.drop_last() =~= a.heap.handles@[h as int].joiners@);
    }
}

/// When a task ends, each task that joined it is woken, in the order they came:
/// with what it returned, or with its exception to raise.
pub proof fn ending_wakes_the_joiners(joiners: Seq<TaskId>, o: Outcome, k: int)
    requires 0 <= k < joiners.len(),
    ensures
        end_wakes(joiners, o).len() == joiners.len(),
        o matches Outcome::Returned(v) ==> end_wakes(joiners, o)[k] == Wake::With(joiners[k], v),
        o matches Outcome::Failed(exc, text) ==> end_wakes(joiners, o)[k] == Wake::Raising(joiners[k], exc),
{
}

/// A task that is woken with a value goes to the end of the queue with that
/// value on its stack, and one that is woken with an exception goes there with
/// that to raise; nobody else moves.
pub proof fn waking_hands_over(a: Vm, b: Vm, id: TaskId, v: Value, k: int)
    requires
        0 <= k < a.parked@.len(),
        a.parked@[k].task.id == id,
        forall|j: int| 0 <= j < k ==> (#[trigger] a.parked@[j]).task.id != id,
        a.parked@[k].task.frames@.len() > 0,
    ensures
        woken(a, b, Wake::With(id, v)) ==> {
            &&& b.ready@.len() == a.ready@.len() + 1
            &&& b.ready@.drop_last() == a.ready@
            &&& b.ready@.last().id == id
            &&& b.ready@.last().frames@.last().stack@ == a.parked@[k].task.frames@.last().stack@.push(v)
            &&& b.ready@.last().pending_raise == a.parked@[k].task.pending_raise
            &&& b.parked@ == a.parked@.remove(k)
        },
        woken(a, b, Wake::Raising(id, v)) ==> {
            &&& b.ready@.len() == a.ready@.len() + 1
            &&& b.ready@.drop_last() == a.ready@
            &&& b.ready@.last().id == id
            &&& b.ready@.last().pending_raise == Some(v)
            &&& b.ready@.last().frames == a.parked@[k].task.frames
            &&& b.parked@ == a.parked@.remove(k)
        },
{
    lemma_parked_first(a.parked@, id, k);
    if woken(a, b, Wake::With(id, v)) || woken(a, b, Wake::Raising(id, v)) {
        assert(b.ready@.drop_last() =~= a.ready@);
    }
}

proof fn lemma_parked_first(parked: Seq<Parked>, id: TaskId, k: int)
    requires
        0 <= k < parked.len(),
        parked[k].task.id == id,
        forall|j: int| 0 <= j < k ==> (#[trigger] parked[j]).task.id != id,
    ensures parked_at(parked, id) == Some(k),
    decreases k,
{
    if k > 0 {
        assert(parked[0].task.id != id);
        let rest = parked.skip(1);
        assert forall|j: int| 0 <= j < k - 1 implies (#[trigger] rest[j]).task.id != id by {
            assert(parked[j + 1].task.id != id);
        }
        lemma_parked_first(rest, id, k - 1);
    }
}

/// `spawn(f, ...)` leaves a handle on the stack and puts a task at the end of
/// the queue that will run `f` with the arguments where they belong; the handle
/// says it is running.
pub proof fn spawning_queues_the_call(a: Vm, b: Vm, f: usize, args: Seq<Value>, kwargs: Seq<Keyword>, r: Step)
    requires
        spawn_result(a, b, seq![Value::Func(f)] + args, kwargs, r),
        r is Next,
        a.running(),
        f < a.heap.funcs@.len(),
        tidy(*a.heap.funcs@[f as int].code),
    ensures
        b.stack() == a.stack().push(Value::Task(a.heap.handles.len())),
        b.ready@.len() == a.ready@.len() + 1,
        b.ready@.drop_last() == a.ready@,
        b.ready@.last().frames@.len() == 1,
        b.ready@.last().frames@[0].code == a.heap.funcs@[f as int].code,
        b.ready@.last().frames@[0].pc == 0,
        arrived(b.heap, b.ready@.last().frames@[0], *b.ready@.last().frames@[0].code, None, args, kwargs),
        b.heap.handles@[a.heap.handles@.len() as int].id == b.ready@.last().id,
        b.heap.handles@[a.heap.handles@.len() as int].state is Running,
{
    let all = seq![Value::Func(f)] + args;
    assert(all[0] == Value::Func(f));
    assert(all.skip(1) =~= args);
    assert(start_result(a, b, f, None, None, args, kwargs, r));
    let (m, bound) = choose|m: Vm, bound: Result<Frame, VErr>| {
        &&& #[trigger] bind_result(a, m, f, None, args, kwargs, bound)
        &&& bound matches Ok(g) ==> crate::tasks::started(b.ready@.last(), (a.next_task_id + 1) as u64, a.heap.handles.len(), Frame { super_ctx: None, ..g })
            && b.heap == (Heap { handles: b.heap.handles, ..m.heap })
        &&& bound is Ok
    };
    let g = bound->Ok_0;
    arguments_arrive(a, m, f, None, args, kwargs, g);
    let t = b.ready@.last().frames@[0];
    assert(t == (Frame { super_ctx: None, ..g }));
    assert forall|x: VarTarget, v: Value| holds(m.heap, g, x, v) implies #[trigger] holds(b.heap, t, x, v) by {
    }
}

/// `chan(n)` makes an open, empty channel that holds `n` values, `chan()` one
/// that holds none; a negative number is a ValueError.
pub proof fn channels_hold_what_was_asked(a: Vm, b: Vm, n: i64, r: Step)
    requires chan_result(a, b, seq![Value::Int(n)], Seq::empty(), r),
    ensures
        n >= 0 ==> {
            &&& r is Next
            &&& b.stack().last() == Value::Channel(a.heap.chans.len())
            &&& b.heap.chan(a.heap.chans.len()).cap == n
            &&& b.heap.chan(a.heap.chans.len()).buf.len() == 0
            &&& !b.heap.chan(a.heap.chans.len()).closed
        },
        n < 0 ==> raises(b.heap, a.excs@, r, Exc::ValueError, "chan() cap must not be negative ("@ + crate::text::int_text(n as int) + ")"@),
{
    assert(seq![Value::Int(n)][0] == Value::Int(n));
}

/// `chan()` makes a channel that holds nothing.
pub proof fn a_channel_holds_nothing_unless_asked(a: Vm, b: Vm, r: Step)
    requires chan_result(a, b, Seq::empty(), Seq::empty(), r),
    ensures
        r is Next,
        b.heap.chan(a.heap.chans.len()).cap == 0,
        b.heap.chan(a.heap.chans.len()).buf.len() == 0,
{
}

/// What is raised as a built-in exception is an instance of the class of that
/// name.
pub proof fn raised_exceptions_have_their_class(h: Heap, reg: Seq<usize>, r: Step, e: Exc, message: Seq<char>)
    requires
        registered(h, reg),
        raises(h, reg, r, e, message),
    ensures
        r matches Step::Raise(Value::Instance(i)) && built_in(h, reg, h.instance_class(i), e.spec_name()),
{
    exc_places(e);
    assert(registered_as(h, reg, e));
}

} // verus!
