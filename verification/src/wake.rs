//! Suspending tasks and waking them.
use vstd::prelude::*;
use crate::exc::{Exc, VErr};
use crate::exceptions::{exc_class, exceptions_grew, fault_exception, is_fault_exception, make_exception_instance};
use crate::frame::Frame;
use crate::machine::{Step, Task, Vm};
use crate::sched::{Park, Parked};
use crate::value::{Heap, TaskId, Value};

verus! {

/// The place of the suspended task `id`.
pub open spec fn parked_at(parked: Seq<Parked>, id: TaskId) -> Option<int>
    decreases parked.len(),
{
    if parked.len() == 0 {
        None
    } else if parked[0].task.id == id {
        Some(0)
    } else {
        match parked_at(parked.skip(1), id) {
            Some(k) => Some(k + 1),
            None => None,
        }
    }
}

proof fn lemma_parked_at(parked: Seq<Parked>, id: TaskId, k: int)
    requires
        0 <= k <= parked.len(),
        forall|j: int| 0 <= j < k ==> (#[trigger] parked[j]).task.id != id,
    ensures
        k < parked.len() && parked[k].task.id == id ==> parked_at(parked, id) == Some(k),
        k == parked.len() ==> parked_at(parked, id) is None,
    decreases k,
{
    if k > 0 {
        let rest = parked.skip(1);
        assert forall|j: int| 0 <= j < k - 1 implies (#[trigger] rest[j]).task.id != id by {
            assert(rest[j] == parked[j + 1]);
        }
        lemma_parked_at(rest, id, k - 1);
        if k < parked.len() {
            assert(rest[k - 1] == parked[k]);
        }
        assert(parked[0].task.id != id);
    }
}

pub proof fn lemma_parked_bounds(parked: Seq<Parked>, id: TaskId)
    ensures parked_at(parked, id) matches Some(k) ==> 0 <= k < parked.len() && parked[k].task.id == id,
    decreases parked.len(),
{
    if parked.len() > 0 {
        lemma_parked_bounds(parked.skip(1), id);
    }
}

/// `u` is `t` with `v` on the operand stack of its innermost frame.
pub open spec fn handed(t: Task, u: Task, v: Value) -> bool {
    &&& u == (Task { frames: u.frames, ..t })
    &&& u.frames@.len() == t.frames@.len()
    &&& t.frames@.len() > 0 ==> {
        &&& u.frames@.drop_last() == t.frames@.drop_last()
        &&& u.frames@.last() == (Frame { stack: u.frames@.last().stack, ..t.frames@.last() })
        &&& u.frames@.last().stack@ == t.frames@.last().stack@.push(v)
    }
    &&& t.frames@.len() == 0 ==> u.frames@ == t.frames@
}

/// Put `v` on the operand stack of a task's innermost frame.
pub fn hand(t: &mut Task, v: Value)
    ensures handed(*old(t), *final(t), v),
{
    let n = t.frames.len();
    if n > 0 {
        t.frames[n - 1].stack.push(v);
        assert(t.frames@.drop_last() =~= old(t).frames@.drop_last());
    }
}

/// The task at place `k` of `a` left the suspended ones and became the last of
/// those that can run, as `t`.
pub open spec fn readied(a: Vm, b: Vm, k: int, t: Task) -> bool {
    &&& b == (Vm { parked: b.parked, ready: b.ready, heap: b.heap, ..a })
    &&& b.parked@ == a.parked@.remove(k)
    &&& b.ready@ == a.ready@.push(t)
}

/// Task `id`, if it is suspended, was woken with `v` as what its call returns.
pub open spec fn woken_with(a: Vm, b: Vm, id: TaskId, v: Value) -> bool {
    match parked_at(a.parked@, id) {
        Some(k) => b.heap == a.heap && b.ready@.len() > 0 && readied(a, b, k, b.ready@.last())
            && handed(a.parked@[k].task, b.ready@.last(), v),
        None => b == a,
    }
}

/// Task `id`, if it is suspended, was woken to raise `exc`.
pub open spec fn woken_raising(a: Vm, b: Vm, id: TaskId, exc: Value) -> bool {
    match parked_at(a.parked@, id) {
        Some(k) => b.heap == a.heap && readied(a, b, k, Task { pending_raise: Some(exc), ..a.parked@[k].task }),
        None => b == a,
    }
}

/// `exc` is what a closed channel raises.
pub open spec fn is_channel_closed(h: Heap, reg: Seq<usize>, exc: Value) -> bool {
    exc matches Value::Instance(i) && {
        &&& i < h.instances@.len()
        &&& h.instances@[i as int].class == exc_class(reg, Exc::ChannelClosed)
        &&& h.field(i, "args"@) matches Some(Value::Tuple(t)) && t < h.tuples@.len() && h.tuple(t).len() == 1
            && (h.tuple(t)[0] matches Value::Str(s) && s < h.strs@.len() && h.text(s) == "channel is closed"@)
    }
}

/// Task `id`, if it is suspended, was woken because its channel closed: a `for`
/// ends, anything else raises.
pub open spec fn woken_closed(a: Vm, b: Vm, id: TaskId) -> bool {
    match parked_at(a.parked@, id) {
        Some(k) => {
            let t = a.parked@[k].task;
            &&& exceptions_grew(a.heap, b.heap)
            &&& b.ready@.len() > 0
            &&& match a.parked@[k].park {
                Park::IterRecv { target, .. } => {
                    let u = b.ready@.last();
                    &&& readied(a, b, k, u)
                    &&& b.heap == a.heap
                    &&& loop_ended(t, u, target)
                },
                _ => {
                    let u = b.ready@.last();
                    &&& readied(a, b, k, u)
                    &&& u == (Task { pending_raise: u.pending_raise, ..t })
                    &&& u.pending_raise matches Some(exc) && is_channel_closed(b.heap, a.excs@, exc)
                },
            }
        },
        None => b == a,
    }
}

/// `u` is `t` after its innermost loop ended: the iterator is off the stack and
/// control is at `target`.
pub open spec fn loop_ended(t: Task, u: Task, target: usize) -> bool {
    &&& u == (Task { frames: u.frames, ..t })
    &&& u.frames@.len() == t.frames@.len()
    &&& t.frames@.len() > 0 ==> {
        let f = t.frames@.last();
        let g = u.frames@.last();
        &&& u.frames@.drop_last() == t.frames@.drop_last()
        &&& g == (Frame { stack: g.stack, pc: target, ..f })
        &&& g.stack@ == (if f.stack@.len() > 0 { f.stack@.drop_last() } else { f.stack@ })
    }
    &&& t.frames@.len() == 0 ==> u.frames@ == t.frames@
}

/// Task `id`, if it is suspended, was woken to raise what a fault becomes.
pub open spec fn woken_failing(a: Vm, b: Vm, id: TaskId, class: Exc, message: Seq<char>) -> bool {
    &&& exceptions_grew(a.heap, b.heap)
    &&& match parked_at(a.parked@, id) {
        Some(k) => {
            let u = b.ready@.last();
            &&& b.ready@.len() > 0
            &&& readied(a, b, k, u)
            &&& u == (Task { pending_raise: u.pending_raise, ..a.parked@[k].task })
            &&& u.pending_raise matches Some(exc) && is_fault_exception(b.heap, a.excs@, exc, class, message)
        },
        None => b == (Vm { heap: b.heap, ..a }),
    }
}

/// Why a task is woken.
pub ghost enum Wake {
    With(TaskId, Value),
    Raising(TaskId, Value),
    Closed(TaskId),
    Failing(TaskId, Exc, Seq<char>),
}

/// One wake.
pub open spec fn woken(a: Vm, b: Vm, w: Wake) -> bool {
    match w {
        Wake::With(id, v) => woken_with(a, b, id, v),
        Wake::Raising(id, exc) => woken_raising(a, b, id, exc),
        Wake::Closed(id) => woken_closed(a, b, id),
        Wake::Failing(id, class, message) => woken_failing(a, b, id, class, message),
    }
}

/// These wakes, one after the other.
pub open spec fn all_woken(a: Vm, b: Vm, ws: Seq<Wake>) -> bool
    decreases ws.len(),
{
    if ws.len() == 0 {
        b == a
    } else {
        exists|m: Vm| all_woken(a, m, ws.drop_last()) && #[trigger] woken(m, b, ws.last())
    }
}

/// One more wake at the end.
pub proof fn lemma_woken_push(a: Vm, m: Vm, b: Vm, ws: Seq<Wake>, w: Wake)
    requires all_woken(a, m, ws), woken(m, b, w),
    ensures all_woken(a, b, ws.push(w)),
{
    let all = ws.push(w);
    assert(all.drop_last() =~= ws);
    assert(all.last() == w);
    assert(woken(m, b, all.last()));
    assert(all_woken(a, m, all.drop_last()));
}

/// Waking changes who is suspended and who can run, and may make exceptions,
/// and nothing else. Nobody is lost.
pub proof fn waking_loses_nobody(a: Vm, b: Vm, ws: Seq<Wake>)
    requires all_woken(a, b, ws),
    ensures
        b.parked@.len() + b.ready@.len() == a.parked@.len() + a.ready@.len(),
        b.ready@.len() >= a.ready@.len(),
        a.ready@.is_prefix_of(b.ready@),
    decreases ws.len(),
{
    if ws.len() > 0 {
        let m = choose|m: Vm| all_woken(a, m, ws.drop_last()) && #[trigger] woken(m, b, ws.last());
        waking_loses_nobody(a, m, ws.drop_last());
        match ws.last() {
            Wake::With(id, _) => lemma_parked_bounds(m.parked@, id),
            Wake::Raising(id, _) => lemma_parked_bounds(m.parked@, id),
            Wake::Closed(id) => lemma_parked_bounds(m.parked@, id),
            Wake::Failing(id, _, _) => lemma_parked_bounds(m.parked@, id),
        }
    }
}

impl Vm {
    /// The place of the suspended task `id`.
    pub fn find_parked(&self, id: TaskId) -> (r: Option<usize>)
        ensures
            match r {
                Some(k) => parked_at(self.parked@, id) == Some(k as int) && k < self.parked.len()
                    && self.parked@[k as int].task.id == id,
                None => parked_at(self.parked@, id) is None,
            },
    {
        let mut k: usize = 0;
        while k < self.parked.len()
            invariant
                k <= self.parked.len(),
                forall|j: int| 0 <= j < k ==> (#[trigger] self.parked@[j]).task.id != id,
            decreases self.parked.len() - k,
        {
            if self.parked[k].task.id == id {
                proof { lemma_parked_at(self.parked@, id, k as int); }
                return Some(k);
            }
            k += 1;
        }
        proof { lemma_parked_at(self.parked@, id, k as int); }
        None
    }

    /// Wake `id` with `v` as the value its suspended call returns.
    pub fn wake_with_value(&mut self, id: TaskId, v: Value)
        ensures woken_with(*old(self), *final(self), id, v),
    {
        match self.find_parked(id) {
            Some(k) => {
                let p = self.parked.remove(k);
                let mut t = p.task;
                hand(&mut t, v);
                self.ready.push(t);
            }
            None => {}
        }
    }

    /// Wake `id` and raise `exc` in it.
    pub fn wake_with_raise(&mut self, id: TaskId, exc: Value)
        ensures woken_raising(*old(self), *final(self), id, exc),
    {
        match self.find_parked(id) {
            Some(k) => {
                let p = self.parked.remove(k);
                let mut t = p.task;
                t.pending_raise = Some(exc);
                self.ready.push(t);
            }
            None => {}
        }
    }

    /// Wake `id` to raise what the fault `e` becomes.
    pub fn wake_failing(&mut self, id: TaskId, e: &VErr)
        ensures woken_failing(*old(self), *final(self), id, e@.0, e@.1),
    {
        let exc = fault_exception(&mut self.heap, &self.excs, e);
        self.wake_with_raise(id, exc);
    }

    /// The class of a built-in exception.
    pub fn exc(&self, e: Exc) -> (r: usize)
        ensures r == exc_class(self.excs@, e),
    {
        let k = e.rank();
        proof { crate::exc::exc_places(e); }
        if k < self.excs.len() { self.excs[k] } else { 0 }
    }

    /// What a closed channel raises.
    pub fn channel_closed_exc(&mut self) -> (r: Value)
        ensures
            is_channel_closed(final(self).heap, old(self).excs@, r),
            exceptions_grew(old(self).heap, final(self).heap),
            *final(self) == (Vm { heap: final(self).heap, ..*old(self) }),
    {
        let class = self.exc(Exc::ChannelClosed);
        let s = self.heap.alloc_str("channel is closed".to_owned());
        let mut args: Vec<Value> = Vec::new();
        args.push(s);
        make_exception_instance(&mut self.heap, class, args)
    }

    /// Wake a task whose channel closed under it.
    pub fn wake_channel_closed(&mut self, id: TaskId)
        ensures woken_closed(*old(self), *final(self), id),
    {
        match self.find_parked(id) {
            Some(k) => {
                let to = match &self.parked[k].park {
                    Park::IterRecv { chan: _, target, paired: _ } => Some(*target),
                    _ => None,
                };
                match to {
                    Some(target) => {
                        let p = self.parked.remove(k);
                        let mut t = p.task;
                        let ghost t0 = t;
                        let n = t.frames.len();
                        if n > 0 {
                            let _it = t.frames[n - 1].stack.pop();
                            t.frames[n - 1].pc = target;
                            assert(t.frames@.drop_last() =~= t0.frames@.drop_last());
                        }
                        self.ready.push(t);
                    }
                    None => {
                        let exc = self.channel_closed_exc();
                        let p = self.parked.remove(k);
                        let mut t = p.task;
                        t.pending_raise = Some(exc);
                        self.ready.push(t);
                    }
                }
            }
            None => {}
        }
    }

    /// A task identity nobody has had.
    pub fn next_id(&mut self) -> (r: TaskId)
        requires old(self).next_task_id < u64::MAX,
        ensures
            r == old(self).next_task_id + 1,
            *final(self) == (Vm { next_task_id: r, ..*old(self) }),
    {
        self.next_task_id = self.next_task_id + 1;
        self.next_task_id
    }

    /// Whether the running task is the main one.
    pub fn current_is_main(&self) -> (r: bool)
        ensures r == (self.task.handle is None),
    {
        self.task.handle.is_none()
    }

    /// File the running task away under what it waits for.
    pub fn park_current(&mut self, park: Park)
        ensures
            final(self).parked@ == old(self).parked@.push(Parked { task: old(self).task, park }),
            final(self).task.is_fresh(),
            *final(self) == (Vm { task: final(self).task, parked: final(self).parked, ..*old(self) }),
    {
        let mut t = Task::new();
        std::mem::swap(&mut self.task, &mut t);
        self.parked.push(Parked { task: t, park });
    }

    /// Put the running task behind the others that can run, with `v` as what
    /// its call returns.
    pub fn requeue_current(&mut self, v: Value)
        ensures
            final(self).ready@.len() == old(self).ready@.len() + 1,
            final(self).ready@.drop_last() == old(self).ready@,
            handed(old(self).task, final(self).ready@.last(), v),
            final(self).task.is_fresh(),
            *final(self) == (Vm { task: final(self).task, ready: final(self).ready, ..*old(self) }),
    {
        let mut t = Task::new();
        std::mem::swap(&mut self.task, &mut t);
        hand(&mut t, v);
        self.ready.push(t);
        assert(self.ready@.drop_last() =~= old(self).ready@);
    }

    /// Put the running task behind the others that can run; its result is on
    /// its stack already.
    pub fn requeue_current_bare(&mut self)
        ensures
            final(self).ready@ == old(self).ready@.push(old(self).task),
            final(self).task.is_fresh(),
            *final(self) == (Vm { task: final(self).task, ready: final(self).ready, ..*old(self) }),
    {
        let mut t = Task::new();
        std::mem::swap(&mut self.task, &mut t);
        self.ready.push(t);
    }

    /// Raise an exception of `class` with `message`.
    pub fn raise(&mut self, class: Exc, message: String) -> (r: Step)
        ensures
            raises(final(self).heap, old(self).excs@, r, class, message@),
            exceptions_grew(old(self).heap, final(self).heap),
            *final(self) == (Vm { heap: final(self).heap, ..*old(self) }),
    {
        let c = self.exc(class);
        let s = self.heap.alloc_str(message);
        let mut args: Vec<Value> = Vec::new();
        args.push(s);
        Step::Raise(make_exception_instance(&mut self.heap, c, args))
    }
}

/// The step raises an exception of `class` made with `message`.
pub open spec fn raises(h: Heap, reg: Seq<usize>, r: Step, class: Exc, message: Seq<char>) -> bool {
    r matches Step::Raise(Value::Instance(i)) && {
        &&& i < h.instances@.len()
        &&& h.instances@[i as int].class == exc_class(reg, class)
        &&& h.field(i, "args"@) matches Some(Value::Tuple(t)) && t < h.tuples@.len() && h.tuple(t).len() == 1
            && (h.tuple(t)[0] matches Value::Str(s) && s < h.strs@.len() && h.text(s) == message)
    }
}

/// The step is the fault `e`.
pub open spec fn faults(r: Step, class: Exc, message: Seq<char>) -> bool {
    r matches Step::Fault(e) && (*e)@ == (class, message)
}

} // verus!
