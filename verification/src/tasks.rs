//! Starting tasks, waiting for them, and the meeting point of imports.
use vstd::prelude::*;
use crate::bind::bind_result;
use crate::call::{fail, fault_step, makes_generator};
use crate::channel::ChanView;
use crate::exc::{type_error, value_error, Exc, VErr};
use crate::exceptions::exceptions_grew;
use crate::frame::Frame;
use crate::machine::{restacked, Keyword, RuntimeError, Step, Task, Vm};
use crate::names::{type_label, type_label_of};
use crate::sched::Park;
use crate::text::{int_text, join2, join3, nat_text, render_i64, render_usize, same_text};
use crate::value::{Channel, Heap, MethodKind, TaskHandle, TaskId, TaskState, Value};
use crate::wake::{all_woken, faults, lemma_woken_push, raises, Wake};

verus! {

/// What `spawn` is asked to start: a function, its receiver where it is a
/// method, and the class the method is defined in.
pub ghost enum Spawned {
    Start { func: usize, receiver: Option<Value>, ctx: Option<(usize, Value)> },
    Refused(Seq<char>),
}

/// What `spawn` makes of its first argument: only a function of the language
/// can be suspended, and a generator function does not run when called.
pub open spec fn spawned(h: Heap, callee: Value) -> Spawned {
    match callee {
        Value::Func(f) => if makes_generator(h, f) {
            Spawned::Refused("spawn() cannot start a generator function as a task"@)
        } else {
            Spawned::Start { func: f, receiver: None, ctx: None }
        },
        Value::Method(m) => if m < h.methods@.len() {
            let b = h.methods@[m as int];
            match b.kind {
                MethodKind::User { func, defclass } => if makes_generator(h, func) {
                    Spawned::Refused("spawn() needs a function defined in Oro"@)
                } else {
                    Spawned::Start { func, receiver: Some(b.receiver), ctx: Some((defclass, b.receiver)) }
                },
                MethodKind::Native(_) => Spawned::Refused("spawn() needs a function defined in Oro"@),
            }
        } else {
            Spawned::Refused("spawn() needs a function defined in Oro"@)
        },
        _ => Spawned::Refused("spawn() needs a function defined in Oro, not '"@ + type_label(h, callee) + "'"@),
    }
}

/// `t` is a task that will run `f` and has the handle `handle`.
pub open spec fn started(t: Task, id: TaskId, handle: usize, f: Frame) -> bool {
    &&& t.frames@ == seq![f]
    &&& t.line == 0 && t.col == 0
    &&& t.prints@.len() == 0 && t.texts@.len() == 0 && t.seqs@.len() == 0 && t.mats@.len() == 0
    &&& t.compares@.len() == 0 && t.orders@.len() == 0 && t.handling@.len() == 0
    &&& t.finally_why@.len() == 0 && t.gen_stack@.len() == 0 && t.last_locals@.len() == 0
    &&& t.id == id
    &&& t.handle == Some(handle)
    &&& t.pending_raise is None
}

/// What starting a function as a task does.
pub open spec fn start_result(a: Vm, b: Vm, func: usize, receiver: Option<Value>, ctx: Option<(usize, Value)>,
    args: Seq<Value>, kwargs: Seq<Keyword>, r: Step) -> bool {
    exists|m: Vm, bound: Result<Frame, VErr>| {
        &&& #[trigger] bind_result(a, m, func, receiver, args, kwargs, bound)
        &&& match bound {
            Err(e) => faults(r, e@.0, e@.1) && b == a,
            Ok(f) => {
                let id = (a.next_task_id + 1) as u64;
                let hid = a.heap.handles.len();
                &&& r is Next
                &&& b == (Vm {
                    task: b.task,
                    heap: b.heap,
                    frame_pool: m.frame_pool,
                    ready: b.ready,
                    next_task_id: id,
                    ..a
                })
                &&& b.ready@.len() == a.ready@.len() + 1
                &&& b.ready@.drop_last() == a.ready@
                &&& started(b.ready@.last(), id, hid, Frame { super_ctx: ctx, ..f })
                &&& b.heap == (Heap { handles: b.heap.handles, ..m.heap })
                &&& b.heap.handles@.len() == hid + 1
                &&& b.heap.handles@.drop_last() == a.heap.handles@
                &&& b.heap.handles@.last().id == id
                &&& b.heap.handles@.last().state is Running
                &&& b.heap.handles@.last().joiners@.len() == 0
                &&& b.task == (Task { frames: b.task.frames, ..a.task })
                &&& b.task.frames@.drop_last() == a.task.frames@.drop_last()
                &&& b.top() == (Frame { stack: b.top().stack, ..a.top() })
                &&& b.stack() == a.stack().push(Value::Task(hid))
            },
        }
    }
}

/// What `spawn` does: the arguments are bound here and now, so that every
/// binding error is the caller's; the task runs when its turn comes.
pub open spec fn spawn_result(a: Vm, b: Vm, args: Seq<Value>, kwargs: Seq<Keyword>, r: Step) -> bool {
    if args.len() == 0 {
        &&& raises(b.heap, a.excs@, r, Exc::TypeError, "spawn() takes at least 1 argument (0 given)"@)
        &&& b == (Vm { heap: b.heap, ..a })
        &&& exceptions_grew(a.heap, b.heap)
    } else {
        match spawned(a.heap, args[0]) {
            Spawned::Refused(t) => raises(b.heap, a.excs@, r, Exc::TypeError, t) && b == (Vm { heap: b.heap, ..a })
                && exceptions_grew(a.heap, b.heap),
            Spawned::Start { func, receiver, ctx } => if a.next_task_id == u64::MAX {
                faults(r, Exc::RuntimeError, "internal: no task identity is left"@) && b == a
            } else {
                start_result(a, b, func, receiver, ctx, args.skip(1), kwargs, r)
            },
        }
    }
}

/// What `join` does: a finished task answers at once, with its value or with
/// its exception, which then belongs to the joiner; a running one is waited for.
pub open spec fn join_result(a: Vm, b: Vm, h: usize, r: Step) -> bool {
    if h >= a.heap.handles@.len() {
        faults(r, Exc::RuntimeError, "internal: join of a task that was never made"@) && b == a
    } else if a.heap.handles@[h as int].id == a.task.id {
        &&& raises(b.heap, a.excs@, r, Exc::RuntimeError, "a task cannot join itself"@)
        &&& b == (Vm { heap: b.heap, ..a })
        &&& exceptions_grew(a.heap, b.heap)
    } else {
        match a.heap.handles@[h as int].state {
            TaskState::Running => {
                &&& r matches Step::Park(p) && *p == Park::Join(h)
                &&& b == (Vm { heap: b.heap, ..a })
                &&& only_handle(a.heap, b.heap, h)
                &&& b.heap.handles@[h as int].joiners@ == a.heap.handles@[h as int].joiners@.push(a.task.id)
                &&& b.heap.handles@[h as int].state == a.heap.handles@[h as int].state
            },
            TaskState::Done(v) => r is Next && restacked(a, b, a.stack().push(v)) && b.heap == a.heap,
            TaskState::Failed { exc, .. } => join_raises(a, b, h, exc, r),
            TaskState::FailedJoined(exc) => join_raises(a, b, h, exc, r),
        }
    }
}

/// The joiner raises `exc`, and the task's failure is accounted for.
pub open spec fn join_raises(a: Vm, b: Vm, h: usize, exc: Value, r: Step) -> bool {
    &&& r == Step::Raise(exc)
    &&& b == (Vm { heap: b.heap, ..a })
    &&& only_handle(a.heap, b.heap, h)
    &&& b.heap.handles@[h as int].state == TaskState::FailedJoined(exc)
    &&& b.heap.handles@[h as int].joiners == a.heap.handles@[h as int].joiners
}

/// Only handle `h` differs between `a` and `b`, and it names the same task.
pub open spec fn only_handle(a: Heap, b: Heap, h: usize) -> bool {
    &&& b == (Heap { handles: b.handles, ..a })
    &&& b.handles@.len() == a.handles@.len()
    &&& forall|k: int| 0 <= k < a.handles@.len() && k != h ==> b.handles@[k] == a.handles@[k]
    &&& b.handles@[h as int].id == a.handles@[h as int].id
}

/// Joining a failed task again raises the same exception.
pub proof fn joining_is_idempotent(a: Vm, b: Vm, c: Vm, h: usize, exc: Value, r: Step, q: Step)
    requires
        h < a.heap.handles@.len(),
        a.heap.handles@[h as int].id != a.task.id,
        join_raises(a, b, h, exc, r),
        join_result(b, c, h, q),
    ensures q == Step::Raise(exc),
{
}

/// How a task ended, and what becomes of those that wait for it.
pub ghost enum Outcome {
    Returned(Value),
    Failed(Value, Seq<char>),
}

/// The outcome of a task that returned `value`, or that raised it with this
/// diagnostic.
pub open spec fn outcome_of(value: Value, error: Option<RuntimeError>) -> Outcome {
    match error {
        Some(e) => Outcome::Failed(value, error_text(e)),
        None => Outcome::Returned(value),
    }
}

/// Who is woken when a task ends.
pub open spec fn end_wakes(joiners: Seq<TaskId>, o: Outcome) -> Seq<Wake> {
    joiners.map_values(|id: TaskId| match o {
        Outcome::Returned(v) => Wake::With(id, v),
        Outcome::Failed(exc, _) => Wake::Raising(id, exc),
    })
}

/// What a task's handle says once it has ended. A failure that somebody waited
/// for belongs to the joiner; any other is still to be reported.
pub open spec fn end_state(s: TaskState, joiners: Seq<TaskId>, o: Outcome) -> bool {
    match o {
        Outcome::Returned(v) => s == TaskState::Done(v),
        Outcome::Failed(exc, text) => if joiners.len() == 0 {
            s matches TaskState::Failed { exc: e, report } && e == exc && report@ == "task failed: "@ + text
        } else {
            s == TaskState::FailedJoined(exc)
        },
    }
}

/// What ending the running task does.
pub open spec fn finish_result(a: Vm, b: Vm, h: usize, o: Outcome) -> bool {
    if h >= a.heap.handles@.len() {
        b.task.is_fresh() && b == (Vm { task: b.task, ..a })
    } else {
        let joiners = a.heap.handles@[h as int].joiners@;
        exists|m: Vm| {
            &&& m == (Vm { task: m.task, heap: m.heap, ..a })
            &&& m.task.is_fresh()
            &&& only_handle(a.heap, m.heap, h)
            &&& end_state(m.heap.handles@[h as int].state, joiners, o)
            &&& m.heap.handles@[h as int].joiners@.len() == 0
            &&& #[trigger] all_woken(m, b, end_wakes(joiners, o))
        }
    }
}

impl Vm {
    /// `spawn(f, ...)`.
    pub fn do_spawn(&mut self, args: Vec<Value>, kwargs: Vec<Keyword>) -> (r: Step)
        requires old(self).running(),
        ensures spawn_result(*old(self), *final(self), args@, kwargs@, r),
    {
        let ghost a = *self;
        let ghost av = args@;
        let ghost kv = kwargs@;
        if args.len() == 0 {
            return self.raise(Exc::TypeError, "spawn() takes at least 1 argument (0 given)".to_owned());
        }
        let mut args = args;
        let callee = args.remove(0);
        assert(args@ =~= av.skip(1));
        let (func, receiver, ctx): (usize, Option<Value>, Option<(usize, Value)>) = match callee {
            Value::Func(f) => {
                if self.is_generator(f) {
                    return self.raise(Exc::TypeError, "spawn() cannot start a generator function as a task".to_owned());
                }
                (f, None, None)
            }
            Value::Method(m) => {
                let parts: Option<(usize, usize, Value)> = if m < self.heap.methods.len() {
                    match &self.heap.methods[m].kind {
                        MethodKind::User { func, defclass } => Some((*func, *defclass, self.heap.methods[m].receiver)),
                        MethodKind::Native(_) => None,
                    }
                } else {
                    None
                };
                match parts {
                    Some((func, defclass, recv)) => {
                        if self.is_generator(func) {
                            return self.raise(Exc::TypeError, "spawn() needs a function defined in Oro".to_owned());
                        }
                        (func, Some(recv), Some((defclass, recv)))
                    }
                    None => {
                        return self.raise(Exc::TypeError, "spawn() needs a function defined in Oro".to_owned());
                    }
                }
            }
            _ => {
                let t = join3("spawn() needs a function defined in Oro, not '", type_label_of(&self.heap, callee), "'");
                return self.raise(Exc::TypeError, t);
            }
        };
        if self.next_task_id == u64::MAX {
            return fault_step(Exc::RuntimeError, "internal: no task identity is left");
        }
        let bound = self.bind_call(func, receiver, args, kwargs);
        let ghost m = *self;
        let ghost br = bound;
        assert(spawned(a.heap, av[0]) == Spawned::Start { func, receiver, ctx });
        assert(bind_result(a, m, func, receiver, av.skip(1), kv, br));
        match bound {
            Err(e) => fail(e),
            Ok(f) => {
                let mut frame = f;
                frame.super_ctx = ctx;
                let id = self.next_id();
                let h = self.heap.handles.len();
                let hv = self.heap.alloc_handle(TaskHandle { id, state: TaskState::Running, joiners: Vec::new() });
                let mut t = Task::new();
                t.id = id;
                t.handle = Some(h);
                t.frames.push(frame);
                assert(t.frames@ =~= seq![frame]);
                self.ready.push(t);
                self.push(hv);
                proof {
                    assert(self.ready@.drop_last() =~= a.ready@);
                    assert(self.heap.handles@.drop_last() =~= a.heap.handles@);
                    assert(h == a.heap.handles.len());
                    assert(started(self.ready@.last(), id, h, frame));
                    assert(self.task == (Task { frames: self.task.frames, ..a.task }));
                    assert(self.stack() == a.stack().push(hv));
                }
                Step::Next
            }
        }
    }

    /// `yield_now()`.
    pub fn do_yield_now(&mut self, args: Vec<Value>, kwargs: Vec<Keyword>) -> (r: Step)
        ensures yield_now_result(*old(self), *final(self), args@, kwargs@, r),
    {
        if kwargs.len() > 0 {
            return self.raise(Exc::TypeError, "yield_now() takes no keyword arguments".to_owned());
        }
        if args.len() > 0 {
            let n = render_usize(args.len());
            return self.raise(Exc::TypeError, join3("yield_now() takes 0 argument(s) but ", n.as_str(), " were given"));
        }
        Step::Park(Box::new(Park::Yield))
    }

    /// `t.join()`.
    pub fn task_join(&mut self, h: usize) -> (r: Step)
        requires old(self).running(),
        ensures join_result(*old(self), *final(self), h, r),
    {
        if h >= self.heap.handles.len() {
            return fault_step(Exc::RuntimeError, "internal: join of a task that was never made");
        }
        if self.heap.handles[h].id == self.task.id {
            return self.raise(Exc::RuntimeError, "a task cannot join itself".to_owned());
        }
        let taken: Option<Result<Value, Value>> = match &self.heap.handles[h].state {
            TaskState::Running => None,
            TaskState::Done(v) => Some(Ok(*v)),
            TaskState::Failed { exc, report: _ } => Some(Err(*exc)),
            TaskState::FailedJoined(exc) => Some(Err(*exc)),
        };
        match taken {
            Some(Ok(v)) => {
                self.push(v);
                Step::Next
            }
            Some(Err(exc)) => {
                self.heap.handles[h].state = TaskState::FailedJoined(exc);
                Step::Raise(exc)
            }
            None => {
                let id = self.task.id;
                self.heap.handles[h].joiners.push(id);
                Step::Park(Box::new(Park::Join(h)))
            }
        }
    }

    /// Retire the running task: its handle says how it ended, and whoever waits
    /// for it goes on.
    pub fn finish_task(&mut self, h: usize, value: Value, error: Option<RuntimeError>) -> (r: ())
        ensures
            finish_result(*old(self), *final(self), h, outcome_of(value, error)),
    {
        let ghost a = *self;
        let ghost o = outcome_of(value, error);
        self.task = Task::new();
        if h >= self.heap.handles.len() {
            return;
        }
        let mut joiners: Vec<TaskId> = Vec::new();
        std::mem::swap(&mut self.heap.handles[h].joiners, &mut joiners);
        let failed = error.is_some();
        self.heap.handles[h].state = match error {
            None => TaskState::Done(value),
            Some(e) => if joiners.len() == 0 {
                let t = e.text();
                TaskState::Failed { exc: value, report: join2("task failed: ", t.as_str()) }
            } else {
                TaskState::FailedJoined(value)
            },
        };
        let ghost m = *self;
        let ghost ws = end_wakes(joiners@, o);
        assert(ws.take(0) =~= Seq::empty());
        let mut i: usize = 0;
        while i < joiners.len()
            invariant
                i <= joiners.len(),
                ws == end_wakes(joiners@, o),
                failed == (o is Failed),
                o matches Outcome::Returned(v) ==> v == value,
                o matches Outcome::Failed(v, _) ==> v == value,
                all_woken(m, *self, ws.take(i as int)),
            decreases joiners.len() - i,
        {
            let ghost before = *self;
            let id = joiners[i];
            if failed {
                self.wake_with_raise(id, value);
            } else {
                self.wake_with_value(id, value);
            }
            proof {
                lemma_woken_push(m, before, *self, ws.take(i as int), ws[i as int]);
                assert(ws.take(i + 1) =~= ws.take(i as int).push(ws[i as int]));
            }
            i += 1;
        }
        proof {
            assert(ws.take(i as int) =~= ws);
            assert(joiners@ == a.heap.handles@[h as int].joiners@);
            assert(all_woken(m, *self, end_wakes(joiners@, o)));
        }
    }
}

/// A diagnostic as text.
pub open spec fn error_text(e: RuntimeError) -> Seq<char> {
    e.source@ + ":"@ + nat_text(e.line as nat) + ":"@ + nat_text(e.col as nat) + ": "@ + e.message@
}

/// The capacity a value asks for.
pub open spec fn capacity(h: Heap, v: Value) -> Result<nat, (Exc, Seq<char>)> {
    match v {
        Value::Int(n) => if n >= 0 {
            Ok(n as nat)
        } else {
            Err((Exc::ValueError, "chan() cap must not be negative ("@ + int_text(n as int) + ")"@))
        },
        Value::Null => Err((Exc::TypeError, "chan() cap must be an int, not null — leave it out for a rendezvous: chan()"@)),
        _ => Err((Exc::TypeError, "chan() cap must be an int, not '"@ + type_label(h, v) + "'"@)),
    }
}

/// The capacity that the keywords from place `j` on leave standing.
pub open spec fn keyword_capacity(h: Heap, given: bool, kwargs: Seq<Keyword>, j: int, cap: nat) -> Result<nat, (Exc, Seq<char>)>
    decreases kwargs.len() - j,
{
    if j < 0 || j >= kwargs.len() {
        Ok(cap)
    } else if kwargs[j].0@ != "cap"@ {
        Err((Exc::TypeError, "chan() got an unexpected keyword argument '"@ + kwargs[j].0@ + "'"@))
    } else if given {
        Err((Exc::TypeError, "chan() got multiple values for argument 'cap'"@))
    } else {
        match capacity(h, kwargs[j].1) {
            Ok(n) => keyword_capacity(h, given, kwargs, j + 1, n),
            Err(e) => Err(e),
        }
    }
}

/// The capacity `chan` is called with.
pub open spec fn chan_capacity(h: Heap, args: Seq<Value>, kwargs: Seq<Keyword>) -> Result<nat, (Exc, Seq<char>)> {
    if args.len() > 1 {
        Err((Exc::TypeError, "chan() takes at most 1 argument ("@ + nat_text(args.len()) + " given)"@))
    } else if args.len() == 1 {
        match capacity(h, args[0]) {
            Ok(n) => keyword_capacity(h, true, kwargs, 0, n),
            Err(e) => Err(e),
        }
    } else {
        keyword_capacity(h, false, kwargs, 0, 0)
    }
}

fn read_capacity(h: &Heap, v: Value) -> (r: Result<u64, VErr>)
    ensures
        match capacity(*h, v) {
            Ok(n) => r matches Ok(m) && m == n,
            Err(e) => r matches Err(x) && x@ == e,
        },
{
    match v {
        Value::Int(n) => {
            if n >= 0 {
                Ok(n as u64)
            } else {
                let d = render_i64(n);
                Err(value_error(join3("chan() cap must not be negative (", d.as_str(), ")")))
            }
        }
        Value::Null => Err(crate::exc::fault(Exc::TypeError,
            "chan() cap must be an int, not null — leave it out for a rendezvous: chan()")),
        _ => Err(type_error(join3("chan() cap must be an int, not '", type_label_of(h, v), "'"))),
    }
}

fn read_chan_args(h: &Heap, args: &Vec<Value>, kwargs: &Vec<Keyword>) -> (r: Result<u64, VErr>)
    ensures
        match chan_capacity(*h, args@, kwargs@) {
            Ok(n) => r matches Ok(m) && m == n,
            Err(e) => r matches Err(x) && x@ == e,
        },
{
    if args.len() > 1 {
        let n = render_usize(args.len());
        return Err(type_error(join3("chan() takes at most 1 argument (", n.as_str(), " given)")));
    }
    let given: bool = args.len() == 1;
    let mut cap: u64 = 0;
    if given {
        match read_capacity(h, args[0]) {
            Ok(n) => {
                cap = n;
            }
            Err(e) => {
                return Err(e);
            }
        }
    }
    let mut j: usize = 0;
    while j < kwargs.len()
        invariant
            j <= kwargs.len(),
            chan_capacity(*h, args@, kwargs@) == keyword_capacity(*h, given, kwargs@, j as int, cap as nat),
        decreases kwargs.len() - j,
    {
        if !same_text(kwargs[j].0.as_str(), "cap") {
            return Err(type_error(join3("chan() got an unexpected keyword argument '", kwargs[j].0.as_str(), "'")));
        }
        if given {
            return Err(crate::exc::fault(Exc::TypeError, "chan() got multiple values for argument 'cap'"));
        }
        match read_capacity(h, kwargs[j].1) {
            Ok(n) => {
                cap = n;
            }
            Err(e) => {
                return Err(e);
            }
        }
        j += 1;
    }
    Ok(cap)
}

impl Vm {
    /// `chan()`, `chan(n)` or `chan(cap=n)`.
    pub fn do_chan(&mut self, args: Vec<Value>, kwargs: Vec<Keyword>) -> (r: Step)
        requires old(self).running(),
        ensures chan_result(*old(self), *final(self), args@, kwargs@, r),
    {
        match read_chan_args(&self.heap, &args, &kwargs) {
            Err(e) => self.raise(e.class, e.message),
            Ok(cap) => {
                let c = self.heap.alloc_chan(Channel {
                    cap,
                    buf: Vec::new(),
                    closed: false,
                    recv_waiters: Vec::new(),
                    send_waiters: Vec::new(),
                    iter_index: 0,
                });
                self.push(c);
                assert(self.heap.chans@.drop_last() =~= old(self).heap.chans@);
                Step::Next
            }
        }
    }
}

/// The entries that do not belong to `path`.
pub open spec fn others(s: Seq<(String, TaskId)>, path: Seq<char>) -> Seq<(String, TaskId)>
    decreases s.len(),
{
    if s.len() == 0 {
        Seq::empty()
    } else if s.last().0@ == path {
        others(s.drop_last(), path)
    } else {
        others(s.drop_last(), path).push(s.last())
    }
}

/// The tasks of the entries that belong to `path`, in order.
pub open spec fn waiting(s: Seq<(String, TaskId)>, path: Seq<char>) -> Seq<TaskId>
    decreases s.len(),
{
    if s.len() == 0 {
        Seq::empty()
    } else if s.last().0@ == path {
        waiting(s.drop_last(), path).push(s.last().1)
    } else {
        waiting(s.drop_last(), path)
    }
}

fn part(s: Vec<(String, TaskId)>, path: &str) -> (r: (Vec<(String, TaskId)>, Vec<TaskId>))
    ensures
        r.0@ == others(s@, path@),
        r.1@ == waiting(s@, path@),
{
    let mut rest: Vec<(String, TaskId)> = Vec::new();
    let mut mine: Vec<TaskId> = Vec::new();
    let ghost all = s@;
    let mut left = s;
    let ghost mut k: int = 0;
    assert(all.take(0) =~= Seq::empty());
    assert(all.skip(0) =~= all);
    while left.len() > 0
        invariant
            0 <= k <= all.len(),
            left@ == all.skip(k),
            rest@ == others(all.take(k), path@),
            mine@ == waiting(all.take(k), path@),
        decreases left.len(),
    {
        let e = left.remove(0);
        proof {
            assert(e == all[k]);
            assert(all.take(k + 1).drop_last() =~= all.take(k));
            assert(all.take(k + 1).last() == e);
            assert(left@ =~= all.skip(k + 1));
        }
        if same_text(e.0.as_str(), path) {
            mine.push(e.1);
        } else {
            rest.push(e);
        }
        proof { k = k + 1; }
    }
    assert(all.take(k) =~= all);
    (rest, mine)
}

/// Who is woken when a module body ended.
pub open spec fn import_wakes(ids: Seq<TaskId>, outcome: Result<Value, Value>) -> Seq<Wake> {
    ids.map_values(|id: TaskId| match outcome {
        Ok(m) => Wake::With(id, m),
        Err(exc) => Wake::Raising(id, exc),
    })
}

/// What the end of a module body does for those that wait for it.
pub open spec fn release_result(a: Vm, b: Vm, path: Seq<char>, outcome: Result<Value, Value>) -> bool {
    exists|m: Vm| {
        &&& m == (Vm { importing: m.importing, import_waiters: m.import_waiters, ..a })
        &&& m.importing@ == others(a.importing@, path)
        &&& m.import_waiters@ == others(a.import_waiters@, path)
        &&& #[trigger] all_woken(m, b, import_wakes(waiting(a.import_waiters@, path), outcome))
    }
}

/// Waking leaves what is imported, and by whom, as it is.
proof fn lemma_woken_keeps(a: Vm, b: Vm, ws: Seq<Wake>)
    requires all_woken(a, b, ws),
    ensures
        b == (Vm { parked: b.parked, ready: b.ready, heap: b.heap, ..a }),
    decreases ws.len(),
{
    if ws.len() > 0 {
        let m = choose|m: Vm| all_woken(a, m, ws.drop_last()) && #[trigger] crate::wake::woken(m, b, ws.last());
        lemma_woken_keeps(a, m, ws.drop_last());
    }
}

proof fn lemma_others_absent(s: Seq<(String, TaskId)>, path: Seq<char>, k: int)
    requires 0 <= k < others(s, path).len(),
    ensures others(s, path)[k].0@ != path,
    decreases s.len(),
{
    if s.len() > 0 {
        if s.last().0@ == path {
            lemma_others_absent(s.drop_last(), path, k);
        } else if k < others(s.drop_last(), path).len() {
            lemma_others_absent(s.drop_last(), path, k);
        }
    }
}

/// Once a module body has ended, well or badly, nobody is running it any more
/// and nobody waits for it: importing it again starts afresh.
pub proof fn release_frees_the_path(a: Vm, b: Vm, path: Seq<char>, outcome: Result<Value, Value>, k: int)
    requires release_result(a, b, path, outcome),
    ensures
        0 <= k < b.importing@.len() ==> b.importing@[k].0@ != path,
        0 <= k < b.import_waiters@.len() ==> b.import_waiters@[k].0@ != path,
{
    let m = choose|m: Vm| {
        &&& m == (Vm { importing: m.importing, import_waiters: m.import_waiters, ..a })
        &&& m.importing@ == others(a.importing@, path)
        &&& m.import_waiters@ == others(a.import_waiters@, path)
        &&& #[trigger] all_woken(m, b, import_wakes(waiting(a.import_waiters@, path), outcome))
    };
    lemma_woken_keeps(m, b, import_wakes(waiting(a.import_waiters@, path), outcome));
    if 0 <= k < b.importing@.len() {
        lemma_others_absent(a.importing@, path, k);
    }
    if 0 <= k < b.import_waiters@.len() {
        lemma_others_absent(a.import_waiters@, path, k);
    }
}

impl Vm {
    /// A module body ended: the path is free, and whoever waited is handed the
    /// module or raises what the body raised.
    pub fn release_import(&mut self, path: &str, outcome: Result<Value, Value>)
        ensures release_result(*old(self), *final(self), path@, outcome),
    {
        let ghost a = *self;
        let mut imp: Vec<(String, TaskId)> = Vec::new();
        std::mem::swap(&mut self.importing, &mut imp);
        let (rest, _) = part(imp, path);
        self.importing = rest;
        let mut wait: Vec<(String, TaskId)> = Vec::new();
        std::mem::swap(&mut self.import_waiters, &mut wait);
        let (keep, ids) = part(wait, path);
        self.import_waiters = keep;
        let ghost m = *self;
        let ghost ws = import_wakes(ids@, outcome);
        assert(ws.take(0) =~= Seq::empty());
        let mut i: usize = 0;
        while i < ids.len()
            invariant
                i <= ids.len(),
                ws == import_wakes(ids@, outcome),
                all_woken(m, *self, ws.take(i as int)),
            decreases ids.len() - i,
        {
            let ghost before = *self;
            match outcome {
                Ok(v) => self.wake_with_value(ids[i], v),
                Err(exc) => self.wake_with_raise(ids[i], exc),
            }
            proof {
                lemma_woken_push(m, before, *self, ws.take(i as int), ws[i as int]);
                assert(ws.take(i + 1) =~= ws.take(i as int).push(ws[i as int]));
            }
            i += 1;
        }
        proof {
            assert(ws.take(i as int) =~= ws);
            assert(all_woken(m, *self, import_wakes(waiting(a.import_waiters@, path@), outcome)));
        }
    }

    /// A module body is running already: in the running task, that is a cycle; in
    /// another one, it is something to wait for.
    pub fn await_import(&mut self, path: &str, owner: TaskId) -> (r: Step)
        ensures await_result(*old(self), *final(self), path@, owner, r),
    {
        if owner == self.task.id {
            return self.raise(Exc::ImportError, join3("circular import detected while importing '", path, "'"));
        }
        let id = self.task.id;
        self.import_waiters.push((path.to_owned(), id));
        assert(self.import_waiters@.drop_last() =~= old(self).import_waiters@);
        Step::Park(Box::new(Park::Import(path.to_owned())))
    }
}

/// What `yield_now()` does.
pub open spec fn yield_now_result(a: Vm, b: Vm, args: Seq<Value>, kwargs: Seq<Keyword>, r: Step) -> bool {
    &&& b == (Vm { heap: b.heap, ..a })
    &&& exceptions_grew(a.heap, b.heap)
    &&& if kwargs.len() > 0 {
        raises(b.heap, a.excs@, r, Exc::TypeError, "yield_now() takes no keyword arguments"@)
    } else if args.len() > 0 {
        raises(b.heap, a.excs@, r, Exc::TypeError, "yield_now() takes 0 argument(s) but "@
            + nat_text(args.len()) + " were given"@)
    } else {
        (r matches Step::Park(p) && *p == Park::Yield) && b.heap == a.heap
    }
}

/// What `chan()` does.
pub open spec fn chan_result(a: Vm, b: Vm, args: Seq<Value>, kwargs: Seq<Keyword>, r: Step) -> bool {
    match chan_capacity(a.heap, args, kwargs) {
        Ok(n) => {
            let id = a.heap.chans.len();
            &&& r is Next
            &&& restacked(a, b, a.stack().push(Value::Channel(id)))
            &&& b.heap == (Heap { chans: b.heap.chans, ..a.heap })
            &&& b.heap.chans@.len() == id + 1
            &&& b.heap.chans@.drop_last() == a.heap.chans@
            &&& b.heap.chan(id) == (ChanView {
                cap: n,
                buf: Seq::empty(),
                closed: false,
                recv: Seq::empty(),
                send: Seq::empty(),
                index: 0,
            })
            &&& b.heap.chan(id).wf()
        },
        Err(e) => raises(b.heap, a.excs@, r, e.0, e.1) && b == (Vm { heap: b.heap, ..a })
            && exceptions_grew(a.heap, b.heap),
    }
}

/// What importing a module does whose body runs in task `owner`.
pub open spec fn await_result(a: Vm, b: Vm, path: Seq<char>, owner: TaskId, r: Step) -> bool {
    if owner == a.task.id {
        &&& raises(b.heap, a.excs@, r, Exc::ImportError,
            "circular import detected while importing '"@ + path + "'"@)
        &&& b == (Vm { heap: b.heap, ..a })
        &&& exceptions_grew(a.heap, b.heap)
    } else {
        &&& r matches Step::Park(p) && (*p matches Park::Import(s) && s@ == path)
        &&& b == (Vm { import_waiters: b.import_waiters, ..a })
        &&& b.import_waiters@.len() == a.import_waiters@.len() + 1
        &&& b.import_waiters@.drop_last() == a.import_waiters@
        &&& b.import_waiters@.last().0@ == path
        &&& b.import_waiters@.last().1 == a.task.id
    }
}

} // verus!
