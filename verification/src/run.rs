//! Running a task until it has to stop.
use vstd::prelude::*;
use crate::chain::drive_seq_result;
use crate::code::Op;
use crate::deep::{advance_result, answer_result, pair_result};
use crate::dispatch::invoke_result;
use crate::exc::{Exc, VErr};
use crate::exceptions::{exceptions_grew, uncaught_text};
use crate::flow::{becomes, deliver_result, has_job, jobs_ready, unwind_result};
use crate::frame::{Frame, ReturnAction};
use crate::generate::{drain_ready, drain_result};
use crate::machine::{HostCall, Job, RuntimeError, Step, Task, Vm};
use crate::order::drive_order_result;
use crate::sched::Park;
use crate::step::{ready, step_result};
use crate::texting::{drive_print_result, drive_text_result};
use crate::value::Value;

verus! {

/// Why a task stopped running.
#[derive(Debug)]
pub enum Slice {
    /// It waits.
    Parked(Box<Park>),
    /// Its outermost frame returned this.
    Returned(Value),
    /// Nothing caught this exception; the report of it.
    Failed(Value, Box<RuntimeError>),
    /// The host has to do something for it.
    Host(Box<(HostCall, ReturnAction)>),
    /// Its share of moves is used up; this is how it goes on.
    Paused(Step),
    /// The code is none that a compiler makes.
    Malformed,
}

/// What one move of a task leads to.
#[derive(Debug)]
pub enum Move {
    Go(Step),
    Stop(Slice),
}

/// The instruction at the program counter is `op`, and `b` has gone past it.
pub open spec fn fetched(a: Vm, b: Vm, op: Op) -> bool {
    let f = a.top();
    let (line, col) = f.code.spans@[f.pc as int];
    &&& a.running()
    &&& f.pc < f.code.ops@.len()
    &&& f.pc < f.code.spans@.len()
    &&& op == f.code.ops@[f.pc as int]
    &&& b == (Vm { task: Task { frames: b.task.frames, line, col, ..a.task }, ..a })
    &&& b.task.frames@.len() == a.task.frames@.len()
    &&& b.task.frames@.drop_last() == a.task.frames@.drop_last()
    &&& b.top() == (Frame { pc: (f.pc + 1) as usize, ..f })
}

/// Whether there is an instruction at the program counter.
pub open spec fn has_instruction(a: Vm) -> bool {
    a.running() && a.top().pc < a.top().code.ops.len() && a.top().pc < a.top().code.spans.len()
}

/// The code is none that a compiler makes.
pub open spec fn malformed(m: Move) -> bool {
    m == Move::Stop(Slice::Malformed)
}

/// What the next instruction does.
pub open spec fn next_result(a: Vm, b: Vm, r: Move) -> bool {
    if !has_instruction(a) {
        malformed(r) && b == a
    } else {
        exists|m: Vm, op: Op| #[trigger] fetched(a, m, op) && if ready(m, op) {
            r matches Move::Go(s) && step_result(m, b, op, s)
        } else {
            malformed(r) && b == m
        }
    }
}

/// What raising `exc` leads to: a handler, or the end of the task.
pub open spec fn raised(a: Vm, b: Vm, exc: Value, r: Move) -> bool {
    exists|lost: bool| #[trigger] unwind_result(a, b, exc, lost) && if lost {
        r matches Move::Stop(Slice::Failed(v, e)) && v == exc && {
            &&& (*e).class == Exc::RuntimeError
            &&& (*e).message@ == uncaught_text(b.heap, exc)
            &&& (*e).source@ == a.spec_source()
            &&& (*e).line == b.task.line
            &&& (*e).col == b.task.col
        }
    } else {
        r == Move::Go(Step::Next)
    }
}

/// What the fault `e` leads to.
pub open spec fn faulted(a: Vm, b: Vm, e: VErr, r: Move) -> bool {
    exists|m: Vm, exc: Value| {
        &&& #[trigger] becomes(m.heap, a.excs@, exc, e@)
        &&& exceptions_grew(a.heap, m.heap)
        &&& m == (Vm { heap: m.heap, ..a })
        &&& raised(m, b, exc, r)
    }
}

/// What going on with a job leads to.
pub open spec fn drive_result(a: Vm, b: Vm, job: Job, r: Move) -> bool {
    match job {
        Job::Print => if a.task.prints@.len() > 0 {
            r matches Move::Go(s) && drive_print_result(a, b, s)
        } else {
            malformed(r) && b == a
        },
        Job::Text => if a.running() && a.task.texts@.len() > 0 {
            r matches Move::Go(s) && drive_text_result(a, b, s)
        } else {
            malformed(r) && b == a
        },
        Job::Chain => if a.running() && a.task.seqs@.len() > 0 {
            r matches Move::Go(s) && drive_seq_result(a, b, s)
        } else {
            malformed(r) && b == a
        },
        Job::Compare => if a.task.compares@.len() > 0 && a.task.compares@.last().levels@.len() > 0 {
            r matches Move::Go(s) && advance_result(a, b, None, s)
        } else {
            malformed(r) && b == a
        },
        Job::Order => if a.running() && a.task.orders@.len() > 0 {
            r matches Move::Go(s) && drive_order_result(a, b, None, s)
        } else {
            malformed(r) && b == a
        },
        Job::Mat => if drain_ready(a) {
            r matches Move::Go(s) && drain_result(a, b, s)
        } else {
            malformed(r) && b == a
        },
    }
}

/// What one move of the running task leads to.
pub open spec fn move_result(a: Vm, b: Vm, s: Step, r: Move) -> bool {
    match s {
        Step::Next => next_result(a, b, r),
        Step::Done(v) => r == Move::Stop(Slice::Returned(v)) && b == a,
        Step::Raise(exc) => raised(a, b, exc, r),
        Step::Fault(e) => faulted(a, b, *e, r),
        Step::Park(p) => r == Move::Stop(Slice::Parked(p)) && b == a,
        Step::Host(c) => r == Move::Stop(Slice::Host(c)) && b == a,
        Step::Give(x) => if a.running() && jobs_ready(a.task, (*x).0) {
            r matches Move::Go(t) && deliver_result(a, b, (*x).0, (*x).1, t)
        } else {
            malformed(r) && b == a
        },
        Step::Drive(job) => drive_result(a, b, job, r),
        Step::Ask(x) => if a.task.compares@.len() > 0 {
            r matches Move::Go(t) && pair_result(a, b, (*x).2, (*x).0, (*x).1, t)
        } else {
            malformed(r) && b == a
        },
        Step::Answer(v) => if a.running() && a.task.compares@.len() > 0 {
            r matches Move::Go(t) && answer_result(a, b, v, t)
        } else {
            malformed(r) && b == a
        },
        Step::Order(v) => if a.running() && a.task.orders@.len() > 0 {
            r matches Move::Go(t) && drive_order_result(a, b, v, t)
        } else {
            malformed(r) && b == a
        },
        Step::Invoke(c) => if a.running() {
            r matches Move::Go(t) && invoke_result(a, b, (*c).callee, (*c).args@, (*c).kwargs, t)
        } else {
            malformed(r) && b == a
        },
    }
}

/// Up to `n` moves from `s` on lead to `r`.
pub open spec fn runs(a: Vm, s: Step, b: Vm, r: Slice, n: nat) -> bool
    decreases n,
{
    if n == 0 {
        b == a && r == Slice::Paused(s)
    } else {
        ||| move_result(a, b, s, Move::Stop(r))
        ||| exists|m: Vm, t: Step| #[trigger] move_result(a, m, s, Move::Go(t)) && runs(m, t, b, r, (n - 1) as nat)
    }
}

/// The move from place `i` of these states leads to the next of them.
pub open spec fn linked(vms: Seq<Vm>, steps: Seq<Step>, i: int) -> bool {
    move_result(vms[i], vms[i + 1], steps[i], Move::Go(steps[i + 1]))
}

/// One move after the other, each from where the last one led.
pub open spec fn one_by_one(vms: Seq<Vm>, steps: Seq<Step>) -> bool {
    &&& vms.len() == steps.len()
    &&& vms.len() > 0
    &&& forall|i: int| 0 <= i < vms.len() - 1 ==> #[trigger] linked(vms, steps, i)
}

/// After these moves the task stops in `b` for the reason `r`, or it has made
/// `n` moves and is held there.
pub open spec fn stops_at(vms: Seq<Vm>, steps: Seq<Step>, b: Vm, r: Slice, n: nat) -> bool {
    ||| vms.len() <= n && move_result(vms.last(), b, steps.last(), Move::Stop(r))
    ||| vms.len() == n + 1 && b == vms.last() && r == Slice::Paused(steps.last())
}

/// A slice ends where making its moves one by one ends, and nowhere else: every
/// instruction in it does what stepping it does.
pub proof fn slices_are_single_moves(a: Vm, s: Step, b: Vm, r: Slice, n: nat)
    ensures
        runs(a, s, b, r, n) <==> exists|vms: Seq<Vm>, steps: Seq<Step>|
            #[trigger] one_by_one(vms, steps) && vms[0] == a && steps[0] == s && stops_at(vms, steps, b, r, n),
{
    if runs(a, s, b, r, n) {
        let (vms, steps) = lemma_unrolled(a, s, b, r, n);
        assert(one_by_one(vms, steps));
    }
    if exists|vms: Seq<Vm>, steps: Seq<Step>|
        #[trigger] one_by_one(vms, steps) && vms[0] == a && steps[0] == s && stops_at(vms, steps, b, r, n) {
        let (vms, steps) = choose|vms: Seq<Vm>, steps: Seq<Step>|
            #[trigger] one_by_one(vms, steps) && vms[0] == a && steps[0] == s && stops_at(vms, steps, b, r, n);
        lemma_rolled(vms, steps, b, r, n);
    }
}

proof fn lemma_unrolled(a: Vm, s: Step, b: Vm, r: Slice, n: nat) -> (o: (Seq<Vm>, Seq<Step>))
    requires runs(a, s, b, r, n),
    ensures one_by_one(o.0, o.1), o.0[0] == a, o.1[0] == s, stops_at(o.0, o.1, b, r, n),
    decreases n,
{
    if n == 0 || move_result(a, b, s, Move::Stop(r)) {
        (seq![a], seq![s])
    } else {
        let (m, t) = choose|m: Vm, t: Step| #[trigger] move_result(a, m, s, Move::Go(t)) && runs(m, t, b, r, (n - 1) as nat);
        let (vms, steps) = lemma_unrolled(m, t, b, r, (n - 1) as nat);
        let v = seq![a] + vms;
        let w = seq![s] + steps;
        assert forall|i: int| 0 <= i < v.len() - 1 implies #[trigger] linked(v, w, i) by {
            if i > 0 {
                assert(linked(vms, steps, i - 1));
                assert(v[i] == vms[i - 1] && v[i + 1] == vms[i] && w[i] == steps[i - 1] && w[i + 1] == steps[i]);
            }
        }
        assert(v.last() == vms.last() && w.last() == steps.last());
        (v, w)
    }
}

proof fn lemma_rolled(vms: Seq<Vm>, steps: Seq<Step>, b: Vm, r: Slice, n: nat)
    requires one_by_one(vms, steps), stops_at(vms, steps, b, r, n),
    ensures runs(vms[0], steps[0], b, r, n),
    decreases n,
{
    if n > 0 && vms.len() > 1 {
        let v = vms.skip(1);
        let w = steps.skip(1);
        assert forall|i: int| 0 <= i < v.len() - 1 implies #[trigger] linked(v, w, i) by {
            assert(linked(vms, steps, i + 1));
            assert(v[i] == vms[i + 1] && v[i + 1] == vms[i + 2] && w[i] == steps[i + 1] && w[i + 1] == steps[i + 2]);
        }
        lemma_rolled(v, w, b, r, (n - 1) as nat);
        assert(linked(vms, steps, 0));
        assert(move_result(vms[0], vms[1], steps[0], Move::Go(steps[1])));
    }
}

proof fn lemma_no_move_pauses(a: Vm, b: Vm, s: Step, t: Step)
    ensures !move_result(a, b, s, Move::Stop(Slice::Paused(t))),
{
}

/// Where a slice is cut makes no difference: going on from a pause ends where
/// one longer slice ends.
pub proof fn pauses_change_nothing(a: Vm, s: Step, m: Vm, t: Step, b: Vm, r: Slice, n: nat, k: nat)
    requires
        runs(a, s, m, Slice::Paused(t), n),
        runs(m, t, b, r, k),
    ensures runs(a, s, b, r, n + k),
    decreases n,
{
    if n > 0 {
        lemma_no_move_pauses(a, m, s, t);
        let (p, q) = choose|p: Vm, q: Step| #[trigger] move_result(a, p, s, Move::Go(q)) && runs(p, q, m, Slice::Paused(t), (n - 1) as nat);
        pauses_change_nothing(p, q, m, t, b, r, (n - 1) as nat, k);
        assert((n + k - 1) as nat == n - 1 + k);
    }
}

/// How a task that is picked up goes on: with an exception that another task
/// raised in it, or with its next instruction.
pub open spec fn begun(a: Vm, b: Vm, s: Step) -> bool {
    match a.task.pending_raise {
        Some(exc) => s == Step::Raise(exc) && b == (Vm { task: Task { pending_raise: None, ..a.task }, ..a }),
        None => s is Next && b == a,
    }
}

impl Vm {
    /// How the running task goes on.
    pub fn begin_slice(&mut self) -> (r: Step)
        ensures begun(*old(self), *final(self), r),
    {
        match self.task.pending_raise {
            Some(exc) => {
                self.task.pending_raise = None;
                Step::Raise(exc)
            }
            None => Step::Next,
        }
    }

    fn go_next(&mut self) -> (r: Move)
        ensures next_result(*old(self), *final(self), r),
    {
        let ghost a = *self;
        let n = self.task.frames.len();
        if n == 0 {
            return Move::Stop(Slice::Malformed);
        }
        let pc = self.task.frames[n - 1].pc;
        if pc >= self.task.frames[n - 1].code.ops.len() || pc >= self.task.frames[n - 1].code.spans.len() {
            return Move::Stop(Slice::Malformed);
        }
        let op = self.task.frames[n - 1].code.ops[pc];
        let (line, col) = self.task.frames[n - 1].code.spans[pc];
        self.task.frames[n - 1].pc = pc + 1;
        self.task.line = line;
        self.task.col = col;
        let ghost m = *self;
        proof {
            assert(m.task.frames@.drop_last() =~= a.task.frames@.drop_last());
            assert(fetched(a, m, op));
        }
        if !self.is_ready(op) {
            return Move::Stop(Slice::Malformed);
        }
        Move::Go(self.step(op))
    }

    fn go_raise(&mut self, exc: Value) -> (r: Move)
        ensures raised(*old(self), *final(self), exc, r),
    {
        let ghost a = *self;
        let source = self.err_source();
        let lost = self.unwind(exc);
        assert(unwind_result(a, *self, exc, lost));
        if lost {
            let e = self.uncaught_error(exc, source);
            return Move::Stop(Slice::Failed(exc, Box::new(e)));
        }
        Move::Go(Step::Next)
    }

    fn go_drive(&mut self, job: Job) -> (r: Move)
        ensures drive_result(*old(self), *final(self), job, r),
    {
        let running = self.task.frames.len() > 0;
        match job {
            Job::Print => {
                if self.task.prints.len() > 0 {
                    return Move::Go(self.drive_print());
                }
            }
            Job::Text => {
                if running && self.task.texts.len() > 0 {
                    return Move::Go(self.drive_text());
                }
            }
            Job::Chain => {
                if running && self.task.seqs.len() > 0 {
                    return Move::Go(self.drive_seq());
                }
            }
            Job::Compare => {
                let n = self.task.compares.len();
                if n > 0 && self.task.compares[n - 1].levels.len() > 0 {
                    return Move::Go(self.advance(None));
                }
            }
            Job::Order => {
                if running && self.task.orders.len() > 0 {
                    return Move::Go(self.drive_order(None));
                }
            }
            Job::Mat => {
                let n = self.task.mats.len();
                if n > 0 && (!self.task.mats[n - 1].receiver_in_args || self.task.mats[n - 1].args.len() > 0) {
                    return Move::Go(self.drive_materialize());
                }
            }
        }
        Move::Stop(Slice::Malformed)
    }

    /// Make one move.
    pub fn proceed(&mut self, s: Step) -> (r: Move)
        ensures move_result(*old(self), *final(self), s, r),
    {
        let ghost a = *self;
        let running = self.task.frames.len() > 0;
        match s {
            Step::Next => self.go_next(),
            Step::Done(v) => Move::Stop(Slice::Returned(v)),
            Step::Raise(exc) => self.go_raise(exc),
            Step::Fault(e) => {
                let exc = self.error_to_exception(&e);
                let ghost m = *self;
                assert(becomes(m.heap, a.excs@, exc, (*e)@));
                self.go_raise(exc)
            }
            Step::Park(p) => Move::Stop(Slice::Parked(p)),
            Step::Host(c) => Move::Stop(Slice::Host(c)),
            Step::Give(x) => {
                let (action, v) = *x;
                if running && has_job(&self.task, action) {
                    return Move::Go(self.deliver(action, v));
                }
                Move::Stop(Slice::Malformed)
            }
            Step::Drive(job) => self.go_drive(job),
            Step::Ask(x) => {
                let (p, q, op) = *x;
                if self.task.compares.len() > 0 {
                    return Move::Go(self.step_pair(p, q, op));
                }
                Move::Stop(Slice::Malformed)
            }
            Step::Answer(v) => {
                if running && self.task.compares.len() > 0 {
                    return Move::Go(self.answer(v));
                }
                Move::Stop(Slice::Malformed)
            }
            Step::Order(v) => {
                if running && self.task.orders.len() > 0 {
                    return Move::Go(self.drive_order(v));
                }
                Move::Stop(Slice::Malformed)
            }
            Step::Invoke(c) => {
                if running {
                    let call = *c;
                    return Move::Go(self.invoke(call.callee, call.args, call.kwargs));
                }
                Move::Stop(Slice::Malformed)
            }
        }
    }

    /// Run the current task from `first` on, until it stops or has made
    /// `budget` moves.
    pub fn run_slice(&mut self, first: Step, budget: u64) -> (r: Slice)
        ensures runs(*old(self), first, *final(self), r, budget as nat),
    {
        let ghost a = *self;
        let mut s = first;
        let mut left = budget;
        while left > 0
            invariant
                a == *old(self),
                left <= budget,
                forall|b: Vm, r: Slice| #[trigger] runs(*self, s, b, r, left as nat) ==> runs(a, first, b, r, budget as nat),
            decreases left,
        {
            let ghost c = *self;
            let ghost s0 = s;
            match self.proceed(s) {
                Move::Stop(slice) => {
                    assert(move_result(c, *self, s0, Move::Stop(slice)));
                    assert(runs(c, s0, *self, slice, left as nat));
                    return slice;
                }
                Move::Go(t) => {
                    let ghost before = left as nat;
                    s = t;
                    left -= 1;
                    proof {
                        let m = *self;
                        assert(move_result(c, m, s0, Move::Go(t)));
                        assert forall|b: Vm, r: Slice| #[trigger] runs(m, s, b, r, left as nat) implies runs(a, first, b, r, budget as nat) by {
                            assert((before - 1) as nat == left as nat);
                            assert(runs(c, s0, b, r, before));
                        }
                    }
                }
            }
        }
        assert(runs(*self, s, *self, Slice::Paused(s), 0));
        Slice::Paused(s)
    }
}

} // verus!
