//! Leaving frames: by returning, and by an exception.
use vstd::prelude::*;
use std::rc::Rc;
use crate::call::fault_step;
use crate::code::{Conv, VarTarget};
use crate::bind::pool_retired;
use crate::control::{cut, jobs_cut, last_finally, last_handler, return_defers};
use crate::exc::{Exc, VErr};
use crate::exceptions::{exc_class, exception_fields, exceptions_grew, exit_code_of, fault_exception, is_fault_exception, make_exception_instance, parse_exit_code, render_uncaught, uncaught_text};
use crate::fields::Fields;
use crate::frame::{Block, BlockKind, Frame, ReturnAction};
use crate::machine::{restacked, CompareJob, HostCall, Job, Level, RuntimeError, Step, Task, Vm, Why};
use crate::names::{is_truthy, truthy};
use crate::repr::{display, exception_args, exception_args_of, render_display};
use crate::seqop::PendingChain;
use crate::tasks::release_result;
use crate::text::same_text;
use crate::texting::{print_rendered, text_given};
use crate::value::{Heap, Module, Value};
use crate::wake::faults;

verus! {

/// The job that the value of an action is for is there.
pub open spec fn jobs_ready(t: Task, action: ReturnAction) -> bool {
    match action {
        ReturnAction::DrivePrint => t.prints@.len() > 0,
        ReturnAction::DriveText => t.texts@.len() > 0,
        ReturnAction::DriveSeq => t.seqs@.len() > 0,
        ReturnAction::DriveCompare => t.compares@.len() > 0 && t.compares@.last().levels@.len() > 0
            && t.compares@.last().levels@.last() is Dunder,
        _ => true,
    }
}

/// Whether the job that the value of an action is for is there.
pub fn has_job(t: &Task, action: ReturnAction) -> (r: bool)
    ensures r == jobs_ready(*t, action),
{
    match action {
        ReturnAction::DrivePrint => t.prints.len() > 0,
        ReturnAction::DriveText => t.texts.len() > 0,
        ReturnAction::DriveSeq => t.seqs.len() > 0,
        ReturnAction::DriveCompare => {
            let n = t.compares.len();
            if n == 0 {
                return false;
            }
            let k = t.compares[n - 1].levels.len();
            if k == 0 {
                return false;
            }
            match &t.compares[n - 1].levels[k - 1] {
                Level::Dunder => true,
                _ => false,
            }
        }
        _ => true,
    }
}

/// The innermost comparison no longer waits for a comparison method.
pub open spec fn dunder_answered(a: Vm, b: Vm) -> bool {
    let j = a.task.compares@.last();
    let k = b.task.compares@.last();
    &&& b == (Vm { task: Task { compares: b.task.compares, ..a.task }, ..a })
    &&& b.task.compares@.len() == a.task.compares@.len()
    &&& b.task.compares@.drop_last() == a.task.compares@.drop_last()
    &&& k == (CompareJob { levels: k.levels, ..j })
    &&& k.levels@ == j.levels@.drop_last()
}

/// The innermost collection operation got its callback's answer.
pub open spec fn seq_answered(a: Vm, b: Vm, v: Value) -> bool {
    &&& b == (Vm { task: Task { seqs: b.task.seqs, ..a.task }, ..a })
    &&& b.task.seqs@.len() == a.task.seqs@.len()
    &&& b.task.seqs@.drop_last() == a.task.seqs@.drop_last()
    &&& crate::chain::recorded(a.heap, a.task.seqs@.last(), b.task.seqs@.last(), v)
}

/// What a value does that a call gave: it goes on the stack, or to the job that
/// made the call.
pub open spec fn deliver_result(a: Vm, b: Vm, action: ReturnAction, v: Value, r: Step) -> bool {
    match action {
        ReturnAction::Normal | ReturnAction::BuildModule(_) => r is Next && restacked(a, b, a.stack().push(v)) && b.heap == a.heap,
        ReturnAction::DropForInit => b == a && if v is Null {
            r is Next
        } else {
            faults(r, Exc::TypeError, "__init__() should return None"@)
        },
        ReturnAction::DrivePrint => r == Step::Drive(Job::Print) && print_rendered(a, b, display(a.heap, v)),
        ReturnAction::DriveText => r == Step::Drive(Job::Text) && text_given(a, b, display(a.heap, v)),
        ReturnAction::DriveSeq => r == Step::Drive(Job::Chain) && seq_answered(a, b, v),
        ReturnAction::NegateBool => r is Next && restacked(a, b, a.stack().push(Value::Bool(!truthy(a.heap, v)))) && b.heap == a.heap,
        ReturnAction::DriveCompare => r == Step::Answer(truthy(a.heap, v)) && dunder_answered(a, b),
        ReturnAction::FormatSpec(s) => b == a && (r matches Step::Host(x) && (*x).1 == ReturnAction::Normal
            && ((*x).0 matches HostCall::Format(w, c, spec) && w == v && c == Conv::Display && spec@ == a.heap.text(s))),
    }
}

/// What a variable of a frame holds.
pub open spec fn slot_value(h: Heap, f: Frame, t: VarTarget) -> Value {
    match t {
        VarTarget::Local(s) => if s < f.locals@.len() { f.locals@[s as int] } else { Value::Unbound },
        VarTarget::Cell(s) => if s < f.cells@.len() { h.cell(f.cells@[s as int]) } else { Value::Unbound },
    }
}

/// What a variable of a frame holds.
pub fn slot_of(h: &Heap, f: &Frame, t: VarTarget) -> (r: Value)
    ensures r == slot_value(*h, *f, t),
{
    match t {
        VarTarget::Local(s) => if (s as usize) < f.locals.len() { f.locals[s as usize] } else { Value::Unbound },
        VarTarget::Cell(s) => if (s as usize) < f.cells.len() { h.cell_get(f.cells[s as usize]) } else { Value::Unbound },
    }
}

/// The first `n` names of a module body, with what they hold. A name that was
/// never assigned is none.
pub open spec fn module_members(h: Heap, f: Frame, n: int) -> Map<Seq<char>, Value>
    decreases n,
{
    if n <= 0 {
        Map::empty()
    } else {
        let (name, target) = f.code.module_names@[n - 1];
        let v = slot_value(h, f, target);
        let before = module_members(h, f, n - 1);
        if v is Unbound { before } else { before.insert(name@, v) }
    }
}

/// The module of body frame `f` was made and is in the cache under its path.
pub open spec fn module_made(a: Vm, b: Vm, path: Seq<char>, f: Frame) -> bool {
    let id = a.heap.modules.len();
    &&& b == (Vm { heap: b.heap, module_cache: b.module_cache, ..a })
    &&& b.heap == (Heap { modules: b.heap.modules, ..a.heap })
    &&& b.heap.modules@.len() == id + 1
    &&& a.heap.modules@.is_prefix_of(b.heap.modules@)
    &&& b.heap.modules@[id as int].name@ == path
    &&& b.heap.modules@[id as int].members@ == module_members(a.heap, f, f.code.module_names@.len() as int)
    &&& b.module_cache@ == a.module_cache@.insert(path, Value::Module(id))
}

/// What the end of a module body does: the module is made, whoever waits for it
/// gets it, and so does the importer.
pub open spec fn finish_module_result(a: Vm, b: Vm, path: Seq<char>, f: Frame) -> bool {
    exists|m: Vm, n: Vm| {
        &&& #[trigger] module_made(a, m, path, f)
        &&& #[trigger] release_result(m, n, path, Ok::<Value, Value>(Value::Module(a.heap.modules.len())))
        &&& restacked(n, b, a.stack().push(Value::Module(a.heap.modules.len())))
        &&& b.heap == n.heap
    }
}

proof fn lemma_release_keeps_task(a: Vm, b: Vm, path: Seq<char>, outcome: Result<Value, Value>)
    requires release_result(a, b, path, outcome),
    ensures b.task == a.task,
{
    let m = choose|m: Vm| {
        &&& m == (Vm { importing: m.importing, import_waiters: m.import_waiters, ..a })
        &&& m.importing@ == crate::tasks::others(a.importing@, path)
        &&& m.import_waiters@ == crate::tasks::others(a.import_waiters@, path)
        &&& #[trigger] crate::wake::all_woken(m, b, crate::tasks::import_wakes(crate::tasks::waiting(a.import_waiters@, path), outcome))
    };
    lemma_wakes_keep_task(m, b, crate::tasks::import_wakes(crate::tasks::waiting(a.import_waiters@, path), outcome));
}

proof fn lemma_wakes_keep_task(a: Vm, b: Vm, ws: Seq<crate::wake::Wake>)
    requires crate::wake::all_woken(a, b, ws),
    ensures b.task == a.task,
    decreases ws.len(),
{
    if ws.len() > 0 {
        let m = choose|m: Vm| crate::wake::all_woken(a, m, ws.drop_last()) && #[trigger] crate::wake::woken(m, b, ws.last());
        lemma_wakes_keep_task(a, m, ws.drop_last());
    }
}

/// The innermost frame is off, and `b` may have kept its buffers.
pub open spec fn frame_off(a: Vm, b: Vm) -> bool {
    &&& b == (Vm { task: Task { frames: b.task.frames, ..a.task }, ..a })
    &&& b.task.frames@ == a.task.frames@.drop_last()
}

/// What `return` does: the innermost `finally` first, and then the value goes to
/// where the frame was called from.
pub open spec fn return_result(a: Vm, b: Vm, v: Value, r: Step) -> bool {
    if last_finally(a.top().blocks@) is Some {
        r is Next && return_defers(a, b, v)
    } else if a.task.frames@.len() == 1 {
        &&& r == Step::Done(v)
        &&& b == (Vm { task: Task { frames: b.task.frames, last_locals: b.task.last_locals, ..a.task }, ..a })
        &&& b.task.frames@.len() == 0
        &&& b.task.last_locals == a.top().locals
    } else {
        exists|m: Vm| {
            &&& #[trigger] frame_off(a, m)
            &&& match a.top().ret_action {
                ReturnAction::BuildModule(p) => r is Next && body_ended(m, b, a.heap.text(p), a.top()),
                action => passed_on(m, b, action, v, r),
            }
        }
    }
}

/// The body of the module `path` ended in frame `f`, which is off.
pub open spec fn body_ended(a: Vm, b: Vm, path: Seq<char>, f: Frame) -> bool {
    exists|n: Vm| #[trigger] pool_only(n, b) && finish_module_result(a, n, path, f)
}

/// The value of a frame that is off goes where the frame was called from.
pub open spec fn passed_on(a: Vm, b: Vm, action: ReturnAction, v: Value, r: Step) -> bool {
    exists|n: Vm| #[trigger] pool_only(a, n) && deliver_result(n, b, action, v, r)
}

proof fn lemma_members(h: Heap, f: Frame, g: Frame, n: int)
    requires
        f.locals == g.locals,
        f.cells == g.cells,
        f.code == g.code,
    ensures module_members(h, f, n) == module_members(h, g, n),
    decreases n,
{
    if n > 0 {
        lemma_members(h, f, g, n - 1);
    }
}

/// A frame was retired and nothing else changed.
pub open spec fn pool_only(a: Vm, b: Vm) -> bool {
    b == (Vm { frame_pool: b.frame_pool, ..a }) && pool_retired(a.frame_pool@, b.frame_pool@)
}

/// A frame a value can be returned from.
pub open spec fn return_ready(a: Vm) -> bool {
    a.running() && (a.task.frames@.len() >= 2 ==> jobs_ready(a.task, a.top().ret_action))
}

impl Vm {
    /// Hand over a value that a call gave.
    pub fn deliver(&mut self, action: ReturnAction, v: Value) -> (r: Step)
        requires
            old(self).running(),
            jobs_ready(old(self).task, action),
        ensures deliver_result(*old(self), *final(self), action, v, r),
    {
        match action {
            ReturnAction::Normal => {
                self.push(v);
                Step::Next
            }
            ReturnAction::BuildModule(_) => {
                self.push(v);
                Step::Next
            }
            ReturnAction::DropForInit => match v {
                Value::Null => Step::Next,
                _ => fault_step(Exc::TypeError, "__init__() should return None"),
            },
            ReturnAction::DrivePrint => {
                let s = render_display(&self.heap, v);
                self.give_print(s);
                Step::Drive(Job::Print)
            }
            ReturnAction::DriveText => {
                let s = render_display(&self.heap, v);
                self.give_text(s);
                Step::Drive(Job::Text)
            }
            ReturnAction::DriveSeq => {
                self.record_seq_result(v);
                Step::Drive(Job::Chain)
            }
            ReturnAction::NegateBool => {
                let t = is_truthy(&self.heap, v);
                self.push(Value::Bool(!t));
                Step::Next
            }
            ReturnAction::DriveCompare => {
                let n = self.task.compares.len();
                let _level = self.task.compares[n - 1].levels.pop();
                assert(self.task.compares@.drop_last() =~= old(self).task.compares@.drop_last());
                Step::Answer(is_truthy(&self.heap, v))
            }
            ReturnAction::FormatSpec(s) => {
                let spec = self.heap.text_of(s).to_owned();
                Step::Host(Box::new((HostCall::Format(v, Conv::Display, spec), ReturnAction::Normal)))
            }
        }
    }

    fn finish_module(&mut self, path: usize, frame: &Frame)
        requires old(self).running(),
        ensures finish_module_result(*old(self), *final(self), old(self).heap.text(path), *frame),
    {
        let ghost a = *self;
        let name = self.heap.text_of(path).to_owned();
        let mut members = Fields::new();
        let mut i: usize = 0;
        while i < frame.code.module_names.len()
            invariant
                i <= frame.code.module_names.len(),
                *self == a,
                members@ == module_members(a.heap, *frame, i as int),
            decreases frame.code.module_names.len() - i,
        {
            let target = frame.code.module_names[i].1;
            let v = slot_of(&self.heap, frame, target);
            match v {
                Value::Unbound => {}
                _ => {
                    let key = frame.code.module_names[i].0.clone();
                    members.insert(key, v);
                }
            }
            i += 1;
        }
        let module = self.heap.alloc_module(Module { name: name.clone(), members });
        self.module_cache.insert(name.clone(), module);
        let ghost m = *self;
        assert(module_made(a, m, a.heap.text(path), *frame));
        self.release_import(name.as_str(), Ok(module));
        let ghost n = *self;
        proof { lemma_release_keeps_task(m, n, name@, Ok::<Value, Value>(module)); }
        self.push(module);
    }

    /// Return `value` from the running frame.
    pub fn do_return(&mut self, value: Value) -> (r: Step)
        requires return_ready(*old(self)),
        ensures return_result(*old(self), *final(self), value, r),
    {
        let ghost a = *self;
        if self.return_through_finally(value) {
            return Step::Next;
        }
        let ghost c = *self;
        match self.task.frames.pop() {
            None => Step::Next,
            Some(frame) => {
                if self.task.frames.len() == 0 {
                    self.task.last_locals = frame.locals;
                    return Step::Done(value);
                }
                let ghost m = *self;
                assert(m.task.frames@ =~= a.task.frames@.drop_last());
                assert(frame_off(a, m));
                match frame.ret_action {
                    ReturnAction::BuildModule(p) => {
                        self.finish_module(p, &frame);
                        let ghost n = *self;
                        proof {
                            let f = a.top();
                            lemma_members(m.heap, frame, f, f.code.module_names@.len() as int);
                            let (x, y) = choose|x: Vm, y: Vm| {
                                &&& #[trigger] module_made(m, x, a.heap.text(p), frame)
                                &&& #[trigger] release_result(x, y, a.heap.text(p), Ok::<Value, Value>(Value::Module(m.heap.modules.len())))
                                &&& restacked(y, n, m.stack().push(Value::Module(m.heap.modules.len())))
                                &&& n.heap == y.heap
                            };
                            assert(module_made(m, x, a.heap.text(p), f));
                            assert(finish_module_result(m, n, a.heap.text(p), f));
                        }
                        self.recycle(frame);
                        assert(pool_only(n, *self));
                        assert(body_ended(m, *self, a.heap.text(p), a.top()));
                        Step::Next
                    }
                    action => {
                        self.recycle(frame);
                        let ghost n = *self;
                        assert(pool_only(m, n));
                        let r = self.deliver(action, value);
                        assert(passed_on(m, *self, action, value, r));
                        r
                    }
                }
            }
        }
    }
}

/// The chains begun in frames below the innermost one of these.
pub open spec fn kept_chains(chains: Seq<PendingChain>, depth: nat) -> Seq<PendingChain>
    decreases chains.len(),
{
    if chains.len() == 0 {
        Seq::empty()
    } else {
        let before = kept_chains(chains.drop_last(), depth);
        if chains.last().frame_depth < depth { before.push(chains.last()) } else { before }
    }
}

/// The chains deferred in the innermost frame are gone: nothing will run them.
pub open spec fn chains_kept(a: Vm, b: Vm) -> bool {
    &&& b == (Vm { chains: b.chains, ..a })
    &&& b.chains@ == kept_chains(a.chains@, a.task.frames@.len())
}

/// The innermost block of the running frame was left: what was begun inside it
/// is gone.
pub open spec fn block_off(a: Vm, b: Vm) -> bool {
    let k = a.top().blocks@.last();
    &&& a.top().blocks@.len() > 0
    &&& b == (Vm { task: b.task, ..a })
    &&& jobs_cut(Task { frames: b.task.frames, ..a.task }, b.task, k.jobs)
    &&& b.task.frames@.len() == a.task.frames@.len()
    &&& b.task.frames@.drop_last() == a.task.frames@.drop_last()
    &&& b.top() == (Frame { blocks: b.top().blocks, stack: b.top().stack, ..a.top() })
    &&& b.top().blocks@ == a.top().blocks@.drop_last()
    &&& b.top().stack@ == cut(a.top().stack@, k.stack_len as int)
}

/// The handler of block `k` takes the exception.
pub open spec fn caught(a: Vm, b: Vm, k: Block, exc: Value) -> bool {
    &&& b == (Vm {
        task: Task { frames: b.task.frames, handling: b.task.handling, finally_why: b.task.finally_why, ..a.task },
        ..a
    })
    &&& b.task.frames@.len() == a.task.frames@.len()
    &&& b.task.frames@.drop_last() == a.task.frames@.drop_last()
    &&& b.top() == (Frame { pc: k.target, ..a.top() })
    &&& if k.kind is Except {
        b.task.handling@ == a.task.handling@.push(exc) && b.task.finally_why == a.task.finally_why
    } else {
        b.task.finally_why@ == a.task.finally_why@.push(Why::Raise(exc)) && b.task.handling == a.task.handling
    }
}

/// The innermost frame has no handler and is gone. A module body that ends so
/// frees its path, and whoever waited for it raises the same.
pub open spec fn frame_lost(a: Vm, b: Vm, exc: Value) -> bool {
    exists|m: Vm, n: Vm| {
        &&& #[trigger] chains_kept(a, m)
        &&& #[trigger] frame_off(m, n)
        &&& match a.top().ret_action {
            ReturnAction::BuildModule(p) => body_lost(n, b, a.heap.text(p), exc),
            _ => pool_only(n, b),
        }
    }
}

/// The body of the module `path` ended in an exception.
pub open spec fn body_lost(a: Vm, b: Vm, path: Seq<char>, exc: Value) -> bool {
    exists|n: Vm| #[trigger] release_result(a, n, path, Err::<Value, Value>(exc)) && pool_only(n, b)
}

/// The exit code an exception carries that nothing caught.
pub open spec fn exit_code_in(h: Heap, exc: Value) -> Option<i64> {
    match exc {
        Value::Instance(i) => if h.class_name(h.instance_class(i)) == "SystemExit"@ {
            let args = exception_args(h, i);
            if args.len() > 0 && args[0] is Int { Some(low_word(args[0]->Int_0)) } else { Some(0i64) }
        } else {
            None
        },
        _ => None,
    }
}

/// The number in the low 32 bits of `n`.
pub open spec fn low_word(n: i64) -> i64 {
    let m = n as int % 0x1_0000_0000;
    if m >= 0x8000_0000 { (m - 0x1_0000_0000) as i64 } else { m as i64 }
}

/// Nothing caught the exception; an exit that was asked for is noted.
pub open spec fn uncaught(a: Vm, b: Vm, exc: Value) -> bool {
    b == (match exit_code_in(a.heap, exc) {
        Some(code) => Vm { exit_code: Some(code), ..a },
        None => a,
    })
}

/// What raising `exc` does from here: block by block and frame by frame to the
/// first handler; `true` says that there was none.
pub open spec fn unwind_from(a: Vm, b: Vm, exc: Value, r: bool) -> bool
    decreases a.task.frames@.len(), a.top().blocks@.len(),
{
    if a.task.frames@.len() == 0 {
        r && uncaught(a, b, exc)
    } else if a.top().blocks@.len() > 0 {
        exists|m: Vm| #[trigger] block_off(a, m) && if a.top().blocks@.last().kind is Loop {
            unwind_from(m, b, exc, r)
        } else {
            !r && caught(m, b, a.top().blocks@.last(), exc)
        }
    } else {
        exists|m: Vm| #[trigger] frame_lost(a, m, exc) && m.task.frames@.len() < a.task.frames@.len() && unwind_from(m, b, exc, r)
    }
}

/// What raising `exc` does.
pub open spec fn unwind_result(a: Vm, b: Vm, exc: Value, r: bool) -> bool {
    exists|m: Vm| #[trigger] chains_kept(a, m) && unwind_from(m, b, exc, r)
}

impl Vm {
    fn keep_chains(&mut self)
        ensures chains_kept(*old(self), *final(self)),
    {
        let depth = self.task.frames.len();
        let mut old_chains: Vec<PendingChain> = Vec::new();
        std::mem::swap(&mut self.chains, &mut old_chains);
        let ghost all = old_chains@;
        let mut rev: Vec<PendingChain> = Vec::new();
        proof { assert(all.take(all.len() as int) =~= all); }
        while old_chains.len() > 0
            invariant
                old_chains@ == all.take(old_chains@.len() as int),
                old_chains@.len() <= all.len(),
                depth == old(self).task.frames@.len(),
                kept_chains(all, depth as nat) == kept_chains(old_chains@, depth as nat) + rev@.reverse(),
            decreases old_chains.len(),
        {
            let ghost before = old_chains@;
            let ghost rv = rev@;
            match old_chains.pop() {
                Some(c) => {
                    assert(old_chains@ =~= before.drop_last());
                    assert(old_chains@ =~= all.take(old_chains@.len() as int));
                    if c.frame_depth < depth {
                        rev.push(c);
                        assert(kept_chains(before, depth as nat) + rv.reverse()
                            =~= kept_chains(old_chains@, depth as nat) + rev@.reverse());
                    }
                }
                None => {}
            }
        }
        let ghost kept = kept_chains(all, depth as nat);
        assert(kept =~= rev@.reverse());
        while rev.len() > 0
            invariant
                self.chains@ + rev@.reverse() == kept,
                *self == (Vm { chains: self.chains, ..*old(self) }),
            decreases rev.len(),
        {
            let ghost before = rev@;
            let ghost cv = self.chains@;
            match rev.pop() {
                Some(c) => {
                    self.chains.push(c);
                    assert(cv + before.reverse() =~= self.chains@ + rev@.reverse());
                }
                None => {}
            }
        }
        assert(self.chains@ =~= kept);
    }

    fn leave_block(&mut self, k: Block)
        requires
            old(self).running(),
            old(self).top().blocks@.len() > 0,
            k == old(self).top().blocks@.last(),
        ensures block_off(*old(self), *final(self)),
    {
        let ghost a = *self;
        let n = self.task.frames.len();
        let _b = self.task.frames[n - 1].blocks.pop();
        if k.stack_len < self.task.frames[n - 1].stack.len() {
            self.task.frames[n - 1].stack.truncate(k.stack_len);
        }
        assert(self.task.frames@.drop_last() =~= a.task.frames@.drop_last());
        assert(self.top().stack@ =~= cut(a.top().stack@, k.stack_len as int));
        self.truncate_jobs(k.jobs);
    }

    fn catch(&mut self, k: Block, exc: Value)
        requires old(self).running(),
        ensures caught(*old(self), *final(self), k, exc),
    {
        self.jump(k.target);
        match k.kind {
            BlockKind::Except => self.task.handling.push(exc),
            _ => self.task.finally_why.push(Why::Raise(exc)),
        }
    }

    fn lose_frame(&mut self, exc: Value)
        requires old(self).running(),
        ensures
            frame_lost(*old(self), *final(self), exc),
            final(self).task.frames@.len() == old(self).task.frames@.len() - 1,
    {
        let ghost a = *self;
        self.keep_chains();
        let ghost m = *self;
        match self.task.frames.pop() {
            None => {}
            Some(frame) => {
                let ghost n = *self;
                assert(frame_off(m, n));
                if let ReturnAction::BuildModule(p) = frame.ret_action {
                    let path = self.heap.text_of(p).to_owned();
                    self.release_import(path.as_str(), Err(exc));
                    let ghost o = *self;
                    proof { lemma_release_keeps_task(n, o, path@, Err::<Value, Value>(exc)); }
                    assert(release_result(n, o, a.heap.text(p), Err::<Value, Value>(exc)));
                    self.recycle(frame);
                    assert(body_lost(n, *self, a.heap.text(p), exc));
                } else {
                    self.recycle(frame);
                    assert(pool_only(n, *self));
                }
            }
        }
    }

    fn note_exit(&mut self, exc: Value)
        ensures uncaught(*old(self), *final(self), exc),
    {
        if let Value::Instance(i) = exc {
            if same_text(self.heap.class_name_of(self.heap.class_of(i)), "SystemExit") {
                let args = exception_args_of(&self.heap, i);
                let code = if args.len() > 0 {
                    match args[0] {
                        Value::Int(n) => {
                            let m = (n as i128) % 0x1_0000_0000;
                            let m = if m < 0 { m + 0x1_0000_0000 } else { m };
                            proof {
                                vstd::arithmetic::div_mod::lemma_fundamental_div_mod(n as int, 0x1_0000_0000);
                            }
                            if m >= 0x8000_0000 { (m - 0x1_0000_0000) as i64 } else { m as i64 }
                        }
                        _ => 0,
                    }
                } else {
                    0
                };
                self.exit_code = Some(code);
            }
        }
    }

    /// Raise `exc`: go to the innermost handler there is. `true` says that
    /// there is none, and no frame is left.
    pub fn unwind(&mut self, exc: Value) -> (r: bool)
        ensures unwind_result(*old(self), *final(self), exc, r),
    {
        let ghost a = *self;
        self.keep_chains();
        let ghost m0 = *self;
        assert(chains_kept(a, m0));
        loop
            invariant
                chains_kept(a, m0),
                a == *old(self),
                forall|b: Vm, r: bool| #[trigger] unwind_from(*self, b, exc, r) ==> unwind_from(m0, b, exc, r),
            decreases self.task.frames@.len(), self.top().blocks@.len(),
        {
            let ghost c = *self;
            let n = self.task.frames.len();
            if n == 0 {
                self.note_exit(exc);
                assert(unwind_from(c, *self, exc, true));
                return true;
            }
            let k = self.task.frames[n - 1].blocks.len();
            if k > 0 {
                let b = self.task.frames[n - 1].blocks[k - 1];
                self.leave_block(b);
                let ghost m = *self;
                assert(block_off(c, m));
                if let BlockKind::Loop { cont: _ } = b.kind {
                    assert forall|x: Vm, r: bool| #[trigger] unwind_from(m, x, exc, r) implies unwind_from(m0, x, exc, r) by {
                        assert(unwind_from(c, x, exc, r));
                    }
                } else {
                    self.catch(b, exc);
                    assert(unwind_from(c, *self, exc, false));
                    return false;
                }
            } else {
                self.lose_frame(exc);
                let ghost m = *self;
                assert(frame_lost(c, m, exc));
                assert forall|x: Vm, r: bool| #[trigger] unwind_from(m, x, exc, r) implies unwind_from(m0, x, exc, r) by {
                    assert(unwind_from(c, x, exc, r));
                }
            }
        }
    }

    /// How an exception that nothing caught is reported, from the file it was
    /// raised in.
    pub fn uncaught_error(&self, exc: Value, source: Rc<String>) -> (r: RuntimeError)
        ensures
            r.class == Exc::RuntimeError,
            r.message@ == uncaught_text(self.heap, exc),
            r.source == source,
            r.line == self.task.line,
            r.col == self.task.col,
    {
        RuntimeError {
            class: Exc::RuntimeError,
            message: render_uncaught(&self.heap, exc),
            source,
            line: self.task.line,
            col: self.task.col,
        }
    }

    /// The exception a fault becomes: an exit that was asked for carries its
    /// code, anything else its message.
    pub fn error_to_exception(&mut self, e: &VErr) -> (r: Value)
        ensures
            becomes(final(self).heap, old(self).excs@, r, e@),
            exceptions_grew(old(self).heap, final(self).heap),
            *final(self) == (Vm { heap: final(self).heap, ..*old(self) }),
    {
        if let Exc::SystemExit = e.class {
            let code = parse_exit_code(e.message.as_str());
            let class = self.exc(Exc::SystemExit);
            let mut args: Vec<Value> = Vec::new();
            args.push(Value::Int(code));
            assert(args@ =~= seq![Value::Int(code)]);
            return make_exception_instance(&mut self.heap, class, args);
        }
        fault_exception(&mut self.heap, &self.excs, e)
    }
}

/// `v` is the exception the fault `e` becomes.
pub open spec fn becomes(h: Heap, reg: Seq<usize>, v: Value, e: (Exc, Seq<char>)) -> bool {
    if e.0 == Exc::SystemExit {
        exception_fields(h, v, exc_class(reg, Exc::SystemExit), seq![Value::Int(exit_code_of(e.1) as i64)])
    } else {
        is_fault_exception(h, reg, v, e.0, e.1)
    }
}

/// Whether any of these frames has a handler.
pub open spec fn any_handler(frames: Seq<Frame>) -> bool {
    exists|i: int| 0 <= i < frames.len() && last_handler((#[trigger] frames[i]).blocks@) is Some
}

/// An exception is lost exactly when no frame has a handler for it; otherwise
/// the frames above the innermost one that has a handler are gone, and no
/// other.
pub proof fn handlers_are_found(a: Vm, b: Vm, exc: Value, r: bool)
    requires unwind_from(a, b, exc, r),
    ensures
        r <==> !any_handler(a.task.frames@),
        r ==> b.task.frames@.len() == 0,
        !r ==> 0 < b.task.frames@.len() <= a.task.frames@.len()
            && last_handler(a.task.frames@[b.task.frames@.len() - 1].blocks@) is Some
            && forall|i: int| b.task.frames@.len() <= i < a.task.frames@.len() ==> last_handler((#[trigger] a.task.frames@[i]).blocks@) is None,
    decreases a.task.frames@.len(), a.top().blocks@.len(),
{
    let fs = a.task.frames@;
    let n = fs.len() as int;
    if n == 0 {
    } else if a.top().blocks@.len() > 0 {
        let m = choose|m: Vm| #[trigger] block_off(a, m) && if a.top().blocks@.last().kind is Loop {
            unwind_from(m, b, exc, r)
        } else {
            !r && caught(m, b, a.top().blocks@.last(), exc)
        };
        let gs = m.task.frames@;
        assert forall|i: int| 0 <= i < n - 1 implies #[trigger] gs[i] == fs[i] by {
            assert(gs.drop_last()[i] == fs.drop_last()[i]);
        }
        if a.top().blocks@.last().kind is Loop {
            handlers_are_found(m, b, exc, r);
            assert(last_handler(fs[n - 1].blocks@) == last_handler(gs[n - 1].blocks@));
            assert(forall|i: int| 0 <= i < n ==> last_handler((#[trigger] fs[i]).blocks@) == last_handler(gs[i].blocks@));
            assert(forall|i: int| 0 <= i < n ==> last_handler((#[trigger] gs[i]).blocks@) == last_handler(fs[i].blocks@));
        } else {
            assert(last_handler(fs[n - 1].blocks@) is Some);
        }
    } else {
        let m = choose|m: Vm| #[trigger] frame_lost(a, m, exc) && m.task.frames@.len() < a.task.frames@.len() && unwind_from(m, b, exc, r);
        lemma_frame_lost(a, m, exc);
        handlers_are_found(m, b, exc, r);
        let gs = m.task.frames@;
        assert(last_handler(fs[n - 1].blocks@) is None);
        assert forall|i: int| 0 <= i < n - 1 implies #[trigger] gs[i] == fs[i] by {
        }
        assert(forall|i: int| 0 <= i < n - 1 ==> last_handler((#[trigger] fs[i]).blocks@) == last_handler(gs[i].blocks@));
    }
}

pub proof fn lemma_frame_lost(a: Vm, b: Vm, exc: Value)
    requires frame_lost(a, b, exc),
    ensures
        b.task.frames@ == a.task.frames@.drop_last(),
        b.task == (Task { frames: b.task.frames, ..a.task }),
{
    let (m, n) = choose|m: Vm, n: Vm| {
        &&& #[trigger] chains_kept(a, m)
        &&& #[trigger] frame_off(m, n)
        &&& match a.top().ret_action {
            ReturnAction::BuildModule(p) => body_lost(n, b, a.heap.text(p), exc),
            _ => pool_only(n, b),
        }
    };
    if let ReturnAction::BuildModule(p) = a.top().ret_action {
        let path = a.heap.text(p);
        let o = choose|o: Vm| #[trigger] release_result(n, o, path, Err::<Value, Value>(exc)) && pool_only(o, b);
        lemma_release_keeps_task(n, o, path, Err::<Value, Value>(exc));
    }
}

} // verus!
