//! The machine's state: tasks, the jobs suspended in them, and what is true of
//! the whole run.
use vstd::prelude::*;
use std::rc::Rc;
use crate::arith::FloatOp;
use crate::code::{CodeObject, Conv, RelOp};
use crate::exc::{Exc, VErr};
use crate::fields::Fields;
use crate::frame::{Frame, ReturnAction};
use crate::reactor::Reactor;
use crate::sched::{Park, Parked};
use crate::seqop::{PendingChain, SeqJob, SeqShape};
use crate::stdlib::Shipped;
use crate::value::{Heap, TaskId, TypeTag, Value};

verus! {

/// A runtime error with the position of the faulting instruction.
#[derive(Debug)]
pub struct RuntimeError {
    /// The exception class this fault raises.
    pub class: Exc,
    pub message: String,
    /// The file the faulting frame was compiled from.
    pub source: Rc<String>,
    pub line: u32,
    pub col: u32,
}

impl RuntimeError {
    /// `source:line:col: message`.
    pub fn text(&self) -> (r: String)
        ensures
            r@ == self.source@ + ":"@ + crate::text::nat_text(self.line as nat) + ":"@
                + crate::text::nat_text(self.col as nat) + ": "@ + self.message@,
    {
        let l = crate::text::render_u64(self.line as u64);
        let c = crate::text::render_u64(self.col as u64);
        let head = crate::text::join5(self.source.as_str(), ":", l.as_str(), ":", c.as_str());
        crate::text::join3(head.as_str(), ": ", self.message.as_str())
    }
}

/// A guard against runaway recursion.
pub const MAX_FRAMES: usize = 200_000;

/// How many retired frames to keep for reuse.
pub const FRAME_POOL_MAX: usize = 128;

/// A name and the value passed under it.
pub type Keyword = (String, Value);

/// What the machine asks of its host.
#[derive(Debug)]
pub enum HostCall {
    /// A floating-point operation.
    Float(FloatOp, Value, Value),
    /// A native function, by its handle.
    Builtin(usize, Vec<Value>, Vec<Keyword>),
    /// A native method.
    Method(Value, String, Vec<Value>, Vec<Keyword>),
    /// A built-in type called like a function.
    TypeCall(TypeTag, Vec<Value>, Vec<Keyword>),
    /// Rendering a value by a format spec.
    Format(Value, Conv, String),
    /// Text for the standard output.
    Print(String),
    /// The code of the module with this path: from this file, or from this
    /// source under that name.
    LoadModule(String, String, Option<String>),
    /// A child process to run to its end.
    RunProcess(crate::process::RunRequest),
    /// One attempt at a stream operation.
    Attempt(crate::sched::IoWait),
    /// The clock, for a deadline this many seconds ahead.
    Sleep(Value),
    /// Whether an address is a literal or a name to look up.
    Dial(String),
    /// A connect to the next address of these.
    Connect(crate::sched::Dialing),
    /// Letting go of a stream's descriptor.
    Close(usize),
    /// The exit code of a child, if it has been reaped.
    ProcCode(usize),
}

/// A job stack of a task.
#[derive(Clone, Copy, Debug, PartialEq, Eq, Structural)]
pub enum Job {
    Print,
    Text,
    Chain,
    Compare,
    Order,
    Mat,
}

/// How the machine goes on.
#[derive(Debug)]
pub enum Step {
    /// With the next instruction.
    Next,
    /// Not at all: the task's outermost frame returned this.
    Done(Value),
    /// By raising this exception.
    Raise(Value),
    /// By raising the exception this fault becomes.
    Fault(Box<VErr>),
    /// Not before what the task waits for has happened.
    Park(Box<Park>),
    /// With the host's answer, delivered like a returned value.
    Host(Box<(HostCall, ReturnAction)>),
    /// By delivering this value as a frame's result.
    Give(Box<(ReturnAction, Value)>),
    /// With the innermost job of this kind.
    Drive(Job),
    /// With a question of the innermost comparison.
    Ask(Box<(Value, Value, RelOp)>),
    /// With the answer the innermost comparison waits for.
    Answer(bool),
    /// With the innermost ordering, given the answer it waits for, if any.
    Order(Option<bool>),
    /// With a call.
    Invoke(Box<Call>),
}

/// A call to be made.
#[derive(Debug)]
pub struct Call {
    pub callee: Value,
    pub args: Vec<Value>,
    pub kwargs: Vec<Keyword>,
}

/// Why a `finally` body runs.
#[derive(Clone, Copy, Debug, PartialEq, Eq, Structural)]
pub enum Why {
    Normal,
    Raise(Value),
    Return(Value),
    Break,
    Continue,
}

/// A `print` in progress.
#[derive(Debug)]
pub struct PrintJob {
    pub rendered: Vec<String>,
    pub remaining: Vec<Value>,
    pub next: usize,
    pub sep: String,
    pub end: String,
}

/// What drives a resumed generator: a `for` with its exit target, which may
/// want an index with each element, or a drain.
#[derive(Clone, Copy, Debug, PartialEq, Eq, Structural)]
pub enum GenDriver {
    ForLoop { target: usize, paired: bool },
    Materialize,
}

/// A native call waiting for its generator arguments to be drained.
#[derive(Debug)]
pub struct MatJob {
    pub callee: Value,
    pub args: Vec<Value>,
    pub kwargs: Vec<Keyword>,
    /// The argument being drained.
    pub idx: usize,
    pub items: Vec<Value>,
    /// Whether the first argument stands for the method's receiver.
    pub receiver_in_args: bool,
}

/// A container being rendered.
#[derive(Debug)]
pub struct TextJob {
    pub value: Value,
    pub instances: Vec<Value>,
    pub results: Vec<String>,
    pub next: usize,
    pub cont: TextCont,
}

/// What a finished rendering is for.
#[derive(Clone, Copy, Debug, PartialEq, Eq, Structural)]
pub enum TextCont {
    Push,
    Print,
    /// Format it by the spec in this string, then push.
    FormatSpec(usize),
}

/// A comparison suspended in a program's own comparison method.
#[derive(Debug)]
pub struct CompareJob {
    pub levels: Vec<Level>,
    pub cont: CompareCont,
}

/// One suspended level of a deep comparison.
#[derive(Debug)]
pub enum Level {
    /// Waiting for a comparison method's answer.
    Dunder,
    /// Two sequences, element by element; the first unequal pair decides.
    Items { a: Vec<Value>, b: Vec<Value>, i: usize, op: RelOp, deciding: bool },
    /// The values of two dicts, paired up by key.
    Vals { a: Vec<Value>, b: Vec<Value>, i: usize },
    /// A scan for an element equal to `item`.
    Contains { items: Vec<Value>, item: Value, i: usize },
}

/// What a finished comparison is for.
#[derive(Clone, Copy, Debug, PartialEq, Eq, Structural)]
pub enum CompareCont {
    Push { negate: bool },
    /// An ordering asked.
    Order,
}

/// An ordering suspended in a comparison.
#[derive(Debug)]
pub struct OrderJob {
    pub kind: OrderKind,
    pub cont: OrderCont,
    pub keys: Vec<Value>,
    pub items: Vec<Value>,
    pub reverse: bool,
    pub state: OrderState,
}

/// What a finished ordering's value is for.
#[derive(Clone, Copy, Debug, PartialEq, Eq, Structural)]
pub enum OrderCont {
    Push,
    /// A collection step's callback asked.
    Callback,
}

/// Which ordering is carried out.
#[derive(Clone, Copy, Debug, PartialEq, Eq, Structural)]
pub enum OrderKind {
    Sort(SeqShape),
    Extreme { want_min: bool, by: bool },
}

/// The resumable state of an ordering.
#[derive(Debug)]
pub enum OrderState {
    Merge(crate::sorting::Sorter),
    /// The winner so far and the candidate being weighed.
    Fold { best: usize, next: usize },
}

/// One unit of execution.
#[derive(Debug)]
pub struct Task {
    pub frames: Vec<Frame>,
    /// Position of the instruction being executed.
    pub line: u32,
    pub col: u32,
    pub prints: Vec<PrintJob>,
    pub texts: Vec<TextJob>,
    pub seqs: Vec<SeqJob>,
    pub mats: Vec<MatJob>,
    pub compares: Vec<CompareJob>,
    pub orders: Vec<OrderJob>,
    /// Exceptions being handled, innermost last.
    pub handling: Vec<Value>,
    /// Why each running `finally` body runs.
    pub finally_why: Vec<Why>,
    /// Generators being advanced, innermost last.
    pub gen_stack: Vec<(usize, GenDriver)>,
    /// The locals of the outermost frame, once it has returned.
    pub last_locals: Vec<Value>,
    pub id: TaskId,
    /// The handle `spawn` gave out; the main task has none.
    pub handle: Option<usize>,
    /// An exception another task raised in this one.
    pub pending_raise: Option<Value>,
}

impl Task {
    /// A task with nothing running in it.
    pub open spec fn is_fresh(&self) -> bool {
        &&& self.frames@.len() == 0
        &&& self.line == 0
        &&& self.col == 0
        &&& self.prints@.len() == 0
        &&& self.texts@.len() == 0
        &&& self.seqs@.len() == 0
        &&& self.mats@.len() == 0
        &&& self.compares@.len() == 0
        &&& self.orders@.len() == 0
        &&& self.handling@.len() == 0
        &&& self.finally_why@.len() == 0
        &&& self.gen_stack@.len() == 0
        &&& self.last_locals@.len() == 0
        &&& self.id == 0
        &&& self.handle is None
        &&& self.pending_raise is None
    }

    /// A task with nothing running in it.
    pub fn new() -> (r: Task)
        ensures r.is_fresh(),
    {
        Task {
            frames: Vec::new(),
            line: 0,
            col: 0,
            prints: Vec::new(),
            texts: Vec::new(),
            seqs: Vec::new(),
            mats: Vec::new(),
            compares: Vec::new(),
            orders: Vec::new(),
            handling: Vec::new(),
            finally_why: Vec::new(),
            gen_stack: Vec::new(),
            last_locals: Vec::new(),
            id: 0,
            handle: None,
            pending_raise: None,
        }
    }
}

/// What the host's library offers, as far as the machine has to know.
#[derive(Debug)]
pub struct Natives {
    /// The global functions and types.
    pub globals: Fields,
    /// Globals that are gone, each with what to say about it.
    pub cut_globals: Vec<(String, String)>,
    /// The native methods: the kind of value and the method's name.
    pub methods: Vec<(String, String)>,
    /// Methods that are gone: kind, name, and what to say.
    pub cut_methods: Vec<(String, String, String)>,
    /// The conversions that every value has.
    pub casts: Vec<String>,
    /// The methods that need a generator receiver drained first.
    pub draining: Vec<String>,
    /// The modules that ship with the machine, written in the language itself.
    pub stdlib: Shipped,
    /// The environment of the process.
    pub environ: Vec<(String, String)>,
}

/// The virtual machine.
#[derive(Debug)]
pub struct Vm {
    /// The execution in flight.
    pub task: Task,
    pub heap: Heap,
    /// Chain steps deferred and not run yet.
    pub chains: Vec<PendingChain>,
    /// Retired frames, kept for their buffers.
    pub frame_pool: Vec<Frame>,
    /// The exception classes, each at its place.
    pub excs: Vec<usize>,
    pub argv: Vec<String>,
    pub std_streams: crate::modules::StdStreams,
    /// Set when an exit was asked for and nothing caught it.
    pub exit_code: Option<i64>,
    /// The directory user modules are looked for in.
    pub import_root: String,
    /// What to call the file when no frame is left to ask.
    pub main_source: Rc<String>,
    pub module_cache: Fields,
    /// Module bodies that are running, and which task runs each.
    pub importing: Vec<(String, TaskId)>,
    /// Tasks that wait for somebody else's module body.
    pub import_waiters: Vec<(String, TaskId)>,
    /// The class of a finished child process.
    pub proc_class: usize,
    pub next_task_id: TaskId,
    /// Tasks that can run now, oldest first.
    pub ready: Vec<Task>,
    /// Tasks that cannot run until something settles.
    pub parked: Vec<Parked>,
    pub reactor: Reactor,
    pub park_seq: u64,
    pub tick: u64,
    /// How many stream operations in a row were ready at once.
    pub ready_io_run: u32,
    pub natives: Natives,
}

impl Vm {
    /// Whether the current task has a frame.
    pub open spec fn running(&self) -> bool {
        self.task.frames@.len() > 0
    }

    /// The running frame.
    pub open spec fn top(&self) -> Frame {
        self.task.frames@.last()
    }

    /// The operand stack of the running frame.
    pub open spec fn stack(&self) -> Seq<Value> {
        self.top().stack@
    }

    /// Whether the operand stack holds at least `n` values.
    pub open spec fn has(&self, n: nat) -> bool {
        self.running() && self.stack().len() >= n
    }

    /// The operand `k` places below the top.
    pub open spec fn operand(&self, k: int) -> Value {
        self.stack()[self.stack().len() - 1 - k]
    }
}

/// Between `a` and `b` nothing changed but the heap and the running frame.
pub open spec fn only_top(a: Vm, b: Vm) -> bool {
    &&& b == (Vm {
        task: Task { frames: b.task.frames, ..a.task },
        heap: b.heap,
        ..a
    })
    &&& a.running()
    &&& b.task.frames@.len() == a.task.frames@.len()
    &&& b.task.frames@.drop_last() == a.task.frames@.drop_last()
}

/// Between `a` and `b` nothing changed but the heap and the operand stack of
/// the running frame, which is `s` now.
pub open spec fn restacked(a: Vm, b: Vm, s: Seq<Value>) -> bool {
    &&& only_top(a, b)
    &&& b.top() == (Frame { stack: b.top().stack, ..a.top() })
    &&& b.stack() == s
}

impl Vm {
    /// Push a value on the running frame's operand stack.
    pub fn push(&mut self, v: Value)
        requires old(self).running(),
        ensures
            restacked(*old(self), *final(self), old(self).stack().push(v)),
            final(self).heap == old(self).heap,
    {
        let n = self.task.frames.len();
        self.task.frames[n - 1].stack.push(v);
        assert(self.task.frames@.drop_last() =~= old(self).task.frames@.drop_last());
    }

    /// Pop the running frame's operand stack.
    pub fn pop(&mut self) -> (r: Value)
        requires old(self).has(1),
        ensures
            r == old(self).stack().last(),
            restacked(*old(self), *final(self), old(self).stack().drop_last()),
            final(self).heap == old(self).heap,
    {
        let n = self.task.frames.len();
        let r = self.task.frames[n - 1].stack.pop();
        assert(self.task.frames@.drop_last() =~= old(self).task.frames@.drop_last());
        match r {
            Some(v) => v,
            None => Value::Unbound,
        }
    }

    /// Pop the top `n` values, in the order they were pushed.
    pub fn popn(&mut self, n: usize) -> (r: Vec<Value>)
        requires old(self).has(n as nat),
        ensures
            r@ == old(self).stack().skip(old(self).stack().len() - n),
            restacked(*old(self), *final(self), old(self).stack().take(old(self).stack().len() - n)),
            final(self).heap == old(self).heap,
    {
        let f = self.task.frames.len();
        let len = self.task.frames[f - 1].stack.len();
        let r = self.task.frames[f - 1].stack.split_off(len - n);
        assert(self.task.frames@.drop_last() =~= old(self).task.frames@.drop_last());
        assert(r@ =~= old(self).stack().skip(old(self).stack().len() - n));
        assert(self.stack() =~= old(self).stack().take(old(self).stack().len() - n));
        r
    }

    /// How deep the running frame's operand stack is.
    pub fn depth(&self) -> (r: usize)
        requires self.running(),
        ensures r == self.stack().len(),
    {
        let n = self.task.frames.len();
        self.task.frames[n - 1].stack.len()
    }

    /// The operand `k` places below the top.
    pub fn peek(&self, k: usize) -> (r: Value)
        requires self.has(k as nat + 1),
        ensures r == self.operand(k as int),
    {
        let f = self.task.frames.len();
        let n = self.task.frames[f - 1].stack.len();
        self.task.frames[f - 1].stack[n - 1 - k]
    }

    /// The code of the running frame.
    pub fn code(&self) -> (r: Rc<CodeObject>)
        requires self.running(),
        ensures r == self.top().code,
    {
        let n = self.task.frames.len();
        self.task.frames[n - 1].code.clone()
    }

    /// Continue the running frame at `target`.
    pub fn jump(&mut self, target: usize)
        requires old(self).running(),
        ensures
            only_top(*old(self), *final(self)),
            final(self).heap == old(self).heap,
            final(self).top() == (Frame { pc: target, ..old(self).top() }),
    {
        let n = self.task.frames.len();
        self.task.frames[n - 1].pc = target;
        assert(self.task.frames@.drop_last() =~= old(self).task.frames@.drop_last());
    }

    /// The file the running frame was compiled from.
    pub open spec fn spec_source(&self) -> Seq<char> {
        if self.running() { self.top().code.source@ } else { self.main_source@ }
    }

    /// The file the running frame was compiled from.
    pub fn err_source(&self) -> (r: Rc<String>)
        ensures r@ == self.spec_source(),
    {
        let n = self.task.frames.len();
        if n > 0 { self.task.frames[n - 1].code.source.clone() } else { self.main_source.clone() }
    }

    /// A diagnostic at the running instruction.
    pub fn err(&self, e: VErr) -> (r: RuntimeError)
        ensures
            r.class == e.class,
            r.message@ == e.message@,
            r.source@ == self.spec_source(),
            r.line == self.task.line,
            r.col == self.task.col,
    {
        RuntimeError {
            class: e.class,
            message: e.message,
            source: self.err_source(),
            line: self.task.line,
            col: self.task.col,
        }
    }
}

} // verus!
