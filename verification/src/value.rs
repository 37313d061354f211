//! Values and the heap they point into.
//!
//! A [`Value`] is a word: a scalar, or a handle into one of the tables of a
//! [`Heap`]. Two handles are the same object exactly when they are equal. The
//! heap of a run only grows; reading through a handle that was never issued
//! finds an empty object, and writing through one changes nothing.
use vstd::prelude::*;
use std::rc::Rc;
use crate::bigint::BigInt;
use crate::code::CodeObject;
use crate::fields::Fields;
use crate::frame::Frame;

verus! {

/// A built-in type, as a value.
#[derive(Clone, Copy, Debug, PartialEq, Eq, Structural)]
pub enum TypeTag {
    Int,
    Float,
    Bool,
    Str,
    Bytes,
    List,
    Tuple,
    Dict,
    Range,
}

/// A value of the language.
#[derive(Clone, Copy, Debug, PartialEq, Eq, Structural)]
pub enum Value {
    /// No value: a local that has not been assigned yet.
    Unbound,
    Null,
    Bool(bool),
    Int(i64),
    Big(usize),
    Float(usize),
    Str(usize),
    Bytes(usize),
    List(usize),
    Tuple(usize),
    Dict(usize),
    Range(usize),
    Func(usize),
    Builtin(usize),
    Method(usize),
    Class(usize),
    Type(TypeTag),
    Instance(usize),
    Super(usize),
    Module(usize),
    Iter(usize),
    Generator(usize),
    Task(usize),
    Channel(usize),
    Stream(usize),
    Proc(usize),
    /// An object only the host knows the inside of.
    Native(usize),
}

/// A floating-point number: its bits, and the text the language prints it as.
#[derive(Debug)]
pub struct FloatObj {
    pub bits: u64,
    pub text: String,
}

/// `range(start, stop, step)`.
#[derive(Clone, Copy, Debug, PartialEq, Eq, Structural)]
pub struct RangeVal {
    pub start: i64,
    pub stop: i64,
    pub step: i64,
}

/// A function: its code and the cells it captured.
#[derive(Debug)]
pub struct Function {
    pub code: Rc<CodeObject>,
    pub freevars: Vec<usize>,
}

/// What a bound method runs.
#[derive(Debug)]
pub enum MethodKind {
    User { func: usize, defclass: usize },
    Native(String),
}

/// A method and the object it was read from.
#[derive(Debug)]
pub struct BoundMethod {
    pub receiver: Value,
    pub kind: MethodKind,
}

/// A class.
#[derive(Debug)]
pub struct Class {
    pub name: String,
    pub base: Option<usize>,
    pub members: Fields,
    pub is_exception: bool,
}

/// An object of a class.
#[derive(Debug)]
pub struct Instance {
    pub class: usize,
    pub fields: Fields,
}

/// `super()`: where the search starts and what the method binds to.
#[derive(Clone, Copy, Debug, PartialEq, Eq, Structural)]
pub struct SuperProxy {
    pub start: Option<usize>,
    pub instance: Value,
}

/// An imported module.
#[derive(Debug)]
pub struct Module {
    pub name: String,
    pub members: Fields,
}

/// Where an iterator stands.
#[derive(Clone, Copy, Debug, PartialEq, Eq, Structural)]
pub enum IterState {
    Range { cur: i64, stop: i64, step: i64, n: i64 },
    List { list: usize, idx: usize, orig_len: usize },
    Tuple { tuple: usize, idx: usize },
    Str { text: usize, idx: usize },
    Bytes { bytes: usize, idx: usize },
    /// A snapshot of a dict: keys and values in turn, kept as a tuple.
    DictPairs { flat: usize, idx: usize },
}

/// A generator: suspended with a frame, running (no frame), or done.
#[derive(Debug)]
pub struct GenBox {
    pub done: bool,
    pub for_index: i64,
    pub frame: Option<Frame>,
}

/// A task's identity. The main task is 0.
pub type TaskId = u64;

/// A channel: a bounded queue and those waiting at either end of it.
#[derive(Debug)]
pub struct Channel {
    pub cap: u64,
    pub buf: Vec<Value>,
    pub closed: bool,
    pub recv_waiters: Vec<TaskId>,
    pub send_waiters: Vec<(TaskId, Value)>,
    pub iter_index: i64,
}

/// How a task ended, if it has.
#[derive(Debug)]
pub enum TaskState {
    Running,
    Done(Value),
    /// Failed with nobody waiting; the report is owed when the program ends.
    Failed { exc: Value, report: String },
    /// Failed, and the exception went to a joiner.
    FailedJoined(Value),
}

/// What `spawn` hands back.
#[derive(Debug)]
pub struct TaskHandle {
    pub id: TaskId,
    pub state: TaskState,
    pub joiners: Vec<TaskId>,
}

/// What an open stream is.
#[derive(Clone, Copy, Debug, PartialEq, Eq, Structural)]
pub enum StreamKind {
    File,
    TcpStream,
    TcpListener,
    PipeReader,
    PipeWriter,
}

/// An open stream. The descriptor itself is the host's.
#[derive(Debug)]
pub struct Stream {
    pub kind: StreamKind,
    pub closed: bool,
    /// The token it is registered with the reactor under, once it had to wait.
    pub token: Option<usize>,
    /// The operation timeout in milliseconds, if one was set.
    pub timeout: Option<u64>,
    pub peer: Option<String>,
    pub local: Option<String>,
}

/// A spawned child process: its exit code, once it is known.
#[derive(Clone, Copy, Debug, PartialEq, Eq, Structural)]
pub struct Proc {
    pub pid: i64,
    pub code: Option<i64>,
}

/// Everything the values of a run point into.
#[derive(Debug)]
pub struct Heap {
    pub bigs: Vec<BigInt>,
    pub floats: Vec<FloatObj>,
    pub strs: Vec<String>,
    pub bytes: Vec<Vec<u8>>,
    pub lists: Vec<Vec<Value>>,
    pub tuples: Vec<Vec<Value>>,
    pub dicts: Vec<Vec<(Value, Value)>>,
    pub ranges: Vec<RangeVal>,
    pub funcs: Vec<Function>,
    pub builtins: Vec<String>,
    pub methods: Vec<BoundMethod>,
    pub classes: Vec<Class>,
    pub instances: Vec<Instance>,
    pub supers: Vec<SuperProxy>,
    pub modules: Vec<Module>,
    pub iters: Vec<IterState>,
    pub gens: Vec<GenBox>,
    pub chans: Vec<Channel>,
    pub handles: Vec<TaskHandle>,
    pub streams: Vec<Stream>,
    pub procs: Vec<Proc>,
    pub natives: Vec<String>,
    pub cells: Vec<Value>,
}

impl Heap {
    /// A heap with nothing in it.
    pub fn new() -> (r: Heap)
        ensures
            r.bigs@.len() == 0,
            r.floats@.len() == 0,
            r.strs@.len() == 0,
            r.bytes@.len() == 0,
            r.lists@.len() == 0,
            r.tuples@.len() == 0,
            r.dicts@.len() == 0,
            r.ranges@.len() == 0,
            r.funcs@.len() == 0,
            r.builtins@.len() == 0,
            r.methods@.len() == 0,
            r.classes@.len() == 0,
            r.instances@.len() == 0,
            r.supers@.len() == 0,
            r.modules@.len() == 0,
            r.iters@.len() == 0,
            r.gens@.len() == 0,
            r.chans@.len() == 0,
            r.handles@.len() == 0,
            r.streams@.len() == 0,
            r.procs@.len() == 0,
            r.natives@.len() == 0,
            r.cells@.len() == 0,
    {
        Heap {
            bigs: Vec::new(),
            floats: Vec::new(),
            strs: Vec::new(),
            bytes: Vec::new(),
            lists: Vec::new(),
            tuples: Vec::new(),
            dicts: Vec::new(),
            ranges: Vec::new(),
            funcs: Vec::new(),
            builtins: Vec::new(),
            methods: Vec::new(),
            classes: Vec::new(),
            instances: Vec::new(),
            supers: Vec::new(),
            modules: Vec::new(),
            iters: Vec::new(),
            gens: Vec::new(),
            chans: Vec::new(),
            handles: Vec::new(),
            streams: Vec::new(),
            procs: Vec::new(),
            natives: Vec::new(),
            cells: Vec::new(),
        }
    }

    /// A new big object.
    pub fn alloc_big(&mut self, v: BigInt) -> (r: Value)
        ensures
            r == Value::Big(old(self).bigs.len()),
            final(self).bigs@ == old(self).bigs@.push(v),
            *final(self) == (Heap { bigs: final(self).bigs, ..*old(self) }),
    {
        let id = self.bigs.len();
        self.bigs.push(v);
        Value::Big(id)
    }

    /// A new float object.
    pub fn alloc_float(&mut self, v: FloatObj) -> (r: Value)
        ensures
            r == Value::Float(old(self).floats.len()),
            final(self).floats@ == old(self).floats@.push(v),
            *final(self) == (Heap { floats: final(self).floats, ..*old(self) }),
    {
        let id = self.floats.len();
        self.floats.push(v);
        Value::Float(id)
    }

    /// A new str object.
    pub fn alloc_str(&mut self, v: String) -> (r: Value)
        ensures
            r == Value::Str(old(self).strs.len()),
            final(self).strs@ == old(self).strs@.push(v),
            *final(self) == (Heap { strs: final(self).strs, ..*old(self) }),
    {
        let id = self.strs.len();
        self.strs.push(v);
        Value::Str(id)
    }

    /// A new bytes object.
    pub fn alloc_bytes(&mut self, v: Vec<u8>) -> (r: Value)
        ensures
            r == Value::Bytes(old(self).bytes.len()),
            final(self).bytes@ == old(self).bytes@.push(v),
            *final(self) == (Heap { bytes: final(self).bytes, ..*old(self) }),
    {
        let id = self.bytes.len();
        self.bytes.push(v);
        Value::Bytes(id)
    }

    /// A new list object.
    pub fn alloc_list(&mut self, v: Vec<Value>) -> (r: Value)
        ensures
            r == Value::List(old(self).lists.len()),
            final(self).lists@ == old(self).lists@.push(v),
            *final(self) == (Heap { lists: final(self).lists, ..*old(self) }),
    {
        let id = self.lists.len();
        self.lists.push(v);
        Value::List(id)
    }

    /// A new tuple object.
    pub fn alloc_tuple(&mut self, v: Vec<Value>) -> (r: Value)
        ensures
            r == Value::Tuple(old(self).tuples.len()),
            final(self).tuples@ == old(self).tuples@.push(v),
            *final(self) == (Heap { tuples: final(self).tuples, ..*old(self) }),
    {
        let id = self.tuples.len();
        self.tuples.push(v);
        Value::Tuple(id)
    }

    /// A new dict object.
    pub fn alloc_dict(&mut self, v: Vec<(Value, Value)>) -> (r: Value)
        ensures
            r == Value::Dict(old(self).dicts.len()),
            final(self).dicts@ == old(self).dicts@.push(v),
            *final(self) == (Heap { dicts: final(self).dicts, ..*old(self) }),
    {
        let id = self.dicts.len();
        self.dicts.push(v);
        Value::Dict(id)
    }

    /// A new range object.
    pub fn alloc_range(&mut self, v: RangeVal) -> (r: Value)
        ensures
            r == Value::Range(old(self).ranges.len()),
            final(self).ranges@ == old(self).ranges@.push(v),
            *final(self) == (Heap { ranges: final(self).ranges, ..*old(self) }),
    {
        let id = self.ranges.len();
        self.ranges.push(v);
        Value::Range(id)
    }

    /// A new func object.
    pub fn alloc_func(&mut self, v: Function) -> (r: Value)
        ensures
            r == Value::Func(old(self).funcs.len()),
            final(self).funcs@ == old(self).funcs@.push(v),
            *final(self) == (Heap { funcs: final(self).funcs, ..*old(self) }),
    {
        let id = self.funcs.len();
        self.funcs.push(v);
        Value::Func(id)
    }

    /// A new builtin object.
    pub fn alloc_builtin(&mut self, v: String) -> (r: Value)
        ensures
            r == Value::Builtin(old(self).builtins.len()),
            final(self).builtins@ == old(self).builtins@.push(v),
            *final(self) == (Heap { builtins: final(self).builtins, ..*old(self) }),
    {
        let id = self.builtins.len();
        self.builtins.push(v);
        Value::Builtin(id)
    }

    /// A new method object.
    pub fn alloc_method(&mut self, v: BoundMethod) -> (r: Value)
        ensures
            r == Value::Method(old(self).methods.len()),
            final(self).methods@ == old(self).methods@.push(v),
            *final(self) == (Heap { methods: final(self).methods, ..*old(self) }),
    {
        let id = self.methods.len();
        self.methods.push(v);
        Value::Method(id)
    }

    /// A new class object.
    pub fn alloc_class(&mut self, v: Class) -> (r: Value)
        ensures
            r == Value::Class(old(self).classes.len()),
            final(self).classes@ == old(self).classes@.push(v),
            *final(self) == (Heap { classes: final(self).classes, ..*old(self) }),
    {
        let id = self.classes.len();
        self.classes.push(v);
        Value::Class(id)
    }

    /// A new instance object.
    pub fn alloc_instance(&mut self, v: Instance) -> (r: Value)
        ensures
            r == Value::Instance(old(self).instances.len()),
            final(self).instances@ == old(self).instances@.push(v),
            *final(self) == (Heap { instances: final(self).instances, ..*old(self) }),
    {
        let id = self.instances.len();
        self.instances.push(v);
        Value::Instance(id)
    }

    /// A new super object.
    pub fn alloc_super(&mut self, v: SuperProxy) -> (r: Value)
        ensures
            r == Value::Super(old(self).supers.len()),
            final(self).supers@ == old(self).supers@.push(v),
            *final(self) == (Heap { supers: final(self).supers, ..*old(self) }),
    {
        let id = self.supers.len();
        self.supers.push(v);
        Value::Super(id)
    }

    /// A new module object.
    pub fn alloc_module(&mut self, v: Module) -> (r: Value)
        ensures
            r == Value::Module(old(self).modules.len()),
            final(self).modules@ == old(self).modules@.push(v),
            *final(self) == (Heap { modules: final(self).modules, ..*old(self) }),
    {
        let id = self.modules.len();
        self.modules.push(v);
        Value::Module(id)
    }

    /// A new iter object.
    pub fn alloc_iter(&mut self, v: IterState) -> (r: Value)
        ensures
            r == Value::Iter(old(self).iters.len()),
            final(self).iters@ == old(self).iters@.push(v),
            *final(self) == (Heap { iters: final(self).iters, ..*old(self) }),
    {
        let id = self.iters.len();
        self.iters.push(v);
        Value::Iter(id)
    }

    /// A new generator object.
    pub fn alloc_gen(&mut self, v: GenBox) -> (r: Value)
        ensures
            r == Value::Generator(old(self).gens.len()),
            final(self).gens@ == old(self).gens@.push(v),
            *final(self) == (Heap { gens: final(self).gens, ..*old(self) }),
    {
        let id = self.gens.len();
        self.gens.push(v);
        Value::Generator(id)
    }

    /// A new channel object.
    pub fn alloc_chan(&mut self, v: Channel) -> (r: Value)
        ensures
            r == Value::Channel(old(self).chans.len()),
            final(self).chans@ == old(self).chans@.push(v),
            *final(self) == (Heap { chans: final(self).chans, ..*old(self) }),
    {
        let id = self.chans.len();
        self.chans.push(v);
        Value::Channel(id)
    }

    /// A new task object.
    pub fn alloc_handle(&mut self, v: TaskHandle) -> (r: Value)
        ensures
            r == Value::Task(old(self).handles.len()),
            final(self).handles@ == old(self).handles@.push(v),
            *final(self) == (Heap { handles: final(self).handles, ..*old(self) }),
    {
        let id = self.handles.len();
        self.handles.push(v);
        Value::Task(id)
    }

    /// A new stream object.
    pub fn alloc_stream(&mut self, v: Stream) -> (r: Value)
        ensures
            r == Value::Stream(old(self).streams.len()),
            final(self).streams@ == old(self).streams@.push(v),
            *final(self) == (Heap { streams: final(self).streams, ..*old(self) }),
    {
        let id = self.streams.len();
        self.streams.push(v);
        Value::Stream(id)
    }

    /// A new proc object.
    pub fn alloc_proc(&mut self, v: Proc) -> (r: Value)
        ensures
            r == Value::Proc(old(self).procs.len()),
            final(self).procs@ == old(self).procs@.push(v),
            *final(self) == (Heap { procs: final(self).procs, ..*old(self) }),
    {
        let id = self.procs.len();
        self.procs.push(v);
        Value::Proc(id)
    }

    /// A new native object.
    pub fn alloc_native(&mut self, v: String) -> (r: Value)
        ensures
            r == Value::Native(old(self).natives.len()),
            final(self).natives@ == old(self).natives@.push(v),
            *final(self) == (Heap { natives: final(self).natives, ..*old(self) }),
    {
        let id = self.natives.len();
        self.natives.push(v);
        Value::Native(id)
    }

    /// A new cell holding `v`.
    pub fn alloc_cell(&mut self, v: Value) -> (r: usize)
        ensures
            r == old(self).cells.len(),
            final(self).cells@ == old(self).cells@.push(v),
            *final(self) == (Heap { cells: final(self).cells, ..*old(self) }),
    {
        let id = self.cells.len();
        self.cells.push(v);
        id
    }

    /// The elements of list `id`.
    pub open spec fn list(&self, id: usize) -> Seq<Value> {
        if id < self.lists@.len() { self.lists@[id as int]@ } else { Seq::empty() }
    }

    /// How many elements list `id` has.
    pub fn list_len(&self, id: usize) -> (r: usize)
        ensures r == self.list(id).len(),
    {
        if id < self.lists.len() { self.lists[id].len() } else { 0 }
    }

    /// The element of list `id` at `i`.
    pub fn list_at(&self, id: usize, i: usize) -> (r: Value)
        requires i < self.list(id).len(),
        ensures r == self.list(id)[i as int],
    {
        self.lists[id][i]
    }

    /// A copy of the elements of list `id`.
    pub fn list_copy(&self, id: usize) -> (r: Vec<Value>)
        ensures r@ == self.list(id),
    {
        let mut out: Vec<Value> = Vec::new();
        let n = self.list_len(id);
        let mut i: usize = 0;
        while i < n
            invariant
                i <= n,
                n == self.list(id).len(),
                out@ == self.list(id).take(i as int),
            decreases n - i,
        {
            out.push(self.list_at(id, i));
            i += 1;
            assert(out@ =~= self.list(id).take(i as int));
        }
        assert(out@ =~= self.list(id));
        out
    }

    /// The elements of tuple `id`.
    pub open spec fn tuple(&self, id: usize) -> Seq<Value> {
        if id < self.tuples@.len() { self.tuples@[id as int]@ } else { Seq::empty() }
    }

    /// How many elements tuple `id` has.
    pub fn tuple_len(&self, id: usize) -> (r: usize)
        ensures r == self.tuple(id).len(),
    {
        if id < self.tuples.len() { self.tuples[id].len() } else { 0 }
    }

    /// The element of tuple `id` at `i`.
    pub fn tuple_at(&self, id: usize, i: usize) -> (r: Value)
        requires i < self.tuple(id).len(),
        ensures r == self.tuple(id)[i as int],
    {
        self.tuples[id][i]
    }

    /// A copy of the elements of tuple `id`.
    pub fn tuple_copy(&self, id: usize) -> (r: Vec<Value>)
        ensures r@ == self.tuple(id),
    {
        let mut out: Vec<Value> = Vec::new();
        let n = self.tuple_len(id);
        let mut i: usize = 0;
        while i < n
            invariant
                i <= n,
                n == self.tuple(id).len(),
                out@ == self.tuple(id).take(i as int),
            decreases n - i,
        {
            out.push(self.tuple_at(id, i));
            i += 1;
            assert(out@ =~= self.tuple(id).take(i as int));
        }
        assert(out@ =~= self.tuple(id));
        out
    }

    /// The elements of bytes `id`.
    pub open spec fn octets(&self, id: usize) -> Seq<u8> {
        if id < self.bytes@.len() { self.bytes@[id as int]@ } else { Seq::empty() }
    }

    /// How many elements bytes `id` has.
    pub fn octets_len(&self, id: usize) -> (r: usize)
        ensures r == self.octets(id).len(),
    {
        if id < self.bytes.len() { self.bytes[id].len() } else { 0 }
    }

    /// The element of bytes `id` at `i`.
    pub fn octets_at(&self, id: usize, i: usize) -> (r: u8)
        requires i < self.octets(id).len(),
        ensures r == self.octets(id)[i as int],
    {
        self.bytes[id][i]
    }

    /// A copy of the elements of bytes `id`.
    pub fn octets_copy(&self, id: usize) -> (r: Vec<u8>)
        ensures r@ == self.octets(id),
    {
        let mut out: Vec<u8> = Vec::new();
        let n = self.octets_len(id);
        let mut i: usize = 0;
        while i < n
            invariant
                i <= n,
                n == self.octets(id).len(),
                out@ == self.octets(id).take(i as int),
            decreases n - i,
        {
            out.push(self.octets_at(id, i));
            i += 1;
            assert(out@ =~= self.octets(id).take(i as int));
        }
        assert(out@ =~= self.octets(id));
        out
    }

    /// The entries of dict `id`, in insertion order.
    pub open spec fn dict(&self, id: usize) -> Seq<(Value, Value)> {
        if id < self.dicts@.len() { self.dicts@[id as int]@ } else { Seq::empty() }
    }

    /// How many entries dict `id` has.
    pub fn dict_len(&self, id: usize) -> (r: usize)
        ensures r == self.dict(id).len(),
    {
        if id < self.dicts.len() { self.dicts[id].len() } else { 0 }
    }

    /// The entry of dict `id` at `i`.
    pub fn dict_at(&self, id: usize, i: usize) -> (r: (Value, Value))
        requires i < self.dict(id).len(),
        ensures r == self.dict(id)[i as int],
    {
        self.dicts[id][i]
    }

    /// The text of string `id`.
    pub open spec fn text(&self, id: usize) -> Seq<char> {
        if id < self.strs@.len() { self.strs@[id as int]@ } else { Seq::empty() }
    }

    /// The text of string `id`.
    pub fn text_of(&self, id: usize) -> (r: &str)
        ensures r@ == self.text(id),
    {
        if id < self.strs.len() {
            self.strs[id].as_str()
        } else {
            proof {
                reveal_strlit("");
                assert(""@ =~= Seq::<char>::empty());
            }
            ""
        }
    }

    /// The big integer `id`.
    pub open spec fn big(&self, id: usize) -> int {
        if id < self.bigs@.len() { self.bigs@[id as int]@ } else { 0 }
    }

    /// A copy of the big integer `id`.
    pub fn big_copy(&self, id: usize) -> (r: BigInt)
        ensures r@ == self.big(id),
    {
        if id < self.bigs.len() { self.bigs[id].copy() } else { BigInt::from_i64(0) }
    }

    /// The bits of float `id`.
    pub open spec fn float_bits(&self, id: usize) -> u64 {
        if id < self.floats@.len() { self.floats@[id as int].bits } else { 0 }
    }

    /// The bits of float `id`.
    pub fn bits_of(&self, id: usize) -> (r: u64)
        ensures r == self.float_bits(id),
    {
        if id < self.floats.len() { self.floats[id].bits } else { 0 }
    }

    /// The text of float `id`.
    pub open spec fn float_text(&self, id: usize) -> Seq<char> {
        if id < self.floats@.len() { self.floats@[id as int].text@ } else { "0.0"@ }
    }

    /// The text of float `id`.
    pub fn float_text_of(&self, id: usize) -> (r: &str)
        ensures r@ == self.float_text(id),
    {
        if id < self.floats.len() { self.floats[id].text.as_str() } else { "0.0" }
    }

    /// The range `id`.
    pub open spec fn range(&self, id: usize) -> RangeVal {
        if id < self.ranges@.len() { self.ranges@[id as int] } else { RangeVal { start: 0, stop: 0, step: 1 } }
    }

    /// The range `id`.
    pub fn range_of(&self, id: usize) -> (r: RangeVal)
        ensures r == self.range(id),
    {
        if id < self.ranges.len() { self.ranges[id] } else { RangeVal { start: 0, stop: 0, step: 1 } }
    }

    /// What cell `id` holds.
    pub open spec fn cell(&self, id: usize) -> Value {
        if id < self.cells@.len() { self.cells@[id as int] } else { Value::Unbound }
    }

    /// What cell `id` holds.
    pub fn cell_get(&self, id: usize) -> (r: Value)
        ensures r == self.cell(id),
    {
        if id < self.cells.len() { self.cells[id] } else { Value::Unbound }
    }

    /// Put `v` into cell `id`.
    pub fn cell_set(&mut self, id: usize, v: Value)
        ensures
            final(self).cells@ == (if id < old(self).cells@.len() {
                old(self).cells@.update(id as int, v)
            } else {
                old(self).cells@
            }),
            *final(self) == (Heap { cells: final(self).cells, ..*old(self) }),
    {
        if id < self.cells.len() {
            self.cells.set(id, v);
        }
    }

    /// Put `v` at place `i` of list `id`.
    pub fn list_set(&mut self, id: usize, i: usize, v: Value)
        requires i < old(self).list(id).len(),
        ensures
            final(self).list(id) == old(self).list(id).update(i as int, v),
            final(self).lists@.len() == old(self).lists@.len(),
            forall|k: int| 0 <= k < old(self).lists@.len() && k != id ==> final(self).lists@[k] == old(self).lists@[k],
            *final(self) == (Heap { lists: final(self).lists, ..*old(self) }),
    {
        self.lists[id].set(i, v);
    }

    /// Append `v` to list `id`.
    pub fn list_push(&mut self, id: usize, v: Value)
        ensures
            id < old(self).lists@.len() ==> final(self).list(id) == old(self).list(id).push(v),
            id >= old(self).lists@.len() ==> final(self).lists@ == old(self).lists@,
            final(self).lists@.len() == old(self).lists@.len(),
            forall|k: int| 0 <= k < old(self).lists@.len() && k != id ==> final(self).lists@[k] == old(self).lists@[k],
            *final(self) == (Heap { lists: final(self).lists, ..*old(self) }),
    {
        if id < self.lists.len() {
            self.lists[id].push(v);
        }
    }

    /// The name of class `id`.
    pub open spec fn class_name(&self, id: usize) -> Seq<char> {
        if id < self.classes@.len() { self.classes@[id as int].name@ } else { "object"@ }
    }

    /// The name of class `id`.
    pub fn class_name_of(&self, id: usize) -> (r: &str)
        ensures r@ == self.class_name(id),
    {
        if id < self.classes.len() { self.classes[id].name.as_str() } else { "object" }
    }

    /// The class that class `id` derives from. A base is always older than the
    /// classes that derive from it.
    pub open spec fn class_base(&self, id: usize) -> Option<usize> {
        if id < self.classes@.len() {
            match self.classes@[id as int].base {
                Some(b) => if b < id { Some(b) } else { None },
                None => None,
            }
        } else {
            None
        }
    }

    /// The class that class `id` derives from.
    pub fn base_of(&self, id: usize) -> (r: Option<usize>)
        ensures
            r == self.class_base(id),
            r matches Some(b) ==> b < id,
    {
        if id < self.classes.len() {
            match self.classes[id].base {
                Some(b) => if b < id { Some(b) } else { None },
                None => None,
            }
        } else {
            None
        }
    }

    /// What class `id` itself defines under `name`.
    pub open spec fn own_member(&self, id: usize, name: Seq<char>) -> Option<Value> {
        if id < self.classes@.len() { self.classes@[id as int].members.spec_get(name) } else { None }
    }

    /// What class `id` itself defines under `name`.
    pub fn own_member_of(&self, id: usize, name: &str) -> (r: Option<Value>)
        ensures r == self.own_member(id, name@),
    {
        if id < self.classes.len() { self.classes[id].members.get(name) } else { None }
    }

    /// The member `name` of class `id` or of its nearest ancestor that has one,
    /// with the class that defines it.
    pub open spec fn find_member(&self, id: usize, name: Seq<char>) -> Option<(Value, usize)>
        decreases id,
    {
        match self.own_member(id, name) {
            Some(v) => Some((v, id)),
            None => match self.class_base(id) {
                Some(b) => self.find_member(b, name),
                None => None,
            },
        }
    }

    /// The member `name` of class `id` or of its nearest ancestor that has one.
    pub fn find(&self, id: usize, name: &str) -> (r: Option<(Value, usize)>)
        ensures r == self.find_member(id, name@),
    {
        let mut cur = id;
        loop
            invariant self.find_member(id, name@) == self.find_member(cur, name@),
            decreases cur,
        {
            match self.own_member_of(cur, name) {
                Some(v) => {
                    return Some((v, cur));
                }
                None => {}
            }
            match self.base_of(cur) {
                Some(b) => {
                    cur = b;
                }
                None => {
                    return None;
                }
            }
        }
    }

    /// Class `id` is `other` or derives from it.
    pub open spec fn derives(&self, id: usize, other: usize) -> bool
        decreases id,
    {
        id == other || match self.class_base(id) {
            Some(b) => self.derives(b, other),
            None => false,
        }
    }

    /// Whether class `id` is `other` or derives from it.
    pub fn is_subclass(&self, id: usize, other: usize) -> (r: bool)
        ensures r == self.derives(id, other),
    {
        let mut cur = id;
        loop
            invariant self.derives(id, other) == self.derives(cur, other),
            decreases cur,
        {
            if cur == other {
                return true;
            }
            match self.base_of(cur) {
                Some(b) => {
                    cur = b;
                }
                None => {
                    return false;
                }
            }
        }
    }

    /// Whether class `id` is an exception class.
    pub open spec fn is_exception_class(&self, id: usize) -> bool {
        id < self.classes@.len() && self.classes@[id as int].is_exception
    }

    /// Whether class `id` is an exception class.
    pub fn exception_class(&self, id: usize) -> (r: bool)
        ensures r == self.is_exception_class(id),
    {
        id < self.classes.len() && self.classes[id].is_exception
    }

    /// The class of instance `id`.
    pub open spec fn instance_class(&self, id: usize) -> usize {
        if id < self.instances@.len() { self.instances@[id as int].class } else { 0 }
    }

    /// The class of instance `id`.
    pub fn class_of(&self, id: usize) -> (r: usize)
        ensures r == self.instance_class(id),
    {
        if id < self.instances.len() { self.instances[id].class } else { 0 }
    }

    /// The field `name` of instance `id`.
    pub open spec fn field(&self, id: usize, name: Seq<char>) -> Option<Value> {
        if id < self.instances@.len() { self.instances@[id as int].fields.spec_get(name) } else { None }
    }

    /// The field `name` of instance `id`.
    pub fn field_of(&self, id: usize, name: &str) -> (r: Option<Value>)
        ensures r == self.field(id, name@),
    {
        if id < self.instances.len() { self.instances[id].fields.get(name) } else { None }
    }

    /// Put `v` into the field `name` of instance `id`.
    pub fn field_set(&mut self, id: usize, name: String, v: Value)
        ensures
            final(self).instances@.len() == old(self).instances@.len(),
            id < old(self).instances@.len() ==> {
                &&& final(self).instances@[id as int].fields@
                    == old(self).instances@[id as int].fields@.insert(name@, v)
                &&& final(self).instances@[id as int].class == old(self).instances@[id as int].class
            },
            forall|k: int| 0 <= k < old(self).instances@.len() && k != id
                ==> final(self).instances@[k] == old(self).instances@[k],
            *final(self) == (Heap { instances: final(self).instances, ..*old(self) }),
    {
        if id < self.instances.len() {
            self.instances[id].fields.insert(name, v);
        }
    }

    /// The method `name` of an instance, with the class that defines it.
    pub open spec fn method_of(&self, v: Value, name: Seq<char>) -> Option<(usize, usize)> {
        match v {
            Value::Instance(i) => match self.find_member(self.instance_class(i), name) {
                Some((Value::Func(f), c)) => Some((f, c)),
                _ => None,
            },
            _ => None,
        }
    }

    /// If `v` is an instance whose class chain defines method `name`, the
    /// function and the class it is defined in.
    pub fn instance_method(&self, v: Value, name: &str) -> (r: Option<(usize, usize)>)
        ensures r == self.method_of(v, name@),
    {
        match v {
            Value::Instance(i) => match self.find(self.class_of(i), name) {
                Some((Value::Func(f), c)) => Some((f, c)),
                _ => None,
            },
            _ => None,
        }
    }
}

} // verus!
