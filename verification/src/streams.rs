//! Stream operations: what is asked for, what an attempt came to, and who waits.
//! The attempts themselves are the host's.
use vstd::prelude::*;
use crate::call::fail;
use crate::exc::{fault, type_error, value_error, Exc, VErr};
use crate::exceptions::exceptions_grew;
use crate::frame::ReturnAction;
use crate::machine::{restacked, HostCall, Keyword, Step, Vm};
use crate::names::{kind_name, kind_name_of};
use crate::reactor::{arm_result, timer_place, with_task, Reactor, Timer};
use crate::sched::{Interest, IoOp, IoWait, Park};
use crate::text::{join2, join3, join4, nat_text, render_usize, same_text};
use crate::value::{Heap, Stream, TaskId, Value};
use crate::wake::{faults, raises};

verus! {

/// How many stream operations in a row may be ready at once before the task
/// lets the others run.
pub const READY_IO_YIELD: u32 = 16;

/// A stream operation as a program asks for it.
#[derive(Clone, Copy, Debug, PartialEq, Eq, Structural)]
pub enum Ask {
    Accept,
    Read(i64),
    ReadUntil { delim: usize, limit: i64 },
    Write(usize),
    Close,
}

/// Whether `name` is one of the stream methods the machine carries out.
pub open spec fn stream_method(name: Seq<char>) -> bool {
    name == "read"@ || name == "write"@ || name == "read_until"@ || name == "accept"@ || name == "close"@
}

fn is_stream_method(name: &str) -> (r: bool)
    ensures r == stream_method(name@),
{
    same_text(name, "read") || same_text(name, "write") || same_text(name, "read_until") || same_text(name, "accept")
        || same_text(name, "close")
}

/// The bytes argument `i` of a call of `who`.
pub open spec fn bytes_arg(h: Heap, args: Seq<Value>, i: int, who: Seq<char>) -> Result<usize, (Exc, Seq<char>)> {
    if i >= args.len() {
        Err((Exc::TypeError, who + "() takes a bytes argument"@))
    } else {
        match args[i] {
            Value::Bytes(b) => Ok(b),
            v => Err((Exc::TypeError, who + "() argument must be bytes, not '"@ + kind_name(h, v) + "'"@)),
        }
    }
}

fn read_bytes_arg(h: &Heap, args: &Vec<Value>, i: usize, who: &str) -> (r: Result<usize, VErr>)
    ensures
        match bytes_arg(*h, args@, i as int, who@) {
            Ok(b) => r == Ok::<usize, VErr>(b),
            Err(e) => r matches Err(x) && x@ == e,
        },
{
    if i >= args.len() {
        return Err(type_error(join2(who, "() takes a bytes argument")));
    }
    match args[i] {
        Value::Bytes(b) => Ok(b),
        v => Err(type_error(join4(who, "() argument must be bytes, not '", kind_name_of(h, v), "'"))),
    }
}

/// The message for a wrong number of arguments.
pub open spec fn exactly_text(who: Seq<char>, n: nat) -> Seq<char> {
    who + "() takes exactly "@ + nat_text(n) + (if n == 1 { " argument"@ } else { " arguments"@ })
}

fn exactly(who: &str, n: usize) -> (r: VErr)
    ensures r@ == (Exc::TypeError, exactly_text(who@, n as nat)),
{
    let k = render_usize(n);
    type_error(join4(who, "() takes exactly ", k.as_str(), if n == 1 { " argument" } else { " arguments" }))
}

/// What a call of a stream method asks for.
pub open spec fn asked(h: Heap, name: Seq<char>, args: Seq<Value>) -> Result<Ask, (Exc, Seq<char>)> {
    if name == "read"@ {
        if args.len() == 0 {
            Err((Exc::TypeError, "read() takes a size — use io.read(r) to read a whole stream"@))
        } else if args.len() == 1 && args[0] is Int {
            Ok(Ask::Read(args[0]->Int_0))
        } else {
            Err((Exc::TypeError, "read() size argument must be int, not '"@ + kind_name(h, args[0]) + "'"@))
        }
    } else if name == "write"@ {
        match bytes_arg(h, args, 0, "write"@) {
            Ok(b) => Ok(Ask::Write(b)),
            Err(e) => Err(e),
        }
    } else if name == "read_until"@ {
        match bytes_arg(h, args, 0, "read_until"@) {
            Err(e) => Err(e),
            Ok(delim) => if args.len() < 2 {
                Err((Exc::TypeError, "read_until() takes a delimiter and a limit"@))
            } else if !(args[1] is Int) {
                Err((Exc::TypeError, "read_until() limit argument must be int, not '"@ + kind_name(h, args[1]) + "'"@))
            } else if args.len() != 2 {
                Err((Exc::TypeError, exactly_text("read_until"@, 2)))
            } else {
                Ok(Ask::ReadUntil { delim, limit: args[1]->Int_0 })
            },
        }
    } else if args.len() != 0 {
        Err((Exc::TypeError, exactly_text(if name == "accept"@ { "accept"@ } else { "close"@ }, 0)))
    } else if name == "accept"@ {
        Ok(Ask::Accept)
    } else {
        Ok(Ask::Close)
    }
}

fn read_ask(h: &Heap, name: &str, args: &Vec<Value>) -> (r: Result<Ask, VErr>)
    ensures
        match asked(*h, name@, args@) {
            Ok(a) => r == Ok::<Ask, VErr>(a),
            Err(e) => r matches Err(x) && x@ == e,
        },
{
    if same_text(name, "read") {
        if args.len() == 0 {
            return Err(fault(Exc::TypeError, "read() takes a size — use io.read(r) to read a whole stream"));
        }
        if args.len() == 1 {
            if let Value::Int(n) = args[0] {
                return Ok(Ask::Read(n));
            }
        }
        return Err(type_error(join3("read() size argument must be int, not '", kind_name_of(h, args[0]), "'")));
    }
    if same_text(name, "write") {
        return match read_bytes_arg(h, args, 0, "write") {
            Ok(b) => Ok(Ask::Write(b)),
            Err(e) => Err(e),
        };
    }
    if same_text(name, "read_until") {
        return match read_bytes_arg(h, args, 0, "read_until") {
            Err(e) => Err(e),
            Ok(delim) => {
                if args.len() < 2 {
                    return Err(fault(Exc::TypeError, "read_until() takes a delimiter and a limit"));
                }
                match args[1] {
                    Value::Int(limit) => {
                        if args.len() != 2 {
                            return Err(exactly("read_until", 2));
                        }
                        Ok(Ask::ReadUntil { delim, limit })
                    }
                    v => Err(type_error(join3("read_until() limit argument must be int, not '", kind_name_of(h, v), "'"))),
                }
            }
        };
    }
    let accept = same_text(name, "accept");
    if args.len() != 0 {
        return Err(exactly(if accept { "accept" } else { "close" }, 0));
    }
    if accept { Ok(Ask::Accept) } else { Ok(Ask::Close) }
}

impl IoOp {
    /// What to call the operation.
    pub open spec fn spec_what(&self) -> Seq<char> {
        match self {
            IoOp::Accept => "accept()"@,
            IoOp::Connect { .. } => "connect()"@,
            IoOp::Read(_) => "read()"@,
            IoOp::ReadUntil { .. } => "read_until()"@,
            IoOp::Write { .. } => "write()"@,
        }
    }

    /// What to call the operation.
    pub fn what(&self) -> (r: &'static str)
        ensures r@ == self.spec_what(),
    {
        match self {
            IoOp::Accept => "accept()",
            IoOp::Connect { addrs: _, next: _ } => "connect()",
            IoOp::Read(_) => "read()",
            IoOp::ReadUntil { delim: _, limit: _, acc: _ } => "read_until()",
            IoOp::Write { buf: _, done: _ } => "write()",
        }
    }
}

/// `op` is what `ask` asks for, with nothing done yet.
pub open spec fn begins(ask: Ask, op: IoOp) -> bool {
    match ask {
        Ask::Read(n) => op == IoOp::Read(n),
        Ask::ReadUntil { delim, limit } => op matches IoOp::ReadUntil { delim: d, limit: l, acc } && d == delim && l == limit && acc@.len() == 0,
        Ask::Write(buf) => op == (IoOp::Write { buf, done: 0 }),
        _ => op is Accept,
    }
}

/// Whether a write has nothing left to do.
pub open spec fn all_gone(h: Heap, op: IoOp) -> bool {
    op matches IoOp::Write { buf, done } && done >= h.octets(buf).len()
}

/// What one attempt of the host came to.
#[derive(Debug)]
pub enum Tried {
    Ready(Value),
    /// So many octets of a write went.
    Wrote(usize),
    Block(Interest),
    Failed(VErr),
}

/// What an operation does after an attempt.
#[derive(Debug)]
pub enum Progress {
    Ready(Value),
    Again,
    Block(Interest),
    Failed(VErr),
}

/// What an operation does after an attempt: a write is done when every octet of
/// it has gone, and not before.
pub open spec fn progress(h: Heap, a: IoOp, b: IoOp, t: Tried) -> Progress {
    match t {
        Tried::Ready(v) => Progress::Ready(v),
        Tried::Block(i) => Progress::Block(i),
        Tried::Failed(e) => Progress::Failed(e),
        Tried::Wrote(_) => if all_gone(h, b) { Progress::Ready(Value::Null) } else { Progress::Again },
    }
}

/// How far an operation is after an attempt.
pub open spec fn advanced(h: Heap, a: IoOp, b: IoOp, t: Tried) -> bool {
    match (a, t) {
        (IoOp::Write { buf, done }, Tried::Wrote(k)) => b matches IoOp::Write { buf: c, done: d } && c == buf
            && d == (if done + k <= h.octets(buf).len() { done + k } else { h.octets(buf).len() as int }),
        _ => b == a,
    }
}

/// Go on with an operation after an attempt.
pub fn make_progress(h: &Heap, op: &mut IoOp, t: Tried) -> (r: Progress)
    ensures
        advanced(*h, *old(op), *final(op), t),
        r == progress(*h, *old(op), *final(op), t),
{
    match t {
        Tried::Ready(v) => Progress::Ready(v),
        Tried::Block(i) => Progress::Block(i),
        Tried::Failed(e) => Progress::Failed(e),
        Tried::Wrote(k) => {
            if let IoOp::Write { buf, done } = op {
                let n = h.octets_len(*buf);
                let to = if *done <= n && k <= n - *done { *done + k } else { n };
                *done = to;
                if to >= n { Progress::Ready(Value::Null) } else { Progress::Again }
            } else {
                Progress::Again
            }
        }
    }
}

/// Whether stream `s` is one end of a child's pipe.
pub open spec fn is_pipe(h: Heap, s: usize) -> bool {
    s < h.streams@.len() && h.streams@[s as int].kind.spec_is_pipe()
}

/// What to call the kind of stream `s`.
pub open spec fn stream_name(h: Heap, s: usize) -> Seq<char> {
    if s < h.streams@.len() { h.streams@[s as int].kind.spec_name() } else { "stream"@ }
}

/// The token of stream `s`, if it ever waited.
pub open spec fn stream_token(h: Heap, s: usize) -> Option<usize> {
    if s < h.streams@.len() { h.streams@[s as int].token } else { None }
}

/// The operation timeout of stream `s` in milliseconds.
pub open spec fn stream_timeout(h: Heap, s: usize) -> Option<u64> {
    if s < h.streams@.len() { h.streams@[s as int].timeout } else { None }
}

impl Heap {
    /// What to call the kind of stream `s`.
    pub fn stream_name_of(&self, s: usize) -> (r: &'static str)
        ensures r@ == stream_name(*self, s),
    {
        if s < self.streams.len() { self.streams[s].kind.name() } else { "stream" }
    }

    /// Whether stream `s` is one end of a child's pipe.
    pub fn stream_is_pipe(&self, s: usize) -> (r: bool)
        ensures r == is_pipe(*self, s),
    {
        s < self.streams.len() && self.streams[s].kind.is_pipe()
    }

    /// The token of stream `s`, if it ever waited.
    pub fn token_of(&self, s: usize) -> (r: Option<usize>)
        ensures r == stream_token(*self, s),
    {
        if s < self.streams.len() { self.streams[s].token } else { None }
    }
}

/// Stream `s` is registered under `token` now.
pub open spec fn token_set(a: Heap, b: Heap, s: usize, token: usize) -> bool {
    &&& b == (Heap { streams: b.streams, ..a })
    &&& b.streams@ == (if s < a.streams@.len() {
        a.streams@.update(s as int, Stream { token: Some(token), ..a.streams@[s as int] })
    } else {
        a.streams@
    })
}

/// `at` milliseconds after `now`, as far as the clock goes.
pub open spec fn later(now: u64, at: u64) -> u64 {
    if now + at <= u64::MAX { (now + at) as u64 } else { u64::MAX }
}

/// `ms` milliseconds after `now`.
pub fn add_millis(now: u64, ms: u64) -> (r: u64)
    ensures r == later(now, ms),
{
    if ms <= u64::MAX - now { now + ms } else { u64::MAX }
}

/// The operation `w` of `task` waits for readiness: its stream is armed, and a
/// deadline is fixed the first time it blocks.
pub open spec fn io_armed(a: Vm, b: Vm, task: TaskId, w: IoWait, now: u64, r: Result<IoWait, VErr>) -> bool {
    exists|re: Reactor, res: Result<usize, VErr>| {
        &&& #[trigger] arm_result(a.reactor, re, stream_token(a.heap, w.stream), stream_name(a.heap, w.stream), w.interest, task, res)
        &&& match res {
            Err(e) => (r matches Err(x) && x == e) && b == (Vm { reactor: re, ..a }),
            Ok(token) => armed_wait(a, b, re, task, w, token, now, r),
        }
    }
}

/// The wait of an operation whose stream was armed under `token`.
pub open spec fn armed_wait(a: Vm, b: Vm, re: Reactor, task: TaskId, w: IoWait, token: usize, now: u64, r: Result<IoWait, VErr>) -> bool {
    &&& token_set(a.heap, b.heap, w.stream, token)
    &&& if w.seq == 0 {
        let seq = (a.park_seq + 1) as u64;
        let deadline = match stream_timeout(a.heap, w.stream) {
            Some(ms) => Some(later(now, ms)),
            None => None,
        };
        &&& r == Ok::<IoWait, VErr>(IoWait { token, seq, deadline, ..w })
        &&& b == (Vm { heap: b.heap, park_seq: seq, reactor: b.reactor, ..a })
        &&& b.reactor == (Reactor { timers: b.reactor.timers, ..re })
        &&& b.reactor.timers@ == (match deadline {
            Some(at) => re.timers@.insert(timer_place(re.timers@, at), Timer { at, task, seq }),
            None => re.timers@,
        })
    } else {
        r == Ok::<IoWait, VErr>(IoWait { token, ..w }) && b == (Vm { heap: b.heap, reactor: re, ..a })
    }
}

/// The counters that name a wait have names left.
pub open spec fn names_left(a: Vm) -> bool {
    &&& a.park_seq < u64::MAX
    &&& a.reactor.next_token < usize::MAX
}

/// A ready operation: its value is on the stack, and after many in a row the
/// others get a turn.
pub open spec fn ready_result(a: Vm, b: Vm, v: Value, r: Step) -> bool {
    exists|m: Vm| {
        &&& #[trigger] restacked(a, m, a.stack().push(v))
        &&& m.heap == a.heap
        &&& if a.ready_io_run as int + 1 >= READY_IO_YIELD {
            b == (Vm { ready_io_run: 0, ..m }) && (r matches Step::Park(p) && *p is YieldReady)
        } else {
            b == (Vm { ready_io_run: (a.ready_io_run + 1) as u32, ..m }) && r is Next
        }
    }
}

/// What a blocked operation of the running task does.
pub open spec fn block_result(a: Vm, b: Vm, w: IoWait, i: Interest, now: u64, r: Step) -> bool {
    let m = Vm { ready_io_run: 0, ..a };
    let v = IoWait { interest: i, ..w };
    if is_pipe(a.heap, w.stream) {
        &&& r matches Step::Park(p) && *p == Park::Pipe(v)
        &&& b == (Vm { reactor: b.reactor, ..m })
        &&& b.reactor == (Reactor { pipe_waiters: b.reactor.pipe_waiters, ..a.reactor })
        &&& b.reactor.pipe_waiters@ == with_task(a.reactor.pipe_waiters@, a.task.id)
    } else {
        park_io_result(m, b, v, now, r)
    }
}

/// What waiting for a descriptor does.
pub open spec fn park_io_result(a: Vm, b: Vm, w: IoWait, now: u64, r: Step) -> bool {
    exists|res: Result<IoWait, VErr>| {
        &&& #[trigger] io_armed(a, b, a.task.id, w, now, res)
        &&& match res {
            Ok(v) => r matches Step::Park(p) && *p == Park::Io(v),
            Err(e) => faults(r, e@.0, e@.1),
        }
    }
}

/// Another attempt at `w` is due.
pub open spec fn attempts(r: Step, w: IoWait) -> bool {
    r matches Step::Host(x) && (*x).0 == HostCall::Attempt(w) && (*x).1 == ReturnAction::Normal
}

/// What the running task does after an attempt at its operation.
pub open spec fn settle_result(a: Vm, b: Vm, w: IoWait, t: Tried, now: u64, r: Step) -> bool {
    exists|op: IoOp| {
        &&& #[trigger] advanced(a.heap, w.op, op, t)
        &&& match progress(a.heap, w.op, op, t) {
            Progress::Ready(v) => ready_result(a, b, v, r),
            Progress::Again => attempts(r, IoWait { op, ..w }) && b == a,
            Progress::Block(i) => block_result(a, b, IoWait { op, ..w }, i, now, r),
            Progress::Failed(e) => faults(r, e@.0, e@.1) && b == a,
        }
    }
}

/// What an operation on a closed stream says.
pub open spec fn closed_text(what: Seq<char>, kind: Seq<char>) -> Seq<char> {
    what + " on a closed "@ + kind
}

/// Whether stream `s` is closed.
pub open spec fn stream_closed(h: Heap, s: usize) -> bool {
    s < h.streams@.len() && h.streams@[s as int].closed
}

/// What beginning a stream operation does: writing nothing is done at once, and
/// does not touch the stream.
pub open spec fn begin_io_result(a: Vm, b: Vm, s: usize, ask: Ask, r: Step) -> bool {
    exists|op: IoOp| {
        &&& #[trigger] begins(ask, op)
        &&& if all_gone(a.heap, op) {
            ready_result(a, b, Value::Null, r)
        } else if stream_closed(a.heap, s) {
            faults(r, Exc::ValueError, closed_text(op.spec_what(), stream_name(a.heap, s))) && b == a
        } else {
            attempts(r, IoWait { stream: s, op, interest: Interest::Readable, token: 0, deadline: None, seq: 0 }) && b == a
        }
    }
}

/// What calling a stream method does; `None` where it is not one of the
/// machine's.
pub open spec fn stream_method_result(a: Vm, b: Vm, s: usize, name: Seq<char>, args: Seq<Value>, kwargs: Seq<Keyword>, r: Option<Step>) -> bool {
    if !stream_method(name) {
        r is None && b == a
    } else {
        r matches Some(step) && if kwargs.len() > 0 {
            &&& raises(b.heap, a.excs@, step, Exc::TypeError, name + "() takes no keyword arguments"@)
            &&& exceptions_grew(a.heap, b.heap)
            &&& b == (Vm { heap: b.heap, ..a })
        } else {
            match asked(a.heap, name, args) {
                Err(e) => faults(step, e.0, e.1) && b == a,
                Ok(Ask::Close) => (step matches Step::Host(x) && (*x).0 == HostCall::Close(s) && (*x).1 == ReturnAction::Normal) && b == a,
                Ok(ask) => begin_io_result(a, b, s, ask, step),
            }
        }
    }
}

impl Vm {
    /// A ready operation of the running task.
    fn io_ready_now(&mut self, v: Value) -> (r: Step)
        requires old(self).running(),
        ensures ready_result(*old(self), *final(self), v, r),
    {
        let ghost a = *self;
        self.push(v);
        let ghost m = *self;
        assert(restacked(a, m, a.stack().push(v)));
        if self.ready_io_run >= READY_IO_YIELD - 1 {
            self.ready_io_run = 0;
            Step::Park(Box::new(Park::YieldReady))
        } else {
            self.ready_io_run = self.ready_io_run + 1;
            Step::Next
        }
    }

    fn begin_io(&mut self, s: usize, ask: Ask) -> (r: Step)
        requires old(self).running(),
        ensures begin_io_result(*old(self), *final(self), s, ask, r),
    {
        let op = match ask {
            Ask::Read(n) => IoOp::Read(n),
            Ask::ReadUntil { delim, limit } => IoOp::ReadUntil { delim, limit, acc: Vec::new() },
            Ask::Write(buf) => IoOp::Write { buf, done: 0 },
            _ => IoOp::Accept,
        };
        assert(begins(ask, op));
        if let Ask::Write(buf) = ask {
            if self.heap.octets_len(buf) == 0 {
                return self.io_ready_now(Value::Null);
            }
        }
        if s < self.heap.streams.len() && self.heap.streams[s].closed {
            return fail(value_error(join3(op.what(), " on a closed ", self.heap.stream_name_of(s))));
        }
        let w = IoWait { stream: s, op, interest: Interest::Readable, token: 0, deadline: None, seq: 0 };
        Step::Host(Box::new((HostCall::Attempt(w), ReturnAction::Normal)))
    }

    /// The methods of a stream that can block, and `close`, which may have to
    /// wake somebody. `None` where `name` is another method.
    pub fn stream_io_method(&mut self, s: usize, name: &str, args: &Vec<Value>, kwargs: &Vec<Keyword>) -> (r: Option<Step>)
        requires old(self).running(),
        ensures stream_method_result(*old(self), *final(self), s, name@, args@, kwargs@, r),
    {
        if !is_stream_method(name) {
            return None;
        }
        if kwargs.len() > 0 {
            return Some(self.raise(Exc::TypeError, join2(name, "() takes no keyword arguments")));
        }
        match read_ask(&self.heap, name, args) {
            Err(e) => Some(fail(e)),
            Ok(Ask::Close) => Some(Step::Host(Box::new((HostCall::Close(s), ReturnAction::Normal)))),
            Ok(ask) => Some(self.begin_io(s, ask)),
        }
    }

    /// Arm the stream of `w` for `task`.
    pub fn arm_io(&mut self, task: TaskId, w: IoWait, now: u64) -> (r: Result<IoWait, VErr>)
        requires names_left(*old(self)),
        ensures io_armed(*old(self), *final(self), task, w, now, r),
    {
        let ghost a = *self;
        let ghost w0 = w;
        let known = self.heap.token_of(w.stream);
        let name = self.heap.stream_name_of(w.stream);
        let res = self.reactor.arm(known, name, w.interest, task);
        let ghost re = self.reactor;
        let ghost rv = res;
        assert(arm_result(a.reactor, re, stream_token(a.heap, w.stream), stream_name(a.heap, w.stream), w.interest, task, rv));
        let token = match res {
            Err(e) => {
                return Err(e);
            }
            Ok(t) => t,
        };
        let s = w.stream;
        if s < self.heap.streams.len() {
            self.heap.streams[s].token = Some(token);
        }
        let mut w = w;
        w.token = token;
        if w.seq == 0 {
            self.park_seq = self.park_seq + 1;
            w.seq = self.park_seq;
            let timeout = if s < self.heap.streams.len() { self.heap.streams[s].timeout } else { None };
            w.deadline = match timeout {
                Some(ms) => {
                    let at = add_millis(now, ms);
                    self.reactor.add_timer(at, task, self.park_seq);
                    Some(at)
                }
                None => None,
            };
        }
        let r = Ok(w);
        assert(armed_wait(a, *self, re, task, w0, token, now, r)) by {
            assert(token_set(a.heap, self.heap, s, token));
        }
        r
    }

    /// The running task waits for its descriptor.
    pub fn park_io(&mut self, w: IoWait, now: u64) -> (r: Step)
        requires names_left(*old(self)),
        ensures park_io_result(*old(self), *final(self), w, now, r),
    {
        let id = self.task.id;
        let res = self.arm_io(id, w, now);
        let ghost rv = res;
        assert(io_armed(*old(self), *self, old(self).task.id, w, now, rv));
        match res {
            Ok(v) => Step::Park(Box::new(Park::Io(v))),
            Err(e) => fail(e),
        }
    }

    /// Go on with the running task's operation after an attempt.
    pub fn settle_io(&mut self, w: IoWait, t: Tried, now: u64) -> (r: Step)
        requires
            old(self).running(),
            names_left(*old(self)),
        ensures settle_result(*old(self), *final(self), w, t, now, r),
    {
        let ghost w0 = w;
        let ghost tv = t;
        let mut w = w;
        let p = make_progress(&self.heap, &mut w.op, t);
        assert(advanced(self.heap, w0.op, w.op, tv));
        match p {
            Progress::Ready(v) => self.io_ready_now(v),
            Progress::Again => Step::Host(Box::new((HostCall::Attempt(w), ReturnAction::Normal))),
            Progress::Block(i) => {
                self.ready_io_run = 0;
                w.interest = i;
                if self.heap.stream_is_pipe(w.stream) {
                    let id = self.task.id;
                    self.reactor.pipe_wait(id);
                    Step::Park(Box::new(Park::Pipe(w)))
                } else {
                    self.park_io(w, now)
                }
            }
            Progress::Failed(e) => fail(e),
        }
    }
}

} // verus!
