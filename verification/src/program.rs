//! Running a program: its tasks in turn, until the last of them has ended.
use vstd::prelude::*;
use std::rc::Rc;
use crate::arith::{binary_result, sequences_grew, Arith};
use crate::bind::{fresh_frame, pool_taken};
use crate::code::{BinOp, CodeObject};
use crate::exc::{Exc, VErr};
use crate::exceptions::{build_registry, registered};
use crate::fields::Fields;
use crate::frame::ReturnAction;
use crate::machine::{HostCall, Natives, RuntimeError, Step, Task, Vm};
use crate::modules::StdStreams;
use crate::paths::{parent, parent_of};
use crate::number::Order;
use crate::reactor::Reactor;
use crate::relation::order_texts;
use crate::repr::{render, repr};
use crate::run::{begun, runs, Slice};
use crate::sched::{Park, Parked};
use crate::streams::names_left;
use crate::tasks::{finish_result, outcome_of};
use crate::text::{chars_less, join2, join3, join5, join_all, joined, nat_text, render_u64, render_usize, texts};
use crate::value::{Class, Heap, Stream, StreamKind, TaskHandle, TaskState, Value};
use crate::wake::handed;

verus! {

/// Add two values as `+` does.
pub fn add_values(h: &mut Heap, a: Value, b: Value) -> (r: Result<Arith, VErr>)
    ensures
        binary_result(*old(h), *final(h), BinOp::Add, a, b, r),
        sequences_grew(*old(h), *final(h)),
{
    crate::arith::binary(h, BinOp::Add, a, b)
}

/// How full channel `ch` is.
pub open spec fn fill_text(h: Heap, ch: usize) -> Seq<char> {
    if ch < h.chans@.len() {
        " (channel cap "@ + nat_text(h.chans@[ch as int].cap as nat) + ", "@ + nat_text(h.chans@[ch as int].buf@.len()) + " buffered)"@
    } else {
        " (channel)"@
    }
}

/// What a suspended task waits for, in a few words.
pub open spec fn wait_text(h: Heap, p: Park) -> Seq<char> {
    match p {
        Park::Recv(ch) => "recv"@ + fill_text(h, ch),
        Park::IterRecv { chan, .. } => "recv"@ + fill_text(h, chan),
        Park::Send(ch) => "send"@ + fill_text(h, ch),
        Park::Join(t) => "join(task "@ + nat_text(if t < h.handles@.len() { h.handles@[t as int].id as nat } else { 0 }) + ")"@,
        Park::Import(path) => "import '"@ + path@ + "'"@,
        Park::Io(w) => w.op.spec_what() + " on "@ + repr(h, Value::Stream(w.stream)),
        Park::Pipe(w) => w.op.spec_what() + " on "@ + repr(h, Value::Stream(w.stream)),
        Park::ProcWait(p) => "wait() on "@ + repr(h, Value::Proc(p)),
        Park::Sleep(_) => "time.sleep()"@,
        Park::Dns { addr, .. } => "dial() resolving '"@ + addr@ + "'"@,
        Park::Yield => "yield_now()"@,
        Park::YieldReady => "yield (I/O fairness)"@,
    }
}

fn fill_of(h: &Heap, ch: usize) -> (r: String)
    ensures r@ == fill_text(*h, ch),
{
    if ch < h.chans.len() {
        let cap = render_u64(h.chans[ch].cap);
        let n = render_usize(h.chans[ch].buf.len());
        join5(" (channel cap ", cap.as_str(), ", ", n.as_str(), " buffered)")
    } else {
        " (channel)".to_owned()
    }
}

impl Park {
    /// What the task waits for, in a few words.
    pub fn what(&self, h: &Heap) -> (r: String)
        ensures r@ == wait_text(*h, *self),
    {
        match self {
            Park::Recv(ch) => join2("recv", fill_of(h, *ch).as_str()),
            Park::IterRecv { chan, target: _, paired: _ } => join2("recv", fill_of(h, *chan).as_str()),
            Park::Send(ch) => join2("send", fill_of(h, *ch).as_str()),
            Park::Join(t) => {
                let id = if *t < h.handles.len() { h.handles[*t].id } else { 0 };
                join3("join(task ", render_u64(id).as_str(), ")")
            }
            Park::Import(path) => join3("import '", path.as_str(), "'"),
            Park::Io(w) => join3(w.op.what(), " on ", render(h, Value::Stream(w.stream)).as_str()),
            Park::Pipe(w) => join3(w.op.what(), " on ", render(h, Value::Stream(w.stream)).as_str()),
            Park::ProcWait(p) => join2("wait() on ", render(h, Value::Proc(*p)).as_str()),
            Park::Sleep(_) => "time.sleep()".to_owned(),
            Park::Dns { id: _, addr } => join3("dial() resolving '", addr.as_str(), "'"),
            Park::Yield => "yield_now()".to_owned(),
            Park::YieldReady => "yield (I/O fairness)".to_owned(),
        }
    }
}

/// What each of these waits for.
pub open spec fn wait_texts(h: Heap, parked: Seq<Parked>) -> Seq<Seq<char>> {
    parked.map_values(|p: Parked| wait_text(h, p.park))
}

/// No later text sorts before an earlier one.
pub open spec fn texts_sorted(ws: Seq<Seq<char>>) -> bool {
    forall|i: int, j: int| 0 <= i < j < ws.len() ==> !chars_less(#[trigger] ws[j], #[trigger] ws[i])
}

/// `t` is these texts in order, with commas between.
pub open spec fn listed(ts: Seq<Seq<char>>, t: Seq<char>) -> bool {
    exists|ws: Seq<Seq<char>>| {
        &&& #[trigger] texts_sorted(ws)
        &&& ws.to_multiset() == ts.to_multiset()
        &&& t == joined(ws, ", "@)
    }
}

proof fn lemma_less_trans(a: Seq<char>, b: Seq<char>, c: Seq<char>)
    requires chars_less(a, b), chars_less(b, c),
    ensures chars_less(a, c),
    decreases a.len(),
{
    if a.len() > 0 && b.len() > 0 && c.len() > 0 && a[0] == b[0] && b[0] == c[0] {
        lemma_less_trans(a.skip(1), b.skip(1), c.skip(1));
    }
}

proof fn lemma_insert_multiset(ws: Seq<Seq<char>>, i: int, t: Seq<char>)
    requires 0 <= i <= ws.len(),
    ensures ws.insert(i, t).to_multiset() == ws.to_multiset().insert(t),
{
    broadcast use vstd::seq_lib::group_to_multiset_ensures;
    let x = ws.take(i);
    let y = ws.skip(i);
    assert(ws.insert(i, t) =~= x.push(t) + y);
    assert(ws =~= x + y);
    vstd::seq_lib::lemma_multiset_commutative(x.push(t), y);
    vstd::seq_lib::lemma_multiset_commutative(x, y);
    assert(x.push(t).to_multiset() == x.to_multiset().insert(t));
    assert((x.push(t) + y).to_multiset() =~= x.to_multiset().insert(t).add(y.to_multiset()));
    assert((x + y).to_multiset() =~= x.to_multiset().add(y.to_multiset()));
    assert(ws.insert(i, t).to_multiset() =~= ws.to_multiset().insert(t));
}

fn insert_sorted(ws: &mut Vec<String>, t: String)
    requires texts_sorted(texts(old(ws)@)),
    ensures
        texts_sorted(texts(final(ws)@)),
        texts(final(ws)@).to_multiset() == texts(old(ws)@).to_multiset().insert(t@),
        final(ws)@.len() == old(ws)@.len() + 1,
{
    let ghost before = texts(ws@);
    let mut i: usize = 0;
    let mut here: bool = false;
    while i < ws.len() && !here
        invariant
            *ws == *old(ws),
            before == texts(ws@),
            before.len() == ws@.len(),
            i <= ws.len(),
            forall|k: int| 0 <= k < i ==> !chars_less(t@, #[trigger] before[k]),
            here ==> i < ws.len() && chars_less(t@, before[i as int]),
        decreases ws.len() - i + (if here { 0int } else { 1int }),
    {
        assert(before[i as int] == ws@[i as int]@);
        if let Order::Less = order_texts(t.as_str(), ws[i].as_str()) {
            here = true;
        } else {
            i += 1;
        }
    }
    let ghost tv = t@;
    ws.insert(i, t);
    proof {
        let after = texts(ws@);
        assert(after =~= before.insert(i as int, tv));
        lemma_insert_multiset(before, i as int, tv);
        assert forall|x: int, y: int| 0 <= x < y < after.len() implies !chars_less(#[trigger] after[y], #[trigger] after[x]) by {
            if x < i && y < i {
                assert(!chars_less(before[y], before[x]));
            } else if x < i && y == i {
                assert(!chars_less(tv, before[x]));
            } else if x < i {
                assert(!chars_less(before[y - 1], before[x]));
            } else if x == i {
                if chars_less(before[y - 1], tv) {
                    lemma_less_trans(before[y - 1], tv, before[i as int]);
                    if y - 1 > i {
                        assert(!chars_less(before[y - 1], before[i as int]));
                    } else {
                        lemma_less_irreflexive(before[i as int]);
                    }
                }
            } else {
                assert(!chars_less(before[y - 1], before[x - 1]));
            }
        }
    }
}

proof fn lemma_less_irreflexive(a: Seq<char>)
    ensures !chars_less(a, a),
    decreases a.len(),
{
    if a.len() > 0 {
        lemma_less_irreflexive(a.skip(1));
    }
}

/// A report of a failure of the whole program.
pub open spec fn is_report(e: RuntimeError, at: Site, text: Seq<char>) -> bool {
    &&& e.class == Exc::RuntimeError
    &&& e.message@ == text
    &&& e.source == at.source
    &&& e.line == at.line
    &&& e.col == at.col
}

/// A place in a program.
#[derive(Debug)]
pub struct Site {
    pub source: Rc<String>,
    pub line: u32,
    pub col: u32,
}

impl Site {
    fn copy(&self) -> (r: Site)
        ensures r == *self,
    {
        Site { source: self.source.clone(), line: self.line, col: self.col }
    }
}

/// What is said when the last task that could run waits for the others.
pub open spec fn is_deadlock(a: Vm, last: Park, at: Site, e: RuntimeError) -> bool {
    exists|t: Seq<char>| #[trigger] listed(wait_texts(a.heap, a.parked@).push(wait_text(a.heap, last)), t)
        && is_report(e, at, "deadlock: every task is blocked and nothing can wake them ("@ + t + ")"@)
}

/// What is said when a task ended and those that are left wait for each other.
pub open spec fn is_stuck(a: Vm, at: Site, e: RuntimeError) -> bool {
    exists|t: Seq<char>| #[trigger] listed(wait_texts(a.heap, a.parked@), t)
        && is_report(e, at, "deadlock: nothing is runnable and "@ + nat_text(a.parked@.len()) + " task(s) are blocked forever ("@ + t + ")"@)
}

impl Vm {
    fn waits(&self) -> (r: Vec<String>)
        ensures
            texts_sorted(texts(r@)),
            texts(r@).to_multiset() == wait_texts(self.heap, self.parked@).to_multiset(),
    {
        let mut out: Vec<String> = Vec::new();
        let mut i: usize = 0;
        let ghost all = wait_texts(self.heap, self.parked@);
        proof {
            assert(texts(out@) =~= Seq::empty());
            assert(all.take(0) =~= Seq::empty());
        }
        while i < self.parked.len()
            invariant
                i <= self.parked.len(),
                all == wait_texts(self.heap, self.parked@),
                texts_sorted(texts(out@)),
                texts(out@).to_multiset() == all.take(i as int).to_multiset(),
            decreases self.parked.len() - i,
        {
            let w = self.parked[i].park.what(&self.heap);
            let ghost wv = w@;
            insert_sorted(&mut out, w);
            proof {
                broadcast use vstd::seq_lib::group_to_multiset_ensures;
                assert(all.take(i + 1) =~= all.take(i as int).push(all[i as int]));
                assert(all[i as int] == wv);
            }
            i += 1;
        }
        assert(all.take(i as int) =~= all);
        out
    }

    /// What is said when the last task that could run waits for the others.
    fn deadlock(&self, last: &Park, at: Site) -> (r: RuntimeError)
        ensures is_deadlock(*self, *last, at, r),
    {
        let mut ws = self.waits();
        let w = last.what(&self.heap);
        let ghost wv = w@;
        insert_sorted(&mut ws, w);
        let t = join_all(&ws, ", ");
        proof {
            broadcast use vstd::seq_lib::group_to_multiset_ensures;
            let all = wait_texts(self.heap, self.parked@);
            assert(all.push(wv).to_multiset() == all.to_multiset().insert(wv));
            assert(texts_sorted(texts(ws@)));
            assert(listed(all.push(wv), t@));
        }
        let message = join3("deadlock: every task is blocked and nothing can wake them (", t.as_str(), ")");
        RuntimeError { class: Exc::RuntimeError, message, source: at.source, line: at.line, col: at.col }
    }

    fn deadlock_stuck(&self, at: Site) -> (r: RuntimeError)
        ensures is_stuck(*self, at, r),
    {
        let ws = self.waits();
        let t = join_all(&ws, ", ");
        assert(texts_sorted(texts(ws@)));
        assert(listed(wait_texts(self.heap, self.parked@), t@));
        let n = render_usize(self.parked.len());
        let message = join5("deadlock: nothing is runnable and ", n.as_str(), " task(s) are blocked forever (", t.as_str(), ")");
        RuntimeError { class: Exc::RuntimeError, message, source: at.source, line: at.line, col: at.col }
    }
}

/// How far a program has got.
#[derive(Debug)]
pub struct Run {
    /// What the main task returned, once it has.
    pub result: Option<Value>,
    /// The main task, once it has ended.
    pub main: Option<Task>,
    /// Where the last task stopped.
    pub at: Site,
}

/// How a program ended.
pub type End = Result<Value, Box<RuntimeError>>;

/// The value of a program.
pub open spec fn run_value(run: Run) -> Value {
    match run.result {
        Some(v) => v,
        None => Value::Null,
    }
}

/// The main task is the current one again, if it has ended.
pub open spec fn main_restored(a: Vm, b: Vm, run: Run) -> bool {
    b == (match run.main {
        Some(t) => Vm { task: t, ..a },
        None => a,
    })
}

/// Where the running task is.
pub open spec fn site_of(a: Vm, at: Site) -> bool {
    at.source@ == a.spec_source() && at.line == a.task.line && at.col == a.task.col
}

/// What the end of a task's turn does. A task that yields goes behind the
/// others; one that waits is put away, unless nothing could ever wake anybody;
/// one that ended serves its joiners. The failure of the main task, or an exit,
/// ends the program.
pub open spec fn settled(a: Vm, ra: Run, s: Slice, b: Vm, rb: Run, end: Option<End>) -> bool {
    let rc = Run { at: rb.at, ..ra };
    &&& site_of(a, rb.at)
    &&& match s {
        Slice::Parked(p) => rb == rc && match *p {
            Park::Yield => {
                &&& end is None
                &&& b.ready@.len() == a.ready@.len() + 1
                &&& b.ready@.drop_last() == a.ready@
                &&& handed(a.task, b.ready@.last(), Value::Null)
                &&& b.task.is_fresh()
                &&& b == (Vm { task: b.task, ready: b.ready, ..a })
            },
            Park::YieldReady => {
                &&& end is None
                &&& b.ready@ == a.ready@.push(a.task)
                &&& b.task.is_fresh()
                &&& b == (Vm { task: b.task, ready: b.ready, ..a })
            },
            p => if a.ready@.len() == 0 && a.reactor.idle() {
                b == a && (end matches Some(Err(e)) && is_deadlock(a, p, rb.at, *e))
            } else {
                &&& end is None
                &&& b.parked@ == a.parked@.push(Parked { task: a.task, park: p })
                &&& b.task.is_fresh()
                &&& b == (Vm { task: b.task, parked: b.parked, ..a })
            },
        },
        Slice::Returned(v) => end is None && match a.task.handle {
            None => {
                &&& rb.result == Some(v)
                &&& rb.main == Some(a.task)
                &&& b.task.is_fresh()
                &&& b == (Vm { task: b.task, ..a })
            },
            Some(h) => rb == rc && finish_result(a, b, h, outcome_of(v, None)),
        },
        Slice::Failed(exc, e) => match a.task.handle {
            Some(h) if a.exit_code is None => end is None && rb == rc && finish_result(a, b, h, outcome_of(exc, Some(*e))),
            _ => rb.result == ra.result && rb.main is None && main_restored(a, b, ra) && end == Some(Err::<Value, Box<RuntimeError>>(e)),
        },
        _ => false,
    }
}

/// What the scheduler does next.
#[derive(Debug)]
pub enum Picked {
    /// The next task runs.
    Task,
    /// Nobody can run before something outside the machine happens.
    Wait,
    /// The program has ended.
    Ended(End),
}

/// Which task runs next: the one that can run for the longest. With nobody left
/// the program has ended, and with nobody who can ever be woken it is stuck.
pub open spec fn pick_result(a: Vm, ra: Run, b: Vm, rb: Run, p: Picked) -> bool {
    if a.ready@.len() > 0 {
        &&& p is Task
        &&& rb == ra
        &&& b == (Vm { task: a.ready@[0], ready: b.ready, ..a })
        &&& b.ready@ == a.ready@.skip(1)
    } else if a.parked@.len() == 0 {
        &&& p == Picked::Ended(Ok(run_value(ra)))
        &&& main_restored(a, b, ra)
        &&& rb == (Run { main: None, ..ra })
    } else if a.reactor.idle() {
        b == a && rb == ra && (p matches Picked::Ended(Err(e)) && is_stuck(a, ra.at, *e))
    } else {
        p is Wait && b == a && rb == ra
    }
}

/// How often a run looks at the reactor while tasks can run: every so many
/// turns.
pub const POLL_EVERY: u64 = 64;

/// How long a wait may last, in milliseconds, while somebody waits on a child.
pub const PIPE_POLL_BACKSTOP: u64 = 20;

impl Vm {
    /// A machine with this heap, which holds what the code of the program
    /// refers to.
    pub fn new(heap: Heap, natives: Natives, argv: Vec<String>) -> (r: Vm)
        ensures booted(heap, natives, argv, r),
    {
        let mut heap = heap;
        let excs = build_registry(&mut heap);
        let ghost h1 = heap;
        let proc_class = heap.classes.len();
        let _c = heap.alloc_class(Class { name: "Completed".to_owned(), base: None, members: Fields::new(), is_exception: false });
        let output = heap.streams.len();
        let _o = heap.alloc_stream(Stream { kind: StreamKind::File, closed: false, token: None, timeout: None, peer: None, local: None });
        let errors = heap.streams.len();
        let _e = heap.alloc_stream(Stream { kind: StreamKind::File, closed: false, token: None, timeout: None, peer: None, local: None });
        let input = heap.streams.len();
        let _i = heap.alloc_stream(Stream { kind: StreamKind::File, closed: false, token: None, timeout: None, peer: None, local: None });
        proof {
            reveal_strlit("");
            assert(heap.streams@.len() == output + 3);
            assert forall|e: Exc| #[trigger] crate::exceptions::registered_as(heap, excs@, e) by {
                assert(crate::exceptions::registered_as(h1, excs@, e));
                crate::exc::exc_places(e);
                if e.spec_parent() is Some {
                    crate::exc::exc_places(e.spec_parent()->0);
                }
            }
        }
        Vm {
            task: Task::new(),
            heap,
            chains: Vec::new(),
            frame_pool: Vec::new(),
            excs,
            argv,
            std_streams: StdStreams { output, errors, input },
            exit_code: None,
            import_root: "".to_owned(),
            main_source: Rc::new("<unknown>".to_owned()),
            module_cache: Fields::new(),
            importing: Vec::new(),
            import_waiters: Vec::new(),
            proc_class,
            next_task_id: 0,
            ready: Vec::new(),
            parked: Vec::new(),
            reactor: Reactor::new(),
            park_seq: 0,
            tick: 0,
            ready_io_run: 0,
            natives,
        }
    }

    fn restore_main(&mut self, run: &mut Run)
        ensures
            main_restored(*old(self), *final(self), *old(run)),
            *final(run) == (Run { main: None, ..*old(run) }),
    {
        let mut main: Option<Task> = None;
        std::mem::swap(&mut run.main, &mut main);
        if let Some(t) = main {
            self.task = t;
        }
    }

    /// The end of the running task's turn.
    pub fn settle_slice(&mut self, run: &mut Run, s: Slice) -> (r: Option<End>)
        requires s is Parked || s is Returned || s is Failed,
        ensures settled(*old(self), *old(run), s, *final(self), *final(run), r),
    {
        let at = Site { source: self.err_source(), line: self.task.line, col: self.task.col };
        run.at = at.copy();
        match s {
            Slice::Parked(p) => match *p {
                Park::Yield => {
                    self.requeue_current(Value::Null);
                    None
                }
                Park::YieldReady => {
                    self.requeue_current_bare();
                    None
                }
                p => {
                    if self.ready.len() == 0 && self.reactor.is_idle() {
                        let e = self.deadlock(&p, at);
                        return Some(Err(Box::new(e)));
                    }
                    self.park_current(p);
                    None
                }
            },
            Slice::Returned(v) => {
                if self.current_is_main() {
                    let mut t = Task::new();
                    std::mem::swap(&mut self.task, &mut t);
                    run.result = Some(v);
                    run.main = Some(t);
                } else if let Some(h) = self.task.handle {
                    self.finish_task(h, v, None);
                }
                None
            }
            Slice::Failed(exc, e) => {
                if self.exit_code.is_none() {
                    if let Some(h) = self.task.handle {
                        self.finish_task(h, exc, Some(*e));
                        return None;
                    }
                }
                self.restore_main(run);
                Some(Err(e))
            }
            _ => None,
        }
    }

    /// Make the next task the running one.
    pub fn pick(&mut self, run: &mut Run) -> (r: Picked)
        ensures pick_result(*old(self), *old(run), *final(self), *final(run), r),
    {
        if self.ready.len() > 0 {
            let t = self.ready.remove(0);
            self.task = t;
            assert(self.ready@ =~= old(self).ready@.skip(1));
            return Picked::Task;
        }
        if self.parked.len() == 0 {
            let v = match run.result {
                Some(v) => v,
                None => Value::Null,
            };
            self.restore_main(run);
            return Picked::Ended(Ok(v));
        }
        if self.reactor.is_idle() {
            let e = self.deadlock_stuck(run.at.copy());
            return Picked::Ended(Err(Box::new(e)));
        }
        Picked::Wait
    }

    /// Whether it is time to look at the reactor although tasks can run.
    pub fn poll_due(&mut self) -> (r: bool)
        ensures
            poll_result(*old(self), *final(self), r),
    {
        if self.reactor.is_idle() {
            return false;
        }
        self.tick = if self.tick < u64::MAX { self.tick + 1 } else { 0 };
        self.tick % POLL_EVERY == 0
    }

    /// How long to wait for something outside the machine, in milliseconds: up
    /// to the soonest deadline, but never long while somebody waits on a child.
    pub fn poll_timeout(&self, now: u64) -> (r: Option<u64>)
        ensures r == timeout_of(self.reactor, now),
    {
        let left = match self.reactor.next_deadline() {
            Some(at) => Some(if at > now { at - now } else { 0 }),
            None => None,
        };
        if self.reactor.no_pipes() {
            return left;
        }
        match left {
            Some(ms) => Some(if ms < PIPE_POLL_BACKSTOP { ms } else { PIPE_POLL_BACKSTOP }),
            None => Some(PIPE_POLL_BACKSTOP),
        }
    }
}

/// Whether it is time to look at the reactor.
pub open spec fn poll_result(a: Vm, b: Vm, r: bool) -> bool {
    if a.reactor.idle() {
        b == a && !r
    } else {
        let tick: u64 = if a.tick < u64::MAX { (a.tick + 1) as u64 } else { 0 };
        b == (Vm { tick, ..a }) && r == (tick % POLL_EVERY == 0)
    }
}

/// How long to wait for something outside the machine.
pub open spec fn timeout_of(re: Reactor, now: u64) -> Option<u64> {
    let left: Option<u64> = if re.timers@.len() == 0 {
        None
    } else if re.timers@[0].at > now {
        Some((re.timers@[0].at - now) as u64)
    } else {
        Some(0u64)
    };
    if re.pipe_waiters@.len() == 0 && re.proc_waiters@.len() == 0 {
        left
    } else {
        match left {
            Some(ms) => Some(if ms < PIPE_POLL_BACKSTOP { ms } else { PIPE_POLL_BACKSTOP }),
            None => Some(PIPE_POLL_BACKSTOP),
        }
    }
}

/// A standard stream that is open and has never waited.
pub open spec fn is_std(s: Stream) -> bool {
    s == (Stream { kind: StreamKind::File, closed: false, token: None, timeout: None, peer: None, local: None })
}

/// A machine in which nothing has run.
pub open spec fn booted(heap: Heap, natives: Natives, argv: Vec<String>, r: Vm) -> bool {
    let n = heap.streams@.len() as int;
    &&& r.task.is_fresh()
    &&& registered(r.heap, r.excs@)
    &&& r.heap == (Heap { classes: r.heap.classes, streams: r.heap.streams, ..heap })
    &&& heap.classes@.is_prefix_of(r.heap.classes@)
    &&& heap.streams@.is_prefix_of(r.heap.streams@)
    &&& r.heap.streams@.len() == n + 3
    &&& r.std_streams.output == n
    &&& r.std_streams.errors == n + 1
    &&& r.std_streams.input == n + 2
    &&& is_std(r.heap.streams@[n])
    &&& is_std(r.heap.streams@[n + 1])
    &&& is_std(r.heap.streams@[n + 2])
    &&& r.proc_class == r.heap.classes@.len() - 1
    &&& r.heap.class_name(r.proc_class) == "Completed"@
    &&& r.heap.classes@[r.proc_class as int].base is None
    &&& r.heap.classes@[r.proc_class as int].members@ == Map::<Seq<char>, Value>::empty()
    &&& !r.heap.classes@[r.proc_class as int].is_exception
    &&& r.chains@.len() == 0
    &&& r.frame_pool@.len() == 0
    &&& r.argv == argv
    &&& r.exit_code is None
    &&& r.import_root@.len() == 0
    &&& r.main_source@ == "<unknown>"@
    &&& r.module_cache@ == Map::<Seq<char>, Value>::empty()
    &&& r.importing@.len() == 0
    &&& r.import_waiters@.len() == 0
    &&& r.next_task_id == 0
    &&& r.ready@.len() == 0
    &&& r.parked@.len() == 0
    &&& r.reactor.is_fresh()
    &&& r.park_seq == 0
    &&& r.tick == 0
    &&& r.ready_io_run == 0
    &&& r.natives == natives
}

/// Why a program stopped running.
#[derive(Debug)]
pub enum Outcome {
    Ended(End),
    /// The host has to do something for the running task.
    Host(Box<(HostCall, ReturnAction)>),
    /// Nobody can run before something outside the machine happens.
    Wait,
    /// It is time to look at the reactor; then the next task runs.
    Poll,
    /// Its share of moves is used up; this is how the running task goes on.
    Paused(Step),
    /// The code is none that a compiler makes.
    Malformed,
}

/// What one turn leads to.
#[derive(Debug)]
pub enum Turn {
    Go(Step),
    Stop(Outcome),
}

/// What changing to the next task leads to.
pub open spec fn changed(a: Vm, ra: Run, b: Vm, rb: Run, t: Turn) -> bool {
    exists|m: Vm, p: Picked| {
        &&& #[trigger] pick_result(a, ra, m, rb, p)
        &&& match p {
            Picked::Task => t matches Turn::Go(s) && begun(m, b, s),
            Picked::Wait => t == Turn::Stop(Outcome::Wait) && b == m,
            Picked::Ended(e) => t == Turn::Stop(Outcome::Ended(e)) && b == m,
        }
    }
}

/// What one turn of the running task leads to.
pub open spec fn turn_result(a: Vm, ra: Run, s: Step, share: u64, b: Vm, rb: Run, t: Turn) -> bool {
    exists|m: Vm, slice: Slice| {
        &&& #[trigger] runs(a, s, m, slice, share as nat)
        &&& match slice {
            Slice::Host(c) => t == Turn::Stop(Outcome::Host(c)) && b == m && rb == ra,
            Slice::Paused(q) => t == Turn::Stop(Outcome::Paused(q)) && b == m && rb == ra,
            Slice::Malformed => t == Turn::Stop(Outcome::Malformed) && b == m && rb == ra,
            _ => turn_ended(m, ra, slice, b, rb, t),
        }
    }
}

/// What the end of a turn leads to.
pub open spec fn turn_ended(a: Vm, ra: Run, slice: Slice, b: Vm, rb: Run, t: Turn) -> bool {
    exists|n: Vm, rn: Run, end: Option<End>| {
        &&& #[trigger] settled(a, ra, slice, n, rn, end)
        &&& match end {
            Some(e) => t == Turn::Stop(Outcome::Ended(e)) && b == n && rb == rn,
            None => polled(n, rn, b, rb, t),
        }
    }
}

/// Between two turns the reactor gets its due.
pub open spec fn polled(a: Vm, ra: Run, b: Vm, rb: Run, t: Turn) -> bool {
    exists|m: Vm, due: bool| #[trigger] poll_result(a, m, due) && if due {
        t == Turn::Stop(Outcome::Poll) && b == m && rb == ra
    } else {
        changed(m, ra, b, rb, t)
    }
}

/// Up to `n` turns, each of up to `share` moves, lead to `out`.
pub open spec fn plays(a: Vm, ra: Run, s: Step, share: u64, b: Vm, rb: Run, out: Outcome, n: nat) -> bool
    decreases n,
{
    if n == 0 {
        b == a && rb == ra && out == Outcome::Paused(s)
    } else {
        ||| turn_result(a, ra, s, share, b, rb, Turn::Stop(out))
        ||| exists|m: Vm, rm: Run, t: Step| #[trigger] turn_result(a, ra, s, share, m, rm, Turn::Go(t))
            && plays(m, rm, t, share, b, rb, out, (n - 1) as nat)
    }
}

impl Vm {
    /// Change to the next task.
    pub fn next_turn(&mut self, run: &mut Run) -> (r: Turn)
        ensures changed(*old(self), *old(run), *final(self), *final(run), r),
    {
        let p = self.pick(run);
        let ghost m = *self;
        let ghost pv = p;
        assert(pick_result(*old(self), *old(run), m, *run, pv));
        match p {
            Picked::Task => Turn::Go(self.begin_slice()),
            Picked::Wait => Turn::Stop(Outcome::Wait),
            Picked::Ended(e) => Turn::Stop(Outcome::Ended(e)),
        }
    }

    fn end_turn(&mut self, run: &mut Run, slice: Slice) -> (r: Turn)
        requires slice is Parked || slice is Returned || slice is Failed,
        ensures turn_ended(*old(self), *old(run), slice, *final(self), *final(run), r),
    {
        let ghost a = *self;
        let ghost ra = *run;
        let end = self.settle_slice(run, slice);
        let ghost n = *self;
        let ghost rn = *run;
        let ghost ev = end;
        assert(settled(a, ra, slice, n, rn, ev));
        match end {
            Some(e) => Turn::Stop(Outcome::Ended(e)),
            None => {
                let due = self.poll_due();
                let ghost m = *self;
                assert(poll_result(n, m, due));
                let t = if due { Turn::Stop(Outcome::Poll) } else { self.next_turn(run) };
                assert(polled(n, rn, *self, *run, t));
                t
            }
        }
    }

    fn turn(&mut self, run: &mut Run, s: Step, share: u64) -> (r: Turn)
        ensures turn_result(*old(self), *old(run), s, share, *final(self), *final(run), r),
    {
        let slice = self.run_slice(s, share);
        let ghost m = *self;
        let ghost sv = slice;
        assert(runs(*old(self), s, m, sv, share as nat));
        match slice {
            Slice::Host(c) => Turn::Stop(Outcome::Host(c)),
            Slice::Paused(q) => Turn::Stop(Outcome::Paused(q)),
            Slice::Malformed => Turn::Stop(Outcome::Malformed),
            other => self.end_turn(run, other),
        }
    }

    /// Go on with the running task from `first` on, and then with the others in
    /// turn, until the host is needed or the program has ended, for up to
    /// `turns` turns of up to `share` moves each.
    pub fn resume(&mut self, run: &mut Run, first: Step, share: u64, turns: u64) -> (r: Outcome)
        ensures plays(*old(self), *old(run), first, share, *final(self), *final(run), r, turns as nat),
    {
        let ghost a = *self;
        let ghost ra = *run;
        let mut s = first;
        let mut left = turns;
        while left > 0
            invariant
                a == *old(self),
                ra == *old(run),
                forall|b: Vm, rb: Run, out: Outcome| #[trigger] plays(*self, *run, s, share, b, rb, out, left as nat)
                    ==> plays(a, ra, first, share, b, rb, out, turns as nat),
            decreases left,
        {
            let ghost c = *self;
            let ghost rc = *run;
            let ghost s0 = s;
            match self.turn(run, s, share) {
                Turn::Stop(out) => {
                    assert(turn_result(c, rc, s0, share, *self, *run, Turn::Stop(out)));
                    assert(plays(c, rc, s0, share, *self, *run, out, left as nat));
                    return out;
                }
                Turn::Go(t) => {
                    let ghost before = left as nat;
                    s = t;
                    left -= 1;
                    proof {
                        let m = *self;
                        let rm = *run;
                        assert(turn_result(c, rc, s0, share, m, rm, Turn::Go(t)));
                        assert forall|b: Vm, rb: Run, out: Outcome| #[trigger] plays(m, rm, s, share, b, rb, out, left as nat)
                            implies plays(a, ra, first, share, b, rb, out, turns as nat) by {
                            assert((before - 1) as nat == left as nat);
                            assert(plays(c, rc, s0, share, b, rb, out, before));
                        }
                    }
                }
            }
        }
        assert(plays(*self, *run, s, share, *self, *run, Outcome::Paused(s), 0));
        Outcome::Paused(s)
    }
}

/// A program and how far it has got.
#[derive(Debug)]
pub struct Program {
    pub vm: Vm,
    pub run: Run,
}

/// A program about to run `code` as its main task.
pub open spec fn main_entered(a: Vm, b: Vm, code: Rc<CodeObject>) -> bool {
    &&& b.task.frames@.len() == a.task.frames@.len() + 1
    &&& b.task.frames@.drop_last() == a.task.frames@
    &&& fresh_frame(a.heap, b.heap, code, Seq::empty(), b.task.frames@.last())
    &&& pool_taken(a.frame_pool@, b.frame_pool@)
    &&& b == (Vm {
        task: Task { frames: b.task.frames, ..a.task },
        heap: b.heap,
        frame_pool: b.frame_pool,
        main_source: code.source,
        ..a
    })
}

/// The directory of the script, below which its modules are.
pub open spec fn script_root(argv: Seq<String>) -> Seq<char> {
    if argv.len() == 0 {
        Seq::empty()
    } else {
        match parent(argv[0]@) {
            Some(dir) => dir,
            None => Seq::empty(),
        }
    }
}

/// Nothing has ended yet.
pub open spec fn is_new_run(run: Run) -> bool {
    run.result is None && run.main is None
}

/// What running `code` to its first stop leads to.
pub open spec fn started(heap: Heap, natives: Natives, argv: Vec<String>, code: Rc<CodeObject>, root: Seq<char>, budget: u64, p: Program, out: Outcome) -> bool {
    exists|v: Vm, w: Vm, x: Vm, run: Run| {
        &&& #[trigger] booted(heap, natives, argv, v)
        &&& w == (Vm { import_root: w.import_root, ..v })
        &&& w.import_root@ == root
        &&& #[trigger] main_entered(w, x, code)
        &&& is_new_run(run)
        &&& #[trigger] plays(x, run, Step::Next, budget, p.vm, p.run, out, budget as nat)
    }
}

fn start(vm: Vm, code: Rc<CodeObject>, budget: u64) -> (r: (Program, Outcome))
    ensures
        exists|x: Vm, run: Run| {
            &&& #[trigger] main_entered(vm, x, code)
            &&& is_new_run(run)
            &&& #[trigger] plays(x, run, Step::Next, budget, r.0.vm, r.0.run, r.1, budget as nat)
        },
{
    let mut vm = vm;
    let ghost w = vm;
    let mut run = Run { result: None, main: None, at: Site { source: code.source.clone(), line: 0, col: 0 } };
    vm.push_module_frame(code);
    let ghost x = vm;
    let ghost ra = run;
    assert(main_entered(w, x, code));
    let out = vm.resume(&mut run, Step::Next, budget, budget);
    let r = (Program { vm, run }, out);
    assert(is_new_run(ra));
    assert(plays(x, ra, Step::Next, budget, r.0.vm, r.0.run, r.1, budget as nat));
    r
}

/// Run a compiled module, up to the first point where the host is needed or the
/// program has ended. Its arguments are empty.
pub fn run(heap: Heap, natives: Natives, code: Rc<CodeObject>, budget: u64) -> (r: (Program, Outcome))
    ensures
        exists|argv: Vec<String>| argv@.len() == 0 && #[trigger] started(heap, natives, argv, code, Seq::empty(), budget, r.0, r.1),
{
    let argv: Vec<String> = Vec::new();
    let vm = Vm::new(heap, natives, argv);
    let ghost v = vm;
    assert(v == (Vm { import_root: v.import_root, ..v }));
    assert(v.import_root@ =~= Seq::empty());
    let r = start(vm, code, budget);
    assert(started(heap, natives, argv, code, Seq::empty(), budget, r.0, r.1)) by {
        let (x, run) = choose|x: Vm, run: Run| {
            &&& #[trigger] main_entered(v, x, code)
            &&& is_new_run(run)
            &&& #[trigger] plays(x, run, Step::Next, budget, r.0.vm, r.0.run, r.1, budget as nat)
        };
        assert(booted(heap, natives, argv, v) && main_entered(v, x, code) && is_new_run(run)
            && plays(x, run, Step::Next, budget, r.0.vm, r.0.run, r.1, budget as nat));
    }
    r
}

/// Run a script, up to the first point where the host is needed or the program
/// has ended. Its modules are looked for in its own directory.
pub fn run_main(heap: Heap, natives: Natives, code: Rc<CodeObject>, argv: Vec<String>, budget: u64) -> (r: (Program, Outcome))
    ensures started(heap, natives, argv, code, script_root(argv@), budget, r.0, r.1),
{
    let found = if argv.len() == 0 { None } else { parent_of(argv[0].as_str()) };
    let root = match found {
        Some(dir) => dir,
        None => "".to_owned(),
    };
    proof {
        reveal_strlit("");
        assert(root@ =~= script_root(argv@));
    }
    let mut vm = Vm::new(heap, natives, argv);
    let ghost v = vm;
    vm.import_root = root;
    let ghost w = vm;
    let r = start(vm, code, budget);
    assert(started(heap, natives, argv, code, script_root(argv@), budget, r.0, r.1)) by {
        let (x, run) = choose|x: Vm, run: Run| {
            &&& #[trigger] main_entered(w, x, code)
            &&& is_new_run(run)
            &&& #[trigger] plays(x, run, Step::Next, budget, r.0.vm, r.0.run, r.1, budget as nat)
        };
        assert(booted(heap, natives, argv, v) && main_entered(w, x, code) && is_new_run(run)
            && plays(x, run, Step::Next, budget, r.0.vm, r.0.run, r.1, budget as nat));
    }
    r
}

/// Whether a task failed that nobody joined.
pub open spec fn any_unjoined(handles: Seq<TaskHandle>) -> bool {
    exists|i: int| 0 <= i < handles.len() && (#[trigger] handles[i]).state is Failed
}

/// The reports of the first `n` tasks that failed and that nobody joined.
pub open spec fn unjoined_reports(handles: Seq<TaskHandle>, n: int) -> Seq<Seq<char>>
    decreases n,
{
    if n <= 0 {
        Seq::empty()
    } else {
        let before = unjoined_reports(handles, n - 1);
        match handles[n - 1].state {
            TaskState::Failed { report, .. } => before.push(report@),
            _ => before,
        }
    }
}

/// The exit status of a program: the code it asked for, and otherwise whether
/// anything failed that nobody took note of.
pub open spec fn status_of(vm: Vm, end: End) -> Result<i64, Box<RuntimeError>> {
    match end {
        Ok(_) => Ok(match vm.exit_code {
            Some(c) => c,
            None => if any_unjoined(vm.heap.handles@) { 1 } else { 0 },
        }),
        Err(e) => match vm.exit_code {
            Some(c) => Ok(c),
            None => Err(e),
        },
    }
}

impl Vm {
    /// What the failed tasks that nobody joined have to say.
    pub fn reports(&self) -> (r: Vec<String>)
        ensures texts(r@) == unjoined_reports(self.heap.handles@, self.heap.handles@.len() as int),
    {
        let mut out: Vec<String> = Vec::new();
        let mut i: usize = 0;
        assert(texts(out@) =~= Seq::empty());
        while i < self.heap.handles.len()
            invariant
                i <= self.heap.handles.len(),
                texts(out@) == unjoined_reports(self.heap.handles@, i as int),
            decreases self.heap.handles.len() - i,
        {
            let ghost before = texts(out@);
            if let TaskState::Failed { exc: _, report } = &self.heap.handles[i].state {
                out.push(report.clone());
                assert(texts(out@) =~= before.push(report@));
            }
            i += 1;
        }
        out
    }

    fn has_unjoined(&self) -> (r: bool)
        ensures r == any_unjoined(self.heap.handles@),
    {
        let mut i: usize = 0;
        while i < self.heap.handles.len()
            invariant
                i <= self.heap.handles.len(),
                forall|k: int| 0 <= k < i ==> !((#[trigger] self.heap.handles@[k]).state is Failed),
            decreases self.heap.handles.len() - i,
        {
            if let TaskState::Failed { exc: _, report: _ } = &self.heap.handles[i].state {
                assert(self.heap.handles@[i as int].state is Failed);
                return true;
            }
            i += 1;
        }
        false
    }

    /// The exit status of a program that ended so.
    pub fn exit_status(&self, end: End) -> (r: Result<i64, Box<RuntimeError>>)
        ensures r == status_of(*self, end),
    {
        match end {
            Ok(_) => match self.exit_code {
                Some(c) => Ok(c),
                None => Ok(if self.has_unjoined() { 1 } else { 0 }),
            },
            Err(e) => match self.exit_code {
                Some(c) => Ok(c),
                None => Err(e),
            },
        }
    }

    /// Whether the counters that name things have names left.
    pub fn has_names(&self) -> (r: bool)
        ensures r == (names_left(*self) && self.reactor.next_lookup < u64::MAX),
    {
        self.park_seq < u64::MAX && self.reactor.next_token < usize::MAX && self.reactor.next_lookup < u64::MAX
    }
}

} // verus!
