//! Waking the tasks that wait for something outside the machine.
use vstd::prelude::*;
use crate::call::{fail, fault_step};
use crate::exc::{fault, type_error, value_error, Exc, VErr};
use crate::exceptions::exceptions_grew;
use crate::frame::ReturnAction;
use crate::machine::{restacked, HostCall, Keyword, Step, Vm};
use crate::names::{kind_name, kind_name_of};
use crate::reactor::{arm_result, both_sides, in_order, lookup_place, others, place, timer_place, with_task, without_waiter, Reactor, Timer};
use crate::sched::{Dialing, Interest, IoOp, IoWait, Park, Parked};
use crate::streams::{add_millis, advanced, closed_text, io_armed, is_pipe, later, make_progress, names_left, park_io_result, progress, stream_name, stream_token, Progress, Tried};
use crate::text::{join2, join3, join4};
use crate::value::{Heap, Proc, Stream, TaskId, Value};
use crate::wake::{all_woken, faults, lemma_woken_push, parked_at, raises, woken_failing, woken_with, Wake};

verus! {

/// Task `id`, if it is suspended, waits for `park` now.
pub open spec fn reparked(a: Vm, b: Vm, id: TaskId, park: Park) -> bool {
    match parked_at(a.parked@, id) {
        Some(k) => b == (Vm { parked: b.parked, ..a }) && b.parked@ == a.parked@.update(k, Parked { park, ..a.parked@[k] }),
        None => b == a,
    }
}

/// What task `id` waits for, if it is suspended.
pub open spec fn park_of(a: Vm, id: TaskId) -> Option<Park> {
    match parked_at(a.parked@, id) {
        Some(k) => Some(a.parked@[k].park),
        None => None,
    }
}

/// Task `id` learns that its stream was closed, if that is what it waits for.
pub open spec fn told_closed(a: Vm, b: Vm, id: TaskId, kind: Seq<char>) -> bool {
    match park_of(a, id) {
        Some(Park::Io(w)) => woken_failing(a, b, id, Exc::ValueError, closed_text(w.op.spec_what(), kind)),
        Some(Park::Pipe(w)) => {
            let m = Vm { reactor: b.reactor, ..a };
            &&& m.reactor == (Reactor { pipe_waiters: m.reactor.pipe_waiters, ..a.reactor })
            &&& m.reactor.pipe_waiters@ == others(a.reactor.pipe_waiters@, id)
            &&& woken_failing(m, b, id, Exc::ValueError, closed_text(w.op.spec_what(), kind))
        },
        _ => b == a,
    }
}

/// These tasks learn it, one after the other.
pub open spec fn all_told(a: Vm, b: Vm, ids: Seq<TaskId>, kind: Seq<char>) -> bool
    decreases ids.len(),
{
    if ids.len() == 0 {
        b == a
    } else {
        exists|m: Vm| all_told(a, m, ids.drop_last(), kind) && #[trigger] told_closed(m, b, ids.last(), kind)
    }
}

/// Those suspended on a pipe operation of stream `s`.
pub open spec fn pipe_users(parked: Seq<Parked>, s: usize) -> Seq<TaskId>
    decreases parked.len(),
{
    if parked.len() == 0 {
        Seq::empty()
    } else {
        let before = pipe_users(parked.drop_last(), s);
        match parked.last().park {
            Park::Pipe(w) => if w.stream == s { before.push(parked.last().task.id) } else { before },
            _ => before,
        }
    }
}

/// Those suspended on stream `s`, if it is a pipe.
pub open spec fn pipe_waiters_of(parked: Seq<Parked>, pipe: bool, s: usize) -> Seq<TaskId> {
    if pipe { pipe_users(parked, s) } else { Seq::empty() }
}

/// Stream `s` is closed, and nobody is filed as waiting on its descriptor.
pub open spec fn marked_closed(a: Vm, b: Vm, s: usize) -> bool {
    &&& b == (Vm { heap: b.heap, reactor: b.reactor, ..a })
    &&& b.heap == (Heap { streams: b.heap.streams, ..a.heap })
    &&& b.heap.streams@ == (if s < a.heap.streams@.len() {
        a.heap.streams@.update(s as int, Stream { closed: true, ..a.heap.streams@[s as int] })
    } else {
        a.heap.streams@
    })
    &&& b.reactor == (Reactor { waiters: b.reactor.waiters, ..a.reactor })
    &&& b.reactor.waiters@ == (match token_place(a, s) {
        Some(k) => a.reactor.waiters@.remove(k),
        None => a.reactor.waiters@,
    })
}

/// Where the waiters on stream `s` are filed.
pub open spec fn token_place(a: Vm, s: usize) -> Option<int> {
    match stream_token(a.heap, s) {
        Some(t) => place(a.reactor.waiters@, t),
        None => None,
    }
}

/// Those to tell when stream `s` is closed.
pub open spec fn users_of(a: Vm, s: usize) -> Seq<TaskId> {
    (match token_place(a, s) {
        Some(k) => both_sides(a.reactor.waiters@[k]),
        None => Seq::empty(),
    })
}

/// What closing stream `s` does: whoever waits on it raises what calling the
/// method on a closed stream raises.
pub open spec fn close_stream_result(a: Vm, b: Vm, s: usize, failed: Option<VErr>, r: Step) -> bool {
    match failed {
        Some(e) => faults(r, e@.0, e@.1) && b == a,
        None => exists|m: Vm, n: Vm, o: Vm| {
            &&& #[trigger] marked_closed(a, m, s)
            &&& #[trigger] all_told(m, n, users_of(a, s), stream_name(a.heap, s))
            &&& #[trigger] all_told(n, o, pipe_waiters_of(n.parked@, is_pipe(a.heap, s), s), stream_name(a.heap, s))
            &&& restacked(o, b, a.stack().push(Value::Null))
            &&& b.heap == o.heap
            &&& r is Next
        },
    }
}

proof fn lemma_told(a: Vm, b: Vm, ids: Seq<TaskId>, kind: Seq<char>)
    requires all_told(a, b, ids, kind),
    ensures
        b == (Vm { parked: b.parked, ready: b.ready, heap: b.heap, reactor: b.reactor, ..a }),
        b.heap == (Heap { instances: b.heap.instances, tuples: b.heap.tuples, strs: b.heap.strs, ..a.heap }),
    decreases ids.len(),
{
    if ids.len() > 0 {
        let m = choose|m: Vm| all_told(a, m, ids.drop_last(), kind) && #[trigger] told_closed(m, b, ids.last(), kind);
        lemma_told(a, m, ids.drop_last(), kind);
    }
}

proof fn lemma_told_push(a: Vm, m: Vm, b: Vm, ids: Seq<TaskId>, id: TaskId, kind: Seq<char>)
    requires all_told(a, m, ids, kind), told_closed(m, b, id, kind),
    ensures all_told(a, b, ids.push(id), kind),
{
    let all = ids.push(id);
    assert(all.drop_last() =~= ids);
    assert(all.last() == id);
    assert(told_closed(m, b, all.last(), kind));
}

impl Vm {
    /// Let task `id` wait for `park`.
    fn repark(&mut self, id: TaskId, park: Park)
        ensures reparked(*old(self), *final(self), id, park),
    {
        if let Some(k) = self.find_parked(id) {
            self.parked[k].park = park;
        }
    }

    fn tell_closed(&mut self, id: TaskId, kind: &str)
        ensures told_closed(*old(self), *final(self), id, kind@),
    {
        if let Some(k) = self.find_parked(id) {
            let (what, pipe) = match &self.parked[k].park {
                Park::Io(w) => (w.op.what(), false),
                Park::Pipe(w) => (w.op.what(), true),
                _ => {
                    return;
                }
            };
            if pipe {
                self.reactor.pipe_unwait(id);
            }
            let e = value_error(join3(what, " on a closed ", kind));
            self.wake_failing(id, &e);
        }
    }

    fn tell_all(&mut self, ids: &Vec<TaskId>, kind: &str)
        ensures all_told(*old(self), *final(self), ids@, kind@),
    {
        let ghost a = *self;
        let mut i: usize = 0;
        assert(ids@.take(0) =~= Seq::empty());
        while i < ids.len()
            invariant
                i <= ids.len(),
                a == *old(self),
                all_told(a, *self, ids@.take(i as int), kind@),
            decreases ids.len() - i,
        {
            let ghost m = *self;
            self.tell_closed(ids[i], kind);
            proof {
                lemma_told_push(a, m, *self, ids@.take(i as int), ids@[i as int], kind@);
                assert(ids@.take(i + 1) =~= ids@.take(i as int).push(ids@[i as int]));
            }
            i += 1;
        }
        assert(ids@.take(i as int) =~= ids@);
    }

    fn find_pipe_users(&self, s: usize) -> (r: Vec<TaskId>)
        ensures r@ == pipe_users(self.parked@, s),
    {
        let mut out: Vec<TaskId> = Vec::new();
        let mut i: usize = 0;
        assert(self.parked@.take(0) =~= Seq::empty());
        while i < self.parked.len()
            invariant
                i <= self.parked.len(),
                out@ == pipe_users(self.parked@.take(i as int), s),
            decreases self.parked.len() - i,
        {
            assert(self.parked@.take(i + 1).drop_last() =~= self.parked@.take(i as int));
            assert(self.parked@.take(i + 1).last() == self.parked@[i as int]);
            if let Park::Pipe(w) = &self.parked[i].park {
                if w.stream == s {
                    out.push(self.parked[i].task.id);
                }
            }
            i += 1;
        }
        assert(self.parked@.take(i as int) =~= self.parked@);
        out
    }

    /// `close()` of stream `s`, once the host has let go of the descriptor.
    pub fn stream_close(&mut self, s: usize, failed: Option<VErr>) -> (r: Step)
        requires old(self).running(),
        ensures close_stream_result(*old(self), *final(self), s, failed, r),
    {
        if let Some(e) = failed {
            return fail(e);
        }
        let ghost a = *self;
        let kind = self.heap.stream_name_of(s);
        let pipe = self.heap.stream_is_pipe(s);
        let token = self.heap.token_of(s);
        if s < self.heap.streams.len() {
            self.heap.streams[s].closed = true;
        }
        let ids = match token {
            Some(t) => self.reactor.take_waiters(t),
            None => Vec::new(),
        };
        let ghost m = *self;
        proof {
            assert(ids@ =~= users_of(a, s));
            assert(marked_closed(a, m, s));
        }
        self.tell_all(&ids, kind);
        let ghost n = *self;
        assert(all_told(m, n, users_of(a, s), stream_name(a.heap, s)));
        let more = if pipe { self.find_pipe_users(s) } else { Vec::new() };
        self.tell_all(&more, kind);
        let ghost o = *self;
        proof {
            if !pipe {
                assert(more@ =~= Seq::empty());
            }
            assert(all_told(n, o, pipe_waiters_of(n.parked@, is_pipe(a.heap, s), s), stream_name(a.heap, s)));
            lemma_told(m, n, users_of(a, s), stream_name(a.heap, s));
            lemma_told(n, o, more@, stream_name(a.heap, s));
        }
        self.push(Value::Null);
        Step::Next
    }
}

/// Who is to try again when a descriptor is ready: the reader, then the writer,
/// and nobody twice.
pub open spec fn ready_ids(re: Reactor, token: usize, readable: bool, writable: bool) -> Seq<TaskId> {
    match place(re.waiters@, token) {
        None => Seq::empty(),
        Some(k) => {
            let w = re.waiters@[k];
            let first: Seq<TaskId> = if readable && w.read is Some { seq![w.read->0] } else { Seq::empty() };
            if writable && w.write is Some && !(readable && w.read == w.write) { first.push(w.write->0) } else { first }
        },
    }
}

/// What became of a suspended operation that was tried again.
#[derive(Debug)]
pub enum Retry {
    /// It is settled, or waits again.
    Settled,
    /// It goes on at once.
    Again(IoWait),
    /// Its connect failed; there may be another address.
    Redial(Dialing),
}

/// What becomes of the operation `w` of the suspended task `id` after another
/// attempt.
pub open spec fn retry_result(a: Vm, b: Vm, id: TaskId, w: IoWait, t: Tried, r: Retry) -> bool {
    exists|op: IoOp| {
        let v = IoWait { op, ..w };
        &&& #[trigger] advanced(a.heap, w.op, op, t)
        &&& match progress(a.heap, w.op, op, t) {
            Progress::Again => r == Retry::Again(v) && b == a,
            Progress::Ready(x) => r is Settled && exists|m: Vm| #[trigger] disarmed(a, m, w.token, id) && woken_with(m, b, id, x),
            Progress::Block(i) => r is Settled && rearm_result(a, b, id, IoWait { interest: i, ..v }),
            Progress::Failed(e) => match op {
                IoOp::Connect { addrs, next } => r == Retry::Redial(Dialing { addrs, next, last: e }) && disarmed(a, b, w.token, id),
                _ => r is Settled && gave_up(a, b, w.token, id, e),
            },
        }
    }
}

/// Task `id` waits on `token` no longer.
pub open spec fn disarmed(a: Vm, b: Vm, token: usize, id: TaskId) -> bool {
    &&& b == (Vm { reactor: b.reactor, ..a })
    &&& b.reactor == (Reactor { waiters: b.reactor.waiters, ..a.reactor })
    &&& b.reactor.waiters@ == without_waiter(a.reactor.waiters@, token, id)
}

/// Task `id` waits on `token` no longer and raises what `e` becomes.
pub open spec fn gave_up(a: Vm, b: Vm, token: usize, id: TaskId, e: VErr) -> bool {
    exists|m: Vm| #[trigger] disarmed(a, m, token, id) && woken_failing(m, b, id, e@.0, e@.1)
}

/// Task `id` waits for its descriptor again.
pub open spec fn rearm_result(a: Vm, b: Vm, id: TaskId, w: IoWait) -> bool {
    exists|re: Reactor, res: Result<usize, VErr>| {
        &&& #[trigger] arm_result(a.reactor, re, stream_token(a.heap, w.stream), stream_name(a.heap, w.stream), w.interest, id, res)
        &&& match res {
            Ok(token) => reparked(Vm { reactor: re, ..a }, b, id, Park::Io(IoWait { token, ..w })),
            Err(e) => gave_up(Vm { reactor: re, ..a }, b, w.token, id, e),
        }
    }
}

/// Task `id` waits on no pipe any more.
pub open spec fn unpiped(a: Vm, b: Vm, id: TaskId) -> bool {
    &&& b == (Vm { reactor: b.reactor, ..a })
    &&& b.reactor == (Reactor { pipe_waiters: b.reactor.pipe_waiters, ..a.reactor })
    &&& b.reactor.pipe_waiters@ == others(a.reactor.pipe_waiters@, id)
}

/// What becomes of the pipe operation `w` of the suspended task `id` after
/// another attempt.
pub open spec fn retry_pipe_result(a: Vm, b: Vm, id: TaskId, w: IoWait, t: Tried, r: Retry) -> bool {
    exists|op: IoOp| {
        let v = IoWait { op, ..w };
        &&& #[trigger] advanced(a.heap, w.op, op, t)
        &&& match progress(a.heap, w.op, op, t) {
            Progress::Again => r == Retry::Again(v) && b == a,
            Progress::Ready(x) => r is Settled && exists|m: Vm| #[trigger] unpiped(a, m, id) && woken_with(m, b, id, x),
            Progress::Block(_) => r is Settled && reparked(a, b, id, Park::Pipe(v)),
            Progress::Failed(e) => r is Settled && exists|m: Vm| #[trigger] unpiped(a, m, id) && woken_failing(m, b, id, e@.0, e@.1),
        }
    }
}

impl Vm {
    /// Who is to try again now that the descriptor `token` is ready.
    pub fn io_ready(&self, token: usize, readable: bool, writable: bool) -> (r: Vec<TaskId>)
        ensures r@ == ready_ids(self.reactor, token, readable, writable),
    {
        let mut out: Vec<TaskId> = Vec::new();
        let n = self.reactor.waiters.len();
        let mut k: usize = n;
        assert(self.reactor.waiters@.take(n as int) =~= self.reactor.waiters@);
        while k > 0
            invariant
                k <= self.reactor.waiters.len(),
                out@.len() == 0,
                place(self.reactor.waiters@, token) == place(self.reactor.waiters@.take(k as int), token),
            decreases k,
        {
            let ghost ws = self.reactor.waiters@;
            assert(ws.take(k as int).last() == ws[k - 1]);
            assert(ws.take(k as int).drop_last() =~= ws.take(k - 1));
            let w = self.reactor.waiters[k - 1];
            if w.token == token {
                if readable {
                    if let Some(id) = w.read {
                        out.push(id);
                    }
                }
                if writable && !(readable && w.read == w.write) {
                    if let Some(id) = w.write {
                        out.push(id);
                    }
                }
                assert(out@ =~= ready_ids(self.reactor, token, readable, writable));
                return out;
            }
            k -= 1;
        }
        assert(out@ =~= Seq::empty());
        out
    }

    /// The stream operation task `id` is suspended on, taken out for another
    /// attempt; `true` says it is one on a pipe.
    pub fn take_wait(&mut self, id: TaskId) -> (r: Option<(IoWait, bool)>)
        ensures
            match park_of(*old(self), id) {
                Some(Park::Io(w)) => r == Some((w, false)) && reparked(*old(self), *final(self), id, Park::Yield),
                Some(Park::Pipe(w)) => r == Some((w, true)) && reparked(*old(self), *final(self), id, Park::Yield),
                _ => r is None && *final(self) == *old(self),
            },
    {
        let k = match self.find_parked(id) {
            Some(k) => k,
            None => {
                return None;
            }
        };
        let waits = match &self.parked[k].park {
            Park::Io(_) => true,
            Park::Pipe(_) => true,
            _ => false,
        };
        if !waits {
            return None;
        }
        let mut p = Park::Yield;
        std::mem::swap(&mut self.parked[k].park, &mut p);
        match p {
            Park::Io(w) => Some((w, false)),
            Park::Pipe(w) => Some((w, true)),
            _ => None,
        }
    }

    /// Go on with the operation of a suspended task after another attempt.
    pub fn retry_io(&mut self, id: TaskId, w: IoWait, t: Tried) -> (r: Retry)
        requires old(self).reactor.next_token < usize::MAX,
        ensures retry_result(*old(self), *final(self), id, w, t, r),
    {
        let ghost a = *self;
        let ghost w0 = w;
        let ghost tv = t;
        let token = w.token;
        let mut w = w;
        let p = make_progress(&self.heap, &mut w.op, t);
        let ghost op = w.op;
        assert(advanced(a.heap, w0.op, op, tv));
        match p {
            Progress::Again => Retry::Again(w),
            Progress::Ready(v) => {
                self.reactor.disarm(token, id);
                let ghost m = *self;
                assert(disarmed(a, m, token, id));
                self.wake_with_value(id, v);
                Retry::Settled
            }
            Progress::Block(i) => {
                w.interest = i;
                let ghost wv = w;
                let known = self.heap.token_of(w.stream);
                let kind = self.heap.stream_name_of(w.stream);
                let res = self.reactor.arm(known, kind, i, id);
                let ghost re = self.reactor;
                let ghost rv = res;
                assert(arm_result(a.reactor, re, stream_token(a.heap, w.stream), stream_name(a.heap, w.stream), w.interest, id, rv));
                match res {
                    Ok(t2) => {
                        w.token = t2;
                        assert(w == IoWait { token: t2, ..wv });
                        assert(*self == Vm { reactor: re, ..a });
                        self.repark(id, Park::Io(w));
                        assert(rearm_result(a, *self, id, wv));
                    }
                    Err(e) => {
                        let ghost c = *self;
                        assert(c == Vm { reactor: re, ..a });
                        self.reactor.disarm(token, id);
                        let ghost m = *self;
                        assert(disarmed(c, m, token, id));
                        self.wake_failing(id, &e);
                        assert(gave_up(c, *self, wv.token, id, e));
                        assert(rearm_result(a, *self, id, wv));
                    }
                }
                Retry::Settled
            }
            Progress::Failed(e) => {
                self.reactor.disarm(token, id);
                let ghost m = *self;
                assert(disarmed(a, m, token, id));
                match w.op {
                    IoOp::Connect { addrs, next } => Retry::Redial(Dialing { addrs, next, last: e }),
                    _ => {
                        self.wake_failing(id, &e);
                        Retry::Settled
                    }
                }
            }
        }
    }

    /// Go on with the pipe operation of a suspended task after another attempt.
    pub fn retry_pipe(&mut self, id: TaskId, w: IoWait, t: Tried) -> (r: Retry)
        ensures retry_pipe_result(*old(self), *final(self), id, w, t, r),
    {
        let ghost a = *self;
        let ghost w0 = w;
        let ghost tv = t;
        let mut w = w;
        let p = make_progress(&self.heap, &mut w.op, t);
        let ghost op = w.op;
        assert(advanced(a.heap, w0.op, op, tv));
        match p {
            Progress::Again => Retry::Again(w),
            Progress::Ready(v) => {
                self.reactor.pipe_unwait(id);
                let ghost m = *self;
                assert(unpiped(a, m, id));
                self.wake_with_value(id, v);
                Retry::Settled
            }
            Progress::Block(_) => {
                self.repark(id, Park::Pipe(w));
                Retry::Settled
            }
            Progress::Failed(e) => {
                self.reactor.pipe_unwait(id);
                let ghost m = *self;
                assert(unpiped(a, m, id));
                self.wake_failing(id, &e);
                Retry::Settled
            }
        }
    }
}

/// What one connect attempt of the host came to.
#[derive(Debug)]
pub enum DialTried {
    Connected(Value),
    /// In flight on this stream.
    InProgress(usize, Interest),
    Refused(VErr),
}

/// How a walk along addresses goes on.
#[derive(Debug)]
pub enum DialNext {
    Done(Value),
    Wait(IoWait),
    Try(Dialing),
    Failed(VErr),
}

/// How a walk goes on after an attempt: a refusal goes to the next address, and
/// the last refusal is what is said when there is none.
pub open spec fn dial_next(d: Dialing, t: DialTried) -> DialNext {
    match t {
        DialTried::Connected(v) => DialNext::Done(v),
        DialTried::InProgress(s, i) => DialNext::Wait(IoWait {
            stream: s,
            op: IoOp::Connect { addrs: d.addrs, next: next_address(d) },
            interest: i,
            token: 0,
            deadline: None,
            seq: 0,
        }),
        DialTried::Refused(e) => if next_address(d) < d.addrs.len() {
            DialNext::Try(Dialing { addrs: d.addrs, next: next_address(d), last: e })
        } else {
            DialNext::Failed(e)
        },
    }
}

/// The address after the one being tried.
pub open spec fn next_address(d: Dialing) -> usize {
    if d.next < d.addrs.len() { (d.next + 1) as usize } else { d.next }
}

/// A walk that begins: the first address, or the reason there is none.
pub open spec fn dial_begun(d: Dialing) -> DialNext {
    if d.next < d.addrs.len() { DialNext::Try(d) } else { DialNext::Failed(d.last) }
}

/// Go on with a walk after an attempt.
pub fn dial_progress(d: Dialing, t: DialTried) -> (r: DialNext)
    ensures r == dial_next(d, t),
{
    let next = if d.next < d.addrs.len() { d.next + 1 } else { d.next };
    match t {
        DialTried::Connected(v) => DialNext::Done(v),
        DialTried::InProgress(s, i) => DialNext::Wait(IoWait {
            stream: s,
            op: IoOp::Connect { addrs: d.addrs, next },
            interest: i,
            token: 0,
            deadline: None,
            seq: 0,
        }),
        DialTried::Refused(e) => if next < d.addrs.len() {
            DialNext::Try(Dialing { addrs: d.addrs, next, last: e })
        } else {
            DialNext::Failed(e)
        },
    }
}

/// What an address turned out to be.
#[derive(Debug)]
pub enum DialPlan {
    Bad(VErr),
    /// Addresses to connect to, in order.
    Connect(Vec<String>),
    /// A name to look up first.
    Lookup(String),
}

/// The one address a call passes.
pub open spec fn one_address(h: Heap, args: Seq<Value>, who: Seq<char>) -> Result<Seq<char>, (Exc, Seq<char>)> {
    if args.len() != 1 {
        Err((Exc::TypeError, who + "() takes exactly one address"@))
    } else {
        match args[0] {
            Value::Str(s) => Ok(h.text(s)),
            v => Err((Exc::TypeError, who + "() address must be str, not '"@ + kind_name(h, v)
                + "' — addresses are strings like \"127.0.0.1:8080\""@)),
        }
    }
}

/// The one address a call passes.
pub fn one_addr(h: &Heap, args: &Vec<Value>, who: &str) -> (r: Result<String, VErr>)
    ensures
        match one_address(*h, args@, who@) {
            Ok(t) => r matches Ok(s) && s@ == t,
            Err(e) => r matches Err(x) && x@ == e,
        },
{
    if args.len() != 1 {
        return Err(type_error(join2(who, "() takes exactly one address")));
    }
    match args[0] {
        Value::Str(s) => Ok(h.text_of(s).to_owned()),
        v => Err(type_error(join4(who, "() address must be str, not '", kind_name_of(h, v),
            "' — addresses are strings like \"127.0.0.1:8080\""))),
    }
}

/// The step asks the host for `c`.
pub open spec fn asks_host(r: Step, c: HostCall) -> bool {
    r matches Step::Host(x) && (*x).0 == c && (*x).1 == ReturnAction::Normal
}

/// The step asks the host what `addr` is.
pub open spec fn asks_dial(r: Step, addr: Seq<char>) -> bool {
    r matches Step::Host(x) && (*x).1 == ReturnAction::Normal && ((*x).0 matches HostCall::Dial(s) && s@ == addr)
}

/// What a call of `net.dial` does.
pub open spec fn dial_result(a: Vm, b: Vm, args: Seq<Value>, kwargs: Seq<Keyword>, r: Step) -> bool {
    &&& b == a
    &&& if kwargs.len() > 0 {
        faults(r, Exc::TypeError, "net.dial() takes no keyword arguments"@)
    } else {
        match one_address(a.heap, args, "dial"@) {
            Err(e) => faults(r, e.0, e.1),
            Ok(t) => asks_dial(r, t),
        }
    }
}

/// What the running task does with the next part of a walk.
pub open spec fn dialing_result(a: Vm, b: Vm, n: DialNext, now: u64, r: Step) -> bool {
    match n {
        DialNext::Done(v) => r is Next && restacked(a, b, a.stack().push(v)) && b.heap == a.heap,
        DialNext::Wait(w) => park_io_result(a, b, w, now, r),
        DialNext::Try(d) => asks_host(r, HostCall::Connect(d)) && b == a,
        DialNext::Failed(e) => faults(r, e@.0, e@.1) && b == a,
    }
}

/// What a plan for an address comes to.
pub open spec fn plan_result(a: Vm, b: Vm, plan: DialPlan, now: u64, r: Step) -> bool {
    match plan {
        DialPlan::Bad(e) => faults(r, e@.0, e@.1) && b == a,
        DialPlan::Connect(addrs) => if addrs@.len() > 0 {
            &&& b == a
            &&& r matches Step::Host(x) && (*x).1 == ReturnAction::Normal
                && ((*x).0 matches HostCall::Connect(d) && d.addrs == addrs && d.next == 0)
        } else {
            faults(r, Exc::OSError, "[Errno -2] Name or service not known"@) && b == a
        },
        DialPlan::Lookup(addr) => {
            let id = (a.reactor.next_lookup + 1) as u64;
            &&& r matches Step::Park(p) && *p == (Park::Dns { id, addr })
            &&& b == (Vm { reactor: b.reactor, ..a })
            &&& b.reactor == (Reactor { next_lookup: id, lookups: b.reactor.lookups, ..a.reactor })
            &&& b.reactor.lookups@ == a.reactor.lookups@.push((id, a.task.id))
        },
    }
}

/// What the next part of a walk does to the suspended task `id` it is for.
pub open spec fn woken_dialing(a: Vm, b: Vm, id: TaskId, n: DialNext, now: u64, r: Option<Dialing>) -> bool {
    match n {
        DialNext::Done(v) => r is None && woken_with(a, b, id, v),
        DialNext::Wait(w) => r is None && exists|m: Vm, res: Result<IoWait, VErr>| {
            &&& #[trigger] io_armed(a, m, id, w, now, res)
            &&& match res {
                Ok(v) => reparked(m, b, id, Park::Io(v)),
                Err(e) => woken_failing(m, b, id, e@.0, e@.1),
            }
        },
        DialNext::Try(d) => r == Some(d) && b == a,
        DialNext::Failed(e) => r is None && woken_failing(a, b, id, e@.0, e@.1),
    }
}

/// What the answer of lookup `id` does: the task that waits for it goes on to
/// connect, or raises.
pub open spec fn lookup_result(a: Vm, b: Vm, id: u64, answer: Result<Vec<String>, VErr>, r: Option<(TaskId, Dialing)>) -> bool {
    match lookup_place(a.reactor.lookups@, id) {
        None => r is None && b == a,
        Some(k) => {
            let task = a.reactor.lookups@[k].1;
            exists|m: Vm| {
                &&& #[trigger] looked_up(a, m, k)
                &&& if !(park_of(a, task) matches Some(Park::Dns { id: i, .. }) && i == id) {
                    r is None && b == m
                } else {
                    match answer {
                        Err(e) => r is None && woken_failing(m, b, task, e@.0, e@.1),
                        Ok(addrs) => if addrs@.len() > 0 {
                            b == m && (r matches Some((t, d)) && t == task && d.addrs == addrs && d.next == 0)
                        } else {
                            r is None && woken_failing(m, b, task, Exc::OSError, "[Errno -2] no address tried"@)
                        },
                    }
                }
            }
        },
    }
}

/// The lookup at place `k` is over.
pub open spec fn looked_up(a: Vm, b: Vm, k: int) -> bool {
    &&& b == (Vm { reactor: b.reactor, ..a })
    &&& b.reactor == (Reactor { lookups: b.reactor.lookups, ..a.reactor })
    &&& b.reactor.lookups@ == a.reactor.lookups@.remove(k)
}

/// What a call of `time.sleep` does.
pub open spec fn sleep_result(a: Vm, b: Vm, args: Seq<Value>, kwargs: Seq<Keyword>, r: Step) -> bool {
    if kwargs.len() > 0 {
        &&& raises(b.heap, a.excs@, r, Exc::TypeError, "sleep() takes no keyword arguments"@)
        &&& exceptions_grew(a.heap, b.heap)
        &&& b == (Vm { heap: b.heap, ..a })
    } else if args.len() == 1 && (args[0] is Float || args[0] is Int || args[0] is Bool) {
        if args[0] matches Value::Int(i) && i < 0 {
            faults(r, Exc::ValueError, "sleep length must be non-negative"@) && b == a
        } else {
            asks_host(r, HostCall::Sleep(args[0])) && b == a
        }
    } else {
        faults(r, Exc::TypeError, "sleep() takes one number of seconds"@) && b == a
    }
}

/// How long a sleep lasts, in milliseconds: what the host makes of a float, and
/// otherwise the number of seconds, up to a limit.
pub open spec fn sleep_millis(v: Value, of_float: Option<u64>) -> Option<u64> {
    match v {
        Value::Int(i) => if i < 0 { None } else if i > u32::MAX { Some((u32::MAX * 1000) as u64) } else { Some((i * 1000) as u64) },
        Value::Bool(b) => Some(if b { 1000 } else { 0 }),
        _ => of_float,
    }
}

/// What a sleep does once the clock is known.
pub open spec fn settle_sleep_result(a: Vm, b: Vm, v: Value, now: u64, of_float: Option<u64>, r: Step) -> bool {
    match sleep_millis(v, of_float) {
        None => faults(r, Exc::ValueError, "sleep length must be non-negative"@) && b == a,
        Some(ms) => {
            let seq = (a.park_seq + 1) as u64;
            let t = Timer { at: later(now, ms), task: a.task.id, seq };
            &&& r matches Step::Park(p) && *p == Park::Sleep(seq)
            &&& b == (Vm { park_seq: seq, reactor: b.reactor, ..a })
            &&& b.reactor == (Reactor { timers: b.reactor.timers, ..a.reactor })
            &&& b.reactor.timers@ == a.reactor.timers@.insert(timer_place(a.reactor.timers@, t.at), t)
        },
    }
}

/// The exit code of child `p`, if it is known.
pub open spec fn proc_code(h: Heap, p: usize) -> Option<i64> {
    if p < h.procs@.len() { h.procs@[p as int].code } else { None }
}

/// The exit code of child `p` is known.
pub open spec fn code_known(a: Heap, b: Heap, p: usize, code: i64) -> bool {
    &&& b == (Heap { procs: b.procs, ..a })
    &&& b.procs@ == (if p < a.procs@.len() {
        a.procs@.update(p as int, Proc { code: Some(code), ..a.procs@[p as int] })
    } else {
        a.procs@
    })
}

/// What `p.wait()` does.
pub open spec fn proc_wait_result(a: Vm, b: Vm, p: usize, r: Step) -> bool {
    match proc_code(a.heap, p) {
        Some(code) => r is Next && restacked(a, b, a.stack().push(Value::Int(code))) && b.heap == a.heap,
        None => asks_host(r, HostCall::ProcCode(p)) && b == a,
    }
}

/// What `p.wait()` does once the host has looked.
pub open spec fn settle_proc_result(a: Vm, b: Vm, p: usize, code: Option<i64>, r: Step) -> bool {
    match code {
        Some(c) => {
            &&& r is Next
            &&& code_known(a.heap, b.heap, p, c)
            &&& restacked(a, b, a.stack().push(Value::Int(c)))
        },
        None => {
            &&& r matches Step::Park(x) && *x == Park::ProcWait(p)
            &&& b == (Vm { reactor: b.reactor, ..a })
            &&& b.reactor == (Reactor { proc_waiters: b.reactor.proc_waiters, ..a.reactor })
            &&& b.reactor.proc_waiters@ == with_task(a.reactor.proc_waiters@, a.task.id)
        },
    }
}

/// Task `id`, if it waits for a child, learns the exit code.
pub open spec fn retry_proc_result(a: Vm, b: Vm, id: TaskId, code: i64) -> bool {
    match park_of(a, id) {
        Some(Park::ProcWait(p)) => exists|m: Vm| {
            &&& #[trigger] unwaited(a, m, id)
            &&& code_known(a.heap, m.heap, p, code)
            &&& woken_with(m, b, id, Value::Int(code))
        },
        _ => b == a,
    }
}

/// Task `id` waits for no child any more.
pub open spec fn unwaited(a: Vm, b: Vm, id: TaskId) -> bool {
    &&& b == (Vm { heap: b.heap, reactor: b.reactor, ..a })
    &&& b.reactor == (Reactor { proc_waiters: b.reactor.proc_waiters, ..a.reactor })
    &&& b.reactor.proc_waiters@ == others(a.reactor.proc_waiters@, id)
}

/// The soonest deadline is off the list.
pub open spec fn timer_off(a: Vm, b: Vm) -> bool {
    &&& b == (Vm { reactor: b.reactor, ..a })
    &&& b.reactor == (Reactor { timers: b.reactor.timers, ..a.reactor })
    &&& b.reactor.timers@ == a.reactor.timers@.remove(0)
}

/// The soonest deadline came: a sleeper wakes, a stream operation times out, and
/// a task that has moved on is left alone.
pub open spec fn fired_one(a: Vm, b: Vm) -> bool {
    let t = a.reactor.timers@[0];
    exists|m: Vm| {
        &&& #[trigger] timer_off(a, m)
        &&& match park_of(a, t.task) {
            Some(Park::Sleep(seq)) => if seq == t.seq { woken_with(m, b, t.task, Value::Null) } else { b == m },
            Some(Park::Io(w)) => if w.seq == t.seq {
                exists|n: Vm| #[trigger] disarmed(m, n, w.token, t.task) && woken_failing(n, b, t.task, Exc::TimeoutError, "timed out"@)
            } else {
                b == m
            },
            _ => b == m,
        }
    }
}

/// Whether a deadline has come.
pub open spec fn timer_due(a: Vm, now: u64) -> bool {
    a.reactor.timers@.len() > 0 && a.reactor.timers@[0].at <= now
}

/// Every deadline that has come by `now` fired, soonest first; `n` of them.
pub open spec fn fired(a: Vm, b: Vm, now: u64, n: nat) -> bool
    decreases n,
{
    if n == 0 {
        b == a
    } else {
        exists|m: Vm| fired(a, m, now, (n - 1) as nat) && timer_due(m, now) && #[trigger] fired_one(m, b)
    }
}

/// Those who wait for something that comes through the reactor.
pub open spec fn outside_waiters(parked: Seq<Parked>) -> Seq<TaskId>
    decreases parked.len(),
{
    if parked.len() == 0 {
        Seq::empty()
    } else {
        let before = outside_waiters(parked.drop_last());
        let p = parked.last().park;
        if p is Io || p is Dns || p is Pipe || p is ProcWait { before.push(parked.last().task.id) } else { before }
    }
}

/// Each of these raises what `e` becomes.
pub open spec fn failing(ids: Seq<TaskId>, e: (Exc, Seq<char>)) -> Seq<Wake> {
    ids.map_values(|id: TaskId| Wake::Failing(id, e.0, e.1))
}

/// What a failure of the reactor does: everybody who waits for it learns why.
pub open spec fn fail_all_result(a: Vm, b: Vm, e: (Exc, Seq<char>)) -> bool {
    exists|m: Vm| {
        &&& #[trigger] all_woken(a, m, failing(outside_waiters(a.parked@), e))
        &&& b == (Vm { reactor: b.reactor, ..m })
        &&& b.reactor.waiters@.len() == 0
        &&& b.reactor.lookups@.len() == 0
        &&& b.reactor.pipe_waiters@.len() == 0
        &&& b.reactor.proc_waiters@.len() == 0
        &&& b.reactor.timers == a.reactor.timers
        &&& b.reactor.next_token == a.reactor.next_token
        &&& b.reactor.next_lookup == a.reactor.next_lookup
    }
}

proof fn lemma_all_woken_reactor(a: Vm, b: Vm, ws: Seq<Wake>)
    requires all_woken(a, b, ws),
    ensures b.reactor == a.reactor,
    decreases ws.len(),
{
    if ws.len() > 0 {
        let m = choose|m: Vm| all_woken(a, m, ws.drop_last()) && #[trigger] crate::wake::woken(m, b, ws.last());
        lemma_all_woken_reactor(a, m, ws.drop_last());
    }
}

impl Vm {
    /// `net.dial(addr)`: what the address is decides how it goes on.
    pub fn do_dial(&mut self, args: Vec<Value>, kwargs: Vec<Keyword>) -> (r: Step)
        ensures dial_result(*old(self), *final(self), args@, kwargs@, r),
    {
        if kwargs.len() > 0 {
            return fault_step(Exc::TypeError, "net.dial() takes no keyword arguments");
        }
        match one_addr(&self.heap, &args, "dial") {
            Err(e) => fail(e),
            Ok(s) => Step::Host(Box::new((HostCall::Dial(s), ReturnAction::Normal))),
        }
    }

    /// Go on with a dial once it is known what the address is.
    pub fn settle_plan(&mut self, plan: DialPlan, now: u64) -> (r: Step)
        requires old(self).reactor.next_lookup < u64::MAX,
        ensures plan_result(*old(self), *final(self), plan, now, r),
    {
        match plan {
            DialPlan::Bad(e) => fail(e),
            DialPlan::Connect(addrs) => {
                if addrs.len() == 0 {
                    return fault_step(Exc::OSError, "[Errno -2] Name or service not known");
                }
                let last = fault(Exc::OSError, "[Errno -2] Name or service not known");
                Step::Host(Box::new((HostCall::Connect(Dialing { addrs, next: 0, last }), ReturnAction::Normal)))
            }
            DialPlan::Lookup(addr) => {
                let id = self.reactor.lookup(self.task.id);
                Step::Park(Box::new(Park::Dns { id, addr }))
            }
        }
    }

    /// Go on with the running task's connect after an attempt.
    pub fn settle_connect(&mut self, d: Dialing, t: DialTried, now: u64) -> (r: Step)
        requires
            old(self).running(),
            names_left(*old(self)),
        ensures dialing_result(*old(self), *final(self), dial_next(d, t), now, r),
    {
        match dial_progress(d, t) {
            DialNext::Done(v) => {
                self.push(v);
                Step::Next
            }
            DialNext::Wait(w) => self.park_io(w, now),
            DialNext::Try(d) => Step::Host(Box::new((HostCall::Connect(d), ReturnAction::Normal))),
            DialNext::Failed(e) => fail(e),
        }
    }

    fn wake_dialing(&mut self, id: TaskId, n: DialNext, now: u64) -> (r: Option<Dialing>)
        requires names_left(*old(self)),
        ensures woken_dialing(*old(self), *final(self), id, n, now, r),
    {
        match n {
            DialNext::Done(v) => {
                self.wake_with_value(id, v);
                None
            }
            DialNext::Wait(w) => {
                let res = self.arm_io(id, w, now);
                let ghost m = *self;
                let ghost rv = res;
                assert(io_armed(*old(self), m, id, w, now, rv));
                match res {
                    Ok(v) => self.repark(id, Park::Io(v)),
                    Err(e) => self.wake_failing(id, &e),
                }
                None
            }
            DialNext::Try(d) => Some(d),
            DialNext::Failed(e) => {
                self.wake_failing(id, &e);
                None
            }
        }
    }

    /// Begin, or go on with, the connect of a suspended task: a walk that is to
    /// be tried, if one is left.
    pub fn redial(&mut self, id: TaskId, d: Dialing, now: u64) -> (r: Option<Dialing>)
        requires names_left(*old(self)),
        ensures woken_dialing(*old(self), *final(self), id, dial_begun(d), now, r),
    {
        let n = if d.next < d.addrs.len() { DialNext::Try(d) } else { DialNext::Failed(d.last) };
        self.wake_dialing(id, n, now)
    }

    /// Go on with the connect of a suspended task after an attempt: a walk that
    /// is to be tried further, if one is left.
    pub fn connect_woken(&mut self, id: TaskId, d: Dialing, t: DialTried, now: u64) -> (r: Option<Dialing>)
        requires names_left(*old(self)),
        ensures woken_dialing(*old(self), *final(self), id, dial_next(d, t), now, r),
    {
        let n = dial_progress(d, t);
        self.wake_dialing(id, n, now)
    }

    /// The answer of lookup `id`: the task that waits for it and the addresses
    /// to walk along, if it goes on to connect.
    pub fn lookup_done(&mut self, id: u64, answer: Result<Vec<String>, VErr>) -> (r: Option<(TaskId, Dialing)>)
        ensures lookup_result(*old(self), *final(self), id, answer, r),
    {
        let ghost a = *self;
        let task = match self.reactor.take_lookup(id) {
            Some(t) => t,
            None => {
                return None;
            }
        };
        let ghost m = *self;
        let ghost k = lookup_place(a.reactor.lookups@, id)->0;
        assert(looked_up(a, m, k));
        let waits = match self.find_parked(task) {
            Some(k) => match &self.parked[k].park {
                Park::Dns { id: i, addr: _ } => *i == id,
                _ => false,
            },
            None => false,
        };
        if !waits {
            return None;
        }
        match answer {
            Err(e) => {
                self.wake_failing(task, &e);
                None
            }
            Ok(addrs) => {
                let last = fault(Exc::OSError, "[Errno -2] no address tried");
                if addrs.len() == 0 {
                    self.wake_failing(task, &last);
                    return None;
                }
                Some((task, Dialing { addrs, next: 0, last }))
            }
        }
    }

    /// `time.sleep(secs)`: the clock is the host's.
    pub fn do_sleep(&mut self, args: Vec<Value>, kwargs: Vec<Keyword>) -> (r: Step)
        ensures sleep_result(*old(self), *final(self), args@, kwargs@, r),
    {
        if kwargs.len() > 0 {
            return self.raise(Exc::TypeError, "sleep() takes no keyword arguments".to_owned());
        }
        if args.len() == 1 {
            match args[0] {
                Value::Int(i) => {
                    if i < 0 {
                        return fault_step(Exc::ValueError, "sleep length must be non-negative");
                    }
                    return Step::Host(Box::new((HostCall::Sleep(args[0]), ReturnAction::Normal)));
                }
                Value::Float(_) => {
                    return Step::Host(Box::new((HostCall::Sleep(args[0]), ReturnAction::Normal)));
                }
                Value::Bool(_) => {
                    return Step::Host(Box::new((HostCall::Sleep(args[0]), ReturnAction::Normal)));
                }
                _ => {}
            }
        }
        fault_step(Exc::TypeError, "sleep() takes one number of seconds")
    }

    /// Put the running task to sleep. `of_float` is how many milliseconds a
    /// float number of seconds is; none, if it is no length of time.
    pub fn settle_sleep(&mut self, v: Value, now: u64, of_float: Option<u64>) -> (r: Step)
        requires old(self).park_seq < u64::MAX,
        ensures settle_sleep_result(*old(self), *final(self), v, now, of_float, r),
    {
        let ms = match v {
            Value::Int(i) => {
                if i < 0 {
                    None
                } else if i > u32::MAX as i64 {
                    Some(u32::MAX as u64 * 1000)
                } else {
                    Some(i as u64 * 1000)
                }
            }
            Value::Bool(b) => Some(if b { 1000 } else { 0 }),
            _ => of_float,
        };
        match ms {
            None => fault_step(Exc::ValueError, "sleep length must be non-negative"),
            Some(ms) => {
                self.park_seq = self.park_seq + 1;
                let at = add_millis(now, ms);
                self.reactor.add_timer(at, self.task.id, self.park_seq);
                Step::Park(Box::new(Park::Sleep(self.park_seq)))
            }
        }
    }

    /// `p.wait()`: the exit code of child `p`, if it is known.
    pub fn do_proc_wait(&mut self, p: usize) -> (r: Step)
        requires old(self).running(),
        ensures proc_wait_result(*old(self), *final(self), p, r),
    {
        let code = if p < self.heap.procs.len() { self.heap.procs[p].code } else { None };
        match code {
            Some(c) => {
                self.push(Value::Int(c));
                Step::Next
            }
            None => Step::Host(Box::new((HostCall::ProcCode(p), ReturnAction::Normal))),
        }
    }

    fn know_code(&mut self, p: usize, code: i64)
        ensures
            code_known(old(self).heap, final(self).heap, p, code),
            *final(self) == (Vm { heap: final(self).heap, ..*old(self) }),
    {
        if p < self.heap.procs.len() {
            self.heap.procs[p].code = Some(code);
        }
    }

    /// Go on with `p.wait()` once the host has looked for the exit code.
    pub fn settle_proc_wait(&mut self, p: usize, code: Option<i64>) -> (r: Step)
        requires old(self).running(),
        ensures settle_proc_result(*old(self), *final(self), p, code, r),
    {
        match code {
            Some(c) => {
                self.know_code(p, c);
                self.push(Value::Int(c));
                Step::Next
            }
            None => {
                let id = self.task.id;
                self.reactor.proc_wait(id);
                Step::Park(Box::new(Park::ProcWait(p)))
            }
        }
    }

    /// The child task `id` waits for, if it waits for one.
    pub fn waits_for_proc(&self, id: TaskId) -> (r: Option<usize>)
        ensures
            match park_of(*self, id) {
                Some(Park::ProcWait(p)) => r == Some(p),
                _ => r is None,
            },
    {
        match self.find_parked(id) {
            Some(k) => match &self.parked[k].park {
                Park::ProcWait(p) => Some(*p),
                _ => None,
            },
            None => None,
        }
    }

    /// Hand task `id` the exit code of the child it waits for.
    pub fn retry_proc(&mut self, id: TaskId, code: i64)
        ensures retry_proc_result(*old(self), *final(self), id, code),
    {
        if let Some(p) = self.waits_for_proc(id) {
            self.reactor.proc_unwait(id);
            self.know_code(p, code);
            let ghost m = *self;
            assert(unwaited(*old(self), m, id));
            self.wake_with_value(id, Value::Int(code));
        }
    }

    fn fire_one(&mut self)
        requires old(self).reactor.timers@.len() > 0,
        ensures
            fired_one(*old(self), *final(self)),
            final(self).reactor.timers@.len() == old(self).reactor.timers@.len() - 1,
    {
        let ghost a = *self;
        let t = self.reactor.timers.remove(0);
        let ghost m = *self;
        assert(timer_off(a, m));
        let k = match self.find_parked(t.task) {
            Some(k) => k,
            None => {
                return;
            }
        };
        let token = match &self.parked[k].park {
            Park::Sleep(seq) => {
                if *seq != t.seq {
                    return;
                }
                None
            }
            Park::Io(w) => {
                if w.seq != t.seq {
                    return;
                }
                Some(w.token)
            }
            _ => {
                return;
            }
        };
        match token {
            None => self.wake_with_value(t.task, Value::Null),
            Some(token) => {
                self.reactor.disarm(token, t.task);
                let ghost n = *self;
                assert(disarmed(m, n, token, t.task));
                let e = fault(Exc::TimeoutError, "timed out");
                self.wake_failing(t.task, &e);
            }
        }
    }

    /// Wake everybody whose deadline has come by `now`.
    pub fn fire_timers(&mut self, now: u64)
        ensures
            exists|n: nat| #[trigger] fired(*old(self), *final(self), now, n),
            !timer_due(*final(self), now),
    {
        let ghost a = *self;
        let ghost mut n: nat = 0;
        assert(fired(a, *self, now, 0));
        while self.reactor.timers.len() > 0 && self.reactor.timers[0].at <= now
            invariant
                a == *old(self),
                fired(a, *self, now, n),
            decreases self.reactor.timers.len(),
        {
            let ghost m = *self;
            self.fire_one();
            proof {
                let k: nat = n + 1;
                assert(fired(a, m, now, (k - 1) as nat));
                assert(fired(a, *self, now, k));
                n = k;
            }
        }
    }

    /// The reactor failed: everybody who waits for it raises what `e` becomes.
    pub fn fail_all_io(&mut self, e: &VErr)
        ensures fail_all_result(*old(self), *final(self), e@),
    {
        let ghost a = *self;
        let mut ids: Vec<TaskId> = Vec::new();
        let mut i: usize = 0;
        assert(self.parked@.take(0) =~= Seq::empty());
        while i < self.parked.len()
            invariant
                *self == a,
                i <= self.parked.len(),
                ids@ == outside_waiters(self.parked@.take(i as int)),
            decreases self.parked.len() - i,
        {
            assert(self.parked@.take(i + 1).drop_last() =~= self.parked@.take(i as int));
            assert(self.parked@.take(i + 1).last() == self.parked@[i as int]);
            let waits = match &self.parked[i].park {
                Park::Io(_) => true,
                Park::Dns { id: _, addr: _ } => true,
                Park::Pipe(_) => true,
                Park::ProcWait(_) => true,
                _ => false,
            };
            if waits {
                ids.push(self.parked[i].task.id);
            }
            i += 1;
        }
        assert(self.parked@.take(i as int) =~= self.parked@);
        let ghost ws = failing(ids@, e@);
        let mut j: usize = 0;
        assert(ws.take(0) =~= Seq::empty());
        while j < ids.len()
            invariant
                j <= ids.len(),
                ws == failing(ids@, e@),
                all_woken(a, *self, ws.take(j as int)),
            decreases ids.len() - j,
        {
            let ghost m = *self;
            self.wake_failing(ids[j], e);
            proof {
                lemma_woken_push(a, m, *self, ws.take(j as int), Wake::Failing(ids@[j as int], e@.0, e@.1));
                assert(ws.take(j + 1) =~= ws.take(j as int).push(Wake::Failing(ids@[j as int], e@.0, e@.1)));
            }
            j += 1;
        }
        assert(ws.take(j as int) =~= ws);
        proof { lemma_all_woken_reactor(a, *self, ws); }
        let ghost m = *self;
        self.reactor.waiters.clear();
        self.reactor.lookups.clear();
        self.reactor.pipe_waiters.clear();
        self.reactor.proc_waiters.clear();
    }
}

proof fn lemma_fired_one(a: Vm, b: Vm)
    requires fired_one(a, b),
    ensures b.reactor.timers@ == a.reactor.timers@.remove(0),
{
    let t = a.reactor.timers@[0];
    let m = choose|m: Vm| {
        &&& #[trigger] timer_off(a, m)
        &&& match park_of(a, t.task) {
            Some(Park::Sleep(seq)) => if seq == t.seq { woken_with(m, b, t.task, Value::Null) } else { b == m },
            Some(Park::Io(w)) => if w.seq == t.seq {
                exists|n: Vm| #[trigger] disarmed(m, n, w.token, t.task) && woken_failing(n, b, t.task, Exc::TimeoutError, "timed out"@)
            } else {
                b == m
            },
            _ => b == m,
        }
    };
    assert(m.reactor.timers@ == a.reactor.timers@.remove(0));
    assert(b.reactor.timers == m.reactor.timers);
}

/// Exactly the deadlines that have come fire: none early, and once no more is
/// due, none is left that has come.
pub proof fn nothing_fires_early(a: Vm, b: Vm, now: u64, n: nat)
    requires fired(a, b, now, n),
    ensures
        n <= a.reactor.timers@.len(),
        b.reactor.timers@ == a.reactor.timers@.skip(n as int),
        forall|i: int| 0 <= i < n ==> (#[trigger] a.reactor.timers@[i]).at <= now,
        in_order(a.reactor.timers@) && !timer_due(b, now) ==>
            forall|i: int| n <= i < a.reactor.timers@.len() ==> (#[trigger] a.reactor.timers@[i]).at > now,
    decreases n,
{
    let ts = a.reactor.timers@;
    if n == 0 {
        assert(ts.skip(0) =~= ts);
    } else {
        let m = choose|m: Vm| fired(a, m, now, (n - 1) as nat) && timer_due(m, now) && #[trigger] fired_one(m, b);
        nothing_fires_early(a, m, now, (n - 1) as nat);
        lemma_fired_one(m, b);
        assert(ts.skip(n - 1).remove(0) =~= ts.skip(n as int));
        assert(m.reactor.timers@[0] == ts[n - 1]);
    }
    if in_order(ts) && !timer_due(b, now) {
        assert forall|i: int| n <= i < ts.len() implies (#[trigger] ts[i]).at > now by {
            assert(b.reactor.timers@[0] == ts[n as int]);
            assert(ts[n as int].at <= ts[i].at);
        }
    }
}

/// An answer for which nobody waits any more reaches nobody.
pub proof fn late_answers_reach_nobody(a: Vm, b: Vm, id: u64, answer: Result<Vec<String>, VErr>, r: Option<(TaskId, Dialing)>)
    requires
        lookup_result(a, b, id, answer, r),
        forall|task: TaskId| !(#[trigger] park_of(a, task) matches Some(Park::Dns { id: i, .. }) && i == id),
    ensures
        r is None,
        b == (Vm { reactor: b.reactor, ..a }),
{
}

/// A deadline that an earlier wait left behind wakes nobody.
pub proof fn stale_deadlines_reach_nobody(a: Vm, b: Vm)
    requires
        fired_one(a, b),
        match park_of(a, a.reactor.timers@[0].task) {
            Some(Park::Sleep(seq)) => seq != a.reactor.timers@[0].seq,
            Some(Park::Io(w)) => w.seq != a.reactor.timers@[0].seq,
            _ => true,
        },
    ensures b == (Vm { reactor: b.reactor, ..a }),
{
}

} // verus!
