//! Channels.
use vstd::prelude::*;
use crate::exceptions::exceptions_grew;
use crate::frame::Frame;
use crate::machine::{only_top, restacked, Step, Vm};
use crate::sched::Park;
use crate::value::{Channel, Heap, TaskId, Value};
use crate::wake::{all_woken, is_channel_closed, lemma_woken_push, parked_at, woken_with, Wake};

verus! {

/// A channel as its users see it.
pub ghost struct ChanView {
    pub cap: nat,
    pub buf: Seq<Value>,
    pub closed: bool,
    pub recv: Seq<TaskId>,
    pub send: Seq<(TaskId, Value)>,
    pub index: i64,
}

impl View for Channel {
    type V = ChanView;

    open spec fn view(&self) -> ChanView {
        ChanView {
            cap: self.cap as nat,
            buf: self.buf@,
            closed: self.closed,
            recv: self.recv_waiters@,
            send: self.send_waiters@,
            index: self.iter_index,
        }
    }
}

impl ChanView {
    /// Everything sent and not received yet, oldest first: what is buffered,
    /// and then what blocked senders offer.
    pub open spec fn queue(self) -> Seq<Value> {
        self.buf + self.send.map_values(|e: (TaskId, Value)| e.1)
    }

    /// Senders wait only at a full buffer, and receivers only where there is
    /// nothing to take.
    pub open spec fn wf(self) -> bool {
        &&& self.buf.len() <= self.cap
        &&& self.send.len() > 0 ==> self.buf.len() == self.cap
        &&& self.recv.len() > 0 ==> self.buf.len() == 0 && self.send.len() == 0
        &&& self.closed ==> self.recv.len() == 0 && self.send.len() == 0
    }

    /// The channel with `v` buffered.
    pub open spec fn buffering(self, v: Value) -> ChanView {
        ChanView { buf: self.buf.push(v), ..self }
    }

    /// The channel with task `id` waiting to send `v`.
    pub open spec fn offering(self, id: TaskId, v: Value) -> ChanView {
        ChanView { send: self.send.push((id, v)), ..self }
    }

    /// The channel closed, with nobody waiting.
    pub open spec fn shut(self) -> ChanView {
        ChanView { closed: true, recv: Seq::empty(), send: Seq::empty(), ..self }
    }

    /// The counter after one more element of a `for`.
    pub open spec fn counted(self) -> i64 {
        if self.index < i64::MAX { (self.index + 1) as i64 } else { self.index }
    }
}

impl Heap {
    /// The channel `id`. One that was never made is closed and empty.
    pub open spec fn chan(&self, id: usize) -> ChanView {
        if id < self.chans@.len() {
            self.chans@[id as int]@
        } else {
            ChanView { cap: 0, buf: Seq::empty(), closed: true, recv: Seq::empty(), send: Seq::empty(), index: 0 }
        }
    }

    /// Whether channel `id` is closed.
    pub fn chan_closed(&self, id: usize) -> (r: bool)
        ensures r == self.chan(id).closed,
    {
        if id < self.chans.len() { self.chans[id].closed } else { true }
    }
}

/// Between `a` and `b` at most channel `id` changed, and it is `c` now.
pub open spec fn chan_is(a: Heap, b: Heap, id: usize, c: ChanView) -> bool {
    &&& b == (Heap { chans: b.chans, tuples: b.tuples, ..a })
    &&& a.tuples@.is_prefix_of(b.tuples@)
    &&& b.chans@.len() == a.chans@.len()
    &&& forall|k: int| 0 <= k < a.chans@.len() && k != id ==> b.chans@[k] == a.chans@[k]
    &&& b.chan(id) == c
}

/// What a waiting receiver is handed: the value, or for a `for` that wants
/// indices the pair of the channel's counter and the value.
pub open spec fn delivered(a: Vm, b: Vm, ch: usize, rid: TaskId, v: Value, w: Value) -> bool {
    if wants_pair(a, rid) {
        w matches Value::Tuple(t) && t < b.heap.tuples@.len()
            && b.heap.tuple(t) == seq![Value::Int(a.heap.chan(ch).index), v]
    } else {
        w == v
    }
}

/// Whether task `id` waits in a `for` that wants an index with each element.
pub open spec fn wants_pair(a: Vm, id: TaskId) -> bool {
    match parked_at(a.parked@, id) {
        Some(k) => a.parked@[k].park matches Park::IterRecv { paired, .. } && paired,
        None => false,
    }
}

/// What `send` does.
pub open spec fn send_result(a: Vm, b: Vm, ch: usize, v: Value, r: Step) -> bool {
    let c = a.heap.chan(ch);
    if c.closed {
        &&& r matches Step::Raise(exc) && is_channel_closed(b.heap, a.excs@, exc)
        &&& b == (Vm { heap: b.heap, ..a })
        &&& exceptions_grew(a.heap, b.heap)
    } else if c.recv.len() > 0 {
        // A receiver is there: it is handed the value, and nobody waits.
        let rid = c.recv[0];
        let index = if wants_pair(a, rid) { c.counted() } else { c.index };
        &&& r is Next
        &&& exists|m: Vm, n: Vm, w: Value| {
            &&& m == (Vm { heap: m.heap, ..a })
            &&& chan_is(a.heap, m.heap, ch, ChanView { recv: c.recv.skip(1), index, ..c })
            &&& delivered(a, m, ch, rid, v, w)
            &&& #[trigger] woken_with(m, n, rid, w)
            &&& #[trigger] restacked(n, b, a.stack().push(Value::Null))
            &&& b.heap == m.heap
        }
    } else if c.buf.len() < c.cap {
        &&& r is Next
        &&& restacked(a, b, a.stack().push(Value::Null))
        &&& chan_is(a.heap, b.heap, ch, c.buffering(v))
    } else {
        &&& r matches Step::Park(p) && *p == Park::Send(ch)
        &&& b == (Vm { heap: b.heap, ..a })
        &&& chan_is(a.heap, b.heap, ch, c.offering(a.task.id, v))
    }
}

/// The channel after the oldest value was taken.
pub open spec fn after_take(c: ChanView) -> ChanView {
    if c.buf.len() > 0 {
        if c.send.len() > 0 {
            ChanView { buf: c.buf.skip(1).push(c.send[0].1), send: c.send.skip(1), ..c }
        } else {
            ChanView { buf: c.buf.skip(1), ..c }
        }
    } else {
        ChanView { send: c.send.skip(1), ..c }
    }
}

/// What taking from a channel does: the oldest value leaves, and the oldest
/// blocked sender goes on.
pub open spec fn take_result(a: Vm, b: Vm, ch: usize, r: Option<Value>) -> bool {
    let c = a.heap.chan(ch);
    if c.queue().len() == 0 {
        r is None && b == a
    } else {
        &&& r == Some(c.queue()[0])
        &&& exists|m: Vm| {
            &&& m == (Vm { heap: m.heap, ..a })
            &&& #[trigger] chan_is(a.heap, m.heap, ch, after_take(c))
            &&& m.heap.tuples == a.heap.tuples
            &&& if c.send.len() > 0 { woken_with(m, b, c.send[0].0, Value::Null) } else { b == m }
        }
    }
}

/// Values come out in the order they went in, and nothing is lost: taking gives
/// the head of the queue and leaves the rest.
pub proof fn channel_is_fifo(c: ChanView)
    requires c.wf(), c.queue().len() > 0,
    ensures
        after_take(c).queue() == c.queue().skip(1),
        after_take(c).wf(),
{
    let q = c.queue();
    let s = c.send.map_values(|e: (TaskId, Value)| e.1);
    if c.buf.len() > 0 {
        if c.send.len() > 0 {
            assert(c.send.skip(1).map_values(|e: (TaskId, Value)| e.1) =~= s.skip(1));
            assert(after_take(c).queue() =~= q.skip(1));
        } else {
            assert(after_take(c).queue() =~= q.skip(1));
        }
    } else {
        assert(c.send.skip(1).map_values(|e: (TaskId, Value)| e.1) =~= s.skip(1));
        assert(after_take(c).queue() =~= q.skip(1));
    }
}

/// A value that no receiver waits for goes to the end of the queue, buffered or
/// held by its sender.
pub proof fn channel_send_queues(c: ChanView, id: TaskId, v: Value)
    requires c.wf(), !c.closed, c.recv.len() == 0,
    ensures
        c.buf.len() < c.cap ==> c.buffering(v).queue() == c.queue().push(v) && c.buffering(v).wf(),
        c.buf.len() >= c.cap ==> c.offering(id, v).queue() == c.queue().push(v) && c.offering(id, v).wf(),
{
    let f = |e: (TaskId, Value)| e.1;
    if c.buf.len() < c.cap {
        assert(c.send.len() == 0);
        assert(c.buffering(v).queue() =~= c.queue().push(v));
    } else {
        assert(c.send.push((id, v)).map_values(f) =~= c.send.map_values(f).push(v));
        assert(c.offering(id, v).queue() =~= c.queue().push(v));
    }
}

/// What `recv` does.
pub open spec fn recv_result(a: Vm, b: Vm, ch: usize, r: Step) -> bool {
    let c = a.heap.chan(ch);
    if c.queue().len() > 0 {
        &&& r is Next
        &&& exists|m: Vm| #[trigger] take_result(a, m, ch, Some(c.queue()[0]))
            && restacked(m, b, a.stack().push(c.queue()[0])) && b.heap == m.heap
    } else if c.closed {
        &&& r matches Step::Raise(exc) && is_channel_closed(b.heap, a.excs@, exc)
        &&& b == (Vm { heap: b.heap, ..a })
        &&& exceptions_grew(a.heap, b.heap)
    } else {
        &&& r matches Step::Park(p) && *p == Park::Recv(ch)
        &&& b == (Vm { heap: b.heap, ..a })
        &&& chan_is(a.heap, b.heap, ch, ChanView { recv: c.recv.push(a.task.id), ..c })
    }
}

/// What one turn of a `for` over a channel does: as `recv`, but a channel that
/// is closed and drained ends the loop.
pub open spec fn iter_result(a: Vm, b: Vm, ch: usize, target: usize, paired: bool, r: Step) -> bool {
    let c = a.heap.chan(ch);
    if c.queue().len() > 0 {
        &&& r is Next
        &&& exists|m: Vm| {
            &&& #[trigger] take_result(a, m, ch, Some(c.queue()[0]))
            &&& only_top(m, b)
            &&& b.top() == (Frame { stack: b.top().stack, ..a.top() })
            &&& b.stack().len() == a.stack().len() + 1
            &&& b.stack().drop_last() == a.stack()
            &&& if paired {
                &&& b.stack().last() matches Value::Tuple(t) && t < b.heap.tuples@.len()
                    && b.heap.tuple(t) == seq![Value::Int(c.index), c.queue()[0]]
                &&& chan_is(m.heap, b.heap, ch, ChanView { index: c.counted(), ..after_take(c) })
            } else {
                b.stack().last() == c.queue()[0] && b.heap == m.heap
            }
        }
    } else if c.closed {
        &&& r is Next
        &&& only_top(a, b)
        &&& b.heap == a.heap
        &&& b.top() == (Frame { stack: b.top().stack, pc: target, ..a.top() })
        &&& b.stack() == a.stack().drop_last()
    } else {
        &&& r matches Step::Park(p) && *p == (Park::IterRecv { chan: ch, target, paired })
        &&& b == (Vm { heap: b.heap, ..a })
        &&& chan_is(a.heap, b.heap, ch, ChanView { recv: c.recv.push(a.task.id), ..c })
    }
}

/// Who is woken when a channel closes: the receivers, then the senders.
pub open spec fn close_wakes(c: ChanView) -> Seq<Wake> {
    c.recv.map_values(|id: TaskId| Wake::Closed(id)) + c.send.map_values(|e: (TaskId, Value)| Wake::Closed(e.0))
}

/// What `close` does: a second one does nothing, and what is buffered stays.
pub open spec fn close_result(a: Vm, b: Vm, ch: usize, r: Step) -> bool {
    let c = a.heap.chan(ch);
    &&& r is Next
    &&& if c.closed {
        restacked(a, b, a.stack().push(Value::Null)) && b.heap == a.heap
    } else {
        exists|m: Vm, n: Vm| {
            &&& m == (Vm { heap: m.heap, ..a })
            &&& chan_is(a.heap, m.heap, ch, c.shut())
            &&& #[trigger] all_woken(m, n, close_wakes(c))
            &&& #[trigger] restacked(n, b, a.stack().push(Value::Null))
            &&& b.heap == n.heap
        }
    }
}

/// Closing keeps what was buffered, in order.
pub proof fn closing_keeps_the_buffer(c: ChanView)
    ensures
        c.shut().queue() == c.buf,
        c.wf() ==> c.shut().wf(),
{
    assert(c.shut().queue() =~= c.buf);
}

/// Every channel is in order.
pub open spec fn channels_wf(h: Heap) -> bool {
    forall|id: usize| #[trigger] h.chan(id).wf()
}

proof fn lemma_chan_is(a: Heap, b: Heap, ch: usize, c: ChanView)
    requires channels_wf(a), chan_is(a, b, ch, c), c.wf(),
    ensures channels_wf(b),
{
    assert forall|id: usize| #[trigger] b.chan(id).wf() by {
        if id != ch {
            assert(a.chan(id).wf());
            assert(b.chan(id) == a.chan(id));
        }
    }
}

proof fn lemma_wakes_keep_channels(a: Vm, b: Vm, ws: Seq<Wake>)
    requires all_woken(a, b, ws),
    ensures b.heap.chans == a.heap.chans,
    decreases ws.len(),
{
    if ws.len() > 0 {
        let m = choose|m: Vm| all_woken(a, m, ws.drop_last()) && #[trigger] crate::wake::woken(m, b, ws.last());
        lemma_wakes_keep_channels(a, m, ws.drop_last());
    }
}

/// Sending, receiving and closing keep every channel in order.
pub proof fn channels_stay_in_order(a: Vm, b: Vm, ch: usize, v: Value, target: usize, paired: bool, r: Step)
    requires
        channels_wf(a.heap),
        send_result(a, b, ch, v, r) || recv_result(a, b, ch, r) || iter_result(a, b, ch, target, paired, r) || close_result(a, b, ch, r),
    ensures channels_wf(b.heap),
{
    let c = a.heap.chan(ch);
    assert(c.wf());
    assert forall|g: Heap, h: Heap, d: ChanView| #[trigger] chan_is(g, h, ch, d) && channels_wf(g) && d.wf() implies channels_wf(h) by {
        lemma_chan_is(g, h, ch, d);
    }
    assert forall|h: Heap| #[trigger] h.chans == a.heap.chans implies channels_wf(h) by {
        assert forall|id: usize| #[trigger] h.chan(id).wf() by {
            assert(a.heap.chan(id).wf());
        }
    }
    if c.queue().len() > 0 {
        channel_is_fifo(c);
    }
    if !c.closed && c.recv.len() == 0 {
        channel_send_queues(c, a.task.id, v);
    }
    if close_result(a, b, ch, r) {
        closing_keeps_the_buffer(c);
        assert forall|m: Vm, n: Vm, ws: Seq<Wake>| #[trigger] all_woken(m, n, ws) && channels_wf(m.heap) implies channels_wf(n.heap) by {
            lemma_wakes_keep_channels(m, n, ws);
            assert forall|id: usize| #[trigger] n.heap.chan(id).wf() by {
                assert(m.heap.chan(id).wf());
            }
        }
    }
}

/// What is sent while nobody waits for it is the last to come out: the queue
/// grows by it at the end.
pub proof fn sending_queues(a: Vm, b: Vm, ch: usize, v: Value, r: Step)
    requires
        a.heap.chan(ch).wf(),
        !a.heap.chan(ch).closed,
        a.heap.chan(ch).recv.len() == 0,
        send_result(a, b, ch, v, r),
    ensures b.heap.chan(ch).queue() == a.heap.chan(ch).queue().push(v),
{
    channel_send_queues(a.heap.chan(ch), a.task.id, v);
}

/// What is received is the oldest value of the queue, which then begins with the
/// next.
pub proof fn receiving_takes_the_oldest(a: Vm, b: Vm, ch: usize, r: Step)
    requires
        a.heap.chan(ch).wf(),
        a.heap.chan(ch).queue().len() > 0,
        recv_result(a, b, ch, r),
    ensures
        r is Next,
        b.stack() == a.stack().push(a.heap.chan(ch).queue()[0]),
        b.heap.chan(ch).queue() == a.heap.chan(ch).queue().skip(1),
{
    channel_is_fifo(a.heap.chan(ch));
}

impl Vm {
    /// Whether task `id` waits in a `for` that wants an index with each element.
    fn pair_wanted(&self, id: TaskId) -> (r: bool)
        ensures r == wants_pair(*self, id),
    {
        match self.find_parked(id) {
            Some(k) => match &self.parked[k].park {
                Park::IterRecv { chan: _, target: _, paired } => *paired,
                _ => false,
            },
            None => false,
        }
    }

    /// `ch.send(v)`: a waiting receiver is handed the value; else it is
    /// buffered; else the sender waits with it.
    pub fn chan_send(&mut self, ch: usize, v: Value) -> (r: Step)
        requires old(self).running(),
        ensures send_result(*old(self), *final(self), ch, v, r),
    {
        let ghost a = *self;
        let ghost c = self.heap.chan(ch);
        if self.heap.chan_closed(ch) {
            let exc = self.channel_closed_exc();
            return Step::Raise(exc);
        }
        if self.heap.chans[ch].recv_waiters.len() > 0 {
            let rid = self.heap.chans[ch].recv_waiters.remove(0);
            assert(self.heap.chans@[ch as int].recv_waiters@ =~= c.recv.skip(1));
            let w = if self.pair_wanted(rid) {
                let n = self.heap.chans[ch].iter_index;
                self.heap.chans[ch].iter_index = if n < i64::MAX { n + 1 } else { n };
                let mut p: Vec<Value> = Vec::new();
                p.push(Value::Int(n));
                p.push(v);
                assert(p@ =~= seq![Value::Int(n), v]);
                self.heap.alloc_tuple(p)
            } else {
                v
            };
            let ghost m = *self;
            proof {
                assert(m.heap.chan(ch) == (ChanView {
                    recv: c.recv.skip(1),
                    index: if wants_pair(a, rid) { c.counted() } else { c.index },
                    ..c
                }));
                assert(delivered(a, m, ch, rid, v, w));
            }
            self.wake_with_value(rid, w);
            let ghost n = *self;
            self.push(Value::Null);
            proof {
                assert(woken_with(m, n, rid, w));
                assert(n.task == a.task);
                assert(restacked(n, *self, a.stack().push(Value::Null)));
                assert(m == (Vm { heap: m.heap, ..a }));
                assert(chan_is(a.heap, m.heap, ch, m.heap.chan(ch)));
                assert(self.heap == m.heap);
            }
            return Step::Next;
        }
        if (self.heap.chans[ch].buf.len() as u64) < self.heap.chans[ch].cap {
            self.heap.chans[ch].buf.push(v);
            let ghost m = *self;
            self.push(Value::Null);
            return Step::Next;
        }
        let id = self.task.id;
        self.heap.chans[ch].send_waiters.push((id, v));
        Step::Park(Box::new(Park::Send(ch)))
    }

    /// The value that can be taken from a channel now, with what goes with
    /// taking it. `None` says it would block.
    pub fn chan_take(&mut self, ch: usize) -> (r: Option<Value>)
        ensures take_result(*old(self), *final(self), ch, r),
    {
        let ghost a = *self;
        let ghost c = self.heap.chan(ch);
        proof {
            assert(c.send.map_values(|e: (TaskId, Value)| e.1).len() == c.send.len());
        }
        if ch >= self.heap.chans.len() {
            return None;
        }
        if self.heap.chans[ch].buf.len() > 0 {
            let v = self.heap.chans[ch].buf.remove(0);
            assert(self.heap.chans@[ch as int].buf@ =~= c.buf.skip(1));
            if self.heap.chans[ch].send_waiters.len() > 0 {
                let (sid, sv) = self.heap.chans[ch].send_waiters.remove(0);
                assert(self.heap.chans@[ch as int].send_waiters@ =~= c.send.skip(1));
                self.heap.chans[ch].buf.push(sv);
                let ghost m = *self;
                proof {
                    assert(m.heap.chan(ch) == after_take(c));
                    assert(chan_is(a.heap, m.heap, ch, after_take(c)));
                }
                self.wake_with_value(sid, Value::Null);
            } else {
                assert(chan_is(a.heap, self.heap, ch, after_take(c)));
            }
            return Some(v);
        }
        if self.heap.chans[ch].send_waiters.len() > 0 {
            let (sid, sv) = self.heap.chans[ch].send_waiters.remove(0);
            assert(self.heap.chans@[ch as int].send_waiters@ =~= c.send.skip(1));
            let ghost m = *self;
            proof {
                assert(c.queue()[0] == c.send[0].1);
                assert(m.heap.chan(ch) == after_take(c));
                assert(chan_is(a.heap, m.heap, ch, after_take(c)));
            }
            self.wake_with_value(sid, Value::Null);
            return Some(sv);
        }
        None
    }

    /// `ch.recv()`: a closed channel hands out what it holds, and then raises.
    pub fn chan_recv(&mut self, ch: usize) -> (r: Step)
        requires old(self).running(),
        ensures recv_result(*old(self), *final(self), ch, r),
    {
        let ghost a = *self;
        match self.chan_take(ch) {
            Some(v) => {
                let ghost m = *self;
                self.push(v);
                assert(take_result(a, m, ch, Some(a.heap.chan(ch).queue()[0])));
                Step::Next
            }
            None => {
                if self.heap.chan_closed(ch) {
                    let exc = self.channel_closed_exc();
                    return Step::Raise(exc);
                }
                let id = self.task.id;
                self.heap.chans[ch].recv_waiters.push(id);
                Step::Park(Box::new(Park::Recv(ch)))
            }
        }
    }

    /// One turn of a `for` over a channel, which stands on the stack.
    pub fn chan_iter_next(&mut self, ch: usize, target: usize, paired: bool) -> (r: Step)
        requires old(self).has(1),
        ensures iter_result(*old(self), *final(self), ch, target, paired, r),
    {
        let ghost a = *self;
        let ghost c = self.heap.chan(ch);
        match self.chan_take(ch) {
            Some(v) => {
                let ghost m = *self;
                assert(take_result(a, m, ch, Some(c.queue()[0])));
                if paired {
                    proof {
                        assert(ch < a.heap.chans@.len());
                    }
                    let n = self.heap.chans[ch].iter_index;
                    self.heap.chans[ch].iter_index = if n < i64::MAX { n + 1 } else { n };
                    let mut p: Vec<Value> = Vec::new();
                    p.push(Value::Int(n));
                    p.push(v);
                    assert(p@ =~= seq![Value::Int(n), v]);
                    let t = self.heap.alloc_tuple(p);
                    self.push(t);
                    assert(self.stack().drop_last() =~= a.stack());
                } else {
                    self.push(v);
                    assert(self.stack().drop_last() =~= a.stack());
                }
                Step::Next
            }
            None => {
                if self.heap.chan_closed(ch) {
                    let _c = self.pop();
                    self.jump(target);
                    return Step::Next;
                }
                let id = self.task.id;
                self.heap.chans[ch].recv_waiters.push(id);
                Step::Park(Box::new(Park::IterRecv { chan: ch, target, paired }))
            }
        }
    }

    /// `ch.close()`.
    pub fn chan_close(&mut self, ch: usize) -> (r: Step)
        requires old(self).running(),
        ensures close_result(*old(self), *final(self), ch, r),
    {
        let ghost a = *self;
        let ghost c = self.heap.chan(ch);
        if !self.heap.chan_closed(ch) {
            self.heap.chans[ch].closed = true;
            let mut receivers: Vec<TaskId> = Vec::new();
            let mut senders: Vec<(TaskId, Value)> = Vec::new();
            std::mem::swap(&mut self.heap.chans[ch].recv_waiters, &mut receivers);
            std::mem::swap(&mut self.heap.chans[ch].send_waiters, &mut senders);
            let ghost m = *self;
            let ghost ws = close_wakes(c);
            let mut i: usize = 0;
            assert(ws.take(0) =~= Seq::empty());
            while i < receivers.len()
                invariant
                    i <= receivers.len(),
                    receivers@ == c.recv,
                    ws == close_wakes(c),
                    all_woken(m, *self, ws.take(i as int)),
                    self.task == a.task,
                    m.task == a.task,
                decreases receivers.len() - i,
            {
                let ghost before = *self;
                self.wake_channel_closed(receivers[i]);
                proof {
                    lemma_woken_push(m, before, *self, ws.take(i as int), Wake::Closed(receivers@[i as int]));
                    assert(ws.take(i + 1) =~= ws.take(i as int).push(Wake::Closed(receivers@[i as int])));
                }
                i += 1;
            }
            let mut j: usize = 0;
            while j < senders.len()
                invariant
                    j <= senders.len(),
                    senders@ == c.send,
                    ws == close_wakes(c),
                    all_woken(m, *self, ws.take(c.recv.len() + j)),
                    self.task == a.task,
                    m.task == a.task,
                decreases senders.len() - j,
            {
                let ghost before = *self;
                self.wake_channel_closed(senders[j].0);
                proof {
                    let k = c.recv.len() + j;
                    lemma_woken_push(m, before, *self, ws.take(k), Wake::Closed(senders@[j as int].0));
                    assert(ws.take(k + 1) =~= ws.take(k).push(Wake::Closed(senders@[j as int].0)));
                }
                j += 1;
            }
            let ghost n = *self;
            assert(ws.take(c.recv.len() + j) =~= ws);
            self.push(Value::Null);
            proof {
                assert(all_woken(m, n, close_wakes(c)));
                assert(restacked(n, *self, a.stack().push(Value::Null)));
                assert(m == (Vm { heap: m.heap, ..a }));
                assert(m.heap.chan(ch) == c.shut());
                assert(chan_is(a.heap, m.heap, ch, c.shut()));
            }
            return Step::Next;
        }
        self.push(Value::Null);
        Step::Next
    }
}

} // verus!
