//! Who waits for what outside the machine: descriptors, deadlines, lookups,
//! children. The waiting itself is the host's.
use vstd::prelude::*;
use crate::exc::{runtime_error, Exc, VErr};
use crate::sched::Interest;
use crate::text::{join3, join5, nat_text, render_u64};
use crate::value::TaskId;

verus! {

/// Who waits on a descriptor: at most one task in each direction.
#[derive(Clone, Copy, Debug, PartialEq, Eq, Structural)]
pub struct Waiters {
    pub token: usize,
    pub read: Option<TaskId>,
    pub write: Option<TaskId>,
}

/// A deadline of one park of a task.
#[derive(Clone, Copy, Debug, PartialEq, Eq, Structural)]
pub struct Timer {
    /// Milliseconds on the host's clock.
    pub at: u64,
    pub task: TaskId,
    pub seq: u64,
}

/// Everything outside the machine that can make a task runnable.
#[derive(Debug)]
pub struct Reactor {
    /// The last token handed out; none is ever reused.
    pub next_token: usize,
    pub waiters: Vec<Waiters>,
    /// Deadlines, soonest first.
    pub timers: Vec<Timer>,
    /// Name lookups in flight and who waits for each.
    pub lookups: Vec<(u64, TaskId)>,
    pub next_lookup: u64,
    /// Tasks that wait on a child's pipe.
    pub pipe_waiters: Vec<TaskId>,
    /// Tasks that wait for a child to exit.
    pub proc_waiters: Vec<TaskId>,
}

/// The most threads that ever look names up.
pub const MAX_DNS_THREADS: usize = 8;

/// The place of `token` among these.
pub open spec fn place(ws: Seq<Waiters>, token: usize) -> Option<int>
    decreases ws.len(),
{
    if ws.len() == 0 {
        None
    } else if ws.last().token == token {
        Some(ws.len() - 1)
    } else {
        place(ws.drop_last(), token)
    }
}

pub proof fn lemma_place(ws: Seq<Waiters>, token: usize)
    ensures
        match place(ws, token) {
            Some(k) => 0 <= k < ws.len() && ws[k].token == token && forall|j: int| k < j < ws.len() ==> (#[trigger] ws[j]).token != token,
            None => forall|j: int| 0 <= j < ws.len() ==> (#[trigger] ws[j]).token != token,
        },
    decreases ws.len(),
{
    if ws.len() > 0 && ws.last().token != token {
        lemma_place(ws.drop_last(), token);
        let k = place(ws, token);
        assert forall|j: int| (if k is Some { k->0 } else { -1 }) < j < ws.len() implies (#[trigger] ws[j]).token != token by {
            if j < ws.len() - 1 {
                assert(ws.drop_last()[j] == ws[j]);
            }
        }
    }
}

/// No token has two entries.
pub open spec fn once(ws: Seq<Waiters>) -> bool {
    forall|i: int, j: int| 0 <= i < j < ws.len() ==> (#[trigger] ws[i]).token != (#[trigger] ws[j]).token
}

/// Who waits on this side.
pub open spec fn side(w: Waiters, i: Interest) -> Option<TaskId> {
    match i {
        Interest::Readable => w.read,
        Interest::Writable => w.write,
    }
}

/// Who waits on this side of the descriptor `token`.
pub open spec fn waiter(ws: Seq<Waiters>, token: usize, i: Interest) -> Option<TaskId> {
    match place(ws, token) {
        Some(k) => side(ws[k], i),
        None => None,
    }
}

/// `w` with `task` waiting on this side.
pub open spec fn with_side(w: Waiters, i: Interest, task: TaskId) -> Waiters {
    match i {
        Interest::Readable => Waiters { read: Some(task), ..w },
        Interest::Writable => Waiters { write: Some(task), ..w },
    }
}

/// These, with `task` waiting on this side of `token`.
pub open spec fn with_waiter(ws: Seq<Waiters>, token: usize, i: Interest, task: TaskId) -> Seq<Waiters> {
    match place(ws, token) {
        Some(k) => ws.update(k, with_side(ws[k], i, task)),
        None => ws.push(with_side(Waiters { token, read: None, write: None }, i, task)),
    }
}

/// `w` without `task`.
pub open spec fn without_task(w: Waiters, task: TaskId) -> Waiters {
    Waiters {
        read: if w.read == Some(task) { None } else { w.read },
        write: if w.write == Some(task) { None } else { w.write },
        ..w
    }
}

/// These, with `task` no longer waiting on `token`; an entry nobody is left in
/// goes.
pub open spec fn without_waiter(ws: Seq<Waiters>, token: usize, task: TaskId) -> Seq<Waiters> {
    match place(ws, token) {
        Some(k) => {
            let w = without_task(ws[k], task);
            if w.read is None && w.write is None { ws.remove(k) } else { ws.update(k, w) }
        },
        None => ws,
    }
}

/// Those who wait on `token`, the reader first.
pub open spec fn both_sides(w: Waiters) -> Seq<TaskId> {
    match (w.read, w.write) {
        (Some(r), Some(x)) => seq![r, x],
        (Some(r), None) => seq![r],
        (None, Some(x)) => seq![x],
        (None, None) => Seq::empty(),
    }
}

/// The word for a side in a message.
pub open spec fn side_name(i: Interest) -> Seq<char> {
    match i {
        Interest::Readable => "read"@,
        Interest::Writable => "write"@,
    }
}

/// The message for a second task on one side of a stream.
pub open spec fn conflict_text(i: Interest, kind: Seq<char>, other: TaskId) -> Seq<char> {
    "two tasks cannot "@ + side_name(i) + " the same "@ + kind + " at once (task "@ + nat_text(other as nat)
        + " is already waiting on it)"@
}

/// The token a stream is armed under: its own, or the next one.
pub open spec fn token_for(r: Reactor, known: Option<usize>) -> int {
    match known {
        Some(t) => t as int,
        None => r.next_token + 1,
    }
}

/// What arming a descriptor for `task` does.
pub open spec fn arm_result(a: Reactor, b: Reactor, known: Option<usize>, kind: Seq<char>, i: Interest, task: TaskId, r: Result<usize, VErr>) -> bool {
    let token = token_for(a, known) as usize;
    let next: usize = if known is None { token } else { a.next_token };
    let there = waiter(a.waiters@, token, i);
    if there is Some && there->0 != task {
        (r matches Err(e) && e@ == (Exc::RuntimeError, conflict_text(i, kind, there->0)))
            && b == (Reactor { next_token: next, ..a })
    } else {
        &&& r == Ok::<usize, VErr>(token)
        &&& b == (Reactor { next_token: next, waiters: b.waiters, ..a })
        &&& b.waiters@ == with_waiter(a.waiters@, token, i, task)
    }
}

/// How many of these deadlines come no later than `at`, from the first on.
pub open spec fn timer_place(ts: Seq<Timer>, at: u64) -> int
    decreases ts.len(),
{
    if ts.len() == 0 || ts[0].at > at {
        0
    } else {
        1 + timer_place(ts.skip(1), at)
    }
}

/// Soonest first.
pub open spec fn in_order(ts: Seq<Timer>) -> bool {
    forall|i: int, j: int| 0 <= i < j < ts.len() ==> (#[trigger] ts[i]).at <= (#[trigger] ts[j]).at
}

proof fn lemma_timer_place(ts: Seq<Timer>, at: u64)
    ensures
        0 <= timer_place(ts, at) <= ts.len(),
        forall|j: int| 0 <= j < timer_place(ts, at) ==> (#[trigger] ts[j]).at <= at,
        timer_place(ts, at) < ts.len() ==> ts[timer_place(ts, at)].at > at,
    decreases ts.len(),
{
    if ts.len() > 0 && ts[0].at <= at {
        let rest = ts.skip(1);
        lemma_timer_place(rest, at);
        assert forall|j: int| 0 <= j < timer_place(ts, at) implies (#[trigger] ts[j]).at <= at by {
            if j > 0 {
                assert(rest[j - 1] == ts[j]);
            }
        }
        if timer_place(ts, at) < ts.len() {
            assert(rest[timer_place(rest, at)] == ts[timer_place(ts, at)]);
        }
    }
}

/// A new deadline goes behind those that come no later, and the list stays in
/// order.
pub proof fn timers_stay_in_order(ts: Seq<Timer>, t: Timer)
    requires in_order(ts),
    ensures in_order(ts.insert(timer_place(ts, t.at), t)),
{
    lemma_timer_place(ts, t.at);
    let p = timer_place(ts, t.at);
    let out = ts.insert(p, t);
    assert forall|i: int, j: int| 0 <= i < j < out.len() implies (#[trigger] out[i]).at <= (#[trigger] out[j]).at by {
        let x = if i < p { ts[i] } else if i == p { t } else { ts[i - 1] };
        let y = if j < p { ts[j] } else if j == p { t } else { ts[j - 1] };
        assert(out[i] == x && out[j] == y);
        if i == p {
            assert(ts[p].at > t.at);
        }
    }
}

/// Arming puts a task on one side of one descriptor, and leaves every other
/// side of every other descriptor as it was.
pub proof fn arming_is_local(ws: Seq<Waiters>, token: usize, i: Interest, task: TaskId, other: usize, j: Interest)
    requires once(ws),
    ensures
        once(with_waiter(ws, token, i, task)),
        waiter(with_waiter(ws, token, i, task), token, i) == Some(task),
        (other != token || i != j) ==> waiter(with_waiter(ws, token, i, task), other, j) == waiter(ws, other, j),
{
    let out = with_waiter(ws, token, i, task);
    lemma_place(ws, token);
    lemma_place(ws, other);
    lemma_place(out, token);
    lemma_place(out, other);
    let k = place(ws, token);
    let n: int = if k is Some { k->0 } else { ws.len() as int };
    assert(out[n].token == token);
    assert forall|x: int, y: int| 0 <= x < y < out.len() implies (#[trigger] out[x]).token != (#[trigger] out[y]).token by {
        if x < ws.len() && y < ws.len() {
            assert(out[x].token == ws[x].token && out[y].token == ws[y].token);
        } else {
            assert(ws[x].token != token);
        }
    }
    assert(place(out, token) == Some(n)) by {
        let p = place(out, token)->0;
        if p < n {
            assert(out[p].token != out[n].token);
        } else if p > n {
            assert(out[n].token != out[p].token);
        }
    }
    if other != token {
        match place(ws, other) {
            Some(m) => {
                assert(out[m] == ws[m]);
                let p = place(out, other)->0;
                if p < m {
                    assert(out[p].token != out[m].token);
                } else if p > m {
                    assert(out[m].token != out[p].token);
                }
            }
            None => {
                if place(out, other) is Some {
                    let p = place(out, other)->0;
                    if p < ws.len() {
                        assert(ws[p].token != other);
                    }
                }
            }
        }
    }
}

/// Once a task is disarmed it waits on no side of that descriptor, and nobody
/// else's wait is touched.
pub proof fn disarming_is_local(ws: Seq<Waiters>, token: usize, task: TaskId, other: usize, i: Interest)
    requires once(ws),
    ensures
        once(without_waiter(ws, token, task)),
        waiter(without_waiter(ws, token, task), token, i) != Some(task),
        other != token ==> waiter(without_waiter(ws, token, task), other, i) == waiter(ws, other, i),
        waiter(ws, token, i) != Some(task) ==> waiter(without_waiter(ws, token, task), token, i) == waiter(ws, token, i),
{
    let out = without_waiter(ws, token, task);
    lemma_place(ws, token);
    lemma_place(ws, other);
    lemma_place(out, token);
    lemma_place(out, other);
    match place(ws, token) {
        None => {}
        Some(k) => {
            let w = without_task(ws[k], task);
            if w.read is None && w.write is None {
                assert forall|x: int, y: int| 0 <= x < y < out.len() implies (#[trigger] out[x]).token != (#[trigger] out[y]).token by {
                    let xx = if x < k { x } else { x + 1 };
                    let yy = if y < k { y } else { y + 1 };
                    assert(out[x] == ws[xx] && out[y] == ws[yy]);
                    assert(ws[xx].token != ws[yy].token);
                }
                assert(place(out, token) is None) by {
                    if place(out, token) is Some {
                        let p = place(out, token)->0;
                        let q = if p < k { p } else { p + 1 };
                        assert(out[p] == ws[q]);
                        if q < k {
                            assert(ws[q].token != ws[k].token);
                        } else {
                            assert(ws[k].token != ws[q].token);
                        }
                    }
                }
                if other != token {
                    match place(ws, other) {
                        Some(m) => {
                            let n = if m < k { m } else { m - 1 };
                            assert(out[n] == ws[m]);
                            let p = place(out, other)->0;
                            if p < n {
                                assert(out[p].token != out[n].token);
                            } else if p > n {
                                assert(out[n].token != out[p].token);
                            }
                        }
                        None => {
                            if place(out, other) is Some {
                                let p = place(out, other)->0;
                                let q = if p < k { p } else { p + 1 };
                                assert(out[p] == ws[q]);
                            }
                        }
                    }
                }
            } else {
                assert forall|x: int, y: int| 0 <= x < y < out.len() implies (#[trigger] out[x]).token != (#[trigger] out[y]).token by {
                    assert(out[x].token == ws[x].token && out[y].token == ws[y].token);
                }
                assert(out[k].token == token);
                assert(place(out, token) == Some(k)) by {
                    let p = place(out, token)->0;
                    if p < k {
                        assert(out[p].token != out[k].token);
                    } else if p > k {
                        assert(out[k].token != out[p].token);
                    }
                }
                if other != token {
                    match place(ws, other) {
                        Some(m) => {
                            assert(out[m] == ws[m]);
                            let p = place(out, other)->0;
                            if p < m {
                                assert(out[p].token != out[m].token);
                            } else if p > m {
                                assert(out[m].token != out[p].token);
                            }
                        }
                        None => {
                            if place(out, other) is Some {
                                let p = place(out, other)->0;
                                assert(out[p].token == ws[p].token);
                            }
                        }
                    }
                }
            }
        }
    }
}

/// These without `task`.
pub open spec fn others(ids: Seq<TaskId>, task: TaskId) -> Seq<TaskId> {
    ids.filter(|id: TaskId| id != task)
}

/// These with `task` among them.
pub open spec fn with_task(ids: Seq<TaskId>, task: TaskId) -> Seq<TaskId> {
    if ids.contains(task) { ids } else { ids.push(task) }
}

/// Which sides of a descriptor an event is for. A hang-up or an error is news
/// for whoever waits: the next attempt says what it is.
pub fn event_sides(readable: bool, writable: bool, read_closed: bool, write_closed: bool, error: bool) -> (r: (bool, bool))
    ensures
        r.0 == (readable || read_closed || error),
        r.1 == (writable || write_closed || error),
{
    (readable || read_closed || error, writable || write_closed || error)
}

fn join_task(ids: &mut Vec<TaskId>, task: TaskId)
    ensures final(ids)@ == with_task(old(ids)@, task),
{
    let mut i: usize = 0;
    while i < ids.len()
        invariant
            *ids == *old(ids),
            i <= ids.len(),
            forall|j: int| 0 <= j < i ==> ids@[j] != task,
        decreases ids.len() - i,
    {
        if ids[i] == task {
            assert(ids@.contains(task));
            return;
        }
        i += 1;
    }
    ids.push(task);
}

fn leave_task(ids: &Vec<TaskId>, task: TaskId) -> (r: Vec<TaskId>)
    ensures r@ == others(ids@, task),
{
    let mut out: Vec<TaskId> = Vec::new();
    let mut i: usize = 0;
    assert(ids@.take(0).filter(|id: TaskId| id != task) =~= Seq::<TaskId>::empty()) by {
        reveal(Seq::filter);
    }
    while i < ids.len()
        invariant
            i <= ids.len(),
            out@ == others(ids@.take(i as int), task),
        decreases ids.len() - i,
    {
        proof {
            reveal(Seq::filter);
            assert(ids@.take(i + 1).drop_last() =~= ids@.take(i as int));
            assert(ids@.take(i + 1).last() == ids@[i as int]);
        }
        if ids[i] != task {
            out.push(ids[i]);
        }
        i += 1;
    }
    assert(ids@.take(i as int) =~= ids@);
    out
}

/// The task that waits for lookup `id`, and those for the others.
pub open spec fn lookup_place(ls: Seq<(u64, TaskId)>, id: u64) -> Option<int>
    decreases ls.len(),
{
    if ls.len() == 0 {
        None
    } else if ls.last().0 == id {
        Some(ls.len() - 1)
    } else {
        lookup_place(ls.drop_last(), id)
    }
}

impl Reactor {
    /// One with nothing registered.
    pub open spec fn is_fresh(&self) -> bool {
        &&& self.next_token == 0
        &&& self.waiters@.len() == 0
        &&& self.timers@.len() == 0
        &&& self.lookups@.len() == 0
        &&& self.next_lookup == 0
        &&& self.pipe_waiters@.len() == 0
        &&& self.proc_waiters@.len() == 0
    }

    /// One with nothing registered.
    pub fn new() -> (r: Reactor)
        ensures r.is_fresh(),
    {
        Reactor {
            next_token: 0,
            waiters: Vec::new(),
            timers: Vec::new(),
            lookups: Vec::new(),
            next_lookup: 0,
            pipe_waiters: Vec::new(),
            proc_waiters: Vec::new(),
        }
    }

    /// Nothing outside the machine can make a task runnable.
    pub open spec fn idle(&self) -> bool {
        self.waiters@.len() == 0 && self.timers@.len() == 0 && self.lookups@.len() == 0
            && self.pipe_waiters@.len() == 0 && self.proc_waiters@.len() == 0
    }

    /// Whether nothing outside the machine can make a task runnable.
    pub fn is_idle(&self) -> (r: bool)
        ensures r == self.idle(),
    {
        self.waiters.len() == 0 && self.timers.len() == 0 && self.lookups.len() == 0 && self.no_pipes()
    }

    /// Whether nobody waits on a child.
    pub fn no_pipes(&self) -> (r: bool)
        ensures r == (self.pipe_waiters@.len() == 0 && self.proc_waiters@.len() == 0),
    {
        self.pipe_waiters.len() == 0 && self.proc_waiters.len() == 0
    }

    /// Whether there is anything to watch: with nothing but deadlines a wait is
    /// a sleep.
    pub fn watches(&self) -> (r: bool)
        ensures
            r == (self.waiters@.len() > 0 || self.lookups@.len() > 0 || self.pipe_waiters@.len() > 0 || self.proc_waiters@.len() > 0),
    {
        self.waiters.len() > 0 || self.lookups.len() > 0 || !self.no_pipes()
    }

    /// The soonest deadline.
    pub fn next_deadline(&self) -> (r: Option<u64>)
        ensures r == (if self.timers@.len() > 0 { Some(self.timers@[0].at) } else { None }),
    {
        if self.timers.len() > 0 { Some(self.timers[0].at) } else { None }
    }

    fn find(&self, token: usize) -> (r: Option<usize>)
        ensures
            match r {
                Some(k) => place(self.waiters@, token) == Some(k as int) && k < self.waiters@.len(),
                None => place(self.waiters@, token) is None,
            },
    {
        let mut n: usize = self.waiters.len();
        assert(self.waiters@.take(n as int) =~= self.waiters@);
        while n > 0
            invariant
                n <= self.waiters.len(),
                place(self.waiters@, token) == place(self.waiters@.take(n as int), token),
            decreases n,
        {
            assert(self.waiters@.take(n as int).last() == self.waiters@[n - 1]);
            assert(self.waiters@.take(n as int).drop_last() =~= self.waiters@.take(n - 1));
            if self.waiters[n - 1].token == token {
                return Some(n - 1);
            }
            n -= 1;
        }
        None
    }

    /// Note that `task` waits on this side of a stream. A stream that never
    /// waited gets the next token. Two tasks on one side are refused: which of
    /// them gets what would be chance.
    pub fn arm(&mut self, known: Option<usize>, kind: &str, interest: Interest, task: TaskId) -> (r: Result<usize, VErr>)
        requires known is None ==> old(self).next_token < usize::MAX,
        ensures arm_result(*old(self), *final(self), known, kind@, interest, task, r),
    {
        let token = match known {
            Some(t) => t,
            None => {
                self.next_token = self.next_token + 1;
                self.next_token
            }
        };
        match self.find(token) {
            Some(k) => {
                let w = self.waiters[k];
                let there = match interest {
                    Interest::Readable => w.read,
                    Interest::Writable => w.write,
                };
                if let Some(other) = there {
                    if other != task {
                        let name = match interest {
                            Interest::Readable => "read",
                            Interest::Writable => "write",
                        };
                        let n = render_u64(other);
                        let head = join5("two tasks cannot ", name, " the same ", kind, " at once (task ");
                        return Err(runtime_error(join3(head.as_str(), n.as_str(), " is already waiting on it)")));
                    }
                }
                let to = match interest {
                    Interest::Readable => Waiters { token: w.token, read: Some(task), write: w.write },
                    Interest::Writable => Waiters { token: w.token, read: w.read, write: Some(task) },
                };
                self.waiters.set(k, to);
            }
            None => {
                let to = match interest {
                    Interest::Readable => Waiters { token, read: Some(task), write: None },
                    Interest::Writable => Waiters { token, read: None, write: Some(task) },
                };
                self.waiters.push(to);
            }
        }
        Ok(token)
    }

    /// Note that `task` no longer waits on `token`.
    pub fn disarm(&mut self, token: usize, task: TaskId)
        ensures
            *final(self) == (Reactor { waiters: final(self).waiters, ..*old(self) }),
            final(self).waiters@ == without_waiter(old(self).waiters@, token, task),
    {
        if let Some(k) = self.find(token) {
            let w = self.waiters[k];
            let read = if w.read == Some(task) { None } else { w.read };
            let write = if w.write == Some(task) { None } else { w.write };
            if read.is_none() && write.is_none() {
                let _w = self.waiters.remove(k);
            } else {
                self.waiters.set(k, Waiters { token: w.token, read, write });
            }
        }
    }

    /// Those who wait on `token`, who wait no longer.
    pub fn take_waiters(&mut self, token: usize) -> (r: Vec<TaskId>)
        ensures
            *final(self) == (Reactor { waiters: final(self).waiters, ..*old(self) }),
            match place(old(self).waiters@, token) {
                Some(k) => r@ == both_sides(old(self).waiters@[k]) && final(self).waiters@ == old(self).waiters@.remove(k),
                None => r@.len() == 0 && final(self).waiters@ == old(self).waiters@,
            },
    {
        let mut out: Vec<TaskId> = Vec::new();
        if let Some(k) = self.find(token) {
            let w = self.waiters.remove(k);
            if let Some(id) = w.read {
                out.push(id);
            }
            if let Some(id) = w.write {
                out.push(id);
            }
            assert(out@ =~= both_sides(w));
        }
        out
    }

    /// Note a deadline.
    pub fn add_timer(&mut self, at: u64, task: TaskId, seq: u64)
        ensures
            *final(self) == (Reactor { timers: final(self).timers, ..*old(self) }),
            final(self).timers@ == old(self).timers@.insert(timer_place(old(self).timers@, at), Timer { at, task, seq }),
    {
        let mut i: usize = 0;
        assert(self.timers@.skip(0) =~= self.timers@);
        while i < self.timers.len() && self.timers[i].at <= at
            invariant
                *self == *old(self),
                i <= self.timers.len(),
                timer_place(self.timers@, at) == i + timer_place(self.timers@.skip(i as int), at),
            decreases self.timers.len() - i,
        {
            assert(self.timers@.skip(i as int).skip(1) =~= self.timers@.skip(i + 1));
            assert(self.timers@.skip(i as int)[0] == self.timers@[i as int]);
            i += 1;
        }
        assert(i < self.timers.len() ==> self.timers@.skip(i as int)[0] == self.timers@[i as int]);
        self.timers.insert(i, Timer { at, task, seq });
    }

    /// A name lookup for `task`: its identity, which no lookup had before.
    pub fn lookup(&mut self, task: TaskId) -> (r: u64)
        requires old(self).next_lookup < u64::MAX,
        ensures
            r == old(self).next_lookup + 1,
            *final(self) == (Reactor { next_lookup: r, lookups: final(self).lookups, ..*old(self) }),
            final(self).lookups@ == old(self).lookups@.push((r, task)),
    {
        self.next_lookup = self.next_lookup + 1;
        self.lookups.push((self.next_lookup, task));
        self.next_lookup
    }

    /// How many threads the lookups in flight and one more call for.
    pub fn threads_wanted(&self) -> (r: usize)
        ensures
            r == (if self.lookups@.len() < MAX_DNS_THREADS { self.lookups@.len() + 1 } else { MAX_DNS_THREADS as nat }),
            1 <= r <= MAX_DNS_THREADS,
    {
        if self.lookups.len() < MAX_DNS_THREADS { self.lookups.len() + 1 } else { MAX_DNS_THREADS }
    }

    /// The task that waits for lookup `id`, which is over.
    pub fn take_lookup(&mut self, id: u64) -> (r: Option<TaskId>)
        ensures
            *final(self) == (Reactor { lookups: final(self).lookups, ..*old(self) }),
            match lookup_place(old(self).lookups@, id) {
                Some(k) => 0 <= k < old(self).lookups@.len() && r == Some(old(self).lookups@[k].1)
                    && final(self).lookups@ == old(self).lookups@.remove(k),
                None => r is None && final(self).lookups == old(self).lookups,
            },
    {
        let mut n: usize = self.lookups.len();
        assert(self.lookups@.take(n as int) =~= self.lookups@);
        while n > 0
            invariant
                *self == *old(self),
                n <= self.lookups.len(),
                lookup_place(self.lookups@, id) == lookup_place(self.lookups@.take(n as int), id),
            decreases n,
        {
            assert(self.lookups@.take(n as int).last() == self.lookups@[n - 1]);
            assert(self.lookups@.take(n as int).drop_last() =~= self.lookups@.take(n - 1));
            if self.lookups[n - 1].0 == id {
                let e = self.lookups.remove(n - 1);
                return Some(e.1);
            }
            n -= 1;
        }
        None
    }

    /// `task` waits on a child's pipe.
    pub fn pipe_wait(&mut self, task: TaskId)
        ensures
            *final(self) == (Reactor { pipe_waiters: final(self).pipe_waiters, ..*old(self) }),
            final(self).pipe_waiters@ == with_task(old(self).pipe_waiters@, task),
    {
        join_task(&mut self.pipe_waiters, task);
    }

    /// `task` waits on a child's pipe no longer.
    pub fn pipe_unwait(&mut self, task: TaskId)
        ensures
            *final(self) == (Reactor { pipe_waiters: final(self).pipe_waiters, ..*old(self) }),
            final(self).pipe_waiters@ == others(old(self).pipe_waiters@, task),
    {
        self.pipe_waiters = leave_task(&self.pipe_waiters, task);
    }

    /// `task` waits for a child to exit.
    pub fn proc_wait(&mut self, task: TaskId)
        ensures
            *final(self) == (Reactor { proc_waiters: final(self).proc_waiters, ..*old(self) }),
            final(self).proc_waiters@ == with_task(old(self).proc_waiters@, task),
    {
        join_task(&mut self.proc_waiters, task);
    }

    /// `task` waits for a child to exit no longer.
    pub fn proc_unwait(&mut self, task: TaskId)
        ensures
            *final(self) == (Reactor { proc_waiters: final(self).proc_waiters, ..*old(self) }),
            final(self).proc_waiters@ == others(old(self).proc_waiters@, task),
    {
        self.proc_waiters = leave_task(&self.proc_waiters, task);
    }
}

} // verus!
