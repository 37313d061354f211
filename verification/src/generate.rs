//! Generators: advancing them in a loop, and draining them for native code.
use vstd::prelude::*;
use crate::bind::pool_retired;
use crate::attr::methods_grew;
use crate::call::{fault_step, too_deep_text};
use crate::exc::Exc;
use crate::exceptions::exceptions_grew;
use crate::frame::Frame;
use crate::iter::counted;
use crate::machine::{only_top, restacked, Call, GenDriver, Keyword, MatJob, Step, Task, Vm, MAX_FRAMES};
use crate::value::{BoundMethod, GenBox, Heap, MethodKind, Value};
use crate::wake::{faults, raises};

verus! {

/// Whether generator `g` has ended.
pub open spec fn gen_done(h: Heap, g: usize) -> bool {
    g >= h.gens@.len() || h.gens@[g as int].done
}

/// Generator `g` is `x` now, and nothing else changed.
pub open spec fn gen_is(a: Heap, b: Heap, g: usize, x: GenBox) -> bool {
    &&& g < a.gens@.len()
    &&& b == (Heap { gens: b.gens, ..a })
    &&& b.gens@ == a.gens@.update(g as int, x)
}

/// The frame of a generator, taken out to run.
#[derive(Debug)]
pub enum Taken {
    Finished,
    /// Somebody is running it.
    Running,
    Ready(Frame),
}

/// What taking out a generator's frame comes to.
pub open spec fn take_gen_result(a: Heap, b: Heap, g: usize, r: Taken) -> bool {
    if gen_done(a, g) {
        r is Finished && b == a
    } else {
        match a.gens@[g as int].frame {
            None => r is Running && b == a,
            Some(f) => r == Taken::Ready(f) && gen_is(a, b, g, GenBox { frame: None, ..a.gens@[g as int] }),
        }
    }
}

/// Take out the frame of generator `g`.
pub fn take_gen_frame(h: &mut Heap, g: usize) -> (r: Taken)
    ensures take_gen_result(*old(h), *final(h), g, r),
{
    if g >= h.gens.len() || h.gens[g].done {
        return Taken::Finished;
    }
    if h.gens[g].frame.is_none() {
        return Taken::Running;
    }
    let mut frame: Option<Frame> = None;
    std::mem::swap(&mut h.gens[g].frame, &mut frame);
    match frame {
        Some(f) => Taken::Ready(f),
        None => Taken::Running,
    }
}

/// Put a suspended frame back into generator `g`.
pub fn put_gen_frame(h: &mut Heap, g: usize, frame: Frame)
    requires g < old(h).gens@.len(),
    ensures gen_is(*old(h), *final(h), g, GenBox { frame: Some(frame), ..old(h).gens@[g as int] }),
{
    h.gens[g].frame = Some(frame);
}

/// The message for a generator that is advanced from two places.
pub open spec fn busy_text() -> Seq<char> {
    "generator already executing"@
}

/// The generator's frame runs now, on top of the others.
pub open spec fn resumed(a: Vm, b: Vm, g: usize, driver: GenDriver) -> bool {
    let was = a.heap.gens@[g as int];
    &&& b == (Vm {
        task: Task { frames: b.task.frames, gen_stack: b.task.gen_stack, ..a.task },
        heap: b.heap,
        ..a
    })
    &&& gen_is(a.heap, b.heap, g, GenBox { frame: None, ..was })
    &&& b.task.frames@ == a.task.frames@.push(was.frame->0)
    &&& b.task.gen_stack@ == a.task.gen_stack@.push((g, driver))
}

/// The loop that stands on what `a` has on its stack ended.
pub open spec fn loop_left(a: Vm, b: Vm, target: usize) -> bool {
    &&& only_top(a, b)
    &&& b.heap == a.heap
    &&& b.top() == (Frame { pc: target, stack: b.top().stack, ..a.top() })
    &&& b.stack() == a.stack().drop_last()
}

/// What one turn of a `for` over generator `g` does.
pub open spec fn for_generator_result(a: Vm, b: Vm, g: usize, target: usize, paired: bool, r: Step) -> bool {
    if gen_done(a.heap, g) {
        r is Next && loop_left(a, b, target)
    } else if a.heap.gens@[g as int].frame is None {
        &&& raises(b.heap, a.excs@, r, Exc::ValueError, busy_text())
        &&& exceptions_grew(a.heap, b.heap)
        &&& b == (Vm { heap: b.heap, ..a })
    } else {
        r is Next && resumed(a, b, g, GenDriver::ForLoop { target, paired })
    }
}

/// A generator is on the generator stack, and its frame runs.
pub open spec fn in_generator(a: Vm) -> bool {
    &&& a.task.frames@.len() >= 2
    &&& a.task.gen_stack@.len() > 0
    &&& a.task.gen_stack@.last().0 < a.heap.gens@.len()
    &&& a.task.gen_stack@.last().1 is Materialize ==> a.task.mats@.len() > 0
        && a.task.mats@.last().idx < a.task.mats@.last().args@.len()
}

/// Whether a generator body can end here: a loop that drives it has it on its
/// stack.
pub open spec fn can_stop(a: Vm) -> bool {
    in_generator(a) && (a.task.gen_stack@.last().1 is ForLoop ==> a.task.frames@[a.task.frames@.len() - 2].stack@.len() > 0)
}

/// The state a `yield` leaves before it hands its value over: the frame is back
/// in its generator.
pub open spec fn suspended(a: Vm, b: Vm) -> bool {
    let (g, _) = a.task.gen_stack@.last();
    exists|f: Frame| {
        &&& f.stack@ == a.stack().drop_last()
        &&& f == (Frame { stack: f.stack, ..a.top() })
        &&& #[trigger] back_in(a, b, g, f)
    }
}

/// The running frame was taken off and stands in generator `g` as `f`.
pub open spec fn back_in(a: Vm, b: Vm, g: usize, f: Frame) -> bool {
    &&& b == (Vm {
        task: Task { frames: b.task.frames, gen_stack: b.task.gen_stack, ..a.task },
        heap: b.heap,
        ..a
    })
    &&& b.task.frames@ == a.task.frames@.drop_last()
    &&& b.task.gen_stack@ == a.task.gen_stack@.drop_last()
    &&& gen_is(a.heap, b.heap, g, GenBox { frame: Some(f), ..a.heap.gens@[g as int] })
}

/// The element a `for` over a generator sees, and the generator's count of them.
pub open spec fn yielded(m: Vm, b: Vm, g: usize, v: Value, paired: bool) -> bool {
    let n = m.heap.gens@[g as int].for_index;
    &&& restacked(m, b, m.stack().push(b.stack().last()))
    &&& b.heap == (Heap { gens: b.heap.gens, tuples: b.heap.tuples, ..m.heap })
    &&& b.heap.gens@ == m.heap.gens@.update(g as int, GenBox { for_index: counted(n), ..m.heap.gens@[g as int] })
    &&& m.heap.tuples@.is_prefix_of(b.heap.tuples@)
    &&& if paired {
        b.stack().last() == Value::Tuple(m.heap.tuples.len()) && b.heap.tuple(m.heap.tuples.len()) == seq![Value::Int(n), v]
            && b.heap.tuples@.len() == m.heap.tuples@.len() + 1
    } else {
        b.stack().last() == v && b.heap.tuples == m.heap.tuples
    }
}

/// The drain the generator runs for has one element more.
pub open spec fn collected(m: Vm, b: Vm, v: Value) -> bool {
    &&& b == (Vm { task: Task { mats: b.task.mats, ..m.task }, ..m })
    &&& b.task.mats@.len() == m.task.mats@.len()
    &&& b.task.mats@.drop_last() == m.task.mats@.drop_last()
    &&& b.task.mats@.last() == (MatJob { items: b.task.mats@.last().items, ..m.task.mats@.last() })
    &&& b.task.mats@.last().items@ == m.task.mats@.last().items@.push(v)
}

/// What `yield` does: its frame waits in the generator, and its value goes to
/// whoever drives it.
pub open spec fn yield_result(a: Vm, b: Vm, r: Step) -> bool {
    let v = a.stack().last();
    let (g, driver) = a.task.gen_stack@.last();
    exists|m: Vm| {
        &&& #[trigger] suspended(a, m)
        &&& match driver {
            GenDriver::ForLoop { target: _, paired } => r is Next && yielded(m, b, g, v, paired),
            GenDriver::Materialize => r == Step::Drive(crate::machine::Job::Mat) && collected(m, b, v),
        }
    }
}

/// The running frame is gone and its generator has ended.
pub open spec fn ended(a: Vm, b: Vm) -> bool {
    let (g, _) = a.task.gen_stack@.last();
    &&& b == (Vm {
        task: Task { frames: b.task.frames, gen_stack: b.task.gen_stack, ..a.task },
        heap: b.heap,
        frame_pool: b.frame_pool,
        ..a
    })
    &&& b.task.frames@ == a.task.frames@.drop_last()
    &&& b.task.gen_stack@ == a.task.gen_stack@.drop_last()
    &&& pool_retired(a.frame_pool@, b.frame_pool@)
    &&& gen_is(a.heap, b.heap, g, GenBox { done: true, frame: None, ..a.heap.gens@[g as int] })
}

/// The argument being drained is the list of what was collected now.
pub open spec fn filled(a: Vm, b: Vm, i: int, next: usize) -> bool {
    let j = a.task.mats@.last();
    let k = b.task.mats@.last();
    &&& b == (Vm { task: Task { mats: b.task.mats, ..a.task }, heap: b.heap, ..a })
    &&& b.task.mats@.len() == a.task.mats@.len()
    &&& b.task.mats@.drop_last() == a.task.mats@.drop_last()
    &&& k == (MatJob { args: k.args, items: k.items, idx: next, ..j })
    &&& k.args@ == j.args@.update(i, Value::List(a.heap.lists.len()))
    &&& k.items@.len() == 0
    &&& b.heap == (Heap { lists: b.heap.lists, ..a.heap })
    &&& b.heap.lists@.len() == a.heap.lists@.len() + 1
    &&& a.heap.lists@.is_prefix_of(b.heap.lists@)
    &&& b.heap.list(a.heap.lists.len()) == j.items@
}

/// What the end of a generator does: the loop is left, or the drain goes on
/// with the list in the generator's place.
pub open spec fn stop_result(a: Vm, b: Vm, r: Step) -> bool {
    let (_, driver) = a.task.gen_stack@.last();
    exists|m: Vm| {
        &&& #[trigger] ended(a, m)
        &&& match driver {
            GenDriver::ForLoop { target, paired: _ } => r is Next && loop_left(m, b, target),
            GenDriver::Materialize => r == Step::Drive(crate::machine::Job::Mat)
                && filled(m, b, a.task.mats@.last().idx as int, a.task.mats@.last().idx),
        }
    }
}

impl Vm {
    /// What a generator raises that is advanced from two places.
    fn generator_busy(&mut self) -> (r: Step)
        ensures
            raises(final(self).heap, old(self).excs@, r, Exc::ValueError, busy_text()),
            exceptions_grew(old(self).heap, final(self).heap),
            *final(self) == (Vm { heap: final(self).heap, ..*old(self) }),
    {
        self.raise(Exc::ValueError, "generator already executing".to_owned())
    }

    /// Leave a loop: its iterator goes, and control is at `target`.
    pub fn leave_loop(&mut self, target: usize)
        requires old(self).has(1),
        ensures loop_left(*old(self), *final(self), target),
    {
        let _it = self.pop();
        self.jump(target);
    }

    /// One turn of a `for` over generator `g`, which stands on the stack. The
    /// element, or the end, comes from the generator's own frame.
    pub fn for_generator(&mut self, g: usize, target: usize, paired: bool) -> (r: Step)
        requires old(self).has(1),
        ensures for_generator_result(*old(self), *final(self), g, target, paired, r),
    {
        match take_gen_frame(&mut self.heap, g) {
            Taken::Finished => {
                self.leave_loop(target);
                Step::Next
            }
            Taken::Running => self.generator_busy(),
            Taken::Ready(frame) => {
                self.task.gen_stack.push((g, GenDriver::ForLoop { target, paired }));
                self.task.frames.push(frame);
                Step::Next
            }
        }
    }

    /// `yield`, with its value on the stack.
    pub fn do_yield(&mut self) -> (r: Step)
        requires
            old(self).has(1),
            in_generator(*old(self)),
        ensures yield_result(*old(self), *final(self), r),
    {
        let ghost a = *self;
        let v = self.pop();
        let ghost p = *self;
        match (self.task.frames.pop(), self.task.gen_stack.pop()) {
            (Some(frame), Some((g, driver))) => {
                let ghost f = frame;
                assert(f == p.top());
                assert(p.task.frames@.drop_last() =~= a.task.frames@.drop_last());
                put_gen_frame(&mut self.heap, g, frame);
                let ghost m = *self;
                proof {
                    assert(back_in(a, m, g, f));
                    assert(suspended(a, m));
                }
                match driver {
                    GenDriver::ForLoop { target: _, paired } => {
                        let n = self.heap.gens[g].for_index;
                        self.heap.gens[g].for_index = if n < i64::MAX { n + 1 } else { n };
                        if paired {
                            let mut pair: Vec<Value> = Vec::new();
                            pair.push(Value::Int(n));
                            pair.push(v);
                            assert(pair@ =~= seq![Value::Int(n), v]);
                            let t = self.heap.alloc_tuple(pair);
                            self.push(t);
                        } else {
                            self.push(v);
                        }
                        assert(yielded(m, *self, g, v, paired));
                        Step::Next
                    }
                    GenDriver::Materialize => {
                        let k = self.task.mats.len();
                        self.task.mats[k - 1].items.push(v);
                        assert(self.task.mats@.drop_last() =~= m.task.mats@.drop_last());
                        assert(collected(m, *self, v));
                        Step::Drive(crate::machine::Job::Mat)
                    }
                }
            }
            _ => Step::Next,
        }
    }

    /// Put the list of what was collected in the place of argument `i` of the
    /// innermost drain, which goes on at `next`.
    fn fill(&mut self, i: usize, next: usize)
        requires
            old(self).task.mats@.len() > 0,
            i < old(self).task.mats@.last().args@.len(),
        ensures filled(*old(self), *final(self), i as int, next),
    {
        let ghost a = *self;
        let k = self.task.mats.len();
        let mut items: Vec<Value> = Vec::new();
        std::mem::swap(&mut self.task.mats[k - 1].items, &mut items);
        let list = self.heap.alloc_list(items);
        self.task.mats[k - 1].args.set(i, list);
        self.task.mats[k - 1].idx = next;
        assert(self.task.mats@.drop_last() =~= a.task.mats@.drop_last());
    }

    /// A generator body returned.
    pub fn generator_stop(&mut self) -> (r: Step)
        requires
            can_stop(*old(self)),
        ensures stop_result(*old(self), *final(self), r),
    {
        let ghost a = *self;
        match (self.task.frames.pop(), self.task.gen_stack.pop()) {
            (Some(frame), Some((g, driver))) => {
                self.recycle(frame);
                self.heap.gens[g].done = true;
                self.heap.gens[g].frame = None;
                let ghost m = *self;
                assert(m.heap.gens@ =~= a.heap.gens@.update(g as int, GenBox { done: true, frame: None, ..a.heap.gens@[g as int] }));
                assert(ended(a, m));
                match driver {
                    GenDriver::ForLoop { target, paired: _ } => {
                        self.leave_loop(target);
                        Step::Next
                    }
                    GenDriver::Materialize => {
                        let k = self.task.mats.len();
                        let i = self.task.mats[k - 1].idx;
                        self.fill(i, i);
                        Step::Drive(crate::machine::Job::Mat)
                    }
                }
            }
            _ => Step::Next,
        }
    }
}

/// The first generator among these, from `i` on.
pub open spec fn next_gen(args: Seq<Value>, i: int) -> Option<int>
    decreases args.len() - i,
{
    if i < 0 || i >= args.len() {
        None
    } else if args[i] is Generator {
        Some(i)
    } else {
        next_gen(args, i + 1)
    }
}

fn find_gen(args: &Vec<Value>, from: usize) -> (r: Option<usize>)
    ensures
        match r {
            Some(k) => next_gen(args@, from as int) == Some(k as int) && from <= k < args@.len() && args@[k as int] is Generator,
            None => next_gen(args@, from as int) is None,
        },
{
    let mut i = from;
    while i < args.len()
        invariant
            from <= i,
            next_gen(args@, from as int) == next_gen(args@, i as int),
        decreases args.len() - i,
    {
        if let Value::Generator(_) = args[i] {
            return Some(i);
        }
        i += 1;
    }
    None
}

/// `v` is the method `callee`, bound to `recv` instead.
pub open spec fn rebound(a: Heap, b: Heap, callee: Value, recv: Value, v: Value) -> bool {
    &&& methods_grew(a, b)
    &&& match callee {
        Value::Method(m) => if m < a.methods@.len() {
            v matches Value::Method(n) && n < b.methods@.len() && b.methods@[n as int].receiver == recv
                && same_kind(a.methods@[m as int].kind, b.methods@[n as int].kind)
        } else {
            v == callee
        },
        _ => v == callee,
    }
}

/// Whether two methods run the same thing.
pub open spec fn same_kind(a: MethodKind, b: MethodKind) -> bool {
    match (a, b) {
        (MethodKind::User { func: f, defclass: c }, MethodKind::User { func: g, defclass: d }) => f == g && c == d,
        (MethodKind::Native(s), MethodKind::Native(t)) => s@ == t@,
        _ => false,
    }
}

fn rebind(h: &mut Heap, callee: Value, recv: Value) -> (r: Value)
    ensures rebound(*old(h), *final(h), callee, recv, r),
{
    match callee {
        Value::Method(m) => {
            if m < h.methods.len() {
                let kind = match &h.methods[m].kind {
                    MethodKind::User { func, defclass } => MethodKind::User { func: *func, defclass: *defclass },
                    MethodKind::Native(s) => MethodKind::Native(s.clone()),
                };
                h.alloc_method(BoundMethod { receiver: recv, kind })
            } else {
                callee
            }
        }
        _ => callee,
    }
}

/// The drained call is made: the innermost drain is over, and what follows is
/// the call with lists in the place of its generators.
pub open spec fn drained_call(a: Vm, b: Vm, r: Step) -> bool {
    let j = a.task.mats@.last();
    &&& b == (Vm { task: Task { mats: b.task.mats, ..a.task }, heap: b.heap, ..a })
    &&& b.task.mats@ == a.task.mats@.drop_last()
    &&& r matches Step::Invoke(c) && c.kwargs == j.kwargs && if j.receiver_in_args {
        rebound(a.heap, b.heap, j.callee, j.args@[0], c.callee) && c.args@ == j.args@.skip(1)
    } else {
        c.callee == j.callee && c.args == j.args && b.heap == a.heap
    }
}

/// The innermost drain is at argument `i`.
pub open spec fn drain_at(a: Vm, b: Vm, i: int) -> bool {
    &&& b == (Vm { task: Task { mats: b.task.mats, ..a.task }, ..a })
    &&& b.task.mats@.len() == a.task.mats@.len()
    &&& b.task.mats@.drop_last() == a.task.mats@.drop_last()
    &&& b.task.mats@.last() == (MatJob { idx: i as usize, ..a.task.mats@.last() })
}

/// What an unfinished generator among the arguments does: it runs on, if it is
/// not running already.
pub open spec fn drain_one(a: Vm, b: Vm, i: int, g: usize, r: Step) -> bool {
    exists|m: Vm| {
        &&& #[trigger] drain_at(a, m, i)
        &&& if a.heap.gens@[g as int].frame is None {
            &&& raises(b.heap, a.excs@, r, Exc::ValueError, busy_text())
            &&& exceptions_grew(a.heap, b.heap)
            &&& b == (Vm { heap: b.heap, ..m })
        } else if a.task.frames@.len() >= MAX_FRAMES {
            &&& faults(r, Exc::RecursionError, too_deep_text())
            &&& b == (Vm { heap: b.heap, ..m })
            &&& gen_is(a.heap, b.heap, g, GenBox { frame: None, ..a.heap.gens@[g as int] })
        } else {
            r is Next && resumed(m, b, g, GenDriver::Materialize)
        }
    }
}

/// What driving the innermost drain does: a generator that has ended gives way
/// to the list of what it yielded, one that has not runs on, and with none left
/// the call is made.
pub open spec fn drain_result(a: Vm, b: Vm, r: Step) -> bool
    decreases a.task.mats@.last().args@.len() - a.task.mats@.last().idx,
{
    let j = a.task.mats@.last();
    match next_gen(j.args@, j.idx as int) {
        None => drained_call(a, b, r),
        Some(i) => {
            let g = j.args@[i]->Generator_0;
            &&& j.idx <= i < j.args.len()
            &&& if gen_done(a.heap, g) {
                exists|m: Vm| #[trigger] filled(a, m, i, (i + 1) as usize) && drain_result(m, b, r)
            } else {
                drain_one(a, b, i, g, r)
            }
        },
    }
}

/// A drain that can be driven.
pub open spec fn drain_ready(a: Vm) -> bool {
    &&& a.task.mats@.len() > 0
    &&& a.task.mats@.last().receiver_in_args ==> a.task.mats@.last().args@.len() > 0
}

impl Vm {
    /// Drive the innermost drain.
    pub fn drive_materialize(&mut self) -> (r: Step)
        requires drain_ready(*old(self)),
        ensures drain_result(*old(self), *final(self), r),
    {
        let ghost a = *self;
        let k = self.task.mats.len();
        loop
            invariant
                a == *old(self),
                drain_ready(*self),
                k == self.task.mats@.len(),
                forall|b: Vm, r: Step| #[trigger] drain_result(*self, b, r) ==> drain_result(a, b, r),
            decreases self.task.mats@.last().args@.len() - self.task.mats@.last().idx,
        {
            let ghost c = *self;
            let from = self.task.mats[k - 1].idx;
            let i = match find_gen(&self.task.mats[k - 1].args, from) {
                None => {
                    let r = self.drained();
                    assert(drain_result(c, *self, r));
                    return r;
                }
                Some(i) => i,
            };
            let g = match self.task.mats[k - 1].args[i] {
                Value::Generator(g) => g,
                _ => 0,
            };
            match take_gen_frame(&mut self.heap, g) {
                Taken::Finished => {
                    assert(i < self.task.mats@.last().args.len());
                    self.fill(i, i + 1);
                    let ghost m = *self;
                    proof {
                        assert(filled(c, m, i as int, (i + 1) as usize));
                        assert forall|b: Vm, r: Step| #[trigger] drain_result(m, b, r) implies drain_result(a, b, r) by {
                            assert(drain_result(c, b, r));
                        }
                    }
                }
                Taken::Running => {
                    self.task.mats[k - 1].idx = i;
                    let ghost m = *self;
                    assert(m.task.mats@.drop_last() =~= c.task.mats@.drop_last());
                    assert(drain_at(c, m, i as int));
                    let r = self.generator_busy();
                    assert(drain_one(c, *self, i as int, g, r));
                    assert(drain_result(c, *self, r));
                    return r;
                }
                Taken::Ready(frame) => {
                    self.task.mats[k - 1].idx = i;
                    let ghost m = Vm { heap: c.heap, ..*self };
                    assert(m.task.mats@.drop_last() =~= c.task.mats@.drop_last());
                    assert(drain_at(c, m, i as int));
                    if self.task.frames.len() >= MAX_FRAMES {
                        let r = fault_step(Exc::RecursionError, "maximum recursion depth exceeded");
                        assert(drain_one(c, *self, i as int, g, r));
                        assert(drain_result(c, *self, r));
                        return r;
                    }
                    self.task.gen_stack.push((g, GenDriver::Materialize));
                    self.task.frames.push(frame);
                    let r = Step::Next;
                    assert(resumed(m, *self, g, GenDriver::Materialize));
                    assert(drain_one(c, *self, i as int, g, r));
                    assert(drain_result(c, *self, r));
                    return r;
                }
            }
        }
    }

    fn drained(&mut self) -> (r: Step)
        requires drain_ready(*old(self)),
        ensures drained_call(*old(self), *final(self), r),
    {
        let ghost a = *self;
        match self.task.mats.pop() {
            Some(job) => {
                let mut job = job;
                if job.receiver_in_args {
                    let recv = job.args.remove(0);
                    assert(job.args@ =~= a.task.mats@.last().args@.skip(1));
                    let callee = rebind(&mut self.heap, job.callee, recv);
                    Step::Invoke(Box::new(Call { callee, args: job.args, kwargs: job.kwargs }))
                } else {
                    Step::Invoke(Box::new(Call { callee: job.callee, args: job.args, kwargs: job.kwargs }))
                }
            }
            None => Step::Next,
        }
    }

    /// Drain the generators among `args`, and then call `callee` with lists in
    /// their place.
    pub fn materialize_generator_args(&mut self, callee: Value, args: Vec<Value>, kwargs: Vec<Keyword>) -> (r: Step)
        ensures materialize_result(*old(self), *final(self), callee, args@, kwargs, false, r),
    {
        self.begin_drain(callee, args, kwargs, false)
    }

    /// Drain a method's receiver, which stands first in `args`, and then call
    /// the method on the list.
    pub fn materialize_receiver(&mut self, callee: Value, args: Vec<Value>, kwargs: Vec<Keyword>) -> (r: Step)
        requires args@.len() > 0,
        ensures materialize_result(*old(self), *final(self), callee, args@, kwargs, true, r),
    {
        self.begin_drain(callee, args, kwargs, true)
    }

    fn begin_drain(&mut self, callee: Value, args: Vec<Value>, kwargs: Vec<Keyword>, receiver_in_args: bool) -> (r: Step)
        requires receiver_in_args ==> args@.len() > 0,
        ensures materialize_result(*old(self), *final(self), callee, args@, kwargs, receiver_in_args, r),
    {
        let ghost a = *self;
        self.task.mats.push(MatJob { callee, args, kwargs, idx: 0, items: Vec::new(), receiver_in_args });
        let ghost m = *self;
        assert(drain_begun(a, m, callee, args@, kwargs, receiver_in_args));
        self.drive_materialize()
    }
}

/// A drain of the generators among `args` was begun.
pub open spec fn drain_begun(a: Vm, b: Vm, callee: Value, args: Seq<Value>, kwargs: Vec<Keyword>, receiver_in_args: bool) -> bool {
    let j = b.task.mats@.last();
    &&& b == (Vm { task: Task { mats: b.task.mats, ..a.task }, ..a })
    &&& b.task.mats@ == a.task.mats@.push(j)
    &&& j.callee == callee
    &&& j.args@ == args
    &&& j.kwargs == kwargs
    &&& j.idx == 0
    &&& j.items@.len() == 0
    &&& j.receiver_in_args == receiver_in_args
}

/// What draining the generators among `args` for a call does.
pub open spec fn materialize_result(a: Vm, b: Vm, callee: Value, args: Seq<Value>, kwargs: Vec<Keyword>, receiver_in_args: bool, r: Step) -> bool {
    exists|m: Vm| #[trigger] drain_begun(a, m, callee, args, kwargs, receiver_in_args) && drain_result(m, b, r)
}

/// A generator goes on exactly where its last `yield` stopped it, whoever
/// advances it.
pub proof fn generators_go_on(a: Vm, b: Vm, c: Vm, d: Vm, g: usize, target: usize, paired: bool, r: Step, again: Step)
    requires
        in_generator(a),
        g == a.task.gen_stack@.last().0,
        !a.heap.gens@[g as int].done,
        yield_result(a, b, r),
        c.heap.gens == b.heap.gens,
        for_generator_result(c, d, g, target, paired, again),
    ensures
        again is Next,
        d.top() == (Frame { stack: d.top().stack, ..a.top() }),
        d.stack() == a.stack().drop_last(),
{
}

/// A generator that has ended hands out nothing more: a loop over it is left at
/// once.
pub proof fn ended_generators_stay_ended(a: Vm, b: Vm, c: Vm, d: Vm, g: usize, target: usize, paired: bool, r: Step, again: Step)
    requires
        in_generator(a),
        g == a.task.gen_stack@.last().0,
        stop_result(a, b, r),
        c.heap.gens == b.heap.gens,
        for_generator_result(c, d, g, target, paired, again),
    ensures
        again is Next,
        loop_left(c, d, target),
{
}

/// While a generator runs nobody else can advance it.
pub proof fn generators_run_in_one_place(a: Vm, b: Vm, c: Vm, d: Vm, g: usize, target: usize, paired: bool, driver: GenDriver, r: Step)
    requires
        !gen_done(a.heap, g),
        resumed(a, b, g, driver),
        c.heap.gens == b.heap.gens,
        for_generator_result(c, d, g, target, paired, r),
    ensures raises(d.heap, c.excs@, r, Exc::ValueError, busy_text()),
{
}

} // verus!
