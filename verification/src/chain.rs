//! Running collection operations, one callback at a time.
//!
//! The steps of a chain that only stream are fused: an element walks all of
//! them before the next one is read, so one collection is built instead of one
//! per step, and a `first()` at the end stops the whole pass.
use vstd::prelude::*;
use crate::call::{enter_result, fail, fault_step, makes_generator, too_deep_text, user_result};
use crate::code::{CodeObject, Param};
use crate::collect::{all_true, any_true, bad_key, chosen, choose_items, collections_grew, copy_range, count_true, distinct_items, find_item, found_item, group_items, grouped, has_only_true, has_true, is_group_dict, leading_run, number_true, paired_len, rebuild_result, rebuild_shape, run_end, unique_items};
use crate::exc::{attribute_error, type_error, Exc, VErr};
use crate::frame::{Frame, ReturnAction};
use crate::iter::{are_elems, drained, elements, iterate_to_vec, iterated, unpack_exact, unpacked};
use crate::machine::{restacked, HostCall, Job, Keyword, OrderCont, OrderKind, Step, Task, Vm, MAX_FRAMES};
use crate::membership::{needs_machine, ord_needs_vm};
use crate::names::{is_truthy, kind_name, kind_name_of, truthy};
use crate::order::begin_order_result;
use crate::seqop::{PendingChain, SeqJob, SeqOp, SeqResume, SeqShape, Spread, Stage, StageKind};
use crate::text::{join2, join3, join5, same_text};
use crate::value::{Heap, MethodKind, Value};
use crate::wake::faults;

verus! {

/// Whether two values are the same collection, not merely equal ones.
pub open spec fn one_collection(a: Value, b: Value) -> bool {
    a == b && (a is List || a is Tuple || a is Dict || a is Range)
}

/// Whether two values are the same collection.
pub fn same_collection(a: Value, b: Value) -> (r: bool)
    ensures r == one_collection(a, b),
{
    a == b && matches!(a, Value::List(_) | Value::Tuple(_) | Value::Dict(_) | Value::Range(_))
}

/// How many of the first `n` parameters have no default.
pub open spec fn plain_params(params: Seq<Param>, n: int) -> nat
    decreases n,
{
    if n <= 0 {
        0
    } else {
        plain_params(params, n - 1) + (if params[n - 1].has_default { 0nat } else { 1nat })
    }
}

/// The function a callback runs, and how many of its first parameters the
/// caller fills itself.
pub open spec fn callback_code(h: Heap, func: Value, leading: nat) -> Option<(usize, nat)> {
    match func {
        Value::Func(f) => Some((f, leading)),
        Value::Method(m) => if m < h.methods@.len() {
            match h.methods@[m as int].kind {
                MethodKind::User { func, .. } => Some((func, leading + 1)),
                MethodKind::Native(_) => None,
            }
        } else {
            None
        },
        _ => None,
    }
}

/// How a callback takes its element: with two or more parameters of its own it
/// takes it apart, with one it takes it whole. A native one declares nothing.
pub open spec fn declared(h: Heap, func: Value, leading: nat) -> Option<Spread> {
    match callback_code(h, func, leading) {
        Some((f, lead)) => if f < h.funcs@.len() {
            let ps = h.funcs@[f as int].code.params@;
            let n = plain_params(ps, ps.len() as int);
            let asked = if n > lead { (n - lead) as nat } else { 0 };
            Some(if asked >= 2 { Spread::Unpack(asked as usize) } else { Spread::Whole })
        } else {
            Some(Spread::Whole)
        },
        None => None,
    }
}

fn count_plain(code: &CodeObject) -> (r: usize)
    ensures r == plain_params(code.params@, code.params@.len() as int), r <= code.params@.len(),
{
    let mut n: usize = 0;
    let mut i: usize = 0;
    while i < code.params.len()
        invariant
            i <= code.params.len(),
            n <= i,
            n == plain_params(code.params@, i as int),
        decreases code.params.len() - i,
    {
        if !code.params[i].has_default {
            n += 1;
        }
        i += 1;
    }
    n
}

/// How a callback takes its element.
pub fn declared_spread(h: &Heap, func: Value, leading: usize) -> (r: Option<Spread>)
    requires leading <= 1,
    ensures r == declared(*h, func, leading as nat),
{
    let (f, lead): (usize, usize) = match func {
        Value::Func(f) => (f, leading),
        Value::Method(m) => {
            if m >= h.methods.len() {
                return None;
            }
            match &h.methods[m].kind {
                MethodKind::User { func, defclass: _ } => (*func, leading + 1),
                MethodKind::Native(_) => {
                    return None;
                }
            }
        }
        _ => {
            return None;
        }
    };
    if f >= h.funcs.len() {
        return Some(Spread::Whole);
    }
    let n = count_plain(&h.funcs[f].code);
    let asked: usize = if n > lead { n - lead } else { 0 };
    Some(if asked >= 2 { Spread::Unpack(asked) } else { Spread::Whole })
}

/// How a collection step's callback takes each element. A native one is handed
/// a dict's pair as two arguments and anything else whole.
pub open spec fn step_spread(h: Heap, func: Value, shape: SeqShape, leading: nat) -> Spread {
    match declared(h, func, leading) {
        Some(s) => s,
        None => if shape == SeqShape::Dict { Spread::Unpack(2) } else { Spread::Whole },
    }
}

/// How a collection step's callback takes each element.
pub fn seq_spread(h: &Heap, func: Value, shape: SeqShape, leading: usize) -> (r: Spread)
    requires leading <= 1,
    ensures r == step_spread(*h, func, shape, leading as nat),
{
    match declared_spread(h, func, leading) {
        Some(s) => s,
        None => if matches!(shape, SeqShape::Dict) { Spread::Unpack(2) } else { Spread::Whole },
    }
}

/// The collection a step rebuilds.
pub open spec fn shape_of(recv: Value) -> Option<SeqShape> {
    match recv {
        Value::List(_) => Some(SeqShape::List),
        Value::Tuple(_) => Some(SeqShape::Tuple),
        Value::Dict(_) => Some(SeqShape::Dict),
        Value::Range(_) => Some(SeqShape::List),
        _ => None,
    }
}

/// The message for a step called on something that is no collection.
pub open spec fn no_step_text(h: Heap, who: Seq<char>, recv: Value) -> Seq<char> {
    "'"@ + kind_name(h, recv) + "' object has no method '"@ + who + "'"@
}

/// The collection a step rebuilds.
pub fn seq_shape(h: &Heap, who: &str, recv: Value) -> (r: Result<SeqShape, VErr>)
    ensures
        match shape_of(recv) {
            Some(s) => r == Ok::<SeqShape, VErr>(s),
            None => r matches Err(e) && e@ == (Exc::AttributeError, no_step_text(*h, who@, recv)),
        },
{
    match recv {
        Value::List(_) => Ok(SeqShape::List),
        Value::Tuple(_) => Ok(SeqShape::Tuple),
        Value::Dict(_) => Ok(SeqShape::Dict),
        Value::Range(_) => Ok(SeqShape::List),
        _ => Err(attribute_error(join5("'", kind_name_of(h, recv), "' object has no method '", who, "'"))),
    }
}

/// The elements a step walks, taken now.
pub fn seq_receiver(h: &mut Heap, who: &str, recv: Value) -> (r: Result<(SeqShape, Vec<Value>), VErr>)
    ensures
        drained(*old(h), *final(h)),
        final(h).iters@ == old(h).iters@,
        match shape_of(recv) {
            Some(s) => r matches Ok((t, items)) && t == s && elements(*old(h), recv) is Some
                && are_elems(*final(h), elements(*old(h), recv)->0, items@),
            None => r matches Err(e) && e@ == (Exc::AttributeError, no_step_text(*old(h), who@, recv)),
        },
{
    match seq_shape(h, who, recv) {
        Err(e) => Err(e),
        Ok(shape) => match iterate_to_vec(h, recv) {
            Err(e) => Err(e),
            Ok(items) => Ok((shape, items)),
        },
    }
}

/// Whether a value can be a callback.
pub open spec fn is_callback(v: Value) -> bool {
    v is Func || v is Builtin || v is Method
}

fn callback(v: Value) -> (r: bool)
    ensures r == is_callback(v),
{
    matches!(v, Value::Func(_) | Value::Builtin(_) | Value::Method(_))
}

/// The `reverse=` that the keywords from place `j` on leave.
pub open spec fn reverse_option(h: Heap, who: Seq<char>, kwargs: Seq<Keyword>, j: int, reverse: bool) -> Result<bool, Seq<char>>
    decreases kwargs.len() - j,
{
    if j < 0 || j >= kwargs.len() {
        Ok(reverse)
    } else if kwargs[j].0@ != "reverse"@ {
        Err(who + "() got an unexpected keyword argument '"@ + kwargs[j].0@ + "'"@)
    } else {
        match kwargs[j].1 {
            Value::Bool(b) => reverse_option(h, who, kwargs, j + 1, b),
            _ => Err(who + "() reverse must be a bool, not '"@ + kind_name(h, kwargs[j].1) + "'"@),
        }
    }
}

/// The `reverse=` of a sort.
pub fn reverse_kwarg(h: &Heap, who: &str, kwargs: &Vec<Keyword>) -> (r: Result<bool, VErr>)
    ensures
        match reverse_option(*h, who@, kwargs@, 0, false) {
            Ok(b) => r == Ok::<bool, VErr>(b),
            Err(t) => r matches Err(e) && e@ == (Exc::TypeError, t),
        },
{
    let mut reverse: bool = false;
    let mut j: usize = 0;
    while j < kwargs.len()
        invariant
            j <= kwargs.len(),
            reverse_option(*h, who@, kwargs@, 0, false) == reverse_option(*h, who@, kwargs@, j as int, reverse),
        decreases kwargs.len() - j,
    {
        if !same_text(kwargs[j].0.as_str(), "reverse") {
            let s = join3(who, "() got an unexpected keyword argument '", kwargs[j].0.as_str());
            return Err(type_error(join2(s.as_str(), "'")));
        }
        match kwargs[j].1 {
            Value::Bool(b) => {
                reverse = b;
            }
            v => {
                let s = join3(who, "() reverse must be a bool, not '", kind_name_of(h, v));
                return Err(type_error(join2(s.as_str(), "'")));
            }
        }
        j += 1;
    }
    Ok(reverse)
}

/// What a collection operation is called with.
#[derive(Clone, Copy, Debug, PartialEq, Eq, Structural)]
pub struct SeqCall {
    pub func: Value,
    /// The initial value of a `reduce`.
    pub seed: Option<Value>,
    pub reverse: bool,
}

/// What the callback and its options are, or what is wrong with them.
pub open spec fn seq_call(h: Heap, op: SeqOp, args: Seq<Value>, kwargs: Seq<Keyword>) -> Result<SeqCall, Seq<char>> {
    let who = op.spec_name();
    let reverse = if op == SeqOp::SortBy {
        reverse_option(h, who, kwargs, 0, false)
    } else if kwargs.len() > 0 {
        Err(who + "() takes no keyword arguments"@)
    } else {
        Ok(false)
    };
    match reverse {
        Err(t) => Err(t),
        Ok(reverse) => if op == SeqOp::Reduce {
            if args.len() != 2 {
                Err("reduce() takes an initial value and a function, e.g. xs.reduce(0, (acc, x) => acc + x)"@)
            } else if is_callback(args[1]) {
                Ok(SeqCall { func: args[1], seed: Some(args[0]), reverse })
            } else {
                Err("reduce() needs a function as its second argument, not '"@ + kind_name(h, args[1]) + "'"@)
            }
        } else if args.len() == 0 && (op == SeqOp::Any || op == SeqOp::All || op == SeqOp::Count) {
            Err(who + "() needs a predicate — truthiness is `xs."@ + who + "(x => x)`"@
                + (if op == SeqOp::Count { "; `xs.len()` is the length"@ } else { ""@ }))
        } else if args.len() != 1 {
            Err(who + "() takes exactly 1 argument"@)
        } else if is_callback(args[0]) {
            Ok(SeqCall { func: args[0], seed: None, reverse })
        } else {
            Err(who + "() needs a function, not '"@ + kind_name(h, args[0]) + "'"@)
        },
    }
}

fn read_seq_call(h: &Heap, op: SeqOp, args: &Vec<Value>, kwargs: &Vec<Keyword>) -> (r: Result<SeqCall, VErr>)
    ensures
        match seq_call(*h, op, args@, kwargs@) {
            Ok(c) => r == Ok::<SeqCall, VErr>(c),
            Err(t) => r matches Err(e) && e@ == (Exc::TypeError, t),
        },
{
    let who = op.name();
    let reverse: bool = if matches!(op, SeqOp::SortBy) {
        match reverse_kwarg(h, who, kwargs) {
            Ok(b) => b,
            Err(e) => {
                return Err(e);
            }
        }
    } else if kwargs.len() > 0 {
        return Err(type_error(join2(who, "() takes no keyword arguments")));
    } else {
        false
    };
    if matches!(op, SeqOp::Reduce) {
        if args.len() != 2 {
            return Err(crate::exc::fault(Exc::TypeError,
                "reduce() takes an initial value and a function, e.g. xs.reduce(0, (acc, x) => acc + x)"));
        }
        if callback(args[1]) {
            return Ok(SeqCall { func: args[1], seed: Some(args[0]), reverse });
        }
        return Err(type_error(join3("reduce() needs a function as its second argument, not '", kind_name_of(h, args[1]), "'")));
    }
    if args.len() == 0 && matches!(op, SeqOp::Any | SeqOp::All | SeqOp::Count) {
        let tail = if matches!(op, SeqOp::Count) { "; `xs.len()` is the length" } else { "" };
        return Err(type_error(join5(who, "() needs a predicate — truthiness is `xs.", who, "(x => x)`", tail)));
    }
    if args.len() != 1 {
        return Err(type_error(join2(who, "() takes exactly 1 argument")));
    }
    if callback(args[0]) {
        return Ok(SeqCall { func: args[0], seed: None, reverse });
    }
    let s = join3(who, "() needs a function, not '", kind_name_of(h, args[0]));
    Err(type_error(join2(s.as_str(), "'")))
}

/// The deferred steps that `recv` stands for: the innermost ones, if they were
/// deferred on this very collection.
pub open spec fn pending_for(chains: Seq<PendingChain>, recv: Value) -> bool {
    chains.len() > 0 && one_collection(chains.last().source, recv)
}

/// The stage a step becomes when it is deferred: mapping and filtering stream.
/// Mapping a dict does not, because it is checked where the dict is built.
pub open spec fn deferred_kind(op: SeqOp, shape: SeqShape, func: Value) -> Option<StageKind> {
    if op == SeqOp::Mapping && shape != SeqShape::Dict {
        Some(StageKind::Mapping(func))
    } else if op == SeqOp::Filter {
        Some(StageKind::Filter(func))
    } else {
        None
    }
}

/// A job that has not begun.
pub open spec fn job_begun(j: SeqJob, op: SeqOp, shape: SeqShape, func: Option<Value>, spread: Spread, stages: Seq<Stage>,
    seed: Option<Value>, reverse: bool, limit: usize, pick_first: bool, line: u32, col: u32) -> bool {
    &&& j.op == op && j.shape == shape && j.func == func && j.spread == spread && j.stages@ == stages
    &&& j.results@ == (match seed {
        Some(v) => seq![v],
        None => Seq::empty(),
    })
    &&& j.next == 0 && j.work@.len() == 0 && j.held is Null && j.resume == SeqResume::Terminal
    &&& j.limit == limit && j.pick_first == pick_first && !j.drop_done && j.reverse == reverse
    &&& j.line == line && j.col == col
    &&& stages.len() == 0 ==> j.src@.len() == 0
    &&& stages.len() > 0 ==> j.items@.len() == 0
}

/// The elements a job that has not begun will walk.
pub open spec fn job_source(j: SeqJob) -> Seq<Value> {
    if j.stages@.len() == 0 { j.items@ } else { j.src@ }
}

/// A job was begun between `a` and `b`, over the elements of `recv`.
pub open spec fn seq_started(a: Vm, b: Vm, recv: Value) -> bool {
    &&& b == (Vm { task: Task { seqs: b.task.seqs, ..a.task }, heap: b.heap, chains: b.chains, ..a })
    &&& b.task.seqs@.len() == a.task.seqs@.len() + 1
    &&& b.task.seqs@.drop_last() == a.task.seqs@
    &&& drained(a.heap, b.heap)
    &&& b.heap.iters@ == a.heap.iters@
    &&& elements(a.heap, recv) is Some
    &&& are_elems(b.heap, elements(a.heap, recv)->0, job_source(b.task.seqs@.last()))
}

/// The stages deferred on `recv`, and the others.
pub open spec fn pending_stages(a: Vm, recv: Value, flush: bool) -> Seq<Stage> {
    if flush && pending_for(a.chains@, recv) { a.chains@.last().stages@ } else { Seq::empty() }
}

/// The shape elements have where they come out of what was deferred on `recv`.
pub open spec fn pending_shape(a: Vm, recv: Value, flush: bool) -> Option<SeqShape> {
    if flush && pending_for(a.chains@, recv) { Some(a.chains@.last().shape) } else { shape_of(recv) }
}

/// The deferred steps that are left once those of `recv` were taken.
pub open spec fn chains_left(a: Vm, recv: Value, flush: bool) -> Seq<PendingChain> {
    if flush && pending_for(a.chains@, recv) { a.chains@.drop_last() } else { a.chains@ }
}

/// What a collection operation does: it defers itself where the next step can
/// run it, or it starts a job.
pub open spec fn seq_op_result(a: Vm, b: Vm, op: SeqOp, recv: Value, args: Seq<Value>, kwargs: Seq<Keyword>, hint: bool, flush: bool, r: Step) -> bool {
    match seq_call(a.heap, op, args, kwargs) {
        Err(t) => faults(r, Exc::TypeError, t) && b == a,
        Ok(call) => match pending_shape(a, recv, flush) {
            None => faults(r, Exc::AttributeError, no_step_text(a.heap, op.spec_name(), recv)) && b == a,
            Some(shape) => {
                let spread = step_spread(a.heap, call.func, shape, if op == SeqOp::Reduce { 1 } else { 0 });
                let stages = pending_stages(a, recv, flush);
                match (if hint { deferred_kind(op, shape, call.func) } else { None }) {
                    Some(kind) => deferred(a, b, recv, flush, shape, stages.push(Stage { kind, line: a.task.line, col: a.task.col, spread }), r),
                    None => {
                        &&& b.chains@ == chains_left(a, recv, flush)
                        &&& r == Step::Drive(Job::Chain)
                        &&& seq_started(a, b, recv)
                        &&& if stages.len() > 0 && op == SeqOp::Filter {
                            // A filter that ends a fused run is one more stage.
                            job_begun(b.task.seqs@.last(), SeqOp::Collect, shape, None, spread,
                                stages.push(Stage { kind: StageKind::Filter(call.func), line: a.task.line, col: a.task.col, spread }),
                                call.seed, call.reverse, usize::MAX, false, a.task.line, a.task.col)
                        } else {
                            job_begun(b.task.seqs@.last(), op, shape, Some(call.func), spread, stages,
                                call.seed, call.reverse, usize::MAX, false, a.task.line, a.task.col)
                        }
                    },
                }
            },
        },
    }
}

/// A step deferred itself: the receiver stands in for the collection that was
/// not built.
pub open spec fn deferred(a: Vm, b: Vm, recv: Value, flush: bool, shape: SeqShape, stages: Seq<Stage>, r: Step) -> bool {
    let c = b.chains@.last();
    &&& r is Next
    &&& b == (Vm { task: b.task, chains: b.chains, ..a })
    &&& b.task == (Task { frames: b.task.frames, ..a.task })
    &&& b.task.frames@.len() == a.task.frames@.len()
    &&& b.task.frames@.drop_last() == a.task.frames@.drop_last()
    &&& b.top() == (Frame { stack: b.top().stack, ..a.top() })
    &&& b.stack() == a.stack().push(recv)
    &&& b.chains@.len() == chains_left(a, recv, flush).len() + 1
    &&& b.chains@.drop_last() == chains_left(a, recv, flush)
    &&& c.stages@ == stages
    &&& c.shape == shape
    &&& if flush && pending_for(a.chains@, recv) {
        c.source == a.chains@.last().source && c.frame_depth == a.chains@.last().frame_depth
    } else {
        c.source == recv && c.frame_depth == a.task.frames@.len()
    }
}

impl Vm {
    /// Take the steps deferred on `recv`, if the innermost ones are.
    pub fn take_chain(&mut self, recv: Value) -> (r: Option<PendingChain>)
        ensures
            *final(self) == (Vm { chains: final(self).chains, ..*old(self) }),
            if pending_for(old(self).chains@, recv) {
                r == Some(old(self).chains@.last()) && final(self).chains@ == old(self).chains@.drop_last()
            } else {
                r is None && final(self).chains@ == old(self).chains@
            },
    {
        let n = self.chains.len();
        if n > 0 && same_collection(self.chains[n - 1].source, recv) {
            self.chains.pop()
        } else {
            None
        }
    }

    /// Start a job over `source`. With nothing fused before it, the elements
    /// are its input as they are.
    pub fn begin_seq(&mut self, job: SeqJob) -> (r: Step)
        requires job.items@.len() == 0,
        ensures
            r == Step::Drive(Job::Chain),
            *final(self) == (Vm { task: Task { seqs: final(self).task.seqs, ..old(self).task }, ..*old(self) }),
            final(self).task.seqs@.len() == old(self).task.seqs@.len() + 1,
            final(self).task.seqs@.drop_last() == old(self).task.seqs@,
            job_source(final(self).task.seqs@.last()) == job.src@,
            final(self).task.seqs@.last() == (SeqJob {
                items: final(self).task.seqs@.last().items,
                src: final(self).task.seqs@.last().src,
                ..job
            }),
            job.stages@.len() == 0 ==> final(self).task.seqs@.last().src@.len() == 0,
            job.stages@.len() > 0 ==> final(self).task.seqs@.last().items@.len() == 0,
    {
        let mut job = job;
        if job.stages.len() == 0 {
            std::mem::swap(&mut job.items, &mut job.src);
        }
        self.task.seqs.push(job);
        assert(self.task.seqs@.drop_last() =~= old(self).task.seqs@);
        Step::Drive(Job::Chain)
    }

    /// A collection operation with a callback.
    pub fn do_seq_op(&mut self, op: SeqOp, recv: Value, args: Vec<Value>, kwargs: Vec<Keyword>, hint: bool, flush: bool) -> (r: Step)
        requires old(self).running(),
        ensures seq_op_result(*old(self), *final(self), op, recv, args@, kwargs@, hint, flush, r),
    {
        let ghost a = *self;
        let call = match read_seq_call(&self.heap, op, &args, &kwargs) {
            Ok(c) => c,
            Err(e) => {
                return fail(e);
            }
        };
        let lead: usize = if matches!(op, SeqOp::Reduce) { 1 } else { 0 };
        let line = self.task.line;
        let col = self.task.col;
        // The shape is settled before anything is taken.
        let n = self.chains.len();
        let fused: bool = flush && n > 0 && same_collection(self.chains[n - 1].source, recv);
        let shape = if fused {
            self.chains[n - 1].shape
        } else {
            match seq_shape(&self.heap, op.name(), recv) {
                Ok(s) => s,
                Err(e) => {
                    return fail(e);
                }
            }
        };
        let spread = seq_spread(&self.heap, call.func, shape, lead);
        let pending = if fused { self.take_chain(recv) } else { None };
        let ghost m = *self;
        assert(m.chains@ == chains_left(a, recv, flush));
        let (source, frame_depth, mut stages): (Value, usize, Vec<Stage>) = match pending {
            Some(p) => (p.source, p.frame_depth, p.stages),
            None => (recv, self.task.frames.len(), Vec::new()),
        };
        assert(stages@ =~= pending_stages(a, recv, flush));
        let ghost st0 = stages@;
        if hint {
            let kind = if matches!(op, SeqOp::Mapping) && !matches!(shape, SeqShape::Dict) {
                Some(StageKind::Mapping(call.func))
            } else if matches!(op, SeqOp::Filter) {
                Some(StageKind::Filter(call.func))
            } else {
                None
            };
            if let Some(kind) = kind {
                stages.push(Stage { kind, line, col, spread });
                self.chains.push(PendingChain { source, stages, shape, frame_depth });
                assert(self.chains@.drop_last() =~= chains_left(a, recv, flush));
                self.push(recv);
                return Step::Next;
            }
        }
        let mut op2 = op;
        let mut func = Some(call.func);
        if stages.len() > 0 && matches!(op, SeqOp::Filter) {
            stages.push(Stage { kind: StageKind::Filter(call.func), line, col, spread });
            op2 = SeqOp::Collect;
            func = None;
        }
        let src = match seq_receiver(&mut self.heap, op.name(), recv) {
            Ok((_, items)) => items,
            Err(e) => {
                return fail(e);
            }
        };
        let mut results: Vec<Value> = Vec::new();
        if let Some(v) = call.seed {
            results.push(v);
        }
        assert(results@ =~= (match call.seed {
            Some(v) => seq![v],
            None => Seq::empty(),
        }));
        self.begin_seq(SeqJob {
            op: op2,
            shape,
            items: Vec::new(),
            results,
            next: 0,
            func,
            spread,
            stages,
            src,
            work: Vec::new(),
            held: Value::Null,
            resume: SeqResume::Terminal,
            limit: usize::MAX,
            pick_first: false,
            drop_done: false,
            reverse: call.reverse,
            line,
            col,
        })
    }
}

/// The limit a call without callback puts on the chain it ends, and whether it
/// wants the one element.
pub open spec fn tail_limit(name: Seq<char>, args: Seq<Value>) -> Option<(usize, bool)> {
    if name == "first"@ && args.len() == 0 {
        Some((1, true))
    } else if name == "take"@ && args.len() == 1 && (args[0] matches Value::Int(n) && 0 <= n <= usize::MAX) {
        Some((args[0]->Int_0 as usize, false))
    } else {
        None
    }
}

/// What `first()` or `take(n)` at the end of a chain does: the deferred steps
/// run until that many elements came through. `None` says that this is no such
/// call, or that nothing was deferred.
pub open spec fn tail_result(a: Vm, b: Vm, recv: Value, name: Seq<char>, args: Seq<Value>, r: Option<Step>) -> bool {
    match tail_limit(name, args) {
        Some((limit, pick_first)) => if pending_for(a.chains@, recv) {
            &&& r == Some(Step::Drive(Job::Chain))
            &&& b.chains@ == a.chains@.drop_last()
            &&& seq_started(a, b, recv)
            &&& job_begun(b.task.seqs@.last(), SeqOp::Collect, a.chains@.last().shape, None, Spread::Whole, a.chains@.last().stages@,
                None, false, limit, pick_first, a.task.line, a.task.col)
        } else {
            r is None && b == a
        },
        None => r is None && b == a,
    }
}

impl Vm {
    /// `first()` and `take(n)` ending a fused chain.
    pub fn chain_tail(&mut self, recv: Value, name: &str, args: &Vec<Value>) -> (r: Option<Step>)
        ensures tail_result(*old(self), *final(self), recv, name@, args@, r),
    {
        let ghost a = *self;
        let (limit, pick_first): (usize, bool) = if same_text(name, "first") && args.len() == 0 {
            (1, true)
        } else if same_text(name, "take") && args.len() == 1 {
            match args[0] {
                Value::Int(n) => {
                    if n < 0 || n as u64 > usize::MAX as u64 {
                        return None;
                    }
                    (n as usize, false)
                }
                _ => {
                    return None;
                }
            }
        } else {
            return None;
        };
        let n = self.chains.len();
        if n == 0 || !same_collection(self.chains[n - 1].source, recv) {
            return None;
        }
        let p = match self.take_chain(recv) {
            Some(p) => p,
            None => {
                return None;
            }
        };
        let line = self.task.line;
        let col = self.task.col;
        let src = match seq_receiver(&mut self.heap, name, recv) {
            Ok((_, items)) => items,
            Err(_) => Vec::new(),
        };
        let r = self.begin_seq(SeqJob {
            op: SeqOp::Collect,
            shape: p.shape,
            items: Vec::new(),
            results: Vec::new(),
            next: 0,
            func: None,
            spread: Spread::Whole,
            stages: p.stages,
            src,
            work: Vec::new(),
            held: Value::Null,
            resume: SeqResume::Terminal,
            limit,
            pick_first,
            drop_done: false,
            reverse: false,
            line,
            col,
        });
        Some(r)
    }
}

/// Whether the answer of a running operation is settled already.
pub open spec fn settled(h: Heap, j: SeqJob) -> bool {
    match j.op {
        SeqOp::Find | SeqOp::Any => any_true(h, j.results@),
        SeqOp::All => !all_true(h, j.results@),
        SeqOp::TakeWhile => j.results@.len() > 0 && !truthy(h, j.results@.last()),
        _ => j.items@.len() >= j.limit,
    }
}

/// A callback to be run on an element.
#[derive(Clone, Copy, Debug, PartialEq, Eq, Structural)]
pub struct Callback {
    pub op: SeqOp,
    pub func: Value,
    pub spread: Spread,
    pub item: Value,
    /// The accumulator that goes in front.
    pub acc: Option<Value>,
    /// Where the step is written.
    pub line: u32,
    pub col: u32,
}

/// What a running operation does next.
#[derive(Clone, Copy, Debug, PartialEq, Eq, Structural)]
pub enum Pick {
    /// It is done.
    Finished,
    /// It took an element in without a callback.
    Absorbed,
    Call(Callback),
}

/// The element that is next, the stage it stands before, and whether it was on
/// its way already.
pub open spec fn next_element(j: SeqJob) -> Option<(usize, Value, bool)> {
    if j.work@.len() > 0 {
        Some((j.work@.last().0, j.work@.last().1, true))
    } else if j.next < job_source(j).len() {
        Some((0, job_source(j)[j.next as int], false))
    } else {
        None
    }
}

/// The job after its next element was drawn.
pub open spec fn drew_element(j: SeqJob, k: SeqJob) -> bool {
    &&& k == (SeqJob { work: k.work, next: k.next, items: k.items, results: k.results, held: k.held, resume: k.resume, ..j })
    &&& if j.work@.len() > 0 {
        k.work@ == j.work@.drop_last() && k.next == j.next
    } else {
        k.work@ == j.work@ && k.next == j.next + 1
    }
}

/// The elements kept for the answer, with `item` where the operation keeps the
/// elements that come out of the stages.
pub open spec fn kept(j: SeqJob, item: Value, keep: bool) -> Seq<Value> {
    if j.stages@.len() > 0 && keep { j.items@.push(item) } else { j.items@ }
}

/// What a running operation does next, and the job it is then.
pub open spec fn pick_result(h: Heap, j: SeqJob, k: SeqJob, p: Pick) -> bool {
    match (if settled(h, j) { None } else { next_element(j) }) {
        None => p == Pick::Finished && k == j,
        Some((stage, item, _)) => {
            &&& drew_element(j, k)
            &&& if stage < j.stages@.len() {
                let st = j.stages@[stage as int];
                &&& k.resume == SeqResume::Stage(stage)
                &&& k.items@ == j.items@ && k.results@ == j.results@
                &&& match st.kind {
                    StageKind::Mapping(f) => k.held is Null && p == Pick::Call(Callback {
                        op: SeqOp::Mapping, func: f, spread: st.spread, item, acc: None, line: st.line, col: st.col }),
                    StageKind::Filter(f) => k.held == item && p == Pick::Call(Callback {
                        op: SeqOp::Filter, func: f, spread: st.spread, item, acc: None, line: st.line, col: st.col }),
                }
            } else {
                &&& k.resume == SeqResume::Terminal
                &&& k.held == j.held
                &&& match j.func {
                    None => p == Pick::Absorbed && k.items@ == j.items@.push(item) && k.results@ == j.results@,
                    Some(f) => if j.op == SeqOp::DropWhile && j.drop_done {
                        // Dropping is over: the rest is kept unasked.
                        p == Pick::Absorbed && k.items@ == kept(j, item, true) && k.results@ == j.results@.push(Value::Bool(false))
                    } else {
                        &&& k.items@ == kept(j, item, j.op.spec_keeps_items())
                        &&& k.results@ == j.results@
                        &&& p == Pick::Call(Callback {
                            op: j.op,
                            func: f,
                            spread: j.spread,
                            item,
                            acc: if j.op == SeqOp::Reduce {
                                Some(if j.results@.len() > 0 { j.results@.last() } else { Value::Null })
                            } else {
                                None
                            },
                            line: j.line,
                            col: j.col,
                        })
                    },
                }
            }
        },
    }
}

fn is_settled(h: &Heap, j: &SeqJob) -> (r: bool)
    ensures r == settled(*h, *j),
{
    match j.op {
        SeqOp::Find | SeqOp::Any => has_true(h, &j.results),
        SeqOp::All => !has_only_true(h, &j.results),
        SeqOp::TakeWhile => {
            let n = j.results.len();
            n > 0 && !is_truthy(h, j.results[n - 1])
        }
        _ => j.items.len() >= j.limit,
    }
}

/// Go on with a running operation.
pub fn pick_next(h: &Heap, j: &mut SeqJob) -> (r: Pick)
    ensures pick_result(*h, *old(j), *final(j), r),
{
    let ghost j0 = *j;
    if is_settled(h, j) {
        return Pick::Finished;
    }
    let staged: bool = j.stages.len() > 0;
    let waiting = j.work.len();
    let (stage, item): (usize, Value) = if waiting > 0 {
        let w = j.work[waiting - 1];
        let _w = j.work.pop();
        w
    } else {
        let n = if staged { j.src.len() } else { j.items.len() };
        if j.next >= n {
            return Pick::Finished;
        }
        let v = if staged { j.src[j.next] } else { j.items[j.next] };
        j.next = j.next + 1;
        (0, v)
    };
    if stage < j.stages.len() {
        let st = j.stages[stage];
        j.resume = SeqResume::Stage(stage);
        return match st.kind {
            StageKind::Mapping(f) => {
                j.held = Value::Null;
                Pick::Call(Callback { op: SeqOp::Mapping, func: f, spread: st.spread, item, acc: None, line: st.line, col: st.col })
            }
            StageKind::Filter(f) => {
                j.held = item;
                Pick::Call(Callback { op: SeqOp::Filter, func: f, spread: st.spread, item, acc: None, line: st.line, col: st.col })
            }
        };
    }
    j.resume = SeqResume::Terminal;
    let f = match j.func {
        Some(f) => f,
        None => {
            j.items.push(item);
            return Pick::Absorbed;
        }
    };
    if matches!(j.op, SeqOp::DropWhile) && j.drop_done {
        if staged {
            j.items.push(item);
        }
        j.results.push(Value::Bool(false));
        return Pick::Absorbed;
    }
    if staged && j.op.keeps_items() {
        j.items.push(item);
    }
    let n = j.results.len();
    let acc = if matches!(j.op, SeqOp::Reduce) {
        Some(if n > 0 { j.results[n - 1] } else { Value::Null })
    } else {
        None
    };
    Pick::Call(Callback { op: j.op, func: f, spread: j.spread, item, acc, line: j.line, col: j.col })
}

/// The job after a callback answered `v`. A stage's answer decides about the
/// element it was asked about; the terminal's is one of the results, and for
/// `reduce` the new accumulator.
pub open spec fn recorded(h: Heap, j: SeqJob, k: SeqJob, v: Value) -> bool {
    match j.resume {
        SeqResume::Terminal => {
            &&& k == (SeqJob { results: k.results, drop_done: k.drop_done, ..j })
            &&& k.results@ == (if j.op == SeqOp::Reduce { seq![v] } else { j.results@.push(v) })
            &&& k.drop_done == (j.drop_done || (j.op == SeqOp::DropWhile && !truthy(h, v)))
        },
        SeqResume::Stage(n) => {
            &&& k == (SeqJob { work: k.work, held: Value::Null, ..j })
            &&& k.work@ == (if n < j.stages@.len() && n < usize::MAX {
                match j.stages@[n as int].kind {
                    StageKind::Mapping(_) => j.work@.push(((n + 1) as usize, v)),
                    StageKind::Filter(_) => if truthy(h, v) { j.work@.push(((n + 1) as usize, j.held)) } else { j.work@ },
                }
            } else {
                j.work@
            })
        },
    }
}

/// Record what a callback answered.
pub fn record_result(h: &Heap, j: &mut SeqJob, v: Value)
    ensures recorded(*h, *old(j), *final(j), v),
{
    match j.resume {
        SeqResume::Terminal => {
            if matches!(j.op, SeqOp::Reduce) {
                j.results.clear();
            }
            if matches!(j.op, SeqOp::DropWhile) && !is_truthy(h, v) {
                j.drop_done = true;
            }
            j.results.push(v);
            assert(j.op == SeqOp::Reduce ==> j.results@ =~= seq![v]);
        }
        SeqResume::Stage(n) => {
            let held = j.held;
            j.held = Value::Null;
            if n < j.stages.len() && n < usize::MAX {
                match j.stages[n].kind {
                    StageKind::Mapping(_) => {
                        j.work.push((n + 1, v));
                    }
                    StageKind::Filter(_) => {
                        if is_truthy(h, v) {
                            j.work.push((n + 1, held));
                        }
                    }
                }
            }
        }
    }
}

/// The arguments a callback is called with: the accumulator, then the element
/// whole or taken apart; or what is wrong with the element.
pub open spec fn args_result(a: Heap, b: Heap, cb: Callback, r: Result<Vec<Value>, VErr>) -> bool {
    match cb.spread {
        Spread::Whole => (r matches Ok(v) && v@ == (match cb.acc {
            Some(x) => seq![x, cb.item],
            None => seq![cb.item],
        })) && b == a,
        Spread::Unpack(n) => exists|u: Result<Vec<Value>, VErr>| {
            &&& #[trigger] unpacked(a, b, cb.item, n, u)
            &&& match u {
                Ok(parts) => r matches Ok(v) && v@ == (match cb.acc {
                    Some(x) => seq![x] + parts@,
                    None => parts@,
                }),
                Err(e) => r matches Err(f) && f@ == e@,
            }
        },
    }
}

fn seq_args(h: &mut Heap, cb: Callback) -> (r: Result<Vec<Value>, VErr>)
    ensures
        args_result(*old(h), *final(h), cb, r),
        drained(*old(h), *final(h)),
{
    match cb.spread {
        Spread::Whole => {
            let mut v: Vec<Value> = Vec::new();
            if let Some(x) = cb.acc {
                v.push(x);
            }
            v.push(cb.item);
            assert(v@ =~= (match cb.acc {
                Some(x) => seq![x, cb.item],
                None => seq![cb.item],
            }));
            Ok(v)
        }
        Spread::Unpack(n) => {
            let ghost a = *h;
            let u = unpack_exact(h, cb.item, n);
            let ghost uv = u;
            assert(unpacked(a, *h, cb.item, n, uv));
            match u {
                Err(e) => Err(e),
                Ok(parts) => match cb.acc {
                    None => Ok(parts),
                    Some(x) => {
                        let mut v: Vec<Value> = Vec::new();
                        v.push(x);
                        let ghost pv = parts@;
                        let mut parts = parts;
                        v.append(&mut parts);
                        assert(v@ =~= seq![x] + pv);
                        Ok(v)
                    }
                },
            }
        }
    }
}

/// The machine stands where a step is written.
pub open spec fn positioned(a: Vm, b: Vm, line: u32, col: u32) -> bool {
    b == (Vm { task: Task { line, col, ..a.task }, heap: b.heap, ..a })
}

/// The message for `min` or `max` called on one value.
pub open spec fn extreme_arity_text(name: Seq<char>) -> Seq<char> {
    name + "() takes two or more values — for a collection write `xs."@ + name + "()`"@
}

/// What a native function does as a callback. `min` and `max` of values with an
/// order of their own are done here; anything else is the host's.
pub open spec fn builtin_callback(m: Vm, b: Vm, i: usize, args: Seq<Value>, r: Step) -> bool {
    let name = if i < m.heap.builtins@.len() { m.heap.builtins@[i as int]@ } else { ""@ };
    if (name == "min"@ || name == "max"@) && needs_machine(m.heap, args) {
        if args.len() < 2 {
            faults(r, Exc::TypeError, extreme_arity_text(name)) && b == m
        } else {
            begin_order_result(m, b, OrderKind::Extreme { want_min: name == "min"@, by: false }, args, args, false, OrderCont::Callback, r)
        }
    } else {
        (r matches Step::Host(c) && (c.0 matches HostCall::Builtin(k, av, kv) && k == i && av@ == args && kv@.len() == 0)
            && c.1 == ReturnAction::DriveSeq) && b == m
    }
}

/// What a method does as a callback.
pub open spec fn method_callback(m: Vm, b: Vm, i: usize, args: Seq<Value>, r: Step) -> bool {
    if i < m.heap.methods@.len() {
        let recv = m.heap.methods@[i as int].receiver;
        match m.heap.methods@[i as int].kind {
            MethodKind::Native(name) => (r matches Step::Host(c) && (c.0 matches HostCall::Method(v, s, av, kv)
                && v == recv && s@ == name@ && av@ == args && kv@.len() == 0) && c.1 == ReturnAction::DriveSeq) && b == m,
            MethodKind::User { func, defclass } => user_result(m, b, func, recv, defclass, args, Seq::empty(), ReturnAction::DriveSeq, r),
        }
    } else {
        faults(r, Exc::RuntimeError, "internal: call of a method that was never made"@) && b == m
    }
}

/// What running a callback on an element does.
pub open spec fn callback_result(a: Vm, b: Vm, cb: Callback, r: Step) -> bool {
    let who = cb.op.spec_name();
    match cb.func {
        Value::Func(f) if a.task.frames@.len() >= MAX_FRAMES => faults(r, Exc::RecursionError, too_deep_text()) && b == a,
        Value::Func(f) if makes_generator(a.heap, f) => faults(r, Exc::TypeError, who + "() callback must not be a generator function"@)
            && positioned(a, b, cb.line, cb.col) && b.heap == a.heap,
        Value::Func(_) | Value::Builtin(_) | Value::Method(_) => exists|m: Vm, args: Result<Vec<Value>, VErr>| {
            &&& m == (Vm { heap: m.heap, ..a })
            &&& #[trigger] args_result(a.heap, m.heap, cb, args)
            &&& match args {
                Err(e) => faults(r, e@.0, e@.1) && positioned(m, b, cb.line, cb.col) && b.heap == m.heap,
                Ok(v) => match cb.func {
                    Value::Func(f) => enter_result(m, b, f, None, None, v@, Seq::empty(), ReturnAction::DriveSeq, r),
                    Value::Builtin(i) => builtin_callback(m, b, i, v@, r),
                    Value::Method(i) => method_callback(m, b, i, v@, r),
                    _ => false,
                },
            }
        },
        _ => faults(r, Exc::TypeError, who + "() callback is not callable"@) && positioned(a, b, cb.line, cb.col) && b.heap == a.heap,
    }
}

/// A copy of some values.
pub fn copy_values(v: &Vec<Value>) -> (r: Vec<Value>)
    ensures r@ == v@,
{
    let r = copy_range(v, 0, v.len());
    assert(r@ =~= v@);
    r
}

impl Vm {
    fn builtin_back(&mut self, i: usize, args: Vec<Value>) -> (r: Step)
        requires old(self).running(),
        ensures builtin_callback(*old(self), *final(self), i, args@, r),
    {
        let name = if i < self.heap.builtins.len() { self.heap.builtins[i].clone() } else { "".to_owned() };
        let min = same_text(name.as_str(), "min");
        let max = same_text(name.as_str(), "max");
        if (min || max) && ord_needs_vm(&self.heap, &args) {
            if args.len() < 2 {
                let s = join3(name.as_str(), "() takes two or more values — for a collection write `xs.", name.as_str());
                return fail(type_error(join2(s.as_str(), "()`")));
            }
            let keys = copy_values(&args);
            return self.begin_order(OrderKind::Extreme { want_min: min, by: false }, args, keys, false, OrderCont::Callback);
        }
        Step::Host(Box::new((HostCall::Builtin(i, args, Vec::new()), ReturnAction::DriveSeq)))
    }

    fn method_back(&mut self, i: usize, args: Vec<Value>) -> (r: Step)
        ensures method_callback(*old(self), *final(self), i, args@, r),
    {
        if i >= self.heap.methods.len() {
            return fault_step(Exc::RuntimeError, "internal: call of a method that was never made");
        }
        let recv = self.heap.methods[i].receiver;
        let target: Result<(usize, usize), String> = match &self.heap.methods[i].kind {
            MethodKind::Native(name) => Err(name.clone()),
            MethodKind::User { func, defclass } => Ok((*func, *defclass)),
        };
        match target {
            Err(name) => Step::Host(Box::new((HostCall::Method(recv, name, args, Vec::new()), ReturnAction::DriveSeq))),
            Ok((func, defclass)) => self.invoke_user(func, recv, defclass, args, Vec::new(), ReturnAction::DriveSeq),
        }
    }

    /// Run a callback on an element.
    pub fn call_back(&mut self, cb: Callback) -> (r: Step)
        requires old(self).running(),
        ensures callback_result(*old(self), *final(self), cb, r),
    {
        let ghost a = *self;
        let who = cb.op.name();
        match cb.func {
            Value::Func(f) => {
                if self.task.frames.len() >= MAX_FRAMES {
                    return fault_step(Exc::RecursionError, "maximum recursion depth exceeded");
                }
                if self.is_generator(f) {
                    self.task.line = cb.line;
                    self.task.col = cb.col;
                    return fail(type_error(join2(who, "() callback must not be a generator function")));
                }
            }
            Value::Builtin(_) => {}
            Value::Method(_) => {}
            _ => {
                self.task.line = cb.line;
                self.task.col = cb.col;
                return fail(type_error(join2(who, "() callback is not callable")));
            }
        }
        let args = seq_args(&mut self.heap, cb);
        let ghost m = *self;
        let ghost av = args;
        assert(args_result(a.heap, m.heap, cb, av));
        match args {
            Err(e) => {
                self.task.line = cb.line;
                self.task.col = cb.col;
                fail(e)
            }
            Ok(v) => match cb.func {
                Value::Func(f) => self.enter_callback(f, v),
                Value::Builtin(i) => self.builtin_back(i, v),
                Value::Method(i) => self.method_back(i, v),
                _ => Step::Next,
            },
        }
    }
}

/// `out` is `before` and then what iterating over `v` hands out.
pub open spec fn flat_join(m: Heap, b: Heap, v: Value, before: Seq<Value>, part: Result<Vec<Value>, VErr>, out: Seq<Value>) -> bool {
    iterated(m, b, v, part) && (part matches Ok(p) && out == before + p@)
}

/// `out` is what iterating over the first `n` of these hands out, in a row.
pub open spec fn flat_ok(a: Heap, b: Heap, rs: Seq<Value>, n: int, out: Seq<Value>) -> bool
    decreases n,
{
    if n <= 0 {
        b == a && out.len() == 0
    } else {
        exists|m: Heap, before: Seq<Value>, part: Result<Vec<Value>, VErr>| {
            &&& flat_ok(a, m, rs, n - 1, before)
            &&& #[trigger] flat_join(m, b, rs[n - 1], before, part, out)
        }
    }
}

/// The first `k` of these could be iterated over, and the next one could not.
pub open spec fn flat_stops(m: Heap, b: Heap, v: Value, k: int, before: Seq<Value>, part: Result<Vec<Value>, VErr>, e: VErr) -> bool {
    iterated(m, b, v, part) && (part matches Err(x) && x@ == e@)
}

/// What joining the results of a `flat_map` comes to.
pub open spec fn flat_result(a: Heap, b: Heap, rs: Seq<Value>, r: Result<Vec<Value>, VErr>) -> bool {
    match r {
        Ok(out) => flat_ok(a, b, rs, rs.len() as int, out@),
        Err(e) => exists|k: int, m: Heap, before: Seq<Value>, part: Result<Vec<Value>, VErr>| {
            &&& 0 <= k < rs.len()
            &&& flat_ok(a, m, rs, k, before)
            &&& #[trigger] flat_stops(m, b, rs[k], k, before, part, e)
        },
    }
}

fn join_flat(h: &mut Heap, rs: &Vec<Value>) -> (r: Result<Vec<Value>, VErr>)
    ensures
        flat_result(*old(h), *final(h), rs@, r),
        drained(*old(h), *final(h)),
{
    let mut out: Vec<Value> = Vec::new();
    let mut i: usize = 0;
    while i < rs.len()
        invariant
            i <= rs.len(),
            flat_ok(*old(h), *h, rs@, i as int, out@),
            drained(*old(h), *h),
        decreases rs.len() - i,
    {
        let ghost m = *h;
        let ghost before = out@;
        let part = iterate_to_vec(h, rs[i]);
        let ghost pv = part;
        match part {
            Err(e) => {
                assert(flat_stops(m, *h, rs@[i as int], i as int, before, pv, e));
                return Err(e);
            }
            Ok(items) => {
                let mut items = items;
                out.append(&mut items);
                assert(out@ =~= before + pv->Ok_0@);
                proof {
                    let n: int = i + 1;
                    assert(flat_ok(*old(h), m, rs@, n - 1, before));
                    assert(flat_join(m, *h, rs@[n - 1], before, pv, out@));
                    assert(flat_ok(*old(h), *h, rs@, n, out@));
                }
            }
        }
        i += 1;
    }
    Ok(out)
}

/// A collection of these elements is on the stack, or they do not make one.
pub open spec fn rebuilt(a: Vm, b: Vm, shape: SeqShape, items: Seq<Value>, r: Step) -> bool {
    exists|m: Vm, v: Result<Value, VErr>| {
        &&& m == (Vm { heap: m.heap, ..a })
        &&& collections_grew(a.heap, m.heap)
        &&& #[trigger] rebuild_result(a.heap, m.heap, shape, items, v)
        &&& match v {
            Ok(x) => r is Next && restacked(m, b, a.stack().push(x)) && b.heap == m.heap,
            Err(e) => faults(r, e@.0, e@.1) && b == m,
        }
    }
}

/// The shape an operation's answer has.
pub open spec fn answer_shape(j: SeqJob) -> SeqShape {
    if j.op.spec_preserves_shape() { j.shape } else { SeqShape::List }
}

/// A value is on the stack and nothing else happened.
pub open spec fn gave(a: Vm, b: Vm, v: Value, r: Step) -> bool {
    r is Next && restacked(a, b, a.stack().push(v)) && b.heap == a.heap
}

/// Both halves of a partition are on the stack as a pair.
pub open spec fn partitioned(a: Vm, b: Vm, j: SeqJob, r: Step) -> bool {
    let n = paired_len(j.items@, j.results@) as int;
    exists|m: Vm, yes: Result<Value, VErr>| {
        &&& m == (Vm { heap: m.heap, ..a })
        &&& collections_grew(a.heap, m.heap)
        &&& #[trigger] rebuild_result(a.heap, m.heap, j.shape, chosen(a.heap, j.items@, j.results@, true, n), yes)
        &&& match yes {
            Err(e) => faults(r, e@.0, e@.1) && b == m,
            Ok(y) => partition_rest(a, m, b, j, y, r),
        }
    }
}

/// The second half of a partition.
pub open spec fn partition_rest(a: Vm, m: Vm, b: Vm, j: SeqJob, y: Value, r: Step) -> bool {
    let n = paired_len(j.items@, j.results@) as int;
    exists|k: Vm, no: Result<Value, VErr>| {
        &&& k == (Vm { heap: k.heap, ..a })
        &&& collections_grew(m.heap, k.heap)
        &&& #[trigger] rebuild_result(m.heap, k.heap, j.shape, chosen(a.heap, j.items@, j.results@, false, n), no)
        &&& match no {
            Err(e) => faults(r, e@.0, e@.1) && b == k,
            Ok(x) => {
                &&& r is Next
                &&& restacked(k, b, a.stack().push(Value::Tuple(k.heap.tuples.len())))
                &&& b.heap.tuple(k.heap.tuples.len()) == seq![y, x]
                &&& collections_grew(k.heap, b.heap)
            },
        }
    }
}

/// What a finished operation comes to.
pub open spec fn finish_seq_result(a: Vm, b: Vm, j: SeqJob, r: Step) -> bool {
    let items = j.items@;
    let results = j.results@;
    let n = paired_len(items, results) as int;
    if j.pick_first {
        gave(a, b, if items.len() > 0 { items[0] } else { Value::Null }, r)
    } else {
        match j.op {
            SeqOp::Reduce => gave(a, b, if results.len() > 0 { results.last() } else { Value::Null }, r),
            SeqOp::Find => gave(a, b, found_item(a.heap, items, results), r),
            SeqOp::Any => gave(a, b, Value::Bool(any_true(a.heap, results)), r),
            SeqOp::All => gave(a, b, Value::Bool(all_true(a.heap, results)), r),
            SeqOp::Count => gave(a, b, Value::Int(count_true(a.heap, results) as i64), r),
            SeqOp::MinBy => begin_order_result(a, b, OrderKind::Extreme { want_min: true, by: true }, items, results, false, OrderCont::Push, r),
            SeqOp::MaxBy => begin_order_result(a, b, OrderKind::Extreme { want_min: false, by: true }, items, results, false, OrderCont::Push, r),
            SeqOp::SortBy => begin_order_result(a, b, OrderKind::Sort(j.shape), items, results, j.reverse, OrderCont::Push, r),
            SeqOp::GroupBy => match bad_key(a.heap, results, n, 0) {
                Some(p) => faults(r, Exc::TypeError, crate::keys::unhashable_text(a.heap, p)) && b == (Vm { heap: b.heap, ..a })
                    && collections_grew(a.heap, b.heap),
                None => {
                    &&& r is Next
                    &&& collections_grew(a.heap, b.heap)
                    &&& restacked(a, b, a.stack().push(b.stack().last()))
                    &&& is_group_dict(b.heap, b.stack().last(), grouped(a.heap, items, results, n))
                },
            },
            SeqOp::Partition => partitioned(a, b, j, r),
            SeqOp::Mapping => rebuilt(a, b, answer_shape(j), results, r),
            SeqOp::Collect => rebuilt(a, b, answer_shape(j), items, r),
            SeqOp::Filter => rebuilt(a, b, answer_shape(j), chosen(a.heap, items, results, true, n), r),
            SeqOp::TakeWhile => rebuilt(a, b, answer_shape(j), items.subrange(0, run_end(a.heap, results, n, 0)), r),
            SeqOp::DropWhile => rebuilt(a, b, answer_shape(j), items.subrange(run_end(a.heap, results, n, 0), n), r),
            SeqOp::UniqueBy => match bad_key(a.heap, results, n, 0) {
                Some(p) => faults(r, Exc::TypeError, crate::keys::unhashable_text(a.heap, p)) && b == a,
                None => rebuilt(a, b, answer_shape(j), distinct_items(a.heap, items, results, n), r),
            },
            SeqOp::FlatMap => exists|m: Vm, out: Result<Vec<Value>, VErr>| {
                &&& m == (Vm { heap: m.heap, ..a })
                &&& #[trigger] flat_result(a.heap, m.heap, results, out)
                &&& match out {
                    Ok(v) => rebuilt(m, b, SeqShape::List, v@, r),
                    Err(e) => faults(r, e@.0, e@.1) && b == m,
                }
            },
        }
    }
}

impl Vm {
    fn give(&mut self, v: Value) -> (r: Step)
        requires old(self).running(),
        ensures gave(*old(self), *final(self), v, r),
    {
        self.push(v);
        Step::Next
    }

    fn rebuild(&mut self, shape: SeqShape, items: Vec<Value>) -> (r: Step)
        requires old(self).running(),
        ensures rebuilt(*old(self), *final(self), shape, items@, r),
    {
        let ghost a = *self;
        let ghost iv = items@;
        let v = rebuild_shape(&mut self.heap, shape, items);
        let ghost m = *self;
        let ghost vv = v;
        assert(rebuild_result(a.heap, m.heap, shape, iv, vv));
        match v {
            Ok(x) => {
                self.push(x);
                Step::Next
            }
            Err(e) => fail(e),
        }
    }

    fn finish_partition(&mut self, j: SeqJob) -> (r: Step)
        requires old(self).running(),
        ensures partitioned(*old(self), *final(self), j, r),
    {
        let ghost a = *self;
        let yes = choose_items(&self.heap, &j.items, &j.results, true);
        let no = choose_items(&self.heap, &j.items, &j.results, false);
        let ghost yv = yes@;
        let ghost nv = no@;
        let y = rebuild_shape(&mut self.heap, j.shape, yes);
        let ghost m = *self;
        let ghost yr = y;
        assert(rebuild_result(a.heap, m.heap, j.shape, yv, yr));
        let y = match y {
            Ok(v) => v,
            Err(e) => {
                return fail(e);
            }
        };
        let x = rebuild_shape(&mut self.heap, j.shape, no);
        let ghost k = *self;
        let ghost xr = x;
        assert(rebuild_result(m.heap, k.heap, j.shape, nv, xr));
        match x {
            Err(e) => {
                let r = fail(e);
                assert(partition_rest(a, m, *self, j, y, r));
                r
            }
            Ok(v) => {
                let mut pair: Vec<Value> = Vec::new();
                pair.push(y);
                pair.push(v);
                assert(pair@ =~= seq![y, v]);
                let t = self.heap.alloc_tuple(pair);
                self.push(t);
                let r = Step::Next;
                assert(partition_rest(a, m, *self, j, y, r));
                r
            }
        }
    }

    /// Rebuild the answer once every callback result is in.
    pub fn finish_seq(&mut self, j: SeqJob) -> (r: Step)
        requires old(self).running(),
        ensures finish_seq_result(*old(self), *final(self), j, r),
    {
        let ghost a = *self;
        if j.pick_first {
            let v = if j.items.len() > 0 { j.items[0] } else { Value::Null };
            return self.give(v);
        }
        let shape = if j.op.preserves_shape() { j.shape } else { SeqShape::List };
        match j.op {
            SeqOp::Reduce => {
                let n = j.results.len();
                let v = if n > 0 { j.results[n - 1] } else { Value::Null };
                self.give(v)
            }
            SeqOp::Find => {
                let v = find_item(&self.heap, &j.items, &j.results);
                self.give(v)
            }
            SeqOp::Any => {
                let v = has_true(&self.heap, &j.results);
                self.give(Value::Bool(v))
            }
            SeqOp::All => {
                let v = has_only_true(&self.heap, &j.results);
                self.give(Value::Bool(v))
            }
            SeqOp::Count => {
                let v = number_true(&self.heap, &j.results);
                self.give(Value::Int(v as i64))
            }
            SeqOp::MinBy => self.begin_order(OrderKind::Extreme { want_min: true, by: true }, j.items, j.results, false, OrderCont::Push),
            SeqOp::MaxBy => self.begin_order(OrderKind::Extreme { want_min: false, by: true }, j.items, j.results, false, OrderCont::Push),
            SeqOp::SortBy => self.begin_order(OrderKind::Sort(j.shape), j.items, j.results, j.reverse, OrderCont::Push),
            SeqOp::GroupBy => match group_items(&mut self.heap, &j.items, &j.results) {
                Err(e) => fail(e),
                Ok(v) => {
                    self.push(v);
                    assert(self.stack().last() == v);
                    Step::Next
                }
            },
            SeqOp::Partition => self.finish_partition(j),
            SeqOp::Mapping => self.rebuild(shape, j.results),
            SeqOp::Collect => self.rebuild(shape, j.items),
            SeqOp::Filter => {
                let v = choose_items(&self.heap, &j.items, &j.results, true);
                self.rebuild(shape, v)
            }
            SeqOp::TakeWhile => {
                let k = leading_run(&self.heap, &j.items, &j.results);
                let v = copy_range(&j.items, 0, k);
                self.rebuild(shape, v)
            }
            SeqOp::DropWhile => {
                let k = leading_run(&self.heap, &j.items, &j.results);
                let n = if j.items.len() < j.results.len() { j.items.len() } else { j.results.len() };
                let v = copy_range(&j.items, k, n);
                self.rebuild(shape, v)
            }
            SeqOp::UniqueBy => match unique_items(&self.heap, &j.items, &j.results) {
                Err(e) => fail(e),
                Ok(v) => self.rebuild(shape, v),
            },
            SeqOp::FlatMap => {
                let out = join_flat(&mut self.heap, &j.results);
                let ghost m = *self;
                let ghost ov = out;
                assert(flat_result(a.heap, m.heap, j.results@, ov));
                match out {
                    Err(e) => fail(e),
                    Ok(v) => self.rebuild(SeqShape::List, v),
                }
            }
        }
    }
}

/// The task without its innermost collection operation.
pub open spec fn without_seq(a: Vm, m: Vm) -> bool {
    &&& m == (Vm { task: Task { seqs: m.task.seqs, ..a.task }, ..a })
    &&& m.task.seqs@ == a.task.seqs@.drop_last()
}

/// The innermost collection operation of `m` is `k`.
pub open spec fn seq_is(a: Vm, m: Vm, k: SeqJob) -> bool {
    &&& m == (Vm { task: Task { seqs: m.task.seqs, ..a.task }, ..a })
    &&& m.task.seqs@ == a.task.seqs@.drop_last().push(k)
}

/// What driving the innermost collection operation does: one element goes one
/// step on, or the answer is built.
pub open spec fn drive_seq_result(a: Vm, b: Vm, r: Step) -> bool {
    let j = a.task.seqs@.last();
    exists|k: SeqJob, p: Pick| {
        &&& #[trigger] pick_result(a.heap, j, k, p)
        &&& match p {
            Pick::Finished => exists|m: Vm| #[trigger] without_seq(a, m) && finish_seq_result(m, b, j, r),
            Pick::Absorbed => r == Step::Drive(Job::Chain) && seq_is(a, b, k),
            Pick::Call(cb) => exists|m: Vm| #[trigger] seq_is(a, m, k) && callback_result(m, b, cb, r),
        }
    }
}

impl Vm {
    /// Drive the innermost collection operation by one element.
    pub fn drive_seq(&mut self) -> (r: Step)
        requires
            old(self).running(),
            old(self).task.seqs@.len() > 0,
        ensures drive_seq_result(*old(self), *final(self), r),
    {
        let ghost a = *self;
        let ghost j0 = self.task.seqs@.last();
        let mut job = match self.task.seqs.pop() {
            Some(j) => j,
            None => {
                return Step::Next;
            }
        };
        let p = pick_next(&self.heap, &mut job);
        let ghost k = job;
        assert(pick_result(a.heap, j0, k, p));
        match p {
            Pick::Finished => {
                let ghost m = *self;
                assert(without_seq(a, m));
                self.finish_seq(job)
            }
            Pick::Absorbed => {
                self.task.seqs.push(job);
                assert(seq_is(a, *self, k));
                Step::Drive(Job::Chain)
            }
            Pick::Call(cb) => {
                self.task.seqs.push(job);
                let ghost m = *self;
                assert(seq_is(a, m, k));
                self.call_back(cb)
            }
        }
    }

    /// Record what the callback of the innermost collection operation answered.
    pub fn record_seq_result(&mut self, v: Value)
        requires old(self).task.seqs@.len() > 0,
        ensures
            *final(self) == (Vm { task: Task { seqs: final(self).task.seqs, ..old(self).task }, ..*old(self) }),
            final(self).task.seqs@.len() == old(self).task.seqs@.len(),
            final(self).task.seqs@.drop_last() == old(self).task.seqs@.drop_last(),
            recorded(old(self).heap, old(self).task.seqs@.last(), final(self).task.seqs@.last(), v),
    {
        match self.task.seqs.pop() {
            Some(job) => {
                let mut job = job;
                record_result(&self.heap, &mut job, v);
                self.task.seqs.push(job);
                assert(self.task.seqs@.drop_last() =~= old(self).task.seqs@.drop_last());
            }
            None => {}
        }
    }
}

} // verus!
