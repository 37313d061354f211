//! Fused chains give what their steps give one after the other.
//!
//! A chain such as `xs.map(f).filter(g).first()` builds no collection between
//! its steps: each element goes down all of them before the next one is drawn.
//! With callbacks that answer by their argument alone, nobody can tell.
use vstd::prelude::*;
use crate::chain::{job_begun, job_source, next_element, pick_result, recorded, settled, Pick};
use crate::names::truthy;
use crate::seqop::{SeqJob, SeqOp, SeqShape, Spread, Stage, StageKind};
use crate::value::{Heap, Value};

verus! {

/// What callbacks answer: the callback, the accumulator it is handed, if any,
/// and the element decide.
pub type Pure = spec_fn(Value, Option<Value>, Value) -> Value;

/// What comes out of one step over a whole collection.
pub open spec fn one_step(h: Heap, f: Pure, kind: StageKind, xs: Seq<Value>) -> Seq<Value> {
    match kind {
        StageKind::Mapping(g) => xs.map_values(|x: Value| f(g, None, x)),
        StageKind::Filter(g) => xs.filter(|x: Value| truthy(h, f(g, None, x))),
    }
}

/// What comes out of the steps from place `s` on, one after the other.
pub open spec fn step_by_step(h: Heap, f: Pure, stages: Seq<Stage>, s: int, xs: Seq<Value>) -> Seq<Value>
    decreases stages.len() - s,
{
    if s < 0 || s >= stages.len() { xs } else { step_by_step(h, f, stages, s + 1, one_step(h, f, stages[s].kind, xs)) }
}

/// What becomes of one element that stands before step `s`.
pub open spec fn flow(h: Heap, f: Pure, stages: Seq<Stage>, s: int, x: Value) -> Seq<Value>
    decreases stages.len() - s,
{
    if s < 0 || s >= stages.len() {
        seq![x]
    } else {
        match stages[s].kind {
            StageKind::Mapping(g) => flow(h, f, stages, s + 1, f(g, None, x)),
            StageKind::Filter(g) => if truthy(h, f(g, None, x)) { flow(h, f, stages, s + 1, x) } else { Seq::empty() },
        }
    }
}

/// What becomes of elements that stand before step `s`.
pub open spec fn flows(h: Heap, f: Pure, stages: Seq<Stage>, s: int, xs: Seq<Value>) -> Seq<Value>
    decreases xs.len(),
{
    if xs.len() == 0 { Seq::empty() } else { flow(h, f, stages, s, xs[0]) + flows(h, f, stages, s, xs.skip(1)) }
}

/// What becomes of the elements on their way, the last one first.
pub open spec fn work_flows(h: Heap, f: Pure, stages: Seq<Stage>, w: Seq<(usize, Value)>) -> Seq<Value>
    decreases w.len(),
{
    if w.len() == 0 {
        Seq::empty()
    } else {
        flow(h, f, stages, w.last().0 as int, w.last().1) + work_flows(h, f, stages, w.drop_last())
    }
}

/// What is still to come out of the steps of a job.
pub open spec fn rest(h: Heap, f: Pure, j: SeqJob) -> Seq<Value> {
    work_flows(h, f, j.stages@, j.work@) + flows(h, f, j.stages@, 0, job_source(j).skip(j.next as int))
}

/// One move of a job whose callbacks answer as `f` says.
pub open spec fn job_move(h: Heap, f: Pure, j: SeqJob, k: SeqJob) -> bool {
    exists|m: SeqJob, p: Pick| #[trigger] pick_result(h, j, m, p) && match p {
        Pick::Finished => false,
        Pick::Absorbed => k == m,
        Pick::Call(cb) => recorded(h, m, k, f(cb.func, cb.acc, cb.item)),
    }
}

/// So many moves of a job.
pub open spec fn job_moves(h: Heap, f: Pure, j: SeqJob, k: SeqJob, n: nat) -> bool
    decreases n,
{
    if n == 0 {
        k == j
    } else {
        exists|m: SeqJob| job_moves(h, f, j, m, (n - 1) as nat) && #[trigger] job_move(h, f, m, k)
    }
}

proof fn lemma_flows_step(h: Heap, f: Pure, stages: Seq<Stage>, s: int, xs: Seq<Value>)
    requires 0 <= s < stages.len(),
    ensures flows(h, f, stages, s, xs) == flows(h, f, stages, s + 1, one_step(h, f, stages[s].kind, xs)),
    decreases xs.len(),
{
    let kind = stages[s].kind;
    let ys = one_step(h, f, kind, xs);
    if xs.len() == 0 {
        match kind {
            StageKind::Mapping(g) => {}
            StageKind::Filter(g) => {
                reveal(Seq::filter);
            }
        }
        assert(ys.len() == 0);
    } else {
        let t = xs.skip(1);
        lemma_flows_step(h, f, stages, s, t);
        let zs = one_step(h, f, kind, t);
        match kind {
            StageKind::Mapping(g) => {
                assert(ys[0] == f(g, None, xs[0]));
                assert(ys.skip(1) =~= zs);
            }
            StageKind::Filter(g) => {
                let keep = |x: Value| truthy(h, f(g, None, x));
                lemma_filter_head(xs, keep);
                if keep(xs[0]) {
                    assert(ys == seq![xs[0]] + zs);
                    assert(ys[0] == xs[0]);
                    assert(ys.skip(1) =~= zs);
                } else {
                    assert(ys == zs);
                    assert(flow(h, f, stages, s, xs[0]) =~= Seq::empty());
                    assert(Seq::<Value>::empty() + flows(h, f, stages, s, t) =~= flows(h, f, stages, s, t));
                }
            }
        }
    }
}

proof fn lemma_filter_head(xs: Seq<Value>, keep: spec_fn(Value) -> bool)
    requires xs.len() > 0,
    ensures xs.filter(keep) == (if keep(xs[0]) { seq![xs[0]] + xs.skip(1).filter(keep) } else { xs.skip(1).filter(keep) }),
    decreases xs.len(),
{
    reveal(Seq::filter);
    let t = xs.skip(1);
    if xs.len() == 1 {
        assert(xs.drop_last() =~= Seq::empty());
        assert(t =~= Seq::empty());
        assert(xs.filter(keep) =~= (if keep(xs[0]) { seq![xs[0]] + t.filter(keep) } else { t.filter(keep) }));
    } else {
        let init = xs.drop_last();
        lemma_filter_head(init, keep);
        assert(init.skip(1) =~= t.drop_last());
        assert(init[0] == xs[0]);
        assert(t.last() == xs.last());
        assert(xs.filter(keep) =~= (if keep(xs[0]) { seq![xs[0]] + t.filter(keep) } else { t.filter(keep) }));
    }
}

proof fn lemma_flows(h: Heap, f: Pure, stages: Seq<Stage>, s: int, xs: Seq<Value>)
    requires 0 <= s <= stages.len(),
    ensures flows(h, f, stages, s, xs) == step_by_step(h, f, stages, s, xs),
    decreases stages.len() - s,
{
    if s < stages.len() {
        lemma_flows_step(h, f, stages, s, xs);
        lemma_flows(h, f, stages, s + 1, one_step(h, f, stages[s].kind, xs));
    } else {
        lemma_flows_end(h, f, stages, s, xs);
    }
}

proof fn lemma_flows_end(h: Heap, f: Pure, stages: Seq<Stage>, s: int, xs: Seq<Value>)
    requires s >= stages.len(),
    ensures flows(h, f, stages, s, xs) == xs,
    decreases xs.len(),
{
    if xs.len() > 0 {
        lemma_flows_end(h, f, stages, s, xs.skip(1));
        assert(seq![xs[0]] + xs.skip(1) =~= xs);
    } else {
        assert(xs =~= Seq::empty());
    }
}

/// A job that runs to the end of its elements with the steps before it fused.
pub open spec fn fused(j: SeqJob) -> bool {
    &&& j.op != SeqOp::Reduce
    &&& j.op != SeqOp::DropWhile
    &&& j.func is None ==> j.op == SeqOp::Collect && j.stages@.len() > 0
    &&& j.next <= job_source(j).len()
}

/// What the elements still to come make: what has come out of the steps is
/// kept, and a callback's answers to them are.
proof fn lemma_move(h: Heap, f: Pure, j: SeqJob, k: SeqJob)
    requires
        job_move(h, f, j, k),
        fused(j),
    ensures
        fused(k),
        !settled(h, j),
        k.op == j.op && k.func == j.func && k.stages == j.stages && k.limit == j.limit && k.src == j.src,
        j.stages@.len() == 0 ==> k.items@ == j.items@,
        match j.func {
            None => k.items@ + rest(h, f, k) == j.items@ + rest(h, f, j) && k.items@.len() <= j.items@.len() + 1,
            Some(g) => answers(f, g, k.results@, rest(h, f, k)) == answers(f, g, j.results@, rest(h, f, j))
                && (j.stages@.len() > 0 && j.op.spec_keeps_items() ==> k.items@ + rest(h, f, k) == j.items@ + rest(h, f, j)),
        },
{
    let (m, p) = choose|m: SeqJob, p: Pick| #[trigger] pick_result(h, j, m, p) && match p {
        Pick::Finished => false,
        Pick::Absorbed => k == m,
        Pick::Call(cb) => recorded(h, m, k, f(cb.func, cb.acc, cb.item)),
    };
    let st = j.stages@;
    let (s, item, going) = next_element(j)->0;
    let src = job_source(j);
    let after = if going { work_flows(h, f, st, j.work@.drop_last()) } else { work_flows(h, f, st, j.work@) };
    let tail = if going { flows(h, f, st, 0, src.skip(j.next as int)) } else { flows(h, f, st, 0, src.skip(j.next + 1)) };
    if going {
        assert(rest(h, f, j) =~= flow(h, f, st, s as int, item) + (after + tail));
    } else {
        assert(src.skip(j.next as int)[0] == item);
        assert(src.skip(j.next as int).skip(1) =~= src.skip(j.next + 1));
        assert(after =~= Seq::empty());
        assert(rest(h, f, j) =~= flow(h, f, st, s as int, item) + (after + tail));
    }
    if s < st.len() {
        assert(s < j.stages.len());
        match st[s as int].kind {
            StageKind::Mapping(g) => {
                let v = f(g, None, item);
                assert(k.work@.drop_last() =~= m.work@);
                assert(work_flows(h, f, st, k.work@) == flow(h, f, st, s + 1, v) + work_flows(h, f, st, m.work@));
                assert(rest(h, f, k) =~= flow(h, f, st, s + 1, v) + (after + tail));
            }
            StageKind::Filter(g) => {
                if truthy(h, f(g, None, item)) {
                    assert(k.work@.drop_last() =~= m.work@);
                    assert(work_flows(h, f, st, k.work@) == flow(h, f, st, s + 1, item) + work_flows(h, f, st, m.work@));
                    assert(rest(h, f, k) =~= flow(h, f, st, s + 1, item) + (after + tail));
                } else {
                    assert(rest(h, f, k) =~= after + tail);
                    assert(Seq::<Value>::empty() + (after + tail) =~= after + tail);
                }
            }
        }
    } else {
        assert(flow(h, f, st, s as int, item) =~= seq![item]);
        assert(st.len() == 0 ==> k.items@ =~= j.items@);
        assert(rest(h, f, k) =~= after + tail);
        assert(rest(h, f, j) =~= seq![item] + rest(h, f, k));
        assert(j.items@.push(item) + rest(h, f, k) =~= j.items@ + rest(h, f, j));
        if j.func is Some {
            let g = j.func->0;
            assert(k.results@ == j.results@.push(f(g, None, item)));
            assert(answers(f, g, k.results@, rest(h, f, k)) =~= answers(f, g, j.results@, rest(h, f, j)));
        }
    }
}

/// The answers of callback `g` so far, and those to what is still to come.
pub open spec fn answers(f: Pure, g: Value, so_far: Seq<Value>, to_come: Seq<Value>) -> Seq<Value> {
    so_far + to_come.map_values(|x: Value| f(g, None, x))
}

proof fn lemma_moves(h: Heap, f: Pure, j: SeqJob, k: SeqJob, n: nat)
    requires
        job_moves(h, f, j, k, n),
        fused(j),
        j.func is None ==> j.items@.len() <= j.limit,
    ensures
        fused(k),
        k.op == j.op && k.func == j.func && k.stages == j.stages && k.limit == j.limit && k.src == j.src,
        j.stages@.len() == 0 ==> k.items@ == j.items@,
        match j.func {
            None => k.items@ + rest(h, f, k) == j.items@ + rest(h, f, j) && k.items@.len() <= k.limit,
            Some(g) => answers(f, g, k.results@, rest(h, f, k)) == answers(f, g, j.results@, rest(h, f, j))
                && (j.stages@.len() > 0 && j.op.spec_keeps_items() ==> k.items@ + rest(h, f, k) == j.items@ + rest(h, f, j)),
        },
    decreases n,
{
    if n > 0 {
        let m = choose|m: SeqJob| job_moves(h, f, j, m, (n - 1) as nat) && #[trigger] job_move(h, f, m, k);
        lemma_moves(h, f, j, m, (n - 1) as nat);
        lemma_move(h, f, m, k);
        assert(j.func is None ==> m.items@.len() < m.limit);
    }
}

/// The first `n` of these, or all of them, if there are no more.
pub open spec fn up_to(xs: Seq<Value>, n: nat) -> Seq<Value> {
    if xs.len() > n { xs.take(n as int) } else { xs }
}

/// A fused chain that ends in `first()`, `take(n)` or a filter collects what
/// its steps give one after the other, up to its limit.
pub proof fn fused_steps_collect_the_same(h: Heap, f: Pure, j: SeqJob, k: SeqJob, n: nat, shape: SeqShape, spread: Spread, stages: Seq<Stage>, reverse: bool, pick_first: bool)
    requires
        job_begun(j, SeqOp::Collect, shape, None, spread, stages, None, reverse, j.limit, pick_first, j.line, j.col),
        stages.len() > 0,
        job_moves(h, f, j, k, n),
        pick_result(h, k, k, Pick::Finished),
    ensures k.items@ == up_to(step_by_step(h, f, stages, 0, j.src@), j.limit as nat),
{
    lemma_moves(h, f, j, k, n);
    let all = step_by_step(h, f, stages, 0, j.src@);
    lemma_flows(h, f, stages, 0, j.src@);
    assert(j.src@.skip(0) =~= j.src@);
    assert(j.items@ + rest(h, f, j) =~= all);
    if settled(h, k) {
        assert(k.items@ =~= all.take(j.limit as int));
        if all.len() <= j.limit {
            assert(k.items@ =~= all);
        }
    } else {
        lemma_nothing_left(h, f, k);
        assert(k.items@ =~= all);
    }
}

proof fn lemma_nothing_left(h: Heap, f: Pure, k: SeqJob)
    requires
        next_element(k) is None,
        fused(k),
    ensures rest(h, f, k).len() == 0,
{
    assert(job_source(k).skip(k.next as int).len() == 0);
}

/// A chain that ends in a callback asks it about what the steps before give one
/// after the other, in that order: about all of it, unless the answer is
/// settled earlier. What it keeps for the answer is what it asked about.
pub proof fn fused_steps_ask_the_same(h: Heap, f: Pure, j: SeqJob, k: SeqJob, n: nat, op: SeqOp, g: Value, shape: SeqShape, spread: Spread, stages: Seq<Stage>, reverse: bool)
    requires
        job_begun(j, op, shape, Some(g), spread, stages, None, reverse, usize::MAX, false, j.line, j.col),
        op != SeqOp::Reduce,
        op != SeqOp::DropWhile,
        job_moves(h, f, j, k, n),
        pick_result(h, k, k, Pick::Finished),
    ensures
        ({
            let all = step_by_step(h, f, stages, 0, job_source(j));
            let asked = k.results@.len() as int;
            &&& asked <= all.len()
            &&& k.results@ == all.take(asked).map_values(|x: Value| f(g, None, x))
            &&& !settled(h, k) ==> asked == all.len()
            &&& !settled(h, k) && op.spec_keeps_items() && stages.len() > 0 ==> k.items@ == all
            &&& stages.len() == 0 ==> k.items@ == all
        }),
{
    lemma_moves(h, f, j, k, n);
    let all = step_by_step(h, f, stages, 0, job_source(j));
    lemma_flows(h, f, stages, 0, job_source(j));
    assert(job_source(j).skip(0) =~= job_source(j));
    assert(rest(h, f, j) =~= all);
    let to_come = rest(h, f, k);
    let whole = all.map_values(|x: Value| f(g, None, x));
    assert(answers(f, g, j.results@, rest(h, f, j)) =~= whole);
    let asked = k.results@.len() as int;
    assert(whole.len() == all.len());
    assert(k.results@ =~= whole.take(asked));
    assert(whole.take(asked) =~= all.take(asked).map_values(|x: Value| f(g, None, x)));
    if !settled(h, k) {
        lemma_nothing_left(h, f, k);
        assert(to_come.map_values(|x: Value| f(g, None, x)).len() == 0);
        if stages.len() > 0 && op.spec_keeps_items() {
            assert(k.items@ =~= all);
        }
    }
}

/// What folding these elements into `acc` gives.
pub open spec fn folded(f: Pure, g: Value, acc: Value, xs: Seq<Value>) -> Value
    decreases xs.len(),
{
    if xs.len() == 0 { acc } else { folded(f, g, f(g, Some(acc), xs[0]), xs.skip(1)) }
}

/// A `reduce` over fused steps.
pub open spec fn reducing(j: SeqJob, g: Value) -> bool {
    &&& j.op == SeqOp::Reduce
    &&& j.func == Some(g)
    &&& j.results@.len() == 1
    &&& j.limit == usize::MAX
    &&& j.next <= job_source(j).len()
}

proof fn lemma_reduce_move(h: Heap, f: Pure, j: SeqJob, k: SeqJob, g: Value)
    requires
        job_move(h, f, j, k),
        reducing(j, g),
    ensures
        reducing(k, g),
        k.stages == j.stages && k.src == j.src,
        folded(f, g, k.results@[0], rest(h, f, k)) == folded(f, g, j.results@[0], rest(h, f, j)),
{
    let (m, p) = choose|m: SeqJob, p: Pick| #[trigger] pick_result(h, j, m, p) && match p {
        Pick::Finished => false,
        Pick::Absorbed => k == m,
        Pick::Call(cb) => recorded(h, m, k, f(cb.func, cb.acc, cb.item)),
    };
    let st = j.stages@;
    let (s, item, going) = next_element(j)->0;
    let src = job_source(j);
    let after = if going { work_flows(h, f, st, j.work@.drop_last()) } else { work_flows(h, f, st, j.work@) };
    let tail = if going { flows(h, f, st, 0, src.skip(j.next as int)) } else { flows(h, f, st, 0, src.skip(j.next + 1)) };
    if !going {
        assert(src.skip(j.next as int)[0] == item);
        assert(src.skip(j.next as int).skip(1) =~= src.skip(j.next + 1));
        assert(after =~= Seq::empty());
    }
    assert(rest(h, f, j) =~= flow(h, f, st, s as int, item) + (after + tail));
    if s < st.len() {
        assert(s < j.stages.len());
        match st[s as int].kind {
            StageKind::Mapping(e) => {
                let v = f(e, None, item);
                assert(k.work@.drop_last() =~= m.work@);
                assert(rest(h, f, k) =~= flow(h, f, st, s + 1, v) + (after + tail));
            }
            StageKind::Filter(e) => {
                if truthy(h, f(e, None, item)) {
                    assert(k.work@.drop_last() =~= m.work@);
                    assert(rest(h, f, k) =~= flow(h, f, st, s + 1, item) + (after + tail));
                } else {
                    assert(rest(h, f, k) =~= after + tail);
                    assert(Seq::<Value>::empty() + (after + tail) =~= after + tail);
                }
            }
        }
        assert(rest(h, f, k) == rest(h, f, j));
    } else {
        assert(flow(h, f, st, s as int, item) =~= seq![item]);
        assert(rest(h, f, k) =~= after + tail);
        let r = rest(h, f, j);
        assert(r =~= seq![item] + rest(h, f, k));
        assert(r[0] == item);
        assert(r.skip(1) =~= rest(h, f, k));
        assert(j.results@.last() == j.results@[0]);
    }
}

proof fn lemma_reduce_moves(h: Heap, f: Pure, j: SeqJob, k: SeqJob, n: nat, g: Value)
    requires
        job_moves(h, f, j, k, n),
        reducing(j, g),
    ensures
        reducing(k, g),
        k.stages == j.stages && k.src == j.src,
        folded(f, g, k.results@[0], rest(h, f, k)) == folded(f, g, j.results@[0], rest(h, f, j)),
    decreases n,
{
    if n > 0 {
        let m = choose|m: SeqJob| job_moves(h, f, j, m, (n - 1) as nat) && #[trigger] job_move(h, f, m, k);
        lemma_reduce_moves(h, f, j, m, (n - 1) as nat, g);
        lemma_reduce_move(h, f, m, k, g);
    }
}

/// A `reduce` folds what the steps before it give one after the other into its
/// seed, from the first element to the last.
pub proof fn fused_steps_reduce_the_same(h: Heap, f: Pure, j: SeqJob, k: SeqJob, n: nat, g: Value, seed: Value, shape: SeqShape, spread: Spread, stages: Seq<Stage>, reverse: bool)
    requires
        job_begun(j, SeqOp::Reduce, shape, Some(g), spread, stages, Some(seed), reverse, usize::MAX, false, j.line, j.col),
        job_moves(h, f, j, k, n),
        next_element(k) is None,
    ensures k.results@ == seq![folded(f, g, seed, step_by_step(h, f, stages, 0, job_source(j)))],
{
    lemma_reduce_moves(h, f, j, k, n, g);
    lemma_flows(h, f, stages, 0, job_source(j));
    assert(job_source(j).skip(0) =~= job_source(j));
    assert(rest(h, f, j) =~= step_by_step(h, f, stages, 0, job_source(j)));
    assert(job_source(k).skip(k.next as int).len() == 0);
    assert(rest(h, f, k).len() == 0);
    assert(k.results@ =~= seq![k.results@[0]]);
}

} // verus!
