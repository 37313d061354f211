//! What a task does leaves the others alone.
use vstd::prelude::*;
use crate::bind::{bind_result, pool_retired, pool_taken, pool_wf, stored_cells, the_pool_keeps_nothing, Store};
use crate::chain::{callback_result, drive_seq_result, finish_seq_result, flat_join, flat_ok, flat_result, flat_stops, pick_result, rebuilt, seq_is, without_seq, Callback, Pick};
use crate::channel::iter_result;
use crate::code::{Op, RelOp};
use crate::deep::{advance_result, answer_result, pair_result};
use crate::dispatch::{builtin_result, call_ex_result, call_method_result, concurrent_result, invoke_result, native_result, popped_to};
use crate::exc::{Exc, VErr};
use crate::flow::{block_off, chains_kept, deliver_result, frame_lost, return_result, unwind_from, unwind_result};
use crate::frame::{Frame, ReturnAction};
use crate::generate::{drain_result, filled, gen_done, next_gen};
use crate::imports::import_result;
use crate::laws::others_left;
use crate::machine::{Job, Keyword, OrderCont, OrderKind, Step, Vm};
use crate::objects::for_result;
use crate::order::{begin_order_result, drive_order_result};
use crate::run::{drive_result, has_instruction, move_result, raised, runs, Move, Slice};
use crate::seqop::{SeqJob, SeqOp, SeqShape};
use crate::step::{end_finally_result, step_result};
use crate::streams::stream_method_result;
use crate::tasks::{release_result, spawn_result};
use crate::texting::{drive_print_result, drive_text_result};
use crate::value::{Heap, MethodKind, TaskId, Value};
use crate::wake::{all_woken, faults, lemma_parked_bounds, parked_at, woken, woken_failing, woken_with, Wake};

verus! {

/// `a` and `b` are the same task of the same program.
pub open spec fn same_run(a: Vm, b: Vm) -> bool {
    &&& b.task.id == a.task.id
    &&& b.task.handle == a.task.handle
    &&& b.excs == a.excs
    &&& b.natives == a.natives
    &&& b.argv == a.argv
    &&& b.std_streams == a.std_streams
    &&& b.import_root == a.import_root
    &&& b.main_source == a.main_source
    &&& pool_wf(a.frame_pool@) ==> pool_wf(b.frame_pool@)
}

/// Between `a` and `b` the same task ran and no other changed: whoever can run
/// still can, in the same order and before anybody new, whoever is suspended is
/// as it was, and nobody is gone.
pub open spec fn others_kept(a: Vm, b: Vm) -> bool {
    &&& others_left(a) <= others_left(b)
    &&& same_run(a, b)
    &&& a.ready@.is_prefix_of(b.ready@)
    &&& forall|k: int| 0 <= k < b.parked@.len() ==> a.parked@.contains(#[trigger] b.parked@[k])
}

/// Between `a` and `b` no value changed that cannot change, and no object is
/// gone.
pub open spec fn values_kept(a: Heap, b: Heap) -> bool {
    &&& a.bigs@.is_prefix_of(b.bigs@)
    &&& a.floats@.is_prefix_of(b.floats@)
    &&& a.strs@.is_prefix_of(b.strs@)
    &&& a.bytes@.is_prefix_of(b.bytes@)
    &&& a.tuples@.is_prefix_of(b.tuples@)
    &&& a.ranges@.is_prefix_of(b.ranges@)
    &&& a.funcs@.is_prefix_of(b.funcs@)
    &&& a.builtins@.is_prefix_of(b.builtins@)
    &&& a.methods@.is_prefix_of(b.methods@)
    &&& a.classes@.is_prefix_of(b.classes@)
    &&& a.supers@.is_prefix_of(b.supers@)
    &&& a.modules@.is_prefix_of(b.modules@)
    &&& a.natives@.is_prefix_of(b.natives@)
    &&& a.lists@.len() <= b.lists@.len()
    &&& a.dicts@.len() <= b.dicts@.len()
    &&& a.instances@.len() <= b.instances@.len()
    &&& a.iters@.len() <= b.iters@.len()
    &&& a.gens@.len() <= b.gens@.len()
    &&& a.chans@.len() <= b.chans@.len()
    &&& a.handles@.len() <= b.handles@.len()
    &&& a.streams@.len() <= b.streams@.len()
    &&& a.procs@.len() <= b.procs@.len()
    &&& a.cells@.len() <= b.cells@.len()
}

/// Between `a` and `b` no list, dict or object changed either.
pub open spec fn objects_kept(a: Heap, b: Heap) -> bool {
    &&& values_kept(a, b)
    &&& a.lists@.is_prefix_of(b.lists@)
    &&& a.dicts@.is_prefix_of(b.dicts@)
    &&& a.instances@.is_prefix_of(b.instances@)
}

/// Between `a` and `b` neither another task changed nor a value.
pub open spec fn undisturbed(a: Vm, b: Vm) -> bool {
    others_kept(a, b) && objects_kept(a.heap, b.heap)
}

/// Whether an instruction stores into a list, a dict or an object.
pub open spec fn stores(op: Op) -> bool {
    op is ListAppend || op is MapSetItem || op is StoreSubscript || op is StoreAttr
}

proof fn lemma_transitive(a: Vm, b: Vm, c: Vm)
    requires others_kept(a, b), others_kept(b, c), values_kept(a.heap, b.heap), values_kept(b.heap, c.heap),
    ensures others_kept(a, c), values_kept(a.heap, c.heap),
{
}

proof fn lemma_same(a: Vm, b: Vm)
    requires b == a,
    ensures undisturbed(a, b),
{
}

proof fn lemma_woken(a: Vm, b: Vm, w: Wake)
    requires woken(a, b, w),
    ensures undisturbed(a, b),
{
    let id = match w {
        Wake::With(id, _) => id,
        Wake::Raising(id, _) => id,
        Wake::Closed(id) => id,
        Wake::Failing(id, _, _) => id,
    };
    lemma_parked_bounds(a.parked@, id);
    match parked_at(a.parked@, id) {
        Some(k) => {
            assert forall|i: int| 0 <= i < b.parked@.len() implies a.parked@.contains(#[trigger] b.parked@[i]) by {
                let j = if i < k { i } else { i + 1 };
                assert(b.parked@[i] == a.parked@[j]);
            }
        }
        None => {}
    }
}

proof fn lemma_all_woken(a: Vm, b: Vm, ws: Seq<Wake>)
    requires all_woken(a, b, ws),
    ensures undisturbed(a, b),
    decreases ws.len(),
{
    if ws.len() > 0 {
        let m = choose|m: Vm| all_woken(a, m, ws.drop_last()) && #[trigger] woken(m, b, ws.last());
        lemma_all_woken(a, m, ws.drop_last());
        lemma_woken(m, b, ws.last());
        lemma_transitive(a, m, b);
    } else {
        lemma_same(a, b);
    }
}

proof fn lemma_pool()
    ensures
        forall|a: Seq<Frame>, b: Seq<Frame>| #[trigger] pool_taken(a, b) && pool_wf(a) ==> pool_wf(b),
        forall|a: Seq<Frame>, b: Seq<Frame>| #[trigger] pool_retired(a, b) && pool_wf(a) ==> pool_wf(b),
{
    assert forall|a: Seq<Frame>, b: Seq<Frame>| #[trigger] pool_taken(a, b) && pool_wf(a) implies pool_wf(b) by {
        the_pool_keeps_nothing(a, b);
    }
    assert forall|a: Seq<Frame>, b: Seq<Frame>| #[trigger] pool_retired(a, b) && pool_wf(a) implies pool_wf(b) by {
        the_pool_keeps_nothing(a, b);
    }
}

/// Waking is the only thing that touches a suspended task.
proof fn lemma_wakes()
    ensures
        forall|a: Seq<Frame>, b: Seq<Frame>| #[trigger] pool_retired(a, b) && pool_wf(a) ==> pool_wf(b),
        forall|a: Vm, b: Vm, id: TaskId, v: Value| #[trigger] woken_with(a, b, id, v) ==> undisturbed(a, b),
        forall|a: Vm, b: Vm, id: TaskId, class: Exc, text: Seq<char>| #[trigger] woken_failing(a, b, id, class, text) ==> undisturbed(a, b),
        forall|a: Vm, b: Vm, ws: Seq<Wake>| #[trigger] all_woken(a, b, ws) ==> undisturbed(a, b),
        forall|a: Vm, b: Vm, path: Seq<char>, o: Result<Value, Value>| #[trigger] release_result(a, b, path, o) ==> undisturbed(a, b),
{
    lemma_pool();
    assert forall|a: Vm, b: Vm, id: TaskId, v: Value| #[trigger] woken_with(a, b, id, v) implies undisturbed(a, b) by {
        lemma_woken(a, b, Wake::With(id, v));
    }
    assert forall|a: Vm, b: Vm, id: TaskId, class: Exc, text: Seq<char>| #[trigger] woken_failing(a, b, id, class, text) implies undisturbed(a, b) by {
        lemma_woken(a, b, Wake::Failing(id, class, text));
    }
    assert forall|a: Vm, b: Vm, ws: Seq<Wake>| #[trigger] all_woken(a, b, ws) implies undisturbed(a, b) by {
        lemma_all_woken(a, b, ws);
    }
}

proof fn lemma_stored_cells(cells: Seq<Value>, own: Seq<usize>, stores: Seq<Store>)
    ensures stored_cells(cells, own, stores).len() == cells.len(),
    decreases stores.len(),
{
    if stores.len() > 0 {
        lemma_stored_cells(cells, own, stores.drop_last());
    }
}

/// Binding a call changes no value.
proof fn lemma_binds()
    ensures
        forall|a: Vm, b: Vm, func: usize, receiver: Option<Value>, args: Seq<Value>, kwargs: Seq<Keyword>, r: Result<Frame, VErr>|
            #[trigger] bind_result(a, b, func, receiver, args, kwargs, r)
                ==> objects_kept(a.heap, b.heap) && (pool_wf(a.frame_pool@) ==> pool_wf(b.frame_pool@)),
{
    lemma_pool();
    assert forall|a: Vm, b: Vm, func: usize, receiver: Option<Value>, args: Seq<Value>, kwargs: Seq<Keyword>, r: Result<Frame, VErr>|
        #[trigger] bind_result(a, b, func, receiver, args, kwargs, r)
            implies objects_kept(a.heap, b.heap) && (pool_wf(a.frame_pool@) ==> pool_wf(b.frame_pool@)) by {
        assert forall|cells: Seq<Value>, own: Seq<usize>, stores: Seq<Store>|
            #[trigger] stored_cells(cells, own, stores).len() == cells.len() by {
            lemma_stored_cells(cells, own, stores);
        }
    }
}

#[verifier::spinoff_prover]
#[verifier::rlimit(60)]
proof fn lemma_step_simple(a: Vm, b: Vm, op: Op, r: Step)
    requires
        step_result(a, b, op, r),
        !(op is Call || op is CallEx || op is CallMethod || op is Return || op is ForIter || op is ForEach || op is EndFinally || op is ImportModule),
        !stores(op),
    ensures
        b.ready == a.ready,
        b.parked == a.parked,
        same_run(a, b),
        objects_kept(a.heap, b.heap),
{
    lemma_binds();
}

proof fn lemma_import(a: Vm, b: Vm, path: Seq<char>, r: Step)
    requires import_result(a, b, path, r),
    ensures b.ready == a.ready, b.parked == a.parked, same_run(a, b), objects_kept(a.heap, b.heap),
{
}

proof fn lemma_iter(a: Vm, b: Vm, ch: usize, target: usize, paired: bool, r: Step)
    requires iter_result(a, b, ch, target, paired, r),
    ensures undisturbed(a, b),
{
    lemma_wakes();
}

proof fn lemma_concurrent(a: Vm, b: Vm, recv: Value, name: Seq<char>, args: Seq<Value>, kwargs: Seq<Keyword>, r: Option<Step>)
    requires concurrent_result(a, b, recv, name, args, kwargs, r),
    ensures undisturbed(a, b),
{
    lemma_wakes();
}

proof fn lemma_stream(a: Vm, b: Vm, s: usize, name: Seq<char>, args: Seq<Value>, kwargs: Seq<Keyword>, r: Option<Step>)
    requires stream_method_result(a, b, s, name, args, kwargs, r),
    ensures undisturbed(a, b),
{
    lemma_wakes();
}

proof fn lemma_flat_ok(a: Heap, b: Heap, rs: Seq<Value>, n: int, out: Seq<Value>)
    requires flat_ok(a, b, rs, n, out),
    ensures objects_kept(a, b),
    decreases n,
{
    if n > 0 {
        let (m, before, part) = choose|m: Heap, before: Seq<Value>, part: Result<Vec<Value>, VErr>| {
            &&& flat_ok(a, m, rs, n - 1, before)
            &&& #[trigger] flat_join(m, b, rs[n - 1], before, part, out)
        };
        lemma_flat_ok(a, m, rs, n - 1, before);
    }
}

proof fn lemma_flat(a: Heap, b: Heap, rs: Seq<Value>, r: Result<Vec<Value>, VErr>)
    requires flat_result(a, b, rs, r),
    ensures objects_kept(a, b),
{
    match r {
        Ok(out) => lemma_flat_ok(a, b, rs, rs.len() as int, out@),
        Err(e) => {
            let (k, m, before, part) = choose|k: int, m: Heap, before: Seq<Value>, part: Result<Vec<Value>, VErr>| {
                &&& 0 <= k < rs.len()
                &&& flat_ok(a, m, rs, k, before)
                &&& #[trigger] flat_stops(m, b, rs[k], k, before, part, e)
            };
            lemma_flat_ok(a, m, rs, k, before);
        }
    }
}

#[verifier::spinoff_prover]
#[verifier::rlimit(60)]
proof fn lemma_begin_order(a: Vm, b: Vm, kind: OrderKind, items: Seq<Value>, keys: Seq<Value>, reverse: bool, cont: OrderCont, r: Step)
    requires begin_order_result(a, b, kind, items, keys, reverse, cont, r),
    ensures b.ready == a.ready, b.parked == a.parked, same_run(a, b), objects_kept(a.heap, b.heap),
{
}

#[verifier::spinoff_prover]
proof fn lemma_finish_seq(a: Vm, b: Vm, j: SeqJob, r: Step)
    requires finish_seq_result(a, b, j, r),
    ensures b.ready == a.ready, b.parked == a.parked, same_run(a, b), objects_kept(a.heap, b.heap),
{
    if j.op is FlatMap && !j.pick_first {
        let (m, out) = choose|m: Vm, out: Result<Vec<Value>, VErr>| {
            &&& m == (Vm { heap: m.heap, ..a })
            &&& #[trigger] flat_result(a.heap, m.heap, j.results@, out)
            &&& match out {
                Ok(v) => rebuilt(m, b, SeqShape::List, v@, r),
                Err(e) => faults(r, e@.0, e@.1) && b == m,
            }
        };
        lemma_flat(a.heap, m.heap, j.results@, out);
    } else if !j.pick_first {
        let items = j.items@;
        let keys = j.results@;
        match j.op {
            SeqOp::MinBy => lemma_begin_order(a, b, OrderKind::Extreme { want_min: true, by: true }, items, keys, false, OrderCont::Push, r),
            SeqOp::MaxBy => lemma_begin_order(a, b, OrderKind::Extreme { want_min: false, by: true }, items, keys, false, OrderCont::Push, r),
            SeqOp::SortBy => lemma_begin_order(a, b, OrderKind::Sort(j.shape), items, keys, j.reverse, OrderCont::Push, r),
            _ => {}
        }
    }
}

#[verifier::spinoff_prover]
#[verifier::rlimit(60)]
proof fn lemma_callback(a: Vm, b: Vm, cb: Callback, r: Step)
    requires callback_result(a, b, cb, r),
    ensures b.ready == a.ready, b.parked == a.parked, same_run(a, b), objects_kept(a.heap, b.heap),
{
    lemma_binds();
}

proof fn lemma_seq(a: Vm, b: Vm, r: Step)
    requires drive_seq_result(a, b, r),
    ensures b.ready == a.ready, b.parked == a.parked, same_run(a, b), objects_kept(a.heap, b.heap),
{
    let j = a.task.seqs@.last();
    let (k, p) = choose|k: SeqJob, p: Pick| {
        &&& #[trigger] pick_result(a.heap, j, k, p)
        &&& match p {
            Pick::Finished => exists|m: Vm| #[trigger] without_seq(a, m) && finish_seq_result(m, b, j, r),
            Pick::Absorbed => r == Step::Drive(Job::Chain) && seq_is(a, b, k),
            Pick::Call(cb) => exists|m: Vm| #[trigger] seq_is(a, m, k) && callback_result(m, b, cb, r),
        }
    };
    match p {
        Pick::Finished => {
            let m = choose|m: Vm| #[trigger] without_seq(a, m) && finish_seq_result(m, b, j, r);
            lemma_finish_seq(m, b, j, r);
        }
        Pick::Absorbed => {}
        Pick::Call(cb) => {
            let m = choose|m: Vm| #[trigger] seq_is(a, m, k) && callback_result(m, b, cb, r);
            lemma_callback(m, b, cb, r);
        }
    }
}

proof fn lemma_print(a: Vm, b: Vm, r: Step)
    requires drive_print_result(a, b, r),
    ensures b.ready == a.ready, b.parked == a.parked, same_run(a, b), objects_kept(a.heap, b.heap),
{
    lemma_binds();
}

proof fn lemma_text(a: Vm, b: Vm, r: Step)
    requires drive_text_result(a, b, r),
    ensures b.ready == a.ready, b.parked == a.parked, same_run(a, b), objects_kept(a.heap, b.heap),
{
    lemma_binds();
}

proof fn lemma_advance(a: Vm, b: Vm, v: Option<bool>, r: Step)
    requires advance_result(a, b, v, r),
    ensures b.ready == a.ready, b.parked == a.parked, same_run(a, b), objects_kept(a.heap, b.heap),
{
    lemma_binds();
}

proof fn lemma_answer(a: Vm, b: Vm, v: bool, r: Step)
    requires answer_result(a, b, v, r),
    ensures b.ready == a.ready, b.parked == a.parked, same_run(a, b), objects_kept(a.heap, b.heap),
{
    lemma_binds();
}

#[verifier::spinoff_prover]
#[verifier::rlimit(60)]
proof fn lemma_order(a: Vm, b: Vm, v: Option<bool>, r: Step)
    requires drive_order_result(a, b, v, r),
    ensures b.ready == a.ready, b.parked == a.parked, same_run(a, b), objects_kept(a.heap, b.heap),
{
}

proof fn lemma_pair(a: Vm, b: Vm, op: RelOp, l: Value, v: Value, r: Step)
    requires pair_result(a, b, op, l, v, r),
    ensures b.ready == a.ready, b.parked == a.parked, same_run(a, b), objects_kept(a.heap, b.heap),
{
    lemma_binds();
}

proof fn lemma_deliver(a: Vm, b: Vm, action: ReturnAction, v: Value, r: Step)
    requires deliver_result(a, b, action, v, r),
    ensures b.ready == a.ready, b.parked == a.parked, same_run(a, b), objects_kept(a.heap, b.heap),
{
}

proof fn lemma_drain(a: Vm, b: Vm, r: Step)
    requires drain_result(a, b, r),
    ensures undisturbed(a, b),
    decreases a.task.mats@.last().args@.len() - a.task.mats@.last().idx,
{
    let j = a.task.mats@.last();
    match next_gen(j.args@, j.idx as int) {
        None => {}
        Some(i) => {
            let g = j.args@[i]->Generator_0;
            if gen_done(a.heap, g) {
                let m = choose|m: Vm| #[trigger] filled(a, m, i, (i + 1) as usize) && drain_result(m, b, r);
                lemma_drain(m, b, r);
            }
        }
    }
}

proof fn lemma_drains(b: Vm, r: Step)
    ensures forall|m: Vm| #[trigger] drain_result(m, b, r) ==> undisturbed(m, b),
{
    assert forall|m: Vm| #[trigger] drain_result(m, b, r) implies undisturbed(m, b) by {
        lemma_drain(m, b, r);
    }
}

#[verifier::spinoff_prover]
#[verifier::rlimit(60)]
proof fn lemma_native(a: Vm, b: Vm, recv: Value, name: Seq<char>, args: Seq<Value>, kwargs: Vec<Keyword>, hint: bool, flush: bool, r: Step)
    requires native_result(a, b, recv, name, args, kwargs, hint, flush, r),
    ensures undisturbed(a, b),
{
    lemma_binds();
    lemma_drains(b, r);
    if concurrent_result(a, b, recv, name, args, kwargs@, Some(r)) {
        lemma_concurrent(a, b, recv, name, args, kwargs@, Some(r));
    }
    if recv is Stream && stream_method_result(a, b, recv->Stream_0, name, args, kwargs@, Some(r)) {
        lemma_stream(a, b, recv->Stream_0, name, args, kwargs@, Some(r));
    }
}

proof fn lemma_builtin(a: Vm, b: Vm, i: usize, args: Seq<Value>, kwargs: Vec<Keyword>, r: Step)
    requires builtin_result(a, b, i, args, kwargs, r),
    ensures undisturbed(a, b),
{
    lemma_binds();
    lemma_drains(b, r);
    if spawn_result(a, b, args, kwargs@, r) {
        lemma_spawn(a, b, args, kwargs@, r);
    }
}

proof fn lemma_spawn(a: Vm, b: Vm, args: Seq<Value>, kwargs: Seq<Keyword>, r: Step)
    requires spawn_result(a, b, args, kwargs, r),
    ensures undisturbed(a, b),
{
    lemma_binds();
    if b.ready@.len() == a.ready@.len() + 1 && b.ready@.drop_last() == a.ready@ {
        assert(b.ready@.take(a.ready@.len() as int) =~= a.ready@);
    }
}

proof fn lemma_invoke(a: Vm, b: Vm, callee: Value, args: Seq<Value>, kwargs: Vec<Keyword>, r: Step)
    requires invoke_result(a, b, callee, args, kwargs, r),
    ensures undisturbed(a, b),
{
    lemma_binds();
    match callee {
        Value::Builtin(i) => lemma_builtin(a, b, i, args, kwargs, r),
        Value::Method(i) => if i < a.heap.methods@.len() {
            match a.heap.methods@[i as int].kind {
                MethodKind::Native(name) => lemma_native(a, b, a.heap.methods@[i as int].receiver, name@, args, kwargs, false, false, r),
                _ => {}
            }
        },
        _ => {}
    }
}

proof fn lemma_return(a: Vm, b: Vm, v: Value, r: Step)
    requires return_result(a, b, v, r),
    ensures undisturbed(a, b),
{
    lemma_wakes();
}

proof fn lemma_unwind_from(a: Vm, b: Vm, exc: Value, lost: bool)
    requires unwind_from(a, b, exc, lost),
    ensures undisturbed(a, b),
    decreases a.task.frames@.len(), a.top().blocks@.len(),
{
    lemma_wakes();
    if a.task.frames@.len() == 0 {
    } else if a.top().blocks@.len() > 0 {
        if a.top().blocks@.last().kind is Loop {
            let m = choose|m: Vm| #[trigger] block_off(a, m) && unwind_from(m, b, exc, lost);
            lemma_unwind_from(m, b, exc, lost);
        }
    } else {
        let m = choose|m: Vm| #[trigger] frame_lost(a, m, exc) && m.task.frames@.len() < a.task.frames@.len() && unwind_from(m, b, exc, lost);
        lemma_unwind_from(m, b, exc, lost);
    }
}

proof fn lemma_step(a: Vm, b: Vm, op: Op, r: Step)
    requires step_result(a, b, op, r), !stores(op),
    ensures undisturbed(a, b),
{
    match op {
        Op::Call(n) => {
            let base = a.stack().len() - n as int - 1;
            let (m, kw) = choose|m: Vm, kw: Vec<Keyword>| {
                &&& #[trigger] popped_to(a, m, base)
                &&& #[trigger] kw@.len() == 0
                &&& invoke_result(m, b, a.stack()[base], a.stack().skip(base + 1), kw, r)
            };
            lemma_invoke(m, b, a.stack()[base], a.stack().skip(base + 1), kw, r);
        }
        Op::CallEx => lemma_call_ex(a, b, r),
        Op::CallMethod(p) => lemma_call_method(a, b, a.top().code.names@[a.top().code.pairs@[p as int].0 as int]@, a.top().code.pairs@[p as int].1, r),
        Op::Return => lemma_return_step(a, b, r),
        Op::EndFinally => lemma_end_finally(a, b, r),
        Op::ForIter(t) => lemma_for(a, b, t as usize, true, r),
        Op::ForEach(t) => lemma_for(a, b, t as usize, false, r),
        Op::ImportModule(n) => lemma_import(a, b, a.top().code.names@[n as int]@, r),
        _ => lemma_step_simple(a, b, op, r),
    }
}

proof fn lemma_call_ex(a: Vm, b: Vm, r: Step)
    requires call_ex_result(a, b, r),
    ensures undisturbed(a, b),
{
    assert forall|m: Vm, c: Value, args: Seq<Value>, kw: Vec<Keyword>| #[trigger] invoke_result(m, b, c, args, kw, r) implies undisturbed(m, b) by {
        lemma_invoke(m, b, c, args, kw, r);
    }
}

proof fn lemma_call_method(a: Vm, b: Vm, name: Seq<char>, argc: u32, r: Step)
    requires call_method_result(a, b, name, argc, r),
    ensures undisturbed(a, b),
{
    lemma_binds();
    assert forall|m: Vm, c: Value, args: Seq<Value>, kw: Vec<Keyword>| #[trigger] invoke_result(m, b, c, args, kw, r) implies undisturbed(m, b) by {
        lemma_invoke(m, b, c, args, kw, r);
    }
    assert forall|m: Vm, recv: Value, args: Seq<Value>, kw: Vec<Keyword>, hint: bool, flush: bool|
        #[trigger] native_result(m, b, recv, name, args, kw, hint, flush, r) implies undisturbed(m, b) by {
        lemma_native(m, b, recv, name, args, kw, hint, flush, r);
    }
}

proof fn lemma_return_step(a: Vm, b: Vm, r: Step)
    requires step_result(a, b, Op::Return, r),
    ensures undisturbed(a, b),
{
    lemma_pool();
    assert forall|m: Vm, v: Value| #[trigger] return_result(m, b, v, r) implies undisturbed(m, b) by {
        lemma_return(m, b, v, r);
    }
}

proof fn lemma_end_finally(a: Vm, b: Vm, r: Step)
    requires end_finally_result(a, b, r),
    ensures undisturbed(a, b),
{
    assert forall|m: Vm, v: Value| #[trigger] return_result(m, b, v, r) implies undisturbed(m, b) by {
        lemma_return(m, b, v, r);
    }
}

proof fn lemma_for(a: Vm, b: Vm, target: usize, paired: bool, r: Step)
    requires for_result(a, b, target, paired, r),
    ensures undisturbed(a, b),
{
    match a.operand(0) {
        Value::Channel(ch) => lemma_iter(a, b, ch, target, paired, r),
        _ => {}
    }
}

proof fn lemma_raised(a: Vm, b: Vm, exc: Value, r: Move)
    requires raised(a, b, exc, r),
    ensures undisturbed(a, b),
{
    let lost = choose|lost: bool| #[trigger] unwind_result(a, b, exc, lost);
    let m = choose|m: Vm| #[trigger] chains_kept(a, m) && unwind_from(m, b, exc, lost);
    lemma_unwind_from(m, b, exc, lost);
}

proof fn lemma_driven(a: Vm, b: Vm, job: Job, r: Move)
    requires drive_result(a, b, job, r),
    ensures undisturbed(a, b),
{
    if let Move::Go(s) = r {
        match job {
            Job::Print => lemma_print(a, b, s),
            Job::Text => lemma_text(a, b, s),
            Job::Chain => lemma_seq(a, b, s),
            Job::Compare => lemma_advance(a, b, None, s),
            Job::Order => lemma_order(a, b, None, s),
            Job::Mat => lemma_drain(a, b, s),
        }
    }
}

proof fn lemma_store(a: Vm, b: Vm, op: Op, r: Step)
    requires step_result(a, b, op, r), stores(op),
    ensures others_kept(a, b), values_kept(a.heap, b.heap),
{
}

/// The instruction the running frame is at.
pub open spec fn at_instruction(a: Vm) -> Op {
    a.top().code.ops@[a.top().pc as int]
}

/// Only an instruction that stores changes a list, a dict or an object: any
/// other move of the running task leaves all of them, and every other task,
/// alone.
pub proof fn only_stores_change_objects(a: Vm, b: Vm, s: Step, r: Move)
    requires
        move_result(a, b, s, r),
        s is Next && has_instruction(a) ==> !stores(at_instruction(a)),
    ensures undisturbed(a, b),
{
    match s {
        Step::Next => if has_instruction(a) {
            assert forall|m: Vm, op: Op, t: Step| #[trigger] step_result(m, b, op, t) && !stores(op) implies undisturbed(m, b) by {
                lemma_step(m, b, op, t);
            }
        },
        Step::Raise(exc) => lemma_raised(a, b, exc, r),
        Step::Fault(_) => {
            assert forall|m: Vm, exc: Value| #[trigger] raised(m, b, exc, r) implies undisturbed(m, b) by {
                lemma_raised(m, b, exc, r);
            }
        }
        Step::Drive(job) => lemma_driven(a, b, job, r),
        Step::Ask(x) => if let Move::Go(t) = r {
            lemma_pair(a, b, (*x).2, (*x).0, (*x).1, t);
        },
        Step::Answer(v) => if let Move::Go(t) = r {
            lemma_answer(a, b, v, t);
        },
        Step::Order(v) => if let Move::Go(t) = r {
            lemma_order(a, b, v, t);
        },
        Step::Give(x) => if let Move::Go(t) = r {
            lemma_deliver(a, b, (*x).0, (*x).1, t);
        },
        Step::Invoke(c) => if let Move::Go(t) = r {
            lemma_invoke(a, b, (*c).callee, (*c).args@, (*c).kwargs, t);
        },
        _ => {}
    }
}

/// One move of the running task changes no other task and no value that cannot
/// change: tasks that can run stay in their order, those that are suspended
/// stay as they are or are woken, and nothing is lost.
pub proof fn moves_leave_others_alone(a: Vm, b: Vm, s: Step, r: Move)
    requires move_result(a, b, s, r),
    ensures
        others_kept(a, b),
        values_kept(a.heap, b.heap),
{
    if s is Next && has_instruction(a) && stores(at_instruction(a)) {
        assert forall|m: Vm, op: Op, t: Step| #[trigger] step_result(m, b, op, t) && stores(op)
            implies others_kept(m, b) && values_kept(m.heap, b.heap) by {
            lemma_store(m, b, op, t);
        }
    } else {
        only_stores_change_objects(a, b, s, r);
    }
}

/// A task that runs, for as long as it runs, changes no other task and no value
/// that cannot change: tasks that can run stay in their order, those that are
/// suspended stay as they are or are woken, and nothing is lost.
pub proof fn tasks_are_isolated(a: Vm, s: Step, b: Vm, r: Slice, n: nat)
    requires runs(a, s, b, r, n),
    ensures
        others_kept(a, b),
        values_kept(a.heap, b.heap),
    decreases n,
{
    if n > 0 {
        if move_result(a, b, s, Move::Stop(r)) {
            moves_leave_others_alone(a, b, s, Move::Stop(r));
        } else {
            let (m, t) = choose|m: Vm, t: Step| #[trigger] move_result(a, m, s, Move::Go(t)) && runs(m, t, b, r, (n - 1) as nat);
            moves_leave_others_alone(a, m, s, Move::Go(t));
            tasks_are_isolated(m, t, b, r, (n - 1) as nat);
            lemma_transitive(a, m, b);
        }
    }
}

} // verus!
