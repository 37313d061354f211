//! What is read is what was written.
use vstd::prelude::*;
use crate::attr::{attr_of, attr_result};
use crate::exc::{Exc, VErr};
use crate::flow::{finish_module_result, module_made};
use crate::frame::Frame;
use crate::imports::{import_result, in_shipped_body, is_hidden};
use crate::index::{assign_result, distance, place, stepped, subscript_result};
use crate::iter::{counted, elements, flattened, iter_rest, iter_start, range_goes, Elem};
use crate::machine::{restacked, Keyword, Step, Vm};
use crate::modules::is_built_in;
use crate::objects::store_attr_result;
use crate::ops::{read_result, stored_cell, stored_local};
use crate::tasks::{import_wakes, others, release_result, start_result, waiting};
use crate::value::{Heap, IterState, Value};
use crate::wake::{all_woken, woken, Wake};

verus! {

/// A local gives back what was stored in it.
pub proof fn locals_read_back(a: Vm, b: Vm, c: Vm, slot: int, text: Seq<char>, stored: Step, read: Step)
    requires
        a.has(1),
        0 <= slot < a.top().locals@.len(),
        !(a.stack().last() is Unbound),
        stored_local(a, b, slot, stored),
        read_result(b, c, b.top().locals@[slot], text, read),
    ensures
        read is Next,
        c.stack() == a.stack(),
{
    assert(a.stack().drop_last().push(a.stack().last()) =~= a.stack());
}

/// Storing in one local leaves the others as they were.
pub proof fn locals_are_apart(a: Vm, b: Vm, slot: int, other: int, stored: Step)
    requires
        stored_local(a, b, slot, stored),
        0 <= slot < a.top().locals@.len(),
        0 <= other < a.top().locals@.len(),
        other != slot,
    ensures b.top().locals@[other] == a.top().locals@[other],
{
}

/// A cell gives back what was stored in it, whichever frame or task reads it.
pub proof fn cells_are_shared(a: Vm, b: Vm, c: Vm, d: Vm, cell: usize, text: Seq<char>, stored: Step, read: Step)
    requires
        a.has(1),
        cell < a.heap.cells@.len(),
        !(a.stack().last() is Unbound),
        stored_cell(a, b, cell, stored),
        c.heap == b.heap,
        read_result(c, d, c.heap.cell(cell), text, read),
    ensures
        read is Next,
        d.stack() == c.stack().push(a.stack().last()),
{
}

/// A list gives back what was stored at a place.
pub proof fn items_read_back(h: Heap, h2: Heap, h3: Heap, x: usize, index: Value, v: Value, stored: Result<(), VErr>, read: Result<Value, VErr>)
    requires
        assign_result(h, h2, Value::List(x), index, v, stored),
        stored is Ok,
        subscript_result(h2, h3, Value::List(x), index, read),
    ensures read == Ok::<Value, VErr>(v),
{
    assert(place(h2, index, h2.list(x).len(), "list"@) == place(h, index, h.list(x).len(), "list"@));
}

/// Storing at one place of a list leaves every other place, and every other
/// list, as it was.
pub proof fn items_are_apart(h: Heap, h2: Heap, x: usize, y: usize, index: Value, p: int, v: Value, stored: Result<(), VErr>)
    requires
        assign_result(h, h2, Value::List(x), index, v, stored),
        0 <= p < h.list(y).len(),
        y == x ==> place(h, index, h.list(x).len(), "list"@) != Ok::<int, (Exc, Seq<char>)>(p),
    ensures
        h2.list(y).len() == h.list(y).len(),
        h2.list(y)[p] == h.list(y)[p],
{
}

/// A field gives back what was stored in it, before anything of the class.
pub proof fn fields_read_back(a: Vm, b: Vm, h: Heap, i: usize, name: Seq<char>, stored: Step, read: Result<Value, VErr>)
    requires
        a.has(2),
        a.operand(0) == Value::Instance(i),
        i < a.heap.instances@.len(),
        store_attr_result(a, b, name, stored),
        attr_result(h, attr_of(b.natives, b.heap, Value::Instance(i), name), name, read),
    ensures
        stored is Next,
        read == Ok::<Value, VErr>(a.operand(1)),
{
}

/// Storing in one field leaves every other field of every object as it was.
pub proof fn fields_are_apart(a: Vm, b: Vm, i: usize, name: Seq<char>, j: usize, other: Seq<char>, stored: Step)
    requires
        a.operand(0) == Value::Instance(i),
        store_attr_result(a, b, name, stored),
        j != i || other != name,
    ensures b.heap.field(j, other) == a.heap.field(j, other),
{
}

/// Importing a module again gives the very module its body made, and runs
/// nothing.
pub proof fn modules_are_made_once(a: Vm, b: Vm, c: Vm, d: Vm, path: Seq<char>, f: Frame, r: Step)
    requires
        finish_module_result(a, b, path, f),
        c.module_cache == b.module_cache,
        import_result(c, d, path, r),
        !(is_built_in(path) && (!is_hidden(path) || in_shipped_body(c))),
    ensures
        r is Next,
        d.stack() == c.stack().push(b.stack().last()),
        d.heap == c.heap,
{
    let (m, n) = choose|m: Vm, n: Vm| {
        &&& #[trigger] module_made(a, m, path, f)
        &&& #[trigger] release_result(m, n, path, Ok::<Value, Value>(Value::Module(a.heap.modules.len())))
        &&& restacked(n, b, a.stack().push(Value::Module(a.heap.modules.len())))
        &&& b.heap == n.heap
    };
    lemma_release_keeps(m, n, path, Ok::<Value, Value>(Value::Module(a.heap.modules.len())));
    assert(b.module_cache@.dom().contains(path));
}

proof fn lemma_release_keeps(a: Vm, b: Vm, path: Seq<char>, outcome: Result<Value, Value>)
    requires release_result(a, b, path, outcome),
    ensures b.module_cache == a.module_cache,
{
    let ws = import_wakes(waiting(a.import_waiters@, path), outcome);
    let m = choose|m: Vm| {
        &&& m == (Vm { importing: m.importing, import_waiters: m.import_waiters, ..a })
        &&& m.importing@ == others(a.importing@, path)
        &&& m.import_waiters@ == others(a.import_waiters@, path)
        &&& #[trigger] all_woken(m, b, ws)
    };
    lemma_wakes_keep(m, b, ws);
}

proof fn lemma_wakes_keep(a: Vm, b: Vm, ws: Seq<Wake>)
    requires all_woken(a, b, ws),
    ensures b.module_cache == a.module_cache,
    decreases ws.len(),
{
    if ws.len() > 0 {
        let m = choose|m: Vm| all_woken(a, m, ws.drop_last()) && #[trigger] woken(m, b, ws.last());
        lemma_wakes_keep(a, m, ws.drop_last());
    }
}

/// No task has an identity that is not given out yet.
pub open spec fn identities_given(a: Vm) -> bool {
    &&& a.task.id <= a.next_task_id
    &&& forall|k: int| 0 <= k < a.ready@.len() ==> (#[trigger] a.ready@[k]).id <= a.next_task_id
    &&& forall|k: int| 0 <= k < a.parked@.len() ==> (#[trigger] a.parked@[k]).task.id <= a.next_task_id
    &&& forall|k: int| 0 <= k < a.heap.handles@.len() ==> (#[trigger] a.heap.handles@[k]).id <= a.next_task_id
}

/// A new task has an identity that no task, running, ready, suspended or over,
/// ever had.
pub proof fn identities_are_fresh(a: Vm, b: Vm, func: usize, receiver: Option<Value>, ctx: Option<(usize, Value)>,
    args: Seq<Value>, kwargs: Seq<Keyword>, r: Step)
    requires
        start_result(a, b, func, receiver, ctx, args, kwargs, r),
        r is Next,
        a.next_task_id < u64::MAX,
        identities_given(a),
    ensures
        identities_given(b),
        b.ready@.last().id != a.task.id,
        forall|k: int| 0 <= k < a.ready@.len() ==> b.ready@.last().id != (#[trigger] a.ready@[k]).id,
        forall|k: int| 0 <= k < a.parked@.len() ==> b.ready@.last().id != (#[trigger] a.parked@[k]).task.id,
        forall|k: int| 0 <= k < a.heap.handles@.len() ==> b.ready@.last().id != (#[trigger] a.heap.handles@[k]).id,
{
    assert forall|k: int| 0 <= k < b.ready@.len() implies (#[trigger] b.ready@[k]).id <= b.next_task_id by {
        if k < a.ready@.len() {
            assert(b.ready@.drop_last()[k] == a.ready@[k]);
        }
    }
    assert forall|k: int| 0 <= k < b.heap.handles@.len() implies (#[trigger] b.heap.handles@[k]).id <= b.next_task_id by {
        if k < a.heap.handles@.len() {
            assert(b.heap.handles@.drop_last()[k] == a.heap.handles@[k]);
        }
    }
}

/// Walking something step by step hands out what collecting it at once does.
/// A dict is walked as it was when the walk began: `flat` holds its entries.
pub proof fn walking_agrees_with_collecting(h: Heap, v: Value, st: IterState)
    requires
        elements(h, v) matches Some(es) && es.len() <= usize::MAX,
        match v {
            Value::Dict(d) => st matches IterState::DictPairs { flat, idx } && idx == 0 && h.tuple(flat) == flattened(h.dict(d))
                && h.tuple(flat).len() <= usize::MAX,
            _ => iter_start(h, v) == Some(st),
        },
    ensures elements(h, v) == Some(iter_rest(h, st)),
{
    match v {
        Value::List(i) => lemma_list_rest(h, i, h.list(i).len() as usize, 0),
        Value::Tuple(i) => lemma_tuple_rest(h, i, 0),
        Value::Str(i) => lemma_text_rest(h, i, 0),
        Value::Bytes(i) => lemma_octets_rest(h, i, 0),
        Value::Range(i) => lemma_range_rest(h, h.range(i).start, h.range(i).stop, h.range(i).step, 0),
        Value::Dict(d) => {
            lemma_flattened(h.dict(d));
            lemma_entries_rest(h, h.dict(d), st->flat, 0);
        }
        _ => {}
    }
    assert(elements(h, v)->0 =~= elements(h, v)->0.skip(0));
}

proof fn lemma_range_rest(h: Heap, cur: i64, stop: i64, step: i64, n: i64)
    ensures
        iter_rest(h, IterState::Range { cur, stop, step, n })
            == stepped(cur as int, stop as int, step as int).map_values(|x: int| Elem::Val(Value::Int(x as i64))),
    decreases distance(cur as int, stop as int, step as int),
{
    let f = |x: int| Elem::Val(Value::Int(x as i64));
    let all = stepped(cur as int, stop as int, step as int);
    if range_goes(cur as int, stop as int, step as int) {
        let next = cur + step;
        let to = if i64::MIN <= next <= i64::MAX { next as i64 } else { stop };
        lemma_range_rest(h, to, stop, step, counted(n));
        let rest = stepped(next, stop as int, step as int);
        assert(rest == stepped(to as int, stop as int, step as int));
        assert(all == seq![cur as int] + rest);
        assert(all.map_values(f) =~= seq![Elem::Val(Value::Int(cur))] + rest.map_values(f));
    } else {
        assert(all.map_values(f) =~= Seq::empty());
    }
}

proof fn lemma_flattened(es: Seq<(Value, Value)>)
    ensures
        flattened(es).len() == 2 * es.len(),
        forall|k: int| 0 <= k < es.len() ==> flattened(es)[2 * k] == (#[trigger] es[k]).0 && flattened(es)[2 * k + 1] == es[k].1,
    decreases es.len(),
{
    if es.len() > 0 {
        lemma_flattened(es.drop_last());
        assert forall|k: int| 0 <= k < es.len() implies flattened(es)[2 * k] == (#[trigger] es[k]).0 && flattened(es)[2 * k + 1] == es[k].1 by {
            if k < es.len() - 1 {
                assert(es.drop_last()[k] == es[k]);
            }
        }
    }
}

proof fn lemma_entries_rest(h: Heap, es: Seq<(Value, Value)>, flat: usize, k: int)
    requires
        0 <= k <= es.len(),
        h.tuple(flat).len() == 2 * es.len(),
        2 * es.len() <= usize::MAX,
        forall|j: int| 0 <= j < es.len() ==> h.tuple(flat)[2 * j] == (#[trigger] es[j]).0 && h.tuple(flat)[2 * j + 1] == es[j].1,
    ensures
        iter_rest(h, IterState::DictPairs { flat, idx: (2 * k) as usize })
            == es.map_values(|e: (Value, Value)| Elem::Pair(e.0, e.1)).skip(k),
    decreases es.len() - k,
{
    let all = es.map_values(|e: (Value, Value)| Elem::Pair(e.0, e.1));
    if k < es.len() {
        lemma_entries_rest(h, es, flat, k + 1);
        assert(all[k] == Elem::Pair(es[k].0, es[k].1));
        assert(all.skip(k) =~= seq![all[k]] + all.skip(k + 1));
    } else {
        assert(all.skip(k) =~= Seq::empty());
    }
}

proof fn lemma_list_rest(h: Heap, i: usize, n: usize, k: usize)
    requires k <= h.list(i).len() <= usize::MAX,
    ensures iter_rest(h, IterState::List { list: i, idx: k, orig_len: n }) == elements(h, Value::List(i))->0.skip(k as int),
    decreases h.list(i).len() - k,
{
    let all = elements(h, Value::List(i))->0;
    if k < h.list(i).len() {
        lemma_list_rest(h, i, n, (k + 1) as usize);
        assert(all.skip(k as int) =~= seq![all[k as int]] + all.skip(k + 1));
    } else {
        assert(all.skip(k as int) =~= Seq::empty());
    }
}

proof fn lemma_tuple_rest(h: Heap, i: usize, k: usize)
    requires k <= h.tuple(i).len() <= usize::MAX,
    ensures iter_rest(h, IterState::Tuple { tuple: i, idx: k }) == elements(h, Value::Tuple(i))->0.skip(k as int),
    decreases h.tuple(i).len() - k,
{
    let all = elements(h, Value::Tuple(i))->0;
    if k < h.tuple(i).len() {
        lemma_tuple_rest(h, i, (k + 1) as usize);
        assert(all.skip(k as int) =~= seq![all[k as int]] + all.skip(k + 1));
    } else {
        assert(all.skip(k as int) =~= Seq::empty());
    }
}

proof fn lemma_text_rest(h: Heap, i: usize, k: usize)
    requires k <= h.text(i).len() <= usize::MAX,
    ensures iter_rest(h, IterState::Str { text: i, idx: k }) == elements(h, Value::Str(i))->0.skip(k as int),
    decreases h.text(i).len() - k,
{
    let all = elements(h, Value::Str(i))->0;
    if k < h.text(i).len() {
        lemma_text_rest(h, i, (k + 1) as usize);
        assert(all.skip(k as int) =~= seq![all[k as int]] + all.skip(k + 1));
    } else {
        assert(all.skip(k as int) =~= Seq::empty());
    }
}

proof fn lemma_octets_rest(h: Heap, i: usize, k: usize)
    requires k <= h.octets(i).len() <= usize::MAX,
    ensures iter_rest(h, IterState::Bytes { bytes: i, idx: k }) == elements(h, Value::Bytes(i))->0.skip(k as int),
    decreases h.octets(i).len() - k,
{
    let all = elements(h, Value::Bytes(i))->0;
    if k < h.octets(i).len() {
        lemma_octets_rest(h, i, (k + 1) as usize);
        assert(all.skip(k as int) =~= seq![all[k as int]] + all.skip(k + 1));
    } else {
        assert(all.skip(k as int) =~= Seq::empty());
    }
}

} // verus!
