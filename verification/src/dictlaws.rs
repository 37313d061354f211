//! What dicts are made of, and in which order.
use vstd::prelude::*;
use crate::chain::{finish_seq_result, flat_join, flat_ok, flat_result};
use crate::code::Op;
use crate::collect::{entry_pair, pairs_dict};
use crate::collectlaws::{answer, answered};
use crate::exc::{Exc, VErr};
use crate::intlaws::fails_as;
use crate::keylaws::lemma_find;
use crate::keys::{find_key, same_key, unhashable, with_key};
use crate::machine::{Step, Vm};
use crate::ops::display_entries;
use crate::relationlaws::row;
use crate::seqop::{SeqJob, SeqOp, SeqShape};
use crate::step::step_result;
use crate::value::{Heap, Value};

verus! {

/// A value put under a key that is new comes last; one put under a key that is
/// there takes the place of what was there, and the key stays as it was.
pub proof fn new_entries_come_last(h: Heap, es: Seq<(Value, Value)>, key: Value, v: Value)
    ensures
        (forall|k: int| 0 <= k < es.len() ==> !same_key(h, (#[trigger] es[k]).0, key)) ==> with_key(h, es, key, v) == es.push((key, v)),
        forall|k: int| 0 <= k < es.len() && same_key(h, (#[trigger] es[k]).0, key) && (forall|j: int| 0 <= j < k ==> !same_key(h, (#[trigger] es[j]).0, key))
            ==> with_key(h, es, key, v).len() == es.len() && with_key(h, es, key, v)[k] == (es[k].0, v),
        forall|k: int| 0 <= k < es.len() && !same_key(h, (#[trigger] es[k]).0, key) ==> with_key(h, es, key, v)[k] == es[k],
{
    lemma_find(h, es, key, 0);
    let f = find_key(h, es, key, 0);
    assert forall|k: int| 0 <= k < es.len() && same_key(h, (#[trigger] es[k]).0, key) && (forall|j: int| 0 <= j < k ==> !same_key(h, (#[trigger] es[j]).0, key))
        implies with_key(h, es, key, v).len() == es.len() && with_key(h, es, key, v)[k] == (es[k].0, v) by {
        assert(f is Some);
        if f->0 < k {
            assert(!same_key(h, es[f->0].0, key));
        }
    }
}

/// No two of the keys are the same, and each can be one.
pub open spec fn distinct(h: Heap, keys: Seq<Value>) -> bool {
    &&& forall|i: int| 0 <= i < keys.len() ==> unhashable(h, #[trigger] keys[i]) is None
    &&& forall|i: int, j: int| 0 <= i < j < keys.len() ==> !same_key(h, #[trigger] keys[i], #[trigger] keys[j])
}

/// The keys of a display: every second of its operands.
pub open spec fn display_keys(items: Seq<Value>, n: int) -> Seq<Value> {
    Seq::new(n as nat, |i: int| items[2 * i])
}

proof fn lemma_display(h: Heap, items: Seq<Value>, n: int, m: int)
    requires
        0 <= m <= n,
        2 * n <= items.len(),
        distinct(h, display_keys(items, n)),
    ensures
        display_entries(h, items, m) matches Ok(es) && es.len() == m
            && forall|k: int| 0 <= k < m ==> #[trigger] es[k] == (items[2 * k], items[2 * k + 1]),
    decreases m,
{
    if m > 0 {
        lemma_display(h, items, n, m - 1);
        let es = display_entries(h, items, m - 1)->Ok_0;
        let keys = display_keys(items, n);
        let key = items[2 * m - 2];
        assert(keys[m - 1] == key);
        assert forall|k: int| 0 <= k < es.len() implies !same_key(h, (#[trigger] es[k]).0, key) by {
            assert(keys[k] == items[2 * k]);
            assert(!same_key(h, keys[k], keys[m - 1]));
        }
        new_entries_come_last(h, es, key, items[2 * m - 1]);
    }
}

/// `{k: v, ...}` with different keys makes a dict of those entries in that order.
pub proof fn displays_make_their_entries(a: Vm, b: Vm, n: u32, k: int, r: Step)
    requires
        step_result(a, b, Op::BuildMap(n), r),
        a.running(),
        2 * n <= a.stack().len(),
        0 <= k < n,
        distinct(a.heap, display_keys(a.stack().skip(a.stack().len() - 2 * n), n as int)),
    ensures
        r is Next,
        b.stack().last() is Dict,
        b.heap.dict(b.stack().last()->Dict_0).len() == n,
        b.heap.dict(b.stack().last()->Dict_0)[k].0 == a.stack()[a.stack().len() - 2 * n + 2 * k],
        b.heap.dict(b.stack().last()->Dict_0)[k].1 == a.stack()[a.stack().len() - 2 * n + 2 * k + 1],
{
    let items = a.stack().skip(a.stack().len() - 2 * n);
    lemma_display(a.heap, items, n as int, n as int);
    assert(items[2 * k] == a.stack()[a.stack().len() - 2 * n + 2 * k]);
    assert(items[2 * k + 1] == a.stack()[a.stack().len() - 2 * n + 2 * k + 1]);
}

/// The keys of pairs.
pub open spec fn pair_keys(h: Heap, items: Seq<Value>) -> Seq<Value> {
    Seq::new(items.len(), |i: int| row(h, items[i])[0])
}

/// Every item is a pair.
pub open spec fn all_pairs(h: Heap, items: Seq<Value>) -> bool {
    forall|i: int| 0 <= i < items.len() ==> (#[trigger] items[i] is Tuple || items[i] is List) && row(h, items[i]).len() == 2
}

proof fn lemma_pairs(h: Heap, items: Seq<Value>, m: int)
    requires
        0 <= m <= items.len(),
        all_pairs(h, items),
        distinct(h, pair_keys(h, items)),
    ensures
        pairs_dict(h, items, m) matches Ok(es) && es.len() == m
            && forall|k: int| 0 <= k < m ==> #[trigger] es[k] == (row(h, items[k])[0], row(h, items[k])[1]),
    decreases m,
{
    if m > 0 {
        lemma_pairs(h, items, m - 1);
        let es = pairs_dict(h, items, m - 1)->Ok_0;
        let keys = pair_keys(h, items);
        let it = items[m - 1];
        assert(row(h, it).len() == 2);
        let key = row(h, it)[0];
        assert(keys[m - 1] == key);
        assert(entry_pair(h, it) == Ok::<(Value, Value), (Exc, Seq<char>)>((key, row(h, it)[1])));
        assert forall|k: int| 0 <= k < es.len() implies !same_key(h, (#[trigger] es[k]).0, key) by {
            assert(keys[k] == row(h, items[k])[0]);
            assert(!same_key(h, keys[k], keys[m - 1]));
        }
        new_entries_come_last(h, es, key, row(h, it)[1]);
    }
}

/// `map` over a dict makes a dict of the pairs the callback gave back, in order,
/// where their keys differ; and something that is no pair is refused.
pub proof fn dicts_are_mapped_to_dicts(a: Vm, b: Vm, j: SeqJob, k: int, r: Step)
    requires
        finish_seq_result(a, b, j, r),
        j.op == SeqOp::Mapping,
        !j.pick_first,
        j.shape == SeqShape::Dict,
        all_pairs(a.heap, j.results@),
        distinct(a.heap, pair_keys(a.heap, j.results@)),
        0 <= k < j.results@.len(),
    ensures
        answered(a, b, r),
        b.stack().last() is Dict,
        b.heap.dict(b.stack().last()->Dict_0).len() == j.results@.len(),
        b.heap.dict(b.stack().last()->Dict_0)[k] == (row(a.heap, j.results@[k])[0], row(a.heap, j.results@[k])[1]),
{
    lemma_pairs(a.heap, j.results@, j.results@.len() as int);
    assert(b.stack().drop_last() =~= a.stack());
}

/// A result that is neither a list nor a tuple makes no entry of a dict.
pub proof fn what_is_no_pair_makes_no_dict(a: Vm, b: Vm, j: SeqJob, r: Step)
    requires
        finish_seq_result(a, b, j, r),
        j.op == SeqOp::Mapping,
        !j.pick_first,
        j.shape == SeqShape::Dict,
        j.results@.len() > 0,
        !(j.results@[0] is Tuple || j.results@[0] is List),
    ensures fails_as(r, Exc::TypeError),
{
    lemma_first_fails(a.heap, j.results@, j.results@.len() as int);
}

proof fn lemma_first_fails(h: Heap, items: Seq<Value>, m: int)
    requires
        1 <= m <= items.len(),
        !(items[0] is Tuple || items[0] is List),
    ensures pairs_dict(h, items, m) matches Err(e) && e.0 == Exc::TypeError,
    decreases m,
{
    if m > 1 {
        lemma_first_fails(h, items, m - 1);
    } else {
        assert(pairs_dict(h, items, 0) is Ok);
    }
}

/// The items of the rows, one row after the other.
pub open spec fn strung(h: Heap, rows: Seq<Value>) -> Seq<Value>
    decreases rows.len(),
{
    if rows.len() == 0 { Seq::empty() } else { row(h, rows[0]) + strung(h, rows.skip(1)) }
}

proof fn lemma_strung(h: Heap, rows: Seq<Value>, v: Value)
    ensures strung(h, rows.push(v)) == strung(h, rows) + row(h, v),
    decreases rows.len(),
{
    reveal_with_fuel(strung, 2);
    if rows.len() == 0 {
        assert(rows.push(v).skip(1) =~= Seq::empty());
        assert(strung(h, Seq::empty()) =~= Seq::empty());
        assert(rows.push(v)[0] == v);
        assert(strung(h, rows.push(v)) =~= strung(h, rows) + row(h, v));
    } else {
        lemma_strung(h, rows.skip(1), v);
        assert(rows.push(v).skip(1) =~= rows.skip(1).push(v));
        assert(strung(h, rows.push(v)) =~= strung(h, rows) + row(h, v));
    }
}

proof fn lemma_flat(a: Heap, b: Heap, rs: Seq<Value>, n: int, out: Seq<Value>)
    requires
        0 <= n <= rs.len(),
        flat_ok(a, b, rs, n, out),
        forall|k: int| 0 <= k < rs.len() ==> #[trigger] rs[k] is List,
    ensures
        out == strung(a, rs.take(n)),
        b.lists == a.lists,
    decreases n,
{
    if n > 0 {
        let (m, before, part) = choose|m: Heap, before: Seq<Value>, part: Result<Vec<Value>, VErr>| {
            &&& flat_ok(a, m, rs, n - 1, before)
            &&& #[trigger] flat_join(m, b, rs[n - 1], before, part, out)
        };
        lemma_flat(a, m, rs, n - 1, before);
        crate::iterlaws::walking_hands_out_the_items(m, b, rs[n - 1], part);
        lemma_strung(a, rs.take(n - 1), rs[n - 1]);
        assert(rs.take(n) =~= rs.take(n - 1).push(rs[n - 1]));
    } else {
        assert(rs.take(0) =~= Seq::empty());
        assert(out =~= Seq::empty());
    }
}

/// `flat_map` answers with the items of all the lists the callback gave back,
/// one list after the other.
pub proof fn flat_map_strings_together(a: Vm, b: Vm, j: SeqJob, r: Step)
    requires
        finish_seq_result(a, b, j, r),
        j.op == SeqOp::FlatMap,
        !j.pick_first,
        r is Next,
        forall|k: int| 0 <= k < j.results@.len() ==> #[trigger] j.results@[k] is List,
    ensures
        answered(a, b, r),
        b.stack().last() is List,
        answer(b) == strung(a.heap, j.results@),
{
    let (m, out) = choose|m: Vm, out: Result<Vec<Value>, VErr>| {
        &&& m == (Vm { heap: m.heap, ..a })
        &&& #[trigger] flat_result(a.heap, m.heap, j.results@, out)
        &&& match out {
            Ok(v) => crate::chain::rebuilt(m, b, SeqShape::List, v@, r),
            Err(e) => crate::wake::faults(r, e@.0, e@.1) && b == m,
        }
    };
    lemma_flat(a.heap, m.heap, j.results@, j.results@.len() as int, (out->Ok_0)@);
    assert(j.results@.take(j.results@.len() as int) =~= j.results@);
    assert(b.stack().drop_last() =~= a.stack());
}

/// A comprehension puts each item at the end of its list, and each pair into its
/// dict; nothing else changes.
pub proof fn comprehensions_add_at_the_end(a: Vm, b: Vm, x: usize, r: Step)
    requires
        step_result(a, b, Op::ListAppend, r),
        a.has(2),
        a.stack()[a.stack().len() - 2] == Value::List(x),
        x < a.heap.lists@.len(),
    ensures
        r is Next,
        b.heap.list(x) == a.heap.list(x).push(a.stack().last()),
        b.stack() == a.stack().drop_last(),
{
    assert(b.stack() =~= a.stack().drop_last());
}

} // verus!
