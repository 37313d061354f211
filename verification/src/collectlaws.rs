//! What the collection operations answer, item by item.
use vstd::prelude::*;
use crate::chain::finish_seq_result;
use crate::collect::{bad_key, chosen, count_true, distinct_items, distinct_keys, first_true, grouped, group_at, group_entry, paired_len, run_end, seen_key, Group};
use crate::keylaws::{same_key_is_symmetric, same_key_is_transitive};
use crate::keys::{same_key, unhashable};
use crate::laws::leading_runs_split;
use crate::machine::{Step, Vm};
use crate::names::truthy;
use crate::orderlaws::{an_extreme_is_taken, arranged, comparable_keys, sorting_arranges_the_items};
use crate::relationlaws::{below, row};
use crate::seqop::{SeqJob, SeqOp, SeqShape};
use crate::value::{Heap, Value};

verus! {

/// The places `p` are those below `n` that are wanted, from the first on.
pub open spec fn places(p: Seq<int>, n: int, wanted: spec_fn(int) -> bool) -> bool {
    &&& forall|k: int| 0 <= k < p.len() ==> 0 <= #[trigger] p[k] < n && wanted(p[k])
    &&& forall|k: int, l: int| 0 <= k < l < p.len() ==> #[trigger] p[k] < #[trigger] p[l]
    &&& forall|i: int| 0 <= i < n && #[trigger] wanted(i) ==> p.contains(i)
}

/// `out` is the items at the wanted places below `n`, in the order they came.
pub open spec fn picked(out: Seq<Value>, items: Seq<Value>, n: int, wanted: spec_fn(int) -> bool) -> bool {
    exists|p: Seq<int>| {
        &&& #[trigger] places(p, n, wanted)
        &&& out.len() == p.len()
        &&& forall|k: int| 0 <= k < out.len() ==> #[trigger] out[k] == items[p[k]]
    }
}

proof fn lemma_picked(out: Seq<Value>, items: Seq<Value>, n: int, wanted: spec_fn(int) -> bool)
    requires
        n > 0,
        picked(out, items, n - 1, wanted),
    ensures
        wanted(n - 1) ==> picked(out.push(items[n - 1]), items, n, wanted),
        !wanted(n - 1) ==> picked(out, items, n, wanted),
{
    let p = choose|p: Seq<int>| {
        &&& #[trigger] places(p, n - 1, wanted)
        &&& out.len() == p.len()
        &&& forall|k: int| 0 <= k < out.len() ==> #[trigger] out[k] == items[p[k]]
    };
    if wanted(n - 1) {
        let q = p.push(n - 1);
        assert(places(q, n, wanted)) by {
            assert forall|i: int| 0 <= i < n && #[trigger] wanted(i) implies q.contains(i) by {
                if i < n - 1 {
                    assert(p.contains(i));
                    let k = choose|k: int| 0 <= k < p.len() && p[k] == i;
                    assert(q[k] == i);
                } else {
                    assert(q[p.len() as int] == i);
                }
            }
            assert forall|k: int| 0 <= k < q.len() implies 0 <= #[trigger] q[k] < n && wanted(q[k]) by {
                if k < p.len() {
                    assert(0 <= p[k] < n - 1 && wanted(p[k]));
                }
            }
            assert forall|k: int, l: int| 0 <= k < l < q.len() implies #[trigger] q[k] < #[trigger] q[l] by {
                assert(0 <= p[k] < n - 1);
                if l < p.len() {
                    assert(p[k] < p[l]);
                }
            }
        }
        let o = out.push(items[n - 1]);
        assert forall|k: int| 0 <= k < o.len() implies #[trigger] o[k] == items[q[k]] by {
            if k < out.len() {
                assert(out[k] == items[p[k]]);
            }
        }
    } else {
        assert(places(p, n, wanted)) by {
            assert forall|i: int| 0 <= i < n && #[trigger] wanted(i) implies p.contains(i) by {
                assert(i != n - 1);
            }
            assert forall|k: int| 0 <= k < p.len() implies 0 <= #[trigger] p[k] < n && wanted(p[k]) by {
                assert(0 <= p[k] < n - 1);
            }
        }
    }
}

proof fn lemma_none_picked(items: Seq<Value>, wanted: spec_fn(int) -> bool)
    ensures picked(Seq::empty(), items, 0, wanted),
{
    assert(places(Seq::empty(), 0, wanted));
}

/// One answer is on the stack, over what was there.
pub open spec fn answered(a: Vm, b: Vm, r: Step) -> bool {
    &&& r is Next
    &&& b.stack().len() == a.stack().len() + 1
    &&& b.stack().drop_last() == a.stack()
}

/// The answer is a new list, or a new tuple where the operation was asked of
/// one, of these items.
pub open spec fn answered_row(a: Vm, b: Vm, shape: SeqShape, r: Step) -> bool {
    &&& answered(a, b, r)
    &&& shape == SeqShape::Tuple ==> b.stack().last() is Tuple
    &&& shape == SeqShape::List ==> b.stack().last() is List
}

/// The items of the answer.
pub open spec fn answer(b: Vm) -> Seq<Value> {
    row(b.heap, b.stack().last())
}

proof fn lemma_chosen(h: Heap, items: Seq<Value>, rs: Seq<Value>, want: bool, n: int)
    requires 0 <= n,
    ensures picked(chosen(h, items, rs, want, n), items, n, |i: int| truthy(h, rs[i]) == want),
    decreases n,
{
    let wanted = |i: int| truthy(h, rs[i]) == want;
    if n > 0 {
        lemma_chosen(h, items, rs, want, n - 1);
        lemma_picked(chosen(h, items, rs, want, n - 1), items, n, wanted);
    } else {
        lemma_none_picked(items, wanted);
        assert(chosen(h, items, rs, want, n) =~= Seq::empty());
    }
}

/// A finished operation over a list or a tuple.
pub open spec fn ended(a: Vm, b: Vm, j: SeqJob, op: SeqOp, r: Step) -> bool {
    &&& finish_seq_result(a, b, j, r)
    &&& j.op == op
    &&& !j.pick_first
    &&& j.shape != SeqShape::Dict
}

/// A finished operation over a list or a tuple that asked about every item.
pub open spec fn finished(a: Vm, b: Vm, j: SeqJob, op: SeqOp, r: Step) -> bool {
    ended(a, b, j, op, r) && j.items@.len() == j.results@.len()
}

/// `map` answers with every result of the callback, in order.
pub proof fn map_gives_every_result(a: Vm, b: Vm, j: SeqJob, r: Step)
    requires ended(a, b, j, SeqOp::Mapping, r),
    ensures
        answered_row(a, b, j.shape, r),
        answer(b) == j.results@,
{
    assert(b.stack().drop_last() =~= a.stack());
}

/// `filter` keeps exactly the items whose result is true, in order.
pub proof fn filter_keeps_what_is_true(a: Vm, b: Vm, j: SeqJob, r: Step)
    requires finished(a, b, j, SeqOp::Filter, r),
    ensures
        answered_row(a, b, j.shape, r),
        picked(answer(b), j.items@, j.items@.len() as int, |i: int| truthy(a.heap, j.results@[i]) == true),
{
    lemma_chosen(a.heap, j.items@, j.results@, true, j.items@.len() as int);
    assert(b.stack().drop_last() =~= a.stack());
}

/// `partition` answers with a pair: what `filter` keeps, and what it does not.
pub proof fn partition_keeps_both(a: Vm, b: Vm, j: SeqJob, r: Step)
    requires finished(a, b, j, SeqOp::Partition, r),
    ensures
        answered(a, b, r),
        b.stack().last() is Tuple,
        answer(b).len() == 2,
        picked(row(b.heap, answer(b)[0]), j.items@, j.items@.len() as int, |i: int| truthy(a.heap, j.results@[i]) == true),
        picked(row(b.heap, answer(b)[1]), j.items@, j.items@.len() as int, |i: int| truthy(a.heap, j.results@[i]) == false),
{
    lemma_chosen(a.heap, j.items@, j.results@, true, j.items@.len() as int);
    lemma_chosen(a.heap, j.items@, j.results@, false, j.items@.len() as int);
    assert(b.stack().drop_last() =~= a.stack());
}

proof fn lemma_seen(h: Heap, seen: Seq<Value>, key: Value, i: int)
    requires 0 <= i <= seen.len(),
    ensures seen_key(h, seen, key, i) <==> exists|k: int| i <= k < seen.len() && same_key(h, #[trigger] seen[k], key),
    decreases seen.len() - i,
{
    if i < seen.len() {
        lemma_seen(h, seen, key, i + 1);
    }
}

/// No key before place `i` is the same as the one there.
pub open spec fn first_of_its_key(h: Heap, keys: Seq<Value>, i: int) -> bool {
    forall|j: int| 0 <= j < i ==> !same_key(h, #[trigger] keys[j], keys[i])
}

proof fn lemma_distinct_seen(h: Heap, keys: Seq<Value>, n: int, key: Value)
    requires 0 <= n <= keys.len(),
    ensures
        seen_key(h, distinct_keys(h, keys, n), key, 0) <==> exists|j: int| 0 <= j < n && same_key(h, #[trigger] keys[j], key),
    decreases n,
{
    let s = distinct_keys(h, keys, n);
    lemma_seen(h, s, key, 0);
    if n > 0 {
        let t = distinct_keys(h, keys, n - 1);
        let last = keys[n - 1];
        lemma_distinct_seen(h, keys, n - 1, key);
        lemma_distinct_seen(h, keys, n - 1, last);
        lemma_seen(h, t, key, 0);
        lemma_seen(h, t, last, 0);
        if seen_key(h, t, last, 0) {
            if same_key(h, last, key) {
                let k = choose|k: int| 0 <= k < t.len() && same_key(h, #[trigger] t[k], last);
                same_key_is_transitive(h, t[k], last, key);
            }
        } else {
            assert(s == t.push(last));
            if same_key(h, last, key) {
                assert(s[t.len() as int] == last);
            }
            if seen_key(h, t, key, 0) {
                let k = choose|k: int| 0 <= k < t.len() && same_key(h, #[trigger] t[k], key);
                assert(s[k] == t[k]);
            }
            if exists|k: int| 0 <= k < s.len() && same_key(h, #[trigger] s[k], key) {
                let k = choose|k: int| 0 <= k < s.len() && same_key(h, #[trigger] s[k], key);
                if k < t.len() {
                    assert(s[k] == t[k]);
                }
            }
        }
    }
}

proof fn lemma_distinct(h: Heap, items: Seq<Value>, keys: Seq<Value>, n: int)
    requires 0 <= n <= keys.len(),
    ensures picked(distinct_items(h, items, keys, n), items, n, |i: int| first_of_its_key(h, keys, i)),
    decreases n,
{
    let wanted = |i: int| first_of_its_key(h, keys, i);
    if n > 0 {
        lemma_distinct(h, items, keys, n - 1);
        lemma_distinct_seen(h, keys, n - 1, keys[n - 1]);
        lemma_picked(distinct_items(h, items, keys, n - 1), items, n, wanted);
    } else {
        lemma_none_picked(items, wanted);
    }
}

proof fn lemma_good_keys(h: Heap, keys: Seq<Value>, n: int, i: int)
    requires 0 <= i <= n,
    ensures bad_key(h, keys, n, i) is None <==> forall|k: int| i <= k < n ==> unhashable(h, #[trigger] keys[k]) is None,
    decreases n - i,
{
    if i < n {
        lemma_good_keys(h, keys, n, i + 1);
        if bad_key(h, keys, n, i) is None {
            assert forall|k: int| i <= k < n implies unhashable(h, #[trigger] keys[k]) is None by {
                if k > i {
                }
            }
        }
    }
}

/// Every result can be a key.
pub open spec fn all_keys(h: Heap, keys: Seq<Value>) -> bool {
    forall|k: int| 0 <= k < keys.len() ==> unhashable(h, #[trigger] keys[k]) is None
}

/// `unique_by` keeps an item exactly when no item before it has the same key,
/// in order; it refuses a result that can be no key.
pub proof fn unique_keeps_the_first_of_each(a: Vm, b: Vm, j: SeqJob, r: Step)
    requires finished(a, b, j, SeqOp::UniqueBy, r),
    ensures
        all_keys(a.heap, j.results@) ==> answered_row(a, b, j.shape, r)
            && picked(answer(b), j.items@, j.items@.len() as int, |i: int| first_of_its_key(a.heap, j.results@, i)),
        !all_keys(a.heap, j.results@) ==> !(r is Next),
{
    lemma_good_keys(a.heap, j.results@, j.items@.len() as int, 0);
    lemma_distinct(a.heap, j.items@, j.results@, j.items@.len() as int);
    if all_keys(a.heap, j.results@) {
        assert(b.stack().drop_last() =~= a.stack());
    }
}

proof fn lemma_earliest(h: Heap, keys: Seq<Value>, i: int) -> (k: int)
    requires
        all_keys(h, keys),
        0 <= i < keys.len(),
    ensures
        0 <= k <= i,
        first_of_its_key(h, keys, k),
        k == i || same_key(h, keys[k], keys[i]),
    decreases i,
{
    if first_of_its_key(h, keys, i) {
        i
    } else {
        let j = choose|j: int| 0 <= j < i && same_key(h, #[trigger] keys[j], keys[i]);
        let k = lemma_earliest(h, keys, j);
        if k != j {
            same_key_is_transitive(h, keys[k], keys[j], keys[i]);
        }
        k
    }
}

/// Place `i` is the first of its key, or has the same key as one before it that is.
pub open spec fn stood_for(h: Heap, keys: Seq<Value>, i: int) -> bool {
    exists|k: int| 0 <= k <= i && #[trigger] first_of_its_key(h, keys, k) && (k == i || same_key(h, keys[k], keys[i]))
}

/// What is the first of its key stands for all: no two such places have the
/// same key, and every place has one that is the same place or has the same key.
pub proof fn first_of_each_key(h: Heap, keys: Seq<Value>)
    requires all_keys(h, keys),
    ensures
        forall|i: int, k: int| 0 <= i < k < keys.len() && #[trigger] first_of_its_key(h, keys, i) && #[trigger] first_of_its_key(h, keys, k)
            ==> !same_key(h, keys[i], keys[k]),
        forall|i: int| 0 <= i < keys.len() ==> #[trigger] stood_for(h, keys, i),
{
    assert forall|i: int| 0 <= i < keys.len() implies #[trigger] stood_for(h, keys, i) by {
        let k = lemma_earliest(h, keys, i);
    }
}

proof fn lemma_first(h: Heap, rs: Seq<Value>, n: int, i: int)
    requires 0 <= i <= n,
    ensures
        match first_true(h, rs, n, i) {
            Some(k) => i <= k < n && truthy(h, rs[k]) && forall|j: int| i <= j < k ==> !truthy(h, #[trigger] rs[j]),
            None => forall|j: int| i <= j < n ==> !truthy(h, #[trigger] rs[j]),
        },
    decreases n - i,
{
    if i < n {
        lemma_first(h, rs, n, i + 1);
        if !truthy(h, rs[i]) {
            match first_true(h, rs, n, i) {
                Some(k) => {
                    assert forall|j: int| i <= j < k implies !truthy(h, #[trigger] rs[j]) by {
                        if j > i {
                        }
                    }
                }
                None => {
                    assert forall|j: int| i <= j < n implies !truthy(h, #[trigger] rs[j]) by {
                        if j > i {
                        }
                    }
                }
            }
        }
    }
}

/// `find` answers with an item whose result is true and before which none is,
/// or with null where none is true at all.
pub proof fn find_gives_the_first(a: Vm, b: Vm, j: SeqJob, r: Step)
    requires ended(a, b, j, SeqOp::Find, r),
    ensures
        answered(a, b, r),
        forall|k: int| 0 <= k < j.items@.len() && k < j.results@.len() && truthy(a.heap, #[trigger] j.results@[k])
            && (forall|i: int| 0 <= i < k ==> !truthy(a.heap, #[trigger] j.results@[i])) ==> b.stack().last() == j.items@[k],
        (forall|i: int| 0 <= i < j.items@.len() && i < j.results@.len() ==> !truthy(a.heap, #[trigger] j.results@[i])) ==> b.stack().last() == Value::Null,
{
    lemma_first(a.heap, j.results@, paired_len(j.items@, j.results@) as int, 0);
    assert(b.stack().drop_last() =~= a.stack());
}

/// `any` says whether some result is true, `all` whether none is false.
pub proof fn any_and_all(a: Vm, b: Vm, j: SeqJob, r: Step)
    requires ended(a, b, j, SeqOp::Any, r) || ended(a, b, j, SeqOp::All, r),
    ensures
        answered(a, b, r),
        j.op == SeqOp::Any ==> b.stack().last() == Value::Bool(exists|i: int| 0 <= i < j.results@.len() && truthy(a.heap, #[trigger] j.results@[i])),
        j.op == SeqOp::All ==> b.stack().last() == Value::Bool(!exists|i: int| 0 <= i < j.results@.len() && !truthy(a.heap, #[trigger] j.results@[i])),
{
    assert(b.stack().drop_last() =~= a.stack());
}

proof fn lemma_count(h: Heap, rs: Seq<Value>, n: int)
    requires 0 <= n <= rs.len(),
    ensures
        count_true(h, rs.take(n)) == chosen(h, rs, rs, true, n).len(),
        count_true(h, rs.take(n)) <= n,
    decreases n,
{
    if n > 0 {
        lemma_count(h, rs, n - 1);
        assert(rs.take(n).drop_last() =~= rs.take(n - 1));
    }
}

/// `count` answers with how many results are true: as many as `filter` would keep.
pub proof fn count_counts_what_is_true(a: Vm, b: Vm, j: SeqJob, r: Step)
    requires
        finished(a, b, j, SeqOp::Count, r),
        j.results@.len() <= i64::MAX,
    ensures
        answered(a, b, r),
        exists|kept: Seq<Value>| picked(kept, j.items@, j.items@.len() as int, |i: int| truthy(a.heap, j.results@[i]) == true)
            && b.stack().last() == Value::Int(#[trigger] kept.len() as i64) && kept.len() <= i64::MAX,
{
    let n = j.items@.len() as int;
    lemma_count(a.heap, j.results@, n);
    assert(j.results@.take(n) =~= j.results@);
    lemma_same_len(a.heap, j.items@, j.results@, j.results@, n);
    lemma_chosen(a.heap, j.items@, j.results@, true, n);
    let kept = chosen(a.heap, j.items@, j.results@, true, n);
    assert(b.stack().last() == Value::Int(kept.len() as i64));
    assert(b.stack().drop_last() =~= a.stack());
}

proof fn lemma_same_len(h: Heap, xs: Seq<Value>, ys: Seq<Value>, rs: Seq<Value>, n: int)
    requires 0 <= n,
    ensures chosen(h, xs, rs, true, n).len() == chosen(h, ys, rs, true, n).len(),
    decreases n,
{
    if n > 0 {
        lemma_same_len(h, xs, ys, rs, n - 1);
    }
}

/// The leading run of true results is `k` long.
pub open spec fn true_run(h: Heap, rs: Seq<Value>, k: int) -> bool {
    &&& 0 <= k <= rs.len()
    &&& forall|i: int| 0 <= i < k ==> truthy(h, #[trigger] rs[i])
    &&& k < rs.len() ==> !truthy(h, rs[k])
}

/// `take_while` keeps the items of the leading run of true results, and
/// `drop_while` the items from the first false one on.
pub proof fn runs_are_kept_or_dropped(a: Vm, b: Vm, j: SeqJob, r: Step, k: int)
    requires
        ended(a, b, j, SeqOp::TakeWhile, r) || finished(a, b, j, SeqOp::DropWhile, r),
        j.results@.len() <= j.items@.len(),
        true_run(a.heap, j.results@, k),
    ensures
        answered_row(a, b, j.shape, r),
        j.op == SeqOp::TakeWhile ==> answer(b) == j.items@.take(k),
        j.op == SeqOp::DropWhile ==> answer(b) == j.items@.skip(k),
{
    let n = j.results@.len() as int;
    leading_runs_split(a.heap, j.items@, j.results@, n);
    let e = run_end(a.heap, j.results@, n, 0);
    if e < k {
        assert(truthy(a.heap, j.results@[e]));
    }
    if k < e {
        assert(truthy(a.heap, j.results@[k]));
    }
    assert(j.items@.subrange(0, k) =~= j.items@.take(k));
    if j.op == SeqOp::DropWhile {
        assert(j.items@.subrange(k, n) =~= j.items@.skip(k));
    }
    assert(b.stack().drop_last() =~= a.stack());
}

/// `sort_by` answers with all the items in the order of their results, turned
/// round where that was asked for, and as they came where the results are alike.
pub proof fn sort_by_arranges_the_items(a: Vm, b: Vm, j: SeqJob, r: Step)
    requires
        finished(a, b, j, SeqOp::SortBy, r),
        j.shape == SeqShape::List,
        comparable_keys(a.heap, j.results@),
    ensures
        answered_row(a, b, j.shape, r),
        arranged(a.heap, j.items@, j.results@, j.reverse, answer(b)),
{
    assert(j.results.len() <= usize::MAX);
    sorting_arranges_the_items(a, b, j.items@, j.results@, j.reverse, r);
}

/// `min_by` answers with the first item whose result no other is below, and
/// `max_by` with the first that is below no other.
pub proof fn min_by_and_max_by(a: Vm, b: Vm, j: SeqJob, r: Step)
    requires
        finished(a, b, j, SeqOp::MinBy, r) || finished(a, b, j, SeqOp::MaxBy, r),
        comparable_keys(a.heap, j.results@),
        j.items@.len() > 0,
    ensures
        answered(a, b, r),
        exists|k: int| {
            &&& 0 <= k < j.items@.len()
            &&& b.stack().last() == #[trigger] j.items@[k]
            &&& j.op == SeqOp::MinBy ==> forall|i: int| 0 <= i < j.results@.len() ==> !below(a.heap, #[trigger] j.results@[i], j.results@[k])
            &&& j.op == SeqOp::MinBy ==> forall|i: int| 0 <= i < k ==> below(a.heap, j.results@[k], #[trigger] j.results@[i])
            &&& j.op == SeqOp::MaxBy ==> forall|i: int| 0 <= i < j.results@.len() ==> !below(a.heap, j.results@[k], #[trigger] j.results@[i])
            &&& j.op == SeqOp::MaxBy ==> forall|i: int| 0 <= i < k ==> below(a.heap, #[trigger] j.results@[i], j.results@[k])
        },
{
    let want_min = j.op == SeqOp::MinBy;
    an_extreme_is_taken(a, b, want_min, true, j.items@, j.results@, false, r);
    let keys = j.results@;
    let k = choose|k: int| {
        &&& 0 <= k < j.items@.len()
        &&& b.stack().last() == j.items@[k]
        &&& forall|i: int| 0 <= i < keys.len() ==> !(if want_min { below(a.heap, #[trigger] keys[i], keys[k]) } else { below(a.heap, keys[k], keys[i]) })
        &&& forall|i: int| 0 <= i < k ==> if want_min { below(a.heap, keys[k], #[trigger] keys[i]) } else { below(a.heap, keys[i], keys[k]) }
    };
    assert(b.stack().last() == j.items@[k]);
}

/// `reduce` answers with what the callback gave back last.
pub proof fn reduce_gives_the_last(a: Vm, b: Vm, j: SeqJob, r: Step)
    requires
        ended(a, b, j, SeqOp::Reduce, r),
        j.results@.len() > 0,
    ensures
        answered(a, b, r),
        b.stack().last() == j.results@[j.results@.len() - 1],
{
    assert(b.stack().drop_last() =~= a.stack());
}

proof fn lemma_group_at(h: Heap, gs: Seq<Group>, key: Value, i: int)
    requires 0 <= i <= gs.len(),
    ensures
        match group_at(h, gs, key, i) {
            Some(k) => i <= k < gs.len() && same_key(h, gs[k].key, key),
            None => forall|k: int| i <= k < gs.len() ==> !same_key(h, (#[trigger] gs[k]).key, key),
        },
    decreases gs.len() - i,
{
    if i < gs.len() {
        lemma_group_at(h, gs, key, i + 1);
        if group_at(h, gs, key, i) is None {
            assert forall|k: int| i <= k < gs.len() implies !same_key(h, (#[trigger] gs[k]).key, key) by {
                if k > i {
                }
            }
        }
    }
}

/// The place below `n` that opened group `g`: the first of its key, and later
/// than the ones that opened the groups before it.
pub open spec fn opens(h: Heap, keys: Seq<Value>, n: int, gs: Seq<Group>, at: Seq<int>) -> bool {
    &&& at.len() == gs.len()
    &&& places(at, n, |i: int| first_of_its_key(h, keys, i))
    &&& forall|g: int| 0 <= g < gs.len() ==> (#[trigger] gs[g]).key == keys[at[g]]
}

/// Group `g` holds the item that opened it and all the items whose key is the
/// same as its own, in the order they came.
pub open spec fn holds_its_own(h: Heap, items: Seq<Value>, keys: Seq<Value>, n: int, g: Group, at: int) -> bool {
    picked(g.items, items, n, |i: int| i == at || same_key(h, g.key, keys[i]))
}

/// The groups of the first `n` items: one for each key, in the order the keys
/// came first, with the items of that key.
pub open spec fn well_grouped(h: Heap, items: Seq<Value>, keys: Seq<Value>, n: int, gs: Seq<Group>) -> bool {
    exists|at: Seq<int>| #[trigger] opens(h, keys, n, gs, at)
        && forall|g: int| 0 <= g < gs.len() ==> holds_its_own(h, items, keys, n, #[trigger] gs[g], at[g])
}

proof fn lemma_only(items: Seq<Value>, n: int, wanted: spec_fn(int) -> bool)
    requires
        n > 0,
        wanted(n - 1),
        forall|i: int| 0 <= i < n - 1 ==> !#[trigger] wanted(i),
    ensures picked(seq![items[n - 1]], items, n, wanted),
{
    let p = seq![n - 1];
    assert(p[0] == n - 1);
    assert(places(p, n, wanted));
    assert forall|k: int| 0 <= k < 1 implies #[trigger] seq![items[n - 1]][k] == items[p[k]] by {
    }
}

proof fn lemma_grouped(h: Heap, items: Seq<Value>, keys: Seq<Value>, n: int)
    requires
        0 <= n <= keys.len(),
        all_keys(h, keys),
    ensures well_grouped(h, items, keys, n, grouped(h, items, keys, n)),
    decreases n,
{
    let first = |i: int| first_of_its_key(h, keys, i);
    if n <= 0 {
        let at = Seq::<int>::empty();
        assert(places(at, n, first));
        assert(opens(h, keys, n, grouped(h, items, keys, n), at));
    } else {
        lemma_grouped(h, items, keys, n - 1);
        let gs = grouped(h, items, keys, n - 1);
        let at = choose|at: Seq<int>| #[trigger] opens(h, keys, n - 1, gs, at)
            && forall|g: int| 0 <= g < gs.len() ==> holds_its_own(h, items, keys, n - 1, #[trigger] gs[g], at[g]);
        let key = keys[n - 1];
        lemma_group_at(h, gs, key, 0);
        let out = grouped(h, items, keys, n);
        match group_at(h, gs, key, 0) {
            Some(w) => {
                assert(gs[w].key == keys[at[w]]);
                assert(!first(n - 1)) by {
                    assert(0 <= at[w] < n - 1);
                    assert(same_key(h, keys[at[w]], keys[n - 1]));
                }
                assert(places(at, n, first)) by {
                    assert forall|i: int| 0 <= i < n && #[trigger] first(i) implies at.contains(i) by {
                        assert(i != n - 1);
                    }
                    assert forall|k: int| 0 <= k < at.len() implies 0 <= #[trigger] at[k] < n && first(at[k]) by {
                        assert(0 <= at[k] < n - 1);
                    }
                }
                assert forall|g: int| 0 <= g < out.len() implies (#[trigger] out[g]).key == keys[at[g]] by {
                    assert(gs[g].key == keys[at[g]]);
                }
                assert(opens(h, keys, n, out, at));
                assert forall|g: int| 0 <= g < out.len() implies holds_its_own(h, items, keys, n, #[trigger] out[g], at[g]) by {
                    let wanted = |i: int| i == at[g] || same_key(h, gs[g].key, keys[i]);
                    assert(holds_its_own(h, items, keys, n - 1, gs[g], at[g]));
                    assert(0 <= at[g] < n - 1);
                    lemma_picked(gs[g].items, items, n, wanted);
                    if g != w && same_key(h, gs[g].key, key) {
                        assert(gs[g].key == keys[at[g]]);
                        assert(gs[w].key == keys[at[w]]);
                        if g < w {
                            same_key_is_symmetric(h, gs[w].key, key);
                            same_key_is_transitive(h, gs[g].key, key, gs[w].key);
                            assert(at[g] < at[w]);
                            assert(first(at[w]));
                        } else {
                            same_key_is_symmetric(h, gs[g].key, key);
                            same_key_is_transitive(h, gs[w].key, key, gs[g].key);
                            assert(at[w] < at[g]);
                            assert(first(at[g]));
                        }
                    }
                }
            }
            None => {
                let at2 = at.push(n - 1);
                assert(first_of_its_key(h, keys, n - 1)) by {
                    assert forall|j: int| 0 <= j < n - 1 implies !same_key(h, #[trigger] keys[j], key) by {
                        if same_key(h, keys[j], key) {
                            let k = lemma_earliest(h, keys, j);
                            assert(first(k));
                            assert(at.contains(k));
                            let g = choose|g: int| 0 <= g < at.len() && at[g] == k;
                            assert(gs[g].key == keys[at[g]]);
                            if k != j {
                                same_key_is_transitive(h, keys[k], keys[j], key);
                            }
                        }
                    }
                }
                assert(first(n - 1));
                assert(places(at2, n, first)) by {
                    assert forall|i: int| 0 <= i < n && #[trigger] first(i) implies at2.contains(i) by {
                        if i < n - 1 {
                            assert(at.contains(i));
                            let k = choose|k: int| 0 <= k < at.len() && at[k] == i;
                            assert(at2[k] == i);
                        } else {
                            assert(at2[at.len() as int] == i);
                        }
                    }
                    assert forall|k: int| 0 <= k < at2.len() implies 0 <= #[trigger] at2[k] < n && first(at2[k]) by {
                        if k < at.len() {
                            assert(0 <= at[k] < n - 1 && first(at[k]));
                        }
                    }
                    assert forall|k: int, l: int| 0 <= k < l < at2.len() implies #[trigger] at2[k] < #[trigger] at2[l] by {
                        assert(0 <= at[k] < n - 1);
                        if l < at.len() {
                            assert(at[k] < at[l]);
                        }
                    }
                }
                assert forall|g: int| 0 <= g < out.len() implies (#[trigger] out[g]).key == keys[at2[g]] by {
                    if g < gs.len() {
                        assert(gs[g].key == keys[at[g]]);
                    }
                }
                assert(opens(h, keys, n, out, at2));
                assert forall|g: int| 0 <= g < out.len() implies holds_its_own(h, items, keys, n, #[trigger] out[g], at2[g]) by {
                    if g < gs.len() {
                        assert(out[g] == gs[g]);
                        let wanted = |i: int| i == at[g] || same_key(h, gs[g].key, keys[i]);
                        assert(holds_its_own(h, items, keys, n - 1, gs[g], at[g]));
                        assert(0 <= at[g] < n - 1);
                        lemma_picked(gs[g].items, items, n, wanted);
                    } else {
                        let wanted = |i: int| i == at2[g] || same_key(h, out[g].key, keys[i]);
                        assert forall|i: int| 0 <= i < n - 1 implies !#[trigger] wanted(i) by {
                            if same_key(h, key, keys[i]) {
                                same_key_is_symmetric(h, key, keys[i]);
                                assert(!same_key(h, keys[i], keys[n - 1]));
                            }
                        }
                        lemma_only(items, n, wanted);
                    }
                }
            }
        }
    }
}

/// `group_by` answers with a dict: one entry for each key, in the order the keys
/// came first, that holds a list of the items of that key in order. It refuses
/// a result that can be no key.
pub proof fn group_by_gathers_by_key(a: Vm, b: Vm, j: SeqJob, r: Step)
    requires finished(a, b, j, SeqOp::GroupBy, r),
    ensures
        all_keys(a.heap, j.results@) ==> {
            &&& answered(a, b, r)
            &&& b.stack().last() is Dict
            &&& well_grouped(a.heap, j.items@, j.results@, j.items@.len() as int, entry_groups(b.heap, b.stack().last()->Dict_0))
        },
        !all_keys(a.heap, j.results@) ==> !(r is Next),
{
    let n = j.items@.len() as int;
    lemma_good_keys(a.heap, j.results@, n, 0);
    if all_keys(a.heap, j.results@) {
        lemma_grouped(a.heap, j.items@, j.results@, n);
        let d = b.stack().last()->Dict_0;
        let gs = grouped(a.heap, j.items@, j.results@, n);
        assert forall|k: int| 0 <= k < gs.len() implies #[trigger] entry_groups(b.heap, d)[k] == gs[k] by {
            assert(group_entry(b.heap, b.heap.dict(d)[k], gs[k]));
        }
        assert(entry_groups(b.heap, d) =~= gs);
        assert(b.stack().drop_last() =~= a.stack());
    }
}

/// The entries of a dict of lists, as groups.
pub open spec fn entry_groups(h: Heap, d: usize) -> Seq<Group> {
    Seq::new(h.dict(d).len(), |k: int| Group { key: h.dict(d)[k].0, items: row(h, h.dict(d)[k].1) })
}

} // verus!
