//! What sorts, and how.
use vstd::prelude::*;
use crate::code::RelOp;
use crate::exc::VErr;
use crate::machine::{OrderCont, OrderJob, OrderKind, OrderState, Step, Vm};
use crate::wake::faults;
use crate::membership::{defers, defers_from, SCAN_DEPTH};
use crate::number::{num, Num, Order};
use crate::order::{begin_order_result, extreme_at, fold_step, key_less, native_sort_result, order_finished, order_op, order_rebuilt, permuted, some_defer, unordered_keys};
use crate::relation::{octets_less, ordered, Ordered, DEPTH_LIMIT};
use crate::relationlaws::{below, comparable, lemma_below, lemma_below_chain, plain_pair, row};
use crate::seqop::SeqShape;
use crate::sorting::{before, counting, sorted, weak_below, Less};
use crate::text::chars_less;
use crate::value::{Heap, Value};

verus! {

proof fn lemma_chars(a: Seq<char>, b: Seq<char>, c: Seq<char>)
    ensures
        !chars_less(a, a),
        chars_less(a, b) && chars_less(b, c) ==> chars_less(a, c),
        chars_less(a, c) ==> chars_less(a, b) || chars_less(b, c),
    decreases a.len() + b.len() + c.len(),
{
    if a.len() > 0 {
        lemma_chars_itself(a);
        if b.len() > 0 && c.len() > 0 {
            lemma_chars(a.skip(1), b.skip(1), c.skip(1));
            lemma_same_char(a[0], b[0]);
            lemma_same_char(b[0], c[0]);
            lemma_same_char(a[0], c[0]);
        }
    }
}

proof fn lemma_same_char(a: char, b: char)
    ensures a as u32 == b as u32 ==> a == b,
{
}

proof fn lemma_chars_itself(a: Seq<char>)
    ensures !chars_less(a, a),
    decreases a.len(),
{
    if a.len() > 0 {
        lemma_chars_itself(a.skip(1));
    }
}

proof fn lemma_octets(a: Seq<u8>, b: Seq<u8>, c: Seq<u8>)
    ensures
        !octets_less(a, a),
        octets_less(a, b) && octets_less(b, c) ==> octets_less(a, c),
        octets_less(a, c) ==> octets_less(a, b) || octets_less(b, c),
    decreases a.len() + b.len() + c.len(),
{
    if a.len() > 0 {
        lemma_octets_itself(a);
        if b.len() > 0 && c.len() > 0 {
            lemma_octets(a.skip(1), b.skip(1), c.skip(1));
        }
    }
}

proof fn lemma_octets_itself(a: Seq<u8>)
    ensures !octets_less(a, a),
    decreases a.len(),
{
    if a.len() > 0 {
        lemma_octets_itself(a.skip(1));
    }
}

/// Whether keys are of one kind that a sort can order by itself: integers, of
/// whatever size and bools among them, texts, or octets.
pub open spec fn plain_keys(h: Heap, keys: Seq<Value>) -> bool {
    ||| forall|k: int| 0 <= k < keys.len() ==> num(h, #[trigger] keys[k]) matches Some(Num::Int(_))
    ||| forall|k: int| 0 <= k < keys.len() ==> (#[trigger] keys[k]) is Str
    ||| forall|k: int| 0 <= k < keys.len() ==> (#[trigger] keys[k]) is Bytes
}

/// Keys of one such kind are in a weak order.
pub proof fn plain_keys_are_ordered(h: Heap, keys: Seq<Value>)
    requires plain_keys(h, keys),
    ensures weak_below(key_less(h, keys), keys.len()),
{
    let lt = key_less(h, keys);
    let n = keys.len();
    assert forall|a: int, b: int, c: int| 0 <= a < n && 0 <= b < n && 0 <= c < n implies !lt(a, a)
        && (#[trigger] lt(a, b) && #[trigger] lt(b, c) ==> lt(a, c)) && (lt(a, c) ==> lt(a, b) || lt(b, c)) by {
        if keys[a] is Str && keys[b] is Str && keys[c] is Str {
            lemma_chars(h.text(keys[a]->Str_0), h.text(keys[b]->Str_0), h.text(keys[c]->Str_0));
        }
        if keys[a] is Bytes && keys[b] is Bytes && keys[c] is Bytes {
            lemma_octets(h.octets(keys[a]->Bytes_0), h.octets(keys[b]->Bytes_0), h.octets(keys[c]->Bytes_0));
        }
    }
    assert forall|a: int| 0 <= a < n implies !#[trigger] lt(a, a) by {
        let x = lt(a, a);
        assert(lt(a, a) == lt(a, a));
    }
}

/// Sorting keys of one such kind succeeds, and leaves them in order: the stable
/// one, or its reverse with equal keys still as they came.
pub proof fn plain_keys_end_sorted(h: Heap, keys: Seq<Value>, reverse: bool, r: Result<Vec<usize>, VErr>)
    requires
        plain_keys(h, keys),
        native_sort_result(h, keys, reverse, r),
    ensures
        r is Ok,
        sorted((r->Ok_0)@, key_less(h, keys), reverse),
{
    plain_keys_are_ordered(h, keys);
    if r is Err {
        let (a, b) = choose|a: int, b: int| #[trigger] unordered_keys(h, keys, r->Err_0, a, b);
        assert(unordered_keys(h, keys, r->Err_0, a, b));
        let x = keys[a];
        let y = keys[b];
    }
}

/// Whether every two of the keys can be compared: they are integers, texts or
/// octets, or lists or tuples of such whose places match in kind.
pub open spec fn comparable_keys(h: Heap, keys: Seq<Value>) -> bool {
    forall|i: int, j: int| 0 <= i < keys.len() && 0 <= j < keys.len() ==> comparable(h, #[trigger] keys[i], #[trigger] keys[j])
}

/// Keys that can be compared are in a weak order.
pub proof fn comparable_keys_are_ordered(h: Heap, keys: Seq<Value>)
    requires comparable_keys(h, keys),
    ensures weak_below(key_less(h, keys), keys.len()),
{
    let lt = key_less(h, keys);
    let n = keys.len();
    assert forall|i: int, j: int| 0 <= i < n && 0 <= j < n implies #[trigger] lt(i, j) == below(h, keys[i], keys[j]) by {
        lemma_below(h, keys[i], keys[j]);
    }
    assert forall|i: int| 0 <= i < n implies !#[trigger] lt(i, i) by {
        lemma_below(h, keys[i], keys[i]);
    }
    assert forall|i: int, j: int, k: int| 0 <= i < n && 0 <= j < n && 0 <= k < n && #[trigger] lt(i, j) && #[trigger] lt(j, k)
        implies lt(i, k) by {
        lemma_below_chain(h, keys[i], keys[j], keys[k]);
    }
    assert forall|i: int, j: int, k: int| #![trigger lt(i, k), lt(i, j), lt(j, k)]
        0 <= i < n && 0 <= j < n && 0 <= k < n && lt(i, k) implies lt(i, j) || lt(j, k) by {
        lemma_below_chain(h, keys[i], keys[j], keys[k]);
    }
}

/// The places `s` put the keys in order: none after another that is below it,
/// or above it where the order is turned round, and of two that are neither the
/// one that came first.
pub open spec fn in_order(h: Heap, keys: Seq<Value>, s: Seq<usize>, reverse: bool) -> bool {
    forall|p: int, q: int| 0 <= p < q < s.len() ==> {
        let x = keys[#[trigger] s[p] as int];
        let y = keys[#[trigger] s[q] as int];
        &&& !reverse ==> !below(h, y, x)
        &&& reverse ==> !below(h, x, y)
        &&& !below(h, x, y) && !below(h, y, x) ==> s[p] < s[q]
    }
}

/// Every place below `n`, each once.
pub open spec fn each_once(s: Seq<usize>, n: nat) -> bool {
    &&& s.len() == n
    &&& forall|k: int| 0 <= k < n ==> #[trigger] s[k] < n
    &&& forall|p: int, q: int| 0 <= p < q < n ==> #[trigger] s[p] != #[trigger] s[q]
}

/// Sorting keys that can be compared succeeds, keeps every one of them, and
/// puts them in order.
pub proof fn comparable_keys_end_sorted(h: Heap, keys: Seq<Value>, reverse: bool, r: Result<Vec<usize>, VErr>)
    requires
        comparable_keys(h, keys),
        keys.len() <= usize::MAX,
        native_sort_result(h, keys, reverse, r),
    ensures
        r is Ok,
        each_once((r->Ok_0)@, keys.len()),
        in_order(h, keys, (r->Ok_0)@, reverse),
{
    comparable_keys_are_ordered(h, keys);
    if r is Err {
        let (i, j) = choose|i: int, j: int| #[trigger] unordered_keys(h, keys, r->Err_0, i, j);
        lemma_below(h, keys[i], keys[j]);
    }
    let s = (r->Ok_0)@;
    let lt = key_less(h, keys);
    assert(sorted(s, lt, reverse));
    assert forall|p: int, q: int| 0 <= p < q < s.len() implies {
        let x = keys[#[trigger] s[p] as int];
        let y = keys[#[trigger] s[q] as int];
        &&& !reverse ==> !below(h, y, x)
        &&& reverse ==> !below(h, x, y)
        &&& !below(h, x, y) && !below(h, y, x) ==> s[p] < s[q]
    } by {
        assert(before(lt, reverse, s[p] as int, s[q] as int));
        lemma_below(h, keys[s[p] as int], keys[s[q] as int]);
        lemma_below(h, keys[s[q] as int], keys[s[p] as int]);
    }
    let c = counting(keys.len());
    assert(c.no_duplicates()) by {
        assert forall|i: int, j: int| 0 <= i < c.len() && 0 <= j < c.len() && i != j implies c[i] != c[j] by {
        }
    }
    c.lemma_multiset_has_no_duplicates();
    s.lemma_multiset_has_no_duplicates_conv();
    assert forall|p: int, q: int| 0 <= p < q < s.len() implies #[trigger] s[p] != #[trigger] s[q] by {
    }
}

/// The key at `x` is below the one at `y`, or above it.
#[verifier::opaque]
spec fn better(h: Heap, keys: Seq<Value>, want_min: bool, x: int, y: int) -> bool {
    if want_min { below(h, keys[x], keys[y]) } else { below(h, keys[y], keys[x]) }
}

/// Every two of the keys can be compared.
#[verifier::opaque]
spec fn all_comparable(h: Heap, keys: Seq<Value>) -> bool {
    comparable_keys(h, keys)
}

/// None of the first `n` is better than the one at `best`, and it is better than
/// all before it.
spec fn best_of(h: Heap, keys: Seq<Value>, want_min: bool, n: int, best: int) -> bool {
    &&& 0 <= best < n
    &&& forall|j: int| 0 <= j < n ==> !#[trigger] better(h, keys, want_min, j, best)
    &&& forall|j: int| 0 <= j < best ==> #[trigger] better(h, keys, want_min, best, j)
}

proof fn lemma_better(h: Heap, keys: Seq<Value>, want_min: bool, new: int, best: int, x: int)
    requires
        all_comparable(h, keys),
        0 <= new < keys.len(),
        0 <= best < keys.len(),
        0 <= x < keys.len(),
    ensures
        !better(h, keys, want_min, x, x),
        better(h, keys, want_min, new, best) && !better(h, keys, want_min, x, best)
            ==> better(h, keys, want_min, new, x) && !better(h, keys, want_min, x, new),
        ordered(h, keys[new], keys[best], DEPTH_LIMIT as nat) matches Ordered::Known(o)
            && (o == (if want_min { Order::Less } else { Order::Greater })) == better(h, keys, want_min, new, best),
{
    reveal(better);
    reveal(all_comparable);
    lemma_below(h, keys[x], keys[x]);
    lemma_below(h, keys[new], keys[best]);
    lemma_passed(h, keys[new], keys[best], keys[x]);
}

proof fn lemma_winner(h: Heap, keys: Seq<Value>, want_min: bool, n: int, best: int)
    requires
        all_comparable(h, keys),
        1 < n <= keys.len(),
        best_of(h, keys, want_min, n - 1, best),
    ensures
        best_of(h, keys, want_min, n, if better(h, keys, want_min, n - 1, best) { n - 1 } else { best }),
{
    lemma_better(h, keys, want_min, n - 1, best, n - 1);
    if better(h, keys, want_min, n - 1, best) {
        assert forall|j: int| 0 <= j < n implies !#[trigger] better(h, keys, want_min, j, n - 1) by {
            if j < n - 1 {
                assert(!better(h, keys, want_min, j, best));
                lemma_better(h, keys, want_min, n - 1, best, j);
            }
        }
        assert forall|j: int| 0 <= j < n - 1 implies #[trigger] better(h, keys, want_min, n - 1, j) by {
            assert(!better(h, keys, want_min, j, best));
            lemma_better(h, keys, want_min, n - 1, best, j);
        }
    }
}

proof fn lemma_extreme(h: Heap, keys: Seq<Value>, want_min: bool, n: int)
    requires
        all_comparable(h, keys),
        1 <= n <= keys.len(),
    ensures extreme_at(h, keys, want_min, n) matches Ok(best) && best_of(h, keys, want_min, n, best),
    decreases n,
{
    if n == 1 {
        lemma_better(h, keys, want_min, 0, 0, 0);
    } else {
        lemma_extreme(h, keys, want_min, n - 1);
        let best = extreme_at(h, keys, want_min, n - 1)->Ok_0;
        lemma_better(h, keys, want_min, n - 1, best, 0);
        lemma_winner(h, keys, want_min, n, best);
    }
}

/// The place the least of the keys is at, or the greatest, is one that none is
/// below, or above, and the first such.
pub proof fn the_extreme_is_the_first_of_the_best(h: Heap, keys: Seq<Value>, want_min: bool, n: int)
    requires
        comparable_keys(h, keys),
        1 <= n <= keys.len(),
    ensures
        extreme_at(h, keys, want_min, n) matches Ok(best) && {
            &&& 0 <= best < n
            &&& forall|j: int| 0 <= j < n ==> !(if want_min { below(h, #[trigger] keys[j], keys[best]) } else { below(h, keys[best], keys[j]) })
            &&& forall|j: int| 0 <= j < best ==> if want_min { below(h, keys[best], #[trigger] keys[j]) } else { below(h, keys[j], keys[best]) }
        },
{
    reveal(better);
    reveal(all_comparable);
    lemma_extreme(h, keys, want_min, n);
    let best = extreme_at(h, keys, want_min, n)->Ok_0;
    assert forall|j: int| 0 <= j < n implies !(if want_min { below(h, #[trigger] keys[j], keys[best]) } else { below(h, keys[best], keys[j]) }) by {
        assert(!better(h, keys, want_min, j, best));
    }
    assert forall|j: int| 0 <= j < best implies (if want_min { below(h, keys[best], #[trigger] keys[j]) } else { below(h, keys[j], keys[best]) }) by {
        assert(better(h, keys, want_min, best, j));
    }
}

/// What was no less than `old_best` is greater than a new one that is less.
spec fn passed(h: Heap, new: Value, old_best: Value, x: Value) -> bool {
    below(h, new, old_best) && !below(h, x, old_best) ==> below(h, new, x) && !below(h, x, new)
}

/// What was no greater than `old_best` is less than a new one that is greater.
spec fn outdone(h: Heap, new: Value, old_best: Value, x: Value) -> bool {
    below(h, old_best, new) && !below(h, old_best, x) ==> below(h, x, new) && !below(h, new, x)
}

proof fn lemma_passed(h: Heap, new: Value, old_best: Value, x: Value)
    requires
        comparable(h, new, old_best),
        comparable(h, old_best, new),
        comparable(h, new, x),
        comparable(h, x, new),
        comparable(h, old_best, x),
        comparable(h, x, old_best),
    ensures
        passed(h, new, old_best, x),
        outdone(h, new, old_best, x),
{
    lemma_below(h, new, x);
    lemma_below_chain(h, new, x, old_best);
    lemma_below_chain(h, old_best, x, new);
}

proof fn lemma_no_defer(h: Heap, v: Value)
    requires comparable(h, v, v),
    ensures !defers(h, v, SCAN_DEPTH as nat),
{
    if v is List || v is Tuple {
        lemma_no_defer_from(h, row(h, v), 0, (SCAN_DEPTH - 1) as nat);
    }
}

proof fn lemma_no_defer_from(h: Heap, items: Seq<Value>, i: int, left: nat)
    requires
        0 <= i <= items.len(),
        left > 0,
        forall|j: int| 0 <= j < items.len() ==> plain_pair(h, #[trigger] items[j], items[j]),
    ensures !defers_from(h, items, i, left),
    decreases items.len() - i,
{
    if i < items.len() {
        assert(plain_pair(h, items[i], items[i]));
        assert(!defers(h, items[i], left));
        lemma_no_defer_from(h, items, i + 1, left);
    }
}

proof fn lemma_none_defer(h: Heap, keys: Seq<Value>)
    requires comparable_keys(h, keys),
    ensures !some_defer(h, keys),
{
    assert forall|k: int| 0 <= k < keys.len() implies !#[trigger] defers(h, keys[k], SCAN_DEPTH as nat) by {
        lemma_no_defer(h, keys[k]);
    }
}

/// The items behind the keys, put in the order of the keys.
pub open spec fn arranged(h: Heap, items: Seq<Value>, keys: Seq<Value>, reverse: bool, out: Seq<Value>) -> bool {
    exists|s: Seq<usize>| {
        &&& each_once(s, keys.len())
        &&& #[trigger] in_order(h, keys, s, reverse)
        &&& out.len() == items.len()
        &&& forall|k: int| 0 <= k < out.len() ==> #[trigger] out[k] == items[s[k] as int]
    }
}

/// Sorting a list by keys that can be compared leaves a new list on the stack,
/// with all the items in the order of their keys.
pub proof fn sorting_arranges_the_items(a: Vm, b: Vm, items: Seq<Value>, keys: Seq<Value>, reverse: bool, r: Step)
    requires
        begin_order_result(a, b, OrderKind::Sort(SeqShape::List), items, keys, reverse, OrderCont::Push, r),
        comparable_keys(a.heap, keys),
        keys.len() == items.len(),
        keys.len() <= usize::MAX,
    ensures
        r is Next,
        b.stack().drop_last() == a.stack(),
        b.stack().len() == a.stack().len() + 1,
        b.stack().last() is List,
        arranged(a.heap, items, keys, reverse, b.heap.list(b.stack().last()->List_0)),
{
    lemma_none_defer(a.heap, keys);
    let p = choose|p: Result<Vec<usize>, VErr>| {
        &&& #[trigger] native_sort_result(a.heap, keys, reverse, p)
        &&& match p {
            Ok(places) => order_rebuilt(a, b, SeqShape::List, permuted(items, places@), OrderCont::Push, r),
            Err(e) => faults(r, e@.0, e@.1) && b == a,
        }
    };
    comparable_keys_end_sorted(a.heap, keys, reverse, p);
    let s = (p->Ok_0)@;
    let out = b.heap.list(b.stack().last()->List_0);
    assert(out == permuted(items, s));
    assert forall|k: int| 0 <= k < out.len() implies #[trigger] out[k] == items[s[k] as int] by {
    }
    assert(b.stack().drop_last() =~= a.stack());
}

/// Taking the least or the greatest of items by keys that can be compared
/// leaves on the stack the first item whose key none is below, or above.
pub proof fn an_extreme_is_taken(a: Vm, b: Vm, want_min: bool, by: bool, items: Seq<Value>, keys: Seq<Value>, reverse: bool, r: Step)
    requires
        begin_order_result(a, b, OrderKind::Extreme { want_min, by }, items, keys, reverse, OrderCont::Push, r),
        comparable_keys(a.heap, keys),
        keys.len() == items.len(),
        keys.len() > 0,
    ensures
        r is Next,
        b.stack().len() == a.stack().len() + 1,
        b.stack().drop_last() == a.stack(),
        exists|k: int| {
            &&& 0 <= k < items.len()
            &&& b.stack().last() == items[k]
            &&& forall|j: int| 0 <= j < keys.len() ==> !(if want_min { below(a.heap, #[trigger] keys[j], keys[k]) } else { below(a.heap, keys[k], keys[j]) })
            &&& forall|j: int| 0 <= j < k ==> if want_min { below(a.heap, keys[k], #[trigger] keys[j]) } else { below(a.heap, keys[j], keys[k]) }
        },
{
    lemma_none_defer(a.heap, keys);
    the_extreme_is_the_first_of_the_best(a.heap, keys, want_min, keys.len() as int);
    let k = extreme_at(a.heap, keys, want_min, keys.len() as int)->Ok_0;
    assert(b.stack().last() == items[k]);
    assert(b.stack().drop_last() =~= a.stack());
}

/// The search for an extreme that asks a program keeps the best so far: if the
/// answer to "is the next one better" is true of a weak order, no place up to
/// the next is better than the one it goes on with.
pub proof fn the_fold_keeps_the_best(best: usize, next: usize, n: nat, better: Less, to: OrderState, ask: Option<(usize, usize)>)
    requires
        best < next < n,
        n <= usize::MAX,
        weak_below(better, n),
        fold_step(best, next, n, Some(better(next as int, best as int)), to, ask),
        forall|j: int| 0 <= j < next ==> !#[trigger] better(j, best as int),
    ensures
        to matches OrderState::Fold { best: x, next: y } && {
            &&& y == next + 1
            &&& x < y
            &&& forall|j: int| 0 <= j < y ==> !#[trigger] better(j, x as int)
            &&& y < n ==> ask == Some((y, x))
            &&& y >= n ==> ask is None
        },
{
    let taken = better(next as int, best as int);
    if taken {
        assert forall|j: int| 0 <= j < next implies !#[trigger] better(j, next as int) by {
            if better(j, next as int) {
                assert(better(j, best as int));
            }
        }
    }
}

/// A search for the least asks whether the next is below the best so far, one
/// for the greatest whether it is above, and a sort whether one is below the
/// other; the search ends with the best it found.
pub proof fn orderings_ask_the_right_way(a: Vm, b: Vm, j: OrderJob, best: usize, next: usize, by: bool, r: Step)
    requires
        order_finished(a, b, j, r),
        j.cont == OrderCont::Push,
    ensures
        j.state == (OrderState::Fold { best, next }) && j.kind == (OrderKind::Extreme { want_min: true, by }) ==> order_op(j) == RelOp::Lt,
        j.state == (OrderState::Fold { best, next }) && j.kind == (OrderKind::Extreme { want_min: false, by }) ==> order_op(j) == RelOp::Gt,
        j.state is Merge ==> order_op(j) == RelOp::Lt,
        j.state == (OrderState::Fold { best, next }) && best < j.items@.len() ==> r is Next && b.stack() == a.stack().push(j.items@[best as int]),
{
}

} // verus!
