//! What membership, dict equality and keys come to, in terms of what is held.
use vstd::prelude::*;
use crate::code::RelOp;
use crate::exc::{Exc, VErr};
use crate::keylaws::lemma_find;
use crate::keys::{find_key, lookup_key, same_key, unhashable, unhashable_from};
use crate::membership::{counts_through, octets_within, octets_within_at, range_item, relate_result, scan, text_within, text_within_at};
use crate::relation::{equal_entries, equals, same_object, DEPTH_LIMIT};
use crate::relationlaws::{plain_same, row, whole};
use crate::value::{Heap, Value};

verus! {

/// An integer, a text, octets, or nothing.
pub open spec fn plain(h: Heap, v: Value) -> bool {
    whole(h, v) is Some || v is Str || v is Bytes || v is Null
}

/// The same plain value.
pub open spec fn plain_alike(h: Heap, a: Value, b: Value) -> bool {
    (a is Null && b is Null) || plain_same(h, a, b)
}

/// Plain values of different kinds are never equal, and of one kind they are
/// equal when they are the same.
pub proof fn plain_values_are_equal_by_what_they_are(h: Heap, a: Value, b: Value, fuel: nat)
    requires
        plain(h, a),
        plain(h, b),
    ensures
        equals(h, a, b, fuel) == Some(plain_alike(h, a, b)),
        same_key(h, a, b) == plain_alike(h, a, b),
        unhashable(h, a) is None,
{
}

proof fn lemma_scan(h: Heap, items: Seq<Value>, item: Value, i: int)
    requires 0 <= i <= items.len(),
    ensures
        scan(h, items, item, i) == Some(true) ==> exists|k: int| i <= k < items.len()
            && (equals(h, #[trigger] items[k], item, DEPTH_LIMIT as nat) == Some(true) || same_object(items[k], item)),
        scan(h, items, item, i) == Some(false)
            <==> forall|k: int| i <= k < items.len() ==> equals(h, #[trigger] items[k], item, DEPTH_LIMIT as nat) == Some(false),
        scan(h, items, item, i) is None ==> exists|k: int| i <= k < items.len()
            && equals(h, #[trigger] items[k], item, DEPTH_LIMIT as nat) is None,
    decreases items.len() - i,
{
    if i < items.len() {
        lemma_scan(h, items, item, i + 1);
        if scan(h, items, item, i) == Some(false) {
            assert forall|k: int| i <= k < items.len() implies equals(h, #[trigger] items[k], item, DEPTH_LIMIT as nat) == Some(false) by {
                if k > i {
                }
            }
        }
    }
}

/// `item in row`, for a list or a tuple: true only where some item equals it or
/// is it, false exactly where every item is found unequal to it.
pub proof fn a_row_holds_what_an_item_equals(h: Heap, item: Value, c: Value, r: Result<Option<bool>, VErr>)
    requires
        relate_result(h, RelOp::In, item, c, r),
        c is List || c is Tuple,
    ensures
        r is Ok,
        r == Ok::<Option<bool>, VErr>(Some(true)) ==> exists|k: int| 0 <= k < row(h, c).len()
            && (equals(h, #[trigger] row(h, c)[k], item, DEPTH_LIMIT as nat) == Some(true) || same_object(row(h, c)[k], item)),
        r == Ok::<Option<bool>, VErr>(Some(false)) <==> forall|k: int| 0 <= k < row(h, c).len()
            ==> equals(h, #[trigger] row(h, c)[k], item, DEPTH_LIMIT as nat) == Some(false),
        r == Ok::<Option<bool>, VErr>(None) ==> exists|k: int| 0 <= k < row(h, c).len()
            && equals(h, #[trigger] row(h, c)[k], item, DEPTH_LIMIT as nat) is None,
{
    lemma_scan(h, row(h, c), item, 0);
}

/// Among plain values, `in` a list or a tuple says whether one of its items is
/// the same.
pub proof fn a_row_holds_its_plain_items(h: Heap, item: Value, c: Value, r: Result<Option<bool>, VErr>)
    requires
        relate_result(h, RelOp::In, item, c, r),
        c is List || c is Tuple,
        plain(h, item),
        forall|k: int| 0 <= k < row(h, c).len() ==> plain(h, #[trigger] row(h, c)[k]),
    ensures
        r == Ok::<Option<bool>, VErr>(Some(exists|k: int| 0 <= k < row(h, c).len() && plain_alike(h, #[trigger] row(h, c)[k], item))),
{
    let items = row(h, c);
    lemma_scan(h, items, item, 0);
    assert forall|k: int| 0 <= k < items.len() implies equals(h, #[trigger] items[k], item, DEPTH_LIMIT as nat)
        == Some(plain_alike(h, items[k], item)) && !same_object(items[k], item) by {
        plain_values_are_equal_by_what_they_are(h, items[k], item, DEPTH_LIMIT as nat);
    }
}

/// `not in` is the opposite of `in`, and refuses what `in` refuses.
pub proof fn not_in_is_the_opposite(h: Heap, item: Value, c: Value, r: Result<Option<bool>, VErr>, s: Result<Option<bool>, VErr>)
    requires
        relate_result(h, RelOp::In, item, c, r),
        relate_result(h, RelOp::NotIn, item, c, s),
    ensures
        match r {
            Ok(Some(x)) => s == Ok::<Option<bool>, VErr>(Some(!x)),
            Ok(None) => s == Ok::<Option<bool>, VErr>(None),
            Err(e) => s matches Err(f) && f@ == e@,
        },
{
}

/// A text is in another when a run of the other's characters is that text.
pub proof fn a_text_holds_its_runs(h: Heap, x: usize, y: usize, r: Result<Option<bool>, VErr>)
    requires relate_result(h, RelOp::In, Value::Str(x), Value::Str(y), r),
    ensures
        r == Ok::<Option<bool>, VErr>(Some(exists|s: Seq<char>, t: Seq<char>| h.text(y) == #[trigger] (s + h.text(x) + t))),
{
    let hay = h.text(y);
    let needle = h.text(x);
    if text_within(hay, needle) {
        let i = choose|i: int| #[trigger] text_within_at(hay, needle, i);
        let s = hay.take(i);
        let t = hay.skip(i + needle.len());
        assert forall|k: int| 0 <= k < hay.len() implies hay[k] == (s + needle + t)[k] by {
            if i <= k < i + needle.len() {
                assert(hay[i + (k - i)] == needle[k - i]);
            }
        }
        assert(hay =~= s + needle + t);
    }
    if exists|s: Seq<char>, t: Seq<char>| hay == #[trigger] (s + needle + t) {
        let (s, t) = choose|s: Seq<char>, t: Seq<char>| hay == #[trigger] (s + needle + t);
        assert(text_within_at(hay, needle, s.len() as int));
    }
}

/// Octets are in others when a run of the others is those octets.
pub proof fn octets_hold_their_runs(h: Heap, x: usize, y: usize, r: Result<Option<bool>, VErr>)
    requires relate_result(h, RelOp::In, Value::Bytes(x), Value::Bytes(y), r),
    ensures
        r == Ok::<Option<bool>, VErr>(Some(exists|s: Seq<u8>, t: Seq<u8>| h.octets(y) == #[trigger] (s + h.octets(x) + t))),
{
    let hay = h.octets(y);
    let needle = h.octets(x);
    if octets_within(hay, needle) {
        let i = choose|i: int| #[trigger] octets_within_at(hay, needle, i);
        let s = hay.take(i);
        let t = hay.skip(i + needle.len());
        assert forall|k: int| 0 <= k < hay.len() implies hay[k] == (s + needle + t)[k] by {
            if i <= k < i + needle.len() {
                assert(hay[i + (k - i)] == needle[k - i]);
            }
        }
        assert(hay =~= s + needle + t);
    }
    if exists|s: Seq<u8>, t: Seq<u8>| hay == #[trigger] (s + needle + t) {
        let (s, t) = choose|s: Seq<u8>, t: Seq<u8>| hay == #[trigger] (s + needle + t);
        assert(octets_within_at(hay, needle, s.len() as int));
    }
}

/// `n` is `start`, or `start` and some steps more, and short of `stop`.
pub open spec fn counted(start: int, stop: int, step: int, n: int) -> bool {
    exists|k: int| k >= 0 && n == start + #[trigger] (k * step) && (step > 0 ==> n < stop) && (step < 0 ==> n > stop)
}

/// An integer is in a range when the range counts through it.
pub proof fn a_range_holds_what_it_counts(h: Heap, n: i64, x: usize, r: Result<Option<bool>, VErr>)
    requires
        relate_result(h, RelOp::In, Value::Int(n), Value::Range(x), r),
        h.range(x).step != 0,
    ensures
        r == Ok::<Option<bool>, VErr>(Some(counted(h.range(x).start as int, h.range(x).stop as int, h.range(x).step as int, n as int))),
{
    let g = h.range(x);
    if counts_through(g, n as int) {
        let k = choose|k: int| k >= 0 && n as int == #[trigger] range_item(g, k) && (if g.step > 0 { n < g.stop } else { n > g.stop });
        assert(n as int == g.start + k * (g.step as int));
    }
    if counted(g.start as int, g.stop as int, g.step as int, n as int) {
        let k = choose|k: int| k >= 0 && n as int == g.start as int + #[trigger] (k * (g.step as int))
            && (g.step as int > 0 ==> (n as int) < g.stop as int) && ((g.step as int) < 0 ==> n as int > g.stop as int);
        assert(n as int == range_item(g, k));
    }
}

/// A key is in a dict when one of the dict's keys is the same.
pub proof fn a_dict_holds_its_keys(h: Heap, key: Value, d: usize, r: Result<Option<bool>, VErr>)
    requires relate_result(h, RelOp::In, key, Value::Dict(d), r),
    ensures
        unhashable(h, key) is None ==> r == Ok::<Option<bool>, VErr>(Some(
            exists|k: int| 0 <= k < h.dict(d).len() && same_key(h, (#[trigger] h.dict(d)[k]).0, key))),
        unhashable(h, key) is Some ==> (r matches Err(e) && e@.0 == Exc::TypeError),
{
    lemma_find(h, h.dict(d), key, 0);
}

/// A list and a dict are no keys, nor is a tuple with such a thing anywhere in
/// it; a tuple of keys is one.
pub proof fn what_can_be_a_key(h: Heap, v: Value)
    ensures
        v is List || v is Dict ==> unhashable(h, v) == Some(v),
        v is Func || v is Type || v is Class || v is Float || v is Range ==> unhashable(h, v) is None,
        v is Tuple && unhashable(h, v) is None
            ==> forall|k: int| 0 <= k < row(h, v).len() ==> unhashable(h, #[trigger] row(h, v)[k]) is None,
        v is Tuple && (forall|k: int| 0 <= k < row(h, v).len() ==> plain(h, #[trigger] row(h, v)[k]))
            ==> unhashable(h, v) is None,
{
    if let Value::Tuple(i) = v {
        lemma_parts(h, i, 0);
    }
}

proof fn lemma_parts(h: Heap, i: usize, from: int)
    requires 0 <= from <= h.tuple(i).len(),
    ensures
        unhashable_from(h, i, from) is None
            ==> forall|k: int| from <= k < h.tuple(i).len() ==> unhashable(h, #[trigger] h.tuple(i)[k]) is None,
        (forall|k: int| from <= k < h.tuple(i).len() ==> plain(h, #[trigger] h.tuple(i)[k])) ==> unhashable_from(h, i, from) is None,
    decreases h.tuple(i).len() - from,
{
    if from < h.tuple(i).len() {
        lemma_parts(h, i, from + 1);
        let v = h.tuple(i)[from];
        if unhashable_from(h, i, from) is None {
            assert forall|k: int| from <= k < h.tuple(i).len() implies unhashable(h, #[trigger] h.tuple(i)[k]) is None by {
                if k > from {
                }
            }
        }
    }
}

/// Tuples of plain values are the same key when they are as long and the same
/// at every place.
pub proof fn tuple_keys_agree_everywhere(h: Heap, x: usize, y: usize)
    requires
        forall|k: int| 0 <= k < h.tuple(x).len() ==> plain(h, #[trigger] h.tuple(x)[k]),
        forall|k: int| 0 <= k < h.tuple(y).len() ==> plain(h, #[trigger] h.tuple(y)[k]),
    ensures
        same_key(h, Value::Tuple(x), Value::Tuple(y)) <==> {
            &&& h.tuple(x).len() == h.tuple(y).len()
            &&& forall|k: int| 0 <= k < h.tuple(x).len() ==> plain_alike(h, #[trigger] h.tuple(x)[k], h.tuple(y)[k])
        },
{
    if h.tuple(x).len() == h.tuple(y).len() {
        assert forall|k: int| 0 <= k < h.tuple(x).len() implies
            same_key(h, #[trigger] h.tuple(x)[k], h.tuple(y)[k]) == plain_alike(h, h.tuple(x)[k], h.tuple(y)[k]) by {
            plain_values_are_equal_by_what_they_are(h, h.tuple(x)[k], h.tuple(y)[k], 0);
        }
    }
}

/// The entry of `xs` at `k` has one in `ys` under the same key that is found equal.
pub open spec fn matched_entry(h: Heap, xs: Seq<(Value, Value)>, ys: Seq<(Value, Value)>, k: int, fuel: nat) -> bool {
    exists|j: int| {
        &&& 0 <= j < ys.len()
        &&& same_key(h, (#[trigger] ys[j]).0, xs[k].0)
        &&& equals(h, xs[k].1, ys[j].1, fuel) == Some(true)
        &&& forall|i: int| 0 <= i < j ==> !same_key(h, (#[trigger] ys[i]).0, xs[k].0)
    }
}

/// The same, as a look under the key finds it.
spec fn found_equal(h: Heap, xs: Seq<(Value, Value)>, ys: Seq<(Value, Value)>, k: int, fuel: nat) -> bool {
    match lookup_key(h, ys, xs[k].0) {
        Some(v) => equals(h, xs[k].1, v, fuel) == Some(true),
        None => false,
    }
}

proof fn lemma_matched(h: Heap, xs: Seq<(Value, Value)>, ys: Seq<(Value, Value)>, i: int, fuel: nat)
    ensures matched_entry(h, xs, ys, i, fuel) == found_equal(h, xs, ys, i, fuel),
{
    lemma_find(h, ys, xs[i].0, 0);
    let found = find_key(h, ys, xs[i].0, 0);
    if found_equal(h, xs, ys, i, fuel) {
        let j = found->0;
        assert(same_key(h, ys[j].0, xs[i].0));
        assert(matched_entry(h, xs, ys, i, fuel));
    }
    if matched_entry(h, xs, ys, i, fuel) {
        let j = choose|j: int| {
            &&& 0 <= j < ys.len()
            &&& same_key(h, (#[trigger] ys[j]).0, xs[i].0)
            &&& equals(h, xs[i].1, ys[j].1, fuel) == Some(true)
            &&& forall|l: int| 0 <= l < j ==> !same_key(h, (#[trigger] ys[l]).0, xs[i].0)
        };
        assert(found is Some);
        let f = found->0;
        if f < j {
            assert(!same_key(h, ys[f].0, xs[i].0));
        }
        if j < f {
            assert(!same_key(h, ys[j].0, xs[i].0));
        }
    }
}

proof fn lemma_found(h: Heap, xs: Seq<(Value, Value)>, ys: Seq<(Value, Value)>, i: int, fuel: nat)
    requires 0 <= i <= xs.len(),
    ensures
        equal_entries(h, xs, ys, i, fuel) == Some(true)
            <==> forall|k: int| i <= k < xs.len() ==> #[trigger] found_equal(h, xs, ys, k, fuel),
    decreases xs.len() - i,
{
    if i < xs.len() {
        lemma_found(h, xs, ys, i + 1, fuel);
        if equal_entries(h, xs, ys, i, fuel) == Some(true) {
            assert(found_equal(h, xs, ys, i, fuel));
        }
        if forall|k: int| i <= k < xs.len() ==> #[trigger] found_equal(h, xs, ys, k, fuel) {
            assert(found_equal(h, xs, ys, i, fuel));
        }
    }
}

/// Two dicts, not the same one, are equal exactly when they have as many
/// entries and every entry of the first has an equal value under its key in the
/// second, in whatever order.
pub proof fn equal_dicts_hold_the_same(h: Heap, x: usize, y: usize, fuel: nat)
    requires
        x != y,
        fuel > 0,
    ensures
        equals(h, Value::Dict(x), Value::Dict(y), fuel) == Some(true) <==> {
            &&& h.dict(x).len() == h.dict(y).len()
            &&& forall|k: int| 0 <= k < h.dict(x).len() ==> #[trigger] matched_entry(h, h.dict(x), h.dict(y), k, (fuel - 1) as nat)
        },
{
    let n = (fuel - 1) as nat;
    lemma_found(h, h.dict(x), h.dict(y), 0, n);
    assert forall|k: int| #![trigger matched_entry(h, h.dict(x), h.dict(y), k, n)]
        #![trigger found_equal(h, h.dict(x), h.dict(y), k, n)]
        matched_entry(h, h.dict(x), h.dict(y), k, n) == found_equal(h, h.dict(x), h.dict(y), k, n) by {
        lemma_matched(h, h.dict(x), h.dict(y), k, n);
    }
}

/// Whatever has no comparison of its own is equal to itself, a list, a tuple
/// and a dict before anything in them is looked at; values of different kinds
/// that are no numbers are unequal; and ranges are equal when they are written alike.
pub proof fn equality_goes_by_kind(h: Heap, a: Value, b: Value, fuel: nat)
    ensures
        a == b && (a is List || a is Tuple || a is Dict || a is Func || a is Class || a is Range) ==> equals(h, a, b, fuel) == Some(true),
        a is List && !(b is List || b is Instance) ==> equals(h, a, b, fuel) == Some(false),
        a is Tuple && !(b is Tuple || b is Instance) ==> equals(h, a, b, fuel) == Some(false),
        a is Dict && !(b is Dict || b is Instance) ==> equals(h, a, b, fuel) == Some(false),
        a is Str && !(b is Str || b is Instance) ==> equals(h, a, b, fuel) == Some(false),
        a is Null && !(b is Null || b is Instance) ==> equals(h, a, b, fuel) == Some(false),
        a is Range && b is Range ==> equals(h, a, b, fuel) == Some({
            &&& h.range(a->Range_0).start == h.range(b->Range_0).start
            &&& h.range(a->Range_0).stop == h.range(b->Range_0).stop
            &&& h.range(a->Range_0).step == h.range(b->Range_0).step
        }),
{
}

/// Values of two kinds, or of a kind that has no order, are refused by `<` and
/// its like with a TypeError.
pub proof fn what_has_no_order_is_refused(h: Heap, op: RelOp, a: Value, b: Value, r: Result<Option<bool>, VErr>)
    requires
        relate_result(h, op, a, b, r),
        op == RelOp::Lt || op == RelOp::Gt || op == RelOp::LtEq || op == RelOp::GtEq,
        !(a is Instance || b is Instance),
        a is Dict || a is Null || a is Func || a is Class || (a is List && !(b is List)) || (a is Tuple && !(b is Tuple))
            || (a is Str && !(b is Str)) || (a is Bytes && !(b is Bytes)) || (whole(h, a) is Some && (b is Str || b is List || b is Null)),
    ensures r matches Err(e) && e@.0 == Exc::TypeError,
{
}

} // verus!
