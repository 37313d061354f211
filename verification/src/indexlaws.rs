//! What a subscript, an assignment to one and a slice come to.
use vstd::prelude::*;
use crate::exc::{Exc, VErr};
use crate::index::{assign_result, picked, selected, slice_result, slice_start, slice_stop, stepped, subscript_result};
use crate::keylaws::lemma_find;
use crate::keys::{find_key, same_key, unhashable};
use crate::relationlaws::row;
use crate::value::{Heap, Value};

verus! {

/// Index `i` means place `p` of `n`: counted from the front, or from the back
/// where it is negative.
pub open spec fn means(i: int, n: int, p: int) -> bool {
    0 <= p < n && (p == i || p == n + i)
}

/// `items[i]` is the item at place `i`, or `i` places from the end where that is
/// negative, and an IndexError where there is none.
pub proof fn items_are_found_by_place(h: Heap, h2: Heap, obj: Value, i: i64, r: Result<Value, VErr>)
    requires
        subscript_result(h, h2, obj, Value::Int(i), r),
        obj is List || obj is Tuple,
    ensures
        forall|p: int| #[trigger] means(i as int, row(h, obj).len() as int, p) && (p == i ==> i >= 0) ==> r == Ok::<Value, VErr>(row(h, obj)[p]),
        i >= row(h, obj).len() || i < -(row(h, obj).len() as int) ==> (r matches Err(e) && e@.0 == Exc::IndexError),
{
}

/// `text[i]` is a text of the one character there, and `octets[i]` the number
/// of the octet there.
pub proof fn characters_are_found_by_place(h: Heap, h2: Heap, obj: Value, i: i64, r: Result<Value, VErr>)
    requires subscript_result(h, h2, obj, Value::Int(i), r),
    ensures
        obj matches Value::Str(x) ==> {
            &&& forall|p: int| #[trigger] means(i as int, h.text(x).len() as int, p)
                ==> (r matches Ok(Value::Str(y)) && h2.text(y).len() == 1 && h2.text(y)[0] == h.text(x)[p])
            &&& i >= h.text(x).len() || i < -(h.text(x).len() as int) ==> (r matches Err(e) && e@.0 == Exc::IndexError)
        },
        obj matches Value::Bytes(x) ==> {
            &&& forall|p: int| #[trigger] means(i as int, h.octets(x).len() as int, p)
                ==> (r matches Ok(Value::Int(y)) && y == h.octets(x)[p])
            &&& i >= h.octets(x).len() || i < -(h.octets(x).len() as int) ==> (r matches Err(e) && e@.0 == Exc::IndexError)
        },
{
}

/// `dict[key]` is the value of the entry whose key is the same, and a KeyError
/// where no entry's is.
pub proof fn entries_are_found_by_key(h: Heap, h2: Heap, d: usize, key: Value, r: Result<Value, VErr>)
    requires
        subscript_result(h, h2, Value::Dict(d), key, r),
        unhashable(h, key) is None,
    ensures
        forall|k: int| 0 <= k < h.dict(d).len() && same_key(h, (#[trigger] h.dict(d)[k]).0, key)
            && (forall|j: int| 0 <= j < k ==> !same_key(h, (#[trigger] h.dict(d)[j]).0, key)) ==> r == Ok::<Value, VErr>(h.dict(d)[k].1),
        (forall|k: int| 0 <= k < h.dict(d).len() ==> !same_key(h, (#[trigger] h.dict(d)[k]).0, key)) ==> (r matches Err(e) && e@.0 == Exc::KeyError),
{
    lemma_find(h, h.dict(d), key, 0);
    assert forall|k: int| 0 <= k < h.dict(d).len() && same_key(h, (#[trigger] h.dict(d)[k]).0, key)
        && (forall|j: int| 0 <= j < k ==> !same_key(h, (#[trigger] h.dict(d)[j]).0, key)) implies r == Ok::<Value, VErr>(h.dict(d)[k].1) by {
        let f = find_key(h, h.dict(d), key, 0);
        assert(f is Some);
        if f->0 < k {
            assert(!same_key(h, h.dict(d)[f->0].0, key));
        }
    }
}

/// `items[i] = v` puts `v` at the place that `items[i]` reads, and nowhere else;
/// it makes no list longer.
pub proof fn assignments_go_to_their_place(h: Heap, h2: Heap, x: usize, i: i64, v: Value, p: int, r: Result<(), VErr>)
    requires assign_result(h, h2, Value::List(x), Value::Int(i), v, r),
    ensures
        means(i as int, h.list(x).len() as int, p) && (p == i ==> i >= 0) ==> {
            &&& r is Ok
            &&& h2.list(x).len() == h.list(x).len()
            &&& h2.list(x)[p] == v
            &&& forall|k: int| 0 <= k < h.list(x).len() && k != p ==> #[trigger] h2.list(x)[k] == h.list(x)[k]
        },
        i >= h.list(x).len() || i < -(h.list(x).len() as int) ==> (r matches Err(e) && e@.0 == Exc::IndexError) && h2 == h,
{
}

/// What cannot be changed cannot be assigned to.
pub proof fn tuples_and_texts_stay(h: Heap, h2: Heap, obj: Value, index: Value, v: Value, r: Result<(), VErr>)
    requires
        assign_result(h, h2, obj, index, v, r),
        obj is Tuple || obj is Str || obj is Bytes || obj is Range,
    ensures
        r matches Err(e) && e@.0 == Exc::TypeError,
        h2 == h,
{
}

/// Where a slice bound lies among `n` items, `dflt` where there is none: from
/// the end where it is negative, and never outside.
pub open spec fn bound_at(v: Value, n: int, dflt: int, c: int) -> bool {
    match v {
        Value::Null => c == dflt,
        Value::Int(i) => if i >= n { c == n } else if i >= 0 { c == i } else if i >= -n { c == n + i } else { c == 0 },
        _ => false,
    }
}

/// The same for a slice that goes backwards, which begins at the last item at
/// most and ends before the first.
pub open spec fn bound_back(v: Value, n: int, dflt: int, c: int) -> bool {
    match v {
        Value::Null => c == dflt,
        Value::Int(i) => if i >= n { c == n - 1 } else if i >= 0 { c == i } else if i >= -n { c == n + i } else { c == -1 },
        _ => false,
    }
}

/// Item `k` of `t` is the one of `s` that lies `k` steps from `from` on.
pub open spec fn nth_at<T>(s: Seq<T>, t: Seq<T>, from: int, step: int, k: int) -> bool {
    0 <= from + k * step < s.len() && t[k] == s[from + k * step]
}

/// `t` is every `step`th of `s` from `from` on, short of `to`.
pub open spec fn every_nth<T>(s: Seq<T>, t: Seq<T>, from: int, to: int, step: int) -> bool {
    &&& forall|k: int| 0 <= k < t.len() ==> #[trigger] nth_at(s, t, from, step, k)
    &&& t.len() > 0 ==> if step > 0 { from + (t.len() - 1) * step < to } else { from + (t.len() - 1) * step > to }
    &&& if step > 0 { from + t.len() * step >= to } else { from + t.len() * step <= to }
}

pub proof fn lemma_stepped(from: int, to: int, step: int)
    requires step != 0,
    ensures
        forall|k: int| 0 <= k < stepped(from, to, step).len() ==> #[trigger] stepped(from, to, step)[k] == from + k * step,
        forall|k: int| 0 <= k < stepped(from, to, step).len() ==> if step > 0 { from <= #[trigger] stepped(from, to, step)[k] < to } else { to < stepped(from, to, step)[k] <= from },
        if step > 0 { from + stepped(from, to, step).len() * step >= to } else { from + stepped(from, to, step).len() * step <= to },
    decreases crate::index::distance(from, to, step),
{
    let s = stepped(from, to, step);
    if (step > 0 && from < to) || (step < 0 && from > to) {
        lemma_stepped(from + step, to, step);
        let t = stepped(from + step, to, step);
        assert(s == seq![from] + t);
        assert forall|k: int| 0 <= k < s.len() implies #[trigger] s[k] == from + k * step
            && (if step > 0 { from <= s[k] < to } else { to < s[k] <= from }) by {
            if k > 0 {
                assert(s[k] == t[k - 1]);
                assert(step + (k - 1) * step == k * step) by (nonlinear_arith);
            }
        }
        assert(step + t.len() * step == s.len() * step) by (nonlinear_arith)
            requires s.len() == t.len() + 1;
        assert forall|k: int| 0 <= k < s.len() implies if step > 0 { from <= #[trigger] s[k] < to } else { to < s[k] <= from } by {
            let v = s[k];
            assert(v == from + k * step);
        }
    } else {
        assert(s.len() == 0);
    }
}

proof fn lemma_picks<T>(s: Seq<T>, lower: Option<i64>, upper: Option<i64>, step: int)
    requires step != 0,
    ensures
        every_nth(s, picked(s, selected(s.len(), lower, upper, step)), slice_start(s.len(), lower, step), slice_stop(s.len(), upper, step), step),
{
    let from = slice_start(s.len(), lower, step);
    let to = slice_stop(s.len(), upper, step);
    lemma_stepped(from, to, step);
    let places = selected(s.len(), lower, upper, step);
    let t = picked(s, places);
    assert forall|k: int| 0 <= k < t.len() implies #[trigger] nth_at(s, t, from, step, k) by {
        assert(places[k] == from + k * step);
    }
    if t.len() > 0 {
        assert(places[t.len() - 1] == from + (t.len() - 1) * step);
    }
}

/// The slice is of the kind of what was sliced, and `every_nth` of it.
pub open spec fn sliced_so(h: Heap, h2: Heap, obj: Value, r: Result<Value, VErr>, from: int, to: int, step: int) -> bool {
    match obj {
        Value::List(x) => r matches Ok(Value::List(y)) && every_nth(h.list(x), h2.list(y), from, to, step),
        Value::Tuple(x) => r matches Ok(Value::Tuple(y)) && every_nth(h.tuple(x), h2.tuple(y), from, to, step),
        Value::Str(x) => r matches Ok(Value::Str(y)) && every_nth(h.text(x), h2.text(y), from, to, step),
        Value::Bytes(x) => r matches Ok(Value::Bytes(y)) && every_nth(h.octets(x), h2.octets(y), from, to, step),
        _ => r matches Err(e) && e@.0 == Exc::TypeError,
    }
}

/// How many items there are to slice.
pub open spec fn extent(h: Heap, obj: Value) -> int {
    match obj {
        Value::List(x) => h.list(x).len() as int,
        Value::Tuple(x) => h.tuple(x).len() as int,
        Value::Str(x) => h.text(x).len() as int,
        Value::Bytes(x) => h.octets(x).len() as int,
        _ => 0,
    }
}

proof fn lemma_sliced(h: Heap, h2: Heap, obj: Value, lo: Option<i64>, hi: Option<i64>, step: int, r: Result<Value, VErr>)
    requires
        step != 0,
        crate::index::sliced(h, h2, obj, lo, hi, step, r),
    ensures
        sliced_so(h, h2, obj, r, slice_start(extent(h, obj) as nat, lo, step), slice_stop(extent(h, obj) as nat, hi, step), step),
{
    match obj {
        Value::List(x) => lemma_picks(h.list(x), lo, hi, step),
        Value::Tuple(x) => lemma_picks(h.tuple(x), lo, hi, step),
        Value::Str(x) => lemma_picks(h.text(x), lo, hi, step),
        Value::Bytes(x) => lemma_picks(h.octets(x), lo, hi, step),
        _ => {}
    }
}

/// A slice bound a program can write.
pub open spec fn is_bound(v: Value) -> bool {
    v is Null || v is Int
}

spec fn bound_value(v: Value) -> Option<i64> {
    if let Value::Int(i) = v { Some(i) } else { None }
}

/// `s[lower:upper:step]` takes every `step`th item from `lower` on and short of
/// `upper`, forwards or backwards; a step of zero is a ValueError.
pub proof fn slices_take_every_nth(h: Heap, h2: Heap, obj: Value, lower: Value, upper: Value, step: Value, from: int, to: int, r: Result<Value, VErr>)
    requires
        slice_result(h, h2, obj, lower, upper, step, r),
        is_bound(lower),
        is_bound(upper),
        is_bound(step),
        step is Null || step->Int_0 > 0 ==> bound_at(lower, extent(h, obj), 0, from) && bound_at(upper, extent(h, obj), extent(h, obj), to),
        step is Int && step->Int_0 < 0 ==> bound_back(lower, extent(h, obj), extent(h, obj) - 1, from) && bound_back(upper, extent(h, obj), -1, to),
    ensures
        step is Null ==> sliced_so(h, h2, obj, r, from, to, 1),
        step is Int && step->Int_0 != 0 ==> sliced_so(h, h2, obj, r, from, to, step->Int_0 as int),
        step == Value::Int(0) ==> (r matches Err(e) && e@.0 == Exc::ValueError),
{
    let s = if step is Null { 1int } else { step->Int_0 as int };
    let lo = bound_value(lower);
    let hi = bound_value(upper);
    if s != 0 {
        lemma_sliced(h, h2, obj, lo, hi, s, r);
        assert(slice_start(extent(h, obj) as nat, lo, s) == from);
        assert(slice_stop(extent(h, obj) as nat, hi, s) == to);
    }
}

/// Without a step a slice is the run of items from one bound to the other, and
/// with a step of minus one and no bounds it is all of them turned round.
pub proof fn plain_slices<T>(s: Seq<T>, t: Seq<T>, from: int, to: int)
    requires 0 <= from <= s.len(), 0 <= to <= s.len(),
    ensures
        from <= to && every_nth(s, t, from, to, 1) ==> t == s.subrange(from, to),
        from > to && every_nth(s, t, from, to, 1) ==> t.len() == 0,
        every_nth(s, t, s.len() - 1, -1, -1) ==> t == s.reverse(),
{
    if every_nth(s, t, from, to, 1) {
        if from <= to {
            assert(t.len() == to - from);
            assert forall|k: int| 0 <= k < t.len() implies #[trigger] t[k] == s.subrange(from, to)[k] by {
                assert(nth_at(s, t, from, 1, k));
            }
            assert(t =~= s.subrange(from, to));
        }
    }
    if every_nth(s, t, s.len() - 1, -1, -1) {
        assert(t.len() == s.len());
        assert forall|k: int| 0 <= k < t.len() implies #[trigger] t[k] == s.reverse()[k] by {
            assert(nth_at(s, t, s.len() - 1, -1, k));
        }
        assert(t =~= s.reverse());
    }
}

} // verus!
