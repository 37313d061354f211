//! Indexing and slicing.
use vstd::prelude::*;
use vstd::string::*;
use crate::exc::{fault, index_error, key_error, type_error, Exc, VErr};
use crate::keys::{dict_get, dict_insert, lookup_key, only_dict, unhashable, unhashable_text, with_key};
use crate::names::{kind_name, kind_name_of};
use crate::repr::{render, repr};
use crate::text::{chars_of, join2, join3, push_char};
use crate::value::{Heap, Value};

verus! {

/// The index a value is, if it is one.
pub open spec fn index_of(v: Value) -> Option<i64> {
    match v {
        Value::Bool(b) => Some(if b { 1i64 } else { 0i64 }),
        Value::Int(i) => Some(i),
        _ => None,
    }
}

/// The message for an index that is not an integer.
pub open spec fn bad_index_text(h: Heap, v: Value) -> Seq<char> {
    "indices must be integers, not '"@ + kind_name(h, v) + "'"@
}

/// The index a value is.
pub fn as_index(h: &Heap, v: Value) -> (r: Result<i64, VErr>)
    ensures
        match index_of(v) {
            Some(i) => r == Ok::<i64, VErr>(i),
            None => r matches Err(e) && e@ == (Exc::TypeError, bad_index_text(*h, v)),
        },
{
    match v {
        Value::Bool(b) => Ok(if b { 1 } else { 0 }),
        Value::Int(i) => Ok(i),
        _ => Err(type_error(join3("indices must be integers, not '", kind_name_of(h, v), "'"))),
    }
}

/// Where a possibly negative index points in a sequence of `len` elements.
pub open spec fn position(idx: int, len: nat) -> Option<int> {
    let p = if idx < 0 { idx + len } else { idx };
    if 0 <= p < len { Some(p) } else { None }
}

/// Where a possibly negative index points, or the fault that it points nowhere.
pub fn resolve_index(idx: i64, len: usize, kind: &str) -> (r: Result<usize, VErr>)
    ensures
        match position(idx as int, len as nat) {
            Some(p) => r matches Ok(i) && i == p && i < len,
            None => r matches Err(e) && e@ == (Exc::IndexError, kind@ + " index out of range"@),
        },
{
    let n: i128 = len as i128;
    let p: i128 = if idx < 0 { idx as i128 + n } else { idx as i128 };
    if p < 0 || p >= n {
        Err(index_error(join2(kind, " index out of range")))
    } else {
        Ok(p as usize)
    }
}

/// Where `index` points in a sequence of `len` elements: the place, or the
/// fault.
pub open spec fn place(h: Heap, index: Value, len: nat, kind: Seq<char>) -> Result<int, (Exc, Seq<char>)> {
    match index_of(index) {
        None => Err((Exc::TypeError, bad_index_text(h, index))),
        Some(i) => match position(i as int, len) {
            Some(p) => Ok(p),
            None => Err((Exc::IndexError, kind + " index out of range"@)),
        },
    }
}

fn find_place(h: &Heap, index: Value, len: usize, kind: &str) -> (r: Result<usize, VErr>)
    ensures
        match place(*h, index, len as nat, kind@) {
            Ok(p) => r matches Ok(i) && i == p && i < len,
            Err(e) => r matches Err(x) && x@ == e,
        },
{
    match as_index(h, index) {
        Ok(i) => resolve_index(i, len, kind),
        Err(e) => Err(e),
    }
}

/// What `obj[index]` comes to.
pub open spec fn subscript_result(h: Heap, h2: Heap, obj: Value, index: Value, r: Result<Value, VErr>) -> bool {
    match obj {
        Value::List(x) => match place(h, index, h.list(x).len(), "list"@) {
            Ok(p) => r == Ok::<Value, VErr>(h.list(x)[p]),
            Err(e) => r matches Err(f) && f@ == e,
        },
        Value::Tuple(x) => match place(h, index, h.tuple(x).len(), "tuple"@) {
            Ok(p) => r == Ok::<Value, VErr>(h.tuple(x)[p]),
            Err(e) => r matches Err(f) && f@ == e,
        },
        Value::Str(x) => match place(h, index, h.text(x).len(), "string"@) {
            Ok(p) => r == Ok::<Value, VErr>(Value::Str(h.strs.len())) && h2.text(h.strs.len()) == seq![h.text(x)[p]],
            Err(e) => r matches Err(f) && f@ == e,
        },
        Value::Bytes(x) => match place(h, index, h.octets(x).len(), "bytes"@) {
            Ok(p) => r == Ok::<Value, VErr>(Value::Int(h.octets(x)[p] as i64)),
            Err(e) => r matches Err(f) && f@ == e,
        },
        Value::Dict(x) => match unhashable(h, index) {
            Some(p) => r matches Err(f) && f@ == (Exc::TypeError, unhashable_text(h, p)),
            None => match lookup_key(h, h.dict(x), index) {
                Some(v) => r == Ok::<Value, VErr>(v),
                None => r matches Err(f) && f@ == (Exc::KeyError, "key error: "@ + repr(h, index)),
            },
        },
        _ => r matches Err(f) && f@ == (Exc::TypeError, "'"@ + kind_name(h, obj) + "' object is not subscriptable"@),
    }
}

/// Only strings were added between `a` and `b`.
pub open spec fn strs_grew(a: Heap, b: Heap) -> bool {
    b == (Heap { strs: b.strs, ..a }) && a.strs@.is_prefix_of(b.strs@)
}

/// `obj[index]`.
pub fn subscript_get(h: &mut Heap, obj: Value, index: Value) -> (r: Result<Value, VErr>)
    ensures
        subscript_result(*old(h), *final(h), obj, index, r),
        strs_grew(*old(h), *final(h)),
{
    match obj {
        Value::List(x) => match find_place(h, index, h.list_len(x), "list") {
            Ok(i) => Ok(h.list_at(x, i)),
            Err(e) => Err(e),
        },
        Value::Tuple(x) => match find_place(h, index, h.tuple_len(x), "tuple") {
            Ok(i) => Ok(h.tuple_at(x, i)),
            Err(e) => Err(e),
        },
        Value::Str(x) => {
            let n = h.text_of(x).unicode_len();
            match find_place(h, index, n, "string") {
                Ok(i) => {
                    let s = h.text_of(x).substring_char(i, i + 1).to_owned();
                    assert(s@ =~= seq![h.text(x)[i as int]]);
                    Ok(h.alloc_str(s))
                }
                Err(e) => Err(e),
            }
        }
        Value::Bytes(x) => match find_place(h, index, h.octets_len(x), "bytes") {
            Ok(i) => Ok(Value::Int(h.octets_at(x, i) as i64)),
            Err(e) => Err(e),
        },
        Value::Dict(x) => match dict_get(h, x, index) {
            Ok(Some(v)) => Ok(v),
            Ok(None) => {
                let t = render(h, index);
                Err(key_error(join2("key error: ", t.as_str())))
            }
            Err(e) => Err(e),
        },
        _ => Err(type_error(join3("'", kind_name_of(h, obj), "' object is not subscriptable"))),
    }
}

/// Only list `id` differs between `a` and `b`.
pub open spec fn only_list(a: Heap, b: Heap, id: usize) -> bool {
    &&& b == (Heap { lists: b.lists, ..a })
    &&& a.lists@.len() == b.lists@.len()
    &&& forall|k: int| 0 <= k < a.lists@.len() && k != id ==> b.lists@[k] == a.lists@[k]
}

/// What `obj[index] = value` does.
pub open spec fn assign_result(h: Heap, h2: Heap, obj: Value, index: Value, value: Value, r: Result<(), VErr>) -> bool {
    match obj {
        Value::List(x) => match place(h, index, h.list(x).len(), "list"@) {
            Ok(p) => r is Ok && only_list(h, h2, x) && h2.list(x) == h.list(x).update(p, value),
            Err(e) => (r matches Err(f) && f@ == e) && h2 == h,
        },
        Value::Dict(x) => only_dict(h, h2, x) && match unhashable(h, index) {
            Some(p) => (r matches Err(f) && f@ == (Exc::TypeError, unhashable_text(h, p))) && h2 == h,
            None => r is Ok && (x < h.dicts@.len() ==> h2.dict(x) == with_key(h, h.dict(x), index, value)),
        },
        _ => (r matches Err(f) && f@ == (Exc::TypeError, "'"@ + kind_name(h, obj)
            + "' object does not support item assignment"@)) && h2 == h,
    }
}

/// `obj[index] = value`.
pub fn subscript_set(h: &mut Heap, obj: Value, index: Value, value: Value) -> (r: Result<(), VErr>)
    ensures assign_result(*old(h), *final(h), obj, index, value, r),
{
    match obj {
        Value::List(x) => match find_place(h, index, h.list_len(x), "list") {
            Ok(i) => {
                h.list_set(x, i, value);
                Ok(())
            }
            Err(e) => Err(e),
        },
        Value::Dict(x) => dict_insert(h, x, index, value),
        _ => Err(type_error(join3("'", kind_name_of(h, obj), "' object does not support item assignment"))),
    }
}

/// `i` brought into `lo..=hi`.
pub open spec fn clamped(i: int, lo: int, hi: int) -> int {
    if i < lo { lo } else if i > hi { hi } else { i }
}

/// A bound counted from the end where it is negative.
pub open spec fn from_end(i: int, len: int) -> int {
    if i < 0 { i + len } else { i }
}

/// Where a slice starts.
pub open spec fn slice_start(len: nat, lower: Option<i64>, step: int) -> int {
    match lower {
        Some(l) => if step > 0 { clamped(from_end(l as int, len as int), 0, len as int) } else {
            clamped(from_end(l as int, len as int), -1, len - 1)
        },
        None => if step > 0 { 0 } else { len - 1 },
    }
}

/// Where a slice stops; the place itself is not selected.
pub open spec fn slice_stop(len: nat, upper: Option<i64>, step: int) -> int {
    match upper {
        Some(u) => if step > 0 { clamped(from_end(u as int, len as int), 0, len as int) } else {
            clamped(from_end(u as int, len as int), -1, len - 1)
        },
        None => if step > 0 { len as int } else { -1 },
    }
}

/// How far it is from `start` to `stop` in the direction of `step`.
pub open spec fn distance(start: int, stop: int, step: int) -> nat {
    if step > 0 && start < stop { (stop - start) as nat } else if step < 0 && start > stop { (start - stop) as nat } else { 0 }
}

/// `start`, `start + step`, and so on, as long as `stop` is not reached.
pub open spec fn stepped(start: int, stop: int, step: int) -> Seq<int>
    decreases distance(start, stop, step),
{
    if step == 0 {
        Seq::empty()
    } else if (step > 0 && start < stop) || (step < 0 && start > stop) {
        seq![start] + stepped(start + step, stop, step)
    } else {
        Seq::empty()
    }
}

/// The places a slice selects, in order.
pub open spec fn selected(len: nat, lower: Option<i64>, upper: Option<i64>, step: int) -> Seq<int> {
    stepped(slice_start(len, lower, step), slice_stop(len, upper, step), step)
}

fn bound(i: i64, len: i128, lo: i128, hi: i128) -> (r: i128)
    requires 0 <= len <= usize::MAX, -1 <= lo, lo <= hi + 1, hi <= len,
    ensures r == clamped(from_end(i as int, len as int), lo as int, hi as int),
{
    let p: i128 = if i < 0 { i as i128 + len } else { i as i128 };
    if p < lo { lo } else if p > hi { hi } else { p }
}

/// The stretch a slice of step one selects: from the first place to before the
/// second, which is never the smaller.
pub fn unit_range(len: usize, lower: Option<i64>, upper: Option<i64>) -> (r: (usize, usize))
    ensures
        r.0 <= r.1 <= len,
        r.0 == slice_start(len as nat, lower, 1),
        r.1 == (if slice_stop(len as nat, upper, 1) < r.0 { r.0 as int } else { slice_stop(len as nat, upper, 1) }),
{
    let n: i128 = len as i128;
    let start: usize = match lower {
        Some(l) => bound(l, n, 0, n) as usize,
        None => 0,
    };
    let stop: usize = match upper {
        Some(u) => bound(u, n, 0, n) as usize,
        None => len,
    };
    (start, if stop < start { start } else { stop })
}

/// The places as integers.
pub open spec fn as_places(v: Seq<usize>) -> Seq<int> {
    v.map_values(|i: usize| i as int)
}

/// The places a slice selects, in order.
pub fn slice_indices(len: usize, lower: Option<i64>, upper: Option<i64>, step: i64) -> (r: Vec<usize>)
    requires step != 0,
    ensures
        as_places(r@) == selected(len as nat, lower, upper, step as int),
        forall|k: int| 0 <= k < r.len() ==> #[trigger] r[k] < len,
{
    let n: i128 = len as i128;
    let d: i128 = step as i128;
    let (first, stop): (i128, i128) = if step > 0 {
        (match lower {
            Some(l) => bound(l, n, 0, n),
            None => 0,
        }, match upper {
            Some(u) => bound(u, n, 0, n),
            None => n,
        })
    } else {
        (match lower {
            Some(l) => bound(l, n, -1, n - 1),
            None => n - 1,
        }, match upper {
            Some(u) => bound(u, n, -1, n - 1),
            None => -1,
        })
    };
    let mut start: i128 = first;
    let mut out: Vec<usize> = Vec::new();
    let ghost all = stepped(start as int, stop as int, d as int);
    assert(as_places(out@) =~= Seq::<int>::empty());
    assert(all =~= as_places(out@) + all);
    while (d > 0 && start < stop) || (d < 0 && start > stop)
        invariant
            d == step,
            d != 0,
            n == len,
            -1 <= stop <= n,
            d > 0 ==> 0 <= start <= n + i64::MAX,
            d < 0 ==> i64::MIN <= start < n && -1 <= stop,
            all == as_places(out@) + stepped(start as int, stop as int, d as int),
            forall|k: int| 0 <= k < out.len() ==> #[trigger] out[k] < len,
        decreases distance(start as int, stop as int, d as int),
    {
        let ghost before = out@;
        let ghost rest = stepped(start + d, stop as int, d as int);
        out.push(start as usize);
        proof {
            assert(as_places(out@) =~= as_places(before) + seq![start as int]);
            assert(as_places(before) + (seq![start as int] + rest) =~= as_places(out@) + rest);
        }
        start = start + d;
    }
    assert(as_places(out@) + Seq::<int>::empty() =~= as_places(out@));
    out
}

/// A slice of step one is the stretch [`unit_range`] gives.
pub proof fn unit_slice(len: nat, lower: Option<i64>, upper: Option<i64>, k: int)
    requires 0 <= k < selected(len, lower, upper, 1).len(),
    ensures selected(len, lower, upper, 1)[k] == slice_start(len, lower, 1) + k,
{
    lemma_stepped_one(slice_start(len, lower, 1), slice_stop(len, upper, 1));
}

proof fn lemma_stepped_one(start: int, stop: int)
    ensures stepped(start, stop, 1) =~= Seq::new((if stop > start { stop - start } else { 0 }) as nat, |k: int| start + k),
    decreases stop - start,
{
    if start < stop {
        lemma_stepped_one(start + 1, stop);
    }
}

/// The elements of `s` at `places`.
pub open spec fn picked<T>(s: Seq<T>, places: Seq<int>) -> Seq<T> {
    places.map_values(|i: int| s[i])
}

fn pick<T: Copy>(s: &Vec<T>, lo: Option<i64>, hi: Option<i64>, step: i64) -> (r: Vec<T>)
    requires step != 0,
    ensures r@ == picked(s@, selected(s@.len(), lo, hi, step as int)),
{
    let mut out: Vec<T> = Vec::new();
    if step == 1 {
        let (start, stop) = unit_range(s.len(), lo, hi);
        let mut i: usize = start;
        while i < stop
            invariant
                start <= i <= stop,
                stop <= s.len(),
                out.len() == i - start,
                forall|k: int| 0 <= k < out.len() ==> #[trigger] out[k] == s[start + k],
            decreases stop - i,
        {
            out.push(s[i]);
            i += 1;
        }
        proof {
            lemma_stepped_one(slice_start(s@.len(), lo, 1), slice_stop(s@.len(), hi, 1));
        }
        assert(out@ =~= picked(s@, selected(s@.len(), lo, hi, step as int)));
        return out;
    }
    let places = slice_indices(s.len(), lo, hi, step);
    let mut i: usize = 0;
    while i < places.len()
        invariant
            i <= places.len(),
            out.len() == i,
            forall|k: int| 0 <= k < places.len() ==> #[trigger] places[k] < s.len(),
            forall|k: int| 0 <= k < i ==> #[trigger] out[k] == s[places[k] as int],
        decreases places.len() - i,
    {
        out.push(s[places[i]]);
        i += 1;
    }
    assert(out@ =~= picked(s@, as_places(places@)));
    out
}

fn text_from(v: &Vec<char>) -> (r: String)
    ensures r@ == v@,
{
    proof { reveal_strlit(""); }
    let mut out = "".to_owned();
    let mut i: usize = 0;
    assert(out@ =~= v@.take(0));
    while i < v.len()
        invariant i <= v.len(), out@ == v@.take(i as int),
        decreases v.len() - i,
    {
        push_char(&mut out, v[i]);
        i += 1;
        assert(out@ =~= v@.take(i as int));
    }
    assert(v@.take(i as int) =~= v@);
    out
}

/// A bound of a slice: absent where it is null.
pub open spec fn slice_bound(h: Heap, v: Value) -> Result<Option<i64>, (Exc, Seq<char>)> {
    match v {
        Value::Null => Ok(None),
        _ => match index_of(v) {
            Some(i) => Ok(Some(i)),
            None => Err((Exc::TypeError, bad_index_text(h, v))),
        },
    }
}

fn read_bound(h: &Heap, v: Value) -> (r: Result<Option<i64>, VErr>)
    ensures
        match slice_bound(*h, v) {
            Ok(b) => r == Ok::<Option<i64>, VErr>(b),
            Err(e) => r matches Err(f) && f@ == e,
        },
{
    match v {
        Value::Null => Ok(None),
        _ => match as_index(h, v) {
            Ok(i) => Ok(Some(i)),
            Err(e) => Err(e),
        },
    }
}

/// What slicing comes to once the bounds are known: a new sequence of the same
/// kind.
pub open spec fn sliced(h: Heap, h2: Heap, obj: Value, lo: Option<i64>, hi: Option<i64>, step: int, r: Result<Value, VErr>) -> bool {
    match obj {
        Value::Str(x) => r == Ok::<Value, VErr>(Value::Str(h.strs.len()))
            && h2.text(h.strs.len()) == picked(h.text(x), selected(h.text(x).len(), lo, hi, step)),
        Value::Bytes(x) => r == Ok::<Value, VErr>(Value::Bytes(h.bytes.len()))
            && h2.octets(h.bytes.len()) == picked(h.octets(x), selected(h.octets(x).len(), lo, hi, step)),
        Value::List(x) => r == Ok::<Value, VErr>(Value::List(h.lists.len()))
            && h2.list(h.lists.len()) == picked(h.list(x), selected(h.list(x).len(), lo, hi, step)),
        Value::Tuple(x) => r == Ok::<Value, VErr>(Value::Tuple(h.tuples.len()))
            && h2.tuple(h.tuples.len()) == picked(h.tuple(x), selected(h.tuple(x).len(), lo, hi, step)),
        _ => r matches Err(f) && f@ == (Exc::TypeError, "'"@ + kind_name(h, obj) + "' object is not sliceable"@),
    }
}

/// What `obj[lower:upper:step]` comes to. The bounds are read first, left to
/// right.
pub open spec fn slice_result(h: Heap, h2: Heap, obj: Value, lower: Value, upper: Value, step: Value, r: Result<Value, VErr>) -> bool {
    match slice_bound(h, lower) {
        Err(e) => r matches Err(f) && f@ == e,
        Ok(lo) => match slice_bound(h, upper) {
            Err(e) => r matches Err(f) && f@ == e,
            Ok(hi) => match slice_bound(h, step) {
                Err(e) => r matches Err(f) && f@ == e,
                Ok(st) => {
                    let s = match st { Some(i) => i as int, None => 1 };
                    if s == 0 {
                        r matches Err(f) && f@ == (Exc::ValueError, "slice step cannot be zero"@)
                    } else {
                        sliced(h, h2, obj, lo, hi, s, r)
                    }
                },
            },
        },
    }
}

/// `obj[lower:upper:step]`.
pub fn slice_get(h: &mut Heap, obj: Value, lower: Value, upper: Value, step: Value) -> (r: Result<Value, VErr>)
    ensures
        slice_result(*old(h), *final(h), obj, lower, upper, step, r),
        crate::arith::sequences_grew(*old(h), *final(h)),
{
    let lo = match read_bound(h, lower) {
        Ok(b) => b,
        Err(e) => {
            return Err(e);
        }
    };
    let hi = match read_bound(h, upper) {
        Ok(b) => b,
        Err(e) => {
            return Err(e);
        }
    };
    let st = match read_bound(h, step) {
        Ok(b) => b,
        Err(e) => {
            return Err(e);
        }
    };
    let s: i64 = match st {
        Some(i) => i,
        None => 1,
    };
    if s == 0 {
        return Err(fault(Exc::ValueError, "slice step cannot be zero"));
    }
    match obj {
        Value::Str(x) => {
            let v = pick(&chars_of(h.text_of(x)), lo, hi, s);
            let t = text_from(&v);
            Ok(h.alloc_str(t))
        }
        Value::Bytes(x) => {
            let v = pick(&h.octets_copy(x), lo, hi, s);
            Ok(h.alloc_bytes(v))
        }
        Value::List(x) => {
            let v = pick(&h.list_copy(x), lo, hi, s);
            Ok(h.alloc_list(v))
        }
        Value::Tuple(x) => {
            let v = pick(&h.tuple_copy(x), lo, hi, s);
            Ok(h.alloc_tuple(v))
        }
        _ => Err(type_error(join3("'", kind_name_of(h, obj), "' object is not sliceable"))),
    }
}

} // verus!
