//! Dict keys: which values can be one, and when two are the same key.
use vstd::prelude::*;
use crate::exc::{type_error, Exc, VErr};
use crate::names::{type_label, type_label_of};
use crate::number::{as_number, num, num_order, order_numbers, Order};
use crate::text::{join3, same_text};
use crate::value::{Heap, Value};

verus! {

/// A tuple is younger than everything in it; anything else has rank 0.
pub open spec fn tuple_rank(v: Value) -> nat {
    match v {
        Value::Tuple(i) => i as nat + 1,
        _ => 0,
    }
}

fn rank_at_most(v: Value, i: usize) -> (r: bool)
    ensures r == (tuple_rank(v) <= i),
{
    match v {
        Value::Tuple(j) => j < i,
        _ => true,
    }
}

/// The part of `v` that keeps it from being a dict key: a list, a dict, or an
/// instance whose class has its own idea of equality.
pub open spec fn unhashable(h: Heap, v: Value) -> Option<Value>
    decreases tuple_rank(v), 1int, 0int,
{
    match v {
        Value::List(_) => Some(v),
        Value::Dict(_) => Some(v),
        Value::Instance(_) => if h.method_of(v, "__eq__"@) is Some { Some(v) } else { None },
        Value::Tuple(i) => unhashable_from(h, i, 0),
        _ => None,
    }
}

/// The first such part of tuple `i` from place `k` on.
pub open spec fn unhashable_from(h: Heap, i: usize, k: int) -> Option<Value>
    decreases i as nat + 1, 0int, h.tuple(i).len() - k,
{
    if k < 0 || k >= h.tuple(i).len() {
        None
    } else if tuple_rank(h.tuple(i)[k]) > i {
        Some(h.tuple(i)[k])
    } else {
        match unhashable(h, h.tuple(i)[k]) {
            Some(v) => Some(v),
            None => unhashable_from(h, i, k + 1),
        }
    }
}

/// The part of `v` that keeps it from being a dict key.
pub fn find_unhashable(h: &Heap, v: Value) -> (r: Option<Value>)
    ensures r == unhashable(*h, v),
    decreases tuple_rank(v),
{
    match v {
        Value::List(_) => Some(v),
        Value::Dict(_) => Some(v),
        Value::Instance(_) => if h.instance_method(v, "__eq__").is_some() { Some(v) } else { None },
        Value::Tuple(i) => {
            let n = h.tuple_len(i);
            let mut k: usize = 0;
            while k < n
                invariant
                    k <= n,
                    n == h.tuple(i).len(),
                    v == Value::Tuple(i),
                    unhashable(*h, v) == unhashable_from(*h, i, k as int),
                decreases n - k,
            {
                let e = h.tuple_at(i, k);
                if !rank_at_most(e, i) {
                    return Some(e);
                }
                match find_unhashable(h, e) {
                    Some(p) => {
                        return Some(p);
                    }
                    None => {}
                }
                k += 1;
            }
            None
        }
        _ => None,
    }
}

/// The message for a value that cannot be a key.
pub open spec fn unhashable_text(h: Heap, v: Value) -> Seq<char> {
    "unhashable type: '"@ + type_label(h, v) + "'"@
}

/// Refuse a value that cannot be a key.
pub fn check_key(h: &Heap, v: Value) -> (r: Result<(), VErr>)
    ensures
        match unhashable(*h, v) {
            None => r is Ok,
            Some(p) => r matches Err(e) && e@ == (Exc::TypeError, unhashable_text(*h, p)),
        },
{
    match find_unhashable(h, v) {
        None => Ok(()),
        Some(p) => Err(type_error(join3("unhashable type: '", type_label_of(h, p), "'"))),
    }
}

/// Two values are the same key: equal numbers, equal text, equal octets, tuples
/// that agree element by element, or one and the same object.
pub open spec fn same_key(h: Heap, a: Value, b: Value) -> bool
    decreases tuple_rank(a),
{
    match (num(h, a), num(h, b)) {
        (Some(x), Some(y)) => num_order(x, y) == Order::Equal,
        _ => match (a, b) {
            (Value::Str(x), Value::Str(y)) => h.text(x) == h.text(y),
            (Value::Bytes(x), Value::Bytes(y)) => h.octets(x) == h.octets(y),
            (Value::Tuple(x), Value::Tuple(y)) => {
                &&& h.tuple(x).len() == h.tuple(y).len()
                &&& forall|k: int| 0 <= k < h.tuple(x).len() ==> tuple_rank(#[trigger] h.tuple(x)[k]) <= x
                    && same_key(h, h.tuple(x)[k], h.tuple(y)[k])
            },
            _ => a == b,
        },
    }
}

/// Whether two sequences of octets are the same.
pub fn same_octets(h: &Heap, x: usize, y: usize) -> (r: bool)
    ensures r == (h.octets(x) == h.octets(y)),
{
    let n = h.octets_len(x);
    if n != h.octets_len(y) {
        return false;
    }
    let mut i: usize = 0;
    while i < n
        invariant
            i <= n,
            n == h.octets(x).len(),
            n == h.octets(y).len(),
            forall|k: int| 0 <= k < i ==> h.octets(x)[k] == h.octets(y)[k],
        decreases n - i,
    {
        if h.octets_at(x, i) != h.octets_at(y, i) {
            return false;
        }
        i += 1;
    }
    assert(h.octets(x) =~= h.octets(y));
    true
}

/// Whether two values are the same key.
pub fn keys_match(h: &Heap, a: Value, b: Value) -> (r: bool)
    ensures r == same_key(*h, a, b),
    decreases tuple_rank(a),
{
    match (as_number(h, a), as_number(h, b)) {
        (Some(x), Some(y)) => {
            let o = order_numbers(h, &x, &y);
            assert(o == num_order(num(*h, a)->0, num(*h, b)->0));
            matches!(o, Order::Equal)
        }
        _ => match (a, b) {
            (Value::Str(x), Value::Str(y)) => same_text(h.text_of(x), h.text_of(y)),
            (Value::Bytes(x), Value::Bytes(y)) => same_octets(h, x, y),
            (Value::Tuple(x), Value::Tuple(y)) => {
                let n = h.tuple_len(x);
                if n != h.tuple_len(y) {
                    return false;
                }
                let mut k: usize = 0;
                while k < n
                    invariant
                        k <= n,
                        n == h.tuple(x).len(),
                        n == h.tuple(y).len(),
                        a == Value::Tuple(x),
                        b == Value::Tuple(y),
                        forall|j: int| 0 <= j < k ==> tuple_rank(#[trigger] h.tuple(x)[j]) <= x
                            && same_key(*h, h.tuple(x)[j], h.tuple(y)[j]),
                    decreases n - k,
                {
                    let e = h.tuple_at(x, k);
                    let f = h.tuple_at(y, k);
                    assert(e == h.tuple(x)[k as int]);
                    if !rank_at_most(e, x) {
                        return false;
                    }
                    if !keys_match(h, e, f) {
                        return false;
                    }
                    k += 1;
                }
                true
            }
            _ => a == b,
        },
    }
}

/// The first entry from place `from` on whose key is `key`.
pub open spec fn find_key(h: Heap, entries: Seq<(Value, Value)>, key: Value, from: int) -> Option<int>
    decreases entries.len() - from,
{
    if from < 0 || from >= entries.len() {
        None
    } else if same_key(h, entries[from].0, key) {
        Some(from)
    } else {
        find_key(h, entries, key, from + 1)
    }
}

/// What the entries hold under `key`.
pub open spec fn lookup_key(h: Heap, entries: Seq<(Value, Value)>, key: Value) -> Option<Value> {
    match find_key(h, entries, key, 0) {
        Some(i) => Some(entries[i].1),
        None => None,
    }
}

/// The place of `key` in dict `id`.
pub fn dict_find(h: &Heap, id: usize, key: Value) -> (r: Option<usize>)
    ensures
        match r {
            Some(i) => find_key(*h, h.dict(id), key, 0) == Some(i as int) && i < h.dict(id).len(),
            None => find_key(*h, h.dict(id), key, 0) is None,
        },
{
    let n = h.dict_len(id);
    let mut i: usize = 0;
    while i < n
        invariant
            i <= n,
            n == h.dict(id).len(),
            find_key(*h, h.dict(id), key, 0) == find_key(*h, h.dict(id), key, i as int),
        decreases n - i,
    {
        if keys_match(h, h.dict_at(id, i).0, key) {
            return Some(i);
        }
        i += 1;
    }
    None
}

/// What dict `id` holds under `key`, or the refusal of a value that cannot be
/// a key.
pub fn dict_get(h: &Heap, id: usize, key: Value) -> (r: Result<Option<Value>, VErr>)
    ensures
        match unhashable(*h, key) {
            None => r == Ok::<Option<Value>, VErr>(lookup_key(*h, h.dict(id), key)),
            Some(p) => r matches Err(e) && e@ == (Exc::TypeError, unhashable_text(*h, p)),
        },
{
    match check_key(h, key) {
        Err(e) => Err(e),
        Ok(_) => match dict_find(h, id, key) {
            Some(i) => Ok(Some(h.dict_at(id, i).1)),
            None => Ok(None),
        },
    }
}

/// The entries with `value` under `key`: in the place the key has, or last.
pub open spec fn with_key(h: Heap, entries: Seq<(Value, Value)>, key: Value, value: Value) -> Seq<(Value, Value)> {
    match find_key(h, entries, key, 0) {
        Some(i) => entries.update(i, (entries[i].0, value)),
        None => entries.push((key, value)),
    }
}

/// Only dict `id` differs between `a` and `b`.
pub open spec fn only_dict(a: Heap, b: Heap, id: usize) -> bool {
    &&& b == (Heap { dicts: b.dicts, ..a })
    &&& a.dicts@.len() == b.dicts@.len()
    &&& forall|k: int| 0 <= k < a.dicts@.len() && k != id ==> b.dicts@[k] == a.dicts@[k]
}

/// Put `value` under `key` in dict `id`.
pub fn dict_insert(h: &mut Heap, id: usize, key: Value, value: Value) -> (r: Result<(), VErr>)
    ensures
        only_dict(*old(h), *final(h), id),
        match unhashable(*old(h), key) {
            None => r is Ok && (id < old(h).dicts@.len() ==> final(h).dict(id)
                == with_key(*old(h), old(h).dict(id), key, value)),
            Some(p) => (r matches Err(e) && e@ == (Exc::TypeError, unhashable_text(*old(h), p)))
                && *final(h) == *old(h),
        },
{
    match check_key(h, key) {
        Err(e) => Err(e),
        Ok(_) => {
            let at = dict_find(h, id, key);
            if id < h.dicts.len() {
                match at {
                    Some(i) => {
                        let k = h.dicts[id][i].0;
                        h.dicts[id].set(i, (k, value));
                    }
                    None => {
                        h.dicts[id].push((key, value));
                    }
                }
            }
            Ok(())
        }
    }
}

/// Put `value` under `key` among these entries.
pub fn put_key(h: &Heap, entries: &mut Vec<(Value, Value)>, key: Value, value: Value)
    ensures final(entries)@ == with_key(*h, old(entries)@, key, value),
{
    let n = entries.len();
    let mut j: usize = 0;
    while j < n && !keys_match(h, entries[j].0, key)
        invariant
            j <= n,
            n == entries@.len(),
            *entries == *old(entries),
            find_key(*h, entries@, key, 0) == find_key(*h, entries@, key, j as int),
        decreases n - j,
    {
        j += 1;
    }
    if j < n {
        let old_key = entries[j].0;
        entries.set(j, (old_key, value));
    } else {
        entries.push((key, value));
    }
}

} // verus!
