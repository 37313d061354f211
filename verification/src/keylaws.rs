//! Numbers that are equal and keys that are the same: what a dict rests on.
use vstd::prelude::*;
use vstd::arithmetic::power::{lemma_pow_adds, lemma_pow_positive};
use crate::bigint::two_pow;
use crate::keys::{find_key, lookup_key, same_key, tuple_rank, unhashable, unhashable_from, with_key};
use crate::names::float_mag;
use crate::number::{float_exponent, float_is_nan, float_key, float_significand, int_float_order, num, num_order, Num, Order};
use crate::value::{Heap, Value};

verus! {

/// Whether a float is neither infinite nor not-a-number.
pub open spec fn float_is_finite(bits: u64) -> bool {
    float_mag(bits) < 0x7ff0_0000_0000_0000
}

/// How many of the smallest steps between floats a finite float is.
pub open spec fn float_steps(bits: u64) -> int {
    float_significand(bits) * two_pow((float_exponent(bits) + 1074) as nat)
}

/// What decides whether two numbers are equal: how many of the smallest steps
/// between floats they are, or which infinity. Not-a-number has none.
pub open spec fn num_class(n: Num) -> Option<(bool, int)> {
    match n {
        Num::Int(i) => Some((true, i * two_pow(1074))),
        Num::Float(f) => if float_is_nan(f) {
            None
        } else if float_is_finite(f) {
            Some((true, float_steps(f)))
        } else {
            Some((false, float_key(f)))
        },
    }
}

proof fn lemma_two_pow(a: nat, b: nat)
    ensures
        two_pow(a) > 0,
        two_pow(a + b) == two_pow(a) * two_pow(b),
{
    lemma_pow_positive(2, a);
    lemma_pow_adds(2, a, b);
}

proof fn lemma_cancel(a: int, b: int, c: int)
    requires c > 0,
    ensures
        a * c == b * c <==> a == b,
        a < b ==> a * c < b * c,
{
    assert(a < b ==> a * c < b * c) by (nonlinear_arith)
        requires c > 0;
    assert(a > b ==> a * c > b * c) by (nonlinear_arith)
        requires c > 0;
}

proof fn lemma_int_float(i: int, f: u64)
    ensures
        int_float_order(i, f) == Order::Equal <==> num_class(Num::Float(f)) == num_class(Num::Int(i)),
{
    if !float_is_nan(f) && float_is_finite(f) {
        let e = float_exponent(f);
        let s = float_significand(f);
        if e >= 0 {
            lemma_two_pow(e as nat, 1074);
            lemma_two_pow(1074, 0);
            assert((e + 1074) as nat == e as nat + 1074);
            assert(s * (two_pow(e as nat) * two_pow(1074)) == (s * two_pow(e as nat)) * two_pow(1074)) by (nonlinear_arith);
            lemma_cancel(i, s * two_pow(e as nat), two_pow(1074));
        } else {
            let k = (-e) as nat;
            let r = (e + 1074) as nat;
            lemma_two_pow(k, r);
            lemma_two_pow(r, 0);
            assert(k + r == 1074);
            assert(i * (two_pow(k) * two_pow(r)) == (i * two_pow(k)) * two_pow(r)) by (nonlinear_arith);
            lemma_cancel(i * two_pow(k), s, two_pow(r));
        }
    }
}

/// A float of smaller magnitude is closer to zero.
proof fn lemma_steps_grow(m: int, n: int)
    requires 0 <= m < n < 0x7ff0_0000_0000_0000,
    ensures mag_steps(m) < mag_steps(n),
{
    let e = m / 0x10_0000_0000_0000;
    let f = n / 0x10_0000_0000_0000;
    let s = mag_significand(m);
    let t = mag_significand(n);
    let x = mag_exponent(m);
    let y = mag_exponent(n);
    assert(e <= f) by (nonlinear_arith)
        requires 0 <= m < n, e == m / 0x10_0000_0000_0000, f == n / 0x10_0000_0000_0000;
    lemma_two_pow(x as nat, 0);
    if x == y {
        assert(s < t);
        lemma_cancel(s, t, two_pow(x as nat));
    } else {
        assert(x + 1 <= y);
        let d = (y - x - 1) as nat;
        lemma_two_pow(x as nat, (d + 1) as nat);
        lemma_two_pow(d, 1);
        assert(two_pow(1) == 2) by {
            vstd::arithmetic::power::lemma_pow1(2);
        }
        let p = two_pow(x as nat);
        let q = two_pow((d + 1) as nat);
        assert(q == two_pow(d) * 2);
        assert(q >= 2) by (nonlinear_arith)
            requires q == two_pow(d) * 2, two_pow(d) > 0;
        assert(two_pow(y as nat) == p * q) by {
            assert(y as nat == x as nat + (d + 1) as nat);
        }
        assert(s < t * q) by (nonlinear_arith)
            requires s < 0x20_0000_0000_0000, t >= 0x10_0000_0000_0000, q >= 2;
        lemma_cancel(s, t * q, p);
        assert((t * q) * p == t * (p * q)) by (nonlinear_arith);
    }
}

/// The significand of the magnitude `m`.
spec fn mag_significand(m: int) -> int {
    if m / 0x10_0000_0000_0000 == 0 { m } else { m % 0x10_0000_0000_0000 + 0x10_0000_0000_0000 }
}

/// The exponent of the magnitude `m`, counted from the smallest there is.
spec fn mag_exponent(m: int) -> int {
    let e = m / 0x10_0000_0000_0000;
    (if e == 0 { 1 } else { e }) - 1
}

/// How many of the smallest steps between floats the magnitude `m` is.
spec fn mag_steps(m: int) -> int {
    mag_significand(m) * two_pow(mag_exponent(m) as nat)
}

proof fn lemma_float_steps(f: u64)
    requires float_is_finite(f),
    ensures float_steps(f) == (if f >= 0x8000_0000_0000_0000 { -mag_steps(float_mag(f) as int) } else { mag_steps(float_mag(f) as int) }),
{
    let m = float_mag(f) as int;
    let s = mag_significand(m);
    let p = two_pow(mag_exponent(m) as nat);
    assert((float_exponent(f) + 1074) as nat == mag_exponent(m) as nat);
    assert((-s) * p == -(s * p)) by (nonlinear_arith);
}

proof fn lemma_mag_steps(m: int)
    requires 0 <= m < 0x7ff0_0000_0000_0000,
    ensures
        mag_steps(m) >= 0,
        mag_steps(m) == 0 <==> m == 0,
{
    assert(mag_steps(0) == 0) by {
        assert(mag_significand(0) == 0);
    }
    if m > 0 {
        lemma_steps_grow(0, m);
    }
}

proof fn lemma_floats(f: u64, g: u64)
    ensures
        num_order(Num::Float(f), Num::Float(g)) == Order::Equal
            <==> num_class(Num::Float(f)) is Some && num_class(Num::Float(f)) == num_class(Num::Float(g)),
{
    if !float_is_nan(f) && !float_is_nan(g) && float_is_finite(f) && float_is_finite(g) {
        let m = float_mag(f) as int;
        let n = float_mag(g) as int;
        lemma_float_steps(f);
        lemma_float_steps(g);
        lemma_mag_steps(m);
        lemma_mag_steps(n);
        if m < n {
            lemma_steps_grow(m, n);
        } else if n < m {
            lemma_steps_grow(n, m);
        }
    }
}

/// Two numbers are equal exactly when they are the same number, whichever way
/// they are written: as a bool, an integer of any size, or a float.
pub proof fn equal_numbers(a: Num, b: Num)
    ensures num_order(a, b) == Order::Equal <==> num_class(a) is Some && num_class(a) == num_class(b),
{
    match (a, b) {
        (Num::Int(x), Num::Int(y)) => {
            lemma_two_pow(1074, 0);
            lemma_cancel(x, y, two_pow(1074));
        }
        (Num::Int(x), Num::Float(y)) => lemma_int_float(x, y),
        (Num::Float(x), Num::Int(y)) => lemma_int_float(y, x),
        (Num::Float(x), Num::Float(y)) => lemma_floats(x, y),
    }
}

/// Where a number stands: how many of the smallest steps between floats it is,
/// between the two infinities. Not-a-number stands nowhere.
pub open spec fn stands_below(a: Num, b: Num) -> bool {
    match (num_class(a), num_class(b)) {
        (Some((true, x)), Some((true, y))) => x < y,
        (Some((true, _)), Some((false, y))) => y > 0,
        (Some((false, x)), Some((true, _))) => x < 0,
        (Some((false, x)), Some((false, y))) => x < 0 && y > 0,
        _ => false,
    }
}

proof fn lemma_int_below(i: int, f: u64)
    ensures
        int_float_order(i, f) == Order::Less <==> stands_below(Num::Int(i), Num::Float(f)),
        int_float_order(i, f) == Order::Greater <==> stands_below(Num::Float(f), Num::Int(i)),
{
    if !float_is_nan(f) && float_is_finite(f) {
        let e = float_exponent(f);
        let s = float_significand(f);
        if e >= 0 {
            lemma_two_pow(e as nat, 1074);
            lemma_two_pow(1074, 0);
            assert((e + 1074) as nat == e as nat + 1074);
            let t = s * two_pow(e as nat);
            assert(s * (two_pow(e as nat) * two_pow(1074)) == t * two_pow(1074)) by (nonlinear_arith)
                requires t == s * two_pow(e as nat);
            lemma_cancel(i, t, two_pow(1074));
            lemma_cancel(t, i, two_pow(1074));
        } else {
            let k = (-e) as nat;
            let r = (e + 1074) as nat;
            lemma_two_pow(k, r);
            lemma_two_pow(r, 0);
            assert(k + r == 1074);
            let t = i * two_pow(k);
            assert(i * (two_pow(k) * two_pow(r)) == t * two_pow(r)) by (nonlinear_arith)
                requires t == i * two_pow(k);
            lemma_cancel(t, s, two_pow(r));
            lemma_cancel(s, t, two_pow(r));
        }
    }
}

proof fn lemma_floats_below(f: u64, g: u64)
    ensures
        num_order(Num::Float(f), Num::Float(g)) == Order::Less <==> stands_below(Num::Float(f), Num::Float(g)),
        num_order(Num::Float(f), Num::Float(g)) == Order::Greater <==> stands_below(Num::Float(g), Num::Float(f)),
{
    if !float_is_nan(f) && !float_is_nan(g) && float_is_finite(f) && float_is_finite(g) {
        let m = float_mag(f) as int;
        let n = float_mag(g) as int;
        lemma_float_steps(f);
        lemma_float_steps(g);
        lemma_mag_steps(m);
        lemma_mag_steps(n);
        if m < n {
            lemma_steps_grow(m, n);
        } else if n < m {
            lemma_steps_grow(n, m);
        }
    }
}

/// Numbers are ordered as they stand, whichever way they are written; beside
/// not-a-number there is no order.
pub proof fn numbers_are_ordered_as_they_stand(a: Num, b: Num)
    ensures
        num_order(a, b) == Order::Less <==> stands_below(a, b),
        num_order(a, b) == Order::Greater <==> stands_below(b, a),
        num_order(a, b) == Order::Unordered <==> num_class(a) is None || num_class(b) is None,
{
    equal_numbers(a, b);
    match (a, b) {
        (Num::Int(x), Num::Int(y)) => {
            lemma_two_pow(1074, 0);
            lemma_cancel(x, y, two_pow(1074));
            lemma_cancel(y, x, two_pow(1074));
        }
        (Num::Int(x), Num::Float(y)) => lemma_int_below(x, y),
        (Num::Float(x), Num::Int(y)) => lemma_int_below(y, x),
        (Num::Float(x), Num::Float(y)) => lemma_floats_below(x, y),
    }
}

/// A float whose bits say a whole number of 53 bits is that number.
pub proof fn whole_floats_are_their_integers(i: int)
    requires 0x10_0000_0000_0000 <= i < 0x20_0000_0000_0000,
    ensures
        num_order(Num::Float((1075 * 0x10_0000_0000_0000 + (i - 0x10_0000_0000_0000)) as u64), Num::Int(i)) == Order::Equal,
        num_order(Num::Float((0x8000_0000_0000_0000 + 1075 * 0x10_0000_0000_0000 + (i - 0x10_0000_0000_0000)) as u64), Num::Int(-i)) == Order::Equal,
{
    let f = (1075 * 0x10_0000_0000_0000 + (i - 0x10_0000_0000_0000)) as u64;
    let g = (0x8000_0000_0000_0000 + 1075 * 0x10_0000_0000_0000 + (i - 0x10_0000_0000_0000)) as u64;
    assert(float_mag(f) == f);
    assert(float_mag(g) == f);
    assert(float_significand(f) == i && float_exponent(f) == 0);
    assert(float_significand(g) == -i && float_exponent(g) == 0);
    vstd::arithmetic::power::lemma_pow0(2);
    assert(two_pow(0) == 1);
    assert(!float_is_nan(f) && !float_is_nan(g));
    assert(int_float_order(i, f) == Order::Equal);
    let s = float_significand(g);
    let t = two_pow(float_exponent(g) as nat);
    assert(s * t == -i) by (nonlinear_arith)
        requires s == -i, t == 1;
    assert(int_float_order(-i, g) == Order::Equal);
}

/// One more in the exponent of a normal float is twice the number, and either
/// zero is zero.
pub proof fn exponents_double(f: u64)
    requires
        0x10_0000_0000_0000 <= float_mag(f),
        float_mag(f) < 0x7fe0_0000_0000_0000,
    ensures
        float_steps((f + 0x10_0000_0000_0000) as u64) == 2 * float_steps(f),
        num_order(Num::Float(0), Num::Int(0)) == Order::Equal,
        num_order(Num::Float(0x8000_0000_0000_0000), Num::Int(0)) == Order::Equal,
{
    let g = (f + 0x10_0000_0000_0000) as u64;
    let m = float_mag(f);
    assert(float_mag(g) == m + 0x10_0000_0000_0000);
    assert((m + 0x10_0000_0000_0000) / 0x10_0000_0000_0000 == m / 0x10_0000_0000_0000 + 1);
    assert((m + 0x10_0000_0000_0000) % 0x10_0000_0000_0000 == m % 0x10_0000_0000_0000);
    assert(float_significand(g) == float_significand(f));
    assert(float_exponent(g) == float_exponent(f) + 1);
    let e = (float_exponent(f) + 1074) as nat;
    lemma_two_pow(e, 1);
    vstd::arithmetic::power::lemma_pow1(2);
    let s = float_significand(f);
    assert(s * (two_pow(e) * 2) == 2 * (s * two_pow(e))) by (nonlinear_arith);
    equal_numbers(Num::Float(0), Num::Int(0));
    equal_numbers(Num::Float(0x8000_0000_0000_0000), Num::Int(0));
}

proof fn lemma_elements(h: Heap, i: usize, from: int)
    requires
        unhashable_from(h, i, from) is None,
        0 <= from,
    ensures
        forall|k: int| from <= k < h.tuple(i).len() ==> tuple_rank(#[trigger] h.tuple(i)[k]) <= i && unhashable(h, h.tuple(i)[k]) is None,
    decreases h.tuple(i).len() - from,
{
    if from < h.tuple(i).len() {
        lemma_elements(h, i, from + 1);
        assert forall|k: int| from <= k < h.tuple(i).len() implies tuple_rank(#[trigger] h.tuple(i)[k]) <= i && unhashable(h, h.tuple(i)[k]) is None by {
        }
    }
}

/// Being the same key works both ways.
pub proof fn same_key_is_symmetric(h: Heap, a: Value, b: Value)
    requires
        same_key(h, a, b),
        unhashable(h, b) is None,
    ensures same_key(h, b, a),
    decreases tuple_rank(a),
{
    match (num(h, a), num(h, b)) {
        (Some(x), Some(y)) => {
            equal_numbers(x, y);
            equal_numbers(y, x);
        }
        _ => match (a, b) {
            (Value::Tuple(x), Value::Tuple(y)) => {
                lemma_elements(h, y, 0);
                assert forall|k: int| 0 <= k < h.tuple(y).len() implies tuple_rank(#[trigger] h.tuple(y)[k]) <= y
                    && same_key(h, h.tuple(y)[k], h.tuple(x)[k]) by {
                    assert(tuple_rank(h.tuple(x)[k]) <= x);
                    same_key_is_symmetric(h, h.tuple(x)[k], h.tuple(y)[k]);
                }
            }
            _ => {}
        },
    }
}

/// What is the same key as the same key is the same key.
pub proof fn same_key_is_transitive(h: Heap, a: Value, b: Value, c: Value)
    requires
        same_key(h, a, b),
        same_key(h, b, c),
    ensures same_key(h, a, c),
    decreases tuple_rank(a),
{
    match (num(h, a), num(h, b)) {
        (Some(x), Some(y)) => {
            equal_numbers(x, y);
            if num(h, c) is Some {
                let z = num(h, c)->0;
                equal_numbers(y, z);
                equal_numbers(x, z);
            }
        }
        _ => match (a, b) {
            (Value::Tuple(x), Value::Tuple(y)) => {
                if let Value::Tuple(z) = c {
                    assert forall|k: int| 0 <= k < h.tuple(x).len() implies tuple_rank(#[trigger] h.tuple(x)[k]) <= x
                        && same_key(h, h.tuple(x)[k], h.tuple(z)[k]) by {
                        assert(tuple_rank(h.tuple(x)[k]) <= x);
                        assert(tuple_rank(h.tuple(y)[k]) <= y);
                        same_key_is_transitive(h, h.tuple(x)[k], h.tuple(y)[k], h.tuple(z)[k]);
                    }
                }
            }
            _ => {}
        },
    }
}

/// No part of `v` is not-a-number.
pub open spec fn is_itself(h: Heap, v: Value) -> bool
    decreases tuple_rank(v),
{
    match v {
        Value::Float(f) => !float_is_nan(h.float_bits(f)),
        Value::Tuple(i) => forall|k: int| 0 <= k < h.tuple(i).len() && tuple_rank(#[trigger] h.tuple(i)[k]) <= i
            ==> is_itself(h, h.tuple(i)[k]),
        _ => true,
    }
}

/// A key is the same key as itself, unless it holds not-a-number.
pub proof fn same_key_is_reflexive(h: Heap, v: Value)
    requires
        unhashable(h, v) is None,
        is_itself(h, v),
    ensures same_key(h, v, v),
    decreases tuple_rank(v),
{
    match num(h, v) {
        Some(x) => equal_numbers(x, x),
        None => if let Value::Tuple(i) = v {
            lemma_elements(h, i, 0);
            assert forall|k: int| 0 <= k < h.tuple(i).len() implies tuple_rank(#[trigger] h.tuple(i)[k]) <= i
                && same_key(h, h.tuple(i)[k], h.tuple(i)[k]) by {
                same_key_is_reflexive(h, h.tuple(i)[k]);
            }
        },
    }
}

pub proof fn lemma_find(h: Heap, es: Seq<(Value, Value)>, k: Value, from: int)
    requires 0 <= from,
    ensures
        match find_key(h, es, k, from) {
            Some(i) => from <= i < es.len() && same_key(h, es[i].0, k)
                && forall|j: int| from <= j < i ==> !same_key(h, (#[trigger] es[j]).0, k),
            None => forall|j: int| from <= j < es.len() ==> !same_key(h, (#[trigger] es[j]).0, k),
        },
    decreases es.len() - from,
{
    if from < es.len() && !same_key(h, es[from].0, k) {
        lemma_find(h, es, k, from + 1);
        match find_key(h, es, k, from) {
            Some(i) => {
                assert forall|j: int| from <= j < i implies !same_key(h, (#[trigger] es[j]).0, k) by {
                }
            }
            None => {
                assert forall|j: int| from <= j < es.len() implies !same_key(h, (#[trigger] es[j]).0, k) by {
                }
            }
        }
    }
}

/// A dict gives back what was last written under a key.
pub proof fn dict_reads_back(h: Heap, es: Seq<(Value, Value)>, k: Value, v: Value)
    requires
        unhashable(h, k) is None,
        is_itself(h, k),
    ensures lookup_key(h, with_key(h, es, k, v), k) == Some(v),
{
    same_key_is_reflexive(h, k);
    let out = with_key(h, es, k, v);
    lemma_find(h, es, k, 0);
    lemma_find(h, out, k, 0);
    match find_key(h, es, k, 0) {
        Some(i) => {
            assert(out[i].0 == es[i].0);
            let p = find_key(h, out, k, 0)->0;
            assert(find_key(h, out, k, 0) is Some);
            if p < i {
                assert(out[p] == es[p]);
            } else if p > i {
                assert(!same_key(h, out[i].0, k));
            }
        }
        None => {
            let n = es.len() as int;
            assert(out[n] == (k, v));
            assert(find_key(h, out, k, 0) is Some);
            let p = find_key(h, out, k, 0)->0;
            if p < n {
                assert(out[p] == es[p]);
            }
        }
    }
}

/// Writing under one key leaves what is under every other key as it was.
pub proof fn dict_writes_are_local(h: Heap, es: Seq<(Value, Value)>, k: Value, v: Value, other: Value)
    requires
        unhashable(h, k) is None,
        !same_key(h, k, other),
    ensures lookup_key(h, with_key(h, es, k, v), other) == lookup_key(h, es, other),
{
    let out = with_key(h, es, k, v);
    lemma_find(h, es, k, 0);
    lemma_find(h, es, other, 0);
    lemma_find(h, out, other, 0);
    let at = find_key(h, es, k, 0);
    if at is Some {
        let i = at->0;
        if same_key(h, es[i].0, other) {
            same_key_is_symmetric(h, es[i].0, k);
            same_key_is_transitive(h, k, es[i].0, other);
        }
        assert(out[i].0 == es[i].0);
    }
    match find_key(h, es, other, 0) {
        Some(p) => {
            assert(out[p].0 == es[p].0);
            assert(find_key(h, out, other, 0) is Some);
            let q = find_key(h, out, other, 0)->0;
            if q < p {
                assert(out[q].0 == es[q].0);
            } else if q > p {
                assert(!same_key(h, out[p].0, other));
            }
        }
        None => {
            if find_key(h, out, other, 0) is Some {
                let q = find_key(h, out, other, 0)->0;
                if q < es.len() {
                    assert(out[q].0 == es[q].0);
                }
            }
        }
    }
}

/// No key stands twice, and every key can be one.
pub open spec fn keys_once(h: Heap, es: Seq<(Value, Value)>) -> bool {
    &&& forall|i: int| 0 <= i < es.len() ==> unhashable(h, (#[trigger] es[i]).0) is None
    &&& forall|i: int, j: int| 0 <= i < j < es.len() ==> !same_key(h, (#[trigger] es[i]).0, (#[trigger] es[j]).0)
}

/// Writing keeps every key once, and a key that was there keeps its place.
pub proof fn keys_stay_once(h: Heap, es: Seq<(Value, Value)>, k: Value, v: Value)
    requires
        keys_once(h, es),
        unhashable(h, k) is None,
    ensures
        keys_once(h, with_key(h, es, k, v)),
        es.len() <= with_key(h, es, k, v).len() <= es.len() + 1,
        forall|i: int| 0 <= i < es.len() ==> (#[trigger] with_key(h, es, k, v)[i]).0 == es[i].0,
{
    let out = with_key(h, es, k, v);
    lemma_find(h, es, k, 0);
    assert forall|i: int, j: int| 0 <= i < j < out.len() implies !same_key(h, (#[trigger] out[i]).0, (#[trigger] out[j]).0) by {
        assert(out[i].0 == es[i].0);
        if j < es.len() {
            assert(out[j].0 == es[j].0);
        }
    }
    assert forall|i: int| 0 <= i < out.len() implies unhashable(h, (#[trigger] out[i]).0) is None by {
        if i < es.len() {
            assert(out[i].0 == es[i].0);
        }
    }
}

} // verus!
