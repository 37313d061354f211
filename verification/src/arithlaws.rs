//! What holds of repeating and shifting.
use vstd::prelude::*;
use vstd::arithmetic::power::{lemma_pow_increases, lemma_pow_positive};
use crate::arith::{binary_result, holds_int, is_repetition, is_sequence, lemma_repetition, repeat_count, sequences_grew, unchanged, Arith};
use crate::bigint::{floor_div, lemma_floor_unique, two_pow};
use crate::code::BinOp;
use crate::exc::VErr;
use crate::number::{num, Num};
use crate::value::{Heap, Value};

verus! {

/// Repeating a sequence leaves it alone and gives one of the same kind that goes
/// through it again and again, the same whichever way round it is written. A
/// count below zero is none.
pub proof fn repetition_cycles(h: Heap, g: Heap, f: Heap, s: Value, n: Value, right: Result<Arith, VErr>, left: Result<Arith, VErr>)
    requires
        is_sequence(h, s),
        repeat_count(n) is Some,
        sequences_grew(h, g),
        binary_result(h, g, BinOp::Mul, s, n, right),
        binary_result(h, f, BinOp::Mul, n, s, left),
    ensures
        right == left,
        unchanged(h, g, s),
        right matches Ok(Arith::Done(v)) && is_repetition(h, g, s, repeat_count(n)->0, v) && is_repetition(h, f, s, repeat_count(n)->0, v),
{
    let k = repeat_count(n)->0;
    lemma_repetition(h, g, s, k, s, n, right);
    lemma_repetition(h, f, s, k, n, s, left);
}

/// Shifting an integer to the left multiplies it by a power of two, and shifting
/// it back gives it again, however far.
pub proof fn shifting_back(h: Heap, g: Heap, f: Heap, v: Value, x: int, n: i64, left: Result<Arith, VErr>, back: Result<Arith, VErr>)
    requires
        num(h, v) == Some(Num::Int(x)),
        n >= 0,
        binary_result(h, g, BinOp::Shl, v, Value::Int(n), left),
        left matches Ok(Arith::Done(w)) ==> binary_result(g, f, BinOp::Shr, w, Value::Int(n), back),
    ensures
        left matches Ok(Arith::Done(w)) && holds_int(g, w, x * two_pow(n as nat)),
        back matches Ok(Arith::Done(u)) && holds_int(f, u, x),
{
    let p = two_pow(n as nat);
    lemma_pow_positive(2, n as nat);
    let w = (left->Ok_0)->Done_0;
    assert(num(g, w) == Some(Num::Int(x * p)));
    assert(x * p == p * x + 0) by (nonlinear_arith);
    lemma_floor_unique(x * p, p, x, 0);
}

/// Shifting to the right is dividing by a power of two and rounding down; an
/// inline integer shifted by all its places is 0, or -1 below zero.
pub proof fn far_shifts_collapse(h: Heap, g: Heap, x: i64, n: i64, r: Result<Arith, VErr>)
    requires
        n >= 0,
        binary_result(h, g, BinOp::Shr, Value::Int(x), Value::Int(n), r),
    ensures
        r matches Ok(Arith::Done(w)) && holds_int(g, w, floor_div(x as int, two_pow(n as nat))),
        n >= 63 ==> r == Ok::<Arith, VErr>(Arith::Done(Value::Int(if x < 0 { -1i64 } else { 0i64 }))),
{
    if n >= 63 {
        let p = two_pow(n as nat);
        lemma_pow_increases(2, 63, n as nat);
        assert(two_pow(63) == 0x8000_0000_0000_0000) by {
            lemma_two_pow_63();
        }
        let q: int = if x < 0 { -1 } else { 0 };
        assert(x as int == p * q + (x as int - p * q)) by (nonlinear_arith);
        assert(p * -1 == -p && p * 0 == 0) by (nonlinear_arith);
        lemma_floor_unique(x as int, p, q, x as int - p * q);
    }
}

proof fn lemma_two_pow_63()
    ensures two_pow(63) == 0x8000_0000_0000_0000,
{
    vstd::arithmetic::power2::lemma2_to64();
    vstd::arithmetic::power2::lemma_pow2_unfold(64);
    vstd::arithmetic::power2::lemma_pow2(63);
}

} // verus!
