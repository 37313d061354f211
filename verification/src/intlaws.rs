//! What the arithmetic operators compute, instruction by instruction.
use vstd::prelude::*;
use vstd::arithmetic::div_mod::{lemma_fundamental_div_mod, lemma_fundamental_div_mod_converse, lemma_hoist_over_denominator, lemma_mod_bound, lemma_mod_multiples_vanish};
use vstd::arithmetic::power::{lemma_pow0, lemma_pow_adds, lemma_pow_positive, pow};
use crate::arith::{binary_result, bit_kind, gives_int, sequences_grew, Arith, FloatOp};
use crate::bigint::{is_bit_op, limb_at, limb_op};
use crate::code::{BinOp, Op};
use crate::exc::{Exc, VErr};
use crate::laws::quotient_and_remainder;
use crate::machine::{HostCall, Step, Vm};
use crate::ops::arith_given;
use crate::relationlaws::whole;
use crate::step::step_result;
use crate::value::{Heap, Value};

verus! {

/// The left operand of an instruction with two.
pub open spec fn left(a: Vm) -> Value {
    a.stack()[a.stack().len() - 2]
}

/// The right operand of an instruction with two.
pub open spec fn right(a: Vm) -> Value {
    a.stack()[a.stack().len() - 1]
}

/// Both operands are integers.
pub open spec fn two_integers(a: Vm, x: int, y: int) -> bool {
    a.has(2) && whole(a.heap, left(a)) == Some(x) && whole(a.heap, right(a)) == Some(y)
}

/// The operands have given way to the integer `n`.
pub open spec fn leaves(a: Vm, b: Vm, n: int, r: Step) -> bool {
    &&& r is Next
    &&& b.stack().len() == a.stack().len() - 1
    &&& b.stack().drop_last() == a.stack().take(a.stack().len() - 2)
    &&& whole(b.heap, b.stack().last()) == Some(n)
}

/// A fault of this class.
pub open spec fn fails_as(r: Step, e: Exc) -> bool {
    r matches Step::Fault(x) && x@.0 == e
}

proof fn lemma_binary(a: Vm, b: Vm, op: BinOp, r: Step) -> (out: (Heap, Result<Arith, VErr>))
    requires
        step_result(a, b, Op::Binary(op), r),
        a.has(2),
        !(left(a) is Instance),
    ensures
        binary_result(a.heap, out.0, op, left(a), right(a), out.1),
        sequences_grew(a.heap, out.0),
        arith_given(a, b, 2, out.0, out.1, r),
        r is Next ==> b.stack().drop_last() =~= a.stack().take(a.stack().len() - 2),
{
    let x = left(a);
    assert(a.heap.method_of(x, "__add__"@) is None);
    choose|h: Heap, v: Result<Arith, VErr>| #[trigger] binary_result(a.heap, h, op, left(a), right(a), v) && sequences_grew(a.heap, h)
        && arith_given(a, b, 2, h, v, r)
}

/// `+`, `-` and `*` of integers are exact, whatever their size.
pub proof fn sums_and_products_are_exact(a: Vm, b: Vm, op: BinOp, x: int, y: int, r: Step)
    requires
        step_result(a, b, Op::Binary(op), r),
        two_integers(a, x, y),
    ensures
        op == BinOp::Add ==> leaves(a, b, x + y, r),
        op == BinOp::Sub ==> leaves(a, b, x - y, r),
        op == BinOp::Mul ==> leaves(a, b, x * y, r),
{
    let (h, v) = lemma_binary(a, b, op, r);
}

/// `//` rounds down and `%` takes the sign of the divisor, so that the quotient
/// times the divisor and the remainder make up the dividend; to divide by zero
/// is a ZeroDivisionError.
pub proof fn division_rounds_down(a: Vm, b: Vm, op: BinOp, x: int, y: int, r: Step)
    requires
        step_result(a, b, Op::Binary(op), r),
        two_integers(a, x, y),
    ensures
        y == 0 && (op == BinOp::FloorDiv || op == BinOp::Mod || op == BinOp::Div) ==> fails_as(r, Exc::ZeroDivisionError),
        y > 0 && op == BinOp::FloorDiv ==> exists|q: int| #[trigger] leaves(a, b, q, r) && y * q <= x < y * q + y,
        y < 0 && op == BinOp::FloorDiv ==> exists|q: int| #[trigger] leaves(a, b, q, r) && y * q + y < x <= y * q,
        y > 0 && op == BinOp::Mod ==> exists|m: int, q: int| #[trigger] leaves(a, b, m, r) && 0 <= m < y && x == #[trigger] (y * q) + m,
        y < 0 && op == BinOp::Mod ==> exists|m: int, q: int| #[trigger] leaves(a, b, m, r) && y < m <= 0 && x == #[trigger] (y * q) + m,
{
    let (h, v) = lemma_binary(a, b, op, r);
    if y != 0 {
        quotient_and_remainder(x, y);
        let q = crate::bigint::floor_div(x, y);
        let m = crate::bigint::floor_mod(x, y);
        assert(x == y * q + m);
        if op == BinOp::FloorDiv {
            assert(leaves(a, b, q, r));
        }
        if op == BinOp::Mod {
            assert(leaves(a, b, m, r));
        }
    }
}

/// From one on, each of these is `x` times the one before.
pub open spec fn multiplied(x: int, t: Seq<int>) -> bool {
    t.len() > 0 && t[0] == 1 && forall|i: int| 0 < i < t.len() ==> #[trigger] t[i] == x * t[i - 1]
}

/// `n` is one multiplied by `x` `k` times over.
pub open spec fn is_power(x: int, k: nat, n: int) -> bool {
    exists|t: Seq<int>| #[trigger] multiplied(x, t) && t.len() == k + 1 && t[k as int] == n
}

proof fn lemma_power(x: int, k: nat)
    ensures is_power(x, k, pow(x, k)),
{
    reveal(pow);
    lemma_pow0(x);
    let t = Seq::new(k + 1, |i: int| pow(x, i as nat));
    assert(multiplied(x, t));
}

/// `**` of integers multiplies, exactly, where the exponent is not negative.
pub proof fn powers_multiply(a: Vm, b: Vm, x: int, y: int, r: Step)
    requires
        step_result(a, b, Op::Binary(BinOp::Pow), r),
        two_integers(a, x, y),
        y >= 0,
        !(right(a) is Big),
    ensures exists|n: int| #[trigger] leaves(a, b, n, r) && is_power(x, y as nat, n),
{
    let (h, v) = lemma_binary(a, b, BinOp::Pow, r);
    lemma_power(x, y as nat);
    assert(leaves(a, b, pow(x, y as nat), r));
}

/// `<<` multiplies by two that many times; `>>` halves, rounding down; a
/// negative count is a ValueError.
pub proof fn shifts_double_and_halve(a: Vm, b: Vm, op: BinOp, x: int, y: int, r: Step)
    requires
        step_result(a, b, Op::Binary(op), r),
        two_integers(a, x, y),
        op == BinOp::Shl || op == BinOp::Shr,
    ensures
        y < 0 ==> fails_as(r, Exc::ValueError),
        y >= 0 && !(right(a) is Big) && op == BinOp::Shl ==> exists|t: int| #[trigger] is_power(2, y as nat, t) && leaves(a, b, x * t, r),
        y >= 0 && !(right(a) is Big) && op == BinOp::Shr
            ==> exists|t: int, n: int| #[trigger] is_power(2, y as nat, t) && #[trigger] leaves(a, b, n, r) && t * n <= x < t * n + t,
{
    let (h, v) = lemma_binary(a, b, op, r);
    if y >= 0 && !(right(a) is Big) {
        let t = pow(2, y as nat);
        lemma_power(2, y as nat);
        lemma_pow_positive(2, y as nat);
        if op == BinOp::Shr {
            quotient_and_remainder(x, t);
            assert(leaves(a, b, crate::bigint::floor_div(x, t), r));
        }
    }
}

/// Which host operation each operator of floats is.
pub open spec fn on_floats(op: BinOp, f: FloatOp) -> bool {
    match op {
        BinOp::Add => f == FloatOp::Add,
        BinOp::Sub => f == FloatOp::Sub,
        BinOp::Mul => f == FloatOp::Mul,
        BinOp::Div => f == FloatOp::Div,
        BinOp::FloorDiv => f == FloatOp::FloorDiv,
        BinOp::Mod => f == FloatOp::Mod,
        BinOp::Pow => f == FloatOp::Pow,
        _ => false,
    }
}

/// A number, integer or float.
pub open spec fn is_number(h: Heap, v: Value) -> bool {
    whole(h, v) is Some || v is Float
}

/// An operator on numbers of which one is a float, and `/` on any, is a
/// division by zero or the host's operation of that name on the operands in
/// their order; the bit operators refuse floats.
pub proof fn floats_go_to_the_host(a: Vm, b: Vm, op: BinOp, r: Step)
    requires
        step_result(a, b, Op::Binary(op), r),
        a.has(2),
        is_number(a.heap, left(a)),
        is_number(a.heap, right(a)),
        left(a) is Float || right(a) is Float || op == BinOp::Div,
    ensures
        forall|f: FloatOp| #[trigger] on_floats(op, f) ==> fails_as(r, Exc::ZeroDivisionError)
            || (r matches Step::Host(c) && c.0 == HostCall::Float(f, left(a), right(a))),
        op == BinOp::Add || op == BinOp::Sub || op == BinOp::Mul || op == BinOp::Pow ==> !fails_as(r, Exc::ZeroDivisionError),
        (forall|f: FloatOp| !#[trigger] on_floats(op, f)) ==> fails_as(r, Exc::TypeError),
{
    let (h, v) = lemma_binary(a, b, op, r);
    if !crate::arith::ints_only(op) {
        assert(on_floats(op, crate::arith::float_op(op)));
    }
    assert forall|f: FloatOp| #[trigger] on_floats(op, f) implies f == crate::arith::float_op(op) by {
    }
}

/// Concatenation: `+` of two texts, octet strings, lists or tuples is the one
/// followed by the other, as a new one.
pub proof fn plus_joins(a: Vm, b: Vm, r: Step)
    requires
        step_result(a, b, Op::Binary(BinOp::Add), r),
        a.has(2),
    ensures
        left(a) is Str && right(a) is Str ==> r is Next && b.stack().last() is Str
            && b.heap.text(b.stack().last()->Str_0) == a.heap.text(left(a)->Str_0) + a.heap.text(right(a)->Str_0),
        left(a) is Bytes && right(a) is Bytes ==> r is Next && b.stack().last() is Bytes
            && b.heap.octets(b.stack().last()->Bytes_0) == a.heap.octets(left(a)->Bytes_0) + a.heap.octets(right(a)->Bytes_0),
        left(a) is List && right(a) is List ==> r is Next && b.stack().last() is List
            && b.heap.list(b.stack().last()->List_0) == a.heap.list(left(a)->List_0) + a.heap.list(right(a)->List_0),
        left(a) is Tuple && right(a) is Tuple ==> r is Next && b.stack().last() is Tuple
            && b.heap.tuple(b.stack().last()->Tuple_0) == a.heap.tuple(left(a)->Tuple_0) + a.heap.tuple(right(a)->Tuple_0),
        left(a) is Str && !(right(a) is Str) ==> fails_as(r, Exc::TypeError),
        left(a) is List && !(right(a) is List) ==> fails_as(r, Exc::TypeError),
{
    if !(left(a) is Instance) {
        let (h, v) = lemma_binary(a, b, BinOp::Add, r);
    }
}

/// `-v`, `+v` and `~v` of an integer, and `not v`.
pub proof fn unary_operators(a: Vm, b: Vm, op: Op, x: int, r: Step)
    requires
        step_result(a, b, op, r),
        a.has(1),
        whole(a.heap, a.stack().last()) == Some(x),
    ensures
        op == Op::UnaryNeg ==> r is Next && whole(b.heap, b.stack().last()) == Some(-x) && b.stack().len() == a.stack().len(),
        op == Op::UnaryPos ==> r is Next && whole(b.heap, b.stack().last()) == Some(x) && b.stack().len() == a.stack().len(),
        op == Op::UnaryInvert ==> r is Next && whole(b.heap, b.stack().last()) == Some(-x - 1) && b.stack().len() == a.stack().len(),
        op == Op::UnaryNot ==> r is Next && b.stack().last() == Value::Bool(x == 0) && b.stack().len() == a.stack().len(),
{
}

/// The bit of `z` at place `k`, counted from the lowest, in two's complement.
pub open spec fn bit(z: int, k: nat) -> bool {
    (z / pow(2, k)) % 2 == 1
}

proof fn lemma_radix(i: nat)
    ensures crate::bigint::rpow(i) == pow(2, 32 * i),
    decreases i,
{
    if i == 0 {
        lemma_pow0(2);
    } else {
        lemma_radix((i - 1) as nat);
        lemma_pow_adds(2, 32, (32 * (i - 1)) as nat);
        vstd::arithmetic::power2::lemma2_to64();
        vstd::arithmetic::power2::lemma_pow2(32);
    }
}

proof fn lemma_divide_twice(z: int, c: int, d: int)
    requires
        c > 0,
        d > 0,
    ensures (z / c) / d == z / (c * d),
{
    let q = (z / c) / d;
    let s = (z / c) % d;
    let t = z % c;
    lemma_fundamental_div_mod(z, c);
    lemma_fundamental_div_mod(z / c, d);
    lemma_mod_bound(z, c);
    lemma_mod_bound(z / c, d);
    assert(z == q * (c * d) + (c * s + t)) by (nonlinear_arith)
        requires z == c * (z / c) + t, z / c == d * q + s;
    assert(0 <= c * s + t < c * d) by (nonlinear_arith)
        requires 0 <= t < c, 0 <= s < d, c > 0;
    lemma_fundamental_div_mod_converse(z, c * d, q, c * s + t);
}

proof fn lemma_limb_bit(z: int, i: nat, j: nat)
    requires j < 32,
    ensures bit(z, 32 * i + j) == ((limb_at(z, i) / pow(2, j)) % 2 == 1),
{
    lemma_radix(i);
    lemma_pow_positive(2, 32 * i);
    lemma_pow_positive(2, j);
    lemma_pow_adds(2, 32 * i, j);
    let w = z / pow(2, 32 * i);
    lemma_divide_twice(z, pow(2, 32 * i), pow(2, j));
    let top = 0x1_0000_0000int;
    lemma_fundamental_div_mod(w, top);
    let l = w % top;
    let q = w / top;
    let p = pow(2, j);
    let m = pow(2, (31 - j) as nat);
    lemma_pow_adds(2, j, (32 - j) as nat);
    lemma_pow_adds(2, 1, (31 - j) as nat);
    vstd::arithmetic::power2::lemma2_to64();
    vstd::arithmetic::power2::lemma_pow2(32);
    vstd::arithmetic::power2::lemma_pow2(1);
    assert(pow(2, (32 - j) as nat) == 2 * m);
    assert(top == p * (2 * m));
    assert(top * q == p * (2 * m * q)) by (nonlinear_arith)
        requires top == p * (2 * m);
    lemma_hoist_over_denominator(l, 2 * m * q, p as nat);
    assert(l / p + 2 * m * q == (l + 2 * m * q * p) / p);
    assert(p * (2 * m * q) == 2 * m * q * p) by (nonlinear_arith);
    assert(w / p == l / p + 2 * m * q);
    lemma_mod_multiples_vanish(m * q, l / p, 2);
    assert(2 * m * q == 2 * (m * q)) by (nonlinear_arith);
    assert(((m * q) * 2 + l / p) % 2 == (l / p) % 2);
}

proof fn lemma_limb_ops(x: u32, y: u32, j: u32)
    requires j < 32,
    ensures
        ((x & y) >> j) % 2 == 1 <==> (x >> j) % 2 == 1 && (y >> j) % 2 == 1,
        ((x | y) >> j) % 2 == 1 <==> (x >> j) % 2 == 1 || (y >> j) % 2 == 1,
        ((x ^ y) >> j) % 2 == 1 <==> ((x >> j) % 2 == 1) != ((y >> j) % 2 == 1),
{
    assert(((x & y) >> j) % 2 == 1 <==> (x >> j) % 2 == 1 && (y >> j) % 2 == 1) by (bit_vector)
        requires j < 32;
    assert(((x | y) >> j) % 2 == 1 <==> (x >> j) % 2 == 1 || (y >> j) % 2 == 1) by (bit_vector)
        requires j < 32;
    assert(((x ^ y) >> j) % 2 == 1 <==> ((x >> j) % 2 == 1) != ((y >> j) % 2 == 1)) by (bit_vector)
        requires j < 32;
}

proof fn lemma_shift(x: u32, j: nat)
    requires j < 32,
    ensures (x >> (j as u32)) as int == x as int / pow(2, j),
{
    vstd::bits::lemma_u32_shr_is_div(x, j as u32);
    vstd::arithmetic::power2::lemma_pow2(j);
}

/// `&`, `|` and `^` of integers go bit by bit, the sign's bits without end
/// among them.
pub proof fn bit_operators_go_bit_by_bit(a: Vm, b: Vm, op: BinOp, x: int, y: int, k: nat, r: Step)
    requires
        step_result(a, b, Op::Binary(op), r),
        two_integers(a, x, y),
        op == BinOp::BitAnd || op == BinOp::BitOr || op == BinOp::BitXor,
        !(left(a) is Bool && right(a) is Bool),
    ensures
        exists|n: int| #[trigger] leaves(a, b, n, r) && bit(n, k) == (match op {
            BinOp::BitAnd => bit(x, k) && bit(y, k),
            BinOp::BitOr => bit(x, k) || bit(y, k),
            _ => bit(x, k) != bit(y, k),
        }),
{
    let (h, v) = lemma_binary(a, b, op, r);
    let kind = bit_kind(op)->0;
    let n = choose|n: int| #[trigger] gives_int(h, v, n) && is_bit_op(kind, x, y, n);
    assert(leaves(a, b, n, r));
    let i = (k / 32) as nat;
    let j = (k % 32) as nat;
    assert(k == 32 * i + j);
    lemma_limb_bit(n, i, j);
    lemma_limb_bit(x, i, j);
    lemma_limb_bit(y, i, j);
    lemma_radix(i);
    lemma_pow_positive(2, 32 * i);
    lemma_mod_bound(x / crate::bigint::rpow(i), crate::bigint::radix());
    lemma_mod_bound(y / crate::bigint::rpow(i), crate::bigint::radix());
    let p = limb_at(x, i) as u32;
    let q = limb_at(y, i) as u32;
    assert(limb_at(n, i) == limb_op(kind, p, q));
    lemma_limb_ops(p, q, j as u32);
    lemma_shift(p, j);
    lemma_shift(q, j);
    lemma_shift(limb_op(kind, p, q), j);
}

/// `&`, `|` and `^` of two bools are bools: and, or, and one but not both.
pub proof fn bit_operators_on_bools(a: Vm, b: Vm, op: BinOp, p: bool, q: bool, r: Step)
    requires
        step_result(a, b, Op::Binary(op), r),
        a.has(2),
        left(a) == Value::Bool(p),
        right(a) == Value::Bool(q),
    ensures
        op == BinOp::BitAnd ==> r is Next && b.stack().last() == Value::Bool(p && q),
        op == BinOp::BitOr ==> r is Next && b.stack().last() == Value::Bool(p || q),
        op == BinOp::BitXor ==> r is Next && b.stack().last() == Value::Bool(p != q),
{
    let (h, v) = lemma_binary(a, b, op, r);
}

} // verus!
