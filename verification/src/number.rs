//! The numeric tower: what number a value is, and how numbers compare.
use vstd::prelude::*;
use crate::bigint::{two_pow, BigInt};
use crate::names::float_mag;
use crate::value::{Heap, Value};

verus! {

/// How two values stand to each other.
#[derive(Clone, Copy, Debug, PartialEq, Eq, Structural)]
pub enum Order {
    Less,
    Equal,
    Greater,
    /// Neither: one of them is not a number at all.
    Unordered,
}

/// A number as the language sees it: an exact integer, or the bits of a float.
pub ghost enum Num {
    Int(int),
    Float(u64),
}

/// The number a value is, if it is one. A bool is the integer it stands for.
pub open spec fn num(h: Heap, v: Value) -> Option<Num> {
    match v {
        Value::Bool(b) => Some(Num::Int(if b { 1 } else { 0 })),
        Value::Int(i) => Some(Num::Int(i as int)),
        Value::Big(i) => Some(Num::Int(h.big(i))),
        Value::Float(i) => Some(Num::Float(h.float_bits(i))),
        _ => None,
    }
}

/// A number taken out of the heap.
#[derive(Debug)]
pub enum Number {
    Int(i64),
    Big(BigInt),
    Float(usize),
}

impl Number {
    /// What number this is.
    pub open spec fn is_num(&self, h: Heap, n: Num) -> bool {
        match *self {
            Number::Int(i) => n == Num::Int(i as int),
            Number::Big(b) => n == Num::Int(b@),
            Number::Float(i) => n == Num::Float(h.float_bits(i)),
        }
    }

    /// Whether the number is a float.
    pub fn is_float(&self) -> (r: bool)
        ensures r == (self is Float),
    {
        matches!(self, Number::Float(_))
    }

    /// The integer as a big one; zero for a float, which has none.
    pub fn to_bigint(&self) -> (r: BigInt)
        ensures
            self is Int ==> r@ == self->Int_0,
            self is Big ==> r@ == self->Big_0@,
    {
        match self {
            Number::Int(i) => BigInt::from_i64(*i),
            Number::Big(b) => b.copy(),
            Number::Float(_) => BigInt::from_i64(0),
        }
    }
}

/// The number a value is.
pub fn as_number(h: &Heap, v: Value) -> (r: Option<Number>)
    ensures
        match r {
            Some(n) => num(*h, v) is Some && n.is_num(*h, num(*h, v)->0)
                && (n is Float <==> v is Float) && (n is Float ==> n->Float_0 == v->Float_0)
                && (n is Big <==> v is Big),
            None => num(*h, v) is None,
        },
{
    match v {
        Value::Bool(b) => Some(Number::Int(if b { 1 } else { 0 })),
        Value::Int(i) => Some(Number::Int(i)),
        Value::Big(i) => Some(Number::Big(h.big_copy(i))),
        Value::Float(i) => Some(Number::Float(i)),
        _ => None,
    }
}

/// Whether the bits are those of not-a-number.
pub open spec fn float_is_nan(bits: u64) -> bool {
    float_mag(bits) > 0x7ff0_0000_0000_0000
}

/// A number that orders floats as they are ordered: the magnitude, negated
/// below zero.
pub open spec fn float_key(bits: u64) -> int {
    if bits >= 0x8000_0000_0000_0000 { -float_mag(bits) } else { float_mag(bits) }
}

/// The significand of a finite float, with its sign.
pub open spec fn float_significand(bits: u64) -> int {
    let m = float_mag(bits);
    let s = if m / 0x10_0000_0000_0000 == 0 { m } else { m % 0x10_0000_0000_0000 + 0x10_0000_0000_0000 };
    if bits >= 0x8000_0000_0000_0000 { -s } else { s }
}

/// The exponent of two that goes with [`float_significand`].
pub open spec fn float_exponent(bits: u64) -> int {
    let e = float_mag(bits) / 0x10_0000_0000_0000;
    (if e == 0 { 1 } else { e }) - 1075
}

/// How two integers compare.
pub open spec fn int_order(a: int, b: int) -> Order {
    if a < b { Order::Less } else if a > b { Order::Greater } else { Order::Equal }
}

/// How an integer compares with a float, exactly.
pub open spec fn int_float_order(i: int, bits: u64) -> Order {
    if float_is_nan(bits) {
        Order::Unordered
    } else if float_mag(bits) == 0x7ff0_0000_0000_0000 {
        if bits >= 0x8000_0000_0000_0000 { Order::Greater } else { Order::Less }
    } else if float_exponent(bits) >= 0 {
        int_order(i, float_significand(bits) * two_pow(float_exponent(bits) as nat))
    } else {
        int_order(i * two_pow((-float_exponent(bits)) as nat), float_significand(bits))
    }
}

/// The order seen from the other side.
pub open spec fn flip_order(o: Order) -> Order {
    match o {
        Order::Less => Order::Greater,
        Order::Greater => Order::Less,
        _ => o,
    }
}

/// How two numbers compare.
pub open spec fn num_order(a: Num, b: Num) -> Order {
    match (a, b) {
        (Num::Int(x), Num::Int(y)) => int_order(x, y),
        (Num::Int(x), Num::Float(y)) => int_float_order(x, y),
        (Num::Float(x), Num::Int(y)) => flip_order(int_float_order(y, x)),
        (Num::Float(x), Num::Float(y)) => if float_is_nan(x) || float_is_nan(y) {
            Order::Unordered
        } else {
            int_order(float_key(x), float_key(y))
        },
    }
}

/// Comparing the other way round gives the other answer.
pub proof fn num_order_flips(a: Num, b: Num)
    ensures num_order(b, a) == flip_order(num_order(a, b)),
{
}

fn order_bigs(a: &BigInt, b: &BigInt) -> (r: Order)
    ensures r == int_order(a@, b@),
{
    if a.less(b) { Order::Less } else if b.less(a) { Order::Greater } else { Order::Equal }
}

fn order_int_float(i: &BigInt, bits: u64) -> (r: Order)
    ensures r == int_float_order(i@, bits),
{
    let negative: bool = bits >= 0x8000_0000_0000_0000;
    let m: u64 = bits % 0x8000_0000_0000_0000;
    if m > 0x7ff0_0000_0000_0000 {
        return Order::Unordered;
    }
    if m == 0x7ff0_0000_0000_0000 {
        return if negative { Order::Greater } else { Order::Less };
    }
    let e: u64 = m / 0x10_0000_0000_0000;
    let s: u64 = if e == 0 { m } else { m % 0x10_0000_0000_0000 + 0x10_0000_0000_0000 };
    let signed: i64 = if negative { -(s as i64) } else { s as i64 };
    let f = BigInt::from_i64(signed);
    let exp: u64 = if e == 0 { 1 } else { e };
    if exp >= 1075 {
        let scaled = f.shl(exp - 1075);
        order_bigs(i, &scaled)
    } else {
        let scaled = i.shl(1075 - exp);
        order_bigs(&scaled, &f)
    }
}

fn order_floats(x: u64, y: u64) -> (r: Order)
    ensures r == num_order(Num::Float(x), Num::Float(y)),
{
    let mx: u64 = x % 0x8000_0000_0000_0000;
    let my: u64 = y % 0x8000_0000_0000_0000;
    if mx > 0x7ff0_0000_0000_0000 || my > 0x7ff0_0000_0000_0000 {
        return Order::Unordered;
    }
    let kx: i64 = if x >= 0x8000_0000_0000_0000 { -(mx as i64) } else { mx as i64 };
    let ky: i64 = if y >= 0x8000_0000_0000_0000 { -(my as i64) } else { my as i64 };
    if kx < ky { Order::Less } else if kx > ky { Order::Greater } else { Order::Equal }
}

/// How two numbers compare.
pub fn order_numbers(h: &Heap, a: &Number, b: &Number) -> (r: Order)
    ensures
        forall|x: Num, y: Num| a.is_num(*h, x) && b.is_num(*h, y) ==> r == #[trigger] num_order(x, y),
{
    match (a, b) {
        (Number::Int(x), Number::Int(y)) => {
            if *x < *y { Order::Less } else if *x > *y { Order::Greater } else { Order::Equal }
        }
        (Number::Float(x), Number::Float(y)) => order_floats(h.bits_of(*x), h.bits_of(*y)),
        (Number::Float(x), _) => {
            let i = b.to_bigint();
            match order_int_float(&i, h.bits_of(*x)) {
                Order::Less => Order::Greater,
                Order::Greater => Order::Less,
                Order::Equal => Order::Equal,
                Order::Unordered => Order::Unordered,
            }
        }
        (_, Number::Float(y)) => {
            let i = a.to_bigint();
            order_int_float(&i, h.bits_of(*y))
        }
        _ => {
            let x = a.to_bigint();
            let y = b.to_bigint();
            order_bigs(&x, &y)
        }
    }
}

} // verus!
