//! Numeric and sequence operators.
//!
//! Integers stay in an `i64` and grow into a big one only where they must. An
//! operation that involves a float is not computed here: the operators say
//! which float operation is asked for, and the host performs it.
use vstd::prelude::*;
use vstd::string::*;
use vstd::arithmetic::power::pow;
use crate::bigint::{lemma_floor_unique, bool_op, floor_div, floor_mod, is_bit_op, two_pow, BigInt, BitKind};
use crate::code::BinOp;
use crate::exc::{fault, type_error, Exc, VErr};
use crate::names::{float_is_zero, is_zero_float, kind_name, kind_name_of};
use crate::number::{as_number, num, Num, Number};
use crate::text::{join2, join5};
use crate::value::{Heap, Value};

verus! {

/// A floating-point operation the host is asked for.
#[derive(Clone, Copy, Debug, PartialEq, Eq, Structural)]
pub enum FloatOp {
    Neg,
    Add,
    Sub,
    Mul,
    Div,
    FloorDiv,
    Mod,
    Pow,
}

/// What an operator comes to.
#[derive(Clone, Copy, Debug, PartialEq, Eq, Structural)]
pub enum Arith {
    /// This value.
    Done(Value),
    /// This float operation on these two numbers.
    Float(FloatOp, Value, Value),
}

/// `v` is the integer `n`: inline where it fits, a big one otherwise.
pub open spec fn holds_int(h: Heap, v: Value, n: int) -> bool {
    if i64::MIN <= n <= i64::MAX {
        v == Value::Int(n as i64)
    } else {
        v matches Value::Big(i) && i < h.bigs@.len() && h.big(i) == n
    }
}

/// Only big integers were added between `a` and `b`.
pub open spec fn bigs_grew(a: Heap, b: Heap) -> bool {
    &&& b == (Heap { bigs: b.bigs, ..a })
    &&& a.bigs@.is_prefix_of(b.bigs@)
}

/// The value of `n`, inline where it fits.
pub fn from_bigint(h: &mut Heap, n: BigInt) -> (r: Value)
    ensures
        holds_int(*final(h), r, n@),
        bigs_grew(*old(h), *final(h)),
{
    match n.to_i64() {
        Some(i) => Value::Int(i),
        None => h.alloc_big(n),
    }
}

/// The message of a unary operator applied to the wrong type.
pub open spec fn unary_text(h: Heap, sym: Seq<char>, v: Value) -> Seq<char> {
    "bad operand type for unary "@ + sym + ": '"@ + kind_name(h, v) + "'"@
}

fn unary_err(h: &Heap, sym: &str, v: Value) -> (r: VErr)
    ensures r@ == (Exc::TypeError, unary_text(*h, sym@, v)),
{
    type_error(join5("bad operand type for unary ", sym, ": '", kind_name_of(h, v), "'"))
}

/// The message of a binary operator applied to the wrong types.
pub open spec fn operands_text(sym: Seq<char>, a: Seq<char>, b: Seq<char>) -> Seq<char> {
    "unsupported operand type(s) for "@ + sym + ": '"@ + a + "' and '"@ + b + "'"@
}

/// The fault of a binary operator applied to the wrong types.
pub fn operands_err(sym: &str, a: &str, b: &str) -> (r: VErr)
    ensures r@ == (Exc::TypeError, operands_text(sym@, a@, b@)),
{
    let s = join5("unsupported operand type(s) for ", sym, ": '", a, "' and '");
    let t = join2(s.as_str(), b);
    type_error(join2(t.as_str(), "'"))
}

/// What negating `v` comes to.
pub open spec fn neg_result(h: Heap, h2: Heap, v: Value, r: Result<Arith, VErr>) -> bool {
    match num(h, v) {
        Some(Num::Int(x)) => r matches Ok(Arith::Done(w)) && holds_int(h2, w, -x),
        Some(Num::Float(_)) => r == Ok::<Arith, VErr>(Arith::Float(FloatOp::Neg, v, v)),
        None => r matches Err(e) && e@ == (Exc::TypeError, unary_text(h, "-"@, v)),
    }
}

/// `-v`.
pub fn neg(h: &mut Heap, v: Value) -> (r: Result<Arith, VErr>)
    ensures
        neg_result(*old(h), *final(h), v, r),
        bigs_grew(*old(h), *final(h)),
{
    match as_number(h, v) {
        Some(Number::Float(_)) => Ok(Arith::Float(FloatOp::Neg, v, v)),
        Some(n) => {
            let b = n.to_bigint().neg();
            Ok(Arith::Done(from_bigint(h, b)))
        }
        None => Err(unary_err(h, "-", v)),
    }
}

/// What `+v` comes to.
pub open spec fn pos_result(h: Heap, h2: Heap, v: Value, r: Result<Value, VErr>) -> bool {
    match num(h, v) {
        Some(Num::Int(x)) => r matches Ok(w) && holds_int(h2, w, x),
        Some(Num::Float(_)) => r == Ok::<Value, VErr>(v),
        None => r matches Err(e) && e@ == (Exc::TypeError, unary_text(h, "+"@, v)),
    }
}

/// `+v`: the number itself, a bool as the integer it stands for.
pub fn pos(h: &mut Heap, v: Value) -> (r: Result<Value, VErr>)
    ensures
        pos_result(*old(h), *final(h), v, r),
        bigs_grew(*old(h), *final(h)),
{
    match as_number(h, v) {
        Some(Number::Float(_)) => Ok(v),
        Some(n) => {
            let b = n.to_bigint();
            Ok(from_bigint(h, b))
        }
        None => Err(unary_err(h, "+", v)),
    }
}

/// What `~v` comes to.
pub open spec fn invert_result(h: Heap, h2: Heap, v: Value, r: Result<Value, VErr>) -> bool {
    match num(h, v) {
        Some(Num::Int(x)) => r matches Ok(w) && holds_int(h2, w, -x - 1),
        _ => r matches Err(e) && e@ == (Exc::TypeError, unary_text(h, "~"@, v)),
    }
}

/// `~v`: minus the number, minus one. A float has no bits to complement.
pub fn invert(h: &mut Heap, v: Value) -> (r: Result<Value, VErr>)
    ensures
        invert_result(*old(h), *final(h), v, r),
        bigs_grew(*old(h), *final(h)),
{
    match as_number(h, v) {
        Some(Number::Float(_)) => Err(unary_err(h, "~", v)),
        Some(n) => {
            let b = n.to_bigint().not();
            Ok(from_bigint(h, b))
        }
        None => Err(unary_err(h, "~", v)),
    }
}

/// The symbol an operator is written with.
pub open spec fn op_symbol(op: BinOp) -> Seq<char> {
    match op {
        BinOp::Add => "+"@,
        BinOp::Sub => "-"@,
        BinOp::Mul => "*"@,
        BinOp::Div => "/"@,
        BinOp::FloorDiv => "//"@,
        BinOp::Mod => "%"@,
        BinOp::Pow => "**"@,
        BinOp::BitAnd => "&"@,
        BinOp::BitOr => "|"@,
        BinOp::BitXor => "^"@,
        BinOp::Shl => "<<"@,
        BinOp::Shr => ">>"@,
    }
}

/// The symbol an operator is written with.
pub fn arith_symbol(op: BinOp) -> (r: &'static str)
    ensures r@ == op_symbol(op),
{
    match op {
        BinOp::Add => "+",
        BinOp::Sub => "-",
        BinOp::Mul => "*",
        BinOp::Div => "/",
        BinOp::FloorDiv => "//",
        BinOp::Mod => "%",
        BinOp::Pow => "**",
        BinOp::BitAnd => "&",
        BinOp::BitOr => "|",
        BinOp::BitXor => "^",
        BinOp::Shl => "<<",
        BinOp::Shr => ">>",
    }
}

/// The method an arithmetic operator calls on an instance; the bitwise
/// operators have none.
pub open spec fn op_dunder(op: BinOp) -> Option<Seq<char>> {
    match op {
        BinOp::Add => Some("__add__"@),
        BinOp::Sub => Some("__sub__"@),
        BinOp::Mul => Some("__mul__"@),
        BinOp::Div => Some("__truediv__"@),
        BinOp::FloorDiv => Some("__floordiv__"@),
        BinOp::Mod => Some("__mod__"@),
        BinOp::Pow => Some("__pow__"@),
        _ => None,
    }
}

/// The method an arithmetic operator calls on an instance.
pub fn arith_dunder(op: BinOp) -> (r: Option<&'static str>)
    ensures
        match r {
            Some(s) => op_dunder(op) == Some(s@),
            None => op_dunder(op) is None,
        },
{
    match op {
        BinOp::Add => Some("__add__"),
        BinOp::Sub => Some("__sub__"),
        BinOp::Mul => Some("__mul__"),
        BinOp::Div => Some("__truediv__"),
        BinOp::FloorDiv => Some("__floordiv__"),
        BinOp::Mod => Some("__mod__"),
        BinOp::Pow => Some("__pow__"),
        _ => None,
    }
}

/// Which bitwise operator this is, if it is one.
pub open spec fn bit_kind(op: BinOp) -> Option<BitKind> {
    match op {
        BinOp::BitAnd => Some(BitKind::And),
        BinOp::BitOr => Some(BitKind::Or),
        BinOp::BitXor => Some(BitKind::Xor),
        _ => None,
    }
}

/// Whether the operator takes integers only.
pub open spec fn ints_only(op: BinOp) -> bool {
    bit_kind(op) is Some || op == BinOp::Shl || op == BinOp::Shr
}

/// The float operation that an operator asks for.
pub open spec fn float_op(op: BinOp) -> FloatOp {
    match op {
        BinOp::Add => FloatOp::Add,
        BinOp::Sub => FloatOp::Sub,
        BinOp::Mul => FloatOp::Mul,
        BinOp::Div => FloatOp::Div,
        BinOp::FloorDiv => FloatOp::FloorDiv,
        BinOp::Mod => FloatOp::Mod,
        _ => FloatOp::Pow,
    }
}

/// Whether a number is zero.
pub open spec fn num_is_zero(n: Num) -> bool {
    match n {
        Num::Int(x) => x == 0,
        Num::Float(bits) => float_is_zero(bits),
    }
}

/// What an operator that involves a float comes to.
pub open spec fn float_result(op: BinOp, a: Value, b: Value, y: Num, r: Result<Arith, VErr>) -> bool {
    if num_is_zero(y) && (op == BinOp::Div || op == BinOp::FloorDiv || op == BinOp::Mod) {
        r matches Err(e) && e@ == (Exc::ZeroDivisionError, match op {
            BinOp::Div => "division by zero"@,
            BinOp::FloorDiv => "float floor division by zero"@,
            _ => "float modulo by zero"@,
        })
    } else {
        r == Ok::<Arith, VErr>(Arith::Float(float_op(op), a, b))
    }
}

/// `r` is the integer `n`, in the heap `h2`.
pub open spec fn gives_int(h2: Heap, r: Result<Arith, VErr>, n: int) -> bool {
    r matches Ok(Arith::Done(w)) && holds_int(h2, w, n)
}

/// The outcome is a fault of this class and message.
pub open spec fn gives_err(r: Result<Arith, VErr>, class: Exc, text: Seq<char>) -> bool {
    r matches Err(e) && e@ == (class, text)
}

/// What an operator on two integers comes to.
pub open spec fn int_result(h2: Heap, op: BinOp, a: Value, b: Value, x: int, y: int, r: Result<Arith, VErr>) -> bool {
    match op {
        BinOp::Add => gives_int(h2, r, x + y),
        BinOp::Sub => gives_int(h2, r, x - y),
        BinOp::Mul => gives_int(h2, r, x * y),
        BinOp::Div => float_result(op, a, b, Num::Int(y), r),
        BinOp::FloorDiv => if y == 0 {
            gives_err(r, Exc::ZeroDivisionError, "integer division or modulo by zero"@)
        } else {
            gives_int(h2, r, floor_div(x, y))
        },
        BinOp::Mod => if y == 0 {
            gives_err(r, Exc::ZeroDivisionError, "integer division or modulo by zero"@)
        } else {
            gives_int(h2, r, floor_mod(x, y))
        },
        BinOp::Pow => if b is Big {
            gives_err(r, Exc::RuntimeError, "exponent too large"@)
        } else if y < 0 {
            r == Ok::<Arith, VErr>(Arith::Float(FloatOp::Pow, a, b))
        } else {
            gives_int(h2, r, pow(x, y as nat))
        },
        BinOp::Shl => if y < 0 {
            gives_err(r, Exc::ValueError, "negative shift count"@)
        } else if b is Big {
            gives_err(r, Exc::RuntimeError, "shift count too large"@)
        } else {
            gives_int(h2, r, x * two_pow(y as nat))
        },
        BinOp::Shr => if y < 0 {
            gives_err(r, Exc::ValueError, "negative shift count"@)
        } else if b is Big {
            gives_err(r, Exc::RuntimeError, "shift count too large"@)
        } else {
            gives_int(h2, r, floor_div(x, two_pow(y as nat)))
        },
        _ => match (a, b) {
            (Value::Bool(p), Value::Bool(q)) => r == Ok::<Arith, VErr>(
                Arith::Done(Value::Bool(bool_op(bit_kind(op)->0, p, q)))),
            _ => exists|n: int| #[trigger] gives_int(h2, r, n) && is_bit_op(bit_kind(op)->0, x, y, n),
        },
    }
}

/// What an operator on two numbers comes to.
pub open spec fn num_result(h2: Heap, op: BinOp, a: Value, b: Value, x: Num, y: Num, r: Result<Arith, VErr>) -> bool {
    match (x, y) {
        (Num::Int(p), Num::Int(q)) => int_result(h2, op, a, b, p, q, r),
        _ => float_result(op, a, b, y, r),
    }
}

/// `n` copies of `s` in a row.
pub open spec fn repeated<T>(s: Seq<T>, n: nat) -> Seq<T>
    decreases n,
{
    if n == 0 { Seq::empty() } else { repeated(s, (n - 1) as nat) + s }
}

/// The number of repetitions a value asks for.
pub open spec fn repeat_count(v: Value) -> Option<nat> {
    match v {
        Value::Int(i) => Some(if i < 0 { 0 } else { i as nat }),
        Value::Bool(b) => Some(if b { 1 } else { 0 }),
        _ => None,
    }
}

/// What `+` on two sequences comes to: a new sequence of the same kind.
pub open spec fn concat_result(h: Heap, h2: Heap, a: Value, b: Value, r: Result<Arith, VErr>) -> bool {
    match (a, b) {
        (Value::Str(x), Value::Str(y)) => r == Ok::<Arith, VErr>(Arith::Done(Value::Str(h.strs.len())))
            && h2.text(h.strs.len()) == h.text(x) + h.text(y),
        (Value::Bytes(x), Value::Bytes(y)) => r == Ok::<Arith, VErr>(Arith::Done(Value::Bytes(h.bytes.len())))
            && h2.octets(h.bytes.len()) == h.octets(x) + h.octets(y),
        (Value::List(x), Value::List(y)) => r == Ok::<Arith, VErr>(Arith::Done(Value::List(h.lists.len())))
            && h2.list(h.lists.len()) == h.list(x) + h.list(y),
        (Value::Tuple(x), Value::Tuple(y)) => r == Ok::<Arith, VErr>(Arith::Done(Value::Tuple(h.tuples.len())))
            && h2.tuple(h.tuples.len()) == h.tuple(x) + h.tuple(y),
        _ => gives_err(r, Exc::TypeError, operands_text("+"@, kind_name(h, a), kind_name(h, b))),
    }
}

/// What repeating `s` `n` times comes to: a new sequence of the same kind.
pub open spec fn repeat_result(h: Heap, h2: Heap, s: Value, n: nat, a: Value, b: Value, r: Result<Arith, VErr>) -> bool {
    match s {
        Value::Str(x) => r == Ok::<Arith, VErr>(Arith::Done(Value::Str(h.strs.len())))
            && h2.text(h.strs.len()) == repeated(h.text(x), n),
        Value::Bytes(x) => r == Ok::<Arith, VErr>(Arith::Done(Value::Bytes(h.bytes.len())))
            && h2.octets(h.bytes.len()) == repeated(h.octets(x), n),
        Value::List(x) => r == Ok::<Arith, VErr>(Arith::Done(Value::List(h.lists.len())))
            && h2.list(h.lists.len()) == repeated(h.list(x), n),
        Value::Tuple(x) => r == Ok::<Arith, VErr>(Arith::Done(Value::Tuple(h.tuples.len())))
            && h2.tuple(h.tuples.len()) == repeated(h.tuple(x), n),
        _ => gives_err(r, Exc::TypeError, operands_text("*"@, kind_name(h, a), kind_name(h, b))),
    }
}

/// `t` is `n` times as long as `s` and goes through it again and again.
pub open spec fn cycles<T>(s: Seq<T>, n: nat, t: Seq<T>) -> bool {
    &&& t.len() == n * s.len()
    &&& forall|k: int| 0 <= k < t.len() ==> #[trigger] t[k] == s[k % (s.len() as int)]
}

pub proof fn lemma_repeated<T>(s: Seq<T>, n: nat)
    ensures cycles(s, n, repeated(s, n)),
    decreases n,
{
    let t = repeated(s, n);
    if n > 0 {
        let m = (n - 1) as nat;
        let u = repeated(s, m);
        let len = s.len() as int;
        lemma_repeated(s, m);
        assert(n * len == m * len + len) by (nonlinear_arith)
            requires n == m + 1;
        assert forall|k: int| 0 <= k < t.len() implies #[trigger] t[k] == s[k % len] by {
            if k < u.len() {
                assert(t[k] == u[k]);
            } else {
                let i = k - m * len;
                vstd::arithmetic::div_mod::lemma_fundamental_div_mod_converse(k, len, m as int, i);
                assert(t[k] == s[i]);
            }
        }
    } else {
        assert(0 * s.len() == 0);
    }
}

/// `v` in `h2` is `s` in `h`, `n` times in a row.
pub open spec fn is_repetition(h: Heap, h2: Heap, s: Value, n: nat, v: Value) -> bool {
    match (s, v) {
        (Value::Str(x), Value::Str(y)) => cycles(h.text(x), n, h2.text(y)),
        (Value::Bytes(x), Value::Bytes(y)) => cycles(h.octets(x), n, h2.octets(y)),
        (Value::List(x), Value::List(y)) => cycles(h.list(x), n, h2.list(y)),
        (Value::Tuple(x), Value::Tuple(y)) => cycles(h.tuple(x), n, h2.tuple(y)),
        _ => false,
    }
}

/// The sequence `s` is in `g` as it is in `h`.
pub open spec fn unchanged(h: Heap, g: Heap, s: Value) -> bool {
    match s {
        Value::Str(x) => g.text(x) == h.text(x),
        Value::Bytes(x) => g.octets(x) == h.octets(x),
        Value::List(x) => g.list(x) == h.list(x),
        Value::Tuple(x) => g.tuple(x) == h.tuple(x),
        _ => false,
    }
}

/// Whether `s` is a sequence that was made.
pub open spec fn is_sequence(h: Heap, s: Value) -> bool {
    match s {
        Value::Str(x) => x < h.strs@.len(),
        Value::Bytes(x) => x < h.bytes@.len(),
        Value::List(x) => x < h.lists@.len(),
        Value::Tuple(x) => x < h.tuples@.len(),
        _ => false,
    }
}

/// What repeating comes to is a repetition.
pub proof fn lemma_repetition(h: Heap, g: Heap, s: Value, n: nat, a: Value, b: Value, r: Result<Arith, VErr>)
    requires
        repeat_result(h, g, s, n, a, b, r),
        s is Str || s is Bytes || s is List || s is Tuple,
    ensures r matches Ok(Arith::Done(v)) && is_repetition(h, g, s, n, v),
{
    match s {
        Value::Str(x) => lemma_repeated(h.text(x), n),
        Value::Bytes(x) => lemma_repeated(h.octets(x), n),
        Value::List(x) => lemma_repeated(h.list(x), n),
        Value::Tuple(x) => lemma_repeated(h.tuple(x), n),
        _ => {}
    }
}

/// What a binary operator comes to.
pub open spec fn binary_result(h: Heap, h2: Heap, op: BinOp, a: Value, b: Value, r: Result<Arith, VErr>) -> bool {
    let wrong = gives_err(r, Exc::TypeError, operands_text(op_symbol(op), kind_name(h, a), kind_name(h, b)));
    match (num(h, a), num(h, b)) {
        (Some(x), Some(y)) => if ints_only(op) && (x is Float || y is Float) {
            wrong
        } else {
            num_result(h2, op, a, b, x, y, r)
        },
        _ => if op == BinOp::Add {
            concat_result(h, h2, a, b, r)
        } else if op == BinOp::Mul {
            match (repeat_count(a), repeat_count(b)) {
                (Some(n), _) => repeat_result(h, h2, b, n, a, b, r),
                (None, Some(n)) => repeat_result(h, h2, a, n, a, b, r),
                _ => wrong,
            }
        } else {
            wrong
        },
    }
}

/// Objects were added between `a` and `b`, and none was changed.
pub open spec fn sequences_grew(a: Heap, b: Heap) -> bool {
    &&& b == (Heap { bigs: b.bigs, strs: b.strs, bytes: b.bytes, lists: b.lists, tuples: b.tuples, ..a })
    &&& a.bigs@.is_prefix_of(b.bigs@)
    &&& a.strs@.is_prefix_of(b.strs@)
    &&& a.bytes@.is_prefix_of(b.bytes@)
    &&& a.lists@.is_prefix_of(b.lists@)
    &&& a.tuples@.is_prefix_of(b.tuples@)
}

fn concat_vecs<T: Copy>(a: Vec<T>, b: &Vec<T>) -> (r: Vec<T>)
    ensures r@ == a@ + b@,
{
    let mut out = a;
    let ghost base = a@;
    let mut i: usize = 0;
    assert(out@ =~= base + b@.take(0));
    while i < b.len()
        invariant
            i <= b.len(),
            out@ == base + b@.take(i as int),
        decreases b.len() - i,
    {
        out.push(b[i]);
        i += 1;
        assert(out@ =~= base + b@.take(i as int));
    }
    assert(b@.take(i as int) =~= b@);
    out
}

fn repeat_vec<T: Copy>(s: &Vec<T>, n: u64) -> (r: Vec<T>)
    ensures r@ == repeated(s@, n as nat),
{
    let mut out: Vec<T> = Vec::new();
    let mut i: u64 = 0;
    while i < n
        invariant
            i <= n,
            out@ == repeated(s@, i as nat),
        decreases n - i,
    {
        out = concat_vecs(out, s);
        i += 1;
    }
    out
}

fn repeat_text(s: &str, n: u64) -> (r: String)
    ensures r@ == repeated(s@, n as nat),
{
    proof {
        reveal_strlit("");
    }
    let mut out = "".to_owned();
    assert(out@ =~= Seq::<char>::empty());
    let mut i: u64 = 0;
    while i < n
        invariant
            i <= n,
            out@ == repeated(s@, i as nat),
        decreases n - i,
    {
        out.append(s);
        i += 1;
    }
    out
}

fn concat(h: &mut Heap, a: Value, b: Value) -> (r: Result<Arith, VErr>)
    ensures
        concat_result(*old(h), *final(h), a, b, r),
        sequences_grew(*old(h), *final(h)),
{
    match (a, b) {
        (Value::Str(x), Value::Str(y)) => {
            let s = join2(h.text_of(x), h.text_of(y));
            Ok(Arith::Done(h.alloc_str(s)))
        }
        (Value::Bytes(x), Value::Bytes(y)) => {
            let v = concat_vecs(h.octets_copy(x), &h.octets_copy(y));
            Ok(Arith::Done(h.alloc_bytes(v)))
        }
        (Value::List(x), Value::List(y)) => {
            let v = concat_vecs(h.list_copy(x), &h.list_copy(y));
            Ok(Arith::Done(h.alloc_list(v)))
        }
        (Value::Tuple(x), Value::Tuple(y)) => {
            let v = concat_vecs(h.tuple_copy(x), &h.tuple_copy(y));
            Ok(Arith::Done(h.alloc_tuple(v)))
        }
        _ => Err(operands_err("+", kind_name_of(h, a), kind_name_of(h, b))),
    }
}

fn repeat(h: &mut Heap, s: Value, n: u64, a: Value, b: Value) -> (r: Result<Arith, VErr>)
    ensures
        repeat_result(*old(h), *final(h), s, n as nat, a, b, r),
        sequences_grew(*old(h), *final(h)),
{
    match s {
        Value::Str(x) => {
            let s = repeat_text(h.text_of(x), n);
            Ok(Arith::Done(h.alloc_str(s)))
        }
        Value::Bytes(x) => {
            let v = repeat_vec(&h.octets_copy(x), n);
            Ok(Arith::Done(h.alloc_bytes(v)))
        }
        Value::List(x) => {
            let v = repeat_vec(&h.list_copy(x), n);
            Ok(Arith::Done(h.alloc_list(v)))
        }
        Value::Tuple(x) => {
            let v = repeat_vec(&h.tuple_copy(x), n);
            Ok(Arith::Done(h.alloc_tuple(v)))
        }
        _ => Err(operands_err("*", kind_name_of(h, a), kind_name_of(h, b))),
    }
}

fn int_count(v: Value) -> (r: Option<u64>)
    ensures
        match r {
            Some(n) => repeat_count(v) == Some(n as nat),
            None => repeat_count(v) is None,
        },
{
    match v {
        Value::Int(i) => Some(if i < 0 { 0 } else { i as u64 }),
        Value::Bool(b) => Some(if b { 1 } else { 0 }),
        _ => None,
    }
}

fn float_arith(h: &Heap, op: BinOp, a: Value, b: Value, y: &Number) -> (r: Result<Arith, VErr>)
    requires !ints_only(op),
    ensures
        forall|n: Num| y.is_num(*h, n) ==> #[trigger] float_result(op, a, b, n, r),
{
    let zero: bool = match y {
        Number::Int(i) => *i == 0,
        Number::Big(n) => n.same(&BigInt::from_i64(0)),
        Number::Float(i) => is_zero_float(h.bits_of(*i)),
    };
    match op {
        BinOp::Div => if zero {
            Err(fault(Exc::ZeroDivisionError, "division by zero"))
        } else {
            Ok(Arith::Float(FloatOp::Div, a, b))
        },
        BinOp::FloorDiv => if zero {
            Err(fault(Exc::ZeroDivisionError, "float floor division by zero"))
        } else {
            Ok(Arith::Float(FloatOp::FloorDiv, a, b))
        },
        BinOp::Mod => if zero {
            Err(fault(Exc::ZeroDivisionError, "float modulo by zero"))
        } else {
            Ok(Arith::Float(FloatOp::Mod, a, b))
        },
        BinOp::Add => Ok(Arith::Float(FloatOp::Add, a, b)),
        BinOp::Sub => Ok(Arith::Float(FloatOp::Sub, a, b)),
        BinOp::Mul => Ok(Arith::Float(FloatOp::Mul, a, b)),
        _ => Ok(Arith::Float(FloatOp::Pow, a, b)),
    }
}

/// The truncated quotient and remainder, as `checked_div` and `checked_rem`
/// give them.
proof fn lemma_truncated(x: i64, y: i64)
    requires y != 0, !(x == i64::MIN && y == -1),
    ensures
        x.checked_div(y) is Some,
        x.checked_rem(y) is Some,
        x == y * x.checked_div(y)->0 + x.checked_rem(y)->0,
        x >= 0 ==> 0 <= x.checked_rem(y)->0 < (if y < 0 { -y } else { y as int }),
        x <= 0 ==> -(if y < 0 { -y } else { y as int }) < x.checked_rem(y)->0 <= 0,
        x.checked_rem(y)->0 != 0 ==> i64::MIN < x.checked_div(y)->0,
{
    let m = if x < 0 { -x } else { x as int };
    let d = if y < 0 { -y } else { y as int };
    vstd::arithmetic::div_mod::lemma_fundamental_div_mod(m, d);
    vstd::arithmetic::div_mod::lemma_mod_bound(m, d);
    let q = m / d;
    let r = m % d;
    assert(0 <= q <= m) by (nonlinear_arith)
        requires m == d * q + r, 0 <= r < d, d >= 1, m >= 0;
    if r != 0 {
        assert(q < m) by (nonlinear_arith)
            requires m == d * q + r, 0 < r < d, q >= 0;
    }
    if d >= 2 && m > 0 {
        assert(q < m) by (nonlinear_arith)
            requires m == d * q + r, 0 <= r < d, d >= 2, m > 0, q >= 0;
    }
    assert(y * q == (if y < 0 { -(d * q) } else { d * q })) by (nonlinear_arith)
        requires y == (if y < 0 { -d } else { d });
    assert(y * (-q) == -(y * q)) by (nonlinear_arith);
}

/// Division rounding down for `i64`; `None` for a zero divisor or where the
/// quotient does not fit.
pub fn floordiv_i64(x: i64, y: i64) -> (r: Option<i64>)
    ensures
        r == (if y == 0 || (x == i64::MIN && y == -1) {
            None::<i64>
        } else {
            Some(floor_div(x as int, y as int) as i64)
        }),
        r matches Some(q) ==> q == floor_div(x as int, y as int),
{
    if y == 0 || (x == i64::MIN && y == -1) {
        return None;
    }
    proof { lemma_truncated(x, y); }
    let q = x.checked_div(y)?;
    let r = x.checked_rem(y)?;
    if r != 0 && ((r < 0) != (y < 0)) {
        proof {
            assert(y * (q - 1) == y * q - y) by (nonlinear_arith);
            lemma_floor_unique(x as int, y as int, q - 1, r + y);
        }
        q.checked_sub(1)
    } else {
        proof {
            lemma_floor_unique(x as int, y as int, q as int, r as int);
        }
        Some(q)
    }
}

/// Remainder with the divisor's sign for `i64`; `None` where
/// [`floordiv_i64`] has none.
pub fn mod_i64(x: i64, y: i64) -> (r: Option<i64>)
    ensures
        r == (if y == 0 || (x == i64::MIN && y == -1) {
            None::<i64>
        } else {
            Some(floor_mod(x as int, y as int) as i64)
        }),
        r matches Some(m) ==> m == floor_mod(x as int, y as int),
{
    if y == 0 || (x == i64::MIN && y == -1) {
        return None;
    }
    proof { lemma_truncated(x, y); }
    let ghost q = x.checked_div(y)->0;
    let r = x.checked_rem(y)?;
    if r != 0 && ((r < 0) != (y < 0)) {
        proof {
            assert(y * (q - 1) == y * q - y) by (nonlinear_arith);
            lemma_floor_unique(x as int, y as int, q - 1, r + y);
        }
        r.checked_add(y)
    } else {
        proof {
            lemma_floor_unique(x as int, y as int, q as int, r as int);
        }
        Some(r)
    }
}

fn bit_op(h: &mut Heap, kind: BitKind, a: Value, b: Value, x: &Number, y: &Number) -> (r: Result<Arith, VErr>)
    requires !(x is Float), !(y is Float),
    ensures
        bigs_grew(*old(h), *final(h)),
        match (a, b) {
            (Value::Bool(p), Value::Bool(q)) => r == Ok::<Arith, VErr>(Arith::Done(Value::Bool(bool_op(kind, p, q)))),
            _ => forall|p: int, q: int| x.is_num(*old(h), Num::Int(p)) && y.is_num(*old(h), Num::Int(q)) ==>
                exists|n: int| #[trigger] gives_int(*final(h), r, n) && #[trigger] is_bit_op(kind, p, q, n),
        },
{
    if let (Value::Bool(p), Value::Bool(q)) = (a, b) {
        return Ok(Arith::Done(Value::Bool(kind.on_bools(p, q))));
    }
    let p = x.to_bigint();
    let q = y.to_bigint();
    let n = p.bitwise(&q, kind);
    let ghost m = n@;
    let r = Ok(Arith::Done(from_bigint(h, n)));
    assert(gives_int(*h, r, m));
    r
}

fn shift_ints(h: &mut Heap, op: BinOp, a: Value, b: Value, x: &Number, y: &Number) -> (r: Result<Arith, VErr>)
    requires
        !(x is Float),
        !(y is Float),
        op == BinOp::Shl || op == BinOp::Shr,
        y is Big <==> b is Big,
    ensures
        bigs_grew(*old(h), *final(h)),
        forall|p: int, q: int| x.is_num(*old(h), Num::Int(p)) && y.is_num(*old(h), Num::Int(q))
            ==> #[trigger] int_result(*final(h), op, a, b, p, q, r),
{
    let count: u64 = match y {
        Number::Int(n) => {
            if *n < 0 {
                return Err(fault(Exc::ValueError, "negative shift count"));
            }
            *n as u64
        }
        Number::Big(n) => {
            if n.is_negative() {
                return Err(fault(Exc::ValueError, "negative shift count"));
            }
            return Err(fault(Exc::RuntimeError, "shift count too large"));
        }
        Number::Float(_) => 0,
    };
    let p = x.to_bigint();
    let n = if let BinOp::Shl = op { p.shl(count) } else { p.shr(count) };
    Ok(Arith::Done(from_bigint(h, n)))
}

fn int_arith(h: &mut Heap, op: BinOp, a: Value, b: Value, x: &Number, y: &Number) -> (r: Result<Arith, VErr>)
    requires
        !(x is Float),
        !(y is Float),
        !ints_only(op),
        y is Big <==> b is Big,
    ensures
        bigs_grew(*old(h), *final(h)),
        forall|p: int, q: int| x.is_num(*old(h), Num::Int(p)) && y.is_num(*old(h), Num::Int(q))
            ==> #[trigger] int_result(*final(h), op, a, b, p, q, r),
{
    if let (Number::Int(p), Number::Int(q)) = (x, y) {
        let quick: Option<i64> = match op {
            BinOp::Add => p.checked_add(*q),
            BinOp::Sub => p.checked_sub(*q),
            BinOp::Mul => p.checked_mul(*q),
            BinOp::FloorDiv => floordiv_i64(*p, *q),
            BinOp::Mod => mod_i64(*p, *q),
            _ => None,
        };
        if let Some(n) = quick {
            return Ok(Arith::Done(Value::Int(n)));
        }
    }
    let p = x.to_bigint();
    let q = y.to_bigint();
    match op {
        BinOp::Add => {
            let n = p.add(&q);
            Ok(Arith::Done(from_bigint(h, n)))
        }
        BinOp::Sub => {
            let n = p.sub(&q);
            Ok(Arith::Done(from_bigint(h, n)))
        }
        BinOp::Mul => {
            let n = p.mul(&q);
            Ok(Arith::Done(from_bigint(h, n)))
        }
        BinOp::FloorDiv => match p.divmod_floor(&q) {
            Some((n, _)) => Ok(Arith::Done(from_bigint(h, n))),
            None => Err(fault(Exc::ZeroDivisionError, "integer division or modulo by zero")),
        },
        BinOp::Mod => match p.divmod_floor(&q) {
            Some((_, n)) => Ok(Arith::Done(from_bigint(h, n))),
            None => Err(fault(Exc::ZeroDivisionError, "integer division or modulo by zero")),
        },
        BinOp::Pow => match y {
            Number::Int(e) => {
                if *e < 0 {
                    Ok(Arith::Float(FloatOp::Pow, a, b))
                } else {
                    let n = p.pow_u64(*e as u64);
                    Ok(Arith::Done(from_bigint(h, n)))
                }
            }
            _ => Err(fault(Exc::RuntimeError, "exponent too large")),
        },
        _ => float_arith(h, op, a, b, y),
    }
}

/// `a * b`: a product of numbers, or a sequence repeated, in either order.
pub fn mul(h: &mut Heap, a: Value, b: Value) -> (r: Result<Arith, VErr>)
    ensures
        binary_result(*old(h), *final(h), BinOp::Mul, a, b, r),
        sequences_grew(*old(h), *final(h)),
        is_sequence(*old(h), a) && repeat_count(b) is Some ==> unchanged(*old(h), *final(h), a)
            && (r matches Ok(Arith::Done(v)) && is_repetition(*old(h), *final(h), a, repeat_count(b)->0, v)),
        is_sequence(*old(h), b) && repeat_count(a) is Some ==> unchanged(*old(h), *final(h), b)
            && (r matches Ok(Arith::Done(v)) && is_repetition(*old(h), *final(h), b, repeat_count(a)->0, v)),
{
    let x = as_number(h, a);
    let y = as_number(h, b);
    if let (Some(x), Some(y)) = (x, y) {
        if x.is_float() || y.is_float() {
            float_arith(h, BinOp::Mul, a, b, &y)
        } else {
            int_arith(h, BinOp::Mul, a, b, &x, &y)
        }
    } else {
        let ghost h0 = *h;
        let (s, n) = match (int_count(a), int_count(b)) {
            (Some(n), _) => (b, n),
            (None, Some(n)) => (a, n),
            _ => {
                return Err(operands_err("*", kind_name_of(h, a), kind_name_of(h, b)));
            }
        };
        let r = repeat(h, s, n, a, b);
        proof {
            if is_sequence(h0, s) {
                lemma_repetition(h0, *h, s, n as nat, a, b, r);
            }
        }
        r
    }
}

/// `a << b`, or `a >> b` where it does not go to the left.
pub fn shift(h: &mut Heap, a: Value, b: Value, left: bool) -> (r: Result<Arith, VErr>)
    ensures
        binary_result(*old(h), *final(h), if left { BinOp::Shl } else { BinOp::Shr }, a, b, r),
        sequences_grew(*old(h), *final(h)),
{
    let op = if left { BinOp::Shl } else { BinOp::Shr };
    let x = as_number(h, a);
    let y = as_number(h, b);
    if let (Some(x), Some(y)) = (x, y) {
        if !x.is_float() && !y.is_float() {
            return shift_ints(h, op, a, b, &x, &y);
        }
    }
    Err(operands_err(arith_symbol(op), kind_name_of(h, a), kind_name_of(h, b)))
}

/// Apply a binary operator to two values.
pub fn binary(h: &mut Heap, op: BinOp, a: Value, b: Value) -> (r: Result<Arith, VErr>)
    ensures
        binary_result(*old(h), *final(h), op, a, b, r),
        sequences_grew(*old(h), *final(h)),
{
    match op {
        BinOp::Mul => {
            return self::mul(h, a, b);
        }
        BinOp::Shl => {
            return shift(h, a, b, true);
        }
        BinOp::Shr => {
            return shift(h, a, b, false);
        }
        _ => {}
    }
    let x = as_number(h, a);
    let y = as_number(h, b);
    if let (Some(x), Some(y)) = (x, y) {
        let kind = match op {
            BinOp::BitAnd => Some(BitKind::And),
            BinOp::BitOr => Some(BitKind::Or),
            BinOp::BitXor => Some(BitKind::Xor),
            _ => None,
        };
        if x.is_float() || y.is_float() {
            if kind.is_some() {
                return Err(operands_err(arith_symbol(op), kind_name_of(h, a), kind_name_of(h, b)));
            }
            return float_arith(h, op, a, b, &y);
        }
        match kind {
            Some(k) => bit_op(h, k, a, b, &x, &y),
            None => int_arith(h, op, a, b, &x, &y),
        }
    } else {
        match op {
            BinOp::Add => concat(h, a, b),
            _ => Err(operands_err(arith_symbol(op), kind_name_of(h, a), kind_name_of(h, b))),
        }
    }
}

} // verus!
