//! Comparison as far as it can be decided without running a program's own
//! comparison methods.
use vstd::prelude::*;
use vstd::string::*;
use crate::code::RelOp;
use crate::exc::{type_error, Exc, VErr};
use crate::keys::{dict_find, lookup_key, same_octets};
use crate::names::{type_label, type_label_of};
use crate::number::{as_number, num, num_order, order_numbers, Num, Order};
use crate::text::{chars_less, chars_of, join3, join5, same_text};
use crate::value::{Heap, Value};

verus! {

/// How deep a comparison may nest before it counts as endless.
pub const DEPTH_LIMIT: usize = 600;

/// Whether two values are one and the same object.
pub open spec fn same_object(a: Value, b: Value) -> bool {
    a == b && match a {
        Value::Unbound | Value::Null | Value::Bool(_) | Value::Int(_) | Value::Big(_) | Value::Float(_)
            | Value::Str(_) | Value::Bytes(_) | Value::Type(_) => false,
        _ => true,
    }
}

/// Whether two values are one and the same object.
pub fn is_same_object(a: Value, b: Value) -> (r: bool)
    ensures r == same_object(a, b),
{
    a == b && !matches!(a, Value::Unbound | Value::Null | Value::Bool(_) | Value::Int(_) | Value::Big(_)
        | Value::Float(_) | Value::Str(_) | Value::Bytes(_) | Value::Type(_))
}

/// Whether a value's class has its own `__eq__`.
pub open spec fn own_equality(h: Heap, v: Value) -> bool {
    h.method_of(v, "__eq__"@) is Some
}

/// Whether two values are equal; `None` where a program's `__eq__` decides, or
/// where the nesting passes `fuel`.
pub open spec fn equals(h: Heap, a: Value, b: Value, fuel: nat) -> Option<bool>
    decreases fuel, 0int, 0int,
{
    if own_equality(h, a) || own_equality(h, b) {
        None
    } else {
        match (num(h, a), num(h, b)) {
            (Some(x), Some(y)) => Some(num_order(x, y) == Order::Equal),
            _ => match (a, b) {
                (Value::Str(x), Value::Str(y)) => Some(h.text(x) == h.text(y)),
                (Value::Bytes(x), Value::Bytes(y)) => Some(h.octets(x) == h.octets(y)),
                (Value::Range(x), Value::Range(y)) => Some(h.range(x) == h.range(y)),
                (Value::List(x), Value::List(y)) => if x == y {
                    Some(true)
                } else if h.list(x).len() != h.list(y).len() {
                    Some(false)
                } else if fuel == 0 {
                    None
                } else {
                    equal_items(h, h.list(x), h.list(y), 0, (fuel - 1) as nat)
                },
                (Value::Tuple(x), Value::Tuple(y)) => if x == y {
                    Some(true)
                } else if h.tuple(x).len() != h.tuple(y).len() {
                    Some(false)
                } else if fuel == 0 {
                    None
                } else {
                    equal_items(h, h.tuple(x), h.tuple(y), 0, (fuel - 1) as nat)
                },
                (Value::Dict(x), Value::Dict(y)) => if x == y {
                    Some(true)
                } else if h.dict(x).len() != h.dict(y).len() {
                    Some(false)
                } else if fuel == 0 {
                    None
                } else {
                    equal_entries(h, h.dict(x), h.dict(y), 0, (fuel - 1) as nat)
                },
                (Value::Method(_), Value::Method(_)) => if a == b { Some(true) } else { None },
                _ => Some(a == b),
            },
        }
    }
}

/// Whether two sequences agree from place `i` on.
pub open spec fn equal_items(h: Heap, xs: Seq<Value>, ys: Seq<Value>, i: int, fuel: nat) -> Option<bool>
    decreases fuel, 1int, xs.len() - i,
{
    if i < 0 || i >= xs.len() {
        Some(true)
    } else {
        match equals(h, xs[i], ys[i], fuel) {
            Some(true) => equal_items(h, xs, ys, i + 1, fuel),
            other => other,
        }
    }
}

/// Whether every entry from place `i` on has an equal one under its key.
pub open spec fn equal_entries(h: Heap, xs: Seq<(Value, Value)>, ys: Seq<(Value, Value)>, i: int, fuel: nat) -> Option<bool>
    decreases fuel, 1int, xs.len() - i,
{
    if i < 0 || i >= xs.len() {
        Some(true)
    } else {
        match lookup_key(h, ys, xs[i].0) {
            None => Some(false),
            Some(v) => match equals(h, xs[i].1, v, fuel) {
                Some(true) => equal_entries(h, xs, ys, i + 1, fuel),
                other => other,
            },
        }
    }
}

fn items_equal(h: &Heap, x: &Vec<Value>, y: &Vec<Value>, fuel: usize) -> (r: Option<bool>)
    requires x.len() == y.len(),
    ensures r == equal_items(*h, x@, y@, 0, fuel as nat),
    decreases fuel, 1int,
{
    let mut i: usize = 0;
    while i < x.len()
        invariant
            i <= x.len(),
            x.len() == y.len(),
            equal_items(*h, x@, y@, 0, fuel as nat) == equal_items(*h, x@, y@, i as int, fuel as nat),
        decreases x.len() - i,
    {
        match try_equals(h, x[i], y[i], fuel) {
            Some(true) => {}
            other => {
                return other;
            }
        }
        i += 1;
    }
    Some(true)
}

fn entries_equal(h: &Heap, x: usize, y: usize, fuel: usize) -> (r: Option<bool>)
    ensures r == equal_entries(*h, h.dict(x), h.dict(y), 0, fuel as nat),
    decreases fuel, 1int,
{
    let n = h.dict_len(x);
    let mut i: usize = 0;
    while i < n
        invariant
            i <= n,
            n == h.dict(x).len(),
            equal_entries(*h, h.dict(x), h.dict(y), 0, fuel as nat)
                == equal_entries(*h, h.dict(x), h.dict(y), i as int, fuel as nat),
        decreases n - i,
    {
        let e = h.dict_at(x, i);
        match dict_find(h, y, e.0) {
            None => {
                return Some(false);
            }
            Some(j) => match try_equals(h, e.1, h.dict_at(y, j).1, fuel) {
                Some(true) => {}
                other => {
                    return other;
                }
            },
        }
        i += 1;
    }
    Some(true)
}

/// Whether two values are equal, as far as that can be said here.
pub fn try_equals(h: &Heap, a: Value, b: Value, fuel: usize) -> (r: Option<bool>)
    ensures r == equals(*h, a, b, fuel as nat),
    decreases fuel, 0int,
{
    if h.instance_method(a, "__eq__").is_some() || h.instance_method(b, "__eq__").is_some() {
        return None;
    }
    match (as_number(h, a), as_number(h, b)) {
        (Some(x), Some(y)) => {
            let o = order_numbers(h, &x, &y);
            assert(o == num_order(num(*h, a)->0, num(*h, b)->0));
            Some(matches!(o, Order::Equal))
        }
        _ => match (a, b) {
            (Value::Str(x), Value::Str(y)) => Some(same_text(h.text_of(x), h.text_of(y))),
            (Value::Bytes(x), Value::Bytes(y)) => Some(same_octets(h, x, y)),
            (Value::Range(x), Value::Range(y)) => Some(h.range_of(x) == h.range_of(y)),
            (Value::List(x), Value::List(y)) => {
                if x == y {
                    return Some(true);
                }
                if h.list_len(x) != h.list_len(y) {
                    return Some(false);
                }
                if fuel == 0 {
                    return None;
                }
                items_equal(h, &h.list_copy(x), &h.list_copy(y), fuel - 1)
            }
            (Value::Tuple(x), Value::Tuple(y)) => {
                if x == y {
                    return Some(true);
                }
                if h.tuple_len(x) != h.tuple_len(y) {
                    return Some(false);
                }
                if fuel == 0 {
                    return None;
                }
                items_equal(h, &h.tuple_copy(x), &h.tuple_copy(y), fuel - 1)
            }
            (Value::Dict(x), Value::Dict(y)) => {
                if x == y {
                    return Some(true);
                }
                if h.dict_len(x) != h.dict_len(y) {
                    return Some(false);
                }
                if fuel == 0 {
                    return None;
                }
                entries_equal(h, x, y, fuel - 1)
            }
            (Value::Method(_), Value::Method(_)) => if a == b { Some(true) } else { None },
            _ => Some(a == b),
        },
    }
}

/// What comparing two values for order finds.
pub ghost enum Ordered {
    /// They stand like this.
    Known(Order),
    /// A program's own comparison decides.
    Ask,
    /// These two have no order.
    Refused(Value, Value),
}

/// How two texts or two octet strings stand.
pub open spec fn chars_order(a: Seq<char>, b: Seq<char>) -> Order {
    if chars_less(a, b) { Order::Less } else if a == b { Order::Equal } else { Order::Greater }
}

/// `a` sorts before `b`.
pub open spec fn octets_less(a: Seq<u8>, b: Seq<u8>) -> bool
    decreases a.len(),
{
    if b.len() == 0 {
        false
    } else if a.len() == 0 {
        true
    } else if a[0] == b[0] {
        octets_less(a.skip(1), b.skip(1))
    } else {
        a[0] < b[0]
    }
}

/// How two octet strings stand.
pub open spec fn octets_order(a: Seq<u8>, b: Seq<u8>) -> Order {
    if octets_less(a, b) { Order::Less } else if a == b { Order::Equal } else { Order::Greater }
}

/// How two lengths stand.
pub open spec fn len_order(a: nat, b: nat) -> Order {
    if a < b { Order::Less } else if a > b { Order::Greater } else { Order::Equal }
}

/// How two values stand.
pub open spec fn ordered(h: Heap, a: Value, b: Value, fuel: nat) -> Ordered
    decreases fuel, 0int, 0int,
{
    if a is Instance || b is Instance {
        Ordered::Ask
    } else {
        match (num(h, a), num(h, b)) {
            (Some(x), Some(y)) => Ordered::Known(num_order(x, y)),
            _ => match (a, b) {
                (Value::Str(x), Value::Str(y)) => Ordered::Known(chars_order(h.text(x), h.text(y))),
                (Value::Bytes(x), Value::Bytes(y)) => Ordered::Known(octets_order(h.octets(x), h.octets(y))),
                (Value::List(x), Value::List(y)) => if fuel == 0 {
                    Ordered::Ask
                } else {
                    ordered_items(h, h.list(x), h.list(y), 0, (fuel - 1) as nat)
                },
                (Value::Tuple(x), Value::Tuple(y)) => if fuel == 0 {
                    Ordered::Ask
                } else {
                    ordered_items(h, h.tuple(x), h.tuple(y), 0, (fuel - 1) as nat)
                },
                _ => Ordered::Refused(a, b),
            },
        }
    }
}

/// How two sequences stand from place `i` on: the first pair that is not equal
/// decides, and then the lengths.
pub open spec fn ordered_items(h: Heap, xs: Seq<Value>, ys: Seq<Value>, i: int, fuel: nat) -> Ordered
    decreases fuel, 1int, xs.len() - i,
{
    if i < 0 || i >= xs.len() || i >= ys.len() {
        Ordered::Known(len_order(xs.len(), ys.len()))
    } else {
        match equals(h, xs[i], ys[i], fuel) {
            None => Ordered::Ask,
            Some(true) => ordered_items(h, xs, ys, i + 1, fuel),
            Some(false) => ordered(h, xs[i], ys[i], fuel),
        }
    }
}

/// The message for two values that have no order.
pub open spec fn no_order_text(h: Heap, sym: Seq<char>, a: Value, b: Value) -> Seq<char> {
    "'"@ + sym + "' not supported between instances of '"@ + type_label(h, a) + "' and '"@ + type_label(h, b) + "'"@
}

/// The fault for two values that have no order.
pub fn no_order(h: &Heap, sym: &str, a: Value, b: Value) -> (r: VErr)
    ensures r@ == (Exc::TypeError, no_order_text(*h, sym@, a, b)),
{
    let s = join5("'", sym, "' not supported between instances of '", type_label_of(h, a), "' and '");
    type_error(join3(s.as_str(), type_label_of(h, b), "'"))
}

proof fn lemma_chars_less_skip(a: Seq<char>, b: Seq<char>, i: int)
    requires
        0 <= i <= a.len(),
        i <= b.len(),
        forall|k: int| 0 <= k < i ==> a[k] == b[k],
    ensures chars_less(a, b) == chars_less(a.skip(i), b.skip(i)),
    decreases i,
{
    if i > 0 {
        lemma_chars_less_skip(a, b, i - 1);
        let x = a.skip(i - 1);
        let y = b.skip(i - 1);
        assert(x[0] == a[i - 1] && y[0] == b[i - 1]);
        assert(x.skip(1) =~= a.skip(i));
        assert(y.skip(1) =~= b.skip(i));
    } else {
        assert(a.skip(0) =~= a);
        assert(b.skip(0) =~= b);
    }
}

/// How two texts stand.
pub fn order_texts(a: &str, b: &str) -> (r: Order)
    ensures r == chars_order(a@, b@),
{
    let x = chars_of(a);
    let y = chars_of(b);
    let mut i: usize = 0;
    while i < x.len() && i < y.len()
        invariant
            i <= x.len(),
            i <= y.len(),
            x@ == a@,
            y@ == b@,
            forall|k: int| 0 <= k < i ==> x[k] == y[k],
        decreases x.len() - i,
    {
        if x[i] != y[i] {
            proof {
                lemma_chars_less_skip(x@, y@, i as int);
                assert(x@.skip(i as int)[0] == x[i as int]);
                assert(y@.skip(i as int)[0] == y[i as int]);
            }
            return if (x[i] as u32) < (y[i] as u32) { Order::Less } else { Order::Greater };
        }
        i += 1;
    }
    proof {
        lemma_chars_less_skip(x@, y@, i as int);
        if x.len() == y.len() {
            assert(x@ =~= y@);
        }
    }
    if x.len() == y.len() {
        Order::Equal
    } else if x.len() < y.len() {
        Order::Less
    } else {
        Order::Greater
    }
}

proof fn lemma_octets_less_skip(a: Seq<u8>, b: Seq<u8>, i: int)
    requires
        0 <= i <= a.len(),
        i <= b.len(),
        forall|k: int| 0 <= k < i ==> a[k] == b[k],
    ensures octets_less(a, b) == octets_less(a.skip(i), b.skip(i)),
    decreases i,
{
    if i > 0 {
        lemma_octets_less_skip(a, b, i - 1);
        let x = a.skip(i - 1);
        let y = b.skip(i - 1);
        assert(x[0] == a[i - 1] && y[0] == b[i - 1]);
        assert(x.skip(1) =~= a.skip(i));
        assert(y.skip(1) =~= b.skip(i));
    } else {
        assert(a.skip(0) =~= a);
        assert(b.skip(0) =~= b);
    }
}

fn order_octets(x: &Vec<u8>, y: &Vec<u8>) -> (r: Order)
    ensures r == octets_order(x@, y@),
{
    let mut i: usize = 0;
    while i < x.len() && i < y.len()
        invariant
            i <= x.len(),
            i <= y.len(),
            forall|k: int| 0 <= k < i ==> x[k] == y[k],
        decreases x.len() - i,
    {
        if x[i] != y[i] {
            proof {
                lemma_octets_less_skip(x@, y@, i as int);
                assert(x@.skip(i as int)[0] == x[i as int]);
                assert(y@.skip(i as int)[0] == y[i as int]);
            }
            return if x[i] < y[i] { Order::Less } else { Order::Greater };
        }
        i += 1;
    }
    proof {
        lemma_octets_less_skip(x@, y@, i as int);
        if x.len() == y.len() {
            assert(x@ =~= y@);
        }
    }
    if x.len() == y.len() {
        Order::Equal
    } else if x.len() < y.len() {
        Order::Less
    } else {
        Order::Greater
    }
}

/// The outcome `r` says what `o` finds; a refusal names the operator `sym`.
pub open spec fn order_outcome(h: Heap, sym: Seq<char>, o: Ordered, r: Result<Option<Order>, VErr>) -> bool {
    match o {
        Ordered::Known(x) => r == Ok::<Option<Order>, VErr>(Some(x)),
        Ordered::Ask => r == Ok::<Option<Order>, VErr>(None),
        Ordered::Refused(a, b) => r matches Err(e) && e@ == (Exc::TypeError, no_order_text(h, sym, a, b)),
    }
}

fn items_order(h: &Heap, x: &Vec<Value>, y: &Vec<Value>, sym: &str, fuel: usize) -> (r: Result<Option<Order>, VErr>)
    ensures order_outcome(*h, sym@, ordered_items(*h, x@, y@, 0, fuel as nat), r),
    decreases fuel, 1int,
{
    let mut i: usize = 0;
    while i < x.len() && i < y.len()
        invariant
            i <= x.len(),
            i <= y.len(),
            ordered_items(*h, x@, y@, 0, fuel as nat) == ordered_items(*h, x@, y@, i as int, fuel as nat),
        decreases x.len() - i,
    {
        match try_equals(h, x[i], y[i], fuel) {
            None => {
                return Ok(None);
            }
            Some(true) => {}
            Some(false) => {
                return try_order(h, x[i], y[i], sym, fuel);
            }
        }
        i += 1;
    }
    Ok(Some(if x.len() < y.len() {
        Order::Less
    } else if x.len() > y.len() {
        Order::Greater
    } else {
        Order::Equal
    }))
}

/// How two values stand, as far as that can be said here.
pub fn try_order(h: &Heap, a: Value, b: Value, sym: &str, fuel: usize) -> (r: Result<Option<Order>, VErr>)
    ensures order_outcome(*h, sym@, ordered(*h, a, b, fuel as nat), r),
    decreases fuel, 0int,
{
    if matches!(a, Value::Instance(_)) || matches!(b, Value::Instance(_)) {
        return Ok(None);
    }
    match (as_number(h, a), as_number(h, b)) {
        (Some(x), Some(y)) => {
            let o = order_numbers(h, &x, &y);
            assert(o == num_order(num(*h, a)->0, num(*h, b)->0));
            Ok(Some(o))
        }
        _ => match (a, b) {
            (Value::Str(x), Value::Str(y)) => Ok(Some(order_texts(h.text_of(x), h.text_of(y)))),
            (Value::Bytes(x), Value::Bytes(y)) => Ok(Some(order_octets(&h.octets_copy(x), &h.octets_copy(y)))),
            (Value::List(x), Value::List(y)) => if fuel == 0 {
                Ok(None)
            } else {
                items_order(h, &h.list_copy(x), &h.list_copy(y), sym, fuel - 1)
            },
            (Value::Tuple(x), Value::Tuple(y)) => if fuel == 0 {
                Ok(None)
            } else {
                items_order(h, &h.tuple_copy(x), &h.tuple_copy(y), sym, fuel - 1)
            },
            _ => Err(no_order(h, sym, a, b)),
        },
    }
}

/// Whether an ordering operator holds of two values that stand like `o`.
pub open spec fn rel_holds(op: RelOp, o: Order) -> bool {
    match op {
        RelOp::Lt => o == Order::Less,
        RelOp::Gt => o == Order::Greater,
        RelOp::LtEq => o == Order::Less || o == Order::Equal,
        RelOp::GtEq => o == Order::Greater || o == Order::Equal,
        RelOp::Eq => o == Order::Equal,
        RelOp::NotEq => o != Order::Equal,
        RelOp::In | RelOp::NotIn => false,
    }
}

/// Whether an ordering operator holds of two values that stand like `o`.
pub fn ord_holds(op: RelOp, o: Order) -> (r: bool)
    ensures r == rel_holds(op, o),
{
    match op {
        RelOp::Lt => matches!(o, Order::Less),
        RelOp::Gt => matches!(o, Order::Greater),
        RelOp::LtEq => matches!(o, Order::Less | Order::Equal),
        RelOp::GtEq => matches!(o, Order::Greater | Order::Equal),
        RelOp::Eq => matches!(o, Order::Equal),
        RelOp::NotEq => !matches!(o, Order::Equal),
        RelOp::In | RelOp::NotIn => false,
    }
}

/// The method an operator calls on its left operand.
pub open spec fn rel_dunder(op: RelOp) -> Option<Seq<char>> {
    match op {
        RelOp::Eq => Some("__eq__"@),
        RelOp::NotEq => Some("__ne__"@),
        RelOp::Lt => Some("__lt__"@),
        RelOp::Gt => Some("__gt__"@),
        RelOp::LtEq => Some("__le__"@),
        RelOp::GtEq => Some("__ge__"@),
        RelOp::In | RelOp::NotIn => None,
    }
}

/// The method an operator calls on its left operand.
pub fn rich_dunder(op: RelOp) -> (r: Option<&'static str>)
    ensures
        match r {
            Some(s) => rel_dunder(op) == Some(s@),
            None => rel_dunder(op) is None,
        },
{
    match op {
        RelOp::Eq => Some("__eq__"),
        RelOp::NotEq => Some("__ne__"),
        RelOp::Lt => Some("__lt__"),
        RelOp::Gt => Some("__gt__"),
        RelOp::LtEq => Some("__le__"),
        RelOp::GtEq => Some("__ge__"),
        RelOp::In | RelOp::NotIn => None,
    }
}

/// The operator that says the same with the operands exchanged.
pub open spec fn mirror(op: RelOp) -> RelOp {
    match op {
        RelOp::Lt => RelOp::Gt,
        RelOp::Gt => RelOp::Lt,
        RelOp::LtEq => RelOp::GtEq,
        RelOp::GtEq => RelOp::LtEq,
        _ => op,
    }
}

/// The method the right operand is asked when the left has nothing to say.
pub open spec fn rel_reflected(op: RelOp) -> Seq<char> {
    match op {
        RelOp::Lt => "__gt__"@,
        RelOp::Gt => "__lt__"@,
        RelOp::LtEq => "__ge__"@,
        RelOp::GtEq => "__le__"@,
        RelOp::NotEq => "__ne__"@,
        _ => "__eq__"@,
    }
}

/// The method the right operand is asked when the left has nothing to say.
pub fn reflect_dunder(op: RelOp) -> (r: &'static str)
    ensures r@ == rel_reflected(op),
{
    match op {
        RelOp::Lt => "__gt__",
        RelOp::Gt => "__lt__",
        RelOp::LtEq => "__ge__",
        RelOp::GtEq => "__le__",
        RelOp::NotEq => "__ne__",
        _ => "__eq__",
    }
}

/// The right operand is asked for the mirrored operator, and mirroring twice
/// changes nothing.
pub proof fn reflection_mirrors(op: RelOp)
    requires op != RelOp::In, op != RelOp::NotIn,
    ensures
        rel_dunder(mirror(op)) == Some(rel_reflected(op)),
        mirror(mirror(op)) == op,
{
}

/// What holds of `a` and `b` is the mirrored operator of `b` and `a`.
pub proof fn mirrored_relation(op: RelOp, a: Num, b: Num)
    ensures rel_holds(op, num_order(a, b)) == rel_holds(mirror(op), num_order(b, a)),
{
    crate::number::num_order_flips(a, b);
}

/// The symbol an ordering operator is written with.
pub open spec fn rel_symbol(op: RelOp) -> Seq<char> {
    match op {
        RelOp::Lt => "<"@,
        RelOp::Gt => ">"@,
        RelOp::LtEq => "<="@,
        RelOp::GtEq => ">="@,
        _ => "<"@,
    }
}

/// The symbol an ordering operator is written with.
pub fn op_symbol(op: RelOp) -> (r: &'static str)
    ensures r@ == rel_symbol(op),
{
    match op {
        RelOp::Lt => "<",
        RelOp::Gt => ">",
        RelOp::LtEq => "<=",
        RelOp::GtEq => ">=",
        _ => "<",
    }
}

} // verus!
