//! Membership, and the operators as far as they can be decided natively.
use vstd::prelude::*;
use crate::code::RelOp;
use crate::exc::{fault, runtime_error, type_error, Exc, VErr};
use crate::keys::{dict_get, lookup_key, unhashable, unhashable_text};
use crate::names::{kind_name, kind_name_of};
use crate::relation::{equals, is_same_object, op_symbol, ord_holds, ordered, rel_holds, rel_symbol, same_object, try_equals, try_order, Ordered, no_order_text, DEPTH_LIMIT};
use crate::text::{chars_of, join3, join5};
use crate::value::{Heap, RangeVal, Value};

verus! {

/// `needle` stands in `hay` at place `i`.
pub open spec fn octets_within_at(hay: Seq<u8>, needle: Seq<u8>, i: int) -> bool {
    0 <= i && i + needle.len() <= hay.len() && forall|k: int| 0 <= k < needle.len() ==> hay[i + k] == #[trigger] needle[k]
}

/// `needle` stands somewhere in `hay`.
pub open spec fn octets_within(hay: Seq<u8>, needle: Seq<u8>) -> bool {
    exists|i: int| #[trigger] octets_within_at(hay, needle, i)
}

fn subsequence_here(hay: &Vec<u8>, needle: &Vec<u8>, i: usize) -> (r: bool)
    requires i + needle.len() <= hay.len(),
    ensures r == octets_within_at(hay@, needle@, i as int),
{
    let mut k: usize = 0;
    while k < needle.len()
        invariant
            k <= needle.len(),
            i + needle.len() <= hay.len(),
            forall|j: int| 0 <= j < k ==> hay@[i + j] == #[trigger] needle@[j],
        decreases needle.len() - k,
    {
        if hay[i + k] != needle[k] {
            assert(needle@[k as int] != hay@[i + k]);
            return false;
        }
        k += 1;
    }
    true
}

/// Whether `needle` stands somewhere in `hay`; the empty one always does.
pub fn subsequence(hay: &Vec<u8>, needle: &Vec<u8>) -> (r: bool)
    ensures r == octets_within(hay@, needle@),
{
    if needle.len() > hay.len() {
        return false;
    }
    let last: usize = hay.len() - needle.len();
    let mut i: usize = 0;
    loop
        invariant
            i <= last,
            last == hay.len() - needle.len(),
            forall|j: int| 0 <= j < i ==> !#[trigger] octets_within_at(hay@, needle@, j),
        decreases last - i,
    {
        if subsequence_here(hay, needle, i) {
            return true;
        }
        if i == last {
            assert(forall|j: int| !#[trigger] octets_within_at(hay@, needle@, j));
            return false;
        }
        i += 1;
    }
}

/// `needle` stands in `hay` at place `i`.
pub open spec fn text_within_at(hay: Seq<char>, needle: Seq<char>, i: int) -> bool {
    0 <= i && i + needle.len() <= hay.len() && forall|k: int| 0 <= k < needle.len() ==> hay[i + k] == #[trigger] needle[k]
}

/// `needle` stands somewhere in `hay`.
pub open spec fn text_within(hay: Seq<char>, needle: Seq<char>) -> bool {
    exists|i: int| #[trigger] text_within_at(hay, needle, i)
}

fn subtext_here(hay: &Vec<char>, needle: &Vec<char>, i: usize) -> (r: bool)
    requires i + needle.len() <= hay.len(),
    ensures r == text_within_at(hay@, needle@, i as int),
{
    let mut k: usize = 0;
    while k < needle.len()
        invariant
            k <= needle.len(),
            i + needle.len() <= hay.len(),
            forall|j: int| 0 <= j < k ==> hay@[i + j] == #[trigger] needle@[j],
        decreases needle.len() - k,
    {
        if hay[i + k] != needle[k] {
            assert(needle@[k as int] != hay@[i + k]);
            return false;
        }
        k += 1;
    }
    true
}

/// Whether `needle` stands somewhere in `hay`; the empty one always does.
pub fn subtext(hay: &Vec<char>, needle: &Vec<char>) -> (r: bool)
    ensures r == text_within(hay@, needle@),
{
    if needle.len() > hay.len() {
        return false;
    }
    let last: usize = hay.len() - needle.len();
    let mut i: usize = 0;
    loop
        invariant
            i <= last,
            last == hay.len() - needle.len(),
            forall|j: int| 0 <= j < i ==> !#[trigger] text_within_at(hay@, needle@, j),
        decreases last - i,
    {
        if subtext_here(hay, needle, i) {
            return true;
        }
        if i == last {
            assert(forall|j: int| !#[trigger] text_within_at(hay@, needle@, j));
            return false;
        }
        i += 1;
    }
}

/// `n` is one of the numbers the range counts through.
pub open spec fn counts_through(r: RangeVal, n: int) -> bool {
    exists|k: int| k >= 0 && n == #[trigger] range_item(r, k) && (if r.step > 0 { n < r.stop } else { n > r.stop })
}

/// The number `k` steps into a range.
pub open spec fn range_item(r: RangeVal, k: int) -> int {
    r.start + k * r.step
}

/// The integer an item is, where it is an inline one or a bool.
pub open spec fn inline_int(v: Value) -> Option<int> {
    match v {
        Value::Int(i) => Some(i as int),
        Value::Bool(b) => Some(if b { 1int } else { 0int }),
        _ => None,
    }
}

/// Whether `item` is one of the numbers the range counts through.
pub fn range_contains(r: RangeVal, item: Value) -> (b: bool)
    requires r.step != 0,
    ensures b == (inline_int(item) matches Some(n) && counts_through(r, n)),
{
    let n: i64 = match item {
        Value::Int(i) => i,
        Value::Bool(b) => if b { 1 } else { 0 },
        _ => {
            return false;
        }
    };
    let start: i128 = r.start as i128;
    let step: i128 = r.step as i128;
    let x: i128 = n as i128;
    let (gap, size, inside): (i128, i128, bool) = if r.step > 0 {
        (x - start, step, n >= r.start && n < r.stop)
    } else {
        (start - x, -step, n <= r.start && n > r.stop)
    };
    let hit: bool = inside && gap % size == 0;
    proof {
        if hit {
            let k = gap as int / size as int;
            vstd::arithmetic::div_mod::lemma_fundamental_div_mod(gap as int, size as int);
            assert(k >= 0) by (nonlinear_arith)
                requires gap == size * k, size > 0, gap >= 0;
            assert(size * k == k * size) by (nonlinear_arith);
            assert(k * (-step as int) == -(k * step)) by (nonlinear_arith);
            assert(n as int == range_item(r, k));
        }
        if inside && counts_through(r, n as int) {
            let k = choose|k: int| k >= 0 && n as int == #[trigger] range_item(r, k)
                && (if r.step > 0 { n < r.stop } else { n > r.stop });
            assert(k * (-step as int) == -(k * step)) by (nonlinear_arith);
            assert(gap == k * size);
            vstd::arithmetic::div_mod::lemma_mod_multiples_basic(k, size as int);
        }
        if !inside && counts_through(r, n as int) {
            let k = choose|k: int| k >= 0 && n as int == #[trigger] range_item(r, k)
                && (if r.step > 0 { n < r.stop } else { n > r.stop });
            if r.step > 0 {
                assert(k * r.step >= 0) by (nonlinear_arith) requires k >= 0, r.step > 0;
            } else {
                assert(k * r.step <= 0) by (nonlinear_arith) requires k >= 0, r.step < 0;
            }
        }
    }
    hit
}

/// Whether `item` equals one of `items` from place `i` on; `None` where a
/// program's `__eq__` decides.
pub open spec fn scan(h: Heap, items: Seq<Value>, item: Value, i: int) -> Option<bool>
    decreases items.len() - i,
{
    if i < 0 || i >= items.len() {
        Some(false)
    } else {
        match equals(h, items[i], item, DEPTH_LIMIT as nat) {
            Some(true) => Some(true),
            Some(false) => scan(h, items, item, i + 1),
            None => if same_object(items[i], item) { Some(true) } else { None },
        }
    }
}

/// `item in items`, stopping at the first hit and giving up at the first
/// element that needs a program's `__eq__`.
pub fn seq_contains(h: &Heap, items: &Vec<Value>, item: Value) -> (r: Option<bool>)
    ensures r == scan(*h, items@, item, 0),
{
    let mut i: usize = 0;
    while i < items.len()
        invariant
            i <= items.len(),
            scan(*h, items@, item, 0) == scan(*h, items@, item, i as int),
        decreases items.len() - i,
    {
        match try_equals(h, items[i], item, DEPTH_LIMIT) {
            Some(true) => {
                return Some(true);
            }
            Some(false) => {}
            None => {
                return if is_same_object(items[i], item) { Some(true) } else { None };
            }
        }
        i += 1;
    }
    Some(false)
}

/// What asking whether `item` is in `c` finds.
pub open spec fn contains_result(h: Heap, c: Value, item: Value, r: Result<Option<bool>, VErr>) -> bool {
    match c {
        Value::Str(x) => match item {
            Value::Str(y) => r == Ok::<Option<bool>, VErr>(Some(text_within(h.text(x), h.text(y)))),
            _ => r matches Err(e) && e@ == (Exc::TypeError, "'in <string>' requires string as left operand"@),
        },
        Value::Bytes(x) => match item {
            Value::Bytes(y) => r == Ok::<Option<bool>, VErr>(Some(octets_within(h.octets(x), h.octets(y)))),
            _ => r matches Err(e) && e@ == (Exc::TypeError, "'in <bytes>' requires bytes as left operand"@),
        },
        Value::List(x) => r == Ok::<Option<bool>, VErr>(scan(h, h.list(x), item, 0)),
        Value::Tuple(x) => r == Ok::<Option<bool>, VErr>(scan(h, h.tuple(x), item, 0)),
        Value::Dict(x) => match unhashable(h, item) {
            None => r == Ok::<Option<bool>, VErr>(Some(lookup_key(h, h.dict(x), item) is Some)),
            Some(p) => r matches Err(e) && e@ == (Exc::TypeError, unhashable_text(h, p)),
        },
        Value::Range(x) => r == Ok::<Option<bool>, VErr>(Some(h.range(x).step != 0
            && (inline_int(item) matches Some(n) && counts_through(h.range(x), n)))),
        _ => r matches Err(e) && e@ == (Exc::TypeError,
            "argument of type '"@ + kind_name(h, c) + "' is not iterable"@),
    }
}

/// `item in container`, as far as that can be said here.
pub fn try_contains(h: &Heap, container: Value, item: Value) -> (r: Result<Option<bool>, VErr>)
    ensures contains_result(*h, container, item, r),
{
    match container {
        Value::Str(x) => match item {
            Value::Str(y) => Ok(Some(subtext(&chars_of(h.text_of(x)), &chars_of(h.text_of(y))))),
            _ => Err(fault(Exc::TypeError, "'in <string>' requires string as left operand")),
        },
        Value::Bytes(x) => match item {
            Value::Bytes(y) => Ok(Some(subsequence(&h.octets_copy(x), &h.octets_copy(y)))),
            _ => Err(fault(Exc::TypeError, "'in <bytes>' requires bytes as left operand")),
        },
        Value::List(x) => Ok(seq_contains(h, &h.list_copy(x), item)),
        Value::Tuple(x) => Ok(seq_contains(h, &h.tuple_copy(x), item)),
        Value::Dict(x) => match dict_get(h, x, item) {
            Ok(v) => Ok(Some(v.is_some())),
            Err(e) => Err(e),
        },
        Value::Range(x) => {
            let r = h.range_of(x);
            Ok(Some(r.step != 0 && range_contains(r, item)))
        }
        _ => Err(type_error(join3("argument of type '", kind_name_of(h, container), "' is not iterable"))),
    }
}

/// The elements that `item in container` scans, for the containers whose
/// membership is a run of `==`.
pub fn membership_items(h: &Heap, container: Value, item: Value) -> (r: Result<Vec<Value>, VErr>)
    ensures
        match container {
            Value::List(x) => r matches Ok(v) && v@ == h.list(x),
            Value::Tuple(x) => r matches Ok(v) && v@ == h.tuple(x),
            _ => r matches Err(e) && e@ == (Exc::RuntimeError, "internal: "@ + kind_name(*h, container)
                + " membership does not dispatch (item "@ + kind_name(*h, item) + ")"@),
        },
{
    match container {
        Value::List(x) => Ok(h.list_copy(x)),
        Value::Tuple(x) => Ok(h.tuple_copy(x)),
        _ => Err(runtime_error(join5("internal: ", kind_name_of(h, container),
            " membership does not dispatch (item ", kind_name_of(h, item), ")"))),
    }
}

/// The answer turned round.
pub open spec fn negated(r: Option<bool>) -> Option<bool> {
    match r {
        Some(b) => Some(!b),
        None => None,
    }
}

/// What a comparison operator finds without running a program's methods.
pub open spec fn relate_result(h: Heap, op: RelOp, a: Value, b: Value, r: Result<Option<bool>, VErr>) -> bool {
    match op {
        RelOp::Eq => r == Ok::<Option<bool>, VErr>(equals(h, a, b, DEPTH_LIMIT as nat)),
        RelOp::NotEq => r == Ok::<Option<bool>, VErr>(if a is Instance || b is Instance {
            None
        } else {
            negated(equals(h, a, b, DEPTH_LIMIT as nat))
        }),
        RelOp::In => contains_result(h, b, a, r),
        RelOp::NotIn => match r {
            Ok(x) => contains_result(h, b, a, Ok(negated(x))),
            Err(_) => contains_result(h, b, a, r),
        },
        _ => match ordered(h, a, b, DEPTH_LIMIT as nat) {
            Ordered::Known(o) => r == Ok::<Option<bool>, VErr>(Some(rel_holds(op, o))),
            Ordered::Ask => r == Ok::<Option<bool>, VErr>(None),
            Ordered::Refused(x, y) => r matches Err(e) && e@ == (Exc::TypeError,
                no_order_text(h, rel_symbol(op), x, y)),
        },
    }
}

/// Every comparison operator, as far as it can be decided here. `None` says
/// that a program's own method decides.
pub fn try_relation(h: &Heap, op: RelOp, a: Value, b: Value) -> (r: Result<Option<bool>, VErr>)
    ensures relate_result(*h, op, a, b, r),
{
    match op {
        RelOp::Eq => Ok(try_equals(h, a, b, DEPTH_LIMIT)),
        RelOp::NotEq => {
            if matches!(a, Value::Instance(_)) || matches!(b, Value::Instance(_)) {
                return Ok(None);
            }
            match try_equals(h, a, b, DEPTH_LIMIT) {
                Some(x) => Ok(Some(!x)),
                None => Ok(None),
            }
        }
        RelOp::In => try_contains(h, b, a),
        RelOp::NotIn => match try_contains(h, b, a) {
            Ok(Some(x)) => {
                assert(negated(Some(!x)) == Some(x));
                Ok(Some(!x))
            }
            Ok(None) => Ok(None),
            Err(e) => Err(e),
        },
        _ => match try_order(h, a, b, op_symbol(op), DEPTH_LIMIT) {
            Ok(Some(o)) => Ok(Some(ord_holds(op, o))),
            Ok(None) => Ok(None),
            Err(e) => Err(e),
        },
    }
}

/// How deep a scan for instances looks before it gives up.
pub const SCAN_DEPTH: usize = 8;

/// Could ordering this value need a program's method? An instance could, and
/// so could a container with one inside, or one nested past the scan.
pub open spec fn defers(h: Heap, v: Value, left: nat) -> bool
    decreases left, 0int, 0int,
{
    match v {
        Value::Instance(_) => true,
        _ => left == 0 || match v {
            Value::List(x) => defers_from(h, h.list(x), 0, (left - 1) as nat),
            Value::Tuple(x) => defers_from(h, h.tuple(x), 0, (left - 1) as nat),
            _ => false,
        },
    }
}

/// Could ordering one of these values from place `i` on need a program's
/// method?
pub open spec fn defers_from(h: Heap, items: Seq<Value>, i: int, left: nat) -> bool
    decreases left, 1int, items.len() - i,
{
    0 <= i < items.len() && (defers(h, items[i], left) || defers_from(h, items, i + 1, left))
}

fn defers_any(h: &Heap, items: &Vec<Value>, left: usize) -> (r: bool)
    ensures r == defers_from(*h, items@, 0, left as nat),
    decreases left, 1int,
{
    let mut i: usize = 0;
    while i < items.len()
        invariant
            i <= items.len(),
            defers_from(*h, items@, 0, left as nat) == defers_from(*h, items@, i as int, left as nat),
        decreases items.len() - i,
    {
        if defers_within(h, items[i], left) {
            return true;
        }
        i += 1;
    }
    false
}

fn defers_within(h: &Heap, v: Value, left: usize) -> (r: bool)
    ensures r == defers(*h, v, left as nat),
    decreases left, 0int,
{
    if matches!(v, Value::Instance(_)) {
        return true;
    }
    if left == 0 {
        return true;
    }
    match v {
        Value::List(x) => defers_any(h, &h.list_copy(x), left - 1),
        Value::Tuple(x) => defers_any(h, &h.tuple_copy(x), left - 1),
        _ => false,
    }
}

/// Could ordering this value against another need a program's method?
pub fn ord_defers(h: &Heap, v: Value) -> (r: bool)
    ensures r == defers(*h, v, SCAN_DEPTH as nat),
{
    defers_within(h, v, SCAN_DEPTH)
}

/// Do these arguments to an ordering need the machine rather than a native
/// one? What is uncertain says yes.
pub open spec fn needs_machine(h: Heap, args: Seq<Value>) -> bool {
    if args.len() == 1 {
        match args[0] {
            Value::List(x) => defers_from(h, h.list(x), 0, SCAN_DEPTH as nat),
            Value::Tuple(x) => defers_from(h, h.tuple(x), 0, SCAN_DEPTH as nat),
            Value::Str(_) | Value::Bytes(_) | Value::Range(_) => false,
            _ => true,
        }
    } else {
        defers_from(h, args, 0, SCAN_DEPTH as nat)
    }
}

/// Do these arguments to an ordering need the machine?
pub fn ord_needs_vm(h: &Heap, args: &Vec<Value>) -> (r: bool)
    ensures r == needs_machine(*h, args@),
{
    if args.len() == 1 {
        match args[0] {
            Value::List(x) => defers_any(h, &h.list_copy(x), SCAN_DEPTH),
            Value::Tuple(x) => defers_any(h, &h.tuple_copy(x), SCAN_DEPTH),
            Value::Str(_) | Value::Bytes(_) | Value::Range(_) => false,
            _ => true,
        }
    } else {
        defers_any(h, args, SCAN_DEPTH)
    }
}

} // verus!
