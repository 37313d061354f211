//! What the comparison operators say, in terms of what is compared.
use vstd::prelude::*;
use crate::code::RelOp;
use crate::exc::VErr;
use crate::membership::relate_result;
use crate::relation::{equal_items, equals, octets_less, ordered, ordered_items, Ordered, DEPTH_LIMIT};
use crate::number::Order;
use crate::text::chars_less;
use crate::value::{Heap, Value};

verus! {

/// The integer a value is, however it is held.
pub open spec fn whole(h: Heap, v: Value) -> Option<int> {
    match v {
        Value::Bool(b) => Some(if b { 1int } else { 0 }),
        Value::Int(i) => Some(i as int),
        Value::Big(i) => Some(h.big(i)),
        _ => None,
    }
}

/// The operator of this pair of numbers answers what arithmetic says.
pub open spec fn says(op: RelOp, x: int, y: int, r: Result<Option<bool>, VErr>) -> bool {
    match op {
        RelOp::Eq => r == Ok::<Option<bool>, VErr>(Some(x == y)),
        RelOp::NotEq => r == Ok::<Option<bool>, VErr>(Some(x != y)),
        RelOp::Lt => r == Ok::<Option<bool>, VErr>(Some(x < y)),
        RelOp::Gt => r == Ok::<Option<bool>, VErr>(Some(x > y)),
        RelOp::LtEq => r == Ok::<Option<bool>, VErr>(Some(x <= y)),
        RelOp::GtEq => r == Ok::<Option<bool>, VErr>(Some(x >= y)),
        _ => true,
    }
}

/// Integers of any size, and bools among them, compare as numbers do.
pub proof fn integers_compare_as_numbers(h: Heap, op: RelOp, a: Value, b: Value, r: Result<Option<bool>, VErr>)
    requires
        relate_result(h, op, a, b, r),
        whole(h, a) is Some,
        whole(h, b) is Some,
        op != RelOp::In && op != RelOp::NotIn,
    ensures says(op, whole(h, a)->0, whole(h, b)->0, r),
{
}

/// `s` comes before `t` in a dictionary: where they first part, it has the lower
/// character, or there is no more of it.
pub open spec fn text_before(s: Seq<char>, t: Seq<char>) -> bool {
    exists|k: int| #[trigger] parts_at(s, t, k)
}

/// `s` and `t` agree up to `k`, and there `s` is lower or at its end.
pub open spec fn parts_at(s: Seq<char>, t: Seq<char>, k: int) -> bool {
    &&& 0 <= k <= s.len()
    &&& k < t.len()
    &&& forall|j: int| 0 <= j < k ==> s[j] == t[j]
    &&& k == s.len() || (s[k] as u32) < (t[k] as u32)
}

/// The same of octets.
pub open spec fn octets_before(s: Seq<u8>, t: Seq<u8>) -> bool {
    exists|k: int| #[trigger] octets_part_at(s, t, k)
}

/// The same of octets.
pub open spec fn octets_part_at(s: Seq<u8>, t: Seq<u8>, k: int) -> bool {
    &&& 0 <= k <= s.len()
    &&& k < t.len()
    &&& forall|j: int| 0 <= j < k ==> s[j] == t[j]
    &&& k == s.len() || s[k] < t[k]
}

pub proof fn lemma_text_before(s: Seq<char>, t: Seq<char>)
    ensures chars_less(s, t) == text_before(s, t),
    decreases s.len(),
{
    if t.len() == 0 {
    } else if s.len() == 0 {
        assert(parts_at(s, t, 0));
    } else if s[0] == t[0] {
        let s1 = s.skip(1);
        let t1 = t.skip(1);
        lemma_text_before(s1, t1);
        if text_before(s1, t1) {
            let k = choose|k: int| #[trigger] parts_at(s1, t1, k);
            assert forall|j: int| 0 <= j < k + 1 implies s[j] == t[j] by {
                if j > 0 {
                    assert(s1[j - 1] == t1[j - 1]);
                }
            }
            assert(parts_at(s, t, k + 1));
        }
        if text_before(s, t) {
            let k = choose|k: int| #[trigger] parts_at(s, t, k);
            assert(k > 0);
            assert(parts_at(s1, t1, k - 1));
        }
    } else {
        if (s[0] as u32) < (t[0] as u32) {
            assert(parts_at(s, t, 0));
        }
        if text_before(s, t) {
            let k = choose|k: int| #[trigger] parts_at(s, t, k);
            if k > 0 {
                assert(s[0] == t[0]);
            }
        }
    }
}

pub proof fn lemma_octets_before(s: Seq<u8>, t: Seq<u8>)
    ensures octets_less(s, t) == octets_before(s, t),
    decreases s.len(),
{
    if t.len() == 0 {
    } else if s.len() == 0 {
        assert(octets_part_at(s, t, 0));
    } else if s[0] == t[0] {
        let s1 = s.skip(1);
        let t1 = t.skip(1);
        lemma_octets_before(s1, t1);
        if octets_before(s1, t1) {
            let k = choose|k: int| #[trigger] octets_part_at(s1, t1, k);
            assert forall|j: int| 0 <= j < k + 1 implies s[j] == t[j] by {
                if j > 0 {
                    assert(s1[j - 1] == t1[j - 1]);
                }
            }
            assert(octets_part_at(s, t, k + 1));
        }
        if octets_before(s, t) {
            let k = choose|k: int| #[trigger] octets_part_at(s, t, k);
            assert(k > 0);
            assert(octets_part_at(s1, t1, k - 1));
        }
    } else {
        if s[0] < t[0] {
            assert(octets_part_at(s, t, 0));
        }
        if octets_before(s, t) {
            let k = choose|k: int| #[trigger] octets_part_at(s, t, k);
            if k > 0 {
                assert(s[0] == t[0]);
            }
        }
    }
}

/// An answer that goes by what comes before what.
pub open spec fn answers(op: RelOp, same: bool, less: bool, more: bool, r: Result<Option<bool>, VErr>) -> bool {
    match op {
        RelOp::Eq => r == Ok::<Option<bool>, VErr>(Some(same)),
        RelOp::NotEq => r == Ok::<Option<bool>, VErr>(Some(!same)),
        RelOp::Lt => r == Ok::<Option<bool>, VErr>(Some(less)),
        RelOp::Gt => r == Ok::<Option<bool>, VErr>(Some(more)),
        RelOp::LtEq => r == Ok::<Option<bool>, VErr>(Some(less || same)),
        RelOp::GtEq => r == Ok::<Option<bool>, VErr>(Some(more || same)),
        _ => true,
    }
}

proof fn lemma_same_char(a: char, b: char)
    ensures a as u32 == b as u32 ==> a == b,
{
}

proof fn lemma_texts_part(s: Seq<char>, t: Seq<char>)
    ensures
        text_before(s, t) || text_before(t, s) || s == t,
        !(text_before(s, t) && text_before(t, s)),
        s == t ==> !text_before(s, t),
    decreases s.len(),
{
    if text_before(s, t) && (text_before(t, s) || s == t) {
        let k = choose|k: int| #[trigger] parts_at(s, t, k);
        if text_before(t, s) {
            let l = choose|l: int| #[trigger] parts_at(t, s, l);
            if l < k {
                assert(s[l] == t[l]);
            } else if k < l {
                assert(s[k] == t[k]);
            }
        }
    }
    if s.len() > 0 && t.len() > 0 && s[0] == t[0] {
        lemma_texts_part(s.skip(1), t.skip(1));
        lemma_text_before(s, t);
        lemma_text_before(t, s);
        lemma_text_before(s.skip(1), t.skip(1));
        lemma_text_before(t.skip(1), s.skip(1));
        if s.skip(1) == t.skip(1) {
            assert forall|j: int| 0 <= j < s.len() implies s[j] == t[j] by {
                if j > 0 {
                    assert(s.skip(1)[j - 1] == t.skip(1)[j - 1]);
                }
            }
            assert(s =~= t);
        }
    } else if s.len() == 0 && t.len() == 0 {
        assert(s =~= t);
    } else if s.len() == 0 {
        assert(parts_at(s, t, 0));
    } else if t.len() == 0 {
        assert(parts_at(t, s, 0));
    } else if (s[0] as u32) < (t[0] as u32) {
        assert(parts_at(s, t, 0));
    } else {
        lemma_same_char(s[0], t[0]);
        assert(parts_at(t, s, 0));
    }
}

proof fn lemma_octets_part(s: Seq<u8>, t: Seq<u8>)
    ensures
        octets_before(s, t) || octets_before(t, s) || s == t,
        !(octets_before(s, t) && octets_before(t, s)),
        s == t ==> !octets_before(s, t),
    decreases s.len(),
{
    if octets_before(s, t) && (octets_before(t, s) || s == t) {
        let k = choose|k: int| #[trigger] octets_part_at(s, t, k);
        if octets_before(t, s) {
            let l = choose|l: int| #[trigger] octets_part_at(t, s, l);
            if l < k {
                assert(s[l] == t[l]);
            } else if k < l {
                assert(s[k] == t[k]);
            }
        }
    }
    if s.len() > 0 && t.len() > 0 && s[0] == t[0] {
        lemma_octets_part(s.skip(1), t.skip(1));
        lemma_octets_before(s, t);
        lemma_octets_before(t, s);
        lemma_octets_before(s.skip(1), t.skip(1));
        lemma_octets_before(t.skip(1), s.skip(1));
        if s.skip(1) == t.skip(1) {
            assert forall|j: int| 0 <= j < s.len() implies s[j] == t[j] by {
                if j > 0 {
                    assert(s.skip(1)[j - 1] == t.skip(1)[j - 1]);
                }
            }
            assert(s =~= t);
        }
    } else if s.len() == 0 && t.len() == 0 {
        assert(s =~= t);
    } else if s.len() == 0 {
        assert(octets_part_at(s, t, 0));
    } else if t.len() == 0 {
        assert(octets_part_at(t, s, 0));
    } else if s[0] < t[0] {
        assert(octets_part_at(s, t, 0));
    } else {
        assert(octets_part_at(t, s, 0));
    }
}

/// Texts are equal when they have the same characters, and are ordered as in a
/// dictionary.
pub proof fn texts_compare_as_in_a_dictionary(h: Heap, op: RelOp, x: usize, y: usize, r: Result<Option<bool>, VErr>)
    requires
        relate_result(h, op, Value::Str(x), Value::Str(y), r),
        op != RelOp::In && op != RelOp::NotIn,
    ensures
        answers(op, h.text(x) == h.text(y), text_before(h.text(x), h.text(y)), text_before(h.text(y), h.text(x)), r),
{
    lemma_text_before(h.text(x), h.text(y));
    lemma_texts_part(h.text(x), h.text(y));
}

/// Octets are equal when they are the same, and are ordered as in a dictionary.
pub proof fn octets_compare_as_in_a_dictionary(h: Heap, op: RelOp, x: usize, y: usize, r: Result<Option<bool>, VErr>)
    requires
        relate_result(h, op, Value::Bytes(x), Value::Bytes(y), r),
        op != RelOp::In && op != RelOp::NotIn,
    ensures
        answers(op, h.octets(x) == h.octets(y), octets_before(h.octets(x), h.octets(y)), octets_before(h.octets(y), h.octets(x)), r),
{
    lemma_octets_before(h.octets(x), h.octets(y));
    lemma_octets_part(h.octets(x), h.octets(y));
}

/// Two integers, two texts or two octet strings.
pub open spec fn plain_pair(h: Heap, a: Value, b: Value) -> bool {
    ||| whole(h, a) is Some && whole(h, b) is Some
    ||| a is Str && b is Str
    ||| a is Bytes && b is Bytes
}

/// The same integer, text or octet string.
pub open spec fn plain_same(h: Heap, a: Value, b: Value) -> bool {
    match (a, b) {
        (Value::Str(x), Value::Str(y)) => h.text(x) == h.text(y),
        (Value::Bytes(x), Value::Bytes(y)) => h.octets(x) == h.octets(y),
        _ => whole(h, a) is Some && whole(h, a) == whole(h, b),
    }
}

/// The lower integer, or the earlier text or octet string.
pub open spec fn plain_less(h: Heap, a: Value, b: Value) -> bool {
    match (a, b) {
        (Value::Str(x), Value::Str(y)) => text_before(h.text(x), h.text(y)),
        (Value::Bytes(x), Value::Bytes(y)) => octets_before(h.octets(x), h.octets(y)),
        _ => whole(h, a) matches Some(x) && (whole(h, b) matches Some(y) && x < y),
    }
}

/// The items of a list or of a tuple.
pub open spec fn row(h: Heap, v: Value) -> Seq<Value> {
    match v {
        Value::List(x) => h.list(x),
        Value::Tuple(x) => h.tuple(x),
        _ => Seq::empty(),
    }
}

/// Two lists, or two tuples.
pub open spec fn row_pair(a: Value, b: Value) -> bool {
    (a is List && b is List) || (a is Tuple && b is Tuple)
}

/// Places that both have are of one plain kind.
pub open spec fn plain_rows(h: Heap, xs: Seq<Value>, ys: Seq<Value>) -> bool {
    forall|j: int| 0 <= j < xs.len() && j < ys.len() ==> plain_pair(h, #[trigger] xs[j], ys[j])
}

/// The first `k` places hold the same.
pub open spec fn rows_agree(h: Heap, xs: Seq<Value>, ys: Seq<Value>, k: int) -> bool {
    forall|j: int| 0 <= j < k ==> plain_same(h, #[trigger] xs[j], ys[j])
}

/// As long as each other, and the same at every place.
pub open spec fn rows_alike(h: Heap, xs: Seq<Value>, ys: Seq<Value>) -> bool {
    xs.len() == ys.len() && rows_agree(h, xs, ys, xs.len() as int)
}

/// The rows agree up to `k`, and there `xs` holds less or is at its end.
pub open spec fn row_less_at(h: Heap, xs: Seq<Value>, ys: Seq<Value>, k: int) -> bool {
    &&& 0 <= k <= xs.len()
    &&& k < ys.len()
    &&& rows_agree(h, xs, ys, k)
    &&& k == xs.len() || plain_less(h, xs[k], ys[k])
}

/// `xs` comes before `ys` by the first place where they part.
pub open spec fn row_less(h: Heap, xs: Seq<Value>, ys: Seq<Value>) -> bool {
    exists|k: int| #[trigger] row_less_at(h, xs, ys, k)
}

proof fn lemma_plain(h: Heap, a: Value, b: Value, fuel: nat)
    requires plain_pair(h, a, b),
    ensures
        plain_same(h, a, b) == plain_same(h, b, a),
        plain_less(h, a, b) || plain_less(h, b, a) || plain_same(h, a, b),
        !(plain_less(h, a, b) && plain_less(h, b, a)),
        plain_same(h, a, b) ==> !plain_less(h, a, b) && !plain_less(h, b, a),
        equals(h, a, b, fuel) == Some(plain_same(h, a, b)),
        ordered(h, a, b, fuel) == Ordered::Known(if plain_less(h, a, b) { Order::Less } else if plain_same(h, a, b) { Order::Equal } else { Order::Greater }),
{
    if let (Value::Str(x), Value::Str(y)) = (a, b) {
        lemma_text_before(h.text(x), h.text(y));
        lemma_texts_part(h.text(x), h.text(y));
    }
    if let (Value::Bytes(x), Value::Bytes(y)) = (a, b) {
        lemma_octets_before(h.octets(x), h.octets(y));
        lemma_octets_part(h.octets(x), h.octets(y));
    }
}

proof fn lemma_rows(h: Heap, xs: Seq<Value>, ys: Seq<Value>, i: int, fuel: nat)
    requires
        plain_rows(h, xs, ys),
        0 <= i <= xs.len(),
        i <= ys.len(),
        rows_agree(h, xs, ys, i),
    ensures
        match ordered_items(h, xs, ys, i, fuel) {
            Ordered::Known(Order::Less) => row_less(h, xs, ys) && !row_less(h, ys, xs) && !rows_alike(h, xs, ys),
            Ordered::Known(Order::Equal) => !row_less(h, xs, ys) && !row_less(h, ys, xs) && rows_alike(h, xs, ys),
            Ordered::Known(Order::Greater) => !row_less(h, xs, ys) && row_less(h, ys, xs) && !rows_alike(h, xs, ys),
            _ => false,
        },
        xs.len() == ys.len() ==> equal_items(h, xs, ys, i, fuel) == Some(rows_alike(h, xs, ys)),
    decreases xs.len() - i,
{
    assert forall|j: int| 0 <= j < xs.len() && j < ys.len() implies {
        &&& plain_same(h, #[trigger] xs[j], ys[j]) == plain_same(h, ys[j], xs[j])
        &&& plain_same(h, xs[j], ys[j]) ==> !plain_less(h, xs[j], ys[j]) && !plain_less(h, ys[j], xs[j])
        &&& !(plain_less(h, xs[j], ys[j]) && plain_less(h, ys[j], xs[j]))
    } by {
        lemma_plain(h, xs[j], ys[j], fuel);
    }
    assert(rows_agree(h, ys, xs, i)) by {
        assert forall|j: int| 0 <= j < i implies plain_same(h, #[trigger] ys[j], xs[j]) by {
            let t = xs[j];
        }
    }
    if i < xs.len() && i < ys.len() {
        lemma_plain(h, xs[i], ys[i], fuel);
        if plain_same(h, xs[i], ys[i]) {
            lemma_rows(h, xs, ys, i + 1, fuel);
        } else {
            if plain_less(h, xs[i], ys[i]) {
                assert(row_less_at(h, xs, ys, i));
            } else {
                assert(row_less_at(h, ys, xs, i));
            }
            lemma_parted(h, xs, ys, i);
        }
    } else {
        if xs.len() < ys.len() {
            assert(row_less_at(h, xs, ys, i));
        }
        if ys.len() < xs.len() {
            assert(row_less_at(h, ys, xs, i));
        }
        if row_less(h, xs, ys) {
            let k = choose|k: int| #[trigger] row_less_at(h, xs, ys, k);
            if k < i {
                let t = xs[k];
            }
        }
        if row_less(h, ys, xs) {
            let k = choose|k: int| #[trigger] row_less_at(h, ys, xs, k);
            if k < i {
                let t = xs[k];
                assert(plain_same(h, xs[k], ys[k]));
            }
        }
    }
}

proof fn lemma_parted(h: Heap, xs: Seq<Value>, ys: Seq<Value>, i: int)
    requires
        plain_rows(h, xs, ys),
        0 <= i < xs.len(),
        i < ys.len(),
        rows_agree(h, xs, ys, i),
        !plain_same(h, xs[i], ys[i]),
    ensures
        row_less(h, xs, ys) ==> plain_less(h, xs[i], ys[i]),
        row_less(h, ys, xs) ==> plain_less(h, ys[i], xs[i]),
{
    if row_less(h, xs, ys) {
        let k = choose|k: int| #[trigger] row_less_at(h, xs, ys, k);
        if k < i {
            lemma_plain(h, xs[k], ys[k], 0);
        } else if i < k {
            assert(plain_same(h, xs[i], ys[i]));
        }
    }
    if row_less(h, ys, xs) {
        let k = choose|k: int| #[trigger] row_less_at(h, ys, xs, k);
        if k < i {
            lemma_plain(h, xs[k], ys[k], 0);
        } else if i < k {
            assert(plain_same(h, ys[i], xs[i]));
            lemma_plain(h, xs[i], ys[i], 0);
        }
    }
}

/// Two lists, or two tuples, of integers, texts and octets are equal when they
/// are as long and hold the same at every place; the first place where they
/// part orders them, and a row that ends there comes first.
pub proof fn rows_compare_place_by_place(h: Heap, op: RelOp, a: Value, b: Value, r: Result<Option<bool>, VErr>)
    requires
        relate_result(h, op, a, b, r),
        row_pair(a, b),
        plain_rows(h, row(h, a), row(h, b)),
        op != RelOp::In && op != RelOp::NotIn,
    ensures
        answers(op, rows_alike(h, row(h, a), row(h, b)), row_less(h, row(h, a), row(h, b)),
            row_less(h, row(h, b), row(h, a)), r),
{
    let xs = row(h, a);
    let ys = row(h, b);
    lemma_rows(h, xs, ys, 0, (DEPTH_LIMIT - 1) as nat);
    if a == b {
        assert forall|j: int| 0 <= j < xs.len() implies plain_same(h, #[trigger] xs[j], ys[j]) by {
            lemma_plain(h, xs[j], ys[j], 0);
        }
    }
}

proof fn lemma_equal_items(h: Heap, xs: Seq<Value>, ys: Seq<Value>, i: int, fuel: nat)
    requires
        0 <= i <= xs.len(),
        xs.len() == ys.len(),
    ensures
        equal_items(h, xs, ys, i, fuel) == Some(true)
            <==> forall|k: int| i <= k < xs.len() ==> equals(h, #[trigger] xs[k], ys[k], fuel) == Some(true),
        equal_items(h, xs, ys, i, fuel) == Some(false)
            ==> exists|k: int| i <= k < xs.len() && equals(h, #[trigger] xs[k], ys[k], fuel) == Some(false),
        equal_items(h, xs, ys, i, fuel) is None
            ==> exists|k: int| i <= k < xs.len() && equals(h, #[trigger] xs[k], ys[k], fuel) is None,
    decreases xs.len() - i,
{
    if i < xs.len() {
        lemma_equal_items(h, xs, ys, i + 1, fuel);
        let e = equals(h, xs[i], ys[i], fuel);
        if e == Some(true) {
            if forall|k: int| i + 1 <= k < xs.len() ==> equals(h, #[trigger] xs[k], ys[k], fuel) == Some(true) {
                assert forall|k: int| i <= k < xs.len() implies equals(h, #[trigger] xs[k], ys[k], fuel) == Some(true) by {
                    if k > i {
                    }
                }
            }
        }
    }
}

/// Two lists, or two tuples, that are not the same one: found equal exactly
/// when they are as long as each other and every pair of items at one place is
/// found equal, one level further down; found unequal only where the lengths
/// differ or some pair is found unequal.
pub proof fn equal_rows_agree_everywhere(h: Heap, a: Value, b: Value, fuel: nat)
    requires
        row_pair(a, b),
        a != b,
        fuel > 0,
    ensures
        equals(h, a, b, fuel) == Some(true) <==> {
            &&& row(h, a).len() == row(h, b).len()
            &&& forall|k: int| 0 <= k < row(h, a).len()
                ==> equals(h, #[trigger] row(h, a)[k], row(h, b)[k], (fuel - 1) as nat) == Some(true)
        },
        equals(h, a, b, fuel) == Some(false) ==> {
            ||| row(h, a).len() != row(h, b).len()
            ||| exists|k: int| 0 <= k < row(h, a).len()
                && equals(h, #[trigger] row(h, a)[k], row(h, b)[k], (fuel - 1) as nat) == Some(false)
        },
        equals(h, a, b, fuel) is None ==> exists|k: int| 0 <= k < row(h, a).len()
            && equals(h, #[trigger] row(h, a)[k], row(h, b)[k], (fuel - 1) as nat) is None,
{
    if row(h, a).len() == row(h, b).len() {
        lemma_equal_items(h, row(h, a), row(h, b), 0, (fuel - 1) as nat);
    }
}

/// Two lists, or two tuples, that hold different integers, texts or octets at
/// some place are never found equal; where no item's own method has a say they
/// are found unequal.
pub proof fn rows_that_differ_are_unequal(h: Heap, a: Value, b: Value, k: int, fuel: nat)
    requires
        row_pair(a, b),
        0 <= k < row(h, a).len(),
        k < row(h, b).len(),
        plain_pair(h, row(h, a)[k], row(h, b)[k]),
        !plain_same(h, row(h, a)[k], row(h, b)[k]),
        fuel > 0,
    ensures
        equals(h, a, b, fuel) != Some(true),
        (forall|j: int| 0 <= j < row(h, a).len() && j < row(h, b).len()
            ==> equals(h, #[trigger] row(h, a)[j], row(h, b)[j], (fuel - 1) as nat) is Some)
            ==> equals(h, a, b, fuel) == Some(false),
{
    lemma_plain(h, row(h, a)[k], row(h, b)[k], (fuel - 1) as nat);
    equal_rows_agree_everywhere(h, a, b, fuel);
}

/// The first pair that is not equal decides the order of two lists or two
/// tuples, whatever it is: the rows stand as that pair does.
pub proof fn first_difference_decides(h: Heap, a: Value, b: Value, k: int, fuel: nat)
    requires
        row_pair(a, b),
        fuel > 0,
        0 <= k < row(h, a).len(),
        k < row(h, b).len(),
        forall|j: int| 0 <= j < k ==> equals(h, #[trigger] row(h, a)[j], row(h, b)[j], (fuel - 1) as nat) == Some(true),
        equals(h, row(h, a)[k], row(h, b)[k], (fuel - 1) as nat) == Some(false),
    ensures
        ordered(h, a, b, fuel) == ordered(h, row(h, a)[k], row(h, b)[k], (fuel - 1) as nat),
{
    lemma_skip_equal(h, row(h, a), row(h, b), 0, k, (fuel - 1) as nat);
}

proof fn lemma_skip_equal(h: Heap, xs: Seq<Value>, ys: Seq<Value>, i: int, k: int, fuel: nat)
    requires
        0 <= i <= k <= xs.len(),
        k <= ys.len(),
        forall|j: int| 0 <= j < k ==> equals(h, #[trigger] xs[j], ys[j], fuel) == Some(true),
    ensures ordered_items(h, xs, ys, i, fuel) == ordered_items(h, xs, ys, k, fuel),
    decreases k - i,
{
    if i < k {
        lemma_skip_equal(h, xs, ys, i + 1, k, fuel);
    }
}

/// Of two lists or two tuples that are equal as far as the shorter goes, the
/// shorter comes first.
pub proof fn a_prefix_comes_first(h: Heap, a: Value, b: Value, fuel: nat)
    requires
        row_pair(a, b),
        fuel > 0,
        row(h, a).len() < row(h, b).len(),
        forall|j: int| 0 <= j < row(h, a).len()
            ==> equals(h, #[trigger] row(h, a)[j], row(h, b)[j], (fuel - 1) as nat) == Some(true),
    ensures ordered(h, a, b, fuel) == Ordered::Known(Order::Less),
{
    lemma_skip_equal(h, row(h, a), row(h, b), 0, row(h, a).len() as int, (fuel - 1) as nat);
}

/// What can stand in one comparison for order here: two integers, texts or
/// octet strings, or two lists or two tuples of such.
pub open spec fn comparable(h: Heap, a: Value, b: Value) -> bool {
    plain_pair(h, a, b) || (row_pair(a, b) && plain_rows(h, row(h, a), row(h, b)))
}

/// `a` comes before `b`.
pub open spec fn below(h: Heap, a: Value, b: Value) -> bool {
    if row_pair(a, b) { row_less(h, row(h, a), row(h, b)) } else { plain_less(h, a, b) }
}

/// Of two that can be compared, at most one comes before the other, and the
/// order says which.
pub proof fn lemma_below(h: Heap, a: Value, b: Value)
    requires comparable(h, a, b),
    ensures
        !(below(h, a, b) && below(h, b, a)),
        ordered(h, a, b, DEPTH_LIMIT as nat) == Ordered::Known(if below(h, a, b) { Order::Less } else if below(h, b, a) { Order::Greater } else { Order::Equal }),
{
    if row_pair(a, b) {
        lemma_rows(h, row(h, a), row(h, b), 0, (DEPTH_LIMIT - 1) as nat);
    } else {
        lemma_plain(h, a, b, DEPTH_LIMIT as nat);
    }
}

proof fn lemma_text_chain(a: Seq<char>, b: Seq<char>, c: Seq<char>)
    ensures text_before(a, b) && text_before(b, c) ==> text_before(a, c),
{
    if text_before(a, b) && text_before(b, c) {
        let k = choose|k: int| #[trigger] parts_at(a, b, k);
        let l = choose|l: int| #[trigger] parts_at(b, c, l);
        if k <= l {
            assert(parts_at(a, c, k));
        } else {
            assert(parts_at(a, c, l));
        }
    }
}

proof fn lemma_octets_chain(a: Seq<u8>, b: Seq<u8>, c: Seq<u8>)
    ensures octets_before(a, b) && octets_before(b, c) ==> octets_before(a, c),
{
    if octets_before(a, b) && octets_before(b, c) {
        let k = choose|k: int| #[trigger] octets_part_at(a, b, k);
        let l = choose|l: int| #[trigger] octets_part_at(b, c, l);
        if k <= l {
            assert(octets_part_at(a, c, k));
        } else {
            assert(octets_part_at(a, c, l));
        }
    }
}

proof fn lemma_plain_chain(h: Heap, a: Value, b: Value, c: Value)
    requires
        plain_pair(h, a, b),
        plain_pair(h, b, c),
    ensures
        plain_pair(h, a, c),
        plain_same(h, a, b) && plain_same(h, b, c) ==> plain_same(h, a, c),
        plain_same(h, a, b) && plain_less(h, b, c) ==> plain_less(h, a, c),
        plain_less(h, a, b) && plain_same(h, b, c) ==> plain_less(h, a, c),
        plain_less(h, a, b) && plain_less(h, b, c) ==> plain_less(h, a, c),
{
    if a is Str {
        lemma_text_chain(h.text(a->Str_0), h.text(b->Str_0), h.text(c->Str_0));
    }
    if a is Bytes {
        lemma_octets_chain(h.octets(a->Bytes_0), h.octets(b->Bytes_0), h.octets(c->Bytes_0));
    }
}

/// `xs` before or the same as `ys`, at place `k` at the latest.
spec fn not_after(h: Heap, xs: Seq<Value>, ys: Seq<Value>) -> bool {
    row_less(h, xs, ys) || rows_alike(h, xs, ys)
}

proof fn lemma_row_chain(h: Heap, xs: Seq<Value>, ys: Seq<Value>, zs: Seq<Value>)
    requires
        plain_rows(h, xs, ys),
        plain_rows(h, ys, zs),
        plain_rows(h, xs, zs),
    ensures
        row_less(h, xs, ys) && not_after(h, ys, zs) ==> row_less(h, xs, zs),
        not_after(h, xs, ys) && row_less(h, ys, zs) ==> row_less(h, xs, zs),
        not_after(h, xs, ys) && not_after(h, ys, zs) ==> not_after(h, xs, zs),
{
    assert forall|j: int| 0 <= j < xs.len() && j < ys.len() && j < zs.len() implies {
        let (a, b, c) = (#[trigger] xs[j], ys[j], zs[j]);
        &&& plain_same(h, a, b) && plain_same(h, b, c) ==> plain_same(h, a, c)
        &&& plain_same(h, a, b) && plain_less(h, b, c) ==> plain_less(h, a, c)
        &&& plain_less(h, a, b) && plain_same(h, b, c) ==> plain_less(h, a, c)
        &&& plain_less(h, a, b) && plain_less(h, b, c) ==> plain_less(h, a, c)
    } by {
        assert(plain_pair(h, ys[j], zs[j]));
        lemma_plain_chain(h, xs[j], ys[j], zs[j]);
    }
    let k = if row_less(h, xs, ys) { choose|k: int| #[trigger] row_less_at(h, xs, ys, k) } else { xs.len() as int };
    let l = if row_less(h, ys, zs) { choose|l: int| #[trigger] row_less_at(h, ys, zs, l) } else { ys.len() as int };
    if not_after(h, xs, ys) && not_after(h, ys, zs) {
        let m = if k <= l { k } else { l };
        assert forall|j: int| 0 <= j < m implies plain_same(h, #[trigger] xs[j], zs[j]) by {
            assert(plain_same(h, ys[j], zs[j]));
        }
        if m < ys.len() && l <= k {
            let t = ys[m];
        }
        if row_less(h, xs, ys) || row_less(h, ys, zs) {
            if m < xs.len() {
                let t = xs[m];
                if k < l {
                    assert(plain_same(h, ys[m], zs[m]));
                }
            }
            assert(row_less_at(h, xs, zs, m));
        }
    }
}

/// Three that can be compared pairwise are in order.
pub proof fn lemma_below_chain(h: Heap, a: Value, b: Value, c: Value)
    requires
        comparable(h, a, b),
        comparable(h, b, c),
        comparable(h, a, c),
    ensures
        below(h, a, b) && below(h, b, c) ==> below(h, a, c),
        below(h, a, c) ==> below(h, a, b) || below(h, b, c),
{
    if row_pair(a, b) {
        let (xs, ys, zs) = (row(h, a), row(h, b), row(h, c));
        lemma_rows(h, xs, ys, 0, 0);
        lemma_rows(h, ys, zs, 0, 0);
        lemma_rows(h, xs, zs, 0, 0);
        lemma_row_chain(h, xs, ys, zs);
        lemma_turned(h, xs, ys);
        lemma_turned(h, ys, zs);
        lemma_turned(h, xs, zs);
        lemma_row_chain(h, zs, ys, xs);
    } else {
        lemma_plain(h, a, b, 0);
        lemma_plain(h, b, c, 0);
        lemma_plain(h, a, c, 0);
        lemma_plain_chain(h, a, b, c);
        lemma_plain_chain(h, c, b, a);
    }
}

proof fn lemma_turned(h: Heap, xs: Seq<Value>, ys: Seq<Value>)
    requires plain_rows(h, xs, ys),
    ensures
        plain_rows(h, ys, xs),
        rows_alike(h, xs, ys) ==> rows_alike(h, ys, xs),
{
    assert forall|j: int| 0 <= j < ys.len() && j < xs.len() implies plain_pair(h, #[trigger] ys[j], xs[j]) by {
        let t = xs[j];
    }
    if rows_alike(h, xs, ys) {
        assert forall|j: int| 0 <= j < ys.len() implies plain_same(h, #[trigger] ys[j], xs[j]) by {
            lemma_plain(h, xs[j], ys[j], 0);
        }
    }
}

} // verus!
