//! What a comparison comes to that asks a program on the way.
use vstd::prelude::*;
use crate::code::RelOp;
use crate::deep::{level_step, LevelNext};
use crate::machine::Level;
use crate::relation::same_object;
use crate::value::Value;

verus! {

/// What is answered to a question about two values.
pub type Answers = spec_fn(Value, Value, RelOp) -> bool;

/// In `n` questions at most, with these answers, the level comes to `out`.
pub open spec fn level_comes_to(l: Level, incoming: Option<bool>, says: Answers, out: bool, n: nat) -> bool
    decreases n,
{
    exists|to: Level, next: LevelNext| #[trigger] level_step(l, to, incoming, next) && match next {
        LevelNext::Done(v) => out == v,
        LevelNext::Ask(x, y, op) => n > 0 && level_comes_to(to, Some(says(x, y, op)), says, out, (n - 1) as nat),
        LevelNext::Retry => n > 0 && level_comes_to(to, None, says, out, (n - 1) as nat),
    }
}

/// The two are one object, or are said to be equal.
pub open spec fn held_equal(says: Answers, x: Value, y: Value) -> bool {
    same_object(x, y) || says(x, y, RelOp::Eq)
}

proof fn lemma_contains(l: Level, incoming: Option<bool>, says: Answers, out: bool, n: nat)
    requires
        level_comes_to(l, incoming, says, out, n),
        l is Contains,
        l->Contains_i <= l->Contains_items@.len(),
        incoming != Some(true) ==> forall|k: int| 0 <= k < l->Contains_i ==> !held_equal(says, #[trigger] l->Contains_items@[k], l->Contains_item),
        incoming == Some(true) ==> l->Contains_i > 0 && held_equal(says, l->Contains_items@[l->Contains_i - 1], l->Contains_item),
    ensures
        out <==> exists|k: int| 0 <= k < l->Contains_items@.len() && held_equal(says, #[trigger] l->Contains_items@[k], l->Contains_item),
    decreases n,
{
    let items = l->Contains_items@;
    let item = l->Contains_item;
    let i = l->Contains_i;
    let (to, next) = choose|to: Level, next: LevelNext| #[trigger] level_step(l, to, incoming, next) && match next {
        LevelNext::Done(v) => out == v,
        LevelNext::Ask(x, y, op) => n > 0 && level_comes_to(to, Some(says(x, y, op)), says, out, (n - 1) as nat),
        LevelNext::Retry => n > 0 && level_comes_to(to, None, says, out, (n - 1) as nat),
    };
    if incoming == Some(true) {
        assert(held_equal(says, items[i - 1], item));
    } else if i < items.len() {
        if same_object(items[i as int], item) {
            assert(held_equal(says, items[i as int], item));
        } else {
            let answer = says(items[i as int], item, RelOp::Eq);
            assert(to->Contains_items@ == items && to->Contains_item == item && to->Contains_i == i + 1);
            assert(level_comes_to(to, Some(answer), says, out, (n - 1) as nat));
            if !answer {
                assert forall|k: int| 0 <= k < i + 1 implies !held_equal(says, #[trigger] items[k], item) by {
                    if k == i {
                    }
                }
            }
            lemma_contains(to, Some(answer), says, out, (n - 1) as nat);
        }
    }
}

/// A membership test that asks a program comes to true exactly where some item
/// is the one looked for or is said to equal it.
pub proof fn membership_asks_each_item(items: Vec<Value>, item: Value, says: Answers, out: bool, n: nat)
    requires
        level_comes_to(Level::Contains { items, item, i: 0 }, None, says, out, n),
    ensures
        out <==> exists|k: int| 0 <= k < items@.len() && held_equal(says, #[trigger] items@[k], item),
{
    lemma_contains(Level::Contains { items, item, i: 0 }, None, says, out, n);
}

proof fn lemma_vals(l: Level, incoming: Option<bool>, says: Answers, out: bool, n: nat)
    requires
        level_comes_to(l, incoming, says, out, n),
        l is Vals,
        l->Vals_a@.len() == l->Vals_b@.len(),
        l->Vals_i <= l->Vals_a@.len(),
        incoming != Some(false) ==> forall|k: int| 0 <= k < l->Vals_i ==> held_equal(says, #[trigger] l->Vals_a@[k], l->Vals_b@[k]),
        incoming == Some(false) ==> l->Vals_i > 0 && !held_equal(says, l->Vals_a@[l->Vals_i - 1], l->Vals_b@[l->Vals_i - 1]),
    ensures
        out <==> forall|k: int| 0 <= k < l->Vals_a@.len() ==> held_equal(says, #[trigger] l->Vals_a@[k], l->Vals_b@[k]),
    decreases n,
{
    let a = l->Vals_a@;
    let b = l->Vals_b@;
    let i = l->Vals_i;
    let (to, next) = choose|to: Level, next: LevelNext| #[trigger] level_step(l, to, incoming, next) && match next {
        LevelNext::Done(v) => out == v,
        LevelNext::Ask(x, y, op) => n > 0 && level_comes_to(to, Some(says(x, y, op)), says, out, (n - 1) as nat),
        LevelNext::Retry => n > 0 && level_comes_to(to, None, says, out, (n - 1) as nat),
    };
    if incoming == Some(false) {
        assert(!held_equal(says, a[i - 1], b[i - 1]));
    } else if i < a.len() {
        assert(to->Vals_a@ == a && to->Vals_b@ == b && to->Vals_i == i + 1);
        let same = same_object(a[i as int], b[i as int]);
        let answer = says(a[i as int], b[i as int], RelOp::Eq);
        let inc = if same { None } else { Some(answer) };
        assert(level_comes_to(to, inc, says, out, (n - 1) as nat));
        if same || answer {
            assert forall|k: int| 0 <= k < i + 1 implies held_equal(says, #[trigger] a[k], b[k]) by {
                if k == i {
                }
            }
        }
        lemma_vals(to, inc, says, out, (n - 1) as nat);
    }
}

/// Two dicts of which a program is asked are equal exactly where every pair of
/// values under one key is one object or said to be equal.
pub proof fn dict_equality_asks_each_value(a: Vec<Value>, b: Vec<Value>, says: Answers, out: bool, n: nat)
    requires
        level_comes_to(Level::Vals { a, b, i: 0 }, None, says, out, n),
        a@.len() == b@.len(),
    ensures
        out <==> forall|k: int| 0 <= k < a@.len() ==> held_equal(says, #[trigger] a@[k], b@[k]),
{
    lemma_vals(Level::Vals { a, b, i: 0 }, None, says, out, n);
}

/// Place `k` is the first where the rows are not held equal.
pub open spec fn first_parting(says: Answers, a: Seq<Value>, b: Seq<Value>, k: int) -> bool {
    &&& 0 <= k < a.len()
    &&& k < b.len()
    &&& !held_equal(says, a[k], b[k])
    &&& forall|j: int| 0 <= j < k ==> held_equal(says, #[trigger] a[j], b[j])
}

/// The rows are held equal as far as the shorter goes.
pub open spec fn no_parting(says: Answers, a: Seq<Value>, b: Seq<Value>) -> bool {
    forall|j: int| 0 <= j < a.len() && j < b.len() ==> held_equal(says, #[trigger] a[j], b[j])
}

/// What the lengths of two rows say that are equal as far as the shorter goes.
pub open spec fn by_length(op: RelOp, x: nat, y: nat, out: bool) -> bool {
    match op {
        RelOp::Eq => out == (x == y),
        RelOp::Lt => out == (x < y),
        RelOp::Gt => out == (x > y),
        RelOp::LtEq => out == (x <= y),
        RelOp::GtEq => out == (x >= y),
        _ => true,
    }
}

/// What a comparison of two rows comes to.
pub open spec fn rows_come_to(says: Answers, op: RelOp, a: Seq<Value>, b: Seq<Value>, out: bool) -> bool {
    &&& forall|k: int| #[trigger] first_parting(says, a, b, k) ==> out == (op != RelOp::Eq && says(a[k], b[k], op))
    &&& no_parting(says, a, b) ==> by_length(op, a.len(), b.len(), out)
}

proof fn lemma_items(l: Level, incoming: Option<bool>, says: Answers, out: bool, n: nat)
    requires
        level_comes_to(l, incoming, says, out, n),
        l is Items,
        !l->deciding,
        l->Items_i <= l->Items_a@.len(),
        l->Items_i <= l->Items_b@.len(),
        incoming != Some(false) ==> forall|k: int| 0 <= k < l->Items_i ==> held_equal(says, #[trigger] l->Items_a@[k], l->Items_b@[k]),
        incoming == Some(false) ==> l->Items_i > 0 && first_parting(says, l->Items_a@, l->Items_b@, l->Items_i - 1),
    ensures
        rows_come_to(says, l->op, l->Items_a@, l->Items_b@, out),
    decreases n,
{
    let a = l->Items_a@;
    let b = l->Items_b@;
    let i = l->Items_i;
    let op = l->op;
    let (to, next) = choose|to: Level, next: LevelNext| #[trigger] level_step(l, to, incoming, next) && match next {
        LevelNext::Done(v) => out == v,
        LevelNext::Ask(x, y, o) => n > 0 && level_comes_to(to, Some(says(x, y, o)), says, out, (n - 1) as nat),
        LevelNext::Retry => n > 0 && level_comes_to(to, None, says, out, (n - 1) as nat),
    };
    if incoming == Some(false) {
        let p = i - 1;
        assert forall|k: int| #[trigger] first_parting(says, a, b, k) implies k == p by {
            if k < p {
                assert(held_equal(says, a[k], b[k]));
            }
            if p < k {
                assert(held_equal(says, a[p], b[p]));
            }
        }
        assert(!no_parting(says, a, b)) by {
            assert(!held_equal(says, a[p], b[p]));
        }
        if op != RelOp::Eq {
            let v = says(a[p], b[p], op);
            assert(level_comes_to(to, Some(v), says, out, (n - 1) as nat));
            lemma_deciding(to, v, says, out, (n - 1) as nat);
        }
    } else if i < a.len() && i < b.len() {
        assert(to->Items_a@ == a && to->Items_b@ == b && to->Items_i == i + 1 && to->op == op && !to->deciding);
        let same = same_object(a[i as int], b[i as int]);
        let answer = says(a[i as int], b[i as int], RelOp::Eq);
        let inc = if same { None } else { Some(answer) };
        assert(level_comes_to(to, inc, says, out, (n - 1) as nat));
        if same || answer {
            assert forall|k: int| 0 <= k < i + 1 implies held_equal(says, #[trigger] a[k], b[k]) by {
                if k == i {
                }
            }
        } else {
            assert(first_parting(says, a, b, i as int));
        }
        lemma_items(to, inc, says, out, (n - 1) as nat);
    } else {
        assert forall|k: int| !#[trigger] first_parting(says, a, b, k) by {
            if first_parting(says, a, b, k) {
                assert(held_equal(says, a[k], b[k]));
            }
        }
    }
}

proof fn lemma_deciding(l: Level, v: bool, says: Answers, out: bool, n: nat)
    requires
        level_comes_to(l, Some(v), says, out, n),
        l is Items,
        l->deciding,
    ensures out == v,
{
}

/// Two rows of which a program is asked stand as the first pair does that is
/// neither one object nor said to be equal, and as their lengths do where there
/// is no such pair.
pub proof fn rows_ask_each_pair(a: Vec<Value>, b: Vec<Value>, op: RelOp, says: Answers, out: bool, n: nat)
    requires
        level_comes_to(Level::Items { a, b, i: 0, op, deciding: false }, None, says, out, n),
    ensures rows_come_to(says, op, a@, b@, out),
{
    lemma_items(Level::Items { a, b, i: 0, op, deciding: false }, None, says, out, n);
}

} // verus!
