//! How the collection operations are called, and when they stop asking.
use vstd::prelude::*;
use crate::chain::{args_result, finish_seq_result, plain_params, reverse_option, seq_call, settled, shape_of, step_spread, tail_limit};
use crate::code::Param;
use crate::collect::{any_true, all_true, found_item, run_end};
use crate::exc::VErr;
use crate::laws::leading_runs_split;
use crate::machine::{Keyword, Step, Vm};
use crate::names::truthy;
use crate::relationlaws::row;
use crate::chain::Callback;
use crate::seqop::{SeqJob, SeqOp, SeqShape, Spread};
use crate::value::{Heap, Value};

verus! {

/// Each operation is known by its name.
pub proof fn operations_have_their_names()
    ensures
        SeqOp::named("map"@) == Some(SeqOp::Mapping),
        SeqOp::named("filter"@) == Some(SeqOp::Filter),
        SeqOp::named("flat_map"@) == Some(SeqOp::FlatMap),
        SeqOp::named("sort_by"@) == Some(SeqOp::SortBy),
        SeqOp::named("group_by"@) == Some(SeqOp::GroupBy),
        SeqOp::named("partition"@) == Some(SeqOp::Partition),
        SeqOp::named("find"@) == Some(SeqOp::Find),
        SeqOp::named("any"@) == Some(SeqOp::Any),
        SeqOp::named("all"@) == Some(SeqOp::All),
        SeqOp::named("count"@) == Some(SeqOp::Count),
        SeqOp::named("min_by"@) == Some(SeqOp::MinBy),
        SeqOp::named("max_by"@) == Some(SeqOp::MaxBy),
        SeqOp::named("unique_by"@) == Some(SeqOp::UniqueBy),
        SeqOp::named("take_while"@) == Some(SeqOp::TakeWhile),
        SeqOp::named("drop_while"@) == Some(SeqOp::DropWhile),
        SeqOp::named("reduce"@) == Some(SeqOp::Reduce),
{
    reveal_strlit("map");
    reveal_strlit("filter");
    reveal_strlit("flat_map");
    reveal_strlit("sort_by");
    reveal_strlit("group_by");
    reveal_strlit("partition");
    reveal_strlit("find");
    reveal_strlit("any");
    reveal_strlit("all");
    reveal_strlit("count");
    reveal_strlit("min_by");
    reveal_strlit("max_by");
    reveal_strlit("unique_by");
    reveal_strlit("take_while");
    reveal_strlit("drop_while");
    reveal_strlit("reduce");
    assert("map"@.len() == 3 && "any"@.len() == 3 && "all"@.len() == 3);
    assert("map"@[0] == 'm' && "any"@[1] == 'n' && "all"@[1] == 'l' && "any"@[0] == 'a' && "all"@[0] == 'a');
    assert("find"@.len() == 4);
    assert("count"@.len() == 5);
    assert("filter"@.len() == 6 && "min_by"@.len() == 6 && "max_by"@.len() == 6 && "reduce"@.len() == 6);
    assert("filter"@[0] == 'f' && "min_by"@[1] == 'i' && "max_by"@[1] == 'a' && "reduce"@[0] == 'r' && "min_by"@[0] == 'm' && "max_by"@[0] == 'm');
    assert("sort_by"@.len() == 7);
    assert("flat_map"@.len() == 8 && "group_by"@.len() == 8 && "flat_map"@[0] == 'f' && "group_by"@[0] == 'g');
    assert("partition"@.len() == 9 && "unique_by"@.len() == 9 && "partition"@[0] == 'p' && "unique_by"@[0] == 'u');
    assert("take_while"@.len() == 10 && "drop_while"@.len() == 10 && "take_while"@[0] == 't' && "drop_while"@[0] == 'd');
}

/// An operation over a list or a range makes lists, over a tuple tuples, and
/// over a dict dicts; nothing else has them.
pub proof fn operations_keep_the_kind(v: Value)
    ensures
        v is List || v is Range ==> shape_of(v) == Some(SeqShape::List),
        v is Tuple ==> shape_of(v) == Some(SeqShape::Tuple),
        v is Dict ==> shape_of(v) == Some(SeqShape::Dict),
        v is Str || v is Int || v is Null || v is Instance ==> shape_of(v) is None,
{
}

/// None of the parameters has a default.
pub open spec fn no_defaults(ps: Seq<Param>) -> bool {
    forall|i: int| 0 <= i < ps.len() ==> !(#[trigger] ps[i]).has_default
}

proof fn lemma_plain_params(ps: Seq<Param>, n: int)
    requires
        0 <= n <= ps.len(),
        no_defaults(ps),
    ensures plain_params(ps, n) == n,
    decreases n,
{
    if n > 0 {
        lemma_plain_params(ps, n - 1);
        assert(!ps[n - 1].has_default);
    }
}

/// A callback with one parameter gets the item as it is, and one with more gets
/// the item's parts one by one; the accumulator of a `reduce` comes before them.
pub proof fn callbacks_get_what_they_ask_for(h: Heap, f: usize, shape: SeqShape, b: Heap, cb: Callback, r: Result<Vec<Value>, VErr>)
    requires
        f < h.funcs@.len(),
        no_defaults(h.funcs@[f as int].code.params@),
        cb.spread == step_spread(h, Value::Func(f), shape, if cb.acc is Some { 1nat } else { 0 }),
        args_result(h, b, cb, r),
        h.funcs@[f as int].code.params@.len() <= usize::MAX,
    ensures
        cb.acc is None && h.funcs@[f as int].code.params@.len() <= 1 ==> r is Ok && (r->Ok_0)@ == seq![cb.item],
        cb.acc is Some && h.funcs@[f as int].code.params@.len() <= 2 ==> r is Ok && (r->Ok_0)@ == seq![cb.acc->0, cb.item],
        cb.acc is None && h.funcs@[f as int].code.params@.len() >= 2 && (cb.item is List || cb.item is Tuple)
            && row(h, cb.item).len() == h.funcs@[f as int].code.params@.len() ==> r is Ok && (r->Ok_0)@ == row(h, cb.item),
        cb.acc is Some && h.funcs@[f as int].code.params@.len() >= 3 && (cb.item is List || cb.item is Tuple)
            && row(h, cb.item).len() + 1 == h.funcs@[f as int].code.params@.len() ==> r is Ok && (r->Ok_0)@ == seq![cb.acc->0] + row(h, cb.item),
{
    let ps = h.funcs@[f as int].code.params@;
    lemma_plain_params(ps, ps.len() as int);
    if let Spread::Unpack(n) = cb.spread {
        let u = choose|u: Result<Vec<Value>, VErr>| {
            &&& #[trigger] crate::iter::unpacked(h, b, cb.item, n, u)
            &&& match u {
                Ok(parts) => r matches Ok(v) && v@ == (match cb.acc {
                    Some(x) => seq![x] + parts@,
                    None => parts@,
                }),
                Err(e) => r matches Err(g) && g@ == e@,
            }
        };
        if (cb.item is List || cb.item is Tuple) && row(h, cb.item).len() == n {
            let es = crate::iter::elements(h, cb.item)->0;
            let parts = (u->Ok_0)@;
            assert forall|k: int| 0 <= k < parts.len() implies parts[k] == row(h, cb.item)[k] by {
                assert(crate::iter::is_elem(b, es[k], parts[k]));
            }
            assert(parts =~= row(h, cb.item));
        }
    }
}

/// `reduce` takes the first value and then the function, and every other
/// operation the function alone.
pub proof fn operations_take_their_arguments(h: Heap, op: SeqOp, seed: Value, f: usize)
    ensures
        seq_call(h, SeqOp::Reduce, seq![seed, Value::Func(f)], Seq::empty()) matches Ok(c)
            && c.func == Value::Func(f) && c.seed == Some(seed) && !c.reverse,
        op != SeqOp::Reduce ==> (seq_call(h, op, seq![Value::Func(f)], Seq::empty()) matches Ok(c)
            && c.func == Value::Func(f) && c.seed is None && !c.reverse),
        op != SeqOp::Reduce ==> seq_call(h, op, Seq::empty(), Seq::empty()) is Err,
{
    let two = seq![seed, Value::Func(f)];
    assert(two[0] == seed && two[1] == Value::Func(f));
    assert(seq![Value::Func(f)][0] == Value::Func(f));
}

/// `reverse=` is taken at its word by `sort_by`, and by nothing else.
pub proof fn sorting_can_be_turned_round(h: Heap, op: SeqOp, f: usize, k: Keyword, flag: bool)
    requires
        k.0@ == "reverse"@,
        k.1 == Value::Bool(flag),
        op != SeqOp::Reduce,
    ensures
        op == SeqOp::SortBy ==> (seq_call(h, op, seq![Value::Func(f)], seq![k]) matches Ok(c) && c.reverse == flag && c.func == Value::Func(f)),
        op != SeqOp::SortBy ==> seq_call(h, op, seq![Value::Func(f)], seq![k]) is Err,
{
    assert(seq![Value::Func(f)][0] == Value::Func(f));
    assert(seq![k][0] == k);
    reveal_with_fuel(reverse_option, 3);
}

/// `take(n)` stops after `n` items and answers with them; `first()` stops after
/// one and answers with that, or with null where there is none.
pub proof fn take_and_first(n: i64)
    requires 0 <= n <= usize::MAX,
    ensures
        tail_limit("take"@, seq![Value::Int(n)]) == Some((n as usize, false)),
        tail_limit("first"@, Seq::empty()) == Some((1usize, true)),
{
    reveal_strlit("take");
    reveal_strlit("first");
    assert("take"@.len() == 4 && "first"@.len() == 5);
    assert(seq![Value::Int(n)][0] == Value::Int(n));
}

/// The answer of `first()`.
pub proof fn first_answers_with_one(a: Vm, b: Vm, j: SeqJob, r: Step)
    requires
        finish_seq_result(a, b, j, r),
        j.pick_first,
    ensures
        r is Next,
        j.items@.len() > 0 ==> b.stack() == a.stack().push(j.items@[0]),
        j.items@.len() == 0 ==> b.stack() == a.stack().push(Value::Null),
{
}

/// To stop asking early changes no answer: whatever the callback would have said
/// of the rest, `any`, `all`, `find` and `take_while` would have answered the same.
pub proof fn stopping_early_changes_nothing(h: Heap, j: SeqJob, more: Seq<Value>)
    requires
        settled(h, j),
        j.results@.len() + more.len() <= j.items@.len(),
    ensures
        j.op == SeqOp::Any ==> any_true(h, j.results@ + more) && any_true(h, j.results@),
        j.op == SeqOp::All ==> !all_true(h, j.results@ + more) && !all_true(h, j.results@),
        j.op == SeqOp::Find ==> found_item(h, j.items@, j.results@ + more) == found_item(h, j.items@, j.results@),
        j.op == SeqOp::TakeWhile ==> run_end(h, j.results@ + more, (j.results@ + more).len() as int, 0)
            == run_end(h, j.results@, j.results@.len() as int, 0),
{
    let rs = j.results@;
    let all = rs + more;
    assert forall|k: int| 0 <= k < rs.len() implies #[trigger] all[k] == rs[k] by {
    }
    if j.op == SeqOp::Any || j.op == SeqOp::Find {
        let k = choose|k: int| 0 <= k < rs.len() && truthy(h, #[trigger] rs[k]);
        assert(truthy(h, all[k]));
        lemma_same_first(h, rs, all, 0, k);
    }
    if j.op == SeqOp::All {
        let k = choose|k: int| 0 <= k < rs.len() && !truthy(h, #[trigger] rs[k]);
        assert(!truthy(h, all[k]));
    }
    if j.op == SeqOp::TakeWhile {
        leading_runs_split(h, j.items@, rs, rs.len() as int);
        leading_runs_split(h, j.items@, all, all.len() as int);
        let x = run_end(h, rs, rs.len() as int, 0);
        let y = run_end(h, all, all.len() as int, 0);
        let last = rs.len() - 1;
        assert(!truthy(h, rs[last]));
        assert(!truthy(h, all[last]));
        if x < y {
            if x < rs.len() {
                assert(truthy(h, all[x]));
            } else {
                assert(truthy(h, rs[last]));
            }
        }
        if y < x {
            assert(truthy(h, rs[y]));
        }
    }
}

proof fn lemma_same_first(h: Heap, rs: Seq<Value>, all: Seq<Value>, i: int, k: int)
    requires
        0 <= i <= k < rs.len() <= all.len(),
        forall|l: int| 0 <= l < rs.len() ==> #[trigger] all[l] == rs[l],
        truthy(h, rs[k]),
    ensures
        crate::collect::first_true(h, all, all.len() as int, i) == crate::collect::first_true(h, rs, rs.len() as int, i),
    decreases k - i,
{
    assert(all[i] == rs[i]);
    if !truthy(h, rs[i]) {
        lemma_same_first(h, rs, all, i + 1, k);
    }
}

} // verus!
