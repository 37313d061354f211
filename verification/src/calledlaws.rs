//! What methods and built-in functions do, by their names.
use vstd::prelude::*;
use crate::call::{len_result, stringify_result};
use crate::chain::tail_limit;
use crate::dispatch::{apply_result, builtin_result, builtin_name, native_result, orders_elements};
use crate::intlaws::fails_as;
use crate::exc::Exc;
use crate::machine::{Keyword, OrderCont, OrderKind, Step, Vm};
use crate::order::begin_order_result;
use crate::orderlaws::{an_extreme_is_taken, arranged, comparable_keys, each_once, in_order, sorting_arranges_the_items};
use crate::process::proc_run_result;
use crate::relationlaws::{below, whole};
use crate::sched::Park;
use crate::seqop::{SeqOp, SeqShape};
use crate::tasks::{chan_result, join_result, spawn_result, yield_now_result};
use crate::texting::print_result;
use crate::value::{Heap, Value};
use crate::wake::is_channel_closed;

verus! {

proof fn lemma_channel_names()
    ensures
        "send"@ != "recv"@,
        "send"@ != "close"@,
        "recv"@ != "close"@,
{
    reveal_strlit("send");
    reveal_strlit("recv");
    reveal_strlit("close");
    assert("send"@[0] == 's' && "recv"@[0] == 'r' && "close"@[0] == 'c');
}

/// `send` into an open channel nobody waits at puts the value last, where there
/// is room, and goes on; where there is none it waits. Into a closed one it
/// raises ChannelClosed.
pub proof fn send_puts_last(a: Vm, b: Vm, ch: usize, v: Value, kw: Vec<Keyword>, hint: bool, flush: bool, r: Step)
    requires
        native_result(a, b, Value::Channel(ch), "send"@, seq![v], kw, hint, flush, r),
        kw@.len() == 0,
    ensures
        !a.heap.chan(ch).closed && a.heap.chan(ch).recv.len() == 0 && a.heap.chan(ch).buf.len() < a.heap.chan(ch).cap ==> {
            &&& r is Next
            &&& b.heap.chan(ch).buf == a.heap.chan(ch).buf.push(v)
            &&& b.heap.chan(ch).send == a.heap.chan(ch).send
            &&& b.stack() == a.stack().push(Value::Null)
        },
        !a.heap.chan(ch).closed && a.heap.chan(ch).recv.len() == 0 && a.heap.chan(ch).buf.len() >= a.heap.chan(ch).cap ==> {
            &&& r matches Step::Park(p) && *p == Park::Send(ch)
            &&& b.heap.chan(ch).buf == a.heap.chan(ch).buf
            &&& b.heap.chan(ch).send == a.heap.chan(ch).send.push((a.task.id, v))
        },
        a.heap.chan(ch).closed ==> (r matches Step::Raise(exc) && is_channel_closed(b.heap, a.excs@, exc)),
{
    lemma_channel_names();
    assert(seq![v][0] == v);
}

/// `recv` takes the first value that is buffered; the oldest waiting sender's
/// value moves up, or is taken where nothing is buffered. From an empty channel
/// it waits, last in line, or raises ChannelClosed where it is closed.
pub proof fn recv_takes_first(a: Vm, b: Vm, ch: usize, kw: Vec<Keyword>, hint: bool, flush: bool, r: Step)
    requires
        native_result(a, b, Value::Channel(ch), "recv"@, Seq::empty(), kw, hint, flush, r),
        kw@.len() == 0,
    ensures
        a.heap.chan(ch).buf.len() > 0 && a.heap.chan(ch).send.len() == 0 ==> {
            &&& r is Next
            &&& b.stack() == a.stack().push(a.heap.chan(ch).buf[0])
            &&& b.heap.chan(ch).buf == a.heap.chan(ch).buf.skip(1)
        },
        a.heap.chan(ch).buf.len() > 0 && a.heap.chan(ch).send.len() > 0 ==> {
            &&& r is Next
            &&& b.stack() == a.stack().push(a.heap.chan(ch).buf[0])
            &&& b.heap.chan(ch).buf == a.heap.chan(ch).buf.skip(1).push(a.heap.chan(ch).send[0].1)
            &&& b.heap.chan(ch).send == a.heap.chan(ch).send.skip(1)
        },
        a.heap.chan(ch).buf.len() == 0 && a.heap.chan(ch).send.len() > 0 ==> {
            &&& r is Next
            &&& b.stack() == a.stack().push(a.heap.chan(ch).send[0].1)
            &&& b.heap.chan(ch).send == a.heap.chan(ch).send.skip(1)
        },
        a.heap.chan(ch).buf.len() == 0 && a.heap.chan(ch).send.len() == 0 && !a.heap.chan(ch).closed ==> {
            &&& r matches Step::Park(p) && *p == Park::Recv(ch)
            &&& b.heap.chan(ch).recv == a.heap.chan(ch).recv.push(a.task.id)
        },
        a.heap.chan(ch).buf.len() == 0 && a.heap.chan(ch).send.len() == 0 && a.heap.chan(ch).closed
            ==> (r matches Step::Raise(exc) && is_channel_closed(b.heap, a.excs@, exc)),
{
    lemma_channel_names();
    let c = a.heap.chan(ch);
    if c.buf.len() > 0 {
        assert(c.queue()[0] == c.buf[0]);
    } else if c.send.len() > 0 {
        assert(c.queue()[0] == c.send[0].1);
    }
}

proof fn lemma_chans(a: Vm, b: Vm, ws: Seq<crate::wake::Wake>)
    requires crate::wake::all_woken(a, b, ws),
    ensures b.heap.chans == a.heap.chans,
    decreases ws.len(),
{
    if ws.len() > 0 {
        let m = choose|m: Vm| crate::wake::all_woken(a, m, ws.drop_last()) && #[trigger] crate::wake::woken(m, b, ws.last());
        lemma_chans(a, m, ws.drop_last());
    }
}

/// `close` closes the channel for good; what is buffered stays to be received,
/// and nobody waits at it any longer. To close it again changes nothing.
pub proof fn close_closes(a: Vm, b: Vm, ch: usize, kw: Vec<Keyword>, hint: bool, flush: bool, r: Step)
    requires
        native_result(a, b, Value::Channel(ch), "close"@, Seq::empty(), kw, hint, flush, r),
        kw@.len() == 0,
    ensures
        r is Next,
        b.heap.chan(ch).closed,
        b.heap.chan(ch).buf == a.heap.chan(ch).buf,
        !a.heap.chan(ch).closed ==> b.heap.chan(ch).recv.len() == 0 && b.heap.chan(ch).send.len() == 0,
        a.heap.chan(ch).closed ==> b.heap == a.heap,
        b.stack().last() == Value::Null,
{
    lemma_channel_names();
    let c = a.heap.chan(ch);
    if !c.closed {
        let (m, n) = choose|m: Vm, n: Vm| {
            &&& m == (Vm { heap: m.heap, ..a })
            &&& crate::channel::chan_is(a.heap, m.heap, ch, c.shut())
            &&& #[trigger] crate::wake::all_woken(m, n, crate::channel::close_wakes(c))
            &&& #[trigger] crate::machine::restacked(n, b, a.stack().push(Value::Null))
            &&& b.heap == n.heap
        };
        lemma_chans(m, n, crate::channel::close_wakes(c));
        assert(b.heap.chan(ch) == m.heap.chan(ch));
    }
}

/// `task.join()` joins the task.
pub proof fn join_joins(a: Vm, b: Vm, h: usize, kw: Vec<Keyword>, hint: bool, flush: bool, r: Step)
    requires
        native_result(a, b, Value::Task(h), "join"@, Seq::empty(), kw, hint, flush, r),
        kw@.len() == 0,
    ensures join_result(a, b, h, r),
{
}

/// What the built-in functions are called.
pub proof fn built_in_functions_have_their_names(a: Vm, b: Vm, i: usize, args: Seq<Value>, kwargs: Vec<Keyword>, r: Step)
    requires builtin_result(a, b, i, args, kwargs, r),
    ensures
        builtin_name(a.heap, i) == "apply"@ ==> apply_result(a.heap, args, kwargs@, r) && b == a,
        builtin_name(a.heap, i) == "spawn"@ ==> spawn_result(a, b, args, kwargs@, r),
        builtin_name(a.heap, i) == "chan"@ ==> chan_result(a, b, args, kwargs@, r),
        builtin_name(a.heap, i) == "yield_now"@ ==> yield_now_result(a, b, args, kwargs@, r),
        builtin_name(a.heap, i) == "print"@ ==> print_result(a, b, args, kwargs@, r),
        builtin_name(a.heap, i) == "proc.run"@ ==> proc_run_result(a.heap, args, kwargs@, r) && b == a,
        builtin_name(a.heap, i) == "repr"@ && args.len() == 1 && args[0] is Instance ==> stringify_result(a, b, args[0], true, r),
        builtin_name(a.heap, i) == "len"@ && args.len() == 1 && args[0] is Instance ==> len_result(a, b, args[0], r),
{
    reveal_strlit("apply");
    reveal_strlit("spawn");
    reveal_strlit("chan");
    reveal_strlit("yield_now");
    reveal_strlit("time.sleep");
    reveal_strlit("net.dial");
    reveal_strlit("print");
    reveal_strlit("proc.run");
    reveal_strlit("net.listen");
    reveal_strlit("repr");
    reveal_strlit("len");
    assert("apply"@.len() == 5 && "spawn"@.len() == 5 && "print"@.len() == 5);
    assert("apply"@[0] == 'a' && "spawn"@[0] == 's' && "print"@[0] == 'p');
    assert("chan"@.len() == 4 && "repr"@.len() == 4 && "chan"@[0] == 'c' && "repr"@[0] == 'r');
    assert("len"@.len() == 3);
    assert("yield_now"@.len() == 9);
    assert("time.sleep"@.len() == 10 && "net.listen"@.len() == 10);
    assert("net.dial"@.len() == 8 && "proc.run"@.len() == 8 && "net.dial"@[0] == 'n' && "proc.run"@[0] == 'p');
}

/// `apply(f, args=[...])` calls `f` with the items of the list.
pub proof fn apply_forwards(h: Heap, f: Value, k: Keyword, l: usize, r: Step)
    requires
        apply_result(h, seq![f], seq![k], r),
        k.0@ == "args"@,
        k.1 == Value::List(l),
    ensures
        r matches Step::Invoke(c) && c.callee == f && c.args@ == h.list(l) && c.kwargs@.len() == 0,
{
    assert(seq![f][0] == f);
    assert(seq![k][0] == k);
    reveal_with_fuel(crate::dispatch::apply_options, 3);
    assert(crate::dispatch::apply_options(seq![k], 0, None, None) == Ok::<(Option<Value>, Option<Value>), Seq<char>>((Some(Value::List(l)), None)));
    if let Step::Invoke(c) = r {
        assert(crate::dispatch::keyword_texts(c.kwargs@).len() == c.kwargs@.len());
    }
}

/// Without arguments `apply(f)` calls `f` with none.
pub proof fn apply_alone_calls(h: Heap, f: Value, r: Step)
    requires apply_result(h, seq![f], Seq::empty(), r),
    ensures r matches Step::Invoke(c) && c.callee == f && c.args@.len() == 0 && c.kwargs@.len() == 0,
{
    assert(seq![f][0] == f);
    if let Step::Invoke(c) = r {
        assert(crate::dispatch::keyword_texts(c.kwargs@).len() == c.kwargs@.len());
    }
}

/// Every item is an integer.
pub open spec fn integers(h: Heap, items: Seq<Value>) -> bool {
    forall|k: int| 0 <= k < items.len() ==> whole(h, #[trigger] items[k]) is Some
}

proof fn lemma_list_order(a: Vm, b: Vm, kind: OrderKind, x: usize, reverse: bool, r: Step) -> (m: Vm)
    requires
        orders_elements(a, b, kind, Value::List(x), reverse, r),
        integers(a.heap, a.heap.list(x)),
    ensures
        m == (Vm { heap: m.heap, ..a }),
        m.heap.bigs == a.heap.bigs,
        begin_order_result(m, b, kind, a.heap.list(x), a.heap.list(x), reverse, OrderCont::Push, r),
        comparable_keys(m.heap, a.heap.list(x)),
{
    let (m, items) = choose|m: Vm, items: Seq<Value>| {
        &&& m == (Vm { heap: m.heap, ..a })
        &&& crate::iter::drained(a.heap, m.heap)
        &&& m.heap.iters@ == a.heap.iters@
        &&& #[trigger] crate::iter::are_elems(m.heap, crate::iter::elements(a.heap, Value::List(x))->0, items)
        &&& begin_order_result(m, b, kind, items, items, reverse, OrderCont::Push, r)
    };
    let es = crate::iter::elements(a.heap, Value::List(x))->0;
    assert forall|k: int| 0 <= k < items.len() implies items[k] == a.heap.list(x)[k] by {
        assert(crate::iter::is_elem(m.heap, es[k], items[k]));
    }
    assert(items =~= a.heap.list(x));
    m
}

proof fn lemma_sorted_name()
    ensures
        "sorted"@ != "to_str"@,
        "min"@ != "to_str"@,
        "max"@ != "to_str"@,
        "min"@ != "sorted"@,
        "max"@ != "sorted"@,
        "min"@ != "max"@,
        SeqOp::named("sorted"@) is None,
        SeqOp::named("min"@) is None,
        SeqOp::named("max"@) is None,
        tail_limit("min"@, Seq::empty()) is None,
        tail_limit("max"@, Seq::empty()) is None,
{
    reveal_strlit("to_str");
    reveal_strlit("sorted");
    reveal_strlit("min");
    reveal_strlit("max");
    reveal_strlit("first");
    reveal_strlit("map");
    reveal_strlit("filter");
    reveal_strlit("flat_map");
    reveal_strlit("sort_by");
    reveal_strlit("group_by");
    reveal_strlit("partition");
    reveal_strlit("find");
    reveal_strlit("any");
    reveal_strlit("all");
    reveal_strlit("count");
    reveal_strlit("min_by");
    reveal_strlit("max_by");
    reveal_strlit("unique_by");
    reveal_strlit("take_while");
    reveal_strlit("drop_while");
    reveal_strlit("reduce");
    assert("sorted"@.len() == 6 && "to_str"@.len() == 6 && "filter"@.len() == 6 && "min_by"@.len() == 6 && "max_by"@.len() == 6 && "reduce"@.len() == 6);
    assert("sorted"@[0] == 's' && "to_str"@[0] == 't' && "filter"@[0] == 'f' && "min_by"@[0] == 'm' && "max_by"@[0] == 'm' && "reduce"@[0] == 'r');
    assert("min"@.len() == 3 && "max"@.len() == 3 && "map"@.len() == 3 && "any"@.len() == 3 && "all"@.len() == 3);
    assert("min"@[1] == 'i' && "max"@[1] == 'a' && "max"@[2] == 'x' && "map"@[2] == 'p' && "map"@[1] == 'a' && "any"@[0] == 'a' && "all"@[0] == 'a' && "min"@[0] == 'm'
        && "max"@[0] == 'm');
    assert("find"@.len() == 4 && "count"@.len() == 5 && "sort_by"@.len() == 7 && "flat_map"@.len() == 8 && "group_by"@.len() == 8 && "partition"@.len() == 9
        && "unique_by"@.len() == 9 && "take_while"@.len() == 10 && "drop_while"@.len() == 10 && "first"@.len() == 5);
}

/// `xs.sorted()` of integers answers with a new list of all of them, the lower
/// first and equal ones as they came.
pub proof fn sorted_sorts(a: Vm, b: Vm, x: usize, kw: Vec<Keyword>, hint: bool, flush: bool, r: Step)
    requires
        native_result(a, b, Value::List(x), "sorted"@, Seq::empty(), kw, hint, flush, r),
        kw@.len() == 0,
        integers(a.heap, a.heap.list(x)),
        a.heap.list(x).len() <= usize::MAX,
    ensures
        r is Next,
        b.stack().drop_last() == a.stack(),
        b.stack().last() is List,
        arranged(a.heap, a.heap.list(x), a.heap.list(x), false, b.heap.list(b.stack().last()->List_0)),
{
    lemma_sorted_name();
    let keys = a.heap.list(x);
    assert(crate::dispatch::keyword_at(kw@, "key"@, 0) is None);
    let m = lemma_list_order(a, b, OrderKind::Sort(SeqShape::List), x, false, r);
    sorting_arranges_the_items(m, b, keys, keys, false, r);
    let out = b.heap.list(b.stack().last()->List_0);
    let s = choose|s: Seq<usize>| {
        &&& each_once(s, keys.len())
        &&& #[trigger] in_order(m.heap, keys, s, false)
        &&& out.len() == keys.len()
        &&& forall|k: int| 0 <= k < out.len() ==> #[trigger] out[k] == keys[s[k] as int]
    };
    assert(in_order(a.heap, keys, s, false)) by {
        assert forall|p: int, q: int| 0 <= p < q < s.len() implies {
            let u = keys[#[trigger] s[p] as int];
            let v = keys[#[trigger] s[q] as int];
            &&& !below(a.heap, v, u)
            &&& !below(a.heap, u, v) && !below(a.heap, v, u) ==> s[p] < s[q]
        } by {
            let u = keys[s[p] as int];
            let v = keys[s[q] as int];
            assert(whole(m.heap, u) == whole(a.heap, u) && whole(m.heap, v) == whole(a.heap, v));
        }
    }
}

/// `xs.min()` and `xs.max()` of integers answer with one that no other is below,
/// or above.
pub proof fn min_and_max(a: Vm, b: Vm, x: usize, name: Seq<char>, kw: Vec<Keyword>, hint: bool, flush: bool, r: Step)
    requires
        native_result(a, b, Value::List(x), name, Seq::empty(), kw, hint, flush, r),
        name == "min"@ || name == "max"@,
        kw@.len() == 0,
        integers(a.heap, a.heap.list(x)),
        a.heap.list(x).len() > 0,
    ensures
        r is Next,
        b.stack().drop_last() == a.stack(),
        a.heap.list(x).contains(b.stack().last()),
        forall|j: int| 0 <= j < a.heap.list(x).len() ==> {
            &&& name == "min"@ ==> whole(a.heap, b.stack().last())->0 <= whole(a.heap, #[trigger] a.heap.list(x)[j])->0
            &&& name == "max"@ ==> whole(a.heap, b.stack().last())->0 >= whole(a.heap, a.heap.list(x)[j])->0
        },
{
    lemma_sorted_name();
    let keys = a.heap.list(x);
    let want_min = name == "min"@;
    let m = lemma_list_order(a, b, OrderKind::Extreme { want_min, by: false }, x, false, r);
    an_extreme_is_taken(m, b, want_min, false, keys, keys, false, r);
    let k = choose|k: int| {
        &&& 0 <= k < keys.len()
        &&& b.stack().last() == keys[k]
        &&& forall|j: int| 0 <= j < keys.len() ==> !(if want_min { below(m.heap, #[trigger] keys[j], keys[k]) } else { below(m.heap, keys[k], keys[j]) })
        &&& forall|j: int| 0 <= j < k ==> if want_min { below(m.heap, keys[k], #[trigger] keys[j]) } else { below(m.heap, keys[j], keys[k]) }
    };
    assert(keys[k] == b.stack().last());
    assert forall|j: int| 0 <= j < keys.len() implies {
        &&& name == "min"@ ==> whole(a.heap, b.stack().last())->0 <= whole(a.heap, #[trigger] keys[j])->0
        &&& name == "max"@ ==> whole(a.heap, b.stack().last())->0 >= whole(a.heap, keys[j])->0
    } by {
        assert(whole(a.heap, keys[k]) is Some);
        assert(whole(m.heap, keys[j]) == whole(a.heap, keys[j]) && whole(m.heap, keys[k]) == whole(a.heap, keys[k]));
    }
}

/// The least or the greatest of nothing is a ValueError.
pub proof fn nothing_has_no_extreme(a: Vm, b: Vm, x: usize, name: Seq<char>, kw: Vec<Keyword>, hint: bool, flush: bool, r: Step)
    requires
        native_result(a, b, Value::List(x), name, Seq::empty(), kw, hint, flush, r),
        name == "min"@ || name == "max"@,
        kw@.len() == 0,
        a.heap.list(x).len() == 0,
    ensures fails_as(r, Exc::ValueError),
{
    lemma_sorted_name();
    let m = lemma_list_order(a, b, OrderKind::Extreme { want_min: name == "min"@, by: false }, x, false, r);
}

} // verus!
