//! What walking over a collection hands out.
use vstd::prelude::*;
use crate::code::Op;
use crate::exc::{Exc, VErr};
use crate::index::stepped;
use crate::indexlaws::lemma_stepped;
use crate::intlaws::fails_as;
use crate::iter::{is_elem, iterated, unpacked, Elem};
use crate::machine::{Step, Vm};
use crate::relationlaws::row;
use crate::step::step_result;
use crate::value::{Heap, IterState, Value};

verus! {

/// `out` is what walking over `v` hands out: the items of a list or a tuple, the
/// characters of a text as texts, the octets as numbers, the entries of a dict
/// as pairs of key and value, the numbers a range counts.
pub open spec fn hands_out(a: Heap, b: Heap, v: Value, out: Seq<Value>) -> bool {
    match v {
        Value::List(x) => out == a.list(x),
        Value::Tuple(x) => out == a.tuple(x),
        Value::Str(x) => out.len() == a.text(x).len() && forall|k: int| 0 <= k < out.len()
            ==> (#[trigger] out[k] matches Value::Str(s) && b.text(s).len() == 1 && b.text(s)[0] == a.text(x)[k]),
        Value::Bytes(x) => out.len() == a.octets(x).len() && forall|k: int| 0 <= k < out.len()
            ==> (#[trigger] out[k] matches Value::Int(n) && n == a.octets(x)[k]),
        Value::Dict(x) => out.len() == a.dict(x).len() && forall|k: int| 0 <= k < out.len()
            ==> (#[trigger] out[k] matches Value::Tuple(t) && b.tuple(t).len() == 2 && b.tuple(t)[0] == a.dict(x)[k].0 && b.tuple(t)[1] == a.dict(x)[k].1),
        Value::Range(x) => counts_out(a.range(x).start as int, a.range(x).stop as int, a.range(x).step as int, out),
        _ => true,
    }
}

/// From `start` on by `step`, as long as `stop` is not reached.
pub open spec fn counts_out(start: int, stop: int, step: int, out: Seq<Value>) -> bool {
    &&& forall|k: int| 0 <= k < out.len() ==> #[trigger] counts_at(start, stop, step, out, k)
    &&& step > 0 ==> start + out.len() * step >= stop
    &&& step < 0 ==> start + out.len() * step <= stop
}

/// Number `k` of them is `k` steps on, and not yet at `stop`.
pub open spec fn counts_at(start: int, stop: int, step: int, out: Seq<Value>, k: int) -> bool {
    out[k] matches Value::Int(n) && n == start + k * step && (step > 0 ==> n < stop) && (step < 0 ==> n > stop)
}

proof fn lemma_hands_out(a: Heap, b: Heap, v: Value, out: Seq<Value>)
    requires
        crate::iter::elements(a, v) is Some,
        crate::iter::are_elems(b, crate::iter::elements(a, v)->0, out),
        v matches Value::Range(x) ==> a.range(x).step != 0,
    ensures hands_out(a, b, v, out),
{
    let es = crate::iter::elements(a, v)->0;
    assert forall|k: int| 0 <= k < out.len() implies is_elem(b, es[k], #[trigger] out[k]) by {
    }
    match v {
        Value::List(x) => {
            assert(out =~= a.list(x));
        }
        Value::Tuple(x) => {
            assert(out =~= a.tuple(x));
        }
        Value::Str(x) => {
            assert forall|k: int| 0 <= k < out.len()
                implies (#[trigger] out[k] matches Value::Str(s) && b.text(s).len() == 1 && b.text(s)[0] == a.text(x)[k]) by {
                assert(es[k] == Elem::Text(a.text(x).subrange(k, k + 1)));
            }
        }
        Value::Range(x) => {
            let g = a.range(x);
            let s = stepped(g.start as int, g.stop as int, g.step as int);
            lemma_stepped(g.start as int, g.stop as int, g.step as int);
            assert forall|k: int| 0 <= k < out.len() implies #[trigger] counts_at(g.start as int, g.stop as int, g.step as int, out, k) by {
                assert(es[k] == Elem::Val(Value::Int(s[k] as i64)));
                let n = s[k];
                assert(is_elem(b, es[k], out[k]));
            }
        }
        _ => {}
    }
}

/// Something with items to walk over.
pub open spec fn walkable(h: Heap, v: Value) -> bool {
    v is List || v is Tuple || v is Str || v is Bytes || v is Dict || (v matches Value::Range(x) && h.range(x).step != 0)
}

/// Collecting what there is to walk over hands out its items in order.
pub proof fn walking_hands_out_the_items(a: Heap, b: Heap, v: Value, r: Result<Vec<Value>, VErr>)
    requires
        iterated(a, b, v, r),
        walkable(a, v),
    ensures r matches Ok(out) && hands_out(a, b, v, out@),
{
    lemma_hands_out(a, b, v, (r->Ok_0)@);
}

/// What is no collection cannot be walked over.
pub proof fn other_values_have_no_items(a: Heap, b: Heap, v: Value, r: Result<Vec<Value>, VErr>)
    requires
        iterated(a, b, v, r),
        v is Null || v is Int || v is Bool || v is Float || v is Big || v is Func || v is Class || v is Instance,
    ensures r matches Err(e) && e@.0 == Exc::TypeError,
{
}

/// Unpacking into `n` names leaves the items so that the first is taken first,
/// and is a ValueError where there are more or fewer.
pub proof fn unpacking_goes_in_order(a: Vm, b: Vm, n: u32, r: Step)
    requires
        step_result(a, b, Op::UnpackSequence(n), r),
        a.has(1),
        a.stack().last() is List || a.stack().last() is Tuple,
    ensures
        row(a.heap, a.stack().last()).len() == n ==> {
            &&& r is Next
            &&& b.stack().len() == a.stack().len() - 1 + n
            &&& forall|k: int| 0 <= k < n ==> b.stack()[b.stack().len() - 1 - k] == #[trigger] row(a.heap, a.stack().last())[k]
            &&& forall|k: int| 0 <= k < a.stack().len() - 1 ==> #[trigger] b.stack()[k] == a.stack()[k]
        },
        row(a.heap, a.stack().last()).len() != n ==> fails_as(r, Exc::ValueError),
{
    let v = a.operand(0);
    let x = choose|x: Result<Vec<Value>, VErr>| {
        &&& #[trigger] unpacked(a.heap, b.heap, a.operand(0), n as usize, x)
        &&& match x {
            Ok(items) => r is Next && crate::machine::restacked(a, b, crate::ops::below(a, 1) + items@.reverse()),
            Err(e) => crate::wake::faults(r, e@.0, e@.1) && crate::machine::restacked(a, b, crate::ops::below(a, 1)),
        }
    };
    if row(a.heap, v).len() == n {
        let items = (x->Ok_0)@;
        lemma_hands_out(a.heap, b.heap, v, items);
        let s = crate::ops::below(a, 1) + items.reverse();
        assert(b.stack() == s);
        assert forall|k: int| 0 <= k < n implies b.stack()[b.stack().len() - 1 - k] == #[trigger] row(a.heap, v)[k] by {
            assert(items[k] == row(a.heap, v)[k]);
        }
    }
}

/// One turn of a `for` over a list: the next item is on the stack over the
/// iterator, which is one further; after the last, control is behind the loop
/// and the iterator is gone; and a list that has grown or shrunk is a
/// RuntimeError.
pub proof fn for_takes_the_next_item(a: Vm, b: Vm, t: u32, it: usize, x: usize, k: usize, n: usize, r: Step)
    requires
        step_result(a, b, Op::ForEach(t), r),
        a.has(1),
        a.stack().last() == Value::Iter(it),
        it < a.heap.iters@.len(),
        a.heap.iters@[it as int] == (IterState::List { list: x, idx: k, orig_len: n }),
        k < usize::MAX,
    ensures
        a.heap.list(x).len() == n && k < n ==> {
            &&& r is Next
            &&& b.stack() == a.stack().push(a.heap.list(x)[k as int])
            &&& b.heap.iters@[it as int] == (IterState::List { list: x, idx: (k + 1) as usize, orig_len: n })
            &&& b.top().pc == a.top().pc
        },
        a.heap.list(x).len() == n && k >= n ==> r is Next && b.top().pc == t && b.stack() == a.stack().drop_last(),
        a.heap.list(x).len() != n ==> fails_as(r, Exc::RuntimeError),
{
    if a.heap.list(x).len() == n && k < n {
        assert(b.stack() =~= a.stack().push(a.heap.list(x)[k as int]));
    }
}

/// The `for` with two names takes the place and the item of a list, and the key
/// and the value of a dict.
pub proof fn for_with_two_names(a: Vm, b: Vm, t: u32, it: usize, r: Step)
    requires
        step_result(a, b, Op::ForIter(t), r),
        a.has(1),
        a.stack().last() == Value::Iter(it),
        it < a.heap.iters@.len(),
    ensures
        a.heap.iters@[it as int] matches IterState::List { list: x, idx: k, orig_len: n } ==> a.heap.list(x).len() == n && k < n && n <= i64::MAX ==> {
            &&& r is Next
            &&& b.stack().last() matches Value::Tuple(p) && b.heap.tuple(p) == seq![Value::Int(k as i64), a.heap.list(x)[k as int]]
        },
        a.heap.iters@[it as int] matches IterState::DictPairs { flat: f, idx: k } ==> k + 1 < a.heap.tuple(f).len() ==> {
            &&& r is Next
            &&& b.stack().last() matches Value::Tuple(p) && b.heap.tuple(p) == seq![a.heap.tuple(f)[k as int], a.heap.tuple(f)[k + 1]]
        },
{
    if r is Next && b.stack().len() > 0 {
        if let Value::Tuple(p) = b.stack().last() {
            let u = b.heap.tuple(p);
            if u.len() == 2 {
                assert(u =~= seq![u[0], u[1]]);
            }
        }
    }
}

/// Building a list or a tuple takes the items off the stack in the order they
/// were put there.
pub proof fn displays_keep_their_order(a: Vm, b: Vm, n: u32, k: int, r: Step)
    requires
        a.has(n as nat),
        0 <= k < n,
        step_result(a, b, Op::BuildList(n), r) || step_result(a, b, Op::BuildTuple(n), r),
    ensures
        r is Next,
        b.stack().len() == a.stack().len() - n + 1,
        row(b.heap, b.stack().last()).len() == n,
        row(b.heap, b.stack().last())[k] == a.stack()[a.stack().len() - n + k],
        step_result(a, b, Op::BuildList(n), r) ==> b.stack().last() is List,
{
}

} // verus!
