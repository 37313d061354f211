//! Iteration over everything but generators and channels, which drive
//! themselves.
use vstd::prelude::*;
use vstd::string::*;
use crate::exc::{fault, type_error, value_error, Exc, VErr};
use crate::index::{distance, stepped};
use crate::names::{kind_name, kind_name_of};
use crate::text::{join3, join5, nat_text, render_usize};
use crate::value::{Heap, IterState, Value};

verus! {

/// What an iterator hands out.
pub ghost enum Elem {
    /// This value.
    Val(Value),
    /// A string with this text.
    Text(Seq<char>),
    /// A key and its value.
    Pair(Value, Value),
}

/// `v` is the element `e`.
pub open spec fn is_elem(h: Heap, e: Elem, v: Value) -> bool {
    match e {
        Elem::Val(x) => v == x,
        Elem::Text(t) => v matches Value::Str(i) && i < h.strs@.len() && h.text(i) == t,
        Elem::Pair(a, b) => v matches Value::Tuple(i) && i < h.tuples@.len() && h.tuple(i) == seq![a, b],
    }
}

/// Where an iterator over `v` starts; the snapshot of a dict is the tuple that
/// is made next.
pub open spec fn iter_start(h: Heap, v: Value) -> Option<IterState> {
    match v {
        Value::Range(i) => Some(IterState::Range { cur: h.range(i).start, stop: h.range(i).stop, step: h.range(i).step, n: 0 }),
        Value::List(i) => Some(IterState::List { list: i, idx: 0, orig_len: h.list(i).len() as usize }),
        Value::Tuple(i) => Some(IterState::Tuple { tuple: i, idx: 0 }),
        Value::Str(i) => Some(IterState::Str { text: i, idx: 0 }),
        Value::Bytes(i) => Some(IterState::Bytes { bytes: i, idx: 0 }),
        Value::Dict(_) => Some(IterState::DictPairs { flat: h.tuples.len(), idx: 0 }),
        _ => None,
    }
}

/// Keys and values in turn.
pub open spec fn flattened(entries: Seq<(Value, Value)>) -> Seq<Value>
    decreases entries.len(),
{
    if entries.len() == 0 {
        Seq::empty()
    } else {
        flattened(entries.drop_last()).push(entries.last().0).push(entries.last().1)
    }
}

fn flatten(h: &Heap, id: usize) -> (r: Vec<Value>)
    ensures r@ == flattened(h.dict(id)),
{
    let n = h.dict_len(id);
    let mut out: Vec<Value> = Vec::new();
    let mut i: usize = 0;
    assert(h.dict(id).take(0) =~= Seq::empty());
    while i < n
        invariant
            i <= n,
            n == h.dict(id).len(),
            out@ == flattened(h.dict(id).take(i as int)),
        decreases n - i,
    {
        let e = h.dict_at(id, i);
        out.push(e.0);
        out.push(e.1);
        assert(h.dict(id).take(i + 1).drop_last() =~= h.dict(id).take(i as int));
        i += 1;
    }
    assert(h.dict(id).take(i as int) =~= h.dict(id));
    out
}

/// Only iterators and tuples were added between `a` and `b`.
pub open spec fn iters_grew(a: Heap, b: Heap) -> bool {
    &&& b == (Heap { iters: b.iters, tuples: b.tuples, ..a })
    &&& a.iters@.is_prefix_of(b.iters@)
    &&& a.tuples@.is_prefix_of(b.tuples@)
}

/// An iterator over `v`. Generators, channels and iterators are their own.
pub fn get_iter(h: &mut Heap, v: Value) -> (r: Result<Value, VErr>)
    ensures
        iters_grew(*old(h), *final(h)),
        match v {
            Value::Generator(_) | Value::Channel(_) | Value::Iter(_) => r == Ok::<Value, VErr>(v)
                && *final(h) == *old(h),
            _ => match iter_start(*old(h), v) {
                Some(st) => r == Ok::<Value, VErr>(Value::Iter(old(h).iters.len()))
                    && final(h).iters@ == old(h).iters@.push(st)
                    && (v matches Value::Dict(d) ==> final(h).tuples@.len() == old(h).tuples@.len() + 1
                        && final(h).tuple(old(h).tuples.len()) == flattened(old(h).dict(d)))
                    && (!(v is Dict) ==> final(h).tuples@ == old(h).tuples@),
                None => (r matches Err(e) && e@ == (Exc::TypeError, "'"@ + kind_name(*old(h), v)
                    + "' object is not iterable"@)) && *final(h) == *old(h),
            },
        },
{
    let state = match v {
        Value::Range(i) => {
            let r = h.range_of(i);
            IterState::Range { cur: r.start, stop: r.stop, step: r.step, n: 0 }
        }
        Value::List(i) => IterState::List { list: i, idx: 0, orig_len: h.list_len(i) },
        Value::Tuple(i) => IterState::Tuple { tuple: i, idx: 0 },
        Value::Str(i) => IterState::Str { text: i, idx: 0 },
        Value::Bytes(i) => IterState::Bytes { bytes: i, idx: 0 },
        Value::Dict(i) => {
            let items = flatten(h, i);
            let flat = h.tuples.len();
            let _t = h.alloc_tuple(items);
            IterState::DictPairs { flat, idx: 0 }
        }
        Value::Generator(_) | Value::Channel(_) | Value::Iter(_) => {
            return Ok(v);
        }
        _ => {
            return Err(type_error(join3("'", kind_name_of(h, v), "' object is not iterable")));
        }
    };
    Ok(h.alloc_iter(state))
}

/// The list under an iterator is not as long as it was when the iterator was
/// made.
pub open spec fn size_changed(h: Heap, st: IterState) -> bool {
    st matches IterState::List { list, idx, orig_len } && h.list(list).len() != orig_len
}

/// Whether a range iterator has more to count.
pub open spec fn range_goes(cur: int, stop: int, step: int) -> bool {
    (step > 0 && cur < stop) || (step < 0 && cur > stop)
}

/// The counter after one more step; it stays where it is once it cannot grow.
pub open spec fn counted(n: i64) -> i64 {
    if n < i64::MAX { (n + 1) as i64 } else { n }
}

/// One step of an iterator: the index a `for` pairs the element with, the
/// element, and where the iterator stands then.
pub open spec fn iter_step(h: Heap, st: IterState) -> Option<(Value, Elem, IterState)> {
    match st {
        IterState::Range { cur, stop, step, n } => if range_goes(cur as int, stop as int, step as int) {
            let next = cur + step;
            let to = if i64::MIN <= next <= i64::MAX { next as i64 } else { stop };
            Some((Value::Int(n), Elem::Val(Value::Int(cur)), IterState::Range { cur: to, stop, step, n: counted(n) }))
        } else {
            None
        },
        IterState::List { list, idx, orig_len } => if idx < h.list(list).len() {
            Some((Value::Int(idx as i64), Elem::Val(h.list(list)[idx as int]),
                IterState::List { list, idx: (idx + 1) as usize, orig_len }))
        } else {
            None
        },
        IterState::Tuple { tuple, idx } => if idx < h.tuple(tuple).len() {
            Some((Value::Int(idx as i64), Elem::Val(h.tuple(tuple)[idx as int]),
                IterState::Tuple { tuple, idx: (idx + 1) as usize }))
        } else {
            None
        },
        IterState::Str { text, idx } => if idx < h.text(text).len() {
            Some((Value::Int(idx as i64), Elem::Text(h.text(text).subrange(idx as int, idx + 1)),
                IterState::Str { text, idx: (idx + 1) as usize }))
        } else {
            None
        },
        IterState::Bytes { bytes, idx } => if idx < h.octets(bytes).len() {
            Some((Value::Int(idx as i64), Elem::Val(Value::Int(h.octets(bytes)[idx as int] as i64)),
                IterState::Bytes { bytes, idx: (idx + 1) as usize }))
        } else {
            None
        },
        IterState::DictPairs { flat, idx } => if idx + 1 < h.tuple(flat).len() {
            Some((h.tuple(flat)[idx as int], Elem::Pair(h.tuple(flat)[idx as int], h.tuple(flat)[idx + 1]),
                IterState::DictPairs { flat, idx: (idx + 2) as usize }))
        } else {
            None
        },
    }
}

/// The state of iterator `i`.
pub open spec fn iter_state(h: Heap, i: usize) -> IterState {
    if i < h.iters@.len() { h.iters@[i as int] } else { IterState::Tuple { tuple: usize::MAX, idx: usize::MAX } }
}

fn state_of(h: &Heap, i: usize) -> (r: IterState)
    ensures r == iter_state(*h, i),
{
    if i < h.iters.len() { h.iters[i] } else { IterState::Tuple { tuple: usize::MAX, idx: usize::MAX } }
}

/// An element before it is a value.
enum Drawn {
    Val(Value),
    Text(String),
    Pair(Value, Value),
}

impl Drawn {
    spec fn is(&self, e: Elem) -> bool {
        match *self {
            Drawn::Val(v) => e == Elem::Val(v),
            Drawn::Text(t) => e == Elem::Text(t@),
            Drawn::Pair(a, b) => e == Elem::Pair(a, b),
        }
    }
}

fn draw(h: &Heap, st: IterState) -> (r: Option<(Value, Drawn, IterState)>)
    ensures
        match iter_step(*h, st) {
            Some((i, e, to)) => r matches Some((j, d, to2)) && i == j && d.is(e) && to == to2
                && iter_left(*h, to) < iter_left(*h, st)
                && (!(st is DictPairs) ==> !(d is Pair)) && (st is DictPairs ==> d is Pair && d->Pair_0 == i),
            None => r is None,
        },
{
    match st {
        IterState::Range { cur, stop, step, n } => {
            if (step > 0 && cur < stop) || (step < 0 && cur > stop) {
                let to: i64 = match cur.checked_add(step) {
                    Some(x) => x,
                    None => stop,
                };
                let m: i64 = if n < i64::MAX { n + 1 } else { n };
                Some((Value::Int(n), Drawn::Val(Value::Int(cur)), IterState::Range { cur: to, stop, step, n: m }))
            } else {
                None
            }
        }
        IterState::List { list, idx, orig_len } => {
            if idx < h.list_len(list) {
                Some((Value::Int(idx as i64), Drawn::Val(h.list_at(list, idx)),
                    IterState::List { list, idx: idx + 1, orig_len }))
            } else {
                None
            }
        }
        IterState::Tuple { tuple, idx } => {
            if idx < h.tuple_len(tuple) {
                Some((Value::Int(idx as i64), Drawn::Val(h.tuple_at(tuple, idx)),
                    IterState::Tuple { tuple, idx: idx + 1 }))
            } else {
                None
            }
        }
        IterState::Str { text, idx } => {
            if idx < h.text_of(text).unicode_len() {
                let c = h.text_of(text).substring_char(idx, idx + 1).to_owned();
                Some((Value::Int(idx as i64), Drawn::Text(c), IterState::Str { text, idx: idx + 1 }))
            } else {
                None
            }
        }
        IterState::Bytes { bytes, idx } => {
            if idx < h.octets_len(bytes) {
                Some((Value::Int(idx as i64), Drawn::Val(Value::Int(h.octets_at(bytes, idx) as i64)),
                    IterState::Bytes { bytes, idx: idx + 1 }))
            } else {
                None
            }
        }
        IterState::DictPairs { flat, idx } => {
            let n = h.tuple_len(flat);
            if idx < n && n - idx > 1 {
                let k = h.tuple_at(flat, idx);
                Some((k, Drawn::Pair(k, h.tuple_at(flat, idx + 1)),
                    if idx < usize::MAX - 1 { IterState::DictPairs { flat, idx: idx + 2 } } else { st }))
            } else {
                None
            }
        }
    }
}

/// What drawing from an iterator changes: its own state, and the objects made
/// for the element.
pub open spec fn drew(a: Heap, b: Heap, i: usize, to: IterState) -> bool {
    &&& b == (Heap { iters: b.iters, tuples: b.tuples, strs: b.strs, ..a })
    &&& b.iters@ == (if i < a.iters@.len() { a.iters@.update(i as int, to) } else { a.iters@ })
    &&& a.tuples@.is_prefix_of(b.tuples@)
    &&& a.strs@.is_prefix_of(b.strs@)
}

/// The message for a list that changed under its iterator.
pub open spec fn size_changed_text() -> Seq<char> {
    "list changed size during iteration"@
}

/// The message for something that cannot be stepped.
pub open spec fn no_iterator_text() -> Seq<char> {
    "internal: ForIter target is not an iterator"@
}

/// The next element of an iterator.
pub fn iter_next(h: &mut Heap, it: Value) -> (r: Result<Option<Value>, VErr>)
    ensures
        match it {
            Value::Iter(i) => if size_changed(*old(h), iter_state(*old(h), i)) {
                (r matches Err(e) && e@ == (Exc::RuntimeError, size_changed_text())) && *final(h) == *old(h)
            } else {
                match iter_step(*old(h), iter_state(*old(h), i)) {
                    Some((_, e, to)) => (r matches Ok(Some(v)) && is_elem(*final(h), e, v)) && drew(*old(h), *final(h), i, to),
                    None => r == Ok::<Option<Value>, VErr>(None) && *final(h) == *old(h),
                }
            },
            _ => (r matches Err(e) && e@ == (Exc::RuntimeError, no_iterator_text())) && *final(h) == *old(h),
        },
{
    let i = match it {
        Value::Iter(i) => i,
        _ => {
            return Err(fault(Exc::RuntimeError, "internal: ForIter target is not an iterator"));
        }
    };
    let st = state_of(h, i);
    if let IterState::List { list, idx: _, orig_len } = st {
        if h.list_len(list) != orig_len {
            return Err(fault(Exc::RuntimeError, "list changed size during iteration"));
        }
    }
    match draw(h, st) {
        None => Ok(None),
        Some((_, d, to)) => {
            if i < h.iters.len() {
                h.iters.set(i, to);
            }
            match d {
                Drawn::Val(v) => Ok(Some(v)),
                Drawn::Text(s) => {
                    Ok(Some(h.alloc_str(s)))
                }
                Drawn::Pair(a, b) => {
                    let mut p: Vec<Value> = Vec::new();
                    p.push(a);
                    p.push(b);
                    assert(p@ =~= seq![a, b]);
                    Ok(Some(h.alloc_tuple(p)))
                }
            }
        }
    }
}

/// The element a `for` pairs with its index: a dict's entry gives its value,
/// anything else itself.
pub open spec fn for_elem(e: Elem) -> Elem {
    match e {
        Elem::Pair(_, b) => Elem::Val(b),
        _ => e,
    }
}

/// One step of a `for`: the position and the element, or a dict's key and
/// value.
pub fn iter_next_pair(h: &mut Heap, it: Value) -> (r: Result<Option<(Value, Value)>, VErr>)
    ensures
        match it {
            Value::Iter(i) => if size_changed(*old(h), iter_state(*old(h), i)) {
                (r matches Err(e) && e@ == (Exc::RuntimeError, size_changed_text())) && *final(h) == *old(h)
            } else {
                match iter_step(*old(h), iter_state(*old(h), i)) {
                    Some((n, e, to)) => (r matches Ok(Some((m, v))) && m == n && is_elem(*final(h), for_elem(e), v))
                        && drew(*old(h), *final(h), i, to),
                    None => r == Ok::<Option<(Value, Value)>, VErr>(None) && *final(h) == *old(h),
                }
            },
            _ => (r matches Err(e) && e@ == (Exc::RuntimeError, no_iterator_text())) && *final(h) == *old(h),
        },
{
    let i = match it {
        Value::Iter(i) => i,
        _ => {
            return Err(fault(Exc::RuntimeError, "internal: ForIter target is not an iterator"));
        }
    };
    let st = state_of(h, i);
    if let IterState::List { list, idx: _, orig_len } = st {
        if h.list_len(list) != orig_len {
            return Err(fault(Exc::RuntimeError, "list changed size during iteration"));
        }
    }
    match draw(h, st) {
        None => Ok(None),
        Some((n, d, to)) => {
            if i < h.iters.len() {
                h.iters.set(i, to);
            }
            match d {
                Drawn::Val(v) => Ok(Some((n, v))),
                Drawn::Text(s) => {
                    Ok(Some((n, h.alloc_str(s))))
                }
                Drawn::Pair(_, b) => Ok(Some((n, b))),
            }
        }
    }
}

/// How far an iterator still has to go.
pub open spec fn iter_left(h: Heap, st: IterState) -> nat {
    match st {
        IterState::Range { cur, stop, step, n } => distance(cur as int, stop as int, step as int),
        IterState::List { list, idx, orig_len } => if idx < h.list(list).len() { (h.list(list).len() - idx) as nat } else { 0 },
        IterState::Tuple { tuple, idx } => if idx < h.tuple(tuple).len() { (h.tuple(tuple).len() - idx) as nat } else { 0 },
        IterState::Str { text, idx } => if idx < h.text(text).len() { (h.text(text).len() - idx) as nat } else { 0 },
        IterState::Bytes { bytes, idx } => if idx < h.octets(bytes).len() { (h.octets(bytes).len() - idx) as nat } else { 0 },
        IterState::DictPairs { flat, idx } => if idx < h.tuple(flat).len() { (h.tuple(flat).len() - idx) as nat } else { 0 },
    }
}

/// Everything an iterator still hands out.
pub open spec fn iter_rest(h: Heap, st: IterState) -> Seq<Elem>
    decreases iter_left(h, st),
    via iter_rest_ends
{
    match iter_step(h, st) {
        Some((_, e, to)) => if iter_left(h, to) < iter_left(h, st) { seq![e] + iter_rest(h, to) } else { seq![e] },
        None => Seq::empty(),
    }
}

#[via_fn]
proof fn iter_rest_ends(h: Heap, st: IterState) {
}

/// What iterating over `v` hands out, if that can be done without running a
/// program or waiting.
pub open spec fn elements(h: Heap, v: Value) -> Option<Seq<Elem>> {
    match v {
        Value::Range(i) => Some(stepped(h.range(i).start as int, h.range(i).stop as int, h.range(i).step as int)
            .map_values(|n: int| Elem::Val(Value::Int(n as i64)))),
        Value::List(i) => Some(h.list(i).map_values(|x: Value| Elem::Val(x))),
        Value::Tuple(i) => Some(h.tuple(i).map_values(|x: Value| Elem::Val(x))),
        Value::Str(i) => Some(Seq::new(h.text(i).len(), |k: int| Elem::Text(h.text(i).subrange(k, k + 1)))),
        Value::Bytes(i) => Some(h.octets(i).map_values(|b: u8| Elem::Val(Value::Int(b as i64)))),
        Value::Dict(i) => Some(h.dict(i).map_values(|e: (Value, Value)| Elem::Pair(e.0, e.1))),
        Value::Iter(i) => Some(iter_rest(h, iter_state(h, i))),
        _ => None,
    }
}

/// Each of `vals` is the element of `es` at its place.
pub open spec fn are_elems(h: Heap, es: Seq<Elem>, vals: Seq<Value>) -> bool {
    &&& es.len() == vals.len()
    &&& forall|k: int| 0 <= k < es.len() ==> #[trigger] is_elem(h, es[k], vals[k])
}

/// Objects were added between `a` and `b`; at most iterator states changed.
pub open spec fn drained(a: Heap, b: Heap) -> bool {
    &&& b == (Heap { iters: b.iters, tuples: b.tuples, strs: b.strs, ..a })
    &&& a.iters@.len() == b.iters@.len()
    &&& a.tuples@.is_prefix_of(b.tuples@)
    &&& a.strs@.is_prefix_of(b.strs@)
}

/// Iterator `i` of `b` has nothing left to hand out, and every other iterator
/// is as it was in `a`.
pub open spec fn spent(a: Heap, b: Heap, i: usize) -> bool {
    &&& i < a.iters@.len() ==> iter_step(b, b.iters@[i as int]) is None
    &&& forall|k: int| 0 <= k < a.iters@.len() && k != i ==> #[trigger] b.iters@[k] == a.iters@[k]
}

/// The heap after everything that iterating over `v` hands out was collected:
/// an iterator is spent, and nothing else of what was there changed.
pub open spec fn walked(a: Heap, b: Heap, v: Value) -> bool {
    &&& drained(a, b)
    &&& match v {
        Value::Iter(i) => if size_changed(a, iter_state(a, i)) { b == a } else { spent(a, b, i) },
        _ => b.iters@ == a.iters@ && (elements(a, v) is None ==> b == a),
    }
}

/// The message for draining a channel where nothing can wait.
pub open spec fn channel_drain_text() -> Seq<char> {
    "'Channel' object is not iterable here: receiving may block, so `for msg in ch` is the only way to drain one"@
}

/// What collecting everything that iterating over `v` hands out comes to.
pub open spec fn iterated(a: Heap, b: Heap, v: Value, r: Result<Vec<Value>, VErr>) -> bool {
    &&& walked(a, b, v)
    &&& match v {
        Value::Channel(_) => r matches Err(e) && e@ == (Exc::TypeError, channel_drain_text()),
        Value::Generator(_) => r matches Err(e) && e@ == (Exc::RuntimeError, no_iterator_text()),
        _ => if v matches Value::Iter(i) && size_changed(a, iter_state(a, i)) {
            r matches Err(e) && e@ == (Exc::RuntimeError, size_changed_text())
        } else {
            match elements(a, v) {
                Some(es) => r matches Ok(out) && are_elems(b, es, out@),
                None => r matches Err(e) && e@ == (Exc::TypeError, "'"@ + kind_name(a, v) + "' object is not iterable"@),
            }
        },
    }
}

/// Collect everything iterating over `v` hands out.
pub fn iterate_to_vec(h: &mut Heap, v: Value) -> (r: Result<Vec<Value>, VErr>)
    ensures iterated(*old(h), *final(h), v, r),
{
    match v {
        Value::Channel(_) => Err(fault(Exc::TypeError,
            "'Channel' object is not iterable here: receiving may block, so `for msg in ch` is the only way to drain one")),
        Value::Generator(_) => Err(fault(Exc::RuntimeError, "internal: ForIter target is not an iterator")),
        Value::List(i) => {
            let out = h.list_copy(i);
            Ok(out)
        }
        Value::Tuple(i) => {
            let out = h.tuple_copy(i);
            Ok(out)
        }
        Value::Range(i) => Ok(range_to_vec(h, i)),
        Value::Bytes(i) => {
            let b = h.octets_copy(i);
            let mut out: Vec<Value> = Vec::new();
            let mut k: usize = 0;
            while k < b.len()
                invariant
                    k <= b.len(),
                    out.len() == k,
                    forall|j: int| 0 <= j < k ==> #[trigger] out@[j] == Value::Int(b[j] as i64),
                decreases b.len() - k,
            {
                out.push(Value::Int(b[k] as i64));
                k += 1;
            }
            Ok(out)
        }
        Value::Str(i) => Ok(text_to_vec(h, i)),
        Value::Dict(i) => Ok(dict_to_vec(h, i)),
        Value::Iter(i) => iter_to_vec(h, i),
        _ => Err(type_error(join3("'", kind_name_of(h, v), "' object is not iterable"))),
    }
}

fn range_to_vec(h: &Heap, i: usize) -> (out: Vec<Value>)
    ensures are_elems(*h, elements(*h, Value::Range(i))->0, out@),
{
    let r = h.range_of(i);
    let stop: i128 = r.stop as i128;
    let step: i128 = r.step as i128;
    let mut cur: i128 = r.start as i128;
    let mut out: Vec<Value> = Vec::new();
    let ghost all = stepped(r.start as int, r.stop as int, r.step as int);
    let ghost mut done: Seq<int> = Seq::empty();
    assert(all =~= done + all);
    while (step > 0 && cur < stop) || (step < 0 && cur > stop)
        invariant
            step == r.step,
            stop == r.stop,
            step > 0 ==> r.start <= cur <= i64::MAX + i64::MAX,
            step < 0 ==> i64::MIN + i64::MIN <= cur <= r.start,
            step == 0 ==> cur == r.start,
            all == done + stepped(cur as int, stop as int, step as int),
            out.len() == done.len(),
            forall|k: int| 0 <= k < done.len() ==> #[trigger] out@[k] == Value::Int(done[k] as i64),
        decreases distance(cur as int, stop as int, step as int),
    {
        let ghost before = done;
        let ghost rest = stepped(cur + step, stop as int, step as int);
        out.push(Value::Int(cur as i64));
        proof {
            done = done.push(cur as int);
            assert(before + (seq![cur as int] + rest) =~= done + rest);
        }
        cur = cur + step;
    }
    assert(done + Seq::<int>::empty() =~= done);
    assert(all == done);
    out
}

fn text_to_vec(h: &mut Heap, i: usize) -> (out: Vec<Value>)
    ensures
        drained(*old(h), *final(h)),
        final(h).iters@ == old(h).iters@,
        are_elems(*final(h), elements(*old(h), Value::Str(i))->0, out@),
{
    let s = h.text_of(i).to_owned();
    let n = s.as_str().unicode_len();
    let mut out: Vec<Value> = Vec::new();
    let ghost es = elements(*h, Value::Str(i))->0;
    let mut k: usize = 0;
    while k < n
        invariant
            k <= n,
            n == s@.len(),
            es.len() == n,
            forall|j: int| 0 <= j < n ==> #[trigger] es[j] == Elem::Text(s@.subrange(j, j + 1)),
            out.len() == k,
            drained(*old(h), *h),
            h.iters@ == old(h).iters@,
            forall|j: int| 0 <= j < k ==> #[trigger] is_elem(*h, es[j], out@[j]),
        decreases n - k,
    {
        let c = s.as_str().substring_char(k, k + 1).to_owned();
        let ghost before = *h;
        let v = h.alloc_str(c);
        out.push(v);
        assert forall|j: int| 0 <= j < k + 1 implies #[trigger] is_elem(*h, es[j], out@[j]) by {
            if j < k {
                assert(is_elem(before, es[j], out@[j]));
            }
        }
        k += 1;
    }
    out
}

fn dict_to_vec(h: &mut Heap, i: usize) -> (out: Vec<Value>)
    ensures
        drained(*old(h), *final(h)),
        final(h).iters@ == old(h).iters@,
        are_elems(*final(h), elements(*old(h), Value::Dict(i))->0, out@),
{
    let n = h.dict_len(i);
    let mut out: Vec<Value> = Vec::new();
    let ghost es = elements(*h, Value::Dict(i))->0;
    let mut k: usize = 0;
    while k < n
        invariant
            k <= n,
            n == h.dict(i).len(),
            h.dicts == old(h).dicts,
            es == old(h).dict(i).map_values(|e: (Value, Value)| Elem::Pair(e.0, e.1)),
            out.len() == k,
            drained(*old(h), *h),
            h.iters@ == old(h).iters@,
            forall|j: int| 0 <= j < k ==> #[trigger] is_elem(*h, es[j], out@[j]),
        decreases n - k,
    {
        let e = h.dict_at(i, k);
        let mut p: Vec<Value> = Vec::new();
        p.push(e.0);
        p.push(e.1);
        assert(p@ =~= seq![e.0, e.1]);
        let ghost before = *h;
        let v = h.alloc_tuple(p);
        out.push(v);
        assert forall|j: int| 0 <= j < k + 1 implies #[trigger] is_elem(*h, es[j], out@[j]) by {
            if j < k {
                assert(is_elem(before, es[j], out@[j]));
            }
        }
        k += 1;
    }
    out
}

/// Two states of a walk over the same thing.
spec fn same_walk(a: IterState, b: IterState) -> bool {
    match a {
        IterState::Tuple { tuple, .. } => b matches IterState::Tuple { tuple: t, .. } && t == tuple,
        IterState::Str { text, .. } => b matches IterState::Str { text: t, .. } && t == text,
        IterState::DictPairs { flat, .. } => b matches IterState::DictPairs { flat: t, .. } && t == flat,
        _ => !(b is Tuple || b is Str || b is DictPairs),
    }
}

fn iter_to_vec(h: &mut Heap, i: usize) -> (r: Result<Vec<Value>, VErr>)
    ensures
        walked(*old(h), *final(h), Value::Iter(i)),
        if size_changed(*old(h), iter_state(*old(h), i)) {
            r matches Err(e) && e@ == (Exc::RuntimeError, size_changed_text())
        } else {
            r matches Ok(out) && are_elems(*final(h), iter_rest(*old(h), iter_state(*old(h), i)), out@)
        },
{
    let first = state_of(h, i);
    if let IterState::List { list, idx: _, orig_len } = first {
        if h.list_len(list) != orig_len {
            return Err(fault(Exc::RuntimeError, "list changed size during iteration"));
        }
    }
    // Draw everything first: the heap under the iterator stays as it is.
    let ghost es = iter_rest(*h, first);
    let mut drawn: Vec<Drawn> = Vec::new();
    let ghost mut done: Seq<Elem> = Seq::empty();
    let mut st = first;
    let mut more: bool = true;
    assert(es =~= done + es);
    while more
        invariant
            *h == *old(h),
            es == done + iter_rest(*h, st),
            !more ==> iter_step(*h, st) is None,
            same_walk(first, st),
            done.len() > 0 ==> iter_step(*h, first) is Some,
            done.len() == 0 ==> st == first,
            drawn.len() == done.len(),
            forall|k: int| 0 <= k < done.len() ==> (#[trigger] drawn@[k]).is(done[k]),
        decreases (if more { 1 + iter_left(*h, st) } else { 0 }),
    {
        match draw(h, st) {
            None => {
                more = false;
            }
            Some((_, d, to)) => {
                let ghost before = done;
                let ghost e = (iter_step(*h, st)->0).1;
                drawn.push(d);
                proof {
                    done = done.push(e);
                    assert(before + (seq![e] + iter_rest(*h, to)) =~= done + iter_rest(*h, to));
                }
                st = to;
            }
        }
    }
    assert(done + Seq::<Elem>::empty() =~= done);
    if i < h.iters.len() {
        h.iters.set(i, st);
    }
    let ghost mid = *h;
    assert(spent(*old(h), mid, i));
    let mut out: Vec<Value> = Vec::new();
    let n = drawn.len();
    while drawn.len() > 0
        invariant
            out.len() + drawn.len() == n,
            n == es.len(),
            drained(*old(h), *h),
            *h == (Heap { tuples: h.tuples, strs: h.strs, ..mid }),
            out.len() == 0 ==> *h == mid,
            mid.tuples@.is_prefix_of(h.tuples@),
            mid.strs@.is_prefix_of(h.strs@),
            forall|k: int| 0 <= k < drawn.len() ==> (#[trigger] drawn@[k]).is(es[k + out.len()]),
            forall|k: int| 0 <= k < out.len() ==> #[trigger] is_elem(*h, es[k], out@[k]),
        decreases drawn.len(),
    {
        let ghost before = *h;
        let ghost queue = drawn@;
        let ghost e = es[out.len() as int];
        let d = drawn.remove(0);
        assert(queue[0] == d && d.is(e));
        let v = match d {
            Drawn::Val(x) => x,
            Drawn::Text(s) => {
                h.alloc_str(s)
            }
            Drawn::Pair(a, b) => {
                let mut p: Vec<Value> = Vec::new();
                p.push(a);
                p.push(b);
                assert(p@ =~= seq![a, b]);
                h.alloc_tuple(p)
            }
        };
        let ghost m = out.len() as int;
        assert(is_elem(*h, e, v));
        out.push(v);
        assert forall|k: int| 0 <= k < out.len() implies #[trigger] is_elem(*h, es[k], out@[k]) by {
            if k < m {
                assert(is_elem(before, es[k], out@[k]));
            }
        }
        assert forall|k: int| 0 <= k < drawn.len() implies (#[trigger] drawn@[k]).is(es[k + out.len()]) by {
            assert(drawn@[k] == queue[k + 1]);
        }
    }
    Ok(out)
}

/// What unpacking into `n` names comes to.
pub open spec fn unpack_text(n: nat, got: nat) -> Seq<char> {
    if got < n {
        "not enough values to unpack (expected "@ + nat_text(n) + ", got "@ + nat_text(got) + ")"@
    } else {
        "too many values to unpack (expected "@ + nat_text(n) + ")"@
    }
}

/// What unpacking `seq` into `n` values comes to.
pub open spec fn unpacked(a: Heap, b: Heap, seq: Value, n: usize, r: Result<Vec<Value>, VErr>) -> bool {
    &&& walked(a, b, seq)
    &&& match seq {
        Value::Channel(_) => r matches Err(e) && e@ == (Exc::TypeError, channel_drain_text()),
        Value::Generator(_) => r matches Err(e) && e@ == (Exc::RuntimeError, no_iterator_text()),
        _ => if seq matches Value::Iter(i) && size_changed(a, iter_state(a, i)) {
            r matches Err(e) && e@ == (Exc::RuntimeError, size_changed_text())
        } else {
            match elements(a, seq) {
                Some(es) => if es.len() == n {
                    r matches Ok(out) && are_elems(b, es, out@)
                } else {
                    r matches Err(e) && e@ == (Exc::ValueError, unpack_text(n as nat, es.len()))
                },
                None => r matches Err(e) && e@ == (Exc::TypeError, "'"@ + kind_name(a, seq) + "' object is not iterable"@),
            }
        },
    }
}

/// The values `seq` unpacks into, when there are exactly `n` of them. Anything
/// a `for` can walk without running a program unpacks.
pub fn unpack_exact(h: &mut Heap, seq: Value, n: usize) -> (r: Result<Vec<Value>, VErr>)
    ensures unpacked(*old(h), *final(h), seq, n, r),
{
    match iterate_to_vec(h, seq) {
        Err(e) => Err(e),
        Ok(items) => {
            if items.len() == n {
                return Ok(items);
            }
            let want = render_usize(n);
            if items.len() < n {
                let got = render_usize(items.len());
                let s = join5("not enough values to unpack (expected ", want.as_str(), ", got ", got.as_str(), ")");
                Err(value_error(s))
            } else {
                Err(value_error(join3("too many values to unpack (expected ", want.as_str(), ")")))
            }
        }
    }
}

} // verus!
