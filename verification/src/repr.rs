//! How values read as text.
use vstd::prelude::*;
use vstd::string::*;
use crate::names::{kind_name, kind_name_of};
use crate::text::{int_text, join2, join3, nat_text, octets_repr, render_i64, render_octets_repr, render_text_repr, render_u64, same_text, text_repr, texts};
use crate::value::{Heap, Value};

verus! {

/// How many objects of a heap can hold others in their text.
pub open spec fn holders(h: Heap) -> nat {
    h.lists@.len() + h.tuples@.len() + h.dicts@.len() + h.instances@.len()
}

/// The arguments an exception was made with.
pub open spec fn exception_args(h: Heap, i: usize) -> Seq<Value> {
    match h.field(i, "args"@) {
        Some(Value::Tuple(t)) => h.tuple(t),
        _ => Seq::empty(),
    }
}

/// The arguments an exception was made with.
pub fn exception_args_of(h: &Heap, i: usize) -> (r: Vec<Value>)
    ensures r@ == exception_args(*h, i),
{
    match h.field_of(i, "args") {
        Some(Value::Tuple(t)) => h.tuple_copy(t),
        _ => Vec::new(),
    }
}

/// Whether `v` is an instance of an exception class.
pub open spec fn is_exception(h: Heap, v: Value) -> bool {
    match v {
        Value::Instance(i) => h.is_exception_class(h.instance_class(i)),
        _ => false,
    }
}

/// Whether `v` is an instance of an exception class.
pub fn exception_value(h: &Heap, v: Value) -> (r: bool)
    ensures r == is_exception(*h, v),
{
    match v {
        Value::Instance(i) => h.exception_class(h.class_of(i)),
        _ => false,
    }
}

/// The text of a value that holds no others.
pub open spec fn plain_repr(h: Heap, v: Value) -> Seq<char> {
    match v {
        Value::Null => "null"@,
        Value::Bool(b) => if b { "true"@ } else { "false"@ },
        Value::Int(i) => int_text(i as int),
        Value::Big(i) => int_text(h.big(i)),
        Value::Float(i) => h.float_text(i),
        Value::Str(i) => text_repr(h.text(i)),
        Value::Bytes(i) => octets_repr(h.octets(i)),
        Value::Range(i) => "range("@ + int_text(h.range(i).start as int) + ", "@ + int_text(h.range(i).stop as int)
            + (if h.range(i).step == 1 { ")"@ } else { ", "@ + int_text(h.range(i).step as int) + ")"@ }),
        Value::Func(i) => if i < h.funcs@.len() { "<function "@ + h.funcs@[i as int].code.name@ + ">"@ } else { "<function>"@ },
        Value::Builtin(i) => if i < h.builtins@.len() { "<builtin "@ + h.builtins@[i as int]@ + ">"@ } else { "<builtin>"@ },
        Value::Class(i) => "<class '"@ + h.class_name(i) + "'>"@,
        Value::Type(t) => "<class '"@ + t.spec_name() + "'>"@,
        Value::Instance(i) => "<"@ + h.class_name(h.instance_class(i)) + " object>"@,
        Value::Module(i) => if i < h.modules@.len() { "<module '"@ + h.modules@[i as int].name@ + "'>"@ } else { "<module>"@ },
        Value::Task(i) => if i < h.handles@.len() { "<task "@ + nat_text(h.handles@[i as int].id as nat) + ">"@ } else { "<task>"@ },
        Value::Channel(i) => if i < h.chans@.len() { "<channel cap="@ + nat_text(h.chans@[i as int].cap as nat) + ">"@ } else { "<channel>"@ },
        Value::Proc(i) => if i < h.procs@.len() { "<process "@ + int_text(h.procs@[i as int].pid as int) + ">"@ } else { "<process>"@ },
        _ => "<"@ + kind_name(h, v) + ">"@,
    }
}

/// The text of a value that holds no others.
pub fn render_plain(h: &Heap, v: Value) -> (r: String)
    ensures r@ == plain_repr(*h, v),
{
    match v {
        Value::Null => "null".to_owned(),
        Value::Bool(b) => if b { "true".to_owned() } else { "false".to_owned() },
        Value::Int(i) => render_i64(i),
        Value::Big(i) => h.big_copy(i).to_text(),
        Value::Float(i) => h.float_text_of(i).to_owned(),
        Value::Str(i) => render_text_repr(h.text_of(i)),
        Value::Bytes(i) => render_octets_repr(&h.octets_copy(i)),
        Value::Range(i) => {
            let r = h.range_of(i);
            let a = render_i64(r.start);
            let b = render_i64(r.stop);
            let mut s = join2("range(", a.as_str());
            s.append(", ");
            s.append(b.as_str());
            let tail = if r.step == 1 {
                ")".to_owned()
            } else {
                let c = render_i64(r.step);
                join3(", ", c.as_str(), ")")
            };
            s.append(tail.as_str());
            s
        }
        Value::Func(i) => if i < h.funcs.len() {
            join3("<function ", h.funcs[i].code.name.as_str(), ">")
        } else {
            "<function>".to_owned()
        },
        Value::Builtin(i) => if i < h.builtins.len() {
            join3("<builtin ", h.builtins[i].as_str(), ">")
        } else {
            "<builtin>".to_owned()
        },
        Value::Class(i) => join3("<class '", h.class_name_of(i), "'>"),
        Value::Type(t) => join3("<class '", t.name(), "'>"),
        Value::Instance(i) => join3("<", h.class_name_of(h.class_of(i)), " object>"),
        Value::Module(i) => if i < h.modules.len() {
            join3("<module '", h.modules[i].name.as_str(), "'>")
        } else {
            "<module>".to_owned()
        },
        Value::Task(i) => if i < h.handles.len() {
            let n = render_u64(h.handles[i].id);
            join3("<task ", n.as_str(), ">")
        } else {
            "<task>".to_owned()
        },
        Value::Channel(i) => if i < h.chans.len() {
            let n = render_u64(h.chans[i].cap);
            join3("<channel cap=", n.as_str(), ">")
        } else {
            "<channel>".to_owned()
        },
        Value::Proc(i) => if i < h.procs.len() {
            let n = render_i64(h.procs[i].pid);
            join3("<process ", n.as_str(), ">")
        } else {
            "<process>".to_owned()
        },
        _ => join3("<", kind_name_of(h, v), ">"),
    }
}

/// What a rendering knows besides the heap: whether the texts of instances
/// with a `__repr__` of their own are spliced in, and those texts in order.
pub ghost struct Splice {
    pub on: bool,
    pub texts: Seq<Seq<char>>,
}

/// Whether this instance's text is spliced in.
pub open spec fn spliced(h: Heap, v: Value, sp: Splice) -> bool {
    sp.on && h.method_of(v, "__repr__"@) is Some
}

/// What stands in for a holder inside itself.
pub open spec fn cycle_mark(h: Heap, v: Value) -> Seq<char> {
    match v {
        Value::List(_) => "[...]"@,
        Value::Tuple(_) => "(...)"@,
        Value::Dict(_) => "{...}"@,
        _ => "..."@,
    }
}

/// The place after `idx`; it stays where it is once it cannot grow.
pub open spec fn bumped(idx: nat) -> nat {
    if idx < usize::MAX { idx + 1 } else { idx }
}

/// The text of `v` and how many spliced texts were used before what follows
/// it, given those used so far. `path` is what `v` stands in; a holder met
/// again inside itself reads as a mark. (A path as long as there are holders
/// has met them all.)
pub open spec fn repr_value(h: Heap, v: Value, sp: Splice, idx: nat, path: Seq<Value>) -> (Seq<char>, nat)
    decreases (if sp.on { 1int } else { 0 }), holders(h) - path.len(), 0int, 0int,
{
    let cyclic = path.contains(v) || path.len() >= holders(h);
    match v {
        Value::List(i) => if cyclic {
            (cycle_mark(h, v), idx)
        } else {
            let (t, n) = repr_items(h, h.list(i), 0, sp, idx, path.push(v));
            ("["@ + t + "]"@, n)
        },
        Value::Tuple(i) => if cyclic {
            (cycle_mark(h, v), idx)
        } else {
            let (t, n) = repr_items(h, h.tuple(i), 0, sp, idx, path.push(v));
            (if h.tuple(i).len() == 1 { "("@ + t + ",)"@ } else { "("@ + t + ")"@ }, n)
        },
        Value::Dict(i) => if cyclic {
            (cycle_mark(h, v), idx)
        } else {
            let (t, n) = repr_entries(h, h.dict(i), 0, sp, idx, path.push(v));
            ("{"@ + t + "}"@, n)
        },
        Value::Instance(i) => if spliced(h, v, sp) {
            (if idx < sp.texts.len() { sp.texts[idx as int] } else { Seq::empty() }, bumped(idx))
        } else if is_exception(h, v) {
            if sp.on {
                // Nothing is spliced into an exception's own text.
                (repr_value(h, v, Splice { on: false, texts: Seq::empty() }, 0, Seq::empty()).0, idx)
            } else if cyclic {
                (cycle_mark(h, v), idx)
            } else {
                let (t, n) = repr_items(h, exception_args(h, i), 0, sp, idx, path.push(v));
                (h.class_name(h.instance_class(i)) + "("@ + t + ")"@, n)
            }
        } else {
            (plain_repr(h, v), idx)
        },
        _ => (plain_repr(h, v), idx),
    }
}

/// The texts of the items from place `k` on, with commas between them.
pub open spec fn repr_items(h: Heap, items: Seq<Value>, k: int, sp: Splice, idx: nat, path: Seq<Value>) -> (Seq<char>, nat)
    decreases (if sp.on { 1int } else { 0 }), holders(h) - path.len(), 1int, items.len() - k,
{
    if k < 0 || k >= items.len() {
        (Seq::empty(), idx)
    } else {
        let (t, n) = repr_value(h, items[k], sp, idx, path);
        let (rest, m) = repr_items(h, items, k + 1, sp, n, path);
        (if k + 1 < items.len() { t + ", "@ + rest } else { t }, m)
    }
}

/// The texts of the entries from place `k` on, with commas between them.
pub open spec fn repr_entries(h: Heap, items: Seq<(Value, Value)>, k: int, sp: Splice, idx: nat, path: Seq<Value>) -> (Seq<char>, nat)
    decreases (if sp.on { 1int } else { 0 }), holders(h) - path.len(), 1int, items.len() - k,
{
    if k < 0 || k >= items.len() {
        (Seq::empty(), idx)
    } else {
        let (t, n) = repr_value(h, items[k].0, sp, idx, path);
        let (u, o) = repr_value(h, items[k].1, sp, n, path);
        let (rest, m) = repr_entries(h, items, k + 1, sp, o, path);
        (if k + 1 < items.len() { t + ": "@ + u + ", "@ + rest } else { t + ": "@ + u }, m)
    }
}

fn on_path(path: &Vec<Value>, v: Value) -> (r: bool)
    ensures r == path@.contains(v),
{
    let mut i: usize = 0;
    while i < path.len()
        invariant i <= path.len(), forall|k: int| 0 <= k < i ==> path@[k] != v,
        decreases path.len() - i,
    {
        if path[i] == v {
            assert(path@[i as int] == v);
            return true;
        }
        i += 1;
    }
    false
}

/// Whether a path has met every holder there is.
fn path_full(h: &Heap, path: &Vec<Value>) -> (r: bool)
    ensures r == (path.len() >= holders(*h)),
{
    let n: u128 = h.lists.len() as u128 + h.tuples.len() as u128 + h.dicts.len() as u128 + h.instances.len() as u128;
    path.len() as u128 >= n
}

fn render_items(h: &Heap, items: &Vec<Value>, splice: bool, results: &Vec<String>, idx: usize, path: &mut Vec<Value>) -> (r: (String, usize))
    requires old(path).len() <= holders(*h),
    ensures
        final(path)@ == old(path)@,
        (r.0@, r.1 as nat) == repr_items(*h, items@, 0, Splice { on: splice, texts: texts(results@) }, idx as nat, old(path)@),
    decreases (if splice { 1int } else { 0 }), holders(*h) - old(path).len(), 1int,
{
    let ghost sp = Splice { on: splice, texts: texts(results@) };
    proof { reveal_strlit(""); }
    let mut out = "".to_owned();
    let mut n = idx;
    let mut k: usize = 0;
    let ghost goal = repr_items(*h, items@, 0, sp, idx as nat, path@);
    assert(out@ =~= Seq::<char>::empty());
    assert(goal.0 =~= out@ + goal.0);
    while k < items.len()
        invariant
            k <= items.len(),
            path@ == old(path)@,
            old(path).len() <= holders(*h),
            sp == (Splice { on: splice, texts: texts(results@) }),
            goal.1 == repr_items(*h, items@, k as int, sp, n as nat, path@).1,
            goal.0 == out@ + repr_items(*h, items@, k as int, sp, n as nat, path@).0,
        decreases items.len() - k,
    {
        let ghost before = out@;
        let ghost whole = repr_items(*h, items@, k as int, sp, n as nat, path@);
        let ghost n0 = n as nat;
        let (t, m) = build_repr(h, items[k], splice, results, n, path);
        out.append(t.as_str());
        n = m;
        k += 1;
        let ghost rest = repr_items(*h, items@, k as int, sp, n as nat, path@);
        if k < items.len() {
            out.append(", ");
            proof {
                assert(whole.0 == t@ + ", "@ + rest.0);
                assert(before + (t@ + ", "@ + rest.0) =~= (before + t@ + ", "@) + rest.0);
            }
        } else {
            proof {
                assert(whole.0 == t@);
                assert(rest.0 =~= Seq::<char>::empty());
                assert(before + t@ =~= (before + t@) + rest.0);
            }
        }
    }
    assert(out@ + Seq::<char>::empty() =~= out@);
    (out, n)
}

fn render_entries(h: &Heap, id: usize, splice: bool, results: &Vec<String>, idx: usize, path: &mut Vec<Value>) -> (r: (String, usize))
    requires old(path).len() <= holders(*h),
    ensures
        final(path)@ == old(path)@,
        (r.0@, r.1 as nat) == repr_entries(*h, h.dict(id), 0, Splice { on: splice, texts: texts(results@) }, idx as nat, old(path)@),
    decreases (if splice { 1int } else { 0 }), holders(*h) - old(path).len(), 1int,
{
    let ghost sp = Splice { on: splice, texts: texts(results@) };
    proof { reveal_strlit(""); }
    let mut out = "".to_owned();
    let mut n = idx;
    let mut k: usize = 0;
    let len = h.dict_len(id);
    let ghost items = h.dict(id);
    let ghost goal = repr_entries(*h, items, 0, sp, idx as nat, path@);
    assert(out@ =~= Seq::<char>::empty());
    assert(goal.0 =~= out@ + goal.0);
    while k < len
        invariant
            k <= len,
            len == items.len(),
            items == h.dict(id),
            path@ == old(path)@,
            old(path).len() <= holders(*h),
            sp == (Splice { on: splice, texts: texts(results@) }),
            goal.1 == repr_entries(*h, items, k as int, sp, n as nat, path@).1,
            goal.0 == out@ + repr_entries(*h, items, k as int, sp, n as nat, path@).0,
        decreases len - k,
    {
        let ghost before = out@;
        let ghost whole = repr_entries(*h, items, k as int, sp, n as nat, path@);
        let e = h.dict_at(id, k);
        let (t, m) = build_repr(h, e.0, splice, results, n, path);
        let (u, o) = build_repr(h, e.1, splice, results, m, path);
        out.append(t.as_str());
        out.append(": ");
        out.append(u.as_str());
        n = o;
        k += 1;
        let ghost rest = repr_entries(*h, items, k as int, sp, n as nat, path@);
        if k < len {
            out.append(", ");
            proof {
                assert(whole.0 == t@ + ": "@ + u@ + ", "@ + rest.0);
                assert(before + (t@ + ": "@ + u@ + ", "@ + rest.0) =~= (before + t@ + ": "@ + u@ + ", "@) + rest.0);
            }
        } else {
            proof {
                assert(whole.0 == t@ + ": "@ + u@);
                assert(rest.0 =~= Seq::<char>::empty());
                assert(before + (t@ + ": "@ + u@) =~= (before + t@ + ": "@ + u@) + rest.0);
            }
        }
    }
    assert(out@ + Seq::<char>::empty() =~= out@);
    (out, n)
}

/// The text of `v`, with the texts of instances that have a `__repr__` of their
/// own taken from `results` in order, from `idx` on.
pub fn build_repr(h: &Heap, v: Value, splice: bool, results: &Vec<String>, idx: usize, path: &mut Vec<Value>) -> (r: (String, usize))
    requires old(path).len() <= holders(*h),
    ensures
        final(path)@ == old(path)@,
        (r.0@, r.1 as nat) == repr_value(*h, v, Splice { on: splice, texts: texts(results@) }, idx as nat, old(path)@),
    decreases (if splice { 1int } else { 0 }), holders(*h) - old(path).len(), 0int,
{
    let cyclic = on_path(path, v) || path_full(h, path);
    match v {
        Value::List(i) => {
            if cyclic {
                return ("[...]".to_owned(), idx);
            }
            path.push(v);
            let (t, n) = render_items(h, &h.list_copy(i), splice, results, idx, path);
            path.pop();
            assert(path@ =~= old(path)@);
            (join3("[", t.as_str(), "]"), n)
        }
        Value::Tuple(i) => {
            if cyclic {
                return ("(...)".to_owned(), idx);
            }
            path.push(v);
            let (t, n) = render_items(h, &h.tuple_copy(i), splice, results, idx, path);
            path.pop();
            assert(path@ =~= old(path)@);
            if h.tuple_len(i) == 1 {
                (join3("(", t.as_str(), ",)"), n)
            } else {
                (join3("(", t.as_str(), ")"), n)
            }
        }
        Value::Dict(i) => {
            if cyclic {
                return ("{...}".to_owned(), idx);
            }
            path.push(v);
            let (t, n) = render_entries(h, i, splice, results, idx, path);
            path.pop();
            assert(path@ =~= old(path)@);
            (join3("{", t.as_str(), "}"), n)
        }
        Value::Instance(i) => {
            if splice && h.instance_method(v, "__repr__").is_some() {
                let n = if idx < usize::MAX { idx + 1 } else { idx };
                if idx < results.len() {
                    (results[idx].clone(), n)
                } else {
                    proof {
                        reveal_strlit("");
                        assert(""@ =~= Seq::<char>::empty());
                    }
                    ("".to_owned(), n)
                }
            } else if exception_value(h, v) {
                if splice {
                    return (render(h, v), idx);
                }
                if cyclic {
                    return ("...".to_owned(), idx);
                }
                path.push(v);
                let (t, n) = render_items(h, &exception_args_of(h, i), splice, results, idx, path);
                path.pop();
                assert(path@ =~= old(path)@);
                let head = join2(h.class_name_of(h.class_of(i)), "(");
                (join3(head.as_str(), t.as_str(), ")"), n)
            } else {
                (render_plain(h, v), idx)
            }
        }
        _ => (render_plain(h, v), idx),
    }
}

/// The text of `v` without running any method of a program.
pub open spec fn repr(h: Heap, v: Value) -> Seq<char> {
    repr_value(h, v, Splice { on: false, texts: Seq::empty() }, 0, Seq::empty()).0
}

/// The text of `v` without running any method of a program.
pub fn render(h: &Heap, v: Value) -> (r: String)
    ensures r@ == repr(*h, v),
    decreases 0int, holders(*h) + 1, 0int,
{
    let none: Vec<String> = Vec::new();
    let mut path: Vec<Value> = Vec::new();
    assert(texts(none@) =~= Seq::empty());
    let (t, _) = build_repr(h, v, false, &none, 0, &mut path);
    t
}

/// The field that marks an exception whose argument is its message already.
pub open spec fn rendered_mark() -> Seq<char> {
    "__rendered__"@
}

/// How deep one message may quote another.
pub const MESSAGE_DEPTH: usize = 16;

/// The text of `v` for a reader: a string itself, an exception its message.
pub open spec fn display_within(h: Heap, v: Value, fuel: nat) -> Seq<char>
    decreases fuel,
{
    match v {
        Value::Str(i) => h.text(i),
        Value::Instance(i) => if is_exception(h, v) && fuel > 0 {
            let args = exception_args(h, i);
            if args.len() == 0 {
                Seq::empty()
            } else if args.len() == 1 {
                if h.class_name(h.instance_class(i)) == "KeyError"@ && h.field(i, rendered_mark()) is None {
                    repr(h, args[0])
                } else {
                    display_within(h, args[0], (fuel - 1) as nat)
                }
            } else {
                match h.field(i, "args"@) {
                    Some(t) => repr(h, t),
                    None => Seq::empty(),
                }
            }
        } else {
            repr(h, v)
        },
        _ => repr(h, v),
    }
}

/// The text of `v` for a reader.
pub open spec fn display(h: Heap, v: Value) -> Seq<char> {
    display_within(h, v, MESSAGE_DEPTH as nat)
}

fn display_to(h: &Heap, v: Value, fuel: usize) -> (r: String)
    ensures r@ == display_within(*h, v, fuel as nat),
    decreases fuel,
{
    match v {
        Value::Str(i) => h.text_of(i).to_owned(),
        Value::Instance(i) => {
            if exception_value(h, v) && fuel > 0 {
                let args = exception_args_of(h, i);
                proof {
                    reveal_strlit("");
                    assert(""@ =~= Seq::<char>::empty());
                }
                if args.len() == 0 {
                    "".to_owned()
                } else if args.len() == 1 {
                    if same_text(h.class_name_of(h.class_of(i)), "KeyError")
                        && h.field_of(i, "__rendered__").is_none() {
                        render(h, args[0])
                    } else {
                        display_to(h, args[0], fuel - 1)
                    }
                } else {
                    match h.field_of(i, "args") {
                        Some(t) => render(h, t),
                        None => "".to_owned(),
                    }
                }
            } else {
                render(h, v)
            }
        }
        _ => render(h, v),
    }
}

/// The text of `v` for a reader.
pub fn render_display(h: &Heap, v: Value) -> (r: String)
    ensures r@ == display(*h, v),
{
    display_to(h, v, MESSAGE_DEPTH)
}

/// The instances met in the text of `v`, in the order it is built, whose own
/// `__repr__` gives their text.
pub open spec fn repr_instances(h: Heap, v: Value, path: Seq<Value>) -> Seq<Value>
    decreases holders(h) - path.len(), 0int, 0int,
{
    let cyclic = path.contains(v) || path.len() >= holders(h);
    match v {
        Value::List(i) => if cyclic { Seq::empty() } else { instances_from(h, h.list(i), 0, path.push(v)) },
        Value::Tuple(i) => if cyclic { Seq::empty() } else { instances_from(h, h.tuple(i), 0, path.push(v)) },
        Value::Dict(i) => if cyclic { Seq::empty() } else { instances_within(h, h.dict(i), 0, path.push(v)) },
        Value::Instance(_) => if h.method_of(v, "__repr__"@) is Some { seq![v] } else { Seq::empty() },
        _ => Seq::empty(),
    }
}

/// The same over items from place `k` on.
pub open spec fn instances_from(h: Heap, items: Seq<Value>, k: int, path: Seq<Value>) -> Seq<Value>
    decreases holders(h) - path.len(), 1int, items.len() - k,
{
    if k < 0 || k >= items.len() {
        Seq::empty()
    } else {
        repr_instances(h, items[k], path) + instances_from(h, items, k + 1, path)
    }
}

/// The same over entries from place `k` on.
pub open spec fn instances_within(h: Heap, items: Seq<(Value, Value)>, k: int, path: Seq<Value>) -> Seq<Value>
    decreases holders(h) - path.len(), 1int, items.len() - k,
{
    if k < 0 || k >= items.len() {
        Seq::empty()
    } else {
        repr_instances(h, items[k].0, path) + repr_instances(h, items[k].1, path) + instances_within(h, items, k + 1, path)
    }
}

fn collect_items(h: &Heap, items: &Vec<Value>, out: &mut Vec<Value>, path: &mut Vec<Value>)
    requires old(path).len() <= holders(*h),
    ensures
        final(path)@ == old(path)@,
        final(out)@ == old(out)@ + instances_from(*h, items@, 0, old(path)@),
    decreases holders(*h) - old(path).len(), 1int,
{
    let ghost goal = instances_from(*h, items@, 0, path@);
    let mut k: usize = 0;
    while k < items.len()
        invariant
            k <= items.len(),
            path@ == old(path)@,
            old(path).len() <= holders(*h),
            goal == instances_from(*h, items@, 0, path@),
            old(out)@ + goal == out@ + instances_from(*h, items@, k as int, path@),
        decreases items.len() - k,
    {
        let ghost before = out@;
        let ghost here = repr_instances(*h, items@[k as int], path@);
        collect_repr_instances(h, items[k], out, path);
        k += 1;
        let ghost rest = instances_from(*h, items@, k as int, path@);
        assert(before + (here + rest) =~= (before + here) + rest);
    }
    assert(out@ + Seq::<Value>::empty() =~= out@);
}

fn collect_entries(h: &Heap, id: usize, out: &mut Vec<Value>, path: &mut Vec<Value>)
    requires old(path).len() <= holders(*h),
    ensures
        final(path)@ == old(path)@,
        final(out)@ == old(out)@ + instances_within(*h, h.dict(id), 0, old(path)@),
    decreases holders(*h) - old(path).len(), 1int,
{
    let ghost goal = instances_within(*h, h.dict(id), 0, path@);
    let len = h.dict_len(id);
    let mut k: usize = 0;
    while k < len
        invariant
            k <= len,
            len == h.dict(id).len(),
            path@ == old(path)@,
            old(path).len() <= holders(*h),
            old(out)@ + goal == out@ + instances_within(*h, h.dict(id), k as int, path@),
        decreases len - k,
    {
        let ghost before = out@;
        let e = h.dict_at(id, k);
        let ghost here = repr_instances(*h, e.0, path@);
        let ghost there = repr_instances(*h, e.1, path@);
        collect_repr_instances(h, e.0, out, path);
        collect_repr_instances(h, e.1, out, path);
        k += 1;
        let ghost rest = instances_within(*h, h.dict(id), k as int, path@);
        assert(before + (here + there + rest) =~= (before + here + there) + rest);
    }
    assert(out@ + Seq::<Value>::empty() =~= out@);
}

/// Collect the instances whose own `__repr__` gives their part of the text of
/// `v`, in the order the text is built.
pub fn collect_repr_instances(h: &Heap, v: Value, out: &mut Vec<Value>, path: &mut Vec<Value>)
    requires old(path).len() <= holders(*h),
    ensures
        final(path)@ == old(path)@,
        final(out)@ == old(out)@ + repr_instances(*h, v, old(path)@),
    decreases holders(*h) - old(path).len(), 0int,
{
    let cyclic = on_path(path, v) || path_full(h, path);
    assert(out@ + Seq::<Value>::empty() =~= out@);
    match v {
        Value::List(i) => {
            if cyclic {
                return;
            }
            path.push(v);
            collect_items(h, &h.list_copy(i), out, path);
            path.pop();
            assert(path@ =~= old(path)@);
        }
        Value::Tuple(i) => {
            if cyclic {
                return;
            }
            path.push(v);
            collect_items(h, &h.tuple_copy(i), out, path);
            path.pop();
            assert(path@ =~= old(path)@);
        }
        Value::Dict(i) => {
            if cyclic {
                return;
            }
            path.push(v);
            collect_entries(h, i, out, path);
            path.pop();
            assert(path@ =~= old(path)@);
        }
        Value::Instance(_) => {
            if h.instance_method(v, "__repr__").is_some() {
                out.push(v);
                assert(out@ =~= old(out)@ + seq![v]);
            }
        }
        _ => {}
    }
}

} // verus!
