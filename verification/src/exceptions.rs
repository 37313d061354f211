//! The built-in exception classes as classes of the language, and exceptions
//! made of them.
use vstd::prelude::*;
use vstd::string::*;
use crate::exc::{exc_count, exc_derives, exc_places, type_error, Exc, VErr, EXC_COUNT};
use crate::fields::Fields;
use crate::machine::RuntimeError;
use crate::names::{type_label, type_label_of};
use crate::repr::{display, is_exception, exception_value, render_display};
use crate::text::{chars_of, join3, same_text};
use crate::value::{Class, Heap, Instance, Value};

verus! {

/// `reg` lists the class of every built-in exception at its place.
pub open spec fn registered(h: Heap, reg: Seq<usize>) -> bool {
    &&& reg.len() == exc_count()
    &&& forall|e: Exc| #[trigger] registered_as(h, reg, e)
}

/// The class of `e` has its name, its base, and no members of its own.
pub open spec fn registered_as(h: Heap, reg: Seq<usize>, e: Exc) -> bool {
    let c = reg[e.spec_rank()];
    &&& c < h.classes@.len()
    &&& h.class_name(c) == e.spec_name()
    &&& h.is_exception_class(c)
    &&& h.classes@[c as int].members@ == Map::<Seq<char>, Value>::empty()
    &&& h.class_base(c) == (match e.spec_parent() {
        Some(p) => Some(reg[p.spec_rank()]),
        None => None,
    })
}

/// Only classes were added between `a` and `b`.
pub open spec fn classes_grew(a: Heap, b: Heap) -> bool {
    b == (Heap { classes: b.classes, ..a }) && a.classes@.is_prefix_of(b.classes@)
}

/// Build the exception classes. Each class stands at the place of its kind, and
/// `except` respects inheritance because the bases do.
pub fn build_registry(h: &mut Heap) -> (r: Vec<usize>)
    ensures
        registered(*final(h), r@),
        classes_grew(*old(h), *final(h)),
{
    let mut reg: Vec<usize> = Vec::new();
    let mut i: usize = 0;
    let ghost base = h.classes@.len() as int;
    while i < EXC_COUNT
        invariant
            i <= EXC_COUNT,
            EXC_COUNT == exc_count(),
            reg.len() == i,
            h.classes@.len() == base + i,
            base == old(h).classes@.len(),
            classes_grew(*old(h), *h),
            forall|k: int| 0 <= k < i ==> #[trigger] reg@[k] == base + k,
            forall|e: Exc| e.spec_rank() < i ==> #[trigger] registered_as(*h, reg@, e),
        decreases EXC_COUNT - i,
    {
        let e = Exc::at(i);
        let ghost before = *h;
        let ghost prior = reg@;
        proof {
            assert forall|x: Exc| x.spec_rank() == i implies x == e by {
                exc_places(x);
            }
            assert(e.spec_rank() == i);
            exc_places(e);
        }
        let parent = match e.parent() {
            Some(p) => Some(reg[p.rank()]),
            None => None,
        };
        let id = h.classes.len();
        let _c = h.alloc_class(Class { name: e.name().to_owned(), base: parent, members: Fields::new(), is_exception: true });
        reg.push(id);
        proof {
            assert forall|x: Exc| x.spec_rank() < i + 1 implies #[trigger] registered_as(*h, reg@, x) by {
                exc_places(x);
                if x.spec_rank() < i {
                    assert(registered_as(before, prior, x));
                }
            }
        }
        i += 1;
    }
    proof {
        assert forall|e: Exc| #[trigger] registered_as(*h, reg@, e) by {
            exc_places(e);
        }
    }
    reg
}

/// The place from `from` on of the exception called `name`.
pub open spec fn exc_named(name: Seq<char>, from: int) -> Option<int>
    decreases exc_count() - from,
{
    if from < 0 || from >= exc_count() {
        None
    } else if Exc::spec_at(from).spec_name() == name {
        Some(from)
    } else {
        exc_named(name, from + 1)
    }
}

/// The class at a place of the registry.
pub open spec fn class_at(reg: Seq<usize>, i: int) -> usize {
    if 0 <= i < reg.len() { reg[i] } else { 0 }
}

/// The built-in exception class called `name`.
pub fn lookup(registry: &Vec<usize>, name: &str) -> (r: Option<Value>)
    ensures
        r == (match exc_named(name@, 0) {
            Some(i) => Some(Value::Class(class_at(registry@, i))),
            None => None,
        }),
{
    let mut i: usize = 0;
    while i < EXC_COUNT
        invariant
            i <= EXC_COUNT,
            EXC_COUNT == exc_count(),
            exc_named(name@, 0) == exc_named(name@, i as int),
        decreases EXC_COUNT - i,
    {
        if same_text(Exc::at(i).name(), name) {
            return Some(Value::Class(if i < registry.len() { registry[i] } else { 0 }));
        }
        i += 1;
    }
    None
}

/// The class of `e`.
pub open spec fn exc_class(reg: Seq<usize>, e: Exc) -> usize {
    class_at(reg, e.spec_rank())
}

/// In a registry, deriving between classes is deriving between exceptions.
pub proof fn registry_inherits(h: Heap, reg: Seq<usize>, a: Exc, b: Exc)
    requires registered(h, reg),
    ensures h.derives(exc_class(reg, a), exc_class(reg, b)) == exc_derives(a, b),
    decreases a.spec_rank(),
{
    exc_places(a);
    exc_places(b);
    assert(registered_as(h, reg, a));
    assert(registered_as(h, reg, b));
    lemma_distinct(h, reg, a, b);
    match a.spec_parent() {
        Some(p) => {
            exc_places(p);
            registry_inherits(h, reg, p, b);
        },
        None => {},
    }
}

/// Two exceptions of a registry with one class are one exception.
proof fn lemma_distinct(h: Heap, reg: Seq<usize>, a: Exc, b: Exc)
    requires registered(h, reg),
    ensures exc_class(reg, a) == exc_class(reg, b) ==> a == b,
    decreases a.spec_rank(),
{
    exc_places(a);
    exc_places(b);
    assert(registered_as(h, reg, a));
    assert(registered_as(h, reg, b));
    if exc_class(reg, a) == exc_class(reg, b) {
        lemma_names(a, b);
    }
}

/// No two built-in exceptions share a name.
pub proof fn lemma_names(a: Exc, b: Exc)
    requires a.spec_name() == b.spec_name(),
    ensures a == b,
{
    reveal_strlit("BaseException");
    reveal_strlit("SystemExit");
    reveal_strlit("Exception");
    reveal_strlit("ImportError");
    reveal_strlit("ModuleNotFoundError");
    reveal_strlit("ValueError");
    reveal_strlit("TypeError");
    reveal_strlit("LookupError");
    reveal_strlit("KeyError");
    reveal_strlit("IndexError");
    reveal_strlit("AttributeError");
    reveal_strlit("NameError");
    reveal_strlit("ArithmeticError");
    reveal_strlit("ZeroDivisionError");
    reveal_strlit("RuntimeError");
    reveal_strlit("NotImplementedError");
    reveal_strlit("RecursionError");
    reveal_strlit("StopIteration");
    reveal_strlit("ChannelClosed");
    reveal_strlit("CommandError");
    reveal_strlit("OSError");
    reveal_strlit("EOFError");
    reveal_strlit("FileNotFoundError");
    reveal_strlit("PermissionError");
    reveal_strlit("TimeoutError");
    assert("BaseException"@.len() == 13);
    assert("SystemExit"@.len() == 10);
    assert("Exception"@.len() == 9);
    assert("ImportError"@.len() == 11);
    assert("ModuleNotFoundError"@.len() == 19);
    assert("ValueError"@.len() == 10);
    assert("TypeError"@.len() == 9);
    assert("LookupError"@.len() == 11);
    assert("KeyError"@.len() == 8);
    assert("IndexError"@.len() == 10);
    assert("AttributeError"@.len() == 14);
    assert("NameError"@.len() == 9);
    assert("ArithmeticError"@.len() == 15);
    assert("ZeroDivisionError"@.len() == 17);
    assert("RuntimeError"@.len() == 12);
    assert("NotImplementedError"@.len() == 19);
    assert("RecursionError"@.len() == 14);
    assert("StopIteration"@.len() == 13);
    assert("ChannelClosed"@.len() == 13);
    assert("CommandError"@.len() == 12);
    assert("OSError"@.len() == 7);
    assert("EOFError"@.len() == 8);
    assert("FileNotFoundError"@.len() == 17);
    assert("PermissionError"@.len() == 15);
    assert("TimeoutError"@.len() == 12);
    assert("BaseException"@[0] == 'B' && "StopIteration"@[0] == 'S');
    assert("BaseException"@[0] == 'B' && "ChannelClosed"@[0] == 'C');
    assert("StopIteration"@[0] == 'S' && "ChannelClosed"@[0] == 'C');
    assert("SystemExit"@[0] == 'S' && "ValueError"@[0] == 'V');
    assert("SystemExit"@[0] == 'S' && "IndexError"@[0] == 'I');
    assert("ValueError"@[0] == 'V' && "IndexError"@[0] == 'I');
    assert("Exception"@[0] == 'E' && "TypeError"@[0] == 'T');
    assert("Exception"@[0] == 'E' && "NameError"@[0] == 'N');
    assert("TypeError"@[0] == 'T' && "NameError"@[0] == 'N');
    assert("ImportError"@[0] == 'I' && "LookupError"@[0] == 'L');
    assert("ModuleNotFoundError"@[0] == 'M' && "NotImplementedError"@[0] == 'N');
    assert("KeyError"@[0] == 'K' && "EOFError"@[0] == 'E');
    assert("AttributeError"@[0] == 'A' && "RecursionError"@[0] == 'R');
    assert("ArithmeticError"@[0] == 'A' && "PermissionError"@[0] == 'P');
    assert("ZeroDivisionError"@[0] == 'Z' && "FileNotFoundError"@[0] == 'F');
    assert("RuntimeError"@[0] == 'R' && "CommandError"@[0] == 'C');
    assert("RuntimeError"@[0] == 'R' && "TimeoutError"@[0] == 'T');
    assert("CommandError"@[0] == 'C' && "TimeoutError"@[0] == 'T');
}

/// The fields an exception made with these arguments has.
pub open spec fn exception_fields(h: Heap, v: Value, class: usize, args: Seq<Value>) -> bool {
    v matches Value::Instance(i) && {
        &&& i < h.instances@.len()
        &&& h.instances@[i as int].class == class
        &&& h.instances@[i as int].fields@.dom() =~= set!["args"@]
        &&& h.field(i, "args"@) matches Some(Value::Tuple(t)) && t < h.tuples@.len() && h.tuple(t) == args
    }
}

/// Only tuples, strings and instances were added between `a` and `b`.
pub open spec fn exceptions_grew(a: Heap, b: Heap) -> bool {
    &&& b == (Heap { tuples: b.tuples, strs: b.strs, instances: b.instances, ..a })
    &&& a.tuples@.is_prefix_of(b.tuples@)
    &&& a.strs@.is_prefix_of(b.strs@)
    &&& a.instances@.is_prefix_of(b.instances@)
}

/// An exception of `class` made with `args`.
pub fn make_exception_instance(h: &mut Heap, class: usize, args: Vec<Value>) -> (r: Value)
    ensures
        exception_fields(*final(h), r, class, args@),
        r == Value::Instance(old(h).instances.len()),
        exceptions_grew(*old(h), *final(h)),
        final(h).strs == old(h).strs,
{
    let t = h.alloc_tuple(args);
    let mut fields = Fields::new();
    fields.insert("args".to_owned(), t);
    h.alloc_instance(Instance { class, fields })
}

/// `s` without `p` in front, where it stands there.
pub open spec fn without_prefix(s: Seq<char>, p: Seq<char>) -> Seq<char> {
    if p.is_prefix_of(s) { s.skip(p.len() as int) } else { s }
}

fn strip_prefix(s: &str, p: &str) -> (r: String)
    ensures r@ == without_prefix(s@, p@),
{
    let n = s.unicode_len();
    let m = p.unicode_len();
    if m <= n && same_text(s.substring_char(0, m), p) {
        assert(p@ =~= s@.subrange(0, p@.len() as int));
        let r = s.substring_char(m, n).to_owned();
        assert(r@ =~= s@.skip(m as int));
        r
    } else {
        assert(!p@.is_prefix_of(s@)) by {
            if p@.is_prefix_of(s@) {
                assert(s@.subrange(0, m as int) =~= p@);
            }
        }
        s.to_owned()
    }
}

/// The message a fault's exception carries: a missing key is its own message.
pub open spec fn fault_message(class: Exc, message: Seq<char>) -> Seq<char> {
    if class == Exc::KeyError { without_prefix(message, "key error: "@) } else { message }
}

/// `v` is the exception that a fault of `class` with `message` becomes: its
/// one argument is the message, and it is marked as a message already.
pub open spec fn is_fault_exception(h: Heap, reg: Seq<usize>, v: Value, class: Exc, message: Seq<char>) -> bool {
    v matches Value::Instance(i) && {
        &&& i < h.instances@.len()
        &&& h.instances@[i as int].class == exc_class(reg, class)
        &&& h.instances@[i as int].fields@.dom() =~= set!["args"@, "__rendered__"@]
        &&& h.field(i, "__rendered__"@) == Some(Value::Bool(true))
        &&& h.field(i, "args"@) matches Some(Value::Tuple(t)) && t < h.tuples@.len() && h.tuple(t).len() == 1
            && (h.tuple(t)[0] matches Value::Str(s) && s < h.strs@.len() && h.text(s) == fault_message(class, message))
    }
}

/// The exception a fault becomes.
pub fn fault_exception(h: &mut Heap, registry: &Vec<usize>, e: &VErr) -> (r: Value)
    ensures
        is_fault_exception(*final(h), registry@, r, e.class, e.message@),
        exceptions_grew(*old(h), *final(h)),
{
    let k = e.class.rank();
    let class = if k < registry.len() { registry[k] } else { 0 };
    let msg = match e.class {
        Exc::KeyError => strip_prefix(e.message.as_str(), "key error: "),
        _ => e.message.clone(),
    };
    proof { exc_places(e.class); }
    let s = h.alloc_str(msg);
    let mut args: Vec<Value> = Vec::new();
    args.push(s);
    let ghost h1 = *h;
    let v = make_exception_instance(h, class, args);
    let ghost h2 = *h;
    proof {
        reveal_strlit("args");
        reveal_strlit("__rendered__");
        assert("args"@.len() != "__rendered__"@.len());
    }
    match v {
        Value::Instance(i) => {
            h.field_set(i, "__rendered__".to_owned(), Value::Bool(true));
            assert(h.instances@[i as int].fields@[ "args"@ ] == h2.instances@[i as int].fields@[ "args"@ ]);
        }
        _ => {}
    }
    v
}

/// The value a decimal text writes down, if all of it is digits.
pub open spec fn digits_value(s: Seq<char>) -> Option<int>
    decreases s.len(),
{
    if s.len() == 0 {
        Some(0)
    } else {
        let d = s.last() as u32;
        match digits_value(s.drop_last()) {
            Some(v) => if 48 <= d <= 57 { Some(10 * v + (d as int - 48)) } else { None },
            None => None,
        }
    }
}

/// The exit code a text asks for: a 32-bit number, or 0 where it is none.
pub open spec fn exit_code_of(s: Seq<char>) -> int {
    let negative = s.len() > 0 && s[0] == '-';
    let body = if s.len() > 0 && (s[0] == '-' || s[0] == '+') { s.skip(1) } else { s };
    match digits_value(body) {
        Some(v) => {
            let n = if negative { -v } else { v };
            if body.len() > 0 && -0x8000_0000 <= n <= 0x7fff_ffff { n } else { 0 }
        },
        None => 0,
    }
}

proof fn lemma_digits_grow(s: Seq<char>)
    ensures digits_value(s) matches Some(v) ==> v >= 0 && (s.len() > 0 ==> digits_value(s.drop_last()) is Some
        && digits_value(s.drop_last())->0 <= v),
    decreases s.len(),
{
    if s.len() > 0 {
        lemma_digits_grow(s.drop_last());
    }
}

/// No prefix of a digit text is worth more than the whole.
proof fn lemma_digits_prefix(s: Seq<char>, i: int)
    requires 0 <= i <= s.len(),
    ensures digits_value(s) matches Some(v) ==> digits_value(s.take(i)) is Some && digits_value(s.take(i))->0 <= v,
    decreases s.len(),
{
    lemma_digits_grow(s);
    if i < s.len() {
        lemma_digits_prefix(s.drop_last(), i);
        assert(s.drop_last().take(i) =~= s.take(i));
    } else {
        assert(s.take(i) =~= s);
    }
}

/// The exit code a text asks for.
pub fn parse_exit_code(s: &str) -> (r: i64)
    ensures r == exit_code_of(s@), -0x8000_0000 <= r <= 0x7fff_ffff,
{
    let v = chars_of(s);
    let signed: bool = v.len() > 0 && (v[0] == '-' || v[0] == '+');
    let negative: bool = v.len() > 0 && v[0] == '-';
    let start: usize = if signed { 1 } else { 0 };
    let ghost body = v@.skip(start as int);
    assert(v@.skip(0) =~= v@);
    let mut n: i64 = 0;
    let mut i: usize = start;
    assert(body.take(0) =~= Seq::empty());
    while i < v.len()
        invariant
            start <= i <= v.len(),
            v@ == s@,
            signed == (v@.len() > 0 && (v@[0] == '-' || v@[0] == '+')),
            negative == (v@.len() > 0 && v@[0] == '-'),
            start == (if signed { 1int } else { 0int }),
            body == v@.skip(start as int),
            body == (if signed { v@.skip(1) } else { v@ }),
            digits_value(body.take(i - start)) == Some(n as int),
            0 <= n <= 0x1_0000_0000,
        decreases v.len() - i,
    {
        let d = v[i] as u32;
        let ghost part = body.take(i - start + 1);
        proof {
            assert(part.drop_last() =~= body.take(i - start));
            assert(part.last() == v@[i as int]);
            lemma_digits_prefix(body, i - start + 1);
        }
        if d < 48 || d > 57 {
            return 0;
        }
        n = n * 10 + (d as i64 - 48);
        if n > 0x1_0000_0000 {
            return 0;
        }
        i += 1;
    }
    assert(body.take(i - start) =~= body);
    if v.len() == start {
        return 0;
    }
    let m: i64 = if negative { -n } else { n };
    if m < -0x8000_0000 || m > 0x7fff_ffff { 0 } else { m }
}

/// What a `raise` operand has to be: an instance of an exception class.
pub open spec fn raise_result(h: Heap, v: Value, r: Result<Value, VErr>) -> bool {
    if is_exception(h, v) {
        r == Ok::<Value, VErr>(v)
    } else if v matches Value::Class(c) && h.is_exception_class(c) {
        r matches Err(e) && e@ == (Exc::TypeError,
            "`raise` needs an exception instance, not the class — write `raise "@ + h.class_name(v->Class_0) + "()`"@)
    } else {
        r matches Err(e) && e@ == (Exc::TypeError,
            "exceptions must derive from BaseException, not '"@ + type_label(h, v) + "'"@)
    }
}

/// The exception a `raise` operand raises.
pub fn normalize_raise(h: &Heap, v: Value) -> (r: Result<Value, VErr>)
    ensures raise_result(*h, v, r),
{
    if exception_value(h, v) {
        return Ok(v);
    }
    if let Value::Class(c) = v {
        if h.exception_class(c) {
            return Err(type_error(join3("`raise` needs an exception instance, not the class — write `raise ",
                h.class_name_of(c), "()`")));
        }
    }
    Err(type_error(join3("exceptions must derive from BaseException, not '", type_label_of(h, v), "'")))
}

/// Whether an `except` clause for `class` takes `exc`.
pub open spec fn match_result(h: Heap, exc: Value, class: Value, r: Result<bool, VErr>) -> bool {
    if class matches Value::Class(c) && h.is_exception_class(c) {
        r == Ok::<bool, VErr>(match exc {
            Value::Instance(i) => h.derives(h.instance_class(i), class->Class_0),
            _ => false,
        })
    } else {
        r matches Err(e) && e@ == (Exc::TypeError,
            "catching classes that do not inherit from BaseException is not allowed (got '"@ + type_label(h, class) + "')"@)
    }
}

/// Whether an `except` clause for `class` takes `exc`.
pub fn exc_matches(h: &Heap, exc: Value, class: Value) -> (r: Result<bool, VErr>)
    ensures match_result(*h, exc, class, r),
{
    if let Value::Class(c) = class {
        if h.exception_class(c) {
            return Ok(match exc {
                Value::Instance(i) => h.is_subclass(h.class_of(i), c),
                _ => false,
            });
        }
    }
    Err(type_error(join3("catching classes that do not inherit from BaseException is not allowed (got '",
        type_label_of(h, class), "')")))
}

/// How an exception that nothing caught is reported: its class, and its
/// message where it has one.
pub open spec fn uncaught_text(h: Heap, exc: Value) -> Seq<char> {
    let name = match exc {
        Value::Instance(i) => h.class_name(h.instance_class(i)),
        _ => "Exception"@,
    };
    let msg = display(h, exc);
    if msg.len() == 0 { name } else { name + ": "@ + msg }
}

/// How an exception that nothing caught is reported.
pub fn render_uncaught(h: &Heap, exc: Value) -> (r: String)
    ensures r@ == uncaught_text(*h, exc),
{
    let msg = render_display(h, exc);
    let name = match exc {
        Value::Instance(i) => h.class_name_of(h.class_of(i)),
        _ => "Exception",
    };
    if msg.as_str().unicode_len() == 0 {
        name.to_owned()
    } else {
        join3(name, ": ", msg.as_str())
    }
}

} // verus!
