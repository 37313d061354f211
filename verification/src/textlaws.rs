//! What values look like when they are shown.
use vstd::prelude::*;
use crate::exceptions::uncaught_text;
use crate::frame::ReturnAction;
use crate::machine::{HostCall, Job, Keyword, Step, Vm};
use crate::memberlaws::plain;
use crate::relationlaws::{row, whole};
use crate::repr::{display, holders, is_exception, plain_repr, repr, repr_entries, repr_items, repr_value, Splice};
use crate::text::{digit_char, escaped, escaped_octets, int_text, joined, nat_text, octets_repr, text_repr, texts};
use crate::texting::{drive_print_result, print_result};
use crate::value::{Heap, Value};

verus! {

/// The number a decimal digit stands for.
pub open spec fn digit_of(c: char) -> Option<int> {
    match c {
        '0' => Some(0int),
        '1' => Some(1int),
        '2' => Some(2int),
        '3' => Some(3int),
        '4' => Some(4int),
        '5' => Some(5int),
        '6' => Some(6int),
        '7' => Some(7int),
        '8' => Some(8int),
        '9' => Some(9int),
        _ => None,
    }
}

/// The number that decimal digits write down, one at least.
pub open spec fn digits_read(s: Seq<char>) -> Option<int>
    decreases s.len(),
{
    if s.len() == 0 {
        None
    } else if s.len() == 1 {
        digit_of(s[0])
    } else {
        match (digits_read(s.drop_last()), digit_of(s.last())) {
            (Some(n), Some(d)) => Some(10 * n + d),
            _ => None,
        }
    }
}

proof fn lemma_digits(n: nat)
    ensures
        digits_read(nat_text(n)) == Some(n as int),
        n > 0 ==> nat_text(n)[0] != '0',
        nat_text(n)[0] != '-',
        nat_text(n).len() > 0,
        n < 10 ==> nat_text(n).len() == 1,
    decreases n,
{
    if n >= 10 {
        lemma_digits(n / 10);
        let s = nat_text(n);
        assert(s.drop_last() =~= nat_text(n / 10));
        assert(s.last() == digit_char(n % 10));
        assert(s[0] == nat_text(n / 10)[0]);
    }
}

/// An integer is shown in decimal, with a minus in front where it is negative
/// and no zero in front of other digits: what is shown reads back as it.
pub proof fn integers_read_back(h: Heap, v: Value, n: int)
    requires whole(h, v) == Some(n), !(v is Bool),
    ensures
        n >= 0 ==> digits_read(repr(h, v)) == Some(n),
        n < 0 ==> repr(h, v)[0] == '-' && digits_read(repr(h, v).skip(1)) == Some(-n),
        n > 0 ==> repr(h, v)[0] != '0',
        n < 0 ==> repr(h, v)[1] != '0',
        n == 0 ==> repr(h, v) == seq!['0'],
        display(h, v) == repr(h, v),
{
    assert(repr(h, v) == int_text(n));
    if n >= 0 {
        lemma_digits(n as nat);
        if n == 0 {
            assert(repr(h, v) =~= seq!['0']);
        }
    } else {
        lemma_digits((-n) as nat);
        assert(repr(h, v).skip(1) =~= nat_text((-n) as nat));
        assert(repr(h, v)[1] == nat_text((-n) as nat)[0]);
    }
}

/// What the other plain values are shown as.
pub proof fn plain_values_are_shown(h: Heap, x: usize)
    ensures
        repr(h, Value::Null) == "null"@,
        repr(h, Value::Bool(true)) == "true"@,
        repr(h, Value::Bool(false)) == "false"@,
        display(h, Value::Str(x)) == h.text(x),
        display(h, Value::Null) == "null"@,
        display(h, Value::Bool(true)) == "true"@,
        display(h, Value::Bool(false)) == "false"@,
        repr(h, Value::Class(x)) == "<class '"@ + h.class_name(x) + "'>"@,
{
}

/// How a character is spelled between quotes `q`.
pub open spec fn spelled(c: char, q: char) -> Seq<char> {
    match c {
        '\\' => seq!['\\', '\\'],
        '\n' => seq!['\\', 'n'],
        '\r' => seq!['\\', 'r'],
        '\t' => seq!['\\', 't'],
        _ => if c == q { seq!['\\', q] } else { seq![c] },
    }
}

/// Quoting goes character by character: the quoted form of two texts in a row is
/// the one after the other, and that of one character is its spelling.
pub proof fn quoting_goes_character_by_character(s: Seq<char>, t: Seq<char>, c: char, q: char)
    requires q == '\'' || q == '"',
    ensures
        escaped(s + t, q) == escaped(s, q) + escaped(t, q),
        escaped(seq![c], q) == spelled(c, q),
        escaped(Seq::empty(), q).len() == 0,
    decreases t.len(),
{
    assert(seq![c].drop_last() =~= Seq::empty());
    assert(escaped(Seq::<char>::empty(), q) =~= Seq::empty());
    assert(seq![c].last() == c);
    assert(escaped(seq![c], q) =~= spelled(c, q));
    if t.len() == 0 {
        assert(s + t =~= s);
        assert(escaped(s, q) + escaped(t, q) =~= escaped(s, q));
    } else {
        quoting_goes_character_by_character(s, t.drop_last(), c, q);
        assert((s + t).drop_last() =~= s + t.drop_last());
        assert((s + t).last() == t.last());
        assert(escaped(s + t, q) =~= escaped(s, q) + escaped(t, q));
    }
}

/// A text is shown between single quotes, or between double ones where it holds
/// a single quote and no double one.
pub proof fn texts_are_shown_quoted(h: Heap, x: usize)
    ensures
        h.text(x).contains('\'') && !h.text(x).contains('"')
            ==> repr(h, Value::Str(x)) == seq!['"'] + escaped(h.text(x), '"') + seq!['"'],
        !h.text(x).contains('\'') || h.text(x).contains('"')
            ==> repr(h, Value::Str(x)) == seq!['\''] + escaped(h.text(x), '\'') + seq!['\''],
{
}

/// The number a hexadecimal digit stands for.
pub open spec fn hex_of(c: char) -> Option<int> {
    match c {
        'a' => Some(10int),
        'b' => Some(11int),
        'c' => Some(12int),
        'd' => Some(13int),
        'e' => Some(14int),
        'f' => Some(15int),
        _ => digit_of(c),
    }
}

/// Octets are shown one by one: a printable one as its character, and one that
/// is not as two hexadecimal digits that read back as it.
pub proof fn octets_are_shown_one_by_one(s: Seq<u8>, t: Seq<u8>, b: u8)
    ensures
        escaped_octets(s + t) == escaped_octets(s) + escaped_octets(t),
        octets_repr(s) == "b'"@ + escaped_octets(s) + "'"@,
        32 <= b < 127 && b != 39 && b != 92 ==> escaped_octets(seq![b]) == seq![b as char],
        b == 39 ==> escaped_octets(seq![b]) == seq!['\\', '\''],
        b == 92 ==> escaped_octets(seq![b]) == seq!['\\', '\\'],
        b == 10 ==> escaped_octets(seq![b]) == seq!['\\', 'n'],
        b == 13 ==> escaped_octets(seq![b]) == seq!['\\', 'r'],
        b == 9 ==> escaped_octets(seq![b]) == seq!['\\', 't'],
        (b < 32 && b != 9 && b != 10 && b != 13) || b >= 127 ==> {
            let e = escaped_octets(seq![b]);
            &&& e.len() == 4
            &&& e[0] == '\\'
            &&& e[1] == 'x'
            &&& hex_of(e[2]) matches Some(p)
            &&& hex_of(e[3]) matches Some(q)
            &&& 16 * hex_of(e[2])->0 + hex_of(e[3])->0 == b
        },
    decreases t.len(),
{
    assert(seq![b].drop_last() =~= Seq::empty());
    assert(escaped_octets(Seq::<u8>::empty()) =~= Seq::empty());
    assert(seq![b].last() == b);
    assert(escaped_octets(seq![b]) =~= crate::text::escaped_octet(b));
    if t.len() == 0 {
        assert(s + t =~= s);
        assert(escaped_octets(s) + escaped_octets(t) =~= escaped_octets(s));
    } else {
        octets_are_shown_one_by_one(s, t.drop_last(), b);
        assert((s + t).drop_last() =~= s + t.drop_last());
        assert((s + t).last() == t.last());
        assert(escaped_octets(s + t) =~= escaped_octets(s) + escaped_octets(t));
    }
}

/// Joining puts the separator between two parts, and nowhere else.
pub proof fn joining_separates(s: Seq<Seq<char>>, t: Seq<Seq<char>>, sep: Seq<char>)
    ensures
        s.len() > 0 && t.len() > 0 ==> joined(s + t, sep) == joined(s, sep) + sep + joined(t, sep),
        s.len() == 1 ==> joined(s, sep) == s[0],
        s.len() == 0 ==> joined(s, sep).len() == 0,
    decreases t.len(),
{
    if s.len() > 0 && t.len() > 0 {
        let u = s + t;
        assert(u.last() == t.last());
        if t.len() == 1 {
            assert(u.drop_last() =~= s);
            assert(joined(t, sep) == t[0]);
        } else {
            joining_separates(s, t.drop_last(), sep);
            assert(u.drop_last() =~= s + t.drop_last());
            assert(joined(u, sep) =~= joined(s, sep) + sep + joined(t, sep));
        }
    }
}

/// What each of these is shown as.
pub open spec fn shown_each(h: Heap, items: Seq<Value>) -> Seq<Seq<char>> {
    items.map_values(|v: Value| repr(h, v))
}

proof fn lemma_items(h: Heap, items: Seq<Value>, k: int, sp: Splice, path: Seq<Value>)
    requires
        0 <= k <= items.len(),
        !sp.on,
        forall|i: int| 0 <= i < items.len() ==> plain(h, #[trigger] items[i]),
    ensures repr_items(h, items, k, sp, 0, path) == (joined(shown_each(h, items.skip(k)), ", "@), 0nat),
    decreases items.len() - k,
{
    let parts = shown_each(h, items.skip(k));
    if k < items.len() {
        lemma_items(h, items, k + 1, sp, path);
        assert(repr_value(h, items[k], sp, 0, path) == (plain_repr(h, items[k]), 0nat));
        assert(repr(h, items[k]) == plain_repr(h, items[k]));
        let rest = shown_each(h, items.skip(k + 1));
        assert(parts =~= seq![repr(h, items[k])] + rest);
        joining_separates(seq![repr(h, items[k])], rest, ", "@);
        if k + 1 == items.len() {
            assert(rest.len() == 0);
            assert(parts =~= seq![repr(h, items[k])]);
        }
    } else {
        assert(parts.len() == 0);
    }
}

/// A list of plain values is shown as they are, with a comma and a blank between
/// any two, in square brackets; a tuple in round ones, with a comma after a
/// single item.
pub proof fn rows_are_shown_item_by_item(h: Heap, v: Value)
    requires
        v is List || v is Tuple,
        holders(h) > 0,
        forall|i: int| 0 <= i < row(h, v).len() ==> plain(h, #[trigger] row(h, v)[i]),
    ensures
        v is List ==> repr(h, v) == "["@ + joined(shown_each(h, row(h, v)), ", "@) + "]"@,
        v is Tuple && row(h, v).len() != 1 ==> repr(h, v) == "("@ + joined(shown_each(h, row(h, v)), ", "@) + ")"@,
        v is Tuple && row(h, v).len() == 1 ==> repr(h, v) == "("@ + repr(h, row(h, v)[0]) + ",)"@,
        display(h, v) == repr(h, v),
{
    let sp = Splice { on: false, texts: Seq::empty() };
    let items = row(h, v);
    let none: Seq<Value> = Seq::empty();
    assert(!none.contains(v));
    lemma_items(h, items, 0, sp, none.push(v));
    assert(items.skip(0) =~= items);
    if items.len() == 1 {
        joining_separates(shown_each(h, items), Seq::empty(), ", "@);
    }
}

/// What each entry is shown as.
pub open spec fn entries_each(h: Heap, items: Seq<(Value, Value)>) -> Seq<Seq<char>> {
    items.map_values(|e: (Value, Value)| repr(h, e.0) + ": "@ + repr(h, e.1))
}

proof fn lemma_entries(h: Heap, items: Seq<(Value, Value)>, k: int, sp: Splice, path: Seq<Value>)
    requires
        0 <= k <= items.len(),
        !sp.on,
        forall|i: int| 0 <= i < items.len() ==> plain(h, (#[trigger] items[i]).0) && plain(h, items[i].1),
    ensures repr_entries(h, items, k, sp, 0, path) == (joined(entries_each(h, items.skip(k)), ", "@), 0nat),
    decreases items.len() - k,
{
    let parts = entries_each(h, items.skip(k));
    if k < items.len() {
        lemma_entries(h, items, k + 1, sp, path);
        let (a, b) = items[k];
        assert(plain(h, items[k].0) && plain(h, items[k].1));
        assert(repr_value(h, a, sp, 0, path) == (plain_repr(h, a), 0nat));
        assert(repr_value(h, b, sp, 0, path) == (plain_repr(h, b), 0nat));
        assert(repr(h, a) == plain_repr(h, a));
        assert(repr(h, b) == plain_repr(h, b));
        let one = repr(h, a) + ": "@ + repr(h, b);
        let rest = entries_each(h, items.skip(k + 1));
        assert(parts =~= seq![one] + rest);
        joining_separates(seq![one], rest, ", "@);
        if k + 1 == items.len() {
            assert(rest.len() == 0);
            assert(parts =~= seq![one]);
        }
    } else {
        assert(parts.len() == 0);
    }
}

/// A dict of plain values is shown entry by entry, key and value with a colon
/// and a blank between them, in braces.
pub proof fn dicts_are_shown_entry_by_entry(h: Heap, d: usize)
    requires
        holders(h) > 0,
        forall|i: int| 0 <= i < h.dict(d).len() ==> plain(h, (#[trigger] h.dict(d)[i]).0) && plain(h, h.dict(d)[i].1),
    ensures repr(h, Value::Dict(d)) == "{"@ + joined(entries_each(h, h.dict(d)), ", "@) + "}"@,
{
    let sp = Splice { on: false, texts: Seq::empty() };
    let none: Seq<Value> = Seq::empty();
    assert(!none.contains(Value::Dict(d)));
    lemma_entries(h, h.dict(d), 0, sp, none.push(Value::Dict(d)));
    assert(h.dict(d).skip(0) =~= h.dict(d));
}

/// An exception is shown as its one argument, as nothing where it has none; a
/// KeyError that a program made as its argument's quoted form. One that nothing
/// caught is reported with its class in front.
pub proof fn exceptions_show_their_message(h: Heap, i: usize, t: usize, s: usize)
    requires
        is_exception(h, Value::Instance(i)),
        h.field(i, "args"@) == Some(Value::Tuple(t)),
    ensures
        h.tuple(t).len() == 0 ==> display(h, Value::Instance(i)).len() == 0
            && uncaught_text(h, Value::Instance(i)) == h.class_name(h.instance_class(i)),
        h.tuple(t) == seq![Value::Str(s)] && h.class_name(h.instance_class(i)) != "KeyError"@
            ==> display(h, Value::Instance(i)) == h.text(s),
        h.tuple(t) == seq![Value::Str(s)] && h.class_name(h.instance_class(i)) == "KeyError"@ && h.field(i, "__rendered__"@) is None
            ==> display(h, Value::Instance(i)) == text_repr(h.text(s)),
        h.tuple(t) == seq![Value::Str(s)] && h.class_name(h.instance_class(i)) != "KeyError"@ && h.text(s).len() > 0
            ==> uncaught_text(h, Value::Instance(i)) == h.class_name(h.instance_class(i)) + ": "@ + h.text(s),
{
    reveal_with_fuel(crate::repr::display_within, 3);
    if h.tuple(t) == seq![Value::Str(s)] {
        assert(h.tuple(t)[0] == Value::Str(s));
    }
}

/// `print` begins with nothing shown; without options a blank goes between two
/// values and a line end after the last.
pub proof fn print_begins_with_nothing(a: Vm, b: Vm, args: Seq<Value>, r: Step)
    requires print_result(a, b, args, Seq::empty(), r),
    ensures
        r == Step::Drive(Job::Print),
        b.task.prints@.len() == a.task.prints@.len() + 1,
        b.task.prints@.last().rendered@.len() == 0,
        b.task.prints@.last().remaining@ == args,
        b.task.prints@.last().next == 0,
        b.task.prints@.last().sep@ == " "@,
        b.task.prints@.last().end@ == "\n"@,
{
}

/// `sep` and `end` are what a program says they are.
pub proof fn print_takes_its_options(a: Vm, b: Vm, args: Seq<Value>, sep: Keyword, end: Keyword, x: usize, y: usize, r: Step)
    requires
        print_result(a, b, args, seq![sep, end], r),
        sep.0@ == "sep"@,
        end.0@ == "end"@,
        sep.1 == Value::Str(x),
        end.1 == Value::Str(y),
    ensures
        r == Step::Drive(Job::Print),
        b.task.prints@.last().sep@ == a.heap.text(x),
        b.task.prints@.last().end@ == a.heap.text(y),
{
    reveal_strlit("sep");
    reveal_strlit("end");
    let k = seq![sep, end];
    assert(k[0] == sep && k[1] == end);
    assert("end"@[0] != "sep"@[0]);
    reveal_with_fuel(crate::texting::print_options, 3);
}

/// A value that a program's methods have no say in is shown as it is, behind
/// those before it; when none is left, what goes out is all of them with the
/// separator between and the end after.
pub proof fn print_shows_in_order(a: Vm, b: Vm, r: Step)
    requires
        drive_print_result(a, b, r),
        a.task.prints@.len() > 0,
    ensures
        a.task.prints@.last().next >= a.task.prints@.last().remaining@.len() ==> (r matches Step::Host(c) && c.1 == ReturnAction::Normal
            && (c.0 matches HostCall::Print(t) && t@ == joined(texts(a.task.prints@.last().rendered@), a.task.prints@.last().sep@)
                + a.task.prints@.last().end@)),
        a.task.prints@.last().next < a.task.prints@.last().remaining@.len()
            && plain(a.heap, a.task.prints@.last().remaining@[a.task.prints@.last().next as int]) ==> {
            let j = a.task.prints@.last();
            let k = b.task.prints@.last();
            &&& r == Step::Drive(Job::Print)
            &&& k.rendered@.len() == j.rendered@.len() + 1
            &&& k.rendered@.drop_last() == j.rendered@
            &&& k.rendered@.last()@ == display(a.heap, j.remaining@[j.next as int])
            &&& k.next == j.next + 1
            &&& k.remaining == j.remaining
        },
{
    let j = a.task.prints@.last();
    assert(j.remaining.len() <= usize::MAX);
}

/// A list in itself is shown as an ellipsis there, and so are a tuple and a dict.
pub proof fn cycles_are_shown_as_ellipses(h: Heap, x: usize)
    requires holders(h) > 1,
    ensures
        h.list(x) == seq![Value::List(x)] ==> repr(h, Value::List(x)) == "["@ + "[...]"@ + "]"@,
        h.tuple(x) == seq![Value::Tuple(x)] ==> repr(h, Value::Tuple(x)) == "("@ + "(...)"@ + ",)"@,
{
    reveal_with_fuel(repr_value, 3);
    reveal_with_fuel(repr_items, 3);
    let none: Seq<Value> = Seq::empty();
    let l = Value::List(x);
    let t = Value::Tuple(x);
    assert(!none.contains(l) && !none.contains(t));
    assert(none.push(l)[0] == l && none.push(t)[0] == t);
    assert(none.push(l).contains(l) && none.push(t).contains(t));
    if h.list(x) == seq![l] {
        assert(h.list(x).len() == 1 && h.list(x)[0] == l);
    }
    if h.tuple(x) == seq![t] {
        assert(h.tuple(x).len() == 1 && h.tuple(x)[0] == t);
    }
}

/// The instances of a list that are shown by their own `__repr__` are asked in
/// the order they stand there.
pub proof fn instances_are_asked_in_order(h: Heap, x: usize)
    requires
        holders(h) > 0,
        forall|k: int| 0 <= k < h.list(x).len() ==> #[trigger] h.list(x)[k] is Instance && h.method_of(h.list(x)[k], "__repr__"@) is Some,
    ensures crate::repr::repr_instances(h, Value::List(x), Seq::empty()) == h.list(x),
{
    let none: Seq<Value> = Seq::empty();
    assert(!none.contains(Value::List(x)));
    lemma_instances(h, h.list(x), 0, none.push(Value::List(x)));
    assert(h.list(x).skip(0) =~= h.list(x));
}

proof fn lemma_instances(h: Heap, items: Seq<Value>, k: int, path: Seq<Value>)
    requires
        0 <= k <= items.len(),
        forall|i: int| 0 <= i < items.len() ==> #[trigger] items[i] is Instance && h.method_of(items[i], "__repr__"@) is Some,
    ensures crate::repr::instances_from(h, items, k, path) == items.skip(k),
    decreases items.len() - k,
{
    if k < items.len() {
        lemma_instances(h, items, k + 1, path);
        assert(crate::repr::repr_instances(h, items[k], path) == seq![items[k]]);
        assert(items.skip(k) =~= seq![items[k]] + items.skip(k + 1));
    } else {
        assert(items.skip(k) =~= Seq::empty());
    }
}

} // verus!
