//! Text: decimal rendering, comparison, and the few string shapes the
//! diagnostics are built from.
use vstd::prelude::*;
use vstd::std_specs::iter::IteratorSpec;
use vstd::string::*;

verus! {

/// The character that writes the decimal digit `d`.
pub open spec fn digit_char(d: nat) -> char {
    if d == 0 { '0' } else if d == 1 { '1' } else if d == 2 { '2' } else if d == 3 { '3' }
    else if d == 4 { '4' } else if d == 5 { '5' } else if d == 6 { '6' } else if d == 7 { '7' }
    else if d == 8 { '8' } else { '9' }
}

/// The decimal text of a natural number, without leading zeros.
pub open spec fn nat_text(n: nat) -> Seq<char>
    decreases n,
{
    if n < 10 { seq![digit_char(n)] } else { nat_text(n / 10).push(digit_char(n % 10)) }
}

/// The decimal text of an integer.
pub open spec fn int_text(n: int) -> Seq<char> {
    if n < 0 { seq!['-'] + nat_text((-n) as nat) } else { nat_text(n as nat) }
}

fn digit_str(d: u64) -> (r: &'static str)
    requires d < 10,
    ensures r@ == seq![digit_char(d as nat)],
{
    proof {
        reveal_strlit("0"); reveal_strlit("1"); reveal_strlit("2"); reveal_strlit("3");
        reveal_strlit("4"); reveal_strlit("5"); reveal_strlit("6"); reveal_strlit("7");
        reveal_strlit("8"); reveal_strlit("9");
    }
    let r = match d {
        0 => "0", 1 => "1", 2 => "2", 3 => "3", 4 => "4",
        5 => "5", 6 => "6", 7 => "7", 8 => "8", _ => "9",
    };
    assert(r@ =~= seq![digit_char(d as nat)]);
    r
}

/// Decimal text of `n`.
pub fn render_u64(n: u64) -> (r: String)
    ensures r@ == nat_text(n as nat),
    decreases n,
{
    if n < 10 {
        digit_str(n).to_owned()
    } else {
        let mut s = render_u64(n / 10);
        s.append(digit_str(n % 10));
        assert(s@ =~= nat_text(n as nat));
        s
    }
}

/// Decimal text of `n`.
pub fn render_usize(n: usize) -> (r: String)
    ensures r@ == nat_text(n as nat),
{
    render_u64(n as u64)
}

/// Decimal text of `n`, with a leading minus sign when it is negative.
pub fn render_i64(n: i64) -> (r: String)
    ensures r@ == int_text(n as int),
{
    if n < 0 {
        let m: u64 = (-(n as i128)) as u64;
        proof { reveal_strlit("-"); }
        let mut s = "-".to_owned();
        let d = render_u64(m);
        s.append(d.as_str());
        assert(s@ =~= int_text(n as int));
        s
    } else {
        render_u64(n as u64)
    }
}

/// Whether two pieces of text are the same, character for character.
pub fn same_text(a: &str, b: &str) -> (r: bool)
    ensures r == (a@ == b@),
{
    let x = a.to_owned();
    let y = b.to_owned();
    x == y
}

/// `a` followed by `b`.
pub fn join2(a: &str, b: &str) -> (r: String)
    ensures r@ == a@ + b@,
{
    let mut s = a.to_owned();
    s.append(b);
    s
}

/// `a`, then `b`, then `c`.
pub fn join3(a: &str, b: &str, c: &str) -> (r: String)
    ensures r@ == a@ + b@ + c@,
{
    let mut s = a.to_owned();
    s.append(b);
    s.append(c);
    s
}

/// Four texts in a row.
pub fn join4(a: &str, b: &str, c: &str, d: &str) -> (r: String)
    ensures r@ == a@ + b@ + c@ + d@,
{
    let mut s = join3(a, b, c);
    s.append(d);
    s
}

/// Five pieces of text in a row.
pub fn join5(a: &str, b: &str, c: &str, d: &str, e: &str) -> (r: String)
    ensures r@ == a@ + b@ + c@ + d@ + e@,
{
    let mut s = a.to_owned();
    s.append(b);
    s.append(c);
    s.append(d);
    s.append(e);
    s
}

/// The texts of `parts` in order, with `sep` between neighbours.
pub open spec fn joined(parts: Seq<Seq<char>>, sep: Seq<char>) -> Seq<char>
    decreases parts.len(),
{
    if parts.len() == 0 {
        Seq::empty()
    } else if parts.len() == 1 {
        parts[0]
    } else {
        joined(parts.drop_last(), sep) + sep + parts.last()
    }
}

/// The views of a vector of strings.
pub open spec fn texts(v: Seq<String>) -> Seq<Seq<char>> {
    v.map_values(|s: String| s@)
}

/// Join `parts` with `sep`.
pub fn join_all(parts: &Vec<String>, sep: &str) -> (r: String)
    ensures r@ == joined(texts(parts@), sep@),
{
    if parts.len() == 0 {
        proof { reveal_strlit(""); }
        let r = "".to_owned();
        assert(r@ =~= joined(texts(parts@), sep@));
        return r;
    }
    let mut s = parts[0].clone();
    let mut i: usize = 1;
    assert(texts(parts@.take(1)) =~= seq![parts@[0]@]);
    assert(s@ == joined(texts(parts@.take(1)), sep@));
    while i < parts.len()
        invariant
            1 <= i <= parts.len(),
            s@ == joined(texts(parts@.take(i as int)), sep@),
        decreases parts.len() - i,
    {
        s.append(sep);
        s.append(parts[i].as_str());
        assert(texts(parts@.take(i + 1)).drop_last() =~= texts(parts@.take(i as int)));
        assert(texts(parts@.take(i + 1)).last() == parts@[i as int]@);
        i += 1;
    }
    assert(parts@.take(i as int) =~= parts@);
    s
}

/// The position of `name` in `names`, if it occurs.
pub fn find_text(names: &Vec<String>, name: &str) -> (r: Option<usize>)
    ensures
        match r {
            Some(i) => i < names.len() && names[i as int]@ == name@
                && forall|j: int| 0 <= j < i ==> names[j]@ != name@,
            None => forall|j: int| 0 <= j < names.len() ==> names[j]@ != name@,
        },
{
    let mut i: usize = 0;
    while i < names.len()
        invariant
            i <= names.len(),
            forall|j: int| 0 <= j < i ==> names[j]@ != name@,
        decreases names.len() - i,
    {
        if same_text(names[i].as_str(), name) {
            return Some(i);
        }
        i += 1;
    }
    None
}

/// `a` sorts before `b`: the first differing character decides, and a proper
/// prefix comes first.
pub open spec fn chars_less(a: Seq<char>, b: Seq<char>) -> bool
    decreases a.len(),
{
    if b.len() == 0 {
        false
    } else if a.len() == 0 {
        true
    } else if a[0] == b[0] {
        chars_less(a.skip(1), b.skip(1))
    } else {
        (a[0] as u32) < (b[0] as u32)
    }
}

/// The characters of `s`.
pub fn chars_of(s: &str) -> (r: Vec<char>)
    ensures r@ == s@,
{
    let n = s.unicode_len();
    let mut out: Vec<char> = Vec::new();
    let mut it = s.chars();
    let mut i: usize = 0;
    let ghost total = s@;
    while i < n
        invariant
            i <= n,
            n == total.len(),
            out@ == total.take(i as int),
            it.remaining() == total.skip(i as int),
        decreases n - i,
    {
        let c = it.next();
        match c {
            Some(ch) => {
                out.push(ch);
            }
            None => {
                return out;
            }
        }
        assert(out@ =~= total.take(i + 1));
        assert(total.skip(i as int).skip(1) =~= total.skip(i + 1));
        i += 1;
    }
    assert(out@ =~= s@);
    out
}

/// Append one character: `String::push`. The text grows by exactly that
/// character.
#[verifier::external_body]
pub(crate) fn push_char(s: &mut String, c: char)
    ensures final(s)@ == old(s)@.push(c),
{
    s.push(c)
}

/// A character as it is written between the quotes `q`.
pub open spec fn escaped_char(c: char, q: char) -> Seq<char> {
    if c == '\\' {
        seq!['\\', '\\']
    } else if c == q {
        seq!['\\', q]
    } else if c == '\n' {
        seq!['\\', 'n']
    } else if c == '\r' {
        seq!['\\', 'r']
    } else if c == '\t' {
        seq!['\\', 't']
    } else {
        seq![c]
    }
}

/// A text as it is written between the quotes `q`.
pub open spec fn escaped(s: Seq<char>, q: char) -> Seq<char>
    decreases s.len(),
{
    if s.len() == 0 { Seq::empty() } else { escaped(s.drop_last(), q) + escaped_char(s.last(), q) }
}

/// The quote a text is written in: double where the text holds a single quote
/// and no double one.
pub open spec fn quote_for(s: Seq<char>) -> char {
    if s.contains('\'') && !s.contains('"') { '"' } else { '\'' }
}

/// A text as a program would write it.
pub open spec fn text_repr(s: Seq<char>) -> Seq<char> {
    seq![quote_for(s)] + escaped(s, quote_for(s)) + seq![quote_for(s)]
}

fn has_char(v: &Vec<char>, c: char) -> (r: bool)
    ensures r == v@.contains(c),
{
    let mut i: usize = 0;
    while i < v.len()
        invariant i <= v.len(), forall|k: int| 0 <= k < i ==> v@[k] != c,
        decreases v.len() - i,
    {
        if v[i] == c {
            assert(v@[i as int] == c);
            return true;
        }
        i += 1;
    }
    false
}

fn push_escaped(s: &mut String, c: char, q: char)
    ensures final(s)@ == old(s)@ + escaped_char(c, q),
{
    let ghost before = s@;
    let short: Option<char> = if c == '\\' {
        Some('\\')
    } else if c == q {
        Some(q)
    } else if c == '\n' {
        Some('n')
    } else if c == '\r' {
        Some('r')
    } else if c == '\t' {
        Some('t')
    } else {
        None
    };
    match short {
        Some(e) => {
            push_char(s, '\\');
            push_char(s, e);
        }
        None => {
            push_char(s, c);
        }
    }
    assert(s@ =~= before + escaped_char(c, q));
}

/// A text as a program would write it.
pub fn render_text_repr(s: &str) -> (r: String)
    ensures r@ == text_repr(s@),
{
    let v = chars_of(s);
    let q = if has_char(&v, '\'') && !has_char(&v, '"') { '"' } else { '\'' };
    proof { reveal_strlit(""); }
    let mut out = "".to_owned();
    push_char(&mut out, q);
    assert(out@ =~= seq![q] + escaped(v@.take(0), q));
    let mut i: usize = 0;
    while i < v.len()
        invariant
            i <= v.len(),
            out@ == seq![q] + escaped(v@.take(i as int), q),
        decreases v.len() - i,
    {
        push_escaped(&mut out, v[i], q);
        assert(v@.take(i + 1).drop_last() =~= v@.take(i as int));
        i += 1;
        assert(out@ =~= seq![q] + escaped(v@.take(i as int), q));
    }
    assert(v@.take(i as int) =~= v@);
    push_char(&mut out, q);
    assert(out@ =~= text_repr(s@));
    out
}

/// The hexadecimal digit for `d`.
pub open spec fn hex_char(d: int) -> char {
    if 0 <= d < 10 { digit_char(d as nat) } else if d == 10 { 'a' } else if d == 11 { 'b' } else if d == 12 { 'c' }
    else if d == 13 { 'd' } else if d == 14 { 'e' } else { 'f' }
}

fn hex_of(d: u8) -> (r: char)
    requires d < 16,
    ensures r == hex_char(d as int),
{
    match d {
        0 => '0', 1 => '1', 2 => '2', 3 => '3', 4 => '4', 5 => '5', 6 => '6', 7 => '7', 8 => '8', 9 => '9',
        10 => 'a', 11 => 'b', 12 => 'c', 13 => 'd', 14 => 'e', _ => 'f',
    }
}

/// An octet as it is written between single quotes.
pub open spec fn escaped_octet(b: u8) -> Seq<char> {
    if b == 92 || b == 39 || b == 10 || b == 13 || b == 9 || 32 <= b < 127 {
        escaped_char(b as char, '\'')
    } else {
        seq!['\\', 'x', hex_char(b as int / 16), hex_char(b as int % 16)]
    }
}

/// Octets as they are written between single quotes.
pub open spec fn escaped_octets(s: Seq<u8>) -> Seq<char>
    decreases s.len(),
{
    if s.len() == 0 { Seq::empty() } else { escaped_octets(s.drop_last()) + escaped_octet(s.last()) }
}

/// Octets as a program would write them.
pub open spec fn octets_repr(s: Seq<u8>) -> Seq<char> {
    "b'"@ + escaped_octets(s) + "'"@
}

/// Octets as a program would write them.
pub fn render_octets_repr(v: &Vec<u8>) -> (r: String)
    ensures r@ == octets_repr(v@),
{
    let mut out = "b'".to_owned();
    assert(out@ =~= "b'"@ + escaped_octets(v@.take(0)));
    let mut i: usize = 0;
    while i < v.len()
        invariant
            i <= v.len(),
            out@ == "b'"@ + escaped_octets(v@.take(i as int)),
        decreases v.len() - i,
    {
        let b: u8 = v[i];
        let ghost before = out@;
        if b == 92 || b == 39 || b == 10 || b == 13 || b == 9 || (32 <= b && b < 127) {
            push_escaped(&mut out, b as char, '\'');
        } else {
            push_char(&mut out, '\\');
            push_char(&mut out, 'x');
            push_char(&mut out, hex_of(b / 16));
            push_char(&mut out, hex_of(b % 16));
        }
        assert(out@ =~= before + escaped_octet(b));
        assert(v@.take(i + 1).drop_last() =~= v@.take(i as int));
        i += 1;
        assert(out@ =~= "b'"@ + escaped_octets(v@.take(i as int)));
    }
    assert(v@.take(i as int) =~= v@);
    out.append("'");
    out
}

} // verus!
