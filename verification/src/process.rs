//! Running child processes: what is asked for, and what the outcome means.
use vstd::prelude::*;
use vstd::utf8::{decode_utf8, valid_utf8};
use crate::call::{fail, fault_step};
use crate::exc::{command_error, fault, timeout_error, type_error, value_error, Exc, VErr};
use crate::fields::Fields;
use crate::frame::ReturnAction;
use crate::machine::{restacked, HostCall, Keyword, Step, Vm};
use crate::names::{is_truthy, truthy, type_label, type_label_of};
use crate::repr::{display, render_display};
use crate::text::{chars_of, int_text, join2, join3, join4, join_all, joined, nat_text, push_char, render_i64, render_usize, same_text, texts};
use crate::value::{Heap, Instance, Value};
use crate::wake::faults;

verus! {

/// How much of each stream of a child is kept.
pub const MAX_CAPTURE_BYTES: usize = 67_108_864;

/// A child process to run to its end.
#[derive(Debug)]
pub struct RunRequest {
    /// The program and its arguments.
    pub parts: Vec<String>,
    pub cwd: Option<String>,
    /// The whole environment, where one was given.
    pub env: Option<Vec<(String, String)>>,
    /// A number of seconds.
    pub timeout: Option<Value>,
    /// Whether a failure raises.
    pub check: bool,
    /// Whether the streams are kept from the terminal.
    pub quiet: bool,
    /// The program and its arguments as they were passed.
    pub items: Vec<Value>,
}

/// How a child's run ended.
#[derive(Debug)]
pub enum RunOutcome {
    /// It took longer than this many seconds.
    TimedOut(String),
    /// It could not be run.
    Refused(VErr),
    /// It ended: its exit code, if it has one, and what it wrote.
    Ended { code: Option<i64>, stdout: Vec<u8>, stderr: Vec<u8> },
}

/// Whether `c` is white space.
pub open spec fn is_space(c: char) -> bool {
    let n = c as u32;
    0x9 <= n <= 0xd || n == 0x20 || n == 0x85 || n == 0xa0 || n == 0x1680 || 0x2000 <= n <= 0x200a || n == 0x2028
        || n == 0x2029 || n == 0x202f || n == 0x205f || n == 0x3000
}

fn space(c: char) -> (r: bool)
    ensures r == is_space(c),
{
    let n = c as u32;
    (0x9 <= n && n <= 0xd) || n == 0x20 || n == 0x85 || n == 0xa0 || n == 0x1680 || (0x2000 <= n && n <= 0x200a)
        || n == 0x2028 || n == 0x2029 || n == 0x202f || n == 0x205f || n == 0x3000
}

/// Whether there is white space in `s`.
pub open spec fn has_space(s: Seq<char>) -> bool {
    exists|i: int| 0 <= i < s.len() && is_space(#[trigger] s[i])
}

fn spaced(s: &str) -> (r: bool)
    ensures r == has_space(s@),
{
    let cs = chars_of(s);
    let mut i: usize = 0;
    while i < cs.len()
        invariant
            i <= cs.len(),
            cs@ == s@,
            forall|j: int| 0 <= j < i ==> !is_space(#[trigger] s@[j]),
        decreases cs.len() - i,
    {
        if space(cs[i]) {
            assert(is_space(s@[i as int]));
            return true;
        }
        i += 1;
    }
    false
}

/// `s` without the white space at its end.
pub open spec fn trimmed(s: Seq<char>) -> Seq<char>
    decreases s.len(),
{
    if s.len() > 0 && is_space(s.last()) { trimmed(s.drop_last()) } else { s }
}

/// The lines of `s`. A carriage return before a line feed belongs to the end of
/// its line, and a line feed at the very end begins no further line.
pub open spec fn lines(s: Seq<char>) -> Seq<Seq<char>>
    decreases s.len(),
{
    if s.len() == 0 {
        Seq::empty()
    } else {
        let n = first_feed(s);
        if 0 <= n < s.len() {
            seq![s.take(line_end(s, n))] + lines(s.skip(n + 1))
        } else {
            seq![s]
        }
    }
}

/// Where the line ends whose line feed is at `n`.
pub open spec fn line_end(s: Seq<char>, n: int) -> int {
    if n > 0 && s[n - 1] == '\r' { n - 1 } else { n }
}

/// Where the first line feed of `s` is; its length, if there is none.
pub open spec fn first_feed(s: Seq<char>) -> int
    decreases s.len(),
{
    if s.len() == 0 || s[0] == '\n' { 0 } else { 1 + first_feed(s.skip(1)) }
}

/// What a diagnostic shows of a child's errors: the last lines, each on a line
/// of its own.
pub open spec fn error_tail(ls: Seq<Seq<char>>) -> Seq<char> {
    let from = if ls.len() > 3 { ls.len() - 3 } else { 0 };
    indented(ls.skip(from))
}

/// These lines, each after a line feed and an indent.
pub open spec fn indented(ls: Seq<Seq<char>>) -> Seq<char>
    decreases ls.len(),
{
    if ls.len() == 0 { Seq::empty() } else { indented(ls.drop_last()) + "\n  "@ + ls.last() }
}

/// The characters from place `from` up to place `to`.
pub fn text_between(cs: &Vec<char>, from: usize, to: usize) -> (r: String)
    requires from <= to <= cs@.len(),
    ensures r@ == cs@.subrange(from as int, to as int),
{
    let mut out = "".to_owned();
    let mut i = from;
    assert(out@ =~= cs@.subrange(from as int, from as int)) by {
        reveal_strlit("");
    }
    while i < to
        invariant
            from <= i <= to <= cs@.len(),
            out@ == cs@.subrange(from as int, i as int),
        decreases to - i,
    {
        push_char(&mut out, cs[i]);
        assert(cs@.subrange(from as int, i + 1) =~= cs@.subrange(from as int, i as int).push(cs@[i as int]));
        i += 1;
    }
    out
}

fn trim(cs: &Vec<char>) -> (r: usize)
    ensures
        r <= cs@.len(),
        cs@.take(r as int) == trimmed(cs@),
{
    let mut n = cs.len();
    assert(cs@.take(n as int) =~= cs@);
    while n > 0 && space(cs[n - 1])
        invariant
            n <= cs@.len(),
            trimmed(cs@.take(n as int)) == trimmed(cs@),
        decreases n,
    {
        assert(cs@.take(n as int).drop_last() =~= cs@.take(n - 1));
        n -= 1;
    }
    n
}

fn find_feed(cs: &Vec<char>, from: usize, n: usize) -> (r: usize)
    requires from <= n <= cs@.len(),
    ensures
        from <= r <= n,
        first_feed(cs@.subrange(from as int, n as int)) == r - from,
{
    let ghost rest = cs@.subrange(from as int, n as int);
    let mut i = from;
    assert(rest.skip(0) =~= rest);
    while i < n && cs[i] != '\n'
        invariant
            from <= i <= n <= cs@.len(),
            rest == cs@.subrange(from as int, n as int),
            first_feed(rest) == (i - from) + first_feed(rest.skip(i - from)),
        decreases n - i,
    {
        assert(rest.skip(i - from)[0] == cs@[i as int]);
        assert(rest.skip(i - from).skip(1) =~= rest.skip(i - from + 1));
        i += 1;
    }
    if i < n {
        assert(rest.skip(i - from)[0] == cs@[i as int]);
    }
    i
}

fn split_lines(cs: &Vec<char>, n: usize) -> (r: Vec<String>)
    requires n <= cs@.len(),
    ensures texts(r@) == lines(cs@.take(n as int)),
{
    let mut out: Vec<String> = Vec::new();
    let mut from: usize = 0;
    let ghost all = lines(cs@.take(n as int));
    proof {
        assert(cs@.subrange(0, n as int) =~= cs@.take(n as int));
        assert(texts(out@) + lines(cs@.subrange(0, n as int)) =~= all);
    }
    while from < n
        invariant
            from <= n <= cs@.len(),
            texts(out@) + lines(cs@.subrange(from as int, n as int)) == all,
        decreases n - from,
    {
        let i = find_feed(cs, from, n);
        let ghost rest = cs@.subrange(from as int, n as int);
        let ghost before = texts(out@);
        let to = if i < n && i > from && cs[i - 1] == '\r' { i - 1 } else { i };
        let line = text_between(cs, from, to);
        let ghost lv = line@;
        out.push(line);
        let next = if i < n { i + 1 } else { n };
        proof {
            assert(texts(out@) =~= before.push(lv));
            let after = lines(cs@.subrange(next as int, n as int));
            if i < n {
                if i > from {
                    assert(rest[i - from - 1] == cs@[i - 1]);
                }
                assert(rest.take(to - from) =~= lv);
                assert(rest.skip(i - from + 1) =~= cs@.subrange(next as int, n as int));
                assert(lines(rest) == seq![lv] + after);
            } else {
                assert(lv =~= rest);
                assert(lines(rest) == seq![lv]);
                assert(after =~= Seq::empty());
            }
            assert(before.push(lv) + after =~= before + lines(rest));
        }
        from = next;
    }
    assert(texts(out@) + lines(cs@.subrange(n as int, n as int)) =~= texts(out@));
    out
}

fn render_error_tail(errors: &str) -> (r: String)
    ensures r@ == error_tail(lines(trimmed(errors@))),
{
    let cs = chars_of(errors);
    let n = trim(&cs);
    let ls = split_lines(&cs, n);
    let ghost lv = lines(trimmed(errors@));
    assert(texts(ls@) == lv);
    let from = if ls.len() > 3 { ls.len() - 3 } else { 0 };
    let mut out = "".to_owned();
    let mut i = from;
    proof {
        reveal_strlit("");
        assert(lv.len() == ls@.len());
        assert(lv.skip(from as int).take(0) =~= Seq::empty());
        assert(out@ =~= indented(lv.skip(from as int).take(0)));
    }
    while i < ls.len()
        invariant
            from <= i <= ls.len(),
            from == (if lv.len() > 3 { lv.len() - 3 } else { 0 }),
            lv == texts(ls@),
            lv.len() == ls@.len(),
            out@ == indented(lv.skip(from as int).take(i - from)),
        decreases ls.len() - i,
    {
        proof {
            let t = lv.skip(from as int).take(i + 1 - from);
            assert(t.drop_last() =~= lv.skip(from as int).take(i - from));
            assert(t.last() == ls@[i as int]@);
        }
        out.append("\n  ");
        out.append(ls[i].as_str());
        i += 1;
    }
    assert(lv.skip(from as int).take(i - from) =~= lv.skip(from as int));
    out
}

/// The options of a run.
pub ghost struct RunOptions {
    pub cwd: Option<Seq<char>>,
    pub env: Option<Seq<(Seq<char>, Seq<char>)>>,
    pub timeout: Option<Value>,
    pub check: bool,
    pub quiet: bool,
}

/// The options of a run that passes none.
pub open spec fn default_options() -> RunOptions {
    RunOptions { cwd: None, env: None, timeout: None, check: true, quiet: false }
}

/// The entries of a dict as names and texts.
pub open spec fn env_pairs(h: Heap, d: usize) -> Seq<(Seq<char>, Seq<char>)> {
    Seq::new(h.dict(d).len(), |i: int| (display(h, h.dict(d)[i].0), display(h, h.dict(d)[i].1)))
}

/// What one keyword makes of the options.
pub open spec fn run_option(h: Heap, k: Seq<char>, v: Value, o: RunOptions) -> Result<RunOptions, Seq<char>> {
    if k == "cwd"@ {
        match v {
            Value::Str(s) => Ok(RunOptions { cwd: Some(h.text(s)), ..o }),
            _ => Err("proc.run() cwd must be a string"@),
        }
    } else if k == "env"@ {
        match v {
            Value::Dict(d) => Ok(RunOptions { env: Some(env_pairs(h, d)), ..o }),
            _ => Err("proc.run() env must be a dict"@),
        }
    } else if k == "timeout"@ {
        if v is Int || v is Float { Ok(RunOptions { timeout: Some(v), ..o }) } else { Err("proc.run() timeout must be a number"@) }
    } else if k == "check"@ {
        Ok(RunOptions { check: truthy(h, v), ..o })
    } else if k == "quiet"@ {
        Ok(RunOptions { quiet: truthy(h, v), ..o })
    } else if k == "capture_output"@ || k == "text"@ {
        Err("proc.run() does not take '"@ + k
            + "' — it always captures stdout/stderr as bytes, and streams them live unless quiet=True. Call `.to_str()` on one to decode it."@)
    } else {
        Err("proc.run() got an unexpected keyword argument '"@ + k + "'"@)
    }
}

/// The options the keywords from place `j` on leave.
pub open spec fn run_options(h: Heap, kwargs: Seq<Keyword>, j: int, o: RunOptions) -> Result<RunOptions, Seq<char>>
    decreases kwargs.len() - j,
{
    if j >= kwargs.len() {
        Ok(o)
    } else {
        match run_option(h, kwargs[j].0@, kwargs[j].1, o) {
            Ok(p) => run_options(h, kwargs, j + 1, p),
            Err(e) => Err(e),
        }
    }
}

/// The place of the first of these that is no string.
pub open spec fn first_non_text(items: Seq<Value>, i: int) -> Option<int>
    decreases items.len() - i,
{
    if i >= items.len() {
        None
    } else if items[i] is Str {
        first_non_text(items, i + 1)
    } else {
        Some(i)
    }
}

/// The texts of these strings.
pub open spec fn part_texts(h: Heap, items: Seq<Value>) -> Seq<Seq<char>> {
    items.map_values(|v: Value| h.text(v->Str_0))
}

/// The program and arguments a call passes.
pub open spec fn command_of(h: Heap, args: Seq<Value>) -> Result<Seq<Value>, (Exc, Seq<char>)> {
    if args.len() > 1 {
        Err((Exc::TypeError, "proc.run() takes 1 positional argument, the command, but "@ + nat_text(args.len())
            + " were given — cwd=, env=, timeout=, check= and quiet= are passed by name"@))
    } else if args.len() == 1 && args[0] is Str {
        Err((Exc::TypeError, "proc.run() needs a list of separate string arguments, e.g. [\"git\", \"status\"], not a single string — Oro will not split it (that would mean reimplementing shell quoting) and there is no shell=True."@))
    } else if args.len() == 0 || !(args[0] is List) {
        Err((Exc::TypeError, "proc.run() takes a list of strings"@))
    } else {
        let items = h.list(args[0]->List_0);
        if items.len() == 0 {
            Err((Exc::ValueError, "proc.run() got an empty argument list"@))
        } else {
            match first_non_text(items, 0) {
                Some(k) => Err((Exc::TypeError, "proc.run() arguments must all be strings, got '"@ + type_label(h, items[k]) + "'"@)),
                None => {
                    let program = h.text(items[0]->Str_0);
                    if program.len() == 0 || has_space(program) {
                        Err((Exc::ValueError, "proc.run() program '"@ + program
                            + "' contains whitespace — pass separate arguments like [\"git\", \"status\"], not one combined string"@))
                    } else {
                        Ok(items)
                    }
                },
            }
        }
    }
}

/// The text of an option that may be absent.
pub open spec fn opt_text(s: Option<String>) -> Option<Seq<char>> {
    match s {
        Some(t) => Some(t@),
        None => None,
    }
}

/// The texts of pairs that may be absent.
pub open spec fn opt_pairs(s: Option<Vec<(String, String)>>) -> Option<Seq<(Seq<char>, Seq<char>)>> {
    match s {
        Some(v) => Some(pair_texts(v@)),
        None => None,
    }
}

/// The texts of pairs.
pub open spec fn pair_texts(s: Seq<(String, String)>) -> Seq<(Seq<char>, Seq<char>)> {
    s.map_values(|p: (String, String)| (p.0@, p.1@))
}

/// `q` asks for this command with these options.
pub open spec fn is_request(h: Heap, q: RunRequest, items: Seq<Value>, o: RunOptions) -> bool {
    &&& texts(q.parts@) == part_texts(h, items)
    &&& opt_text(q.cwd) == o.cwd
    &&& opt_pairs(q.env) == o.env
    &&& q.timeout == o.timeout
    &&& q.check == o.check
    &&& q.quiet == o.quiet
    &&& q.items@ == items
}

/// What a call of `proc.run` does: the host runs the child, or the call is
/// refused.
pub open spec fn proc_run_result(h: Heap, args: Seq<Value>, kwargs: Seq<Keyword>, r: Step) -> bool {
    match command_of(h, args) {
        Err(e) => faults(r, e.0, e.1),
        Ok(items) => match run_options(h, kwargs, 0, default_options()) {
            Err(t) => faults(r, Exc::TypeError, t),
            Ok(o) => r matches Step::Host(x) && (*x).1 == ReturnAction::Normal
                && ((*x).0 matches HostCall::RunProcess(q) && is_request(h, q, items, o)),
        },
    }
}

fn read_command(h: &Heap, args: &Vec<Value>) -> (r: Result<(Vec<Value>, Vec<String>), VErr>)
    ensures
        match command_of(*h, args@) {
            Err(e) => r matches Err(x) && x@ == e,
            Ok(items) => r matches Ok((v, parts)) && v@ == items && texts(parts@) == part_texts(*h, items),
        },
{
    if args.len() > 1 {
        let n = render_usize(args.len());
        return Err(type_error(join3("proc.run() takes 1 positional argument, the command, but ", n.as_str(),
            " were given — cwd=, env=, timeout=, check= and quiet= are passed by name")));
    }
    if args.len() == 0 {
        return Err(fault(Exc::TypeError, "proc.run() takes a list of strings"));
    }
    let list = match args[0] {
        Value::List(l) => l,
        Value::Str(_) => {
            return Err(fault(Exc::TypeError, "proc.run() needs a list of separate string arguments, e.g. [\"git\", \"status\"], not a single string — Oro will not split it (that would mean reimplementing shell quoting) and there is no shell=True."));
        }
        _ => {
            return Err(fault(Exc::TypeError, "proc.run() takes a list of strings"));
        }
    };
    let items = h.list_copy(list);
    if items.len() == 0 {
        return Err(fault(Exc::ValueError, "proc.run() got an empty argument list"));
    }
    let mut parts: Vec<String> = Vec::new();
    let mut i: usize = 0;
    assert(texts(parts@) =~= part_texts(*h, items@.take(0)));
    while i < items.len()
        invariant
            i <= items.len(),
            first_non_text(items@, 0) == first_non_text(items@, i as int),
            texts(parts@) == part_texts(*h, items@.take(i as int)),
            items@ == h.list(list),
            args@.len() == 1,
            args@[0] == Value::List(list),
            items@.len() > 0,
        decreases items.len() - i,
    {
        match items[i] {
            Value::Str(s) => {
                let ghost before = texts(parts@);
                parts.push(h.text_of(s).to_owned());
                proof {
                    assert(texts(parts@) =~= before.push(h.text(s)));
                    assert(part_texts(*h, items@.take(i + 1)) =~= part_texts(*h, items@.take(i as int)).push(h.text(s)));
                }
            }
            v => {
                return Err(type_error(join3("proc.run() arguments must all be strings, got '", type_label_of(h, v), "'")));
            }
        }
        i += 1;
    }
    assert(items@.take(i as int) =~= items@);
    proof {
        assert(texts(parts@).len() == parts@.len());
        assert(part_texts(*h, items@)[0] == h.text(items@[0]->Str_0));
        assert(texts(parts@)[0] == parts@[0]@);
    }
    if parts[0].as_str().unicode_len() == 0 || spaced(parts[0].as_str()) {
        return Err(value_error(join3("proc.run() program '", parts[0].as_str(),
            "' contains whitespace — pass separate arguments like [\"git\", \"status\"], not one combined string")));
    }
    Ok((items, parts))
}

fn read_env(h: &Heap, d: usize) -> (r: Vec<(String, String)>)
    ensures pair_texts(r@) == env_pairs(*h, d),
{
    let mut out: Vec<(String, String)> = Vec::new();
    let n = h.dict_len(d);
    let mut i: usize = 0;
    while i < n
        invariant
            i <= n,
            n == h.dict(d).len(),
            pair_texts(out@) =~= env_pairs(*h, d).take(i as int),
        decreases n - i,
    {
        let (k, v) = h.dict_at(d, i);
        let ghost before = pair_texts(out@);
        out.push((render_display(h, k), render_display(h, v)));
        assert(pair_texts(out@) =~= before.push((display(*h, k), display(*h, v))));
        i += 1;
    }
    assert(env_pairs(*h, d).take(n as int) =~= env_pairs(*h, d));
    out
}

/// The fields of a finished child.
pub open spec fn completed_fields(h: Heap, f: Map<Seq<char>, Value>, code: i64, stdout: Seq<u8>, stderr: Seq<u8>, items: Seq<Value>) -> bool {
    &&& f.dom() =~= set!["returncode"@, "ok"@, "truncated"@, "stdout"@, "stderr"@, "args"@]
    &&& f["returncode"@] == Value::Int(code)
    &&& f["ok"@] == Value::Bool(code == 0)
    &&& f["truncated"@] == Value::Bool(stdout.len() >= MAX_CAPTURE_BYTES || stderr.len() >= MAX_CAPTURE_BYTES)
    &&& f["stdout"@] matches Value::Bytes(o) && o < h.bytes@.len() && h.octets(o) == stdout
    &&& f["stderr"@] matches Value::Bytes(e) && e < h.bytes@.len() && h.octets(e) == stderr
    &&& f["args"@] matches Value::List(l) && l < h.lists@.len() && h.list(l) == items
}

/// The exit code a program sees.
pub open spec fn code_or_signal(code: Option<i64>) -> i64 {
    match code {
        Some(c) => c,
        None => -1i64,
    }
}

/// The text that octets are taken for, where some of them are no text.
pub uninterp spec fn lossy_text(octets: Seq<u8>) -> Seq<char>;

/// The text that octets are shown as.
pub open spec fn shown_text(octets: Seq<u8>) -> Seq<char> {
    if valid_utf8(octets) { decode_utf8(octets) } else { lossy_text(octets) }
}

/// Octets as text: `String::from_utf8_lossy`. What is valid UTF-8 is decoded;
/// of anything else only that the octets alone decide the text.
#[verifier::external_body]
fn decode_lossy(octets: &Vec<u8>) -> (r: String)
    ensures
        r@ == lossy_text(octets@),
        valid_utf8(octets@) ==> r@ == decode_utf8(octets@),
{
    String::from_utf8_lossy(octets).into_owned()
}

/// What is said about a child that failed: what was run, its exit code, and the
/// last of what it complained about.
pub open spec fn failure_text(parts: Seq<Seq<char>>, code: i64, errors: Seq<char>) -> Seq<char> {
    "command failed: "@ + joined(parts, " "@) + " exited with code "@ + int_text(code as int) + error_tail(lines(trimmed(errors)))
}

/// What is said about a child that failed.
pub fn failure_message(parts: &Vec<String>, code: i64, errors: &str) -> (r: String)
    ensures r@ == failure_text(texts(parts@), code, errors@),
{
    let what = join_all(parts, " ");
    let n = render_i64(code);
    let detail = render_error_tail(errors);
    let head = join4("command failed: ", what.as_str(), " exited with code ", n.as_str());
    join2(head.as_str(), detail.as_str())
}

/// What the end of a child does: a failure that is checked raises, with the
/// last of what the child complained about.
pub open spec fn run_settled(a: Vm, b: Vm, q: RunRequest, o: RunOutcome, r: Step) -> bool {
    match o {
        RunOutcome::TimedOut(secs) => faults(r, Exc::TimeoutError, "command timed out after "@ + secs@ + " seconds"@) && b == a,
        RunOutcome::Refused(e) => faults(r, e@.0, e@.1) && b == a,
        RunOutcome::Ended { code, stdout, stderr } => {
            let c = code_or_signal(code);
            if q.check && c != 0 {
                faults(r, Exc::CommandError, failure_text(texts(q.parts@), c, shown_text(stderr@))) && b == a
            } else {
                let i = a.heap.instances.len();
                &&& r is Next
                &&& restacked(a, b, a.stack().push(Value::Instance(i)))
                &&& b.heap == (Heap { instances: b.heap.instances, bytes: b.heap.bytes, lists: b.heap.lists, ..a.heap })
                &&& a.heap.bytes@.is_prefix_of(b.heap.bytes@)
                &&& a.heap.lists@.is_prefix_of(b.heap.lists@)
                &&& a.heap.instances@.is_prefix_of(b.heap.instances@)
                &&& b.heap.instances@.len() == i + 1
                &&& b.heap.instances@[i as int].class == a.proc_class
                &&& completed_fields(b.heap, b.heap.instances@[i as int].fields@, c, stdout@, stderr@, q.items@)
            }
        },
    }
}

proof fn lemma_field_names()
    ensures
        "returncode"@ != "ok"@,
        "returncode"@ != "truncated"@,
        "returncode"@ != "stdout"@,
        "returncode"@ != "stderr"@,
        "returncode"@ != "args"@,
        "ok"@ != "truncated"@,
        "ok"@ != "stdout"@,
        "ok"@ != "stderr"@,
        "ok"@ != "args"@,
        "truncated"@ != "stdout"@,
        "truncated"@ != "stderr"@,
        "truncated"@ != "args"@,
        "stdout"@ != "stderr"@,
        "stdout"@ != "args"@,
        "stderr"@ != "args"@,
{
    reveal_strlit("returncode");
    reveal_strlit("ok");
    reveal_strlit("truncated");
    reveal_strlit("stdout");
    reveal_strlit("stderr");
    reveal_strlit("args");
    assert("returncode"@.len() == 10 && "ok"@.len() == 2 && "truncated"@.len() == 9);
    assert("stdout"@.len() == 6 && "stderr"@.len() == 6 && "args"@.len() == 4);
    assert("stdout"@[3] != "stderr"@[3]);
}

impl Vm {
    /// `proc.run(command, ...)`: what the host is to run.
    pub fn do_proc_run(&self, args: Vec<Value>, kwargs: Vec<Keyword>) -> (r: Step)
        ensures proc_run_result(self.heap, args@, kwargs@, r),
    {
        let h = &self.heap;
        let (items, parts) = match read_command(h, &args) {
            Ok(x) => x,
            Err(e) => {
                return fail(e);
            }
        };
        let mut cwd: Option<String> = None;
        let mut env: Option<Vec<(String, String)>> = None;
        let mut timeout: Option<Value> = None;
        let mut check: bool = true;
        let mut quiet: bool = false;
        let mut j: usize = 0;
        while j < kwargs.len()
            invariant
                j <= kwargs.len(),
                *h == self.heap,
                command_of(*h, args@) == Ok::<Seq<Value>, (Exc, Seq<char>)>(items@),
                run_options(*h, kwargs@, 0, default_options()) == run_options(*h, kwargs@, j as int, RunOptions {
                    cwd: opt_text(cwd),
                    env: opt_pairs(env),
                    timeout,
                    check,
                    quiet,
                }),
            decreases kwargs.len() - j,
        {
            let k = kwargs[j].0.as_str();
            let v = kwargs[j].1;
            if same_text(k, "cwd") {
                match v {
                    Value::Str(s) => {
                        cwd = Some(h.text_of(s).to_owned());
                    }
                    _ => {
                        return fault_step(Exc::TypeError, "proc.run() cwd must be a string");
                    }
                }
            } else if same_text(k, "env") {
                match v {
                    Value::Dict(d) => {
                        env = Some(read_env(h, d));
                    }
                    _ => {
                        return fault_step(Exc::TypeError, "proc.run() env must be a dict");
                    }
                }
            } else if same_text(k, "timeout") {
                match v {
                    Value::Int(_) => {
                        timeout = Some(v);
                    }
                    Value::Float(_) => {
                        timeout = Some(v);
                    }
                    _ => {
                        return fault_step(Exc::TypeError, "proc.run() timeout must be a number");
                    }
                }
            } else if same_text(k, "check") {
                check = is_truthy(h, v);
            } else if same_text(k, "quiet") {
                quiet = is_truthy(h, v);
            } else if same_text(k, "capture_output") || same_text(k, "text") {
                return fail(type_error(join3("proc.run() does not take '", k,
                    "' — it always captures stdout/stderr as bytes, and streams them live unless quiet=True. Call `.to_str()` on one to decode it.")));
            } else {
                return fail(type_error(join3("proc.run() got an unexpected keyword argument '", k, "'")));
            }
            j += 1;
        }
        let q = RunRequest { parts, cwd, env, timeout, check, quiet, items };
        Step::Host(Box::new((HostCall::RunProcess(q), ReturnAction::Normal)))
    }

    /// What the end of a child means for the program that ran it.
    pub fn settle_run(&mut self, q: RunRequest, o: RunOutcome) -> (r: Step)
        requires old(self).running(),
        ensures run_settled(*old(self), *final(self), q, o, r),
    {
        match o {
            RunOutcome::TimedOut(secs) => fail(timeout_error(join3("command timed out after ", secs.as_str(), " seconds"))),
            RunOutcome::Refused(e) => fail(e),
            RunOutcome::Ended { code, stdout, stderr } => {
                let c = match code {
                    Some(c) => c,
                    None => -1,
                };
                if q.check && c != 0 {
                    let errors = decode_lossy(&stderr);
                    return fail(command_error(failure_message(&q.parts, c, errors.as_str())));
                }
                let truncated = stdout.len() >= MAX_CAPTURE_BYTES || stderr.len() >= MAX_CAPTURE_BYTES;
                let out = self.heap.alloc_bytes(stdout);
                let err = self.heap.alloc_bytes(stderr);
                let args = self.heap.alloc_list(q.items);
                let mut fields = Fields::new();
                proof { lemma_field_names(); }
                fields.insert("returncode".to_owned(), Value::Int(c));
                fields.insert("ok".to_owned(), Value::Bool(c == 0));
                fields.insert("truncated".to_owned(), Value::Bool(truncated));
                fields.insert("stdout".to_owned(), out);
                fields.insert("stderr".to_owned(), err);
                fields.insert("args".to_owned(), args);
                let inst = self.heap.alloc_instance(Instance { class: self.proc_class, fields });
                self.push(inst);
                Step::Next
            }
        }
    }
}

/// What is kept of a stream after another chunk came: everything, up to the
/// limit.
pub open spec fn kept_after(kept: Seq<u8>, chunk: Seq<u8>) -> Seq<u8> {
    let room = if kept.len() < MAX_CAPTURE_BYTES { MAX_CAPTURE_BYTES - kept.len() } else { 0 };
    kept + (if chunk.len() <= room { chunk } else { chunk.take(room) })
}

/// Keep another chunk of a child's stream, up to the limit.
pub fn capture(kept: &mut Vec<u8>, chunk: &[u8])
    ensures final(kept)@ == kept_after(old(kept)@, chunk@),
{
    let room = if kept.len() < MAX_CAPTURE_BYTES { MAX_CAPTURE_BYTES - kept.len() } else { 0 };
    let n = if chunk.len() <= room { chunk.len() } else { room };
    let ghost before = kept@;
    let mut i: usize = 0;
    assert(before + chunk@.take(0) =~= before);
    while i < n
        invariant
            i <= n <= chunk@.len(),
            kept@ == before + chunk@.take(i as int),
        decreases n - i,
    {
        kept.push(chunk[i]);
        assert(before + chunk@.take(i + 1) =~= (before + chunk@.take(i as int)).push(chunk@[i as int]));
        i += 1;
    }
    assert(chunk@.len() <= room ==> chunk@.take(n as int) =~= chunk@);
}

/// However much a child writes, no more than the limit is kept of it, and a
/// copy that is short of the limit is complete.
pub proof fn capture_is_bounded(kept: Seq<u8>, chunk: Seq<u8>)
    requires kept.len() <= MAX_CAPTURE_BYTES,
    ensures
        kept_after(kept, chunk).len() <= MAX_CAPTURE_BYTES,
        kept_after(kept, chunk).len() < MAX_CAPTURE_BYTES ==> kept_after(kept, chunk) == kept + chunk,
        kept.is_prefix_of(kept_after(kept, chunk)),
{
}

/// What to do about a child that runs.
#[derive(Clone, Copy, Debug, PartialEq, Eq, Structural)]
pub enum Watch {
    /// It has ended.
    Ended,
    /// Its time is up.
    Kill,
    /// Look again later.
    Again,
}

/// What to do about a child: one that ended in time has ended, even if the
/// clock has gone past its deadline since.
pub fn watch(ended: bool, now: u64, deadline: Option<u64>) -> (r: Watch)
    ensures
        r == (if ended {
            Watch::Ended
        } else if deadline is Some && now >= deadline->0 {
            Watch::Kill
        } else {
            Watch::Again
        }),
{
    if ended {
        return Watch::Ended;
    }
    match deadline {
        Some(at) => if now >= at { Watch::Kill } else { Watch::Again },
        None => Watch::Again,
    }
}

} // verus!
