//! Paths, modules and commands, by what they come to.
use vstd::prelude::*;
use crate::exc::{Exc, VErr};
use crate::intlaws::fails_as;
use crate::machine::{Keyword, Step, Vm};
use crate::modules::{call_answer, ext_start, io_class, joined_path, last_of, lemma_after_last, lemma_last_none, lemma_last_of, paths_fall_apart, IoKind};
use crate::paths::{all_below, lemma_all_below};
use crate::process::{error_tail, has_space, indented, is_space, lines, proc_run_result, run_settled, trimmed, RunOutcome, RunRequest};
use crate::text::texts;
use crate::value::{Heap, Value};

verus! {

/// The answer is a new text.
pub open spec fn answers_text(b: Heap, r: Result<Value, VErr>, t: Seq<char>) -> bool {
    r matches Ok(Value::Str(s)) && b.text(s) == t
}

proof fn lemma_names()
    ensures
        "os.path.join"@ != "sys.exit"@,
        "os.path.join"@ != "re.match"@,
        "os.path.basename"@ != "sys.exit"@,
        "os.path.basename"@ != "re.match"@,
        "os.path.basename"@ != "os.path.join"@,
        "os.path.dirname"@ != "sys.exit"@,
        "os.path.dirname"@ != "re.match"@,
        "os.path.dirname"@ != "os.path.join"@,
        "os.path.dirname"@ != "os.path.basename"@,
        "os.path.splitext"@ != "sys.exit"@,
        "os.path.splitext"@ != "re.match"@,
        "os.path.splitext"@ != "os.path.join"@,
        "os.path.splitext"@ != "os.path.basename"@,
        "os.path.splitext"@ != "os.path.dirname"@,
        "re.match"@ != "sys.exit"@,
{
    reveal_strlit("sys.exit");
    reveal_strlit("re.match");
    reveal_strlit("os.path.join");
    reveal_strlit("os.path.basename");
    reveal_strlit("os.path.dirname");
    reveal_strlit("os.path.splitext");
    assert("os.path.join"@.len() == 12);
    assert("os.path.dirname"@.len() == 15);
    assert("os.path.basename"@.len() == 16);
    assert("os.path.splitext"@.len() == 16);
    assert("os.path.basename"@[8] == 'b');
    assert("os.path.splitext"@[8] == 's');
    assert("sys.exit"@[0] == 's');
    assert("re.match"@[0] == 'r');
}

/// `os.path.join` of a path and one below it puts one slash between them, and of
/// a path and an absolute one is the absolute one.
pub proof fn joining_paths(a: Heap, b: Heap, x: usize, y: usize, r: Result<Value, VErr>)
    requires
        call_answer(a, b, "os.path.join"@, seq![Value::Str(x), Value::Str(y)], r),
    ensures
        a.text(y).len() > 0 && a.text(y)[0] == '/' ==> answers_text(b, r, a.text(y)),
        a.text(x).len() > 0 && a.text(x).last() != '/' && !(a.text(y).len() > 0 && a.text(y)[0] == '/')
            ==> answers_text(b, r, a.text(x) + seq!['/'] + a.text(y)),
        a.text(x).len() > 0 && a.text(x).last() == '/' && !(a.text(y).len() > 0 && a.text(y)[0] == '/') ==> answers_text(b, r, a.text(x) + a.text(y)),
        a.text(x).len() == 0 ==> answers_text(b, r, a.text(y)),
{
    lemma_names();
    let args = seq![Value::Str(x), Value::Str(y)];
    let s = crate::process::part_texts(a, args);
    assert(args[0] == Value::Str(x) && args[1] == Value::Str(y));
    assert(s[0] == a.text(x) && s[1] == a.text(y));
    reveal_with_fuel(crate::modules::first_odd, 3);
    assert(crate::modules::first_odd(args, 0) is None);
    reveal_with_fuel(crate::modules::path_of, 3);
    assert(joined_path(Seq::empty(), a.text(x)) == a.text(x));
    assert(crate::modules::path_of(s, 2) == joined_path(a.text(x), a.text(y)));
    assert(a.text(x).push('/') + a.text(y) =~= a.text(x) + seq!['/'] + a.text(y));
}

/// The path is `dir`, a slash and `base`, and there is no slash in `base`.
pub open spec fn splits_at_last_slash(path: Seq<char>, dir: Seq<char>, base: Seq<char>) -> bool {
    path == dir + seq!['/'] + base && forall|k: int| 0 <= k < base.len() ==> #[trigger] base[k] != '/'
}

proof fn lemma_last_is(s: Seq<char>, c: char, k: int)
    requires
        0 <= k < s.len(),
        s[k] == c,
        forall|j: int| k < j < s.len() ==> #[trigger] s[j] != c,
    ensures last_of(s, c) == Some(k),
{
    lemma_last_of(s, c);
    lemma_last_none(s, c);
    lemma_after_last(s, c);
    assert(s.contains(c));
    let l = last_of(s, c)->0;
    if l < k {
        assert(s[k] != c);
    }
    if k < l {
        assert(s[l] != c);
    }
}

/// `basename` and `dirname` are what is behind and before the last slash; of a
/// path without one, the path and nothing.
pub proof fn parting_paths(a: Heap, b: Heap, c: Heap, x: usize, dir: Seq<char>, base: Seq<char>, r: Result<Value, VErr>, s: Result<Value, VErr>)
    requires
        call_answer(a, b, "os.path.basename"@, seq![Value::Str(x)], r),
        call_answer(a, c, "os.path.dirname"@, seq![Value::Str(x)], s),
    ensures
        splits_at_last_slash(a.text(x), dir, base) ==> answers_text(b, r, base) && answers_text(c, s, dir),
        !a.text(x).contains('/') ==> answers_text(b, r, a.text(x)) && answers_text(c, s, Seq::empty()),
{
    lemma_names();
    let p = a.text(x);
    assert(seq![Value::Str(x)][0] == Value::Str(x));
    if splits_at_last_slash(p, dir, base) {
        let k = dir.len() as int;
        assert(p[k] == '/');
        assert forall|j: int| k < j < p.len() implies #[trigger] p[j] != '/' by {
            assert(p[j] == base[j - k - 1]);
        }
        lemma_last_is(p, '/', k);
        assert(p.skip(k + 1) =~= base);
        assert(p.take(k) =~= dir);
    }
    if !p.contains('/') {
        lemma_last_of(p, '/');
        assert(last_of(p, '/') is None);
        assert(p.skip(0) =~= p);
    }
}

/// `splitext` parts a path before the last dot of its last part, if that dot is
/// not the first character there; what is behind the dot holds no dot and no
/// slash.
pub proof fn extensions_begin_at_the_last_dot(a: Heap, b: Heap, x: usize, r: Result<Value, VErr>)
    requires
        call_answer(a, b, "os.path.splitext"@, seq![Value::Str(x)], r),
    ensures
        r matches Ok(Value::Tuple(t)) && b.tuple(t).len() == 2 && (b.tuple(t)[0] matches Value::Str(p) && (b.tuple(t)[1] matches Value::Str(q) && {
            let root = b.text(p);
            let ext = b.text(q);
            &&& root + ext == a.text(x)
            &&& ext.len() > 0 ==> ext[0] == '.' && root.len() > 0 && root.last() != '/'
            &&& forall|k: int| 0 < k < ext.len() ==> #[trigger] ext[k] != '.' && ext[k] != '/'
            &&& ext.len() == 0 ==> forall|k: int| 1 <= k < root.len() && #[trigger] root[k] == '.' && root[k - 1] != '/'
                ==> exists|j: int| k < j < root.len() && #[trigger] root[j] == '/'
        })),
{
    lemma_names();
    let p = a.text(x);
    assert(seq![Value::Str(x)][0] == Value::Str(x));
    paths_fall_apart(p);
    let start = crate::modules::base_start(p);
    let base = crate::modules::base_of(p);
    lemma_last_of(p, '/');
    lemma_after_last(p, '/');
    lemma_last_none(p, '/');
    lemma_last_of(base, '.');
    lemma_after_last(base, '.');
    lemma_last_none(base, '.');
    let e = ext_start(p);
    let root = p.take(e);
    let ext = p.skip(e);
    assert forall|k: int| 0 <= k < base.len() implies #[trigger] base[k] == p[start + k] && base[k] != '/' by {
        if base[k] == '/' {
            assert(base.contains('/'));
        }
    }
    if ext.len() > 0 {
        assert(ext[0] == p[e]);
        assert(base[e - start] == '.');
        assert(root.last() == p[e - 1]);
        assert(base[e - start - 1] == p[e - 1]);
    }
    assert forall|k: int| 0 < k < ext.len() implies #[trigger] ext[k] != '.' && ext[k] != '/' by {
        assert(base[e - start + k] == ext[k]);
    }
    if ext.len() == 0 {
        assert forall|k: int| 1 <= k < root.len() && #[trigger] root[k] == '.' && root[k - 1] != '/'
            implies exists|j: int| k < j < root.len() && #[trigger] root[j] == '/' by {
            assert(root =~= p);
            if k >= start {
                assert(base[k - start] == '.');
                if last_of(base, '.') is None {
                    assert(base.contains('.'));
                } else {
                    assert(last_of(base, '.')->0 == 0);
                    if k > start {
                        assert(base[k - start] != '.');
                    } else {
                        assert(p[k - 1] == '/');
                    }
                }
            } else {
                let j = last_of(p, '/')->0;
                assert(root[j] == '/');
                assert(j != k);
            }
        }
    }
}

/// A dotted name lies below what its name without the last part lies below: `a.b`
/// is `b` in `a`.
pub proof fn dotted_names_nest(root: Seq<char>, outer: Seq<char>, inner: Seq<char>)
    requires
        root.len() > 0,
        root.last() != '/',
        inner.len() > 0,
        outer.len() > 0,
        forall|k: int| 0 <= k < inner.len() ==> #[trigger] inner[k] != '.' && inner[k] != '/',
        forall|k: int| 0 <= k < outer.len() ==> #[trigger] outer[k] != '.' && outer[k] != '/',
    ensures
        all_below(root, inner) == root + seq!['/'] + inner,
        all_below(root, outer + seq!['.'] + inner) == root + seq!['/'] + outer + seq!['/'] + inner,
{
    lemma_all_below(root, inner, 0);
    lemma_all_below(root, outer, 0);
    let name = outer + seq!['.'] + inner;
    let k = outer.len() + 1;
    lemma_all_below(root, name, k as int);
    assert(name.take(k - 1) =~= outer);
    assert(name.skip(k as int) =~= inner);
    assert(inner[0] != '/');
    assert(outer[0] != '/');
    assert(root.push('/') + inner =~= root + seq!['/'] + inner);
    let up = root.push('/') + outer;
    assert(up =~= root + seq!['/'] + outer);
    assert(up.last() == outer.last());
    assert(outer[outer.len() - 1] != '/');
    assert(up.push('/') + inner =~= root + seq!['/'] + outer + seq!['/'] + inner);
}

/// What the system refuses is raised as what it is.
pub proof fn system_errors_have_their_class(kind: IoKind)
    ensures
        kind == IoKind::NotFound ==> io_class(kind) == Exc::FileNotFoundError,
        kind == IoKind::PermissionDenied ==> io_class(kind) == Exc::PermissionError,
        kind == IoKind::AlreadyExists || kind == IoKind::Other ==> io_class(kind) == Exc::OSError,
{
}

/// A text is its trimmed form and then nothing but white space; the trimmed form
/// does not end in any.
pub proof fn trimming_takes_the_white_space(s: Seq<char>)
    ensures
        trimmed(s).len() <= s.len(),
        s.take(trimmed(s).len() as int) == trimmed(s),
        forall|k: int| trimmed(s).len() <= k < s.len() ==> is_space(#[trigger] s[k]),
        trimmed(s).len() > 0 ==> !is_space(trimmed(s).last()),
    decreases s.len(),
{
    if s.len() > 0 && is_space(s.last()) {
        let d = s.drop_last();
        trimming_takes_the_white_space(d);
        assert(d.take(trimmed(d).len() as int) =~= s.take(trimmed(d).len() as int));
        assert forall|k: int| trimmed(s).len() <= k < s.len() implies is_space(#[trigger] s[k]) by {
            if k < d.len() {
                assert(d[k] == s[k]);
            }
        }
    } else {
        assert(s.take(s.len() as int) =~= s);
    }
}

/// The lines of a text end at line feeds, which are in none of them, and a
/// carriage return before a feed goes with it.
pub proof fn lines_end_at_feeds(s: Seq<char>, t: Seq<char>)
    requires forall|k: int| 0 <= k < s.len() ==> #[trigger] s[k] != '\n',
    ensures
        s.len() > 0 ==> lines(s) == seq![s],
        s.len() == 0 ==> lines(s).len() == 0,
        s.len() == 0 || s.last() != '\r' ==> lines(s + seq!['\n'] + t) == seq![s] + lines(t),
        s.len() > 0 && s.last() == '\r' ==> lines(s + seq!['\n'] + t) == seq![s.drop_last()] + lines(t),
{
    let u = s + seq!['\n'] + t;
    let n = s.len() as int;
    lemma_feed(s, Seq::empty());
    assert(s + Seq::<char>::empty() =~= s);
    lemma_feed(s, seq!['\n'] + t);
    assert(s + (seq!['\n'] + t) =~= u);
    assert(crate::process::first_feed(u) == n);
    assert(u.skip(n + 1) =~= t);
    assert(u.take(n) =~= s);
    if n > 0 {
        assert(u[n - 1] == s.last());
        assert(u.take(n - 1) =~= s.drop_last());
    }
    assert(lines(u) == seq![u.take(crate::process::line_end(u, n))] + lines(u.skip(n + 1)));
}

proof fn lemma_feed(s: Seq<char>, rest: Seq<char>)
    requires
        forall|k: int| 0 <= k < s.len() ==> #[trigger] s[k] != '\n',
        rest.len() == 0 || rest[0] == '\n',
    ensures crate::process::first_feed(s + rest) == s.len(),
    decreases s.len(),
{
    let u = s + rest;
    if s.len() > 0 {
        assert(u[0] == s[0]);
        let d = s.skip(1);
        assert forall|k: int| 0 <= k < d.len() implies #[trigger] d[k] != '\n' by {
            assert(d[k] == s[k + 1]);
        }
        lemma_feed(d, rest);
        assert(u.skip(1) =~= d + rest);
    } else {
        assert(u =~= rest);
    }
}

/// Only the last three lines of what a failed command said are shown, each on a
/// line of its own with two blanks before it.
pub proof fn the_tail_is_three_lines(ls: Seq<Seq<char>>, x: Seq<char>, y: Seq<char>, z: Seq<char>)
    ensures
        error_tail(ls.push(x).push(y).push(z)) == "\n  "@ + x + "\n  "@ + y + "\n  "@ + z,
        error_tail(seq![x, y]) == "\n  "@ + x + "\n  "@ + y,
        error_tail(seq![x]) == "\n  "@ + x,
        error_tail(Seq::empty()).len() == 0,
{
    reveal_with_fuel(indented, 4);
    let all = ls.push(x).push(y).push(z);
    let three = seq![x, y, z];
    assert(all.skip(all.len() - 3) =~= three);
    assert(three.skip(0) =~= three);
    assert(three.drop_last() =~= seq![x, y]);
    assert(seq![x, y].drop_last() =~= seq![x]);
    assert(seq![x].drop_last() =~= Seq::<Seq<char>>::empty());
    assert(seq![x, y].skip(0) =~= seq![x, y]);
    assert(seq![x].skip(0) =~= seq![x]);
    assert(Seq::<Seq<char>>::empty().skip(0) =~= Seq::<Seq<char>>::empty());
    assert(indented(seq![x]) =~= "\n  "@ + x);
    assert(indented(seq![x, y]) =~= "\n  "@ + x + "\n  "@ + y);
    assert(indented(three) =~= "\n  "@ + x + "\n  "@ + y + "\n  "@ + z);
}

/// A command that ended with zero, or that nobody checks, gives an object that
/// says how it ended and what it wrote; one that is checked and ended otherwise
/// is a CommandError; one that took too long is a TimeoutError.
pub proof fn commands_report_how_they_ended(a: Vm, b: Vm, q: RunRequest, o: RunOutcome, r: Step)
    requires
        run_settled(a, b, q, o, r),
        a.running(),
    ensures
        o is TimedOut ==> fails_as(r, Exc::TimeoutError),
        o matches RunOutcome::Ended { code, stdout, stderr } ==> {
            let ok = code == Some(0i64);
            &&& q.check && !ok ==> fails_as(r, Exc::CommandError)
            &&& !q.check || ok ==> r is Next && (b.stack().last() matches Value::Instance(i) && {
                &&& b.heap.field(i, "ok"@) == Some(Value::Bool(ok))
                &&& code matches Some(c) ==> b.heap.field(i, "returncode"@) == Some(Value::Int(c))
                &&& b.heap.field(i, "stdout"@) matches Some(Value::Bytes(x)) && b.heap.octets(x) == stdout@
                &&& b.heap.field(i, "stderr"@) matches Some(Value::Bytes(y)) && b.heap.octets(y) == stderr@
            })
        },
{
}

/// `proc.run` of a list of texts whose first is a name without white space asks
/// the host to run those, checked and shown and without a limit where nothing
/// else is said.
pub proof fn commands_are_asked_for(h: Heap, l: usize, r: Step)
    requires
        proc_run_result(h, seq![Value::List(l)], Seq::empty(), r),
    ensures
        h.list(l).len() == 0 ==> fails_as(r, Exc::ValueError),
        (exists|k: int| 0 <= k < h.list(l).len() && !(#[trigger] h.list(l)[k] is Str)) ==> fails_as(r, Exc::TypeError),
        h.list(l).len() > 0 && (forall|k: int| 0 <= k < h.list(l).len() ==> #[trigger] h.list(l)[k] is Str)
            && h.text(h.list(l)[0]->Str_0).len() > 0 && !has_space(h.text(h.list(l)[0]->Str_0)) ==> {
            &&& r is Host
            &&& (*r->Host_0).0 is RunProcess
            &&& (*r->Host_0).0->RunProcess_0.parts@.len() == h.list(l).len()
            &&& forall|k: int| 0 <= k < h.list(l).len() ==> (#[trigger] (*r->Host_0).0->RunProcess_0.parts@[k])@ == h.text(h.list(l)[k]->Str_0)
            &&& (*r->Host_0).0->RunProcess_0.check
            &&& !(*r->Host_0).0->RunProcess_0.quiet
            &&& (*r->Host_0).0->RunProcess_0.cwd is None
            &&& (*r->Host_0).0->RunProcess_0.env is None
            &&& (*r->Host_0).0->RunProcess_0.timeout is None
        },
{
    let args = seq![Value::List(l)];
    assert(args[0] == Value::List(l));
    lemma_texts_only(h.list(l), 0);
    let items = h.list(l);
    if r is Host && (*r->Host_0).0 is RunProcess {
        let q = (*r->Host_0).0->RunProcess_0;
        let ps = crate::process::part_texts(h, items);
        assert(texts(q.parts@).len() == q.parts@.len());
        if texts(q.parts@) == ps {
            assert forall|k: int| 0 <= k < items.len() implies (#[trigger] q.parts@[k])@ == h.text(items[k]->Str_0) by {
                assert(texts(q.parts@)[k] == q.parts@[k]@);
                assert(ps[k] == h.text(items[k]->Str_0));
            }
        }
    }
}

proof fn lemma_texts_only(items: Seq<Value>, i: int)
    requires 0 <= i <= items.len(),
    ensures
        crate::process::first_non_text(items, i) is None <==> forall|k: int| i <= k < items.len() ==> #[trigger] items[k] is Str,
    decreases items.len() - i,
{
    if i < items.len() {
        lemma_texts_only(items, i + 1);
        if crate::process::first_non_text(items, i) is None {
            assert forall|k: int| i <= k < items.len() implies #[trigger] items[k] is Str by {
                if k > i {
                }
            }
        }
    }
}

/// `check=false` and `quiet=true` are taken at their word, and an option that
/// there is not is a TypeError.
pub proof fn command_options(h: Heap, l: usize, k: Keyword, flag: bool, r: Step)
    requires
        proc_run_result(h, seq![Value::List(l)], seq![k], r),
        r is Host,
        k.1 == Value::Bool(flag),
    ensures
        (*r->Host_0).0 is RunProcess,
        k.0@ == "check"@ ==> (*r->Host_0).0->RunProcess_0.check == flag && !(*r->Host_0).0->RunProcess_0.quiet,
        k.0@ == "quiet"@ ==> (*r->Host_0).0->RunProcess_0.quiet == flag && (*r->Host_0).0->RunProcess_0.check,
        k.0@ == "check"@ || k.0@ == "quiet"@,
{
    reveal_strlit("cwd");
    reveal_strlit("env");
    reveal_strlit("timeout");
    reveal_strlit("check");
    reveal_strlit("quiet");
    assert("check"@[0] == 'c' && "quiet"@[0] == 'q');
    assert("check"@.len() == 5 && "quiet"@.len() == 5 && "timeout"@.len() == 7 && "cwd"@.len() == 3 && "env"@.len() == 3);
    let ks = seq![k];
    assert(ks[0] == k);
    reveal_with_fuel(crate::process::run_options, 3);
}

} // verus!
