//! The built-in modules and those of their functions that need no host.
use vstd::prelude::*;
use crate::exc::{fault, type_error, Exc, VErr};
use crate::fields::Fields;
use crate::names::{kind_name, kind_name_of};
use crate::process::{pair_texts, text_between};
use crate::text::{chars_of, int_text, join2, join3, join4, nat_text, push_char, render_i64, render_u64, render_usize, same_text, texts};
use crate::value::{Heap, Module, Value};

verus! {

/// What kind of failure a file operation met.
#[derive(Clone, Copy, Debug, PartialEq, Eq, Structural)]
pub enum IoKind {
    NotFound,
    PermissionDenied,
    AlreadyExists,
    Other,
}

/// The number and the words of a failed file operation.
pub open spec fn errno_of(kind: IoKind) -> (nat, Seq<char>) {
    match kind {
        IoKind::NotFound => (2, "No such file or directory"@),
        IoKind::PermissionDenied => (13, "Permission denied"@),
        IoKind::AlreadyExists => (17, "File exists"@),
        IoKind::Other => (0, "OS error"@),
    }
}

/// The class a failed file operation raises.
pub open spec fn io_class(kind: IoKind) -> Exc {
    match kind {
        IoKind::NotFound => Exc::FileNotFoundError,
        IoKind::PermissionDenied => Exc::PermissionError,
        _ => Exc::OSError,
    }
}

/// What a failed file operation on `path` raises.
pub fn io_err(kind: IoKind, path: &str) -> (r: VErr)
    ensures
        r@ == (io_class(kind), "[Errno "@ + nat_text(errno_of(kind).0) + "] "@ + errno_of(kind).1 + ": '"@ + path@ + "'"@),
{
    let (class, n, words): (Exc, u64, &str) = match kind {
        IoKind::NotFound => (Exc::FileNotFoundError, 2, "No such file or directory"),
        IoKind::PermissionDenied => (Exc::PermissionError, 13, "Permission denied"),
        IoKind::AlreadyExists => (Exc::OSError, 17, "File exists"),
        IoKind::Other => (Exc::OSError, 0, "OS error"),
    };
    let errno = render_u64(n);
    let head = join4("[Errno ", errno.as_str(), "] ", words);
    VErr { class, message: join4(head.as_str(), ": '", path, "'") }
}

/// The standard streams of a run.
#[derive(Clone, Copy, Debug, PartialEq, Eq, Structural)]
pub struct StdStreams {
    pub output: usize,
    pub errors: usize,
    pub input: usize,
}

/// The native functions of a built-in module.
pub open spec fn module_functions(name: Seq<char>) -> Seq<Seq<char>> {
    if name == "sys"@ {
        seq!["exit"@]
    } else if name == "os"@ {
        seq!["getcwd"@, "listdir"@, "remove"@, "mkdir"@]
    } else if name == "os.path"@ {
        seq!["exists"@, "isfile"@, "isdir"@, "join"@, "basename"@, "dirname"@, "splitext"@]
    } else if name == "time"@ {
        seq!["time"@, "sleep"@, "monotonic"@]
    } else if name == "re"@ {
        seq!["search"@, "findall"@, "finditer"@, "fullmatch"@, "sub"@, "split"@, "compile"@, "match"@]
    } else if name == "proc"@ {
        seq!["run"@]
    } else if name == "net"@ {
        seq!["listen"@, "dial"@]
    } else if name == "_io"@ {
        seq!["buffer"@, "read_all"@]
    } else if name == "_json"@ {
        seq!["parse"@, "stringify"@]
    } else {
        Seq::empty()
    }
}

/// Whether `name` is a module that can be imported as built in.
pub open spec fn is_built_in(name: Seq<char>) -> bool {
    name == "sys"@ || name == "os"@ || name == "time"@ || name == "re"@ || name == "proc"@ || name == "net"@
        || name == "_io"@ || name == "_json"@
}

/// `v` is the native function `name`.
pub open spec fn is_function(h: Heap, v: Value, name: Seq<char>) -> bool {
    v matches Value::Builtin(i) && i < h.builtins@.len() && h.builtins@[i as int]@ == name
}

/// The functions in `m` are those of `name`.
pub open spec fn has_functions(h: Heap, m: Map<Seq<char>, Value>, name: Seq<char>) -> bool {
    forall|j: int| 0 <= j < module_functions(name).len() ==> {
        &&& m.dom().contains(#[trigger] module_functions(name)[j])
        &&& is_function(h, m[module_functions(name)[j]], name + "."@ + module_functions(name)[j])
    }
}

/// `v` is the module `name` with these members.
pub open spec fn is_module(h: Heap, v: Value, name: Seq<char>, m: Map<Seq<char>, Value>) -> bool {
    v matches Value::Module(i) && i < h.modules@.len() && h.modules@[i as int].name@ == name && h.modules@[i as int].members@ == m
}

/// `v` is a list of these texts.
pub open spec fn is_text_list(h: Heap, v: Value, ts: Seq<Seq<char>>) -> bool {
    v matches Value::List(l) && l < h.lists@.len() && h.list(l).len() == ts.len()
        && forall|j: int| 0 <= j < ts.len() ==> is_text(h, #[trigger] h.list(l)[j], ts[j])
}

/// `v` is the string `t`.
pub open spec fn is_text(h: Heap, v: Value, t: Seq<char>) -> bool {
    v matches Value::Str(s) && s < h.strs@.len() && h.text(s) == t
}

/// The place of `name` among these pairs.
pub open spec fn name_at(s: Seq<(Seq<char>, Seq<char>)>, name: Seq<char>, i: int) -> Option<int>
    decreases s.len() - i,
{
    if i < 0 || i >= s.len() {
        None
    } else if s[i].0 == name {
        Some(i)
    } else {
        name_at(s, name, i + 1)
    }
}

/// These pairs with each name once; the last value of a name counts.
pub open spec fn merged(s: Seq<(Seq<char>, Seq<char>)>) -> Seq<(Seq<char>, Seq<char>)>
    decreases s.len(),
{
    if s.len() == 0 {
        Seq::empty()
    } else {
        let before = merged(s.drop_last());
        match name_at(before, s.last().0, 0) {
            Some(k) => before.update(k, s.last()),
            None => before.push(s.last()),
        }
    }
}

/// `v` is a dict of these names and values.
pub open spec fn is_environment(h: Heap, v: Value, env: Seq<(String, String)>) -> bool {
    let ps = merged(pair_texts(env));
    v matches Value::Dict(d) && d < h.dicts@.len() && h.dict(d).len() == ps.len()
        && forall|j: int| 0 <= j < ps.len() ==> is_text(h, (#[trigger] h.dict(d)[j]).0, ps[j].0) && is_text(h, h.dict(d)[j].1, ps[j].1)
}

/// The members a built-in module has.
pub open spec fn built_in(h: Heap, m: Map<Seq<char>, Value>, name: Seq<char>, argv: Seq<String>, env: Seq<(String, String)>, std: StdStreams) -> bool {
    &&& has_functions(h, m, name)
    &&& if name == "sys"@ {
        &&& m.dom() =~= module_functions(name).to_set().union(set!["argv"@, "platform"@, "stdout"@, "stderr"@, "stdin"@])
        &&& is_text_list(h, m["argv"@], texts(argv))
        &&& is_text(h, m["platform"@], "oro"@)
        &&& m["stdout"@] == Value::Stream(std.output)
        &&& m["stderr"@] == Value::Stream(std.errors)
        &&& m["stdin"@] == Value::Stream(std.input)
    } else if name == "os"@ {
        &&& m.dom() =~= module_functions(name).to_set().union(set!["environ"@, "path"@])
        &&& is_environment(h, m["environ"@], env)
        &&& exists|p: Map<Seq<char>, Value>| {
            &&& #[trigger] is_module(h, m["path"@], "os.path"@, p)
            &&& p.dom() =~= module_functions("os.path"@).to_set()
            &&& has_functions(h, p, "os.path"@)
        }
    } else {
        m.dom() =~= module_functions(name).to_set()
    }
}

/// What making a built-in module may add to the heap.
pub open spec fn modules_grew(a: Heap, b: Heap) -> bool {
    &&& b == (Heap { modules: b.modules, builtins: b.builtins, strs: b.strs, lists: b.lists, dicts: b.dicts, ..a })
    &&& a.modules@.is_prefix_of(b.modules@)
    &&& a.builtins@.is_prefix_of(b.builtins@)
    &&& a.strs@.is_prefix_of(b.strs@)
    &&& a.lists@.is_prefix_of(b.lists@)
    &&& a.dicts@.is_prefix_of(b.dicts@)
}

proof fn lemma_functions_stay(a: Heap, b: Heap, m: Map<Seq<char>, Value>, name: Seq<char>)
    requires
        has_functions(a, m, name),
        a.builtins@.is_prefix_of(b.builtins@),
    ensures has_functions(b, m, name),
{
    assert forall|j: int| 0 <= j < module_functions(name).len() implies {
        &&& m.dom().contains(#[trigger] module_functions(name)[j])
        &&& is_function(b, m[module_functions(name)[j]], name + "."@ + module_functions(name)[j])
    } by {
        assert(is_function(a, m[module_functions(name)[j]], name + "."@ + module_functions(name)[j]));
    }
}

fn named(list: &[&str]) -> (r: Vec<String>)
    ensures
        r@.len() == list@.len(),
        forall|j: int| 0 <= j < list@.len() ==> (#[trigger] r@[j])@ == list@[j]@,
{
    let mut out: Vec<String> = Vec::new();
    let mut i: usize = 0;
    while i < list.len()
        invariant
            i <= list@.len(),
            out@.len() == i,
            forall|j: int| 0 <= j < i ==> (#[trigger] out@[j])@ == list@[j]@,
        decreases list.len() - i,
    {
        out.push(list[i].to_owned());
        i += 1;
    }
    out
}

fn functions_of(name: &str) -> (r: Vec<String>)
    ensures texts(r@) == module_functions(name@),
{
    let r = if same_text(name, "sys") {
        named(&["exit"])
    } else if same_text(name, "os") {
        named(&["getcwd", "listdir", "remove", "mkdir"])
    } else if same_text(name, "os.path") {
        named(&["exists", "isfile", "isdir", "join", "basename", "dirname", "splitext"])
    } else if same_text(name, "time") {
        named(&["time", "sleep", "monotonic"])
    } else if same_text(name, "re") {
        named(&["search", "findall", "finditer", "fullmatch", "sub", "split", "compile", "match"])
    } else if same_text(name, "proc") {
        named(&["run"])
    } else if same_text(name, "net") {
        named(&["listen", "dial"])
    } else if same_text(name, "_io") {
        named(&["buffer", "read_all"])
    } else if same_text(name, "_json") {
        named(&["parse", "stringify"])
    } else {
        Vec::new()
    };
    assert(texts(r@) =~= module_functions(name@));
    r
}

fn function_members(h: &mut Heap, name: &str) -> (r: Fields)
    ensures
        has_functions(*final(h), r@, name@),
        r@.dom() =~= module_functions(name@).to_set(),
        *final(h) == (Heap { builtins: final(h).builtins, ..*old(h) }),
        old(h).builtins@.is_prefix_of(final(h).builtins@),
{
    let list = functions_of(name);
    let mut out = Fields::new();
    let ghost fs = module_functions(name@);
    let mut i: usize = 0;
    assert(fs.take(0).to_set() =~= Set::empty());
    while i < list.len()
        invariant
            i <= list.len(),
            fs == module_functions(name@),
            fs == texts(list@),
            fs.len() == list@.len(),
            *h == (Heap { builtins: h.builtins, ..*old(h) }),
            old(h).builtins@.is_prefix_of(h.builtins@),
            out@.dom() =~= fs.take(i as int).to_set(),
            forall|j: int| 0 <= j < i ==> out@.dom().contains(#[trigger] fs[j]) && is_function(*h, out@[fs[j]], name@ + "."@ + fs[j]),
        decreases list.len() - i,
    {
        let ghost h0 = *h;
        let ghost m0 = out@;
        let full = join3(name, ".", list[i].as_str());
        let f = h.alloc_builtin(full);
        out.insert(list[i].clone(), f);
        proof {
            assert(fs[i as int] == list@[i as int]@);
            assert(out@ == m0.insert(fs[i as int], f));
            assert(fs.take(i + 1) =~= fs.take(i as int).push(fs[i as int]));
            assert(fs.take(i + 1).to_set() =~= fs.take(i as int).to_set().insert(fs[i as int])) by {
                let t = fs.take(i as int);
                let u = fs.take(i + 1);
                assert(u == t.push(fs[i as int]));
                assert forall|x: Seq<char>| u.contains(x) <==> (t.contains(x) || x == fs[i as int]) by {
                    if t.contains(x) {
                        let k = choose|k: int| 0 <= k < t.len() && t[k] == x;
                        assert(u[k] == x);
                    }
                    if x == fs[i as int] {
                        assert(u[u.len() - 1] == x);
                    }
                    if u.contains(x) {
                        let k = choose|k: int| 0 <= k < u.len() && u[k] == x;
                        if k < t.len() {
                            assert(t[k] == x);
                        }
                    }
                }
            }
            assert forall|j: int| 0 <= j < i + 1 implies out@.dom().contains(#[trigger] fs[j]) && is_function(*h, out@[fs[j]], name@ + "."@ + fs[j]) by {
                if fs[j] != fs[i as int] {
                    assert(j < i);
                    assert(is_function(h0, m0[fs[j]], name@ + "."@ + fs[j]));
                }
            }
        }
        i += 1;
    }
    assert(fs.take(i as int) =~= fs);
    out
}

fn text_list(h: &mut Heap, items: &Vec<String>) -> (r: Value)
    ensures
        is_text_list(*final(h), r, texts(items@)),
        *final(h) == (Heap { strs: final(h).strs, lists: final(h).lists, ..*old(h) }),
        old(h).strs@.is_prefix_of(final(h).strs@),
        old(h).lists@.is_prefix_of(final(h).lists@),
{
    let mut out: Vec<Value> = Vec::new();
    let mut i: usize = 0;
    while i < items.len()
        invariant
            i <= items.len(),
            out@.len() == i,
            *h == (Heap { strs: h.strs, ..*old(h) }),
            old(h).strs@.is_prefix_of(h.strs@),
            forall|j: int| 0 <= j < i ==> is_text(*h, #[trigger] out@[j], items@[j]@),
        decreases items.len() - i,
    {
        let ghost h0 = *h;
        let ghost o0 = out@;
        let v = h.alloc_str(items[i].clone());
        out.push(v);
        assert forall|j: int| 0 <= j < i + 1 implies is_text(*h, #[trigger] out@[j], items@[j]@) by {
            if j < i {
                assert(is_text(h0, o0[j], items@[j]@));
            }
        }
        i += 1;
    }
    let ghost h1 = *h;
    let ghost ov = out@;
    let l = h.alloc_list(out);
    proof {
        let id = l->List_0;
        assert(h.list(id) == ov);
        assert forall|j: int| 0 <= j < texts(items@).len() implies is_text(*h, #[trigger] h.list(id)[j], texts(items@)[j]) by {
            assert(is_text(h1, ov[j], items@[j]@));
        }
    }
    l
}

fn unique_env(env: &Vec<(String, String)>) -> (r: Vec<(String, String)>)
    ensures pair_texts(r@) == merged(pair_texts(env@)),
{
    let mut out: Vec<(String, String)> = Vec::new();
    let mut i: usize = 0;
    assert(pair_texts(env@).take(0) =~= Seq::empty());
    assert(pair_texts(out@) =~= Seq::empty());
    while i < env.len()
        invariant
            i <= env.len(),
            pair_texts(out@) == merged(pair_texts(env@).take(i as int)),
        decreases env.len() - i,
    {
        let ghost ps = pair_texts(env@);
        let ghost ov = pair_texts(out@);
        proof {
            assert(ps.take(i + 1).drop_last() =~= ps.take(i as int));
            assert(ps.take(i + 1).last() == ps[i as int]);
            assert(ps[i as int] == (env@[i as int].0@, env@[i as int].1@));
            assert(ov.len() == out@.len());
        }
        let mut k: usize = 0;
        while k < out.len() && !same_text(out[k].0.as_str(), env[i].0.as_str())
            invariant
                k <= out.len(),
                i < env.len(),
                ov == pair_texts(out@),
                ov.len() == out@.len(),
                name_at(ov, env@[i as int].0@, 0) == name_at(ov, env@[i as int].0@, k as int),
            decreases out.len() - k,
        {
            assert(ov[k as int].0 == out@[k as int].0@);
            k += 1;
        }
        if k < out.len() {
            assert(ov[k as int].0 == out@[k as int].0@);
            out.set(k, (env[i].0.clone(), env[i].1.clone()));
            assert(pair_texts(out@) =~= ov.update(k as int, ps[i as int]));
        } else {
            out.push((env[i].0.clone(), env[i].1.clone()));
            assert(pair_texts(out@) =~= ov.push(ps[i as int]));
        }
        i += 1;
    }
    assert(pair_texts(env@).take(i as int) =~= pair_texts(env@));
    out
}

fn environment(h: &mut Heap, env: &Vec<(String, String)>) -> (r: Value)
    ensures
        is_environment(*final(h), r, env@),
        *final(h) == (Heap { strs: final(h).strs, dicts: final(h).dicts, ..*old(h) }),
        old(h).strs@.is_prefix_of(final(h).strs@),
        old(h).dicts@.is_prefix_of(final(h).dicts@),
{
    let list = unique_env(env);
    let ghost ps = merged(pair_texts(env@));
    let mut out: Vec<(Value, Value)> = Vec::new();
    let mut i: usize = 0;
    proof { assert(ps.len() == list@.len()); }
    while i < list.len()
        invariant
            i <= list.len(),
            ps == pair_texts(list@),
            ps.len() == list@.len(),
            out@.len() == i,
            *h == (Heap { strs: h.strs, ..*old(h) }),
            old(h).strs@.is_prefix_of(h.strs@),
            forall|j: int| 0 <= j < i ==> is_text(*h, (#[trigger] out@[j]).0, ps[j].0) && is_text(*h, out@[j].1, ps[j].1),
        decreases list.len() - i,
    {
        let ghost h0 = *h;
        let ghost o0 = out@;
        let k = h.alloc_str(list[i].0.clone());
        let v = h.alloc_str(list[i].1.clone());
        out.push((k, v));
        assert forall|j: int| 0 <= j < i + 1 implies is_text(*h, (#[trigger] out@[j]).0, ps[j].0) && is_text(*h, out@[j].1, ps[j].1) by {
            if j < i {
                assert(is_text(h0, o0[j].0, ps[j].0) && is_text(h0, o0[j].1, ps[j].1));
            } else {
                assert(ps[j] == (list@[j].0@, list@[j].1@));
            }
        }
        i += 1;
    }
    let ghost h1 = *h;
    let ghost ov = out@;
    let d = h.alloc_dict(out);
    proof {
        let id = d->Dict_0;
        assert(h.dict(id) == ov);
        assert forall|j: int| 0 <= j < ps.len() implies is_text(*h, (#[trigger] h.dict(id)[j]).0, ps[j].0) && is_text(*h, h.dict(id)[j].1, ps[j].1) by {
            assert(is_text(h1, ov[j].0, ps[j].0) && is_text(h1, ov[j].1, ps[j].1));
        }
    }
    d
}

proof fn lemma_sys_names()
    ensures
        "argv"@ != "platform"@,
        "argv"@ != "stdout"@,
        "argv"@ != "stderr"@,
        "argv"@ != "stdin"@,
        "argv"@ != "exit"@,
        "platform"@ != "stdout"@,
        "platform"@ != "stderr"@,
        "platform"@ != "stdin"@,
        "platform"@ != "exit"@,
        "stdout"@ != "stderr"@,
        "stdout"@ != "stdin"@,
        "stdout"@ != "exit"@,
        "stderr"@ != "stdin"@,
        "stderr"@ != "exit"@,
        "stdin"@ != "exit"@,
{
    reveal_strlit("argv");
    reveal_strlit("platform");
    reveal_strlit("stdout");
    reveal_strlit("stderr");
    reveal_strlit("stdin");
    reveal_strlit("exit");
    assert("argv"@.len() == 4 && "platform"@.len() == 8 && "stdout"@.len() == 6);
    assert("stderr"@.len() == 6 && "stdin"@.len() == 5 && "exit"@.len() == 4);
    assert("stdout"@[3] != "stderr"@[3]);
    assert("argv"@[0] != "exit"@[0]);
}

proof fn lemma_os_names()
    ensures
        "environ"@ != "path"@,
        !module_functions("os"@).contains("environ"@),
        !module_functions("os"@).contains("path"@),
        "os"@ != "sys"@,
        "os.path"@ != "sys"@,
        "os.path"@ != "os"@,
{
    reveal_strlit("environ");
    reveal_strlit("path");
    reveal_strlit("getcwd");
    reveal_strlit("listdir");
    reveal_strlit("remove");
    reveal_strlit("mkdir");
    reveal_strlit("os");
    reveal_strlit("sys");
    reveal_strlit("os.path");
    assert("environ"@.len() == 7 && "path"@.len() == 4 && "getcwd"@.len() == 6 && "listdir"@.len() == 7);
    assert("remove"@.len() == 6 && "mkdir"@.len() == 5 && "os"@.len() == 2 && "sys"@.len() == 3 && "os.path"@.len() == 7);
    assert("environ"@[0] != "listdir"@[0]);
    let fs = module_functions("os"@);
    assert(fs == seq!["getcwd"@, "listdir"@, "remove"@, "mkdir"@]);
    assert forall|j: int| 0 <= j < fs.len() implies fs[j] != "environ"@ && fs[j] != "path"@ by {
        assert(j == 0 || j == 1 || j == 2 || j == 3);
    }
}

/// The built-in module `name`, or none, if there is no such module.
pub fn build(h: &mut Heap, name: &str, argv: &Vec<String>, environ: &Vec<(String, String)>, std: StdStreams) -> (r: Option<Value>)
    ensures
        modules_grew(*old(h), *final(h)),
        match r {
            Some(v) => is_built_in(name@) && exists|m: Map<Seq<char>, Value>| #[trigger] is_module(*final(h), v, name@, m)
                && built_in(*final(h), m, name@, argv@, environ@, std),
            None => !is_built_in(name@) && *final(h) == *old(h),
        },
{
    let sys = same_text(name, "sys");
    let os = same_text(name, "os");
    if !(sys || os || same_text(name, "time") || same_text(name, "re") || same_text(name, "proc") || same_text(name, "net")
        || same_text(name, "_io") || same_text(name, "_json")) {
        return None;
    }
    let ghost h0 = *h;
    let mut members = function_members(h, name);
    let ghost h1 = *h;
    let ghost m1 = members@;
    let ghost mut sub: Map<Seq<char>, Value> = Map::empty();
    if sys {
        let args = text_list(h, argv);
        let platform = h.alloc_str("oro".to_owned());
        members.insert("argv".to_owned(), args);
        members.insert("platform".to_owned(), platform);
        members.insert("stdout".to_owned(), Value::Stream(std.output));
        members.insert("stderr".to_owned(), Value::Stream(std.errors));
        members.insert("stdin".to_owned(), Value::Stream(std.input));
        proof {
            lemma_sys_names();
            assert(module_functions(name@) == seq!["exit"@]);
            assert(module_functions(name@)[0] == "exit"@);
            assert(m1.dom() =~= module_functions(name@).to_set());
            assert(members@.dom() =~= module_functions(name@).to_set().union(set!["argv"@, "platform"@, "stdout"@, "stderr"@, "stdin"@]));
            lemma_functions_stay(h1, *h, m1, name@);
            assert(has_functions(*h, members@, name@)) by {
                assert forall|j: int| 0 <= j < module_functions(name@).len() implies {
                    &&& members@.dom().contains(#[trigger] module_functions(name@)[j])
                    &&& is_function(*h, members@[module_functions(name@)[j]], name@ + "."@ + module_functions(name@)[j])
                } by {
                    assert(is_function(*h, m1[module_functions(name@)[j]], name@ + "."@ + module_functions(name@)[j]));
                }
            }
        }
    } else if os {
        let env = environment(h, environ);
        let fs = function_members(h, "os.path");
        let ghost h2 = *h;
        proof { sub = fs@; }
        let path = h.alloc_module(Module { name: "os.path".to_owned(), members: fs });
        members.insert("environ".to_owned(), env);
        members.insert("path".to_owned(), path);
        proof {
            lemma_os_names();
            assert(name@ == "os"@);
            assert(members@.dom() =~= module_functions(name@).to_set().union(set!["environ"@, "path"@]));
            lemma_functions_stay(h1, *h, m1, name@);
            lemma_functions_stay(h2, *h, sub, "os.path"@);
            assert(has_functions(*h, members@, name@)) by {
                assert forall|j: int| 0 <= j < module_functions(name@).len() implies {
                    &&& members@.dom().contains(#[trigger] module_functions(name@)[j])
                    &&& is_function(*h, members@[module_functions(name@)[j]], name@ + "."@ + module_functions(name@)[j])
                } by {
                    assert(module_functions(name@).contains(module_functions(name@)[j]));
                    assert(is_function(*h, m1[module_functions(name@)[j]], name@ + "."@ + module_functions(name@)[j]));
                }
            }
            assert(is_module(*h, path, "os.path"@, sub));
        }
    }
    let ghost h3 = *h;
    let ghost mv = members@;
    let v = h.alloc_module(Module { name: name.to_owned(), members });
    proof {
        lemma_functions_stay(h3, *h, mv, name@);
        if os {
            lemma_os_names();
            lemma_functions_stay(h3, *h, sub, "os.path"@);
            assert(is_module(*h, mv["path"@], "os.path"@, sub));
            let d = mv["environ"@]->Dict_0;
            assert(h.dict(d) == h3.dict(d));
        }
        assert(is_module(*h, v, name@, mv));
        assert(built_in(*h, mv, name@, argv@, environ@, std));
    }
    Some(v)
}

/// One more segment of a path: an absolute one begins anew.
pub open spec fn joined_path(out: Seq<char>, seg: Seq<char>) -> Seq<char> {
    if (seg.len() > 0 && seg[0] == '/') || out.len() == 0 {
        seg
    } else if out.last() == '/' {
        out + seg
    } else {
        out.push('/') + seg
    }
}

/// The first `n` of these segments as one path.
pub open spec fn path_of(segs: Seq<Seq<char>>, n: int) -> Seq<char>
    decreases n,
{
    if n <= 0 { Seq::empty() } else { joined_path(path_of(segs, n - 1), segs[n - 1]) }
}

/// The last place of `c` in `s`.
pub open spec fn last_of(s: Seq<char>, c: char) -> Option<int>
    decreases s.len(),
{
    if s.len() == 0 {
        None
    } else if s.last() == c {
        Some(s.len() - 1)
    } else {
        last_of(s.drop_last(), c)
    }
}

pub proof fn lemma_last_of(s: Seq<char>, c: char)
    ensures
        last_of(s, c) matches Some(k) ==> 0 <= k < s.len() && s[k] == c,
    decreases s.len(),
{
    if s.len() > 0 && s.last() != c {
        lemma_last_of(s.drop_last(), c);
    }
}

/// Where the last part of a path begins.
pub open spec fn base_start(path: Seq<char>) -> int {
    match last_of(path, '/') {
        Some(k) => k + 1,
        None => 0,
    }
}

/// The last part of a path.
pub open spec fn base_of(path: Seq<char>) -> Seq<char> {
    path.skip(base_start(path))
}

/// What comes before the last part of a path.
pub open spec fn dir_of(path: Seq<char>) -> Seq<char> {
    match last_of(path, '/') {
        Some(k) => path.take(k),
        None => Seq::empty(),
    }
}

/// Where the extension of a path begins: at the last dot of its last part,
/// unless that begins with it.
pub open spec fn ext_start(path: Seq<char>) -> int {
    match last_of(base_of(path), '.') {
        Some(k) => if k > 0 { base_start(path) + k } else { path.len() as int },
        None => path.len() as int,
    }
}

/// A path is its directory, a slash and its last part, and also its root and its
/// extension.
pub proof fn paths_fall_apart(path: Seq<char>)
    ensures
        path.contains('/') ==> dir_of(path) + "/"@ + base_of(path) == path,
        !path.contains('/') ==> base_of(path) == path && dir_of(path).len() == 0,
        0 <= ext_start(path) <= path.len(),
        path.take(ext_start(path)) + path.skip(ext_start(path)) == path,
        !base_of(path).contains('/'),
{
    lemma_last_of(path, '/');
    lemma_last_of(base_of(path), '.');
    lemma_last_none(path, '/');
    lemma_after_last(path, '/');
    reveal_strlit("/");
    match last_of(path, '/') {
        Some(k) => {
            assert(path[k] == '/');
            assert(dir_of(path) + "/"@ + base_of(path) =~= path);
        }
        None => {
            assert(base_of(path) =~= path);
        }
    }
    assert(path.take(ext_start(path)) + path.skip(ext_start(path)) =~= path);
}

pub proof fn lemma_last_none(s: Seq<char>, c: char)
    ensures last_of(s, c) is None ==> !s.contains(c),
    decreases s.len(),
{
    if s.len() > 0 && s.last() != c {
        let t = s.drop_last();
        lemma_last_none(t, c);
        if last_of(s, c) is None && s.contains(c) {
            let k = choose|k: int| 0 <= k < s.len() && s[k] == c;
            assert(t[k] == c);
        }
    }
}

pub proof fn lemma_after_last(s: Seq<char>, c: char)
    ensures last_of(s, c) matches Some(k) ==> forall|j: int| k < j < s.len() ==> (#[trigger] s[j]) != c,
    decreases s.len(),
{
    if s.len() > 0 && s.last() != c {
        let t = s.drop_last();
        lemma_after_last(t, c);
        lemma_last_of(s, c);
        if last_of(s, c) is Some {
            let k = last_of(s, c)->0;
            assert forall|j: int| k < j < s.len() implies (#[trigger] s[j]) != c by {
                if j < s.len() - 1 {
                    assert(t[j] == s[j]);
                }
            }
        }
    }
}

fn find_last(cs: &Vec<char>, from: usize, c: char) -> (r: Option<usize>)
    requires from <= cs@.len(),
    ensures
        match last_of(cs@.skip(from as int), c) {
            Some(k) => r matches Some(i) && i == from + k && from <= i < cs.len(),
            None => r is None,
        },
{
    let mut n = cs.len();
    let ghost rest = cs@.skip(from as int);
    assert(rest.take(n - from) =~= rest);
    while n > from
        invariant
            from <= n <= cs@.len(),
            rest == cs@.skip(from as int),
            last_of(rest, c) == last_of(rest.take(n - from), c),
        decreases n,
    {
        assert(rest.take(n - from).last() == cs@[n - 1]);
        assert(rest.take(n - from).drop_last() =~= rest.take(n - 1 - from));
        if cs[n - 1] == c {
            return Some(n - 1);
        }
        n -= 1;
    }
    None
}

/// The last part of `path`.
pub fn basename(path: &str) -> (r: String)
    ensures r@ == base_of(path@),
{
    let cs = chars_of(path);
    assert(cs@.skip(0) =~= cs@);
    let from = match find_last(&cs, 0, '/') {
        Some(k) => k + 1,
        None => 0,
    };
    let s = text_between(&cs, from, cs.len());
    assert(s@ =~= base_of(path@));
    s
}

/// What comes before the last part of `path`.
pub fn dirname(path: &str) -> (r: String)
    ensures r@ == dir_of(path@),
{
    let cs = chars_of(path);
    assert(cs@.skip(0) =~= cs@);
    match find_last(&cs, 0, '/') {
        Some(k) => {
            let s = text_between(&cs, 0, k);
            assert(s@ =~= dir_of(path@));
            s
        }
        None => {
            let s = text_between(&cs, 0, 0);
            assert(s@ =~= dir_of(path@));
            s
        }
    }
}

/// `path` up to its extension, and the extension.
pub fn splitext(path: &str) -> (r: (String, String))
    ensures
        r.0@ == path@.take(ext_start(path@)),
        r.1@ == path@.skip(ext_start(path@)),
{
    let cs = chars_of(path);
    assert(cs@.skip(0) =~= cs@);
    let from = match find_last(&cs, 0, '/') {
        Some(k) => k + 1,
        None => 0,
    };
    assert(cs@.skip(from as int) == base_of(path@));
    let at = match find_last(&cs, from, '.') {
        Some(k) => if k > from { k } else { cs.len() },
        None => cs.len(),
    };
    assert(at == ext_start(path@));
    let root = text_between(&cs, 0, at);
    let ext = text_between(&cs, at, cs.len());
    assert(root@ =~= path@.take(at as int));
    assert(ext@ =~= path@.skip(at as int));
    (root, ext)
}

/// The text of the one argument a call passes, which must be a string.
pub open spec fn one_text(h: Heap, args: Seq<Value>, who: Seq<char>) -> Result<Seq<char>, Seq<char>> {
    if args.len() != 1 {
        Err(who + "() takes exactly one argument"@)
    } else {
        text_arg(h, args[0], who)
    }
}

/// The text of an argument, which must be a string.
pub open spec fn text_arg(h: Heap, v: Value, who: Seq<char>) -> Result<Seq<char>, Seq<char>> {
    match v {
        Value::Str(s) => Ok(h.text(s)),
        _ => Err(who + "() argument must be str, not '"@ + kind_name(h, v) + "'"@),
    }
}

fn as_str<'a>(h: &'a Heap, v: Value, who: &str) -> (r: Result<&'a str, VErr>)
    ensures
        match text_arg(*h, v, who@) {
            Ok(t) => r matches Ok(s) && s@ == t,
            Err(t) => r matches Err(e) && e@ == (Exc::TypeError, t),
        },
{
    match v {
        Value::Str(s) => Ok(h.text_of(s)),
        _ => Err(type_error(join4(who, "() argument must be str, not '", kind_name_of(h, v), "'"))),
    }
}

fn one_path<'a>(h: &'a Heap, args: &Vec<Value>, who: &str) -> (r: Result<&'a str, VErr>)
    ensures
        match one_text(*h, args@, who@) {
            Ok(t) => r matches Ok(s) && s@ == t,
            Err(t) => r matches Err(e) && e@ == (Exc::TypeError, t),
        },
{
    if args.len() != 1 {
        return Err(type_error(join2(who, "() takes exactly one argument")));
    }
    as_str(h, args[0], who)
}

/// The first of these that is no string.
pub open spec fn first_odd(args: Seq<Value>, i: int) -> Option<int>
    decreases args.len() - i,
{
    if i < 0 || i >= args.len() {
        None
    } else if args[i] is Str {
        first_odd(args, i + 1)
    } else {
        Some(i)
    }
}

/// What `os.path.join` gives.
pub open spec fn join_answer(h: Heap, args: Seq<Value>) -> Result<Seq<char>, Seq<char>> {
    match first_odd(args, 0) {
        Some(k) => text_arg(h, args[k], "join"@),
        None => Ok(path_of(crate::process::part_texts(h, args), args.len() as int)),
    }
}

fn path_join(h: &Heap, args: &Vec<Value>) -> (r: Result<String, VErr>)
    ensures
        match join_answer(*h, args@) {
            Ok(t) => r matches Ok(s) && s@ == t,
            Err(t) => r matches Err(e) && e@ == (Exc::TypeError, t),
        },
{
    let mut out = "".to_owned();
    let mut i: usize = 0;
    let ghost segs = crate::process::part_texts(*h, args@);
    proof {
        reveal_strlit("");
        assert(out@ =~= path_of(segs, 0));
    }
    while i < args.len()
        invariant
            i <= args.len(),
            segs == crate::process::part_texts(*h, args@),
            first_odd(args@, 0) == first_odd(args@, i as int),
            out@ == path_of(segs, i as int),
        decreases args.len() - i,
    {
        let seg = match as_str(h, args[i], "join") {
            Ok(s) => s,
            Err(e) => {
                return Err(e);
            }
        };
        assert(segs[i as int] == seg@);
        let n = out.as_str().unicode_len();
        let absolute = seg.unicode_len() > 0 && seg.get_char(0) == '/';
        if absolute || n == 0 {
            out = seg.to_owned();
        } else if out.as_str().get_char(n - 1) == '/' {
            out.append(seg);
        } else {
            push_char(&mut out, '/');
            out.append(seg);
        }
        i += 1;
    }
    Ok(out)
}

/// The exit code `sys.exit` is asked for.
pub open spec fn exit_asked(args: Seq<Value>) -> Option<i64> {
    if args.len() == 0 {
        Some(0i64)
    } else if args.len() == 1 {
        match args[0] {
            Value::Null => Some(0i64),
            Value::Int(n) => Some(n),
            Value::Bool(b) => Some(if b { 1i64 } else { 0i64 }),
            _ => None,
        }
    } else {
        None
    }
}

/// What `sys.exit` raises.
pub fn sys_exit(args: &Vec<Value>) -> (r: VErr)
    ensures
        match exit_asked(args@) {
            Some(n) => r@ == (Exc::SystemExit, int_text(n as int)),
            None => r@ == (Exc::TypeError, "sys.exit() code must be an int or None in this build"@),
        },
{
    let code: Option<i64> = if args.len() == 0 {
        Some(0)
    } else if args.len() == 1 {
        match args[0] {
            Value::Null => Some(0),
            Value::Int(n) => Some(n),
            Value::Bool(b) => Some(if b { 1 } else { 0 }),
            _ => None,
        }
    } else {
        None
    };
    match code {
        Some(n) => VErr { class: Exc::SystemExit, message: render_i64(n) },
        None => fault(Exc::TypeError, "sys.exit() code must be an int or None in this build"),
    }
}

/// The functions of the built-in modules that need no host.
pub open spec fn needs_no_host(name: Seq<char>) -> bool {
    name == "sys.exit"@ || name == "re.match"@ || name == "os.path.join"@ || name == "os.path.basename"@
        || name == "os.path.dirname"@ || name == "os.path.splitext"@
}

/// The message of the function that was left out on purpose.
pub open spec fn match_text() -> Seq<char> {
    "re.match is not supported in Oro — it anchors at the start of the string, which is almost always the wrong choice and is constantly confused with re.search. Use re.search (unanchored), or anchor explicitly with a leading `^`."@
}

/// What those functions give.
pub open spec fn call_answer(a: Heap, b: Heap, name: Seq<char>, args: Seq<Value>, r: Result<Value, VErr>) -> bool {
    if name == "sys.exit"@ {
        b == a && (r matches Err(e) && match exit_asked(args) {
            Some(n) => e@ == (Exc::SystemExit, int_text(n as int)),
            None => e@ == (Exc::TypeError, "sys.exit() code must be an int or None in this build"@),
        })
    } else if name == "re.match"@ {
        b == a && (r matches Err(e) && e@ == (Exc::RuntimeError, match_text()))
    } else if name == "os.path.join"@ {
        text_answer(a, b, join_answer(a, args), r)
    } else if name == "os.path.basename"@ {
        text_answer(a, b, match one_text(a, args, "basename"@) {
            Ok(t) => Ok(base_of(t)),
            Err(e) => Err(e),
        }, r)
    } else if name == "os.path.dirname"@ {
        text_answer(a, b, match one_text(a, args, "dirname"@) {
            Ok(t) => Ok(dir_of(t)),
            Err(e) => Err(e),
        }, r)
    } else {
        match one_text(a, args, "splitext"@) {
            Err(t) => b == a && (r matches Err(e) && e@ == (Exc::TypeError, t)),
            Ok(t) => {
                &&& b == (Heap { strs: b.strs, tuples: b.tuples, ..a })
                &&& a.strs@.is_prefix_of(b.strs@)
                &&& a.tuples@.is_prefix_of(b.tuples@)
                &&& r matches Ok(Value::Tuple(x)) && x == a.tuples@.len() && x < b.tuples@.len() && b.tuple(x).len() == 2
                    && is_text(b, b.tuple(x)[0], t.take(ext_start(t))) && is_text(b, b.tuple(x)[1], t.skip(ext_start(t)))
            },
        }
    }
}

/// The answer is a new string, or a complaint.
pub open spec fn text_answer(a: Heap, b: Heap, t: Result<Seq<char>, Seq<char>>, r: Result<Value, VErr>) -> bool {
    match t {
        Ok(s) => {
            &&& b == (Heap { strs: b.strs, ..a })
            &&& a.strs@.is_prefix_of(b.strs@)
            &&& b.strs@.len() == a.strs@.len() + 1
            &&& r == Ok::<Value, VErr>(Value::Str(a.strs.len()))
            &&& b.text(a.strs.len()) == s
        },
        Err(m) => b == a && (r matches Err(e) && e@ == (Exc::TypeError, m)),
    }
}

/// Carry out a function that needs no host.
pub fn call(h: &mut Heap, name: &str, args: &Vec<Value>) -> (r: Option<Result<Value, VErr>>)
    ensures
        if needs_no_host(name@) {
            r matches Some(x) && call_answer(*old(h), *final(h), name@, args@, x)
        } else {
            r is None && *final(h) == *old(h)
        },
{
    if same_text(name, "sys.exit") {
        return Some(Err(sys_exit(args)));
    }
    if same_text(name, "re.match") {
        return Some(Err(fault(Exc::RuntimeError, "re.match is not supported in Oro — it anchors at the start of the string, which is almost always the wrong choice and is constantly confused with re.search. Use re.search (unanchored), or anchor explicitly with a leading `^`.")));
    }
    let text = if same_text(name, "os.path.join") {
        path_join(h, args)
    } else if same_text(name, "os.path.basename") {
        match one_path(h, args, "basename") {
            Ok(p) => Ok(basename(p)),
            Err(e) => Err(e),
        }
    } else if same_text(name, "os.path.dirname") {
        match one_path(h, args, "dirname") {
            Ok(p) => Ok(dirname(p)),
            Err(e) => Err(e),
        }
    } else if same_text(name, "os.path.splitext") {
        let (root, ext) = match one_path(h, args, "splitext") {
            Ok(p) => splitext(p),
            Err(e) => {
                return Some(Err(e));
            }
        };
        let mut pair: Vec<Value> = Vec::new();
        pair.push(h.alloc_str(root));
        pair.push(h.alloc_str(ext));
        return Some(Ok(h.alloc_tuple(pair)));
    } else {
        return None;
    };
    match text {
        Ok(s) => Some(Ok(h.alloc_str(s))),
        Err(e) => Some(Err(e)),
    }
}

/// The complaint about the string argument `i` of a call.
pub open spec fn text_at(h: Heap, args: Seq<Value>, i: int, who: Seq<char>) -> Option<(Exc, Seq<char>)> {
    if i >= args.len() {
        Some((Exc::TypeError, who + "() missing a required argument"@))
    } else if args[i] is Str {
        None
    } else {
        Some((Exc::TypeError, who + "() argument "@ + nat_text((i + 1) as nat) + " must be str, not '"@ + kind_name(h, args[i]) + "'"@))
    }
}

/// The complaint about arguments of a call that takes none.
pub open spec fn no_args(args: Seq<Value>, who: Seq<char>) -> Option<(Exc, Seq<char>)> {
    if args.len() == 0 { None } else { Some((Exc::TypeError, who + "() takes no arguments"@)) }
}

/// The complaint about the one path a call takes.
pub open spec fn path_refused(h: Heap, args: Seq<Value>, who: Seq<char>) -> Option<(Exc, Seq<char>)> {
    match one_text(h, args, who) {
        Ok(_) => None,
        Err(t) => Some((Exc::TypeError, t)),
    }
}

/// The complaint a function of a built-in module has about its arguments before
/// the host is asked.
pub open spec fn refused(h: Heap, name: Seq<char>, args: Seq<Value>) -> Option<(Exc, Seq<char>)> {
    if name == "time.time"@ {
        no_args(args, "time"@)
    } else if name == "time.monotonic"@ {
        no_args(args, "monotonic"@)
    } else if name == "os.getcwd"@ {
        no_args(args, "getcwd"@)
    } else if name == "os.listdir"@ {
        path_refused(h, args, "listdir"@)
    } else if name == "os.remove"@ {
        path_refused(h, args, "remove"@)
    } else if name == "os.mkdir"@ {
        path_refused(h, args, "mkdir"@)
    } else if name == "os.path.exists"@ {
        path_refused(h, args, "exists"@)
    } else if name == "os.path.isfile"@ {
        path_refused(h, args, "isfile"@)
    } else if name == "os.path.isdir"@ {
        path_refused(h, args, "isdir"@)
    } else if name == "re.search"@ {
        text_at(h, args, 0, "search"@)
    } else if name == "re.findall"@ {
        text_at(h, args, 0, "findall"@)
    } else if name == "re.finditer"@ {
        text_at(h, args, 0, "finditer"@)
    } else if name == "re.fullmatch"@ {
        text_at(h, args, 0, "fullmatch"@)
    } else if name == "re.sub"@ {
        text_at(h, args, 0, "sub"@)
    } else if name == "re.split"@ {
        text_at(h, args, 0, "split"@)
    } else if name == "re.compile"@ {
        text_at(h, args, 0, "compile"@)
    } else if name == "_io.buffer"@ {
        if args.len() != 1 {
            Some((Exc::TypeError, "buffer() takes 1 argument"@))
        } else if args[0] is Bytes {
            None
        } else {
            Some((Exc::TypeError, "buffer() argument must be bytes, not '"@ + kind_name(h, args[0]) + "'"@))
        }
    } else if name == "_io.read_all"@ {
        if args.len() == 1 && args[0] is Stream {
            None
        } else {
            Some((Exc::RuntimeError, "internal: _io.read_all takes one Rust stream"@))
        }
    } else if name == "_json.parse"@ {
        if args.len() != 1 {
            Some((Exc::RuntimeError, "internal: _json.parse takes one string"@))
        } else {
            path_refused(h, args, "parse"@)
        }
    } else if name == "_json.stringify"@ && args.len() != 2 {
        Some((Exc::RuntimeError, "internal: _json.stringify takes a value and an indent"@))
    } else {
        None
    }
}

fn str_at(h: &Heap, args: &Vec<Value>, i: usize, who: &str) -> (r: Option<VErr>)
    requires i < usize::MAX,
    ensures complains(r, text_at(*h, args@, i as int, who@)),
{
    if i >= args.len() {
        return Some(type_error(join2(who, "() missing a required argument")));
    }
    match args[i] {
        Value::Str(_) => None,
        v => {
            let n = render_usize(i + 1);
            let head = join4(who, "() argument ", n.as_str(), " must be str, not '");
            Some(type_error(join3(head.as_str(), kind_name_of(h, v), "'")))
        }
    }
}

fn takes_none(args: &Vec<Value>, who: &str) -> (r: Option<VErr>)
    ensures complains(r, no_args(args@, who@)),
{
    if args.len() == 0 { None } else { Some(type_error(join2(who, "() takes no arguments"))) }
}

fn takes_path(h: &Heap, args: &Vec<Value>, who: &str) -> (r: Option<VErr>)
    ensures complains(r, path_refused(*h, args@, who@)),
{
    match one_path(h, args, who) {
        Ok(_) => None,
        Err(e) => Some(e),
    }
}

/// The complaint is this one.
pub open spec fn complains(r: Option<VErr>, t: Option<(Exc, Seq<char>)>) -> bool {
    match t {
        Some(x) => r matches Some(e) && e@ == x,
        None => r is None,
    }
}

/// What a function of a built-in module has to say against its arguments.
pub fn refuse(h: &Heap, name: &str, args: &Vec<Value>) -> (r: Option<VErr>)
    ensures complains(r, refused(*h, name@, args@)),
{
    if same_text(name, "time.time") {
        takes_none(args, "time")
    } else if same_text(name, "time.monotonic") {
        takes_none(args, "monotonic")
    } else if same_text(name, "os.getcwd") {
        takes_none(args, "getcwd")
    } else if same_text(name, "os.listdir") {
        takes_path(h, args, "listdir")
    } else if same_text(name, "os.remove") {
        takes_path(h, args, "remove")
    } else if same_text(name, "os.mkdir") {
        takes_path(h, args, "mkdir")
    } else if same_text(name, "os.path.exists") {
        takes_path(h, args, "exists")
    } else if same_text(name, "os.path.isfile") {
        takes_path(h, args, "isfile")
    } else if same_text(name, "os.path.isdir") {
        takes_path(h, args, "isdir")
    } else if same_text(name, "re.search") {
        str_at(h, args, 0, "search")
    } else if same_text(name, "re.findall") {
        str_at(h, args, 0, "findall")
    } else if same_text(name, "re.finditer") {
        str_at(h, args, 0, "finditer")
    } else if same_text(name, "re.fullmatch") {
        str_at(h, args, 0, "fullmatch")
    } else if same_text(name, "re.sub") {
        str_at(h, args, 0, "sub")
    } else if same_text(name, "re.split") {
        str_at(h, args, 0, "split")
    } else if same_text(name, "re.compile") {
        str_at(h, args, 0, "compile")
    } else if same_text(name, "_io.buffer") {
        if args.len() != 1 {
            return Some(fault(Exc::TypeError, "buffer() takes 1 argument"));
        }
        match args[0] {
            Value::Bytes(_) => None,
            v => Some(type_error(join3("buffer() argument must be bytes, not '", kind_name_of(h, v), "'"))),
        }
    } else if same_text(name, "_io.read_all") {
        if args.len() == 1 {
            if let Value::Stream(_) = args[0] {
                return None;
            }
        }
        Some(fault(Exc::RuntimeError, "internal: _io.read_all takes one Rust stream"))
    } else if same_text(name, "_json.parse") {
        if args.len() != 1 {
            return Some(fault(Exc::RuntimeError, "internal: _json.parse takes one string"));
        }
        takes_path(h, args, "parse")
    } else if same_text(name, "_json.stringify") && args.len() != 2 {
        Some(fault(Exc::RuntimeError, "internal: _json.stringify takes a value and an indent"))
    } else {
        None
    }
}

} // verus!
