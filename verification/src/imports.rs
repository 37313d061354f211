//! Importing modules.
use vstd::prelude::*;
use std::rc::Rc;
use crate::bind::{fresh_frame, pool_taken};
use crate::code::CodeObject;
use crate::dispatch::only_raises;
use crate::exc::Exc;
use crate::frame::{Frame, ReturnAction};
use crate::machine::{restacked, HostCall, Step, Task, Vm};
use crate::modules::{built_in, is_built_in, is_module, modules_grew};
use crate::paths::{module_file, render_module_file};
use crate::stdlib::{display_name, shipped_source, ships, source_for};
use crate::tasks::await_result;
use crate::text::{join3, join4, same_text};
use crate::value::{Heap, TaskId, Value};

verus! {

/// Whether the running frame is the body of a module that ships with the
/// machine.
pub open spec fn in_shipped_body(a: Vm) -> bool {
    a.running() && (a.top().ret_action matches ReturnAction::BuildModule(p) && ships(a.heap.text(p)))
}

/// Whether a module is hidden from programs: its name begins with an underscore.
pub open spec fn is_hidden(path: Seq<char>) -> bool {
    path.len() > 0 && path[0] == '_'
}

/// The task in which the body of the module `path` runs.
pub open spec fn importer(s: Seq<(String, TaskId)>, path: Seq<char>, i: int) -> Option<TaskId>
    decreases s.len() - i,
{
    if i < 0 || i >= s.len() {
        None
    } else if s[i].0@ == path {
        Some(s[i].1)
    } else {
        importer(s, path, i + 1)
    }
}

/// The step asks for the code of the module `path`.
pub open spec fn asks_module(a: Vm, r: Step, path: Seq<char>) -> bool {
    r matches Step::Host(x) && (*x).1 == ReturnAction::Normal && ((*x).0 matches HostCall::LoadModule(p, origin, source)
        && p@ == path && match shipped_source(a.natives.stdlib, path) {
        Some(t) => origin@ == "<std/"@ + path + ".oro>"@ && (source matches Some(s) && s@ == t),
        None => origin@ == module_file(a.import_root@, path) && source is None,
    })
}

/// A built-in module was made and is on the stack.
pub open spec fn built_in_pushed(a: Vm, b: Vm, path: Seq<char>, r: Step) -> bool {
    exists|m: Vm, v: Value, members: Map<Seq<char>, Value>| {
        &&& m == (Vm { heap: m.heap, ..a })
        &&& modules_grew(a.heap, m.heap)
        &&& #[trigger] is_module(m.heap, v, path, members)
        &&& built_in(m.heap, members, path, a.argv@, a.natives.environ@, a.std_streams)
        &&& #[trigger] restacked(m, b, a.stack().push(v))
        &&& b.heap == m.heap
        &&& r is Next
    }
}

/// What `import path` does: a built-in module is made, one that was imported
/// before is the same again, one whose body runs is waited for, and any other
/// is asked for. A file never stands in for a module that ships with the
/// machine.
pub open spec fn import_result(a: Vm, b: Vm, path: Seq<char>, r: Step) -> bool {
    if is_built_in(path) && (!is_hidden(path) || in_shipped_body(a)) {
        built_in_pushed(a, b, path, r)
    } else if a.module_cache@.dom().contains(path) {
        r is Next && restacked(a, b, a.stack().push(a.module_cache@[path])) && b.heap == a.heap
    } else {
        match importer(a.importing@, path, 0) {
            Some(owner) => await_result(a, b, path, owner, r),
            None => b == a && asks_module(a, r, path),
        }
    }
}

/// What the host found for a module.
#[derive(Debug)]
pub enum Loaded {
    Code(Rc<CodeObject>),
    /// There is no such module.
    Missing,
    /// Its source does not compile, for this reason.
    Broken(String),
}

/// The message for a module that does not exist.
pub open spec fn missing_text(path: Seq<char>) -> Seq<char> {
    if path == "subprocess"@ {
        "No module named 'subprocess' — Oro's is called `proc`. It differs from CPython's on purpose: proc.run() streams the child's output live *and* captures it, and raises CommandError on a nonzero exit (pass check=False to allow one)."@
    } else {
        "No module named '"@ + path + "'"@
    }
}

/// The body of the module `path` runs, in a frame of its own.
pub open spec fn body_entered(a: Vm, b: Vm, path: Seq<char>, code: Rc<CodeObject>) -> bool {
    let f = b.task.frames@.last();
    let id = a.heap.strs.len();
    &&& b == (Vm {
        task: Task { frames: b.task.frames, ..a.task },
        heap: b.heap,
        frame_pool: b.frame_pool,
        importing: b.importing,
        ..a
    })
    &&& pool_taken(a.frame_pool@, b.frame_pool@)
    &&& b.importing@.len() == a.importing@.len() + 1
    &&& b.importing@.drop_last() == a.importing@
    &&& b.importing@.last().0@ == path
    &&& b.importing@.last().1 == a.task.id
    &&& b.task.frames@ == a.task.frames@.push(f)
    &&& f.ret_action == ReturnAction::BuildModule(id)
    &&& b.heap.text(id) == path
    &&& b.heap.strs@.len() == id + 1
    &&& a.heap.strs@.is_prefix_of(b.heap.strs@)
    &&& fresh_frame(Heap { strs: b.heap.strs, ..a.heap }, b.heap, code, Seq::empty(), Frame { ret_action: ReturnAction::Normal, ..f })
}

/// What an import does once the host has looked for the module.
pub open spec fn load_result(a: Vm, b: Vm, path: Seq<char>, l: Loaded, r: Step) -> bool {
    match l {
        Loaded::Missing => only_raises(a, b, r, Exc::ModuleNotFoundError, missing_text(path)),
        Loaded::Broken(why) => only_raises(a, b, r, Exc::ImportError, "error importing '"@ + path + "': "@ + why@),
        Loaded::Code(code) => r is Next && body_entered(a, b, path, code),
    }
}

/// No file is asked for in place of a module that ships with the machine.
pub proof fn nothing_shadows_shipped_modules(a: Vm, b: Vm, path: Seq<char>, r: Step)
    requires
        import_result(a, b, path, r),
        ships(path),
        r is Host,
    ensures
        r matches Step::Host(x) && ((*x).0 matches HostCall::LoadModule(_, _, source) && source is Some),
{
}

fn find_importer(s: &Vec<(String, TaskId)>, path: &str) -> (r: Option<TaskId>)
    ensures r == importer(s@, path@, 0),
{
    let mut i: usize = 0;
    while i < s.len()
        invariant
            i <= s.len(),
            importer(s@, path@, 0) == importer(s@, path@, i as int),
        decreases s.len() - i,
    {
        if same_text(s[i].0.as_str(), path) {
            return Some(s[i].1);
        }
        i += 1;
    }
    None
}

impl Vm {
    fn in_stdlib_module(&self) -> (r: bool)
        ensures r == in_shipped_body(*self),
    {
        let n = self.task.frames.len();
        if n == 0 {
            return false;
        }
        match self.task.frames[n - 1].ret_action {
            ReturnAction::BuildModule(p) => source_for(&self.natives.stdlib, self.heap.text_of(p)).is_some(),
            _ => false,
        }
    }

    /// `import path`.
    pub fn import_module(&mut self, path: &str) -> (r: Step)
        requires old(self).running(),
        ensures import_result(*old(self), *final(self), path@, r),
    {
        let ghost a = *self;
        let hidden = path.unicode_len() > 0 && path.get_char(0) == '_';
        if !hidden || self.in_stdlib_module() {
            if let Some(v) = crate::modules::build(&mut self.heap, path, &self.argv, &self.natives.environ, self.std_streams) {
                let ghost m = *self;
                self.push(v);
                proof {
                    let members = choose|members: Map<Seq<char>, Value>| #[trigger] is_module(m.heap, v, path@, members)
                        && built_in(m.heap, members, path@, a.argv@, a.natives.environ@, a.std_streams);
                    assert(is_module(m.heap, v, path@, members));
                    assert(restacked(m, *self, a.stack().push(v)));
                }
                return Step::Next;
            }
        }
        if let Some(v) = self.module_cache.get(path) {
            self.push(v);
            return Step::Next;
        }
        if let Some(owner) = find_importer(&self.importing, path) {
            return self.await_import(path, owner);
        }
        let (origin, source) = match source_for(&self.natives.stdlib, path) {
            Some(s) => (display_name(path), Some(s.to_owned())),
            None => (render_module_file(self.import_root.as_str(), path), None),
        };
        Step::Host(Box::new((HostCall::LoadModule(path.to_owned(), origin, source), ReturnAction::Normal)))
    }

    /// Go on with the import of `path` once the host has looked for it.
    pub fn settle_import(&mut self, path: &str, loaded: Loaded) -> (r: Step)
        requires old(self).running(),
        ensures load_result(*old(self), *final(self), path@, loaded, r),
    {
        match loaded {
            Loaded::Missing => {
                let text = if same_text(path, "subprocess") {
                    "No module named 'subprocess' — Oro's is called `proc`. It differs from CPython's on purpose: proc.run() streams the child's output live *and* captures it, and raises CommandError on a nonzero exit (pass check=False to allow one).".to_owned()
                } else {
                    join3("No module named '", path, "'")
                };
                self.raise(Exc::ModuleNotFoundError, text)
            }
            Loaded::Broken(why) => self.raise(Exc::ImportError, join4("error importing '", path, "': ", why.as_str())),
            Loaded::Code(code) => {
                let ghost a = *self;
                let id = self.heap.strs.len();
                let _s = self.heap.alloc_str(path.to_owned());
                let ghost h1 = self.heap;
                let none: Vec<usize> = Vec::new();
                assert(none@ =~= Seq::empty());
                let f = self.take_frame(code, &none);
                let ghost f0 = f;
                let mut f = f;
                f.ret_action = ReturnAction::BuildModule(id);
                self.task.frames.push(f);
                let task = self.task.id;
                self.importing.push((path.to_owned(), task));
                proof {
                    assert(self.importing@.drop_last() =~= a.importing@);
                    assert(h1 == (Heap { strs: self.heap.strs, ..a.heap }));
                    assert(f0 == (Frame { ret_action: ReturnAction::Normal, ..self.task.frames@.last() }));
                    assert(self.task.frames@ =~= a.task.frames@.push(self.task.frames@.last()));
                }
                Step::Next
            }
        }
    }
}

} // verus!
