//! Printing, and rendering containers whose elements render themselves.
use vstd::prelude::*;
use crate::call::{fail, text_pushed, user_result};
use crate::code::Conv;
use crate::exc::{type_error, Exc};
use crate::frame::ReturnAction;
use crate::machine::{HostCall, Job, Keyword, PrintJob, Step, Task, TextCont, TextJob, Vm};
use crate::names::{kind_name, kind_name_of};
use crate::repr::{build_repr, collect_repr_instances, display, render_display, repr_instances, repr_value, render, repr, Splice};
use crate::text::{join2, join3, join5, join_all, joined, same_text, texts};
use crate::value::{Heap, Value};
use crate::wake::faults;

verus! {

/// Whether a value's text is made of the texts of others.
pub open spec fn is_container(v: Value) -> bool {
    v is List || v is Tuple || v is Dict
}

/// Whether a value's text is made of the texts of others.
pub fn container(v: Value) -> (r: bool)
    ensures r == is_container(v),
{
    matches!(v, Value::List(_) | Value::Tuple(_) | Value::Dict(_))
}

/// The separator and the ending that the keywords from place `j` on leave.
pub open spec fn print_options(h: Heap, kwargs: Seq<Keyword>, j: int, sep: Seq<char>, end: Seq<char>) -> Result<(Seq<char>, Seq<char>), Seq<char>>
    decreases kwargs.len() - j,
{
    if j < 0 || j >= kwargs.len() {
        Ok((sep, end))
    } else {
        let k = kwargs[j].0@;
        if k != "sep"@ && k != "end"@ {
            Err("print() got an unexpected keyword argument '"@ + k + "'"@)
        } else {
            match kwargs[j].1 {
                Value::Str(s) => if k == "sep"@ {
                    print_options(h, kwargs, j + 1, h.text(s), end)
                } else {
                    print_options(h, kwargs, j + 1, sep, h.text(s))
                },
                Value::Null => print_options(h, kwargs, j + 1, sep, end),
                _ => Err("print() argument '"@ + k + "' must be str or None, not '"@ + kind_name(h, kwargs[j].1) + "'"@),
            }
        }
    }
}

/// What `print` does: it starts a job that renders its arguments.
pub open spec fn print_result(a: Vm, b: Vm, args: Seq<Value>, kwargs: Seq<Keyword>, r: Step) -> bool {
    match print_options(a.heap, kwargs, 0, " "@, "\n"@) {
        Err(t) => faults(r, Exc::TypeError, t) && b == a,
        Ok((sep, end)) => {
            let j = b.task.prints@.last();
            &&& r == Step::Drive(Job::Print)
            &&& b == (Vm { task: Task { prints: b.task.prints, ..a.task }, ..a })
            &&& b.task.prints@.len() == a.task.prints@.len() + 1
            &&& b.task.prints@.drop_last() == a.task.prints@
            &&& j.rendered@.len() == 0 && j.remaining@ == args && j.next == 0
            &&& j.sep@ == sep && j.end@ == end
        },
    }
}

/// The innermost print of `b` is that of `a` after its next argument was taken.
pub open spec fn print_advanced(a: Vm, b: Vm) -> bool {
    let j = a.task.prints@.last();
    &&& b == (Vm { task: Task { prints: b.task.prints, ..a.task }, ..a })
    &&& b.task.prints@.len() == a.task.prints@.len()
    &&& b.task.prints@.drop_last() == a.task.prints@.drop_last()
    &&& b.task.prints@.last() == (PrintJob { next: (j.next + 1) as usize, ..j })
}

/// The innermost print of `b` is that of `a` with one more text rendered.
pub open spec fn print_rendered(a: Vm, b: Vm, text: Seq<char>) -> bool {
    let j = a.task.prints@.last();
    let k = b.task.prints@.last();
    &&& b == (Vm { task: Task { prints: b.task.prints, ..a.task }, ..a })
    &&& b.task.prints@.len() == a.task.prints@.len()
    &&& b.task.prints@.drop_last() == a.task.prints@.drop_last()
    &&& k == (PrintJob { rendered: k.rendered, ..j })
    &&& k.rendered@.len() == j.rendered@.len() + 1
    &&& k.rendered@.drop_last() == j.rendered@
    &&& k.rendered@.last()@ == text
}

/// The method that renders an instance for a reader. A `__str__` that is no
/// function leaves none.
pub open spec fn reader_method(h: Heap, v: Value) -> Option<(usize, usize)> {
    match v {
        Value::Instance(i) => match h.find_member(h.instance_class(i), "__str__"@) {
            Some((Value::Func(f), c)) => Some((f, c)),
            Some(_) => None,
            None => h.method_of(v, "__repr__"@),
        },
        _ => None,
    }
}

fn find_reader(h: &Heap, v: Value) -> (r: Option<(usize, usize)>)
    ensures r == reader_method(*h, v),
{
    match v {
        Value::Instance(i) => match h.find(h.class_of(i), "__str__") {
            Some((Value::Func(f), c)) => Some((f, c)),
            Some(_) => None,
            None => h.instance_method(v, "__repr__"),
        },
        _ => None,
    }
}

/// What driving the innermost print does: the next argument is rendered, or
/// the whole line goes out.
pub open spec fn drive_print_result(a: Vm, b: Vm, r: Step) -> bool {
    let j = a.task.prints@.last();
    if j.next >= j.remaining@.len() {
        &&& b == (Vm { task: Task { prints: b.task.prints, ..a.task }, ..a })
        &&& b.task.prints@ == a.task.prints@.drop_last()
        &&& r matches Step::Host(c) && (c.0 matches HostCall::Print(t)
            && t@ == joined(texts(j.rendered@), j.sep@) + j.end@) && c.1 == ReturnAction::Normal
    } else {
        let v = j.remaining@[j.next as int];
        exists|m: Vm| {
            &&& #[trigger] print_advanced(a, m)
            &&& match reader_method(a.heap, v) {
                Some((f, c)) => user_result(m, b, f, v, c, Seq::empty(), Seq::empty(), ReturnAction::DrivePrint, r),
                None => if is_container(v) {
                    stringify_begun(m, b, v, TextCont::Print, r)
                } else {
                    r == Step::Drive(Job::Print) && print_rendered(m, b, display(a.heap, v))
                },
            }
        }
    }
}

/// A job that renders `v` was begun.
pub open spec fn stringify_begun(a: Vm, b: Vm, v: Value, cont: TextCont, r: Step) -> bool {
    let j = b.task.texts@.last();
    &&& r == Step::Drive(Job::Text)
    &&& b == (Vm { task: Task { texts: b.task.texts, ..a.task }, ..a })
    &&& b.task.texts@.len() == a.task.texts@.len() + 1
    &&& b.task.texts@.drop_last() == a.task.texts@
    &&& j.value == v && j.cont == cont && j.next == 0 && j.results@.len() == 0
    &&& j.instances@ == repr_instances(a.heap, v, Seq::empty())
}

/// The text of a finished rendering.
pub open spec fn rendering(h: Heap, j: TextJob) -> Seq<char> {
    repr_value(h, j.value, Splice { on: true, texts: texts(j.results@) }, 0, Seq::empty()).0
}

/// The innermost rendering of `b` is that of `a` after its next instance was
/// taken.
pub open spec fn text_advanced(a: Vm, b: Vm) -> bool {
    let j = a.task.texts@.last();
    &&& b == (Vm { task: Task { texts: b.task.texts, ..a.task }, ..a })
    &&& b.task.texts@.len() == a.task.texts@.len()
    &&& b.task.texts@.drop_last() == a.task.texts@.drop_last()
    &&& b.task.texts@.last() == (TextJob { next: (j.next + 1) as usize, ..j })
}

/// The innermost rendering of `b` is that of `a` with one more text given.
pub open spec fn text_given(a: Vm, b: Vm, text: Seq<char>) -> bool {
    let j = a.task.texts@.last();
    let k = b.task.texts@.last();
    &&& b == (Vm { task: Task { texts: b.task.texts, ..a.task }, ..a })
    &&& b.task.texts@.len() == a.task.texts@.len()
    &&& b.task.texts@.drop_last() == a.task.texts@.drop_last()
    &&& k == (TextJob { results: k.results, ..j })
    &&& k.results@.len() == j.results@.len() + 1
    &&& k.results@.drop_last() == j.results@
    &&& k.results@.last()@ == text
}

/// The task without its innermost rendering.
pub open spec fn without_text(a: Vm, m: Vm) -> bool {
    &&& m == (Vm { task: Task { texts: m.task.texts, ..a.task }, ..a })
    &&& m.task.texts@ == a.task.texts@.drop_last()
}

/// What driving the innermost rendering does.
pub open spec fn drive_text_result(a: Vm, b: Vm, r: Step) -> bool {
    let j = a.task.texts@.last();
    if j.next < j.instances@.len() {
        let v = j.instances@[j.next as int];
        exists|m: Vm| {
            &&& #[trigger] text_advanced(a, m)
            &&& match a.heap.method_of(v, "__repr__"@) {
                Some((f, c)) => user_result(m, b, f, v, c, Seq::empty(), Seq::empty(), ReturnAction::DriveText, r),
                None => r == Step::Drive(Job::Text) && text_given(m, b, repr(a.heap, v)),
            }
        }
    } else {
        let t = rendering(a.heap, j);
        exists|m: Vm| {
            &&& #[trigger] without_text(a, m)
            &&& match j.cont {
                TextCont::Push => r is Next && text_pushed(m, b, t),
                TextCont::Print => if m.task.prints@.len() > 0 {
                    r == Step::Drive(Job::Print) && print_rendered(m, b, t)
                } else {
                    faults(r, Exc::RuntimeError, "internal: no print waits for this text"@) && b == m
                },
                TextCont::FormatSpec(s) => {
                    &&& b == (Vm { heap: b.heap, ..m })
                    &&& b.heap == (Heap { strs: b.heap.strs, ..a.heap })
                    &&& a.heap.strs@.is_prefix_of(b.heap.strs@)
                    &&& r matches Step::Host(c) && (c.0 matches HostCall::Format(v, conv, spec) && conv == Conv::Display
                        && spec@ == a.heap.text(s) && (v matches Value::Str(i) && b.heap.text(i) == t))
                        && c.1 == ReturnAction::Normal
                },
            }
        }
    }
}

impl Vm {
    /// `print(...)`.
    pub fn do_print(&mut self, args: Vec<Value>, kwargs: Vec<Keyword>) -> (r: Step)
        ensures print_result(*old(self), *final(self), args@, kwargs@, r),
    {
        let mut sep = " ".to_owned();
        let mut end = "\n".to_owned();
        let mut j: usize = 0;
        while j < kwargs.len()
            invariant
                j <= kwargs.len(),
                *self == *old(self),
                print_options(self.heap, kwargs@, 0, " "@, "\n"@) == print_options(self.heap, kwargs@, j as int, sep@, end@),
            decreases kwargs.len() - j,
        {
            let k = kwargs[j].0.as_str();
            let is_sep = same_text(k, "sep");
            if !is_sep && !same_text(k, "end") {
                return fail(type_error(join3("print() got an unexpected keyword argument '", k, "'")));
            }
            match kwargs[j].1 {
                Value::Str(s) => {
                    if is_sep {
                        sep = self.heap.text_of(s).to_owned();
                    } else {
                        end = self.heap.text_of(s).to_owned();
                    }
                }
                Value::Null => {}
                v => {
                    return fail(type_error(join5("print() argument '", k, "' must be str or None, not '", kind_name_of(&self.heap, v), "'")));
                }
            }
            j += 1;
        }
        self.task.prints.push(PrintJob { rendered: Vec::new(), remaining: args, next: 0, sep, end });
        assert(self.task.prints@.drop_last() =~= old(self).task.prints@);
        Step::Drive(Job::Print)
    }

    /// Add a rendered text to the innermost print.
    pub fn give_print(&mut self, text: String)
        requires old(self).task.prints@.len() > 0,
        ensures print_rendered(*old(self), *final(self), text@),
    {
        let n = self.task.prints.len();
        self.task.prints[n - 1].rendered.push(text);
        assert(self.task.prints@.drop_last() =~= old(self).task.prints@.drop_last());
        assert(self.task.prints@.last().rendered@.drop_last() =~= old(self).task.prints@.last().rendered@);
    }

    /// Drive the innermost print by one argument, or finish it.
    pub fn drive_print(&mut self) -> (r: Step)
        requires old(self).task.prints@.len() > 0,
        ensures drive_print_result(*old(self), *final(self), r),
    {
        let ghost a = *self;
        let n = self.task.prints.len();
        if self.task.prints[n - 1].next >= self.task.prints[n - 1].remaining.len() {
            match self.task.prints.pop() {
                Some(job) => {
                    let line = join_all(&job.rendered, job.sep.as_str());
                    let text = join2(line.as_str(), job.end.as_str());
                    return Step::Host(Box::new((HostCall::Print(text), ReturnAction::Normal)));
                }
                None => {
                    return Step::Next;
                }
            }
        }
        let k = self.task.prints[n - 1].next;
        let v = self.task.prints[n - 1].remaining[k];
        self.task.prints[n - 1].next = k + 1;
        assert(self.task.prints@.drop_last() =~= a.task.prints@.drop_last());
        let ghost m = *self;
        assert(print_advanced(a, m));
        match find_reader(&self.heap, v) {
            Some((f, c)) => self.invoke_user(f, v, c, Vec::new(), Vec::new(), ReturnAction::DrivePrint),
            None => {
                if container(v) {
                    return self.begin_stringify(v, TextCont::Print);
                }
                let text = render_display(&self.heap, v);
                self.give_print(text);
                Step::Drive(Job::Print)
            }
        }
    }

    /// Begin rendering a container.
    pub fn begin_stringify(&mut self, v: Value, cont: TextCont) -> (r: Step)
        ensures stringify_begun(*old(self), *final(self), v, cont, r),
    {
        let mut instances: Vec<Value> = Vec::new();
        let mut path: Vec<Value> = Vec::new();
        collect_repr_instances(&self.heap, v, &mut instances, &mut path);
        assert(instances@ =~= repr_instances(self.heap, v, Seq::empty()));
        self.task.texts.push(TextJob { value: v, instances, results: Vec::new(), next: 0, cont });
        assert(self.task.texts@.drop_last() =~= old(self).task.texts@);
        Step::Drive(Job::Text)
    }

    /// Give the innermost rendering the text of the instance it waits for.
    pub fn give_text(&mut self, text: String)
        requires old(self).task.texts@.len() > 0,
        ensures text_given(*old(self), *final(self), text@),
    {
        let n = self.task.texts.len();
        self.task.texts[n - 1].results.push(text);
        assert(self.task.texts@.drop_last() =~= old(self).task.texts@.drop_last());
        assert(self.task.texts@.last().results@.drop_last() =~= old(self).task.texts@.last().results@);
    }

    /// Drive the innermost rendering by one instance, or finish it.
    pub fn drive_text(&mut self) -> (r: Step)
        requires
            old(self).running(),
            old(self).task.texts@.len() > 0,
        ensures drive_text_result(*old(self), *final(self), r),
    {
        let ghost a = *self;
        let n = self.task.texts.len();
        if self.task.texts[n - 1].next < self.task.texts[n - 1].instances.len() {
            let k = self.task.texts[n - 1].next;
            let v = self.task.texts[n - 1].instances[k];
            self.task.texts[n - 1].next = k + 1;
            assert(self.task.texts@.drop_last() =~= a.task.texts@.drop_last());
            let ghost m = *self;
            assert(text_advanced(a, m));
            return match self.heap.instance_method(v, "__repr__") {
                Some((f, c)) => self.invoke_user(f, v, c, Vec::new(), Vec::new(), ReturnAction::DriveText),
                None => {
                    let t = render(&self.heap, v);
                    self.give_text(t);
                    Step::Drive(Job::Text)
                }
            };
        }
        let job = match self.task.texts.pop() {
            Some(j) => j,
            None => {
                return Step::Next;
            }
        };
        let ghost m = *self;
        assert(without_text(a, m));
        let mut path: Vec<Value> = Vec::new();
        let (text, _) = build_repr(&self.heap, job.value, true, &job.results, 0, &mut path);
        assert(text@ == rendering(a.heap, a.task.texts@.last()));
        match job.cont {
            TextCont::Push => {
                let s = self.heap.alloc_str(text);
                self.push(s);
                Step::Next
            }
            TextCont::Print => {
                if self.task.prints.len() > 0 {
                    self.give_print(text);
                    Step::Drive(Job::Print)
                } else {
                    crate::call::fault_step(Exc::RuntimeError, "internal: no print waits for this text")
                }
            }
            TextCont::FormatSpec(spec) => {
                let spec = self.heap.text_of(spec).to_owned();
                let s = self.heap.alloc_str(text);
                Step::Host(Box::new((HostCall::Format(s, Conv::Display, spec), ReturnAction::Normal)))
            }
        }
    }
}

} // verus!
