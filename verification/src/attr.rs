//! Attributes and methods.
use vstd::prelude::*;
use crate::exc::{attribute_error, Exc, VErr};
use crate::machine::Natives;
use crate::names::{kind_name, kind_name_of};
use crate::text::{join3, join5, same_text};
use crate::value::{BoundMethod, Heap, MethodKind, Value};

verus! {

/// What reading an attribute finds.
pub ghost enum Attr {
    /// This value.
    Plain(Value),
    /// A method of a class, to be bound.
    Bound { recv: Value, func: usize, defclass: usize },
    /// A native method of this value.
    Native(Value),
    /// A text that is read off the object.
    Text(Seq<char>),
    /// Nothing, and this is what to say.
    Missing(Seq<char>),
}

/// Whether the host's library has this method for this kind of value.
pub open spec fn has_method(ms: Seq<(String, String)>, kind: Seq<char>, name: Seq<char>) -> bool {
    exists|i: int| 0 <= i < ms.len() && (#[trigger] ms[i]).0@ == kind && ms[i].1@ == name
}

/// What to say about a method that is gone.
pub open spec fn cut_method(cs: Seq<(String, String, String)>, kind: Seq<char>, name: Seq<char>, i: int) -> Option<Seq<char>>
    decreases cs.len() - i,
{
    if i < 0 || i >= cs.len() {
        None
    } else if cs[i].0@ == kind && cs[i].1@ == name {
        Some(cs[i].2@)
    } else {
        cut_method(cs, kind, name, i + 1)
    }
}

/// Whether `names` holds `name`.
pub open spec fn listed(names: Seq<String>, name: Seq<char>) -> bool {
    exists|i: int| 0 <= i < names.len() && (#[trigger] names[i])@ == name
}

/// Whether `names` holds `name`.
pub fn is_listed(names: &Vec<String>, name: &str) -> (r: bool)
    ensures r == listed(names@, name@),
{
    match crate::text::find_text(names, name) {
        Some(i) => {
            assert(names@[i as int]@ == name@);
            true
        }
        None => false,
    }
}

impl Natives {
    /// Whether the host's library has this method for this kind of value.
    pub fn method_exists(&self, kind: &str, name: &str) -> (r: bool)
        ensures r == has_method(self.methods@, kind@, name@),
    {
        let mut i: usize = 0;
        while i < self.methods.len()
            invariant
                i <= self.methods.len(),
                forall|k: int| 0 <= k < i ==> !((#[trigger] self.methods@[k]).0@ == kind@ && self.methods@[k].1@ == name@),
            decreases self.methods.len() - i,
        {
            if same_text(self.methods[i].1.as_str(), name) && same_text(self.methods[i].0.as_str(), kind) {
                assert(self.methods@[i as int].0@ == kind@);
                return true;
            }
            i += 1;
        }
        false
    }

    /// What to say about a method that is gone.
    pub fn cut_method_message(&self, kind: &str, name: &str) -> (r: Option<String>)
        ensures
            match r {
                Some(s) => cut_method(self.cut_methods@, kind@, name@, 0) == Some(s@),
                None => cut_method(self.cut_methods@, kind@, name@, 0) is None,
            },
    {
        let mut i: usize = 0;
        while i < self.cut_methods.len()
            invariant
                i <= self.cut_methods.len(),
                cut_method(self.cut_methods@, kind@, name@, 0) == cut_method(self.cut_methods@, kind@, name@, i as int),
            decreases self.cut_methods.len() - i,
        {
            if same_text(self.cut_methods[i].0.as_str(), kind) && same_text(self.cut_methods[i].1.as_str(), name) {
                return Some(self.cut_methods[i].2.clone());
            }
            i += 1;
        }
        None
    }
}

/// The message for an attribute that is not there.
pub open spec fn no_attr_text(kind: Seq<char>, name: Seq<char>) -> Seq<char> {
    "'"@ + kind + "' object has no attribute '"@ + name + "'"@
}

/// The message for a member that a class does not have.
pub open spec fn no_member_text(class: Seq<char>, name: Seq<char>) -> Seq<char> {
    "type object '"@ + class + "' has no attribute '"@ + name + "'"@
}

/// A class member read through an object: a function is bound to it.
pub open spec fn member_attr(member: Value, recv: Value, defclass: usize) -> Attr {
    match member {
        Value::Func(func) => Attr::Bound { recv, func, defclass },
        _ => Attr::Plain(member),
    }
}

/// The address a stream knows under this name.
pub open spec fn stream_addr(h: Heap, i: usize, name: Seq<char>) -> Option<Seq<char>> {
    if i >= h.streams@.len() {
        None
    } else if name == "peer"@ {
        match h.streams@[i as int].peer {
            Some(s) => Some(s@),
            None => None,
        }
    } else if name == "local"@ {
        match h.streams@[i as int].local {
            Some(s) => Some(s@),
            None => None,
        }
    } else {
        None
    }
}

/// A native method of `obj`, or what to say when there is none.
pub open spec fn native_attr(n: Natives, h: Heap, obj: Value, name: Seq<char>) -> Attr {
    if has_method(n.methods@, kind_name(h, obj), name) {
        Attr::Native(obj)
    } else {
        match cut_method(n.cut_methods@, kind_name(h, obj), name, 0) {
            Some(t) => Attr::Missing(t),
            None => Attr::Missing(no_attr_text(kind_name(h, obj), name)),
        }
    }
}

/// What `obj.name` finds. An instance's own field comes before a class member.
pub open spec fn attr_of(n: Natives, h: Heap, obj: Value, name: Seq<char>) -> Attr {
    match obj {
        Value::Instance(i) => match h.field(i, name) {
            Some(v) => Attr::Plain(v),
            None => match h.find_member(h.instance_class(i), name) {
                Some((member, defclass)) => member_attr(member, obj, defclass),
                None => if listed(n.casts@, name) {
                    Attr::Native(obj)
                } else {
                    Attr::Missing(no_attr_text(h.class_name(h.instance_class(i)), name))
                },
            },
        },
        Value::Class(c) => match h.find_member(c, name) {
            Some((member, _)) => Attr::Plain(member),
            None => Attr::Missing(no_member_text(h.class_name(c), name)),
        },
        Value::Type(t) => Attr::Missing(no_member_text(t.spec_name(), name)),
        Value::Module(m) => if m < h.modules@.len() {
            match h.modules@[m as int].members.spec_get(name) {
                Some(v) => Attr::Plain(v),
                None => Attr::Missing("module '"@ + h.modules@[m as int].name@ + "' has no attribute '"@ + name + "'"@),
            }
        } else {
            Attr::Missing(no_attr_text("module"@, name))
        },
        Value::Super(s) => {
            let found = if s < h.supers@.len() {
                match h.supers@[s as int].start {
                    Some(c) => h.find_member(c, name),
                    None => None,
                }
            } else {
                None
            };
            match found {
                Some((member, defclass)) => member_attr(member, h.supers@[s as int].instance, defclass),
                None => Attr::Missing("'super' object has no attribute '"@ + name + "'"@),
            }
        },
        Value::Stream(i) => match stream_addr(h, i, name) {
            Some(t) => Attr::Text(t),
            None => native_attr(n, h, obj, name),
        },
        Value::Task(_) => if name == "join"@ { Attr::Native(obj) } else { native_attr(n, h, obj, name) },
        Value::Channel(_) => if name == "send"@ || name == "recv"@ || name == "close"@ {
            Attr::Native(obj)
        } else {
            native_attr(n, h, obj, name)
        },
        _ => native_attr(n, h, obj, name),
    }
}

/// An attribute about to be read or called.
#[derive(Debug)]
pub enum Found {
    Plain(Value),
    Bound { recv: Value, func: usize, defclass: usize },
    Native(Value),
    Text(String),
    Missing(String),
}

impl Found {
    /// What was found.
    pub open spec fn is(&self, a: Attr) -> bool {
        match *self {
            Found::Plain(v) => a == Attr::Plain(v),
            Found::Bound { recv, func, defclass } => a == Attr::Bound { recv, func, defclass },
            Found::Native(v) => a == Attr::Native(v),
            Found::Text(s) => a == Attr::Text(s@),
            Found::Missing(s) => a == Attr::Missing(s@),
        }
    }
}

fn found_member(member: Value, recv: Value, defclass: usize) -> (r: Found)
    ensures r.is(member_attr(member, recv, defclass)),
{
    match member {
        Value::Func(func) => Found::Bound { recv, func, defclass },
        _ => Found::Plain(member),
    }
}

fn found_native(n: &Natives, h: &Heap, obj: Value, name: &str) -> (r: Found)
    ensures r.is(native_attr(*n, *h, obj, name@)),
{
    let kind = kind_name_of(h, obj);
    if n.method_exists(kind, name) {
        return Found::Native(obj);
    }
    match n.cut_method_message(kind, name) {
        Some(s) => Found::Missing(s),
        None => Found::Missing(join5("'", kind, "' object has no attribute '", name, "'")),
    }
}

/// What `obj.name` finds.
pub fn find_attr(n: &Natives, h: &Heap, obj: Value, name: &str) -> (r: Found)
    ensures r.is(attr_of(*n, *h, obj, name@)),
{
    match obj {
        Value::Instance(i) => match h.field_of(i, name) {
            Some(v) => Found::Plain(v),
            None => {
                let c = h.class_of(i);
                match h.find(c, name) {
                    Some((member, defclass)) => found_member(member, obj, defclass),
                    None => if is_listed(&n.casts, name) {
                        Found::Native(obj)
                    } else {
                        Found::Missing(join5("'", h.class_name_of(c), "' object has no attribute '", name, "'"))
                    },
                }
            }
        },
        Value::Class(c) => match h.find(c, name) {
            Some((member, _)) => Found::Plain(member),
            None => Found::Missing(join5("type object '", h.class_name_of(c), "' has no attribute '", name, "'")),
        },
        Value::Type(t) => Found::Missing(join5("type object '", t.name(), "' has no attribute '", name, "'")),
        Value::Module(m) => {
            if m < h.modules.len() {
                match h.modules[m].members.get(name) {
                    Some(v) => Found::Plain(v),
                    None => Found::Missing(join5("module '", h.modules[m].name.as_str(), "' has no attribute '", name, "'")),
                }
            } else {
                Found::Missing(join5("'", "module", "' object has no attribute '", name, "'"))
            }
        }
        Value::Super(s) => {
            if s < h.supers.len() {
                let sp = h.supers[s];
                if let Some(c) = sp.start {
                    if let Some((member, defclass)) = h.find(c, name) {
                        return found_member(member, sp.instance, defclass);
                    }
                }
            }
            Found::Missing(join3("'super' object has no attribute '", name, "'"))
        }
        Value::Stream(i) => {
            if i < h.streams.len() {
                if same_text(name, "peer") {
                    if let Some(s) = &h.streams[i].peer {
                        return Found::Text(s.clone());
                    }
                } else if same_text(name, "local") {
                    if let Some(s) = &h.streams[i].local {
                        return Found::Text(s.clone());
                    }
                }
            }
            found_native(n, h, obj, name)
        }
        Value::Task(_) => {
            if same_text(name, "join") {
                return Found::Native(obj);
            }
            found_native(n, h, obj, name)
        }
        Value::Channel(_) => {
            if same_text(name, "send") || same_text(name, "recv") || same_text(name, "close") {
                return Found::Native(obj);
            }
            found_native(n, h, obj, name)
        }
        _ => found_native(n, h, obj, name),
    }
}

/// Only bound methods and strings were added between `a` and `b`.
pub open spec fn methods_grew(a: Heap, b: Heap) -> bool {
    &&& b == (Heap { methods: b.methods, strs: b.strs, ..a })
    &&& a.methods@.is_prefix_of(b.methods@)
    &&& a.strs@.is_prefix_of(b.strs@)
}

/// `v` is the method `name` of the host's library on `recv`.
pub open spec fn is_native_method(h: Heap, v: Value, recv: Value, name: Seq<char>) -> bool {
    v matches Value::Method(m) && m < h.methods@.len() && h.methods@[m as int].receiver == recv
        && (h.methods@[m as int].kind matches MethodKind::Native(s) && s@ == name)
}

/// A method of the host's library, bound to `recv`.
pub fn native_method(h: &mut Heap, recv: Value, name: &str) -> (r: Value)
    ensures
        is_native_method(*final(h), r, recv, name@),
        methods_grew(*old(h), *final(h)),
        final(h).strs == old(h).strs,
{
    h.alloc_method(BoundMethod { receiver: recv, kind: MethodKind::Native(name.to_owned()) })
}

/// What reading an attribute comes to.
pub open spec fn attr_result(b: Heap, found: Attr, name: Seq<char>, r: Result<Value, VErr>) -> bool {
    match found {
        Attr::Plain(v) => r == Ok::<Value, VErr>(v),
        Attr::Bound { recv, func, defclass } => r matches Ok(Value::Method(m)) && m < b.methods@.len()
            && b.methods@[m as int].receiver == recv && b.methods@[m as int].kind == (MethodKind::User { func, defclass }),
        Attr::Native(recv) => r matches Ok(v) && is_native_method(b, v, recv, name),
        Attr::Text(t) => r matches Ok(Value::Str(s)) && s < b.strs@.len() && b.text(s) == t,
        Attr::Missing(t) => r matches Err(e) && e@ == (Exc::AttributeError, t),
    }
}

/// `obj.name` as a value.
pub fn get_attr(n: &Natives, h: &mut Heap, obj: Value, name: &str) -> (r: Result<Value, VErr>)
    ensures
        attr_result(*final(h), attr_of(*n, *old(h), obj, name@), name@, r),
        methods_grew(*old(h), *final(h)),
{
    match find_attr(n, h, obj, name) {
        Found::Plain(v) => Ok(v),
        Found::Bound { recv, func, defclass } => Ok(h.alloc_method(BoundMethod {
            receiver: recv,
            kind: MethodKind::User { func, defclass },
        })),
        Found::Native(recv) => Ok(native_method(h, recv, name)),
        Found::Text(s) => Ok(h.alloc_str(s)),
        Found::Missing(s) => Err(attribute_error(s)),
    }
}

/// An attribute that is about to be called: the parts of a bound method rather
/// than a bound method.
#[derive(Clone, Copy, Debug, PartialEq, Eq, Structural)]
pub enum MethodRef {
    User { recv: Value, func: usize, defclass: usize },
    Native(Value),
    Plain(Value),
}

/// What resolving a method comes to. It finds what reading the attribute finds.
pub open spec fn resolve_result(b: Heap, found: Attr, r: Result<MethodRef, VErr>) -> bool {
    match found {
        Attr::Plain(v) => r == Ok::<MethodRef, VErr>(MethodRef::Plain(v)),
        Attr::Bound { recv, func, defclass } => r == Ok::<MethodRef, VErr>(MethodRef::User { recv, func, defclass }),
        Attr::Native(recv) => r == Ok::<MethodRef, VErr>(MethodRef::Native(recv)),
        Attr::Text(t) => r matches Ok(MethodRef::Plain(Value::Str(s))) && s < b.strs@.len() && b.text(s) == t,
        Attr::Missing(t) => r matches Err(e) && e@ == (Exc::AttributeError, t),
    }
}

/// `obj.name`, about to be called.
pub fn resolve_method(n: &Natives, h: &mut Heap, obj: Value, name: &str) -> (r: Result<MethodRef, VErr>)
    ensures
        resolve_result(*final(h), attr_of(*n, *old(h), obj, name@), r),
        methods_grew(*old(h), *final(h)),
{
    match find_attr(n, h, obj, name) {
        Found::Plain(v) => Ok(MethodRef::Plain(v)),
        Found::Bound { recv, func, defclass } => Ok(MethodRef::User { recv, func, defclass }),
        Found::Native(recv) => Ok(MethodRef::Native(recv)),
        Found::Text(s) => Ok(MethodRef::Plain(h.alloc_str(s))),
        Found::Missing(s) => Err(attribute_error(s)),
    }
}

/// Calling and reading agree: where reading fails, so does calling, with the
/// same words, and a plain value is the same value.
pub proof fn calling_agrees_with_reading(h1: Heap, h2: Heap, found: Attr, name: Seq<char>, read: Result<Value, VErr>, called: Result<MethodRef, VErr>)
    requires
        attr_result(h1, found, name, read),
        resolve_result(h2, found, called),
    ensures
        read is Err <==> called is Err,
        read is Err ==> (called matches Err(e) && e@ == read->Err_0@),
        found is Plain ==> (called matches Ok(MethodRef::Plain(v)) && read == Ok::<Value, VErr>(v)),
        found is Bound ==> (called matches Ok(MethodRef::User { recv, func, defclass })
            && (read matches Ok(Value::Method(m)) && h1.methods@[m as int].receiver == recv
                && h1.methods@[m as int].kind == (MethodKind::User { func, defclass }))),
{
}

} // verus!
