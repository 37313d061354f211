//! The instructions that work on objects: elements, attributes, classes, text
//! and iteration.
use vstd::prelude::*;
use crate::attr::{attr_of, attr_result, methods_grew, resolve_result, MethodRef};
use crate::call::{fail, fault_step, user_result};
use crate::channel::iter_result;
use crate::code::{ClassSpec, Conv};
use crate::dispatch::popped_to;
use crate::exc::{runtime_error, type_error, Exc, VErr};
use crate::exceptions::{match_result, raise_result};
use crate::fields::Fields;
use crate::frame::{Frame, ReturnAction};
use crate::generate::{for_generator_result, loop_left};
use crate::index::{assign_result, slice_result, strs_grew, subscript_result};
use crate::iter::{drew, for_elem, is_elem, iter_start, iter_state, iter_step, iters_grew, flattened, no_iterator_text, size_changed, size_changed_text, unpacked};
use crate::keys::{dict_get, lookup_key, only_dict, unhashable, unhashable_text, with_key};
use crate::machine::{only_top, restacked, HostCall, Step, TextCont, Vm};
use crate::names::{kind_name, kind_name_of, type_label, type_label_of};
use crate::ops::{below, gives, refuses};
use crate::repr::{display, render_display};
use crate::text::{join3, join5};
use crate::texting::{container, is_container, stringify_begun};
use crate::value::{Class, Heap, SuperProxy, Value};
use crate::wake::faults;

verus! {

/// What appending the top value to the list below it does.
pub open spec fn append_result(a: Vm, b: Vm, r: Step) -> bool {
    match a.operand(1) {
        Value::List(l) => {
            &&& r is Next
            &&& restacked(a, b, below(a, 1))
            &&& crate::index::only_list(a.heap, b.heap, l)
            &&& l < a.heap.lists@.len() ==> b.heap.list(l) == a.heap.list(l).push(a.operand(0))
        },
        _ => refuses(a, b, 1, Exc::RuntimeError, "internal: ListAppend on non-list"@, r),
    }
}

/// What putting the top value under the key below it into the dict below both
/// does.
pub open spec fn map_set_result(a: Vm, b: Vm, r: Step) -> bool {
    match a.operand(2) {
        Value::Dict(d) => match unhashable(a.heap, a.operand(1)) {
            Some(p) => refuses(a, b, 2, Exc::TypeError, unhashable_text(a.heap, p), r),
            None => {
                &&& r is Next
                &&& restacked(a, b, below(a, 2))
                &&& only_dict(a.heap, b.heap, d)
                &&& d < a.heap.dicts@.len() ==> b.heap.dict(d) == with_key(a.heap, a.heap.dict(d), a.operand(1), a.operand(0))
            },
        },
        _ => refuses(a, b, 2, Exc::RuntimeError, "internal: MapSetItem on non-dict"@, r),
    }
}

/// What `obj[index]` does.
pub open spec fn load_subscript_result(a: Vm, b: Vm, r: Step) -> bool {
    exists|h: Heap, x: Result<Value, VErr>| #[trigger] subscript_result(a.heap, h, a.operand(1), a.operand(0), x) && strs_grew(a.heap, h)
        && gives(a, b, 2, h, x, r)
}

/// What `obj[index] = value` does.
pub open spec fn store_subscript_result(a: Vm, b: Vm, r: Step) -> bool {
    exists|x: Result<(), VErr>| {
        &&& #[trigger] assign_result(a.heap, b.heap, a.operand(1), a.operand(0), a.operand(2), x)
        &&& restacked(a, b, below(a, 3))
        &&& match x {
            Ok(_) => r is Next,
            Err(e) => faults(r, e@.0, e@.1),
        }
    }
}

/// What `obj[lower:upper:step]` does.
pub open spec fn load_slice_result(a: Vm, b: Vm, r: Step) -> bool {
    exists|h: Heap, x: Result<Value, VErr>| #[trigger] slice_result(a.heap, h, a.operand(3), a.operand(2), a.operand(1), a.operand(0), x)
        && crate::arith::sequences_grew(a.heap, h) && gives(a, b, 4, h, x, r)
}

/// What `obj.name` does.
pub open spec fn load_attr_result(a: Vm, b: Vm, name: Seq<char>, r: Step) -> bool {
    exists|h: Heap, x: Result<Value, VErr>| #[trigger] attr_result(h, attr_of(a.natives, a.heap, a.operand(0), name), name, x)
        && methods_grew(a.heap, h) && gives(a, b, 1, h, x, r)
}

/// What `obj.name = value` does: only an object of a class has fields to set.
pub open spec fn store_attr_result(a: Vm, b: Vm, name: Seq<char>, r: Step) -> bool {
    match a.operand(0) {
        Value::Instance(i) => {
            &&& r is Next
            &&& restacked(a, b, below(a, 2))
            &&& field_stored(a.heap, b.heap, i, name, a.operand(1))
        },
        v => refuses(a, b, 2, Exc::RuntimeError, "cannot set attribute '"@ + name + "' on '"@ + type_label(a.heap, v) + "' object"@, r),
    }
}

/// The field `name` of instance `i` is `v`, and no other field of any changed.
pub open spec fn field_stored(a: Heap, b: Heap, i: usize, name: Seq<char>, v: Value) -> bool {
    &&& b == (Heap { instances: b.instances, ..a })
    &&& b.instances@.len() == a.instances@.len()
    &&& forall|k: int| 0 <= k < a.instances@.len() && k != i ==> b.instances@[k] == a.instances@[k]
    &&& i < a.instances@.len() ==> b.instances@[i as int].class == a.instances@[i as int].class
        && b.instances@[i as int].fields@ == a.instances@[i as int].fields@.insert(name, v)
}

/// The first `n` members of a class, with their values.
pub open spec fn members_of(names: Seq<String>, vals: Seq<Value>, n: int) -> Map<Seq<char>, Value>
    decreases n,
{
    if n <= 0 { Map::empty() } else { members_of(names, vals, n - 1).insert(names[n - 1]@, vals[n - 1]) }
}

/// How many operands a class statement takes.
pub open spec fn class_operands(spec: ClassSpec) -> nat {
    spec.members@.len() + (if spec.has_base { 1nat } else { 0nat })
}

/// What a class statement does: the members lie above the base. The class of an
/// exception makes exceptions.
pub open spec fn class_result(a: Vm, b: Vm, spec: ClassSpec, r: Step) -> bool {
    let n = spec.members@.len() as int;
    let k = class_operands(spec) as int;
    let base = a.operand(n);
    if spec.has_base && !(base is Class) {
        refuses(a, b, k, Exc::TypeError, "base of class '"@ + spec.name@ + "' must be a class, not '"@ + type_label(a.heap, base) + "'"@, r)
    } else {
        let id = a.heap.classes.len();
        let c = b.heap.classes@.last();
        &&& r is Next
        &&& restacked(a, b, below(a, k).push(Value::Class(id)))
        &&& b.heap == (Heap { classes: b.heap.classes, ..a.heap })
        &&& b.heap.classes@ == a.heap.classes@.push(c)
        &&& c.name@ == spec.name@
        &&& c.base == (if spec.has_base { Some(base->Class_0) } else { None })
        &&& c.is_exception == (spec.has_base && a.heap.is_exception_class(base->Class_0))
        &&& c.members@ == members_of(spec.members@, a.stack().skip(a.stack().len() - n), n)
    }
}

/// What `super()` does.
pub open spec fn super_result(a: Vm, b: Vm, r: Step) -> bool {
    match a.top().super_ctx {
        None => faults(r, Exc::RuntimeError, "super() is only valid inside a method"@) && b == a,
        Some((c, v)) => {
            let id = a.heap.supers.len();
            &&& r is Next
            &&& restacked(a, b, a.stack().push(Value::Super(id)))
            &&& b.heap == (Heap { supers: b.heap.supers, ..a.heap })
            &&& b.heap.supers@ == a.heap.supers@.push(SuperProxy { start: a.heap.class_base(c), instance: v })
        },
    }
}

/// What unpacking does: the first value ends on top.
pub open spec fn unpack_result(a: Vm, b: Vm, n: usize, r: Step) -> bool {
    exists|x: Result<Vec<Value>, VErr>| {
        &&& #[trigger] unpacked(a.heap, b.heap, a.operand(0), n, x)
        &&& match x {
            Ok(items) => r is Next && restacked(a, b, below(a, 1) + items@.reverse()),
            Err(e) => faults(r, e@.0, e@.1) && restacked(a, b, below(a, 1)),
        }
    }
}

/// What formatting the value below a format spec does.
pub open spec fn format_result(a: Vm, b: Vm, conv: Conv, r: Step) -> bool {
    let v = a.operand(1);
    let first = if conv == Conv::Repr { "__repr__"@ } else { "__str__"@ };
    let second = if conv == Conv::Repr { "__str__"@ } else { "__repr__"@ };
    match a.operand(0) {
        Value::Str(s) => exists|m: Vm| #[trigger] popped_to(a, m, a.stack().len() - 2) && {
            if a.heap.method_of(v, first) is Some {
                user_result(m, b, (a.heap.method_of(v, first)->0).0, v, (a.heap.method_of(v, first)->0).1, Seq::empty(), Seq::empty(),
                    ReturnAction::FormatSpec(s), r)
            } else if a.heap.method_of(v, second) is Some {
                user_result(m, b, (a.heap.method_of(v, second)->0).0, v, (a.heap.method_of(v, second)->0).1, Seq::empty(), Seq::empty(),
                    ReturnAction::FormatSpec(s), r)
            } else if is_container(v) {
                stringify_begun(m, b, v, TextCont::FormatSpec(s), r)
            } else {
                b == m && (r matches Step::Host(x) && (*x).1 == ReturnAction::Normal
                    && ((*x).0 matches HostCall::Format(w, c, t) && w == v && c == conv && t@ == a.heap.text(s)))
            }
        },
        w => refuses(a, b, 2, Exc::TypeError, "format spec must be a string, not '"@ + kind_name(a.heap, w) + "'"@, r),
    }
}

/// The texts of the first `n` of these, in a row.
pub open spec fn shown(h: Heap, vs: Seq<Value>, n: int) -> Seq<char>
    decreases n,
{
    if n <= 0 { Seq::empty() } else { shown(h, vs, n - 1) + display(h, vs[n - 1]) }
}

/// What joining the parts of a text does.
pub open spec fn build_string_result(a: Vm, b: Vm, n: int, r: Step) -> bool {
    &&& r is Next
    &&& restacked(a, b, below(a, n).push(Value::Str(a.heap.strs.len())))
    &&& b.heap == (Heap { strs: b.heap.strs, ..a.heap })
    &&& a.heap.strs@.is_prefix_of(b.heap.strs@)
    &&& b.heap.strs@.len() == a.heap.strs@.len() + 1
    &&& b.heap.text(a.heap.strs.len()) == shown(a.heap, a.stack().skip(a.stack().len() - n), n)
}

/// Where a `match` on literals goes.
pub open spec fn match_target(h: Heap, table: usize, v: Value, other: u32) -> usize {
    if unhashable(h, v) is Some {
        other as usize
    } else {
        match lookup_key(h, h.dict(table), v) {
            Some(Value::Int(t)) => if 0 <= t <= usize::MAX { t as usize } else { other as usize },
            _ => other as usize,
        }
    }
}

/// Control is at `target`, and `n` operands are off the stack.
pub open spec fn went(a: Vm, b: Vm, n: int, target: usize, r: Step) -> bool {
    &&& r is Next
    &&& only_top(a, b)
    &&& b.heap == a.heap
    &&& b.top() == (Frame { pc: target, stack: b.top().stack, ..a.top() })
    &&& b.stack() == below(a, n)
}

/// What `iter(v)` does.
pub open spec fn get_iter_result(a: Vm, b: Vm, r: Step) -> bool {
    let v = a.operand(0);
    if v is Generator || v is Channel || v is Iter {
        gives(a, b, 1, a.heap, Ok(v), r)
    } else {
        match iter_start(a.heap, v) {
            Some(st) => {
                &&& r is Next
                &&& restacked(a, b, below(a, 1).push(Value::Iter(a.heap.iters.len())))
                &&& iters_grew(a.heap, b.heap)
                &&& b.heap.iters@ == a.heap.iters@.push(st)
                &&& v matches Value::Dict(d) ==> b.heap.tuples@.len() == a.heap.tuples@.len() + 1
                    && b.heap.tuple(a.heap.tuples.len()) == flattened(a.heap.dict(d))
                &&& !(v is Dict) ==> b.heap.tuples@ == a.heap.tuples@
            },
            None => refuses(a, b, 1, Exc::TypeError, "'"@ + kind_name(a.heap, v) + "' object is not iterable"@, r),
        }
    }
}

/// What one turn of a `for` does with the iterator on the stack.
pub open spec fn for_result(a: Vm, b: Vm, target: usize, paired: bool, r: Step) -> bool {
    match a.operand(0) {
        Value::Channel(ch) => iter_result(a, b, ch, target, paired, r),
        Value::Generator(g) => for_generator_result(a, b, g, target, paired, r),
        Value::Iter(i) => if size_changed(a.heap, iter_state(a.heap, i)) {
            faults(r, Exc::RuntimeError, size_changed_text()) && b == a
        } else {
            match iter_step(a.heap, iter_state(a.heap, i)) {
                None => r is Next && loop_left(a, b, target),
                Some((n, e, to)) => {
                    &&& r is Next
                    &&& restacked(a, b, a.stack().push(b.stack().last()))
                    &&& drew(a.heap, b.heap, i, to)
                    &&& if paired {
                        b.stack().last() matches Value::Tuple(t) && t < b.heap.tuples@.len() && b.heap.tuple(t).len() == 2
                            && b.heap.tuple(t)[0] == n && is_elem(b.heap, for_elem(e), b.heap.tuple(t)[1])
                    } else {
                        is_elem(b.heap, e, b.stack().last())
                    }
                },
            }
        },
        _ => faults(r, Exc::RuntimeError, no_iterator_text()) && b == a,
    }
}

/// What finding a method does: the three values a call of it needs are on the
/// stack.
pub open spec fn load_method_result(a: Vm, b: Vm, name: Seq<char>, r: Step) -> bool {
    exists|h: Heap, x: Result<MethodRef, VErr>| {
        &&& #[trigger] resolve_result(h, attr_of(a.natives, a.heap, a.operand(0), name), x)
        &&& methods_grew(a.heap, h)
        &&& b.heap == h
        &&& match x {
            Err(e) => faults(r, e@.0, e@.1) && restacked(a, b, below(a, 1)),
            Ok(MethodRef::User { recv, func, defclass }) => r is Next
                && restacked(a, b, below(a, 1) + seq![Value::Class(defclass), Value::Func(func), recv]),
            Ok(MethodRef::Native(recv)) => r is Next && restacked(a, b, below(a, 1) + seq![Value::Unbound, Value::Null, recv]),
            Ok(MethodRef::Plain(v)) => r is Next && restacked(a, b, below(a, 1) + seq![Value::Null, Value::Null, v]),
        }
    }
}

/// What `raise v` does.
pub open spec fn do_raise_result(a: Vm, b: Vm, r: Step) -> bool {
    exists|x: Result<Value, VErr>| {
        &&& #[trigger] raise_result(a.heap, a.operand(0), x)
        &&& restacked(a, b, below(a, 1))
        &&& b.heap == a.heap
        &&& match x {
            Ok(exc) => r == Step::Raise(exc),
            Err(e) => faults(r, e@.0, e@.1),
        }
    }
}

/// What asking whether an exception is of a class does.
pub open spec fn exc_match_result(a: Vm, b: Vm, r: Step) -> bool {
    exists|x: Result<bool, VErr>| {
        &&& #[trigger] match_result(a.heap, a.operand(1), a.operand(0), x)
        &&& b.heap == a.heap
        &&& match x {
            Ok(v) => r is Next && restacked(a, b, below(a, 2).push(Value::Bool(v))),
            Err(e) => faults(r, e@.0, e@.1) && restacked(a, b, below(a, 2)),
        }
    }
}

impl Vm {
    /// `ListAppend`.
    pub fn list_append(&mut self) -> (r: Step)
        requires old(self).has(2),
        ensures append_result(*old(self), *final(self), r),
    {
        let ghost a = *self;
        let v = self.pop();
        assert(self.stack() =~= below(a, 1));
        match self.peek(0) {
            Value::List(l) => {
                self.heap.list_push(l, v);
                Step::Next
            }
            _ => fault_step(Exc::RuntimeError, "internal: ListAppend on non-list"),
        }
    }

    /// `MapSetItem`.
    pub fn map_set_item(&mut self) -> (r: Step)
        requires old(self).has(3),
        ensures map_set_result(*old(self), *final(self), r),
    {
        let ghost a = *self;
        let v = self.pop();
        let k = self.pop();
        assert(self.stack() =~= below(a, 2));
        match self.peek(0) {
            Value::Dict(d) => match crate::keys::dict_insert(&mut self.heap, d, k, v) {
                Ok(_) => Step::Next,
                Err(e) => fail(e),
            },
            _ => fault_step(Exc::RuntimeError, "internal: MapSetItem on non-dict"),
        }
    }

    /// `LoadSubscript`.
    pub fn load_subscript(&mut self) -> (r: Step)
        requires old(self).has(2),
        ensures load_subscript_result(*old(self), *final(self), r),
    {
        let ghost a = *self;
        let index = self.pop();
        let obj = self.pop();
        assert(self.stack() =~= below(a, 2));
        let x = crate::index::subscript_get(&mut self.heap, obj, index);
        let ghost h = self.heap;
        let ghost xv = x;
        assert(subscript_result(a.heap, h, a.operand(1), a.operand(0), xv));
        self.settle(x)
    }

    /// `StoreSubscript`.
    pub fn store_subscript(&mut self) -> (r: Step)
        requires old(self).has(3),
        ensures store_subscript_result(*old(self), *final(self), r),
    {
        let ghost a = *self;
        let index = self.pop();
        let obj = self.pop();
        let value = self.pop();
        assert(self.stack() =~= below(a, 3));
        let x = crate::index::subscript_set(&mut self.heap, obj, index, value);
        let ghost xv = x;
        assert(assign_result(a.heap, self.heap, a.operand(1), a.operand(0), a.operand(2), xv));
        match x {
            Ok(_) => Step::Next,
            Err(e) => fail(e),
        }
    }

    /// `LoadSlice`.
    pub fn load_slice(&mut self) -> (r: Step)
        requires old(self).has(4),
        ensures load_slice_result(*old(self), *final(self), r),
    {
        let ghost a = *self;
        let step = self.pop();
        let upper = self.pop();
        let lower = self.pop();
        let obj = self.pop();
        assert(self.stack() =~= below(a, 4));
        let x = crate::index::slice_get(&mut self.heap, obj, lower, upper, step);
        let ghost h = self.heap;
        let ghost xv = x;
        assert(slice_result(a.heap, h, a.operand(3), a.operand(2), a.operand(1), a.operand(0), xv));
        self.settle(x)
    }

    /// `LoadAttr`.
    pub fn load_attr(&mut self, name: &str) -> (r: Step)
        requires old(self).has(1),
        ensures load_attr_result(*old(self), *final(self), name@, r),
    {
        let ghost a = *self;
        let obj = self.pop();
        assert(self.stack() =~= below(a, 1));
        let x = crate::attr::get_attr(&self.natives, &mut self.heap, obj, name);
        let ghost h = self.heap;
        let ghost xv = x;
        assert(attr_result(h, attr_of(a.natives, a.heap, a.operand(0), name@), name@, xv));
        self.settle(x)
    }

    /// `StoreAttr`.
    pub fn store_attr(&mut self, name: &str) -> (r: Step)
        requires old(self).has(2),
        ensures store_attr_result(*old(self), *final(self), name@, r),
    {
        let ghost a = *self;
        let obj = self.pop();
        let value = self.pop();
        assert(self.stack() =~= below(a, 2));
        match obj {
            Value::Instance(i) => {
                self.heap.field_set(i, name.to_owned(), value);
                Step::Next
            }
            _ => fail(runtime_error(join5("cannot set attribute '", name, "' on '", type_label_of(&self.heap, obj), "' object"))),
        }
    }

    /// `BuildClass`.
    pub fn build_class(&mut self, spec: &ClassSpec) -> (r: Step)
        requires old(self).has(class_operands(*spec)),
        ensures class_result(*old(self), *final(self), *spec, r),
    {
        let ghost a = *self;
        let n = spec.members.len();
        let vals = self.popn(n);
        let base = if spec.has_base {
            let v = self.pop();
            assert(self.stack() =~= below(a, class_operands(*spec) as int));
            match v {
                Value::Class(c) => Some(c),
                _ => {
                    return fail(type_error(join5("base of class '", spec.name.as_str(), "' must be a class, not '",
                        type_label_of(&self.heap, v), "'")));
                }
            }
        } else {
            None
        };
        assert(self.stack() =~= below(a, class_operands(*spec) as int));
        let ghost m = *self;
        let mut members = Fields::new();
        let mut i: usize = 0;
        while i < n
            invariant
                i <= n,
                n == spec.members@.len(),
                vals@.len() == n,
                *self == m,
                members@ == members_of(spec.members@, vals@, i as int),
            decreases n - i,
        {
            members.insert(spec.members[i].clone(), vals[i]);
            i += 1;
        }
        let is_exception = match base {
            Some(c) => self.heap.exception_class(c),
            None => false,
        };
        let c = self.heap.alloc_class(Class { name: spec.name.clone(), base, members, is_exception });
        self.push(c);
        Step::Next
    }

    /// `LoadSuper`.
    pub fn load_super(&mut self) -> (r: Step)
        requires old(self).running(),
        ensures super_result(*old(self), *final(self), r),
    {
        let n = self.task.frames.len();
        match self.task.frames[n - 1].super_ctx {
            None => fault_step(Exc::RuntimeError, "super() is only valid inside a method"),
            Some((c, instance)) => {
                let start = self.heap.base_of(c);
                let v = self.heap.alloc_super(SuperProxy { start, instance });
                self.push(v);
                Step::Next
            }
        }
    }

    /// `UnpackSequence`.
    pub fn unpack_sequence(&mut self, n: usize) -> (r: Step)
        requires old(self).has(1),
        ensures unpack_result(*old(self), *final(self), n, r),
    {
        let ghost a = *self;
        let seq = self.pop();
        assert(self.stack() =~= below(a, 1));
        let x = crate::iter::unpack_exact(&mut self.heap, seq, n);
        let ghost xv = x;
        let ghost m = *self;
        assert(unpacked(a.heap, m.heap, a.operand(0), n, xv));
        match x {
            Err(e) => fail(e),
            Ok(items) => {
                let mut i = items.len();
                assert(items@.reverse().take(0) =~= Seq::empty());
                assert(self.stack() =~= below(a, 1) + items@.reverse().take(0));
                while i > 0
                    invariant
                        i <= items@.len(),
                        restacked(a, *self, below(a, 1) + items@.reverse().take(items@.len() - i)),
                        self.heap == m.heap,
                    decreases i,
                {
                    let ghost s = self.stack();
                    self.push(items[i - 1]);
                    proof {
                        let k: int = items@.len() - i;
                        assert(items@.reverse()[k] == items@[i - 1]);
                        assert(items@.reverse().take(k + 1) =~= items@.reverse().take(k).push(items@[i - 1]));
                        assert(s.push(items@[i - 1]) =~= below(a, 1) + items@.reverse().take(k + 1));
                    }
                    i -= 1;
                }
                assert(items@.reverse().take(items@.len() as int) =~= items@.reverse());
                Step::Next
            }
        }
    }

    /// `FormatValue`.
    pub fn format_value(&mut self, conv: Conv) -> (r: Step)
        requires old(self).has(2),
        ensures format_result(*old(self), *final(self), conv, r),
    {
        let ghost a = *self;
        let spec = self.pop();
        let v = self.pop();
        let ghost m = *self;
        proof {
            assert(m.stack() =~= a.stack().take(a.stack().len() - 2));
            assert(popped_to(a, m, a.stack().len() - 2));
        }
        let s = match spec {
            Value::Str(s) => s,
            _ => {
                return fail(type_error(join3("format spec must be a string, not '", kind_name_of(&self.heap, spec), "'")));
            }
        };
        let want_repr = conv == Conv::Repr;
        let first = if want_repr { "__repr__" } else { "__str__" };
        let second = if want_repr { "__str__" } else { "__repr__" };
        if let Some((f, c)) = self.heap.instance_method(v, first) {
            let none: Vec<Value> = Vec::new();
            let kw: Vec<crate::machine::Keyword> = Vec::new();
            assert(none@ =~= Seq::empty() && kw@ =~= Seq::empty());
            return self.invoke_user(f, v, c, none, kw, ReturnAction::FormatSpec(s));
        }
        if let Some((f, c)) = self.heap.instance_method(v, second) {
            let none: Vec<Value> = Vec::new();
            let kw: Vec<crate::machine::Keyword> = Vec::new();
            assert(none@ =~= Seq::empty() && kw@ =~= Seq::empty());
            return self.invoke_user(f, v, c, none, kw, ReturnAction::FormatSpec(s));
        }
        if container(v) {
            return self.begin_stringify(v, TextCont::FormatSpec(s));
        }
        let text = self.heap.text_of(s).to_owned();
        Step::Host(Box::new((HostCall::Format(v, conv, text), ReturnAction::Normal)))
    }

    /// `BuildString`.
    pub fn build_string(&mut self, n: usize) -> (r: Step)
        requires old(self).has(n as nat),
        ensures build_string_result(*old(self), *final(self), n as int, r),
    {
        let ghost a = *self;
        let parts = self.popn(n);
        let ghost m = *self;
        let mut out = "".to_owned();
        let mut i: usize = 0;
        proof {
            reveal_strlit("");
            assert(out@ =~= shown(m.heap, parts@, 0));
        }
        while i < n
            invariant
                i <= n,
                n == parts@.len(),
                *self == m,
                out@ == shown(m.heap, parts@, i as int),
            decreases n - i,
        {
            let s = render_display(&self.heap, parts[i]);
            out.append(s.as_str());
            i += 1;
        }
        let v = self.heap.alloc_str(out);
        self.push(v);
        Step::Next
    }

    /// `MatchDispatch` over the dict `table`.
    pub fn match_dispatch(&mut self, table: usize, other: u32) -> (r: Step)
        requires old(self).has(1),
        ensures went(*old(self), *final(self), 1, match_target(old(self).heap, table, old(self).operand(0), other), r),
    {
        let ghost a = *self;
        let v = self.pop();
        assert(self.stack() =~= below(a, 1));
        let target = match dict_get(&self.heap, table, v) {
            Ok(Some(Value::Int(t))) => if t >= 0 && t as u64 <= usize::MAX as u64 { t as usize } else { other as usize },
            _ => other as usize,
        };
        self.jump(target);
        Step::Next
    }

    /// `GetIter`.
    pub fn make_iter(&mut self) -> (r: Step)
        requires old(self).has(1),
        ensures get_iter_result(*old(self), *final(self), r),
    {
        let ghost a = *self;
        let v = self.pop();
        assert(self.stack() =~= below(a, 1));
        let x = crate::iter::get_iter(&mut self.heap, v);
        self.settle(x)
    }

    /// One turn of a `for`.
    pub fn for_next(&mut self, target: usize, paired: bool) -> (r: Step)
        requires old(self).has(1),
        ensures for_result(*old(self), *final(self), target, paired, r),
    {
        let ghost a = *self;
        let it = self.peek(0);
        match it {
            Value::Channel(ch) => self.chan_iter_next(ch, target, paired),
            Value::Generator(g) => self.for_generator(g, target, paired),
            _ => {
                if paired {
                    match crate::iter::iter_next_pair(&mut self.heap, it) {
                        Err(e) => fail(e),
                        Ok(None) => {
                            self.leave_loop(target);
                            Step::Next
                        }
                        Ok(Some((i, v))) => {
                            let ghost h1 = self.heap;
                            let mut pair: Vec<Value> = Vec::new();
                            pair.push(i);
                            pair.push(v);
                            let t = self.heap.alloc_tuple(pair);
                            self.push(t);
                            Step::Next
                        }
                    }
                } else {
                    match crate::iter::iter_next(&mut self.heap, it) {
                        Err(e) => fail(e),
                        Ok(None) => {
                            self.leave_loop(target);
                            Step::Next
                        }
                        Ok(Some(v)) => {
                            self.push(v);
                            Step::Next
                        }
                    }
                }
            }
        }
    }

    /// `LoadMethod`.
    pub fn load_method(&mut self, name: &str) -> (r: Step)
        requires old(self).has(1),
        ensures load_method_result(*old(self), *final(self), name@, r),
    {
        let ghost a = *self;
        let obj = self.pop();
        assert(self.stack() =~= below(a, 1));
        let x = crate::attr::resolve_method(&self.natives, &mut self.heap, obj, name);
        let ghost h = self.heap;
        let ghost xv = x;
        assert(resolve_result(h, attr_of(a.natives, a.heap, a.operand(0), name@), xv));
        let (tag, aux, target) = match x {
            Err(e) => {
                return fail(e);
            }
            Ok(MethodRef::User { recv, func, defclass }) => (Value::Class(defclass), Value::Func(func), recv),
            Ok(MethodRef::Native(recv)) => (Value::Unbound, Value::Null, recv),
            Ok(MethodRef::Plain(v)) => (Value::Null, Value::Null, v),
        };
        self.push(tag);
        self.push(aux);
        self.push(target);
        assert(self.stack() =~= below(a, 1) + seq![tag, aux, target]);
        Step::Next
    }

    /// `Raise`.
    pub fn do_raise(&mut self) -> (r: Step)
        requires old(self).has(1),
        ensures do_raise_result(*old(self), *final(self), r),
    {
        let ghost a = *self;
        let v = self.pop();
        assert(self.stack() =~= below(a, 1));
        let x = crate::exceptions::normalize_raise(&self.heap, v);
        let ghost xv = x;
        assert(raise_result(a.heap, a.operand(0), xv));
        match x {
            Ok(exc) => Step::Raise(exc),
            Err(e) => fail(e),
        }
    }

    /// `ExcMatch`.
    pub fn exc_match(&mut self) -> (r: Step)
        requires old(self).has(2),
        ensures exc_match_result(*old(self), *final(self), r),
    {
        let ghost a = *self;
        let class = self.pop();
        let exc = self.pop();
        assert(self.stack() =~= below(a, 2));
        let x = crate::exceptions::exc_matches(&self.heap, exc, class);
        let ghost xv = x;
        assert(match_result(a.heap, a.operand(1), a.operand(0), xv));
        match x {
            Ok(v) => {
                self.push(Value::Bool(v));
                Step::Next
            }
            Err(e) => fail(e),
        }
    }
}

} // verus!
