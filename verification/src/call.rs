//! Calling functions, methods and classes.
use vstd::prelude::*;
use crate::bind::bind_result;
use crate::code::CaptureSource;
use crate::exc::{fault, type_error, Exc, VErr};
use crate::exceptions::{exception_fields, exceptions_grew, make_exception_instance};
use crate::fields::Fields;
use crate::frame::{Frame, ReturnAction};
use crate::machine::{restacked, Keyword, Step, Task, Vm, MAX_FRAMES};
use crate::names::{type_label, type_label_of};
use crate::repr::{display, render, render_display, repr};
use crate::text::{join2, join3};
use crate::value::{Function, GenBox, Heap, Instance, Value};
use crate::wake::faults;

verus! {

/// The message for a stack that is too deep.
pub open spec fn too_deep_text() -> Seq<char> {
    "maximum recursion depth exceeded"@
}

/// A fault with a fixed message.
pub fn fault_step(class: Exc, message: &str) -> (r: Step)
    ensures faults(r, class, message@),
{
    Step::Fault(Box::new(fault(class, message)))
}

/// A fault.
pub fn fail(e: VErr) -> (r: Step)
    ensures r matches Step::Fault(x) && *x == e, faults(r, e@.0, e@.1),
{
    Step::Fault(Box::new(e))
}

/// Whether function `func` makes a generator when it is called.
pub open spec fn makes_generator(h: Heap, func: usize) -> bool {
    func < h.funcs@.len() && h.funcs@[func as int].code.is_generator
}

/// The name of function `func`.
pub open spec fn func_name(h: Heap, func: usize) -> Seq<char> {
    if func < h.funcs@.len() { h.funcs@[func as int].code.name@ } else { "function"@ }
}

/// The frame `f` was entered between `a` and `b`, with these in it.
pub open spec fn entered(a: Vm, b: Vm, f: Frame, action: ReturnAction, ctx: Option<(usize, Value)>) -> bool {
    &&& b == (Vm { task: Task { frames: b.task.frames, ..a.task }, ..a })
    &&& b.task.frames@ == a.task.frames@.push(Frame { ret_action: action, super_ctx: ctx, ..f })
}

/// What entering a function does: a frame with its arguments bound, or the
/// reason why not.
pub open spec fn enter_result(a: Vm, b: Vm, func: usize, receiver: Option<Value>, ctx: Option<(usize, Value)>,
    args: Seq<Value>, kwargs: Seq<Keyword>, action: ReturnAction, r: Step) -> bool {
    exists|m: Vm, bound: Result<Frame, VErr>| {
        &&& #[trigger] bind_result(a, m, func, receiver, args, kwargs, bound)
        &&& match bound {
            Err(e) => faults(r, e@.0, e@.1) && b == a,
            Ok(f) => r is Next && entered(m, b, f, action, ctx),
        }
    }
}

/// What calling a method, a comparison method or a callback does.
pub open spec fn user_result(a: Vm, b: Vm, func: usize, recv: Value, defclass: usize, args: Seq<Value>,
    kwargs: Seq<Keyword>, action: ReturnAction, r: Step) -> bool {
    if a.task.frames@.len() >= MAX_FRAMES {
        faults(r, Exc::RecursionError, too_deep_text()) && b == a
    } else if makes_generator(a.heap, func) {
        faults(r, Exc::TypeError, func_name(a.heap, func) + "() has a `yield` in it, and Oro does not carry generators through dunders and callbacks — move it to a module-level def"@)
            && b == a
    } else {
        enter_result(a, b, func, Some(recv), Some((defclass, recv)), args, kwargs, action, r)
    }
}

/// What calling a generator function does: a generator that has not begun, on
/// the stack.
pub open spec fn generator_result(a: Vm, b: Vm, func: usize, receiver: Option<Value>, ctx: Option<(usize, Value)>,
    args: Seq<Value>, kwargs: Seq<Keyword>, r: Step) -> bool {
    if a.task.frames@.len() >= MAX_FRAMES {
        faults(r, Exc::RecursionError, too_deep_text()) && b == a
    } else {
        exists|m: Vm, bound: Result<Frame, VErr>| {
            &&& #[trigger] bind_result(a, m, func, receiver, args, kwargs, bound)
            &&& match bound {
                Err(e) => faults(r, e@.0, e@.1) && b == a,
                Ok(f) => {
                    &&& r is Next
                    &&& restacked(m, b, a.stack().push(Value::Generator(a.heap.gens.len())))
                    &&& b.heap == (Heap { gens: b.heap.gens, ..m.heap })
                    &&& b.heap.gens@ == a.heap.gens@.push(GenBox {
                        done: false,
                        for_index: 0,
                        frame: Some(Frame { super_ctx: ctx, ..f }),
                    })
                },
            }
        }
    }
}

/// The cells a closure captures from the frame that makes it.
pub open spec fn captured(f: Frame, caps: Seq<CaptureSource>) -> Seq<usize> {
    Seq::new(caps.len(), |i: int| match caps[i] {
        CaptureSource::Cell(k) => if k < f.cells@.len() { f.cells@[k as int] } else { usize::MAX },
        CaptureSource::Free(k) => if k < f.free@.len() { f.free@[k as int] } else { usize::MAX },
    })
}

impl Vm {
    /// Whether function `func` makes a generator when it is called.
    pub fn is_generator(&self, func: usize) -> (r: bool)
        ensures r == makes_generator(self.heap, func),
    {
        func < self.heap.funcs.len() && self.heap.funcs[func].code.is_generator
    }

    /// The name of function `func`.
    pub fn func_name_of(&self, func: usize) -> (r: String)
        ensures r@ == func_name(self.heap, func),
    {
        if func < self.heap.funcs.len() { self.heap.funcs[func].code.name.clone() } else { "function".to_owned() }
    }

    /// Close function `idx` of the running code over the running frame.
    pub fn make_function(&mut self, idx: usize)
        requires
            old(self).running(),
            idx < old(self).top().code.protos@.len(),
        ensures
            restacked(*old(self), *final(self), old(self).stack().push(Value::Func(old(self).heap.funcs.len()))),
            final(self).heap == (Heap { funcs: final(self).heap.funcs, ..old(self).heap }),
            final(self).heap.funcs@.len() == old(self).heap.funcs@.len() + 1,
            final(self).heap.funcs@.drop_last() == old(self).heap.funcs@,
            final(self).heap.funcs@.last().code == old(self).top().code.protos@[idx as int].code,
            final(self).heap.funcs@.last().freevars@ == captured(old(self).top(), old(self).top().code.protos@[idx as int].captures@),
    {
        let code = self.code();
        let n = self.task.frames.len();
        let mut freevars: Vec<usize> = Vec::new();
        let count = code.protos[idx].captures.len();
        let ghost caps = self.top().code.protos@[idx as int].captures@;
        let mut i: usize = 0;
        while i < count
            invariant
                i <= count,
                count == caps.len(),
                code == self.top().code,
                idx < code.protos@.len(),
                caps == code.protos@[idx as int].captures@,
                n == self.task.frames@.len(),
                n > 0,
                *self == *old(self),
                freevars@ =~= captured(self.top(), caps).take(i as int),
            decreases count - i,
        {
            let c = match code.protos[idx].captures[i] {
                CaptureSource::Cell(k) => if (k as usize) < self.task.frames[n - 1].cells.len() {
                    self.task.frames[n - 1].cells[k as usize]
                } else {
                    usize::MAX
                },
                CaptureSource::Free(k) => if (k as usize) < self.task.frames[n - 1].free.len() {
                    self.task.frames[n - 1].free[k as usize]
                } else {
                    usize::MAX
                },
            };
            freevars.push(c);
            i += 1;
        }
        assert(freevars@ =~= captured(self.top(), caps));
        let body = code.protos[idx].code.clone();
        let f = self.heap.alloc_func(Function { code: body, freevars });
        self.push(f);
        assert(self.heap.funcs@.drop_last() =~= old(self).heap.funcs@);
    }

    /// Enter a frame of `func` with its arguments bound.
    fn enter(&mut self, func: usize, receiver: Option<Value>, ctx: Option<(usize, Value)>, args: Vec<Value>, kwargs: Vec<Keyword>, action: ReturnAction) -> (r: Step)
        ensures enter_result(*old(self), *final(self), func, receiver, ctx, args@, kwargs@, action, r),
    {
        let ghost a = *self;
        let ghost av = args@;
        let ghost kv = kwargs@;
        let bound = self.bind_call(func, receiver, args, kwargs);
        let ghost m = *self;
        let ghost br = bound;
        assert(bind_result(a, m, func, receiver, av, kv, br));
        match bound {
            Err(e) => fail(e),
            Ok(f) => {
                let mut f = f;
                f.ret_action = action;
                f.super_ctx = ctx;
                self.task.frames.push(f);
                Step::Next
            }
        }
    }

    /// Enter a callback of a collection step.
    pub fn enter_callback(&mut self, func: usize, args: Vec<Value>) -> (r: Step)
        ensures enter_result(*old(self), *final(self), func, None, None, args@, Seq::empty(), ReturnAction::DriveSeq, r),
    {
        let none: Vec<Keyword> = Vec::new();
        assert(none@ =~= Seq::empty());
        self.enter(func, None, None, args, none, ReturnAction::DriveSeq)
    }

    /// Call a method of a class: the receiver first, then the rest, in a frame
    /// whose result is used as `action` says.
    pub fn invoke_user(&mut self, func: usize, recv: Value, defclass: usize, args: Vec<Value>, kwargs: Vec<Keyword>, action: ReturnAction) -> (r: Step)
        ensures user_result(*old(self), *final(self), func, recv, defclass, args@, kwargs@, action, r),
    {
        if self.task.frames.len() >= MAX_FRAMES {
            return fault_step(Exc::RecursionError, "maximum recursion depth exceeded");
        }
        if self.is_generator(func) {
            let name = self.func_name_of(func);
            return fail(type_error(join2(name.as_str(), "() has a `yield` in it, and Oro does not carry generators through dunders and callbacks — move it to a module-level def")));
        }
        self.enter(func, Some(recv), Some((defclass, recv)), args, kwargs, action)
    }

    /// Call a generator function: the generator holds the bound frame and has
    /// not begun.
    pub fn make_generator(&mut self, func: usize, receiver: Option<Value>, ctx: Option<(usize, Value)>, args: Vec<Value>, kwargs: Vec<Keyword>) -> (r: Step)
        requires old(self).running(),
        ensures generator_result(*old(self), *final(self), func, receiver, ctx, args@, kwargs@, r),
    {
        if self.task.frames.len() >= MAX_FRAMES {
            return fault_step(Exc::RecursionError, "maximum recursion depth exceeded");
        }
        let ghost a = *self;
        let ghost av = args@;
        let ghost kv = kwargs@;
        let bound = self.bind_call(func, receiver, args, kwargs);
        let ghost m = *self;
        let ghost br = bound;
        assert(bind_result(a, m, func, receiver, av, kv, br));
        match bound {
            Err(e) => fail(e),
            Ok(f) => {
                let mut f = f;
                f.super_ctx = ctx;
                let g = self.heap.alloc_gen(GenBox { done: false, for_index: 0, frame: Some(f) });
                self.push(g);
                Step::Next
            }
        }
    }

    /// `obj.m(...)` where `m` has a `yield` in it.
    pub fn make_method_generator(&mut self, func: usize, recv: Value, defclass: usize, args: Vec<Value>, kwargs: Vec<Keyword>) -> (r: Step)
        requires old(self).running(),
        ensures generator_result(*old(self), *final(self), func, Some(recv), Some((defclass, recv)), args@, kwargs@, r),
    {
        self.make_generator(func, Some(recv), Some((defclass, recv)), args, kwargs)
    }

    /// Call a plain function.
    pub fn invoke_func(&mut self, func: usize, args: Vec<Value>, kwargs: Vec<Keyword>) -> (r: Step)
        requires old(self).running(),
        ensures func_result(*old(self), *final(self), func, args@, kwargs@, r),
    {
        if self.task.frames.len() >= MAX_FRAMES {
            return fault_step(Exc::RecursionError, "maximum recursion depth exceeded");
        }
        if self.is_generator(func) {
            return self.make_generator(func, None, None, args, kwargs);
        }
        self.enter(func, None, None, args, kwargs, ReturnAction::Normal)
    }

    /// Make an instance of `class`, and run its `__init__` where it has one.
    pub fn instantiate(&mut self, class: usize, args: Vec<Value>, kwargs: Vec<Keyword>) -> (r: Step)
        requires old(self).running(),
        ensures instantiate_result(*old(self), *final(self), class, args@, kwargs@, r),
    {
        let ghost a = *self;
        match self.heap.find(class, "__init__") {
            Some((Value::Func(init), defclass)) => {
                let inst = self.heap.alloc_instance(Instance { class, fields: Fields::new() });
                self.push(inst);
                let ghost m = *self;
                assert(instance_made(a, m, class));
                self.invoke_user(init, inst, defclass, args, kwargs, ReturnAction::DropForInit)
            }
            Some(_) => fail(type_error(join2(self.heap.class_name_of(class), ".__init__ is not a function"))),
            None => {
                if self.heap.exception_class(class) {
                    if kwargs.len() > 0 {
                        return fail(type_error(join2(self.heap.class_name_of(class), "() takes no keyword arguments")));
                    }
                    let exc = make_exception_instance(&mut self.heap, class, args);
                    self.push(exc);
                    return Step::Next;
                }
                if args.len() > 0 || kwargs.len() > 0 {
                    return fail(type_error(join2(self.heap.class_name_of(class), "() takes no arguments")));
                }
                let inst = self.heap.alloc_instance(Instance { class, fields: Fields::new() });
                self.push(inst);
                assert(instance_made(a, *self, class));
                Step::Next
            }
        }
    }

    /// The text of an instance: its `__str__` or its `__repr__` run, the wanted
    /// one first, or the text every object has.
    pub fn stringify_instance(&mut self, value: Value, want_repr: bool) -> (r: Step)
        requires old(self).running(),
        ensures stringify_result(*old(self), *final(self), value, want_repr, r),
    {
        let first = if want_repr { "__repr__" } else { "__str__" };
        let second = if want_repr { "__str__" } else { "__repr__" };
        match self.heap.instance_method(value, first) {
            Some((f, c)) => {
                return self.invoke_user(f, value, c, Vec::new(), Vec::new(), ReturnAction::Normal);
            }
            None => {}
        }
        match self.heap.instance_method(value, second) {
            Some((f, c)) => {
                return self.invoke_user(f, value, c, Vec::new(), Vec::new(), ReturnAction::Normal);
            }
            None => {}
        }
        let text = if want_repr { render(&self.heap, value) } else { render_display(&self.heap, value) };
        let s = self.heap.alloc_str(text);
        self.push(s);
        Step::Next
    }

    /// `len()` of an instance.
    pub fn dunder_len(&mut self, value: Value) -> (r: Step)
        ensures len_result(*old(self), *final(self), value, r),
    {
        match self.heap.instance_method(value, "__len__") {
            Some((f, c)) => self.invoke_user(f, value, c, Vec::new(), Vec::new(), ReturnAction::Normal),
            None => fail(type_error(join3("object of type '", type_label_of(&self.heap, value), "' has no len()"))),
        }
    }
}

/// What calling a plain function does.
pub open spec fn func_result(a: Vm, b: Vm, func: usize, args: Seq<Value>, kwargs: Seq<Keyword>, r: Step) -> bool {
    if a.task.frames@.len() >= MAX_FRAMES {
        faults(r, Exc::RecursionError, too_deep_text()) && b == a
    } else if makes_generator(a.heap, func) {
        generator_result(a, b, func, None, None, args, kwargs, r)
    } else {
        enter_result(a, b, func, None, None, args, kwargs, ReturnAction::Normal, r)
    }
}

/// A new instance of `class` without fields is on the stack.
pub open spec fn instance_made(a: Vm, b: Vm, class: usize) -> bool {
    &&& restacked(a, b, a.stack().push(Value::Instance(a.heap.instances.len())))
    &&& b.heap == (Heap { instances: b.heap.instances, ..a.heap })
    &&& b.heap.instances@.len() == a.heap.instances@.len() + 1
    &&& a.heap.instances@.is_prefix_of(b.heap.instances@)
    &&& b.heap.instances@.last().class == class
    &&& b.heap.instances@.last().fields@ == Map::<Seq<char>, Value>::empty()
}

/// What calling a class does.
pub open spec fn instantiate_result(a: Vm, b: Vm, class: usize, args: Seq<Value>, kwargs: Seq<Keyword>, r: Step) -> bool {
    let name = a.heap.class_name(class);
    match a.heap.find_member(class, "__init__"@) {
        Some((Value::Func(init), defclass)) => exists|m: Vm| #[trigger] instance_made(a, m, class)
            && user_result(m, b, init, Value::Instance(a.heap.instances.len()), defclass, args, kwargs, ReturnAction::DropForInit, r),
        Some(_) => faults(r, Exc::TypeError, name + ".__init__ is not a function"@) && b == a,
        None => if a.heap.is_exception_class(class) {
            if kwargs.len() > 0 {
                faults(r, Exc::TypeError, name + "() takes no keyword arguments"@) && b == a
            } else {
                &&& r is Next
                &&& restacked(a, b, a.stack().push(Value::Instance(a.heap.instances.len())))
                &&& exception_fields(b.heap, Value::Instance(a.heap.instances.len()), class, args)
                &&& exceptions_grew(a.heap, b.heap)
            }
        } else if args.len() > 0 || kwargs.len() > 0 {
            faults(r, Exc::TypeError, name + "() takes no arguments"@) && b == a
        } else {
            r is Next && instance_made(a, b, class)
        },
    }
}

/// A new string with this text is on the stack.
pub open spec fn text_pushed(a: Vm, b: Vm, text: Seq<char>) -> bool {
    &&& restacked(a, b, a.stack().push(Value::Str(a.heap.strs.len())))
    &&& b.heap == (Heap { strs: b.heap.strs, ..a.heap })
    &&& a.heap.strs@.is_prefix_of(b.heap.strs@)
    &&& b.heap.strs@.len() == a.heap.strs@.len() + 1
    &&& b.heap.text(a.heap.strs.len()) == text
}

/// What rendering an instance does.
pub open spec fn stringify_result(a: Vm, b: Vm, value: Value, want_repr: bool, r: Step) -> bool {
    let first = if want_repr { "__repr__"@ } else { "__str__"@ };
    let second = if want_repr { "__str__"@ } else { "__repr__"@ };
    match a.heap.method_of(value, first) {
        Some((f, c)) => user_result(a, b, f, value, c, Seq::empty(), Seq::empty(), ReturnAction::Normal, r),
        None => match a.heap.method_of(value, second) {
            Some((f, c)) => user_result(a, b, f, value, c, Seq::empty(), Seq::empty(), ReturnAction::Normal, r),
            None => r is Next && text_pushed(a, b, if want_repr { repr(a.heap, value) } else { display(a.heap, value) }),
        },
    }
}

/// What `len()` of an instance does.
pub open spec fn len_result(a: Vm, b: Vm, value: Value, r: Step) -> bool {
    match a.heap.method_of(value, "__len__"@) {
        Some((f, c)) => user_result(a, b, f, value, c, Seq::empty(), Seq::empty(), ReturnAction::Normal, r),
        None => faults(r, Exc::TypeError, "object of type '"@ + type_label(a.heap, value) + "' has no len()"@) && b == a,
    }
}

} // verus!
