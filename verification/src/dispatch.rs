//! Which part of the machine carries out a call.
use vstd::prelude::*;
use crate::attr::{is_native_method, methods_grew, native_method};
use crate::call::{fail, fault_step, func_result, generator_result, instantiate_result, len_result, makes_generator, stringify_result, user_result};
use crate::chain::{copy_values, no_step_text, reverse_option, seq_op_result, shape_of, tail_limit, tail_result, pending_for, reverse_kwarg, seq_receiver};
use crate::channel::{close_result, recv_result, send_result};
use crate::exc::{type_error, Exc, VErr};
use crate::exceptions::exceptions_grew;
use crate::frame::ReturnAction;
use crate::generate::{materialize_result, next_gen};
use crate::iter::{are_elems, drained, elements};
use crate::machine::{restacked, Call, HostCall, Keyword, OrderCont, OrderKind, Step, TextCont, Vm};
use crate::modules::{call_answer, needs_no_host, refused};
use crate::names::{type_label, type_label_of};
use crate::order::begin_order_result;
use crate::process::proc_run_result;
use crate::seqop::SeqOp;
use crate::streams::{stream_method, stream_method_result};
use crate::tasks::{chan_result, join_result, spawn_result, yield_now_result};
use crate::text::{join2, join3, join5, nat_text, render_usize, same_text};
use crate::texting::{container, is_container, print_result, stringify_begun};
use crate::value::{Heap, MethodKind, TypeTag, Value};
use crate::waiting::{dial_result, proc_wait_result, sleep_result};
use crate::wake::{faults, raises};

verus! {

/// How many arguments a method of a task or a channel takes.
pub open spec fn arity_of(recv: Value, name: Seq<char>) -> Option<nat> {
    match recv {
        Value::Task(_) => if name == "join"@ { Some(0nat) } else { None },
        Value::Channel(_) => if name == "send"@ {
            Some(1nat)
        } else if name == "recv"@ || name == "close"@ {
            Some(0nat)
        } else {
            None
        },
        _ => None,
    }
}

/// The message for a wrong number of arguments.
pub open spec fn arity_text(name: Seq<char>, want: nat, got: nat) -> Seq<char> {
    name + "() takes "@ + (if want == 0 { "no arguments"@ } else { "exactly 1 argument"@ }) + " ("@ + nat_text(got) + " given)"@
}

/// An exception of `class` was made and is raised; nothing else happened.
pub open spec fn only_raises(a: Vm, b: Vm, r: Step, class: Exc, message: Seq<char>) -> bool {
    &&& raises(b.heap, a.excs@, r, class, message)
    &&& exceptions_grew(a.heap, b.heap)
    &&& b == (Vm { heap: b.heap, ..a })
}

/// What calling a method of a task or a channel does; `None` where it has no
/// such method.
pub open spec fn concurrent_result(a: Vm, b: Vm, recv: Value, name: Seq<char>, args: Seq<Value>, kwargs: Seq<Keyword>, r: Option<Step>) -> bool {
    if !(recv is Task || recv is Channel) {
        r is None && b == a
    } else if kwargs.len() > 0 {
        r matches Some(s) && only_raises(a, b, s, Exc::TypeError, name + "() takes no keyword arguments"@)
    } else {
        match arity_of(recv, name) {
            None => r is None && b == a,
            Some(want) => r matches Some(s) && if args.len() != want {
                only_raises(a, b, s, Exc::TypeError, arity_text(name, want, args.len()))
            } else {
                match recv {
                    Value::Task(h) => join_result(a, b, h, s),
                    Value::Channel(ch) => if name == "send"@ {
                        send_result(a, b, ch, args[0], s)
                    } else if name == "recv"@ {
                        recv_result(a, b, ch, s)
                    } else {
                        close_result(a, b, ch, s)
                    },
                    _ => false,
                }
            },
        }
    }
}

/// Whether a value is something the collection methods work on.
pub open spec fn is_collection(v: Value) -> bool {
    v is List || v is Tuple || v is Dict || v is Range || v is Generator
}

/// Whether a value is something the collection methods work on.
pub fn collection(v: Value) -> (r: bool)
    ensures r == is_collection(v),
{
    matches!(v, Value::List(_) | Value::Tuple(_) | Value::Dict(_) | Value::Range(_) | Value::Generator(_))
}

/// A generator that a method is called on is drained, and the method is called
/// on the list.
pub open spec fn drains_receiver(a: Vm, b: Vm, recv: Value, name: Seq<char>, args: Seq<Value>, kwargs: Vec<Keyword>, r: Step) -> bool {
    exists|m: Vm, callee: Value| {
        &&& m == (Vm { heap: m.heap, ..a })
        &&& methods_grew(a.heap, m.heap)
        &&& #[trigger] is_native_method(m.heap, callee, recv, name)
        &&& materialize_result(m, b, callee, seq![recv] + args, kwargs, true, r)
    }
}

/// The generators among a native method's arguments are drained, and then it is
/// called.
pub open spec fn drains_args(a: Vm, b: Vm, recv: Value, name: Seq<char>, args: Seq<Value>, kwargs: Vec<Keyword>, r: Step) -> bool {
    exists|m: Vm, callee: Value| {
        &&& m == (Vm { heap: m.heap, ..a })
        &&& methods_grew(a.heap, m.heap)
        &&& #[trigger] is_native_method(m.heap, callee, recv, name)
        &&& materialize_result(m, b, callee, args, kwargs, false, r)
    }
}

/// The elements of a collection are ordered by themselves.
pub open spec fn orders_elements(a: Vm, b: Vm, kind: OrderKind, recv: Value, reverse: bool, r: Step) -> bool {
    exists|m: Vm, items: Seq<Value>| {
        &&& m == (Vm { heap: m.heap, ..a })
        &&& drained(a.heap, m.heap)
        &&& m.heap.iters@ == a.heap.iters@
        &&& elements(a.heap, recv) is Some
        &&& #[trigger] are_elems(m.heap, elements(a.heap, recv)->0, items)
        &&& begin_order_result(m, b, kind, items, items, reverse, OrderCont::Push, r)
    }
}

/// The place of a keyword among these.
pub open spec fn keyword_at(kwargs: Seq<Keyword>, name: Seq<char>, j: int) -> Option<int>
    decreases kwargs.len() - j,
{
    if j < 0 || j >= kwargs.len() {
        None
    } else if kwargs[j].0@ == name {
        Some(j)
    } else {
        keyword_at(kwargs, name, j + 1)
    }
}

/// What `sorted()` of a collection does: by its elements, or by a key.
pub open spec fn sorted_result(a: Vm, b: Vm, recv: Value, args: Seq<Value>, kwargs: Seq<Keyword>, r: Step) -> bool {
    if args.len() > 0 {
        faults(r, Exc::TypeError, "sorted() takes no positional arguments"@) && b == a
    } else {
        match keyword_at(kwargs, "key"@, 0) {
            Some(k) => seq_op_result(a, b, SeqOp::SortBy, recv, seq![kwargs[k].1], kwargs.remove(k), false, false, r),
            None => match reverse_option(a.heap, "sorted"@, kwargs, 0, false) {
                Err(t) => faults(r, Exc::TypeError, t) && b == a,
                Ok(reverse) => match shape_of(recv) {
                    Some(shape) => orders_elements(a, b, OrderKind::Sort(shape), recv, reverse, r),
                    None => faults(r, Exc::AttributeError, no_step_text(a.heap, "sorted"@, recv)) && b == a,
                },
            },
        }
    }
}

/// The host carries out the native method.
pub open spec fn hosts_method(a: Vm, b: Vm, recv: Value, name: Seq<char>, args: Seq<Value>, kwargs: Vec<Keyword>, r: Step) -> bool {
    &&& b == a
    &&& r matches Step::Host(x) && (*x).1 == ReturnAction::Normal && ((*x).0 matches HostCall::Method(v, s, av, kv)
        && v == recv && s@ == name && av@ == args && kv == kwargs)
}

/// Whether the host's method of this name works on a drained generator.
pub open spec fn drains_for(a: Vm, name: Seq<char>) -> bool {
    crate::attr::listed(a.natives.draining@, name)
}

/// What calling a native method does. Some are the machine's own: those that
/// can wait, those that run callbacks, and those that render or order objects
/// of the program's classes. The rest is the host's, once every generator
/// involved is drained.
pub open spec fn native_result(a: Vm, b: Vm, recv: Value, name: Seq<char>, args: Seq<Value>, kwargs: Vec<Keyword>, hint: bool, flush: bool, r: Step) -> bool {
    let bare = args.len() == 0 && kwargs@.len() == 0;
    if (recv is Task || recv is Channel) && (kwargs@.len() > 0 || arity_of(recv, name) is Some) {
        concurrent_result(a, b, recv, name, args, kwargs@, Some(r))
    } else if recv is Stream && stream_method(name) {
        stream_method_result(a, b, recv->Stream_0, name, args, kwargs@, Some(r))
    } else if recv is Proc && name == "wait"@ && bare {
        proc_wait_result(a, b, recv->Proc_0, r)
    } else if name == "to_str"@ && bare && recv is Instance {
        stringify_result(a, b, recv, false, r)
    } else if name == "to_str"@ && bare && is_container(recv) {
        stringify_begun(a, b, recv, TextCont::Push, r)
    } else if is_collection(recv) && SeqOp::named(name) is Some {
        if recv is Generator {
            drains_receiver(a, b, recv, name, args, kwargs, r)
        } else {
            seq_op_result(a, b, SeqOp::named(name)->0, recv, args, kwargs@, hint, flush, r)
        }
    } else if is_collection(recv) && name == "sorted"@ && !(recv is Generator) {
        sorted_result(a, b, recv, args, kwargs@, r)
    } else if flush && tail_limit(name, args) is Some && pending_for(a.chains@, recv) {
        tail_result(a, b, recv, name, args, Some(r))
    } else if is_collection(recv) && (name == "min"@ || name == "max"@) && bare && !(recv is Generator) {
        orders_elements(a, b, OrderKind::Extreme { want_min: name == "min"@, by: false }, recv, false, r)
    } else if recv is Generator && (drains_for(a, name) || name == "sorted"@) {
        drains_receiver(a, b, recv, name, args, kwargs, r)
    } else if next_gen(args, 0) is Some {
        drains_args(a, b, recv, name, args, kwargs, r)
    } else {
        hosts_method(a, b, recv, name, args, kwargs, r)
    }
}

/// Whether one of these is a generator.
pub fn any_generator(args: &Vec<Value>) -> (r: bool)
    ensures r == (next_gen(args@, 0) is Some),
{
    let mut i: usize = 0;
    while i < args.len()
        invariant
            i <= args.len(),
            next_gen(args@, 0) == next_gen(args@, i as int),
        decreases args.len() - i,
    {
        if let Value::Generator(_) = args[i] {
            return true;
        }
        i += 1;
    }
    false
}

fn keyword_place(kwargs: &Vec<Keyword>, name: &str) -> (r: Option<usize>)
    ensures
        match r {
            Some(k) => keyword_at(kwargs@, name@, 0) == Some(k as int) && k < kwargs@.len(),
            None => keyword_at(kwargs@, name@, 0) is None,
        },
{
    let mut j: usize = 0;
    while j < kwargs.len()
        invariant
            j <= kwargs.len(),
            keyword_at(kwargs@, name@, 0) == keyword_at(kwargs@, name@, j as int),
        decreases kwargs.len() - j,
    {
        if same_text(kwargs[j].0.as_str(), name) {
            return Some(j);
        }
        j += 1;
    }
    None
}

fn one(v: Value) -> (r: Vec<Value>)
    ensures r@ == seq![v],
{
    let mut out: Vec<Value> = Vec::new();
    out.push(v);
    assert(out@ =~= seq![v]);
    out
}

impl Vm {
    /// The methods of tasks and channels. `None` where `name` is another one.
    pub fn task_or_channel_method(&mut self, recv: Value, name: &str, args: &Vec<Value>, kwargs: &Vec<Keyword>) -> (r: Option<Step>)
        requires old(self).running(),
        ensures concurrent_result(*old(self), *final(self), recv, name@, args@, kwargs@, r),
    {
        let send = same_text(name, "send");
        let want: Option<usize> = match recv {
            Value::Task(_) => if same_text(name, "join") { Some(0) } else { None },
            Value::Channel(_) => if send {
                Some(1)
            } else if same_text(name, "recv") || same_text(name, "close") {
                Some(0)
            } else {
                None
            },
            _ => {
                return None;
            }
        };
        if kwargs.len() > 0 {
            return Some(self.raise(Exc::TypeError, join2(name, "() takes no keyword arguments")));
        }
        let want = match want {
            Some(n) => n,
            None => {
                return None;
            }
        };
        if args.len() != want {
            let n = render_usize(args.len());
            let s = join5(name, "() takes ", if want == 0 { "no arguments" } else { "exactly 1 argument" }, " (", n.as_str());
            return Some(self.raise(Exc::TypeError, join2(s.as_str(), " given)")));
        }
        match recv {
            Value::Task(h) => Some(self.task_join(h)),
            Value::Channel(ch) => if send {
                Some(self.chan_send(ch, args[0]))
            } else if same_text(name, "recv") {
                Some(self.chan_recv(ch))
            } else {
                Some(self.chan_close(ch))
            },
            _ => None,
        }
    }

    fn drain_receiver(&mut self, recv: Value, name: &str, args: Vec<Value>, kwargs: Vec<Keyword>) -> (r: Step)
        ensures drains_receiver(*old(self), *final(self), recv, name@, args@, kwargs, r),
    {
        let callee = native_method(&mut self.heap, recv, name);
        let ghost m = *self;
        assert(is_native_method(m.heap, callee, recv, name@));
        let mut all = one(recv);
        let mut rest = args;
        all.append(&mut rest);
        assert(all@ =~= seq![recv] + args@);
        self.materialize_receiver(callee, all, kwargs)
    }

    fn order_elements(&mut self, who: &str, kind: OrderKind, recv: Value, reverse: bool) -> (r: Step)
        requires
            old(self).running(),
            shape_of(recv) is Some,
        ensures orders_elements(*old(self), *final(self), kind, recv, reverse, r),
    {
        let ghost a = *self;
        match seq_receiver(&mut self.heap, who, recv) {
            Err(e) => fail(e),
            Ok((_, items)) => {
                let ghost m = *self;
                let ghost iv = items@;
                assert(are_elems(m.heap, elements(a.heap, recv)->0, iv));
                let keys = copy_values(&items);
                self.begin_order(kind, items, keys, reverse, OrderCont::Push)
            }
        }
    }

    fn do_sorted(&mut self, recv: Value, args: Vec<Value>, kwargs: Vec<Keyword>) -> (r: Step)
        requires old(self).running(),
        ensures sorted_result(*old(self), *final(self), recv, args@, kwargs@, r),
    {
        if args.len() > 0 {
            return fault_step(Exc::TypeError, "sorted() takes no positional arguments");
        }
        if let Some(k) = keyword_place(&kwargs, "key") {
            let mut kwargs = kwargs;
            let key = kwargs.remove(k);
            return self.do_seq_op(SeqOp::SortBy, recv, one(key.1), kwargs, false, false);
        }
        let reverse = match reverse_kwarg(&self.heap, "sorted", &kwargs) {
            Ok(b) => b,
            Err(e) => {
                return fail(e);
            }
        };
        match crate::chain::seq_shape(&self.heap, "sorted", recv) {
            Err(e) => fail(e),
            Ok(shape) => self.order_elements("sorted", OrderKind::Sort(shape), recv, reverse),
        }
    }

    /// Call a native method. `hint` says that only the next step of the same
    /// chain sees the result, `flush` that this is the step that runs what was
    /// deferred.
    pub fn invoke_native_method(&mut self, recv: Value, name: &str, args: Vec<Value>, kwargs: Vec<Keyword>, hint: bool, flush: bool) -> (r: Step)
        requires old(self).running(),
        ensures native_result(*old(self), *final(self), recv, name@, args@, kwargs, hint, flush, r),
    {
        let bare = args.len() == 0 && kwargs.len() == 0;
        if let Some(step) = self.task_or_channel_method(recv, name, &args, &kwargs) {
            return step;
        }
        if let Value::Stream(s) = recv {
            if let Some(step) = self.stream_io_method(s, name, &args, &kwargs) {
                return step;
            }
        }
        if let Value::Proc(p) = recv {
            if bare && same_text(name, "wait") {
                return self.do_proc_wait(p);
            }
        }
        if bare && same_text(name, "to_str") {
            if let Value::Instance(_) = recv {
                return self.stringify_instance(recv, false);
            }
            if container(recv) {
                return self.begin_stringify(recv, TextCont::Push);
            }
        }
        let generator = matches!(recv, Value::Generator(_));
        if collection(recv) {
            if let Some(op) = SeqOp::from_name(name) {
                if generator {
                    return self.drain_receiver(recv, name, args, kwargs);
                }
                return self.do_seq_op(op, recv, args, kwargs, hint, flush);
            }
            if !generator && same_text(name, "sorted") {
                return self.do_sorted(recv, args, kwargs);
            }
        }
        if flush {
            if let Some(step) = self.chain_tail(recv, name, &args) {
                return step;
            }
        }
        let min = same_text(name, "min");
        if (min || same_text(name, "max")) && !generator && collection(recv) && bare {
            return self.order_elements(name, OrderKind::Extreme { want_min: min, by: false }, recv, false);
        }
        if generator && (crate::attr::is_listed(&self.natives.draining, name) || same_text(name, "sorted")) {
            return self.drain_receiver(recv, name, args, kwargs);
        }
        if any_generator(&args) {
            let callee = native_method(&mut self.heap, recv, name);
            let ghost m = *self;
            assert(is_native_method(m.heap, callee, recv, name@));
            return self.materialize_generator_args(callee, args, kwargs);
        }
        Step::Host(Box::new((HostCall::Method(recv, name.to_owned(), args, kwargs), ReturnAction::Normal)))
    }
}

/// Names and values, by the text of the names.
pub open spec fn keyword_texts(kwargs: Seq<Keyword>) -> Seq<(Seq<char>, Value)> {
    kwargs.map_values(|k: Keyword| (k.0@, k.1))
}

/// What the keywords of `apply` from place `j` on leave of its two options.
pub open spec fn apply_options(kwargs: Seq<Keyword>, j: int, args: Option<Value>, named: Option<Value>) -> Result<(Option<Value>, Option<Value>), Seq<char>>
    decreases kwargs.len() - j,
{
    if j >= kwargs.len() {
        Ok((args, named))
    } else {
        let k = kwargs[j].0@;
        if k == "args"@ {
            if args is Some {
                Err("apply() got multiple values for keyword argument '"@ + k + "'"@)
            } else {
                apply_options(kwargs, j + 1, Some(kwargs[j].1), named)
            }
        } else if k == "kwargs"@ {
            if named is Some {
                Err("apply() got multiple values for keyword argument '"@ + k + "'"@)
            } else {
                apply_options(kwargs, j + 1, args, Some(kwargs[j].1))
            }
        } else {
            Err("apply() got an unexpected keyword argument '"@ + k + "'"@)
        }
    }
}

/// The list `args=` forwards.
pub open spec fn forwarded_args(h: Heap, v: Option<Value>) -> Result<Seq<Value>, Seq<char>> {
    match v {
        None => Ok(Seq::empty()),
        Some(Value::List(l)) => Ok(h.list(l)),
        Some(Value::Null) => Err("apply(): args= must be a list, not null — leave it out to pass none"@),
        Some(other) => Err("apply(): args= must be a list, not '"@ + type_label(h, other) + "'"@),
    }
}

/// The first entry of a dict whose key is no string.
pub open spec fn first_odd_key(entries: Seq<(Value, Value)>, i: int) -> Option<int>
    decreases entries.len() - i,
{
    if i < 0 || i >= entries.len() {
        None
    } else if entries[i].0 is Str {
        first_odd_key(entries, i + 1)
    } else {
        Some(i)
    }
}

/// The entries of a dict whose keys are strings, as keywords.
pub open spec fn entry_keywords(h: Heap, entries: Seq<(Value, Value)>) -> Seq<(Seq<char>, Value)> {
    entries.map_values(|e: (Value, Value)| (h.text(e.0->Str_0), e.1))
}

/// The keywords `kwargs=` forwards.
pub open spec fn forwarded_keywords(h: Heap, v: Option<Value>) -> Result<Seq<(Seq<char>, Value)>, Seq<char>> {
    match v {
        None => Ok(Seq::empty()),
        Some(Value::Dict(d)) => match first_odd_key(h.dict(d), 0) {
            None => Ok(entry_keywords(h, h.dict(d))),
            Some(k) => Err("apply(): kwargs= keys must be str, not '"@ + type_label(h, h.dict(d)[k].0) + "' — they are parameter names"@),
        },
        Some(Value::Null) => Err("apply(): kwargs= must be a dict, not null — leave it out to pass none"@),
        Some(other) => Err("apply(): kwargs= must be a dict, not '"@ + type_label(h, other) + "'"@),
    }
}

/// The step makes this call.
pub open spec fn calls(r: Step, callee: Value, args: Seq<Value>, named: Seq<(Seq<char>, Value)>) -> bool {
    r matches Step::Invoke(c) && (*c).callee == callee && (*c).args@ == args && keyword_texts((*c).kwargs@) == named
}

/// What `apply(f, args=, kwargs=)` does: it calls `f`.
pub open spec fn apply_result(h: Heap, args: Seq<Value>, kwargs: Seq<Keyword>, r: Step) -> bool {
    if args.len() == 0 {
        faults(r, Exc::TypeError, "apply() missing required argument: 'f'"@)
    } else if args.len() > 1 {
        faults(r, Exc::TypeError, "apply() takes 1 positional argument but "@ + nat_text(args.len())
            + " were given — the arguments to forward are passed by name: `apply(f, args=[…], kwargs={…})`"@)
    } else {
        match apply_options(kwargs, 0, None, None) {
            Err(t) => faults(r, Exc::TypeError, t),
            Ok((av, kv)) => match forwarded_args(h, av) {
                Err(t) => faults(r, Exc::TypeError, t),
                Ok(list) => match forwarded_keywords(h, kv) {
                    Err(t) => faults(r, Exc::TypeError, t),
                    Ok(named) => calls(r, args[0], list, named),
                },
            },
        }
    }
}

/// The keywords a dict holds, or the place of the first key that is none.
fn read_keywords(h: &Heap, d: usize) -> (r: Result<Vec<Keyword>, usize>)
    ensures
        match r {
            Ok(v) => first_odd_key(h.dict(d), 0) is None && keyword_texts(v@) == entry_keywords(*h, h.dict(d)),
            Err(k) => first_odd_key(h.dict(d), 0) == Some(k as int) && k < h.dict(d).len(),
        },
{
    let mut out: Vec<Keyword> = Vec::new();
    let n = h.dict_len(d);
    let mut i: usize = 0;
    while i < n
        invariant
            i <= n,
            n == h.dict(d).len(),
            first_odd_key(h.dict(d), 0) == first_odd_key(h.dict(d), i as int),
            keyword_texts(out@) =~= entry_keywords(*h, h.dict(d)).take(i as int),
        decreases n - i,
    {
        let (k, v) = h.dict_at(d, i);
        match k {
            Value::Str(s) => {
                let ghost before = keyword_texts(out@);
                out.push((h.text_of(s).to_owned(), v));
                assert(keyword_texts(out@) =~= before.push((h.text(s), v)));
            }
            _ => {
                return Err(i);
            }
        }
        i += 1;
    }
    assert(entry_keywords(*h, h.dict(d)).take(n as int) =~= entry_keywords(*h, h.dict(d)));
    Ok(out)
}

/// The name of a native function.
pub open spec fn builtin_name(h: Heap, i: usize) -> Seq<char> {
    if i < h.builtins@.len() { h.builtins@[i as int]@ } else { Seq::empty() }
}

/// The host carries out the native function.
pub open spec fn hosts_builtin(a: Vm, b: Vm, i: usize, args: Seq<Value>, kwargs: Vec<Keyword>, r: Step) -> bool {
    &&& b == a
    &&& r matches Step::Host(x) && (*x).1 == ReturnAction::Normal && ((*x).0 matches HostCall::Builtin(k, av, kv)
        && k == i && av@ == args && kv == kwargs)
}

/// What calling a native function does.
pub open spec fn builtin_result(a: Vm, b: Vm, i: usize, args: Seq<Value>, kwargs: Vec<Keyword>, r: Step) -> bool {
    let name = builtin_name(a.heap, i);
    if name == "apply"@ {
        apply_result(a.heap, args, kwargs@, r) && b == a
    } else if name == "spawn"@ {
        spawn_result(a, b, args, kwargs@, r)
    } else if name == "chan"@ {
        chan_result(a, b, args, kwargs@, r)
    } else if name == "yield_now"@ {
        yield_now_result(a, b, args, kwargs@, r)
    } else if name == "time.sleep"@ {
        sleep_result(a, b, args, kwargs@, r)
    } else if name == "net.dial"@ {
        dial_result(a, b, args, kwargs@, r)
    } else if name == "print"@ {
        print_result(a, b, args, kwargs@, r)
    } else if name == "proc.run"@ {
        proc_run_result(a.heap, args, kwargs@, r) && b == a
    } else if name == "net.listen"@ {
        hosts_builtin(a, b, i, args, kwargs, r)
    } else if name == "repr"@ && args.len() == 1 && args[0] is Instance {
        stringify_result(a, b, args[0], true, r)
    } else if name == "repr"@ && args.len() == 1 && is_container(args[0]) {
        stringify_begun(a, b, args[0], TextCont::Push, r)
    } else if name == "len"@ && args.len() == 1 && args[0] is Instance {
        len_result(a, b, args[0], r)
    } else if next_gen(args, 0) is Some {
        materialize_result(a, b, Value::Builtin(i), args, kwargs, false, r)
    } else if needs_no_host(name) && kwargs@.len() == 0 {
        module_call_result(a, b, name, args, r)
    } else if refused(a.heap, name, args) is Some && kwargs@.len() == 0 {
        b == a && faults(r, (refused(a.heap, name, args)->0).0, (refused(a.heap, name, args)->0).1)
    } else {
        hosts_builtin(a, b, i, args, kwargs, r)
    }
}

/// What calling a module's function does that needs no host.
pub open spec fn module_call_result(a: Vm, b: Vm, name: Seq<char>, args: Seq<Value>, r: Step) -> bool {
    exists|m: Vm, x: Result<Value, VErr>| {
        &&& m == (Vm { heap: m.heap, ..a })
        &&& #[trigger] call_answer(a.heap, m.heap, name, args, x)
        &&& match x {
            Ok(v) => r is Next && restacked(m, b, a.stack().push(v)) && b.heap == m.heap,
            Err(e) => faults(r, e@.0, e@.1) && b == m,
        }
    }
}

/// What calling a bound method does.
pub open spec fn method_result(a: Vm, b: Vm, i: usize, args: Seq<Value>, kwargs: Vec<Keyword>, r: Step) -> bool {
    if i < a.heap.methods@.len() {
        let recv = a.heap.methods@[i as int].receiver;
        match a.heap.methods@[i as int].kind {
            MethodKind::Native(name) => native_result(a, b, recv, name@, args, kwargs, false, false, r),
            MethodKind::User { func, defclass } => bound_result(a, b, func, recv, defclass, args, kwargs@, r),
        }
    } else {
        faults(r, Exc::RuntimeError, "internal: call of a method that was never made"@) && b == a
    }
}

/// What `obj.m(...)` of a method written in the language does.
pub open spec fn bound_result(a: Vm, b: Vm, func: usize, recv: Value, defclass: usize, args: Seq<Value>, kwargs: Seq<Keyword>, r: Step) -> bool {
    if makes_generator(a.heap, func) {
        generator_result(a, b, func, Some(recv), Some((defclass, recv)), args, kwargs, r)
    } else {
        user_result(a, b, func, recv, defclass, args, kwargs, ReturnAction::Normal, r)
    }
}

/// What calling `callee` does.
pub open spec fn invoke_result(a: Vm, b: Vm, callee: Value, args: Seq<Value>, kwargs: Vec<Keyword>, r: Step) -> bool {
    match callee {
        Value::Builtin(i) => builtin_result(a, b, i, args, kwargs, r),
        Value::Method(i) => method_result(a, b, i, args, kwargs, r),
        Value::Func(f) => func_result(a, b, f, args, kwargs@, r),
        Value::Class(c) => instantiate_result(a, b, c, args, kwargs@, r),
        Value::Type(t) => if kwargs@.len() > 0 && t != TypeTag::Range {
            faults(r, Exc::TypeError, t.spec_name() + "() takes no keyword arguments"@) && b == a
        } else {
            &&& b == a
            &&& r matches Step::Host(x) && (*x).1 == ReturnAction::Normal && ((*x).0 matches HostCall::TypeCall(u, av, kv)
                && u == t && av@ == args && kv == kwargs)
        },
        _ => faults(r, Exc::TypeError, "'"@ + type_label(a.heap, callee) + "' object is not callable"@) && b == a,
    }
}

impl Vm {
    /// `apply(f, args=[], kwargs={})`: the call it stands for.
    pub fn do_apply(&self, args: Vec<Value>, kwargs: Vec<Keyword>) -> (r: Step)
        ensures apply_result(self.heap, args@, kwargs@, r),
    {
        let h = &self.heap;
        if args.len() == 0 {
            return fault_step(Exc::TypeError, "apply() missing required argument: 'f'");
        }
        if args.len() > 1 {
            let n = render_usize(args.len());
            return fail(type_error(join3("apply() takes 1 positional argument but ", n.as_str(),
                " were given — the arguments to forward are passed by name: `apply(f, args=[…], kwargs={…})`")));
        }
        let mut list: Option<Value> = None;
        let mut named: Option<Value> = None;
        let mut j: usize = 0;
        while j < kwargs.len()
            invariant
                j <= kwargs.len(),
                args@.len() == 1,
                *h == self.heap,
                apply_options(kwargs@, 0, None, None) == apply_options(kwargs@, j as int, list, named),
            decreases kwargs.len() - j,
        {
            let k = kwargs[j].0.as_str();
            let is_args = same_text(k, "args");
            if !is_args && !same_text(k, "kwargs") {
                return fail(type_error(join3("apply() got an unexpected keyword argument '", k, "'")));
            }
            if if is_args { list.is_some() } else { named.is_some() } {
                return fail(type_error(join3("apply() got multiple values for keyword argument '", k, "'")));
            }
            if is_args {
                list = Some(kwargs[j].1);
            } else {
                named = Some(kwargs[j].1);
            }
            j += 1;
        }
        let forwarded = match list {
            None => Vec::new(),
            Some(Value::List(l)) => h.list_copy(l),
            Some(Value::Null) => {
                return fault_step(Exc::TypeError, "apply(): args= must be a list, not null — leave it out to pass none");
            }
            Some(v) => {
                return fail(type_error(join3("apply(): args= must be a list, not '", type_label_of(h, v), "'")));
            }
        };
        assert(forwarded_args(*h, list)->Ok_0 =~= forwarded@);
        let keywords = match named {
            None => Vec::new(),
            Some(Value::Dict(d)) => match read_keywords(h, d) {
                Ok(v) => v,
                Err(k) => {
                    let (key, _) = h.dict_at(d, k);
                    return fail(type_error(join3("apply(): kwargs= keys must be str, not '", type_label_of(h, key), "' — they are parameter names")));
                }
            },
            Some(Value::Null) => {
                return fault_step(Exc::TypeError, "apply(): kwargs= must be a dict, not null — leave it out to pass none");
            }
            Some(v) => {
                return fail(type_error(join3("apply(): kwargs= must be a dict, not '", type_label_of(h, v), "'")));
            }
        };
        assert(forwarded_keywords(*h, named)->Ok_0 =~= keyword_texts(keywords@));
        Step::Invoke(Box::new(Call { callee: args[0], args: forwarded, kwargs: keywords }))
    }

    fn invoke_builtin(&mut self, i: usize, args: Vec<Value>, kwargs: Vec<Keyword>) -> (r: Step)
        requires old(self).running(),
        ensures builtin_result(*old(self), *final(self), i, args@, kwargs, r),
    {
        let name = if i < self.heap.builtins.len() { self.heap.builtins[i].clone() } else { String::new() };
        let name = name.as_str();
        if same_text(name, "apply") {
            return self.do_apply(args, kwargs);
        }
        if same_text(name, "spawn") {
            return self.do_spawn(args, kwargs);
        }
        if same_text(name, "chan") {
            return self.do_chan(args, kwargs);
        }
        if same_text(name, "yield_now") {
            return self.do_yield_now(args, kwargs);
        }
        if same_text(name, "time.sleep") {
            return self.do_sleep(args, kwargs);
        }
        if same_text(name, "net.dial") {
            return self.do_dial(args, kwargs);
        }
        if same_text(name, "print") {
            return self.do_print(args, kwargs);
        }
        if same_text(name, "proc.run") {
            return self.do_proc_run(args, kwargs);
        }
        if !same_text(name, "net.listen") {
            if args.len() == 1 {
                if same_text(name, "repr") {
                    if let Value::Instance(_) = args[0] {
                        return self.stringify_instance(args[0], true);
                    }
                    if container(args[0]) {
                        return self.begin_stringify(args[0], TextCont::Push);
                    }
                }
                if same_text(name, "len") {
                    if let Value::Instance(_) = args[0] {
                        return self.dunder_len(args[0]);
                    }
                }
            }
            if any_generator(&args) {
                return self.materialize_generator_args(Value::Builtin(i), args, kwargs);
            }
            if kwargs.len() == 0 {
                let ghost a = *self;
                if let Some(x) = crate::modules::call(&mut self.heap, name, &args) {
                    let ghost m = *self;
                    assert(call_answer(a.heap, m.heap, name@, args@, x));
                    return match x {
                        Ok(v) => {
                            self.push(v);
                            Step::Next
                        }
                        Err(e) => fail(e),
                    };
                }
                if let Some(e) = crate::modules::refuse(&self.heap, name, &args) {
                    return fail(e);
                }
            }
        }
        Step::Host(Box::new((HostCall::Builtin(i, args, kwargs), ReturnAction::Normal)))
    }

    fn invoke_bound(&mut self, func: usize, recv: Value, defclass: usize, args: Vec<Value>, kwargs: Vec<Keyword>) -> (r: Step)
        requires old(self).running(),
        ensures bound_result(*old(self), *final(self), func, recv, defclass, args@, kwargs@, r),
    {
        if self.is_generator(func) {
            return self.make_method_generator(func, recv, defclass, args, kwargs);
        }
        self.invoke_user(func, recv, defclass, args, kwargs, ReturnAction::Normal)
    }

    fn invoke_method(&mut self, i: usize, args: Vec<Value>, kwargs: Vec<Keyword>) -> (r: Step)
        requires old(self).running(),
        ensures method_result(*old(self), *final(self), i, args@, kwargs, r),
    {
        if i >= self.heap.methods.len() {
            return fault_step(Exc::RuntimeError, "internal: call of a method that was never made");
        }
        let recv = self.heap.methods[i].receiver;
        let target: Result<(usize, usize), String> = match &self.heap.methods[i].kind {
            MethodKind::Native(name) => Err(name.clone()),
            MethodKind::User { func, defclass } => Ok((*func, *defclass)),
        };
        match target {
            Err(name) => self.invoke_native_method(recv, name.as_str(), args, kwargs, false, false),
            Ok((func, defclass)) => self.invoke_bound(func, recv, defclass, args, kwargs),
        }
    }

    /// Call `callee`.
    pub fn invoke(&mut self, callee: Value, args: Vec<Value>, kwargs: Vec<Keyword>) -> (r: Step)
        requires old(self).running(),
        ensures invoke_result(*old(self), *final(self), callee, args@, kwargs, r),
    {
        match callee {
            Value::Builtin(i) => self.invoke_builtin(i, args, kwargs),
            Value::Method(i) => self.invoke_method(i, args, kwargs),
            Value::Func(f) => self.invoke_func(f, args, kwargs),
            Value::Class(c) => self.instantiate(c, args, kwargs),
            Value::Type(t) => {
                if kwargs.len() > 0 && t != TypeTag::Range {
                    return fail(type_error(join2(t.name(), "() takes no keyword arguments")));
                }
                Step::Host(Box::new((HostCall::TypeCall(t, args, kwargs), ReturnAction::Normal)))
            }
            v => fail(type_error(join3("'", type_label_of(&self.heap, v), "' object is not callable"))),
        }
    }
}

/// The operand stack was cut down to its first `n` values.
pub open spec fn popped_to(a: Vm, m: Vm, n: int) -> bool {
    restacked(a, m, a.stack().take(n)) && m.heap == a.heap
}

/// What the instruction `Call` does: the arguments lie above the callee.
pub open spec fn call_result(a: Vm, b: Vm, n: int, r: Step) -> bool {
    let base = a.stack().len() - n - 1;
    exists|m: Vm, kw: Vec<Keyword>| {
        &&& #[trigger] popped_to(a, m, base)
        &&& #[trigger] kw@.len() == 0
        &&& invoke_result(m, b, a.stack()[base], a.stack().skip(base + 1), kw, r)
    }
}

/// How many arguments a method call has.
pub open spec fn chain_argc(argc: u32) -> int {
    (argc % 0x4000_0000) as int
}

/// Whether only the next step of the same chain sees a method call's result.
pub open spec fn chain_hint(argc: u32) -> bool {
    argc >= 0x8000_0000
}

/// Whether a method call runs what earlier steps of its chain deferred.
pub open spec fn chain_flush(argc: u32) -> bool {
    argc % 0x8000_0000 >= 0x4000_0000
}

/// What the instruction `CallMethod` does: below the arguments lie the three
/// values that finding the method left.
pub open spec fn call_method_result(a: Vm, b: Vm, name: Seq<char>, argc: u32, r: Step) -> bool {
    let n = chain_argc(argc);
    let base = a.stack().len() - n - 3;
    let args = a.stack().skip(base + 3);
    let target = a.stack()[base + 2];
    exists|m: Vm, kw: Vec<Keyword>| {
        &&& #[trigger] popped_to(a, m, base)
        &&& #[trigger] kw@.len() == 0
        &&& match a.stack()[base] {
            Value::Class(defclass) => match a.stack()[base + 1] {
                Value::Func(f) => bound_result(m, b, f, target, defclass, args, kw@, r),
                _ => faults(r, Exc::RuntimeError, "internal: a method call without a function"@) && b == m,
            },
            Value::Unbound => native_result(m, b, target, name, args, kw, chain_hint(argc), chain_flush(argc), r),
            _ => invoke_result(m, b, target, args, kw, r),
        }
    }
}

/// What the instruction `CallEx` does: a list of arguments and a dict of
/// keywords lie above the callee.
pub open spec fn call_ex_result(a: Vm, b: Vm, r: Step) -> bool {
    let base = a.stack().len() - 3;
    exists|m: Vm| {
        &&& #[trigger] popped_to(a, m, base)
        &&& match (a.stack()[base + 1], a.stack()[base + 2]) {
            (Value::List(l), Value::Dict(d)) => if first_odd_key(a.heap.dict(d), 0) is Some {
                faults(r, Exc::TypeError, "keywords must be strings"@) && b == m
            } else {
                exists|kw: Vec<Keyword>| #[trigger] keyword_texts(kw@) == entry_keywords(a.heap, a.heap.dict(d))
                    && invoke_result(m, b, a.stack()[base], a.heap.list(l), kw, r)
            },
            (Value::List(_), _) => faults(r, Exc::RuntimeError, "internal: CallEx keyword dict malformed"@) && b == m,
            _ => faults(r, Exc::RuntimeError, "internal: CallEx positional list malformed"@) && b == m,
        }
    }
}

impl Vm {
    /// `Call(n)`.
    pub fn do_call(&mut self, n: usize) -> (r: Step)
        requires old(self).has(n as nat + 1),
        ensures call_result(*old(self), *final(self), n as int, r),
    {
        let ghost a = *self;
        let args = self.popn(n);
        let callee = self.pop();
        let ghost base: int = a.stack().len() - n - 1;
        let ghost m = *self;
        proof {
            assert(m.stack() =~= a.stack().take(base));
            assert(popped_to(a, m, base));
            assert(args@ =~= a.stack().skip(base + 1));
        }
        let none: Vec<Keyword> = Vec::new();
        assert(none@.len() == 0);
        self.invoke(callee, args, none)
    }

    /// `CallMethod`: the method `name` with `argc` arguments and chain marks.
    pub fn do_call_method(&mut self, name: &str, argc: u32) -> (r: Step)
        requires old(self).has((chain_argc(argc) + 3) as nat),
        ensures call_method_result(*old(self), *final(self), name@, argc, r),
    {
        let ghost a = *self;
        let n = (argc % 0x4000_0000) as usize;
        let args = self.popn(n);
        let target = self.pop();
        let aux = self.pop();
        let tag = self.pop();
        let ghost base: int = a.stack().len() - n - 3;
        let ghost m = *self;
        proof {
            assert(m.stack() =~= a.stack().take(base));
            assert(popped_to(a, m, base));
            assert(args@ =~= a.stack().skip(base + 3));
        }
        let none: Vec<Keyword> = Vec::new();
        assert(none@.len() == 0);
        match tag {
            Value::Class(defclass) => match aux {
                Value::Func(f) => self.invoke_bound(f, target, defclass, args, none),
                _ => fault_step(Exc::RuntimeError, "internal: a method call without a function"),
            },
            Value::Unbound => self.invoke_native_method(target, name, args, none, argc >= 0x8000_0000, argc % 0x8000_0000 >= 0x4000_0000),
            _ => self.invoke(target, args, none),
        }
    }

    /// `CallEx`.
    pub fn do_call_ex(&mut self) -> (r: Step)
        requires old(self).has(3),
        ensures call_ex_result(*old(self), *final(self), r),
    {
        let ghost a = *self;
        let named = self.pop();
        let list = self.pop();
        let callee = self.pop();
        let ghost m = *self;
        proof {
            assert(m.stack() =~= a.stack().take(a.stack().len() - 3));
            assert(popped_to(a, m, a.stack().len() - 3));
        }
        let args = match list {
            Value::List(l) => self.heap.list_copy(l),
            _ => {
                return fault_step(Exc::RuntimeError, "internal: CallEx positional list malformed");
            }
        };
        let kwargs = match named {
            Value::Dict(d) => match read_keywords(&self.heap, d) {
                Ok(v) => v,
                Err(_) => {
                    return fault_step(Exc::TypeError, "keywords must be strings");
                }
            },
            _ => {
                return fault_step(Exc::RuntimeError, "internal: CallEx keyword dict malformed");
            }
        };
        assert(keyword_texts(kwargs@) == entry_keywords(a.heap, a.heap.dict(named->Dict_0)));
        self.invoke(callee, args, kwargs)
    }
}

} // verus!
