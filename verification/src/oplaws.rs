//! Where the instructions find their operands, and what they leave.
use vstd::prelude::*;
use crate::arith::op_symbol;
use crate::attr::attr_of;
use crate::calllaws::{arrived, entering_runs_the_function, tidy};
use crate::catchlaws::{built_in, except_takes_what_comes_under_it, exceptions_are_found_by_name, handled_by};
use crate::classlaws::{lemma_nearest, nearest};
use crate::code::{BinOp, Op, RelOp};
use crate::dispatch::{call_ex_result, call_method_result, popped_to};
use crate::exc::{exc_count, Exc, VErr};
use crate::exceptions::{exc_named, match_result, registered};
use crate::index::{assign_result, slice_result, subscript_result};
use crate::intlaws::fails_as;
use crate::keylaws::lemma_find;
use crate::keys::{find_key, same_key, unhashable};
use crate::machine::{Keyword, Step, Vm, MAX_FRAMES};
use crate::names::{kind_name, type_label};
use crate::objects::shown;
use crate::relation::rel_symbol;
use crate::repr::display;
use crate::step::step_result;
use crate::text::joined;
use crate::value::{Heap, Value};

verus! {

/// Constants, null and the exception being handled go on the stack.
pub proof fn loads_push(a: Vm, b: Vm, op: Op, i: u32, r: Step)
    requires
        step_result(a, b, op, r),
        a.running(),
    ensures
        op == Op::LoadConst(i) ==> r is Next && b.stack() == a.stack().push(a.top().code.consts@[i as int]),
        op == Op::LoadNone ==> r is Next && b.stack() == a.stack().push(Value::Null),
        op == Op::LoadHandling && a.task.handling@.len() > 0 ==> r is Next && b.stack() == a.stack().push(a.task.handling@[a.task.handling@.len() - 1]),
        op == Op::Jump(i) ==> r is Next && b.top().pc == i && b.stack() == a.stack(),
{
    if op == Op::Jump(i) {
        assert(b.stack() =~= a.stack());
    }
}

/// `obj[index]` has the object below the index, `obj[index] = v` the value below
/// the object below the index, and a slice the object below its three bounds.
pub proof fn subscripts_find_their_operands(a: Vm, b: Vm, op: Op, r: Step)
    requires
        step_result(a, b, op, r),
        a.has(4),
    ensures
        op == Op::LoadSubscript ==> exists|h: Heap, x: Result<Value, VErr>| {
            &&& #[trigger] subscript_result(a.heap, h, a.stack()[a.stack().len() - 2], a.stack()[a.stack().len() - 1], x)
            &&& x matches Ok(v) ==> r is Next && b.stack() == a.stack().take(a.stack().len() - 2).push(v) && b.heap == h
            &&& x matches Err(e) ==> fails_as(r, e@.0)
        },
        op == Op::StoreSubscript ==> exists|x: Result<(), VErr>| {
            &&& #[trigger] assign_result(a.heap, b.heap, a.stack()[a.stack().len() - 2], a.stack()[a.stack().len() - 1], a.stack()[a.stack().len() - 3], x)
            &&& x is Ok ==> r is Next && b.stack() == a.stack().take(a.stack().len() - 3)
            &&& x matches Err(e) ==> fails_as(r, e@.0)
        },
        op == Op::LoadSlice ==> exists|h: Heap, x: Result<Value, VErr>| {
            &&& #[trigger] slice_result(a.heap, h, a.stack()[a.stack().len() - 4], a.stack()[a.stack().len() - 3], a.stack()[a.stack().len() - 2],
                a.stack()[a.stack().len() - 1], x)
            &&& x matches Ok(v) ==> r is Next && b.stack() == a.stack().take(a.stack().len() - 4).push(v) && b.heap == h
            &&& x matches Err(e) ==> fails_as(r, e@.0)
        },
{
    let n = a.stack().len();
    assert(a.operand(0) == a.stack()[n - 1] && a.operand(1) == a.stack()[n - 2] && a.operand(2) == a.stack()[n - 3] && a.operand(3) == a.stack()[n - 4]);
    if op == Op::LoadSubscript {
        let (h, x) = choose|h: Heap, x: Result<Value, VErr>| #[trigger] subscript_result(a.heap, h, a.operand(1), a.operand(0), x)
            && crate::ops::gives(a, b, 2, h, x, r);
        assert(subscript_result(a.heap, h, a.stack()[n - 2], a.stack()[n - 1], x));
    }
    if op == Op::LoadSlice {
        let (h, x) = choose|h: Heap, x: Result<Value, VErr>| #[trigger] slice_result(a.heap, h, a.operand(3), a.operand(2), a.operand(1), a.operand(0), x)
            && crate::ops::gives(a, b, 4, h, x, r);
        assert(slice_result(a.heap, h, a.stack()[n - 4], a.stack()[n - 3], a.stack()[n - 2], a.stack()[n - 1], x));
    }
    if op == Op::StoreSubscript {
        let x = choose|x: Result<(), VErr>| {
            &&& #[trigger] assign_result(a.heap, b.heap, a.operand(1), a.operand(0), a.operand(2), x)
            &&& crate::machine::restacked(a, b, crate::ops::below(a, 3))
            &&& match x {
                Ok(_) => r is Next,
                Err(e) => crate::wake::faults(r, e@.0, e@.1),
            }
        };
        assert(assign_result(a.heap, b.heap, a.stack()[n - 2], a.stack()[n - 1], a.stack()[n - 3], x));
    }
}

/// `obj.name = v` has the value below the object.
pub proof fn attributes_are_stored(a: Vm, b: Vm, n: u32, i: usize, r: Step)
    requires
        step_result(a, b, Op::StoreAttr(n), r),
        a.has(2),
        a.stack().last() == Value::Instance(i),
        i < a.heap.instances@.len(),
    ensures
        r is Next,
        b.stack() == a.stack().take(a.stack().len() - 2),
        b.heap.field(i, a.top().code.names@[n as int]@) == Some(a.stack()[a.stack().len() - 2]),
{
}

/// A `match` on literals goes to the place of the literal that is the same key
/// as the value, and to the other place where none is.
pub proof fn matches_go_to_their_case(a: Vm, b: Vm, p: u32, d: usize, r: Step)
    requires
        step_result(a, b, Op::MatchDispatch(p), r),
        a.has(1),
        a.top().code.consts@[a.top().code.pairs@[p as int].0 as int] == Value::Dict(d),
        unhashable(a.heap, a.stack().last()) is None,
    ensures
        r is Next,
        b.stack() == a.stack().drop_last(),
        (forall|k: int| 0 <= k < a.heap.dict(d).len() ==> !same_key(a.heap, (#[trigger] a.heap.dict(d)[k]).0, a.stack().last()))
            ==> b.top().pc == a.top().code.pairs@[p as int].1,
        forall|k: int| 0 <= k < a.heap.dict(d).len() && same_key(a.heap, (#[trigger] a.heap.dict(d)[k]).0, a.stack().last())
            && (forall|j: int| 0 <= j < k ==> !same_key(a.heap, (#[trigger] a.heap.dict(d)[j]).0, a.stack().last()))
            && (a.heap.dict(d)[k].1 matches Value::Int(t) && 0 <= t <= usize::MAX) ==> b.top().pc == a.heap.dict(d)[k].1->Int_0,
{
    let v = a.stack().last();
    let es = a.heap.dict(d);
    lemma_find(a.heap, es, v, 0);
    assert(b.stack() =~= a.stack().drop_last());
    assert forall|k: int| 0 <= k < es.len() && same_key(a.heap, (#[trigger] es[k]).0, v)
        && (forall|j: int| 0 <= j < k ==> !same_key(a.heap, (#[trigger] es[j]).0, v))
        && (es[k].1 matches Value::Int(t) && 0 <= t <= usize::MAX) implies b.top().pc == es[k].1->Int_0 by {
        let f = find_key(a.heap, es, v, 0);
        assert(f is Some);
        if f->0 < k {
            assert(!same_key(a.heap, es[f->0].0, v));
        }
    }
}

/// A bare `raise` raises what is being handled again, and outside a handler is a
/// RuntimeError; a handler that ends forgets what it handled.
pub proof fn handlers_raise_again(a: Vm, b: Vm, op: Op, r: Step)
    requires
        step_result(a, b, op, r),
        a.running(),
    ensures
        op == Op::Reraise && a.task.handling@.len() > 0 ==> r == Step::Raise(a.task.handling@[a.task.handling@.len() - 1]),
        op == Op::Reraise && a.task.handling@.len() == 0 ==> fails_as(r, Exc::RuntimeError),
        op == Op::EndHandler && a.task.handling@.len() > 0 ==> r is Next && b.task.handling@ == a.task.handling@.drop_last(),
        op == Op::BeginFinally ==> r is Next && b.task.finally_why@.last() == crate::machine::Why::Normal,
{
}

/// `raise v` raises an instance of an exception class as it is, and nothing else.
pub proof fn raise_raises_exceptions(a: Vm, b: Vm, i: usize, r: Step)
    requires
        step_result(a, b, Op::Raise, r),
        a.has(1),
    ensures
        a.stack().last() == Value::Instance(i) && a.heap.is_exception_class(a.heap.instance_class(i)) ==> r == Step::Raise(Value::Instance(i)),
        a.stack().last() == Value::Instance(i) && !a.heap.is_exception_class(a.heap.instance_class(i)) ==> fails_as(r, Exc::TypeError),
        a.stack().last() is Str || a.stack().last() is Int || a.stack().last() is Null || a.stack().last() is Class ==> fails_as(r, Exc::TypeError),
{
}

/// An `except` clause has the exception below the class, and leaves whether it
/// takes it.
pub proof fn except_clauses_decide(a: Vm, b: Vm, reg: Seq<usize>, i: usize, n: Seq<char>, c: usize, m: Seq<char>, r: Step)
    requires
        step_result(a, b, Op::ExcMatch, r),
        a.has(2),
        registered(a.heap, reg),
        a.stack()[a.stack().len() - 2] == Value::Instance(i),
        a.stack()[a.stack().len() - 1] == Value::Class(c),
        built_in(a.heap, reg, a.heap.instance_class(i), n),
        built_in(a.heap, reg, c, m),
    ensures
        r is Next,
        b.stack() == a.stack().take(a.stack().len() - 2).push(Value::Bool(handled_by(n, m))),
{
    let x = choose|x: Result<bool, VErr>| {
        &&& #[trigger] match_result(a.heap, a.operand(1), a.operand(0), x)
        &&& b.heap == a.heap
        &&& match x {
            Ok(v) => r is Next && crate::machine::restacked(a, b, crate::ops::below(a, 2).push(Value::Bool(v))),
            Err(e) => crate::wake::faults(r, e@.0, e@.1) && crate::machine::restacked(a, b, crate::ops::below(a, 2)),
        }
    };
    except_takes_what_comes_under_it(a.heap, reg, i, n, c, m, x);
}

/// What each of these is shown as.
pub open spec fn displays(h: Heap, vs: Seq<Value>) -> Seq<Seq<char>> {
    vs.map_values(|v: Value| display(h, v))
}

proof fn lemma_shown(h: Heap, vs: Seq<Value>, n: int)
    requires 0 <= n <= vs.len(),
    ensures shown(h, vs, n) == joined(displays(h, vs.take(n)), Seq::empty()),
    decreases n,
{
    let parts = displays(h, vs.take(n));
    if n > 0 {
        lemma_shown(h, vs, n - 1);
        assert(parts.drop_last() =~= displays(h, vs.take(n - 1)));
        assert(parts.last() == display(h, vs[n - 1]));
        let none: Seq<char> = Seq::empty();
        if n == 1 {
            assert(shown(h, vs, 0) =~= none);
            assert(shown(h, vs, 1) =~= parts[0]);
        } else {
            assert(joined(parts.drop_last(), none) + none =~= joined(parts.drop_last(), none));
        }
    } else {
        assert(parts.len() == 0);
    }
}

/// A text with parts in it is all of them as they are shown, in a row.
pub proof fn texts_are_put_together(a: Vm, b: Vm, n: u32, r: Step)
    requires
        step_result(a, b, Op::BuildString(n), r),
        a.has(n as nat),
    ensures
        r is Next,
        b.stack().len() == a.stack().len() - n + 1,
        b.stack().last() matches Value::Str(s)
            && b.heap.text(s) == joined(displays(a.heap, a.stack().skip(a.stack().len() - n)), Seq::empty()),
{
    let vs = a.stack().skip(a.stack().len() - n);
    lemma_shown(a.heap, vs, n as int);
    assert(vs.take(n as int) =~= vs);
}

/// A method call in two steps: finding the method of an instance leaves what the
/// call needs below the arguments to come.
pub proof fn methods_are_found_for_calling(a: Vm, b: Vm, n: u32, i: usize, f: usize, chain: Seq<usize>, r: Step)
    requires
        step_result(a, b, Op::LoadMethod(n), r),
        a.has(1),
        a.stack().last() == Value::Instance(i),
        a.heap.field(i, a.top().code.names@[n as int]@) is None,
        nearest(a.heap, a.heap.instance_class(i), a.top().code.names@[n as int]@, chain, Value::Func(f)),
    ensures
        r is Next,
        b.stack() == a.stack().drop_last() + seq![Value::Class(chain.last()), Value::Func(f), Value::Instance(i)],
{
    let name = a.top().code.names@[n as int]@;
    lemma_nearest(a.heap, a.heap.instance_class(i), name, chain, Value::Func(f));
    assert(attr_of(a.natives, a.heap, Value::Instance(i), name) == (crate::attr::Attr::Bound { recv: Value::Instance(i), func: f, defclass: chain.last() }));
    assert(a.stack().take(a.stack().len() - 1) =~= a.stack().drop_last());
}

/// And calling it runs it on the instance, with the arguments in order.
pub proof fn found_methods_run(a: Vm, b: Vm, name: Seq<char>, argc: u32, f: usize, c: usize, recv: Value, r: Step)
    requires
        call_method_result(a, b, name, argc, r),
        argc < 0x4000_0000,
        a.has((argc + 3) as nat),
        a.stack()[a.stack().len() - argc - 3] == Value::Class(c),
        a.stack()[a.stack().len() - argc - 2] == Value::Func(f),
        a.stack()[a.stack().len() - argc - 1] == recv,
        f < a.heap.funcs@.len(),
        tidy(*a.heap.funcs@[f as int].code),
        !a.heap.funcs@[f as int].code.is_generator,
        a.task.frames@.len() < MAX_FRAMES,
        r is Next,
    ensures
        b.task.frames@.len() == a.task.frames@.len() + 1,
        b.task.frames@.last().code == a.heap.funcs@[f as int].code,
        b.task.frames@.last().super_ctx == Some((c, recv)),
        arrived(b.heap, b.task.frames@.last(), *b.task.frames@.last().code, Some(recv), a.stack().skip(a.stack().len() - argc), Seq::empty()),
        b.task.frames@[a.task.frames@.len() - 1].stack@ == a.stack().take(a.stack().len() - argc - 3),
{
    let base = a.stack().len() - argc - 3;
    let args = a.stack().skip(base + 3);
    let (m, kw) = choose|m: Vm, kw: Vec<Keyword>| {
        &&& #[trigger] popped_to(a, m, base)
        &&& #[trigger] kw@.len() == 0
        &&& crate::dispatch::bound_result(m, b, f, recv, c, args, kw@, r)
    };
    assert(kw@ =~= Seq::empty());
    entering_runs_the_function(m, b, f, Some(recv), Some((c, recv)), args, kw@, crate::frame::ReturnAction::Normal, r);
    assert(b.task.frames@.drop_last()[a.task.frames@.len() - 1] == m.task.frames@.last());
}

/// `f(*args)` runs `f` with the items of the list.
pub proof fn spread_calls_pass_the_list(a: Vm, b: Vm, f: usize, l: usize, d: usize, r: Step)
    requires
        call_ex_result(a, b, r),
        a.has(3),
        a.stack()[a.stack().len() - 3] == Value::Func(f),
        a.stack()[a.stack().len() - 2] == Value::List(l),
        a.stack()[a.stack().len() - 1] == Value::Dict(d),
        a.heap.dict(d).len() == 0,
        f < a.heap.funcs@.len(),
        tidy(*a.heap.funcs@[f as int].code),
        !a.heap.funcs@[f as int].code.is_generator,
        a.task.frames@.len() < MAX_FRAMES,
        r is Next,
    ensures
        b.task.frames@.len() == a.task.frames@.len() + 1,
        b.task.frames@.last().code == a.heap.funcs@[f as int].code,
        arrived(b.heap, b.task.frames@.last(), *b.task.frames@.last().code, None, a.heap.list(l), Seq::empty()),
{
    let m = choose|m: Vm| #[trigger] popped_to(a, m, a.stack().len() - 3)
        && exists|kw: Vec<Keyword>| #[trigger] crate::dispatch::keyword_texts(kw@) == crate::dispatch::entry_keywords(a.heap, a.heap.dict(d))
            && crate::dispatch::invoke_result(m, b, Value::Func(f), a.heap.list(l), kw, r);
    let kw = choose|kw: Vec<Keyword>| #[trigger] crate::dispatch::keyword_texts(kw@) == crate::dispatch::entry_keywords(a.heap, a.heap.dict(d))
        && crate::dispatch::invoke_result(m, b, Value::Func(f), a.heap.list(l), kw, r);
    assert(crate::dispatch::keyword_texts(kw@).len() == kw@.len());
    assert(crate::dispatch::entry_keywords(a.heap, a.heap.dict(d)).len() == 0);
    assert(kw@ =~= Seq::empty());
    entering_runs_the_function(m, b, f, None, None, a.heap.list(l), kw@, crate::frame::ReturnAction::Normal, r);
}

/// A variable without a value is a NameError; one with a value goes on the stack.
pub proof fn variables_need_a_value(a: Vm, b: Vm, op: Op, s: u32, r: Step)
    requires
        step_result(a, b, op, r),
        a.running(),
    ensures
        op == Op::LoadFast(s) && a.top().locals@[s as int] is Unbound ==> fails_as(r, Exc::NameError),
        op == Op::LoadFast(s) && !(a.top().locals@[s as int] is Unbound) ==> r is Next && b.stack() == a.stack().push(a.top().locals@[s as int]),
        op == Op::LoadCell(s) && a.heap.cell(a.top().cells@[s as int]) is Unbound ==> fails_as(r, Exc::NameError),
        op == Op::LoadCell(s) && !(a.heap.cell(a.top().cells@[s as int]) is Unbound)
            ==> r is Next && b.stack() == a.stack().push(a.heap.cell(a.top().cells@[s as int])),
        op == Op::LoadFree(s) && a.heap.cell(a.top().free@[s as int]) is Unbound ==> fails_as(r, Exc::NameError),
        op == Op::LoadFree(s) && !(a.heap.cell(a.top().free@[s as int]) is Unbound)
            ==> r is Next && b.stack() == a.stack().push(a.heap.cell(a.top().free@[s as int])),
{
}

/// A name of the whole program is a built-in exception, or what the host's
/// library has under it, and otherwise a NameError.
pub proof fn global_names(a: Vm, b: Vm, n: u32, e: Exc, r: Step)
    requires
        step_result(a, b, Op::LoadGlobal(n), r),
        a.running(),
        registered(a.heap, a.excs@),
    ensures
        a.top().code.names@[n as int]@ == e.spec_name() ==> r is Next
            && (b.stack().last() matches Value::Class(c) && built_in(a.heap, a.excs@, c, e.spec_name())),
        (forall|x: Exc| #[trigger] x.spec_name() != a.top().code.names@[n as int]@) ==> match a.natives.globals.spec_get(a.top().code.names@[n as int]@) {
            Some(v) => r is Next && b.stack() == a.stack().push(v),
            None => fails_as(r, Exc::NameError),
        },
{
    let name = a.top().code.names@[n as int]@;
    if name == e.spec_name() {
        exceptions_are_found_by_name(a.heap, a.excs@, e);
    }
    if forall|x: Exc| #[trigger] x.spec_name() != name {
        lemma_no_exception(name, 0);
    }
}

proof fn lemma_no_exception(name: Seq<char>, from: int)
    requires forall|x: Exc| #[trigger] x.spec_name() != name,
    ensures exc_named(name, from) is None,
    decreases exc_count() - from,
{
    if 0 <= from < exc_count() {
        assert(Exc::spec_at(from).spec_name() != name);
        lemma_no_exception(name, from + 1);
    }
}

/// An attribute that an instance has neither as a field nor from its classes,
/// and that is none of the conversions, is an AttributeError; so is one that a
/// class does not have.
pub proof fn missing_attributes(a: Vm, b: Vm, n: u32, r: Step)
    requires
        step_result(a, b, Op::LoadAttr(n), r),
        a.has(1),
    ensures
        a.stack().last() matches Value::Instance(i) ==> a.heap.field(i, a.top().code.names@[n as int]@) is None
            && a.heap.find_member(a.heap.instance_class(i), a.top().code.names@[n as int]@) is None
            && !crate::attr::listed(a.natives.casts@, a.top().code.names@[n as int]@) ==> fails_as(r, Exc::AttributeError),
        a.stack().last() matches Value::Class(c) ==> match a.heap.find_member(c, a.top().code.names@[n as int]@) {
            Some((v, d)) => r is Next && b.stack() == a.stack().drop_last().push(v),
            None => fails_as(r, Exc::AttributeError),
        },
        a.stack().last() matches Value::Module(m) ==> (m < a.heap.modules@.len()
            ==> match a.heap.modules@[m as int].members.spec_get(a.top().code.names@[n as int]@) {
                Some(v) => r is Next && b.stack() == a.stack().drop_last().push(v),
                None => fails_as(r, Exc::AttributeError),
            }),
{
    assert(a.stack().take(a.stack().len() - 1) =~= a.stack().drop_last());
}

/// What diagnostics call the kinds of values.
pub proof fn kinds_have_their_names(h: Heap, v: Value)
    ensures
        v is Null ==> kind_name(h, v) == "null"@,
        v is Bool ==> kind_name(h, v) == "bool"@,
        v is Int || v is Big ==> kind_name(h, v) == "int"@,
        v is Float ==> kind_name(h, v) == "float"@,
        v is Str ==> kind_name(h, v) == "str"@,
        v is Bytes ==> kind_name(h, v) == "bytes"@,
        v is List ==> kind_name(h, v) == "list"@,
        v is Tuple ==> kind_name(h, v) == "tuple"@,
        v is Dict ==> kind_name(h, v) == "dict"@,
        v is Range ==> kind_name(h, v) == "range"@,
        v is Func ==> kind_name(h, v) == "function"@,
        v is Module ==> kind_name(h, v) == "module"@,
        v is Generator ==> kind_name(h, v) == "generator"@,
        v is Task ==> kind_name(h, v) == "Task"@,
        v is Channel ==> kind_name(h, v) == "Channel"@,
        v matches Value::Instance(i) ==> type_label(h, v) == h.class_name(h.instance_class(i)),
        !(v is Instance) ==> type_label(h, v) == kind_name(h, v),
{
}

/// What diagnostics call the operators.
pub proof fn operators_have_their_symbols(op: BinOp, rel: RelOp)
    ensures
        op == BinOp::Add ==> op_symbol(op) == "+"@,
        op == BinOp::Sub ==> op_symbol(op) == "-"@,
        op == BinOp::Mul ==> op_symbol(op) == "*"@,
        op == BinOp::Div ==> op_symbol(op) == "/"@,
        op == BinOp::FloorDiv ==> op_symbol(op) == "//"@,
        op == BinOp::Mod ==> op_symbol(op) == "%"@,
        op == BinOp::Pow ==> op_symbol(op) == "**"@,
        op == BinOp::BitAnd ==> op_symbol(op) == "&"@,
        op == BinOp::BitOr ==> op_symbol(op) == "|"@,
        op == BinOp::BitXor ==> op_symbol(op) == "^"@,
        op == BinOp::Shl ==> op_symbol(op) == "<<"@,
        op == BinOp::Shr ==> op_symbol(op) == ">>"@,
        rel == RelOp::Lt ==> rel_symbol(rel) == "<"@,
        rel == RelOp::Gt ==> rel_symbol(rel) == ">"@,
        rel == RelOp::LtEq ==> rel_symbol(rel) == "<="@,
        rel == RelOp::GtEq ==> rel_symbol(rel) == ">="@,
{
}

} // verus!
