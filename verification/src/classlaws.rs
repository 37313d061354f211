//! What classes are for: members, operators and construction.
use vstd::prelude::*;
use crate::call::{instance_made, instantiate_result, len_result, stringify_result, user_result};
use crate::calllaws::{a_method_gets_receiver_and_argument, can_take_two, method_runs, runs, entering_runs_the_function, tidy};
use crate::catchlaws::leads_to;
use crate::code::{BinOp, Op, RelOp};
use crate::deep::{compare_result, compare_slow_result, deepened, pair_result};
use crate::dispatch::{call_result, popped_to};
use crate::exc::{Exc, VErr};
use crate::frame::ReturnAction;
use crate::machine::{Keyword, Step, Vm, MAX_FRAMES};
use crate::membership::relate_result;
use crate::step::step_result;
use crate::value::{Heap, MethodKind, Value};

verus! {

/// Going up the bases of `c`, the first class with a member `name` is the last
/// of the chain, and `v` is that member.
pub open spec fn nearest(h: Heap, c: usize, name: Seq<char>, chain: Seq<usize>, v: Value) -> bool {
    &&& leads_to(h, c, chain.last(), chain)
    &&& h.own_member(chain.last(), name) == Some(v)
    &&& forall|k: int| 0 <= k < chain.len() - 1 ==> h.own_member(#[trigger] chain[k], name) is None
}

/// The nearest member `name` of `c` is `v`, and class `d` defines it.
pub open spec fn comes_from(h: Heap, c: usize, name: Seq<char>, v: Value, d: usize) -> bool {
    exists|chain: Seq<usize>| #[trigger] nearest(h, c, name, chain, v) && chain.last() == d
}

/// A member is looked for in the class and then up its bases, and the first one
/// met is the one; there is none only where no class on the way has it.
pub proof fn members_come_from_the_nearest_class(h: Heap, c: usize, name: Seq<char>)
    ensures
        match h.find_member(c, name) {
            Some((v, d)) => comes_from(h, c, name, v, d),
            None => forall|d: usize, chain: Seq<usize>| #[trigger] leads_to(h, c, d, chain) ==> h.own_member(d, name) is None,
        },
    decreases c,
{
    match h.own_member(c, name) {
        Some(v) => {
            let chain = seq![c];
            assert(chain.last() == c);
            assert(nearest(h, c, name, chain, v));
            assert(comes_from(h, c, name, v, c));
        }
        None => {
            if let Some(b) = h.class_base(c) {
                members_come_from_the_nearest_class(h, b, name);
                if let Some((v, d)) = h.find_member(b, name) {
                    let up = choose|chain: Seq<usize>| #[trigger] nearest(h, b, name, chain, v) && chain.last() == d;
                    let chain = seq![c] + up;
                    assert forall|k: int| 0 <= k < chain.len() - 1 implies h.class_base(#[trigger] chain[k]) == Some(chain[k + 1])
                        && h.own_member(chain[k], name) is None by {
                        if k > 0 {
                            assert(chain[k] == up[k - 1]);
                        }
                    }
                    assert(chain.last() == up.last());
                    assert(nearest(h, c, name, chain, v));
                    assert(comes_from(h, c, name, v, d));
                }
            }
            if h.find_member(c, name) is None {
                assert forall|d: usize, chain: Seq<usize>| #[trigger] leads_to(h, c, d, chain) implies h.own_member(d, name) is None by {
                    if chain.len() > 1 {
                        assert(h.class_base(chain[0]) == Some(chain[1]));
                        let up = chain.skip(1);
                        assert forall|k: int| 0 <= k < up.len() - 1 implies h.class_base(#[trigger] up[k]) == Some(up[k + 1]) by {
                            assert(up[k] == chain[k + 1]);
                        }
                        assert(leads_to(h, chain[1], d, up));
                    }
                }
            }
        }
    }
}

pub proof fn lemma_nearest(h: Heap, c: usize, name: Seq<char>, chain: Seq<usize>, v: Value)
    requires nearest(h, c, name, chain, v),
    ensures h.find_member(c, name) == Some((v, chain.last())),
    decreases chain.len(),
{
    if chain.len() > 1 {
        assert(h.own_member(chain[0], name) is None);
        assert(h.class_base(chain[0]) == Some(chain[1]));
        let up = chain.skip(1);
        assert forall|k: int| 0 <= k < up.len() - 1 implies h.class_base(#[trigger] up[k]) == Some(up[k + 1])
            && h.own_member(up[k], name) is None by {
            assert(up[k] == chain[k + 1]);
        }
        lemma_nearest(h, chain[1], name, up, v);
    }
}

/// `v` is an instance, and the nearest member `name` of its class is function `f`.
pub open spec fn has_method(h: Heap, v: Value, name: Seq<char>, f: usize) -> bool {
    v matches Value::Instance(i) && exists|chain: Seq<usize>| #[trigger] nearest(h, h.instance_class(i), name, chain, Value::Func(f))
}

/// No class of the instance has a member `name`.
pub open spec fn lacks_method(h: Heap, v: Value, name: Seq<char>) -> bool {
    v matches Value::Instance(i) ==> forall|d: usize, chain: Seq<usize>| #[trigger] leads_to(h, h.instance_class(i), d, chain) ==> h.own_member(d, name) is None
}

proof fn lemma_has(h: Heap, v: Value, name: Seq<char>, f: usize) -> (c: usize)
    requires has_method(h, v, name, f),
    ensures h.method_of(v, name) == Some((f, c)),
{
    let i = v->Instance_0;
    let chain = choose|chain: Seq<usize>| #[trigger] nearest(h, h.instance_class(i), name, chain, Value::Func(f));
    lemma_nearest(h, h.instance_class(i), name, chain, Value::Func(f));
    chain.last()
}

proof fn lemma_lacks(h: Heap, v: Value, name: Seq<char>)
    requires lacks_method(h, v, name),
    ensures h.method_of(v, name) is None,
{
    if let Value::Instance(i) = v {
        members_come_from_the_nearest_class(h, h.instance_class(i), name);
        if let Some((m, d)) = h.find_member(h.instance_class(i), name) {
            let chain = choose|chain: Seq<usize>| #[trigger] nearest(h, h.instance_class(i), name, chain, m) && chain.last() == d;
            assert(leads_to(h, h.instance_class(i), d, chain));
        }
    }
}

/// The method each arithmetic operator is written as.
pub open spec fn written_as(op: BinOp, name: Seq<char>) -> bool {
    match op {
        BinOp::Add => name == "__add__"@,
        BinOp::Sub => name == "__sub__"@,
        BinOp::Mul => name == "__mul__"@,
        BinOp::Div => name == "__truediv__"@,
        BinOp::FloorDiv => name == "__floordiv__"@,
        BinOp::Mod => name == "__mod__"@,
        BinOp::Pow => name == "__pow__"@,
        _ => false,
    }
}

/// An arithmetic operator on an instance runs the method it is written as, with
/// the left operand as the receiver and the right one as the argument. Both are
/// off the stack when it runs.
pub proof fn operators_run_their_methods(a: Vm, b: Vm, op: BinOp, name: Seq<char>, f: usize, r: Step)
    requires
        step_result(a, b, Op::Binary(op), r),
        a.has(2),
        written_as(op, name),
        has_method(a.heap, a.stack()[a.stack().len() - 2], name, f),
        can_take_two(a, f),
    ensures
        method_runs(a, b, f, a.stack()[a.stack().len() - 2], a.stack()[a.stack().len() - 1], ReturnAction::Normal, r),
        b.task.frames@[a.task.frames@.len() - 1].stack@ == a.stack().take(a.stack().len() - 2),
{
    let x = a.stack()[a.stack().len() - 2];
    let y = a.stack()[a.stack().len() - 1];
    let c = lemma_has(a.heap, x, name, f);
    let m = choose|m: Vm| #[trigger] popped_to(a, m, a.stack().len() - 2)
        && user_result(m, b, f, x, c, seq![y], Seq::empty(), ReturnAction::Normal, r);
    a_method_gets_receiver_and_argument(m, b, f, x, c, y, ReturnAction::Normal, r);
    assert(b.task.frames@.drop_last()[a.task.frames@.len() - 1] == m.task.frames@.last());
}

/// The bit operators have no methods, and an arithmetic operator on an instance
/// without its method is a TypeError.
pub proof fn operators_without_methods_are_refused(a: Vm, b: Vm, op: BinOp, r: Step)
    requires
        step_result(a, b, Op::Binary(op), r),
        a.has(2),
        a.stack()[a.stack().len() - 2] is Instance,
        forall|name: Seq<char>| #[trigger] written_as(op, name) ==> lacks_method(a.heap, a.stack()[a.stack().len() - 2], name),
    ensures
        r matches Step::Fault(e) && e@.0 == Exc::TypeError,
        b.heap == a.heap,
{
    let x = a.stack()[a.stack().len() - 2];
    assert(op == BinOp::Add ==> written_as(op, "__add__"@));
    assert(op == BinOp::Sub ==> written_as(op, "__sub__"@));
    assert(op == BinOp::Mul ==> written_as(op, "__mul__"@));
    assert(op == BinOp::Div ==> written_as(op, "__truediv__"@));
    assert(op == BinOp::FloorDiv ==> written_as(op, "__floordiv__"@));
    assert(op == BinOp::Mod ==> written_as(op, "__mod__"@));
    assert(op == BinOp::Pow ==> written_as(op, "__pow__"@));
    if let Some(name) = crate::arith::op_dunder(op) {
        assert(written_as(op, name));
        lemma_lacks(a.heap, x, name);
    }
}

/// The method each comparison is written as, on its left operand and on its
/// right one.
pub open spec fn compared_as(op: RelOp, left: Seq<char>, right: Seq<char>) -> bool {
    match op {
        RelOp::Eq => left == "__eq__"@ && right == "__eq__"@,
        RelOp::NotEq => left == "__ne__"@ && right == "__ne__"@,
        RelOp::Lt => left == "__lt__"@ && right == "__gt__"@,
        RelOp::Gt => left == "__gt__"@ && right == "__lt__"@,
        RelOp::LtEq => left == "__le__"@ && right == "__ge__"@,
        RelOp::GtEq => left == "__ge__"@ && right == "__le__"@,
        _ => false,
    }
}

proof fn lemma_slow(a: Vm, b: Vm, op: RelOp, left: Seq<char>, right: Seq<char>, r: Step) -> (m: Vm)
    requires
        step_result(a, b, Op::Compare(op), r),
        a.has(2),
        compared_as(op, left, right),
        a.stack()[a.stack().len() - 2] is Instance || a.stack()[a.stack().len() - 1] is Instance,
        op == RelOp::Eq ==> a.heap.method_of(a.stack()[a.stack().len() - 2], "__eq__"@) is Some
            || a.heap.method_of(a.stack()[a.stack().len() - 1], "__eq__"@) is Some,
    ensures
        popped_to(a, m, a.stack().len() - 2),
        compare_slow_result(m, b, op, a.stack()[a.stack().len() - 2], a.stack()[a.stack().len() - 1], r),
{
    choose|m: Vm| #[trigger] popped_to(a, m, a.stack().len() - 2)
        && compare_result(m, b, op, a.operand(1), a.operand(0), r)
}

/// A comparison whose left operand has its method runs that method, with the
/// left operand as the receiver.
pub proof fn comparisons_run_their_methods(a: Vm, b: Vm, op: RelOp, left: Seq<char>, right: Seq<char>, f: usize, r: Step)
    requires
        step_result(a, b, Op::Compare(op), r),
        a.has(2),
        compared_as(op, left, right),
        has_method(a.heap, a.stack()[a.stack().len() - 2], left, f),
        can_take_two(a, f),
    ensures
        method_runs(a, b, f, a.stack()[a.stack().len() - 2], a.stack()[a.stack().len() - 1], ReturnAction::Normal, r),
{
    let x = a.stack()[a.stack().len() - 2];
    let y = a.stack()[a.stack().len() - 1];
    let c = lemma_has(a.heap, x, left, f);
    let m = lemma_slow(a, b, op, left, right, r);
    a_method_gets_receiver_and_argument(m, b, f, x, c, y, ReturnAction::Normal, r);
}

/// A comparison whose left operand has no method for it and whose right operand
/// has the mirrored one runs that, with the right operand as the receiver.
pub proof fn comparisons_fall_to_the_right(a: Vm, b: Vm, op: RelOp, left: Seq<char>, right: Seq<char>, f: usize, r: Step)
    requires
        step_result(a, b, Op::Compare(op), r),
        a.has(2),
        compared_as(op, left, right),
        lacks_method(a.heap, a.stack()[a.stack().len() - 2], left),
        op == RelOp::NotEq ==> lacks_method(a.heap, a.stack()[a.stack().len() - 2], "__eq__"@),
        has_method(a.heap, a.stack()[a.stack().len() - 1], right, f),
        can_take_two(a, f),
    ensures
        method_runs(a, b, f, a.stack()[a.stack().len() - 1], a.stack()[a.stack().len() - 2], ReturnAction::Normal, r),
{
    let x = a.stack()[a.stack().len() - 2];
    let y = a.stack()[a.stack().len() - 1];
    lemma_lacks(a.heap, x, left);
    if op == RelOp::NotEq {
        lemma_lacks(a.heap, x, "__eq__"@);
    }
    let c = lemma_has(a.heap, y, right, f);
    let m = lemma_slow(a, b, op, left, right, r);
    a_method_gets_receiver_and_argument(m, b, f, y, c, x, ReturnAction::Normal, r);
}

/// `!=` on an instance with `__eq__` and no `__ne__` runs `__eq__`, and its
/// answer will be turned round.
pub proof fn unequal_is_not_equal(a: Vm, b: Vm, f: usize, r: Step)
    requires
        step_result(a, b, Op::Compare(RelOp::NotEq), r),
        a.has(2),
        lacks_method(a.heap, a.stack()[a.stack().len() - 2], "__ne__"@),
        has_method(a.heap, a.stack()[a.stack().len() - 2], "__eq__"@, f),
        can_take_two(a, f),
    ensures
        method_runs(a, b, f, a.stack()[a.stack().len() - 2], a.stack()[a.stack().len() - 1], ReturnAction::NegateBool, r),
{
    let x = a.stack()[a.stack().len() - 2];
    let y = a.stack()[a.stack().len() - 1];
    lemma_lacks(a.heap, x, "__ne__"@);
    let c = lemma_has(a.heap, x, "__eq__"@, f);
    let m = lemma_slow(a, b, RelOp::NotEq, "__ne__"@, "__ne__"@, r);
    a_method_gets_receiver_and_argument(m, b, f, x, c, y, ReturnAction::NegateBool, r);
}

proof fn lemma_one_answer(h: Heap, op: RelOp, x: Value, y: Value, v: bool, one: Result<Option<bool>, VErr>, other: Result<Option<bool>, VErr>)
    requires
        relate_result(h, op, x, y, one),
        relate_result(h, op, x, y, other),
        one == Ok::<Option<bool>, VErr>(Some(v)),
    ensures other == one,
{
}

/// A comparison that needs no method leaves its answer in place of both
/// operands: the left one is the one pushed first.
pub proof fn comparisons_answer_in_place(a: Vm, b: Vm, op: RelOp, v: bool, native: Result<Option<bool>, VErr>, r: Step)
    requires
        step_result(a, b, Op::Compare(op), r),
        a.has(2),
        relate_result(a.heap, op, a.stack()[a.stack().len() - 2], a.stack()[a.stack().len() - 1], native),
        native == Ok::<Option<bool>, VErr>(Some(v)),
    ensures
        r is Next,
        b.stack() == a.stack().take(a.stack().len() - 2).push(Value::Bool(v)),
        b.heap == a.heap,
{
    let x = a.operand(1);
    let y = a.operand(0);
    let m = choose|m: Vm| #[trigger] popped_to(a, m, a.stack().len() - 2) && compare_result(m, b, op, x, y, r);
    let found = choose|found: Result<Option<bool>, VErr>| {
        &&& #[trigger] relate_result(m.heap, op, x, y, found)
        &&& match found {
            Err(e) => crate::wake::faults(r, e@.0, e@.1) && b == m,
            Ok(Some(w)) => r is Next && crate::machine::restacked(m, b, m.stack().push(Value::Bool(w))) && b.heap == m.heap,
            Ok(None) => compare_slow_result(m, b, op, x, y, r),
        }
    };
    lemma_one_answer(a.heap, op, x, y, v, native, found);
}

/// Reading an attribute of an instance: its own field comes first; then the
/// nearest member of its class, a function bound to the instance and anything
/// else as it is.
pub proof fn attributes_are_found_in_order(a: Vm, b: Vm, n: u32, i: usize, r: Step)
    requires
        step_result(a, b, Op::LoadAttr(n), r),
        a.has(1),
        a.stack().last() == Value::Instance(i),
    ensures
        forall|v: Value| a.heap.field(i, a.top().code.names@[n as int]@) == Some(v)
            ==> r is Next && b.stack() == #[trigger] a.stack().drop_last().push(v),
        forall|v: Value, chain: Seq<usize>| a.heap.field(i, a.top().code.names@[n as int]@) is None
            && #[trigger] nearest(a.heap, a.heap.instance_class(i), a.top().code.names@[n as int]@, chain, v) && !(v is Func)
            ==> r is Next && b.stack() == a.stack().drop_last().push(v),
        forall|f: usize, chain: Seq<usize>| a.heap.field(i, a.top().code.names@[n as int]@) is None
            && #[trigger] nearest(a.heap, a.heap.instance_class(i), a.top().code.names@[n as int]@, chain, Value::Func(f)) ==> {
            &&& r is Next
            &&& b.stack().len() == a.stack().len()
            &&& b.stack().last() is Method
            &&& b.heap.methods@[b.stack().last()->Method_0 as int].receiver == Value::Instance(i)
            &&& b.heap.methods@[b.stack().last()->Method_0 as int].kind == (MethodKind::User { func: f, defclass: chain.last() })
        },
{
    let name = a.top().code.names@[n as int]@;
    let c = a.heap.instance_class(i);
    assert(a.stack().take(a.stack().len() - 1) =~= a.stack().drop_last());
    assert forall|v: Value, chain: Seq<usize>| a.heap.field(i, name) is None && #[trigger] nearest(a.heap, c, name, chain, v) && !(v is Func)
        implies r is Next && b.stack() == a.stack().drop_last().push(v) by {
        lemma_nearest(a.heap, c, name, chain, v);
    }
    assert forall|f: usize, chain: Seq<usize>| a.heap.field(i, name) is None && #[trigger] nearest(a.heap, c, name, chain, Value::Func(f)) implies {
        &&& r is Next
        &&& b.stack().len() == a.stack().len()
        &&& b.stack().last() is Method
        &&& b.heap.methods@[b.stack().last()->Method_0 as int].receiver == Value::Instance(i)
        &&& b.heap.methods@[b.stack().last()->Method_0 as int].kind == (MethodKind::User { func: f, defclass: chain.last() })
    } by {
        lemma_nearest(a.heap, c, name, chain, Value::Func(f));
    }
}

/// A class without `__init__` makes an instance of itself without fields; one
/// with an `__init__` makes one and runs that on it, with the arguments given.
pub proof fn classes_make_instances(a: Vm, b: Vm, class: usize, args: Seq<Value>, kwargs: Seq<Keyword>, r: Step)
    requires
        instantiate_result(a, b, class, args, kwargs, r),
        a.running(),
        r is Next,
    ensures
        a.heap.instances@.len() < b.heap.instances@.len(),
        b.heap.instances@[a.heap.instances@.len() as int].class == class,
        (forall|d: usize, chain: Seq<usize>| #[trigger] leads_to(a.heap, class, d, chain) ==> a.heap.own_member(d, "__init__"@) is None)
            ==> b.stack() == a.stack().push(Value::Instance(a.heap.instances.len())),
        forall|f: usize, chain: Seq<usize>| #[trigger] nearest(a.heap, class, "__init__"@, chain, Value::Func(f)) && tidy(*a.heap.funcs@[f as int].code) ==> {
            &&& b.task.frames@.len() == a.task.frames@.len() + 1
            &&& b.task.frames@[a.task.frames@.len() - 1].stack@ == a.stack().push(Value::Instance(a.heap.instances.len()))
            &&& b.task.frames@.last().code == a.heap.funcs@[f as int].code
            &&& b.task.frames@.last().ret_action == ReturnAction::DropForInit
            &&& crate::calllaws::arrived(b.heap, b.task.frames@.last(), *b.task.frames@.last().code, Some(Value::Instance(a.heap.instances.len())), args, kwargs)
        },
{
    members_come_from_the_nearest_class(a.heap, class, "__init__"@);
    let me = Value::Instance(a.heap.instances.len());
    if let Some((v, d)) = a.heap.find_member(class, "__init__"@) {
        let chain = choose|chain: Seq<usize>| #[trigger] nearest(a.heap, class, "__init__"@, chain, v) && chain.last() == d;
        assert(leads_to(a.heap, class, d, chain));
        if let Value::Func(init) = v {
            let m = choose|m: Vm| #[trigger] instance_made(a, m, class)
                && user_result(m, b, init, me, d, args, kwargs, ReturnAction::DropForInit, r);
            assert(m.heap.instances@[a.heap.instances@.len() as int].class == class);
            if tidy(crate::bind::body_of(a.heap.funcs@[init as int].code)) {
                entering_runs_the_function(m, b, init, Some(me), Some((d, me)), args, kwargs, ReturnAction::DropForInit, r);
                assert(b.task.frames@.drop_last()[a.task.frames@.len() - 1] == m.task.frames@.last());
            }
            assert forall|f: usize, up: Seq<usize>| #[trigger] nearest(a.heap, class, "__init__"@, up, Value::Func(f)) implies f == init by {
                lemma_nearest(a.heap, class, "__init__"@, up, Value::Func(f));
            }
        } else {
            assert forall|f: usize, up: Seq<usize>| !#[trigger] nearest(a.heap, class, "__init__"@, up, Value::Func(f)) by {
                if nearest(a.heap, class, "__init__"@, up, Value::Func(f)) {
                    lemma_nearest(a.heap, class, "__init__"@, up, Value::Func(f));
                }
            }
        }
    } else {
        assert forall|f: usize, up: Seq<usize>| !#[trigger] nearest(a.heap, class, "__init__"@, up, Value::Func(f)) by {
            if nearest(a.heap, class, "__init__"@, up, Value::Func(f)) {
                lemma_nearest(a.heap, class, "__init__"@, up, Value::Func(f));
            }
        }
    }
}

/// A class statement makes a class of that name, with that base, that is an
/// exception class exactly when its base is one; its members are as written, the
/// later of two of one name.
pub proof fn class_statements_make_classes(a: Vm, b: Vm, n: u32, r: Step, k: int)
    requires
        step_result(a, b, Op::BuildClass(n), r),
        r is Next,
        a.has(a.top().code.classes@[n as int].members@.len() + 1),
        0 <= k < a.top().code.classes@[n as int].members@.len(),
        forall|j: int| k < j < a.top().code.classes@[n as int].members@.len()
            ==> (#[trigger] a.top().code.classes@[n as int].members@[j])@ != a.top().code.classes@[n as int].members@[k]@,
    ensures
        b.stack().last() == Value::Class(a.heap.classes.len()),
        b.heap.class_name(a.heap.classes.len()) == a.top().code.classes@[n as int].name@,
        b.heap.own_member(a.heap.classes.len(), a.top().code.classes@[n as int].members@[k]@)
            == Some(a.stack()[a.stack().len() - a.top().code.classes@[n as int].members@.len() + k]),
        a.top().code.classes@[n as int].has_base ==> {
            let base = a.stack()[a.stack().len() - a.top().code.classes@[n as int].members@.len() - 1];
            &&& base is Class
            &&& b.heap.classes@.last().base == Some(base->Class_0)
            &&& b.heap.is_exception_class(a.heap.classes.len()) == a.heap.is_exception_class(base->Class_0)
        },
        !a.top().code.classes@[n as int].has_base ==> b.heap.classes@.last().base is None && !b.heap.is_exception_class(a.heap.classes.len()),
{
    let spec = a.top().code.classes@[n as int];
    let m = spec.members@.len() as int;
    let vals = a.stack().skip(a.stack().len() - m);
    lemma_members(spec.members@, vals, m, k);
    assert(vals[k] == a.stack()[a.stack().len() - m + k]);
}

proof fn lemma_members(names: Seq<String>, vals: Seq<Value>, n: int, k: int)
    requires
        0 <= k < n <= names.len(),
        forall|j: int| k < j < n ==> (#[trigger] names[j])@ != names[k]@,
    ensures
        crate::objects::members_of(names, vals, n).dom().contains(names[k]@),
        crate::objects::members_of(names, vals, n)[names[k]@] == vals[k],
    decreases n,
{
    if k < n - 1 {
        lemma_members(names, vals, n - 1, k);
        assert(names[n - 1]@ != names[k]@);
    }
}

/// Inside a method, `super()` finds members from the base of the class that
/// defines the method on, bound to the same instance.
pub proof fn super_starts_at_the_base(a: Vm, b: Vm, c: usize, v: Value, r: Step)
    requires
        step_result(a, b, Op::LoadSuper, r),
        a.running(),
        a.top().super_ctx == Some((c, v)),
    ensures
        r is Next,
        b.stack().last() is Super,
        b.heap.supers@[b.stack().last()->Super_0 as int].instance == v,
        b.heap.supers@[b.stack().last()->Super_0 as int].start == b.heap.class_base(c),
        forall|name: Seq<char>, d: usize, member: Value, chain: Seq<usize>| b.heap.class_base(c) == Some(d)
            && #[trigger] nearest(b.heap, d, name, chain, member) && !(member is Func)
            ==> crate::attr::attr_of(b.natives, b.heap, b.stack().last(), name) == crate::attr::Attr::Plain(member),
        forall|name: Seq<char>, d: usize, f: usize, chain: Seq<usize>| b.heap.class_base(c) == Some(d)
            && #[trigger] nearest(b.heap, d, name, chain, Value::Func(f))
            ==> crate::attr::attr_of(b.natives, b.heap, b.stack().last(), name) == (crate::attr::Attr::Bound { recv: v, func: f, defclass: chain.last() }),
{
    assert forall|name: Seq<char>, d: usize, member: Value, chain: Seq<usize>| b.heap.class_base(c) == Some(d)
        && #[trigger] nearest(b.heap, d, name, chain, member) implies b.heap.find_member(d, name) == Some((member, chain.last())) by {
        lemma_nearest(b.heap, d, name, chain, member);
    }
}

/// `str(v)` of an instance runs `__str__` on it, or `__repr__` where that is all
/// it has; `repr(v)` the other way round; and `len(v)` runs `__len__`.
pub proof fn renderings_run_their_methods(a: Vm, b: Vm, v: Value, want_repr: bool, name: Seq<char>, other: Seq<char>, f: usize, r: Step)
    requires
        stringify_result(a, b, v, want_repr, r),
        want_repr ==> name == "__repr__"@ && other == "__str__"@,
        !want_repr ==> name == "__str__"@ && other == "__repr__"@,
        has_method(a.heap, v, name, f) || (lacks_method(a.heap, v, name) && has_method(a.heap, v, other, f)),
        tidy(*a.heap.funcs@[f as int].code),
        r is Next,
    ensures runs(a, b, f, Some(v), Seq::empty(), Seq::empty(), ReturnAction::Normal, r),
{
    let none: Seq<Keyword> = Seq::empty();
    if has_method(a.heap, v, name, f) {
        let c = lemma_has(a.heap, v, name, f);
        entering_runs_the_function(a, b, f, Some(v), Some((c, v)), Seq::empty(), none, ReturnAction::Normal, r);
    } else {
        lemma_lacks(a.heap, v, name);
        let c = lemma_has(a.heap, v, other, f);
        entering_runs_the_function(a, b, f, Some(v), Some((c, v)), Seq::empty(), none, ReturnAction::Normal, r);
    }
}

/// `len(v)` of an instance runs its `__len__`, and without one is a TypeError.
pub proof fn len_runs_its_method(a: Vm, b: Vm, v: Value, f: usize, r: Step)
    requires
        len_result(a, b, v, r),
        tidy(*a.heap.funcs@[f as int].code),
    ensures
        has_method(a.heap, v, "__len__"@, f) && r is Next ==> runs(a, b, f, Some(v), Seq::empty(), Seq::empty(), ReturnAction::Normal, r),
        lacks_method(a.heap, v, "__len__"@) ==> (r matches Step::Fault(e) && e@.0 == Exc::TypeError),
{
    let none: Seq<Keyword> = Seq::empty();
    if has_method(a.heap, v, "__len__"@, f) {
        let c = lemma_has(a.heap, v, "__len__"@, f);
        if r is Next {
            entering_runs_the_function(a, b, f, Some(v), Some((c, v)), Seq::empty(), none, ReturnAction::Normal, r);
        }
    }
    if lacks_method(a.heap, v, "__len__"@) {
        lemma_lacks(a.heap, v, "__len__"@);
    }
}

/// Calling a function with arguments on the stack runs it with them in order.
pub proof fn calls_pass_the_stack(a: Vm, b: Vm, n: int, f: usize, r: Step)
    requires
        call_result(a, b, n, r),
        0 <= n,
        a.has((n + 1) as nat),
        a.stack()[a.stack().len() - n - 1] == Value::Func(f),
        f < a.heap.funcs@.len(),
        tidy(*a.heap.funcs@[f as int].code),
        !a.heap.funcs@[f as int].code.is_generator,
        a.task.frames@.len() < MAX_FRAMES,
        r is Next,
    ensures
        b.task.frames@.len() == a.task.frames@.len() + 1,
        b.task.frames@.last().code == a.heap.funcs@[f as int].code,
        crate::calllaws::arrived(b.heap, b.task.frames@.last(), *b.task.frames@.last().code, None, a.stack().skip(a.stack().len() - n), Seq::empty()),
        b.task.frames@[a.task.frames@.len() - 1].stack@ == a.stack().take(a.stack().len() - n - 1),
{
    let base = a.stack().len() - n - 1;
    let (m, kw) = choose|m: Vm, kw: Vec<Keyword>| {
        &&& #[trigger] popped_to(a, m, base)
        &&& #[trigger] kw@.len() == 0
        &&& crate::dispatch::invoke_result(m, b, a.stack()[base], a.stack().skip(base + 1), kw, r)
    };
    assert(kw@ =~= Seq::empty());
    entering_runs_the_function(m, b, f, None, None, a.stack().skip(base + 1), kw@, ReturnAction::Normal, r);
    assert(b.task.frames@.drop_last()[a.task.frames@.len() - 1] == m.task.frames@.last());
}

/// Inside a list, a tuple or a dict too, a comparison runs the left item's
/// method, and the right item's mirrored one where the left has none; the answer
/// goes on to the comparison around it.
pub proof fn items_are_compared_by_their_methods(a: Vm, b: Vm, op: RelOp, x: Value, y: Value, left: Seq<char>, right: Seq<char>, f: usize, r: Step)
    requires
        pair_result(a, b, op, x, y, r),
        compared_as(op, left, right),
        op != RelOp::NotEq,
        x is Instance || y is Instance,
        can_take_two(a, f),
    ensures
        has_method(a.heap, x, left, f) ==> method_runs(a, b, f, x, y, ReturnAction::DriveCompare, r),
        lacks_method(a.heap, x, left) && has_method(a.heap, y, right, f) ==> method_runs(a, b, f, y, x, ReturnAction::DriveCompare, r),
{
    if has_method(a.heap, x, left, f) {
        let c = lemma_has(a.heap, x, left, f);
        let m = choose|m: Vm| #[trigger] deepened(a, m)
            && user_result(m, b, f, x, c, seq![y], Seq::empty(), ReturnAction::DriveCompare, r);
        a_method_gets_receiver_and_argument(m, b, f, x, c, y, ReturnAction::DriveCompare, r);
    } else if lacks_method(a.heap, x, left) && has_method(a.heap, y, right, f) {
        lemma_lacks(a.heap, x, left);
        let c = lemma_has(a.heap, y, right, f);
        let m = choose|m: Vm| #[trigger] deepened(a, m)
            && user_result(m, b, f, y, c, seq![x], Seq::empty(), ReturnAction::DriveCompare, r);
        a_method_gets_receiver_and_argument(m, b, f, y, c, x, ReturnAction::DriveCompare, r);
    }
}

} // verus!
