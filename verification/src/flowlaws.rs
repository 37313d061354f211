//! Where control goes: branches, loops, exceptions and `finally`.
use vstd::prelude::*;
use crate::code::{CaptureSource, Op};
use crate::control::last_stop;
use crate::exc::Exc;
use crate::flow::{block_off, caught, chains_kept, exit_code_in, frame_lost, lemma_frame_lost, unwind_from, unwind_result};
use crate::frame::{Block, BlockKind, Frame};
use crate::intlaws::fails_as;
use crate::machine::{Step, Vm, Why};
use crate::memberlaws::plain;
use crate::relationlaws::whole;
use crate::step::step_result;
use crate::value::{Heap, Value};

verus! {

/// What the instructions that only move values leave on the stack, place by
/// place from the top.
pub proof fn stack_moves(a: Vm, b: Vm, op: Op, r: Step)
    requires
        step_result(a, b, op, r),
        a.has(3),
    ensures
        op == Op::Pop ==> r is Next && b.stack() == a.stack().drop_last(),
        op == Op::Dup ==> r is Next && b.stack().len() == a.stack().len() + 1 && b.operand(0) == a.operand(0) && b.operand(1) == a.operand(0)
            && b.operand(2) == a.operand(1),
        op == Op::DupTwo ==> r is Next && b.stack().len() == a.stack().len() + 2 && b.operand(0) == a.operand(0) && b.operand(1) == a.operand(1)
            && b.operand(2) == a.operand(0) && b.operand(3) == a.operand(1),
        op == Op::RotTwo ==> r is Next && b.stack().len() == a.stack().len() && b.operand(0) == a.operand(1) && b.operand(1) == a.operand(0)
            && b.operand(2) == a.operand(2),
        op == Op::RotThree ==> r is Next && b.stack().len() == a.stack().len() && b.operand(0) == a.operand(1) && b.operand(1) == a.operand(2)
            && b.operand(2) == a.operand(0),
        op == Op::Pop || op == Op::Dup || op == Op::DupTwo || op == Op::RotTwo || op == Op::RotThree ==> b.heap == a.heap && b.top().pc == a.top().pc,
{
    if op == Op::Pop {
        assert(b.stack() =~= a.stack().drop_last());
    }
}

/// A conditional jump goes to its target exactly when the bool on the stack is
/// the one it waits for, and takes it off either way; anything but a bool is a
/// TypeError.
pub proof fn conditions_decide_jumps(a: Vm, b: Vm, t: u32, r: Step)
    requires
        a.has(1),
        step_result(a, b, Op::PopJumpIfFalse(t), r) || step_result(a, b, Op::PopJumpIfTrue(t), r),
    ensures
        step_result(a, b, Op::PopJumpIfFalse(t), r) && a.stack().last() == Value::Bool(false) ==> r is Next && b.top().pc == t,
        step_result(a, b, Op::PopJumpIfFalse(t), r) && a.stack().last() == Value::Bool(true) ==> r is Next && b.top().pc == a.top().pc,
        step_result(a, b, Op::PopJumpIfTrue(t), r) && a.stack().last() == Value::Bool(true) ==> r is Next && b.top().pc == t,
        step_result(a, b, Op::PopJumpIfTrue(t), r) && a.stack().last() == Value::Bool(false) ==> r is Next && b.top().pc == a.top().pc,
        b.stack() == a.stack().drop_last(),
        !(a.stack().last() is Bool) ==> fails_as(r, Exc::TypeError),
{
    assert(b.stack() =~= a.stack().drop_last());
}

/// A plain value that counts as false: nothing, false, zero, or empty.
pub open spec fn counts_as_false(h: Heap, v: Value) -> bool {
    ||| v is Null
    ||| whole(h, v) == Some(0int)
    ||| (v matches Value::Str(x) && h.text(x).len() == 0)
    ||| (v matches Value::Bytes(x) && h.octets(x).len() == 0)
    ||| (v matches Value::List(x) && h.list(x).len() == 0)
    ||| (v matches Value::Tuple(x) && h.tuple(x).len() == 0)
    ||| (v matches Value::Dict(x) && h.dict(x).len() == 0)
}

/// What has a truth value that its contents give.
pub open spec fn has_truth(h: Heap, v: Value) -> bool {
    plain(h, v) || v is List || v is Tuple || v is Dict || v is Func || v is Class || v is Instance
}

/// `and` keeps its left operand and is done where that counts as false, and goes
/// on to the right one otherwise; `or` where it counts as true. `not` turns the
/// truth round.
pub proof fn and_or_not(a: Vm, b: Vm, op: Op, t: u32, r: Step)
    requires
        a.has(1),
        step_result(a, b, op, r),
        has_truth(a.heap, a.stack().last()),
    ensures
        op == Op::JumpIfFalseOrPop(t) && counts_as_false(a.heap, a.stack().last()) ==> b.stack() == a.stack() && b.top().pc == t && r is Next,
        op == Op::JumpIfFalseOrPop(t) && !counts_as_false(a.heap, a.stack().last())
            ==> b.stack() == a.stack().drop_last() && b.top().pc == a.top().pc && r is Next,
        op == Op::JumpIfTrueOrPop(t) && !counts_as_false(a.heap, a.stack().last()) ==> b.stack() == a.stack() && b.top().pc == t && r is Next,
        op == Op::JumpIfTrueOrPop(t) && counts_as_false(a.heap, a.stack().last())
            ==> b.stack() == a.stack().drop_last() && b.top().pc == a.top().pc && r is Next,
        op == Op::UnaryNot ==> b.stack() == a.stack().drop_last().push(Value::Bool(counts_as_false(a.heap, a.stack().last()))) && r is Next,
{
    assert(a.stack().take(a.stack().len() - 1) =~= a.stack().drop_last());
    assert(a.stack().take(a.stack().len() - 0) =~= a.stack());
}

/// Block `k` of the frame takes exceptions, and none inside it does.
pub open spec fn innermost(blocks: Seq<Block>, k: int) -> bool {
    &&& 0 <= k < blocks.len()
    &&& !(blocks[k].kind is Loop)
    &&& forall|j: int| k < j < blocks.len() ==> (#[trigger] blocks[j]).kind is Loop
}

/// No block of the frame takes exceptions.
pub open spec fn takes_none(blocks: Seq<Block>) -> bool {
    forall|j: int| 0 <= j < blocks.len() ==> (#[trigger] blocks[j]).kind is Loop
}

/// The handler nearest to where control is: block `k` of frame `i`.
pub open spec fn handler_at(frames: Seq<Frame>, i: int, k: int) -> bool {
    &&& 0 <= i < frames.len()
    &&& innermost(frames[i].blocks@, k)
    &&& forall|j: int| i < j < frames.len() ==> takes_none((#[trigger] frames[j]).blocks@)
}

/// The stack as it was when the block was entered.
pub open spec fn stack_then(s: Seq<Value>, n: int) -> Seq<Value> {
    s.take(if n < s.len() { n } else { s.len() as int })
}

/// The exception has arrived at block `k` of frame `i`.
pub open spec fn arrived_at(a: Vm, b: Vm, i: int, k: int, exc: Value) -> bool {
    let f = a.task.frames@[i];
    let block = f.blocks@[k];
    &&& b.task.frames@.len() == i + 1
    &&& b.task.frames@.take(i) == a.task.frames@.take(i)
    &&& b.task.frames@[i].pc == block.target
    &&& b.task.frames@[i].code == f.code
    &&& b.task.frames@[i].locals == f.locals
    &&& b.task.frames@[i].blocks@ == f.blocks@.take(k)
    &&& b.task.frames@[i].stack@ == stack_then(f.stack@, block.stack_len as int)
    &&& block.kind is Except ==> b.task.handling@ == a.task.handling@.push(exc) && b.task.finally_why@ == a.task.finally_why@
    &&& block.kind is Finally ==> b.task.finally_why@ == a.task.finally_why@.push(Why::Raise(exc)) && b.task.handling@ == a.task.handling@
}

/// No loop inside the block cuts the stack lower than the block does.
pub open spec fn nested(blocks: Seq<Block>, k: int) -> bool {
    forall|j: int| k < j < blocks.len() ==> (#[trigger] blocks[j]).stack_len >= blocks[k].stack_len
}

proof fn lemma_arrives(a: Vm, b: Vm, i: int, k: int, exc: Value, r: bool)
    requires
        unwind_from(a, b, exc, r),
        handler_at(a.task.frames@, i, k),
        nested(a.task.frames@[i].blocks@, k),
    ensures
        !r,
        arrived_at(a, b, i, k, exc),
    decreases a.task.frames@.len(), a.top().blocks@.len(),
{
    let fs = a.task.frames@;
    let n = fs.len() as int;
    let bs = a.top().blocks@;
    if bs.len() > 0 {
        let m = choose|m: Vm| #[trigger] block_off(a, m) && if bs.last().kind is Loop {
            unwind_from(m, b, exc, r)
        } else {
            !r && caught(m, b, bs.last(), exc)
        };
        let gs = m.task.frames@;
        assert forall|j: int| 0 <= j < n - 1 implies #[trigger] gs[j] == fs[j] by {
            assert(gs.drop_last()[j] == fs.drop_last()[j]);
        }
        if bs.last().kind is Loop {
            let cs = gs[n - 1].blocks@;
            assert(cs == bs.drop_last());
            if i == n - 1 {
                assert(k < bs.len() - 1);
                assert(cs[k] == bs[k]);
                assert forall|j: int| k < j < cs.len() implies (#[trigger] cs[j]).kind is Loop && cs[j].stack_len >= cs[k].stack_len by {
                    assert(cs[j] == bs[j]);
                }
            } else {
                assert(takes_none(fs[n - 1].blocks@));
                assert forall|j: int| i < j < gs.len() implies takes_none((#[trigger] gs[j]).blocks@) by {
                    if j < n - 1 {
                        assert(takes_none(fs[j].blocks@));
                    } else {
                        assert forall|l: int| 0 <= l < cs.len() implies (#[trigger] cs[l]).kind is Loop by {
                            assert(cs[l] == bs[l]);
                        }
                    }
                }
                assert(gs[i] == fs[i]);
            }
            lemma_arrives(m, b, i, k, exc, r);
            assert(gs.take(i) =~= fs.take(i));
            if i == n - 1 {
                assert(bs[bs.len() - 1].stack_len >= bs[k].stack_len);
                assert(stack_then(gs[i].stack@, cs[k].stack_len as int) =~= stack_then(fs[i].stack@, bs[k].stack_len as int));
                assert(cs.take(k) =~= bs.take(k));
            }
        } else {
            if i < n - 1 {
                assert(takes_none(fs[n - 1].blocks@));
                assert(bs[bs.len() - 1].kind is Loop);
            }
            if k < bs.len() - 1 {
                assert(bs[bs.len() - 1].kind is Loop);
            }
            assert(b.task.frames@.take(i) =~= fs.take(i)) by {
                assert forall|j: int| 0 <= j < n - 1 implies #[trigger] b.task.frames@[j] == fs[j] by {
                    assert(b.task.frames@.drop_last()[j] == gs.drop_last()[j]);
                    assert(gs[j] == fs[j]);
                }
            }
            assert(bs.take(k) =~= bs.drop_last());
            assert(b.task.frames@[i].stack@ =~= stack_then(fs[i].stack@, bs[k].stack_len as int));
        }
    } else {
        let m = choose|m: Vm| #[trigger] frame_lost(a, m, exc) && m.task.frames@.len() < a.task.frames@.len() && unwind_from(m, b, exc, r);
        lemma_frame_lost(a, m, exc);
        let gs = m.task.frames@;
        assert(i < n - 1);
        assert forall|j: int| i < j < gs.len() implies takes_none((#[trigger] gs[j]).blocks@) by {
            assert(takes_none(fs[j].blocks@));
        }
        assert(gs[i] == fs[i]);
        lemma_arrives(m, b, i, k, exc, r);
        assert(gs.take(i) =~= fs.take(i));
    }
}

/// An exception goes to the nearest handler: the innermost `try` that is open,
/// of the innermost call that has one. The calls above it are gone, the stack
/// is as it was when the `try` began, and the handler has the exception; a
/// `finally` has it to raise again.
pub proof fn exceptions_go_to_the_nearest_handler(a: Vm, b: Vm, i: int, k: int, exc: Value, r: bool)
    requires
        unwind_result(a, b, exc, r),
        handler_at(a.task.frames@, i, k),
        nested(a.task.frames@[i].blocks@, k),
    ensures
        !r,
        arrived_at(a, b, i, k, exc),
{
    let m = choose|m: Vm| #[trigger] chains_kept(a, m) && unwind_from(m, b, exc, r);
    lemma_arrives(m, b, i, k, exc, r);
}

/// Block `k` is the innermost loop or `finally`.
pub open spec fn way_out(blocks: Seq<Block>, k: int) -> bool {
    &&& 0 <= k < blocks.len()
    &&& !(blocks[k].kind is Except)
    &&& forall|j: int| k < j < blocks.len() ==> (#[trigger] blocks[j]).kind is Except
}

proof fn lemma_way_out(blocks: Seq<Block>, k: int)
    requires way_out(blocks, k),
    ensures last_stop(blocks) == Some(k),
    decreases blocks.len(),
{
    if k < blocks.len() - 1 {
        let d = blocks.drop_last();
        assert(blocks[blocks.len() - 1].kind is Except);
        assert forall|j: int| k < j < d.len() implies (#[trigger] d[j]).kind is Except by {
            assert(d[j] == blocks[j]);
        }
        lemma_way_out(d, k);
    } else {
        assert(blocks.last() == blocks[k]);
    }
}

/// `break` leaves the innermost loop, by way of the `finally` blocks inside it:
/// control is behind the loop with the loop's block gone, or in the `finally`
/// with the `break` to be done when that ends.
pub proof fn break_leaves_the_loop(a: Vm, b: Vm, k: int, r: Step)
    requires
        step_result(a, b, Op::Break, r),
        a.running(),
        way_out(a.top().blocks@, k),
    ensures
        r is Next,
        b.top().pc == a.top().blocks@[k].target,
        b.top().blocks@ == a.top().blocks@.take(k),
        b.stack() == stack_then(a.stack(), a.top().blocks@[k].stack_len as int),
        a.top().blocks@[k].kind is Loop ==> b.task.finally_why@ == a.task.finally_why@,
        a.top().blocks@[k].kind is Finally ==> b.task.finally_why@ == a.task.finally_why@.push(Why::Break),
        b.heap == a.heap,
{
    lemma_way_out(a.top().blocks@, k);
    assert(b.stack() =~= stack_then(a.stack(), a.top().blocks@[k].stack_len as int));
}

/// `continue` goes to where the innermost loop goes on, which stays open, by way
/// of the `finally` blocks inside it.
pub proof fn continue_stays_in_the_loop(a: Vm, b: Vm, k: int, r: Step)
    requires
        step_result(a, b, Op::Continue, r),
        a.running(),
        way_out(a.top().blocks@, k),
    ensures
        r is Next,
        a.top().blocks@[k].kind matches BlockKind::Loop { cont } ==> {
            &&& b.top().pc == cont
            &&& b.top().blocks@ == a.top().blocks@.take(k + 1)
            &&& b.task.finally_why@ == a.task.finally_why@
            &&& b.stack() == a.stack()
        },
        a.top().blocks@[k].kind is Finally ==> {
            &&& b.top().pc == a.top().blocks@[k].target
            &&& b.top().blocks@ == a.top().blocks@.take(k)
            &&& b.task.finally_why@ == a.task.finally_why@.push(Why::Continue)
        },
        b.heap == a.heap,
{
    lemma_way_out(a.top().blocks@, k);
}

/// What was on its way when a `finally` began goes on when it ends: nothing, the
/// exception, the `break`, the `continue`.
pub proof fn finally_takes_up_again(a: Vm, b: Vm, k: int, r: Step)
    requires
        step_result(a, b, Op::EndFinally, r),
        a.running(),
        a.task.finally_why@.len() > 0,
    ensures
        a.task.finally_why@.last() == Why::Normal ==> r is Next && b.top() == a.top() && b.task.finally_why@ == a.task.finally_why@.drop_last(),
        a.task.finally_why@.last() matches Why::Raise(exc) ==> r == Step::Raise(exc) && b.top() == a.top()
            && b.task.finally_why@ == a.task.finally_why@.drop_last(),
        a.task.finally_why@.last() == Why::Break && way_out(a.top().blocks@, k) && a.top().blocks@[k].kind is Loop
            ==> r is Next && b.top().pc == a.top().blocks@[k].target && b.top().blocks@ == a.top().blocks@.take(k),
        a.task.finally_why@.last() == Why::Continue && way_out(a.top().blocks@, k) ==> (a.top().blocks@[k].kind matches BlockKind::Loop { cont }
            ==> r is Next && b.top().pc == cont && b.top().blocks@ == a.top().blocks@.take(k + 1)),
{
    if way_out(a.top().blocks@, k) {
        lemma_way_out(a.top().blocks@, k);
    }
}

/// Entering a `try` or a loop opens a block that remembers where to go and how
/// deep the stack was, and leaving it closes the innermost one.
pub proof fn blocks_open_and_close(a: Vm, b: Vm, op: Op, t: u32, r: Step)
    requires
        step_result(a, b, op, r),
        a.running(),
        a.stack().len() <= usize::MAX,
    ensures
        op == Op::SetupExcept(t) || op == Op::SetupFinally(t) ==> {
            &&& r is Next
            &&& b.top().blocks@.len() == a.top().blocks@.len() + 1
            &&& b.top().blocks@.drop_last() == a.top().blocks@
            &&& b.top().blocks@.last().target == t
            &&& b.top().blocks@.last().stack_len == a.stack().len()
            &&& op == Op::SetupExcept(t) ==> b.top().blocks@.last().kind is Except
            &&& op == Op::SetupFinally(t) ==> b.top().blocks@.last().kind is Finally
        },
        op == Op::PopBlock && a.top().blocks@.len() > 0 ==> r is Next && b.top().blocks@ == a.top().blocks@.drop_last(),
{
    if op == Op::SetupExcept(t) || op == Op::SetupFinally(t) {
        assert(b.top().blocks@.drop_last() =~= a.top().blocks@);
    }
}

/// A SystemExit that nothing caught ends the program with its number, where that
/// is one of 32 bits, and any other exception with none.
pub proof fn system_exit_has_its_code(h: Heap, i: usize, t: usize, n: i64)
    requires
        h.field(i, "args"@) == Some(Value::Tuple(t)),
        h.tuple(t).len() > 0,
        h.tuple(t)[0] == Value::Int(n),
        -0x8000_0000 <= n < 0x8000_0000,
    ensures
        h.class_name(h.instance_class(i)) == "SystemExit"@ ==> exit_code_in(h, Value::Instance(i)) == Some(n),
        h.class_name(h.instance_class(i)) != "SystemExit"@ ==> exit_code_in(h, Value::Instance(i)) is None,
{
}

/// A closure has the cells that the frame it was made in has, each in the place
/// its code names.
pub proof fn closures_share_their_cells(a: Vm, b: Vm, i: u32, k: int, r: Step)
    requires
        step_result(a, b, Op::MakeFunction(i), r),
        a.running(),
        0 <= k < a.top().code.protos@[i as int].captures@.len(),
    ensures
        r is Next,
        b.stack().last() == Value::Func(a.heap.funcs.len()),
        b.heap.funcs@[a.heap.funcs@.len() as int].code == a.top().code.protos@[i as int].code,
        forall|c: u32| a.top().code.protos@[i as int].captures@[k] == CaptureSource::Cell(c) && c < a.top().cells@.len()
            ==> b.heap.funcs@[a.heap.funcs@.len() as int].freevars@[k] == #[trigger] a.top().cells@[c as int],
        forall|c: u32| a.top().code.protos@[i as int].captures@[k] == CaptureSource::Free(c) && c < a.top().free@.len()
            ==> b.heap.funcs@[a.heap.funcs@.len() as int].freevars@[k] == #[trigger] a.top().free@[c as int],
{
}

} // verus!
