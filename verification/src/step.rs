//! One instruction.
use vstd::prelude::*;
use crate::call::{captured, fail, fault_step};
use crate::chain::gave;
use crate::code::{CodeObject, Op};
use crate::control::{break_result, continue_result, depths, last_stop};
use crate::deep::compare_result;
use crate::dispatch::{call_ex_result, call_method_result, call_result, chain_argc, popped_to};
use crate::exc::Exc;
use crate::flow::{has_job, return_ready, return_result, slot_of, slot_value};
use crate::frame::{Block, BlockKind, Frame};
use crate::generate::{can_stop, in_generator, stop_result, yield_result};
use crate::imports::import_result;
use crate::machine::{only_top, restacked, GenDriver, Step, Task, Vm, Why};
use crate::names::{is_truthy, truthy};
use crate::objects::{append_result, build_string_result, class_operands, class_result, do_raise_result, exc_match_result, for_result, format_result, get_iter_result, load_attr_result, load_method_result, load_slice_result, load_subscript_result, map_set_result, match_target, store_attr_result, store_subscript_result, super_result, unpack_result, went};
use crate::ops::{below, binary_op_result, flip_result, global_result, list_result, map_result, negate_result, not_bool, not_bool_text, not_result, plus_result, read_result, refuses, stored_cell, stored_local, tuple_result, unbound_text};
use crate::value::{Heap, Value};
use crate::wake::faults;

verus! {

/// The pair an instruction names.
pub open spec fn has_pair(c: CodeObject, p: u32) -> bool {
    p < c.pairs@.len()
}

/// Whether everything an instruction takes for granted is there: its operands
/// on the stack, its table entries in the code, and the block, job or generator
/// it belongs to. Code from a compiler that balances the stack meets this at
/// every instruction.
pub open spec fn ready(a: Vm, op: Op) -> bool {
    a.running() && {
        let f = a.top();
        let c = *f.code;
        match op {
            Op::LoadConst(i) => i < c.consts@.len(),
            Op::LoadFast(s) => s < f.locals@.len(),
            Op::StoreFast(s) => a.has(1) && s < f.locals@.len(),
            Op::LoadCell(s) => s < f.cells@.len(),
            Op::StoreCell(s) => a.has(1) && s < f.cells@.len(),
            Op::LoadFree(s) => s < f.free@.len(),
            Op::StoreFree(s) => a.has(1) && s < f.free@.len(),
            Op::LoadGlobal(n) | Op::ImportModule(n) => n < c.names@.len(),
            Op::LoadAttr(n) | Op::LoadMethod(n) => a.has(1) && n < c.names@.len(),
            Op::StoreAttr(n) => a.has(2) && n < c.names@.len(),
            Op::Pop | Op::Dup | Op::UnaryNeg | Op::UnaryPos | Op::UnaryNot | Op::UnaryInvert | Op::AssertBool
            | Op::PopJumpIfFalse(_) | Op::PopJumpIfTrue(_) | Op::JumpIfFalseOrPop(_) | Op::JumpIfTrueOrPop(_)
            | Op::UnpackSequence(_) | Op::GetIter | Op::ForIter(_) | Op::ForEach(_) | Op::Raise => a.has(1),
            Op::DupTwo | Op::RotTwo | Op::Binary(_) | Op::Compare(_) | Op::LoadSubscript | Op::ExcMatch | Op::FormatValue(_)
            | Op::ListAppend => a.has(2),
            Op::RotThree | Op::StoreSubscript | Op::CallEx | Op::MapSetItem => a.has(3),
            Op::LoadSlice => a.has(4),
            Op::BuildList(n) | Op::BuildTuple(n) | Op::BuildString(n) => a.has(n as nat),
            Op::BuildMap(n) => a.has(2 * n as nat),
            Op::Call(n) => a.has(n as nat + 1),
            Op::BuildClass(i) => i < c.classes@.len() && a.has(class_operands(c.classes@[i as int])),
            Op::MatchDispatch(p) => a.has(1) && has_pair(c, p) && c.pairs@[p as int].0 < c.consts@.len()
                && c.consts@[c.pairs@[p as int].0 as int] is Dict,
            Op::DefaultIfBound(p) => has_pair(c, p) && c.pairs@[p as int].0 < c.params@.len(),
            Op::SetupLoop(p) => has_pair(c, p),
            Op::CallMethod(p) => has_pair(c, p) && c.pairs@[p as int].0 < c.names@.len()
                && a.has((chain_argc(c.pairs@[p as int].1) + 3) as nat),
            Op::MakeFunction(i) => i < c.protos@.len(),
            Op::Return => if c.is_generator { can_stop(a) } else { a.has(1) && return_ready(a) },
            Op::Yield => a.has(1) && in_generator(a),
            Op::Break | Op::Continue => last_stop(f.blocks@) is Some,
            Op::LoadHandling => a.task.handling@.len() > 0,
            Op::EndFinally => a.task.finally_why@.len() > 0 && match a.task.finally_why@.last() {
                Why::Return(_) => return_ready(a),
                Why::Break | Why::Continue => last_stop(f.blocks@) is Some,
                _ => true,
            },
            _ => true,
        }
    }
}

/// The block an instruction enters.
pub open spec fn block_entered(a: Vm, b: Vm, kind: BlockKind, target: u32, r: Step) -> bool {
    &&& r is Next
    &&& only_top(a, b)
    &&& b.heap == a.heap
    &&& b.top() == (Frame { blocks: b.top().blocks, ..a.top() })
    &&& b.top().blocks@ == a.top().blocks@.push(Block {
        kind,
        target: target as usize,
        stack_len: a.stack().len() as usize,
        jobs: depths(a.task),
    })
}

/// What taking up again after a `finally` does.
pub open spec fn end_finally_result(a: Vm, b: Vm, r: Step) -> bool {
    exists|m: Vm| {
        &&& m == (Vm { task: Task { finally_why: m.task.finally_why, ..a.task }, ..a })
        &&& #[trigger] m.task.finally_why@ == a.task.finally_why@.drop_last()
        &&& match a.task.finally_why@.last() {
            Why::Normal => r is Next && b == m,
            Why::Raise(exc) => r == Step::Raise(exc) && b == m,
            Why::Return(v) => return_result(m, b, v, r),
            Why::Break => r is Next && break_result(m, b),
            Why::Continue => r is Next && continue_result(m, b),
        }
    }
}

/// What a jump on a condition does.
pub open spec fn branch_result(a: Vm, b: Vm, want: bool, target: u32, r: Step) -> bool {
    match a.operand(0) {
        Value::Bool(v) => if v == want {
            went(a, b, 1, target as usize, r)
        } else {
            r is Next && restacked(a, b, below(a, 1)) && b.heap == a.heap
        },
        v => refuses(a, b, 1, Exc::TypeError, not_bool_text(a.heap, v, "a condition"@), r),
    }
}

/// What `and` and `or` do after their left operand: where it counts as `want` it
/// stays and decides, and otherwise it goes.
pub open spec fn keep_or_pop_result(a: Vm, b: Vm, want: bool, target: u32, r: Step) -> bool {
    if truthy(a.heap, a.operand(0)) == want {
        went(a, b, 0, target as usize, r)
    } else {
        r is Next && restacked(a, b, below(a, 1)) && b.heap == a.heap
    }
}

/// A new function on the stack.
pub open spec fn function_made(a: Vm, b: Vm, idx: u32, r: Step) -> bool {
    let p = a.top().code.protos@[idx as int];
    &&& r is Next
    &&& restacked(a, b, a.stack().push(Value::Func(a.heap.funcs.len())))
    &&& b.heap == (Heap { funcs: b.heap.funcs, ..a.heap })
    &&& b.heap.funcs@.len() == a.heap.funcs@.len() + 1
    &&& b.heap.funcs@.drop_last() == a.heap.funcs@
    &&& b.heap.funcs@.last().code == p.code
    &&& b.heap.funcs@.last().freevars@ == captured(a.top(), p.captures@)
}

/// The stack is `s` now and nothing else happened.
pub open spec fn stacked(a: Vm, b: Vm, s: Seq<Value>, r: Step) -> bool {
    r is Next && restacked(a, b, s) && b.heap == a.heap
}

/// The top of the stack, the one below it, and the one below that.
pub open spec fn rotated(a: Vm) -> Seq<Value> {
    below(a, 3) + seq![a.operand(0), a.operand(2), a.operand(1)]
}

/// What an instruction does.
pub open spec fn step_result(a: Vm, b: Vm, op: Op, r: Step) -> bool {
    let f = a.top();
    let c = *f.code;
    match op {
        Op::LoadConst(i) => gave(a, b, c.consts@[i as int], r),
        Op::LoadNone => gave(a, b, Value::Null, r),
        Op::LoadFast(s) => read_result(a, b, f.locals@[s as int], unbound_text(c, s), r),
        Op::StoreFast(s) => stored_local(a, b, s as int, r),
        Op::LoadCell(s) => read_result(a, b, a.heap.cell(f.cells@[s as int]), "local variable referenced before assignment"@, r),
        Op::StoreCell(s) => stored_cell(a, b, f.cells@[s as int], r),
        Op::LoadFree(s) => read_result(a, b, a.heap.cell(f.free@[s as int]), "free variable referenced before assignment"@, r),
        Op::StoreFree(s) => stored_cell(a, b, f.free@[s as int], r),
        Op::LoadGlobal(n) => global_result(a, b, c.names@[n as int]@, r),
        Op::Pop => stacked(a, b, below(a, 1), r),
        Op::Dup => stacked(a, b, a.stack().push(a.operand(0)), r),
        Op::DupTwo => stacked(a, b, a.stack() + seq![a.operand(1), a.operand(0)], r),
        Op::RotTwo => stacked(a, b, below(a, 2) + seq![a.operand(0), a.operand(1)], r),
        Op::RotThree => stacked(a, b, rotated(a), r),
        Op::UnaryNeg => negate_result(a, b, r),
        Op::UnaryPos => plus_result(a, b, r),
        Op::UnaryNot => not_result(a, b, r),
        Op::UnaryInvert => flip_result(a, b, r),
        Op::AssertBool => b == a && r is Next,
        Op::Binary(op) => binary_op_result(a, b, op, r),
        Op::Compare(op) => exists|m: Vm| #[trigger] popped_to(a, m, a.stack().len() - 2)
            && compare_result(m, b, op, a.operand(1), a.operand(0), r),
        Op::Jump(t) => went(a, b, 0, t as usize, r),
        Op::DefaultIfBound(p) => {
            let (param, target) = c.pairs@[p as int];
            if slot_value(a.heap, f, c.params@[param as int].target) is Unbound {
                r is Next && b == a
            } else {
                went(a, b, 0, target as usize, r)
            }
        },
        Op::PopJumpIfFalse(t) => branch_result(a, b, false, t, r),
        Op::PopJumpIfTrue(t) => branch_result(a, b, true, t, r),
        Op::JumpIfFalseOrPop(t) => keep_or_pop_result(a, b, false, t, r),
        Op::JumpIfTrueOrPop(t) => keep_or_pop_result(a, b, true, t, r),
        Op::BuildList(n) => list_result(a, b, n as int, r),
        Op::BuildTuple(n) => tuple_result(a, b, n as int, r),
        Op::BuildMap(n) => map_result(a, b, n as int, r),
        Op::ListAppend => append_result(a, b, r),
        Op::MapSetItem => map_set_result(a, b, r),
        Op::LoadSubscript => load_subscript_result(a, b, r),
        Op::StoreSubscript => store_subscript_result(a, b, r),
        Op::LoadSlice => load_slice_result(a, b, r),
        Op::LoadAttr(n) => load_attr_result(a, b, c.names@[n as int]@, r),
        Op::StoreAttr(n) => store_attr_result(a, b, c.names@[n as int]@, r),
        Op::BuildClass(i) => class_result(a, b, c.classes@[i as int], r),
        Op::ImportModule(n) => import_result(a, b, c.names@[n as int]@, r),
        Op::LoadSuper => super_result(a, b, r),
        Op::UnpackSequence(n) => unpack_result(a, b, n as usize, r),
        Op::FormatValue(conv) => format_result(a, b, conv, r),
        Op::BuildString(n) => build_string_result(a, b, n as int, r),
        Op::MatchDispatch(p) => {
            let (table, other) = c.pairs@[p as int];
            went(a, b, 1, match_target(a.heap, c.consts@[table as int]->Dict_0, a.operand(0), other), r)
        },
        Op::GetIter => get_iter_result(a, b, r),
        Op::ForIter(t) => for_result(a, b, t as usize, true, r),
        Op::ForEach(t) => for_result(a, b, t as usize, false, r),
        Op::MakeFunction(i) => function_made(a, b, i, r),
        Op::Call(n) => call_result(a, b, n as int, r),
        Op::CallEx => call_ex_result(a, b, r),
        Op::LoadMethod(n) => load_method_result(a, b, c.names@[n as int]@, r),
        Op::CallMethod(p) => call_method_result(a, b, c.names@[c.pairs@[p as int].0 as int]@, c.pairs@[p as int].1, r),
        Op::Return => if c.is_generator {
            stop_result(a, b, r)
        } else {
            exists|m: Vm| #[trigger] popped_to(a, m, a.stack().len() - 1) && return_result(m, b, a.operand(0), r)
        },
        Op::Yield => yield_result(a, b, r),
        Op::SetupExcept(t) => block_entered(a, b, BlockKind::Except, t, r),
        Op::SetupFinally(t) => block_entered(a, b, BlockKind::Finally, t, r),
        Op::PopBlock => {
            &&& r is Next
            &&& only_top(a, b)
            &&& b.heap == a.heap
            &&& b.top() == (Frame { blocks: b.top().blocks, ..f })
            &&& b.top().blocks@ == (if f.blocks@.len() > 0 { f.blocks@.drop_last() } else { f.blocks@ })
        },
        Op::SetupLoop(p) => {
            let (out, cont) = c.pairs@[p as int];
            block_entered(a, b, BlockKind::Loop { cont: cont as usize }, out, r)
        },
        Op::Break => r is Next && break_result(a, b),
        Op::Continue => r is Next && continue_result(a, b),
        Op::Raise => do_raise_result(a, b, r),
        Op::Reraise => if a.task.handling@.len() > 0 {
            &&& r == Step::Raise(a.task.handling@.last())
            &&& b == (Vm { task: Task { handling: b.task.handling, ..a.task }, ..a })
            &&& b.task.handling@ == a.task.handling@.drop_last()
        } else {
            faults(r, Exc::RuntimeError, "No active exception to re-raise"@) && b == a
        },
        Op::LoadHandling => gave(a, b, a.task.handling@.last(), r),
        Op::EndHandler => {
            &&& r is Next
            &&& b == (Vm { task: Task { handling: b.task.handling, ..a.task }, ..a })
            &&& b.task.handling@ == (if a.task.handling@.len() > 0 { a.task.handling@.drop_last() } else { a.task.handling@ })
        },
        Op::ExcMatch => exc_match_result(a, b, r),
        Op::BeginFinally => {
            &&& r is Next
            &&& b == (Vm { task: Task { finally_why: b.task.finally_why, ..a.task }, ..a })
            &&& b.task.finally_why@ == a.task.finally_why@.push(Why::Normal)
        },
        Op::EndFinally => end_finally_result(a, b, r),
    }
}

impl Vm {
    /// Whether the top `n` operands are there.
    fn holds(&self, n: usize) -> (r: bool)
        requires self.running(),
        ensures r == self.has(n as nat),
    {
        self.depth() >= n
    }

    fn in_generator_body(&self) -> (r: bool)
        ensures r == in_generator(*self),
    {
        let k = self.task.gen_stack.len();
        if self.task.frames.len() < 2 || k == 0 {
            return false;
        }
        let (g, driver) = self.task.gen_stack[k - 1];
        if g >= self.heap.gens.len() {
            return false;
        }
        match driver {
            GenDriver::Materialize => {
                let m = self.task.mats.len();
                m > 0 && self.task.mats[m - 1].idx < self.task.mats[m - 1].args.len()
            }
            _ => true,
        }
    }

    fn can_end(&self) -> (r: bool)
        ensures r == can_stop(*self),
    {
        if !self.in_generator_body() {
            return false;
        }
        let k = self.task.gen_stack.len();
        let n = self.task.frames.len();
        match self.task.gen_stack[k - 1].1 {
            GenDriver::Materialize => true,
            _ => self.task.frames[n - 2].stack.len() > 0,
        }
    }

    fn can_return(&self) -> (r: bool)
        requires self.running(),
        ensures r == return_ready(*self),
    {
        let n = self.task.frames.len();
        n < 2 || has_job(&self.task, self.task.frames[n - 1].ret_action)
    }

    fn in_loop(&self) -> (r: bool)
        requires self.running(),
        ensures r == (last_stop(self.top().blocks@) is Some),
    {
        let f = self.task.frames.len();
        let mut n = self.task.frames[f - 1].blocks.len();
        let ghost bs = self.top().blocks@;
        assert(bs.take(n as int) =~= bs);
        while n > 0
            invariant
                f == self.task.frames@.len(),
                f > 0,
                bs == self.top().blocks@,
                n <= bs.len(),
                last_stop(bs) == last_stop(bs.take(n as int)),
            decreases n,
        {
            assert(bs.take(n as int).last() == bs[n - 1]);
            assert(bs.take(n as int).drop_last() =~= bs.take(n - 1));
            match self.task.frames[f - 1].blocks[n - 1].kind {
                BlockKind::Except => {}
                _ => {
                    return true;
                }
            }
            n -= 1;
        }
        false
    }

    /// Whether everything an instruction takes for granted is there.
    pub fn is_ready(&self, op: Op) -> (r: bool)
        ensures r == ready(*self, op),
    {
        let n = self.task.frames.len();
        if n == 0 {
            return false;
        }
        let f = &self.task.frames[n - 1];
        let c = &f.code;
        match op {
            Op::LoadConst(i) => (i as usize) < c.consts.len(),
            Op::LoadFast(s) => (s as usize) < f.locals.len(),
            Op::StoreFast(s) => self.holds(1) && (s as usize) < f.locals.len(),
            Op::LoadCell(s) => (s as usize) < f.cells.len(),
            Op::StoreCell(s) => self.holds(1) && (s as usize) < f.cells.len(),
            Op::LoadFree(s) => (s as usize) < f.free.len(),
            Op::StoreFree(s) => self.holds(1) && (s as usize) < f.free.len(),
            Op::LoadGlobal(k) => (k as usize) < c.names.len(),
            Op::ImportModule(k) => (k as usize) < c.names.len(),
            Op::LoadAttr(k) => self.holds(1) && (k as usize) < c.names.len(),
            Op::LoadMethod(k) => self.holds(1) && (k as usize) < c.names.len(),
            Op::StoreAttr(k) => self.holds(2) && (k as usize) < c.names.len(),
            Op::Pop => self.holds(1),
            Op::Dup => self.holds(1),
            Op::UnaryNeg => self.holds(1),
            Op::UnaryPos => self.holds(1),
            Op::UnaryNot => self.holds(1),
            Op::UnaryInvert => self.holds(1),
            Op::AssertBool => self.holds(1),
            Op::PopJumpIfFalse(_) => self.holds(1),
            Op::PopJumpIfTrue(_) => self.holds(1),
            Op::JumpIfFalseOrPop(_) => self.holds(1),
            Op::JumpIfTrueOrPop(_) => self.holds(1),
            Op::UnpackSequence(_) => self.holds(1),
            Op::GetIter => self.holds(1),
            Op::ForIter(_) => self.holds(1),
            Op::ForEach(_) => self.holds(1),
            Op::Raise => self.holds(1),
            Op::DupTwo => self.holds(2),
            Op::RotTwo => self.holds(2),
            Op::Binary(_) => self.holds(2),
            Op::Compare(_) => self.holds(2),
            Op::LoadSubscript => self.holds(2),
            Op::ExcMatch => self.holds(2),
            Op::FormatValue(_) => self.holds(2),
            Op::ListAppend => self.holds(2),
            Op::RotThree => self.holds(3),
            Op::StoreSubscript => self.holds(3),
            Op::CallEx => self.holds(3),
            Op::MapSetItem => self.holds(3),
            Op::LoadSlice => self.holds(4),
            Op::BuildList(k) => self.holds(k as usize),
            Op::BuildTuple(k) => self.holds(k as usize),
            Op::BuildString(k) => self.holds(k as usize),
            Op::BuildMap(k) => self.depth() / 2 >= k as usize,
            Op::Call(k) => self.depth() > k as usize,
            Op::BuildClass(i) => (i as usize) < c.classes.len() && self.depth() >= c.classes[i as usize].members.len()
                && (!c.classes[i as usize].has_base || self.depth() > c.classes[i as usize].members.len()),
            Op::MatchDispatch(p) => self.holds(1) && (p as usize) < c.pairs.len() && (c.pairs[p as usize].0 as usize) < c.consts.len()
                && matches!(c.consts[c.pairs[p as usize].0 as usize], Value::Dict(_)),
            Op::DefaultIfBound(p) => (p as usize) < c.pairs.len() && (c.pairs[p as usize].0 as usize) < c.params.len(),
            Op::SetupLoop(p) => (p as usize) < c.pairs.len(),
            Op::CallMethod(p) => (p as usize) < c.pairs.len() && (c.pairs[p as usize].0 as usize) < c.names.len()
                && self.depth() >= (c.pairs[p as usize].1 % 0x4000_0000) as usize + 3,
            Op::MakeFunction(i) => (i as usize) < c.protos.len(),
            Op::Return => if c.is_generator {
                self.can_end()
            } else {
                self.holds(1) && self.can_return()
            },
            Op::Yield => self.holds(1) && self.in_generator_body(),
            Op::Break => self.in_loop(),
            Op::Continue => self.in_loop(),
            Op::LoadHandling => self.task.handling.len() > 0,
            Op::EndFinally => {
                let k = self.task.finally_why.len();
                if k == 0 {
                    return false;
                }
                match self.task.finally_why[k - 1] {
                    Why::Return(_) => self.can_return(),
                    Why::Break => self.in_loop(),
                    Why::Continue => self.in_loop(),
                    _ => true,
                }
            }
            _ => true,
        }
    }
}

impl Vm {
    fn branch(&mut self, want: bool, target: u32) -> (r: Step)
        requires old(self).has(1),
        ensures branch_result(*old(self), *final(self), want, target, r),
    {
        let ghost a = *self;
        let v = self.pop();
        assert(self.stack() =~= below(a, 1));
        match v {
            Value::Bool(x) => {
                if x == want {
                    self.jump(target as usize);
                }
                Step::Next
            }
            _ => fail(not_bool(&self.heap, v, "a condition")),
        }
    }

    fn keep_or_pop(&mut self, want: bool, target: u32) -> (r: Step)
        requires old(self).has(1),
        ensures keep_or_pop_result(*old(self), *final(self), want, target, r),
    {
        let ghost a = *self;
        let v = self.peek(0);
        if is_truthy(&self.heap, v) == want {
            self.jump(target as usize);
            assert(below(a, 0) =~= a.stack());
        } else {
            let _v = self.pop();
            assert(self.stack() =~= below(a, 1));
        }
        Step::Next
    }

    fn goto(&mut self, target: u32) -> (r: Step)
        requires old(self).running(),
        ensures went(*old(self), *final(self), 0, target as usize, r),
    {
        self.jump(target as usize);
        assert(below(*old(self), 0) =~= old(self).stack());
        Step::Next
    }

    fn rotate(&mut self, three: bool) -> (r: Step)
        requires
            old(self).has(2),
            three ==> old(self).has(3),
        ensures
            stacked(*old(self), *final(self), if three {
                rotated(*old(self))
            } else {
                below(*old(self), 2) + seq![old(self).operand(0), old(self).operand(1)]
            }, r),
    {
        let ghost a = *self;
        let x = self.pop();
        let y = self.pop();
        if three {
            let z = self.pop();
            self.push(x);
            self.push(z);
            self.push(y);
            assert(self.stack() =~= rotated(a));
        } else {
            self.push(x);
            self.push(y);
            assert(self.stack() =~= below(a, 2) + seq![a.operand(0), a.operand(1)]);
        }
        Step::Next
    }

    fn end_finally(&mut self) -> (r: Step)
        requires ready(*old(self), Op::EndFinally),
        ensures end_finally_result(*old(self), *final(self), r),
    {
        let ghost a = *self;
        let why = match self.task.finally_why.pop() {
            Some(w) => w,
            None => Why::Normal,
        };
        let ghost m = *self;
        assert(m.task.finally_why@ == a.task.finally_why@.drop_last());
        match why {
            Why::Normal => Step::Next,
            Why::Raise(exc) => Step::Raise(exc),
            Why::Return(v) => self.do_return(v),
            Why::Break => self.do_break(),
            Why::Continue => self.do_continue(),
        }
    }

    fn default_if_bound(&mut self, p: u32) -> (r: Step)
        requires ready(*old(self), Op::DefaultIfBound(p)),
        ensures step_result(*old(self), *final(self), Op::DefaultIfBound(p), r),
    {
        let n = self.task.frames.len();
        let (param, target) = self.task.frames[n - 1].code.pairs[p as usize];
        let at = self.task.frames[n - 1].code.params[param as usize].target;
        match slot_of(&self.heap, &self.task.frames[n - 1], at) {
            Value::Unbound => Step::Next,
            _ => self.goto(target),
        }
    }

    fn reraise(&mut self) -> (r: Step)
        requires old(self).running(),
        ensures step_result(*old(self), *final(self), Op::Reraise, r),
    {
        if self.task.handling.len() == 0 {
            return fault_step(Exc::RuntimeError, "No active exception to re-raise");
        }
        match self.task.handling.pop() {
            Some(exc) => Step::Raise(exc),
            None => Step::Next,
        }
    }

    fn do_op_return(&mut self) -> (r: Step)
        requires ready(*old(self), Op::Return),
        ensures step_result(*old(self), *final(self), Op::Return, r),
    {
        let ghost a = *self;
        let n = self.task.frames.len();
        if self.task.frames[n - 1].code.is_generator {
            return self.generator_stop();
        }
        let v = self.pop();
        let ghost m = *self;
        assert(m.stack() =~= a.stack().take(a.stack().len() - 1));
        assert(popped_to(a, m, a.stack().len() - 1));
        self.do_return(v)
    }

    fn compare_operands(&mut self, op: crate::code::RelOp) -> (r: Step)
        requires old(self).has(2),
        ensures step_result(*old(self), *final(self), Op::Compare(op), r),
    {
        let ghost a = *self;
        let y = self.pop();
        let x = self.pop();
        let ghost m = *self;
        assert(m.stack() =~= a.stack().take(a.stack().len() - 2));
        assert(popped_to(a, m, a.stack().len() - 2));
        self.compare(op, x, y)
    }

    /// Carry out one instruction.
    pub fn step(&mut self, op: Op) -> (r: Step)
        requires ready(*old(self), op),
        ensures step_result(*old(self), *final(self), op, r),
    {
        let ghost a = *self;
        let code = self.code();
        match op {
            Op::LoadConst(i) => {
                self.push(code.consts[i as usize]);
                Step::Next
            }
            Op::LoadNone => {
                self.push(Value::Null);
                Step::Next
            }
            Op::LoadFast(s) => self.load_fast(s),
            Op::StoreFast(s) => self.store_fast(s),
            Op::LoadCell(s) => self.load_cell(s),
            Op::StoreCell(s) => {
                let n = self.task.frames.len();
                let cell = self.task.frames[n - 1].cells[s as usize];
                self.store_cell(cell)
            }
            Op::LoadFree(s) => self.load_free(s),
            Op::StoreFree(s) => {
                let n = self.task.frames.len();
                let cell = self.task.frames[n - 1].free[s as usize];
                self.store_cell(cell)
            }
            Op::LoadGlobal(n) => self.load_global(code.names[n as usize].as_str()),
            Op::Pop => {
                let _v = self.pop();
                assert(self.stack() =~= below(a, 1));
                Step::Next
            }
            Op::Dup => {
                let v = self.peek(0);
                self.push(v);
                Step::Next
            }
            Op::DupTwo => {
                let y = self.peek(0);
                let x = self.peek(1);
                self.push(x);
                self.push(y);
                assert(self.stack() =~= a.stack() + seq![a.operand(1), a.operand(0)]);
                Step::Next
            }
            Op::RotTwo => self.rotate(false),
            Op::RotThree => self.rotate(true),
            Op::UnaryNeg => self.unary_neg(),
            Op::UnaryPos => self.unary_pos(),
            Op::UnaryNot => self.unary_not(),
            Op::UnaryInvert => self.unary_invert(),
            Op::AssertBool => Step::Next,
            Op::Binary(op) => self.binary_op(op),
            Op::Compare(op) => self.compare_operands(op),
            Op::Jump(t) => self.goto(t),
            Op::DefaultIfBound(p) => self.default_if_bound(p),
            Op::PopJumpIfFalse(t) => self.branch(false, t),
            Op::PopJumpIfTrue(t) => self.branch(true, t),
            Op::JumpIfFalseOrPop(t) => self.keep_or_pop(false, t),
            Op::JumpIfTrueOrPop(t) => self.keep_or_pop(true, t),
            Op::BuildList(n) => self.build_list(n as usize),
            Op::BuildTuple(n) => self.build_tuple(n as usize),
            Op::BuildMap(n) => {
                assert(2 * n <= usize::MAX) by {
                    assert(a.top().stack.len() <= usize::MAX);
                }
                self.build_map(n as usize)
            }
            Op::ListAppend => self.list_append(),
            Op::MapSetItem => self.map_set_item(),
            Op::LoadSubscript => self.load_subscript(),
            Op::StoreSubscript => self.store_subscript(),
            Op::LoadSlice => self.load_slice(),
            Op::LoadAttr(n) => self.load_attr(code.names[n as usize].as_str()),
            Op::StoreAttr(n) => self.store_attr(code.names[n as usize].as_str()),
            Op::BuildClass(i) => self.build_class(&code.classes[i as usize]),
            Op::ImportModule(n) => self.import_module(code.names[n as usize].as_str()),
            Op::LoadSuper => self.load_super(),
            Op::UnpackSequence(n) => self.unpack_sequence(n as usize),
            Op::FormatValue(conv) => self.format_value(conv),
            Op::BuildString(n) => self.build_string(n as usize),
            Op::MatchDispatch(p) => {
                let (table, other) = code.pairs[p as usize];
                let dict = match code.consts[table as usize] {
                    Value::Dict(d) => d,
                    _ => 0,
                };
                self.match_dispatch(dict, other)
            }
            Op::GetIter => self.make_iter(),
            Op::ForIter(t) => self.for_next(t as usize, true),
            Op::ForEach(t) => self.for_next(t as usize, false),
            Op::MakeFunction(i) => {
                self.make_function(i as usize);
                Step::Next
            }
            Op::Call(n) => self.do_call(n as usize),
            Op::CallEx => self.do_call_ex(),
            Op::LoadMethod(n) => self.load_method(code.names[n as usize].as_str()),
            Op::CallMethod(p) => {
                let (name, argc) = code.pairs[p as usize];
                self.do_call_method(code.names[name as usize].as_str(), argc)
            }
            Op::Return => self.do_op_return(),
            Op::Yield => self.do_yield(),
            Op::SetupExcept(t) => {
                self.enter_block(BlockKind::Except, t as usize);
                Step::Next
            }
            Op::SetupFinally(t) => {
                self.enter_block(BlockKind::Finally, t as usize);
                Step::Next
            }
            Op::PopBlock => {
                self.pop_block();
                Step::Next
            }
            Op::SetupLoop(p) => {
                let (out, cont) = code.pairs[p as usize];
                self.enter_block(BlockKind::Loop { cont: cont as usize }, out as usize);
                Step::Next
            }
            Op::Break => self.do_break(),
            Op::Continue => self.do_continue(),
            Op::Raise => self.do_raise(),
            Op::Reraise => self.reraise(),
            Op::LoadHandling => {
                let n = self.task.handling.len();
                let v = self.task.handling[n - 1];
                self.push(v);
                Step::Next
            }
            Op::EndHandler => {
                let _exc = self.task.handling.pop();
                assert(a.task.handling@.len() == 0 ==> self.task.handling@ =~= a.task.handling@);
                Step::Next
            }
            Op::ExcMatch => self.exc_match(),
            Op::BeginFinally => {
                self.task.finally_why.push(Why::Normal);
                Step::Next
            }
            Op::EndFinally => self.end_finally(),
        }
    }
}

} // verus!
