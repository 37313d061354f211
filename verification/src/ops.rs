//! The instructions that work on the operand stack and the variables.
use vstd::prelude::*;
use crate::arith::{arith_dunder, binary_result, bigs_grew, invert_result, neg_result, op_dunder, operands_text, pos_result, sequences_grew, Arith};
use crate::call::{fail, fault_step, user_result};
use crate::chain::gave;
use crate::code::{BinOp, CodeObject, VarTarget};
use crate::dispatch::popped_to;
use crate::exc::{name_error, type_error, Exc, VErr};
use crate::exceptions::{class_at, exc_named};
use crate::frame::{Frame, ReturnAction};
use crate::keys::{check_key, put_key, unhashable, unhashable_text, with_key};
use crate::machine::{only_top, restacked, HostCall, Step, Vm};
use crate::names::{is_truthy, truthy, type_label, type_label_of};
use crate::text::{join2, join3, join5, same_text};
use crate::value::{Heap, Value};
use crate::wake::faults;

verus! {

/// The stack without its top `n` values.
pub open spec fn below(a: Vm, n: int) -> Seq<Value> {
    a.stack().take(a.stack().len() - n)
}

/// The operands are off the stack; the heap is `h` now, and what came out is on
/// the stack, or a fault.
pub open spec fn gives(a: Vm, b: Vm, n: int, h: Heap, x: Result<Value, VErr>, r: Step) -> bool {
    match x {
        Ok(v) => r is Next && restacked(a, b, below(a, n).push(v)) && b.heap == h,
        Err(e) => faults(r, e@.0, e@.1) && restacked(a, b, below(a, n)) && b.heap == h,
    }
}

/// The operands are off the stack and nothing else happened, but for a fault.
pub open spec fn refuses(a: Vm, b: Vm, n: int, class: Exc, text: Seq<char>, r: Step) -> bool {
    faults(r, class, text) && restacked(a, b, below(a, n)) && b.heap == a.heap
}

/// What a variable that has no value says, if it shadows one of the module.
pub open spec fn shadow_text(name: Seq<char>) -> Seq<char> {
    "local variable '"@ + name + "' referenced before assignment: '"@ + name
        + "' is assigned inside this function, which makes it local and shadows the module-level '"@ + name
        + "'. To read and update the module value, declare `global "@ + name
        + "` at the top of the function; otherwise keep the state on an object, or rename the local."@
}

/// The module-level name that local `slot` shadows.
pub open spec fn shadowed(hints: Seq<(u32, String)>, slot: u32, i: int) -> Option<Seq<char>>
    decreases hints.len() - i,
{
    if i < 0 || i >= hints.len() {
        None
    } else if hints[i].0 == slot {
        Some(hints[i].1@)
    } else {
        shadowed(hints, slot, i + 1)
    }
}

/// The name of the parameter in local `slot`.
pub open spec fn param_in(params: Seq<crate::code::Param>, slot: u32, i: int) -> Option<Seq<char>>
    decreases params.len() - i,
{
    if i < 0 || i >= params.len() {
        None
    } else if params[i].target == VarTarget::Local(slot) {
        Some(params[i].name@)
    } else {
        param_in(params, slot, i + 1)
    }
}

/// What reading local `slot` says while it has no value.
pub open spec fn unbound_text(code: CodeObject, slot: u32) -> Seq<char> {
    match shadowed(code.shadow_hints@, slot, 0) {
        Some(name) => shadow_text(name),
        None => match param_in(code.params@, slot, 0) {
            Some(name) => "local variable '"@ + name + "' referenced before assignment"@,
            None => "local variable referenced before assignment"@,
        },
    }
}

fn unbound_local_err(code: &CodeObject, slot: u32) -> (r: VErr)
    ensures r@ == (Exc::NameError, unbound_text(*code, slot)),
{
    let mut i: usize = 0;
    while i < code.shadow_hints.len()
        invariant
            i <= code.shadow_hints.len(),
            shadowed(code.shadow_hints@, slot, 0) == shadowed(code.shadow_hints@, slot, i as int),
        decreases code.shadow_hints.len() - i,
    {
        if code.shadow_hints[i].0 == slot {
            let n = code.shadow_hints[i].1.as_str();
            let head = join5("local variable '", n, "' referenced before assignment: '", n,
                "' is assigned inside this function, which makes it local and shadows the module-level '");
            let s = join5(head.as_str(), n, "'. To read and update the module value, declare `global ", n,
                "` at the top of the function; otherwise keep the state on an object, or rename the local.");
            return name_error(s);
        }
        i += 1;
    }
    let mut j: usize = 0;
    while j < code.params.len()
        invariant
            j <= code.params.len(),
            shadowed(code.shadow_hints@, slot, 0) is None,
            param_in(code.params@, slot, 0) == param_in(code.params@, slot, j as int),
        decreases code.params.len() - j,
    {
        if let VarTarget::Local(s) = code.params[j].target {
            if s == slot {
                return name_error(join3("local variable '", code.params[j].name.as_str(), "' referenced before assignment"));
            }
        }
        j += 1;
    }
    name_error("local variable referenced before assignment".to_owned())
}

/// What reading a variable does.
pub open spec fn read_result(a: Vm, b: Vm, v: Value, text: Seq<char>, r: Step) -> bool {
    if v is Unbound {
        faults(r, Exc::NameError, text) && b == a
    } else {
        gave(a, b, v, r)
    }
}

/// What a global name is: an exception class, or something of the host's
/// library.
pub open spec fn global_value(a: Vm, name: Seq<char>) -> Option<Value> {
    match exc_named(name, 0) {
        Some(i) => Some(Value::Class(class_at(a.excs@, i))),
        None => a.natives.globals.spec_get(name),
    }
}

/// What is said about a global that is gone.
pub open spec fn cut_global(cuts: Seq<(String, String)>, name: Seq<char>, i: int) -> Option<Seq<char>>
    decreases cuts.len() - i,
{
    if i < 0 || i >= cuts.len() {
        None
    } else if cuts[i].0@ == name {
        Some(cuts[i].1@)
    } else {
        cut_global(cuts, name, i + 1)
    }
}

/// What reading a global does.
pub open spec fn global_result(a: Vm, b: Vm, name: Seq<char>, r: Step) -> bool {
    match global_value(a, name) {
        Some(v) => gave(a, b, v, r),
        None => b == a && faults(r, Exc::NameError, match cut_global(a.natives.cut_globals@, name, 0) {
            Some(t) => t,
            None => "name '"@ + name + "' is not defined"@,
        }),
    }
}

/// The local, cell or captured cell a store goes to is set, and its value is off
/// the stack.
pub open spec fn stored_local(a: Vm, b: Vm, slot: int, r: Step) -> bool {
    &&& r is Next
    &&& only_top(a, b)
    &&& b.heap == a.heap
    &&& b.top() == (Frame { locals: b.top().locals, stack: b.top().stack, ..a.top() })
    &&& b.top().locals@ == a.top().locals@.update(slot, a.stack().last())
    &&& b.stack() == a.stack().drop_last()
}

/// A cell is set, and its value is off the stack.
pub open spec fn stored_cell(a: Vm, b: Vm, cell: usize, r: Step) -> bool {
    &&& r is Next
    &&& restacked(a, b, a.stack().drop_last())
    &&& b.heap == (Heap { cells: b.heap.cells, ..a.heap })
    &&& b.heap.cells@ == (if cell < a.heap.cells@.len() {
        a.heap.cells@.update(cell as int, a.stack().last())
    } else {
        a.heap.cells@
    })
}

/// What the test that a condition must be spelled as is.
pub open spec fn suggestion(v: Value) -> Seq<char> {
    match v {
        Value::Str(_) | Value::Bytes(_) | Value::List(_) | Value::Tuple(_) | Value::Dict(_) | Value::Range(_) => "len(x) != 0"@,
        Value::Int(_) | Value::Big(_) | Value::Float(_) => "x != 0"@,
        _ => "x != null"@,
    }
}

/// The message for a condition that is no bool.
pub open spec fn not_bool_text(h: Heap, v: Value, what: Seq<char>) -> Seq<char> {
    what + " must be a bool, not '"@ + type_label(h, v) + "' — Oro has no truthiness, so write the test: `"@ + suggestion(v) + "`"@
}

/// A condition that is no bool.
pub fn not_bool(h: &Heap, v: Value, what: &str) -> (r: VErr)
    ensures r@ == (Exc::TypeError, not_bool_text(*h, v, what@)),
{
    let test = match v {
        Value::Str(_) => "len(x) != 0",
        Value::Bytes(_) => "len(x) != 0",
        Value::List(_) => "len(x) != 0",
        Value::Tuple(_) => "len(x) != 0",
        Value::Dict(_) => "len(x) != 0",
        Value::Range(_) => "len(x) != 0",
        Value::Int(_) => "x != 0",
        Value::Big(_) => "x != 0",
        Value::Float(_) => "x != 0",
        _ => "x != null",
    };
    let head = join5(what, " must be a bool, not '", type_label_of(h, v), "' — Oro has no truthiness, so write the test: `", test);
    type_error(join2(head.as_str(), "`"))
}

/// What arithmetic that may need the host does.
pub open spec fn arith_given(a: Vm, b: Vm, n: int, h: Heap, x: Result<Arith, VErr>, r: Step) -> bool {
    match x {
        Ok(Arith::Done(v)) => r is Next && restacked(a, b, below(a, n).push(v)) && b.heap == h,
        Ok(Arith::Float(op, p, q)) => (r matches Step::Host(c) && (*c).0 == HostCall::Float(op, p, q) && (*c).1 == ReturnAction::Normal)
            && restacked(a, b, below(a, n)) && b.heap == h,
        Err(e) => faults(r, e@.0, e@.1) && restacked(a, b, below(a, n)) && b.heap == h,
    }
}

/// What `-v` does.
pub open spec fn negate_result(a: Vm, b: Vm, r: Step) -> bool {
    exists|h: Heap, x: Result<Arith, VErr>| #[trigger] neg_result(a.heap, h, a.stack().last(), x) && bigs_grew(a.heap, h)
        && arith_given(a, b, 1, h, x, r)
}

/// What `+v` does.
pub open spec fn plus_result(a: Vm, b: Vm, r: Step) -> bool {
    exists|h: Heap, x: Result<Value, VErr>| #[trigger] pos_result(a.heap, h, a.stack().last(), x) && bigs_grew(a.heap, h)
        && gives(a, b, 1, h, x, r)
}

/// What `~v` does.
pub open spec fn flip_result(a: Vm, b: Vm, r: Step) -> bool {
    exists|h: Heap, x: Result<Value, VErr>| #[trigger] invert_result(a.heap, h, a.stack().last(), x) && bigs_grew(a.heap, h)
        && gives(a, b, 1, h, x, r)
}

/// What `not v` does: whether `v` counts as false.
pub open spec fn not_result(a: Vm, b: Vm, r: Step) -> bool {
    r is Next && restacked(a, b, below(a, 1).push(Value::Bool(!truthy(a.heap, a.operand(0))))) && b.heap == a.heap
}

/// What `x op y` does: a method of the left operand's class, or arithmetic.
pub open spec fn binary_op_result(a: Vm, b: Vm, op: BinOp, r: Step) -> bool {
    let x = a.operand(1);
    let y = a.operand(0);
    let d = op_dunder(op);
    if d is Some && a.heap.method_of(x, d->0) is Some {
        let (f, c) = a.heap.method_of(x, d->0)->0;
        exists|m: Vm| #[trigger] popped_to(a, m, a.stack().len() - 2)
            && user_result(m, b, f, x, c, seq![y], Seq::empty(), ReturnAction::Normal, r)
    } else if x is Instance {
        refuses(a, b, 2, Exc::TypeError, operands_text(crate::arith::op_symbol(op), type_label(a.heap, x), type_label(a.heap, y)), r)
    } else {
        exists|h: Heap, v: Result<Arith, VErr>| #[trigger] binary_result(a.heap, h, op, x, y, v) && sequences_grew(a.heap, h)
            && arith_given(a, b, 2, h, v, r)
    }
}

/// The entries of a dict display: keys and values in turn, `n` of them.
pub open spec fn display_entries(h: Heap, items: Seq<Value>, n: int) -> Result<Seq<(Value, Value)>, (Exc, Seq<char>)>
    decreases n,
{
    if n <= 0 {
        Ok(Seq::empty())
    } else {
        match display_entries(h, items, n - 1) {
            Err(e) => Err(e),
            Ok(es) => match unhashable(h, items[2 * n - 2]) {
                Some(p) => Err((Exc::TypeError, unhashable_text(h, p))),
                None => Ok(with_key(h, es, items[2 * n - 2], items[2 * n - 1])),
            },
        }
    }
}

/// What `{k: v, ...}` does.
pub open spec fn map_result(a: Vm, b: Vm, n: int, r: Step) -> bool {
    let items = a.stack().skip(a.stack().len() - 2 * n);
    match display_entries(a.heap, items, n) {
        Err(e) => refuses(a, b, 2 * n, e.0, e.1, r),
        Ok(es) => {
            let id = a.heap.dicts.len();
            &&& r is Next
            &&& restacked(a, b, below(a, 2 * n).push(Value::Dict(id)))
            &&& b.heap == (Heap { dicts: b.heap.dicts, ..a.heap })
            &&& b.heap.dicts@.len() == id + 1
            &&& a.heap.dicts@.is_prefix_of(b.heap.dicts@)
            &&& b.heap.dict(id) == es
        },
    }
}

/// What `[...]` does.
pub open spec fn list_result(a: Vm, b: Vm, n: int, r: Step) -> bool {
    let id = a.heap.lists.len();
    &&& r is Next
    &&& restacked(a, b, below(a, n).push(Value::List(id)))
    &&& b.heap == (Heap { lists: b.heap.lists, ..a.heap })
    &&& b.heap.lists@.len() == id + 1
    &&& a.heap.lists@.is_prefix_of(b.heap.lists@)
    &&& b.heap.list(id) == a.stack().skip(a.stack().len() - n)
}

/// What `(...)` does.
pub open spec fn tuple_result(a: Vm, b: Vm, n: int, r: Step) -> bool {
    let id = a.heap.tuples.len();
    &&& r is Next
    &&& restacked(a, b, below(a, n).push(Value::Tuple(id)))
    &&& b.heap == (Heap { tuples: b.heap.tuples, ..a.heap })
    &&& b.heap.tuples@.len() == id + 1
    &&& a.heap.tuples@.is_prefix_of(b.heap.tuples@)
    &&& b.heap.tuple(id) == a.stack().skip(a.stack().len() - n)
}

impl Vm {
    /// Push what came out, or fault.
    pub fn settle(&mut self, x: Result<Value, VErr>) -> (r: Step)
        requires old(self).running(),
        ensures
            match x {
                Ok(v) => r is Next && restacked(*old(self), *final(self), old(self).stack().push(v)) && final(self).heap == old(self).heap,
                Err(e) => faults(r, e@.0, e@.1) && *final(self) == *old(self),
            },
    {
        match x {
            Ok(v) => {
                self.push(v);
                Step::Next
            }
            Err(e) => fail(e),
        }
    }

    fn settle_arith(&mut self, x: Result<Arith, VErr>) -> (r: Step)
        requires old(self).running(),
        ensures
            match x {
                Ok(Arith::Done(v)) => r is Next && restacked(*old(self), *final(self), old(self).stack().push(v)) && final(self).heap == old(self).heap,
                Ok(Arith::Float(op, p, q)) => (r matches Step::Host(c) && (*c).0 == HostCall::Float(op, p, q) && (*c).1 == ReturnAction::Normal)
                    && *final(self) == *old(self),
                Err(e) => faults(r, e@.0, e@.1) && *final(self) == *old(self),
            },
    {
        match x {
            Ok(Arith::Done(v)) => {
                self.push(v);
                Step::Next
            }
            Ok(Arith::Float(op, p, q)) => Step::Host(Box::new((HostCall::Float(op, p, q), ReturnAction::Normal))),
            Err(e) => fail(e),
        }
    }

    fn read(&mut self, v: Value, text: &str) -> (r: Step)
        requires old(self).running(),
        ensures read_result(*old(self), *final(self), v, text@, r),
    {
        if let Value::Unbound = v {
            return fault_step(Exc::NameError, text);
        }
        self.push(v);
        Step::Next
    }

    /// `LoadFast`.
    pub fn load_fast(&mut self, slot: u32) -> (r: Step)
        requires
            old(self).running(),
            slot < old(self).top().locals@.len(),
        ensures read_result(*old(self), *final(self), old(self).top().locals@[slot as int], unbound_text(*old(self).top().code, slot), r),
    {
        let n = self.task.frames.len();
        let v = self.task.frames[n - 1].locals[slot as usize];
        if let Value::Unbound = v {
            let code = self.code();
            return fail(unbound_local_err(&code, slot));
        }
        self.push(v);
        Step::Next
    }

    /// `StoreFast`.
    pub fn store_fast(&mut self, slot: u32) -> (r: Step)
        requires
            old(self).has(1),
            slot < old(self).top().locals@.len(),
        ensures stored_local(*old(self), *final(self), slot as int, r),
    {
        let ghost a = *self;
        let v = self.pop();
        let n = self.task.frames.len();
        self.task.frames[n - 1].locals.set(slot as usize, v);
        assert(self.task.frames@.drop_last() =~= a.task.frames@.drop_last());
        Step::Next
    }

    /// `LoadCell`.
    pub fn load_cell(&mut self, slot: u32) -> (r: Step)
        requires
            old(self).running(),
            slot < old(self).top().cells@.len(),
        ensures
            read_result(*old(self), *final(self), old(self).heap.cell(old(self).top().cells@[slot as int]),
                "local variable referenced before assignment"@, r),
    {
        let n = self.task.frames.len();
        let v = self.heap.cell_get(self.task.frames[n - 1].cells[slot as usize]);
        self.read(v, "local variable referenced before assignment")
    }

    /// `LoadFree`.
    pub fn load_free(&mut self, slot: u32) -> (r: Step)
        requires
            old(self).running(),
            slot < old(self).top().free@.len(),
        ensures
            read_result(*old(self), *final(self), old(self).heap.cell(old(self).top().free@[slot as int]),
                "free variable referenced before assignment"@, r),
    {
        let n = self.task.frames.len();
        let v = self.heap.cell_get(self.task.frames[n - 1].free[slot as usize]);
        self.read(v, "free variable referenced before assignment")
    }

    /// Store the top value in a cell.
    pub fn store_cell(&mut self, cell: usize) -> (r: Step)
        requires old(self).has(1),
        ensures stored_cell(*old(self), *final(self), cell, r),
    {
        let v = self.pop();
        self.heap.cell_set(cell, v);
        Step::Next
    }

    /// `LoadGlobal`.
    pub fn load_global(&mut self, name: &str) -> (r: Step)
        requires old(self).running(),
        ensures global_result(*old(self), *final(self), name@, r),
    {
        if let Some(v) = crate::exceptions::lookup(&self.excs, name) {
            self.push(v);
            return Step::Next;
        }
        if let Some(v) = self.natives.globals.get(name) {
            self.push(v);
            return Step::Next;
        }
        let mut i: usize = 0;
        while i < self.natives.cut_globals.len()
            invariant
                i <= self.natives.cut_globals.len(),
                *self == *old(self),
                global_value(*old(self), name@) is None,
                cut_global(self.natives.cut_globals@, name@, 0) == cut_global(self.natives.cut_globals@, name@, i as int),
            decreases self.natives.cut_globals.len() - i,
        {
            if same_text(self.natives.cut_globals[i].0.as_str(), name) {
                return fault_step(Exc::NameError, self.natives.cut_globals[i].1.as_str());
            }
            i += 1;
        }
        fail(name_error(join3("name '", name, "' is not defined")))
    }

    /// `UnaryNeg`.
    pub fn unary_neg(&mut self) -> (r: Step)
        requires old(self).has(1),
        ensures negate_result(*old(self), *final(self), r),
    {
        let ghost a = *self;
        let v = self.pop();
        let x = crate::arith::neg(&mut self.heap, v);
        let ghost h = self.heap;
        let ghost xv = x;
        assert(neg_result(a.heap, h, a.stack().last(), xv));
        assert(self.stack() =~= below(a, 1));
        self.settle_arith(x)
    }

    /// `UnaryPos`.
    pub fn unary_pos(&mut self) -> (r: Step)
        requires old(self).has(1),
        ensures plus_result(*old(self), *final(self), r),
    {
        let ghost a = *self;
        let v = self.pop();
        let x = crate::arith::pos(&mut self.heap, v);
        let ghost h = self.heap;
        let ghost xv = x;
        assert(pos_result(a.heap, h, a.stack().last(), xv));
        assert(self.stack() =~= below(a, 1));
        self.settle(x)
    }

    /// `UnaryInvert`.
    pub fn unary_invert(&mut self) -> (r: Step)
        requires old(self).has(1),
        ensures flip_result(*old(self), *final(self), r),
    {
        let ghost a = *self;
        let v = self.pop();
        let x = crate::arith::invert(&mut self.heap, v);
        let ghost h = self.heap;
        let ghost xv = x;
        assert(invert_result(a.heap, h, a.stack().last(), xv));
        assert(self.stack() =~= below(a, 1));
        self.settle(x)
    }

    /// `UnaryNot`.
    pub fn unary_not(&mut self) -> (r: Step)
        requires old(self).has(1),
        ensures not_result(*old(self), *final(self), r),
    {
        let ghost a = *self;
        let v = self.pop();
        assert(self.stack() =~= below(a, 1));
        let x = is_truthy(&self.heap, v);
        self.push(Value::Bool(!x));
        Step::Next
    }

    /// `Binary`.
    pub fn binary_op(&mut self, op: BinOp) -> (r: Step)
        requires old(self).has(2),
        ensures binary_op_result(*old(self), *final(self), op, r),
    {
        let ghost a = *self;
        let y = self.pop();
        let x = self.pop();
        let ghost m = *self;
        proof {
            assert(m.stack() =~= a.stack().take(a.stack().len() - 2));
            assert(popped_to(a, m, a.stack().len() - 2));
            assert(m.stack() == below(a, 2));
        }
        if let Some(name) = arith_dunder(op) {
            if let Some((f, c)) = self.heap.instance_method(x, name) {
                let mut args: Vec<Value> = Vec::new();
                args.push(y);
                assert(args@ =~= seq![y]);
                let none: Vec<crate::machine::Keyword> = Vec::new();
                assert(none@ =~= Seq::empty());
                return self.invoke_user(f, x, c, args, none, ReturnAction::Normal);
            }
        }
        if let Value::Instance(_) = x {
            return fail(crate::arith::operands_err(crate::arith::arith_symbol(op), type_label_of(&self.heap, x), type_label_of(&self.heap, y)));
        }
        let v = crate::arith::binary(&mut self.heap, op, x, y);
        let ghost h = self.heap;
        let ghost vv = v;
        assert(binary_result(a.heap, h, op, a.operand(1), a.operand(0), vv));
        self.settle_arith(v)
    }

    /// `BuildList`.
    pub fn build_list(&mut self, n: usize) -> (r: Step)
        requires old(self).has(n as nat),
        ensures list_result(*old(self), *final(self), n as int, r),
    {
        let items = self.popn(n);
        let v = self.heap.alloc_list(items);
        self.push(v);
        Step::Next
    }

    /// `BuildTuple`.
    pub fn build_tuple(&mut self, n: usize) -> (r: Step)
        requires old(self).has(n as nat),
        ensures tuple_result(*old(self), *final(self), n as int, r),
    {
        let items = self.popn(n);
        let v = self.heap.alloc_tuple(items);
        self.push(v);
        Step::Next
    }

    /// `BuildMap`.
    pub fn build_map(&mut self, n: usize) -> (r: Step)
        requires
            old(self).has(2 * n as nat),
            2 * n <= usize::MAX,
        ensures map_result(*old(self), *final(self), n as int, r),
    {
        let ghost a = *self;
        let items = self.popn(2 * n);
        let ghost m = *self;
        let mut entries: Vec<(Value, Value)> = Vec::new();
        let mut i: usize = 0;
        while i < n
            invariant
                i <= n,
                items@.len() == 2 * n,
                2 * n <= usize::MAX,
                *self == m,
                display_entries(m.heap, items@, i as int) == Ok::<Seq<(Value, Value)>, (Exc, Seq<char>)>(entries@),
                m.heap == a.heap,
                items@ == a.stack().skip(a.stack().len() - 2 * n),
                restacked(a, m, below(a, 2 * n)),
                a == *old(self),
            decreases n - i,
        {
            if let Err(e) = check_key(&self.heap, items[2 * i]) {
                proof { lemma_entries_err(m.heap, items@, i + 1, n as int); }
                return fail(e);
            }
            put_key(&self.heap, &mut entries, items[2 * i], items[2 * i + 1]);
            i += 1;
        }
        let v = self.heap.alloc_dict(entries);
        self.push(v);
        Step::Next
    }
}

proof fn lemma_entries_err(h: Heap, items: Seq<Value>, i: int, n: int)
    requires 0 <= i <= n, display_entries(h, items, i) is Err,
    ensures display_entries(h, items, n) == display_entries(h, items, i),
    decreases n - i,
{
    if i < n {
        lemma_entries_err(h, items, i, n - 1);
    }
}

} // verus!
