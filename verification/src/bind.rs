//! Making frames and binding arguments to them.
use vstd::prelude::*;
use std::rc::Rc;
use crate::code::{first_param, CodeObject, VarTarget};
use crate::exc::{type_error, Exc, VErr};
use crate::frame::{Frame, ReturnAction};
use crate::machine::{Keyword, Task, Vm, FRAME_POOL_MAX};
use crate::names::{kind_name, kind_name_of};
use crate::text::{join2, join3, join5, nat_text, render_usize, same_text};
use crate::value::{Heap, Value};

verus! {

/// `n` locals that have no value yet.
pub open spec fn unbound(n: nat) -> Seq<Value> {
    Seq::new(n, |i: int| Value::Unbound)
}

/// `n` cells made one after the other from cell `first` on.
pub open spec fn cells_from(first: int, n: nat) -> Seq<usize> {
    Seq::new(n, |i: int| (first + i) as usize)
}

/// `f` is ready to run `code`, with cells of its own, made in between `a` and
/// `b`, and the cells `free`.
pub open spec fn fresh_frame(a: Heap, b: Heap, code: Rc<CodeObject>, free: Seq<usize>, f: Frame) -> bool {
    &&& f.code == code
    &&& f.pc == 0
    &&& f.locals@ == unbound(code.nlocals as nat)
    &&& f.cells@ == cells_from(a.cells@.len() as int, code.ncells as nat)
    &&& f.free@ == free
    &&& f.stack@.len() == 0
    &&& f.ret_action == ReturnAction::Normal
    &&& f.super_ctx is None
    &&& f.blocks@.len() == 0
    &&& b == (Heap { cells: b.cells, ..a })
    &&& b.cells@ == a.cells@ + unbound(code.ncells as nat)
}

/// A frame with nothing of an earlier life in it.
pub open spec fn blank(f: Frame) -> bool {
    &&& f.locals@.len() == 0
    &&& f.cells@.len() == 0
    &&& f.free@.len() == 0
    &&& f.stack@.len() == 0
    &&& f.blocks@.len() == 0
    &&& f.super_ctx is None
    &&& f.ret_action == ReturnAction::Normal
}

/// The pool of retired frames after one was taken to be used again, if there
/// was one.
pub open spec fn pool_taken(a: Seq<Frame>, b: Seq<Frame>) -> bool {
    b == (if a.len() > 0 { a.drop_last() } else { a })
}

/// The pool of retired frames after one more was retired. A full pool takes
/// none.
pub open spec fn pool_retired(a: Seq<Frame>, b: Seq<Frame>) -> bool {
    if a.len() >= FRAME_POOL_MAX {
        b == a
    } else {
        b.len() == a.len() + 1 && b.drop_last() == a && blank(b.last())
    }
}

/// The pool is no larger than it may be, and nothing of an earlier life is in it.
pub open spec fn pool_wf(pool: Seq<Frame>) -> bool {
    pool.len() <= FRAME_POOL_MAX && forall|k: int| 0 <= k < pool.len() ==> blank(#[trigger] pool[k])
}

/// Whatever frame is retired, and whoever takes one, the pool stays small and
/// keeps nothing alive.
pub proof fn the_pool_keeps_nothing(a: Seq<Frame>, b: Seq<Frame>)
    requires
        pool_wf(a),
        pool_taken(a, b) || pool_retired(a, b),
    ensures pool_wf(b),
{
    if pool_retired(a, b) && a.len() < FRAME_POOL_MAX {
        assert forall|k: int| 0 <= k < b.len() implies blank(#[trigger] b[k]) by {
            if k < a.len() {
                assert(b.drop_last()[k] == a[k]);
            }
        }
    }
}

/// Between `a` and `b` nothing changed but the heap, and a frame was taken from
/// the pool.
pub open spec fn only_heap(a: Vm, b: Vm) -> bool {
    b == (Vm { heap: b.heap, frame_pool: b.frame_pool, ..a }) && pool_taken(a.frame_pool@, b.frame_pool@)
}

impl Vm {
    /// A frame ready to run `code`, made of a retired one's buffers where there
    /// is one.
    pub fn take_frame(&mut self, code: Rc<CodeObject>, free: &Vec<usize>) -> (r: Frame)
        ensures
            fresh_frame(old(self).heap, final(self).heap, code, free@, r),
            only_heap(*old(self), *final(self)),
    {
        let mut f = match self.frame_pool.pop() {
            Some(mut f) => {
                f.locals.clear();
                f.cells.clear();
                f.free.clear();
                f.stack.clear();
                f.blocks.clear();
                f.super_ctx = None;
                f.ret_action = ReturnAction::Normal;
                f.pc = 0;
                f.code = code.clone();
                f
            }
            None => Frame {
                code: code.clone(),
                pc: 0,
                locals: Vec::new(),
                cells: Vec::new(),
                free: Vec::new(),
                stack: Vec::new(),
                ret_action: ReturnAction::Normal,
                super_ctx: None,
                blocks: Vec::new(),
            },
        };
        let ghost pool = self.frame_pool;
        assert(pool_taken(old(self).frame_pool@, pool@));
        let ghost base = self.heap;
        let mut i: usize = 0;
        while i < code.nlocals
            invariant
                i <= code.nlocals,
                f.locals@ =~= unbound(i as nat),
                f.cells@.len() == 0,
                f.free@.len() == 0,
                f.stack@.len() == 0,
                f.blocks@.len() == 0,
                f.super_ctx is None,
                f.ret_action == ReturnAction::Normal,
                f.pc == 0,
                f.code == code,
            decreases code.nlocals - i,
        {
            f.locals.push(Value::Unbound);
            i += 1;
        }
        let mut k: usize = 0;
        while k < code.ncells
            invariant
                k <= code.ncells,
                f.locals@ == unbound(code.nlocals as nat),
                f.cells@ =~= cells_from(base.cells@.len() as int, k as nat),
                self.heap.cells@ =~= base.cells@ + unbound(k as nat),
                self.heap == (Heap { cells: self.heap.cells, ..base }),
                *self == (Vm { heap: self.heap, frame_pool: pool, ..*old(self) }),
                pool_taken(old(self).frame_pool@, pool@),
                base == old(self).heap,
                f.free@.len() == 0,
                f.stack@.len() == 0,
                f.blocks@.len() == 0,
                f.super_ctx is None,
                f.ret_action == ReturnAction::Normal,
                f.pc == 0,
                f.code == code,
            decreases code.ncells - k,
        {
            let c = self.heap.alloc_cell(Value::Unbound);
            f.cells.push(c);
            k += 1;
        }
        let mut j: usize = 0;
        while j < free.len()
            invariant
                j <= free.len(),
                f.free@ =~= free@.take(j as int),
                f.locals@ == unbound(code.nlocals as nat),
                f.cells@ == cells_from(base.cells@.len() as int, code.ncells as nat),
                f.stack@.len() == 0,
                f.blocks@.len() == 0,
                f.super_ctx is None,
                f.ret_action == ReturnAction::Normal,
                f.pc == 0,
                f.code == code,
            decreases free.len() - j,
        {
            f.free.push(free[j]);
            j += 1;
        }
        assert(free@.take(j as int) =~= free@);
        f
    }

    /// Retire a frame. What it held is let go of here, and only the buffers are
    /// kept.
    pub fn recycle(&mut self, frame: Frame)
        ensures
            *final(self) == (Vm { frame_pool: final(self).frame_pool, ..*old(self) }),
            pool_retired(old(self).frame_pool@, final(self).frame_pool@),
    {
        if self.frame_pool.len() >= FRAME_POOL_MAX {
            return;
        }
        let mut f = frame;
        f.locals.clear();
        f.cells.clear();
        f.free.clear();
        f.stack.clear();
        f.blocks.clear();
        f.super_ctx = None;
        f.ret_action = ReturnAction::Normal;
        self.frame_pool.push(f);
        assert(self.frame_pool@.drop_last() =~= old(self).frame_pool@);
    }

    /// Start a program: a frame for its module body on the running task.
    pub fn push_module_frame(&mut self, code: Rc<CodeObject>)
        ensures
            final(self).main_source == code.source,
            final(self).task.frames@.len() == old(self).task.frames@.len() + 1,
            final(self).task.frames@.drop_last() == old(self).task.frames@,
            fresh_frame(old(self).heap, final(self).heap, code, Seq::empty(), final(self).task.frames@.last()),
            *final(self) == (Vm {
                task: Task { frames: final(self).task.frames, ..old(self).task },
                heap: final(self).heap,
                frame_pool: final(self).frame_pool,
                main_source: code.source,
                ..*old(self)
            }),
            pool_taken(old(self).frame_pool@, final(self).frame_pool@),
    {
        self.main_source = code.source.clone();
        let none: Vec<usize> = Vec::new();
        let f = self.take_frame(code, &none);
        assert(none@ =~= Seq::empty());
        self.task.frames.push(f);
        assert(self.task.frames@.drop_last() =~= old(self).task.frames@);
    }
}

/// The code behind a shared reference.
pub open spec fn body_of(code: Rc<CodeObject>) -> CodeObject {
    *code
}

/// A value to be stored where a variable lives.
pub type Store = (VarTarget, Value);

/// The locals after these stores.
pub open spec fn stored_locals(locals: Seq<Value>, stores: Seq<Store>) -> Seq<Value>
    decreases stores.len(),
{
    if stores.len() == 0 {
        locals
    } else {
        let l = stored_locals(locals, stores.drop_last());
        match stores.last().0 {
            VarTarget::Local(s) => if s < l.len() { l.update(s as int, stores.last().1) } else { l },
            VarTarget::Cell(_) => l,
        }
    }
}

/// The contents of all cells after these stores into a frame whose cells are
/// `own`.
pub open spec fn stored_cells(cells: Seq<Value>, own: Seq<usize>, stores: Seq<Store>) -> Seq<Value>
    decreases stores.len(),
{
    if stores.len() == 0 {
        cells
    } else {
        let c = stored_cells(cells, own, stores.drop_last());
        match stores.last().0 {
            VarTarget::Local(_) => c,
            VarTarget::Cell(s) => if s < own.len() && own[s as int] < c.len() {
                c.update(own[s as int] as int, stores.last().1)
            } else {
                c
            },
        }
    }
}

/// Put a value where a variable of `frame` lives.
pub fn store_param(h: &mut Heap, frame: &mut Frame, target: VarTarget, value: Value)
    ensures
        final(frame).locals@ == stored_locals(old(frame).locals@, seq![(target, value)]),
        *final(frame) == (Frame { locals: final(frame).locals, ..*old(frame) }),
        final(h).cells@ == stored_cells(old(h).cells@, old(frame).cells@, seq![(target, value)]),
        *final(h) == (Heap { cells: final(h).cells, ..*old(h) }),
{
    proof {
        let one = seq![(target, value)];
        assert(one.drop_last() =~= Seq::empty());
        assert(stored_locals(old(frame).locals@, one.drop_last()) == old(frame).locals@);
        assert(stored_cells(old(h).cells@, old(frame).cells@, one.drop_last()) == old(h).cells@);
    }
    match target {
        VarTarget::Local(s) => {
            if (s as usize) < frame.locals.len() {
                frame.locals.set(s as usize, value);
            }
        }
        VarTarget::Cell(s) => {
            if (s as usize) < frame.cells.len() {
                let c = frame.cells[s as usize];
                h.cell_set(c, value);
            }
        }
    }
}

proof fn lemma_store_more(locals: Seq<Value>, cells: Seq<Value>, own: Seq<usize>, stores: Seq<Store>, one: Store)
    ensures
        stored_locals(locals, stores.push(one)) == stored_locals(stored_locals(locals, stores), seq![one]),
        stored_cells(cells, own, stores.push(one)) == stored_cells(stored_cells(cells, own, stores), own, seq![one]),
{
    assert(stores.push(one).drop_last() =~= stores);
    assert(seq![one].drop_last() =~= Seq::empty());
    let l = stored_locals(locals, stores);
    let c = stored_cells(cells, own, stores);
    assert(stored_locals(l, seq![one].drop_last()) == l);
    assert(stored_cells(c, own, seq![one].drop_last()) == c);
}

/// The value passed under `name`, from place `j` on.
pub open spec fn passed(kwargs: Seq<Keyword>, name: Seq<char>, j: int) -> Option<Value>
    decreases kwargs.len() - j,
{
    if j < 0 || j >= kwargs.len() {
        None
    } else if kwargs[j].0@ == name {
        Some(kwargs[j].1)
    } else {
        passed(kwargs, name, j + 1)
    }
}

fn find_passed(kwargs: &Vec<Keyword>, name: &str) -> (r: Option<Value>)
    ensures r == passed(kwargs@, name@, 0),
{
    let mut j: usize = 0;
    while j < kwargs.len()
        invariant
            j <= kwargs.len(),
            passed(kwargs@, name@, 0) == passed(kwargs@, name@, j as int),
        decreases kwargs.len() - j,
    {
        if same_text(kwargs[j].0.as_str(), name) {
            return Some(kwargs[j].1);
        }
        j += 1;
    }
    None
}

/// What a parameter is bound to: the argument in its place, the one passed
/// under its name, or its default.
pub open spec fn bound_value(code: CodeObject, all: Seq<Value>, kwargs: Seq<Keyword>, i: int) -> Value {
    if i < all.len() {
        all[i]
    } else {
        match passed(kwargs, code.params@[i].name@, 0) {
            Some(v) => v,
            None => if 0 <= i - code.spec_required() < code.defaults@.len() {
                code.defaults@[i - code.spec_required()]
            } else {
                Value::Unbound
            },
        }
    }
}

/// What is stored where when the parameters are bound.
pub open spec fn param_stores(code: CodeObject, all: Seq<Value>, kwargs: Seq<Keyword>) -> Seq<Store> {
    Seq::new(code.params@.len(), |i: int| (code.params@[i].target, bound_value(code, all, kwargs, i)))
}

/// How many positional arguments a call may write.
pub open spec fn takes_text(n: nat) -> Seq<char> {
    if n == 0 {
        "no positional arguments"@
    } else if n == 1 {
        "1 positional argument"@
    } else {
        nat_text(n) + " positional arguments"@
    }
}

/// The complaint about too many positional arguments, of which `skip` are not
/// written by the caller.
pub open spec fn too_many_text(code: CodeObject, skip: nat, given: nat) -> Seq<char> {
    code.name@ + "() takes "@ + takes_text((code.params@.len() - skip) as nat) + " but "@ + nat_text((given - skip) as nat)
        + (if given - skip == 1 { " was given"@ } else { " were given"@ })
}

/// The complaint about a keyword, if there is one.
pub open spec fn keyword_error(h: Heap, code: CodeObject, nargs: nat, kwargs: Seq<Keyword>, j: int) -> Option<Seq<char>> {
    let name = kwargs[j].0@;
    match first_param(code.params@, name, 0) {
        None => if code.kwvars is None {
            Some(code.name@ + "() got an unexpected keyword argument '"@ + name + "'"@)
        } else if passed(kwargs.take(j), name, 0) is Some {
            Some(code.name@ + "() got multiple values for argument '"@ + name + "'"@)
        } else {
            None
        },
        Some(pos) => if pos < nargs || passed(kwargs.take(j), name, 0) is Some {
            Some(code.name@ + "() got multiple values for argument '"@ + name + "'"@)
        } else {
            let d = pos - code.spec_required();
            if kwargs[j].1 is Null && 0 <= d < code.defaults@.len() && !(code.defaults@[d] is Null) {
                Some(code.name@ + "(): "@ + name + "= must be "@ + wanted(h, code.defaults@[d])
                    + ", not null — leave it out to use the default"@)
            } else {
                None
            }
        },
    }
}

/// What an argument with this default should be.
pub open spec fn wanted(h: Heap, default: Value) -> Seq<char> {
    if default is Unbound { "a value"@ } else { kind_name(h, default) }
}

/// The first complaint about a keyword from place `j` on.
pub open spec fn first_keyword_error(h: Heap, code: CodeObject, nargs: nat, kwargs: Seq<Keyword>, j: int) -> Option<Seq<char>>
    decreases kwargs.len() - j,
{
    if j < 0 || j >= kwargs.len() {
        None
    } else {
        match keyword_error(h, code, nargs, kwargs, j) {
            Some(t) => Some(t),
            None => first_keyword_error(h, code, nargs, kwargs, j + 1),
        }
    }
}

/// The first parameter from place `i` on that has no default and no argument.
pub open spec fn first_missing(code: CodeObject, kwargs: Seq<Keyword>, i: int) -> Option<int>
    decreases code.params@.len() - i,
{
    if i < 0 || i >= code.params@.len() || i >= code.spec_required() {
        None
    } else if passed(kwargs, code.params@[i].name@, 0) is None {
        Some(i)
    } else {
        first_missing(code, kwargs, i + 1)
    }
}

/// Why a call cannot be bound, if it cannot: too many positional arguments, a
/// keyword that does not fit, an argument that is missing, in this order.
pub open spec fn bind_error(h: Heap, code: CodeObject, skip: nat, nargs: nat, kwargs: Seq<Keyword>) -> Option<Seq<char>> {
    if nargs > code.params@.len() && code.varargs is None {
        Some(too_many_text(code, if skip <= code.params@.len() { skip } else { code.params@.len() }, nargs))
    } else {
        match first_keyword_error(h, code, nargs, kwargs, 0) {
            Some(t) => Some(t),
            None => match first_missing(code, kwargs, nargs as int) {
                Some(i) => Some(code.name@ + "() missing required argument: '"@ + code.params@[i].name@ + "'"@),
                None => None,
            },
        }
    }
}

fn too_many(code: &CodeObject, skip: usize, given: usize) -> (r: VErr)
    requires skip <= code.params@.len(), skip <= given,
    ensures r@ == (Exc::TypeError, too_many_text(*code, skip as nat, given as nat)),
{
    let n = code.params.len() - skip;
    let takes = if n == 0 {
        "no positional arguments".to_owned()
    } else if n == 1 {
        "1 positional argument".to_owned()
    } else {
        let d = render_usize(n);
        join2(d.as_str(), " positional arguments")
    };
    let g = given - skip;
    let d = render_usize(g);
    let s = join5(code.name.as_str(), "() takes ", takes.as_str(), " but ", d.as_str());
    type_error(join2(s.as_str(), if g == 1 { " was given" } else { " were given" }))
}

fn check_keyword(h: &Heap, code: &CodeObject, nargs: usize, kwargs: &Vec<Keyword>, j: usize) -> (r: Result<(), VErr>)
    requires j < kwargs.len(),
    ensures
        match keyword_error(*h, *code, nargs as nat, kwargs@, j as int) {
            Some(t) => r matches Err(e) && e@ == (Exc::TypeError, t),
            None => r is Ok,
        },
{
    let name = kwargs[j].0.as_str();
    match code.param_position(name) {
        None => {
            if code.kwvars.is_none() {
                let s = join3(code.name.as_str(), "() got an unexpected keyword argument '", name);
                Err(type_error(join2(s.as_str(), "'")))
            } else if passed_before(kwargs, name, j) {
                let s = join3(code.name.as_str(), "() got multiple values for argument '", name);
                Err(type_error(join2(s.as_str(), "'")))
            } else {
                Ok(())
            }
        }
        Some(pos) => {
            if pos < nargs || passed_before(kwargs, name, j) {
                let s = join3(code.name.as_str(), "() got multiple values for argument '", name);
                return Err(type_error(join2(s.as_str(), "'")));
            }
            let req = code.required();
            if matches!(kwargs[j].1, Value::Null) && pos >= req && pos - req < code.defaults.len() {
                let d = code.defaults[pos - req];
                if !matches!(d, Value::Null) {
                    let want = if matches!(d, Value::Unbound) { "a value" } else { kind_name_of(h, d) };
                    let s = join5(code.name.as_str(), "(): ", name, "= must be ", want);
                    return Err(type_error(join2(s.as_str(), ", not null — leave it out to use the default")));
                }
            }
            Ok(())
        }
    }
}

fn passed_before(kwargs: &Vec<Keyword>, name: &str, j: usize) -> (r: bool)
    requires j <= kwargs.len(),
    ensures r == (passed(kwargs@.take(j as int), name@, 0) is Some),
{
    let mut k: usize = 0;
    while k < j
        invariant
            k <= j,
            j <= kwargs.len(),
            passed(kwargs@.take(j as int), name@, 0) == passed(kwargs@.take(j as int), name@, k as int),
        decreases j - k,
    {
        if same_text(kwargs[k].0.as_str(), name) {
            return true;
        }
        k += 1;
    }
    false
}

/// Whether a call can be bound, or why not.
pub fn check_call(h: &Heap, code: &CodeObject, skip: usize, nargs: usize, kwargs: &Vec<Keyword>) -> (r: Result<(), VErr>)
    requires skip <= nargs,
    ensures
        match bind_error(*h, *code, skip as nat, nargs as nat, kwargs@) {
            Some(t) => r matches Err(e) && e@ == (Exc::TypeError, t),
            None => r is Ok,
        },
{
    if nargs > code.params.len() && code.varargs.is_none() {
        let s = if skip <= code.params.len() { skip } else { code.params.len() };
        return Err(too_many(code, s, nargs));
    }
    let mut j: usize = 0;
    while j < kwargs.len()
        invariant
            j <= kwargs.len(),
            first_keyword_error(*h, *code, nargs as nat, kwargs@, 0)
                == first_keyword_error(*h, *code, nargs as nat, kwargs@, j as int),
            !(nargs > code.params@.len() && code.varargs is None),
        decreases kwargs.len() - j,
    {
        match check_keyword(h, code, nargs, kwargs, j) {
            Err(e) => {
                return Err(e);
            }
            Ok(_) => {}
        }
        j += 1;
    }
    let req = code.required();
    let mut i: usize = nargs;
    while i < req
        invariant
            i >= nargs,
            req == code.spec_required(),
            req <= code.params.len(),
            first_keyword_error(*h, *code, nargs as nat, kwargs@, 0) is None,
            !(nargs > code.params@.len() && code.varargs is None),
            first_missing(*code, kwargs@, nargs as int) == first_missing(*code, kwargs@, i as int),
        decreases req - i,
    {
        if find_passed(kwargs, code.params[i].name.as_str()).is_none() {
            let s = join3(code.name.as_str(), "() missing required argument: '", code.params[i].name.as_str());
            return Err(type_error(join2(s.as_str(), "'")));
        }
        i += 1;
    }
    Ok(())
}

/// The keywords from place `j` on that name no parameter.
pub open spec fn surplus(code: CodeObject, kwargs: Seq<Keyword>, j: int) -> Seq<Keyword>
    decreases kwargs.len() - j,
{
    if j < 0 || j >= kwargs.len() {
        Seq::empty()
    } else if first_param(code.params@, kwargs[j].0@, 0) is None {
        seq![kwargs[j]] + surplus(code, kwargs, j + 1)
    } else {
        surplus(code, kwargs, j + 1)
    }
}

/// The positional arguments with the receiver in front.
pub open spec fn with_receiver(receiver: Option<Value>, args: Seq<Value>) -> Seq<Value> {
    match receiver {
        Some(v) => seq![v] + args,
        None => args,
    }
}

/// How many arguments the receiver makes.
pub open spec fn receiver_count(receiver: Option<Value>) -> nat {
    if receiver is Some { 1 } else { 0 }
}

/// The positional arguments past the parameters.
pub open spec fn extra_args(code: CodeObject, all: Seq<Value>) -> Seq<Value> {
    if all.len() > code.params@.len() { all.skip(code.params@.len() as int) } else { Seq::empty() }
}

/// `v` is a dict of these keywords, by their names.
pub open spec fn is_keyword_dict(h: Heap, v: Value, kws: Seq<Keyword>) -> bool {
    v matches Value::Dict(d) && d < h.dicts@.len() && h.dict(d).len() == kws.len()
        && forall|k: int| 0 <= k < kws.len() ==> keyword_entry(h, #[trigger] h.dict(d)[k], kws[k])
}

/// A dict entry for a keyword.
pub open spec fn keyword_entry(h: Heap, e: (Value, Value), kw: Keyword) -> bool {
    (e.0 matches Value::Str(s) && s < h.strs@.len() && h.text(s) == kw.0@) && e.1 == kw.1
}

/// What is stored for the surplus arguments.
pub open spec fn extra_stores(code: CodeObject, rest: Value, opts: Value) -> Seq<Store> {
    (match code.varargs {
        Some(t) => seq![(t, rest)],
        None => Seq::empty(),
    }) + (match code.kwvars {
        Some(t) => seq![(t, opts)],
        None => Seq::empty(),
    })
}

/// `f` is a frame of `code` with its arguments bound.
pub open spec fn bound_frame(a: Heap, b: Heap, code: Rc<CodeObject>, free: Seq<usize>, all: Seq<Value>, kwargs: Seq<Keyword>, f: Frame) -> bool {
    &&& f.code == code
    &&& f.pc == 0
    &&& f.cells@ == cells_from(a.cells@.len() as int, code.ncells as nat)
    &&& f.free@ == free
    &&& f.stack@.len() == 0
    &&& f.ret_action == ReturnAction::Normal
    &&& f.super_ctx is None
    &&& f.blocks@.len() == 0
    &&& b == (Heap { cells: b.cells, tuples: b.tuples, dicts: b.dicts, strs: b.strs, ..a })
    &&& a.tuples@.is_prefix_of(b.tuples@)
    &&& a.dicts@.is_prefix_of(b.dicts@)
    &&& a.strs@.is_prefix_of(b.strs@)
    &&& exists|rest: Value, opts: Value| {
        &&& code.varargs is Some ==> (rest matches Value::Tuple(t) && t < b.tuples@.len() && b.tuple(t) == extra_args(*code, all))
        &&& code.kwvars is Some ==> is_keyword_dict(b, opts, surplus(*code, kwargs, 0))
        &&& f.locals@ == stored_locals(unbound(code.nlocals as nat), param_stores(*code, all, kwargs)
            + #[trigger] extra_stores(*code, rest, opts))
        &&& b.cells@ == stored_cells(a.cells@ + unbound(code.ncells as nat), f.cells@, param_stores(*code, all, kwargs)
            + extra_stores(*code, rest, opts))
    }
}

/// What binding a call comes to.
pub open spec fn bind_result(a: Vm, b: Vm, func: usize, receiver: Option<Value>, args: Seq<Value>, kwargs: Seq<Keyword>, r: Result<Frame, VErr>) -> bool {
    if func >= a.heap.funcs@.len() {
        (r matches Err(e) && e@ == (Exc::RuntimeError, "internal: call of a function that was never made"@)) && b == a
    } else {
        let code = a.heap.funcs@[func as int].code;
        let all = with_receiver(receiver, args);
        match bind_error(a.heap, *code, receiver_count(receiver), all.len(), kwargs) {
            Some(t) => (r matches Err(e) && e@ == (Exc::TypeError, t)) && b == a,
            None => (r matches Ok(f) && bound_frame(a.heap, b.heap, code, a.heap.funcs@[func as int].freevars@, all, kwargs, f))
                && only_heap(a, b),
        }
    }
}

fn keyword_dict(h: &mut Heap, code: &CodeObject, kwargs: &Vec<Keyword>) -> (r: Value)
    ensures
        is_keyword_dict(*final(h), r, surplus(*code, kwargs@, 0)),
        *final(h) == (Heap { dicts: final(h).dicts, strs: final(h).strs, ..*old(h) }),
        old(h).dicts@.is_prefix_of(final(h).dicts@),
        old(h).strs@.is_prefix_of(final(h).strs@),
{
    let mut entries: Vec<(Value, Value)> = Vec::new();
    let ghost all = surplus(*code, kwargs@, 0);
    let ghost mut done: Seq<Keyword> = Seq::empty();
    assert(all =~= done + all);
    let mut j: usize = 0;
    while j < kwargs.len()
        invariant
            j <= kwargs.len(),
            all == done + surplus(*code, kwargs@, j as int),
            entries@.len() == done.len(),
            forall|k: int| 0 <= k < done.len() ==> keyword_entry(*h, #[trigger] entries@[k], done[k]),
            *h == (Heap { strs: h.strs, ..*old(h) }),
            old(h).strs@.is_prefix_of(h.strs@),
        decreases kwargs.len() - j,
    {
        let ghost before = done;
        let ghost rest = surplus(*code, kwargs@, j + 1);
        if code.param_position(kwargs[j].0.as_str()).is_none() {
            let ghost h0 = *h;
            let ghost e0 = entries@;
            let k = h.alloc_str(kwargs[j].0.clone());
            entries.push((k, kwargs[j].1));
            proof {
                done = done.push(kwargs@[j as int]);
                assert(before + (seq![kwargs@[j as int]] + rest) =~= done + rest);
                assert forall|i: int| 0 <= i < done.len() implies keyword_entry(*h, #[trigger] entries@[i], done[i]) by {
                    if i < before.len() {
                        assert(keyword_entry(h0, e0[i], before[i]));
                    }
                }
            }
        }
        j += 1;
    }
    assert(done + Seq::<Keyword>::empty() =~= done);
    let ghost h0 = *h;
    let ghost e0 = entries@;
    let r = h.alloc_dict(entries);
    proof {
        let d = h0.dicts.len();
        assert(h.dict(d) == e0);
        assert forall|k: int| 0 <= k < all.len() implies keyword_entry(*h, #[trigger] h.dict(d)[k], all[k]) by {
            assert(keyword_entry(h0, e0[k], done[k]));
        }
    }
    r
}

impl Vm {
    /// Bind arguments to a fresh frame of function `func`. `receiver`, where
    /// there is one, is bound to the first parameter.
    pub fn bind_call(&mut self, func: usize, receiver: Option<Value>, args: Vec<Value>, kwargs: Vec<Keyword>) -> (r: Result<Frame, VErr>)
        ensures bind_result(*old(self), *final(self), func, receiver, args@, kwargs@, r),
    {
        let ghost a = *self;
        if func >= self.heap.funcs.len() {
            return Err(crate::exc::fault(Exc::RuntimeError, "internal: call of a function that was never made"));
        }
        let code = self.heap.funcs[func].code.clone();
        let ghost all = with_receiver(receiver, args@);
        let skip: usize = if receiver.is_some() { 1 } else { 0 };
        let mut all_args: Vec<Value> = Vec::new();
        if let Some(v) = receiver {
            all_args.push(v);
        }
        let mut rest_args = args;
        all_args.append(&mut rest_args);
        assert(all_args@ =~= all);
        match check_call(&self.heap, &code, skip, all_args.len(), &kwargs) {
            Err(e) => {
                return Err(e);
            }
            Ok(_) => {}
        }
        let free = copy_handles(&self.heap.funcs[func].freevars);
        let mut frame = self.take_frame(code.clone(), &free);
        let ghost own = frame.cells@;
        let ghost base = self.heap.cells@;
        let ghost params = param_stores(body_of(code), all, kwargs@);
        let ghost m = *self;
        let n = code.params.len();
        let req = code.required();
        let mut i: usize = 0;
        assert(params.take(0) =~= Seq::empty());
        while i < n
            invariant
                i <= n,
                n == code.params@.len(),
                req == code.spec_required(),
                all_args@ == all,
                params == param_stores(*code, all, kwargs@),
                params.len() == n,
                frame == (Frame { locals: frame.locals, ..frame }),
                frame.code == code,
                frame.pc == 0,
                frame.cells@ == own,
                frame.free@ == free@,
                frame.stack@.len() == 0,
                frame.ret_action == ReturnAction::Normal,
                frame.super_ctx is None,
                frame.blocks@.len() == 0,
                frame.locals@ == stored_locals(unbound(code.nlocals as nat), params.take(i as int)),
                self.heap.cells@ == stored_cells(base, own, params.take(i as int)),
                self.heap == (Heap { cells: self.heap.cells, ..m.heap }),
                *self == (Vm { heap: self.heap, ..m }),
            decreases n - i,
        {
            let v = if i < all_args.len() {
                all_args[i]
            } else {
                match find_passed(&kwargs, code.params[i].name.as_str()) {
                    Some(v) => v,
                    None => if i >= req && i - req < code.defaults.len() { code.defaults[i - req] } else { Value::Unbound },
                }
            };
            let target = code.params[i].target;
            assert(params[i as int] == (target, v));
            store_param(&mut self.heap, &mut frame, target, v);
            proof {
                assert(params.take(i + 1) =~= params.take(i as int).push((target, v)));
                lemma_store_more(unbound(code.nlocals as nat), base, own, params.take(i as int), (target, v));
            }
            i += 1;
        }
        assert(params.take(n as int) =~= params);
        let ghost mut stores = params;
        let ghost mut rest = Value::Null;
        let ghost mut opts = Value::Null;
        if let Some(target) = code.varargs {
            let mut extra: Vec<Value> = Vec::new();
            if all_args.len() > n {
                extra = all_args.split_off(n);
            }
            assert(extra@ =~= extra_args(*code, all));
            let t = self.heap.alloc_tuple(extra);
            store_param(&mut self.heap, &mut frame, target, t);
            proof {
                lemma_store_more(unbound(code.nlocals as nat), base, own, stores, (target, t));
                stores = stores.push((target, t));
                rest = t;
            }
        }
        let ghost mid = self.heap;
        let ghost stores1 = stores;
        if let Some(target) = code.kwvars {
            let d = keyword_dict(&mut self.heap, &code, &kwargs);
            let ghost dh = self.heap;
            store_param(&mut self.heap, &mut frame, target, d);
            proof {
                lemma_store_more(unbound(code.nlocals as nat), base, own, stores, (target, d));
                stores = stores.push((target, d));
                opts = d;
                let kws = surplus(body_of(code), kwargs@, 0);
                assert(is_keyword_dict(dh, d, kws));
                let id = d->Dict_0;
                assert forall|k: int| 0 <= k < kws.len() implies keyword_entry(self.heap, #[trigger] self.heap.dict(id)[k], kws[k]) by {
                    assert(keyword_entry(dh, dh.dict(id)[k], kws[k]));
                }
                assert(is_keyword_dict(self.heap, d, kws));
            }
        }
        proof {
            assert(stores =~= params + extra_stores(*code, rest, opts));
            assert(bound_frame(a.heap, self.heap, code, free@, all, kwargs@, frame));
        }
        Ok(frame)
    }
}

/// A copy of some handles.
pub fn copy_handles(v: &Vec<usize>) -> (r: Vec<usize>)
    ensures r@ == v@,
{
    let mut out: Vec<usize> = Vec::new();
    let mut i: usize = 0;
    while i < v.len()
        invariant i <= v.len(), out@ == v@.take(i as int),
        decreases v.len() - i,
    {
        out.push(v[i]);
        i += 1;
        assert(out@ =~= v@.take(i as int));
    }
    assert(v@.take(i as int) =~= v@);
    out
}

} // verus!
