//! Where the arguments of a call arrive.
use vstd::prelude::*;
use std::rc::Rc;
use crate::bind::{bind_result, cells_from, extra_args, extra_stores, first_keyword_error, first_missing, keyword_entry, keyword_error, param_stores, passed, stored_cells, stored_locals, surplus, unbound, with_receiver, Store};
use crate::call::{enter_result, user_result};
use crate::code::{first_param, CodeObject, Param, VarTarget};
use crate::exc::{Exc, VErr};
use crate::frame::{Frame, ReturnAction};
use crate::machine::{Keyword, Step, Vm, MAX_FRAMES};
use crate::value::{Heap, Value};

verus! {

/// The variable `t` of the frame holds `v`.
pub open spec fn holds(h: Heap, f: Frame, t: VarTarget, v: Value) -> bool {
    match t {
        VarTarget::Local(s) => s < f.locals@.len() && f.locals@[s as int] == v,
        VarTarget::Cell(s) => s < f.cells@.len() && f.cells@[s as int] < h.cells@.len() && h.cells@[f.cells@[s as int] as int] == v,
    }
}

/// The frame has room for the variable.
pub open spec fn has_room(code: CodeObject, t: VarTarget) -> bool {
    match t {
        VarTarget::Local(s) => s < code.nlocals,
        VarTarget::Cell(s) => s < code.ncells,
    }
}

/// Every parameter has a variable of its own, and so have the surplus
/// positional and keyword arguments where they are taken.
pub open spec fn tidy(code: CodeObject) -> bool {
    &&& forall|i: int| 0 <= i < code.params@.len() ==> has_room(code, (#[trigger] code.params@[i]).target)
    &&& forall|i: int, j: int| 0 <= i < j < code.params@.len() ==> (#[trigger] code.params@[i]).target != (#[trigger] code.params@[j]).target
    &&& code.varargs matches Some(t) ==> has_room(code, t) && forall|i: int| 0 <= i < code.params@.len() ==> (#[trigger] code.params@[i]).target != t
    &&& code.kwvars matches Some(t) ==> has_room(code, t) && forall|i: int| 0 <= i < code.params@.len() ==> (#[trigger] code.params@[i]).target != t
    &&& code.varargs is Some ==> code.varargs != code.kwvars
    &&& code.defaults@.len() <= code.params@.len()
}

/// No keyword of the call is called `name`.
pub open spec fn not_passed(kwargs: Seq<Keyword>, name: Seq<char>) -> bool {
    forall|j: int| 0 <= j < kwargs.len() ==> (#[trigger] kwargs[j]).0@ != name
}

/// Keyword `j` is the one called `name`.
pub open spec fn is_passed(kwargs: Seq<Keyword>, name: Seq<char>, j: int) -> bool {
    0 <= j < kwargs.len() && kwargs[j].0@ == name && forall|k: int| 0 <= k < j ==> (#[trigger] kwargs[k]).0@ != name
}

/// No parameter is called `name`.
pub open spec fn no_param(code: CodeObject, name: Seq<char>) -> bool {
    forall|i: int| 0 <= i < code.params@.len() ==> (#[trigger] code.params@[i]).name@ != name
}

/// The receiver is in the first parameter, the arguments in those after it in
/// order, a keyword in the parameter of its name, and a default in each
/// parameter that is left.
pub open spec fn arrived(h: Heap, f: Frame, code: CodeObject, receiver: Option<Value>, args: Seq<Value>, kwargs: Seq<Keyword>) -> bool {
    let skip = if receiver is Some { 1int } else { 0 };
    let ps = code.params@;
    &&& receiver is Some && ps.len() > 0 ==> holds(h, f, ps[0].target, receiver->0)
    &&& forall|i: int| 0 <= i < args.len() && i + skip < ps.len() ==> holds(h, f, ps[i + skip].target, #[trigger] args[i])
    &&& forall|i: int, j: int| args.len() + skip <= i < ps.len() && #[trigger] is_passed(kwargs, ps[i].name@, j)
        ==> holds(h, f, ps[i].target, kwargs[j].1)
    &&& forall|i: int| args.len() + skip <= i < ps.len() && i >= ps.len() - code.defaults@.len() && not_passed(kwargs, (#[trigger] ps[i]).name@)
        ==> holds(h, f, ps[i].target, code.defaults@[i - (ps.len() - code.defaults@.len())])
}

/// The arguments that no parameter takes are in a tuple, in order.
pub open spec fn rest_arrived(h: Heap, f: Frame, code: CodeObject, t: VarTarget, receiver: Option<Value>, args: Seq<Value>) -> bool {
    let skip = if receiver is Some { 1int } else { 0 };
    exists|id: usize| {
        &&& #[trigger] holds(h, f, t, Value::Tuple(id))
        &&& args.len() + skip <= code.params@.len() ==> h.tuple(id).len() == 0
        &&& args.len() + skip > code.params@.len() && code.params@.len() >= skip ==> h.tuple(id) == args.skip(code.params@.len() - skip)
    }
}

/// The keywords that name no parameter are in a dict under their names, and
/// nothing else is.
pub open spec fn options_arrived(h: Heap, f: Frame, code: CodeObject, t: VarTarget, kwargs: Seq<Keyword>) -> bool {
    exists|d: usize| {
        &&& #[trigger] holds(h, f, t, Value::Dict(d))
        &&& forall|j: int| 0 <= j < kwargs.len() && no_param(code, (#[trigger] kwargs[j]).0@)
            ==> exists|k: int| 0 <= k < h.dict(d).len() && keyword_entry(h, #[trigger] h.dict(d)[k], kwargs[j])
        &&& forall|k: int| 0 <= k < h.dict(d).len() ==> spare_entry(h, code, kwargs, #[trigger] h.dict(d)[k])
    }
}

/// The dict entry is for one of the keywords that name no parameter.
pub open spec fn spare_entry(h: Heap, code: CodeObject, kwargs: Seq<Keyword>, e: (Value, Value)) -> bool {
    exists|j: int| 0 <= j < kwargs.len() && no_param(code, (#[trigger] kwargs[j]).0@) && keyword_entry(h, e, kwargs[j])
}

proof fn lemma_local(locals: Seq<Value>, stores: Seq<Store>, k: int, s: u32)
    requires
        0 <= k < stores.len(),
        stores[k].0 == VarTarget::Local(s),
        s < locals.len(),
        forall|l: int| k < l < stores.len() ==> (#[trigger] stores[l]).0 != stores[k].0,
    ensures
        stored_locals(locals, stores).len() == locals.len(),
        stored_locals(locals, stores)[s as int] == stores[k].1,
    decreases stores.len(),
{
    lemma_locals_len(locals, stores.drop_last());
    if k < stores.len() - 1 {
        let d = stores.drop_last();
        assert(d[k] == stores[k]);
        assert forall|l: int| k < l < d.len() implies (#[trigger] d[l]).0 != d[k].0 by {
            assert(stores[l].0 != stores[k].0);
        }
        lemma_local(locals, d, k, s);
        assert(stores[stores.len() - 1].0 != stores[k].0);
    }
}

proof fn lemma_locals_len(locals: Seq<Value>, stores: Seq<Store>)
    ensures stored_locals(locals, stores).len() == locals.len(),
    decreases stores.len(),
{
    if stores.len() > 0 {
        lemma_locals_len(locals, stores.drop_last());
    }
}

proof fn lemma_cell(cells: Seq<Value>, own: Seq<usize>, stores: Seq<Store>, k: int, s: u32)
    requires
        0 <= k < stores.len(),
        stores[k].0 == VarTarget::Cell(s),
        s < own.len(),
        forall|i: int| 0 <= i < own.len() ==> #[trigger] own[i] < cells.len(),
        forall|i: int, j: int| 0 <= i < j < own.len() ==> #[trigger] own[i] != #[trigger] own[j],
        forall|l: int| k < l < stores.len() ==> (#[trigger] stores[l]).0 != stores[k].0,
    ensures
        stored_cells(cells, own, stores).len() == cells.len(),
        stored_cells(cells, own, stores)[own[s as int] as int] == stores[k].1,
    decreases stores.len(),
{
    lemma_cells_len(cells, own, stores.drop_last());
    if k < stores.len() - 1 {
        let d = stores.drop_last();
        assert(d[k] == stores[k]);
        assert forall|l: int| k < l < d.len() implies (#[trigger] d[l]).0 != d[k].0 by {
            assert(stores[l].0 != stores[k].0);
        }
        lemma_cell(cells, own, d, k, s);
        assert(stores[stores.len() - 1].0 != stores[k].0);
        if let VarTarget::Cell(t) = stores.last().0 {
            if t < own.len() {
                assert(t != s);
                assert(own[t as int] != own[s as int]);
            }
        }
    }
}

proof fn lemma_cells_len(cells: Seq<Value>, own: Seq<usize>, stores: Seq<Store>)
    ensures stored_cells(cells, own, stores).len() == cells.len(),
    decreases stores.len(),
{
    if stores.len() > 0 {
        lemma_cells_len(cells, own, stores.drop_last());
    }
}

proof fn lemma_passed(kwargs: Seq<Keyword>, name: Seq<char>, i: int)
    requires 0 <= i <= kwargs.len(),
    ensures
        match passed(kwargs, name, i) {
            Some(v) => exists|j: int| i <= j < kwargs.len() && (#[trigger] kwargs[j]).0@ == name && kwargs[j].1 == v
                && forall|k: int| i <= k < j ==> (#[trigger] kwargs[k]).0@ != name,
            None => forall|j: int| i <= j < kwargs.len() ==> (#[trigger] kwargs[j]).0@ != name,
        },
    decreases kwargs.len() - i,
{
    if i < kwargs.len() && kwargs[i].0@ != name {
        lemma_passed(kwargs, name, i + 1);
        match passed(kwargs, name, i) {
            Some(v) => {
                let j = choose|j: int| i + 1 <= j < kwargs.len() && (#[trigger] kwargs[j]).0@ == name && kwargs[j].1 == v
                    && forall|k: int| i + 1 <= k < j ==> (#[trigger] kwargs[k]).0@ != name;
                assert forall|k: int| i <= k < j implies (#[trigger] kwargs[k]).0@ != name by {
                    if k > i {
                    }
                }
                assert(kwargs[j].0@ == name);
            }
            None => {
                assert forall|j: int| i <= j < kwargs.len() implies (#[trigger] kwargs[j]).0@ != name by {
                    if j > i {
                    }
                }
            }
        }
    }
}

proof fn lemma_param(params: Seq<Param>, name: Seq<char>, i: int)
    requires 0 <= i <= params.len(),
    ensures
        match first_param(params, name, i) {
            Some(k) => i <= k < params.len() && params[k].name@ == name && forall|j: int| i <= j < k ==> (#[trigger] params[j]).name@ != name,
            None => forall|j: int| i <= j < params.len() ==> (#[trigger] params[j]).name@ != name,
        },
    decreases params.len() - i,
{
    if i < params.len() && params[i].name@ != name {
        lemma_param(params, name, i + 1);
        match first_param(params, name, i) {
            Some(k) => {
                assert forall|j: int| i <= j < k implies (#[trigger] params[j]).name@ != name by {
                    if j > i {
                    }
                }
            }
            None => {
                assert forall|j: int| i <= j < params.len() implies (#[trigger] params[j]).name@ != name by {
                    if j > i {
                    }
                }
            }
        }
    }
}

/// Keyword `j` names no parameter.
spec fn spare(code: CodeObject, kwargs: Seq<Keyword>, j: int) -> bool {
    first_param(code.params@, kwargs[j].0@, 0) is None
}

proof fn lemma_surplus(code: CodeObject, kwargs: Seq<Keyword>, i: int)
    requires 0 <= i <= kwargs.len(),
    ensures
        forall|j: int| i <= j < kwargs.len() && spare(code, kwargs, j) ==> surplus(code, kwargs, i).contains(#[trigger] kwargs[j]),
        forall|k: int| 0 <= k < surplus(code, kwargs, i).len()
            ==> #[trigger] from_keyword(code, kwargs, i, surplus(code, kwargs, i)[k]),
    decreases kwargs.len() - i,
{
    if i < kwargs.len() {
        lemma_surplus(code, kwargs, i + 1);
        let s = surplus(code, kwargs, i);
        let t = surplus(code, kwargs, i + 1);
        let shift = if spare(code, kwargs, i) { 1int } else { 0 };
        assert(s == if spare(code, kwargs, i) { seq![kwargs[i]] + t } else { t });
        assert forall|j: int| i <= j < kwargs.len() && spare(code, kwargs, j) implies s.contains(#[trigger] kwargs[j]) by {
            if j == i {
                assert(s[0] == kwargs[i]);
            } else {
                assert(t.contains(kwargs[j]));
                let k = choose|k: int| 0 <= k < t.len() && t[k] == kwargs[j];
                assert(s[k + shift] == kwargs[j]);
            }
        }
        assert forall|k: int| 0 <= k < s.len() implies #[trigger] from_keyword(code, kwargs, i, s[k]) by {
            if k < shift {
                assert(s[k] == kwargs[i]);
            } else {
                assert(s[k] == t[k - shift]);
                assert(from_keyword(code, kwargs, i + 1, t[k - shift]));
            }
        }
    }
}

/// The keyword is one from place `i` on that names no parameter.
spec fn from_keyword(code: CodeObject, kwargs: Seq<Keyword>, i: int, kw: Keyword) -> bool {
    exists|j: int| i <= j < kwargs.len() && #[trigger] spare(code, kwargs, j) && kwargs[j] == kw
}

/// What was stored last where variable `t` lives is what it holds.
proof fn lemma_holds(a: Heap, b: Heap, code: Rc<CodeObject>, f: Frame, stores: Seq<Store>, k: int)
    requires
        f.cells@ == cells_from(a.cells@.len() as int, code.ncells as nat),
        f.locals@ == stored_locals(unbound(code.nlocals as nat), stores),
        b.cells@ == stored_cells(a.cells@ + unbound(code.ncells as nat), f.cells@, stores),
        0 <= k < stores.len(),
        has_room(*code, stores[k].0),
        forall|l: int| k < l < stores.len() ==> (#[trigger] stores[l]).0 != stores[k].0,
    ensures holds(b, f, stores[k].0, stores[k].1),
{
    match stores[k].0 {
        VarTarget::Local(s) => lemma_local(unbound(code.nlocals as nat), stores, k, s),
        VarTarget::Cell(s) => {
            let cells = a.cells@ + unbound(code.ncells as nat);
            lemma_cells_len(cells, f.cells@, stores);
            assert(b.cells.len() <= usize::MAX);
            assert forall|i: int| 0 <= i < f.cells@.len() implies #[trigger] f.cells@[i] < cells.len() by {
            }
            lemma_cell(cells, f.cells@, stores, k, s);
        }
    }
}

/// A call that is bound has its arguments where they belong.
pub proof fn arguments_arrive(a: Vm, b: Vm, func: usize, receiver: Option<Value>, args: Seq<Value>, kwargs: Seq<Keyword>, f: Frame)
    requires
        bind_result(a, b, func, receiver, args, kwargs, Ok(f)),
        tidy(*a.heap.funcs@[func as int].code),
    ensures
        func < a.heap.funcs@.len(),
        f.code == a.heap.funcs@[func as int].code,
        f.pc == 0,
        f.stack@.len() == 0,
        f.free@ == a.heap.funcs@[func as int].freevars@,
        arrived(b.heap, f, *f.code, receiver, args, kwargs),
        f.code.varargs matches Some(t) ==> rest_arrived(b.heap, f, *f.code, t, receiver, args),
        f.code.kwvars matches Some(t) ==> options_arrived(b.heap, f, *f.code, t, kwargs),
{
    let rc = a.heap.funcs@[func as int].code;
    let code = *rc;
    let all = with_receiver(receiver, args);
    let (rest, opts) = choose|rest: Value, opts: Value| {
        &&& code.varargs is Some ==> (rest matches Value::Tuple(t) && t < b.heap.tuples@.len() && b.heap.tuple(t) == extra_args(code, all))
        &&& code.kwvars is Some ==> crate::bind::is_keyword_dict(b.heap, opts, surplus(code, kwargs, 0))
        &&& f.locals@ == stored_locals(unbound(code.nlocals as nat), param_stores(code, all, kwargs) + #[trigger] extra_stores(code, rest, opts))
        &&& b.heap.cells@ == stored_cells(a.heap.cells@ + unbound(code.ncells as nat), f.cells@, param_stores(code, all, kwargs) + extra_stores(code, rest, opts))
    };
    let stores = param_stores(code, all, kwargs) + extra_stores(code, rest, opts);
    let ps = code.params@;
    let n = ps.len() as int;
    let skip = if receiver is Some { 1int } else { 0 };
    assert forall|i: int| 0 <= i < n implies holds(b.heap, f, (#[trigger] ps[i]).target, crate::bind::bound_value(code, all, kwargs, i)) by {
        assert(stores[i] == (ps[i].target, crate::bind::bound_value(code, all, kwargs, i)));
        assert forall|l: int| i < l < stores.len() implies (#[trigger] stores[l]).0 != stores[i].0 by {
            if l < n {
                assert(stores[l].0 == ps[l].target);
                assert(ps[i].target != ps[l].target);
            } else {
                assert(stores[l] == extra_stores(code, rest, opts)[l - n]);
            }
        }
        lemma_holds(a.heap, b.heap, rc, f, stores, i);
    }
    assert(receiver is Some ==> all[0] == receiver->0);
    assert forall|i: int| 0 <= i < args.len() && i + skip < n implies holds(b.heap, f, ps[i + skip].target, #[trigger] args[i]) by {
        assert(all[i + skip] == args[i]);
        let t = ps[i + skip];
    }
    assert(receiver is Some && n > 0 ==> holds(b.heap, f, ps[0].target, receiver->0)) by {
        if receiver is Some && n > 0 {
            let t = ps[0];
        }
    }
    assert forall|i: int, j: int| args.len() + skip <= i < n && #[trigger] is_passed(kwargs, ps[i].name@, j)
        implies holds(b.heap, f, ps[i].target, kwargs[j].1) by {
        lemma_passed(kwargs, ps[i].name@, 0);
        let t = ps[i];
    }
    assert forall|i: int| args.len() + skip <= i < n && i >= n - code.defaults@.len() && not_passed(kwargs, (#[trigger] ps[i]).name@)
        implies holds(b.heap, f, ps[i].target, code.defaults@[i - (n - code.defaults@.len())]) by {
        lemma_passed(kwargs, ps[i].name@, 0);
    }
    if let Some(t) = code.varargs {
        assert(extra_stores(code, rest, opts)[0] == (t, rest));
        assert(stores[n] == (t, rest));
        assert forall|l: int| n < l < stores.len() implies (#[trigger] stores[l]).0 != stores[n].0 by {
            assert(stores[l] == extra_stores(code, rest, opts)[l - n]);
        }
        lemma_holds(a.heap, b.heap, rc, f, stores, n);
        let id = rest->Tuple_0;
        assert(holds(b.heap, f, t, Value::Tuple(id)));
        if all.len() > n && n >= skip {
            assert(all.skip(n) =~= args.skip(n - skip));
        }
    }
    if let Some(t) = code.kwvars {
        let last = stores.len() - 1;
        assert(stores[last] == (t, opts)) by {
            let e = extra_stores(code, rest, opts);
            assert(e[e.len() - 1] == (t, opts));
            assert(stores[last] == e[e.len() - 1]);
        }
        lemma_holds(a.heap, b.heap, rc, f, stores, last);
        let d = opts->Dict_0;
        assert(holds(b.heap, f, t, Value::Dict(d)));
        lemma_options(b.heap, code, kwargs, d);
    }
}

proof fn lemma_options(h: Heap, code: CodeObject, kwargs: Seq<Keyword>, d: usize)
    requires crate::bind::is_keyword_dict(h, Value::Dict(d), surplus(code, kwargs, 0)),
    ensures
        forall|j: int| 0 <= j < kwargs.len() && no_param(code, (#[trigger] kwargs[j]).0@)
            ==> exists|k: int| 0 <= k < h.dict(d).len() && keyword_entry(h, #[trigger] h.dict(d)[k], kwargs[j]),
        forall|k: int| 0 <= k < h.dict(d).len() ==> spare_entry(h, code, kwargs, #[trigger] h.dict(d)[k]),
{
    let s = surplus(code, kwargs, 0);
    lemma_surplus(code, kwargs, 0);
    assert forall|j: int| 0 <= j < kwargs.len() && no_param(code, (#[trigger] kwargs[j]).0@)
        implies exists|k: int| 0 <= k < h.dict(d).len() && keyword_entry(h, #[trigger] h.dict(d)[k], kwargs[j]) by {
        lemma_param(code.params@, kwargs[j].0@, 0);
        assert(spare(code, kwargs, j));
        assert(s.contains(kwargs[j]));
        let k = choose|k: int| 0 <= k < s.len() && s[k] == kwargs[j];
        assert(keyword_entry(h, h.dict(d)[k], s[k]));
    }
    assert forall|k: int| 0 <= k < h.dict(d).len() implies spare_entry(h, code, kwargs, #[trigger] h.dict(d)[k]) by {
        assert(from_keyword(code, kwargs, 0, s[k]));
        let j = choose|j: int| 0 <= j < kwargs.len() && #[trigger] spare(code, kwargs, j) && kwargs[j] == s[k];
        lemma_param(code.params@, kwargs[j].0@, 0);
        assert(no_param(code, kwargs[j].0@));
        assert(keyword_entry(h, h.dict(d)[k], s[k]));
    }
}

/// Keyword `j` fits: it names a parameter that no positional argument took, or
/// there is a place for surplus keywords, and none before it has its name; and
/// it does not give null to a parameter whose default is something.
pub open spec fn keyword_fits(code: CodeObject, taken: int, kwargs: Seq<Keyword>, j: int) -> bool {
    let name = kwargs[j].0@;
    let ps = code.params@;
    &&& forall|k: int| 0 <= k < j ==> (#[trigger] kwargs[k]).0@ != name
    &&& no_param(code, name) ==> code.kwvars is Some
    &&& forall|i: int| 0 <= i < ps.len() && (#[trigger] ps[i]).name@ == name && (forall|l: int| 0 <= l < i ==> (#[trigger] ps[l]).name@ != name) ==> {
        &&& i >= taken
        &&& i >= ps.len() - code.defaults@.len() && kwargs[j].1 is Null ==> code.defaults@[i - (ps.len() - code.defaults@.len())] is Null
    }
}

proof fn lemma_fits(h: Heap, code: CodeObject, nargs: nat, kwargs: Seq<Keyword>, j: int)
    requires
        0 <= j < kwargs.len(),
        code.defaults@.len() <= code.params@.len(),
    ensures keyword_error(h, code, nargs, kwargs, j) is None <==> keyword_fits(code, nargs as int, kwargs, j),
{
    let name = kwargs[j].0@;
    let ps = code.params@;
    lemma_param(ps, name, 0);
    lemma_passed(kwargs.take(j), name, 0);
    assert(passed(kwargs.take(j), name, 0) is None <==> forall|k: int| 0 <= k < j ==> (#[trigger] kwargs[k]).0@ != name) by {
        assert forall|k: int| 0 <= k < j implies kwargs.take(j)[k] == #[trigger] kwargs[k] by {
        }
        if passed(kwargs.take(j), name, 0) is Some {
            let v = passed(kwargs.take(j), name, 0)->0;
            let k = choose|k: int| 0 <= k < kwargs.take(j).len() && (#[trigger] kwargs.take(j)[k]).0@ == name && kwargs.take(j)[k].1 == v
                && forall|l: int| 0 <= l < k ==> (#[trigger] kwargs.take(j)[l]).0@ != name;
            assert(kwargs[k].0@ == name);
        } else {
            assert forall|k: int| 0 <= k < j implies (#[trigger] kwargs[k]).0@ != name by {
                assert(kwargs.take(j)[k].0@ != name);
            }
        }
    }
    if let Some(pos) = first_param(ps, name, 0) {
        assert(ps[pos].name@ == name);
        assert(!no_param(code, name));
    }
}

proof fn lemma_all_fit(h: Heap, code: CodeObject, nargs: nat, kwargs: Seq<Keyword>, i: int)
    requires
        0 <= i <= kwargs.len(),
        code.defaults@.len() <= code.params@.len(),
    ensures
        first_keyword_error(h, code, nargs, kwargs, i) is None
            <==> forall|j: int| i <= j < kwargs.len() ==> #[trigger] keyword_fits(code, nargs as int, kwargs, j),
    decreases kwargs.len() - i,
{
    if i < kwargs.len() {
        lemma_fits(h, code, nargs, kwargs, i);
        lemma_all_fit(h, code, nargs, kwargs, i + 1);
        if first_keyword_error(h, code, nargs, kwargs, i) is None {
            assert(keyword_fits(code, nargs as int, kwargs, i));
        }
    }
}

proof fn lemma_missing(code: CodeObject, kwargs: Seq<Keyword>, i: int)
    requires 0 <= i,
    ensures
        first_missing(code, kwargs, i) is None
            <==> forall|k: int| i <= k < code.params@.len() && k < code.spec_required() ==> !not_passed(kwargs, (#[trigger] code.params@[k]).name@),
    decreases code.params@.len() - i,
{
    if i < code.params@.len() && i < code.spec_required() {
        lemma_missing(code, kwargs, i + 1);
        lemma_passed(kwargs, code.params@[i].name@, 0);
        if first_missing(code, kwargs, i) is None {
            assert forall|k: int| i <= k < code.params@.len() && k < code.spec_required()
                implies !not_passed(kwargs, (#[trigger] code.params@[k]).name@) by {
                if k > i {
                }
            }
        }
        if passed(kwargs, code.params@[i].name@, 0) is None {
            assert(not_passed(kwargs, code.params@[i].name@));
        }
    }
}

/// `n` positional arguments and these keywords fit the function.
pub open spec fn call_fits(code: CodeObject, n: int, kwargs: Seq<Keyword>) -> bool {
    &&& n <= code.params@.len() || code.varargs is Some
    &&& forall|j: int| 0 <= j < kwargs.len() ==> #[trigger] keyword_fits(code, n, kwargs, j)
    &&& forall|k: int| n <= k < code.params@.len() - code.defaults@.len() ==> !not_passed(kwargs, (#[trigger] code.params@[k]).name@)
}

/// A call is bound exactly when the positional arguments find room, every
/// keyword fits, and every parameter without a default is given; otherwise it
/// is a TypeError and nothing has changed.
pub proof fn what_calls_are_bound(a: Vm, b: Vm, func: usize, receiver: Option<Value>, args: Seq<Value>, kwargs: Seq<Keyword>, r: Result<Frame, VErr>)
    requires
        bind_result(a, b, func, receiver, args, kwargs, r),
        func < a.heap.funcs@.len(),
        a.heap.funcs@[func as int].code.defaults@.len() <= a.heap.funcs@[func as int].code.params@.len(),
    ensures
        r is Ok <==> call_fits(*a.heap.funcs@[func as int].code, args.len() + (if receiver is Some { 1int } else { 0 }), kwargs),
        r matches Err(e) ==> e@.0 == Exc::TypeError && b == a,
{
    let code = *a.heap.funcs@[func as int].code;
    let all = with_receiver(receiver, args);
    lemma_all_fit(a.heap, code, all.len(), kwargs, 0);
    lemma_missing(code, kwargs, all.len() as int);
    let n = args.len() + (if receiver is Some { 1int } else { 0 });
    assert(all.len() == n);
    assert(code.spec_required() == code.params@.len() - code.defaults@.len());
    assert(first_missing(code, kwargs, n) is None
        <==> forall|k: int| n <= k < code.params@.len() - code.defaults@.len() ==> !not_passed(kwargs, (#[trigger] code.params@[k]).name@));
}

/// A function that can be called like this has been entered: its frame is on
/// top, with the arguments where they belong, over the frames that were there.
pub open spec fn runs(a: Vm, b: Vm, func: usize, receiver: Option<Value>, args: Seq<Value>, kwargs: Seq<Keyword>, action: ReturnAction, r: Step) -> bool {
    &&& r is Next
    &&& b.task.frames@.len() == a.task.frames@.len() + 1
    &&& b.task.frames@.drop_last() == a.task.frames@
    &&& b.task.frames@.last().code == a.heap.funcs@[func as int].code
    &&& b.task.frames@.last().pc == 0
    &&& b.task.frames@.last().ret_action == action
    &&& arrived(b.heap, b.task.frames@.last(), *b.task.frames@.last().code, receiver, args, kwargs)
}

/// Entering a function runs it with its arguments where they belong, or is
/// refused.
pub proof fn entering_runs_the_function(a: Vm, b: Vm, func: usize, receiver: Option<Value>, ctx: Option<(usize, Value)>,
    args: Seq<Value>, kwargs: Seq<Keyword>, action: ReturnAction, r: Step)
    requires
        enter_result(a, b, func, receiver, ctx, args, kwargs, action, r),
        tidy(*a.heap.funcs@[func as int].code),
    ensures
        r is Next ==> runs(a, b, func, receiver, args, kwargs, action, r) && b.task.frames@.last().super_ctx == ctx,
        !(r is Next) ==> b == a && (r matches Step::Fault(e) && (e@.0 == Exc::TypeError || e@.0 == Exc::RuntimeError)),
{
    let (m, bound) = choose|m: Vm, bound: Result<Frame, VErr>| {
        &&& #[trigger] bind_result(a, m, func, receiver, args, kwargs, bound)
        &&& match bound {
            Err(e) => crate::wake::faults(r, e@.0, e@.1) && b == a,
            Ok(f) => r is Next && crate::call::entered(m, b, f, action, ctx),
        }
    };
    if let Ok(f) = bound {
        arguments_arrive(a, m, func, receiver, args, kwargs, f);
        assert(b.task.frames@.drop_last() =~= a.task.frames@);
        let g = b.task.frames@.last();
        assert(arrived(b.heap, g, *g.code, receiver, args, kwargs)) by {
            lemma_same_variables(m.heap, b.heap, f, g, receiver, args, kwargs);
        }
    }
}

proof fn lemma_same_variables(h: Heap, k: Heap, f: Frame, g: Frame, receiver: Option<Value>, args: Seq<Value>, kwargs: Seq<Keyword>)
    requires
        arrived(h, f, *f.code, receiver, args, kwargs),
        k == h,
        g.code == f.code,
        g.locals == f.locals,
        g.cells == f.cells,
    ensures arrived(k, g, *g.code, receiver, args, kwargs),
{
    assert forall|t: VarTarget, v: Value| holds(h, f, t, v) implies #[trigger] holds(k, g, t, v) by {
    }
}

/// A call of two positional arguments that fits: the function exists, makes no
/// generator, takes two parameters, and there is room for one frame more.
pub open spec fn can_take_two(a: Vm, func: usize) -> bool {
    &&& func < a.heap.funcs@.len()
    &&& tidy(*a.heap.funcs@[func as int].code)
    &&& !a.heap.funcs@[func as int].code.is_generator
    &&& a.heap.funcs@[func as int].code.params@.len() == 2
    &&& a.task.frames@.len() < MAX_FRAMES
}

/// The method runs with `recv` in its first parameter and `arg` in its second.
pub open spec fn method_runs(a: Vm, b: Vm, func: usize, recv: Value, arg: Value, action: ReturnAction, r: Step) -> bool {
    &&& r is Next
    &&& b.task.frames@.len() == a.task.frames@.len() + 1
    &&& b.task.frames@.last().code == a.heap.funcs@[func as int].code
    &&& b.task.frames@.last().pc == 0
    &&& b.task.frames@.last().ret_action == action
    &&& holds(b.heap, b.task.frames@.last(), b.task.frames@.last().code.params@[0].target, recv)
    &&& holds(b.heap, b.task.frames@.last(), b.task.frames@.last().code.params@[1].target, arg)
}

/// Calling a method with one argument runs it on the receiver.
pub proof fn a_method_gets_receiver_and_argument(a: Vm, b: Vm, func: usize, recv: Value, defclass: usize, arg: Value, action: ReturnAction, r: Step)
    requires
        user_result(a, b, func, recv, defclass, seq![arg], Seq::empty(), action, r),
        can_take_two(a, func),
    ensures
        method_runs(a, b, func, recv, arg, action, r),
        b.task.frames@.drop_last() == a.task.frames@,
        b.task.frames@.last().super_ctx == Some((defclass, recv)),
{
    let code = *a.heap.funcs@[func as int].code;
    let none: Seq<Keyword> = Seq::empty();
    let args = seq![arg];
    let (m, bound) = choose|m: Vm, bound: Result<Frame, VErr>| {
        &&& #[trigger] bind_result(a, m, func, Some(recv), args, none, bound)
        &&& match bound {
            Err(e) => crate::wake::faults(r, e@.0, e@.1) && b == a,
            Ok(f) => r is Next && crate::call::entered(m, b, f, action, Some((defclass, recv))),
        }
    };
    assert(with_receiver(Some(recv), args).len() == 2);
    assert(first_keyword_error(a.heap, code, 2, none, 0) is None);
    assert(first_missing(code, none, 2) is None);
    entering_runs_the_function(a, b, func, Some(recv), Some((defclass, recv)), args, none, action, r);
    assert(args[0] == arg);
    let f = b.task.frames@.last();
    assert(holds(b.heap, f, code.params@[1].target, args[0]));
}

} // verus!
