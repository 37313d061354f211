//! What an `except` clause takes, by the names of the exceptions.
use vstd::prelude::*;
use crate::exc::{exc_count, exc_derives, exc_places, Exc, VErr};
use crate::exceptions::{class_at, exc_class, exc_named, is_fault_exception, lemma_names, match_result, registered, registered_as, registry_inherits};
use crate::value::{Heap, Value};

verus! {

/// Among the built-in exceptions, `class` is called `name`.
pub open spec fn built_in(h: Heap, reg: Seq<usize>, class: usize, name: Seq<char>) -> bool {
    reg.contains(class) && h.class_name(class) == name
}

/// There is a built-in exception `name`, and `base` is what it derives from.
pub open spec fn stands_under(h: Heap, reg: Seq<usize>, name: Seq<char>, base: Seq<char>) -> bool {
    exists|c: usize, d: usize| {
        &&& #[trigger] built_in(h, reg, c, name)
        &&& #[trigger] built_in(h, reg, d, base)
        &&& h.class_base(c) == Some(d)
    }
}

/// An `except` clause for the built-in exception `m` takes the one called `n`.
pub open spec fn handled_by(n: Seq<char>, m: Seq<char>) -> bool {
    ||| n == m
    ||| m == "BaseException"@
    ||| m == "Exception"@ && n != "BaseException"@ && n != "SystemExit"@
    ||| m == "LookupError"@ && (n == "KeyError"@ || n == "IndexError"@)
    ||| m == "ArithmeticError"@ && n == "ZeroDivisionError"@
    ||| m == "RuntimeError"@ && (n == "NotImplementedError"@ || n == "RecursionError"@)
    ||| m == "ImportError"@ && n == "ModuleNotFoundError"@
    ||| m == "OSError"@ && (n == "FileNotFoundError"@ || n == "PermissionError"@ || n == "TimeoutError"@)
}

/// The exceptions are called what a program calls them.
pub proof fn exceptions_have_their_names(e: Exc)
    ensures
        e.spec_name() == (match e {
            Exc::BaseException => "BaseException"@,
            Exc::SystemExit => "SystemExit"@,
            Exc::Exception => "Exception"@,
            Exc::ImportError => "ImportError"@,
            Exc::ValueError => "ValueError"@,
            Exc::TypeError => "TypeError"@,
            Exc::LookupError => "LookupError"@,
            Exc::AttributeError => "AttributeError"@,
            Exc::NameError => "NameError"@,
            Exc::ArithmeticError => "ArithmeticError"@,
            Exc::RuntimeError => "RuntimeError"@,
            Exc::StopIteration => "StopIteration"@,
            Exc::ChannelClosed => "ChannelClosed"@,
            Exc::CommandError => "CommandError"@,
            Exc::OSError => "OSError"@,
            Exc::EOFError => "EOFError"@,
            Exc::ModuleNotFoundError => "ModuleNotFoundError"@,
            Exc::KeyError => "KeyError"@,
            Exc::IndexError => "IndexError"@,
            Exc::ZeroDivisionError => "ZeroDivisionError"@,
            Exc::NotImplementedError => "NotImplementedError"@,
            Exc::RecursionError => "RecursionError"@,
            Exc::FileNotFoundError => "FileNotFoundError"@,
            Exc::PermissionError => "PermissionError"@,
            Exc::TimeoutError => "TimeoutError"@,
        }),
{
}

proof fn lemma_called(e: Exc)
    ensures
        e.spec_name() == "BaseException"@ <==> e == Exc::BaseException,
        e.spec_name() == "SystemExit"@ <==> e == Exc::SystemExit,
        e.spec_name() == "Exception"@ <==> e == Exc::Exception,
        e.spec_name() == "ImportError"@ <==> e == Exc::ImportError,
        e.spec_name() == "ValueError"@ <==> e == Exc::ValueError,
        e.spec_name() == "TypeError"@ <==> e == Exc::TypeError,
        e.spec_name() == "LookupError"@ <==> e == Exc::LookupError,
        e.spec_name() == "AttributeError"@ <==> e == Exc::AttributeError,
        e.spec_name() == "NameError"@ <==> e == Exc::NameError,
        e.spec_name() == "ArithmeticError"@ <==> e == Exc::ArithmeticError,
        e.spec_name() == "RuntimeError"@ <==> e == Exc::RuntimeError,
        e.spec_name() == "StopIteration"@ <==> e == Exc::StopIteration,
        e.spec_name() == "ChannelClosed"@ <==> e == Exc::ChannelClosed,
        e.spec_name() == "CommandError"@ <==> e == Exc::CommandError,
        e.spec_name() == "OSError"@ <==> e == Exc::OSError,
        e.spec_name() == "EOFError"@ <==> e == Exc::EOFError,
        e.spec_name() == "ModuleNotFoundError"@ <==> e == Exc::ModuleNotFoundError,
        e.spec_name() == "KeyError"@ <==> e == Exc::KeyError,
        e.spec_name() == "IndexError"@ <==> e == Exc::IndexError,
        e.spec_name() == "ZeroDivisionError"@ <==> e == Exc::ZeroDivisionError,
        e.spec_name() == "NotImplementedError"@ <==> e == Exc::NotImplementedError,
        e.spec_name() == "RecursionError"@ <==> e == Exc::RecursionError,
        e.spec_name() == "FileNotFoundError"@ <==> e == Exc::FileNotFoundError,
        e.spec_name() == "PermissionError"@ <==> e == Exc::PermissionError,
        e.spec_name() == "TimeoutError"@ <==> e == Exc::TimeoutError,
{
    if e.spec_name() == "BaseException"@ {
        lemma_names(e, Exc::BaseException);
    }
    if e.spec_name() == "SystemExit"@ {
        lemma_names(e, Exc::SystemExit);
    }
    if e.spec_name() == "Exception"@ {
        lemma_names(e, Exc::Exception);
    }
    if e.spec_name() == "ImportError"@ {
        lemma_names(e, Exc::ImportError);
    }
    if e.spec_name() == "ValueError"@ {
        lemma_names(e, Exc::ValueError);
    }
    if e.spec_name() == "TypeError"@ {
        lemma_names(e, Exc::TypeError);
    }
    if e.spec_name() == "LookupError"@ {
        lemma_names(e, Exc::LookupError);
    }
    if e.spec_name() == "AttributeError"@ {
        lemma_names(e, Exc::AttributeError);
    }
    if e.spec_name() == "NameError"@ {
        lemma_names(e, Exc::NameError);
    }
    if e.spec_name() == "ArithmeticError"@ {
        lemma_names(e, Exc::ArithmeticError);
    }
    if e.spec_name() == "RuntimeError"@ {
        lemma_names(e, Exc::RuntimeError);
    }
    if e.spec_name() == "StopIteration"@ {
        lemma_names(e, Exc::StopIteration);
    }
    if e.spec_name() == "ChannelClosed"@ {
        lemma_names(e, Exc::ChannelClosed);
    }
    if e.spec_name() == "CommandError"@ {
        lemma_names(e, Exc::CommandError);
    }
    if e.spec_name() == "OSError"@ {
        lemma_names(e, Exc::OSError);
    }
    if e.spec_name() == "EOFError"@ {
        lemma_names(e, Exc::EOFError);
    }
    if e.spec_name() == "ModuleNotFoundError"@ {
        lemma_names(e, Exc::ModuleNotFoundError);
    }
    if e.spec_name() == "KeyError"@ {
        lemma_names(e, Exc::KeyError);
    }
    if e.spec_name() == "IndexError"@ {
        lemma_names(e, Exc::IndexError);
    }
    if e.spec_name() == "ZeroDivisionError"@ {
        lemma_names(e, Exc::ZeroDivisionError);
    }
    if e.spec_name() == "NotImplementedError"@ {
        lemma_names(e, Exc::NotImplementedError);
    }
    if e.spec_name() == "RecursionError"@ {
        lemma_names(e, Exc::RecursionError);
    }
    if e.spec_name() == "FileNotFoundError"@ {
        lemma_names(e, Exc::FileNotFoundError);
    }
    if e.spec_name() == "PermissionError"@ {
        lemma_names(e, Exc::PermissionError);
    }
    if e.spec_name() == "TimeoutError"@ {
        lemma_names(e, Exc::TimeoutError);
    }
}

proof fn lemma_under(h: Heap, reg: Seq<usize>, e: Exc, p: Exc)
    requires
        registered(h, reg),
        e.spec_parent() == Some(p),
    ensures stands_under(h, reg, e.spec_name(), p.spec_name()),
{
    exc_places(e);
    exc_places(p);
    assert(registered_as(h, reg, e));
    assert(registered_as(h, reg, p));
    let c = reg[e.spec_rank()];
    let d = reg[p.spec_rank()];
    assert(built_in(h, reg, c, e.spec_name()));
    assert(built_in(h, reg, d, p.spec_name()));
}

/// Every built-in exception derives from the one that the hierarchy names.
pub proof fn exceptions_derive_as_named(h: Heap, reg: Seq<usize>)
    requires registered(h, reg),
    ensures
        stands_under(h, reg, "SystemExit"@, "BaseException"@),
        stands_under(h, reg, "Exception"@, "BaseException"@),
        stands_under(h, reg, "ImportError"@, "Exception"@),
        stands_under(h, reg, "ValueError"@, "Exception"@),
        stands_under(h, reg, "TypeError"@, "Exception"@),
        stands_under(h, reg, "LookupError"@, "Exception"@),
        stands_under(h, reg, "AttributeError"@, "Exception"@),
        stands_under(h, reg, "NameError"@, "Exception"@),
        stands_under(h, reg, "ArithmeticError"@, "Exception"@),
        stands_under(h, reg, "RuntimeError"@, "Exception"@),
        stands_under(h, reg, "StopIteration"@, "Exception"@),
        stands_under(h, reg, "ChannelClosed"@, "Exception"@),
        stands_under(h, reg, "CommandError"@, "Exception"@),
        stands_under(h, reg, "OSError"@, "Exception"@),
        stands_under(h, reg, "EOFError"@, "Exception"@),
        stands_under(h, reg, "ModuleNotFoundError"@, "ImportError"@),
        stands_under(h, reg, "KeyError"@, "LookupError"@),
        stands_under(h, reg, "IndexError"@, "LookupError"@),
        stands_under(h, reg, "ZeroDivisionError"@, "ArithmeticError"@),
        stands_under(h, reg, "NotImplementedError"@, "RuntimeError"@),
        stands_under(h, reg, "RecursionError"@, "RuntimeError"@),
        stands_under(h, reg, "FileNotFoundError"@, "OSError"@),
        stands_under(h, reg, "PermissionError"@, "OSError"@),
        stands_under(h, reg, "TimeoutError"@, "OSError"@),
        exists|c: usize| #[trigger] built_in(h, reg, c, "BaseException"@) && h.class_base(c) is None,
        forall|c: usize, d: usize, n: Seq<char>| #[trigger] built_in(h, reg, c, n) && #[trigger] built_in(h, reg, d, n) ==> c == d,
{
    lemma_under(h, reg, Exc::SystemExit, Exc::BaseException);
    lemma_under(h, reg, Exc::Exception, Exc::BaseException);
    lemma_under(h, reg, Exc::ImportError, Exc::Exception);
    lemma_under(h, reg, Exc::ValueError, Exc::Exception);
    lemma_under(h, reg, Exc::TypeError, Exc::Exception);
    lemma_under(h, reg, Exc::LookupError, Exc::Exception);
    lemma_under(h, reg, Exc::AttributeError, Exc::Exception);
    lemma_under(h, reg, Exc::NameError, Exc::Exception);
    lemma_under(h, reg, Exc::ArithmeticError, Exc::Exception);
    lemma_under(h, reg, Exc::RuntimeError, Exc::Exception);
    lemma_under(h, reg, Exc::StopIteration, Exc::Exception);
    lemma_under(h, reg, Exc::ChannelClosed, Exc::Exception);
    lemma_under(h, reg, Exc::CommandError, Exc::Exception);
    lemma_under(h, reg, Exc::OSError, Exc::Exception);
    lemma_under(h, reg, Exc::EOFError, Exc::Exception);
    lemma_under(h, reg, Exc::ModuleNotFoundError, Exc::ImportError);
    lemma_under(h, reg, Exc::KeyError, Exc::LookupError);
    lemma_under(h, reg, Exc::IndexError, Exc::LookupError);
    lemma_under(h, reg, Exc::ZeroDivisionError, Exc::ArithmeticError);
    lemma_under(h, reg, Exc::NotImplementedError, Exc::RuntimeError);
    lemma_under(h, reg, Exc::RecursionError, Exc::RuntimeError);
    lemma_under(h, reg, Exc::FileNotFoundError, Exc::OSError);
    lemma_under(h, reg, Exc::PermissionError, Exc::OSError);
    lemma_under(h, reg, Exc::TimeoutError, Exc::OSError);
    let e = Exc::BaseException;
    exc_places(e);
    assert(registered_as(h, reg, e));
    assert(built_in(h, reg, reg[e.spec_rank()], "BaseException"@));
    assert forall|c: usize, d: usize, n: Seq<char>| #[trigger] built_in(h, reg, c, n) && #[trigger] built_in(h, reg, d, n)
        implies c == d by {
        let x = lemma_kind(h, reg, c, n);
        let y = lemma_kind(h, reg, d, n);
        lemma_names(x, y);
    }
}

proof fn lemma_kind(h: Heap, reg: Seq<usize>, c: usize, n: Seq<char>) -> (e: Exc)
    requires
        registered(h, reg),
        built_in(h, reg, c, n),
    ensures
        e.spec_name() == n,
        exc_class(reg, e) == c,
{
    let k = choose|k: int| 0 <= k < reg.len() && reg[k] == c;
    let e = Exc::spec_at(k);
    lemma_at(k);
    exc_places(e);
    assert(registered_as(h, reg, e));
    e
}

proof fn lemma_at(k: int)
    requires 0 <= k < exc_count(),
    ensures Exc::spec_at(k).spec_rank() == k,
{
}

/// An `except` clause for a built-in exception takes an instance of another
/// exactly when that is the same one or comes under it: `LookupError` takes a
/// `KeyError` and an `IndexError`, and `Exception` takes all but `SystemExit`
/// and `BaseException`.
pub proof fn except_takes_what_comes_under_it(h: Heap, reg: Seq<usize>, i: usize, n: Seq<char>, c: usize, m: Seq<char>, r: Result<bool, VErr>)
    requires
        registered(h, reg),
        match_result(h, Value::Instance(i), Value::Class(c), r),
        built_in(h, reg, h.instance_class(i), n),
        built_in(h, reg, c, m),
    ensures r == Ok::<bool, VErr>(handled_by(n, m)),
{
    let e = lemma_kind(h, reg, h.instance_class(i), n);
    let f = lemma_kind(h, reg, c, m);
    registry_inherits(h, reg, e, f);
    lemma_called(e);
    lemma_called(f);
    if n == m {
        lemma_names(e, f);
    }
    assert(registered_as(h, reg, f));
    lemma_handled(e, f);
}

proof fn lemma_handled(e: Exc, f: Exc)
    ensures exc_derives(e, f) == handled_by(e.spec_name(), f.spec_name()),
{
    lemma_called(e);
    lemma_called(f);
    if e.spec_name() == f.spec_name() {
        lemma_names(e, f);
    }
    match e.spec_parent() {
        Some(p) => match p.spec_parent() {
            Some(q) => match q.spec_parent() {
                Some(s) => {
                    assert(exc_derives(s, f) == (s == f));
                    assert(exc_derives(q, f) == (q == f || s == f));
                    assert(exc_derives(p, f) == (p == f || q == f || s == f));
                }
                None => {
                    assert(exc_derives(q, f) == (q == f));
                    assert(exc_derives(p, f) == (p == f || q == f));
                }
            },
            None => {
                assert(exc_derives(p, f) == (p == f));
            }
        },
        None => {}
    }
}

/// Each class of the chain is the base of the one before it.
pub open spec fn is_chain(h: Heap, chain: Seq<usize>) -> bool {
    chain.len() > 0 && forall|k: int| 0 <= k < chain.len() - 1 ==> h.class_base(#[trigger] chain[k]) == Some(chain[k + 1])
}

/// From `c` up the bases to `d`.
pub open spec fn leads_to(h: Heap, c: usize, d: usize, chain: Seq<usize>) -> bool {
    is_chain(h, chain) && chain[0] == c && chain.last() == d
}

proof fn lemma_chain(h: Heap, c: usize, d: usize)
    ensures h.derives(c, d) <==> exists|chain: Seq<usize>| #[trigger] leads_to(h, c, d, chain),
    decreases c,
{
    if c == d {
        assert(leads_to(h, c, d, seq![c]));
    }
    if let Some(b) = h.class_base(c) {
        lemma_chain(h, b, d);
        if h.derives(b, d) {
            let up = choose|chain: Seq<usize>| #[trigger] leads_to(h, b, d, chain);
            let chain = seq![c] + up;
            assert forall|k: int| 0 <= k < chain.len() - 1 implies h.class_base(#[trigger] chain[k]) == Some(chain[k + 1]) by {
                if k > 0 {
                    assert(chain[k] == up[k - 1]);
                }
            }
            assert(leads_to(h, c, d, chain));
        }
    }
    if exists|chain: Seq<usize>| #[trigger] leads_to(h, c, d, chain) {
        let chain = choose|chain: Seq<usize>| #[trigger] leads_to(h, c, d, chain);
        if chain.len() > 1 {
            assert(h.class_base(chain[0]) == Some(chain[1]));
            let up = chain.skip(1);
            assert forall|k: int| 0 <= k < up.len() - 1 implies h.class_base(#[trigger] up[k]) == Some(up[k + 1]) by {
                assert(up[k] == chain[k + 1]);
            }
            assert(leads_to(h, chain[1], d, up));
        }
    }
}

/// An `except` clause for an exception class, built in or a program's own,
/// takes an instance exactly when going up the bases of its class comes to that
/// class; it takes nothing else, and a clause for anything else is refused.
pub proof fn except_goes_up_the_bases(h: Heap, exc: Value, class: Value, r: Result<bool, VErr>)
    requires match_result(h, exc, class, r),
    ensures
        r is Ok <==> class is Class && h.is_exception_class(class->Class_0),
        r matches Ok(taken) ==> (taken <==> exc is Instance
            && exists|chain: Seq<usize>| #[trigger] leads_to(h, h.instance_class(exc->Instance_0), class->Class_0, chain)),
        r matches Err(e) ==> e@.0 == Exc::TypeError,
{
    if exc is Instance && class is Class {
        lemma_chain(h, h.instance_class(exc->Instance_0), class->Class_0);
    }
}

/// A fault becomes an instance of the exception of its name.
pub proof fn faults_are_exceptions_of_their_name(h: Heap, reg: Seq<usize>, v: Value, e: Exc, message: Seq<char>)
    requires
        registered(h, reg),
        is_fault_exception(h, reg, v, e, message),
    ensures
        v matches Value::Instance(i) && built_in(h, reg, h.instance_class(i), e.spec_name()),
{
    exc_places(e);
    assert(registered_as(h, reg, e));
}

proof fn lemma_named(e: Exc, from: int)
    requires 0 <= from <= e.spec_rank(),
    ensures exc_named(e.spec_name(), from) == Some(e.spec_rank()),
    decreases e.spec_rank() - from,
{
    exc_places(e);
    let f = Exc::spec_at(from);
    if f.spec_name() == e.spec_name() {
        lemma_names(e, f);
        lemma_at(from);
    } else {
        assert(from != e.spec_rank());
        lemma_named(e, from + 1);
    }
}

/// Each built-in exception is found under its name.
pub proof fn exceptions_are_found_by_name(h: Heap, reg: Seq<usize>, e: Exc)
    requires registered(h, reg),
    ensures
        exc_named(e.spec_name(), 0) matches Some(k) && built_in(h, reg, class_at(reg, k), e.spec_name()),
{
    exc_places(e);
    lemma_named(e, 0);
    assert(registered_as(h, reg, e));
}

} // verus!
