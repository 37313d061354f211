//! Where values go when something ends, yields or sleeps, and what the built-in
//! modules hold.
use vstd::prelude::*;
use crate::code::Op;
use crate::exc::Exc;
use crate::exceptions::fault_message;
use crate::flow::{deliver_result, module_members, slot_value};
use crate::flowlaws::{counts_as_false, has_truth};
use crate::frame::{Frame, ReturnAction};
use crate::imports::{import_result, load_result, missing_text, Loaded};
use crate::intlaws::fails_as;
use crate::machine::{GenDriver, Job, Step, Vm};
use crate::modules::{built_in, is_built_in, is_function, is_text, StdStreams};
use crate::sched::Park;
use crate::step::step_result;
use crate::value::{Heap, Value};
use crate::waiting::{settle_sleep_result, sleep_result};
use crate::wake::raises;

verus! {

/// What becomes of the value a call returns: it goes on the stack; that of an
/// `__init__` goes nowhere, and has to be null; that of an `__eq__` asked for
/// `!=` is turned round.
pub proof fn returned_values_are_delivered(a: Vm, b: Vm, action: ReturnAction, v: Value, r: Step)
    requires
        deliver_result(a, b, action, v, r),
        a.running(),
    ensures
        action == ReturnAction::Normal ==> r is Next && b.stack() == a.stack().push(v) && b.heap == a.heap,
        action == ReturnAction::DropForInit && v is Null ==> r is Next && b == a,
        action == ReturnAction::DropForInit && !(v is Null) ==> fails_as(r, Exc::TypeError),
        action == ReturnAction::NegateBool && has_truth(a.heap, v)
            ==> r is Next && b.stack() == a.stack().push(Value::Bool(counts_as_false(a.heap, v))),
        action == ReturnAction::DriveCompare && has_truth(a.heap, v) ==> r == Step::Answer(!counts_as_false(a.heap, v)),
{
}

/// `yield v` in a `for` over the generator hands `v` to the loop, one call
/// further out, and the generator keeps the rest of its stack; with two names
/// the loop gets how many came before as well.
pub proof fn yields_go_to_the_loop(a: Vm, b: Vm, target: usize, paired: bool, r: Step)
    requires
        step_result(a, b, Op::Yield, r),
        crate::generate::in_generator(a),
        a.stack().len() > 0,
        a.task.gen_stack@.last().1 == (GenDriver::ForLoop { target, paired }),
    ensures
        r is Next,
        b.task.frames@.len() == a.task.frames@.len() - 1,
        b.stack().drop_last() == a.task.frames@[a.task.frames@.len() - 2].stack@,
        !paired ==> b.stack().last() == a.stack().last(),
        paired ==> (b.stack().last() matches Value::Tuple(t) && b.heap.tuple(t) == seq![Value::Int(a.heap.gens@[a.task.gen_stack@.last().0 as int].for_index), a.stack().last()]),
{
    let g = a.task.gen_stack@.last().0;
    let m = choose|m: Vm| #[trigger] crate::generate::suspended(a, m) && crate::generate::yielded(m, b, g, a.stack().last(), paired);
    assert(m.stack() == a.task.frames@[a.task.frames@.len() - 2].stack@);
    assert(b.stack().drop_last() =~= m.stack());
}

/// `yield v` in a generator that is being collected puts `v` behind what it
/// yielded before.
pub proof fn yields_are_collected(a: Vm, b: Vm, r: Step)
    requires
        step_result(a, b, Op::Yield, r),
        crate::generate::in_generator(a),
        a.stack().len() > 0,
        a.task.gen_stack@.last().1 == GenDriver::Materialize,
    ensures
        r == Step::Drive(Job::Mat),
        b.task.mats@.last().items@ == a.task.mats@.last().items@.push(a.stack().last()),
        b.task.mats@.last().args == a.task.mats@.last().args,
{
}

/// `sleep(n)` parks the task with a timer for it `n` seconds from now; a negative
/// number is a ValueError.
pub proof fn sleeping_takes_its_time(a: Vm, b: Vm, n: i64, now: u64, of_float: Option<u64>, r: Step)
    requires settle_sleep_result(a, b, Value::Int(n), now, of_float, r),
    ensures
        n < 0 ==> fails_as(r, Exc::ValueError),
        0 <= n <= u32::MAX && now + n * 1000 <= u64::MAX ==> {
            &&& r matches Step::Park(p) && *p is Sleep
            &&& b.reactor.timers@.len() == a.reactor.timers@.len() + 1
            &&& exists|k: int| 0 <= k < b.reactor.timers@.len() && (#[trigger] b.reactor.timers@[k]).at == now + n * 1000
                && b.reactor.timers@[k].task == a.task.id
        },
{
    if 0 <= n <= u32::MAX && now + n * 1000 <= u64::MAX {
        let at = (now + n * 1000) as u64;
        let k = crate::reactor::timer_place(a.reactor.timers@, at);
        lemma_timer_place(a.reactor.timers@, at);
        assert(b.reactor.timers@[k].at == at);
    }
}

proof fn lemma_timer_place(ts: Seq<crate::reactor::Timer>, at: u64)
    ensures 0 <= crate::reactor::timer_place(ts, at) <= ts.len(),
    decreases ts.len(),
{
    if ts.len() > 0 {
        lemma_timer_place(ts.skip(1), at);
    }
}

/// `sleep` takes one number of seconds, which is not negative.
pub proof fn sleep_takes_a_number(a: Vm, b: Vm, args: Seq<Value>, r: Step)
    requires sleep_result(a, b, args, Seq::empty(), r),
    ensures
        args.len() != 1 ==> fails_as(r, Exc::TypeError),
        args.len() == 1 && (args[0] is Str || args[0] is Null || args[0] is List) ==> fails_as(r, Exc::TypeError),
        args.len() == 1 && (args[0] matches Value::Int(n) && n < 0) ==> fails_as(r, Exc::ValueError),
        args.len() == 1 && (args[0] matches Value::Int(n) && n >= 0) ==> r is Host,
{
}

/// A missing key's exception says the key alone.
pub proof fn missing_keys_say_the_key(key: Seq<char>, message: Seq<char>, e: Exc)
    ensures
        fault_message(Exc::KeyError, "key error: "@ + key) == key,
        e != Exc::KeyError ==> fault_message(e, message) == message,
{
    let p = "key error: "@;
    let s = p + key;
    assert(p.is_prefix_of(s));
    assert(s.skip(p.len() as int) =~= key);
}

/// The module holds the function `f`, known to the host as `name` and `f`.
pub open spec fn offers(h: Heap, m: Map<Seq<char>, Value>, name: Seq<char>, f: Seq<char>) -> bool {
    m.dom().contains(f) && is_function(h, m[f], name + "."@ + f)
}

proof fn lemma_module_names()
    ensures
        "os"@ != "sys"@,
        "os.path"@ != "sys"@,
        "os.path"@ != "os"@,
        "time"@ != "sys"@ && "time"@ != "os"@ && "time"@ != "os.path"@,
        "proc"@ != "sys"@ && "proc"@ != "os"@ && "proc"@ != "os.path"@ && "proc"@ != "time"@ && "proc"@ != "re"@,
        "net"@ != "sys"@ && "net"@ != "os"@ && "net"@ != "os.path"@ && "net"@ != "time"@ && "net"@ != "re"@ && "net"@ != "proc"@,
        "re"@ != "sys"@ && "re"@ != "os"@ && "re"@ != "os.path"@ && "re"@ != "time"@,
{
    reveal_strlit("sys");
    reveal_strlit("os");
    reveal_strlit("os.path");
    reveal_strlit("time");
    reveal_strlit("re");
    reveal_strlit("proc");
    reveal_strlit("net");
    assert("sys"@.len() == 3 && "net"@.len() == 3 && "sys"@[0] == 's' && "net"@[0] == 'n');
    assert("os"@.len() == 2 && "re"@.len() == 2 && "os"@[0] == 'o' && "re"@[0] == 'r');
    assert("time"@.len() == 4 && "proc"@.len() == 4 && "time"@[0] == 't' && "proc"@[0] == 'p');
    assert("os.path"@.len() == 7);
}

/// The built-in modules hold the functions they are known for.
pub proof fn built_in_modules_hold_their_functions(h: Heap, m: Map<Seq<char>, Value>, name: Seq<char>, argv: Seq<String>, env: Seq<(String, String)>, std: StdStreams)
    requires built_in(h, m, name, argv, env, std),
    ensures
        name == "sys"@ ==> offers(h, m, name, "exit"@) && is_text(h, m["platform"@], "oro"@) && m["stdout"@] == Value::Stream(std.output)
            && m["stderr"@] == Value::Stream(std.errors) && m["stdin"@] == Value::Stream(std.input),
        name == "os"@ ==> offers(h, m, name, "getcwd"@) && offers(h, m, name, "listdir"@) && offers(h, m, name, "remove"@) && offers(h, m, name, "mkdir"@),
        name == "os.path"@ ==> offers(h, m, name, "exists"@) && offers(h, m, name, "isfile"@) && offers(h, m, name, "isdir"@) && offers(h, m, name, "join"@)
            && offers(h, m, name, "basename"@) && offers(h, m, name, "dirname"@) && offers(h, m, name, "splitext"@),
        name == "time"@ ==> offers(h, m, name, "time"@) && offers(h, m, name, "sleep"@) && offers(h, m, name, "monotonic"@),
        name == "re"@ ==> offers(h, m, name, "search"@) && offers(h, m, name, "findall"@) && offers(h, m, name, "sub"@) && offers(h, m, name, "split"@)
            && offers(h, m, name, "fullmatch"@) && offers(h, m, name, "finditer"@) && offers(h, m, name, "compile"@),
        name == "proc"@ ==> offers(h, m, name, "run"@),
        name == "net"@ ==> offers(h, m, name, "listen"@) && offers(h, m, name, "dial"@),
{
    lemma_module_names();
    let fs = crate::modules::module_functions(name);
    if name == "sys"@ {
        assert(fs[0] == "exit"@);
    } else if name == "os"@ {
        assert(fs[0] == "getcwd"@ && fs[1] == "listdir"@ && fs[2] == "remove"@ && fs[3] == "mkdir"@);
    } else if name == "os.path"@ {
        assert(fs[0] == "exists"@ && fs[1] == "isfile"@ && fs[2] == "isdir"@ && fs[3] == "join"@ && fs[4] == "basename"@ && fs[5] == "dirname"@
            && fs[6] == "splitext"@);
    } else if name == "time"@ {
        assert(fs[0] == "time"@ && fs[1] == "sleep"@ && fs[2] == "monotonic"@);
    } else if name == "re"@ {
        assert(fs[0] == "search"@ && fs[1] == "findall"@ && fs[2] == "finditer"@ && fs[3] == "fullmatch"@ && fs[4] == "sub"@ && fs[5] == "split"@
            && fs[6] == "compile"@);
    } else if name == "proc"@ {
        assert(fs[0] == "run"@);
    } else if name == "net"@ {
        assert(fs[0] == "listen"@ && fs[1] == "dial"@);
    }
}

/// A module that is there is given as it is; one that cannot be found is a
/// ModuleNotFoundError, and one that cannot be read as a program an ImportError.
pub proof fn imports_give_modules(a: Vm, b: Vm, path: Seq<char>, l: Loaded, r: Step)
    ensures
        import_result(a, b, path, r) && !is_built_in(path) && a.module_cache@.dom().contains(path)
            ==> r is Next && b.stack() == a.stack().push(a.module_cache@[path]),
        load_result(a, b, path, l, r) && l is Missing ==> raises(b.heap, a.excs@, r, Exc::ModuleNotFoundError, missing_text(path)),
        load_result(a, b, path, l, r) && l is Broken ==> exists|t: Seq<char>| #[trigger] raises(b.heap, a.excs@, r, Exc::ImportError, t),
        load_result(a, b, path, l, r) && l is Code ==> r is Next && b.task.frames@.len() == a.task.frames@.len() + 1
            && b.task.frames@.last().code == l->Code_0 && b.task.frames@.last().pc == 0,
{
    if load_result(a, b, path, l, r) && l is Broken {
        assert(raises(b.heap, a.excs@, r, Exc::ImportError, "error importing '"@ + path + "': "@ + l->Broken_0@));
    }
}

/// A module has the variables of its body by their names, each with the value it
/// had at the end.
pub proof fn modules_have_their_names(h: Heap, f: Frame, n: int, k: int)
    requires
        0 <= k < n <= f.code.module_names@.len(),
        !(slot_value(h, f, f.code.module_names@[k].1) is Unbound),
        forall|j: int| k < j < n ==> (#[trigger] f.code.module_names@[j]).0@ != f.code.module_names@[k].0@,
    ensures
        module_members(h, f, n).dom().contains(f.code.module_names@[k].0@),
        module_members(h, f, n)[f.code.module_names@[k].0@] == slot_value(h, f, f.code.module_names@[k].1),
    decreases n,
{
    if k < n - 1 {
        modules_have_their_names(h, f, n - 1, k);
        assert(f.code.module_names@[n - 1].0@ != f.code.module_names@[k].0@);
    }
}

/// A default is worked out only for a parameter that no argument was given for.
pub proof fn defaults_are_for_what_is_missing(a: Vm, b: Vm, p: u32, r: Step)
    requires
        step_result(a, b, Op::DefaultIfBound(p), r),
        a.running(),
    ensures
        r is Next,
        slot_value(a.heap, a.top(), a.top().code.params@[a.top().code.pairs@[p as int].0 as int].target) is Unbound ==> b.top().pc == a.top().pc,
        !(slot_value(a.heap, a.top(), a.top().code.params@[a.top().code.pairs@[p as int].0 as int].target) is Unbound)
            ==> b.top().pc == a.top().code.pairs@[p as int].1,
        b.stack() == a.stack(),
{
    assert(b.stack() =~= a.stack());
}

/// The modules that are built in.
pub proof fn what_is_built_in()
    ensures
        is_built_in("sys"@),
        is_built_in("os"@),
        is_built_in("time"@),
        is_built_in("re"@),
        is_built_in("proc"@),
        is_built_in("net"@),
        !is_built_in("os.path"@),
{
    lemma_module_names();
    reveal_strlit("_io");
    reveal_strlit("_json");
    reveal_strlit("os.path");
    assert("os.path"@.len() == 7);
    assert("_io"@.len() == 3 && "_json"@.len() == 5);
}

} // verus!
