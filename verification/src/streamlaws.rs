//! What reading and writing come to, and how a program ends.
use vstd::prelude::*;
use crate::exc::Exc;
use crate::intlaws::fails_as;
use crate::machine::{HostCall, Step, Vm};
use crate::program::{status_of, End};
use crate::sched::{IoOp, IoWait};
use crate::streams::{settle_result, stream_method_result, Tried};
use crate::value::Value;

verus! {

proof fn lemma_method_names()
    ensures
        "write"@ != "read"@,
        "read_until"@ != "read"@,
        "read_until"@ != "write"@,
        "accept"@ != "read"@ && "accept"@ != "write"@ && "accept"@ != "read_until"@,
        "close"@ != "read"@ && "close"@ != "write"@ && "close"@ != "read_until"@ && "close"@ != "accept"@,
{
    reveal_strlit("read");
    reveal_strlit("write");
    reveal_strlit("read_until");
    reveal_strlit("accept");
    reveal_strlit("close");
    assert("read"@.len() == 4 && "write"@.len() == 5 && "read_until"@.len() == 10 && "accept"@.len() == 6 && "close"@.len() == 5);
    assert("write"@[0] == 'w' && "close"@[0] == 'c');
}

/// The host is asked to try this on the stream.
pub open spec fn tries(r: Option<Step>, s: usize, op: IoOp) -> bool {
    r matches Some(Step::Host(x)) && (x.0 matches HostCall::Attempt(w) && w.stream == s && w.op == op)
}

/// `read(n)`, `write(octets)` and `accept()` of an open stream ask the host for
/// just that, and `close()` to close it; nothing to write is written at once.
pub proof fn stream_methods_ask_for_it(a: Vm, b: Vm, s: usize, n: i64, x: usize, name: Seq<char>, args: Seq<Value>, r: Option<Step>)
    requires
        stream_method_result(a, b, s, name, args, Seq::empty(), r),
        s < a.heap.streams@.len(),
    ensures
        name == "read"@ && args == seq![Value::Int(n)] && !a.heap.streams@[s as int].closed ==> tries(r, s, IoOp::Read(n)),
        name == "write"@ && args == seq![Value::Bytes(x)] && !a.heap.streams@[s as int].closed && a.heap.octets(x).len() > 0
            ==> tries(r, s, IoOp::Write { buf: x, done: 0 }),
        name == "write"@ && args == seq![Value::Bytes(x)] && a.heap.octets(x).len() == 0 ==> b.stack() == a.stack().push(Value::Null),
        name == "accept"@ && args.len() == 0 && !a.heap.streams@[s as int].closed ==> tries(r, s, IoOp::Accept),
        name == "close"@ && args.len() == 0 ==> (r matches Some(Step::Host(q)) && q.0 == HostCall::Close(s)),
        a.heap.streams@[s as int].closed && ((name == "read"@ && args == seq![Value::Int(n)]) || (name == "accept"@ && args.len() == 0))
            ==> (r matches Some(st) && fails_as(st, Exc::ValueError)),
{
    lemma_method_names();
    if args == seq![Value::Int(n)] {
        assert(args.len() == 1 && args[0] == Value::Int(n));
    }
    if args == seq![Value::Bytes(x)] {
        assert(args.len() == 1 && args[0] == Value::Bytes(x));
    }
}

/// A write goes on from where the host stopped until all is written, and then
/// answers with null; what a read or an accept gave back is the answer.
pub proof fn writes_go_on_until_done(a: Vm, b: Vm, w: IoWait, x: usize, done: usize, t: Tried, now: u64, r: Step)
    requires
        settle_result(a, b, w, t, now, r),
        a.running(),
    ensures
        t matches Tried::Ready(v) ==> b.stack() == a.stack().push(v),
        t matches Tried::Failed(e) ==> fails_as(r, e@.0),
        w.op == (IoOp::Write { buf: x, done }) ==> (t matches Tried::Wrote(k) ==> {
            &&& done + k >= a.heap.octets(x).len() ==> b.stack() == a.stack().push(Value::Null)
            &&& done + k < a.heap.octets(x).len() ==> tries(Some(r), w.stream, IoOp::Write { buf: x, done: (done + k) as usize }) && b == a
        }),
{
}

/// A program that ran to its end exits with zero, or with one where a task
/// failed that nobody joined; one that asked for a code exits with that.
pub proof fn programs_exit_with_their_code(vm: Vm, end: End)
    ensures
        vm.exit_code matches Some(c) ==> status_of(vm, end) matches Ok(n) && n == c,
        end is Ok && vm.exit_code is None && (forall|k: int| 0 <= k < vm.heap.handles@.len() ==> !((#[trigger] vm.heap.handles@[k]).state is Failed))
            ==> (status_of(vm, end) matches Ok(n) && n == 0),
        end is Ok && vm.exit_code is None && (exists|k: int| 0 <= k < vm.heap.handles@.len() && (#[trigger] vm.heap.handles@[k]).state is Failed)
            ==> (status_of(vm, end) matches Ok(n) && n == 1),
        end is Err && vm.exit_code is None ==> status_of(vm, end) is Err,
{
}

} // verus!
