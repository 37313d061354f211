//! The parts of the machine, one by one.
use std::rc::Rc;

use oro_vm::arith::{binary, invert, neg, Arith, FloatOp};
use oro_vm::bigint::{BigInt, BitKind};
use oro_vm::code::{BinOp, CodeObject, Op, RelOp};
use oro_vm::exc::{Exc, VErr};
use oro_vm::exceptions::{build_registry, lookup, parse_exit_code};
use oro_vm::fields::Fields;
use oro_vm::index::{resolve_index, slice_indices, unit_range};
use oro_vm::iter::{get_iter, iter_next, iterate_to_vec};
use oro_vm::keys::{dict_get, dict_insert, keys_match};
use oro_vm::machine::{HostCall, Natives, Step, Task, Vm};
use oro_vm::membership::try_relation;
use oro_vm::modules::{basename, build, dirname, io_err, splitext, sys_exit, IoKind, StdStreams};
use oro_vm::names::is_truthy;
use oro_vm::order::sort_native;
use oro_vm::paths::render_module_file;
use oro_vm::process::{capture, watch, RunOutcome, RunRequest, Watch, MAX_CAPTURE_BYTES};
use oro_vm::program::{add_values, run, run_main, Outcome, Run, Site};
use oro_vm::reactor::{event_sides, Reactor};
use oro_vm::repr::{render, render_display};
use oro_vm::run::Slice;
use oro_vm::sched::{Dialing, Interest, IoOp, IoWait, Park, Parked};
use oro_vm::seqop::{is_seq_op, SeqOp};
use oro_vm::sorting::Sorter;
use oro_vm::stdlib::{display_name, source_for, Shipped};
use oro_vm::streams::{Tried, READY_IO_YIELD};
use oro_vm::text::{join_all, render_i64, render_octets_repr, render_text_repr, render_u64};
use oro_vm::value::{Class, FloatObj, Heap, Instance, RangeVal, Stream, StreamKind, Value};
use oro_vm::waiting::{DialPlan, DialTried, Retry};

fn shipped() -> Shipped {
    Shipped {
        io: "pass\n".to_string(),
        json: "j".to_string(),
        http: "h".to_string(),
        base64: "b".to_string(),
        html: "m".to_string(),
    }
}

fn natives() -> Natives {
    Natives {
        globals: Fields::new(),
        cut_globals: Vec::new(),
        methods: Vec::new(),
        cut_methods: Vec::new(),
        casts: Vec::new(),
        draining: Vec::new(),
        stdlib: shipped(),
        environ: vec![("A".to_string(), "1".to_string()), ("B".to_string(), "2".to_string()), ("A".to_string(), "3".to_string())],
    }
}

fn code(ops: Vec<Op>, consts: Vec<Value>) -> Rc<CodeObject> {
    let n = ops.len();
    Rc::new(CodeObject {
        name: "<module>".to_string(),
        source: Rc::new("m.oro".to_string()),
        ops,
        spans: (0..n).map(|i| (i as u32 + 1, 1)).collect(),
        consts,
        names: Vec::new(),
        pairs: Vec::new(),
        params: Vec::new(),
        defaults: Vec::new(),
        varargs: None,
        kwvars: None,
        protos: Vec::new(),
        classes: Vec::new(),
        nlocals: 1,
        ncells: 0,
        is_generator: false,
        shadow_hints: Vec::new(),
        module_names: Vec::new(),
    })
}

/// A machine whose main task is about to run nothing.
fn machine() -> Vm {
    let mut vm = Vm::new(Heap::new(), natives(), Vec::new());
    vm.push_module_frame(code(vec![Op::LoadNone, Op::Return], Vec::new()));
    vm
}

fn new_run() -> Run {
    Run { result: None, main: None, at: Site { source: Rc::new("m.oro".to_string()), line: 0, col: 0 } }
}

/// A suspended task with a frame, so that it can be handed a value.
fn parked(vm: &mut Vm, id: u64, park: Park) {
    let mut helper = Vm::new(Heap::new(), natives(), Vec::new());
    helper.push_module_frame(code(vec![Op::LoadNone, Op::Return], Vec::new()));
    let mut task = std::mem::replace(&mut helper.task, Task::new());
    task.id = id;
    vm.parked.push(Parked { task, park });
}

fn stream(vm: &mut Vm, kind: StreamKind, timeout: Option<u64>) -> usize {
    match vm.heap.alloc_stream(Stream { kind, closed: false, token: None, timeout, peer: None, local: None }) {
        Value::Stream(i) => i,
        _ => unreachable!(),
    }
}

fn reading(s: usize) -> IoWait {
    IoWait { stream: s, op: IoOp::Read(1), interest: Interest::Readable, token: 0, deadline: None, seq: 0 }
}

fn float(h: &mut Heap, f: f64, text: &str) -> Value {
    h.alloc_float(FloatObj { bits: f.to_bits(), text: text.to_string() })
}

fn message(vm: &Vm, exc: Value) -> String {
    let class = match exc {
        Value::Instance(i) => vm.heap.class_name_of(vm.heap.class_of(i)).to_string(),
        _ => panic!("no exception"),
    };
    format!("{class}: {}", render_display(&vm.heap, exc))
}

// --- Text --------------------------------------------------------------------

#[test]
fn texts_are_quoted_and_escaped() {
    assert_eq!(render_text_repr("abc"), "'abc'");
    assert_eq!(render_text_repr("it's"), "\"it's\"");
    assert_eq!(render_text_repr("a\n\t\\b"), "'a\\n\\t\\\\b'");
    assert_eq!(render_octets_repr(&vec![65, 10, 255, 39]), "b'A\\n\\xff\\''");
    assert_eq!(render_u64(0), "0");
    assert_eq!(render_u64(u64::MAX), "18446744073709551615");
    assert_eq!(render_i64(i64::MIN), "-9223372036854775808");
    assert_eq!(join_all(&vec!["a".to_string(), "b".to_string()], ", "), "a, b");
    assert_eq!(join_all(&Vec::new(), ", "), "");
}

// --- Numbers -----------------------------------------------------------------

#[test]
fn big_integers_are_exact() {
    let m = BigInt::from_i64(i64::MIN);
    assert_eq!(m.neg().to_text(), "9223372036854775808");
    assert_eq!(m.mul(&m).to_text(), "85070591730234615865843651857942052864");
    let (q, r) = BigInt::from_i64(-7).divmod_floor(&BigInt::from_i64(2)).expect("a quotient");
    assert_eq!((q.to_text(), r.to_text()), ("-4".to_string(), "1".to_string()));
    assert!(BigInt::from_i64(1).divmod_floor(&BigInt::from_i64(0)).is_none());
    assert_eq!(BigInt::from_i64(-3).pow_u64(41).to_text(), "-36472996377170786403");
    assert_eq!(BigInt::from_i64(-8).shr(1).to_text(), "-4");
    assert_eq!(BigInt::from_i64(-1).shr(200).to_text(), "-1");
    assert_eq!(BigInt::from_i64(-1).bitwise(&BigInt::from_i64(255), BitKind::And).to_text(), "255");
    assert_eq!(BigInt::from_i64(-256).bitwise(&BigInt::from_i64(255), BitKind::Or).to_text(), "-1");
    assert_eq!(BigInt::from_i64(6).bitwise(&BigInt::from_i64(3), BitKind::Xor).to_text(), "5");
    assert_eq!(BigInt::from_i64(5).shl(64).to_i64(), None);
}

#[test]
fn negating_and_inverting_twice_give_a_number_back() {
    let mut h = Heap::new();
    for n in [0, 1, -1, i64::MAX, i64::MIN] {
        let once = match neg(&mut h, Value::Int(n)).expect("a number") {
            Arith::Done(v) => v,
            other => panic!("{other:?}"),
        };
        assert_eq!(neg(&mut h, once).expect("a number"), Arith::Done(Value::Int(n)));
        let once = invert(&mut h, Value::Int(n)).expect("a number");
        assert_eq!(invert(&mut h, once).expect("a number"), Value::Int(n));
    }
    assert_eq!(neg(&mut h, Value::Null).expect_err("no number").message, "bad operand type for unary -: 'null'");
    let f = float(&mut h, 1.5, "1.5");
    assert_eq!(neg(&mut h, f).expect("a number"), Arith::Float(FloatOp::Neg, f, f));
    assert!(invert(&mut h, f).is_err());
}

#[test]
fn addition_promotes_and_concatenates() {
    let mut h = Heap::new();
    match add_values(&mut h, Value::Int(i64::MAX), Value::Int(1)).expect("a number") {
        Arith::Done(Value::Big(b)) => assert_eq!(h.big_copy(b).to_text(), "9223372036854775808"),
        other => panic!("{other:?}"),
    }
    let a = h.alloc_str("a".to_string());
    let b = h.alloc_str("b".to_string());
    match add_values(&mut h, a, b).expect("a text") {
        Arith::Done(Value::Str(s)) => assert_eq!(h.text_of(s), "ab"),
        other => panic!("{other:?}"),
    }
    let e = add_values(&mut h, a, Value::Int(1)).expect_err("no sum");
    assert_eq!((e.class, e.message.as_str()), (Exc::TypeError, "unsupported operand type(s) for +: 'str' and 'int'"));
    let e = binary(&mut h, BinOp::FloorDiv, Value::Int(1), Value::Int(0)).expect_err("no quotient");
    assert_eq!((e.class, e.message.as_str()), (Exc::ZeroDivisionError, "integer division or modulo by zero"));
    let e = binary(&mut h, BinOp::Div, Value::Int(1), Value::Bool(false)).expect_err("no quotient");
    assert_eq!((e.class, e.message.as_str()), (Exc::ZeroDivisionError, "division by zero"));
}

#[test]
fn equal_numbers_are_one_key_however_they_are_written() {
    let mut h = Heap::new();
    let one = float(&mut h, 1.0, "1.0");
    let nan = float(&mut h, f64::NAN, "nan");
    let zero = float(&mut h, 0.0, "0.0");
    let minus = float(&mut h, -0.0, "-0.0");
    let inf = float(&mut h, f64::INFINITY, "inf");
    let big = float(&mut h, 9007199254740992.0, "9007199254740992.0");
    assert!(keys_match(&h, Value::Int(1), Value::Bool(true)));
    assert!(keys_match(&h, one, Value::Int(1)) && keys_match(&h, Value::Bool(true), one));
    assert!(keys_match(&h, zero, minus) && keys_match(&h, minus, Value::Int(0)));
    assert!(!keys_match(&h, nan, nan));
    assert!(keys_match(&h, inf, inf) && !keys_match(&h, inf, Value::Int(i64::MAX)));
    assert!(keys_match(&h, big, Value::Int(9007199254740992)));
    assert!(!keys_match(&h, big, Value::Int(9007199254740993)));
    let a = h.alloc_tuple(vec![Value::Int(1), zero]);
    let b = h.alloc_tuple(vec![one, Value::Bool(false)]);
    assert!(keys_match(&h, a, b) && keys_match(&h, b, a));
}

#[test]
fn a_dict_gives_back_what_was_written() {
    let mut h = Heap::new();
    let d = match h.alloc_dict(Vec::new()) {
        Value::Dict(d) => d,
        _ => unreachable!(),
    };
    let k = h.alloc_str("k".to_string());
    let same = h.alloc_str("k".to_string());
    dict_insert(&mut h, d, k, Value::Int(1)).expect("a key");
    dict_insert(&mut h, d, Value::Int(7), Value::Int(2)).expect("a key");
    dict_insert(&mut h, d, same, Value::Int(3)).expect("a key");
    assert_eq!(dict_get(&h, d, k).expect("a key"), Some(Value::Int(3)));
    assert_eq!(dict_get(&h, d, Value::Int(7)).expect("a key"), Some(Value::Int(2)));
    assert_eq!(dict_get(&h, d, Value::Null).expect("a key"), None);
    assert_eq!(h.dict_len(d), 2);
    assert_eq!(h.dict_at(d, 0).0, k);
    let list = h.alloc_list(Vec::new());
    let within = h.alloc_tuple(vec![list]);
    let e = dict_insert(&mut h, d, within, Value::Null).expect_err("no key");
    assert_eq!((e.class, e.message.as_str()), (Exc::TypeError, "unhashable type: 'list'"));
    assert!(dict_get(&h, d, list).is_err());
}

#[test]
fn relations_and_membership_have_their_answers() {
    let mut h = Heap::new();
    let a = h.alloc_list(vec![Value::Int(1), Value::Int(2)]);
    let b = h.alloc_list(vec![Value::Int(1), Value::Int(3)]);
    assert_eq!(try_relation(&h, RelOp::Lt, a, b).expect("an order"), Some(true));
    assert_eq!(try_relation(&h, RelOp::GtEq, a, b).expect("an order"), Some(false));
    assert_eq!(try_relation(&h, RelOp::In, a, Value::Int(2)).is_err(), true);
    assert_eq!(try_relation(&h, RelOp::In, Value::Int(2), a).expect("an answer"), Some(true));
    assert_eq!(try_relation(&h, RelOp::NotIn, Value::Int(9), a).expect("an answer"), Some(true));
    let r = h.alloc_range(RangeVal { start: 0, stop: 10, step: 3 });
    assert_eq!(try_relation(&h, RelOp::In, Value::Int(9), r).expect("an answer"), Some(true));
    assert_eq!(try_relation(&h, RelOp::In, Value::Int(8), r).expect("an answer"), Some(false));
    let e = try_relation(&h, RelOp::Lt, a, Value::Null).expect_err("no order");
    assert_eq!(e.message, "'<' not supported between instances of 'list' and 'null'");
}

#[test]
fn indices_and_slices_follow_the_length() {
    assert_eq!(resolve_index(-1, 3, "list").expect("a place"), 2);
    let e = resolve_index(3, 3, "list").expect_err("no place");
    assert_eq!((e.class, e.message.as_str()), (Exc::IndexError, "list index out of range"));
    assert_eq!(unit_range(5, Some(1), Some(99)), (1, 5));
    assert_eq!(unit_range(5, Some(3), Some(1)), (3, 3));
    assert_eq!(unit_range(5, Some(-2), None), (3, 5));
    assert_eq!(slice_indices(5, None, None, -2), vec![4, 2, 0]);
    assert_eq!(slice_indices(5, Some(1), Some(4), 2), vec![1, 3]);
    let (lo, hi) = unit_range(7, Some(-5), Some(-1));
    assert_eq!((lo..hi).collect::<Vec<usize>>(), slice_indices(7, Some(-5), Some(-1), 1));
}

#[test]
fn sorting_is_stable_either_way() {
    let keys = [2, 1, 2, 1, 3];
    for (reverse, want) in [(false, vec![1, 3, 0, 2, 4]), (true, vec![4, 0, 2, 1, 3])] {
        let mut s = Sorter::new(keys.len());
        let mut answer = None;
        loop {
            let (next, ask) = s.step(reverse, answer);
            s = next;
            match ask {
                Some((a, b)) => answer = Some(keys[a] < keys[b]),
                None => break,
            }
        }
        assert_eq!(s.places(), want);
    }
}

#[test]
fn operations_are_known_by_their_names() {
    for (n, op) in [("map", SeqOp::Mapping), ("sort_by", SeqOp::SortBy), ("drop_while", SeqOp::DropWhile)] {
        assert_eq!(SeqOp::from_name(n), Some(op));
        assert_eq!(op.name(), n);
    }
    assert!(is_seq_op("flat_map") && !is_seq_op("sorted") && !is_seq_op(""));
    assert!(SeqOp::Filter.preserves_shape() && !SeqOp::FlatMap.preserves_shape());
}

#[test]
fn truth_is_emptiness_and_zero() {
    let mut h = Heap::new();
    let empty = h.alloc_str(String::new());
    let zero = float(&mut h, -0.0, "-0.0");
    let none = h.alloc_range(RangeVal { start: 3, stop: 3, step: 1 });
    let nan = float(&mut h, f64::NAN, "nan");
    for v in [Value::Null, Value::Bool(false), Value::Int(0), empty, zero, none] {
        assert!(!is_truthy(&h, v), "{v:?}");
    }
    for v in [Value::Bool(true), Value::Int(-1), nan, Value::Class(0)] {
        assert!(is_truthy(&h, v), "{v:?}");
    }
    let l = h.alloc_list(vec![Value::Int(1)]);
    if let Value::List(i) = l {
        h.list_push(i, l);
    }
    assert_eq!(render(&h, l), "[1, [...]]");
}

// --- Exceptions --------------------------------------------------------------

#[test]
fn exception_classes_inherit_as_declared() {
    let mut h = Heap::new();
    let reg = build_registry(&mut h);
    let class = |n: &str| match lookup(&reg, n) {
        Some(Value::Class(c)) => c,
        _ => panic!("no class {n}"),
    };
    for (a, b, yes) in [
        ("KeyError", "LookupError", true),
        ("KeyError", "Exception", true),
        ("SystemExit", "Exception", false),
        ("SystemExit", "BaseException", true),
        ("FileNotFoundError", "OSError", true),
        ("ModuleNotFoundError", "ImportError", true),
        ("RecursionError", "RuntimeError", true),
        ("ZeroDivisionError", "ArithmeticError", true),
        ("ValueError", "TypeError", false),
    ] {
        assert_eq!(h.is_subclass(class(a), class(b)), yes, "{a} {b}");
    }
    assert!(lookup(&reg, "NoSuchError").is_none());
    for i in 0..25 {
        assert_eq!(Exc::at(i).rank(), i);
    }
}

#[test]
fn exit_codes_survive_their_text() {
    for n in [0, 3, -1, i32::MAX as i64, i32::MIN as i64] {
        let e = sys_exit(&vec![Value::Int(n)]);
        assert_eq!(e.class, Exc::SystemExit);
        assert_eq!(parse_exit_code(&e.message), n);
    }
    assert_eq!(parse_exit_code(&sys_exit(&vec![Value::Int(1 << 40)]).message), 0);
    assert_eq!(parse_exit_code(&sys_exit(&Vec::new()).message), 0);
    assert_eq!(parse_exit_code("12x"), 0);
    assert_eq!(sys_exit(&vec![Value::Int(1), Value::Int(2)]).class, Exc::TypeError);
}

// --- The reactor -------------------------------------------------------------

#[test]
fn two_tasks_cannot_wait_on_one_side() {
    let mut r = Reactor::new();
    assert!(r.is_idle() && !r.watches());
    assert_eq!(r.arm(None, "TcpStream", Interest::Readable, 1).expect("a token"), 1);
    assert_eq!(r.arm(Some(1), "TcpStream", Interest::Writable, 2).expect("a token"), 1);
    assert_eq!(r.arm(Some(1), "TcpStream", Interest::Readable, 1).expect("a token"), 1);
    let e = r.arm(Some(1), "TcpStream", Interest::Readable, 2).expect_err("taken");
    assert_eq!(e.message, "two tasks cannot read the same TcpStream at once (task 1 is already waiting on it)");
    assert_eq!(r.arm(None, "File", Interest::Readable, 3).expect("a token"), 2);
    r.disarm(1, 1);
    assert_eq!(r.take_waiters(1), vec![2]);
    assert_eq!(r.take_waiters(1), Vec::<u64>::new());
    assert!(!r.is_idle() && r.watches());
    r.disarm(2, 3);
    assert!(r.is_idle());
}

#[test]
fn timers_stay_in_order_and_first_come_first() {
    let mut r = Reactor::new();
    for (at, seq) in [(30, 1), (10, 2), (20, 3), (10, 4)] {
        r.add_timer(at, 0, seq);
    }
    assert_eq!(r.timers.iter().map(|t| t.seq).collect::<Vec<u64>>(), vec![2, 4, 3, 1]);
    assert_eq!(r.next_deadline(), Some(10));
    assert_eq!((r.lookup(5), r.lookup(6)), (1, 2));
    assert_eq!(r.threads_wanted(), 3);
    assert_eq!((r.take_lookup(1), r.take_lookup(1), r.take_lookup(2)), (Some(5), None, Some(6)));
    r.pipe_wait(4);
    r.pipe_wait(4);
    r.proc_wait(4);
    assert!(!r.no_pipes());
    r.pipe_unwait(4);
    r.proc_unwait(4);
    assert!(r.no_pipes());
    assert_eq!(event_sides(false, false, true, false, false), (true, false));
    assert_eq!(event_sides(false, false, false, false, true), (true, true));
}

#[test]
fn deadlines_wake_sleepers_and_time_operations_out() {
    let mut vm = machine();
    parked(&mut vm, 1, Park::Sleep(1));
    vm.reactor.add_timer(100, 1, 1);
    let s = stream(&mut vm, StreamKind::TcpStream, Some(50));
    vm.task.id = 2;
    let step = vm.settle_io(reading(s), Tried::Block(Interest::Readable), 20);
    let w = match step {
        Step::Park(p) => match *p {
            Park::Io(w) => w,
            other => panic!("{other:?}"),
        },
        other => panic!("{other:?}"),
    };
    assert_eq!((w.deadline, w.token), (Some(70), 1));
    parked(&mut vm, 2, Park::Io(w));
    // One that has moved on is left alone.
    parked(&mut vm, 3, Park::Sleep(9));
    vm.reactor.add_timer(60, 3, 8);
    vm.fire_timers(69);
    assert!(vm.ready.is_empty());
    vm.fire_timers(100);
    assert_eq!(vm.ready.len(), 2);
    assert_eq!(message(&vm, vm.ready[0].pending_raise.expect("an exception")), "TimeoutError: timed out");
    assert_eq!(vm.ready[1].frames[0].stack, vec![Value::Null]);
    assert_eq!(vm.parked.len(), 1);
    assert!(vm.reactor.is_idle());
}

#[test]
fn a_deadline_is_fixed_once() {
    let mut vm = machine();
    let s = stream(&mut vm, StreamKind::TcpStream, Some(50));
    let first = vm.arm_io(0, reading(s), 10).expect("armed");
    let (deadline, seq) = (first.deadline, first.seq);
    let again = vm.arm_io(0, first, 40).expect("armed");
    assert_eq!((again.deadline, again.seq), (deadline, seq));
    assert_eq!(deadline, Some(60));
    assert_eq!(vm.reactor.timers.len(), 1);
}

#[test]
fn closing_a_stream_tells_whoever_waits_on_it() {
    let mut vm = machine();
    let s = stream(&mut vm, StreamKind::TcpStream, None);
    let mut w = reading(s);
    w.token = vm.reactor.arm(None, "TcpStream", Interest::Readable, 5).expect("a token");
    vm.heap.streams[s].token = Some(w.token);
    parked(&mut vm, 5, Park::Io(w));
    let pipe = stream(&mut vm, StreamKind::PipeReader, None);
    parked(&mut vm, 6, Park::Pipe(reading(pipe)));
    vm.reactor.pipe_wait(6);
    assert!(matches!(vm.stream_close(s, None), Step::Next));
    assert_eq!(message(&vm, vm.ready[0].pending_raise.expect("an exception")), "ValueError: read() on a closed TcpStream");
    assert!(matches!(vm.stream_close(pipe, None), Step::Next));
    assert_eq!(message(&vm, vm.ready[1].pending_raise.expect("an exception")), "ValueError: read() on a closed PipeReader");
    assert!(vm.reactor.is_idle() && vm.heap.streams[s].closed);
    let e = VErr { class: Exc::OSError, message: "no".to_string() };
    assert!(matches!(vm.stream_close(s, Some(e)), Step::Fault(_)));
}

#[test]
fn a_ready_operation_lets_the_others_run_now_and_then() {
    let mut vm = machine();
    let s = stream(&mut vm, StreamKind::TcpStream, None);
    for i in 1..=READY_IO_YIELD {
        let step = vm.settle_io(reading(s), Tried::Ready(Value::Int(i as i64)), 0);
        let yields = matches!(&step, Step::Park(p) if matches!(**p, Park::YieldReady));
        assert_eq!(yields, i == READY_IO_YIELD);
    }
    assert_eq!(vm.ready_io_run, 0);
    let e = VErr { class: Exc::OSError, message: "reset".to_string() };
    match vm.settle_io(reading(s), Tried::Failed(e), 0) {
        Step::Fault(e) => assert_eq!((e.class, e.message.as_str()), (Exc::OSError, "reset")),
        other => panic!("{other:?}"),
    }
    let pipe = stream(&mut vm, StreamKind::PipeWriter, None);
    assert!(matches!(vm.settle_io(reading(pipe), Tried::Block(Interest::Readable), 0), Step::Park(p) if matches!(*p, Park::Pipe(_))));
    assert_eq!(vm.reactor.pipe_waiters, vec![0]);
}

#[test]
fn a_suspended_operation_is_retried_until_it_settles() {
    let mut vm = machine();
    let s = stream(&mut vm, StreamKind::TcpStream, None);
    let buf = match vm.heap.alloc_bytes(vec![1, 2, 3]) {
        Value::Bytes(b) => b,
        _ => unreachable!(),
    };
    let mut w = reading(s);
    w.op = IoOp::Write { buf, done: 0 };
    w.token = vm.reactor.arm(None, "TcpStream", Interest::Writable, 5).expect("a token");
    vm.heap.streams[s].token = Some(w.token);
    parked(&mut vm, 5, Park::Io(w));
    assert_eq!(vm.io_ready(1, true, true), vec![5]);
    assert_eq!(vm.io_ready(1, true, false), Vec::<u64>::new());
    assert_eq!(vm.io_ready(9, true, true), Vec::<u64>::new());
    let (w, pipe) = vm.take_wait(5).expect("a wait");
    assert!(!pipe && vm.take_wait(5).is_none());
    let w = match vm.retry_io(5, w, Tried::Wrote(2)) {
        Retry::Again(w) => w,
        other => panic!("{other:?}"),
    };
    assert!(matches!(vm.retry_io(5, w, Tried::Block(Interest::Writable)), Retry::Settled));
    let (w, _) = vm.take_wait(5).expect("a wait");
    assert!(matches!(w.op, IoOp::Write { done: 2, .. }));
    assert!(matches!(vm.retry_io(5, w, Tried::Wrote(1)), Retry::Settled));
    assert_eq!(vm.ready[0].frames[0].stack, vec![Value::Null]);
    assert!(vm.reactor.is_idle() && vm.parked.is_empty());
}

#[test]
fn a_dial_walks_along_its_addresses() {
    let refused = |n: i32| VErr { class: Exc::OSError, message: format!("refused {n}") };
    let mut vm = machine();
    let first = match vm.settle_plan(DialPlan::Connect(vec!["a".to_string(), "b".to_string()]), 0) {
        Step::Host(c) => match c.0 {
            HostCall::Connect(d) => d,
            other => panic!("{other:?}"),
        },
        other => panic!("{other:?}"),
    };
    let second = match vm.settle_connect(first, DialTried::Refused(refused(1)), 0) {
        Step::Host(c) => match c.0 {
            HostCall::Connect(d) => d,
            other => panic!("{other:?}"),
        },
        other => panic!("{other:?}"),
    };
    assert_eq!(second.next, 1);
    match vm.settle_connect(second, DialTried::Refused(refused(2)), 0) {
        Step::Fault(e) => assert_eq!(e.message, "refused 2"),
        other => panic!("{other:?}"),
    }
    match vm.settle_plan(DialPlan::Connect(Vec::new()), 0) {
        Step::Fault(e) => assert_eq!(e.message, "[Errno -2] Name or service not known"),
        other => panic!("{other:?}"),
    }
    // The same for a task that waits for a name.
    assert!(matches!(vm.settle_plan(DialPlan::Lookup("x:1".to_string()), 0), Step::Park(p) if matches!(*p, Park::Dns { id: 1, .. })));
    parked(&mut vm, 0, Park::Dns { id: 1, addr: "x:1".to_string() });
    let (task, d) = vm.lookup_done(1, Ok(vec!["a".to_string(), "b".to_string()])).expect("addresses");
    assert_eq!(task, 0);
    let s = stream(&mut vm, StreamKind::TcpStream, None);
    assert!(vm.connect_woken(0, d, DialTried::InProgress(s, Interest::Writable), 0).is_none());
    let (w, _) = vm.take_wait(0).expect("a wait");
    let d = match vm.retry_io(0, w, Tried::Failed(refused(3))) {
        Retry::Redial(d) => d,
        other => panic!("{other:?}"),
    };
    assert_eq!(d.next, 1);
    let d = vm.redial(0, d, 0).expect("another address");
    assert!(vm.connect_woken(0, d, DialTried::Connected(Value::Stream(s)), 0).is_none());
    assert_eq!(vm.ready[0].frames[0].stack, vec![Value::Stream(s)]);
    assert!(vm.redial(7, Dialing { addrs: Vec::new(), next: 0, last: refused(4) }, 0).is_none());
    assert!(vm.lookup_done(1, Ok(Vec::new())).is_none());
}

#[test]
fn a_dead_reactor_fails_everybody_who_needs_it() {
    let mut vm = machine();
    let s = stream(&mut vm, StreamKind::TcpStream, None);
    parked(&mut vm, 1, Park::Io(reading(s)));
    parked(&mut vm, 2, Park::Recv(0));
    parked(&mut vm, 3, Park::ProcWait(0));
    vm.reactor.proc_wait(3);
    vm.fail_all_io(&VErr { class: Exc::OSError, message: "epoll".to_string() });
    assert_eq!(vm.ready.iter().map(|t| t.id).collect::<Vec<u64>>(), vec![1, 3]);
    assert_eq!(message(&vm, vm.ready[0].pending_raise.expect("an exception")), "OSError: epoll");
    assert_eq!(vm.parked.len(), 1);
    assert!(vm.reactor.is_idle());
}

#[test]
fn waiting_for_a_child_ends_with_its_code() {
    let mut vm = machine();
    let p = match vm.heap.alloc_proc(oro_vm::value::Proc { pid: 42, code: None }) {
        Value::Proc(p) => p,
        _ => unreachable!(),
    };
    assert!(matches!(vm.do_proc_wait(p), Step::Host(c) if matches!(c.0, HostCall::ProcCode(_))));
    assert!(matches!(vm.settle_proc_wait(p, None), Step::Park(q) if matches!(*q, Park::ProcWait(_))));
    parked(&mut vm, 0, Park::ProcWait(p));
    assert_eq!(vm.waits_for_proc(0), Some(p));
    vm.retry_proc(0, 3);
    assert_eq!(vm.ready[0].frames[0].stack, vec![Value::Int(3)]);
    assert!(matches!(vm.do_proc_wait(p), Step::Next));
    assert_eq!(vm.waits_for_proc(0), None);
}

// --- Children ----------------------------------------------------------------

#[test]
fn a_failed_command_shows_the_end_of_its_complaints() {
    let mut vm = machine();
    let request = |check: bool| RunRequest {
        parts: vec!["make".to_string(), "all".to_string()],
        cwd: None,
        env: None,
        timeout: None,
        check,
        quiet: true,
        items: Vec::new(),
    };
    let ended = |code: Option<i64>| RunOutcome::Ended {
        code,
        stdout: vec![1],
        stderr: b"one\ntwo\r\nthree\n\nf\xc3\xb6ur \xff \n\n".to_vec(),
    };
    match vm.settle_run(request(true), ended(Some(2))) {
        Step::Fault(e) => {
            assert_eq!((e.class, e.message.as_str()), (Exc::CommandError, "command failed: make all exited with code 2\n  three\n  \n  f\u{f6}ur \u{fffd}"))
        }
        other => panic!("{other:?}"),
    }
    match vm.settle_run(request(true), RunOutcome::TimedOut("1.5".to_string())) {
        Step::Fault(e) => assert_eq!((e.class, e.message.as_str()), (Exc::TimeoutError, "command timed out after 1.5 seconds")),
        other => panic!("{other:?}"),
    }
    match vm.settle_run(request(true), RunOutcome::Refused(io_err(IoKind::NotFound, "make"))) {
        Step::Fault(e) => {
            assert_eq!((e.class, e.message.as_str()), (Exc::FileNotFoundError, "[Errno 2] No such file or directory: 'make'"))
        }
        other => panic!("{other:?}"),
    }
    assert!(matches!(vm.settle_run(request(false), ended(None)), Step::Next));
    let inst = match vm.pop() {
        Value::Instance(i) => i,
        other => panic!("{other:?}"),
    };
    assert_eq!(vm.heap.field_of(inst, "returncode"), Some(Value::Int(-1)));
    assert_eq!(vm.heap.field_of(inst, "ok"), Some(Value::Bool(false)));
    assert_eq!(vm.heap.field_of(inst, "truncated"), Some(Value::Bool(false)));
    assert_eq!(vm.heap.class_name_of(vm.heap.class_of(inst)), "Completed");
}

#[test]
fn what_is_kept_of_a_stream_is_bounded() {
    let mut kept = vec![7; MAX_CAPTURE_BYTES - 2];
    capture(&mut kept, &[1, 2, 3, 4]);
    assert_eq!(kept.len(), MAX_CAPTURE_BYTES);
    assert_eq!(&kept[MAX_CAPTURE_BYTES - 3..], &[7, 1, 2]);
    capture(&mut kept, &[5]);
    assert_eq!(kept.len(), MAX_CAPTURE_BYTES);
    assert_eq!(watch(true, 10, Some(5)), Watch::Ended);
    assert_eq!(watch(false, 5, Some(5)), Watch::Kill);
    assert_eq!(watch(false, 4, Some(5)), Watch::Again);
    assert_eq!(watch(false, 4, None), Watch::Again);
}

#[test]
fn commands_are_checked_before_they_run() {
    let mut vm = machine();
    let mut text = |s: &str| vm.heap.alloc_str(s.to_string());
    let (git, bad, none) = (text("git"), text("git status"), text(""));
    let lists: Vec<Value> = vec![
        vm.heap.alloc_list(Vec::new()),
        vm.heap.alloc_list(vec![Value::Int(1)]),
        vm.heap.alloc_list(vec![bad]),
        vm.heap.alloc_list(vec![none]),
        vm.heap.alloc_list(vec![git]),
    ];
    let fails = |vm: &Vm, args: Vec<Value>, kwargs: Vec<(String, Value)>| match vm.do_proc_run(args, kwargs) {
        Step::Fault(e) => e.message,
        other => panic!("{other:?}"),
    };
    assert_eq!(fails(&vm, vec![lists[0]], Vec::new()), "proc.run() got an empty argument list");
    assert_eq!(fails(&vm, vec![lists[1]], Vec::new()), "proc.run() arguments must all be strings, got 'int'");
    assert!(fails(&vm, vec![lists[2]], Vec::new()).starts_with("proc.run() program 'git status' contains whitespace"));
    assert!(fails(&vm, vec![lists[3]], Vec::new()).starts_with("proc.run() program '' contains whitespace"));
    assert_eq!(fails(&vm, Vec::new(), Vec::new()), "proc.run() takes a list of strings");
    assert!(fails(&vm, vec![lists[4], git], Vec::new()).contains("but 2 were given"));
    for (k, want) in [
        ("cwd", "proc.run() cwd must be a string"),
        ("env", "proc.run() env must be a dict"),
        ("timeout", "proc.run() timeout must be a number"),
        ("bogus", "proc.run() got an unexpected keyword argument 'bogus'"),
    ] {
        assert_eq!(fails(&vm, vec![lists[4]], vec![(k.to_string(), Value::Null)]), want);
    }
    match vm.do_proc_run(vec![lists[4]], vec![("check".to_string(), Value::Int(0)), ("timeout".to_string(), Value::Int(2))]) {
        Step::Host(c) => match c.0 {
            HostCall::RunProcess(q) => {
                assert_eq!((q.parts, q.check, q.quiet, q.timeout), (vec!["git".to_string()], false, false, Some(Value::Int(2))))
            }
            other => panic!("{other:?}"),
        },
        other => panic!("{other:?}"),
    }
}

// --- Modules -----------------------------------------------------------------

#[test]
fn built_in_modules_have_their_members() {
    let mut h = Heap::new();
    let std = StdStreams { output: 0, errors: 1, input: 2 };
    let n = natives();
    let argv = vec!["a.oro".to_string()];
    for (name, members) in [
        ("time", vec!["time", "sleep", "monotonic"]),
        ("proc", vec!["run"]),
        ("net", vec!["listen", "dial"]),
        ("_io", vec!["buffer", "read_all"]),
        ("_json", vec!["parse", "stringify"]),
        ("re", vec!["search", "findall", "finditer", "fullmatch", "sub", "split", "compile", "match"]),
        ("sys", vec!["exit", "argv", "platform", "stdout", "stderr", "stdin"]),
        ("os", vec!["getcwd", "listdir", "remove", "mkdir", "environ", "path"]),
    ] {
        let m = match build(&mut h, name, &argv, &n.environ, std) {
            Some(Value::Module(m)) => m,
            other => panic!("{other:?}"),
        };
        assert_eq!(h.modules[m].name, name);
        assert_eq!(h.modules[m].members.entries.len(), members.len(), "{name}");
        for k in members {
            assert!(h.modules[m].members.get(k).is_some(), "{name}.{k}");
        }
        if name == "os" {
            let env = h.modules[m].members.get("environ").expect("the environment");
            assert_eq!(render(&h, env), "{'A': '3', 'B': '2'}");
        }
        if name == "sys" {
            assert_eq!(h.modules[m].members.get("stderr"), Some(Value::Stream(1)));
        }
    }
    assert!(build(&mut h, "os.path", &argv, &n.environ, std).is_none());
    assert!(build(&mut h, "nope", &argv, &n.environ, std).is_none());
}

#[test]
fn paths_fall_apart_and_together() {
    for p in ["/a/b.c", "b", "/", "a//b", "x/.rc", "x.y/z", ""] {
        let (dir, base) = (dirname(p), basename(p));
        if p.contains('/') {
            assert_eq!(format!("{dir}/{base}"), p);
        } else {
            assert_eq!((dir.as_str(), base.as_str()), ("", p));
        }
        let (root, ext) = splitext(p);
        assert_eq!(format!("{root}{ext}"), p);
    }
    assert_eq!(splitext("x.y/z").1, "");
    assert_eq!(splitext("a.b.c").1, ".c");
}

#[test]
fn file_errors_name_their_class() {
    for (kind, class, want) in [
        (IoKind::NotFound, Exc::FileNotFoundError, "[Errno 2] No such file or directory: 'f'"),
        (IoKind::PermissionDenied, Exc::PermissionError, "[Errno 13] Permission denied: 'f'"),
        (IoKind::AlreadyExists, Exc::OSError, "[Errno 17] File exists: 'f'"),
        (IoKind::Other, Exc::OSError, "[Errno 0] OS error: 'f'"),
    ] {
        let e = io_err(kind, "f");
        assert_eq!((e.class, e.message.as_str()), (class, want));
    }
    assert_eq!(display_name("http"), "<std/http.oro>");
    let table = shipped();
    for (name, want) in [("io", "pass\n"), ("json", "j"), ("http", "h"), ("base64", "b"), ("html", "m")] {
        assert_eq!(source_for(&table, name), Some(want));
        assert!(build(&mut Heap::new(), name, &Vec::new(), &Vec::new(), machine().std_streams).is_none());
    }
    for name in ["sys", "os", "time", "re", "proc", "net", "_io", "_json"] {
        assert_eq!(source_for(&table, name), None);
        assert!(build(&mut Heap::new(), name, &Vec::new(), &Vec::new(), machine().std_streams).is_some());
    }
    assert_eq!(source_for(&table, "Io"), None);
    assert_eq!(source_for(&table, ""), None);
}

#[test]
fn a_file_never_stands_in_for_a_shipped_module() {
    let mut vm = machine();
    vm.import_root = "/srv".to_string();
    for (path, want) in [("io", ("<std/io.oro>", true)), ("a.b.c", ("/srv/a/b/c.oro", false))] {
        match vm.import_module(path) {
            Step::Host(c) => match c.0 {
                HostCall::LoadModule(p, origin, source) => {
                    assert_eq!((p.as_str(), origin.as_str(), source.is_some()), (path, want.0, want.1))
                }
                other => panic!("{other:?}"),
            },
            other => panic!("{other:?}"),
        }
    }
    match vm.settle_import("m", oro_vm::imports::Loaded::Broken("line 1".to_string())) {
        Step::Raise(exc) => assert_eq!(message(&vm, exc), "ImportError: error importing 'm': line 1"),
        other => panic!("{other:?}"),
    }
    match vm.settle_import("m", oro_vm::imports::Loaded::Missing) {
        Step::Raise(exc) => assert_eq!(message(&vm, exc), "ModuleNotFoundError: No module named 'm'"),
        other => panic!("{other:?}"),
    }
}

// --- Channels ----------------------------------------------------------------

#[test]
fn a_channel_is_first_in_first_out() {
    let mut vm = machine();
    assert!(matches!(vm.do_chan(vec![Value::Int(2)], Vec::new()), Step::Next));
    let ch = match vm.pop() {
        Value::Channel(c) => c,
        other => panic!("{other:?}"),
    };
    for n in [1, 2] {
        assert!(matches!(vm.chan_send(ch, Value::Int(n)), Step::Next));
        assert_eq!(vm.pop(), Value::Null);
    }
    assert!(matches!(vm.chan_send(ch, Value::Int(3)), Step::Park(_)));
    parked(&mut vm, 0, Park::Send(ch));
    assert!(matches!(vm.chan_recv(ch), Step::Next));
    assert_eq!(vm.pop(), Value::Int(1));
    // The blocked sender got the room, and runs.
    assert_eq!(vm.ready.len(), 1);
    assert!(matches!(vm.chan_close(ch), Step::Next));
    vm.pop();
    for n in [2, 3] {
        assert!(matches!(vm.chan_recv(ch), Step::Next));
        assert_eq!(vm.pop(), Value::Int(n));
    }
    match vm.chan_recv(ch) {
        Step::Raise(exc) => assert_eq!(message(&vm, exc), "ChannelClosed: channel is closed"),
        other => panic!("{other:?}"),
    }
}

// --- Running -----------------------------------------------------------------

#[test]
fn code_no_compiler_makes_is_refused() {
    for ops in [
        vec![Op::Pop],
        vec![Op::LoadConst(0)],
        vec![Op::Jump(9)],
        vec![Op::LoadNone, Op::Yield],
        vec![Op::Break],
        vec![Op::EndFinally],
        vec![Op::LoadHandling],
        vec![Op::CallMethod(0)],
        vec![],
    ] {
        let (_, out) = run(Heap::new(), natives(), code(ops, Vec::new()), 100);
        assert!(matches!(out, Outcome::Malformed));
    }
}

#[test]
fn a_pause_changes_nothing() {
    let ops = vec![Op::LoadConst(0), Op::StoreFast(0), Op::LoadFast(0), Op::Return];
    let (p, out) = run(Heap::new(), natives(), code(ops.clone(), vec![Value::Int(5)]), 100);
    assert!(matches!(out, Outcome::Ended(Ok(Value::Int(5)))));
    assert_eq!(p.vm.task.last_locals, vec![Value::Int(5)]);
    let (mut p, mut out) = run(Heap::new(), natives(), code(ops, vec![Value::Int(5)]), 1);
    let mut pauses = 0;
    while let Outcome::Paused(s) = out {
        pauses += 1;
        out = p.vm.resume(&mut p.run, s, 1, 1);
    }
    assert!(matches!(out, Outcome::Ended(Ok(Value::Int(5)))));
    assert_eq!(pauses, 4);
}

#[test]
fn a_script_finds_its_modules_beside_it() {
    for (argv0, want) in [("/srv/app/main.oro", "/srv/app"), ("main.oro", ""), ("/main.oro", "/"), ("a/b.oro", "a"),
        ("a/./b.oro", "a"), ("x/", ""), ("/", ""), ("", ""), (".", ""), ("./b.oro", "."), ("a//b.oro/.", "a"), ("../b.oro", ".."), ("//b.oro", "/"), (".//./b.oro", ".")] {
        let c = code(vec![Op::LoadNone, Op::Return], Vec::new());
        let (p, out) = run_main(Heap::new(), natives(), c, vec![argv0.to_string()], 10);
        assert!(matches!(out, Outcome::Ended(Ok(_))));
        assert_eq!(p.vm.import_root, want);
        assert_eq!(p.vm.argv, vec![argv0.to_string()]);
    }
}

#[test]
fn turns_go_round_and_nobody_is_lost() {
    let mut vm = machine();
    let mut r = new_run();
    parked(&mut vm, 1, Park::Recv(0));
    vm.reactor.add_timer(5, 1, 1);
    vm.task.id = 7;
    assert!(vm.settle_slice(&mut r, Slice::Parked(Box::new(Park::Yield))).is_none());
    assert_eq!((vm.ready.len(), vm.parked.len()), (1, 1));
    assert!(matches!(vm.pick(&mut r), oro_vm::program::Picked::Task));
    assert_eq!(vm.task.id, 7);
    assert_eq!(vm.task.frames[0].stack, vec![Value::Null]);
    assert!(vm.settle_slice(&mut r, Slice::Parked(Box::new(Park::Recv(0)))).is_none());
    assert!(matches!(vm.pick(&mut r), oro_vm::program::Picked::Wait));
    assert_eq!(vm.poll_timeout(2), Some(3));
    assert_eq!(vm.poll_timeout(9), Some(0));
    vm.reactor.pipe_wait(1);
    vm.reactor.timers.clear();
    assert_eq!(vm.poll_timeout(0), Some(20));
    let due = (0..128).filter(|_| vm.poll_due()).count();
    assert_eq!(due, 2);
}

#[test]
fn not_and_or_go_by_what_counts_as_true() {
    for (v, truth) in [(Value::Int(0), false), (Value::Int(3), true), (Value::Null, false), (Value::Bool(true), true)] {
        let mut vm = machine();
        vm.push(v);
        assert!(matches!(vm.step(Op::UnaryNot), Step::Next));
        assert_eq!(vm.task.frames[0].stack, vec![Value::Bool(!truth)]);

        let mut vm = machine();
        vm.push(v);
        assert!(matches!(vm.step(Op::JumpIfTrueOrPop(1)), Step::Next));
        assert_eq!((vm.task.frames[0].stack.len(), vm.task.frames[0].pc), if truth { (1, 1) } else { (0, 0) });

        let mut vm = machine();
        vm.push(v);
        assert!(matches!(vm.step(Op::JumpIfFalseOrPop(1)), Step::Next));
        assert_eq!((vm.task.frames[0].stack.len(), vm.task.frames[0].pc), if truth { (0, 0) } else { (1, 1) });

        let mut vm = machine();
        vm.push(v);
        assert!(matches!(vm.step(Op::AssertBool), Step::Next));
        assert_eq!(vm.task.frames[0].stack, vec![v]);
    }
    let mut vm = machine();
    vm.push(Value::Int(0));
    match vm.step(Op::PopJumpIfFalse(1)) {
        Step::Fault(e) => assert!(e.message.starts_with("a condition must be a bool, not 'int'"), "{}", e.message),
        other => panic!("{other:?}"),
    }
}

#[test]
fn retired_frames_leave_nothing_behind() {
    let mut vm = machine();
    let c = code(vec![Op::LoadNone, Op::Return], Vec::new());
    for k in 0..200i64 {
        let mut f = vm.take_frame(c.clone(), &Vec::new());
        f.locals[0] = Value::Int(k);
        f.stack.push(Value::Int(k));
        f.super_ctx = Some((0, Value::Int(k)));
        vm.recycle(f);
        assert_eq!(vm.frame_pool.len(), 1);
        assert!(vm.frame_pool[0].locals.is_empty() && vm.frame_pool[0].stack.is_empty() && vm.frame_pool[0].super_ctx.is_none());
    }
    let frames: Vec<_> = (0..200).map(|_| vm.take_frame(c.clone(), &vec![7])).collect();
    assert_eq!(vm.frame_pool.len(), 0);
    for f in frames {
        assert_eq!((f.pc, &f.locals, &f.free, f.stack.len(), f.blocks.len()), (0, &vec![Value::Unbound], &vec![7], 0, 0));
        assert!(f.super_ctx.is_none());
        vm.recycle(f);
    }
    assert_eq!(vm.frame_pool.len(), 128);
    vm.take_frame(c, &Vec::new());
    assert_eq!(vm.frame_pool.len(), 127);
}

#[test]
fn repeating_goes_round_either_way() {
    let mut h = Heap::new();
    let b = h.alloc_bytes(b"ab".to_vec());
    let l = h.alloc_list(vec![Value::Int(1), Value::Null, Value::Int(3)]);
    for (s, n, want) in [
        (b, Value::Int(3), "b'ababab'"),
        (b, Value::Int(-1), "b''"),
        (b, Value::Bool(true), "b'ab'"),
        (l, Value::Int(2), "[1, null, 3, 1, null, 3]"),
        (l, Value::Bool(false), "[]"),
    ] {
        for (x, y) in [(s, n), (n, s)] {
            match binary(&mut h, BinOp::Mul, x, y) {
                Ok(Arith::Done(v)) => assert_eq!(render(&h, v), want),
                other => panic!("{other:?}"),
            }
        }
        assert_eq!((render(&h, b).as_str(), render(&h, l).as_str()), ("b'ab'", "[1, null, 3]"));
    }
}

#[test]
fn shifting_back_gives_the_number_again() {
    let mut h = Heap::new();
    let shifted = |h: &mut Heap, op: BinOp, v: Value, n: i64| match binary(h, op, v, Value::Int(n)) {
        Ok(Arith::Done(w)) => w,
        other => panic!("{other:?}"),
    };
    for x in [0, 1, -1, 5, -7, i64::MAX, i64::MIN] {
        for n in [0, 1, 31, 63, 64, 1000] {
            let l = shifted(&mut h, BinOp::Shl, Value::Int(x), n);
            assert_eq!(shifted(&mut h, BinOp::Shr, l, n), Value::Int(x));
            if n >= 63 {
                assert_eq!(shifted(&mut h, BinOp::Shr, Value::Int(x), n), Value::Int(if x < 0 { -1 } else { 0 }));
            }
        }
    }
    let l = shifted(&mut h, BinOp::Shl, Value::Int(-3), 70);
    assert_eq!(render(&h, l), "-3541774862152233910272");
    assert_eq!(shifted(&mut h, BinOp::Shr, Value::Int(-7), 1), Value::Int(-4));
}

#[test]
fn sorting_asks_few_questions() {
    for n in [0usize, 1, 2, 3, 5, 8, 100, 129] {
        let bound = n * (0..).find(|k| 1usize << k >= n).expect("a power");
        for spread in [1, 7, 1000] {
            let keys: Vec<usize> = (0..n).map(|i| i * 7919 % (spread + i % 3)).collect();
            let mut asked = 0;
            let (mut s, mut q) = Sorter::new(n).step(false, None);
            while let Some((x, y)) = q {
                asked += 1;
                (s, q) = s.step(false, Some(keys[x] < keys[y]));
            }
            assert!(asked <= bound, "{n}: {asked}");
            let mut want: Vec<usize> = (0..n).collect();
            want.sort_by_key(|i| keys[*i]);
            assert_eq!(s.places(), want);
        }
    }
}

#[test]
fn collecting_spends_one_iterator_and_no_other() {
    let mut h = Heap::new();
    let l = h.alloc_list(vec![Value::Int(1), Value::Int(2)]);
    let (a, b) = (get_iter(&mut h, l).expect("an iterator"), get_iter(&mut h, l).expect("an iterator"));
    assert_eq!(iter_next(&mut h, a).expect("a step"), Some(Value::Int(1)));
    assert_eq!(iterate_to_vec(&mut h, a).expect("the rest"), vec![Value::Int(2)]);
    assert_eq!(iter_next(&mut h, a).expect("a step"), None);
    assert_eq!(iterate_to_vec(&mut h, a).expect("nothing"), vec![]);
    assert_eq!(iterate_to_vec(&mut h, l).expect("all"), vec![Value::Int(1), Value::Int(2)]);
    assert_eq!(iter_next(&mut h, b).expect("a step"), Some(Value::Int(1)));
}

#[test]
fn a_module_is_a_file_below_the_root() {
    for (root, name, want) in [
        ("", "m", "m.oro"),
        ("/srv", "a.b.c", "/srv/a/b/c.oro"),
        ("/", "m", "/m.oro"),
        (".", "m", "./m.oro"),
        ("r.d", "m", "r.d/m.oro"),
        ("r", "a..b", "r/a/b.oro"),
        ("r", "a.", "r/a.oro"),
        ("r.d", "", "r.oro"),
        ("..", "", "../"),
        ("", "", ""),
    ] {
        assert_eq!(render_module_file(root, name), want, "{root:?} {name:?}");
    }
}

#[test]
fn writing_nothing_is_done_at_once() {
    let mut vm = machine();
    let s = stream(&mut vm, StreamKind::TcpStream, None);
    vm.heap.streams[s].closed = true;
    let none = vm.heap.alloc_bytes(Vec::new());
    assert!(matches!(vm.stream_io_method(s, "write", &vec![none], &Vec::new()), Some(Step::Next)));
    assert_eq!(vm.pop(), Value::Null);
    let some = vm.heap.alloc_bytes(vec![1]);
    match vm.stream_io_method(s, "write", &vec![some], &Vec::new()) {
        Some(Step::Fault(e)) => assert_eq!(e.class, Exc::ValueError),
        other => panic!("{other:?}"),
    }
}

#[test]
fn native_sorting_orders_plain_keys_and_refuses_mixed_ones() {
    let mut h = Heap::new();
    let (a, b) = (h.alloc_str("b".to_string()), h.alloc_str("a".to_string()));
    let ints = vec![Value::Int(3), Value::Int(1), Value::Int(2), Value::Bool(true)];
    assert_eq!(sort_native(&h, &ints, false).expect("an order"), vec![1, 3, 2, 0]);
    assert_eq!(sort_native(&h, &ints, true).expect("an order"), vec![0, 2, 1, 3]);
    assert_eq!(sort_native(&h, &vec![a, b], false).expect("an order"), vec![1, 0]);
    let e = sort_native(&h, &vec![Value::Int(1), a], false).expect_err("no order");
    assert_eq!((e.class, e.message.as_str()), (Exc::TypeError, "'<' not supported between instances of 'str' and 'int'"));
}

#[test]
fn the_class_of_a_finished_child_is_plain() {
    let vm = machine();
    let c = &vm.heap.classes[vm.proc_class];
    assert!(c.name == "Completed" && c.base.is_none() && c.members.entries.is_empty() && !c.is_exception);
}

#[test]
fn printing_goes_by_the_first_member_found() {
    let mut vm = machine();
    let mut members = Fields::new();
    members.insert("__str__".to_string(), Value::Int(5));
    let class = vm.heap.classes.len();
    vm.heap.alloc_class(Class { name: "Q".to_string(), base: None, members, is_exception: false });
    let q = vm.heap.alloc_instance(Instance { class, fields: Fields::new() });
    assert!(matches!(vm.do_print(vec![q, Value::Int(1)], Vec::new()), Step::Drive(_)));
    assert!(matches!(vm.drive_print(), Step::Drive(_)));
    assert!(matches!(vm.drive_print(), Step::Drive(_)));
    match vm.drive_print() {
        Step::Host(c) => assert!(matches!(c.0, HostCall::Print(t) if t == "<Q object> 1\n")),
        other => panic!("{other:?}"),
    }
}
