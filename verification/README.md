# oro_vm

The virtual machine of the Oro language as a verified library: a stack machine
with exceptions, generators, closures and classes, and above it a cooperative
scheduler with channels, timers and streams.

Every function in `src/` carries a contract that Verus proves, but for two small
wrappers, round `String::push` and `String::from_utf8_lossy`, whose contracts are
taken on trust. The contracts
speak of the whole machine before and after: what an instruction does, what a
call binds, which handler an exception finds, who is woken and in which order.

## How it runs

The machine never touches the world, and a call in the language never recurses
on the native stack.
A move of the running task gives a `Step`; a step that needs the outside
(floating point, a native function, a descriptor, the clock, a child, a module's
source) becomes a request, and the run stops with it. The host answers with
plain values and resumes.

    program::run / run_main   start a program
    Vm::resume                go on until the host is needed
    Vm::settle_* / deliver    hand the host's answer over

`app/` is such a host: it waits with `mio`, looks names up on threads, runs
children and computes in floating point. The language's own native library and
its compiler are whatever implements `Library` there.

## Layout

- `text`, `bigint`, `number`, `arith`, `arithlaws`: text and exact integers
- `value`, `fields`, `names`, `repr`: values, the heap, and how values read
- `keys`, `keylaws`, `relation`, `membership`, `index`, `iter`: dicts,
  comparison, subscripts, iteration
- `code`, `frame`, `machine`, `ops`, `objects`, `step`, `run`: code and its
  execution
- `bind`, `call`, `attr`, `dispatch`, `generate`: calls
- `control`, `flow`, `exc`, `exceptions`: blocks, unwinding, exceptions
- `seqop`, `chain`, `fusion`, `collect`, `order`, `sorting`, `deep`, `texting`:
  work that runs callbacks, and so stops and goes on
- `wake`, `channel`, `tasks`, `sched`, `reactor`, `streams`, `waiting`,
  `program`: tasks and what they wait for
- `imports`, `paths`, `modules`, `stdlib`, `process`: modules and children
- `laws`, `orderlaws`, `readback`, `isolation`: what holds across all of it
