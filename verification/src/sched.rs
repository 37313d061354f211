//! The scheduler: which task runs, and what wakes the others.
use vstd::prelude::*;
use crate::exc::VErr;
use crate::machine::Task;

verus! {

/// Which readiness an operation waits for.
#[derive(Clone, Copy, Debug, PartialEq, Eq, Structural)]
pub enum Interest {
    Readable,
    Writable,
}

/// A stream operation and how far it has got.
#[derive(Debug)]
pub enum IoOp {
    Accept,
    /// A connect in flight, and the addresses left to try after it.
    Connect { addrs: Vec<String>, next: usize },
    Read(i64),
    ReadUntil { delim: usize, limit: i64, acc: Vec<u8> },
    /// `done` octets of the bytes object `buf` have gone.
    Write { buf: usize, done: usize },
}

/// A stream operation that could not finish yet.
#[derive(Debug)]
pub struct IoWait {
    pub stream: usize,
    pub op: IoOp,
    pub interest: Interest,
    pub token: usize,
    pub deadline: Option<u64>,
    /// Names this operation to its timer; 0 until it first blocks.
    pub seq: u64,
}

/// A walk along the addresses of a name, up to the first that answers.
#[derive(Debug)]
pub struct Dialing {
    pub addrs: Vec<String>,
    /// The address to try now.
    pub next: usize,
    /// What the one before it said.
    pub last: VErr,
}

/// What a suspended task waits for.
#[derive(Debug)]
pub enum Park {
    Recv(usize),
    /// A `for` over a channel, with the loop's exit target; it may want an
    /// index with each element.
    IterRecv { chan: usize, target: usize, paired: bool },
    Send(usize),
    Join(usize),
    Import(String),
    Io(IoWait),
    Pipe(IoWait),
    ProcWait(usize),
    Sleep(u64),
    Dns { id: u64, addr: String },
    /// Nothing; its result is on the stack already.
    YieldReady,
    /// Nothing.
    Yield,
}

/// A suspended task and what it waits for.
#[derive(Debug)]
pub struct Parked {
    pub task: Task,
    pub park: Park,
}

} // verus!
