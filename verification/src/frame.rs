//! Activation records.
use vstd::prelude::*;
use std::rc::Rc;
use crate::code::CodeObject;
use crate::value::Value;

verus! {

/// Depths of the job stacks of a task.
#[derive(Clone, Copy, Debug, PartialEq, Eq, Structural)]
pub struct JobDepths {
    pub prints: usize,
    pub texts: usize,
    pub seqs: usize,
    pub mats: usize,
    pub compares: usize,
    pub orders: usize,
}

/// What a block on a frame's block stack is for.
#[derive(Clone, Copy, Debug, PartialEq, Eq, Structural)]
pub enum BlockKind {
    /// A `try` with `except` clauses.
    Except,
    /// A `try` with a `finally`.
    Finally,
    /// A loop; `cont` is where `continue` goes.
    Loop { cont: usize },
}

/// A block entered and not left yet.
#[derive(Clone, Copy, Debug, PartialEq, Eq, Structural)]
pub struct Block {
    pub kind: BlockKind,
    /// Where control goes when the block is left by an exception or a `break`.
    pub target: usize,
    /// The depth of the operand stack on entry.
    pub stack_len: usize,
    /// The depths of the job stacks on entry.
    pub jobs: JobDepths,
}

/// What becomes of the value a frame returns.
#[derive(Clone, Copy, Debug, PartialEq, Eq, Structural)]
pub enum ReturnAction {
    /// Push it on the caller's stack.
    Normal,
    /// It must be null: the instance is on the caller's stack already.
    DropForInit,
    /// It is the text of the next argument of the running `print`.
    DrivePrint,
    /// It is the text of the next instance of the running rendering.
    DriveText,
    /// Push the opposite of its truth.
    NegateBool,
    /// Format it by the spec in this string, then push.
    FormatSpec(usize),
    /// It is the callback result the running collection step waits for.
    DriveSeq,
    /// It is the answer of a comparison method the running comparison waits for.
    DriveCompare,
    /// A module body ended; the string is the module's path.
    BuildModule(usize),
}

/// A single activation record.
#[derive(Debug)]
pub struct Frame {
    pub code: Rc<CodeObject>,
    pub pc: usize,
    pub locals: Vec<Value>,
    /// Cells this frame owns.
    pub cells: Vec<usize>,
    /// Cells captured from enclosing frames.
    pub free: Vec<usize>,
    pub stack: Vec<Value>,
    pub ret_action: ReturnAction,
    /// In a method body: the class it is defined in, and the receiver.
    pub super_ctx: Option<(usize, Value)>,
    pub blocks: Vec<Block>,
}

} // verus!
