//! Compiled code: instructions and the tables they index.
use vstd::prelude::*;
use std::rc::Rc;
use crate::value::Value;

verus! {

/// A comparison operator.
#[derive(Clone, Copy, Debug, PartialEq, Eq, Structural)]
pub enum RelOp {
    Eq,
    NotEq,
    Lt,
    Gt,
    LtEq,
    GtEq,
    In,
    NotIn,
}

/// A binary arithmetic or bitwise operator.
#[derive(Clone, Copy, Debug, PartialEq, Eq, Structural)]
pub enum BinOp {
    Add,
    Sub,
    Mul,
    Div,
    FloorDiv,
    Mod,
    Pow,
    BitAnd,
    BitOr,
    BitXor,
    Shl,
    Shr,
}

/// How a value is rendered inside an f-string.
#[derive(Clone, Copy, Debug, PartialEq, Eq, Structural)]
pub enum Conv {
    Display,
    Repr,
}

/// One instruction.
#[derive(Clone, Copy, Debug, PartialEq, Eq, Structural)]
pub enum Op {
    LoadConst(u32),
    LoadNone,
    LoadFast(u32),
    StoreFast(u32),
    LoadCell(u32),
    StoreCell(u32),
    LoadFree(u32),
    StoreFree(u32),
    LoadGlobal(u32),
    Pop,
    Dup,
    DupTwo,
    RotTwo,
    /// `[a, b, c]` becomes `[c, a, b]`.
    RotThree,
    UnaryNeg,
    UnaryPos,
    UnaryNot,
    UnaryInvert,
    /// Ends the right operand of `and` and `or`, which may be any value.
    AssertBool,
    Binary(BinOp),
    Compare(RelOp),
    Jump(u32),
    /// A pair of a parameter and the target taken when it is bound already.
    DefaultIfBound(u32),
    PopJumpIfFalse(u32),
    PopJumpIfTrue(u32),
    JumpIfFalseOrPop(u32),
    JumpIfTrueOrPop(u32),
    BuildList(u32),
    BuildTuple(u32),
    BuildMap(u32),
    ListAppend,
    MapSetItem,
    LoadSubscript,
    StoreSubscript,
    LoadSlice,
    LoadAttr(u32),
    StoreAttr(u32),
    BuildClass(u32),
    ImportModule(u32),
    LoadSuper,
    UnpackSequence(u32),
    FormatValue(Conv),
    BuildString(u32),
    /// A pair of a constant dict of targets and the default target.
    MatchDispatch(u32),
    GetIter,
    /// The next index and element as a pair, or the exit target.
    ForIter(u32),
    /// The next element, or the exit target.
    ForEach(u32),
    MakeFunction(u32),
    Call(u32),
    CallEx,
    LoadMethod(u32),
    /// A pair of a name and an argument count with the chain bits on top.
    CallMethod(u32),
    Return,
    Yield,
    SetupExcept(u32),
    SetupFinally(u32),
    PopBlock,
    /// A pair of the target after the loop and the continue target.
    SetupLoop(u32),
    Break,
    Continue,
    Raise,
    Reraise,
    LoadHandling,
    EndHandler,
    ExcMatch,
    BeginFinally,
    EndFinally,
}

/// A step whose result feeds the next step of the same chain and nothing else.
pub const CHAIN_HINT: u32 = 0x8000_0000;

/// A step that runs what an earlier step of its chain deferred.
pub const CHAIN_FLUSH: u32 = 0x4000_0000;

/// Where a variable lives in its frame.
#[derive(Clone, Copy, Debug, PartialEq, Eq, Structural)]
pub enum VarTarget {
    Local(u32),
    Cell(u32),
}

/// Where a closure finds a captured cell in the frame that makes it.
#[derive(Clone, Copy, Debug, PartialEq, Eq, Structural)]
pub enum CaptureSource {
    Cell(u32),
    Free(u32),
}

/// A declared parameter.
#[derive(Debug)]
pub struct Param {
    pub name: String,
    pub has_default: bool,
    pub target: VarTarget,
}

/// A function to be closed over the frame that makes it.
#[derive(Debug)]
pub struct Proto {
    pub code: Rc<CodeObject>,
    pub captures: Vec<CaptureSource>,
}

/// A class to be assembled from the values on the stack.
#[derive(Debug)]
pub struct ClassSpec {
    pub name: String,
    pub has_base: bool,
    pub members: Vec<String>,
}

/// A compiled function or module body.
#[derive(Debug)]
pub struct CodeObject {
    pub name: String,
    /// The file the code was compiled from.
    pub source: Rc<String>,
    pub ops: Vec<Op>,
    /// Line and column of each instruction.
    pub spans: Vec<(u32, u32)>,
    pub consts: Vec<Value>,
    pub names: Vec<String>,
    pub pairs: Vec<(u32, u32)>,
    pub params: Vec<Param>,
    /// The defaults of the last parameters; `Unbound` where the default is an
    /// expression the prologue evaluates.
    pub defaults: Vec<Value>,
    /// Where surplus positional arguments go, as a tuple.
    pub varargs: Option<VarTarget>,
    /// Where surplus keyword arguments go, as a dict.
    pub kwvars: Option<VarTarget>,
    pub protos: Vec<Proto>,
    pub classes: Vec<ClassSpec>,
    pub nlocals: usize,
    pub ncells: usize,
    pub is_generator: bool,
    /// Locals that shadow a module-level name, with that name.
    pub shadow_hints: Vec<(u32, String)>,
    /// A module body's names and where each is kept.
    pub module_names: Vec<(String, VarTarget)>,
}

impl CodeObject {
    /// How many parameters have no default.
    pub open spec fn spec_required(&self) -> nat {
        if self.defaults@.len() <= self.params@.len() {
            (self.params@.len() - self.defaults@.len()) as nat
        } else {
            0
        }
    }

    /// How many parameters have no default.
    pub fn required(&self) -> (r: usize)
        ensures r == self.spec_required(), r <= self.params.len(),
    {
        if self.defaults.len() <= self.params.len() {
            self.params.len() - self.defaults.len()
        } else {
            0
        }
    }

    /// The place of the first parameter called `name`.
    pub open spec fn spec_param(&self, name: Seq<char>) -> Option<int> {
        first_param(self.params@, name, 0)
    }

    /// The place of the first parameter called `name`.
    pub fn param_position(&self, name: &str) -> (r: Option<usize>)
        ensures
            match r {
                Some(i) => self.spec_param(name@) == Some(i as int) && i < self.params.len(),
                None => self.spec_param(name@) == None::<int>,
            },
    {
        let mut i: usize = 0;
        while i < self.params.len()
            invariant
                i <= self.params.len(),
                self.spec_param(name@) == first_param(self.params@, name@, i as int),
            decreases self.params.len() - i,
        {
            if crate::text::same_text(self.params[i].name.as_str(), name) {
                return Some(i);
            }
            i += 1;
        }
        None
    }
}

/// The first place from `from` on of a parameter called `name`.
pub open spec fn first_param(params: Seq<Param>, name: Seq<char>, from: int) -> Option<int>
    decreases params.len() - from,
{
    if from < 0 || from >= params.len() {
        None
    } else if params[from].name@ == name {
        Some(from)
    } else {
        first_param(params, name, from + 1)
    }
}

} // verus!
