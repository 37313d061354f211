//! Collection operations: which there are, what they keep, and the job that a
//! running one is.
use vstd::prelude::*;
use crate::text::same_text;
use crate::value::Value;

verus! {

/// A collection operation.
#[derive(Clone, Copy, Debug, PartialEq, Eq, Structural)]
pub enum SeqOp {
    /// Rebuild the collection from each callback result.
    Mapping,
    /// Keep the elements whose callback result is true.
    Filter,
    /// Like `Mapping`, but each result is a sequence, and they are joined.
    FlatMap,
    /// Reorder by the callback's value, stably.
    SortBy,
    /// Bucket elements into a dict by the callback's value.
    GroupBy,
    /// Split into those that match and the rest.
    Partition,
    /// The first element that matches, or null.
    Find,
    Any,
    All,
    /// How many callback results are true.
    Count,
    MinBy,
    MaxBy,
    /// Drop elements whose callback value was seen before.
    UniqueBy,
    /// The longest leading run that matches.
    TakeWhile,
    /// What follows the longest leading run that matches.
    DropWhile,
    /// Thread an accumulator through.
    Reduce,
    /// Not a method: the end of a fused chain that has no callback.
    Collect,
}

impl SeqOp {
    /// The operation's name.
    pub open spec fn spec_name(self) -> Seq<char> {
        match self {
            SeqOp::Mapping => "map"@,
            SeqOp::Filter => "filter"@,
            SeqOp::FlatMap => "flat_map"@,
            SeqOp::SortBy => "sort_by"@,
            SeqOp::GroupBy => "group_by"@,
            SeqOp::Partition => "partition"@,
            SeqOp::Find => "find"@,
            SeqOp::Any => "any"@,
            SeqOp::All => "all"@,
            SeqOp::Count => "count"@,
            SeqOp::MinBy => "min_by"@,
            SeqOp::MaxBy => "max_by"@,
            SeqOp::UniqueBy => "unique_by"@,
            SeqOp::TakeWhile => "take_while"@,
            SeqOp::DropWhile => "drop_while"@,
            SeqOp::Reduce => "reduce"@,
            SeqOp::Collect => "take"@,
        }
    }

    /// The operation's name.
    pub fn name(self) -> (r: &'static str)
        ensures r@ == self.spec_name(),
    {
        match self {
            SeqOp::Mapping => "map",
            SeqOp::Filter => "filter",
            SeqOp::FlatMap => "flat_map",
            SeqOp::SortBy => "sort_by",
            SeqOp::GroupBy => "group_by",
            SeqOp::Partition => "partition",
            SeqOp::Find => "find",
            SeqOp::Any => "any",
            SeqOp::All => "all",
            SeqOp::Count => "count",
            SeqOp::MinBy => "min_by",
            SeqOp::MaxBy => "max_by",
            SeqOp::UniqueBy => "unique_by",
            SeqOp::TakeWhile => "take_while",
            SeqOp::DropWhile => "drop_while",
            SeqOp::Reduce => "reduce",
            SeqOp::Collect => "take",
        }
    }

    /// The operation a name stands for.
    pub open spec fn named(name: Seq<char>) -> Option<SeqOp> {
        if name == "map"@ {
            Some(SeqOp::Mapping)
        } else if name == "filter"@ {
            Some(SeqOp::Filter)
        } else if name == "flat_map"@ {
            Some(SeqOp::FlatMap)
        } else if name == "sort_by"@ {
            Some(SeqOp::SortBy)
        } else if name == "group_by"@ {
            Some(SeqOp::GroupBy)
        } else if name == "partition"@ {
            Some(SeqOp::Partition)
        } else if name == "find"@ {
            Some(SeqOp::Find)
        } else if name == "any"@ {
            Some(SeqOp::Any)
        } else if name == "all"@ {
            Some(SeqOp::All)
        } else if name == "count"@ {
            Some(SeqOp::Count)
        } else if name == "min_by"@ {
            Some(SeqOp::MinBy)
        } else if name == "max_by"@ {
            Some(SeqOp::MaxBy)
        } else if name == "unique_by"@ {
            Some(SeqOp::UniqueBy)
        } else if name == "take_while"@ {
            Some(SeqOp::TakeWhile)
        } else if name == "drop_while"@ {
            Some(SeqOp::DropWhile)
        } else if name == "reduce"@ {
            Some(SeqOp::Reduce)
        } else {
            None
        }
    }

    /// The operation a name stands for.
    pub fn from_name(name: &str) -> (r: Option<SeqOp>)
        ensures r == SeqOp::named(name@),
    {
        if same_text(name, "map") {
            Some(SeqOp::Mapping)
        } else if same_text(name, "filter") {
            Some(SeqOp::Filter)
        } else if same_text(name, "flat_map") {
            Some(SeqOp::FlatMap)
        } else if same_text(name, "sort_by") {
            Some(SeqOp::SortBy)
        } else if same_text(name, "group_by") {
            Some(SeqOp::GroupBy)
        } else if same_text(name, "partition") {
            Some(SeqOp::Partition)
        } else if same_text(name, "find") {
            Some(SeqOp::Find)
        } else if same_text(name, "any") {
            Some(SeqOp::Any)
        } else if same_text(name, "all") {
            Some(SeqOp::All)
        } else if same_text(name, "count") {
            Some(SeqOp::Count)
        } else if same_text(name, "min_by") {
            Some(SeqOp::MinBy)
        } else if same_text(name, "max_by") {
            Some(SeqOp::MaxBy)
        } else if same_text(name, "unique_by") {
            Some(SeqOp::UniqueBy)
        } else if same_text(name, "take_while") {
            Some(SeqOp::TakeWhile)
        } else if same_text(name, "drop_while") {
            Some(SeqOp::DropWhile)
        } else if same_text(name, "reduce") {
            Some(SeqOp::Reduce)
        } else {
            None
        }
    }

    /// Whether the answer has the receiver's type; the others reshape the data.
    pub open spec fn spec_preserves_shape(self) -> bool {
        self == SeqOp::Mapping || self == SeqOp::Filter || self == SeqOp::SortBy || self == SeqOp::UniqueBy
            || self == SeqOp::TakeWhile || self == SeqOp::DropWhile || self == SeqOp::Collect
    }

    /// Whether the answer has the receiver's type.
    pub fn preserves_shape(self) -> (r: bool)
        ensures r == self.spec_preserves_shape(),
    {
        matches!(self, SeqOp::Mapping | SeqOp::Filter | SeqOp::SortBy | SeqOp::UniqueBy | SeqOp::TakeWhile
            | SeqOp::DropWhile | SeqOp::Collect)
    }

    /// Whether the answer is made of the elements, rather than only of what the
    /// callback said about them.
    pub open spec fn spec_keeps_items(self) -> bool {
        !(self == SeqOp::Mapping || self == SeqOp::FlatMap || self == SeqOp::Any || self == SeqOp::All
            || self == SeqOp::Count || self == SeqOp::Reduce)
    }

    /// Whether the answer is made of the elements.
    pub fn keeps_items(self) -> (r: bool)
        ensures r == self.spec_keeps_items(),
    {
        !matches!(self, SeqOp::Mapping | SeqOp::FlatMap | SeqOp::Any | SeqOp::All | SeqOp::Count | SeqOp::Reduce)
    }
}

/// Whether `name` is a collection operation that takes a callback.
pub fn is_seq_op(name: &str) -> (r: bool)
    ensures r == (SeqOp::named(name@) is Some),
{
    SeqOp::from_name(name).is_some()
}

/// Every operation but the nameless end of a chain is found under its name.
pub proof fn named_operations(op: SeqOp)
    requires op != SeqOp::Collect,
    ensures SeqOp::named(op.spec_name()) == Some(op),
{
    reveal_strlit("map");
    reveal_strlit("filter");
    reveal_strlit("flat_map");
    reveal_strlit("sort_by");
    reveal_strlit("group_by");
    reveal_strlit("partition");
    reveal_strlit("find");
    reveal_strlit("any");
    reveal_strlit("all");
    reveal_strlit("count");
    reveal_strlit("min_by");
    reveal_strlit("max_by");
    reveal_strlit("unique_by");
    reveal_strlit("take_while");
    reveal_strlit("drop_while");
    reveal_strlit("reduce");
    assert("map"@.len() == 3 && "filter"@.len() == 6 && "flat_map"@.len() == 8 && "sort_by"@.len() == 7);
    assert("group_by"@.len() == 8 && "partition"@.len() == 9 && "find"@.len() == 4 && "any"@.len() == 3);
    assert("all"@.len() == 3 && "count"@.len() == 5 && "min_by"@.len() == 6 && "max_by"@.len() == 6);
    assert("unique_by"@.len() == 9 && "take_while"@.len() == 10 && "drop_while"@.len() == 10 && "reduce"@.len() == 6);
    assert("map"@[0] == 'm' && "any"@[1] == 'n' && "all"@[1] == 'l');
    assert("any"@[0] == 'a' && "all"@[0] == 'a');
    assert("find"@[0] == 'f');
    assert("filter"@[0] == 'f' && "min_by"@[1] == 'i' && "max_by"@[1] == 'a' && "reduce"@[0] == 'r');
    assert("min_by"@[0] == 'm' && "max_by"@[0] == 'm');
    assert("flat_map"@[0] == 'f' && "group_by"@[0] == 'g');
    assert("partition"@[0] == 'p' && "unique_by"@[0] == 'u');
    assert("take_while"@[0] == 't' && "drop_while"@[0] == 'd');
}

/// The collection an operation was called on, and so the one it rebuilds.
#[derive(Clone, Copy, Debug, PartialEq, Eq, Structural)]
pub enum SeqShape {
    List,
    Tuple,
    Dict,
}

/// How a callback is handed each element.
#[derive(Clone, Copy, Debug, PartialEq, Eq, Structural)]
pub enum Spread {
    /// As one argument.
    Whole,
    /// As exactly this many, unpacked from the element.
    Unpack(usize),
}

/// What a fused stage does with its callback's answer.
#[derive(Clone, Copy, Debug, PartialEq, Eq, Structural)]
pub enum StageKind {
    Mapping(Value),
    Filter(Value),
}

/// One fused step of a chain.
#[derive(Clone, Copy, Debug, PartialEq, Eq, Structural)]
pub struct Stage {
    pub kind: StageKind,
    /// Where the step is written.
    pub line: u32,
    pub col: u32,
    pub spread: Spread,
}

/// What the callback result that arrives belongs to.
#[derive(Clone, Copy, Debug, PartialEq, Eq, Structural)]
pub enum SeqResume {
    Terminal,
    Stage(usize),
}

/// Steps of a chain that were deferred, waiting for the step that runs them.
#[derive(Debug)]
pub struct PendingChain {
    pub source: Value,
    pub stages: Vec<Stage>,
    pub shape: SeqShape,
    pub frame_depth: usize,
}

/// A collection operation in progress.
#[derive(Debug)]
pub struct SeqJob {
    pub op: SeqOp,
    pub shape: SeqShape,
    /// The elements the last step sees: the receiver's own when nothing is
    /// fused before it, else those that came out of the stages.
    pub items: Vec<Value>,
    pub results: Vec<Value>,
    pub next: usize,
    pub func: Option<Value>,
    pub spread: Spread,
    pub stages: Vec<Stage>,
    /// The receiver's elements, where there are stages.
    pub src: Vec<Value>,
    /// Elements on their way down the stages.
    pub work: Vec<(usize, Value)>,
    /// The element a filter stage is deciding about.
    pub held: Value,
    pub resume: SeqResume,
    /// Stop once this many elements have arrived.
    pub limit: usize,
    /// Answer with the single element.
    pub pick_first: bool,
    /// `drop_while` has stopped dropping.
    pub drop_done: bool,
    pub reverse: bool,
    /// Where the last step is written.
    pub line: u32,
    pub col: u32,
}

} // verus!
