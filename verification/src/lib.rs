//! The Oro virtual machine: a flat interpreter loop over heap frames, with a
//! cooperative scheduler above it.
//!
//! Every value is a small word: a scalar, or a handle into the [`value::Heap`]
//! of the run. What only the world outside can do (floating point, text
//! formatting of a native object, sockets, child processes, the clock) is a
//! request the machine hands to its host, which answers with plain values.
pub mod text;
pub mod exc;
pub mod bigint;
pub mod code;
pub mod fields;
pub mod frame;
pub mod value;
pub mod names;
pub mod number;
pub mod arith;
pub mod keys;
pub mod keylaws;
pub mod relation;
pub mod membership;
pub mod repr;
pub mod index;
pub mod iter;
pub mod seqop;
pub mod sorting;
pub mod paths;
pub mod process;
pub mod modules;
pub mod stdlib;
pub mod reactor;
pub mod sched;
pub mod machine;
pub mod control;
pub mod exceptions;
pub mod wake;
pub mod channel;
pub mod bind;
pub mod attr;
pub mod call;
pub mod tasks;
pub mod collect;
pub mod order;
pub mod deep;
pub mod texting;
pub mod chain;
pub mod fusion;
pub mod generate;
pub mod streams;
pub mod waiting;
pub mod dispatch;
pub mod flow;
pub mod imports;
pub mod ops;
pub mod objects;
pub mod step;
pub mod run;
pub mod program;
pub mod laws;
pub mod catchlaws;
pub mod collectlaws;
pub mod calllaws;
pub mod classlaws;
pub mod intlaws;
pub mod indexlaws;
pub mod flowlaws;
pub mod textlaws;
pub mod iterlaws;
pub mod tasklaws;
pub mod hostlaws;
pub mod chainlaws;
pub mod calledlaws;
pub mod dictlaws;
pub mod deeplaws;
pub mod returnlaws;
pub mod oplaws;
pub mod streamlaws;
pub mod relationlaws;
pub mod memberlaws;
pub mod orderlaws;
pub mod arithlaws;
pub mod isolation;
pub mod readback;

