//! What values are called, and whether they count as true.
use vstd::prelude::*;
use vstd::string::*;
use crate::value::{Heap, StreamKind, TypeTag, Value};

verus! {

impl TypeTag {
    /// The type's name.
    pub open spec fn spec_name(self) -> Seq<char> {
        match self {
            TypeTag::Int => "int"@,
            TypeTag::Float => "float"@,
            TypeTag::Bool => "bool"@,
            TypeTag::Str => "str"@,
            TypeTag::Bytes => "bytes"@,
            TypeTag::List => "list"@,
            TypeTag::Tuple => "tuple"@,
            TypeTag::Dict => "dict"@,
            TypeTag::Range => "range"@,
        }
    }

    /// The type's name.
    pub fn name(self) -> (r: &'static str)
        ensures r@ == self.spec_name(),
    {
        match self {
            TypeTag::Int => "int",
            TypeTag::Float => "float",
            TypeTag::Bool => "bool",
            TypeTag::Str => "str",
            TypeTag::Bytes => "bytes",
            TypeTag::List => "list",
            TypeTag::Tuple => "tuple",
            TypeTag::Dict => "dict",
            TypeTag::Range => "range",
        }
    }
}

impl StreamKind {
    /// The name a diagnostic gives the stream.
    pub open spec fn spec_name(self) -> Seq<char> {
        match self {
            StreamKind::File => "File"@,
            StreamKind::TcpStream => "TcpStream"@,
            StreamKind::TcpListener => "TcpListener"@,
            StreamKind::PipeReader => "PipeReader"@,
            StreamKind::PipeWriter => "PipeWriter"@,
        }
    }

    /// The name a diagnostic gives the stream.
    pub fn name(self) -> (r: &'static str)
        ensures r@ == self.spec_name(),
    {
        match self {
            StreamKind::File => "File",
            StreamKind::TcpStream => "TcpStream",
            StreamKind::TcpListener => "TcpListener",
            StreamKind::PipeReader => "PipeReader",
            StreamKind::PipeWriter => "PipeWriter",
        }
    }

    /// Whether the stream is one end of a child's pipe.
    pub open spec fn spec_is_pipe(self) -> bool {
        self == StreamKind::PipeReader || self == StreamKind::PipeWriter
    }

    /// Whether the stream is one end of a child's pipe.
    pub fn is_pipe(self) -> (r: bool)
        ensures r == self.spec_is_pipe(),
    {
        matches!(self, StreamKind::PipeReader | StreamKind::PipeWriter)
    }
}

/// The name of a value's type.
pub open spec fn kind_name(h: Heap, v: Value) -> Seq<char> {
    match v {
        Value::Unbound => "unbound"@,
        Value::Null => "null"@,
        Value::Bool(_) => "bool"@,
        Value::Int(_) => "int"@,
        Value::Big(_) => "int"@,
        Value::Float(_) => "float"@,
        Value::Str(_) => "str"@,
        Value::Bytes(_) => "bytes"@,
        Value::List(_) => "list"@,
        Value::Tuple(_) => "tuple"@,
        Value::Dict(_) => "dict"@,
        Value::Range(_) => "range"@,
        Value::Func(_) => "function"@,
        Value::Builtin(_) => "builtin_function"@,
        Value::Method(_) => "method"@,
        Value::Class(_) => "type"@,
        Value::Type(_) => "type"@,
        Value::Instance(_) => "object"@,
        Value::Super(_) => "super"@,
        Value::Module(_) => "module"@,
        Value::Iter(_) => "iterator"@,
        Value::Generator(_) => "generator"@,
        Value::Task(_) => "Task"@,
        Value::Channel(_) => "Channel"@,
        Value::Stream(i) => if i < h.streams@.len() { h.streams@[i as int].kind.spec_name() } else { "File"@ },
        Value::Proc(_) => "Process"@,
        Value::Native(i) => if i < h.natives@.len() { h.natives@[i as int]@ } else { "native"@ },
    }
}

/// The name of a value's type.
pub fn kind_name_of(h: &Heap, v: Value) -> (r: &str)
    ensures r@ == kind_name(*h, v),
{
    match v {
        Value::Unbound => "unbound",
        Value::Null => "null",
        Value::Bool(_) => "bool",
        Value::Int(_) => "int",
        Value::Big(_) => "int",
        Value::Float(_) => "float",
        Value::Str(_) => "str",
        Value::Bytes(_) => "bytes",
        Value::List(_) => "list",
        Value::Tuple(_) => "tuple",
        Value::Dict(_) => "dict",
        Value::Range(_) => "range",
        Value::Func(_) => "function",
        Value::Builtin(_) => "builtin_function",
        Value::Method(_) => "method",
        Value::Class(_) => "type",
        Value::Type(_) => "type",
        Value::Instance(_) => "object",
        Value::Super(_) => "super",
        Value::Module(_) => "module",
        Value::Iter(_) => "iterator",
        Value::Generator(_) => "generator",
        Value::Task(_) => "Task",
        Value::Channel(_) => "Channel",
        Value::Stream(i) => if i < h.streams.len() { h.streams[i].kind.name() } else { "File" },
        Value::Proc(_) => "Process",
        Value::Native(i) => if i < h.natives.len() { h.natives[i].as_str() } else { "native" },
    }
}

/// The name of a value's type, with an instance named after its class.
pub open spec fn type_label(h: Heap, v: Value) -> Seq<char> {
    match v {
        Value::Instance(i) => h.class_name(h.instance_class(i)),
        _ => kind_name(h, v),
    }
}

/// The name of a value's type, with an instance named after its class.
pub fn type_label_of(h: &Heap, v: Value) -> (r: &str)
    ensures r@ == type_label(*h, v),
{
    match v {
        Value::Instance(i) => h.class_name_of(h.class_of(i)),
        _ => kind_name_of(h, v),
    }
}

/// The bits of a float other than its sign.
pub open spec fn float_mag(bits: u64) -> int {
    bits as int % 0x8000_0000_0000_0000
}

/// Whether a float is zero, of either sign.
pub open spec fn float_is_zero(bits: u64) -> bool {
    float_mag(bits) == 0
}

/// Whether a float is zero, of either sign.
pub fn is_zero_float(bits: u64) -> (r: bool)
    ensures r == float_is_zero(bits),
{
    bits % 0x8000_0000_0000_0000 == 0
}

/// Whether a range has no element.
pub open spec fn range_empty(h: Heap, id: usize) -> bool {
    let r = h.range(id);
    if r.step > 0 { r.start >= r.stop } else { r.start <= r.stop }
}

/// Whether a value counts as true: what `not`, `and` and `or` go by, and where a
/// callback's answer is tested.
pub open spec fn truthy(h: Heap, v: Value) -> bool {
    match v {
        Value::Null => false,
        Value::Unbound => false,
        Value::Bool(b) => b,
        Value::Int(i) => i != 0,
        Value::Big(i) => h.big(i) != 0,
        Value::Float(i) => !float_is_zero(h.float_bits(i)),
        Value::Str(i) => h.text(i).len() != 0,
        Value::Bytes(i) => h.octets(i).len() != 0,
        Value::List(i) => h.list(i).len() != 0,
        Value::Tuple(i) => h.tuple(i).len() != 0,
        Value::Dict(i) => h.dict(i).len() != 0,
        Value::Range(i) => !range_empty(h, i),
        _ => true,
    }
}

/// Whether a value counts as true.
pub fn is_truthy(h: &Heap, v: Value) -> (r: bool)
    ensures r == truthy(*h, v),
{
    match v {
        Value::Null => false,
        Value::Unbound => false,
        Value::Bool(b) => b,
        Value::Int(i) => i != 0,
        Value::Big(i) => !h.big_copy(i).same(&crate::bigint::BigInt::from_i64(0)),
        Value::Float(i) => !is_zero_float(h.bits_of(i)),
        Value::Str(i) => h.text_of(i).unicode_len() != 0,
        Value::Bytes(i) => h.octets_len(i) != 0,
        Value::List(i) => h.list_len(i) != 0,
        Value::Tuple(i) => h.tuple_len(i) != 0,
        Value::Dict(i) => h.dict_len(i) != 0,
        Value::Range(i) => {
            let r = h.range_of(i);
            !(if r.step > 0 { r.start >= r.stop } else { r.start <= r.stop })
        },
        _ => true,
    }
}

} // verus!
