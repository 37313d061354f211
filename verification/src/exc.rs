//! The exception classes a fault can name, and the fault itself: a class and
//! a message, before anybody knows where in the program it happened.
use vstd::prelude::*;

verus! {

/// A built-in exception class.
#[derive(Clone, Copy, Debug, PartialEq, Eq, Structural)]
pub enum Exc {
    BaseException,
    SystemExit,
    Exception,
    ImportError,
    ModuleNotFoundError,
    ValueError,
    TypeError,
    LookupError,
    KeyError,
    IndexError,
    AttributeError,
    NameError,
    ArithmeticError,
    ZeroDivisionError,
    RuntimeError,
    NotImplementedError,
    RecursionError,
    StopIteration,
    ChannelClosed,
    CommandError,
    OSError,
    EOFError,
    FileNotFoundError,
    PermissionError,
    TimeoutError,
}

impl Exc {
    /// The class's name, as a program writes it.
    pub open spec fn spec_name(self) -> Seq<char> {
        match self {
            Exc::BaseException => "BaseException"@,
            Exc::SystemExit => "SystemExit"@,
            Exc::Exception => "Exception"@,
            Exc::ImportError => "ImportError"@,
            Exc::ModuleNotFoundError => "ModuleNotFoundError"@,
            Exc::ValueError => "ValueError"@,
            Exc::TypeError => "TypeError"@,
            Exc::LookupError => "LookupError"@,
            Exc::KeyError => "KeyError"@,
            Exc::IndexError => "IndexError"@,
            Exc::AttributeError => "AttributeError"@,
            Exc::NameError => "NameError"@,
            Exc::ArithmeticError => "ArithmeticError"@,
            Exc::ZeroDivisionError => "ZeroDivisionError"@,
            Exc::RuntimeError => "RuntimeError"@,
            Exc::NotImplementedError => "NotImplementedError"@,
            Exc::RecursionError => "RecursionError"@,
            Exc::StopIteration => "StopIteration"@,
            Exc::ChannelClosed => "ChannelClosed"@,
            Exc::CommandError => "CommandError"@,
            Exc::OSError => "OSError"@,
            Exc::EOFError => "EOFError"@,
            Exc::FileNotFoundError => "FileNotFoundError"@,
            Exc::PermissionError => "PermissionError"@,
            Exc::TimeoutError => "TimeoutError"@,
        }
    }

    /// The class's name, as a program writes it.
    pub fn name(self) -> (r: &'static str)
        ensures r@ == self.spec_name(),
    {
        match self {
            Exc::BaseException => "BaseException",
            Exc::SystemExit => "SystemExit",
            Exc::Exception => "Exception",
            Exc::ImportError => "ImportError",
            Exc::ModuleNotFoundError => "ModuleNotFoundError",
            Exc::ValueError => "ValueError",
            Exc::TypeError => "TypeError",
            Exc::LookupError => "LookupError",
            Exc::KeyError => "KeyError",
            Exc::IndexError => "IndexError",
            Exc::AttributeError => "AttributeError",
            Exc::NameError => "NameError",
            Exc::ArithmeticError => "ArithmeticError",
            Exc::ZeroDivisionError => "ZeroDivisionError",
            Exc::RuntimeError => "RuntimeError",
            Exc::NotImplementedError => "NotImplementedError",
            Exc::RecursionError => "RecursionError",
            Exc::StopIteration => "StopIteration",
            Exc::ChannelClosed => "ChannelClosed",
            Exc::CommandError => "CommandError",
            Exc::OSError => "OSError",
            Exc::EOFError => "EOFError",
            Exc::FileNotFoundError => "FileNotFoundError",
            Exc::PermissionError => "PermissionError",
            Exc::TimeoutError => "TimeoutError",
        }
    }

    /// The class this one derives from; only the root has none.
    pub open spec fn spec_parent(self) -> Option<Exc> {
        match self {
            Exc::BaseException => None,
            Exc::SystemExit => Some(Exc::BaseException),
            Exc::Exception => Some(Exc::BaseException),
            Exc::ImportError => Some(Exc::Exception),
            Exc::ModuleNotFoundError => Some(Exc::ImportError),
            Exc::ValueError => Some(Exc::Exception),
            Exc::TypeError => Some(Exc::Exception),
            Exc::LookupError => Some(Exc::Exception),
            Exc::KeyError => Some(Exc::LookupError),
            Exc::IndexError => Some(Exc::LookupError),
            Exc::AttributeError => Some(Exc::Exception),
            Exc::NameError => Some(Exc::Exception),
            Exc::ArithmeticError => Some(Exc::Exception),
            Exc::ZeroDivisionError => Some(Exc::ArithmeticError),
            Exc::RuntimeError => Some(Exc::Exception),
            Exc::NotImplementedError => Some(Exc::RuntimeError),
            Exc::RecursionError => Some(Exc::RuntimeError),
            Exc::StopIteration => Some(Exc::Exception),
            Exc::ChannelClosed => Some(Exc::Exception),
            Exc::CommandError => Some(Exc::Exception),
            Exc::OSError => Some(Exc::Exception),
            Exc::EOFError => Some(Exc::Exception),
            Exc::FileNotFoundError => Some(Exc::OSError),
            Exc::PermissionError => Some(Exc::OSError),
            Exc::TimeoutError => Some(Exc::OSError),
        }
    }

    /// The class this one derives from; only the root has none.
    pub fn parent(self) -> (r: Option<Exc>)
        ensures r == self.spec_parent(),
    {
        match self {
            Exc::BaseException => None,
            Exc::SystemExit => Some(Exc::BaseException),
            Exc::Exception => Some(Exc::BaseException),
            Exc::ImportError => Some(Exc::Exception),
            Exc::ModuleNotFoundError => Some(Exc::ImportError),
            Exc::ValueError => Some(Exc::Exception),
            Exc::TypeError => Some(Exc::Exception),
            Exc::LookupError => Some(Exc::Exception),
            Exc::KeyError => Some(Exc::LookupError),
            Exc::IndexError => Some(Exc::LookupError),
            Exc::AttributeError => Some(Exc::Exception),
            Exc::NameError => Some(Exc::Exception),
            Exc::ArithmeticError => Some(Exc::Exception),
            Exc::ZeroDivisionError => Some(Exc::ArithmeticError),
            Exc::RuntimeError => Some(Exc::Exception),
            Exc::NotImplementedError => Some(Exc::RuntimeError),
            Exc::RecursionError => Some(Exc::RuntimeError),
            Exc::StopIteration => Some(Exc::Exception),
            Exc::ChannelClosed => Some(Exc::Exception),
            Exc::CommandError => Some(Exc::Exception),
            Exc::OSError => Some(Exc::Exception),
            Exc::EOFError => Some(Exc::Exception),
            Exc::FileNotFoundError => Some(Exc::OSError),
            Exc::PermissionError => Some(Exc::OSError),
            Exc::TimeoutError => Some(Exc::OSError),
        }
    }

    /// The class's place in the registry: parents come before their children.
    pub open spec fn spec_rank(self) -> int {
        match self {
            Exc::BaseException => 0,
            Exc::SystemExit => 1,
            Exc::Exception => 2,
            Exc::ImportError => 3,
            Exc::ModuleNotFoundError => 4,
            Exc::ValueError => 5,
            Exc::TypeError => 6,
            Exc::LookupError => 7,
            Exc::KeyError => 8,
            Exc::IndexError => 9,
            Exc::AttributeError => 10,
            Exc::NameError => 11,
            Exc::ArithmeticError => 12,
            Exc::ZeroDivisionError => 13,
            Exc::RuntimeError => 14,
            Exc::NotImplementedError => 15,
            Exc::RecursionError => 16,
            Exc::StopIteration => 17,
            Exc::ChannelClosed => 18,
            Exc::CommandError => 19,
            Exc::OSError => 20,
            Exc::EOFError => 21,
            Exc::FileNotFoundError => 22,
            Exc::PermissionError => 23,
            Exc::TimeoutError => 24,
        }
    }

    /// The class's place in the registry.
    pub fn rank(self) -> (r: usize)
        ensures r == self.spec_rank(),
    {
        match self {
            Exc::BaseException => 0,
            Exc::SystemExit => 1,
            Exc::Exception => 2,
            Exc::ImportError => 3,
            Exc::ModuleNotFoundError => 4,
            Exc::ValueError => 5,
            Exc::TypeError => 6,
            Exc::LookupError => 7,
            Exc::KeyError => 8,
            Exc::IndexError => 9,
            Exc::AttributeError => 10,
            Exc::NameError => 11,
            Exc::ArithmeticError => 12,
            Exc::ZeroDivisionError => 13,
            Exc::RuntimeError => 14,
            Exc::NotImplementedError => 15,
            Exc::RecursionError => 16,
            Exc::StopIteration => 17,
            Exc::ChannelClosed => 18,
            Exc::CommandError => 19,
            Exc::OSError => 20,
            Exc::EOFError => 21,
            Exc::FileNotFoundError => 22,
            Exc::PermissionError => 23,
            Exc::TimeoutError => 24,
        }
    }

    /// The class registered at place `i`, for `i` below [`exc_count`].
    pub open spec fn spec_at(i: int) -> Exc {
        if i == 0 { Exc::BaseException } else if i == 1 { Exc::SystemExit } else if i == 2 { Exc::Exception } else if i == 3 { Exc::ImportError } else if i == 4 { Exc::ModuleNotFoundError } else if i == 5 { Exc::ValueError } else if i == 6 { Exc::TypeError } else if i == 7 { Exc::LookupError } else if i == 8 { Exc::KeyError } else if i == 9 { Exc::IndexError } else if i == 10 { Exc::AttributeError } else if i == 11 { Exc::NameError } else if i == 12 { Exc::ArithmeticError } else if i == 13 { Exc::ZeroDivisionError } else if i == 14 { Exc::RuntimeError } else if i == 15 { Exc::NotImplementedError } else if i == 16 { Exc::RecursionError } else if i == 17 { Exc::StopIteration } else if i == 18 { Exc::ChannelClosed } else if i == 19 { Exc::CommandError } else if i == 20 { Exc::OSError } else if i == 21 { Exc::EOFError } else if i == 22 { Exc::FileNotFoundError } else if i == 23 { Exc::PermissionError } else { Exc::TimeoutError }
    }

    /// The class registered at place `i`.
    pub fn at(i: usize) -> (r: Exc)
        ensures r == Exc::spec_at(i as int),
    {
        match i {
            0 => Exc::BaseException,
            1 => Exc::SystemExit,
            2 => Exc::Exception,
            3 => Exc::ImportError,
            4 => Exc::ModuleNotFoundError,
            5 => Exc::ValueError,
            6 => Exc::TypeError,
            7 => Exc::LookupError,
            8 => Exc::KeyError,
            9 => Exc::IndexError,
            10 => Exc::AttributeError,
            11 => Exc::NameError,
            12 => Exc::ArithmeticError,
            13 => Exc::ZeroDivisionError,
            14 => Exc::RuntimeError,
            15 => Exc::NotImplementedError,
            16 => Exc::RecursionError,
            17 => Exc::StopIteration,
            18 => Exc::ChannelClosed,
            19 => Exc::CommandError,
            20 => Exc::OSError,
            21 => Exc::EOFError,
            22 => Exc::FileNotFoundError,
            23 => Exc::PermissionError,
            _ => Exc::TimeoutError,
        }
    }
}

/// How many built-in exception classes there are.
pub open spec fn exc_count() -> int {
    25
}

/// How many built-in exception classes there are.
pub const EXC_COUNT: usize = 25;

/// Every class has its own place, and the place leads back to the class.
pub proof fn exc_places(e: Exc)
    ensures
        0 <= e.spec_rank() < exc_count(),
        Exc::spec_at(e.spec_rank()) == e,
        match e.spec_parent() {
            Some(p) => p.spec_rank() < e.spec_rank(),
            None => e == Exc::BaseException,
        },
{
}

/// `a` is `b` or derives from it.
pub open spec fn exc_derives(a: Exc, b: Exc) -> bool
    decreases a.spec_rank(),
    via exc_derives_down
{
    a == b || match a.spec_parent() {
        Some(p) => exc_derives(p, b),
        None => false,
    }
}

#[via_fn]
proof fn exc_derives_down(a: Exc, b: Exc) {
    exc_places(a);
}

/// A fault: the class it raises and the message it carries.
#[derive(Debug)]
pub struct VErr {
    pub class: Exc,
    pub message: String,
}

impl View for VErr {
    type V = (Exc, Seq<char>);

    open spec fn view(&self) -> (Exc, Seq<char>) {
        (self.class, self.message@)
    }
}

impl VErr {
    /// A copy of the fault.
    pub fn copy(&self) -> (r: VErr)
        ensures r@ == self@,
    {
        VErr { class: self.class, message: self.message.clone() }
    }
}

/// A [`Exc::TypeError`] fault.
pub fn type_error(message: String) -> (r: VErr)
    ensures r@ == (Exc::TypeError, message@),
{
    VErr { class: Exc::TypeError, message }
}

/// A [`Exc::ValueError`] fault.
pub fn value_error(message: String) -> (r: VErr)
    ensures r@ == (Exc::ValueError, message@),
{
    VErr { class: Exc::ValueError, message }
}

/// A [`Exc::RuntimeError`] fault.
pub fn runtime_error(message: String) -> (r: VErr)
    ensures r@ == (Exc::RuntimeError, message@),
{
    VErr { class: Exc::RuntimeError, message }
}

/// A [`Exc::NameError`] fault.
pub fn name_error(message: String) -> (r: VErr)
    ensures r@ == (Exc::NameError, message@),
{
    VErr { class: Exc::NameError, message }
}

/// A [`Exc::AttributeError`] fault.
pub fn attribute_error(message: String) -> (r: VErr)
    ensures r@ == (Exc::AttributeError, message@),
{
    VErr { class: Exc::AttributeError, message }
}

/// A [`Exc::IndexError`] fault.
pub fn index_error(message: String) -> (r: VErr)
    ensures r@ == (Exc::IndexError, message@),
{
    VErr { class: Exc::IndexError, message }
}

/// A [`Exc::KeyError`] fault.
pub fn key_error(message: String) -> (r: VErr)
    ensures r@ == (Exc::KeyError, message@),
{
    VErr { class: Exc::KeyError, message }
}

/// A [`Exc::OSError`] fault.
pub fn os_error(message: String) -> (r: VErr)
    ensures r@ == (Exc::OSError, message@),
{
    VErr { class: Exc::OSError, message }
}

/// A [`Exc::TimeoutError`] fault.
pub fn timeout_error(message: String) -> (r: VErr)
    ensures r@ == (Exc::TimeoutError, message@),
{
    VErr { class: Exc::TimeoutError, message }
}

/// A [`Exc::CommandError`] fault.
pub fn command_error(message: String) -> (r: VErr)
    ensures r@ == (Exc::CommandError, message@),
{
    VErr { class: Exc::CommandError, message }
}

/// A fault of `class` whose message is a fixed text.
pub fn fault(class: Exc, message: &str) -> (r: VErr)
    ensures r@ == (class, message@),
{
    VErr { class, message: message.to_owned() }
}

} // verus!
