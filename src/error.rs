use vstd::prelude::*;
use crate::json::Interval;

verus! {

/// The kinds of failure that the runtime reports.
#[derive(Clone, Copy, Debug, PartialEq, Eq, Structural)]
pub enum ErrorKind {
    /// Arithmetic or comparison between values of different kinds.
    TypeMismatch,
    /// Division or remainder by zero.
    DivisionByZero,
    /// An integer result that does not fit in 64 bits.
    Overflow,
    /// A method name that the value's kind does not have.
    UnknownMethod,
    /// An identifier, memory path or event that cannot be resolved.
    UnresolvedVariable,
    /// A statement shape that a block does not accept.
    MalformedBlock,
    /// A component field that depends on itself.
    CircularDependency,
    /// A required component field with no parameter bound to it.
    MissingRequiredField,
    /// Wrong arguments to a method, or a schema of the wrong shape.
    UsageError,
    /// A method whose result needs floating point, which the host computes.
    HostComputed,
}

/// A failure, with where it happened.
#[derive(Debug)]
pub struct ErrorInfo {
    pub kind: ErrorKind,
    pub message: String,
    pub interval: Interval,
}

impl ErrorInfo {
    pub fn new(kind: ErrorKind, message: &str, interval: Interval) -> (r: ErrorInfo)
        ensures
            r.kind == kind,
            r.message@ == message@,
            r.interval == interval,
    {
        ErrorInfo { kind, message: message.to_owned(), interval }
    }
}

} // verus!
