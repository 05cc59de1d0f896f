//! The ways in which evaluation of a program can fail.

use vstd::prelude::*;
use crate::ieee::FloatRequest;

verus! {

/// A fatal error of the evaluated program. None is recoverable from inside
/// the language: the first fault ends the whole run.
#[derive(Clone, Copy, Debug, PartialEq, Eq, Structural)]
pub enum Fault {
    /// An operator, a condition or an index met a value of the wrong kind.
    TypeMismatch,
    /// A variable was read that the active scope does not bind.
    UnboundVariable,
    /// A function was called that the function table does not hold.
    UndefinedFunction,
    /// A function was called with a number of arguments other than the
    /// number of its parameters.
    ArityMismatch,
    /// An array was read or written outside its length.
    IndexOutOfBounds,
    /// An integer was divided by zero, or its remainder by zero was taken.
    DivisionByZero,
    /// The program defines no function `main`.
    MissingEntryPoint,
    /// Calls nested deeper than the interpreter's limit.
    StackOverflow,
}

/// What is said to the user of a fault.
pub open spec fn description(f: Fault) -> Seq<char> {
    match f {
        Fault::TypeMismatch => "type mismatch: a value of the wrong kind"@,
        Fault::UnboundVariable => "unbound variable: no variable of that name"@,
        Fault::UndefinedFunction => "undefined function: no function of that name"@,
        Fault::ArityMismatch => "arity mismatch: wrong number of arguments"@,
        Fault::IndexOutOfBounds => "index out of bounds: no element at that index"@,
        Fault::DivisionByZero => "division by zero"@,
        Fault::MissingEntryPoint => "missing entry point: no function main"@,
        Fault::StackOverflow => "stack overflow: calls nested too deep"@,
    }
}

impl Fault {
    /// A line that names the fault for the user.
    pub fn message(&self) -> (r: &'static str)
        ensures
            r@ == description(*self),
    {
        match self {
            Fault::TypeMismatch => "type mismatch: a value of the wrong kind",
            Fault::UnboundVariable => "unbound variable: no variable of that name",
            Fault::UndefinedFunction => "undefined function: no function of that name",
            Fault::ArityMismatch => "arity mismatch: wrong number of arguments",
            Fault::IndexOutOfBounds => "index out of bounds: no element at that index",
            Fault::DivisionByZero => "division by zero",
            Fault::MissingEntryPoint => "missing entry point: no function main",
            Fault::StackOverflow => "stack overflow: calls nested too deep",
        }
    }
}

/// Why evaluation stopped before it had a result.
#[derive(Clone, Copy, Debug, PartialEq, Eq, Structural)]
pub enum Halt {
    /// The program is at fault.
    Fault(Fault),
    /// The program applied an arithmetic operator to two floating-point
    /// numbers, and the host has not yet supplied the answer.
    Pending(FloatRequest),
}

} // verus!
