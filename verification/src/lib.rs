//! A tree-walking evaluator for a small dynamically typed scripting language.
//!
//! A program is a list of function definitions. [`interpreter::Interpreter`]
//! enters them into a function table together with the built-in `print` and
//! `println`, calls `main` without arguments, and walks its statements and
//! expressions against a scope of variables.
//!
//! What a program means is defined in [`semantics`] over the types of
//! [`model`], and the evaluator is proved to compute exactly that. The laws
//! of the language that follow from the definition are proved in [`laws`],
//! [`evaluated`] and [`replay`].
//!
//! # What the evaluator decides
//!
//! * Every error of a program is a value: [`fault::Fault`]. The evaluator
//!   never panics.
//! * Integers have 32 bits and wrap on overflow. Division rounds toward
//!   zero; a divisor of zero is a fault.
//! * `==` and `!=` compare two values of one kind by their structure; `<`
//!   and `>` are for two integers or two floating-point numbers. An
//!   operator applied to anything else is a `TypeMismatch`: no value is
//!   converted to another kind.
//! * A conditional runs its body in a copy of the scope around it. What the
//!   body assigns or declares is gone when the body ends: the scope around
//!   it is never written to.
//! * Arrays are values. Assigning to an element changes the variable named
//!   in the assignment and nothing else.
//! * Calls may nest to a depth that the caller of the evaluator chooses. A
//!   call beyond it is a `StackOverflow`, so every run ends.
//!
//! # What the evaluator leaves to its host
//!
//! * Output. `print` and `println` add to a journal of writes, which the
//!   run hands back; the host writes them where it wants them.
//! * Floating-point arithmetic. A floating-point number is carried as its
//!   bits. Equality and order are decided here, on the bits. The five
//!   arithmetic operators are not: the run stops with the operation that
//!   it has come to ([`fault::Halt::Pending`]), the host computes it, and
//!   the program is run again with the answer. A number that is printed is
//!   handed to the host as its bits.

pub mod ast;
pub mod evaluated;
pub mod fault;
pub mod ieee;
pub mod interpreter;
pub mod laws;
pub mod model;
pub mod object;
pub mod replay;
pub mod scope;
pub mod semantics;
pub mod stdlib;
