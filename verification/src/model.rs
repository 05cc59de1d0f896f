//! The mathematical model of programs and values.
//!
//! Every executable type of the crate has a view in one of these types, and
//! the meaning of a program is defined over them alone.

use vstd::prelude::*;
use crate::ast::BinOp;

verus! {

/// A name of the language: a variable's or a function's.
pub type Name = Seq<char>;

/// A runtime value, or a literal of the program text.
pub enum Value {
    Integer(i32),
    /// A 32-bit IEEE 754 number, held as its bit pattern.
    Float(u32),
    Text(Seq<char>),
    Void,
    Boolean(bool),
    /// A list whose elements have all been evaluated.
    Array(Seq<Value>),
    /// A list literal as written: its elements are still expressions.
    Unevaluated(Seq<Term>),
}

/// An expression.
pub enum Term {
    BiOp(Box<Term>, BinOp, Box<Term>),
    Var(Name),
    Literal(Value),
    Call(Name, Seq<Term>),
    Index(Box<Term>, Box<Term>),
}

/// A statement.
pub enum Stmt {
    FuncDef(Name, Seq<Name>, Seq<Stmt>),
    Expr(Term),
    VarDecl(Name, Term),
    VarAssign(Name, Term),
    ArrayAssign(Name, Term, Term),
    Return(Term),
    ReturnVoid,
    If(Term, Seq<Stmt>),
}

/// One write to the output channel.
pub enum Piece {
    /// Text, written as it is.
    Text(Seq<char>),
    /// A floating-point number, given by its bits, written in decimal.
    Float(u32),
    /// The end of a line.
    LineBreak,
}

/// Whether a value holds no list that has not been evaluated, at any depth.
/// Every value that a program computes is of this kind.
pub open spec fn evaluated(v: Value) -> bool
    decreases v, 0nat,
{
    match v {
        Value::Array(vs) => all_evaluated(vs),
        Value::Unevaluated(_) => false,
        _ => true,
    }
}

/// Whether each value of a sequence is evaluated.
pub open spec fn all_evaluated(vs: Seq<Value>) -> bool
    decreases vs, 1nat,
{
    forall|i: int| 0 <= i < vs.len() ==> evaluated(#[trigger] vs[i])
}

/// Whether an expression is one that a program can hold: each literal in it
/// is either a list of such expressions or an evaluated value.
pub open spec fn term_ok(e: Term) -> bool
    decreases e, 0nat,
{
    match e {
        Term::BiOp(l, _, r) => term_ok(*l) && term_ok(*r),
        Term::Var(_) => true,
        Term::Literal(v) => match v {
            Value::Unevaluated(es) => terms_ok(es),
            _ => evaluated(v),
        },
        Term::Call(_, args) => terms_ok(args),
        Term::Index(a, i) => term_ok(*a) && term_ok(*i),
    }
}

/// Whether each expression of a sequence is well formed.
pub open spec fn terms_ok(es: Seq<Term>) -> bool
    decreases es, 1nat,
{
    forall|i: int| 0 <= i < es.len() ==> term_ok(#[trigger] es[i])
}

/// Whether a statement is one that a function body can hold: it is no
/// function definition, holds none, and its expressions are well formed.
pub open spec fn stmt_ok(s: Stmt) -> bool
    decreases s, 0nat,
{
    match s {
        Stmt::FuncDef(_, _, _) => false,
        Stmt::Expr(e) => term_ok(e),
        Stmt::VarDecl(_, e) => term_ok(e),
        Stmt::VarAssign(_, e) => term_ok(e),
        Stmt::ArrayAssign(_, i, e) => term_ok(i) && term_ok(e),
        Stmt::Return(e) => term_ok(e),
        Stmt::ReturnVoid => true,
        Stmt::If(c, body) => term_ok(c) && body_ok(body),
    }
}

/// Whether each statement of a body is well formed.
pub open spec fn body_ok(body: Seq<Stmt>) -> bool
    decreases body, 1nat,
{
    forall|i: int| 0 <= i < body.len() ==> stmt_ok(#[trigger] body[i])
}

/// Whether a sequence of statements is a program: each is a function
/// definition with a well-formed body.
pub open spec fn program_ok(program: Seq<Stmt>) -> bool {
    forall|i: int|
        0 <= i < program.len() ==> match #[trigger] program[i] {
            Stmt::FuncDef(_, _, body) => body_ok(body),
            _ => false,
        }
}

} // verus!
