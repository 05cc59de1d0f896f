//! The syntax tree that the evaluator walks.

use vstd::prelude::*;
use crate::model::{body_ok, program_ok, stmt_ok, term_ok, terms_ok, Name, Stmt, Term, Value};
use crate::object::{value_of, Object};

verus! {

/// A statement of the language. A program is a list of `FuncDef`s.
#[derive(Debug, PartialEq)]
pub enum AST {
    /// A function: its name, the names of its parameters, its body.
    FuncDef(String, Vec<String>, Vec<AST>),
    /// An expression evaluated for its effects.
    Expr(Expr),
    /// A variable and the expression that gives its first value.
    VarDecl(String, Expr),
    /// A variable and the expression that gives its new value.
    VarAssign(String, Expr),
    /// An array variable, an index and the element's new value.
    ArrayAssign(String, Expr, Expr),
    Return(Expr),
    ReturnVoid,
    /// A condition and the statements run when it holds. There is no `else`.
    If(Expr, Vec<AST>),
}

/// An expression of the language.
#[derive(Debug, PartialEq)]
pub enum Expr {
    BiOp(Box<Expr>, BinOp, Box<Expr>),
    Var(String),
    Literal(Object),
    FuncCall(String, Vec<Expr>),
    ArrayAccess(Box<Expr>, Box<Expr>),
}

/// A binary operator.
#[derive(Debug, Clone, Copy, PartialEq, Eq, Structural)]
pub enum BinOp {
    Add,
    Sub,
    Mul,
    Div,
    Gt,
    Lt,
    Eq,
    Neq,
    Mod,
}

/// The term that an expression stands for.
pub open spec fn term_of(e: Expr) -> Term
    decreases e,
{
    match e {
        Expr::BiOp(l, op, r) => Term::BiOp(Box::new(term_of(*l)), op, Box::new(term_of(*r))),
        Expr::Var(n) => Term::Var(n@),
        Expr::Literal(o) => Term::Literal(value_of(o)),
        Expr::FuncCall(n, args) => Term::Call(n@, terms_of(args@)),
        Expr::ArrayAccess(a, i) => Term::Index(Box::new(term_of(*a)), Box::new(term_of(*i))),
    }
}

/// The terms that a sequence of expressions stands for, one for one.
pub open spec fn terms_of(v: Seq<Expr>) -> Seq<Term>
    decreases v,
{
    Seq::new(
        v.len(),
        |i: int|
            if 0 <= i < v.len() {
                term_of(v[i])
            } else {
                Term::Literal(Value::Void)
            },
    )
}

/// The statement that a node of the tree stands for.
pub open spec fn stmt_of(a: AST) -> Stmt
    decreases a,
{
    match a {
        AST::FuncDef(n, ps, body) => Stmt::FuncDef(n@, names_of(ps@), stmts_of(body@)),
        AST::Expr(e) => Stmt::Expr(term_of(e)),
        AST::VarDecl(n, e) => Stmt::VarDecl(n@, term_of(e)),
        AST::VarAssign(n, e) => Stmt::VarAssign(n@, term_of(e)),
        AST::ArrayAssign(n, i, e) => Stmt::ArrayAssign(n@, term_of(i), term_of(e)),
        AST::Return(e) => Stmt::Return(term_of(e)),
        AST::ReturnVoid => Stmt::ReturnVoid,
        AST::If(c, body) => Stmt::If(term_of(c), stmts_of(body@)),
    }
}

/// The statements that a sequence of nodes stands for, one for one.
pub open spec fn stmts_of(v: Seq<AST>) -> Seq<Stmt>
    decreases v,
{
    Seq::new(
        v.len(),
        |i: int|
            if 0 <= i < v.len() {
                stmt_of(v[i])
            } else {
                Stmt::ReturnVoid
            },
    )
}

/// The names that a sequence of strings stands for, one for one.
pub open spec fn names_of(v: Seq<String>) -> Seq<Name> {
    Seq::new(v.len(), |i: int| v[i]@)
}

impl View for Expr {
    type V = Term;

    open spec fn view(&self) -> Term {
        term_of(*self)
    }
}

impl View for AST {
    type V = Stmt;

    open spec fn view(&self) -> Stmt {
        stmt_of(*self)
    }
}

/// A copy of each expression, in order.
pub fn clone_exprs(v: &Vec<Expr>) -> (r: Vec<Expr>)
    ensures
        terms_of(r@) == terms_of(v@),
        r.len() == v.len(),
    decreases v,
{
    let mut out: Vec<Expr> = Vec::new();
    let mut i: usize = 0;
    while i < v.len()
        invariant
            i <= v.len(),
            out.len() == i,
            forall|j: int| 0 <= j < i ==> out[j]@ == v[j]@,
        decreases v.len() - i,
    {
        out.push(v[i].clone());
        i += 1;
    }
    assert(terms_of(out@) =~= terms_of(v@));
    out
}

/// A copy of each statement, in order.
pub fn clone_stmts(v: &Vec<AST>) -> (r: Vec<AST>)
    ensures
        stmts_of(r@) == stmts_of(v@),
        r.len() == v.len(),
    decreases v,
{
    let mut out: Vec<AST> = Vec::new();
    let mut i: usize = 0;
    while i < v.len()
        invariant
            i <= v.len(),
            out.len() == i,
            forall|j: int| 0 <= j < i ==> out[j]@ == v[j]@,
        decreases v.len() - i,
    {
        out.push(v[i].clone());
        i += 1;
    }
    assert(stmts_of(out@) =~= stmts_of(v@));
    out
}

/// A copy of each name, in order.
pub fn clone_names(v: &Vec<String>) -> (r: Vec<String>)
    ensures
        names_of(r@) == names_of(v@),
        r.len() == v.len(),
{
    let mut out: Vec<String> = Vec::new();
    let mut i: usize = 0;
    while i < v.len()
        invariant
            i <= v.len(),
            out.len() == i,
            forall|j: int| 0 <= j < i ==> out[j]@ == v[j]@,
        decreases v.len() - i,
    {
        out.push(v[i].clone());
        i += 1;
    }
    assert(names_of(out@) =~= names_of(v@));
    out
}

impl Clone for Expr {
    /// A copy that stands for the same term.
    fn clone(&self) -> (r: Expr)
        ensures
            r@ == self@,
        decreases self,
    {
        match self {
            Expr::BiOp(l, op, r) => Expr::BiOp(Box::new((**l).clone()), *op, Box::new((**r).clone())),
            Expr::Var(n) => Expr::Var(n.clone()),
            Expr::Literal(o) => Expr::Literal(o.clone()),
            Expr::FuncCall(n, args) => Expr::FuncCall(n.clone(), clone_exprs(args)),
            Expr::ArrayAccess(a, i) => Expr::ArrayAccess(
                Box::new((**a).clone()),
                Box::new((**i).clone()),
            ),
        }
    }
}

impl Clone for AST {
    /// A copy that stands for the same statement.
    fn clone(&self) -> (r: AST)
        ensures
            r@ == self@,
        decreases self,
    {
        match self {
            AST::FuncDef(n, ps, body) => AST::FuncDef(n.clone(), clone_names(ps), clone_stmts(body)),
            AST::Expr(e) => AST::Expr(e.clone()),
            AST::VarDecl(n, e) => AST::VarDecl(n.clone(), e.clone()),
            AST::VarAssign(n, e) => AST::VarAssign(n.clone(), e.clone()),
            AST::ArrayAssign(n, i, e) => AST::ArrayAssign(n.clone(), i.clone(), e.clone()),
            AST::Return(e) => AST::Return(e.clone()),
            AST::ReturnVoid => AST::ReturnVoid,
            AST::If(c, body) => AST::If(c.clone(), clone_stmts(body)),
        }
    }
}

/// Whether each expression of a list is well formed.
pub fn exprs_well_formed(v: &Vec<Expr>) -> (r: bool)
    ensures
        r == terms_ok(terms_of(v@)),
    decreases v,
{
    proof {
        lemma_terms_of(v@);
    }
    let mut i: usize = 0;
    while i < v.len()
        invariant
            i <= v.len(),
            terms_of(v@).len() == v.len(),
            forall|j: int| 0 <= j < v.len() ==> #[trigger] terms_of(v@)[j] == v[j]@,
            forall|j: int| 0 <= j < i ==> term_ok(#[trigger] terms_of(v@)[j]),
        decreases v.len() - i,
    {
        if !v[i].is_well_formed() {
            assert(!term_ok(terms_of(v@)[i as int]));
            return false;
        }
        i += 1;
    }
    true
}

/// Whether each statement of a body is well formed.
pub fn body_well_formed(v: &Vec<AST>) -> (r: bool)
    ensures
        r == body_ok(stmts_of(v@)),
    decreases v,
{
    proof {
        lemma_stmts_of(v@);
    }
    let mut i: usize = 0;
    while i < v.len()
        invariant
            i <= v.len(),
            stmts_of(v@).len() == v.len(),
            forall|j: int| 0 <= j < v.len() ==> #[trigger] stmts_of(v@)[j] == v[j]@,
            forall|j: int| 0 <= j < i ==> stmt_ok(#[trigger] stmts_of(v@)[j]),
        decreases v.len() - i,
    {
        if !v[i].is_well_formed() {
            assert(!stmt_ok(stmts_of(v@)[i as int]));
            return false;
        }
        i += 1;
    }
    true
}

/// Whether a list of statements is a program: each of them a function
/// definition with a well-formed body.
pub fn is_program(ast: &Vec<AST>) -> (r: bool)
    ensures
        r == program_ok(stmts_of(ast@)),
{
    proof {
        lemma_stmts_of(ast@);
    }
    let mut i: usize = 0;
    while i < ast.len()
        invariant
            i <= ast.len(),
            stmts_of(ast@).len() == ast.len(),
            forall|j: int| 0 <= j < ast.len() ==> #[trigger] stmts_of(ast@)[j] == ast[j]@,
            forall|j: int|
                0 <= j < i ==> match #[trigger] stmts_of(ast@)[j] {
                    Stmt::FuncDef(_, _, body) => body_ok(body),
                    _ => false,
                },
        decreases ast.len() - i,
    {
        let fine = match &ast[i] {
            AST::FuncDef(_, _, body) => body_well_formed(body),
            _ => false,
        };
        if !fine {
            assert(!(match stmts_of(ast@)[i as int] {
                Stmt::FuncDef(_, _, body) => body_ok(body),
                _ => false,
            }));
            return false;
        }
        i += 1;
    }
    true
}

impl Expr {
    /// Whether the expression is one that a program can hold: each
    /// literal in it is a list of such expressions or an evaluated value.
    pub fn is_well_formed(&self) -> (r: bool)
        ensures
            r == term_ok(self@),
        decreases self,
    {
        match self {
            Expr::BiOp(lhs, _, rhs) => (**lhs).is_well_formed() && (**rhs).is_well_formed(),
            Expr::Var(_) => true,
            Expr::Literal(o) => {
                assert(self@ == Term::Literal(o@));
                match o {
                    Object::List(v) => {
                        assert(o@ == Value::Unevaluated(terms_of(v@)));
                        exprs_well_formed(v)
                    },
                    _ => {
                        assert(!(o@ is Unevaluated));
                        o.is_evaluated()
                    },
                }
            },
            Expr::FuncCall(_, args) => exprs_well_formed(args),
            Expr::ArrayAccess(a, i) => (**a).is_well_formed() && (**i).is_well_formed(),
        }
    }
}

impl AST {
    /// Whether the statement is one that a function body can hold: it is
    /// no function definition, holds none, and its expressions are well
    /// formed.
    pub fn is_well_formed(&self) -> (r: bool)
        ensures
            r == stmt_ok(self@),
        decreases self,
    {
        match self {
            AST::FuncDef(_, _, _) => false,
            AST::Expr(e) => e.is_well_formed(),
            AST::VarDecl(_, e) => e.is_well_formed(),
            AST::VarAssign(_, e) => e.is_well_formed(),
            AST::ArrayAssign(_, i, e) => i.is_well_formed() && e.is_well_formed(),
            AST::Return(e) => e.is_well_formed(),
            AST::ReturnVoid => true,
            AST::If(c, body) => c.is_well_formed() && body_well_formed(body),
        }
    }

    /// The name, the parameters and the body of a function definition, each
    /// as a copy.
    pub fn unwrap_function(&self) -> (r: (String, Vec<String>, Vec<AST>))
        requires
            self is FuncDef,
        ensures
            self@ == Stmt::FuncDef(r.0@, names_of(r.1@), stmts_of(r.2@)),
    {
        match self {
            AST::FuncDef(name, args, body) => (name.clone(), clone_names(args), clone_stmts(body)),
            _ => (String::new(), Vec::new(), Vec::new()),
        }
    }
}

/// `terms_of` keeps the length and maps each element to its term.
pub proof fn lemma_terms_of(v: Seq<Expr>)
    ensures
        terms_of(v).len() == v.len(),
        forall|i: int| 0 <= i < v.len() ==> #[trigger] terms_of(v)[i] == v[i]@,
{
}

/// `stmts_of` keeps the length and maps each element to its statement.
pub proof fn lemma_stmts_of(v: Seq<AST>)
    ensures
        stmts_of(v).len() == v.len(),
        forall|i: int| 0 <= i < v.len() ==> #[trigger] stmts_of(v)[i] == v[i]@,
{
}

} // verus!
