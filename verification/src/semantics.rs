//! What a program means.
//!
//! The meaning is given by a handful of functions on the model, which
//! call each other as the evaluator's functions do. Each returns what was
//! computed together with the trace of what the program has done to the
//! outside so far: its writes, and how many floating-point answers it has
//! taken from the host.

use vstd::prelude::*;
use crate::fault::{Fault, Halt};
use crate::model::{body_ok, evaluated, Name, Piece, Stmt, Term, Value};
use crate::object::apply_op;
use crate::stdlib::{printed, printed_line};

verus! {

/// The variables in scope.
pub type Env = Map<Name, Value>;

/// What a name of the function table stands for.
pub enum Callee {
    /// A function of the program: its parameters and its body.
    User(Seq<Name>, Seq<Stmt>),
    /// The built-in `print`.
    Print,
    /// The built-in `println`.
    Println,
}

/// What stays fixed while a program runs: its functions, and the answers
/// that the host has given to its floating-point operations, in the order
/// in which the program asks.
pub struct Machine {
    pub funcs: Map<Name, Callee>,
    pub answers: Seq<u32>,
}

/// What a program has done to the outside so far.
pub struct Trace {
    /// Its writes, oldest first.
    pub output: Seq<Piece>,
    /// How many of the host's answers it has taken.
    pub used: nat,
}

/// The trace of a program that has not started.
pub open spec fn start() -> Trace {
    Trace { output: seq![], used: 0 }
}

/// The trace after some more writes.
pub open spec fn written(t: Trace, pieces: Seq<Piece>) -> Trace {
    Trace { output: t.output + pieces, used: t.used }
}

/// A fault as the result of a computation.
pub open spec fn faulted<T>(f: Fault) -> Result<T, Halt> {
    Err(Halt::Fault(f))
}

/// The value of a variable.
pub open spec fn lookup(env: Env, name: Name) -> Result<Value, Halt> {
    if env.dom().contains(name) {
        Ok(env[name])
    } else {
        faulted(Fault::UnboundVariable)
    }
}

/// The element of an array at an index. Both the array and the index have
/// been evaluated to arbitrary values.
pub open spec fn element(array: Value, index: Value) -> Result<Value, Halt> {
    match array {
        Value::Array(vs) => match index {
            Value::Integer(n) => if 0 <= n < vs.len() {
                Ok(vs[n as int])
            } else {
                faulted(Fault::IndexOutOfBounds)
            },
            _ => faulted(Fault::TypeMismatch),
        },
        _ => faulted(Fault::TypeMismatch),
    }
}

/// The array with the element at an index replaced.
pub open spec fn replaced(array: Value, index: Value, value: Value) -> Result<Value, Halt> {
    match array {
        Value::Array(vs) => match index {
            Value::Integer(n) => if 0 <= n < vs.len() {
                Ok(Value::Array(vs.update(n as int, value)))
            } else {
                faulted(Fault::IndexOutOfBounds)
            },
            _ => faulted(Fault::TypeMismatch),
        },
        _ => faulted(Fault::TypeMismatch),
    }
}

/// What becomes of an operator's result. A request for a floating-point
/// operation is met by the next answer of the host, where there is one
/// left; everything else stays as it is.
pub open spec fn settle(m: Machine, r: Result<Value, Halt>, t: Trace) -> (Result<Value, Halt>, Trace) {
    match r {
        Err(Halt::Pending(_)) => if t.used < m.answers.len() {
            (Ok(Value::Float(m.answers[t.used as int])), Trace { output: t.output, used: t.used + 1 })
        } else {
            (r, t)
        },
        _ => (r, t),
    }
}

/// The scope of a call: the first `n` parameters bound to the arguments at
/// their positions.
pub open spec fn bind(params: Seq<Name>, args: Seq<Value>, n: nat) -> Env
    decreases n,
{
    if n == 0 {
        Map::empty()
    } else {
        bind(params, args, (n - 1) as nat).insert(params[n - 1], args[n - 1])
    }
}

/// The values of a list as an array.
pub open spec fn array_of(r: Result<Seq<Value>, Halt>) -> Result<Value, Halt> {
    match r {
        Ok(vs) => Ok(Value::Array(vs)),
        Err(h) => Err(h),
    }
}

/// What a call returns, given how its body ended: the value of the
/// `return` that ended it, or `Void` where it ran off its end.
pub open spec fn returned(r: Result<Option<Value>, Halt>) -> Result<Value, Halt> {
    match r {
        Ok(Some(v)) => Ok(v),
        Ok(None) => Ok(Value::Void),
        Err(h) => Err(h),
    }
}

/// The value of an expression. The operands of an operator, the elements of
/// a list and the arguments of a call are evaluated from left to right,
/// all of them, and the first halt among them is the result.
pub open spec fn eval(m: Machine, e: Term, env: Env, depth: nat, t: Trace) -> (
    Result<Value, Halt>,
    Trace,
)
    decreases depth, 2nat, e, 0nat,
{
    match e {
        Term::Literal(v) => match v {
            Value::Unevaluated(es) => {
                let (r, t1) = eval_list(m, es, es.len(), env, depth, t);
                (array_of(r), t1)
            },
            _ => (Ok(v), t),
        },
        Term::BiOp(l, op, r) => {
            let (a, t1) = eval(m, *l, env, depth, t);
            match a {
                Err(h) => (Err(h), t1),
                Ok(x) => {
                    let (b, t2) = eval(m, *r, env, depth, t1);
                    match b {
                        Err(h) => (Err(h), t2),
                        Ok(y) => settle(m, apply_op(op, x, y), t2),
                    }
                },
            }
        },
        Term::Var(n) => (lookup(env, n), t),
        Term::Call(n, args) => {
            let (r, t1) = eval_list(m, args, args.len(), env, depth, t);
            match r {
                Err(h) => (Err(h), t1),
                Ok(vs) => call(m, n, vs, depth, t1),
            }
        },
        Term::Index(a, i) => {
            let (ra, t1) = eval(m, *a, env, depth, t);
            match ra {
                Err(h) => (Err(h), t1),
                Ok(x) => {
                    let (ri, t2) = eval(m, *i, env, depth, t1);
                    match ri {
                        Err(h) => (Err(h), t2),
                        Ok(y) => (element(x, y), t2),
                    }
                },
            }
        },
    }
}

/// The values of the first `n` expressions of a list, or the first halt
/// among them.
pub open spec fn eval_list(m: Machine, es: Seq<Term>, n: nat, env: Env, depth: nat, t: Trace) -> (
    Result<Seq<Value>, Halt>,
    Trace,
)
    decreases depth, 2nat, es, n,
{
    if n == 0 || n > es.len() {
        (Ok(seq![]), t)
    } else {
        let (r, t1) = eval_list(m, es, (n - 1) as nat, env, depth, t);
        match r {
            Err(h) => (Err(h), t1),
            Ok(vs) => {
                let (rv, t2) = eval(m, es[n - 1], env, depth, t1);
                match rv {
                    Err(h) => (Err(h), t2),
                    Ok(v) => (Ok(vs.push(v)), t2),
                }
            },
        }
    }
}

/// A call of a function by its name.
pub open spec fn call(m: Machine, name: Name, args: Seq<Value>, depth: nat, t: Trace) -> (
    Result<Value, Halt>,
    Trace,
)
    decreases depth, 1nat,
{
    if m.funcs.dom().contains(name) {
        invoke(m, m.funcs[name], args, depth, t)
    } else {
        (faulted(Fault::UndefinedFunction), t)
    }
}

/// A call of a function that has been looked up. A function of the program
/// runs its body in a scope of its own, which holds its parameters alone,
/// with one level less of nesting left.
pub open spec fn invoke(m: Machine, callee: Callee, args: Seq<Value>, depth: nat, t: Trace) -> (
    Result<Value, Halt>,
    Trace,
)
    decreases depth, 0nat,
{
    match callee {
        Callee::Print => (Ok(Value::Void), written(t, printed(args))),
        Callee::Println => (Ok(Value::Void), written(t, printed_line(args))),
        Callee::User(params, body) => if params.len() != args.len() {
            (faulted(Fault::ArityMismatch), t)
        } else if depth == 0 {
            (faulted(Fault::StackOverflow), t)
        } else {
            let (r, _, t1) = exec_list(
                m,
                body,
                body.len(),
                bind(params, args, params.len()),
                (depth - 1) as nat,
                t,
            );
            (returned(r), t1)
        },
    }
}

/// The effect of one statement. The result is `Some` where the statement
/// returned from the function, with the value returned; the scope is the
/// one that the statements after it see. A conditional whose condition is
/// `true` runs its body on the scope as it is, and what the body did to it
/// is dropped. A function definition, which no well-formed body holds,
/// does nothing.
pub open spec fn exec_stmt(m: Machine, s: Stmt, env: Env, depth: nat, t: Trace) -> (
    Result<Option<Value>, Halt>,
    Env,
    Trace,
)
    decreases depth, 3nat, s, 0nat,
{
    match s {
        Stmt::FuncDef(_, _, _) => (Ok(None), env, t),
        Stmt::Expr(e) => {
            let (r, t1) = eval(m, e, env, depth, t);
            match r {
                Err(h) => (Err(h), env, t1),
                Ok(_) => (Ok(None), env, t1),
            }
        },
        Stmt::VarDecl(n, e) => assign(n, eval(m, e, env, depth, t), env),
        Stmt::VarAssign(n, e) => assign(n, eval(m, e, env, depth, t), env),
        Stmt::ArrayAssign(n, i, e) => {
            let (ri, t1) = eval(m, i, env, depth, t);
            match ri {
                Err(h) => (Err(h), env, t1),
                Ok(x) => {
                    let (rv, t2) = eval(m, e, env, depth, t1);
                    match rv {
                        Err(h) => (Err(h), env, t2),
                        Ok(v) => match lookup(env, n) {
                            Err(h) => (Err(h), env, t2),
                            Ok(a) => assign(n, (replaced(a, x, v), t2), env),
                        },
                    }
                },
            }
        },
        Stmt::Return(e) => {
            let (r, t1) = eval(m, e, env, depth, t);
            match r {
                Err(h) => (Err(h), env, t1),
                Ok(v) => (Ok(Some(v)), env, t1),
            }
        },
        Stmt::ReturnVoid => (Ok(Some(Value::Void)), env, t),
        Stmt::If(c, body) => {
            let (r, t1) = eval(m, c, env, depth, t);
            match r {
                Err(h) => (Err(h), env, t1),
                Ok(Value::Boolean(true)) => {
                    let (rb, _, t2) = exec_list(m, body, body.len(), env, depth, t1);
                    (rb, env, t2)
                },
                Ok(Value::Boolean(false)) => (Ok(None), env, t1),
                Ok(_) => (faulted(Fault::TypeMismatch), env, t1),
            }
        },
    }
}

/// The effect of binding a name to the value of an expression.
pub open spec fn assign(name: Name, r: (Result<Value, Halt>, Trace), env: Env) -> (
    Result<Option<Value>, Halt>,
    Env,
    Trace,
) {
    match r.0 {
        Err(h) => (Err(h), env, r.1),
        Ok(v) => (Ok(None), env.insert(name, v), r.1),
    }
}

/// The effect of the first `n` statements of a body, in order. A statement
/// that returns or halts ends the body: those after it do nothing.
pub open spec fn exec_list(m: Machine, body: Seq<Stmt>, n: nat, env: Env, depth: nat, t: Trace) -> (
    Result<Option<Value>, Halt>,
    Env,
    Trace,
)
    decreases depth, 3nat, body, n,
{
    if n == 0 || n > body.len() {
        (Ok(None), env, t)
    } else {
        let (r, env1, t1) = exec_list(m, body, (n - 1) as nat, env, depth, t);
        match r {
            Ok(None) => exec_stmt(m, body[n - 1], env1, depth, t1),
            _ => (r, env1, t1),
        }
    }
}

/// Whether every variable of a scope holds an evaluated value.
pub open spec fn env_ok(env: Env) -> bool {
    forall|n: Name| env.dom().contains(n) ==> evaluated(#[trigger] env[n])
}

/// Whether the body of a function is well formed. A built-in function is.
pub open spec fn callee_ok(c: Callee) -> bool {
    match c {
        Callee::User(_, body) => body_ok(body),
        _ => true,
    }
}

/// Whether every function of a table is well formed.
pub open spec fn table_ok(funcs: Map<Name, Callee>) -> bool {
    forall|n: Name| funcs.dom().contains(n) ==> callee_ok(#[trigger] funcs[n])
}

/// Whether every function of a machine is well formed.
pub open spec fn machine_ok(m: Machine) -> bool {
    table_ok(m.funcs)
}

/// The function table of the first `n` definitions of a program. A later
/// definition of a name replaces an earlier one.
pub open spec fn defined(program: Seq<Stmt>, n: nat) -> Map<Name, Callee>
    decreases n,
{
    if n == 0 {
        Map::empty()
    } else {
        let rest = defined(program, (n - 1) as nat);
        match program[n - 1] {
            Stmt::FuncDef(name, params, body) => rest.insert(name, Callee::User(params, body)),
            _ => rest,
        }
    }
}

/// The function table of a program. The built-in functions come last, so
/// that a function of the program named as one of them is never called.
pub open spec fn table(program: Seq<Stmt>) -> Map<Name, Callee> {
    defined(program, program.len()).insert("println"@, Callee::Println).insert(
        "print"@,
        Callee::Print,
    )
}

/// What running a program yields: the function `main` is called without
/// arguments, with `depth` levels of nested calls allowed.
pub open spec fn run(program: Seq<Stmt>, answers: Seq<u32>, depth: nat) -> (
    Result<Value, Halt>,
    Trace,
) {
    let m = Machine { funcs: table(program), answers };
    if m.funcs.dom().contains("main"@) {
        invoke(m, m.funcs["main"@], seq![], depth, start())
    } else {
        (faulted(Fault::MissingEntryPoint), start())
    }
}

} // verus!
