//! Laws of the language, proved of its meaning.

use vstd::prelude::*;
use crate::ast::BinOp;
use crate::fault::{Fault, Halt};
use crate::model::{Name, Stmt, Term, Value};
use crate::object::{trunc_div, trunc_rem, value_add, wrap};
use crate::semantics::{
    call, element, eval, eval_list, exec_stmt, faulted, Callee, Env, Machine, Trace,
};

verus! {

/// The term that is an integer literal.
pub open spec fn integer(n: i32) -> Term {
    Term::Literal(Value::Integer(n))
}

/// The term that is a string literal.
pub open spec fn text(s: Seq<char>) -> Term {
    Term::Literal(Value::Text(s))
}

/// The term that applies an operator to two terms.
pub open spec fn binary(l: Term, op: BinOp, r: Term) -> Term {
    Term::BiOp(Box::new(l), op, Box::new(r))
}

/// `a % b` of a non-negative `a` and a positive `b` evaluates to an integer
/// from 0 up to but not including `b`, the remainder of the division of `a`
/// by `b`. It writes nothing and takes no answer of the host.
pub proof fn law_rem_in_range(m: Machine, a: i32, b: i32, env: Env, depth: nat, t: Trace)
    requires
        a >= 0,
        b > 0,
    ensures
        0 <= a % b < b,
        eval(m, binary(integer(a), BinOp::Mod, integer(b)), env, depth, t) == (
            Ok::<Value, Halt>(Value::Integer((a % b) as i32)),
            t,
        ),
{
    reveal_with_fuel(eval, 2);
    let r = a as int % b as int;
    assert(0 <= r < b) by (nonlinear_arith)
        requires
            r == a as int % b as int,
            b > 0,
    ;
    assert(trunc_rem(a as int, b as int) == r);
    crate::object::lemma_wrap_in_range(r);
}

/// `a % b` of any `a` and a positive `b` evaluates to the remainder that
/// goes with the quotient rounded toward zero: it is smaller than `b` in
/// absolute value, has the sign of `a` or is zero, and together with that
/// quotient gives `a` back.
pub proof fn law_rem_truncates(m: Machine, a: i32, b: i32, env: Env, depth: nat, t: Trace)
    requires
        b > 0,
    ensures
        -b < trunc_rem(a as int, b as int) < b,
        a >= 0 ==> trunc_rem(a as int, b as int) >= 0,
        a <= 0 ==> trunc_rem(a as int, b as int) <= 0,
        a == b * trunc_div(a as int, b as int) + trunc_rem(a as int, b as int),
        eval(m, binary(integer(a), BinOp::Mod, integer(b)), env, depth, t) == (
            Ok::<Value, Halt>(Value::Integer(trunc_rem(a as int, b as int) as i32)),
            t,
        ),
{
    reveal_with_fuel(eval, 2);
    let x = if a >= 0 { a as int } else { -(a as int) };
    let d = b as int;
    assert(0 <= x % d < d && x == d * (x / d) + x % d) by (nonlinear_arith)
        requires
            x >= 0,
            d > 0,
    ;
    if a < 0 {
        assert(d * -(x / d) == -(d * (x / d))) by (nonlinear_arith);
    }
    crate::object::lemma_wrap_in_range(trunc_rem(a as int, b as int));
}

/// `a + b` and `b + a` of two integers evaluate to the same.
pub proof fn law_add_commutes(m: Machine, a: i32, b: i32, env: Env, depth: nat, t: Trace)
    ensures
        value_add(Value::Integer(a), Value::Integer(b)) == value_add(
            Value::Integer(b),
            Value::Integer(a),
        ),
        eval(m, binary(integer(a), BinOp::Add, integer(b)), env, depth, t) == eval(
            m,
            binary(integer(b), BinOp::Add, integer(a)),
            env,
            depth,
            t,
        ),
        eval(m, binary(integer(a), BinOp::Add, integer(b)), env, depth, t) == (
            Ok::<Value, Halt>(Value::Integer(wrap(a + b))),
            t,
        ),
{
    reveal_with_fuel(eval, 2);
    assert(a + b == b + a);
}

/// `s + t` of two strings evaluates to the characters of `s` followed by
/// those of `t`, and nothing between them.
pub proof fn law_concat(m: Machine, s: Seq<char>, u: Seq<char>, env: Env, depth: nat, t: Trace)
    ensures
        eval(m, binary(text(s), BinOp::Add, text(u)), env, depth, t) == (
            Ok::<Value, Halt>(Value::Text(s + u)),
            t,
        ),
        (s + u).len() == s.len() + u.len(),
{
    reveal_with_fuel(eval, 2);
}

/// Reading an array at an index below zero, or at or beyond its length, is
/// the fault `IndexOutOfBounds`, whatever the array holds.
pub proof fn law_index_out_of_bounds(
    m: Machine,
    array: Term,
    index: Term,
    vs: Seq<Value>,
    n: i32,
    env: Env,
    depth: nat,
    t: Trace,
)
    requires
        eval(m, array, env, depth, t).0 == Ok::<Value, Halt>(Value::Array(vs)),
        eval(m, index, env, depth, eval(m, array, env, depth, t).1).0 == Ok::<Value, Halt>(
            Value::Integer(n),
        ),
        n < 0 || n >= vs.len(),
    ensures
        element(Value::Array(vs), Value::Integer(n)) == faulted::<Value>(Fault::IndexOutOfBounds),
        eval(m, Term::Index(Box::new(array), Box::new(index)), env, depth, t).0 == faulted::<Value>(
            Fault::IndexOutOfBounds,
        ),
{
}

/// A call of a name that the function table does not hold is the fault
/// `UndefinedFunction`, once its arguments have been evaluated.
pub proof fn law_undefined_function(
    m: Machine,
    name: Name,
    args: Seq<Term>,
    env: Env,
    depth: nat,
    t: Trace,
)
    requires
        !m.funcs.dom().contains(name),
        eval_list(m, args, args.len(), env, depth, t).0 is Ok,
    ensures
        eval(m, Term::Call(name, args), env, depth, t).0 == faulted::<Value>(
            Fault::UndefinedFunction,
        ),
{
    let (r, t1) = eval_list(m, args, args.len(), env, depth, t);
    assert(call(m, name, r->Ok_0, depth, t1).0 == faulted::<Value>(Fault::UndefinedFunction));
}

/// A call of a function of the program with a number of arguments other
/// than the number of its parameters is the fault `ArityMismatch`, once the
/// arguments have been evaluated. The body is not entered.
pub proof fn law_arity_mismatch(
    m: Machine,
    name: Name,
    args: Seq<Term>,
    env: Env,
    depth: nat,
    t: Trace,
)
    requires
        m.funcs.dom().contains(name),
        m.funcs[name] matches Callee::User(params, _) && params.len() != args.len(),
        eval_list(m, args, args.len(), env, depth, t).0 is Ok,
    ensures
        eval(m, Term::Call(name, args), env, depth, t) == (
            faulted::<Value>(Fault::ArityMismatch),
            eval_list(m, args, args.len(), env, depth, t).1,
        ),
{
    let (r, t1) = eval_list(m, args, args.len(), env, depth, t);
    lemma_eval_list_len(m, args, args.len(), env, depth, t);
    assert(call(m, name, r->Ok_0, depth, t1) == (faulted::<Value>(Fault::ArityMismatch), t1)) by {
        reveal_with_fuel(crate::semantics::invoke, 2);
    }
}

/// A list that evaluates without a halt has one value for each expression.
pub proof fn lemma_eval_list_len(
    m: Machine,
    es: Seq<Term>,
    n: nat,
    env: Env,
    depth: nat,
    t: Trace,
)
    requires
        n <= es.len(),
    ensures
        eval_list(m, es, n, env, depth, t).0 matches Ok(vs) ==> vs.len() == n,
    decreases n,
{
    if n > 0 {
        lemma_eval_list_len(m, es, (n - 1) as nat, env, depth, t);
    }
}

/// Assigning to an element of an array changes the variable that holds the
/// array and no other: every other variable keeps its value, also one that
/// was bound to the same array before.
pub proof fn law_array_assign_isolated(
    m: Machine,
    name: Name,
    index: Term,
    value: Term,
    other: Name,
    env: Env,
    depth: nat,
    t: Trace,
)
    requires
        other != name,
    ensures
        ({
            let after = exec_stmt(m, Stmt::ArrayAssign(name, index, value), env, depth, t).1;
            &&& after.dom().contains(other) == env.dom().contains(other)
            &&& env.dom().contains(other) ==> after[other] == env[other]
        }),
{
}

/// A conditional leaves the scope around it as it was: what its body
/// declares or assigns is gone when the body ends, whether or not the
/// variable existed outside.
pub proof fn law_conditional_keeps_scope(
    m: Machine,
    condition: Term,
    body: Seq<Stmt>,
    env: Env,
    depth: nat,
    t: Trace,
)
    ensures
        exec_stmt(m, Stmt::If(condition, body), env, depth, t).1 == env,
{
}

} // verus!
