//! Every value that a program computes is evaluated.
//!
//! A list literal is turned into an array where it is evaluated, and
//! nowhere else does a list that has not been evaluated come from. So no
//! variable ever holds one, no function is ever called with one, and no
//! expression ever yields one.

use vstd::prelude::*;
use crate::ast::BinOp;
use crate::fault::Halt;
use crate::model::{
    all_evaluated, body_ok, evaluated, program_ok, stmt_ok, term_ok, terms_ok, Name, Stmt, Term,
    Value,
};
use crate::object::apply_op;
use crate::semantics::{
    bind, call, callee_ok, defined, env_ok, eval, eval_list, exec_list, exec_stmt, invoke,
    machine_ok, run, start, table, table_ok, Callee, Env, Machine, Trace,
};

verus! {

/// The scope of a call holds evaluated values where the arguments are.
pub proof fn lemma_bind_evaluated(params: Seq<Name>, args: Seq<Value>, n: nat)
    requires
        n <= args.len(),
        all_evaluated(args),
    ensures
        env_ok(bind(params, args, n)),
    decreases n,
{
    if n > 0 {
        lemma_bind_evaluated(params, args, (n - 1) as nat);
        let earlier = bind(params, args, (n - 1) as nat);
        let now = bind(params, args, n);
        assert(evaluated(args[n - 1]));
        assert forall|name: Name| now.dom().contains(name) implies evaluated(#[trigger] now[name]) by {
            if name != params[n - 1] {
                assert(earlier.dom().contains(name));
                assert(earlier[name] == now[name]);
            }
        }
    }
}

/// The functions of a program are well formed where the program is.
pub proof fn lemma_defined_ok(program: Seq<Stmt>, n: nat)
    requires
        n <= program.len(),
        program_ok(program),
    ensures
        table_ok(defined(program, n)),
    decreases n,
{
    if n > 0 {
        lemma_defined_ok(program, (n - 1) as nat);
        let earlier = defined(program, (n - 1) as nat);
        let now = defined(program, n);
        assert(program[n - 1] is FuncDef);
        assert forall|name: Name| now.dom().contains(name) implies callee_ok(#[trigger] now[name]) by {
            if name != program[n - 1]->FuncDef_0 {
                assert(earlier.dom().contains(name));
                assert(earlier[name] == now[name]);
            }
        }
    }
}

/// The function table of a well-formed program is well formed.
pub proof fn lemma_table_ok(program: Seq<Stmt>)
    requires
        program_ok(program),
    ensures
        table_ok(table(program)),
{
    lemma_defined_ok(program, program.len());
    let d = defined(program, program.len());
    let with_println = d.insert("println"@, Callee::Println);
    let all = table(program);
    assert forall|name: Name| all.dom().contains(name) implies callee_ok(#[trigger] all[name]) by {
        if name != "print"@ && name != "println"@ {
            assert(d.dom().contains(name));
            assert(d[name] == all[name]);
        }
    }
}

/// An operator yields an evaluated value.
pub proof fn lemma_apply_evaluated(op: BinOp, a: Value, b: Value)
    ensures
        apply_op(op, a, b) matches Ok(v) ==> evaluated(v),
{
}

/// An expression yields an evaluated value.
pub proof fn lemma_eval_evaluated(m: Machine, e: Term, env: Env, depth: nat, t: Trace)
    requires
        machine_ok(m),
        term_ok(e),
        env_ok(env),
    ensures
        eval(m, e, env, depth, t).0 matches Ok(v) ==> evaluated(v),
    decreases depth, 2nat, e, 0nat,
{
    match e {
        Term::Literal(v) => match v {
            Value::Unevaluated(es) => {
                lemma_eval_list_evaluated(m, es, es.len(), env, depth, t);
            },
            _ => {},
        },
        Term::BiOp(l, op, r) => {
            let (a, ta) = eval(m, *l, env, depth, t);
            if let Ok(x) = a {
                let (b, tb) = eval(m, *r, env, depth, ta);
                if let Ok(y) = b {
                    lemma_apply_evaluated(op, x, y);
                }
            }
        },
        Term::Var(_) => {},
        Term::Call(n, args) => {
            lemma_eval_list_evaluated(m, args, args.len(), env, depth, t);
            let (r, ta) = eval_list(m, args, args.len(), env, depth, t);
            if let Ok(vs) = r {
                lemma_call_evaluated(m, n, vs, depth, ta);
            }
        },
        Term::Index(a, i) => {
            lemma_eval_evaluated(m, *a, env, depth, t);
            let (ra, ta) = eval(m, *a, env, depth, t);
            if let Ok(Value::Array(vs)) = ra {
                let (ri, ti) = eval(m, *i, env, depth, ta);
                if let Ok(Value::Integer(n)) = ri {
                    if 0 <= n < vs.len() {
                        assert(evaluated(vs[n as int]));
                    }
                }
            }
        },
    }
}

/// The expressions of a list yield evaluated values.
pub proof fn lemma_eval_list_evaluated(
    m: Machine,
    es: Seq<Term>,
    n: nat,
    env: Env,
    depth: nat,
    t: Trace,
)
    requires
        machine_ok(m),
        terms_ok(es),
        env_ok(env),
    ensures
        eval_list(m, es, n, env, depth, t).0 matches Ok(vs) ==> all_evaluated(vs),
    decreases depth, 2nat, es, n,
{
    if n == 0 || n > es.len() {
    } else {
        lemma_eval_list_evaluated(m, es, (n - 1) as nat, env, depth, t);
        let (r, ta) = eval_list(m, es, (n - 1) as nat, env, depth, t);
        if let Ok(vs) = r {
            assert(term_ok(es[n - 1]));
            lemma_eval_evaluated(m, es[n - 1], env, depth, ta);
            let (rv, tb) = eval(m, es[n - 1], env, depth, ta);
            if let Ok(v) = rv {
                let all = vs.push(v);
                assert forall|i: int| 0 <= i < all.len() implies evaluated(#[trigger] all[i]) by {
                    if i < vs.len() {
                        assert(all[i] == vs[i]);
                    }
                }
            }
        }
    }
}

/// A call by name yields an evaluated value.
pub proof fn lemma_call_evaluated(m: Machine, name: Name, args: Seq<Value>, depth: nat, t: Trace)
    requires
        machine_ok(m),
        all_evaluated(args),
    ensures
        call(m, name, args, depth, t).0 matches Ok(v) ==> evaluated(v),
    decreases depth, 1nat,
{
    if m.funcs.dom().contains(name) {
        lemma_invoke_evaluated(m, m.funcs[name], args, depth, t);
    }
}

/// A call yields an evaluated value.
pub proof fn lemma_invoke_evaluated(
    m: Machine,
    callee: Callee,
    args: Seq<Value>,
    depth: nat,
    t: Trace,
)
    requires
        machine_ok(m),
        callee_ok(callee),
        all_evaluated(args),
    ensures
        invoke(m, callee, args, depth, t).0 matches Ok(v) ==> evaluated(v),
    decreases depth, 0nat,
{
    match callee {
        Callee::User(params, body) => {
            if params.len() == args.len() && depth > 0 {
                lemma_bind_evaluated(params, args, params.len());
                lemma_exec_list_evaluated(
                    m,
                    body,
                    body.len(),
                    bind(params, args, params.len()),
                    (depth - 1) as nat,
                    t,
                );
            }
        },
        _ => {},
    }
}

/// A statement keeps the values of the scope evaluated, and returns an
/// evaluated value where it returns.
pub proof fn lemma_exec_stmt_evaluated(m: Machine, s: Stmt, env: Env, depth: nat, t: Trace)
    requires
        machine_ok(m),
        stmt_ok(s),
        env_ok(env),
    ensures
        env_ok(exec_stmt(m, s, env, depth, t).1),
        exec_stmt(m, s, env, depth, t).0 matches Ok(Some(v)) ==> evaluated(v),
    decreases depth, 3nat, s, 0nat,
{
    match s {
        Stmt::FuncDef(_, _, _) => {},
        Stmt::Expr(e) => {},
        Stmt::VarDecl(n, e) => {
            lemma_eval_evaluated(m, e, env, depth, t);
            lemma_insert_evaluated(env, n, eval(m, e, env, depth, t).0);
        },
        Stmt::VarAssign(n, e) => {
            lemma_eval_evaluated(m, e, env, depth, t);
            lemma_insert_evaluated(env, n, eval(m, e, env, depth, t).0);
        },
        Stmt::ArrayAssign(n, i, e) => {
            let (ri, ta) = eval(m, i, env, depth, t);
            if let Ok(x) = ri {
                lemma_eval_evaluated(m, e, env, depth, ta);
                let (rv, tb) = eval(m, e, env, depth, ta);
                if let Ok(v) = rv {
                    if env.dom().contains(n) {
                        let r = crate::semantics::replaced(env[n], x, v);
                        assert(evaluated(env[n]));
                        if let Ok(Value::Array(ws)) = r {
                            let vs = env[n]->Array_0;
                            let at = x->Integer_0 as int;
                            assert forall|j: int| 0 <= j < ws.len() implies evaluated(
                                #[trigger] ws[j],
                            ) by {
                                if j != at {
                                    assert(ws[j] == vs[j]);
                                }
                            }
                        }
                        lemma_insert_evaluated(env, n, r);
                    }
                }
            }
        },
        Stmt::Return(e) => {
            lemma_eval_evaluated(m, e, env, depth, t);
        },
        Stmt::ReturnVoid => {},
        Stmt::If(c, body) => {
            let (r, ta) = eval(m, c, env, depth, t);
            if r == Ok::<Value, Halt>(Value::Boolean(true)) {
                lemma_exec_list_evaluated(m, body, body.len(), env, depth, ta);
            }
        },
    }
}

/// Binding a name to an evaluated value keeps the values of a scope
/// evaluated.
pub proof fn lemma_insert_evaluated(env: Env, name: Name, r: Result<Value, Halt>)
    requires
        env_ok(env),
        r matches Ok(v) ==> evaluated(v),
    ensures
        r matches Ok(v) ==> env_ok(env.insert(name, v)),
{
    if let Ok(v) = r {
        let now = env.insert(name, v);
        assert forall|n: Name| now.dom().contains(n) implies evaluated(#[trigger] now[n]) by {
            if n != name {
                assert(env.dom().contains(n));
                assert(env[n] == now[n]);
            }
        }
    }
}

/// The statements of a body keep the values of the scope evaluated, and
/// return an evaluated value where one of them returns.
pub proof fn lemma_exec_list_evaluated(
    m: Machine,
    body: Seq<Stmt>,
    n: nat,
    env: Env,
    depth: nat,
    t: Trace,
)
    requires
        machine_ok(m),
        body_ok(body),
        env_ok(env),
    ensures
        env_ok(exec_list(m, body, n, env, depth, t).1),
        exec_list(m, body, n, env, depth, t).0 matches Ok(Some(v)) ==> evaluated(v),
    decreases depth, 3nat, body, n,
{
    if n == 0 || n > body.len() {
    } else {
        lemma_exec_list_evaluated(m, body, (n - 1) as nat, env, depth, t);
        let (r, enva, ta) = exec_list(m, body, (n - 1) as nat, env, depth, t);
        if r == Ok::<Option<Value>, Halt>(None) {
            assert(stmt_ok(body[n - 1]));
            lemma_exec_stmt_evaluated(m, body[n - 1], enva, depth, ta);
        }
    }
}

/// What a well-formed program returns holds no list that has not been
/// evaluated.
pub proof fn law_results_are_evaluated(program: Seq<Stmt>, answers: Seq<u32>, depth: nat)
    requires
        program_ok(program),
    ensures
        run(program, answers, depth).0 matches Ok(v) ==> evaluated(v),
{
    let m = Machine { funcs: table(program), answers };
    lemma_table_ok(program);
    if m.funcs.dom().contains("main"@) {
        lemma_invoke_evaluated(m, m.funcs["main"@], seq![], depth, start());
    }
}

} // verus!
