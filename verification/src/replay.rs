//! Running a program again with more answers.
//!
//! A host that meets a pending floating-point operation computes it, adds
//! the result to the answers and runs the program again from its start.
//! The laws here say why that is sound: a run takes the answers in order
//! and never looks at one it has not taken, so that answers added at the end
//! change nothing of a run that ended without them.

use vstd::prelude::*;
use crate::fault::Halt;
use crate::ieee::{FloatOp, FloatRequest};
use crate::model::{Stmt, Term, Value};
use crate::object::apply_op;
use crate::semantics::{
    call, eval, eval_list, exec_list, exec_stmt, invoke, run, settle, start, table, Callee, Env,
    Machine, Trace,
};

verus! {

/// Whether two lists of answers are the same in their first `k` places.
pub open spec fn agree(a: Seq<u32>, b: Seq<u32>, k: nat) -> bool {
    &&& k <= a.len()
    &&& k <= b.len()
    &&& forall|i: int| 0 <= i < k ==> a[i] == b[i]
}

/// Whether a trace continues another: nothing written is taken back, and no
/// answer taken is given back.
pub open spec fn extends(from: Trace, to: Trace) -> bool {
    &&& from.used <= to.used
    &&& from.output.len() <= to.output.len()
    &&& to.output.subrange(0, from.output.len() as int) == from.output
}

/// Whether a computation stopped for want of an answer.
pub open spec fn is_pending<T>(r: Result<T, Halt>) -> bool {
    r matches Err(Halt::Pending(_))
}

/// The larger of two numbers.
pub open spec fn larger(a: nat, b: nat) -> nat {
    if a >= b {
        a
    } else {
        b
    }
}

/// What holds of one computation under two lists of answers that agree in
/// their first `k` places. Under the first list it went from the trace `t`
/// to the trace `t1` with the result `r1`. Then `t1` continues `t`; it
/// has taken no answer beyond the list; where it stopped for want of an
/// answer, none of the list was left; and where it took no more than `k`
/// answers and did not stop for want of one, the computation under the
/// second list went the same way.
pub open spec fn replayed<T>(
    m: Machine,
    k: nat,
    t: Trace,
    r1: Result<T, Halt>,
    t1: Trace,
    r2: Result<T, Halt>,
    t2: Trace,
) -> bool {
    &&& extends(t, t1)
    &&& t1.used <= larger(t.used, m.answers.len())
    &&& is_pending(r1) ==> t1.used >= m.answers.len()
    &&& (t1.used <= k && !is_pending(r1)) ==> (r2 == r1 && t2 == t1)
}

/// A trace that continues a continuation continues the trace itself.
pub proof fn lemma_extends_chain(a: Trace, b: Trace, c: Trace)
    requires
        extends(a, b),
        extends(b, c),
    ensures
        extends(a, c),
{
    assert(c.output.subrange(0, a.output.len() as int) =~= b.output.subrange(
        0,
        a.output.len() as int,
    )) by {
        assert forall|i: int| 0 <= i < a.output.len() implies c.output[i] == b.output[i] by {
            assert(c.output.subrange(0, b.output.len() as int)[i] == b.output[i]);
        }
    }
}

/// Writing continues the trace.
pub proof fn lemma_written_extends(t: Trace, pieces: Seq<crate::model::Piece>)
    ensures
        extends(t, crate::semantics::written(t, pieces)),
{
    assert((t.output + pieces).subrange(0, t.output.len() as int) =~= t.output);
}

/// `settle` under two lists of answers.
pub proof fn lemma_settle_replayed(m1: Machine, m2: Machine, k: nat, r: Result<Value, Halt>, t: Trace)
    requires
        agree(m1.answers, m2.answers, k),
    ensures
        ({
            let (r1, t1) = settle(m1, r, t);
            let (r2, t2) = settle(m2, r, t);
            replayed(m1, k, t, r1, t1, r2, t2)
        }),
{
    assert(t.output.subrange(0, t.output.len() as int) =~= t.output);
}

/// `eval` under two lists of answers.
pub proof fn lemma_eval_replayed(
    m1: Machine,
    m2: Machine,
    k: nat,
    e: Term,
    env: Env,
    depth: nat,
    t: Trace,
)
    requires
        m1.funcs == m2.funcs,
        agree(m1.answers, m2.answers, k),
    ensures
        ({
            let (r1, t1) = eval(m1, e, env, depth, t);
            let (r2, t2) = eval(m2, e, env, depth, t);
            replayed(m1, k, t, r1, t1, r2, t2)
        }),
    decreases depth, 2nat, e, 0nat,
{
    assert(extends(t, t)) by {
        assert(t.output.subrange(0, t.output.len() as int) =~= t.output);
    }
    match e {
        Term::Literal(v) => match v {
            Value::Unevaluated(es) => {
                lemma_eval_list_replayed(m1, m2, k, es, es.len(), env, depth, t);
            },
            _ => {},
        },
        Term::BiOp(l, op, r) => {
            lemma_eval_replayed(m1, m2, k, *l, env, depth, t);
            let (a, ta) = eval(m1, *l, env, depth, t);
            if let Ok(x) = a {
                lemma_eval_replayed(m1, m2, k, *r, env, depth, ta);
                let (b, tb) = eval(m1, *r, env, depth, ta);
                lemma_extends_chain(t, ta, tb);
                if let Ok(y) = b {
                    lemma_settle_replayed(m1, m2, k, apply_op(op, x, y), tb);
                    let (c, tc) = settle(m1, apply_op(op, x, y), tb);
                    lemma_extends_chain(t, tb, tc);
                }
            }
        },
        Term::Var(_) => {},
        Term::Call(n, args) => {
            lemma_eval_list_replayed(m1, m2, k, args, args.len(), env, depth, t);
            let (r, ta) = eval_list(m1, args, args.len(), env, depth, t);
            if let Ok(vs) = r {
                lemma_call_replayed(m1, m2, k, n, vs, depth, ta);
                let (c, tc) = call(m1, n, vs, depth, ta);
                lemma_extends_chain(t, ta, tc);
            }
        },
        Term::Index(a, i) => {
            lemma_eval_replayed(m1, m2, k, *a, env, depth, t);
            let (ra, ta) = eval(m1, *a, env, depth, t);
            if let Ok(x) = ra {
                lemma_eval_replayed(m1, m2, k, *i, env, depth, ta);
                let (ri, ti) = eval(m1, *i, env, depth, ta);
                lemma_extends_chain(t, ta, ti);
            }
        },
    }
}

/// `eval_list` under two lists of answers.
pub proof fn lemma_eval_list_replayed(
    m1: Machine,
    m2: Machine,
    k: nat,
    es: Seq<Term>,
    n: nat,
    env: Env,
    depth: nat,
    t: Trace,
)
    requires
        m1.funcs == m2.funcs,
        agree(m1.answers, m2.answers, k),
    ensures
        ({
            let (r1, t1) = eval_list(m1, es, n, env, depth, t);
            let (r2, t2) = eval_list(m2, es, n, env, depth, t);
            replayed(m1, k, t, r1, t1, r2, t2)
        }),
    decreases depth, 2nat, es, n,
{
    assert(extends(t, t)) by {
        assert(t.output.subrange(0, t.output.len() as int) =~= t.output);
    }
    if n == 0 || n > es.len() {
    } else {
        lemma_eval_list_replayed(m1, m2, k, es, (n - 1) as nat, env, depth, t);
        let (r, ta) = eval_list(m1, es, (n - 1) as nat, env, depth, t);
        if let Ok(vs) = r {
            lemma_eval_replayed(m1, m2, k, es[n - 1], env, depth, ta);
            let (rv, tb) = eval(m1, es[n - 1], env, depth, ta);
            lemma_extends_chain(t, ta, tb);
        }
    }
}

/// `call` under two lists of answers.
pub proof fn lemma_call_replayed(
    m1: Machine,
    m2: Machine,
    k: nat,
    name: Seq<char>,
    args: Seq<Value>,
    depth: nat,
    t: Trace,
)
    requires
        m1.funcs == m2.funcs,
        agree(m1.answers, m2.answers, k),
    ensures
        ({
            let (r1, t1) = call(m1, name, args, depth, t);
            let (r2, t2) = call(m2, name, args, depth, t);
            replayed(m1, k, t, r1, t1, r2, t2)
        }),
    decreases depth, 1nat,
{
    assert(extends(t, t)) by {
        assert(t.output.subrange(0, t.output.len() as int) =~= t.output);
    }
    if m1.funcs.dom().contains(name) {
        lemma_invoke_replayed(m1, m2, k, m1.funcs[name], args, depth, t);
    }
}

/// `invoke` under two lists of answers.
pub proof fn lemma_invoke_replayed(
    m1: Machine,
    m2: Machine,
    k: nat,
    callee: Callee,
    args: Seq<Value>,
    depth: nat,
    t: Trace,
)
    requires
        m1.funcs == m2.funcs,
        agree(m1.answers, m2.answers, k),
    ensures
        ({
            let (r1, t1) = invoke(m1, callee, args, depth, t);
            let (r2, t2) = invoke(m2, callee, args, depth, t);
            replayed(m1, k, t, r1, t1, r2, t2)
        }),
    decreases depth, 0nat,
{
    assert(extends(t, t)) by {
        assert(t.output.subrange(0, t.output.len() as int) =~= t.output);
    }
    match callee {
        Callee::Print => {
            lemma_written_extends(t, crate::stdlib::printed(args));
        },
        Callee::Println => {
            lemma_written_extends(t, crate::stdlib::printed_line(args));
        },
        Callee::User(params, body) => {
            if params.len() == args.len() && depth > 0 {
                lemma_exec_list_replayed(
                    m1,
                    m2,
                    k,
                    body,
                    body.len(),
                    crate::semantics::bind(params, args, params.len()),
                    (depth - 1) as nat,
                    t,
                );
            }
        },
    }
}

/// `exec_stmt` under two lists of answers: the scope, too, is the same.
pub proof fn lemma_exec_stmt_replayed(
    m1: Machine,
    m2: Machine,
    k: nat,
    s: Stmt,
    env: Env,
    depth: nat,
    t: Trace,
)
    requires
        m1.funcs == m2.funcs,
        agree(m1.answers, m2.answers, k),
    ensures
        ({
            let (r1, env1, t1) = exec_stmt(m1, s, env, depth, t);
            let (r2, env2, t2) = exec_stmt(m2, s, env, depth, t);
            &&& replayed(m1, k, t, r1, t1, r2, t2)
            &&& (t1.used <= k && !is_pending(r1)) ==> env2 == env1
        }),
    decreases depth, 3nat, s, 0nat,
{
    assert(extends(t, t)) by {
        assert(t.output.subrange(0, t.output.len() as int) =~= t.output);
    }
    match s {
        Stmt::FuncDef(_, _, _) => {},
        Stmt::Expr(e) => {
            lemma_eval_replayed(m1, m2, k, e, env, depth, t);
        },
        Stmt::VarDecl(_, e) => {
            lemma_eval_replayed(m1, m2, k, e, env, depth, t);
        },
        Stmt::VarAssign(_, e) => {
            lemma_eval_replayed(m1, m2, k, e, env, depth, t);
        },
        Stmt::ArrayAssign(_, i, e) => {
            lemma_eval_replayed(m1, m2, k, i, env, depth, t);
            let (ri, ta) = eval(m1, i, env, depth, t);
            if let Ok(x) = ri {
                lemma_eval_replayed(m1, m2, k, e, env, depth, ta);
                let (rv, tb) = eval(m1, e, env, depth, ta);
                lemma_extends_chain(t, ta, tb);
            }
        },
        Stmt::Return(e) => {
            lemma_eval_replayed(m1, m2, k, e, env, depth, t);
        },
        Stmt::ReturnVoid => {},
        Stmt::If(c, body) => {
            lemma_eval_replayed(m1, m2, k, c, env, depth, t);
            let (r, ta) = eval(m1, c, env, depth, t);
            if r == Ok::<Value, Halt>(Value::Boolean(true)) {
                lemma_exec_list_replayed(m1, m2, k, body, body.len(), env, depth, ta);
                let (rb, _, tb) = exec_list(m1, body, body.len(), env, depth, ta);
                lemma_extends_chain(t, ta, tb);
            }
        },
    }
}

/// `exec_list` under two lists of answers: the scope, too, is the same.
pub proof fn lemma_exec_list_replayed(
    m1: Machine,
    m2: Machine,
    k: nat,
    body: Seq<Stmt>,
    n: nat,
    env: Env,
    depth: nat,
    t: Trace,
)
    requires
        m1.funcs == m2.funcs,
        agree(m1.answers, m2.answers, k),
    ensures
        ({
            let (r1, env1, t1) = exec_list(m1, body, n, env, depth, t);
            let (r2, env2, t2) = exec_list(m2, body, n, env, depth, t);
            &&& replayed(m1, k, t, r1, t1, r2, t2)
            &&& (t1.used <= k && !is_pending(r1)) ==> env2 == env1
        }),
    decreases depth, 3nat, body, n,
{
    assert(extends(t, t)) by {
        assert(t.output.subrange(0, t.output.len() as int) =~= t.output);
    }
    if n == 0 || n > body.len() {
    } else {
        lemma_exec_list_replayed(m1, m2, k, body, (n - 1) as nat, env, depth, t);
        let (r, enva, ta) = exec_list(m1, body, (n - 1) as nat, env, depth, t);
        if r == Ok::<Option<Value>, Halt>(None) {
            lemma_exec_stmt_replayed(m1, m2, k, body[n - 1], enva, depth, ta);
            let (rs, envb, tb) = exec_stmt(m1, body[n - 1], enva, depth, ta);
            lemma_extends_chain(t, ta, tb);
        }
    }
}

/// `extends` is transitive.
pub proof fn lemma_chain(a: Trace, b: Trace, c: Trace)
    ensures
        extends(a, b) && extends(b, c) ==> extends(a, c),
{
    if extends(a, b) && extends(b, c) {
        lemma_extends_chain(a, b, c);
    }
}

/// What holds of one computation under a list of answers and under a list
/// that agrees with it in its first `k` places. Under the first list it
/// stopped at the trace `t1`. Where it stopped for want of an answer, after
/// no more than `k` of them, the computation under the second list, which
/// ended at `t2`, came through `t1`: `t2` continues it.
pub open spec fn continued<T>(k: nat, r1: Result<T, Halt>, t1: Trace, t2: Trace) -> bool {
    (is_pending(r1) && t1.used <= k) ==> extends(t1, t2)
}

/// `eval` under a longer list of answers.
pub proof fn lemma_eval_continued(
    m1: Machine,
    m2: Machine,
    k: nat,
    e: Term,
    env: Env,
    depth: nat,
    t: Trace,
)
    requires
        m1.funcs == m2.funcs,
        agree(m1.answers, m2.answers, k),
    ensures
        ({
            let (r1, t1) = eval(m1, e, env, depth, t);
            let (r2, t2) = eval(m2, e, env, depth, t);
            continued(k, r1, t1, t2)
        }),
    decreases depth, 2nat, e, 0nat,
{
    assert(agree(m2.answers, m2.answers, 0));
    match e {
        Term::Literal(v) => match v {
            Value::Unevaluated(es) => {
                lemma_eval_list_continued(m1, m2, k, es, es.len(), env, depth, t);
            },
            _ => {},
        },
        Term::BiOp(l, op, r) => {
            lemma_eval_replayed(m1, m2, k, *l, env, depth, t);
            lemma_eval_continued(m1, m2, k, *l, env, depth, t);
            let (a, ta) = eval(m1, *l, env, depth, t);
            let (a2, ta2) = eval(m2, *l, env, depth, t);
            let (_, t2) = eval(m2, e, env, depth, t);
            if let Ok(x2) = a2 {
                lemma_eval_replayed(m2, m2, 0, *r, env, depth, ta2);
                let (b2, tb2) = eval(m2, *r, env, depth, ta2);
                if let Ok(y2) = b2 {
                    lemma_settle_replayed(m2, m2, 0, apply_op(op, x2, y2), tb2);
                }
                lemma_chain(ta2, tb2, t2);
            }
            lemma_chain(ta, ta2, t2);
            if let Ok(x) = a {
                lemma_eval_replayed(m1, m2, k, *r, env, depth, ta);
                lemma_eval_continued(m1, m2, k, *r, env, depth, ta);
                let (b, tb) = eval(m1, *r, env, depth, ta);
                let (b2, tb2) = eval(m2, *r, env, depth, ta);
                lemma_chain(tb, tb2, t2);
                if let Ok(y) = b {
                    lemma_settle_replayed(m1, m2, k, apply_op(op, x, y), tb);
                    lemma_settle_replayed(m2, m2, 0, apply_op(op, x, y), tb);
                }
            }
        },
        Term::Var(_) => {},
        Term::Call(n, args) => {
            lemma_eval_list_replayed(m1, m2, k, args, args.len(), env, depth, t);
            lemma_eval_list_continued(m1, m2, k, args, args.len(), env, depth, t);
            let (r, ta) = eval_list(m1, args, args.len(), env, depth, t);
            let (r2, ta2) = eval_list(m2, args, args.len(), env, depth, t);
            let (_, t2) = eval(m2, e, env, depth, t);
            if let Ok(vs2) = r2 {
                lemma_call_replayed(m2, m2, 0, n, vs2, depth, ta2);
            }
            lemma_chain(ta, ta2, t2);
            if let Ok(vs) = r {
                lemma_call_replayed(m1, m2, k, n, vs, depth, ta);
                lemma_call_continued(m1, m2, k, n, vs, depth, ta);
            }
        },
        Term::Index(a, i) => {
            lemma_eval_replayed(m1, m2, k, *a, env, depth, t);
            lemma_eval_continued(m1, m2, k, *a, env, depth, t);
            let (ra, ta) = eval(m1, *a, env, depth, t);
            let (ra2, ta2) = eval(m2, *a, env, depth, t);
            let (_, t2) = eval(m2, e, env, depth, t);
            if let Ok(x2) = ra2 {
                lemma_eval_replayed(m2, m2, 0, *i, env, depth, ta2);
            }
            lemma_chain(ta, ta2, t2);
            if let Ok(x) = ra {
                lemma_eval_replayed(m1, m2, k, *i, env, depth, ta);
                lemma_eval_continued(m1, m2, k, *i, env, depth, ta);
            }
        },
    }
}

/// `eval_list` under a longer list of answers.
pub proof fn lemma_eval_list_continued(
    m1: Machine,
    m2: Machine,
    k: nat,
    es: Seq<Term>,
    n: nat,
    env: Env,
    depth: nat,
    t: Trace,
)
    requires
        m1.funcs == m2.funcs,
        agree(m1.answers, m2.answers, k),
    ensures
        ({
            let (r1, t1) = eval_list(m1, es, n, env, depth, t);
            let (r2, t2) = eval_list(m2, es, n, env, depth, t);
            continued(k, r1, t1, t2)
        }),
    decreases depth, 2nat, es, n,
{
    assert(agree(m2.answers, m2.answers, 0));
    if n == 0 || n > es.len() {
    } else {
        lemma_eval_list_replayed(m1, m2, k, es, (n - 1) as nat, env, depth, t);
        lemma_eval_list_continued(m1, m2, k, es, (n - 1) as nat, env, depth, t);
        let (r, ta) = eval_list(m1, es, (n - 1) as nat, env, depth, t);
        let (r2, ta2) = eval_list(m2, es, (n - 1) as nat, env, depth, t);
        let (_, t2) = eval_list(m2, es, n, env, depth, t);
        if let Ok(vs2) = r2 {
            lemma_eval_replayed(m2, m2, 0, es[n - 1], env, depth, ta2);
        }
        lemma_chain(ta, ta2, t2);
        if let Ok(vs) = r {
            lemma_eval_replayed(m1, m2, k, es[n - 1], env, depth, ta);
            lemma_eval_continued(m1, m2, k, es[n - 1], env, depth, ta);
        }
    }
}

/// `call` under a longer list of answers.
pub proof fn lemma_call_continued(
    m1: Machine,
    m2: Machine,
    k: nat,
    name: Seq<char>,
    args: Seq<Value>,
    depth: nat,
    t: Trace,
)
    requires
        m1.funcs == m2.funcs,
        agree(m1.answers, m2.answers, k),
    ensures
        ({
            let (r1, t1) = call(m1, name, args, depth, t);
            let (r2, t2) = call(m2, name, args, depth, t);
            continued(k, r1, t1, t2)
        }),
    decreases depth, 1nat,
{
    if m1.funcs.dom().contains(name) {
        lemma_invoke_continued(m1, m2, k, m1.funcs[name], args, depth, t);
    }
}

/// `invoke` under a longer list of answers.
pub proof fn lemma_invoke_continued(
    m1: Machine,
    m2: Machine,
    k: nat,
    callee: Callee,
    args: Seq<Value>,
    depth: nat,
    t: Trace,
)
    requires
        m1.funcs == m2.funcs,
        agree(m1.answers, m2.answers, k),
    ensures
        ({
            let (r1, t1) = invoke(m1, callee, args, depth, t);
            let (r2, t2) = invoke(m2, callee, args, depth, t);
            continued(k, r1, t1, t2)
        }),
    decreases depth, 0nat,
{
    match callee {
        Callee::User(params, body) => {
            if params.len() == args.len() && depth > 0 {
                lemma_exec_list_continued(
                    m1,
                    m2,
                    k,
                    body,
                    body.len(),
                    crate::semantics::bind(params, args, params.len()),
                    (depth - 1) as nat,
                    t,
                );
            }
        },
        _ => {},
    }
}

/// `exec_stmt` under a longer list of answers.
pub proof fn lemma_exec_stmt_continued(
    m1: Machine,
    m2: Machine,
    k: nat,
    s: Stmt,
    env: Env,
    depth: nat,
    t: Trace,
)
    requires
        m1.funcs == m2.funcs,
        agree(m1.answers, m2.answers, k),
    ensures
        ({
            let (r1, _, t1) = exec_stmt(m1, s, env, depth, t);
            let (r2, _, t2) = exec_stmt(m2, s, env, depth, t);
            continued(k, r1, t1, t2)
        }),
    decreases depth, 3nat, s, 0nat,
{
    assert(agree(m2.answers, m2.answers, 0));
    match s {
        Stmt::FuncDef(_, _, _) => {},
        Stmt::Expr(e) => {
            lemma_eval_continued(m1, m2, k, e, env, depth, t);
        },
        Stmt::VarDecl(_, e) => {
            lemma_eval_continued(m1, m2, k, e, env, depth, t);
        },
        Stmt::VarAssign(_, e) => {
            lemma_eval_continued(m1, m2, k, e, env, depth, t);
        },
        Stmt::ArrayAssign(_, i, e) => {
            lemma_eval_replayed(m1, m2, k, i, env, depth, t);
            lemma_eval_continued(m1, m2, k, i, env, depth, t);
            let (ri, ta) = eval(m1, i, env, depth, t);
            let (ri2, ta2) = eval(m2, i, env, depth, t);
            let (_, _, t2) = exec_stmt(m2, s, env, depth, t);
            if let Ok(x2) = ri2 {
                lemma_eval_replayed(m2, m2, 0, e, env, depth, ta2);
            }
            lemma_chain(ta, ta2, t2);
            if let Ok(x) = ri {
                lemma_eval_replayed(m1, m2, k, e, env, depth, ta);
                lemma_eval_continued(m1, m2, k, e, env, depth, ta);
            }
        },
        Stmt::Return(e) => {
            lemma_eval_continued(m1, m2, k, e, env, depth, t);
        },
        Stmt::ReturnVoid => {},
        Stmt::If(c, body) => {
            lemma_eval_replayed(m1, m2, k, c, env, depth, t);
            lemma_eval_continued(m1, m2, k, c, env, depth, t);
            let (r, ta) = eval(m1, c, env, depth, t);
            let (r2, ta2) = eval(m2, c, env, depth, t);
            let (_, _, t2) = exec_stmt(m2, s, env, depth, t);
            if r2 == Ok::<Value, Halt>(Value::Boolean(true)) {
                lemma_exec_list_replayed(m2, m2, 0, body, body.len(), env, depth, ta2);
            }
            lemma_chain(ta, ta2, t2);
            if r == Ok::<Value, Halt>(Value::Boolean(true)) {
                lemma_exec_list_replayed(m1, m2, k, body, body.len(), env, depth, ta);
                lemma_exec_list_continued(m1, m2, k, body, body.len(), env, depth, ta);
            }
        },
    }
}

/// `exec_list` under a longer list of answers.
pub proof fn lemma_exec_list_continued(
    m1: Machine,
    m2: Machine,
    k: nat,
    body: Seq<Stmt>,
    n: nat,
    env: Env,
    depth: nat,
    t: Trace,
)
    requires
        m1.funcs == m2.funcs,
        agree(m1.answers, m2.answers, k),
    ensures
        ({
            let (r1, _, t1) = exec_list(m1, body, n, env, depth, t);
            let (r2, _, t2) = exec_list(m2, body, n, env, depth, t);
            continued(k, r1, t1, t2)
        }),
    decreases depth, 3nat, body, n,
{
    assert(agree(m2.answers, m2.answers, 0));
    if n == 0 || n > body.len() {
    } else {
        lemma_exec_list_replayed(m1, m2, k, body, (n - 1) as nat, env, depth, t);
        lemma_exec_list_continued(m1, m2, k, body, (n - 1) as nat, env, depth, t);
        let (r, enva, ta) = exec_list(m1, body, (n - 1) as nat, env, depth, t);
        let (r2, enva2, ta2) = exec_list(m2, body, (n - 1) as nat, env, depth, t);
        let (_, _, t2) = exec_list(m2, body, n, env, depth, t);
        if r2 == Ok::<Option<Value>, Halt>(None) {
            lemma_exec_stmt_replayed(m2, m2, 0, body[n - 1], enva2, depth, ta2);
        }
        lemma_chain(ta, ta2, t2);
        if r == Ok::<Option<Value>, Halt>(None) {
            lemma_exec_stmt_replayed(m1, m2, k, body[n - 1], enva, depth, ta);
            lemma_exec_stmt_continued(m1, m2, k, body[n - 1], enva, depth, ta);
        }
    }
}

/// A run that ended, with a value or with a fault, ends in the same way
/// and with the same output whatever answers are added after those that it
/// was given.
pub proof fn law_more_answers_change_nothing(
    program: Seq<Stmt>,
    answers: Seq<u32>,
    more: Seq<u32>,
    depth: nat,
)
    requires
        !is_pending(run(program, answers, depth).0),
    ensures
        run(program, answers + more, depth) == run(program, answers, depth),
{
    let m1 = Machine { funcs: table(program), answers };
    let m2 = Machine { funcs: table(program), answers: answers + more };
    assert(agree(answers, answers + more, answers.len()));
    if m1.funcs.dom().contains("main"@) {
        lemma_invoke_replayed(m1, m2, answers.len(), m1.funcs["main"@], seq![], depth, start());
    }
}

/// A run takes no answer beyond those that it was given, and where it
/// stops for want of an answer it has taken them all: the answer that the
/// host adds is the one that the pending operation gets.
pub proof fn law_pending_run_took_every_answer(program: Seq<Stmt>, answers: Seq<u32>, depth: nat)
    ensures
        run(program, answers, depth).1.used <= answers.len(),
        is_pending(run(program, answers, depth).0) ==> run(program, answers, depth).1.used
            == answers.len(),
{
    let m = Machine { funcs: table(program), answers };
    if m.funcs.dom().contains("main"@) {
        lemma_invoke_replayed(m, m, 0, m.funcs["main"@], seq![], depth, start());
    }
}

/// A run that stopped for want of an answer is the beginning of the run
/// with more answers: what it had written is what that run writes first,
/// in the same order.
pub proof fn law_rerun_continues(program: Seq<Stmt>, answers: Seq<u32>, more: Seq<u32>, depth: nat)
    requires
        is_pending(run(program, answers, depth).0),
    ensures
        extends(run(program, answers, depth).1, run(program, answers + more, depth).1),
{
    let m1 = Machine { funcs: table(program), answers };
    let m2 = Machine { funcs: table(program), answers: answers + more };
    assert(agree(answers, answers + more, answers.len()));
    law_pending_run_took_every_answer(program, answers, depth);
    if m1.funcs.dom().contains("main"@) {
        lemma_invoke_continued(m1, m2, answers.len(), m1.funcs["main"@], seq![], depth, start());
    }
}

/// Whether a list of answers is what a host makes of a program: each
/// answer is the host's result of the operation at which the run with the
/// answers before it stopped.
pub open spec fn faithful(
    program: Seq<Stmt>,
    answers: Seq<u32>,
    host: spec_fn(FloatRequest) -> u32,
    depth: nat,
) -> bool {
    forall|k: int|
        0 <= k < answers.len() ==> (#[trigger] run(program, answers.take(k), depth)).0
            == Err::<Value, Halt>(Halt::Pending(awaited(program, answers.take(k), depth)))
            && answers[k] == host(awaited(program, answers.take(k), depth))
}

/// The operation at which a run stopped, where it stopped for want of an
/// answer.
pub open spec fn awaited(program: Seq<Stmt>, answers: Seq<u32>, depth: nat) -> FloatRequest {
    match run(program, answers, depth).0 {
        Err(Halt::Pending(request)) => request,
        _ => FloatRequest { op: FloatOp::Add, lhs: 0, rhs: 0 },
    }
}

/// Two lists of answers that one host makes of one program are the same
/// as far as both go.
pub proof fn lemma_faithful_agree(
    program: Seq<Stmt>,
    a: Seq<u32>,
    b: Seq<u32>,
    host: spec_fn(FloatRequest) -> u32,
    depth: nat,
    n: nat,
)
    requires
        faithful(program, a, host, depth),
        faithful(program, b, host, depth),
        n <= a.len(),
        n <= b.len(),
    ensures
        a.take(n as int) == b.take(n as int),
    decreases n,
{
    if n == 0 {
        assert(a.take(0) =~= b.take(0));
    } else {
        lemma_faithful_agree(program, a, b, host, depth, (n - 1) as nat);
        let k = n - 1;
        assert(run(program, a.take(k), depth).0 == Err::<Value, Halt>(
            Halt::Pending(awaited(program, a.take(k), depth)),
        ));
        assert(run(program, b.take(k), depth).0 == Err::<Value, Halt>(
            Halt::Pending(awaited(program, b.take(k), depth)),
        ));
        assert(a[k] == b[k]);
        assert(a.take(n as int) =~= a.take(k).push(a[k]));
        assert(b.take(n as int) =~= b.take(k).push(b[k]));
    }
}

/// A host that answers each operation of a program as a function of the
/// operation brings the program to one end: the answers that lead to the
/// end of a run are determined by the program and the host, and so are the
/// result and the output.
pub proof fn law_host_determines_run(
    program: Seq<Stmt>,
    a: Seq<u32>,
    b: Seq<u32>,
    host: spec_fn(FloatRequest) -> u32,
    depth: nat,
)
    requires
        faithful(program, a, host, depth),
        faithful(program, b, host, depth),
        !is_pending(run(program, a, depth).0),
        !is_pending(run(program, b, depth).0),
    ensures
        a == b,
        run(program, a, depth) == run(program, b, depth),
{
    let n = if a.len() <= b.len() {
        a.len()
    } else {
        b.len()
    };
    lemma_faithful_agree(program, a, b, host, depth, n);
    assert(a.take(a.len() as int) =~= a);
    assert(b.take(b.len() as int) =~= b);
    if a.len() < b.len() {
        assert(is_pending(run(program, b.take(a.len() as int), depth).0));
    } else if b.len() < a.len() {
        assert(is_pending(run(program, a.take(b.len() as int), depth).0));
    }
}

} // verus!
