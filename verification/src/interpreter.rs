//! The evaluator: it walks the statements and expressions of a program.

use vstd::prelude::*;
use vstd::string::StringExecFns;
use crate::ast::{lemma_stmts_of, lemma_terms_of, names_of, stmts_of, terms_of, Expr, AST};
use crate::fault::{Fault, Halt};
use crate::model::{
    all_evaluated, body_ok, evaluated, program_ok, stmt_ok, term_ok, terms_ok, Name, Stmt, Term,
    Value,
};
use crate::object::{lemma_values_of, outcome, values_of, Object};
use crate::scope::Scope;
use crate::semantics::{
    bind, call, callee_ok, defined, element, eval, eval_list, exec_list, exec_stmt, invoke,
    replaced, run, settle, start, table, table_ok, Callee, Env, Machine, Trace,
};
use crate::stdlib::Output;

verus! {

/// What a name of the function table stands for.
pub enum FuncBody {
    /// A function of the program: its parameters and its body.
    AstBody(Vec<String>, Vec<AST>),
    /// The built-in `print`.
    Print,
    /// The built-in `println`.
    Println,
}

impl View for FuncBody {
    type V = Callee;

    open spec fn view(&self) -> Callee {
        match self {
            FuncBody::AstBody(params, body) => Callee::User(names_of(params@), stmts_of(body@)),
            FuncBody::Print => Callee::Print,
            FuncBody::Println => Callee::Println,
        }
    }
}

/// What a running program has done to the outside so far.
#[derive(Debug, PartialEq)]
pub struct Journal {
    /// Its writes.
    pub output: Output,
    /// How many of the host's floating-point answers it has taken.
    pub floats_used: usize,
}

impl View for Journal {
    type V = Trace;

    open spec fn view(&self) -> Trace {
        Trace { output: self.output@, used: self.floats_used as nat }
    }
}

impl Journal {
    /// The journal of a program that has not started.
    pub fn new() -> (r: Journal)
        ensures
            r@ == start(),
    {
        Journal { output: Output::new(), floats_used: 0 }
    }
}

/// How a run of a program ended, and what it did until then.
#[derive(Debug, PartialEq)]
pub struct Report {
    /// The value that `main` returned, or why the run stopped before.
    pub result: Result<Object, Halt>,
    /// What the program wrote and took until it ended or stopped.
    pub journal: Journal,
}

impl View for Report {
    type V = (Result<Value, Halt>, Trace);

    open spec fn view(&self) -> (Result<Value, Halt>, Trace) {
        (outcome(self.result), self.journal@)
    }
}

/// How a body ended, with the object replaced by its value.
pub open spec fn flow(r: Result<Option<Object>, Halt>) -> Result<Option<Value>, Halt> {
    match r {
        Ok(Some(o)) => Ok(Some(o@)),
        Ok(None) => Ok(None),
        Err(h) => Err(h),
    }
}

/// The function table that the first `n` entries of a list make, a later
/// entry of a name replacing an earlier one.
pub open spec fn listed(funcs: Seq<(String, FuncBody)>, n: nat) -> Map<Name, Callee>
    decreases n,
{
    if n == 0 {
        Map::empty()
    } else {
        listed(funcs, (n - 1) as nat).insert(funcs[n - 1].0@, funcs[n - 1].1@)
    }
}

/// Two lists that agree on their first `n` entries make the same table of
/// them.
proof fn lemma_listed_prefix(a: Seq<(String, FuncBody)>, b: Seq<(String, FuncBody)>, n: nat)
    requires
        n <= a.len(),
        n <= b.len(),
        forall|j: int| 0 <= j < n ==> a[j].0@ == b[j].0@ && a[j].1@ == b[j].1@,
    ensures
        listed(a, n) == listed(b, n),
    decreases n,
{
    if n > 0 {
        lemma_listed_prefix(a, b, (n - 1) as nat);
    }
}

/// A name that none of the first `n` entries has is not in their table.
proof fn lemma_listed_absent(funcs: Seq<(String, FuncBody)>, n: nat, name: Name)
    requires
        n <= funcs.len(),
        forall|j: int| 0 <= j < n ==> funcs[j].0@ != name,
    ensures
        !listed(funcs, n).dom().contains(name),
    decreases n,
{
    if n > 0 {
        lemma_listed_absent(funcs, (n - 1) as nat, name);
    }
}

/// The table gives a name the function of the last entry that has it.
proof fn lemma_listed_last(funcs: Seq<(String, FuncBody)>, n: nat, i: int, name: Name)
    requires
        0 <= i < n <= funcs.len(),
        funcs[i].0@ == name,
        forall|j: int| i < j < n ==> funcs[j].0@ != name,
    ensures
        listed(funcs, n).dom().contains(name),
        listed(funcs, n)[name] == funcs[i].1@,
    decreases n,
{
    if n > i + 1 {
        lemma_listed_last(funcs, (n - 1) as nat, i, name);
    }
}

/// The effect of one statement more.
pub proof fn lemma_exec_list_step(
    m: Machine,
    body: Seq<Stmt>,
    n: nat,
    env: Env,
    depth: nat,
    t: Trace,
)
    requires
        0 < n <= body.len(),
    ensures
        exec_list(m, body, n, env, depth, t) == ({
            let (r, env1, t1) = exec_list(m, body, (n - 1) as nat, env, depth, t);
            match r {
                Ok(None) => exec_stmt(m, body[n - 1], env1, depth, t1),
                _ => (r, env1, t1),
            }
        }),
{
}

/// The value of one expression more.
pub proof fn lemma_eval_list_step(
    m: Machine,
    es: Seq<Term>,
    n: nat,
    env: Env,
    depth: nat,
    t: Trace,
)
    requires
        0 < n <= es.len(),
    ensures
        eval_list(m, es, n, env, depth, t) == ({
            let (r, t1) = eval_list(m, es, (n - 1) as nat, env, depth, t);
            match r {
                Err(h) => (Err(h), t1),
                Ok(vs) => {
                    let (rv, t2) = eval(m, es[n - 1], env, depth, t1);
                    match rv {
                        Err(h) => (Err(h), t2),
                        Ok(v) => (Ok(vs.push(v)), t2),
                    }
                },
            }
        }),
{
}

/// A table of well-formed functions is well formed.
proof fn lemma_listed_ok(funcs: Seq<(String, FuncBody)>, n: nat)
    requires
        n <= funcs.len(),
        forall|j: int| 0 <= j < n ==> callee_ok(#[trigger] funcs[j].1@),
    ensures
        table_ok(listed(funcs, n)),
    decreases n,
{
    if n > 0 {
        lemma_listed_ok(funcs, (n - 1) as nat);
        let earlier = listed(funcs, (n - 1) as nat);
        let now = listed(funcs, n);
        assert(callee_ok(funcs[n - 1].1@));
        assert forall|name: Name| now.dom().contains(name) implies callee_ok(
            #[trigger] now[name],
        ) by {
            if name != funcs[n - 1].0@ {
                assert(earlier.dom().contains(name));
                assert(earlier[name] == now[name]);
            }
        }
    }
}

/// Once a statement has returned or halted, the statements after it change
/// nothing.
pub proof fn lemma_exec_list_stops(
    m: Machine,
    body: Seq<Stmt>,
    k: nat,
    n: nat,
    env: Env,
    depth: nat,
    t: Trace,
)
    requires
        k <= n <= body.len(),
        exec_list(m, body, k, env, depth, t).0 != Ok::<Option<Value>, Halt>(None),
    ensures
        exec_list(m, body, n, env, depth, t) == exec_list(m, body, k, env, depth, t),
    decreases n,
{
    if n > k {
        lemma_exec_list_stops(m, body, k, (n - 1) as nat, env, depth, t);
    }
}

/// Once an expression of a list has halted, those after it are not
/// evaluated.
pub proof fn lemma_eval_list_stops(
    m: Machine,
    es: Seq<Term>,
    k: nat,
    n: nat,
    env: Env,
    depth: nat,
    t: Trace,
)
    requires
        k <= n <= es.len(),
        eval_list(m, es, k, env, depth, t).0 is Err,
    ensures
        eval_list(m, es, n, env, depth, t) == eval_list(m, es, k, env, depth, t),
    decreases n,
{
    if n > k {
        lemma_eval_list_stops(m, es, k, (n - 1) as nat, env, depth, t);
    }
}

/// The evaluator of one program: its function table, and the answers that
/// the host has given to its floating-point operations so far. Neither
/// changes while the program runs.
pub struct Interpreter {
    funcs: Vec<(String, FuncBody)>,
    answers: Vec<u32>,
}

impl View for Interpreter {
    type V = Machine;

    closed spec fn view(&self) -> Machine {
        Machine { funcs: listed(self.funcs@, self.funcs.len() as nat), answers: self.answers@ }
    }
}

impl Interpreter {
    /// Every function of the table has a well-formed body.
    #[verifier::type_invariant]
    spec fn sound(self) -> bool {
        table_ok(listed(self.funcs@, self.funcs.len() as nat))
    }

    /// The entry of a name in the function table, if it has one.
    fn lookup(&self, name: &String) -> (r: Option<&FuncBody>)
        ensures
            match r {
                Some(f) => self@.funcs.dom().contains(name@) && f@ == self@.funcs[name@]
                    && callee_ok(f@),
                None => !self@.funcs.dom().contains(name@),
            },
    {
        proof {
            use_type_invariant(self);
        }
        let mut i: usize = self.funcs.len();
        while i > 0
            invariant
                i <= self.funcs.len(),
                table_ok(listed(self.funcs@, self.funcs.len() as nat)),
                forall|j: int| i <= j < self.funcs.len() ==> self.funcs[j].0@ != name@,
            decreases i,
        {
            i -= 1;
            if self.funcs[i].0 == *name {
                proof {
                    lemma_listed_last(self.funcs@, self.funcs.len() as nat, i as int, name@);
                }
                return Some(&self.funcs[i].1);
            }
        }
        proof {
            lemma_listed_absent(self.funcs@, self.funcs.len() as nat, name@);
        }
        None
    }

    /// The evaluator of a program, with the answers that the host has given
    /// to its floating-point operations so far. The built-in functions are
    /// entered after those of the program: a function of the program that
    /// has the name of a built-in one is never called.
    pub fn new(ast: &Vec<AST>, answers: Vec<u32>) -> (r: Interpreter)
        requires
            program_ok(stmts_of(ast@)),
        ensures
            r@ == (Machine { funcs: table(stmts_of(ast@)), answers: answers@ }),
    {
        let ghost program = stmts_of(ast@);
        proof {
            lemma_stmts_of(ast@);
        }
        let mut funcs: Vec<(String, FuncBody)> = Vec::new();
        let mut i: usize = 0;
        while i < ast.len()
            invariant
                i <= ast.len(),
                funcs.len() == i,
                program == stmts_of(ast@),
                program.len() == ast.len(),
                forall|j: int| 0 <= j < ast.len() ==> #[trigger] program[j] == ast[j]@,
                program_ok(program),
                listed(funcs@, i as nat) == defined(program, i as nat),
                forall|j: int| 0 <= j < i ==> callee_ok(#[trigger] funcs[j].1@),
            decreases ast.len() - i,
        {
            assert(program[i as int] is FuncDef);
            let func = ast[i].unwrap_function();
            let ghost earlier = funcs@;
            funcs.push((func.0, FuncBody::AstBody(func.1, func.2)));
            proof {
                lemma_listed_prefix(earlier, funcs@, i as nat);
            }
            i += 1;
        }
        let ghost defined_funcs = funcs@;
        funcs.push((String::from_str("println"), FuncBody::Println));
        let ghost with_println = funcs@;
        funcs.push((String::from_str("print"), FuncBody::Print));
        proof {
            lemma_listed_prefix(defined_funcs, with_println, i as nat);
            lemma_listed_prefix(with_println, funcs@, (i + 1) as nat);
            lemma_listed_ok(funcs@, funcs.len() as nat);
        }
        Interpreter { funcs, answers }
    }

    /// Runs a program: calls its function `main` without arguments.
    ///
    /// `answers` holds the results of the floating-point operations of the
    /// program, in the order in which the program comes to them. Where the
    /// program comes to one more than `answers` holds, the run stops with
    /// `Halt::Pending` and the operation; the host computes it, adds the
    /// result to `answers` and runs the program again. `depth` is the
    /// number of nested calls of functions of the program that are allowed;
    /// a call beyond it is a `StackOverflow`.
    pub fn interpret(ast: Vec<AST>, answers: Vec<u32>, depth: usize) -> (r: Report)
        requires
            program_ok(stmts_of(ast@)),
        ensures
            r@ == run(stmts_of(ast@), answers@, depth as nat),
    {
        let machine = Interpreter::new(&ast, answers);
        let mut journal = Journal::new();
        let args: Vec<Object> = Vec::new();
        assert(values_of(args@) =~= Seq::<Value>::empty());
        let result = match machine.lookup(&String::from_str("main")) {
            Some(func) => machine.walk_function(func, args, depth, &mut journal),
            None => Err(Halt::Fault(Fault::MissingEntryPoint)),
        };
        Report { result, journal }
    }

    /// Meets a request for a floating-point operation with the next answer
    /// of the host, where one is left.
    fn settle(&self, r: Result<Object, Halt>, journal: &mut Journal) -> (res: Result<Object, Halt>)
        ensures
            (outcome(res), final(journal)@) == settle(self@, outcome(r), old(journal)@),
            (r matches Ok(o) ==> evaluated(o@)) ==> (res matches Ok(o) ==> evaluated(o@)),
    {
        match r {
            Err(Halt::Pending(request)) => {
                if journal.floats_used < self.answers.len() {
                    let answer = self.answers[journal.floats_used];
                    journal.floats_used = journal.floats_used + 1;
                    Ok(Object::Float(answer))
                } else {
                    Err(Halt::Pending(request))
                }
            },
            other => other,
        }
    }

    /// Calls a function by its name, with arguments that have been
    /// evaluated. A name that the function table does not hold is an
    /// `UndefinedFunction`.
    pub fn invoke(&self, name: &String, args: Vec<Object>, depth: usize, journal: &mut Journal) -> (r:
        Result<Object, Halt>)
        requires
            all_evaluated(values_of(args@)),
        ensures
            (outcome(r), final(journal)@) == call(
                self@,
                name@,
                values_of(args@),
                depth as nat,
                old(journal)@,
            ),
            r matches Ok(o) ==> evaluated(o@),
        decreases depth, 1nat,
    {
        match self.lookup(name) {
            Some(func) => self.walk_function(func, args, depth, journal),
            None => Err(Halt::Fault(Fault::UndefinedFunction)),
        }
    }

    /// Calls a function that has been looked up, with arguments that have
    /// been evaluated. `depth` is the number of nested calls of functions
    /// of the program that may still be entered.
    pub fn walk_function(
        &self,
        func: &FuncBody,
        args: Vec<Object>,
        depth: usize,
        journal: &mut Journal,
    ) -> (r: Result<Object, Halt>)
        requires
            callee_ok(func@),
            all_evaluated(values_of(args@)),
        ensures
            (outcome(r), final(journal)@) == invoke(
                self@,
                func@,
                values_of(args@),
                depth as nat,
                old(journal)@,
            ),
            r matches Ok(o) ==> evaluated(o@),
        decreases depth, 0nat,
    {
        proof {
            lemma_values_of(args@);
        }
        match func {
            FuncBody::Print => Ok(crate::stdlib::print(args, &mut journal.output)),
            FuncBody::Println => Ok(crate::stdlib::println(args, &mut journal.output)),
            FuncBody::AstBody(params, body) => {
                if params.len() != args.len() {
                    return Err(Halt::Fault(Fault::ArityMismatch));
                }
                if depth == 0 {
                    return Err(Halt::Fault(Fault::StackOverflow));
                }
                let mut env = Scope::new();
                let mut pos: usize = 0;
                while pos < params.len()
                    invariant
                        pos <= params.len(),
                        params.len() == args.len(),
                        all_evaluated(values_of(args@)),
                        values_of(args@).len() == args.len(),
                        forall|j: int| 0 <= j < args.len() ==> #[trigger] values_of(args@)[j] == args[j]@,
                        env@ == bind(names_of(params@), values_of(args@), pos as nat),
                    decreases params.len() - pos,
                {
                    assert(evaluated(values_of(args@)[pos as int]));
                    env.set_var(params[pos].clone(), args[pos].clone());
                    pos += 1;
                }
                match self.walk_body(body, &mut env, depth - 1, journal) {
                    Ok(Some(v)) => Ok(v),
                    Ok(None) => Ok(Object::Void),
                    Err(h) => Err(h),
                }
            },
        }
    }

    /// Runs the statements of a body in order, in the given scope, until
    /// one of them returns or halts. The result is `Some` where one
    /// returned, with the value returned, and `None` where the body ran off
    /// its end.
    pub fn walk_body(
        &self,
        body: &Vec<AST>,
        env: &mut Scope,
        depth: usize,
        journal: &mut Journal,
    ) -> (r: Result<Option<Object>, Halt>)
        requires
            body_ok(stmts_of(body@)),
        ensures
            (flow(r), final(env)@, final(journal)@) == exec_list(
                self@,
                stmts_of(body@),
                body.len() as nat,
                old(env)@,
                depth as nat,
                old(journal)@,
            ),
            r matches Ok(Some(o)) ==> evaluated(o@),
        decreases depth, 3nat, body, 0nat,
    {
        let ghost env0 = env@;
        let ghost t0 = journal@;
        let ghost stmts = stmts_of(body@);
        proof {
            lemma_stmts_of(body@);
        }
        let mut i: usize = 0;
        while i < body.len()
            invariant
                i <= body.len(),
                env0 == old(env)@,
                t0 == old(journal)@,
                stmts == stmts_of(body@),
                stmts.len() == body.len(),
                forall|j: int| 0 <= j < body.len() ==> #[trigger] stmts[j] == body[j]@,
                body_ok(stmts),
                exec_list(self@, stmts, i as nat, env0, depth as nat, t0) == (
                    Ok::<Option<Value>, Halt>(None),
                    env@,
                    journal@,
                ),
            decreases body.len() - i,
        {
            assert(stmt_ok(stmts[i as int]));
            let r = self.walk_stmt(&body[i], env, depth, journal);
            proof {
                lemma_exec_list_step(self@, stmts, (i + 1) as nat, env0, depth as nat, t0);
            }
            match r {
                Ok(None) => {
                    i += 1;
                },
                _ => {
                    proof {
                        lemma_exec_list_stops(
                            self@,
                            stmts,
                            (i + 1) as nat,
                            body.len() as nat,
                            env0,
                            depth as nat,
                            t0,
                        );
                    }
                    return r;
                },
            }
        }
        Ok(None)
    }

    /// Runs one statement in the given scope.
    pub fn walk_stmt(&self, stmt: &AST, env: &mut Scope, depth: usize, journal: &mut Journal) -> (r:
        Result<Option<Object>, Halt>)
        requires
            stmt_ok(stmt@),
        ensures
            (flow(r), final(env)@, final(journal)@) == exec_stmt(
                self@,
                stmt@,
                old(env)@,
                depth as nat,
                old(journal)@,
            ),
            r matches Ok(Some(o)) ==> evaluated(o@),
        decreases depth, 3nat, stmt, 0nat,
    {
        match stmt {
            AST::FuncDef(_, _, _) => Ok(None),
            AST::Expr(e) => match self.walk_expr(e, env, depth, journal) {
                Ok(_) => Ok(None),
                Err(h) => Err(h),
            },
            AST::Return(e) => match self.walk_expr(e, env, depth, journal) {
                Ok(v) => Ok(Some(v)),
                Err(h) => Err(h),
            },
            AST::VarDecl(var, val) => match self.walk_expr(val, env, depth, journal) {
                Ok(v) => {
                    env.set_var(var.clone(), v);
                    Ok(None)
                },
                Err(h) => Err(h),
            },
            AST::VarAssign(var, val) => match self.walk_expr(val, env, depth, journal) {
                Ok(v) => {
                    env.set_var(var.clone(), v);
                    Ok(None)
                },
                Err(h) => Err(h),
            },
            AST::If(cond, body) => {
                let val = match self.walk_expr(cond, env, depth, journal) {
                    Ok(v) => v,
                    Err(h) => {
                        return Err(h);
                    },
                };
                match val {
                    Object::Boolean(true) => {
                        let mut new_env = Scope::new();
                        new_env.inheret(env);
                        assert(new_env@ =~= env@);
                        self.walk_body(body, &mut new_env, depth, journal)
                    },
                    Object::Boolean(false) => Ok(None),
                    _ => Err(Halt::Fault(Fault::TypeMismatch)),
                }
            },
            AST::ArrayAssign(arr, pos, val) => {
                let walked_pos = match self.walk_expr(pos, env, depth, journal) {
                    Ok(v) => v,
                    Err(h) => {
                        return Err(h);
                    },
                };
                let walked_val = match self.walk_expr(val, env, depth, journal) {
                    Ok(v) => v,
                    Err(h) => {
                        return Err(h);
                    },
                };
                let current = match env.get_var(arr.clone()) {
                    Ok(o) => o,
                    Err(f) => {
                        return Err(Halt::Fault(f));
                    },
                };
                match store(current, &walked_pos, walked_val) {
                    Ok(updated) => {
                        env.set_var(arr.clone(), updated);
                        Ok(None)
                    },
                    Err(h) => Err(h),
                }
            },
            AST::ReturnVoid => Ok(Some(Object::Void)),
        }
    }

    /// Evaluates the expressions of a list from left to right, up to the
    /// first that halts.
    pub fn walk_exprs(&self, exprs: &Vec<Expr>, env: &Scope, depth: usize, journal: &mut Journal) -> (r:
        Result<Vec<Object>, Halt>)
        requires
            terms_ok(terms_of(exprs@)),
        ensures
            (values(r), final(journal)@) == eval_list(
                self@,
                terms_of(exprs@),
                exprs.len() as nat,
                env@,
                depth as nat,
                old(journal)@,
            ),
            r matches Ok(v) ==> all_evaluated(values_of(v@)),
        decreases depth, 2nat, exprs, 0nat,
    {
        let ghost t0 = journal@;
        let ghost terms = terms_of(exprs@);
        proof {
            lemma_terms_of(exprs@);
        }
        let mut ret: Vec<Object> = Vec::new();
        let mut i: usize = 0;
        assert(values_of(ret@) =~= Seq::<Value>::empty());
        while i < exprs.len()
            invariant
                i <= exprs.len(),
                ret.len() == i,
                t0 == old(journal)@,
                terms == terms_of(exprs@),
                terms.len() == exprs.len(),
                forall|j: int| 0 <= j < exprs.len() ==> #[trigger] terms[j] == exprs[j]@,
                terms_ok(terms),
                all_evaluated(values_of(ret@)),
                eval_list(self@, terms, i as nat, env@, depth as nat, t0) == (
                    Ok::<Seq<Value>, Halt>(values_of(ret@)),
                    journal@,
                ),
            decreases exprs.len() - i,
        {
            assert(term_ok(terms[i as int]));
            let ghost before = values_of(ret@);
            proof {
                lemma_eval_list_step(self@, terms, (i + 1) as nat, env@, depth as nat, t0);
            }
            match self.walk_expr(&exprs[i], env, depth, journal) {
                Ok(v) => {
                    let ghost earlier = ret@;
                    ret.push(v);
                    assert(values_of(ret@) =~= before.push(v@)) by {
                        lemma_values_of(ret@);
                        lemma_values_of(earlier);
                    }
                    i += 1;
                },
                Err(h) => {
                    proof {
                        lemma_eval_list_stops(
                            self@,
                            terms,
                            (i + 1) as nat,
                            exprs.len() as nat,
                            env@,
                            depth as nat,
                            t0,
                        );
                    }
                    return Err(h);
                },
            }
        }
        Ok(ret)
    }

    /// Evaluates an expression in the given scope.
    ///
    /// A list literal becomes the array of its elements' values; any other
    /// literal is its own value. The operands of an operator, the elements
    /// of a list and the arguments of a call are evaluated from left to
    /// right, all of them, before the operator is applied or the function
    /// looked up.
    pub fn walk_expr(&self, expr: &Expr, env: &Scope, depth: usize, journal: &mut Journal) -> (r:
        Result<Object, Halt>)
        requires
            term_ok(expr@),
        ensures
            (outcome(r), final(journal)@) == eval(
                self@,
                expr@,
                env@,
                depth as nat,
                old(journal)@,
            ),
            r matches Ok(o) ==> evaluated(o@),
        decreases depth, 2nat, expr, 0nat,
    {
        match expr {
            Expr::Literal(l) => {
                assert(expr@ == Term::Literal(l@));
                match l {
                    Object::List(exprs) => {
                        assert(l@ == Value::Unevaluated(terms_of(exprs@)));
                        proof {
                            lemma_terms_of(exprs@);
                        }
                        match self.walk_exprs(exprs, env, depth, journal) {
                            Ok(ret) => Ok(Object::WalkedList(ret)),
                            Err(h) => Err(h),
                        }
                    },
                    _ => Ok(l.clone()),
                }
            },
            Expr::BiOp(lhs, op, rhs) => {
                let lhs_val = match self.walk_expr(&**lhs, env, depth, journal) {
                    Ok(v) => v,
                    Err(h) => {
                        return Err(h);
                    },
                };
                let rhs_val = match self.walk_expr(&**rhs, env, depth, journal) {
                    Ok(v) => v,
                    Err(h) => {
                        return Err(h);
                    },
                };
                self.settle(Object::apply(*op, &lhs_val, &rhs_val), journal)
            },
            Expr::Var(v) => match env.get_var(v.clone()) {
                Ok(o) => Ok(o),
                Err(f) => Err(Halt::Fault(f)),
            },
            Expr::FuncCall(name, args) => {
                assert(expr@ == Term::Call(name@, terms_of(args@)));
                proof {
                    lemma_terms_of(args@);
                }
                let walked_args = match self.walk_exprs(args, env, depth, journal) {
                    Ok(v) => v,
                    Err(h) => {
                        return Err(h);
                    },
                };
                self.invoke(name, walked_args, depth, journal)
            },
            Expr::ArrayAccess(arr, index) => {
                let walked_arr = match self.walk_expr(&**arr, env, depth, journal) {
                    Ok(v) => v,
                    Err(h) => {
                        return Err(h);
                    },
                };
                let walked_index = match self.walk_expr(&**index, env, depth, journal) {
                    Ok(v) => v,
                    Err(h) => {
                        return Err(h);
                    },
                };
                fetch(&walked_arr, &walked_index)
            },
        }
    }
}

/// The values of a list, with each object replaced by its value.
pub open spec fn values(r: Result<Vec<Object>, Halt>) -> Result<Seq<Value>, Halt> {
    match r {
        Ok(v) => Ok(values_of(v@)),
        Err(h) => Err(h),
    }
}

/// A copy of the element of an array at an index.
pub fn fetch(array: &Object, index: &Object) -> (r: Result<Object, Halt>)
    ensures
        outcome(r) == element(array@, index@),
        evaluated(array@) ==> (r matches Ok(o) ==> evaluated(o@)),
{
    match array {
        Object::WalkedList(list) => match index {
            Object::Integer(n) => {
                proof {
                    lemma_values_of(list@);
                }
                if *n >= 0 && (*n as usize) < list.len() {
                    Ok(list[*n as usize].clone())
                } else {
                    Err(Halt::Fault(Fault::IndexOutOfBounds))
                }
            },
            _ => Err(Halt::Fault(Fault::TypeMismatch)),
        },
        _ => Err(Halt::Fault(Fault::TypeMismatch)),
    }
}

/// The array with the element at an index replaced by a value.
pub fn store(array: Object, index: &Object, value: Object) -> (r: Result<Object, Halt>)
    ensures
        outcome(r) == replaced(array@, index@, value@),
        evaluated(array@) && evaluated(value@) ==> (r matches Ok(o) ==> evaluated(o@)),
{
    match array {
        Object::WalkedList(list) => match index {
            Object::Integer(n) => {
                proof {
                    lemma_values_of(list@);
                }
                if *n >= 0 && (*n as usize) < list.len() {
                    let mut list = list;
                    list.set(*n as usize, value);
                    proof {
                        lemma_values_of(list@);
                    }
                    let r = Object::WalkedList(list);
                    assert(outcome(Ok(r)) == replaced(array@, index@, value@)) by {
                        assert(values_of(list@) =~= values_of(array->WalkedList_0@).update(
                            *n as int,
                            value@,
                        ));
                    }
                    Ok(r)
                } else {
                    Err(Halt::Fault(Fault::IndexOutOfBounds))
                }
            },
            _ => Err(Halt::Fault(Fault::TypeMismatch)),
        },
        _ => Err(Halt::Fault(Fault::TypeMismatch)),
    }
}

} // verus!
