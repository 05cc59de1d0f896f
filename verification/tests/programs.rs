use simplelisp::ast::{is_program, BinOp, Expr, AST};
use simplelisp::fault::{Fault, Halt};
use simplelisp::ieee::{FloatOp, FloatRequest};
use simplelisp::interpreter::{Interpreter, Report};
use simplelisp::object::Object;
use simplelisp::stdlib::{Chunk, Output};

fn num(n: i32) -> Expr {
    Expr::Literal(Object::Integer(n))
}

fn float(x: f32) -> Expr {
    Expr::Literal(Object::Float(x.to_bits()))
}

fn string(s: &str) -> Expr {
    Expr::Literal(Object::String(s.to_string()))
}

fn boolean(b: bool) -> Expr {
    Expr::Literal(Object::Boolean(b))
}

fn list(items: Vec<Expr>) -> Expr {
    Expr::Literal(Object::List(items))
}

fn var(name: &str) -> Expr {
    Expr::Var(name.to_string())
}

fn op(l: Expr, o: BinOp, r: Expr) -> Expr {
    Expr::BiOp(Box::new(l), o, Box::new(r))
}

fn call(name: &str, args: Vec<Expr>) -> Expr {
    Expr::FuncCall(name.to_string(), args)
}

fn at(array: Expr, index: Expr) -> Expr {
    Expr::ArrayAccess(Box::new(array), Box::new(index))
}

fn decl(name: &str, e: Expr) -> AST {
    AST::VarDecl(name.to_string(), e)
}

fn assign(name: &str, e: Expr) -> AST {
    AST::VarAssign(name.to_string(), e)
}

fn func(name: &str, params: &[&str], body: Vec<AST>) -> AST {
    AST::FuncDef(name.to_string(), params.iter().map(|p| p.to_string()).collect(), body)
}

fn main_of(body: Vec<AST>) -> Vec<AST> {
    vec![func("main", &[], body)]
}

fn run(program: Vec<AST>) -> Report {
    assert!(is_program(&program));
    Interpreter::interpret(program, Vec::new(), 64)
}

fn fault(report: &Report) -> Option<Fault> {
    match &report.result {
        Err(Halt::Fault(f)) => Some(*f),
        _ => None,
    }
}

fn written(out: &Output) -> String {
    let mut s = String::new();
    for chunk in &out.chunks {
        match chunk {
            Chunk::Text(t) => s.push_str(t),
            Chunk::Float(b) => s.push_str(&format!("{}", f32::from_bits(*b))),
            Chunk::LineBreak => s.push('\n'),
        }
    }
    s
}

/// Runs a program as a host does: each floating-point operation that the
/// program comes to is computed and the program run again.
fn run_with_floats(program: Vec<AST>) -> Report {
    assert!(is_program(&program));
    let mut answers: Vec<u32> = Vec::new();
    loop {
        let report = Interpreter::interpret(program.clone(), answers.clone(), 64);
        match report.result {
            Err(Halt::Pending(FloatRequest { op, lhs, rhs })) => {
                let (a, b) = (f32::from_bits(lhs), f32::from_bits(rhs));
                let c = match op {
                    FloatOp::Add => a + b,
                    FloatOp::Sub => a - b,
                    FloatOp::Mul => a * b,
                    FloatOp::Div => a / b,
                    FloatOp::Rem => a % b,
                };
                answers.push(c.to_bits());
            }
            _ => return report,
        }
    }
}

#[test]
fn main_returns_product_plus_two() {
    let report = run(main_of(vec![
        decl("x", num(3)),
        decl("y", num(4)),
        AST::Return(op(op(var("x"), BinOp::Mul, var("y")), BinOp::Add, num(2))),
    ]));
    assert_eq!(report.result, Ok(Object::Integer(14)));
    assert!(report.journal.output.chunks.is_empty());
    assert_eq!(report.journal.floats_used, 0);
}

#[test]
fn println_writes_arguments_and_line_break() {
    let report = run(main_of(vec![AST::Expr(call(
        "println",
        vec![string("a"), num(1), list(vec![num(2), num(3)])],
    ))]));
    assert_eq!(report.result, Ok(Object::Void));
    assert_eq!(written(&report.journal.output), "a1[2, 3]\n");
    assert_eq!(
        report.journal.output.chunks,
        vec![
            Chunk::Text("a".to_string()),
            Chunk::Text("1".to_string()),
            Chunk::Text("[".to_string()),
            Chunk::Text("2".to_string()),
            Chunk::Text(", ".to_string()),
            Chunk::Text("3".to_string()),
            Chunk::Text("]".to_string()),
            Chunk::LineBreak,
        ]
    );
}

#[test]
fn print_writes_no_line_break() {
    let report = run(main_of(vec![
        AST::Expr(call("print", vec![string("a"), string("b")])),
        AST::Expr(call("print", vec![num(-5)])),
    ]));
    assert_eq!(written(&report.journal.output), "ab-5");
}

#[test]
fn strings_inside_arrays_are_quoted() {
    let report = run(main_of(vec![AST::Expr(call(
        "println",
        vec![list(vec![string("a"), list(vec![string("b"), num(1)]), list(vec![])])],
    ))]));
    assert_eq!(written(&report.journal.output), "[\"a\", [\"b\", 1], []]\n");
}

#[test]
fn print_shows_void_and_booleans_in_debug_form() {
    let report = run(vec![
        func("nothing", &[], vec![]),
        func(
            "main",
            &[],
            vec![AST::Expr(call(
                "print",
                vec![call("nothing", vec![]), boolean(true), list(vec![boolean(false)])],
            ))],
        ),
    ]);
    assert_eq!(written(&report.journal.output), "VoidBoolean(true)[Boolean(false)]");
}

#[test]
fn array_assignment_is_copy_isolated() {
    let report = run(main_of(vec![
        decl("x", list(vec![num(1), num(2), num(3)])),
        decl("y", var("x")),
        AST::ArrayAssign("x".to_string(), num(0), num(9)),
        AST::Expr(call("print", vec![at(var("x"), num(0))])),
        AST::Return(at(var("y"), num(0))),
    ]));
    assert_eq!(report.result, Ok(Object::Integer(1)));
    assert_eq!(written(&report.journal.output), "9");
}

#[test]
fn conditional_body_does_not_change_outer_variable() {
    let report = run(main_of(vec![
        decl("v", num(1)),
        AST::If(boolean(true), vec![assign("v", num(2)), AST::Expr(call("print", vec![var("v")]))]),
        AST::Return(var("v")),
    ]));
    assert_eq!(report.result, Ok(Object::Integer(1)));
    assert_eq!(written(&report.journal.output), "2");
}

#[test]
fn variable_declared_in_conditional_is_gone_after_it() {
    let report = run(main_of(vec![
        AST::If(boolean(true), vec![decl("w", num(2))]),
        AST::Return(var("w")),
    ]));
    assert_eq!(fault(&report), Some(Fault::UnboundVariable));
}

#[test]
fn conditional_sees_outer_variables() {
    let report = run(main_of(vec![
        decl("v", num(5)),
        AST::If(op(var("v"), BinOp::Gt, num(3)), vec![AST::Return(op(var("v"), BinOp::Add, num(1)))]),
        AST::Return(num(0)),
    ]));
    assert_eq!(report.result, Ok(Object::Integer(6)));
}

#[test]
fn false_condition_skips_body() {
    let report = run(main_of(vec![
        AST::If(op(num(1), BinOp::Eq, num(2)), vec![AST::Return(num(1))]),
        AST::Return(num(2)),
    ]));
    assert_eq!(report.result, Ok(Object::Integer(2)));
}

#[test]
fn condition_that_is_no_boolean_is_type_mismatch() {
    let report = run(main_of(vec![AST::If(num(1), vec![AST::Return(num(1))]), AST::Return(num(2))]));
    assert_eq!(fault(&report), Some(Fault::TypeMismatch));
}

#[test]
fn return_in_nested_conditional_leaves_function() {
    let report = run(main_of(vec![
        AST::If(
            boolean(true),
            vec![AST::If(boolean(true), vec![AST::ReturnVoid]), AST::Expr(call("print", vec![num(1)]))],
        ),
        AST::Expr(call("print", vec![num(2)])),
        AST::Return(num(3)),
    ]));
    assert_eq!(report.result, Ok(Object::Void));
    assert_eq!(written(&report.journal.output), "");
}

#[test]
fn body_without_return_yields_void() {
    let report = run(main_of(vec![decl("x", num(1))]));
    assert_eq!(report.result, Ok(Object::Void));
}

#[test]
fn statements_after_return_do_not_run() {
    let report = run(main_of(vec![
        AST::Return(num(1)),
        AST::Expr(call("print", vec![num(2)])),
        AST::Expr(call("missing", vec![])),
    ]));
    assert_eq!(report.result, Ok(Object::Integer(1)));
    assert_eq!(written(&report.journal.output), "");
}

#[test]
fn index_out_of_range_is_a_fault() {
    let report = run(main_of(vec![AST::Return(at(list(vec![num(1), num(2), num(3)]), num(5)))]));
    assert_eq!(fault(&report), Some(Fault::IndexOutOfBounds));
    let report = run(main_of(vec![AST::Return(at(list(vec![num(1), num(2), num(3)]), num(3)))]));
    assert_eq!(fault(&report), Some(Fault::IndexOutOfBounds));
    let report = run(main_of(vec![AST::Return(at(list(vec![num(1), num(2), num(3)]), num(-1)))]));
    assert_eq!(fault(&report), Some(Fault::IndexOutOfBounds));
    let report = run(main_of(vec![AST::Return(at(list(vec![num(1), num(2), num(3)]), num(2)))]));
    assert_eq!(report.result, Ok(Object::Integer(3)));
}

#[test]
fn array_write_out_of_range_is_a_fault() {
    let report = run(main_of(vec![
        decl("x", list(vec![num(1)])),
        AST::ArrayAssign("x".to_string(), num(1), num(9)),
    ]));
    assert_eq!(fault(&report), Some(Fault::IndexOutOfBounds));
}

#[test]
fn array_write_needs_array_and_integer_index() {
    let report = run(main_of(vec![
        decl("x", num(1)),
        AST::ArrayAssign("x".to_string(), num(0), num(9)),
    ]));
    assert_eq!(fault(&report), Some(Fault::TypeMismatch));
    let report = run(main_of(vec![
        decl("x", list(vec![num(1)])),
        AST::ArrayAssign("x".to_string(), string("0"), num(9)),
    ]));
    assert_eq!(fault(&report), Some(Fault::TypeMismatch));
    let report = run(main_of(vec![AST::ArrayAssign("x".to_string(), num(0), num(9))]));
    assert_eq!(fault(&report), Some(Fault::UnboundVariable));
}

#[test]
fn array_read_needs_array_and_integer_index() {
    let report = run(main_of(vec![AST::Return(at(num(1), num(0)))]));
    assert_eq!(fault(&report), Some(Fault::TypeMismatch));
    let report = run(main_of(vec![AST::Return(at(list(vec![num(1)]), boolean(true)))]));
    assert_eq!(fault(&report), Some(Fault::TypeMismatch));
}

#[test]
fn array_write_replaces_one_element() {
    let report = run(main_of(vec![
        decl("x", list(vec![num(1), num(2), num(3)])),
        AST::ArrayAssign("x".to_string(), op(num(1), BinOp::Add, num(1)), string("z")),
        AST::Return(var("x")),
    ]));
    assert_eq!(
        report.result,
        Ok(Object::WalkedList(vec![
            Object::Integer(1),
            Object::Integer(2),
            Object::String("z".to_string())
        ]))
    );
}

#[test]
fn undeclared_function_is_a_fault() {
    let report = run(main_of(vec![AST::Return(call("nowhere", vec![num(1)]))]));
    assert_eq!(fault(&report), Some(Fault::UndefinedFunction));
}

#[test]
fn arguments_are_evaluated_before_the_function_is_looked_up() {
    let report = run(main_of(vec![AST::Return(call(
        "nowhere",
        vec![call("print", vec![num(1)]), var("unbound")],
    ))]));
    assert_eq!(fault(&report), Some(Fault::UnboundVariable));
    assert_eq!(written(&report.journal.output), "1");
}

#[test]
fn wrong_argument_count_is_a_fault() {
    let program = |args: Vec<Expr>| {
        vec![
            func("f", &["a", "b"], vec![AST::Return(var("a"))]),
            func("main", &[], vec![AST::Return(call("f", args))]),
        ]
    };
    assert_eq!(fault(&run(program(vec![num(1)]))), Some(Fault::ArityMismatch));
    assert_eq!(fault(&run(program(vec![num(1), num(2), num(3)]))), Some(Fault::ArityMismatch));
    assert_eq!(run(program(vec![num(1), num(2)])).result, Ok(Object::Integer(1)));
}

#[test]
fn main_with_parameters_is_arity_mismatch() {
    let report = run(vec![func("main", &["a"], vec![AST::Return(num(1))])]);
    assert_eq!(fault(&report), Some(Fault::ArityMismatch));
}

#[test]
fn program_without_main_is_a_fault() {
    let report = run(vec![func("f", &[], vec![AST::Return(num(1))])]);
    assert_eq!(fault(&report), Some(Fault::MissingEntryPoint));
    let report = run(vec![]);
    assert_eq!(fault(&report), Some(Fault::MissingEntryPoint));
    assert!(report.journal.output.chunks.is_empty());
}

#[test]
fn unbound_variable_is_a_fault() {
    let report = run(main_of(vec![AST::Return(var("x"))]));
    assert_eq!(fault(&report), Some(Fault::UnboundVariable));
}

#[test]
fn division_by_zero_is_a_fault() {
    let report = run(main_of(vec![AST::Return(op(num(1), BinOp::Div, num(0)))]));
    assert_eq!(fault(&report), Some(Fault::DivisionByZero));
    let report = run(main_of(vec![AST::Return(op(num(1), BinOp::Mod, num(0)))]));
    assert_eq!(fault(&report), Some(Fault::DivisionByZero));
}

#[test]
fn mixed_operands_are_type_mismatch() {
    for o in [BinOp::Add, BinOp::Sub, BinOp::Mul, BinOp::Div, BinOp::Mod, BinOp::Eq, BinOp::Neq, BinOp::Lt, BinOp::Gt] {
        let report = run(main_of(vec![AST::Return(op(num(1), o, float(1.0)))]));
        assert_eq!(fault(&report), Some(Fault::TypeMismatch));
        let report = run(main_of(vec![AST::Return(op(string("a"), o, num(1)))]));
        assert_eq!(fault(&report), Some(Fault::TypeMismatch));
    }
}

#[test]
fn unbounded_recursion_is_stack_overflow() {
    let report = run(vec![
        func("f", &["n"], vec![AST::Return(call("f", vec![op(var("n"), BinOp::Add, num(1))]))]),
        func("main", &[], vec![AST::Return(call("f", vec![num(0)]))]),
    ]);
    assert_eq!(fault(&report), Some(Fault::StackOverflow));
}

#[test]
fn depth_counts_nested_calls() {
    let program = vec![
        func("g", &[], vec![AST::Return(num(7))]),
        func("f", &[], vec![AST::Return(call("g", vec![]))]),
        func("main", &[], vec![AST::Expr(call("g", vec![])), AST::Return(call("f", vec![]))]),
    ];
    let r = Interpreter::interpret(program.clone(), vec![], 3);
    assert_eq!(r.result, Ok(Object::Integer(7)));
    let r = Interpreter::interpret(program.clone(), vec![], 2);
    assert_eq!(r.result, Err(Halt::Fault(Fault::StackOverflow)));
    let r = Interpreter::interpret(program, vec![], 0);
    assert_eq!(r.result, Err(Halt::Fault(Fault::StackOverflow)));
}

#[test]
fn recursion_computes_factorial() {
    let report = run(vec![
        func(
            "fact",
            &["n"],
            vec![
                AST::If(op(var("n"), BinOp::Lt, num(2)), vec![AST::Return(num(1))]),
                AST::Return(op(
                    var("n"),
                    BinOp::Mul,
                    call("fact", vec![op(var("n"), BinOp::Sub, num(1))]),
                )),
            ],
        ),
        func("main", &[], vec![AST::Return(call("fact", vec![num(10)]))]),
    ]);
    assert_eq!(report.result, Ok(Object::Integer(3628800)));
}

#[test]
fn functions_may_be_defined_after_their_use() {
    let report = run(vec![
        func("main", &[], vec![AST::Return(call("even", vec![num(4)]))]),
        func(
            "even",
            &["n"],
            vec![
                AST::If(op(var("n"), BinOp::Eq, num(0)), vec![AST::Return(boolean(true))]),
                AST::Return(call("odd", vec![op(var("n"), BinOp::Sub, num(1))])),
            ],
        ),
        func(
            "odd",
            &["n"],
            vec![
                AST::If(op(var("n"), BinOp::Eq, num(0)), vec![AST::Return(boolean(false))]),
                AST::Return(call("even", vec![op(var("n"), BinOp::Sub, num(1))])),
            ],
        ),
    ]);
    assert_eq!(report.result, Ok(Object::Boolean(true)));
}

#[test]
fn callee_does_not_see_callers_variables() {
    let report = run(vec![
        func("f", &[], vec![AST::Return(var("x"))]),
        func("main", &[], vec![decl("x", num(1)), AST::Return(call("f", vec![]))]),
    ]);
    assert_eq!(fault(&report), Some(Fault::UnboundVariable));
}

#[test]
fn later_definition_of_a_name_wins() {
    let report = run(vec![
        func("f", &[], vec![AST::Return(num(1))]),
        func("f", &[], vec![AST::Return(num(2))]),
        func("main", &[], vec![AST::Return(call("f", vec![]))]),
    ]);
    assert_eq!(report.result, Ok(Object::Integer(2)));
}

#[test]
fn builtin_shadows_function_of_the_program() {
    let report = run(vec![
        func("print", &["x"], vec![AST::Return(num(99))]),
        func("main", &[], vec![AST::Return(call("print", vec![num(1)]))]),
    ]);
    assert_eq!(report.result, Ok(Object::Void));
    assert_eq!(written(&report.journal.output), "1");
}

#[test]
fn operands_are_evaluated_left_to_right_both_of_them() {
    let report = run(main_of(vec![AST::Return(op(
        call("print", vec![num(1)]),
        BinOp::Add,
        call("print", vec![num(2)]),
    ))]));
    assert_eq!(fault(&report), Some(Fault::TypeMismatch));
    assert_eq!(written(&report.journal.output), "12");
}

#[test]
fn output_before_a_fault_is_kept() {
    let report = run(main_of(vec![
        AST::Expr(call("println", vec![string("before")])),
        AST::Return(op(num(1), BinOp::Div, num(0))),
    ]));
    assert_eq!(fault(&report), Some(Fault::DivisionByZero));
    assert_eq!(written(&report.journal.output), "before\n");
}

#[test]
fn string_concatenation_adds_no_separator() {
    let report = run(main_of(vec![AST::Return(op(string("ab"), BinOp::Add, string("cd")))]));
    assert_eq!(report.result, Ok(Object::String("abcd".to_string())));
    let report = run(main_of(vec![AST::Return(op(string(""), BinOp::Add, string("")))]));
    assert_eq!(report.result, Ok(Object::String(String::new())));
}

#[test]
fn remainder_of_positive_divisor() {
    let rem = |a: i32, b: i32| run(main_of(vec![AST::Return(op(num(a), BinOp::Mod, num(b)))])).result;
    assert_eq!(rem(7, 3), Ok(Object::Integer(1)));
    assert_eq!(rem(6, 3), Ok(Object::Integer(0)));
    assert_eq!(rem(0, 5), Ok(Object::Integer(0)));
    assert_eq!(rem(i32::MAX, 2), Ok(Object::Integer(1)));
    assert_eq!(rem(-7, 3), Ok(Object::Integer(-1)));
    for a in -20..20 {
        for b in 1..7 {
            assert_eq!(rem(a, b), Ok(Object::Integer(a % b)));
        }
    }
}

#[test]
fn integer_addition_commutes() {
    let sum = |a: i32, b: i32| run(main_of(vec![AST::Return(op(num(a), BinOp::Add, num(b)))])).result;
    for (a, b) in [(1, 2), (-5, 9), (i32::MAX, 1), (i32::MIN, -1), (0, 0)] {
        assert_eq!(sum(a, b), sum(b, a));
        assert_eq!(sum(a, b), Ok(Object::Integer(a.wrapping_add(b))));
    }
}

#[test]
fn float_operation_is_asked_of_the_host() {
    let program = main_of(vec![AST::Return(op(float(1.5), BinOp::Add, float(2.25)))]);
    let first = Interpreter::interpret(program.clone(), vec![], 8);
    assert_eq!(
        first.result,
        Err(Halt::Pending(FloatRequest {
            op: FloatOp::Add,
            lhs: 1.5f32.to_bits(),
            rhs: 2.25f32.to_bits()
        }))
    );
    assert_eq!(first.journal.floats_used, 0);
    let second = Interpreter::interpret(program, vec![3.75f32.to_bits()], 8);
    assert_eq!(second.result, Ok(Object::Float(3.75f32.to_bits())));
    assert_eq!(second.journal.floats_used, 1);
}

#[test]
fn each_float_operator_names_itself() {
    for (o, f) in [
        (BinOp::Add, FloatOp::Add),
        (BinOp::Sub, FloatOp::Sub),
        (BinOp::Mul, FloatOp::Mul),
        (BinOp::Div, FloatOp::Div),
        (BinOp::Mod, FloatOp::Rem),
    ] {
        let program = main_of(vec![AST::Return(op(float(7.0), o, float(2.0)))]);
        let r = Interpreter::interpret(program, vec![], 8);
        assert_eq!(
            r.result,
            Err(Halt::Pending(FloatRequest { op: f, lhs: 7.0f32.to_bits(), rhs: 2.0f32.to_bits() }))
        );
    }
}

#[test]
fn float_program_runs_to_its_end_with_a_host() {
    let report = run_with_floats(main_of(vec![
        decl("x", op(float(1.5), BinOp::Mul, float(4.0))),
        AST::Expr(call("println", vec![var("x"), list(vec![op(var("x"), BinOp::Div, float(8.0))])])),
        AST::If(op(var("x"), BinOp::Gt, float(5.5)), vec![AST::Return(op(var("x"), BinOp::Sub, float(0.5)))]),
        AST::Return(float(0.0)),
    ]));
    assert_eq!(report.result, Ok(Object::Float(5.5f32.to_bits())));
    assert_eq!(written(&report.journal.output), "6[0.75]\n");
    assert_eq!(report.journal.floats_used, 3);
}

#[test]
fn output_is_not_repeated_when_a_run_is_repeated() {
    let report = run_with_floats(main_of(vec![
        AST::Expr(call("print", vec![string("a")])),
        decl("x", op(float(1.0), BinOp::Add, float(1.0))),
        AST::Expr(call("print", vec![string("b")])),
        decl("y", op(var("x"), BinOp::Add, float(1.0))),
        AST::Expr(call("print", vec![var("y")])),
    ]));
    assert_eq!(written(&report.journal.output), "ab3");
}

#[test]
fn float_comparison_needs_no_host() {
    let cmp = |a: f32, o: BinOp, b: f32| {
        Interpreter::interpret(main_of(vec![AST::Return(op(float(a), o, float(b)))]), vec![], 8).result
    };
    assert_eq!(cmp(1.0, BinOp::Lt, 2.0), Ok(Object::Boolean(true)));
    assert_eq!(cmp(-1.0, BinOp::Gt, -2.0), Ok(Object::Boolean(true)));
    assert_eq!(cmp(0.0, BinOp::Eq, -0.0), Ok(Object::Boolean(true)));
    assert_eq!(cmp(f32::NAN, BinOp::Eq, f32::NAN), Ok(Object::Boolean(false)));
    assert_eq!(cmp(f32::NAN, BinOp::Neq, f32::NAN), Ok(Object::Boolean(true)));
}

#[test]
fn equality_is_structural_on_arrays() {
    let eq = |a: Expr, b: Expr| run(main_of(vec![AST::Return(op(a, BinOp::Eq, b))])).result;
    assert_eq!(eq(list(vec![num(1), string("a")]), list(vec![num(1), string("a")])), Ok(Object::Boolean(true)));
    assert_eq!(eq(list(vec![num(1)]), list(vec![num(1), num(2)])), Ok(Object::Boolean(false)));
    assert_eq!(eq(list(vec![num(1)]), list(vec![string("1")])), Ok(Object::Boolean(false)));
    assert_eq!(eq(list(vec![]), list(vec![])), Ok(Object::Boolean(true)));
    assert_eq!(eq(boolean(true), boolean(true)), Ok(Object::Boolean(true)));
    assert_eq!(eq(string("a"), string("b")), Ok(Object::Boolean(false)));
}

#[test]
fn list_literal_evaluates_its_elements_in_order() {
    let report = run(main_of(vec![
        decl("x", num(2)),
        AST::Return(list(vec![
            op(var("x"), BinOp::Add, num(1)),
            call("print", vec![num(1)]),
            list(vec![call("print", vec![num(2)]), var("x")]),
        ])),
    ]));
    assert_eq!(
        report.result,
        Ok(Object::WalkedList(vec![
            Object::Integer(3),
            Object::Void,
            Object::WalkedList(vec![Object::Void, Object::Integer(2)])
        ]))
    );
    assert_eq!(written(&report.journal.output), "12");
}

#[test]
fn duplicate_parameter_takes_the_later_argument() {
    let report = run(vec![
        func("f", &["a", "a"], vec![AST::Return(var("a"))]),
        func("main", &[], vec![AST::Return(call("f", vec![num(1), num(2)]))]),
    ]);
    assert_eq!(report.result, Ok(Object::Integer(2)));
}

#[test]
fn ill_formed_programs_are_recognised() {
    assert!(is_program(&vec![]));
    assert!(is_program(&main_of(vec![AST::If(boolean(true), vec![AST::ReturnVoid])])));
    assert!(!is_program(&vec![AST::ReturnVoid]));
    assert!(!is_program(&main_of(vec![func("inner", &[], vec![])])));
    assert!(!is_program(&main_of(vec![AST::If(boolean(true), vec![func("inner", &[], vec![])])])));
    assert!(!is_program(&main_of(vec![AST::Return(Expr::Literal(Object::WalkedList(vec![
        Object::List(vec![])
    ])))])));
    assert!(is_program(&main_of(vec![AST::Return(Expr::Literal(Object::WalkedList(vec![
        Object::Integer(1)
    ])))])));
}

#[test]
fn answers_that_are_not_taken_change_nothing() {
    let program = main_of(vec![
        AST::Expr(call("print", vec![op(float(1.0), BinOp::Add, float(2.0))])),
        AST::Return(int_sum()),
    ]);
    let exact = Interpreter::interpret(program.clone(), vec![3.0f32.to_bits()], 8);
    let more = Interpreter::interpret(program.clone(), vec![3.0f32.to_bits(), 7, 8, 9], 8);
    assert_eq!(exact.result, Ok(Object::Integer(3)));
    assert_eq!(exact, more);
    assert_eq!(exact.journal.floats_used, 1);
    let none = Interpreter::interpret(program, vec![], 8);
    assert!(matches!(none.result, Err(Halt::Pending(_))));
    assert!(none.journal.output.chunks.is_empty());
}

fn int_sum() -> Expr {
    op(num(1), BinOp::Add, num(2))
}
