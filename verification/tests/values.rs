use simplelisp::ast::{BinOp, Expr, AST};
use simplelisp::fault::{Fault, Halt};
use simplelisp::ieee::{bits_eq, bits_lt, FloatOp, FloatRequest};
use simplelisp::interpreter::{fetch, store, Interpreter, Journal};
use simplelisp::object::Object;
use simplelisp::scope::Scope;
use simplelisp::stdlib::{format_integer, print, print_fmt, print_one, Chunk, Output};

fn num(n: i32) -> Object {
    Object::Integer(n)
}

fn text(s: &str) -> Object {
    Object::String(s.to_string())
}

fn mismatch<T>() -> Result<T, Halt> {
    Err(Halt::Fault(Fault::TypeMismatch))
}

fn texts(out: &Output) -> Vec<String> {
    out.chunks
        .iter()
        .map(|c| match c {
            Chunk::Text(t) => t.clone(),
            Chunk::Float(b) => format!("{}", f32::from_bits(*b)),
            Chunk::LineBreak => "\n".to_string(),
        })
        .collect()
}

#[test]
fn integers_wrap_on_overflow() {
    assert_eq!(num(i32::MAX).add(&num(1)), Ok(num(i32::MIN)));
    assert_eq!(num(i32::MIN).sub(&num(1)), Ok(num(i32::MAX)));
    assert_eq!(num(i32::MIN).add(&num(i32::MIN)), Ok(num(0)));
    assert_eq!(num(65536).mul(&num(65536)), Ok(num(0)));
    assert_eq!(num(i32::MAX).mul(&num(i32::MAX)), Ok(num(1)));
    assert_eq!(num(i32::MIN).mul(&num(-1)), Ok(num(i32::MIN)));
    assert_eq!(num(i32::MIN).div(&num(-1)), Ok(num(i32::MIN)));
    assert_eq!(num(i32::MIN).rem(&num(-1)), Ok(num(0)));
}

#[test]
fn integer_arithmetic_on_small_values() {
    assert_eq!(num(3).add(&num(4)), Ok(num(7)));
    assert_eq!(num(3).sub(&num(4)), Ok(num(-1)));
    assert_eq!(num(3).mul(&num(-4)), Ok(num(-12)));
    assert_eq!(num(7).div(&num(2)), Ok(num(3)));
    assert_eq!(num(-7).div(&num(2)), Ok(num(-3)));
    assert_eq!(num(7).div(&num(-2)), Ok(num(-3)));
    assert_eq!(num(-7).div(&num(-2)), Ok(num(3)));
    assert_eq!(num(7).rem(&num(3)), Ok(num(1)));
    assert_eq!(num(-7).rem(&num(3)), Ok(num(-1)));
    assert_eq!(num(7).rem(&num(-3)), Ok(num(1)));
    assert_eq!(num(-7).rem(&num(-3)), Ok(num(-1)));
    assert_eq!(num(i32::MIN).div(&num(2)), Ok(num(i32::MIN / 2)));
    assert_eq!(num(i32::MIN).rem(&num(3)), Ok(num(i32::MIN % 3)));
}

#[test]
fn division_and_remainder_by_zero() {
    assert_eq!(num(1).div(&num(0)), Err(Halt::Fault(Fault::DivisionByZero)));
    assert_eq!(num(0).rem(&num(0)), Err(Halt::Fault(Fault::DivisionByZero)));
}

#[test]
fn division_agrees_with_the_machine() {
    for a in [-9, -8, -1, 0, 1, 8, 9, i32::MAX, i32::MIN + 1] {
        for b in [-4, -3, -1, 1, 3, 4, i32::MAX, i32::MIN] {
            assert_eq!(num(a).div(&num(b)), Ok(num(a / b)));
            assert_eq!(num(a).rem(&num(b)), Ok(num(a % b)));
        }
    }
}

#[test]
fn strings_concatenate() {
    assert_eq!(text("foo").add(&text("bar")), Ok(text("foobar")));
    assert_eq!(text("").add(&text("x")), Ok(text("x")));
    assert_eq!(text("a").sub(&text("b")), mismatch());
    assert_eq!(text("a").mul(&text("b")), mismatch());
    assert_eq!(text("a").div(&text("b")), mismatch());
    assert_eq!(text("a").rem(&text("b")), mismatch());
}

#[test]
fn arithmetic_on_other_kinds_is_type_mismatch() {
    let others = [
        Object::Void,
        Object::Boolean(true),
        Object::WalkedList(vec![num(1)]),
        Object::List(vec![]),
    ];
    for o in &others {
        assert_eq!(o.add(o), mismatch());
        assert_eq!(o.sub(o), mismatch());
        assert_eq!(o.mul(o), mismatch());
        assert_eq!(o.div(o), mismatch());
        assert_eq!(o.rem(o), mismatch());
        assert_eq!(o.lt(o), mismatch());
        assert_eq!(o.gt(o), mismatch());
        assert_eq!(num(1).add(o), mismatch());
        assert_eq!(o.add(&num(1)), mismatch());
    }
    assert_eq!(num(1).add(&text("a")), mismatch());
    assert_eq!(num(1).add(&Object::Float(0)), mismatch());
    assert_eq!(Object::Float(0).mul(&num(1)), mismatch());
}

#[test]
fn float_arithmetic_is_a_request() {
    let a = Object::Float(1.0f32.to_bits());
    let b = Object::Float(2.0f32.to_bits());
    let request = |op| Err(Halt::Pending(FloatRequest { op, lhs: 1.0f32.to_bits(), rhs: 2.0f32.to_bits() }));
    assert_eq!(a.add(&b), request(FloatOp::Add));
    assert_eq!(a.sub(&b), request(FloatOp::Sub));
    assert_eq!(a.mul(&b), request(FloatOp::Mul));
    assert_eq!(a.div(&b), request(FloatOp::Div));
    assert_eq!(a.rem(&b), request(FloatOp::Rem));
}

#[test]
fn equality_needs_one_kind() {
    assert_eq!(num(1).eq(&num(1)), Ok(true));
    assert_eq!(num(1).eq(&num(2)), Ok(false));
    assert_eq!(text("a").eq(&text("a")), Ok(true));
    assert_eq!(Object::Void.eq(&Object::Void), Ok(true));
    assert_eq!(Object::Boolean(true).eq(&Object::Boolean(false)), Ok(false));
    assert_eq!(num(1).eq(&text("1")), mismatch());
    assert_eq!(Object::Void.eq(&Object::Boolean(false)), mismatch());
    assert_eq!(Object::List(vec![]).eq(&Object::List(vec![])), mismatch());
    assert_eq!(Object::WalkedList(vec![]).eq(&Object::List(vec![])), mismatch());
}

#[test]
fn order_is_for_numbers() {
    assert_eq!(num(1).lt(&num(2)), Ok(true));
    assert_eq!(num(2).lt(&num(2)), Ok(false));
    assert_eq!(num(3).gt(&num(2)), Ok(true));
    assert_eq!(num(-3).gt(&num(2)), Ok(false));
    assert_eq!(text("a").lt(&text("b")), mismatch());
    assert_eq!(text("a").gt(&text("b")), mismatch());
    assert_eq!(num(1).lt(&Object::Float(0)), mismatch());
}

#[test]
fn float_order_and_equality_follow_the_machine() {
    let samples = [
        0.0f32,
        -0.0,
        1.0,
        -1.0,
        1.5,
        -1.5,
        f32::MIN_POSITIVE,
        -f32::MIN_POSITIVE,
        1.0e-45,
        -1.0e-45,
        f32::MAX,
        f32::MIN,
        f32::INFINITY,
        f32::NEG_INFINITY,
        f32::NAN,
        -f32::NAN,
        f32::from_bits(0x7f80_0001),
        f32::from_bits(0xffff_ffff),
    ];
    for a in samples {
        for b in samples {
            assert_eq!(bits_eq(a.to_bits(), b.to_bits()), a == b, "{a} == {b}");
            assert_eq!(bits_lt(a.to_bits(), b.to_bits()), a < b, "{a} < {b}");
            let (x, y) = (Object::Float(a.to_bits()), Object::Float(b.to_bits()));
            assert_eq!(x.eq(&y), Ok(a == b));
            assert_eq!(x.lt(&y), Ok(a < b));
            assert_eq!(x.gt(&y), Ok(a > b));
        }
    }
}

#[test]
fn apply_dispatches_on_the_operator() {
    assert_eq!(Object::apply(BinOp::Add, &num(6), &num(3)), Ok(num(9)));
    assert_eq!(Object::apply(BinOp::Sub, &num(6), &num(3)), Ok(num(3)));
    assert_eq!(Object::apply(BinOp::Mul, &num(6), &num(3)), Ok(num(18)));
    assert_eq!(Object::apply(BinOp::Div, &num(6), &num(3)), Ok(num(2)));
    assert_eq!(Object::apply(BinOp::Mod, &num(6), &num(4)), Ok(num(2)));
    assert_eq!(Object::apply(BinOp::Eq, &num(6), &num(3)), Ok(Object::Boolean(false)));
    assert_eq!(Object::apply(BinOp::Neq, &num(6), &num(3)), Ok(Object::Boolean(true)));
    assert_eq!(Object::apply(BinOp::Lt, &num(6), &num(3)), Ok(Object::Boolean(false)));
    assert_eq!(Object::apply(BinOp::Gt, &num(6), &num(3)), Ok(Object::Boolean(true)));
    assert_eq!(Object::apply(BinOp::Neq, &num(6), &text("6")), mismatch());
}

#[test]
fn alike_compares_arrays_element_by_element() {
    let a = Object::WalkedList(vec![num(1), Object::WalkedList(vec![text("x")])]);
    let b = Object::WalkedList(vec![num(1), Object::WalkedList(vec![text("x")])]);
    let c = Object::WalkedList(vec![num(1), Object::WalkedList(vec![text("y")])]);
    assert!(a.is_alike(&b));
    assert!(!a.is_alike(&c));
    assert!(!a.is_alike(&num(1)));
    assert!(!Object::Float(f32::NAN.to_bits()).is_alike(&Object::Float(f32::NAN.to_bits())));
    assert!(Object::Float(0.0f32.to_bits()).is_alike(&Object::Float((-0.0f32).to_bits())));
}

#[test]
fn clone_copies_deeply() {
    let a = Object::WalkedList(vec![num(1), text("x"), Object::WalkedList(vec![Object::Void])]);
    assert_eq!(a.clone(), a);
    let e = Expr::BiOp(
        Box::new(Expr::FuncCall("f".to_string(), vec![Expr::Var("x".to_string())])),
        BinOp::Add,
        Box::new(Expr::Literal(Object::List(vec![Expr::Literal(num(1))]))),
    );
    assert_eq!(e.clone(), e);
    let s = AST::If(e.clone(), vec![AST::ArrayAssign("a".to_string(), e.clone(), e.clone()), AST::ReturnVoid]);
    assert_eq!(s.clone(), s);
}

#[test]
fn evaluated_objects_hold_no_list_literal() {
    assert!(num(1).is_evaluated());
    assert!(Object::WalkedList(vec![num(1), Object::WalkedList(vec![])]).is_evaluated());
    assert!(!Object::List(vec![]).is_evaluated());
    assert!(!Object::WalkedList(vec![num(1), Object::WalkedList(vec![Object::List(vec![])])]).is_evaluated());
}

#[test]
fn unwrap_function_gives_the_parts() {
    let f = AST::FuncDef("f".to_string(), vec!["a".to_string(), "b".to_string()], vec![AST::ReturnVoid]);
    let (name, params, body) = f.unwrap_function();
    assert_eq!(name, "f");
    assert_eq!(params, vec!["a".to_string(), "b".to_string()]);
    assert_eq!(body, vec![AST::ReturnVoid]);
}

#[test]
fn scope_binds_and_overwrites() {
    let mut s = Scope::new();
    assert_eq!(s.get_var("x".to_string()), Err(Fault::UnboundVariable));
    s.set_var("x".to_string(), num(1));
    s.set_var("y".to_string(), num(2));
    assert_eq!(s.get_var("x".to_string()), Ok(num(1)));
    s.set_var("x".to_string(), text("new"));
    assert_eq!(s.get_var("x".to_string()), Ok(text("new")));
    assert_eq!(s.get_var("y".to_string()), Ok(num(2)));
    assert_eq!(s.get_var("z".to_string()), Err(Fault::UnboundVariable));
    assert_eq!(s.get_var("".to_string()), Err(Fault::UnboundVariable));
}

#[test]
fn scope_inherits_a_snapshot() {
    let mut outer = Scope::new();
    outer.set_var("a".to_string(), num(1));
    outer.set_var("b".to_string(), num(2));
    let mut inner = Scope::new();
    inner.set_var("b".to_string(), num(20));
    inner.set_var("c".to_string(), num(30));
    inner.inheret(&outer);
    assert_eq!(inner.get_var("a".to_string()), Ok(num(1)));
    assert_eq!(inner.get_var("b".to_string()), Ok(num(2)));
    assert_eq!(inner.get_var("c".to_string()), Ok(num(30)));
    inner.set_var("a".to_string(), num(100));
    outer.set_var("b".to_string(), num(200));
    assert_eq!(outer.get_var("a".to_string()), Ok(num(1)));
    assert_eq!(inner.get_var("b".to_string()), Ok(num(2)));
    assert_eq!(outer.get_var("c".to_string()), Err(Fault::UnboundVariable));
}

#[test]
fn integers_are_written_in_decimal() {
    assert_eq!(format_integer(0), "0");
    assert_eq!(format_integer(7), "7");
    assert_eq!(format_integer(10), "10");
    assert_eq!(format_integer(-1), "-1");
    assert_eq!(format_integer(1234567890), "1234567890");
    assert_eq!(format_integer(i32::MAX), "2147483647");
    assert_eq!(format_integer(i32::MIN), "-2147483648");
    for n in [-1001, -100, -99, -10, -9, 9, 99, 100, 101, 1000] {
        assert_eq!(format_integer(n), format!("{}", n));
    }
}

#[test]
fn print_fmt_writes_each_piece_on_its_own() {
    let mut out = Output::new();
    print_fmt(vec![text("s"), Object::WalkedList(vec![text("s"), num(1)])], false, &mut out);
    assert_eq!(texts(&out), vec!["s", "[", "\"s\"", ", ", "1", "]"]);
    let mut out = Output::new();
    print_fmt(vec![text("s"), Object::Void], true, &mut out);
    assert_eq!(texts(&out), vec!["\"s\"", "Void"]);
    let mut out = Output::new();
    print_fmt(vec![], false, &mut out);
    assert!(out.chunks.is_empty());
}

#[test]
fn print_one_writes_a_float_as_its_bits() {
    let mut out = Output::new();
    print_one(&Object::Float(2.5f32.to_bits()), false, &mut out);
    print_one(&Object::WalkedList(vec![Object::Float(0.1f32.to_bits())]), true, &mut out);
    assert_eq!(
        out.chunks,
        vec![
            Chunk::Float(2.5f32.to_bits()),
            Chunk::Text("[".to_string()),
            Chunk::Float(0.1f32.to_bits()),
            Chunk::Text("]".to_string()),
        ]
    );
    assert_eq!(texts(&out).concat(), "2.5[0.1]");
}

#[test]
fn print_and_println_return_void_and_append() {
    let mut out = Output::new();
    out.write(Chunk::Text("x".to_string()));
    assert_eq!(print(vec![num(1), num(2)], &mut out), Object::Void);
    assert_eq!(simplelisp::stdlib::println(vec![Object::Boolean(false)], &mut out), Object::Void);
    assert_eq!(simplelisp::stdlib::println(vec![], &mut out), Object::Void);
    assert_eq!(texts(&out).concat(), "x12Boolean(false)\n\n");
}

#[test]
fn fetch_and_store_check_kind_and_range() {
    let a = Object::WalkedList(vec![num(1), num(2)]);
    assert_eq!(fetch(&a, &num(1)), Ok(num(2)));
    assert_eq!(fetch(&a, &num(2)), Err(Halt::Fault(Fault::IndexOutOfBounds)));
    assert_eq!(fetch(&a, &num(-1)), Err(Halt::Fault(Fault::IndexOutOfBounds)));
    assert_eq!(fetch(&a, &text("1")), mismatch());
    assert_eq!(fetch(&num(1), &num(0)), mismatch());
    assert_eq!(store(a.clone(), &num(0), text("z")), Ok(Object::WalkedList(vec![text("z"), num(2)])));
    assert_eq!(store(a.clone(), &num(2), num(0)), Err(Halt::Fault(Fault::IndexOutOfBounds)));
    assert_eq!(store(a.clone(), &Object::Void, num(0)), mismatch());
    assert_eq!(store(text("a"), &num(0), num(0)), mismatch());
    assert_eq!(store(Object::WalkedList(vec![]), &num(0), num(0)), Err(Halt::Fault(Fault::IndexOutOfBounds)));
}

#[test]
fn walk_expr_reads_the_scope_it_is_given() {
    let machine = Interpreter::new(&vec![], vec![]);
    let mut env = Scope::new();
    env.set_var("x".to_string(), num(20));
    let mut journal = Journal::new();
    let e = Expr::BiOp(
        Box::new(Expr::Var("x".to_string())),
        BinOp::Add,
        Box::new(Expr::Literal(num(22))),
    );
    assert_eq!(machine.walk_expr(&e, &env, 4, &mut journal), Ok(num(42)));
    assert_eq!(journal, Journal::new());
}

#[test]
fn walk_body_changes_the_scope_and_stops_at_return() {
    let machine = Interpreter::new(&vec![], vec![]);
    let mut env = Scope::new();
    let mut journal = Journal::new();
    let body = vec![
        AST::VarDecl("x".to_string(), Expr::Literal(num(1))),
        AST::VarAssign("x".to_string(), Expr::Literal(num(2))),
        AST::Return(Expr::Var("x".to_string())),
        AST::VarAssign("x".to_string(), Expr::Literal(num(3))),
    ];
    assert_eq!(machine.walk_body(&body, &mut env, 4, &mut journal), Ok(Some(num(2))));
    assert_eq!(env.get_var("x".to_string()), Ok(num(2)));
    let mut env = Scope::new();
    assert_eq!(machine.walk_body(&body[..2].to_vec(), &mut env, 4, &mut journal), Ok(None));
    assert_eq!(env.get_var("x".to_string()), Ok(num(2)));
}

#[test]
fn walk_exprs_stops_at_the_first_halt() {
    let machine = Interpreter::new(&vec![], vec![]);
    let env = Scope::new();
    let mut journal = Journal::new();
    let print = |n: i32| Expr::FuncCall("print".to_string(), vec![Expr::Literal(num(n))]);
    let exprs = vec![print(1), Expr::Var("missing".to_string()), print(2)];
    assert_eq!(
        machine.walk_exprs(&exprs, &env, 4, &mut journal),
        Err(Halt::Fault(Fault::UnboundVariable))
    );
    assert_eq!(texts(&journal.output), vec!["1"]);
}

#[test]
fn each_fault_has_its_message() {
    let all = [
        Fault::TypeMismatch,
        Fault::UnboundVariable,
        Fault::UndefinedFunction,
        Fault::ArityMismatch,
        Fault::IndexOutOfBounds,
        Fault::DivisionByZero,
        Fault::MissingEntryPoint,
        Fault::StackOverflow,
    ];
    for (i, a) in all.iter().enumerate() {
        assert!(!a.message().is_empty());
        for b in &all[i + 1..] {
            assert_ne!(a.message(), b.message());
        }
    }
    assert_eq!(Fault::DivisionByZero.message(), "division by zero");
    assert_eq!(Fault::MissingEntryPoint.message(), "missing entry point: no function main");
}

#[test]
fn new_journal_is_empty() {
    let journal = Journal::new();
    assert!(journal.output.chunks.is_empty());
    assert_eq!(journal.floats_used, 0);
    let mut out = Output::new();
    out.write(Chunk::LineBreak);
    out.write(Chunk::Float(1));
    assert_eq!(out.chunks, vec![Chunk::LineBreak, Chunk::Float(1)]);
}

#[test]
fn invoke_looks_the_function_up() {
    let program = vec![AST::FuncDef(
        "twice".to_string(),
        vec!["n".to_string()],
        vec![AST::Return(Expr::BiOp(
            Box::new(Expr::Var("n".to_string())),
            BinOp::Mul,
            Box::new(Expr::Literal(num(2))),
        ))],
    )];
    let machine = Interpreter::new(&program, vec![]);
    let mut journal = Journal::new();
    assert_eq!(machine.invoke(&"twice".to_string(), vec![num(21)], 1, &mut journal), Ok(num(42)));
    assert_eq!(
        machine.invoke(&"twice".to_string(), vec![num(21)], 0, &mut journal),
        Err(Halt::Fault(Fault::StackOverflow))
    );
    assert_eq!(
        machine.invoke(&"thrice".to_string(), vec![num(21)], 1, &mut journal),
        Err(Halt::Fault(Fault::UndefinedFunction))
    );
    assert_eq!(
        machine.invoke(&"twice".to_string(), vec![], 1, &mut journal),
        Err(Halt::Fault(Fault::ArityMismatch))
    );
    assert_eq!(machine.invoke(&"print".to_string(), vec![num(1)], 0, &mut journal), Ok(Object::Void));
    assert_eq!(texts(&journal.output), vec!["1"]);
}

#[test]
fn float_answers_are_taken_in_order() {
    let machine = Interpreter::new(&vec![], vec![10, 20]);
    let env = Scope::new();
    let mut journal = Journal::new();
    let sum = |a: u32, b: u32| {
        Expr::BiOp(
            Box::new(Expr::Literal(Object::Float(a))),
            BinOp::Add,
            Box::new(Expr::Literal(Object::Float(b))),
        )
    };
    let nested = Expr::BiOp(Box::new(sum(1, 2)), BinOp::Mul, Box::new(sum(3, 4)));
    assert_eq!(
        machine.walk_expr(&nested, &env, 1, &mut journal),
        Err(Halt::Pending(FloatRequest { op: FloatOp::Mul, lhs: 10, rhs: 20 }))
    );
    assert_eq!(journal.floats_used, 2);
}
