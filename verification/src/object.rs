//! Runtime values and the operators on them.

use vstd::prelude::*;
use vstd::string::StringExecFns;
use crate::ast::{clone_exprs, terms_of, BinOp, Expr};
use crate::fault::{Fault, Halt};
use crate::ieee::{bits_eq, bits_lt, float_eq, float_lt, FloatOp, FloatRequest};
use crate::model::{all_evaluated, evaluated, Value};

verus! {

/// A value of the language.
#[derive(Debug, PartialEq)]
pub enum Object {
    Integer(i32),
    /// A 32-bit IEEE 754 number, held as its bit pattern.
    Float(u32),
    String(String),
    Void,
    Boolean(bool),
    /// A list of values: what a list literal evaluates to.
    WalkedList(Vec<Object>),
    /// A list literal as the program text has it, not yet evaluated.
    List(Vec<Expr>),
}

/// The value that an object stands for.
pub open spec fn value_of(o: Object) -> Value
    decreases o,
{
    match o {
        Object::Integer(n) => Value::Integer(n),
        Object::Float(b) => Value::Float(b),
        Object::String(s) => Value::Text(s@),
        Object::Void => Value::Void,
        Object::Boolean(b) => Value::Boolean(b),
        Object::WalkedList(v) => Value::Array(values_of(v@)),
        Object::List(v) => Value::Unevaluated(terms_of(v@)),
    }
}

/// The values that a sequence of objects stands for, one for one.
pub open spec fn values_of(v: Seq<Object>) -> Seq<Value>
    decreases v,
{
    Seq::new(
        v.len(),
        |i: int|
            if 0 <= i < v.len() {
                value_of(v[i])
            } else {
                Value::Void
            },
    )
}

impl View for Object {
    type V = Value;

    open spec fn view(&self) -> Value {
        value_of(*self)
    }
}

/// What an operator returned, with the object replaced by its value.
pub open spec fn outcome(r: Result<Object, Halt>) -> Result<Value, Halt> {
    match r {
        Ok(o) => Ok(o@),
        Err(h) => Err(h),
    }
}

/// The integer of 32 bits that a mathematical integer wraps to in two's
/// complement.
pub open spec fn wrap(i: int) -> i32 {
    let r = i % 0x1_0000_0000;
    if r > i32::MAX {
        (r - 0x1_0000_0000) as i32
    } else {
        r as i32
    }
}

/// The quotient rounded toward zero, for a divisor other than zero.
pub open spec fn trunc_div(x: int, d: int) -> int {
    if x >= 0 {
        x / d
    } else {
        -((-x) / d)
    }
}

/// The remainder that goes with `trunc_div`. It has the sign of the
/// dividend and is smaller than the divisor in absolute value.
pub open spec fn trunc_rem(x: int, d: int) -> int {
    if x >= 0 {
        x % d
    } else {
        -((-x) % d)
    }
}

/// The request that stands for an arithmetic operator applied to two
/// floating-point numbers.
pub open spec fn pending(op: FloatOp, x: u32, y: u32) -> Result<Value, Halt> {
    Err(Halt::Pending(FloatRequest { op, lhs: x, rhs: y }))
}

/// The fault of an operator applied to operands it is not defined on.
pub open spec fn mismatch() -> Result<Value, Halt> {
    Err(Halt::Fault(Fault::TypeMismatch))
}

/// `+`: wrapping addition of integers, concatenation of strings, a request
/// for floating-point numbers.
pub open spec fn value_add(a: Value, b: Value) -> Result<Value, Halt> {
    match (a, b) {
        (Value::Integer(x), Value::Integer(y)) => Ok(Value::Integer(wrap(x + y))),
        (Value::Float(x), Value::Float(y)) => pending(FloatOp::Add, x, y),
        (Value::Text(s), Value::Text(t)) => Ok(Value::Text(s + t)),
        _ => mismatch(),
    }
}

/// `-`: wrapping subtraction of integers, a request for floating-point
/// numbers.
pub open spec fn value_sub(a: Value, b: Value) -> Result<Value, Halt> {
    match (a, b) {
        (Value::Integer(x), Value::Integer(y)) => Ok(Value::Integer(wrap(x - y))),
        (Value::Float(x), Value::Float(y)) => pending(FloatOp::Sub, x, y),
        _ => mismatch(),
    }
}

/// `*`: wrapping multiplication of integers, a request for floating-point
/// numbers.
pub open spec fn value_mul(a: Value, b: Value) -> Result<Value, Halt> {
    match (a, b) {
        (Value::Integer(x), Value::Integer(y)) => Ok(Value::Integer(wrap(x * y))),
        (Value::Float(x), Value::Float(y)) => pending(FloatOp::Mul, x, y),
        _ => mismatch(),
    }
}

/// `/`: the quotient of integers rounded toward zero, a fault where the
/// divisor is zero, a request for floating-point numbers.
pub open spec fn value_div(a: Value, b: Value) -> Result<Value, Halt> {
    match (a, b) {
        (Value::Integer(x), Value::Integer(y)) => if y == 0 {
            Err(Halt::Fault(Fault::DivisionByZero))
        } else {
            Ok(Value::Integer(wrap(trunc_div(x as int, y as int))))
        },
        (Value::Float(x), Value::Float(y)) => pending(FloatOp::Div, x, y),
        _ => mismatch(),
    }
}

/// `%`: the remainder of integers that goes with the quotient rounded
/// toward zero, a fault where the divisor is zero, a request for
/// floating-point numbers.
pub open spec fn value_rem(a: Value, b: Value) -> Result<Value, Halt> {
    match (a, b) {
        (Value::Integer(x), Value::Integer(y)) => if y == 0 {
            Err(Halt::Fault(Fault::DivisionByZero))
        } else {
            Ok(Value::Integer(wrap(trunc_rem(x as int, y as int))))
        },
        (Value::Float(x), Value::Float(y)) => pending(FloatOp::Rem, x, y),
        _ => mismatch(),
    }
}

/// Structural equality of two values. Values of different kinds are not
/// alike; floating-point numbers are compared as IEEE 754 says; arrays are
/// alike when they have the same length and alike elements. A list that has
/// not been evaluated is like nothing.
pub open spec fn alike(a: Value, b: Value) -> bool
    decreases a,
{
    match (a, b) {
        (Value::Integer(x), Value::Integer(y)) => x == y,
        (Value::Float(x), Value::Float(y)) => float_eq(x, y),
        (Value::Text(s), Value::Text(t)) => s == t,
        (Value::Void, Value::Void) => true,
        (Value::Boolean(x), Value::Boolean(y)) => x == y,
        (Value::Array(xs), Value::Array(ys)) => xs.len() == ys.len() && forall|i: int|
            0 <= i < xs.len() ==> alike(#[trigger] xs[i], ys[i]),
        _ => false,
    }
}

/// Whether two values are of the same kind, and that kind is one a program
/// can compute with.
pub open spec fn same_kind(a: Value, b: Value) -> bool {
    match (a, b) {
        (Value::Integer(_), Value::Integer(_)) => true,
        (Value::Float(_), Value::Float(_)) => true,
        (Value::Text(_), Value::Text(_)) => true,
        (Value::Void, Value::Void) => true,
        (Value::Boolean(_), Value::Boolean(_)) => true,
        (Value::Array(_), Value::Array(_)) => true,
        _ => false,
    }
}

/// `==`: defined on two values of the same kind, where it is structural
/// equality.
pub open spec fn value_eq(a: Value, b: Value) -> Result<bool, Halt> {
    if same_kind(a, b) {
        Ok(alike(a, b))
    } else {
        Err(Halt::Fault(Fault::TypeMismatch))
    }
}

/// `<`: defined on two integers and on two floating-point numbers.
pub open spec fn value_lt(a: Value, b: Value) -> Result<bool, Halt> {
    match (a, b) {
        (Value::Integer(x), Value::Integer(y)) => Ok(x < y),
        (Value::Float(x), Value::Float(y)) => Ok(float_lt(x, y)),
        _ => Err(Halt::Fault(Fault::TypeMismatch)),
    }
}

/// `>`: `<` with the operands exchanged.
pub open spec fn value_gt(a: Value, b: Value) -> Result<bool, Halt> {
    value_lt(b, a)
}

/// A truth value as a value of the language, a halt passed on.
pub open spec fn boolean(r: Result<bool, Halt>) -> Result<Value, Halt> {
    match r {
        Ok(b) => Ok(Value::Boolean(b)),
        Err(h) => Err(h),
    }
}

/// The negation of a truth value, a halt passed on.
pub open spec fn negated(r: Result<bool, Halt>) -> Result<bool, Halt> {
    match r {
        Ok(b) => Ok(!b),
        Err(h) => Err(h),
    }
}

/// What a binary operator yields on two values.
pub open spec fn apply_op(op: BinOp, a: Value, b: Value) -> Result<Value, Halt> {
    match op {
        BinOp::Add => value_add(a, b),
        BinOp::Sub => value_sub(a, b),
        BinOp::Mul => value_mul(a, b),
        BinOp::Div => value_div(a, b),
        BinOp::Mod => value_rem(a, b),
        BinOp::Eq => boolean(value_eq(a, b)),
        BinOp::Neq => boolean(negated(value_eq(a, b))),
        BinOp::Lt => boolean(value_lt(a, b)),
        BinOp::Gt => boolean(value_gt(a, b)),
    }
}

/// The quotient rounded toward zero is no larger in absolute value than the
/// dividend.
pub proof fn lemma_trunc_div_bounds(x: int, d: int)
    requires
        d != 0,
    ensures
        x >= 0 ==> -x <= trunc_div(x, d) <= x,
        x < 0 ==> x <= trunc_div(x, d) <= -x,
        x < 0 && d != -1 ==> trunc_div(x, d) < -x,
{
    let a = if x >= 0 { x } else { -x };
    assert(-a <= a / d <= a) by (nonlinear_arith)
        requires
            a >= 0,
            d != 0,
    ;
    if x < 0 && d != -1 {
        assert(a / d > -a) by (nonlinear_arith)
            requires
                a > 0,
                d != 0,
                d != -1,
        {
            assert(a == d * (a / d) + a % d);
            if d > 0 {
                assert(a / d >= 0);
            } else {
                assert(0 <= a % d < -d);
                if a / d == -a {
                    assert(d * (a / d) == (-d) * a);
                    assert((-d) * a >= 2 * a);
                }
            }
        }
    }
}

/// An integer of 32 bits wraps to itself.
pub proof fn lemma_wrap_in_range(i: int)
    requires
        i32::MIN <= i <= i32::MAX,
    ensures
        wrap(i) == i,
{
    if i >= 0 {
        assert(i % 0x1_0000_0000 == i);
    } else {
        assert(i % 0x1_0000_0000 == i + 0x1_0000_0000);
    }
}

/// `values_of` keeps the length and maps each element to its value.
pub proof fn lemma_values_of(v: Seq<Object>)
    ensures
        values_of(v).len() == v.len(),
        forall|i: int| 0 <= i < v.len() ==> #[trigger] values_of(v)[i] == v[i]@,
{
}

/// A copy of each object, in order.
pub fn clone_objects(v: &Vec<Object>) -> (r: Vec<Object>)
    ensures
        values_of(r@) == values_of(v@),
        r.len() == v.len(),
    decreases v,
{
    let mut out: Vec<Object> = Vec::new();
    let mut i: usize = 0;
    while i < v.len()
        invariant
            i <= v.len(),
            out.len() == i,
            forall|j: int| 0 <= j < i ==> out[j]@ == v[j]@,
        decreases v.len() - i,
    {
        out.push(v[i].clone());
        i += 1;
    }
    assert(values_of(out@) =~= values_of(v@));
    out
}

impl Clone for Object {
    /// A copy that stands for the same value.
    fn clone(&self) -> (r: Object)
        ensures
            r@ == self@,
        decreases self,
    {
        match self {
            Object::Integer(n) => Object::Integer(*n),
            Object::Float(b) => Object::Float(*b),
            Object::String(s) => Object::String(s.clone()),
            Object::Void => Object::Void,
            Object::Boolean(b) => Object::Boolean(*b),
            Object::WalkedList(v) => Object::WalkedList(clone_objects(v)),
            Object::List(v) => Object::List(clone_exprs(v)),
        }
    }
}

/// Whether each object of a list is evaluated.
pub fn objects_evaluated(v: &Vec<Object>) -> (r: bool)
    ensures
        r == all_evaluated(values_of(v@)),
    decreases v,
{
    proof {
        lemma_values_of(v@);
    }
    let mut i: usize = 0;
    while i < v.len()
        invariant
            i <= v.len(),
            values_of(v@).len() == v.len(),
            forall|j: int| 0 <= j < v.len() ==> #[trigger] values_of(v@)[j] == v[j]@,
            forall|j: int| 0 <= j < i ==> evaluated(#[trigger] values_of(v@)[j]),
        decreases v.len() - i,
    {
        if !v[i].is_evaluated() {
            assert(!evaluated(values_of(v@)[i as int]));
            return false;
        }
        i += 1;
    }
    true
}

fn float_request(op: FloatOp, x: u32, y: u32) -> (r: Result<Object, Halt>)
    ensures
        outcome(r) == pending(op, x, y),
{
    Err(Halt::Pending(FloatRequest { op, lhs: x, rhs: y }))
}

fn type_mismatch() -> (r: Result<Object, Halt>)
    ensures
        outcome(r) == mismatch(),
{
    Err(Halt::Fault(Fault::TypeMismatch))
}

fn objects_alike(xs: &Vec<Object>, ys: &Vec<Object>) -> (r: bool)
    ensures
        r == alike(Value::Array(values_of(xs@)), Value::Array(values_of(ys@))),
    decreases xs,
{
    proof {
        lemma_values_of(xs@);
        lemma_values_of(ys@);
    }
    if xs.len() != ys.len() {
        return false;
    }
    let mut i: usize = 0;
    while i < xs.len()
        invariant
            i <= xs.len(),
            xs.len() == ys.len(),
            values_of(xs@).len() == xs.len(),
            values_of(ys@).len() == ys.len(),
            forall|j: int| 0 <= j < xs.len() ==> #[trigger] values_of(xs@)[j] == xs[j]@,
            forall|j: int| 0 <= j < ys.len() ==> #[trigger] values_of(ys@)[j] == ys[j]@,
            forall|j: int| 0 <= j < i ==> alike(#[trigger] values_of(xs@)[j], values_of(ys@)[j]),
        decreases xs.len() - i,
    {
        if !xs[i].is_alike(&ys[i]) {
            assert(!alike(values_of(xs@)[i as int], values_of(ys@)[i as int]));
            return false;
        }
        i += 1;
    }
    true
}

impl Object {
    /// Whether the object holds no list literal that has not been
    /// evaluated, at any depth.
    pub fn is_evaluated(&self) -> (r: bool)
        ensures
            r == evaluated(self@),
        decreases self,
    {
        match self {
            Object::WalkedList(v) => objects_evaluated(v),
            Object::List(_) => false,
            _ => true,
        }
    }

    /// Structural equality, as `==` of the language has it between values
    /// of one kind.
    pub fn is_alike(&self, other: &Object) -> (r: bool)
        ensures
            r == alike(self@, other@),
        decreases self,
    {
        match (self, other) {
            (Object::Integer(x), Object::Integer(y)) => *x == *y,
            (Object::Float(x), Object::Float(y)) => bits_eq(*x, *y),
            (Object::String(s), Object::String(t)) => *s == *t,
            (Object::Void, Object::Void) => true,
            (Object::Boolean(x), Object::Boolean(y)) => *x == *y,
            (Object::WalkedList(xs), Object::WalkedList(ys)) => objects_alike(xs, ys),
            _ => false,
        }
    }

    /// `self + rhs`.
    pub fn add(&self, rhs: &Object) -> (r: Result<Object, Halt>)
        ensures
            outcome(r) == value_add(self@, rhs@),
            r matches Ok(o) ==> evaluated(o@),
    {
        match (self, rhs) {
            (Object::Integer(x), Object::Integer(y)) => {
                let s: i32 = x.wrapping_add(*y);
                Ok(Object::Integer(s))
            },
            (Object::Float(x), Object::Float(y)) => float_request(FloatOp::Add, *x, *y),
            (Object::String(s), Object::String(t)) => {
                let mut joined = s.clone();
                joined.append(t.as_str());
                Ok(Object::String(joined))
            },
            _ => type_mismatch(),
        }
    }

    /// `self - rhs`.
    pub fn sub(&self, rhs: &Object) -> (r: Result<Object, Halt>)
        ensures
            outcome(r) == value_sub(self@, rhs@),
            r matches Ok(o) ==> evaluated(o@),
    {
        match (self, rhs) {
            (Object::Integer(x), Object::Integer(y)) => {
                let d: i32 = x.wrapping_sub(*y);
                Ok(Object::Integer(d))
            },
            (Object::Float(x), Object::Float(y)) => float_request(FloatOp::Sub, *x, *y),
            _ => type_mismatch(),
        }
    }

    /// `self * rhs`.
    pub fn mul(&self, rhs: &Object) -> (r: Result<Object, Halt>)
        ensures
            outcome(r) == value_mul(self@, rhs@),
            r matches Ok(o) ==> evaluated(o@),
    {
        match (self, rhs) {
            (Object::Integer(x), Object::Integer(y)) => {
                let p: i32 = x.wrapping_mul(*y);
                Ok(Object::Integer(p))
            },
            (Object::Float(x), Object::Float(y)) => float_request(FloatOp::Mul, *x, *y),
            _ => type_mismatch(),
        }
    }

    /// `self / rhs`.
    pub fn div(&self, rhs: &Object) -> (r: Result<Object, Halt>)
        ensures
            outcome(r) == value_div(self@, rhs@),
            r matches Ok(o) ==> evaluated(o@),
    {
        match (self, rhs) {
            (Object::Integer(x), Object::Integer(y)) => {
                if *y == 0 {
                    Err(Halt::Fault(Fault::DivisionByZero))
                } else if *x == i32::MIN && *y == -1 {
                    assert(trunc_div(i32::MIN as int, -1) == 0x8000_0000) by (nonlinear_arith);
                    assert(wrap(0x8000_0000) == i32::MIN);
                    Ok(Object::Integer(i32::MIN))
                } else {
                    proof {
                        lemma_trunc_div_bounds(*x as int, *y as int);
                        lemma_wrap_in_range(trunc_div(*x as int, *y as int));
                    }
                    let q: i32 = *x / *y;
                    Ok(Object::Integer(q))
                }
            },
            (Object::Float(x), Object::Float(y)) => float_request(FloatOp::Div, *x, *y),
            _ => type_mismatch(),
        }
    }

    /// `self % rhs`.
    pub fn rem(&self, rhs: &Object) -> (r: Result<Object, Halt>)
        ensures
            outcome(r) == value_rem(self@, rhs@),
            r matches Ok(o) ==> evaluated(o@),
    {
        match (self, rhs) {
            (Object::Integer(x), Object::Integer(y)) => {
                if *y == 0 {
                    Err(Halt::Fault(Fault::DivisionByZero))
                } else if *x == i32::MIN && *y == -1 {
                    Ok(Object::Integer(0))
                } else {
                    let m: i32 = *x % *y;
                    Ok(Object::Integer(m))
                }
            },
            (Object::Float(x), Object::Float(y)) => float_request(FloatOp::Rem, *x, *y),
            _ => type_mismatch(),
        }
    }

    /// `self == rhs`.
    pub fn eq(&self, rhs: &Object) -> (r: Result<bool, Halt>)
        ensures
            r == value_eq(self@, rhs@),
    {
        let comparable = match (self, rhs) {
            (Object::Integer(_), Object::Integer(_)) => true,
            (Object::Float(_), Object::Float(_)) => true,
            (Object::String(_), Object::String(_)) => true,
            (Object::Void, Object::Void) => true,
            (Object::Boolean(_), Object::Boolean(_)) => true,
            (Object::WalkedList(_), Object::WalkedList(_)) => true,
            _ => false,
        };
        if comparable {
            Ok(self.is_alike(rhs))
        } else {
            Err(Halt::Fault(Fault::TypeMismatch))
        }
    }

    /// `self < rhs`.
    pub fn lt(&self, rhs: &Object) -> (r: Result<bool, Halt>)
        ensures
            r == value_lt(self@, rhs@),
    {
        match (self, rhs) {
            (Object::Integer(x), Object::Integer(y)) => Ok(*x < *y),
            (Object::Float(x), Object::Float(y)) => Ok(bits_lt(*x, *y)),
            _ => Err(Halt::Fault(Fault::TypeMismatch)),
        }
    }

    /// `self > rhs`.
    pub fn gt(&self, rhs: &Object) -> (r: Result<bool, Halt>)
        ensures
            r == value_gt(self@, rhs@),
    {
        rhs.lt(self)
    }

    /// The result of a binary operator on two values.
    pub fn apply(op: BinOp, lhs: &Object, rhs: &Object) -> (r: Result<Object, Halt>)
        ensures
            outcome(r) == apply_op(op, lhs@, rhs@),
            r matches Ok(o) ==> evaluated(o@),
    {
        match op {
            BinOp::Add => lhs.add(rhs),
            BinOp::Sub => lhs.sub(rhs),
            BinOp::Mul => lhs.mul(rhs),
            BinOp::Div => lhs.div(rhs),
            BinOp::Mod => lhs.rem(rhs),
            BinOp::Eq => match lhs.eq(rhs) {
                Ok(b) => Ok(Object::Boolean(b)),
                Err(h) => Err(h),
            },
            BinOp::Neq => match lhs.eq(rhs) {
                Ok(b) => Ok(Object::Boolean(!b)),
                Err(h) => Err(h),
            },
            BinOp::Lt => match lhs.lt(rhs) {
                Ok(b) => Ok(Object::Boolean(b)),
                Err(h) => Err(h),
            },
            BinOp::Gt => match lhs.gt(rhs) {
                Ok(b) => Ok(Object::Boolean(b)),
                Err(h) => Err(h),
            },
        }
    }
}

} // verus!
