//! What the evaluator knows of 32-bit IEEE 754 numbers.
//!
//! A number of this kind is carried as its bit pattern. Equality and order
//! are decided on the bits. Arithmetic is not done here: an operator applied
//! to two such numbers becomes a request, which the host of the evaluator
//! answers.

use vstd::prelude::*;

verus! {

/// The five arithmetic operators.
#[derive(Clone, Copy, Debug, PartialEq, Eq, Structural)]
pub enum FloatOp {
    Add,
    Sub,
    Mul,
    Div,
    Rem,
}

/// An arithmetic operation on two numbers that the host is asked to carry
/// out. The operands and the answer are bit patterns.
#[derive(Clone, Copy, Debug, PartialEq, Eq, Structural)]
pub struct FloatRequest {
    pub op: FloatOp,
    pub lhs: u32,
    pub rhs: u32,
}

/// The bits of a number without its sign bit.
pub open spec fn magnitude(bits: u32) -> int {
    if bits >= 0x8000_0000 {
        bits - 0x8000_0000
    } else {
        bits as int
    }
}

/// Whether the bits stand for no number at all (NaN): the exponent is all
/// ones and the fraction is not zero.
pub open spec fn is_nan(bits: u32) -> bool {
    magnitude(bits) > 0x7f80_0000
}

/// An integer that orders the numbers as IEEE 754 does: the magnitude, taken
/// negative where the sign bit is set. Both zeros have rank 0.
pub open spec fn rank(bits: u32) -> int {
    if bits >= 0x8000_0000 {
        -magnitude(bits)
    } else {
        magnitude(bits)
    }
}

/// IEEE 754 equality: a NaN equals nothing, and the two zeros are equal.
pub open spec fn float_eq(a: u32, b: u32) -> bool {
    !is_nan(a) && !is_nan(b) && rank(a) == rank(b)
}

/// IEEE 754 `<`: false whenever an operand is a NaN.
pub open spec fn float_lt(a: u32, b: u32) -> bool {
    !is_nan(a) && !is_nan(b) && rank(a) < rank(b)
}

fn rank_of(bits: u32) -> (r: i64)
    ensures
        r == rank(bits),
{
    if bits >= 0x8000_0000 {
        let m: u32 = bits - 0x8000_0000;
        0 - (m as i64)
    } else {
        bits as i64
    }
}

fn nan(bits: u32) -> (r: bool)
    ensures
        r == is_nan(bits),
{
    let m: u32 = if bits >= 0x8000_0000 {
        bits - 0x8000_0000
    } else {
        bits
    };
    m > 0x7f80_0000
}

/// Whether two numbers are equal in the sense of IEEE 754.
pub fn bits_eq(a: u32, b: u32) -> (r: bool)
    ensures
        r == float_eq(a, b),
{
    !nan(a) && !nan(b) && rank_of(a) == rank_of(b)
}

/// Whether the first number is less than the second in the sense of
/// IEEE 754.
pub fn bits_lt(a: u32, b: u32) -> (r: bool)
    ensures
        r == float_lt(a, b),
{
    !nan(a) && !nan(b) && rank_of(a) < rank_of(b)
}

} // verus!
