//! Floating-point work that the library hands to its embedder.
//!
//! A `Value::Float` holds the bit pattern of an IEEE-754 binary64 number. The
//! machine never computes on such numbers itself: where an instruction needs a
//! floating-point result, it stops with a `FloatWork` that says which one, and the
//! embedder computes it and hands back a `FloatAnswer`.
use vstd::prelude::*;

verus! {

#[derive(Clone, Copy, Debug, PartialEq, Eq, Structural)]
pub enum Arith {
    Add,
    Sub,
    Mul,
    Div,
    Rem,
}

/// The right operand of a floating-point operation, before its conversion to binary64.
#[derive(Clone, Copy, Debug, PartialEq, Eq, Structural)]
pub enum FloatArg {
    /// A binary64 bit pattern, used as it is.
    Float(u64),
    /// An integer or a character's code point, converted as by `i as f64`.
    Int(i64),
    /// Nil, read as `0.0`.
    Zero,
}

#[derive(Clone, Copy, Debug, PartialEq, Eq, Structural)]
pub enum FloatWork {
    /// `f as i64`.
    ToInt(u64),
    /// `f as u32`.
    ToChar(u64),
    /// `f op a` in binary64, answered with the bit pattern of the result.
    Arith(Arith, u64, FloatArg),
    /// How `f` compares with `a` in binary64.
    Compare(u64, FloatArg),
}

#[derive(Clone, Copy, Debug, PartialEq, Eq, Structural)]
pub enum FloatOrder {
    Less,
    Equal,
    Greater,
    /// At least one side is NaN.
    Unordered,
}

#[derive(Clone, Copy, Debug, PartialEq, Eq, Structural)]
pub enum FloatAnswer {
    Int(i64),
    Char(u32),
    Float(u64),
    Order(FloatOrder),
}

} // verus!
