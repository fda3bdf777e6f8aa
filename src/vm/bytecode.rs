//! The instruction set. Operands are literal values, absolute slot indices or
//! absolute instruction indices.
use crate::vm::value::Value;
use vstd::prelude::*;

verus! {

#[derive(Clone, Debug, PartialEq)]
pub enum ByteCode {
    HALT,
    Push(Value),
    Pop,
    Swap,
    Dup,
    /// Pushes a copy of the value that lies the given distance below the top.
    Copy(usize),

    Get(usize),
    Store(usize),
    /// Reads a positional argument of a lambda.
    Arg(usize),

    Jmp(usize),
    PopJmpIf(usize),
    PopJmpIfNot(usize),

    Ret,
    Call(usize),

    Greater,
    GreaterEq,
    Less,
    LessEq,
    Eq,
    Neq,
    /// Strict equality: same tag and same payload, no coercion.
    StrictEq,
    StrictNeq,

    Add,
    Sub,
    Mul,
    Div,
    Rem,
    Inc,
    Dec,
    And,
    Or,
    Not,
    Xor,

    CollectList(usize),
    CollectCharList(usize),
    /// Calls the function object on top of the stack.
    CallTopFn,
}

} // verus!
