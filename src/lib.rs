//! A small Lisp-like language and the stack machine that runs it: a tokenizer
//! and parser from text to expression trees, a code generator from trees to
//! instructions, a text assembler, and the virtual machine with its tagged
//! values, persistent lists and function objects.
use vstd::prelude::*;

pub mod assembler;
pub mod builtin;
pub mod chars;
pub mod frontend;
pub mod vm;

verus! {

} // verus!
