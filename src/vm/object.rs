//! Heap objects that a `Value::Ref` shares.
use crate::builtin::linkedlist::List;
use crate::vm::bytecode::ByteCode;
use crate::vm::value::Value;
use vstd::prelude::*;

verus! {

#[derive(Clone, Debug, PartialEq)]
pub enum ObjType {
    /// A persistent list of values.
    Cons(List<Value>),
    /// A function: its parameter count and its own instruction sequence.
    Func(usize, Vec<ByteCode>),
    Str(String),
}

} // verus!
