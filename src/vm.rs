//! The stack-based virtual machine: values, heap objects, instructions and the executor.
pub mod bytecode;
pub mod float;
pub mod machine;
pub mod object;
pub mod value;
