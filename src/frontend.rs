//! From source text to instructions: tokens, expression trees, code generation.
pub mod token;
pub mod parser;
pub mod gen;
