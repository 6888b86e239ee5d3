//! Pact: a small predicate language. Rule text is parsed into a syntax tree, lowered
//! into a contract (a constant table plus bytecode), encoded into a versioned binary
//! form, decoded again, and evaluated by a stack machine against runtime inputs.
pub mod bits;
pub mod compiler;
pub mod contract;
pub mod interpreter;
pub mod lexer;
pub mod parser;
pub mod types;
