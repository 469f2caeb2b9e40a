//! A small interpreted language in the Monkey family: a lexer, a Pratt
//! parser, a tree-walking evaluator, and a bytecode compiler with a stack
//! machine. The functions are verified against a mathematical model of the
//! data they work on; the one function whose contract is taken on trust
//! stands in `text`.

pub mod text;
pub mod lexer;
pub mod parser;
pub mod value;
pub mod builtins;
pub mod operators;
pub mod vm;
pub mod evaluator;
pub mod engine;
