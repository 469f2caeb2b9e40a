//! The parser: expression trees, the grammar as a function of the input
//! bytes, and the recursive-descent parser that computes it.

pub mod types;
pub mod grammar;
pub mod parse;
pub mod printer;
pub mod reading;
pub mod round_trip;
pub mod yields;

pub use parse::{Error, Parser};
pub use types::{Block, Call, Expr, ExprView, Fn, FnView, If, Infix, Let, Prefix, Program};
