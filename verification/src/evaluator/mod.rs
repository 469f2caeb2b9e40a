//! The tree-walking backend: environments, what a program means in one,
//! and the evaluator that computes it.

pub mod semantics;
pub mod env;
pub mod eval;

pub use crate::value::{Binding, Builtin, Primitive};
pub use env::{Env, Scope};
pub use eval::Evaluation;
