//! The bytecode backend: instructions, the compiler that emits them, and
//! the stack machine that runs them; and the proofs that this backend and
//! the evaluator agree on scripts.

pub mod types;
pub mod semantics;
pub mod machine;
pub mod symbols;
pub mod lowering;
pub mod compiler;
pub mod decoding;
pub mod agreement;
pub mod scripts;
pub mod running;

pub use crate::value::{Binding, Builtin, Closure, CompiledFn, Primitive};
pub use compiler::{Compilation, CompiledContext};
pub use machine::Machine;
pub use types::{Instruction, Op};
