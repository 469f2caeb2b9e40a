//! The lexer: a single pass over bytes that yields tokens one at a time.

pub mod tokens;
pub mod scan;
pub mod base;
pub mod spelling;

pub use base::Lexer;
pub use scan::Tokenizer;
pub use tokens::{Keyword, Token, TokenView};
