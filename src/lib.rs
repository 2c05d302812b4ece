//! A small JSON-like parser that keeps, for every token and every value, the
//! byte range of the source text it was read from.
//!
//! Text goes through three stages: the [`lexer`] cuts it into tokens, the
//! [`parser`] reads tokens by recursive descent into a [`value::Value`] tree,
//! and the accessors of [`value`] walk that tree.
pub mod util;
pub mod lexer;
pub mod value;
pub mod parser;

pub use util::span::Span;
pub use lexer::{Lexer, Token};
pub use parser::Parser;
pub use value::{Indexable, Keyable, Value};
