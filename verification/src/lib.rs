//! A YAML 1.2 parser that produces a comment-preserving, span-faithful typed
//! AST, designed for building formatters.
pub mod ast;
pub mod conformance;
mod error;
mod parser;
mod pos;
mod scanner;
mod text;

pub use error::{Error, ErrorKind};
pub use oxc_allocator::Allocator;
pub use parser::Parser;
pub use pos::Span;
