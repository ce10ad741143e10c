//! The parser: turns tokens into statements and expressions.
pub mod grammar;
pub mod laws;
pub mod parser;

pub use parser::Parser;
