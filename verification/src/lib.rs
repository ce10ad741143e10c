pub mod ast;
pub mod diagnostics;
pub mod engine;
pub mod interpreter;
pub mod lexer;
pub mod parser;
pub mod text;

pub use diagnostics::{report_error, AmystError};
pub use engine::{compile, compile_expression};
