pub mod token;
pub mod scanner;

pub use token::{Token, TokenKind, TokenType, SpecToken};
pub use scanner::Scanner;
