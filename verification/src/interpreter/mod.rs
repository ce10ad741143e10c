//! What the interpreter keeps while a program runs, and the errors it
//! reports.
pub mod display;
pub mod environment;
pub mod errors;

pub use environment::ScopeStack;
