//! The errors a running program reports about a token.
use vstd::prelude::*;
use crate::diagnostics::{report_error, report_text, AmystError};
use crate::lexer::token::{SpecToken, Token};
use crate::text::{decimal, push_decimal, push_str, string_of};

verus! {

/// Where on its line an error about `tok` was found: ` at 'lexeme'`.
pub open spec fn at_location(tok: SpecToken) -> Seq<char> {
    " at '"@ + tok.lexeme + "'"@
}

/// The message of an error about `tok`.
pub open spec fn token_message(tok: SpecToken, message: Seq<char>) -> Seq<char> {
    report_text(tok.line, Some(at_location(tok)), message)
}

/// The runtime error about `tok` with the message `message`.
fn error_at(tok: &Token, message: &str) -> (e: AmystError)
    ensures
        e is Runtime,
        e->message@ == token_message(tok@, message@),
{
    let mut location = string_of(" at '");
    push_str(&mut location, tok.lexeme);
    push_str(&mut location, "'");
    AmystError::Runtime { message: report_error(tok.line, Some(location.as_str()), message) }
}

/// The error for a name that no scope binds.
pub fn undefined_variable(name: &Token) -> (e: AmystError)
    ensures
        e is Runtime,
        e->message@ == token_message(name@, "Undefined variable '"@ + name@.lexeme + "'."@),
{
    let mut message = string_of("Undefined variable '");
    push_str(&mut message, name.lexeme);
    push_str(&mut message, "'.");
    error_at(name, message.as_str())
}

/// The error for a call of a value that is not a function; `paren` is
/// the closing parenthesis of the call.
pub fn not_callable(paren: &Token) -> (e: AmystError)
    ensures
        e is Runtime,
        e->message@ == token_message(paren@, "Can only call functions and classes."@),
{
    error_at(paren, "Can only call functions and classes.")
}

/// The error for a call with `got` arguments of a function that takes
/// `expected`; `paren` is the closing parenthesis of the call.
pub fn wrong_arity(paren: &Token, expected: usize, got: usize) -> (e: AmystError)
    ensures
        e is Runtime,
        e->message@ == token_message(
            paren@,
            "Expected "@ + decimal(expected as nat) + " arguments but got "@ + decimal(got as nat) + " instead."@,
        ),
{
    let mut message = string_of("Expected ");
    push_decimal(&mut message, expected);
    push_str(&mut message, " arguments but got ");
    push_decimal(&mut message, got);
    push_str(&mut message, " instead.");
    error_at(paren, message.as_str())
}

/// The error for a variable declared without a value.
pub fn uninitialized(name: &Token) -> (e: AmystError)
    ensures
        e is Runtime,
        e->message@ == token_message(name@, "Variable should have an initial value."@),
{
    error_at(name, "Variable should have an initial value.")
}

} // verus!
