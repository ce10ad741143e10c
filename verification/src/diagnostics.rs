//! Errors of the language and how they are reported.
use vstd::prelude::*;
use crate::text::{decimal, push_decimal, push_str, string_of};

verus! {

/// An error found while reading, scanning, parsing or running a script.
#[derive(Debug, PartialEq)]
pub enum AmystError {
    FileNotFound,
    InvalidFormatFile,
    UnexpectedCharacter(usize),
    UnterminatedString,
    InvalidNumberFormat,
    Runtime { message: String },
    Multiple(Vec<AmystError>),
}

/// The text that describes an error to the user.
pub open spec fn error_text(e: AmystError) -> Seq<char>
    decreases e,
{
    match e {
        AmystError::FileNotFound => "File not found."@,
        AmystError::InvalidFormatFile => "Invalid format file."@,
        AmystError::UnexpectedCharacter(line) => report_text(line as nat, None, "Unexpected character."@),
        AmystError::UnterminatedString => "Unterminated string."@,
        AmystError::InvalidNumberFormat => "Invalid number format."@,
        AmystError::Runtime { message } => message@,
        AmystError::Multiple(errors) => errors_text(errors@) + "Multiple errors found during execution."@,
    }
}

/// The texts of a list of errors, each on a line of its own.
pub open spec fn errors_text(es: Seq<AmystError>) -> Seq<char>
    decreases es,
{
    if es.len() == 0 {
        Seq::empty()
    } else {
        errors_text(es.drop_last()) + error_text(es.last()) + "\n"@
    }
}

/// The text of `report_error(line, location, message)`.
pub open spec fn report_text(line: nat, location: Option<Seq<char>>, message: Seq<char>) -> Seq<char> {
    match location {
        Some(loc) => "[line "@ + decimal(line) + "] Error "@ + loc + ": "@ + message,
        None => "[line "@ + decimal(line) + "] Error: "@ + message,
    }
}

impl AmystError {
    /// The text that describes this error to the user; for several errors,
    /// each on a line of its own and then a closing line.
    pub fn message(&self) -> (s: String)
        ensures
            s@ == error_text(*self),
        decreases self,
    {
        match self {
            AmystError::FileNotFound => string_of("File not found."),
            AmystError::InvalidFormatFile => string_of("Invalid format file."),
            AmystError::UnexpectedCharacter(line) => report_error(*line, None, "Unexpected character."),
            AmystError::UnterminatedString => string_of("Unterminated string."),
            AmystError::InvalidNumberFormat => string_of("Invalid number format."),
            AmystError::Runtime { message } => string_of(message.as_str()),
            AmystError::Multiple(errors) => {
                let mut s = String::new();
                let mut i: usize = 0;
                proof {
                    assert(errors@.take(0) =~= Seq::<AmystError>::empty());
                }
                while i < errors.len()
                    invariant
                        *self == AmystError::Multiple(*errors),
                        0 <= i <= errors@.len(),
                        s@ == errors_text(errors@.take(i as int)),
                    decreases errors@.len() - i,
                {
                    proof {
                        assert(errors@.take(i + 1).drop_last() =~= errors@.take(i as int));
                        assert(decreases_to!(*self => self->Multiple_0));
                        assert(decreases_to!(self->Multiple_0 => self->Multiple_0@));
                        assert(decreases_to!(self->Multiple_0@ => self->Multiple_0@[i as int]));
                    }
                    let m = errors[i].message();
                    push_str(&mut s, m.as_str());
                    push_str(&mut s, "\n");
                    i = i + 1;
                }
                proof {
                    assert(errors@.take(errors@.len() as int) =~= errors@);
                }
                push_str(&mut s, "Multiple errors found during execution.");
                s
            },
        }
    }
}

/// Formats an error message with the line it was found on and, where
/// given, where on the line: `[line L] Error W: M`, or `[line L] Error: M`.
pub fn report_error(line: usize, _where: Option<&str>, message: &str) -> (s: String)
    ensures
        s@ == report_text(line as nat, match _where { Some(w) => Some(w@), None => None }, message@),
{
    let mut s = string_of("[line ");
    push_decimal(&mut s, line);
    match _where {
        Some(location) => {
            push_str(&mut s, "] Error ");
            push_str(&mut s, location);
            push_str(&mut s, ": ");
        }
        None => {
            push_str(&mut s, "] Error: ");
        }
    }
    push_str(&mut s, message);
    s
}

/// The texts of errors: each kind of error has its fixed sentence; an
/// unexpected character names its line; a runtime error is its message;
/// a list of errors gives each on a line of its own, then a closing line.
pub proof fn law_error_texts(line: usize, message: String, es: Seq<AmystError>, e: AmystError)
    ensures
        error_text(AmystError::FileNotFound) == "File not found."@,
        error_text(AmystError::InvalidFormatFile) == "Invalid format file."@,
        error_text(AmystError::UnexpectedCharacter(line))
            == "[line "@ + decimal(line as nat) + "] Error: "@ + "Unexpected character."@,
        error_text(AmystError::UnterminatedString) == "Unterminated string."@,
        error_text(AmystError::InvalidNumberFormat) == "Invalid number format."@,
        error_text(AmystError::Runtime { message }) == message@,
        errors_text(Seq::empty()) == Seq::<char>::empty(),
        errors_text(es.push(e)) == errors_text(es) + error_text(e) + "\n"@,
{
    assert(es.push(e).drop_last() =~= es);
}

/// An error report reads `[line L] Error W: M`, or `[line L] Error: M`
/// when no place on the line is given.
pub proof fn law_report_text(line: nat, location: Seq<char>, message: Seq<char>)
    ensures
        report_text(line, Some(location), message)
            == "[line "@ + decimal(line) + "] Error "@ + location + ": "@ + message,
        report_text(line, None, message) == "[line "@ + decimal(line) + "] Error: "@ + message,
{
}

} // verus!
