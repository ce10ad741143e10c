use amyst::{report_error, AmystError};

#[test]
fn errors_name_their_line_and_place() {
    assert_eq!(report_error(12, None, "Boom."), "[line 12] Error: Boom.");
    assert_eq!(report_error(0, Some(" at end"), "Boom."), "[line 0] Error  at end: Boom.");
}

#[test]
fn each_error_has_its_text() {
    assert_eq!(AmystError::FileNotFound.message(), "File not found.");
    assert_eq!(AmystError::InvalidFormatFile.message(), "Invalid format file.");
    assert_eq!(
        AmystError::UnexpectedCharacter(7).message(),
        "[line 7] Error: Unexpected character."
    );
    assert_eq!(AmystError::UnterminatedString.message(), "Unterminated string.");
    assert_eq!(AmystError::InvalidNumberFormat.message(), "Invalid number format.");
    assert_eq!(AmystError::Runtime { message: "bad".to_string() }.message(), "bad");
}

#[test]
fn several_errors_are_listed_one_per_line() {
    let e = AmystError::Multiple(vec![
        AmystError::Runtime { message: "first".to_string() },
        AmystError::UnterminatedString,
    ]);
    assert_eq!(
        e.message(),
        "first\nUnterminated string.\nMultiple errors found during execution."
    );
    assert_eq!(
        AmystError::Multiple(vec![]).message(),
        "Multiple errors found during execution."
    );
}
