use amyst::lexer::{Scanner, TokenType};
use amyst::AmystError;

fn number_of(t: &TokenType) -> f64 {
    match t {
        TokenType::Number(text) => text.parse::<f64>().expect("a decimal literal"),
        other => panic!("not a number: {:?}", other),
    }
}

#[test]
fn char_token_is_read() {
    let scanner = Scanner::new("(!),*");
    let tokens = scanner.scan_tokens().expect("Todo mal");
    assert_eq!(tokens[0].token_type, TokenType::LeftParen);
    assert_eq!(tokens[1].token_type, TokenType::Bang);
    assert_eq!(tokens[2].token_type, TokenType::RightParen);
    assert_eq!(tokens[3].token_type, TokenType::Comma);
    assert_eq!(tokens[4].token_type, TokenType::Star);
}

#[test]
fn multichar_token_is_read() {
    let scanner = Scanner::new("!=,==..=");
    let tokens = scanner.scan_tokens().expect("Todo mal");
    assert_eq!(tokens[0].token_type, TokenType::BangEqual);
    assert_eq!(tokens[1].token_type, TokenType::Comma);
    assert_eq!(tokens[2].token_type, TokenType::EqualEqual);
    assert_eq!(tokens[3].token_type, TokenType::DotDotEqual);
}

#[test]
fn range_distinguishable_from_number() {
    let scanner = Scanner::new("3..5");
    let tokens = scanner.scan_tokens().expect("Todo mal");
    assert_eq!(number_of(&tokens[0].token_type), 3.0);
    assert_eq!(tokens[1].token_type, TokenType::DotDot);
    assert_eq!(number_of(&tokens[2].token_type), 5.0);

    let scanner = Scanner::new("3.5..5");
    let tokens = scanner.scan_tokens().expect("Todo mal");
    for tk in tokens.clone() {
        println!("{:?}", tk.token_type)
    }
    assert_eq!(number_of(&tokens[0].token_type), 3.5);
    assert_eq!(tokens[1].token_type, TokenType::DotDot);
    assert_eq!(number_of(&tokens[2].token_type), 5.0);
}

#[test]
fn multiline_files_processed() {
    let scanner = Scanner::new("!=,==.\n*+;");
    let tokens = scanner.scan_tokens().expect("Todo mal");
    assert_eq!(tokens[0].token_type, TokenType::BangEqual);
    assert_eq!(tokens[1].token_type, TokenType::Comma);
    assert_eq!(tokens[2].token_type, TokenType::EqualEqual);
    assert_eq!(tokens[3].token_type, TokenType::Dot);
    assert_eq!(tokens[0].line, 1);
    assert_eq!(tokens[4].token_type, TokenType::Star);
    assert_eq!(tokens[5].token_type, TokenType::Plus);
    assert_eq!(tokens[6].token_type, TokenType::Semicolon);
    assert_eq!(tokens[4].line, 2);
}

#[test]
fn ignore_comments() {
    let scanner = Scanner::new("!=,==.\n//hello_world\n==");
    let tokens = scanner.scan_tokens().expect("Todo mal");
    assert_eq!(tokens[0].token_type, TokenType::BangEqual);
    assert_eq!(tokens[1].token_type, TokenType::Comma);
    assert_eq!(tokens[2].token_type, TokenType::EqualEqual);
    assert_eq!(tokens[3].token_type, TokenType::Dot);
    assert_eq!(tokens[0].line, 1);
    assert_eq!(tokens[4].token_type, TokenType::EqualEqual);
    assert_eq!(tokens[4].line, 3);
}

#[test]
fn string_token_is_read() {
    let scanner = Scanner::new("==,\"Hola Mundo\" ,!=");
    let tokens = scanner.scan_tokens().expect("Todo mal");
    assert_eq!(tokens[2].token_type, TokenType::String("Hola Mundo"));
}

#[test]
fn number_token_is_read() {
    let scanner = Scanner::new("==,3 + 4.67 ,!=");
    let tokens = scanner.scan_tokens().expect("Todo mal");
    assert_eq!(number_of(&tokens[2].token_type), 3.0);
    assert_eq!(number_of(&tokens[4].token_type), 4.67);
}

#[test]
fn scanning_ends_with_end_of_file() {
    let tokens = Scanner::new("let x = 1;").scan_tokens().expect("scans");
    assert_eq!(tokens.len(), 6);
    assert_eq!(tokens[5].token_type, TokenType::Eof);
    assert_eq!(tokens[5].lexeme, "");
    let empty = Scanner::new("").scan_tokens().expect("scans");
    assert_eq!(empty.len(), 1);
    assert_eq!(empty[0].token_type, TokenType::Eof);
    assert_eq!(empty[0].line, 1);
}

#[test]
fn keywords_and_identifiers_are_told_apart() {
    let tokens = Scanner::new("fn fib(n) return while whilst x_1").scan_tokens().expect("scans");
    assert_eq!(tokens[0].token_type, TokenType::Fn);
    assert_eq!(tokens[1].token_type, TokenType::Identifier("fib"));
    assert_eq!(tokens[2].token_type, TokenType::LeftParen);
    assert_eq!(tokens[3].token_type, TokenType::Identifier("n"));
    assert_eq!(tokens[5].token_type, TokenType::Return);
    assert_eq!(tokens[6].token_type, TokenType::While);
    assert_eq!(tokens[7].token_type, TokenType::Identifier("whilst"));
    assert_eq!(tokens[8].token_type, TokenType::Identifier("x_1"));
    assert_eq!(
        Scanner::new("_x").scan_tokens(),
        Err(AmystError::UnexpectedCharacter(1))
    );
}

#[test]
fn unexpected_character_is_an_error_with_its_line() {
    let result = Scanner::new("1 +\n  @").scan_tokens();
    assert_eq!(result, Err(AmystError::UnexpectedCharacter(2)));
}

#[test]
fn unterminated_string_is_an_error() {
    let result = Scanner::new("print \"open").scan_tokens();
    assert_eq!(result, Err(AmystError::UnterminatedString));
}

#[test]
fn string_lines_are_counted() {
    let tokens = Scanner::new("\"a\nb\" x").scan_tokens().expect("scans");
    assert_eq!(tokens[0].token_type, TokenType::String("a\nb"));
    assert_eq!(tokens[0].line, 2);
    assert_eq!(tokens[1].line, 2);
}

#[test]
fn arrows_and_comparisons() {
    let tokens = Scanner::new("-> - <= < >= > ! =").scan_tokens().expect("scans");
    let kinds: Vec<TokenType> = tokens.iter().map(|t| t.token_type).collect();
    assert_eq!(
        kinds,
        vec![
            TokenType::Arrow,
            TokenType::Minus,
            TokenType::LessEqual,
            TokenType::Less,
            TokenType::GreaterEqual,
            TokenType::Greater,
            TokenType::Bang,
            TokenType::Equal,
            TokenType::Eof,
        ]
    );
}

#[test]
fn token_lines_never_go_back() {
    let source = "let a = 1;\n\n\"two\nlines\" b\n// note\nc";
    let tokens = Scanner::new(source).scan_tokens().expect("scans");
    let lines: Vec<usize> = tokens.iter().map(|t| t.line).collect();
    assert_eq!(lines, vec![1, 1, 1, 1, 1, 4, 4, 6, 6]);
    for pair in lines.windows(2) {
        assert!(pair[0] <= pair[1]);
    }
}

#[test]
fn identifiers_stop_at_ascii_punctuation_and_go_on_through_letters() {
    let tokens = Scanner::new("ab1 c_d;é").scan_tokens();
    assert_eq!(tokens, Err(AmystError::UnexpectedCharacter(1)));
    let tokens = Scanner::new("abé+x").scan_tokens().expect("scans");
    assert_eq!(tokens[0].token_type, TokenType::Identifier("abé"));
    assert_eq!(tokens[1].token_type, TokenType::Plus);
    let tokens = Scanner::new("ab1 c_d;").scan_tokens().expect("scans");
    assert_eq!(tokens[0].token_type, TokenType::Identifier("ab1"));
    assert_eq!(tokens[1].token_type, TokenType::Identifier("c_d"));
    assert_eq!(tokens[2].token_type, TokenType::Semicolon);
}
