//! The scanner: turns source text into tokens.
use vstd::prelude::*;
use vstd::string::*;
use crate::diagnostics::AmystError;
use crate::lexer::token::{SpecToken, Token, TokenKind, TokenType, tokens_view};

verus! {

// ---------------------------------------------------------------------------
// The model of scanning
// ---------------------------------------------------------------------------

/// A decimal digit.
pub open spec fn is_digit(c: char) -> bool {
    '0' <= c <= '9'
}

/// An ASCII letter or digit.
pub open spec fn is_ascii_alnum(c: char) -> bool {
    ('a' <= c <= 'z') || ('A' <= c <= 'Z') || is_digit(c)
}

/// What `char::is_alphanumeric` answers for `c` (Unicode's alphabetic or
/// numeric property).
pub uninterp spec fn unicode_alphanumeric(c: char) -> bool;

/// A character that may continue an identifier: a letter, a digit or `_`;
/// beyond ASCII, whatever Unicode counts as alphabetic or numeric.
pub open spec fn is_ident_char(c: char) -> bool {
    if (c as u32) < 128 { is_ascii_alnum(c) || c == '_' } else { unicode_alphanumeric(c) || c == '_' }
}

/// The number of line breaks in `s`.
pub open spec fn count_newlines(s: Seq<char>) -> nat
    decreases s.len(),
{
    if s.len() == 0 {
        0
    } else {
        count_newlines(s.drop_last()) + if s.last() == '\n' { 1nat } else { 0nat }
    }
}

/// The line on which position `pos` of `src` lies (lines count from 1).
pub open spec fn line_at(src: Seq<char>, pos: int) -> nat {
    1 + count_newlines(src.take(pos))
}

/// The first position at or after `i` that does not hold a digit.
pub open spec fn digits_end(src: Seq<char>, i: int) -> int
    decreases src.len() - i,
{
    if 0 <= i < src.len() && is_digit(src[i]) { digits_end(src, i + 1) } else { i }
}

/// The first position at or after `i` that does not continue an identifier.
pub open spec fn ident_end(src: Seq<char>, i: int) -> int
    decreases src.len() - i,
{
    if 0 <= i < src.len() && is_ident_char(src[i]) { ident_end(src, i + 1) } else { i }
}

/// The first position at or after `i` that holds a line break, or the end.
pub open spec fn line_end(src: Seq<char>, i: int) -> int
    decreases src.len() - i,
{
    if 0 <= i < src.len() && src[i] != '\n' { line_end(src, i + 1) } else { i }
}

/// The first position at or after `i` that holds a double quote, or the end.
pub open spec fn quote_end(src: Seq<char>, i: int) -> int
    decreases src.len() - i,
{
    if 0 <= i < src.len() && src[i] != '"' { quote_end(src, i + 1) } else { i }
}

/// The end of the number literal that starts at `start`: digits,
/// then optionally a dot followed by at least one digit and more digits.
pub open spec fn number_end(src: Seq<char>, start: int) -> int {
    let j = digits_end(src, start + 1);
    if j + 1 < src.len() && src[j] == '.' && is_digit(src[j + 1]) {
        digits_end(src, j + 1)
    } else {
        j
    }
}

/// The kind of a word: the keyword it spells, or an identifier.
pub open spec fn keyword_kind(w: Seq<char>) -> TokenKind {
    if w == seq!['a', 'n', 'd'] { TokenKind::And }
    else if w == seq!['c', 'l', 'a', 's', 's'] { TokenKind::Class }
    else if w == seq!['e', 'l', 's', 'e'] { TokenKind::Else }
    else if w == seq!['f', 'a', 'l', 's', 'e'] { TokenKind::False }
    else if w == seq!['f', 'o', 'r'] { TokenKind::For }
    else if w == seq!['f', 'n'] { TokenKind::Fn }
    else if w == seq!['m', 'u', 't'] { TokenKind::Mut }
    else if w == seq!['i', 'f'] { TokenKind::If }
    else if w == seq!['i', 'n'] { TokenKind::In }
    else if w == seq!['o', 'r'] { TokenKind::Or }
    else if w == seq!['p', 'r', 'i', 'n', 't'] { TokenKind::Print }
    else if w == seq!['r', 'e', 't', 'u', 'r', 'n'] { TokenKind::Return }
    else if w == seq!['s', 'u', 'p', 'e', 'r'] { TokenKind::Super }
    else if w == seq!['t', 'h', 'i', 's'] { TokenKind::This }
    else if w == seq!['t', 'r', 'u', 'e'] { TokenKind::True }
    else if w == seq!['l', 'e', 't'] { TokenKind::Let }
    else if w == seq!['w', 'h', 'i', 'l', 'e'] { TokenKind::While }
    else { TokenKind::Identifier }
}

/// What the scanner does at one position.
pub enum Lexed {
    /// Nothing to emit; scanning goes on at the given position.
    Skip(int),
    /// A token of the given kind that ends at the given position.
    Emit(TokenKind, int),
    /// A character that starts no token.
    Unexpected,
    /// A string literal with no closing quote.
    Unterminated,
}

/// What the scanner does with the text that starts at `start`.
pub open spec fn lex_at(src: Seq<char>, start: int) -> Lexed {
    let c = src[start];
    let n1 = start + 1;
    let next_is = |ch: char| n1 < src.len() && src[n1] == ch;
    if c == ':' { Lexed::Emit(TokenKind::Colon, n1) }
    else if c == '(' { Lexed::Emit(TokenKind::LeftParen, n1) }
    else if c == ')' { Lexed::Emit(TokenKind::RightParen, n1) }
    else if c == '{' { Lexed::Emit(TokenKind::LeftBrace, n1) }
    else if c == '}' { Lexed::Emit(TokenKind::RightBrace, n1) }
    else if c == ',' { Lexed::Emit(TokenKind::Comma, n1) }
    else if c == '+' { Lexed::Emit(TokenKind::Plus, n1) }
    else if c == ';' { Lexed::Emit(TokenKind::Semicolon, n1) }
    else if c == '*' { Lexed::Emit(TokenKind::Star, n1) }
    else if c == '"' {
        let q = quote_end(src, n1);
        if q >= src.len() { Lexed::Unterminated } else { Lexed::Emit(TokenKind::String, q + 1) }
    }
    else if c == '-' {
        if next_is('>') { Lexed::Emit(TokenKind::Arrow, n1 + 1) } else { Lexed::Emit(TokenKind::Minus, n1) }
    }
    else if c == '!' {
        if next_is('=') { Lexed::Emit(TokenKind::BangEqual, n1 + 1) } else { Lexed::Emit(TokenKind::Bang, n1) }
    }
    else if c == '=' {
        if next_is('=') { Lexed::Emit(TokenKind::EqualEqual, n1 + 1) } else { Lexed::Emit(TokenKind::Equal, n1) }
    }
    else if c == '<' {
        if next_is('=') { Lexed::Emit(TokenKind::LessEqual, n1 + 1) } else { Lexed::Emit(TokenKind::Less, n1) }
    }
    else if c == '>' {
        if next_is('=') { Lexed::Emit(TokenKind::GreaterEqual, n1 + 1) } else { Lexed::Emit(TokenKind::Greater, n1) }
    }
    else if c == '/' {
        if next_is('/') { Lexed::Skip(line_end(src, n1 + 1)) } else { Lexed::Emit(TokenKind::Slash, n1) }
    }
    else if c == '.' {
        if next_is('.') {
            if n1 + 1 < src.len() && src[n1 + 1] == '=' {
                Lexed::Emit(TokenKind::DotDotEqual, n1 + 2)
            } else {
                Lexed::Emit(TokenKind::DotDot, n1 + 1)
            }
        } else {
            Lexed::Emit(TokenKind::Dot, n1)
        }
    }
    else if c == ' ' || c == '\r' || c == '\t' || c == '\n' { Lexed::Skip(n1) }
    else if is_digit(c) { Lexed::Emit(TokenKind::Number, number_end(src, start)) }
    else if is_ascii_alnum(c) {
        let e = ident_end(src, n1);
        Lexed::Emit(keyword_kind(src.subrange(start, e)), e)
    }
    else { Lexed::Unexpected }
}

/// The text carried by a token of kind `kind` read from `src[start..end]`.
pub open spec fn token_text(src: Seq<char>, start: int, end: int, kind: TokenKind) -> Seq<char> {
    match kind {
        TokenKind::Identifier => src.subrange(start, end),
        TokenKind::Number => src.subrange(start, end),
        TokenKind::String => src.subrange(start + 1, end - 1),
        _ => Seq::empty(),
    }
}

/// The token of kind `kind` read from `src[start..end]`.
pub open spec fn spec_token(src: Seq<char>, start: int, end: int, kind: TokenKind) -> SpecToken {
    SpecToken {
        kind,
        text: token_text(src, start, end, kind),
        lexeme: src.subrange(start, end),
        line: line_at(src, end),
    }
}

/// The end-of-file token of `src`.
pub open spec fn eof_token(src: Seq<char>) -> SpecToken {
    SpecToken { kind: TokenKind::Eof, text: Seq::empty(), lexeme: Seq::empty(), line: line_at(src, src.len() as int) }
}

/// `ts` in front of the tokens of `r`, or the error of `r`.
pub open spec fn prepend(ts: Seq<SpecToken>, r: Result<Seq<SpecToken>, AmystError>) -> Result<Seq<SpecToken>, AmystError> {
    match r {
        Ok(rest) => Ok(ts + rest),
        Err(e) => Err(e),
    }
}

/// The tokens of `src` from position `pos` on, ending with end-of-file,
/// or the first error met.
pub open spec fn scan_from(src: Seq<char>, pos: int) -> Result<Seq<SpecToken>, AmystError>
    decreases src.len() - pos,
{
    if pos < 0 || pos >= src.len() {
        Ok(seq![eof_token(src)])
    } else {
        match lex_at(src, pos) {
            Lexed::Skip(n) => if pos < n <= src.len() { scan_from(src, n) } else { Ok(Seq::empty()) },
            Lexed::Emit(k, n) => if pos < n <= src.len() {
                prepend(seq![spec_token(src, pos, n, k)], scan_from(src, n))
            } else {
                Ok(Seq::empty())
            },
            Lexed::Unexpected => Err(AmystError::UnexpectedCharacter(line_at(src, pos) as usize)),
            Lexed::Unterminated => Err(AmystError::UnterminatedString),
        }
    }
}

/// The tokens of a whole source text.
pub open spec fn scan_spec(src: Seq<char>) -> Result<Seq<SpecToken>, AmystError> {
    scan_from(src, 0)
}

// ---------------------------------------------------------------------------
// Lemmas on the model
// ---------------------------------------------------------------------------

proof fn lemma_span_ends(src: Seq<char>, i: int)
    requires
        0 <= i <= src.len(),
    ensures
        i <= digits_end(src, i) <= src.len(),
        i <= ident_end(src, i) <= src.len(),
        i <= line_end(src, i) <= src.len(),
        i <= quote_end(src, i) <= src.len(),
        forall|k: int| i <= k < digits_end(src, i) ==> is_digit(#[trigger] src[k]),
        forall|k: int| i <= k < ident_end(src, i) ==> is_ident_char(#[trigger] src[k]),
        forall|k: int| i <= k < quote_end(src, i) ==> #[trigger] src[k] != '"',
        digits_end(src, i) < src.len() ==> !is_digit(src[digits_end(src, i)]),
        ident_end(src, i) < src.len() ==> !is_ident_char(src[ident_end(src, i)]),
        line_end(src, i) < src.len() ==> src[line_end(src, i)] == '\n',
        quote_end(src, i) < src.len() ==> src[quote_end(src, i)] == '"',
    decreases src.len() - i,
{
    if i < src.len() {
        lemma_span_ends(src, i + 1);
    }
}

/// Every step of the scanner moves forward and stays within the text.
proof fn lemma_lex_progress(src: Seq<char>, start: int)
    requires
        0 <= start < src.len(),
    ensures
        match lex_at(src, start) {
            Lexed::Skip(n) => start < n <= src.len(),
            Lexed::Emit(_, n) => start < n <= src.len(),
            _ => true,
        },
{
    lemma_span_ends(src, start + 1);
    if start + 2 <= src.len() {
        lemma_span_ends(src, start + 2);
    }
    let j = digits_end(src, start + 1);
    if 0 <= j + 1 <= src.len() {
        lemma_span_ends(src, j + 1);
    }
}

proof fn lemma_count_newlines_push(s: Seq<char>, c: char)
    ensures
        count_newlines(s.push(c)) == count_newlines(s) + if c == '\n' { 1nat } else { 0nat },
{
    assert(s.push(c).drop_last() =~= s);
}

proof fn lemma_line_at_step(src: Seq<char>, pos: int)
    requires
        0 <= pos < src.len(),
    ensures
        line_at(src, pos + 1) == line_at(src, pos) + if src[pos] == '\n' { 1nat } else { 0nat },
{
    assert(src.take(pos + 1) =~= src.take(pos).push(src[pos]));
    lemma_count_newlines_push(src.take(pos), src[pos]);
}

proof fn lemma_line_at_bound(src: Seq<char>, pos: int)
    requires
        0 <= pos <= src.len(),
    ensures
        line_at(src, pos) <= pos + 1,
    decreases pos,
{
    if pos > 0 {
        lemma_line_at_bound(src, pos - 1);
        lemma_line_at_step(src, pos - 1);
    } else {
        assert(src.take(0) =~= Seq::<char>::empty());
    }
}

/// The kind of a token that a scanning step emits is never end-of-file.
proof fn lemma_emit_not_eof(src: Seq<char>, start: int)
    requires
        0 <= start < src.len(),
    ensures
        lex_at(src, start) matches Lexed::Emit(k, _) ==> k != TokenKind::Eof,
{
}

proof fn lemma_scan_from_ends_with_eof(src: Seq<char>, pos: int)
    requires
        0 <= pos,
    ensures
        scan_from(src, pos) matches Ok(ts) ==> {
            &&& ts.len() >= 1
            &&& ts.last() == eof_token(src)
            &&& forall|i: int| 0 <= i < ts.len() - 1 ==> (#[trigger] ts[i]).kind != TokenKind::Eof
        },
    decreases src.len() - pos,
{
    if pos < src.len() {
        lemma_lex_progress(src, pos);
        lemma_emit_not_eof(src, pos);
        match lex_at(src, pos) {
            Lexed::Skip(n) => {
                lemma_scan_from_ends_with_eof(src, n);
            },
            Lexed::Emit(k, n) => {
                lemma_scan_from_ends_with_eof(src, n);
                match scan_from(src, n) {
                    Ok(rest) => {
                        let ts = seq![spec_token(src, pos, n, k)] + rest;
                        assert forall|i: int| 0 <= i < ts.len() - 1 implies (#[trigger] ts[i]).kind != TokenKind::Eof by {
                            if i > 0 {
                                assert(ts[i] == rest[i - 1]);
                            }
                        }
                    },
                    Err(_) => {},
                }
            },
            _ => {},
        }
    }
}

/// A scan that succeeds gives tokens that end with the end-of-file token,
/// and no other token marks the end of the file.
pub proof fn law_scan_ends_with_eof(src: Seq<char>)
    ensures
        scan_spec(src) matches Ok(ts) ==> {
            &&& ts.len() >= 1
            &&& ts.last() == eof_token(src)
            &&& forall|i: int| 0 <= i < ts.len() - 1 ==> (#[trigger] ts[i]).kind != TokenKind::Eof
        },
{
    lemma_scan_from_ends_with_eof(src, 0);
}

proof fn lemma_line_at_mono(src: Seq<char>, i: int, j: int)
    requires
        0 <= i <= j <= src.len(),
    ensures
        1 <= line_at(src, i) <= line_at(src, j),
    decreases j - i,
{
    if i < j {
        lemma_line_at_mono(src, i, j - 1);
        lemma_line_at_step(src, j - 1);
    }
}

proof fn lemma_scan_from_lines(src: Seq<char>, pos: int)
    requires
        0 <= pos <= src.len(),
    ensures
        scan_from(src, pos) matches Ok(ts) ==> {
            &&& forall|i: int| 0 <= i < ts.len() ==> line_at(src, pos) <= (#[trigger] ts[i]).line <= line_at(src, src.len() as int)
            &&& forall|i: int, j: int| 0 <= i <= j < ts.len() ==> (#[trigger] ts[i]).line <= (#[trigger] ts[j]).line
        },
    decreases src.len() - pos,
{
    lemma_line_at_mono(src, pos, src.len() as int);
    if pos < src.len() {
        lemma_lex_progress(src, pos);
        match lex_at(src, pos) {
            Lexed::Skip(n) => {
                lemma_scan_from_lines(src, n);
                lemma_line_at_mono(src, pos, n);
            },
            Lexed::Emit(k, n) => {
                lemma_scan_from_lines(src, n);
                lemma_line_at_mono(src, pos, n);
                lemma_line_at_mono(src, n, src.len() as int);
                match scan_from(src, n) {
                    Ok(rest) => {
                        let ts = seq![spec_token(src, pos, n, k)] + rest;
                        assert forall|i: int| 0 <= i < ts.len() implies
                            line_at(src, pos) <= (#[trigger] ts[i]).line <= line_at(src, src.len() as int) by {
                            if i > 0 {
                                assert(ts[i] == rest[i - 1]);
                            }
                        }
                        assert forall|i: int, j: int| 0 <= i <= j < ts.len() implies
                            (#[trigger] ts[i]).line <= (#[trigger] ts[j]).line by {
                            if i > 0 {
                                assert(ts[i] == rest[i - 1]);
                            }
                            if j > 0 {
                                assert(ts[j] == rest[j - 1]);
                            }
                        }
                    },
                    Err(_) => {},
                }
            },
            _ => {},
        }
    }
}

/// The tokens of a scan come in the order of their lines: each line lies
/// between the first line and the line on which the text ends, and no
/// token lies on an earlier line than the one before it.
pub proof fn law_scan_lines_in_order(src: Seq<char>)
    ensures
        scan_spec(src) matches Ok(ts) ==> {
            &&& forall|i: int| 0 <= i < ts.len() ==> 1 <= (#[trigger] ts[i]).line <= line_at(src, src.len() as int)
            &&& forall|i: int, j: int| 0 <= i <= j < ts.len() ==> (#[trigger] ts[i]).line <= (#[trigger] ts[j]).line
        },
{
    lemma_scan_from_lines(src, 0);
    lemma_line_at_mono(src, 0, 0);
}

/// Blanks separate tokens and make none: a space, tab, carriage return or
/// line break is passed over, and the tokens scanned from it are those
/// scanned from the character after it.
pub proof fn law_blanks_make_no_token(src: Seq<char>, i: int)
    requires
        0 <= i < src.len(),
        src[i] == ' ' || src[i] == '\t' || src[i] == '\r' || src[i] == '\n',
    ensures
        lex_at(src, i) == Lexed::Skip(i + 1),
        scan_from(src, i) == scan_from(src, i + 1),
{
}

/// The token kind of a character that is a token on its own.
pub open spec fn single_char_kind(c: char) -> Option<TokenKind> {
    if c == '(' { Some(TokenKind::LeftParen) }
    else if c == ')' { Some(TokenKind::RightParen) }
    else if c == '{' { Some(TokenKind::LeftBrace) }
    else if c == '}' { Some(TokenKind::RightBrace) }
    else if c == ',' { Some(TokenKind::Comma) }
    else if c == '+' { Some(TokenKind::Plus) }
    else if c == ';' { Some(TokenKind::Semicolon) }
    else if c == '*' { Some(TokenKind::Star) }
    else if c == ':' { Some(TokenKind::Colon) }
    else { None }
}

/// The operator of one or two characters that starts at `i`, and where it
/// ends: the longest of `->`, `!=`, `==`, `<=`, `>=`, `..=`, `..`, `-`, `!`,
/// `=`, `<`, `>`, `.` and `/` (a `/` followed by `/` starts a comment).
pub open spec fn operator_at(src: Seq<char>, i: int) -> Option<(TokenKind, int)> {
    let c = src[i];
    let next = if i + 1 < src.len() { src[i + 1] } else { ' ' };
    let third = if i + 2 < src.len() { src[i + 2] } else { ' ' };
    if c == '-' && next == '>' { Some((TokenKind::Arrow, i + 2)) }
    else if c == '!' && next == '=' { Some((TokenKind::BangEqual, i + 2)) }
    else if c == '=' && next == '=' { Some((TokenKind::EqualEqual, i + 2)) }
    else if c == '<' && next == '=' { Some((TokenKind::LessEqual, i + 2)) }
    else if c == '>' && next == '=' { Some((TokenKind::GreaterEqual, i + 2)) }
    else if c == '.' && next == '.' && third == '=' { Some((TokenKind::DotDotEqual, i + 3)) }
    else if c == '.' && next == '.' { Some((TokenKind::DotDot, i + 2)) }
    else if c == '-' { Some((TokenKind::Minus, i + 1)) }
    else if c == '!' { Some((TokenKind::Bang, i + 1)) }
    else if c == '=' { Some((TokenKind::Equal, i + 1)) }
    else if c == '<' { Some((TokenKind::Less, i + 1)) }
    else if c == '>' { Some((TokenKind::Greater, i + 1)) }
    else if c == '.' { Some((TokenKind::Dot, i + 1)) }
    else if c == '/' && next != '/' { Some((TokenKind::Slash, i + 1)) }
    else { None }
}

/// Punctuation and operators: a character that is a token on its own makes
/// that token, and an operator makes its token, the longest that fits; the
/// token is followed by the tokens of the rest of the text.
pub proof fn law_punctuation_tokens(src: Seq<char>, i: int)
    requires
        0 <= i < src.len(),
    ensures
        single_char_kind(src[i]) matches Some(k) ==> lex_at(src, i) == Lexed::Emit(k, i + 1)
            && scan_from(src, i) == prepend(seq![spec_token(src, i, i + 1, k)], scan_from(src, i + 1)),
        operator_at(src, i) matches Some((k, e)) ==> lex_at(src, i) == Lexed::Emit(k, e)
            && scan_from(src, i) == prepend(seq![spec_token(src, i, e, k)], scan_from(src, e)),
{
    lemma_lex_progress(src, i);
}

/// Comments: from `//` to the end of the line nothing makes a token; the
/// tokens are those that start at the line break (or none at the end).
pub proof fn law_comments_make_no_token(src: Seq<char>, i: int, j: int)
    requires
        0 <= i,
        i + 2 <= j <= src.len(),
        src[i] == '/',
        src[i + 1] == '/',
        forall|k: int| i + 2 <= k < j ==> src[k] != '\n',
        j == src.len() || src[j] == '\n',
    ensures
        scan_from(src, i) == scan_from(src, j),
{
    assert(line_end(src, i + 2) == j) by {
        lemma_line_end_at(src, i + 2, j);
    }
}

proof fn lemma_digits_end_at(src: Seq<char>, k: int, j: int)
    requires
        0 <= k <= j <= src.len(),
        forall|m: int| k <= m < j ==> is_digit(src[m]),
        j == src.len() || !is_digit(src[j]),
    ensures
        digits_end(src, k) == j,
    decreases j - k,
{
    if k < j {
        lemma_digits_end_at(src, k + 1, j);
    }
}

/// Numbers: a run of digits starting at `i` and ending at `a` is a number
/// token; when a point and at least one digit follow, the number goes on
/// to the end `b` of those digits.
pub proof fn law_number_tokens(src: Seq<char>, i: int, a: int, b: int)
    requires
        0 <= i < a <= b <= src.len(),
        forall|m: int| i <= m < a ==> is_digit(src[m]),
        a == src.len() || !is_digit(src[a]),
        a < b ==> {
            &&& src[a] == '.'
            &&& a + 1 < b
            &&& forall|m: int| a + 1 <= m < b ==> is_digit(src[m])
            &&& (b == src.len() || !is_digit(src[b]))
        },
        a == b ==> !(a + 1 < src.len() && src[a] == '.' && is_digit(src[a + 1])),
    ensures
        lex_at(src, i) == Lexed::Emit(TokenKind::Number, b),
        scan_from(src, i) == prepend(seq![spec_token(src, i, b, TokenKind::Number)], scan_from(src, b)),
{
    lemma_digits_end_at(src, i + 1, a);
    if a < b {
        lemma_digits_end_at(src, a + 1, b);
    }
    lemma_lex_progress(src, i);
}

proof fn lemma_quote_end_at(src: Seq<char>, k: int, j: int)
    requires
        0 <= k <= j <= src.len(),
        forall|m: int| k <= m < j ==> src[m] != '"',
        j == src.len() || src[j] == '"',
    ensures
        quote_end(src, k) == j,
    decreases j - k,
{
    if k < j {
        lemma_quote_end_at(src, k + 1, j);
    }
}

/// Strings: a double quote starts a string that runs to the next double
/// quote, line breaks included; the token carries the text between the
/// quotes. With no closing quote, scanning fails.
pub proof fn law_string_tokens(src: Seq<char>, i: int, q: int)
    requires
        0 <= i < q <= src.len(),
        src[i] == '"',
        forall|m: int| i < m < q ==> src[m] != '"',
        q == src.len() || src[q] == '"',
    ensures
        q < src.len() ==> lex_at(src, i) == Lexed::Emit(TokenKind::String, q + 1)
            && token_text(src, i, q + 1, TokenKind::String) == src.subrange(i + 1, q)
            && scan_from(src, i) == prepend(seq![spec_token(src, i, q + 1, TokenKind::String)], scan_from(src, q + 1)),
        q == src.len() ==> scan_from(src, i) == Err::<Seq<SpecToken>, AmystError>(AmystError::UnterminatedString),
{
    lemma_quote_end_at(src, i + 1, q);
    lemma_lex_progress(src, i);
}

/// Lines: the text starts on line 1, a line break moves to the next line,
/// and any other character stays on the same line.
pub proof fn law_lines_count_line_breaks(src: Seq<char>, pos: int)
    requires
        0 <= pos < src.len(),
    ensures
        line_at(src, 0) == 1,
        src[pos] == '\n' ==> line_at(src, pos + 1) == line_at(src, pos) + 1,
        src[pos] != '\n' ==> line_at(src, pos + 1) == line_at(src, pos),
{
    assert(src.take(0) =~= Seq::<char>::empty());
    lemma_line_at_step(src, pos);
}

/// The keywords of the language and their token kinds.
pub open spec fn keywords() -> Seq<(Seq<char>, TokenKind)> {
    seq![
        (seq!['a', 'n', 'd'], TokenKind::And), (seq!['c', 'l', 'a', 's', 's'], TokenKind::Class), (seq!['e', 'l', 's', 'e'], TokenKind::Else),
        (seq!['f', 'a', 'l', 's', 'e'], TokenKind::False), (seq!['f', 'o', 'r'], TokenKind::For), (seq!['f', 'n'], TokenKind::Fn),
        (seq!['m', 'u', 't'], TokenKind::Mut), (seq!['i', 'f'], TokenKind::If), (seq!['i', 'n'], TokenKind::In), (seq!['o', 'r'], TokenKind::Or),
        (seq!['p', 'r', 'i', 'n', 't'], TokenKind::Print), (seq!['r', 'e', 't', 'u', 'r', 'n'], TokenKind::Return), (seq!['s', 'u', 'p', 'e', 'r'], TokenKind::Super),
        (seq!['t', 'h', 'i', 's'], TokenKind::This), (seq!['t', 'r', 'u', 'e'], TokenKind::True), (seq!['l', 'e', 't'], TokenKind::Let),
        (seq!['w', 'h', 'i', 'l', 'e'], TokenKind::While)
    ]
}

proof fn lemma_ident_end_at(src: Seq<char>, k: int, j: int)
    requires
        0 <= k <= j <= src.len(),
        forall|m: int| k <= m < j ==> is_ident_char(src[m]),
        j == src.len() || !is_ident_char(src[j]),
    ensures
        ident_end(src, k) == j,
    decreases j - k,
{
    if k < j {
        lemma_ident_end_at(src, k + 1, j);
    }
}

/// Words: a run that starts with an ASCII letter and goes on through
/// letters, digits and `_` is one token: the keyword it spells, from the
/// list of keywords, or else a name.
pub proof fn law_words(src: Seq<char>, i: int, e: int)
    requires
        0 <= i < e <= src.len(),
        ('a' <= src[i] <= 'z') || ('A' <= src[i] <= 'Z'),
        forall|m: int| i < m < e ==> is_ident_char(src[m]),
        e == src.len() || !is_ident_char(src[e]),
    ensures
        ({
            let w = src.subrange(i, e);
            let kind = if exists|k: int| 0 <= k < keywords().len() && keywords()[k].0 == w {
                keywords()[choose|k: int| 0 <= k < keywords().len() && keywords()[k].0 == w].1
            } else {
                TokenKind::Identifier
            };
            lex_at(src, i) == Lexed::Emit(kind, e)
        }),
{
    lemma_ident_end_at(src, i + 1, e);
    let w = src.subrange(i, e);
    let ks = keywords();
    if exists|k: int| 0 <= k < ks.len() && ks[k].0 == w {
        let k = choose|k: int| 0 <= k < ks.len() && ks[k].0 == w;
        if k == 0 { assert(w =~= seq!['a', 'n', 'd']); }
        if k == 1 { assert(w =~= seq!['c', 'l', 'a', 's', 's']); }
        if k == 2 { assert(w =~= seq!['e', 'l', 's', 'e']); }
        if k == 3 { assert(w =~= seq!['f', 'a', 'l', 's', 'e']); }
        if k == 4 { assert(w =~= seq!['f', 'o', 'r']); }
        if k == 5 { assert(w =~= seq!['f', 'n']); }
        if k == 6 { assert(w =~= seq!['m', 'u', 't']); }
        if k == 7 { assert(w =~= seq!['i', 'f']); }
        if k == 8 { assert(w =~= seq!['i', 'n']); }
        if k == 9 { assert(w =~= seq!['o', 'r']); }
        if k == 10 { assert(w =~= seq!['p', 'r', 'i', 'n', 't']); }
        if k == 11 { assert(w =~= seq!['r', 'e', 't', 'u', 'r', 'n']); }
        if k == 12 { assert(w =~= seq!['s', 'u', 'p', 'e', 'r']); }
        if k == 13 { assert(w =~= seq!['t', 'h', 'i', 's']); }
        if k == 14 { assert(w =~= seq!['t', 'r', 'u', 'e']); }
        if k == 15 { assert(w =~= seq!['l', 'e', 't']); }
        if k == 16 { assert(w =~= seq!['w', 'h', 'i', 'l', 'e']); }
        assert(keyword_kind(w) == ks[k].1);
    } else {
        assert(ks[0].0 != w);
        assert(ks[1].0 != w);
        assert(ks[2].0 != w);
        assert(ks[3].0 != w);
        assert(ks[4].0 != w);
        assert(ks[5].0 != w);
        assert(ks[6].0 != w);
        assert(ks[7].0 != w);
        assert(ks[8].0 != w);
        assert(ks[9].0 != w);
        assert(ks[10].0 != w);
        assert(ks[11].0 != w);
        assert(ks[12].0 != w);
        assert(ks[13].0 != w);
        assert(ks[14].0 != w);
        assert(ks[15].0 != w);
        assert(ks[16].0 != w);
        assert(keyword_kind(w) == TokenKind::Identifier);
    }
}

proof fn lemma_line_end_at(src: Seq<char>, k: int, j: int)
    requires
        0 <= k <= j <= src.len(),
        forall|m: int| k <= m < j ==> src[m] != '\n',
        j == src.len() || src[j] == '\n',
    ensures
        line_end(src, k) == j,
    decreases j - k,
{
    if k < j {
        lemma_line_end_at(src, k + 1, j);
    }
}

// ---------------------------------------------------------------------------
// Character classes
// ---------------------------------------------------------------------------

/// Whether `c` is alphanumeric in Unicode's sense.
///
/// Trusted: calls `char::is_alphanumeric`; the contract names its result
/// `unicode_alphanumeric(c)`, and states of it only what std documents for
/// ASCII characters: among them, exactly the letters and digits are
/// alphanumeric.
#[verifier::external_body]
fn char_is_alphanumeric(c: char) -> (b: bool)
    ensures
        b == unicode_alphanumeric(c),
        (c as u32) < 128 ==> (b == is_ascii_alnum(c)),
{
    c.is_alphanumeric()
}

fn char_is_digit(c: char) -> (b: bool)
    ensures
        b == is_digit(c),
{
    '0' <= c && c <= '9'
}

fn char_is_ascii_alnum(c: char) -> (b: bool)
    ensures
        b == is_ascii_alnum(c),
{
    ('a' <= c && c <= 'z') || ('A' <= c && c <= 'Z') || ('0' <= c && c <= '9')
}

/// The characters of `s`.
fn chars_of(s: &str) -> (v: Vec<char>)
    ensures
        v@ == s@,
{
    let mut v: Vec<char> = Vec::new();
    for c in it: s.chars()
        invariant
            v@ == it.seq().take(it.index() as int),
    {
        v.push(c);
    }
    v
}

/// Whether `chars[start..end]` spells `w`.
fn word_is(chars: &Vec<char>, start: usize, end: usize, w: &[char]) -> (b: bool)
    requires
        start <= end <= chars.len(),
    ensures
        b == (chars@.subrange(start as int, end as int) == w@),
{
    if end - start != w.len() {
        return false;
    }
    let mut i: usize = 0;
    while i < w.len()
        invariant
            start <= end <= chars.len(),
            end - start == w.len(),
            0 <= i <= w.len(),
            forall|k: int| 0 <= k < i ==> chars@[start + k] == w@[k],
        decreases w.len() - i,
    {
        if chars[start + i] != w[i] {
            assert(chars@.subrange(start as int, end as int)[i as int] != w@[i as int]);
            return false;
        }
        i = i + 1;
    }
    assert(chars@.subrange(start as int, end as int) =~= w@);
    true
}

// ---------------------------------------------------------------------------
// The scanner
// ---------------------------------------------------------------------------

/// Reads a source text into tokens.
pub struct Scanner<'a> {
    source: &'a str,
    chars: Vec<char>,
    tokens: Vec<Token<'a>>,
    start: usize,
    current: usize,
    line: usize,
}

impl<'a> Scanner<'a> {
    /// The characters of the source text.
    pub closed spec fn source_chars(&self) -> Seq<char> {
        self.source@
    }

    /// Whether the scanner has not started yet.
    pub closed spec fn is_fresh(&self) -> bool {
        &&& self.chars@ == self.source@
        &&& self.tokens@.len() == 0
        &&& self.start == 0
        &&& self.current == 0
        &&& self.line == 1
    }

    spec fn wf(&self) -> bool {
        &&& self.chars@ == self.source@
        &&& self.chars@.len() < usize::MAX
        &&& self.start <= self.current <= self.chars@.len()
        &&& self.line == line_at(self.chars@, self.current as int)
    }

    /// A scanner at the beginning of `source`.
    pub fn new(source: &'a str) -> (s: Self)
        ensures
            s.source_chars() == source@,
            s.is_fresh(),
    {
        let chars = chars_of(source);
        Scanner { source, chars, tokens: vec![], current: 0, start: 0, line: 1 }
    }

    /// Reads the whole source text into tokens, the last of which marks
    /// the end of the file; or returns the first error met.
    pub fn scan_tokens(self) -> (res: Result<Vec<Token<'a>>, AmystError>)
        requires
            self.is_fresh(),
            self.source_chars().len() < usize::MAX,
        ensures
            match (res, scan_spec(self.source_chars())) {
                (Ok(ts), Ok(spec)) => tokens_view(ts@) == spec,
                (Err(e), Err(spec)) => e == spec,
                _ => false,
            },
    {
        let mut scanner = self;
        let ghost src = scanner.chars@;
        proof {
            assert(src.take(0) =~= Seq::<char>::empty());
            assert(tokens_view(scanner.tokens@) =~= Seq::<SpecToken>::empty());
            match scan_from(src, 0) {
                Ok(rest) => { assert(Seq::<SpecToken>::empty() + rest =~= rest); }
                Err(_) => {}
            }
        }
        while !scanner.is_at_end()
            invariant
                scanner.wf(),
                scanner.chars@ == src,
                src == self.source_chars(),
                scan_spec(src) == prepend(tokens_view(scanner.tokens@), scan_from(src, scanner.current as int)),
            decreases src.len() - scanner.current,
        {
            scanner.start = scanner.current;
            let ghost before = tokens_view(scanner.tokens@);
            let ghost pos = scanner.current as int;
            proof { lemma_lex_progress(src, pos); }
            match scanner.scan_token() {
                Ok(()) => {
                    proof {
                        match lex_at(src, pos) {
                            Lexed::Skip(n) => {
                                assert(tokens_view(scanner.tokens@) == before);
                            }
                            Lexed::Emit(k, n) => {
                                assert(tokens_view(scanner.tokens@) =~= before + seq![spec_token(src, pos, n, k)]);
                                match scan_from(src, n) {
                                    Ok(rest) => {
                                        assert(before + (seq![spec_token(src, pos, n, k)] + rest)
                                            =~= (before + seq![spec_token(src, pos, n, k)]) + rest);
                                    }
                                    Err(_) => {}
                                }
                            }
                            _ => {}
                        }
                    }
                }
                Err(e) => {
                    assert(scan_from(src, pos) == Err::<Seq<SpecToken>, AmystError>(e));
                    assert(scan_spec(src) == Err::<Seq<SpecToken>, AmystError>(e));
                    return Err(e);
                }
            }
        }
        let lexeme = scanner.source.substring_char(scanner.chars.len(), scanner.chars.len());
        scanner.tokens.push(Token { token_type: TokenType::Eof, lexeme, line: scanner.line });
        proof {
            let ts = tokens_view(scanner.tokens@);
            assert(lexeme@ =~= Seq::<char>::empty());
            assert(ts =~= tokens_view(scanner.tokens@.drop_last()) + seq![eof_token(src)]);
        }
        Ok(scanner.tokens)
    }

    /// Reads the token that starts at `start`.
    fn scan_token(&mut self) -> (res: Result<(), AmystError>)
        requires
            old(self).wf(),
            old(self).start == old(self).current < old(self).chars@.len(),
        ensures
            final(self).wf(),
            final(self).chars@ == old(self).chars@,
            final(self).source == old(self).source,
            match lex_at(old(self).chars@, old(self).start as int) {
                Lexed::Skip(n) => res is Ok && final(self).current == n && final(self).tokens@ == old(self).tokens@,
                Lexed::Emit(k, n) => res is Ok && final(self).current == n
                    && tokens_view(final(self).tokens@) == tokens_view(old(self).tokens@).push(
                        spec_token(old(self).chars@, old(self).start as int, n, k)),
                Lexed::Unexpected => res == Err::<(), AmystError>(AmystError::UnexpectedCharacter(
                    line_at(old(self).chars@, old(self).start as int) as usize)),
                Lexed::Unterminated => res == Err::<(), AmystError>(AmystError::UnterminatedString),
            },
    {
        let ghost src = self.chars@;
        let ghost start = self.start as int;
        proof {
            lemma_span_ends(src, start + 1);
            lemma_line_at_bound(src, start + 1);
            lemma_line_at_step(src, start);
        }
        let c = self.advance();
        if c == ':' { self.add_token(TokenType::Colon); Ok(()) }
        else if c == '(' { self.add_token(TokenType::LeftParen); Ok(()) }
        else if c == ')' { self.add_token(TokenType::RightParen); Ok(()) }
        else if c == '{' { self.add_token(TokenType::LeftBrace); Ok(()) }
        else if c == '}' { self.add_token(TokenType::RightBrace); Ok(()) }
        else if c == ',' { self.add_token(TokenType::Comma); Ok(()) }
        else if c == '+' { self.add_token(TokenType::Plus); Ok(()) }
        else if c == ';' { self.add_token(TokenType::Semicolon); Ok(()) }
        else if c == '*' { self.add_token(TokenType::Star); Ok(()) }
        else if c == '"' { self.add_string_token() }
        else if c == '-' {
            let t = if self.matches('>') { TokenType::Arrow } else { TokenType::Minus };
            self.add_token(t);
            Ok(())
        }
        else if c == '!' {
            let t = if self.matches('=') { TokenType::BangEqual } else { TokenType::Bang };
            self.add_token(t);
            Ok(())
        }
        else if c == '=' {
            let t = if self.matches('=') { TokenType::EqualEqual } else { TokenType::Equal };
            self.add_token(t);
            Ok(())
        }
        else if c == '<' {
            let t = if self.matches('=') { TokenType::LessEqual } else { TokenType::Less };
            self.add_token(t);
            Ok(())
        }
        else if c == '>' {
            let t = if self.matches('=') { TokenType::GreaterEqual } else { TokenType::Greater };
            self.add_token(t);
            Ok(())
        }
        else if c == '/' {
            if self.matches('/') {
                proof { lemma_span_ends(src, start + 2); }
                while self.peek() != Some('\n') && !self.is_at_end()
                    invariant
                        self.wf(),
                        self.chars@ == src,
                        self.source == old(self).source,
                        self.tokens@ == old(self).tokens@,
                        start + 2 <= self.current <= line_end(src, start + 2),
                        line_end(src, self.current as int) == line_end(src, start + 2),
                    decreases src.len() - self.current,
                {
                    proof { lemma_span_ends(src, self.current as int + 1); }
                    self.advance();
                }
                Ok(())
            } else {
                self.add_token(TokenType::Slash);
                Ok(())
            }
        }
        else if c == '.' {
            let t = if self.matches('.') {
                if self.matches('=') { TokenType::DotDotEqual } else { TokenType::DotDot }
            } else {
                TokenType::Dot
            };
            self.add_token(t);
            Ok(())
        }
        else if c == ' ' || c == '\r' || c == '\t' || c == '\n' {
            Ok(())
        }
        else if char_is_digit(c) {
            self.add_number_token()
        }
        else if char_is_ascii_alnum(c) {
            self.add_identifier();
            Ok(())
        }
        else {
            Err(AmystError::UnexpectedCharacter(self.line))
        }
    }

    /// Reads the rest of an identifier or keyword.
    fn add_identifier(&mut self)
        requires
            old(self).wf(),
            old(self).start + 1 == old(self).current,
        ensures
            final(self).wf(),
            final(self).chars@ == old(self).chars@,
            final(self).source == old(self).source,
            final(self).current == ident_end(old(self).chars@, old(self).current as int),
            tokens_view(final(self).tokens@) == tokens_view(old(self).tokens@).push(spec_token(
                old(self).chars@, old(self).start as int, final(self).current as int,
                keyword_kind(old(self).chars@.subrange(old(self).start as int, final(self).current as int)))),
    {
        let ghost src = self.chars@;
        proof { lemma_span_ends(src, self.current as int); }
        while self.peek_is_ident_char()
            invariant
                self.wf(),
                self.chars@ == src,
                self.source == old(self).source,
                self.tokens@ == old(self).tokens@,
                self.start == old(self).start,
                old(self).current <= self.current <= ident_end(src, old(self).current as int),
                ident_end(src, self.current as int) == ident_end(src, old(self).current as int),
            decreases src.len() - self.current,
        {
            proof { lemma_span_ends(src, self.current as int + 1); }
            self.advance();
        }
        let s = self.start;
        let e = self.current;
        let ch = &self.chars;
        let token_type = if word_is(ch, s, e, &['a', 'n', 'd']) { TokenType::And }
            else if word_is(ch, s, e, &['c', 'l', 'a', 's', 's']) { TokenType::Class }
            else if word_is(ch, s, e, &['e', 'l', 's', 'e']) { TokenType::Else }
            else if word_is(ch, s, e, &['f', 'a', 'l', 's', 'e']) { TokenType::False }
            else if word_is(ch, s, e, &['f', 'o', 'r']) { TokenType::For }
            else if word_is(ch, s, e, &['f', 'n']) { TokenType::Fn }
            else if word_is(ch, s, e, &['m', 'u', 't']) { TokenType::Mut }
            else if word_is(ch, s, e, &['i', 'f']) { TokenType::If }
            else if word_is(ch, s, e, &['i', 'n']) { TokenType::In }
            else if word_is(ch, s, e, &['o', 'r']) { TokenType::Or }
            else if word_is(ch, s, e, &['p', 'r', 'i', 'n', 't']) { TokenType::Print }
            else if word_is(ch, s, e, &['r', 'e', 't', 'u', 'r', 'n']) { TokenType::Return }
            else if word_is(ch, s, e, &['s', 'u', 'p', 'e', 'r']) { TokenType::Super }
            else if word_is(ch, s, e, &['t', 'h', 'i', 's']) { TokenType::This }
            else if word_is(ch, s, e, &['t', 'r', 'u', 'e']) { TokenType::True }
            else if word_is(ch, s, e, &['l', 'e', 't']) { TokenType::Let }
            else if word_is(ch, s, e, &['w', 'h', 'i', 'l', 'e']) { TokenType::While }
            else { TokenType::Identifier(self.source.substring_char(s, e)) };
        self.add_token(token_type);
    }

    /// Reads the rest of a number literal.
    fn add_number_token(&mut self) -> (res: Result<(), AmystError>)
        requires
            old(self).wf(),
            old(self).start + 1 == old(self).current,
        ensures
            res is Ok,
            final(self).wf(),
            final(self).chars@ == old(self).chars@,
            final(self).source == old(self).source,
            final(self).current == number_end(old(self).chars@, old(self).start as int),
            tokens_view(final(self).tokens@) == tokens_view(old(self).tokens@).push(spec_token(
                old(self).chars@, old(self).start as int, final(self).current as int, TokenKind::Number)),
    {
        let ghost src = self.chars@;
        let ghost j = digits_end(src, self.current as int);
        proof { lemma_span_ends(src, self.current as int); }
        while self.peek().is_some() && char_is_digit(self.peek().unwrap())
            invariant
                self.wf(),
                self.chars@ == src,
                self.source == old(self).source,
                self.tokens@ == old(self).tokens@,
                self.start == old(self).start,
                old(self).current <= self.current <= j,
                digits_end(src, self.current as int) == j,
            decreases src.len() - self.current,
        {
            proof { lemma_span_ends(src, self.current as int + 1); }
            self.advance();
        }
        if self.peek() == Some('.') && char_is_digit(self.peek_next()) {
            self.advance();
            proof { lemma_span_ends(src, j + 1); }
            while self.peek().is_some() && char_is_digit(self.peek().unwrap())
                invariant
                    self.wf(),
                    self.chars@ == src,
                    self.source == old(self).source,
                    self.tokens@ == old(self).tokens@,
                    self.start == old(self).start,
                    j + 1 <= self.current <= digits_end(src, j + 1),
                    digits_end(src, self.current as int) == digits_end(src, j + 1),
                decreases src.len() - self.current,
            {
                proof { lemma_span_ends(src, self.current as int + 1); }
                self.advance();
            }
        }
        let text = self.source.substring_char(self.start, self.current);
        self.add_token(TokenType::Number(text));
        Ok(())
    }

    /// Reads the rest of a string literal.
    fn add_string_token(&mut self) -> (res: Result<(), AmystError>)
        requires
            old(self).wf(),
            old(self).start + 1 == old(self).current,
        ensures
            final(self).wf(),
            final(self).chars@ == old(self).chars@,
            final(self).source == old(self).source,
            ({
                let q = quote_end(old(self).chars@, old(self).current as int);
                if q >= old(self).chars@.len() {
                    res == Err::<(), AmystError>(AmystError::UnterminatedString)
                } else {
                    &&& res is Ok
                    &&& final(self).current == q + 1
                    &&& tokens_view(final(self).tokens@) == tokens_view(old(self).tokens@).push(spec_token(
                        old(self).chars@, old(self).start as int, q + 1, TokenKind::String))
                }
            }),
    {
        let ghost src = self.chars@;
        let ghost q = quote_end(src, self.current as int);
        proof { lemma_span_ends(src, self.current as int); }
        while self.peek() != Some('"') && !self.is_at_end()
            invariant
                self.wf(),
                self.chars@ == src,
                self.source == old(self).source,
                self.tokens@ == old(self).tokens@,
                self.start == old(self).start,
                old(self).current <= self.current <= q,
                quote_end(src, self.current as int) == q,
            decreases src.len() - self.current,
        {
            proof {
                lemma_line_at_bound(src, self.current as int);
                lemma_span_ends(src, self.current as int + 1);
            }
            if self.peek() == Some('\n') {
                self.line = self.line + 1;
            }
            self.current = self.current + 1;
            proof { lemma_line_at_step(src, self.current as int - 1); }
        }
        if self.is_at_end() {
            return Err(AmystError::UnterminatedString);
        }
        self.advance();
        let value = self.source.substring_char(self.start + 1, self.current - 1);
        self.add_token(TokenType::String(value));
        Ok(())
    }

    fn peek_is_ident_char(&self) -> (b: bool)
        requires
            self.wf(),
        ensures
            b == (self.current < self.chars@.len() && is_ident_char(self.chars@[self.current as int])),
    {
        if self.is_at_end() {
            return false;
        }
        let c = self.chars[self.current];
        char_is_alphanumeric(c) || c == '_'
    }

    fn is_at_end(&self) -> (b: bool)
        requires
            self.wf(),
        ensures
            b == (self.current >= self.chars@.len()),
    {
        self.current >= self.chars.len()
    }

    /// Consumes the current character, which must not be a line break.
    fn advance(&mut self) -> (c: char)
        requires
            old(self).wf(),
            old(self).current < old(self).chars@.len(),
        ensures
            final(self).wf(),
            c == old(self).chars@[old(self).current as int],
            final(self).current == old(self).current + 1,
            final(self).chars@ == old(self).chars@,
            final(self).source == old(self).source,
            final(self).tokens@ == old(self).tokens@,
            final(self).start == old(self).start,
    {
        let c = self.chars[self.current];
        proof {
            lemma_line_at_step(self.chars@, self.current as int);
            lemma_line_at_bound(self.chars@, self.current as int + 1);
        }
        if c == '\n' {
            self.line = self.line + 1;
        }
        self.current = self.current + 1;
        c
    }

    /// Consumes the current character if it is `expected`.
    fn matches(&mut self, expected: char) -> (b: bool)
        requires
            old(self).wf(),
            expected != '\n',
        ensures
            final(self).wf(),
            b == (old(self).current < old(self).chars@.len() && old(self).chars@[old(self).current as int] == expected),
            final(self).current == old(self).current + if b { 1int } else { 0int },
            final(self).chars@ == old(self).chars@,
            final(self).source == old(self).source,
            final(self).tokens@ == old(self).tokens@,
            final(self).start == old(self).start,
    {
        if self.is_at_end() {
            return false;
        }
        if self.chars[self.current] != expected {
            return false;
        }
        proof { lemma_line_at_step(self.chars@, self.current as int); }
        self.current = self.current + 1;
        true
    }

    fn peek(&self) -> (c: Option<char>)
        requires
            self.wf(),
        ensures
            c == if self.current < self.chars@.len() { Some(self.chars@[self.current as int]) } else { None::<char> },
    {
        if self.is_at_end() {
            return None;
        }
        Some(self.chars[self.current])
    }

    /// The character after the current one; a line break past the end,
    /// and the nul character when the current one is past the end.
    fn peek_next(&self) -> (c: char)
        requires
            self.wf(),
        ensures
            c == if self.current >= self.chars@.len() {
                '\0'
            } else if self.current + 1 < self.chars@.len() {
                self.chars@[self.current + 1]
            } else {
                '\n'
            },
    {
        if self.is_at_end() {
            return '\0';
        }
        if self.current + 1 < self.chars.len() {
            self.chars[self.current + 1]
        } else {
            '\n'
        }
    }

    /// Adds a token of type `token_type` read from `start` to `current`.
    fn add_token(&mut self, token_type: TokenType<'a>)
        requires
            old(self).wf(),
            token_type.spec_text() == token_text(old(self).chars@, old(self).start as int,
                old(self).current as int, token_type.spec_kind()),
        ensures
            final(self).wf(),
            final(self).chars@ == old(self).chars@,
            final(self).source == old(self).source,
            final(self).current == old(self).current,
            final(self).start == old(self).start,
            tokens_view(final(self).tokens@) == tokens_view(old(self).tokens@).push(spec_token(
                old(self).chars@, old(self).start as int, old(self).current as int, token_type.spec_kind())),
    {
        let lexeme = self.source.substring_char(self.start, self.current);
        self.tokens.push(Token { token_type, lexeme, line: self.line });
        proof {
            assert(tokens_view(self.tokens@) =~= tokens_view(old(self).tokens@).push(spec_token(
                old(self).chars@, old(self).start as int, old(self).current as int, token_type.spec_kind())));
        }
    }
}

} // verus!
