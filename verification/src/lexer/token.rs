use vstd::prelude::*;

verus! {

/// The kind of a token, without the text that some kinds carry.
#[derive(Debug, Clone, Copy, PartialEq, Eq, Structural)]
pub enum TokenKind {
    LeftParen,
    RightParen,
    LeftBrace,
    RightBrace,
    Comma,
    Arrow,
    Dot,
    DotDot,
    DotDotEqual,
    Minus,
    Plus,
    Semicolon,
    Colon,
    Slash,
    Star,
    Bang,
    BangEqual,
    Equal,
    EqualEqual,
    Greater,
    GreaterEqual,
    Less,
    LessEqual,
    Identifier,
    String,
    Number,
    And,
    Class,
    Else,
    False,
    Fn,
    Mut,
    For,
    If,
    Unit,
    In,
    Or,
    Print,
    Return,
    Super,
    This,
    True,
    Let,
    While,
    Eof,
}

/// The type of a token. Identifiers, string literals and number literals
/// carry their text: the name, the contents between the quotes, and the
/// decimal digits as written in the source.
#[derive(Debug, Clone, Copy, PartialEq)]
pub enum TokenType<'a> {
    LeftParen,
    RightParen,
    LeftBrace,
    RightBrace,
    Comma,
    Arrow,
    Dot,
    DotDot,
    DotDotEqual,
    Minus,
    Plus,
    Semicolon,
    Colon,
    Slash,
    Star,
    Bang,
    BangEqual,
    Equal,
    EqualEqual,
    Greater,
    GreaterEqual,
    Less,
    LessEqual,
    Identifier(&'a str),
    String(&'a str),
    Number(&'a str),
    And,
    Class,
    Else,
    False,
    Fn,
    Mut,
    For,
    If,
    Unit,
    In,
    Or,
    Print,
    Return,
    Super,
    This,
    True,
    Let,
    While,
    Eof,
}

/// A token: its type, the source text it was read from, and the line on
/// which it ends.
#[derive(Debug, Clone, Copy, PartialEq)]
pub struct Token<'a> {
    pub token_type: TokenType<'a>,
    pub lexeme: &'a str,
    pub line: usize,
}

/// The mathematical model of a token.
pub struct SpecToken {
    pub kind: TokenKind,
    /// The text carried by identifiers, strings and numbers; empty for the rest.
    pub text: Seq<char>,
    pub lexeme: Seq<char>,
    pub line: nat,
}

impl<'a> TokenType<'a> {
    pub open spec fn spec_kind(self) -> TokenKind {
        match self {
            TokenType::LeftParen => TokenKind::LeftParen,
            TokenType::RightParen => TokenKind::RightParen,
            TokenType::LeftBrace => TokenKind::LeftBrace,
            TokenType::RightBrace => TokenKind::RightBrace,
            TokenType::Comma => TokenKind::Comma,
            TokenType::Arrow => TokenKind::Arrow,
            TokenType::Dot => TokenKind::Dot,
            TokenType::DotDot => TokenKind::DotDot,
            TokenType::DotDotEqual => TokenKind::DotDotEqual,
            TokenType::Minus => TokenKind::Minus,
            TokenType::Plus => TokenKind::Plus,
            TokenType::Semicolon => TokenKind::Semicolon,
            TokenType::Colon => TokenKind::Colon,
            TokenType::Slash => TokenKind::Slash,
            TokenType::Star => TokenKind::Star,
            TokenType::Bang => TokenKind::Bang,
            TokenType::BangEqual => TokenKind::BangEqual,
            TokenType::Equal => TokenKind::Equal,
            TokenType::EqualEqual => TokenKind::EqualEqual,
            TokenType::Greater => TokenKind::Greater,
            TokenType::GreaterEqual => TokenKind::GreaterEqual,
            TokenType::Less => TokenKind::Less,
            TokenType::LessEqual => TokenKind::LessEqual,
            TokenType::Identifier(_) => TokenKind::Identifier,
            TokenType::String(_) => TokenKind::String,
            TokenType::Number(_) => TokenKind::Number,
            TokenType::And => TokenKind::And,
            TokenType::Class => TokenKind::Class,
            TokenType::Else => TokenKind::Else,
            TokenType::False => TokenKind::False,
            TokenType::Fn => TokenKind::Fn,
            TokenType::Mut => TokenKind::Mut,
            TokenType::For => TokenKind::For,
            TokenType::If => TokenKind::If,
            TokenType::Unit => TokenKind::Unit,
            TokenType::In => TokenKind::In,
            TokenType::Or => TokenKind::Or,
            TokenType::Print => TokenKind::Print,
            TokenType::Return => TokenKind::Return,
            TokenType::Super => TokenKind::Super,
            TokenType::This => TokenKind::This,
            TokenType::True => TokenKind::True,
            TokenType::Let => TokenKind::Let,
            TokenType::While => TokenKind::While,
            TokenType::Eof => TokenKind::Eof,
        }
    }

    pub open spec fn spec_text(self) -> Seq<char> {
        match self {
            TokenType::Identifier(s) => s@,
            TokenType::String(s) => s@,
            TokenType::Number(s) => s@,
            _ => Seq::empty(),
        }
    }

    /// The kind of this token type.
    pub fn kind(&self) -> (k: TokenKind)
        ensures
            k == self.spec_kind(),
    {
        match self {
            TokenType::LeftParen => TokenKind::LeftParen,
            TokenType::RightParen => TokenKind::RightParen,
            TokenType::LeftBrace => TokenKind::LeftBrace,
            TokenType::RightBrace => TokenKind::RightBrace,
            TokenType::Comma => TokenKind::Comma,
            TokenType::Arrow => TokenKind::Arrow,
            TokenType::Dot => TokenKind::Dot,
            TokenType::DotDot => TokenKind::DotDot,
            TokenType::DotDotEqual => TokenKind::DotDotEqual,
            TokenType::Minus => TokenKind::Minus,
            TokenType::Plus => TokenKind::Plus,
            TokenType::Semicolon => TokenKind::Semicolon,
            TokenType::Colon => TokenKind::Colon,
            TokenType::Slash => TokenKind::Slash,
            TokenType::Star => TokenKind::Star,
            TokenType::Bang => TokenKind::Bang,
            TokenType::BangEqual => TokenKind::BangEqual,
            TokenType::Equal => TokenKind::Equal,
            TokenType::EqualEqual => TokenKind::EqualEqual,
            TokenType::Greater => TokenKind::Greater,
            TokenType::GreaterEqual => TokenKind::GreaterEqual,
            TokenType::Less => TokenKind::Less,
            TokenType::LessEqual => TokenKind::LessEqual,
            TokenType::Identifier(_) => TokenKind::Identifier,
            TokenType::String(_) => TokenKind::String,
            TokenType::Number(_) => TokenKind::Number,
            TokenType::And => TokenKind::And,
            TokenType::Class => TokenKind::Class,
            TokenType::Else => TokenKind::Else,
            TokenType::False => TokenKind::False,
            TokenType::Fn => TokenKind::Fn,
            TokenType::Mut => TokenKind::Mut,
            TokenType::For => TokenKind::For,
            TokenType::If => TokenKind::If,
            TokenType::Unit => TokenKind::Unit,
            TokenType::In => TokenKind::In,
            TokenType::Or => TokenKind::Or,
            TokenType::Print => TokenKind::Print,
            TokenType::Return => TokenKind::Return,
            TokenType::Super => TokenKind::Super,
            TokenType::This => TokenKind::This,
            TokenType::True => TokenKind::True,
            TokenType::Let => TokenKind::Let,
            TokenType::While => TokenKind::While,
            TokenType::Eof => TokenKind::Eof,
        }
    }
}

impl<'a> View for Token<'a> {
    type V = SpecToken;

    open spec fn view(&self) -> SpecToken {
        SpecToken {
            kind: self.token_type.spec_kind(),
            text: self.token_type.spec_text(),
            lexeme: self.lexeme@,
            line: self.line as nat,
        }
    }
}

/// The model of a sequence of tokens.
pub open spec fn tokens_view<'a>(ts: Seq<Token<'a>>) -> Seq<SpecToken> {
    ts.map_values(|t: Token<'a>| t@)
}

} // verus!
