//! Lexical tokens produced by the lexer and consumed by the parser.

use vstd::prelude::*;
use crate::decimal::{dec_i64, i64_to_decimal};

verus! {

/// One lexeme of the surface language.
#[derive(Debug, Clone, PartialEq)]
pub enum Token {
    LeftParen,
    RightParen,
    LeftBrace,
    RightBrace,
    Comma,
    Dot,
    Minus,
    Plus,
    Semicolon,
    Slash,
    Star,
    Bang,
    BangEqual,
    Equal,
    EqualEqual,
    Greater,
    GreaterEqual,
    Less,
    LessEqual,
    Identifier(String),
    Str(String),
    Number(i64),
    And,
    Class,
    Else,
    False,
    Fun,
    For,
    If,
    Nil,
    Or,
    Print,
    Return,
    Super,
    This,
    True,
    Var,
    While,
    Eof,
}

/// Model of a token: the payload of identifier and string tokens is a
/// character sequence.
pub enum TokenM {
    LeftParen,
    RightParen,
    LeftBrace,
    RightBrace,
    Comma,
    Dot,
    Minus,
    Plus,
    Semicolon,
    Slash,
    Star,
    Bang,
    BangEqual,
    Equal,
    EqualEqual,
    Greater,
    GreaterEqual,
    Less,
    LessEqual,
    Identifier(Seq<char>),
    Str(Seq<char>),
    Number(i64),
    And,
    Class,
    Else,
    False,
    Fun,
    For,
    If,
    Nil,
    Or,
    Print,
    Return,
    Super,
    This,
    True,
    Var,
    While,
    Eof,
}

impl View for Token {
    type V = TokenM;

    open spec fn view(&self) -> TokenM {
        match self {
            Token::LeftParen => TokenM::LeftParen,
            Token::RightParen => TokenM::RightParen,
            Token::LeftBrace => TokenM::LeftBrace,
            Token::RightBrace => TokenM::RightBrace,
            Token::Comma => TokenM::Comma,
            Token::Dot => TokenM::Dot,
            Token::Minus => TokenM::Minus,
            Token::Plus => TokenM::Plus,
            Token::Semicolon => TokenM::Semicolon,
            Token::Slash => TokenM::Slash,
            Token::Star => TokenM::Star,
            Token::Bang => TokenM::Bang,
            Token::BangEqual => TokenM::BangEqual,
            Token::Equal => TokenM::Equal,
            Token::EqualEqual => TokenM::EqualEqual,
            Token::Greater => TokenM::Greater,
            Token::GreaterEqual => TokenM::GreaterEqual,
            Token::Less => TokenM::Less,
            Token::LessEqual => TokenM::LessEqual,
            Token::Identifier(s) => TokenM::Identifier(s@),
            Token::Str(s) => TokenM::Str(s@),
            Token::Number(n) => TokenM::Number(*n),
            Token::And => TokenM::And,
            Token::Class => TokenM::Class,
            Token::Else => TokenM::Else,
            Token::False => TokenM::False,
            Token::Fun => TokenM::Fun,
            Token::For => TokenM::For,
            Token::If => TokenM::If,
            Token::Nil => TokenM::Nil,
            Token::Or => TokenM::Or,
            Token::Print => TokenM::Print,
            Token::Return => TokenM::Return,
            Token::Super => TokenM::Super,
            Token::This => TokenM::This,
            Token::True => TokenM::True,
            Token::Var => TokenM::Var,
            Token::While => TokenM::While,
            Token::Eof => TokenM::Eof,
        }
    }
}

impl DeepView for Token {
    type V = TokenM;

    open spec fn deep_view(&self) -> TokenM {
        self.view()
    }
}

/// A numeric code identifying a token's variant, ignoring its payload.
/// Two tokens are of the same kind exactly when their codes are equal.
pub open spec fn kind(t: Token) -> int {
    match t {
        Token::LeftParen => 0,
        Token::RightParen => 1,
        Token::LeftBrace => 2,
        Token::RightBrace => 3,
        Token::Comma => 4,
        Token::Dot => 5,
        Token::Minus => 6,
        Token::Plus => 7,
        Token::Semicolon => 8,
        Token::Slash => 9,
        Token::Star => 10,
        Token::Bang => 11,
        Token::BangEqual => 12,
        Token::Equal => 13,
        Token::EqualEqual => 14,
        Token::Greater => 15,
        Token::GreaterEqual => 16,
        Token::Less => 17,
        Token::LessEqual => 18,
        Token::Identifier(_) => 19,
        Token::Str(_) => 20,
        Token::Number(_) => 21,
        Token::And => 22,
        Token::Class => 23,
        Token::Else => 24,
        Token::False => 25,
        Token::Fun => 26,
        Token::For => 27,
        Token::If => 28,
        Token::Nil => 29,
        Token::Or => 30,
        Token::Print => 31,
        Token::Return => 32,
        Token::Super => 33,
        Token::This => 34,
        Token::True => 35,
        Token::Var => 36,
        Token::While => 37,
        Token::Eof => 38,
    }
}

/// The text that `lexeme` renders for a token: the payload of identifier,
/// string and number tokens, and the fixed spelling of every other kind.
pub open spec fn lexeme_of(t: Token) -> Seq<char> {
    match t {
        Token::Identifier(s) => s@,
        Token::Str(s) => s@,
        Token::Number(n) => dec_i64(n),
        Token::LeftParen => "("@,
        Token::RightParen => ")"@,
        Token::LeftBrace => "{"@,
        Token::RightBrace => "}"@,
        Token::Comma => ","@,
        Token::Dot => "."@,
        Token::Minus => "-"@,
        Token::Plus => "+"@,
        Token::Semicolon => ";"@,
        Token::Slash => "/"@,
        Token::Star => "*"@,
        Token::Bang => "!"@,
        Token::BangEqual => "!="@,
        Token::Equal => "="@,
        Token::EqualEqual => "=="@,
        Token::Greater => ">"@,
        Token::GreaterEqual => ">="@,
        Token::Less => "<"@,
        Token::LessEqual => "<="@,
        Token::And => "and"@,
        Token::Class => "class"@,
        Token::Else => "else"@,
        Token::False => "false"@,
        Token::Fun => "fun"@,
        Token::For => "for"@,
        Token::If => "if"@,
        Token::Nil => "nil"@,
        Token::Or => "or"@,
        Token::Print => "print"@,
        Token::Return => "return"@,
        Token::Super => "super"@,
        Token::This => "this"@,
        Token::True => "true"@,
        Token::Var => "var"@,
        Token::While => "while"@,
        Token::Eof => "EOF"@,
    }
}

impl Token {
    /// The source line of the token. The lexer does not record source
    /// positions, so every token reports line 0.
    pub fn line(&self) -> (r: usize)
        ensures
            r == 0,
    {
        0
    }

    /// The text of the token, as written in source (numbers are rendered
    /// back from their value).
    pub fn lexeme(&self) -> (r: String)
        ensures
            r@ == lexeme_of(*self),
    {
        match self {
            Token::Identifier(s) => s.clone(),
            Token::Str(s) => s.clone(),
            Token::Number(n) => i64_to_decimal(*n),
            Token::LeftParen => "(".to_owned(),
            Token::RightParen => ")".to_owned(),
            Token::LeftBrace => "{".to_owned(),
            Token::RightBrace => "}".to_owned(),
            Token::Comma => ",".to_owned(),
            Token::Dot => ".".to_owned(),
            Token::Minus => "-".to_owned(),
            Token::Plus => "+".to_owned(),
            Token::Semicolon => ";".to_owned(),
            Token::Slash => "/".to_owned(),
            Token::Star => "*".to_owned(),
            Token::Bang => "!".to_owned(),
            Token::BangEqual => "!=".to_owned(),
            Token::Equal => "=".to_owned(),
            Token::EqualEqual => "==".to_owned(),
            Token::Greater => ">".to_owned(),
            Token::GreaterEqual => ">=".to_owned(),
            Token::Less => "<".to_owned(),
            Token::LessEqual => "<=".to_owned(),
            Token::And => "and".to_owned(),
            Token::Class => "class".to_owned(),
            Token::Else => "else".to_owned(),
            Token::False => "false".to_owned(),
            Token::Fun => "fun".to_owned(),
            Token::For => "for".to_owned(),
            Token::If => "if".to_owned(),
            Token::Nil => "nil".to_owned(),
            Token::Or => "or".to_owned(),
            Token::Print => "print".to_owned(),
            Token::Return => "return".to_owned(),
            Token::Super => "super".to_owned(),
            Token::This => "this".to_owned(),
            Token::True => "true".to_owned(),
            Token::Var => "var".to_owned(),
            Token::While => "while".to_owned(),
            Token::Eof => "EOF".to_owned(),
        }
    }

    /// A numeric code for the token's variant, equal for two tokens exactly
    /// when they are of the same kind.
    pub fn kind_code(&self) -> (k: u32)
        ensures
            k == kind(*self),
    {
        match self {
            Token::LeftParen => 0,
            Token::RightParen => 1,
            Token::LeftBrace => 2,
            Token::RightBrace => 3,
            Token::Comma => 4,
            Token::Dot => 5,
            Token::Minus => 6,
            Token::Plus => 7,
            Token::Semicolon => 8,
            Token::Slash => 9,
            Token::Star => 10,
            Token::Bang => 11,
            Token::BangEqual => 12,
            Token::Equal => 13,
            Token::EqualEqual => 14,
            Token::Greater => 15,
            Token::GreaterEqual => 16,
            Token::Less => 17,
            Token::LessEqual => 18,
            Token::Identifier(_) => 19,
            Token::Str(_) => 20,
            Token::Number(_) => 21,
            Token::And => 22,
            Token::Class => 23,
            Token::Else => 24,
            Token::False => 25,
            Token::Fun => 26,
            Token::For => 27,
            Token::If => 28,
            Token::Nil => 29,
            Token::Or => 30,
            Token::Print => 31,
            Token::Return => 32,
            Token::Super => 33,
            Token::This => 34,
            Token::True => 35,
            Token::Var => 36,
            Token::While => 37,
            Token::Eof => 38,
        }
    }
}

} // verus!
