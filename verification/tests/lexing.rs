//! Lexer tests: token streams, comment and whitespace handling, lexical
//! errors, and the token accessors.

use lox_interpreter::lexer::{tokenize, LexError, Lexer};
use lox_interpreter::Token;

#[test]
fn tokenizes_a_declaration() {
    let ts = tokenize("var x = 1;").unwrap();
    assert_eq!(
        ts,
        vec![
            Token::Var,
            Token::Identifier("x".to_string()),
            Token::Equal,
            Token::Number(1),
            Token::Semicolon,
        ]
    );
}

#[test]
fn skips_comments_and_whitespace() {
    let ts = tokenize("1 // a comment with var and ===\n\t 2").unwrap();
    assert_eq!(ts, vec![Token::Number(1), Token::Number(2)]);
}

#[test]
fn comment_at_end_of_input() {
    let ts = tokenize("7 // trailing").unwrap();
    assert_eq!(ts, vec![Token::Number(7)]);
}

#[test]
fn two_character_operators() {
    let ts = tokenize("== != <= >= = < > !").unwrap();
    assert_eq!(
        ts,
        vec![
            Token::EqualEqual,
            Token::BangEqual,
            Token::LessEqual,
            Token::GreaterEqual,
            Token::Equal,
            Token::Less,
            Token::Greater,
            Token::Bang,
        ]
    );
}

#[test]
fn single_character_tokens() {
    let ts = tokenize("(){},.-+;/*").unwrap();
    assert_eq!(
        ts,
        vec![
            Token::LeftParen,
            Token::RightParen,
            Token::LeftBrace,
            Token::RightBrace,
            Token::Comma,
            Token::Dot,
            Token::Minus,
            Token::Plus,
            Token::Semicolon,
            Token::Slash,
            Token::Star,
        ]
    );
}

#[test]
fn string_literals_keep_their_text() {
    let ts = tokenize("\"hello world\"").unwrap();
    assert_eq!(ts, vec![Token::Str("hello world".to_string())]);
}

#[test]
fn unterminated_string_is_an_error() {
    assert_eq!(tokenize("\"abc"), Err(LexError::UnterminatedString));
}

#[test]
fn unexpected_character_is_an_error() {
    assert_eq!(tokenize("#"), Err(LexError::UnexpectedChar('#')));
}

#[test]
fn number_too_large_is_an_error() {
    assert_eq!(
        tokenize("99999999999999999999"),
        Err(LexError::NumberTooLarge)
    );
}

#[test]
fn largest_number_still_fits() {
    let ts = tokenize("9223372036854775807").unwrap();
    assert_eq!(ts, vec![Token::Number(i64::MAX)]);
}

#[test]
fn keywords_differ_from_identifiers() {
    let ts = tokenize("class classy and android").unwrap();
    assert_eq!(
        ts,
        vec![
            Token::Class,
            Token::Identifier("classy".to_string()),
            Token::And,
            Token::Identifier("android".to_string()),
        ]
    );
}

#[test]
fn all_keywords() {
    let ts = tokenize(
        "and class else false fun for if nil or print return super this true var while",
    )
    .unwrap();
    assert_eq!(
        ts,
        vec![
            Token::And,
            Token::Class,
            Token::Else,
            Token::False,
            Token::Fun,
            Token::For,
            Token::If,
            Token::Nil,
            Token::Or,
            Token::Print,
            Token::Return,
            Token::Super,
            Token::This,
            Token::True,
            Token::Var,
            Token::While,
        ]
    );
}

#[test]
fn next_token_reports_eof_forever() {
    let mut lx = Lexer::new("  ");
    assert_eq!(lx.next_token(), Ok(Token::Eof));
    assert_eq!(lx.next_token(), Ok(Token::Eof));
}

#[test]
fn skip_whitespace_stops_at_content() {
    let mut lx = Lexer::new(" \t\r\n a");
    lx.skip_whitespace();
    assert_eq!(lx.pos, 5);
}

#[test]
fn match_char_consumes_only_on_a_match() {
    let mut lx = Lexer::new("ab");
    assert!(lx.match_char('a'));
    assert_eq!(lx.pos, 1);
    assert!(!lx.match_char('x'));
    assert_eq!(lx.pos, 1);
    assert!(lx.match_char('b'));
    assert!(!lx.match_char('b'));
}

#[test]
fn lexemes_render_tokens_back() {
    assert_eq!(Token::LeftParen.lexeme(), "(");
    assert_eq!(Token::BangEqual.lexeme(), "!=");
    assert_eq!(Token::While.lexeme(), "while");
    assert_eq!(Token::Number(42).lexeme(), "42");
    assert_eq!(Token::Number(-7).lexeme(), "-7");
    assert_eq!(Token::Identifier("abc".to_string()).lexeme(), "abc");
    assert_eq!(Token::Str("s".to_string()).lexeme(), "s");
    assert_eq!(Token::Eof.lexeme(), "EOF");
}

#[test]
fn tokens_report_line_zero() {
    assert_eq!(Token::Var.line(), 0);
    assert_eq!(Token::Number(1).line(), 0);
}

#[test]
fn unicode_whitespace_is_skipped() {
    let ts = tokenize("1\u{a0}\u{2003}2\u{000c}3").unwrap();
    assert_eq!(
        ts,
        vec![Token::Number(1), Token::Number(2), Token::Number(3)]
    );
}
