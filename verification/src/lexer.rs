//! The lexer: turns source text into a sequence of tokens.
//!
//! The functions `lex_at` and `lex_all` are the specification: they say
//! exactly which token starts at a position of the input and what the whole
//! token sequence of a source text is. `Lexer::next_token` and `tokenize`
//! are proved to compute them.
//!
//! Numbers are unsigned runs of decimal digits (a value too large for the
//! number type is a lexical error); strings run to the next `"` with no
//! escapes; `//` comments run to the end of the line. A malformed input —
//! an unterminated string or a character outside the language — is a
//! lexical error, fatal for the whole input.

use vstd::prelude::*;
use vstd::string::StrSliceExecFns;
use crate::decimal::push_char;
use crate::token::{Token, TokenM};

verus! {

/// A lexical error. These are category errors of the input text, fatal for
/// the whole input (no token stream is produced).
#[derive(Debug, Clone, PartialEq)]
pub enum LexError {
    /// A character that no token of the language can start with.
    UnexpectedChar(char),
    /// A string literal with no closing quote before the end of input.
    UnterminatedString,
    /// A number literal whose value does not fit the number type.
    NumberTooLarge,
}

/// Whitespace: the characters with the Unicode White_Space property
/// (ASCII spacing characters, next line, and the Unicode space and line
/// separators).
pub open spec fn is_space(c: char) -> bool {
    ||| c == ' ' || c == '\t' || c == '\n' || c == '\u{b}' || c == '\u{c}' || c == '\r'
    ||| c == '\u{85}' || c == '\u{a0}' || c == '\u{1680}'
    ||| ('\u{2000}' <= c && c <= '\u{200a}')
    ||| c == '\u{2028}' || c == '\u{2029}' || c == '\u{202f}' || c == '\u{205f}' || c == '\u{3000}'
}

/// A decimal digit.
pub open spec fn is_digit(c: char) -> bool {
    '0' <= c && c <= '9'
}

/// A character that can start an identifier.
pub open spec fn is_alpha(c: char) -> bool {
    ('a' <= c && c <= 'z') || ('A' <= c && c <= 'Z') || c == '_'
}

/// A character that can continue an identifier.
pub open spec fn is_alnum(c: char) -> bool {
    is_digit(c) || is_alpha(c)
}

/// The value of a decimal digit character.
pub open spec fn digit_of(c: char) -> nat {
    if c == '0' {
        0
    } else if c == '1' {
        1
    } else if c == '2' {
        2
    } else if c == '3' {
        3
    } else if c == '4' {
        4
    } else if c == '5' {
        5
    } else if c == '6' {
        6
    } else if c == '7' {
        7
    } else if c == '8' {
        8
    } else {
        9
    }
}

/// The first position at or after `i` holding a non-whitespace character
/// (or the end of input).
pub open spec fn skip_spaces(s: Seq<char>, i: nat) -> nat
    decreases s.len() - i when i <= s.len()
{
    if i == s.len() {
        i
    } else if is_space(s[i as int]) {
        skip_spaces(s, i + 1)
    } else {
        i
    }
}

/// Bounds of `skip_spaces`: the result lies between `i` and the end, and
/// points at a non-whitespace character unless it is the end.
pub proof fn lemma_skip_spaces(s: Seq<char>, i: nat)
    requires
        i <= s.len(),
    ensures
        i <= skip_spaces(s, i) <= s.len(),
        skip_spaces(s, i) < s.len() ==> !is_space(s[skip_spaces(s, i) as int]),
        skip_spaces(s, skip_spaces(s, i)) == skip_spaces(s, i),
    decreases s.len() - i,
{
    if i < s.len() && is_space(s[i as int]) {
        lemma_skip_spaces(s, i + 1);
    }
}

/// The first position at or after `i` holding a newline (or the end).
pub open spec fn line_end(s: Seq<char>, i: nat) -> nat
    decreases s.len() - i when i <= s.len()
{
    if i == s.len() {
        i
    } else if s[i as int] == '\n' {
        i
    } else {
        line_end(s, i + 1)
    }
}

/// Bounds of `line_end`.
pub proof fn lemma_line_end(s: Seq<char>, i: nat)
    requires
        i <= s.len(),
    ensures
        i <= line_end(s, i) <= s.len(),
    decreases s.len() - i,
{
    if i < s.len() && s[i as int] != '\n' {
        lemma_line_end(s, i + 1);
    }
}

/// The first position at or after `i` holding a closing quote (or the end).
pub open spec fn string_end(s: Seq<char>, i: nat) -> nat
    decreases s.len() - i when i <= s.len()
{
    if i == s.len() {
        i
    } else if s[i as int] == '"' {
        i
    } else {
        string_end(s, i + 1)
    }
}

/// Bounds of `string_end`.
pub proof fn lemma_string_end(s: Seq<char>, i: nat)
    requires
        i <= s.len(),
    ensures
        i <= string_end(s, i) <= s.len(),
    decreases s.len() - i,
{
    if i < s.len() && s[i as int] != '"' {
        lemma_string_end(s, i + 1);
    }
}

/// The first position at or after `i` holding a non-digit (or the end).
pub open spec fn digits_end(s: Seq<char>, i: nat) -> nat
    decreases s.len() - i when i <= s.len()
{
    if i == s.len() {
        i
    } else if is_digit(s[i as int]) {
        digits_end(s, i + 1)
    } else {
        i
    }
}

/// Bounds of `digits_end`.
pub proof fn lemma_digits_end(s: Seq<char>, i: nat)
    requires
        i <= s.len(),
    ensures
        i <= digits_end(s, i) <= s.len(),
    decreases s.len() - i,
{
    if i < s.len() && is_digit(s[i as int]) {
        lemma_digits_end(s, i + 1);
    }
}

/// The first position at or after `i` holding a character that cannot
/// continue an identifier (or the end).
pub open spec fn ident_end(s: Seq<char>, i: nat) -> nat
    decreases s.len() - i when i <= s.len()
{
    if i == s.len() {
        i
    } else if is_alnum(s[i as int]) {
        ident_end(s, i + 1)
    } else {
        i
    }
}

/// Bounds of `ident_end`.
pub proof fn lemma_ident_end(s: Seq<char>, i: nat)
    requires
        i <= s.len(),
    ensures
        i <= ident_end(s, i) <= s.len(),
    decreases s.len() - i,
{
    if i < s.len() && is_alnum(s[i as int]) {
        lemma_ident_end(s, i + 1);
    }
}

/// The value of the digit run `s[i..j]`, most significant digit first.
pub open spec fn digits_val(s: Seq<char>, i: nat, j: nat) -> nat
    decreases j - i when i <= j
{
    if j <= i {
        0
    } else {
        digits_val(s, i, (j - 1) as nat) * 10 + digit_of(s[j - 1])
    }
}

/// A longer digit run never has a smaller value.
pub proof fn lemma_digits_val_mono(s: Seq<char>, i: nat, j: nat, k: nat)
    requires
        i <= j <= k,
    ensures
        digits_val(s, i, j) <= digits_val(s, i, k),
    decreases k - j,
{
    if j < k {
        lemma_digits_val_mono(s, i, j, (k - 1) as nat);
    }
}

/// The keyword token a word spells, or an identifier token if it spells
/// none.
pub open spec fn word_token(w: Seq<char>) -> TokenM {
    if w == "and"@ {
        TokenM::And
    } else if w == "class"@ {
        TokenM::Class
    } else if w == "else"@ {
        TokenM::Else
    } else if w == "false"@ {
        TokenM::False
    } else if w == "fun"@ {
        TokenM::Fun
    } else if w == "for"@ {
        TokenM::For
    } else if w == "if"@ {
        TokenM::If
    } else if w == "nil"@ {
        TokenM::Nil
    } else if w == "or"@ {
        TokenM::Or
    } else if w == "print"@ {
        TokenM::Print
    } else if w == "return"@ {
        TokenM::Return
    } else if w == "super"@ {
        TokenM::Super
    } else if w == "this"@ {
        TokenM::This
    } else if w == "true"@ {
        TokenM::True
    } else if w == "var"@ {
        TokenM::Var
    } else if w == "while"@ {
        TokenM::While
    } else {
        TokenM::Identifier(w)
    }
}

/// The token that starts at or after position `i`, with the position just
/// past it: whitespace is skipped, a `//` comment runs to the end of its
/// line, and the end of input yields `Eof`.
pub open spec fn lex_at(s: Seq<char>, i: nat) -> Result<(TokenM, nat), LexError>
    decreases s.len() - i when i <= s.len() via lex_at_dec
{
    let j = skip_spaces(s, i);
    if j == s.len() {
        Ok((TokenM::Eof, j))
    } else {
        let c = s[j as int];
        if c == '(' {
            Ok((TokenM::LeftParen, j + 1))
        } else if c == ')' {
            Ok((TokenM::RightParen, j + 1))
        } else if c == '{' {
            Ok((TokenM::LeftBrace, j + 1))
        } else if c == '}' {
            Ok((TokenM::RightBrace, j + 1))
        } else if c == ',' {
            Ok((TokenM::Comma, j + 1))
        } else if c == '.' {
            Ok((TokenM::Dot, j + 1))
        } else if c == '-' {
            Ok((TokenM::Minus, j + 1))
        } else if c == '+' {
            Ok((TokenM::Plus, j + 1))
        } else if c == ';' {
            Ok((TokenM::Semicolon, j + 1))
        } else if c == '*' {
            Ok((TokenM::Star, j + 1))
        } else if c == '!' {
            if j + 1 < s.len() && s[(j + 1) as int] == '=' {
                Ok((TokenM::BangEqual, j + 2))
            } else {
                Ok((TokenM::Bang, j + 1))
            }
        } else if c == '=' {
            if j + 1 < s.len() && s[(j + 1) as int] == '=' {
                Ok((TokenM::EqualEqual, j + 2))
            } else {
                Ok((TokenM::Equal, j + 1))
            }
        } else if c == '<' {
            if j + 1 < s.len() && s[(j + 1) as int] == '=' {
                Ok((TokenM::LessEqual, j + 2))
            } else {
                Ok((TokenM::Less, j + 1))
            }
        } else if c == '>' {
            if j + 1 < s.len() && s[(j + 1) as int] == '=' {
                Ok((TokenM::GreaterEqual, j + 2))
            } else {
                Ok((TokenM::Greater, j + 1))
            }
        } else if c == '/' {
            if j + 1 < s.len() && s[(j + 1) as int] == '/' {
                lex_at(s, line_end(s, j + 2))
            } else {
                Ok((TokenM::Slash, j + 1))
            }
        } else if c == '"' {
            let e = string_end(s, j + 1);
            if e == s.len() {
                Err(LexError::UnterminatedString)
            } else {
                Ok((TokenM::Str(s.subrange((j + 1) as int, e as int)), e + 1))
            }
        } else if is_digit(c) {
            let e = digits_end(s, j);
            let v = digits_val(s, j, e);
            if v > i64::MAX {
                Err(LexError::NumberTooLarge)
            } else {
                Ok((TokenM::Number(v as i64), e))
            }
        } else if is_alpha(c) {
            let e = ident_end(s, j);
            Ok((word_token(s.subrange(j as int, e as int)), e))
        } else {
            Err(LexError::UnexpectedChar(c))
        }
    }
}

#[via_fn]
proof fn lex_at_dec(s: Seq<char>, i: nat) {
    lemma_skip_spaces(s, i);
    let j = skip_spaces(s, i);
    if j < s.len() && s[j as int] == '/' && j + 1 < s.len() && s[(j + 1) as int] == '/' {
        lemma_line_end(s, j + 2);
    }
}

/// The position a lexed token ends at lies within the input, and every
/// token but `Eof` consumes at least one character.
pub proof fn lemma_lex_at_next(s: Seq<char>, i: nat)
    requires
        i <= s.len(),
    ensures
        lex_at(s, i) matches Ok((t, n)) ==> i <= n <= s.len() && (t != TokenM::Eof ==> n > i),
    decreases s.len() - i,
{
    lemma_skip_spaces(s, i);
    let j = skip_spaces(s, i);
    if j < s.len() {
        let c = s[j as int];
        if c == '/' && j + 1 < s.len() && s[(j + 1) as int] == '/' {
            lemma_line_end(s, j + 2);
            lemma_lex_at_next(s, line_end(s, j + 2));
        } else if c == '"' {
            lemma_string_end(s, j + 1);
        } else if is_digit(c) {
            lemma_digits_end(s, j + 1);
            assert(digits_end(s, j) == digits_end(s, j + 1));
            assert(digits_end(s, j) > j);
        } else if is_alpha(c) {
            lemma_ident_end(s, j + 1);
            assert(ident_end(s, j) == ident_end(s, j + 1));
            assert(ident_end(s, j) > j);
        }
    }
}

/// The token sequence of the whole input from position `i` on, without the
/// terminating `Eof`, or the first lexical error.
pub open spec fn lex_all(s: Seq<char>, i: nat) -> Result<Seq<TokenM>, LexError>
    decreases s.len() - i when i <= s.len() via lex_all_dec
{
    match lex_at(s, i) {
        Err(e) => Err(e),
        Ok((t, n)) => if t == TokenM::Eof {
            Ok(Seq::empty())
        } else {
            match lex_all(s, n) {
                Err(e) => Err(e),
                Ok(rest) => Ok(seq![t] + rest),
            }
        },
    }
}

#[via_fn]
proof fn lex_all_dec(s: Seq<char>, i: nat) {
    lemma_lex_at_next(s, i);
}

/// The lexer: the source text as characters, and the current position.
#[derive(Debug)]
pub struct Lexer {
    pub chars: Vec<char>,
    pub pos: usize,
}

/// Whether a character is whitespace.
fn is_space_exec(c: char) -> (r: bool)
    ensures
        r == is_space(c),
{
    (c == ' ' || c == '\t' || c == '\n' || c == '\u{b}' || c == '\u{c}' || c == '\r')
        || (c == '\u{85}' || c == '\u{a0}' || c == '\u{1680}')
        || ('\u{2000}' <= c && c <= '\u{200a}')
        || (c == '\u{2028}' || c == '\u{2029}' || c == '\u{202f}' || c == '\u{205f}' || c
        == '\u{3000}')
}

/// Whether a character is a decimal digit.
fn is_digit_exec(c: char) -> (r: bool)
    ensures
        r == is_digit(c),
{
    '0' <= c && c <= '9'
}

/// Whether a character can start an identifier.
fn is_alpha_exec(c: char) -> (r: bool)
    ensures
        r == is_alpha(c),
{
    ('a' <= c && c <= 'z') || ('A' <= c && c <= 'Z') || c == '_'
}

/// Whether a character can continue an identifier.
fn is_alnum_exec(c: char) -> (r: bool)
    ensures
        r == is_alnum(c),
{
    is_digit_exec(c) || is_alpha_exec(c)
}

/// The largest value a number literal may have.
const MAX_NUMBER: u64 = 0x7fff_ffff_ffff_ffff;

/// The value of a digit character.
fn digit_of_exec(c: char) -> (r: u64)
    ensures
        r == digit_of(c),
        r <= 9,
{
    if c == '0' {
        0
    } else if c == '1' {
        1
    } else if c == '2' {
        2
    } else if c == '3' {
        3
    } else if c == '4' {
        4
    } else if c == '5' {
        5
    } else if c == '6' {
        6
    } else if c == '7' {
        7
    } else if c == '8' {
        8
    } else {
        9
    }
}

impl Lexer {
    /// A lexer over `source`, positioned at its start.
    pub fn new(source: &str) -> (l: Lexer)
        ensures
            l.chars@ == source@,
            l.pos == 0,
    {
        let n = source.unicode_len();
        let mut chars: Vec<char> = Vec::new();
        let mut i: usize = 0;
        while i < n
            invariant
                i <= n,
                n == source@.len(),
                chars@ == source@.take(i as int),
            decreases n - i,
        {
            let c = source.get_char(i);
            chars.push(c);
            proof {
                assert(chars@ =~= source@.take(i as int + 1));
            }
            i = i + 1;
        }
        proof {
            assert(chars@ =~= source@);
        }
        Lexer { chars, pos: 0 }
    }

    /// Advances the position past any whitespace.
    #[verifier::loop_isolation(false)]
    pub fn skip_whitespace(&mut self)
        requires
            old(self).pos <= old(self).chars@.len(),
        ensures
            final(self).chars == old(self).chars,
            final(self).pos == skip_spaces(old(self).chars@, old(self).pos as nat),
            final(self).pos <= final(self).chars@.len(),
            old(self).pos <= final(self).pos,
    {
        proof {
            lemma_skip_spaces(self.chars@, self.pos as nat);
        }
        while self.pos < self.chars.len() && is_space_exec(self.chars[self.pos])
            invariant
                self.pos <= self.chars@.len(),
                self.chars == old(self).chars,
                skip_spaces(self.chars@, old(self).pos as nat) == skip_spaces(
                    self.chars@,
                    self.pos as nat,
                ),
            decreases self.chars@.len() - self.pos,
        {
            self.pos = self.pos + 1;
        }
    }

    /// If the character at the position is exactly `expected`, consumes it
    /// and reports success; otherwise leaves the position unchanged.
    pub fn match_char(&mut self, expected: char) -> (r: bool)
        requires
            old(self).pos <= old(self).chars@.len(),
        ensures
            final(self).chars == old(self).chars,
            ({
                let s = old(self).chars@;
                let i = old(self).pos;
                if i < s.len() && s[i as int] == expected {
                    r && final(self).pos == i + 1
                } else {
                    !r && final(self).pos == i
                }
            }),
    {
        if self.pos < self.chars.len() {
            let c = self.chars[self.pos];
            if c == expected {
                self.pos = self.pos + 1;
                return true;
            }
        }
        false
    }

    /// Scans the next token, advancing the position past it. The result and
    /// the new position are exactly what `lex_at` says for the old
    /// position.
    #[verifier::loop_isolation(false)]
    #[verifier::rlimit(60)]
    pub fn next_token(&mut self) -> (r: Result<Token, LexError>)
        requires
            old(self).pos <= old(self).chars@.len(),
        ensures
            final(self).chars@ == old(self).chars@,
            final(self).pos <= final(self).chars@.len(),
            ({
                let m = lex_at(old(self).chars@, old(self).pos as nat);
                match (r, m) {
                    (Ok(t), Ok((tm, n))) => t@ == tm && final(self).pos == n,
                    (Err(e), Err(em)) => e == em,
                    _ => false,
                }
            }),
    {
        let ghost s = self.chars@;
        let ghost pos0 = self.pos as nat;
        loop
            invariant
                self.chars@ == s,
                self.pos <= s.len(),
                lex_at(s, pos0) == lex_at(s, self.pos as nat),
            decreases s.len() - self.pos,
        {
            self.skip_whitespace();
            proof {
                lemma_skip_spaces(s, self.pos as nat);
            }
            if self.pos == self.chars.len() {
                return Ok(Token::Eof);
            }
            let ghost j = self.pos as nat;
            let c = self.chars[self.pos];
            if c == '(' {
                self.pos = self.pos + 1;
                return Ok(Token::LeftParen);
            } else if c == ')' {
                self.pos = self.pos + 1;
                return Ok(Token::RightParen);
            } else if c == '{' {
                self.pos = self.pos + 1;
                return Ok(Token::LeftBrace);
            } else if c == '}' {
                self.pos = self.pos + 1;
                return Ok(Token::RightBrace);
            } else if c == ',' {
                self.pos = self.pos + 1;
                return Ok(Token::Comma);
            } else if c == '.' {
                self.pos = self.pos + 1;
                return Ok(Token::Dot);
            } else if c == '-' {
                self.pos = self.pos + 1;
                return Ok(Token::Minus);
            } else if c == '+' {
                self.pos = self.pos + 1;
                return Ok(Token::Plus);
            } else if c == ';' {
                self.pos = self.pos + 1;
                return Ok(Token::Semicolon);
            } else if c == '*' {
                self.pos = self.pos + 1;
                return Ok(Token::Star);
            } else if c == '!' {
                self.pos = self.pos + 1;
                if self.match_char('=') {
                    return Ok(Token::BangEqual);
                } else {
                    return Ok(Token::Bang);
                }
            } else if c == '=' {
                self.pos = self.pos + 1;
                if self.match_char('=') {
                    return Ok(Token::EqualEqual);
                } else {
                    return Ok(Token::Equal);
                }
            } else if c == '<' {
                self.pos = self.pos + 1;
                if self.match_char('=') {
                    return Ok(Token::LessEqual);
                } else {
                    return Ok(Token::Less);
                }
            } else if c == '>' {
                self.pos = self.pos + 1;
                if self.match_char('=') {
                    return Ok(Token::GreaterEqual);
                } else {
                    return Ok(Token::Greater);
                }
            } else if c == '/' {
                self.pos = self.pos + 1;
                if self.match_char('/') {
                    // a comment: skip to the end of the line and rescan
                    proof {
                        lemma_line_end(s, self.pos as nat);
                    }
                    while self.pos < self.chars.len() && self.chars[self.pos] != '\n'
                        invariant
                            self.chars@ == s,
                            self.pos <= s.len(),
                            line_end(s, j + 2) == line_end(s, self.pos as nat),
                        decreases s.len() - self.pos,
                    {
                        self.pos = self.pos + 1;
                    }
                    proof {
                        lemma_line_end(s, j + 2);
                        assert(line_end(s, self.pos as nat) == self.pos as nat);
                        assert(self.pos as nat == line_end(s, j + 2));
                    }
                } else {
                    return Ok(Token::Slash);
                }
            } else if c == '"' {
                self.pos = self.pos + 1;
                let mut out = String::new();
                proof {
                    lemma_string_end(s, self.pos as nat);
                    assert(out@ =~= s.subrange((j + 1) as int, (j + 1) as int));
                }
                while self.pos < self.chars.len() && self.chars[self.pos] != '"'
                    invariant
                        self.chars@ == s,
                        j + 1 <= self.pos <= s.len(),
                        string_end(s, j + 1) == string_end(s, self.pos as nat),
                        out@ == s.subrange((j + 1) as int, self.pos as int),
                    decreases s.len() - self.pos,
                {
                    push_char(&mut out, self.chars[self.pos]);
                    proof {
                        assert(out@ =~= s.subrange((j + 1) as int, self.pos + 1));
                    }
                    self.pos = self.pos + 1;
                }
                if self.pos == self.chars.len() {
                    return Err(LexError::UnterminatedString);
                }
                self.pos = self.pos + 1;
                return Ok(Token::Str(out));
            } else if is_digit_exec(c) {
                let mut val: u64 = 0;
                proof {
                    lemma_digits_end(s, j);
                }
                while self.pos < self.chars.len() && is_digit_exec(self.chars[self.pos])
                    invariant
                        self.chars@ == s,
                        j <= self.pos <= s.len(),
                        digits_end(s, j) == digits_end(s, self.pos as nat),
                        val == digits_val(s, j, self.pos as nat),
                        val <= MAX_NUMBER,
                    decreases s.len() - self.pos,
                {
                    let d = digit_of_exec(self.chars[self.pos]);
                    if val > (MAX_NUMBER - d) / 10 {
                        proof {
                            assert(digits_val(s, j, self.pos as nat + 1) > MAX_NUMBER);
                            lemma_digits_end(s, self.pos as nat + 1);
                            lemma_digits_val_mono(
                                s,
                                j,
                                self.pos as nat + 1,
                                digits_end(s, self.pos as nat + 1),
                            );
                        }
                        return Err(LexError::NumberTooLarge);
                    }
                    val = val * 10 + d;
                    self.pos = self.pos + 1;
                }
                return Ok(Token::Number(val as i64));
            } else if is_alpha_exec(c) {
                let mut out = String::new();
                proof {
                    lemma_ident_end(s, j);
                    assert(out@ =~= s.subrange(j as int, j as int));
                }
                while self.pos < self.chars.len() && is_alnum_exec(self.chars[self.pos])
                    invariant
                        self.chars@ == s,
                        j <= self.pos <= s.len(),
                        ident_end(s, j) == ident_end(s, self.pos as nat),
                        out@ == s.subrange(j as int, self.pos as int),
                    decreases s.len() - self.pos,
                {
                    push_char(&mut out, self.chars[self.pos]);
                    proof {
                        assert(out@ =~= s.subrange(j as int, self.pos + 1));
                    }
                    self.pos = self.pos + 1;
                }
                return Ok(keyword_or_identifier(out));
            } else {
                return Err(LexError::UnexpectedChar(c));
            }
        }
    }
}

/// Maps a scanned word to its keyword token, or to an identifier token.
fn keyword_or_identifier(w: String) -> (r: Token)
    ensures
        r@ == word_token(w@),
{
    if w == "and".to_owned() {
        Token::And
    } else if w == "class".to_owned() {
        Token::Class
    } else if w == "else".to_owned() {
        Token::Else
    } else if w == "false".to_owned() {
        Token::False
    } else if w == "fun".to_owned() {
        Token::Fun
    } else if w == "for".to_owned() {
        Token::For
    } else if w == "if".to_owned() {
        Token::If
    } else if w == "nil".to_owned() {
        Token::Nil
    } else if w == "or".to_owned() {
        Token::Or
    } else if w == "print".to_owned() {
        Token::Print
    } else if w == "return".to_owned() {
        Token::Return
    } else if w == "super".to_owned() {
        Token::Super
    } else if w == "this".to_owned() {
        Token::This
    } else if w == "true".to_owned() {
        Token::True
    } else if w == "var".to_owned() {
        Token::Var
    } else if w == "while".to_owned() {
        Token::While
    } else {
        Token::Identifier(w)
    }
}

/// Scans a whole source text into its token sequence (without the
/// terminating `Eof`), or reports its first lexical error — exactly as
/// `lex_all` says.
#[verifier::loop_isolation(false)]
pub fn tokenize(source: &str) -> (r: Result<Vec<Token>, LexError>)
    ensures
        ({
            let m = lex_all(source@, 0);
            match (r, m) {
                (Ok(ts), Ok(ms)) => ts.deep_view() == ms,
                (Err(e), Err(em)) => e == em,
                _ => false,
            }
        }),
{
    let mut lx = Lexer::new(source);
    let ghost s = source@;
    let mut out: Vec<Token> = Vec::new();
    proof {
        assert(out.deep_view() =~= Seq::<TokenM>::empty());
    }
    loop
        invariant
            lx.chars@ == s,
            lx.pos <= s.len(),
            ({
                let whole = lex_all(s, 0);
                let rest = lex_all(s, lx.pos as nat);
                match (whole, rest) {
                    (Ok(ws), Ok(rs)) => ws == out.deep_view() + rs,
                    (Err(e), Err(em)) => e == em,
                    _ => false,
                }
            }),
        decreases s.len() - lx.pos,
    {
        proof {
            lemma_lex_at_next(s, lx.pos as nat);
        }
        let ghost pos_before = lx.pos as nat;
        match lx.next_token() {
            Err(e) => {
                return Err(e);
            },
            Ok(t) => {
                match t {
                    Token::Eof => {
                        proof {
                            assert(out.deep_view() + Seq::<TokenM>::empty() =~= out.deep_view());
                        }
                        return Ok(out);
                    },
                    _ => {
                        let ghost out0 = out.deep_view();
                        let ghost tm = t@;
                        out.push(t);
                        proof {
                            assert(out.deep_view() =~= out0.push(tm));
                            let rest0 = lex_all(s, pos_before);
                            let rest1 = lex_all(s, lx.pos as nat);
                            assert(rest0 matches Ok(rs0) ==> rest1 matches Ok(rs1) && rs0 == seq![
                                tm,
                            ] + rs1) by {
                                assert(lex_all(s, pos_before) == (match lex_all(s, lx.pos as nat) {
                                    Err(e) => Err::<Seq<TokenM>, LexError>(e),
                                    Ok(rest) => Ok(seq![tm] + rest),
                                }));
                            }
                            match rest1 {
                                Ok(rs1) => {
                                    assert(out0 + (seq![tm] + rs1) =~= out0.push(tm) + rs1);
                                },
                                Err(_) => {},
                            }
                        }
                    },
                }
            },
        }
    }
}

} // verus!
