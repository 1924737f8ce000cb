//! Decimal formatting of the language's integer values.
//!
//! `print` renders a number as its decimal digits, and `Token::lexeme` uses
//! the same rendering for number tokens.

use vstd::prelude::*;
use vstd::string::StringExecFns;

verus! {

/// The digit character for a single decimal digit value.
pub open spec fn digit_char(d: nat) -> char {
    if d == 0 {
        '0'
    } else if d == 1 {
        '1'
    } else if d == 2 {
        '2'
    } else if d == 3 {
        '3'
    } else if d == 4 {
        '4'
    } else if d == 5 {
        '5'
    } else if d == 6 {
        '6'
    } else if d == 7 {
        '7'
    } else if d == 8 {
        '8'
    } else {
        '9'
    }
}

/// Decimal digits of a natural number, most significant digit first,
/// without leading zeros (except for the number zero itself).
pub open spec fn dec_nat(m: nat) -> Seq<char>
    decreases m,
{
    if m < 10 {
        seq![digit_char(m)]
    } else {
        dec_nat(m / 10).push(digit_char(m % 10))
    }
}

/// Decimal rendering of a signed 64-bit integer: a leading '-' for negative
/// values, then the digits of the magnitude.
pub open spec fn dec_i64(n: i64) -> Seq<char> {
    if n < 0 {
        seq!['-'] + dec_nat((-(n as int)) as nat)
    } else {
        dec_nat(n as nat)
    }
}

/// Relies on String::push: appends one character at the end of the string.
#[verifier::external_body]
pub(crate) fn push_char(s: &mut String, c: char)
    ensures
        final(s)@ == old(s)@.push(c),
{
    s.push(c);
}

/// The digit character for a digit value, as executable code.
fn digit_char_exec(d: u64) -> (c: char)
    requires
        d < 10,
    ensures
        c == digit_char(d as nat),
{
    if d == 0 {
        '0'
    } else if d == 1 {
        '1'
    } else if d == 2 {
        '2'
    } else if d == 3 {
        '3'
    } else if d == 4 {
        '4'
    } else if d == 5 {
        '5'
    } else if d == 6 {
        '6'
    } else if d == 7 {
        '7'
    } else if d == 8 {
        '8'
    } else {
        '9'
    }
}

/// Renders an unsigned value as its decimal digits.
pub fn u64_to_decimal(m: u64) -> (r: String)
    ensures
        r@ == dec_nat(m as nat),
    decreases m,
{
    if m < 10 {
        let mut s = String::new();
        push_char(&mut s, digit_char_exec(m));
        proof {
            assert(s@ =~= seq![digit_char(m as nat)]);
        }
        s
    } else {
        let mut s = u64_to_decimal(m / 10);
        push_char(&mut s, digit_char_exec(m % 10));
        s
    }
}

/// Renders a signed 64-bit value as its decimal digits with an optional sign.
pub fn i64_to_decimal(n: i64) -> (r: String)
    ensures
        r@ == dec_i64(n),
{
    if n >= 0 {
        u64_to_decimal(n as u64)
    } else {
        let mag: u64 = ((-(n + 1)) as u64) + 1;
        proof {
            assert(mag as int == -(n as int));
        }
        let mut s = String::new();
        push_char(&mut s, '-');
        let d = u64_to_decimal(mag);
        s.append(d.as_str());
        proof {
            assert(s@ =~= seq!['-'] + dec_nat((-(n as int)) as nat));
        }
        s
    }
}

} // verus!
