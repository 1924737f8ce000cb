//! Tests for decimal rendering and value formatting.

use lox_interpreter::decimal::{i64_to_decimal, u64_to_decimal};
use lox_interpreter::interp::{format_value, traverse_literal};
use lox_interpreter::{Literal, Value};

#[test]
fn unsigned_decimal_rendering() {
    assert_eq!(u64_to_decimal(0), "0");
    assert_eq!(u64_to_decimal(7), "7");
    assert_eq!(u64_to_decimal(10), "10");
    assert_eq!(u64_to_decimal(120406), "120406");
    assert_eq!(u64_to_decimal(u64::MAX), "18446744073709551615");
}

#[test]
fn signed_decimal_rendering() {
    assert_eq!(i64_to_decimal(0), "0");
    assert_eq!(i64_to_decimal(42), "42");
    assert_eq!(i64_to_decimal(-42), "-42");
    assert_eq!(i64_to_decimal(i64::MAX), "9223372036854775807");
    assert_eq!(i64_to_decimal(i64::MIN), "-9223372036854775808");
}

#[test]
fn values_format_as_print_shows_them() {
    assert_eq!(format_value(&Value::Number(-3)), "-3");
    assert_eq!(format_value(&Value::Str("raw".to_string())), "raw");
    assert_eq!(format_value(&Value::Bool(true)), "true");
    assert_eq!(format_value(&Value::Bool(false)), "false");
    assert_eq!(format_value(&Value::Nil), "nil");
    assert_eq!(format_value(&Value::Uninit), "nil");
    assert_eq!(format_value(&Value::Instance(0)), "<instance>");
}

#[test]
fn literals_become_their_values() {
    assert_eq!(traverse_literal(&Literal::Number(5)), Value::Number(5));
    assert_eq!(
        traverse_literal(&Literal::Str("s".to_string())),
        Value::Str("s".to_string())
    );
    assert_eq!(traverse_literal(&Literal::Bool(false)), Value::Bool(false));
    assert_eq!(traverse_literal(&Literal::Nil), Value::Nil);
}
