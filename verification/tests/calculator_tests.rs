use calc::calculator::{calculate, CalcError};
use calc::number::Number;

fn value_of(input: &str) -> f64 {
    let n = calculate(input).unwrap();
    n.numer() as f64 / n.denom() as f64
}

#[test]
fn test_simple_addition() {
    assert_eq!(value_of("3+2"), 5.0);
}

#[test]
fn test_expression_with_spaces() {
    assert_eq!(value_of("3 + 2 * 4"), 11.0);
}

#[test]
fn test_parentheses() {
    assert_eq!(value_of("(3+2)*4"), 20.0);
}

#[test]
fn test_division() {
    assert_eq!(value_of("6/2"), 3.0);
}

#[test]
fn test_division_by_zero() {
    let result = calculate("6/0");
    assert!(result.is_err());
    if let Err(e) = result {
        assert_eq!(
            e.message(),
            "Failed to evaluate expression: Division by zero in expression: Division by zero"
        );
    } else {
        panic!("Expected an error, but got a result: {:?}", result);
    }
}

#[test]
fn test_invalid_character() {
    let result = calculate("3$2");
    assert!(result.is_err());

    if let Err(e) = result {
        assert_eq!(
            e.message(),
            format!(
                "Failed to parse expression: Invalid character: '{}' at position {}",
                '$', 2
            )
        );
    } else {
        panic!("Expected an error, but got a result: {:?}", result);
    }
}

#[test]
fn test_missing_parenthesis() {
    let result = calculate("(3+2");
    if let Err(e) = result {
        assert_eq!(
            e.message(),
            "Failed to parse expression: Parser error: Expected closing parenthesis"
        );
    } else {
        panic!("Expected an error, but got a result: {:?}", result);
    }
}

#[test]
fn test_add() {
    assert_eq!(value_of("10 + 10"), 20.0)
}

#[test]
fn test_unary_minus() {
    assert_eq!(value_of("-10"), -10.0);
}

#[test]
fn test_unary_plus() {
    assert_eq!(value_of("+10"), 10.0);
}

#[test]
fn test_unary_with_binary() {
    assert_eq!(value_of("-2 * 3"), -6.0);
    assert_eq!(value_of("-(2 + 3)"), -5.0);
}

#[test]
fn test_multiple_unary() {
    assert_eq!(value_of("--10"), 10.0);
    assert_eq!(value_of("+-10"), -10.0);
}

#[test]
fn test_left_associative_subtraction() {
    assert_eq!(value_of("10 - 2 - 3"), 5.0);
}

#[test]
fn test_left_associative_division() {
    assert_eq!(value_of("8/4/2"), 1.0);
}

#[test]
fn test_division_succeeds_on_nonzero() {
    assert_eq!(value_of("6/3"), 2.0);
}

#[test]
fn test_whitespace_insignificant() {
    let spaced = calculate("3 + 2 * 4").unwrap();
    let dense = calculate("3+2*4").unwrap();
    assert_eq!(spaced.numer(), dense.numer());
    assert_eq!(spaced.denom(), dense.denom());
}

#[test]
fn test_idempotent() {
    let first = calculate("(1+2)*3-4/2").unwrap();
    let second = calculate("(1+2)*3-4/2").unwrap();
    assert_eq!(first.numer(), second.numer());
    assert_eq!(first.denom(), second.denom());
}

#[test]
fn test_fractional_values() {
    assert_eq!(value_of("1.5+2.5"), 4.0);
    assert_eq!(value_of("7/2"), 3.5);
    assert_eq!(value_of(".5"), 0.5);
    assert_eq!(value_of("5."), 5.0);
}

#[test]
fn test_exact_fraction_components() {
    let n = calculate("1/3").unwrap();
    assert_eq!(n.numer(), 1);
    assert_eq!(n.denom(), 3);
}

#[test]
fn test_invalid_character_kind_and_position() {
    assert_eq!(calculate("3$2"), Err(CalcError::InvalidChar('$', 2)));
    assert_eq!(calculate("12#"), Err(CalcError::InvalidChar('#', 1)));
    assert_eq!(calculate("3\t2"), Err(CalcError::InvalidChar('\t', 2)));
}

#[test]
fn test_malformed_number() {
    assert_eq!(calculate("1.2.3"), Err(CalcError::NumberParseError));
    assert_eq!(calculate("."), Err(CalcError::NumberParseError));
}

#[test]
fn test_unexpected_end_of_input() {
    assert_eq!(calculate(""), Err(CalcError::UnexpectedEndOfInput));
    assert_eq!(calculate("3+"), Err(CalcError::UnexpectedEndOfInput));
    assert_eq!(calculate("   "), Err(CalcError::UnexpectedEndOfInput));
}

#[test]
fn test_expected_number_or_parenthesis() {
    assert_eq!(calculate("3+*2"), Err(CalcError::ExpectedNumberOrParenthesis));
    assert_eq!(calculate(")3"), Err(CalcError::ExpectedNumberOrParenthesis));
}

#[test]
fn test_expected_closing_parenthesis() {
    assert_eq!(calculate("(3+2"), Err(CalcError::ExpectedClosingParenthesis));
    assert_eq!(calculate("(3 2"), Err(CalcError::ExpectedClosingParenthesis));
}

#[test]
fn test_overflow_detected() {
    assert_eq!(
        calculate("9223372036854775807*2"),
        Err(CalcError::Overflow)
    );
}

#[test]
fn test_overlong_literal_rejected() {
    assert_eq!(calculate("99999999999999999999"), Err(CalcError::NumberParseError));
}

#[test]
fn test_trailing_tokens_ignored() {
    assert_eq!(value_of("3 4"), 3.0);
}

#[test]
fn test_number_value_equality() {
    let half = calculate("1/2").unwrap();
    let other_half = calculate("2/4").unwrap();
    assert!(half.eq_value(&other_half));
    let third = calculate("1/3").unwrap();
    assert!(!half.eq_value(&third));
}

#[test]
fn test_from_int_roundtrip() {
    let five = Number::from_int(5);
    assert_eq!(five.numer(), 5);
    assert_eq!(five.denom(), 1);
    assert!(calculate("5").unwrap().eq_value(&five));
}

#[test]
fn test_zero_divisor_from_subexpression() {
    assert_eq!(calculate("1/(2-2)"), Err(CalcError::DivisionByZero));
    assert_eq!(calculate("1/0.0"), Err(CalcError::DivisionByZero));
}
