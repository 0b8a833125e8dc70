//! The user-facing text of each error kind.
//!
//! The message templates are the library's one externally observable string
//! contract: a stage prefix ("Failed to parse expression" for lexical and
//! syntactic errors, "Failed to evaluate expression" for semantic ones)
//! followed by the kind's detail. The invalid-character message embeds the
//! character and its reported position, written by a verified decimal
//! formatter.

use vstd::prelude::*;
use vstd::string::StringExecFns;

use crate::calculator::CalcError;

verus! {

/// The digit character for a value below ten.
pub open spec fn digit_char(d: int) -> char {
    ((48 + d) as u8) as char
}

/// The decimal digits of `v`, most significant first.
pub open spec fn dec_seq(v: nat) -> Seq<char>
    decreases v,
{
    if v < 10 {
        seq![digit_char(v as int)]
    } else {
        dec_seq(v / 10).push(digit_char((v % 10) as int))
    }
}

/// Relies on std's `String::push`: appends exactly the one given character.
#[verifier::external_body]
fn push_char(s: &mut String, c: char)
    ensures
        final(s)@ == old(s)@.push(c),
{
    s.push(c)
}

/// Appends the decimal digits of `v`.
fn push_dec(s: &mut String, v: usize)
    ensures
        final(s)@ == old(s)@ + dec_seq(v as nat),
    decreases v,
{
    if v >= 10 {
        push_dec(s, v / 10);
    }
    let ghost mid = s@;
    let d = ((48 + (v % 10) as u32) as u8) as char;
    push_char(s, d);
    proof {
        if v < 10 {
            assert(s@ =~= old(s)@ + dec_seq(v as nat));
        } else {
            assert(mid == old(s)@ + dec_seq((v / 10) as nat));
            assert(s@ =~= old(s)@ + dec_seq(v as nat));
        }
    }
}

/// What `message` returns for each error kind.
pub open spec fn spec_message(e: CalcError) -> Seq<char> {
    match e {
        CalcError::InvalidChar(c, p) => "Failed to parse expression: Invalid character: '"@
            + seq![c] + "' at position "@ + dec_seq(p as nat),
        CalcError::NumberParseError =>
            "Failed to parse expression: Parser error: Failed to parse number"@,
        CalcError::UnexpectedEndOfInput =>
            "Failed to parse expression: Parser error: Unexpected end of input"@,
        CalcError::ExpectedNumberOrParenthesis =>
            "Failed to parse expression: Parser error: Expected number or parenthesis"@,
        CalcError::ExpectedClosingParenthesis =>
            "Failed to parse expression: Parser error: Expected closing parenthesis"@,
        CalcError::DivisionByZero =>
            "Failed to evaluate expression: Division by zero in expression: Division by zero"@,
        CalcError::Overflow =>
            "Failed to evaluate expression: Evaluating error: arithmetic overflow"@,
    }
}

impl CalcError {
    /// The error's user-facing text, stage prefix included.
    pub fn message(&self) -> (r: String)
        ensures
            r@ == spec_message(*self),
    {
        match self {
            CalcError::InvalidChar(c, p) => {
                let mut m = String::from_str(
                    "Failed to parse expression: Invalid character: '",
                );
                push_char(&mut m, *c);
                m.append("' at position ");
                push_dec(&mut m, *p);
                proof {
                    assert(m@ =~= spec_message(*self));
                }
                m
            },
            CalcError::NumberParseError => String::from_str(
                "Failed to parse expression: Parser error: Failed to parse number",
            ),
            CalcError::UnexpectedEndOfInput => String::from_str(
                "Failed to parse expression: Parser error: Unexpected end of input",
            ),
            CalcError::ExpectedNumberOrParenthesis => String::from_str(
                "Failed to parse expression: Parser error: Expected number or parenthesis",
            ),
            CalcError::ExpectedClosingParenthesis => String::from_str(
                "Failed to parse expression: Parser error: Expected closing parenthesis",
            ),
            CalcError::DivisionByZero => String::from_str(
                "Failed to evaluate expression: Division by zero in expression: Division by zero",
            ),
            CalcError::Overflow => String::from_str(
                "Failed to evaluate expression: Evaluating error: arithmetic overflow",
            ),
        }
    }
}

} // verus!
