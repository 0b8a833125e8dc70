//! The calculator's data model and evaluator, and the end-to-end entry point.
//!
//! `Token` is the tokenizer's output, `Expr` the parser's, and `eval` walks an
//! `Expr` bottom-up to a `Number`. `calculate` chains the three stages and is
//! pinned, through `spec_calculate`, to a specification that mirrors the whole
//! pipeline exactly.

use std::collections::VecDeque;

use vstd::prelude::*;

use crate::number::Number;
use crate::parser::Parser;
use crate::parser::spec_parse_expr;
use crate::tokenizer::Tokenizer;
use crate::tokenizer::spec_tokenize;

verus! {

/// Everything that can go wrong between a source string and its value.
#[derive(Clone, Copy, Debug, PartialEq, Eq, Structural)]
pub enum CalcError {
    /// A character the tokenizer does not know. Carries the character and
    /// its reported position: the count of characters not yet consumed at
    /// the point of failure, the offending character included, rather than
    /// a forward offset.
    InvalidChar(char, usize),
    /// A run of digits and dots that does not denote a number (for example
    /// two dots), or one whose exact value does not fit the `i64`-component
    /// representation.
    NumberParseError,
    /// The token sequence ended where an operand was expected.
    UnexpectedEndOfInput,
    /// A token that cannot start an operand stood where one was expected.
    ExpectedNumberOrParenthesis,
    /// An opened parenthesis whose matching close is missing or replaced by
    /// another token.
    ExpectedClosingParenthesis,
    /// A division whose right operand evaluates to exactly zero.
    DivisionByZero,
    /// An intermediate result outside the `i64`-component range.
    Overflow,
}

/// One of the four binary operators.
#[derive(Clone, Copy, Debug, PartialEq, Eq, Structural)]
pub enum BinOp {
    Add,
    Sub,
    Mul,
    Div,
}

/// One of the two unary prefix operators.
#[derive(Clone, Copy, Debug, PartialEq, Eq, Structural)]
pub enum UnOp {
    Plus,
    Minus,
}

/// A lexical token.
#[derive(Clone, Copy, Debug, PartialEq, Eq, Structural)]
pub enum Token {
    Number(Number),
    Plus,
    Minus,
    Multiply,
    Divide,
    LeftParen,
    RightParen,
}

/// An expression tree. Every non-leaf node owns its children; by
/// construction only the enumerated operators ever reach a node.
#[derive(Debug)]
pub enum Expr {
    Number(Number),
    BinaryOp { op: BinOp, left: Box<Expr>, right: Box<Expr> },
    UnaryOp { op: UnOp, operand: Box<Expr> },
}

/// A numeric token carries a well-formed `Number`.
pub open spec fn wf_token(t: Token) -> bool {
    match t {
        Token::Number(x) => x.wf(),
        _ => true,
    }
}

/// Every numeric token of the sequence carries a well-formed `Number`.
pub open spec fn wf_tokens(ts: Seq<Token>) -> bool {
    forall|k: int| 0 <= k < ts.len() ==> wf_token(#[trigger] ts[k])
}

/// Every numeric leaf of the tree is a well-formed `Number`.
pub open spec fn wf_expr(e: Expr) -> bool
    decreases e,
{
    match e {
        Expr::Number(n) => n.wf(),
        Expr::UnaryOp { op, operand } => wf_expr(*operand),
        Expr::BinaryOp { op, left, right } => wf_expr(*left) && wf_expr(*right),
    }
}

/// Lifts an arithmetic step to the evaluator's result: a missing value means
/// the step fell outside the representable range.
pub open spec fn lift_arith(r: Option<Number>) -> Result<Number, CalcError> {
    match r {
        Some(v) => Ok(v),
        None => Err(CalcError::Overflow),
    }
}

/// What `eval` returns: a depth-first, left-to-right walk of the tree. A
/// division is checked against an exactly-zero right operand before it is
/// performed; the first error ends the walk.
pub open spec fn spec_eval(e: Expr) -> Result<Number, CalcError>
    decreases e,
{
    match e {
        Expr::Number(n) => Ok(n),
        Expr::UnaryOp { op, operand } => match spec_eval(*operand) {
            Ok(v) => match op {
                UnOp::Plus => Ok(v),
                UnOp::Minus => Ok(v.spec_neg()),
            },
            Err(er) => Err(er),
        },
        Expr::BinaryOp { op, left, right } => match spec_eval(*left) {
            Ok(l) => match spec_eval(*right) {
                Ok(r) => match op {
                    BinOp::Add => lift_arith(l.spec_add(r)),
                    BinOp::Sub => lift_arith(l.spec_sub(r)),
                    BinOp::Mul => lift_arith(l.spec_mul(r)),
                    BinOp::Div => if r.num == 0 {
                        Err(CalcError::DivisionByZero)
                    } else {
                        lift_arith(l.spec_div(r))
                    },
                },
                Err(er) => Err(er),
            },
            Err(er) => Err(er),
        },
    }
}

/// Evaluates an expression tree.
pub fn eval(expr: &Expr) -> (r: Result<Number, CalcError>)
    requires
        wf_expr(*expr),
    ensures
        r == spec_eval(*expr),
        r matches Ok(v) ==> v.wf(),
    decreases *expr,
{
    match expr {
        Expr::Number(n) => Ok(*n),
        Expr::UnaryOp { op, operand } => {
            let val = match eval(operand) {
                Ok(v) => v,
                Err(er) => return Err(er),
            };
            match op {
                UnOp::Plus => Ok(val),
                UnOp::Minus => Ok(val.neg()),
            }
        },
        Expr::BinaryOp { op, left, right } => {
            let left_val = match eval(left) {
                Ok(v) => v,
                Err(er) => return Err(er),
            };
            let right_val = match eval(right) {
                Ok(v) => v,
                Err(er) => return Err(er),
            };
            match op {
                BinOp::Add => match left_val.add(right_val) {
                    Some(v) => Ok(v),
                    None => Err(CalcError::Overflow),
                },
                BinOp::Sub => match left_val.sub(right_val) {
                    Some(v) => Ok(v),
                    None => Err(CalcError::Overflow),
                },
                BinOp::Mul => match left_val.mul(right_val) {
                    Some(v) => Ok(v),
                    None => Err(CalcError::Overflow),
                },
                BinOp::Div => {
                    if right_val.numer() == 0 {
                        Err(CalcError::DivisionByZero)
                    } else {
                        match left_val.div(right_val) {
                            Some(v) => Ok(v),
                            None => Err(CalcError::Overflow),
                        }
                    }
                },
            }
        },
    }
}

/// What `calculate` returns: tokenize, then parse, then evaluate, stopping at
/// the first error. Tokens left after a complete parse are silently ignored
/// rather than reported.
pub open spec fn spec_calculate(s: Seq<char>) -> Result<Number, CalcError> {
    match spec_tokenize(s, 0) {
        Ok(ts) => match spec_parse_expr(ts) {
            Ok((ast, rest)) => spec_eval(ast),
            Err(er) => Err(er),
        },
        Err(er) => Err(er),
    }
}

/// Evaluates an arithmetic expression given as text.
pub fn calculate(expr: &str) -> (r: Result<Number, CalcError>)
    ensures
        r == spec_calculate(expr@),
        r matches Ok(v) ==> v.wf(),
{
    let mut tokens = match Tokenizer::tokenize(expr) {
        Ok(t) => t,
        Err(er) => return Err(er),
    };
    let ast = match Parser::parse(&mut tokens) {
        Ok(a) => a,
        Err(er) => return Err(er),
    };
    eval(&ast)
}

} // verus!
