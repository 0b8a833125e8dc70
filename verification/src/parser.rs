//! The recursive-descent parser.
//!
//! Three precedence levels encode the grammar: additive operators at the
//! bottom, multiplicative above them, and primaries (numbers, unary prefixes
//! and parenthesised expressions) at the top. Each level is mirrored by a
//! spec function over the token sequence that returns the parsed tree and the
//! tokens left over, and the executable functions are proved to return
//! precisely that. Left-associativity comes from the `..._rest` helpers,
//! which fold each further operand into the running left-hand side.

use std::collections::VecDeque;

use vstd::prelude::*;

use crate::calculator::BinOp;
use crate::calculator::CalcError;
use crate::calculator::Expr;
use crate::calculator::Token;
use crate::calculator::UnOp;
use crate::calculator::wf_expr;
use crate::calculator::wf_token;
use crate::calculator::wf_tokens;

verus! {

/// A primary: a number, a unary `+` or `-` applied to a primary, or a
/// parenthesised expression. Consumes at least one token when it succeeds.
pub open spec fn spec_parse_primary(t: Seq<Token>) -> Result<(Expr, Seq<Token>), CalcError>
    decreases t.len(), 0int,
{
    if t.len() == 0 {
        Err(CalcError::UnexpectedEndOfInput)
    } else {
        match t[0] {
            Token::Plus => match spec_parse_primary(t.drop_first()) {
                Ok((e, rest)) => Ok(
                    (Expr::UnaryOp { op: UnOp::Plus, operand: Box::new(e) }, rest),
                ),
                Err(er) => Err(er),
            },
            Token::Minus => match spec_parse_primary(t.drop_first()) {
                Ok((e, rest)) => Ok(
                    (Expr::UnaryOp { op: UnOp::Minus, operand: Box::new(e) }, rest),
                ),
                Err(er) => Err(er),
            },
            Token::Number(n) => Ok((Expr::Number(n), t.drop_first())),
            Token::LeftParen => match spec_parse_add_sub(t.drop_first()) {
                Ok((e, rest)) => if rest.len() > 0 && rest[0] is RightParen {
                    Ok((e, rest.drop_first()))
                } else {
                    Err(CalcError::ExpectedClosingParenthesis)
                },
                Err(er) => Err(er),
            },
            _ => Err(CalcError::ExpectedNumberOrParenthesis),
        }
    }
}

/// A multiplicative chain: a primary followed by any number of `*` or `/`
/// steps, folded to the left.
pub open spec fn spec_parse_mul_div(t: Seq<Token>) -> Result<(Expr, Seq<Token>), CalcError>
    decreases t.len(), 1int,
{
    match spec_parse_primary(t) {
        Ok((e, rest)) => {
            let bounded = if rest.len() < t.len() {
                rest
            } else {
                t
            };
            spec_parse_mul_div_rest(e, bounded)
        },
        Err(er) => Err(er),
    }
}

/// Folds `* primary` and `/ primary` steps into `left` while the next token
/// is a multiplicative operator. The bounding branches only restate that a
/// successful sub-parse leaves a shorter sequence, which makes termination
/// structural.
pub open spec fn spec_parse_mul_div_rest(left: Expr, t: Seq<Token>) -> Result<
    (Expr, Seq<Token>),
    CalcError,
>
    decreases t.len(), 0int,
{
    if t.len() > 0 && (t[0] is Multiply || t[0] is Divide) {
        let op = if t[0] is Multiply {
            BinOp::Mul
        } else {
            BinOp::Div
        };
        match spec_parse_primary(t.drop_first()) {
            Ok((rhs, rest)) => {
                let combined = Expr::BinaryOp {
                    op,
                    left: Box::new(left),
                    right: Box::new(rhs),
                };
                let bounded = if rest.len() < t.len() {
                    rest
                } else {
                    Seq::empty()
                };
                spec_parse_mul_div_rest(combined, bounded)
            },
            Err(er) => Err(er),
        }
    } else {
        Ok((left, t))
    }
}

/// An additive chain: a multiplicative chain followed by any number of `+` or
/// `-` steps, folded to the left.
pub open spec fn spec_parse_add_sub(t: Seq<Token>) -> Result<(Expr, Seq<Token>), CalcError>
    decreases t.len(), 2int,
{
    match spec_parse_mul_div(t) {
        Ok((e, rest)) => {
            let bounded = if rest.len() < t.len() {
                rest
            } else {
                t
            };
            spec_parse_add_sub_rest(e, bounded)
        },
        Err(er) => Err(er),
    }
}

/// Folds `+ mul_div` and `- mul_div` steps into `left` while the next token
/// is an additive operator.
pub open spec fn spec_parse_add_sub_rest(left: Expr, t: Seq<Token>) -> Result<
    (Expr, Seq<Token>),
    CalcError,
>
    decreases t.len(), 1int,
{
    if t.len() > 0 && (t[0] is Plus || t[0] is Minus) {
        let op = if t[0] is Plus {
            BinOp::Add
        } else {
            BinOp::Sub
        };
        match spec_parse_mul_div(t.drop_first()) {
            Ok((rhs, rest)) => {
                let combined = Expr::BinaryOp {
                    op,
                    left: Box::new(left),
                    right: Box::new(rhs),
                };
                let bounded = if rest.len() < t.len() {
                    rest
                } else {
                    Seq::empty()
                };
                spec_parse_add_sub_rest(combined, bounded)
            },
            Err(er) => Err(er),
        }
    } else {
        Ok((left, t))
    }
}

/// A whole expression: the additive level, the grammar's lowest.
pub open spec fn spec_parse_expr(t: Seq<Token>) -> Result<(Expr, Seq<Token>), CalcError> {
    spec_parse_add_sub(t)
}

/// Dropping the front token keeps every numeric payload well-formed.
proof fn lemma_wf_tokens_drop(ts: Seq<Token>)
    requires
        wf_tokens(ts),
        ts.len() > 0,
    ensures
        wf_tokens(ts.drop_first()),
{
    assert forall|k: int| 0 <= k < ts.drop_first().len() implies wf_token(
        #[trigger] ts.drop_first()[k],
    ) by {
        assert(ts.drop_first()[k] == ts[k + 1]);
    }
}

/// The parser.
pub struct Parser;

impl Parser {
    /// Parses the token sequence into one expression tree, consuming the
    /// tokens the tree covers and leaving any trailing ones in place.
    pub fn parse(tokens: &mut VecDeque<Token>) -> (r: Result<Expr, CalcError>)
        ensures
            (match spec_parse_expr(old(tokens)@) {
                Ok((e, rest)) => r == Ok::<Expr, CalcError>(e) && final(tokens)@ == rest,
                Err(er) => r == Err::<Expr, CalcError>(er),
            }),
            wf_tokens(old(tokens)@) ==> (r matches Ok(e) ==> wf_expr(e)),
    {
        Self::parse_expr(tokens)
    }

    /// One expression: delegates to the additive level.
    fn parse_expr(tokens: &mut VecDeque<Token>) -> (r: Result<Expr, CalcError>)
        ensures
            (match spec_parse_add_sub(old(tokens)@) {
                Ok((e, rest)) => r == Ok::<Expr, CalcError>(e) && final(tokens)@ == rest
                    && rest.len() < old(tokens)@.len(),
                Err(er) => r == Err::<Expr, CalcError>(er),
            }),
            final(tokens)@.len() <= old(tokens)@.len(),
            wf_tokens(old(tokens)@) ==> wf_tokens(final(tokens)@),
            wf_tokens(old(tokens)@) ==> (r matches Ok(e) ==> wf_expr(e)),
        decreases old(tokens)@.len(), 3int,
    {
        Self::parse_add_sub(tokens)
    }

    /// The additive level: a multiplicative chain, then a left fold over
    /// `+` and `-` steps.
    fn parse_add_sub(tokens: &mut VecDeque<Token>) -> (r: Result<Expr, CalcError>)
        ensures
            (match spec_parse_add_sub(old(tokens)@) {
                Ok((e, rest)) => r == Ok::<Expr, CalcError>(e) && final(tokens)@ == rest
                    && rest.len() < old(tokens)@.len(),
                Err(er) => r == Err::<Expr, CalcError>(er),
            }),
            final(tokens)@.len() <= old(tokens)@.len(),
            wf_tokens(old(tokens)@) ==> wf_tokens(final(tokens)@),
            wf_tokens(old(tokens)@) ==> (r matches Ok(e) ==> wf_expr(e)),
        decreases old(tokens)@.len(), 2int,
    {
        let mut left = match Self::parse_mul_div(tokens) {
            Ok(e) => e,
            Err(er) => return Err(er),
        };
        #[verifier::loop_isolation(false)]
        loop
            invariant
                tokens@.len() < old(tokens)@.len(),
                spec_parse_add_sub(old(tokens)@) == spec_parse_add_sub_rest(left, tokens@),
                wf_tokens(old(tokens)@) ==> wf_tokens(tokens@),
                wf_tokens(old(tokens)@) ==> wf_expr(left),
            decreases tokens@.len(),
        {
            if tokens.len() == 0 {
                return Ok(left);
            }
            let is_add = matches!(tokens[0], Token::Plus);
            let is_sub = matches!(tokens[0], Token::Minus);
            if !is_add && !is_sub {
                return Ok(left);
            }
            let ghost pre = tokens@;
            let op = if is_add {
                BinOp::Add
            } else {
                BinOp::Sub
            };
            let popped = tokens.pop_front();
            proof {
                if wf_tokens(old(tokens)@) {
                    lemma_wf_tokens_drop(pre);
                }
            }
            let right = match Self::parse_mul_div(tokens) {
                Ok(e) => e,
                Err(er) => return Err(er),
            };
            left = Expr::BinaryOp { op, left: Box::new(left), right: Box::new(right) };
        }
    }

    /// The multiplicative level: a primary, then a left fold over `*` and
    /// `/` steps.
    fn parse_mul_div(tokens: &mut VecDeque<Token>) -> (r: Result<Expr, CalcError>)
        ensures
            (match spec_parse_mul_div(old(tokens)@) {
                Ok((e, rest)) => r == Ok::<Expr, CalcError>(e) && final(tokens)@ == rest
                    && rest.len() < old(tokens)@.len(),
                Err(er) => r == Err::<Expr, CalcError>(er),
            }),
            final(tokens)@.len() <= old(tokens)@.len(),
            wf_tokens(old(tokens)@) ==> wf_tokens(final(tokens)@),
            wf_tokens(old(tokens)@) ==> (r matches Ok(e) ==> wf_expr(e)),
        decreases old(tokens)@.len(), 1int,
    {
        let mut left = match Self::parse_primary(tokens) {
            Ok(e) => e,
            Err(er) => return Err(er),
        };
        #[verifier::loop_isolation(false)]
        loop
            invariant
                tokens@.len() < old(tokens)@.len(),
                spec_parse_mul_div(old(tokens)@) == spec_parse_mul_div_rest(left, tokens@),
                wf_tokens(old(tokens)@) ==> wf_tokens(tokens@),
                wf_tokens(old(tokens)@) ==> wf_expr(left),
            decreases tokens@.len(),
        {
            if tokens.len() == 0 {
                return Ok(left);
            }
            let is_mul = matches!(tokens[0], Token::Multiply);
            let is_div = matches!(tokens[0], Token::Divide);
            if !is_mul && !is_div {
                return Ok(left);
            }
            let ghost pre = tokens@;
            let op = if is_mul {
                BinOp::Mul
            } else {
                BinOp::Div
            };
            let popped = tokens.pop_front();
            proof {
                if wf_tokens(old(tokens)@) {
                    lemma_wf_tokens_drop(pre);
                }
            }
            let right = match Self::parse_primary(tokens) {
                Ok(e) => e,
                Err(er) => return Err(er),
            };
            left = Expr::BinaryOp { op, left: Box::new(left), right: Box::new(right) };
        }
    }

    /// The highest level: one number, a unary prefix applied to a primary, or
    /// a parenthesised expression. Consumes at least one token on success.
    fn parse_primary(tokens: &mut VecDeque<Token>) -> (r: Result<Expr, CalcError>)
        ensures
            (match spec_parse_primary(old(tokens)@) {
                Ok((e, rest)) => r == Ok::<Expr, CalcError>(e) && final(tokens)@ == rest
                    && rest.len() < old(tokens)@.len(),
                Err(er) => r == Err::<Expr, CalcError>(er),
            }),
            final(tokens)@.len() <= old(tokens)@.len(),
            wf_tokens(old(tokens)@) ==> wf_tokens(final(tokens)@),
            wf_tokens(old(tokens)@) ==> (r matches Ok(e) ==> wf_expr(e)),
        decreases old(tokens)@.len(), 0int,
    {
        let ghost pre = tokens@;
        proof {
            if wf_tokens(pre) && pre.len() > 0 {
                lemma_wf_tokens_drop(pre);
            }
        }
        match tokens.pop_front() {
            Some(Token::Plus) => match Self::parse_primary(tokens) {
                Ok(e) => Ok(Expr::UnaryOp { op: UnOp::Plus, operand: Box::new(e) }),
                Err(er) => Err(er),
            },
            Some(Token::Minus) => match Self::parse_primary(tokens) {
                Ok(e) => Ok(Expr::UnaryOp { op: UnOp::Minus, operand: Box::new(e) }),
                Err(er) => Err(er),
            },
            Some(Token::Number(n)) => Ok(Expr::Number(n)),
            Some(Token::LeftParen) => {
                let inner = match Self::parse_expr(tokens) {
                    Ok(e) => e,
                    Err(er) => return Err(er),
                };
                let ghost before_close = tokens@;
                proof {
                    if wf_tokens(pre) && before_close.len() > 0 {
                        lemma_wf_tokens_drop(before_close);
                    }
                }
                match tokens.pop_front() {
                    Some(Token::RightParen) => Ok(inner),
                    Some(_) => Err(CalcError::ExpectedClosingParenthesis),
                    None => Err(CalcError::ExpectedClosingParenthesis),
                }
            },
            Some(_) => Err(CalcError::ExpectedNumberOrParenthesis),
            None => Err(CalcError::UnexpectedEndOfInput),
        }
    }
}

} // verus!
