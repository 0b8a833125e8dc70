//! The tokenizer: one left-to-right scan of the input string.
//!
//! `spec_tokenize` states the scan exactly: runs of digits and dots become
//! one numeric token, the six operator and parenthesis characters become one
//! token each, spaces are skipped, and any other character stops the scan
//! with an invalid-character error carrying the count of characters not yet
//! consumed. `Tokenizer::tokenize` is proved to return precisely that.

use std::collections::VecDeque;

use vstd::prelude::*;

use crate::calculator::CalcError;
use crate::calculator::Token;
use crate::calculator::wf_token;
use crate::calculator::wf_tokens;
use crate::number::Number;

verus! {

/// A character that belongs to a numeric run: a decimal digit or a dot.
pub open spec fn is_num_char(c: char) -> bool {
    is_digit_char(c) || c == '.'
}

/// A decimal digit.
pub open spec fn is_digit_char(c: char) -> bool {
    48 <= c as u32 <= 57
}

/// The numeric value of a digit character.
pub open spec fn digit_val(c: char) -> int {
    c as u32 - 48
}

/// The first position at or after `j` that does not hold a numeric-run
/// character: where the numeric run starting at `j` ends.
pub open spec fn run_end(s: Seq<char>, j: int) -> int
    decreases s.len() - j,
{
    if 0 <= j < s.len() && is_num_char(s[j]) {
        run_end(s, j + 1)
    } else {
        j
    }
}

/// The run's end stays between its start and the end of the string.
pub proof fn lemma_run_end_bounds(s: Seq<char>, j: int)
    requires
        0 <= j <= s.len(),
    ensures
        j <= run_end(s, j) <= s.len(),
    decreases s.len() - j,
{
    if j < s.len() && is_num_char(s[j]) {
        lemma_run_end_bounds(s, j + 1);
    }
}

/// Reading the numeric run `s[j..end]` left to right: `acc` holds the value
/// of the digits seen so far with the dot ignored, `den` the power of ten
/// that scales the digits seen after the dot, `dot` and `has_digit` what has
/// been seen. The result is the number's exact value as a fraction, or
/// nothing when the run holds a second dot, no digit at all, or a value whose
/// components exceed `i64::MAX`.
pub open spec fn scan_run(
    s: Seq<char>,
    j: int,
    end: int,
    acc: int,
    den: int,
    dot: bool,
    has_digit: bool,
) -> Option<(int, int)>
    decreases end - j,
{
    if 0 <= j && j < end && j < s.len() {
        let c = s[j];
        if c == '.' {
            if dot {
                None
            } else {
                scan_run(s, j + 1, end, acc, den, true, has_digit)
            }
        } else {
            let acc2 = acc * 10 + digit_val(c);
            let den2 = if dot {
                den * 10
            } else {
                den
            };
            if acc2 > i64::MAX as int || den2 > i64::MAX as int {
                None
            } else {
                scan_run(s, j + 1, end, acc2, den2, dot, true)
            }
        }
    } else {
        if has_digit {
            Some((acc, den))
        } else {
            None
        }
    }
}

/// The tokens of `s` from position `i` on. A numeric run becomes one
/// `Token::Number`; `+ - * / ( )` become their tokens; a space is skipped;
/// any other character is an invalid-character error whose position is the
/// count of characters not yet consumed.
pub open spec fn spec_tokenize(s: Seq<char>, i: int) -> Result<Seq<Token>, CalcError>
    decreases s.len() - i,
{
    if !(0 <= i < s.len()) {
        Ok(Seq::empty())
    } else {
        let c = s[i];
        if is_num_char(c) {
            let e0 = run_end(s, i + 1);
            let e = if e0 < i + 1 {
                i + 1
            } else if e0 > s.len() {
                s.len() as int
            } else {
                e0
            };
            match scan_run(s, i, e, 0, 1, false, false) {
                Some((n, d)) => match spec_tokenize(s, e) {
                    Ok(rest) => Ok(
                        seq![Token::Number(Number { num: n as i64, den: d as i64 })] + rest,
                    ),
                    Err(er) => Err(er),
                },
                None => Err(CalcError::NumberParseError),
            }
        } else if c == '+' || c == '-' || c == '*' || c == '/' || c == '(' || c == ')' {
            let t = if c == '+' {
                Token::Plus
            } else if c == '-' {
                Token::Minus
            } else if c == '*' {
                Token::Multiply
            } else if c == '/' {
                Token::Divide
            } else if c == '(' {
                Token::LeftParen
            } else {
                Token::RightParen
            };
            match spec_tokenize(s, i + 1) {
                Ok(rest) => Ok(seq![t] + rest),
                Err(er) => Err(er),
            }
        } else if c == ' ' {
            spec_tokenize(s, i + 1)
        } else {
            Err(CalcError::InvalidChar(c, (s.len() - i) as usize))
        }
    }
}

/// The tokenizer.
pub struct Tokenizer;

/// Whether the character at `j` may extend a numeric run.
fn num_char_at(expr: &str, j: usize) -> (b: bool)
    requires
        j < expr@.len(),
    ensures
        b == is_num_char(expr@[j as int]),
{
    let c = expr.get_char(j);
    let u = c as u32;
    (48 <= u && u <= 57) || c == '.'
}


/// The scan's running state: the tokens before position `i` are already
/// emitted, and the whole scan's outcome is the emitted tokens followed by
/// whatever the scan of the rest yields.
spec fn tok_inv(s: Seq<char>, done: Seq<Token>, i: int) -> bool {
    spec_tokenize(s, 0) == (match spec_tokenize(s, i) {
        Ok(rest) => Ok::<Seq<Token>, CalcError>(done + rest),
        Err(er) => Err::<Seq<Token>, CalcError>(er),
    })
}

/// Emitting one token that the scan at `i` yields ahead of the scan at `i2`
/// keeps the running state.
proof fn lemma_tok_step(s: Seq<char>, done: Seq<Token>, i: int, t: Token, i2: int)
    requires
        tok_inv(s, done, i),
        spec_tokenize(s, i) == (match spec_tokenize(s, i2) {
            Ok(rest) => Ok::<Seq<Token>, CalcError>(seq![t] + rest),
            Err(er) => Err::<Seq<Token>, CalcError>(er),
        }),
    ensures
        tok_inv(s, done.push(t), i2),
{
    match spec_tokenize(s, i2) {
        Ok(rest) => {
            assert(done + (seq![t] + rest) =~= done.push(t) + rest);
        },
        Err(_) => {},
    }
}

/// A well-formed token extends a well-formed sequence.
proof fn lemma_wf_tokens_push(done: Seq<Token>, t: Token)
    requires
        wf_tokens(done),
        wf_token(t),
    ensures
        wf_tokens(done.push(t)),
{
    assert forall|k: int| 0 <= k < done.push(t).len() implies wf_token(
        #[trigger] done.push(t)[k],
    ) by {
        if k < done.len() {
            assert(done.push(t)[k] == done[k]);
        } else {
            assert(done.push(t)[k] == t);
        }
    }
}

impl Tokenizer {
    /// Scans `expr` into its token sequence, exactly as `spec_tokenize` says.
    pub fn tokenize(expr: &str) -> (r: Result<VecDeque<Token>, CalcError>)
        ensures
            (spec_tokenize(expr@, 0) matches Ok(ts) ==> (r matches Ok(v) && v@ == ts)),
            (spec_tokenize(expr@, 0) matches Err(er) ==> r == Err::<VecDeque<Token>, CalcError>(
                er,
            )),
            r matches Ok(v) ==> wf_tokens(v@),
    {
        let ghost s = expr@;
        let n = expr.unicode_len();
        let mut tokens: VecDeque<Token> = VecDeque::new();
        let mut i: usize = 0;
        #[verifier::loop_isolation(false)]
        while i < n
            invariant
                i <= n,
                tok_inv(s, tokens@, i as int),
                wf_tokens(tokens@),
            decreases n - i,
        {
            let ghost done = tokens@;
            let c = expr.get_char(i);
            let u = c as u32;
            if (48 <= u && u <= 57) || c == '.' {
                let ghost end = run_end(s, i as int);
                proof {
                    lemma_run_end_bounds(s, i + 1);
                    assert(end == run_end(s, i + 1));
                }
                let mut j = i;
                let mut acc: i64 = 0;
                let mut den: i64 = 1;
                let mut dot = false;
                let mut has_digit = false;
                #[verifier::loop_isolation(false)]
                while j < n && num_char_at(expr, j)
                    invariant
                        i <= j <= n,
                        0 <= acc <= i64::MAX,
                        1 <= den <= i64::MAX,
                        run_end(s, j as int) == end,
                        scan_run(s, i as int, end, 0, 1, false, false) == scan_run(
                            s,
                            j as int,
                            end,
                            acc as int,
                            den as int,
                            dot,
                            has_digit,
                        ),
                    decreases n - j,
                {
                    proof {
                        lemma_run_end_bounds(s, j + 1);
                        assert(j < end);
                    }
                    let cj = expr.get_char(j);
                    if cj == '.' {
                        if dot {
                            return Err(CalcError::NumberParseError);
                        }
                        dot = true;
                    } else {
                        let d = ((cj as u32) - 48) as i64;
                        let acc2: i128 = (acc as i128) * 10 + (d as i128);
                        let den2: i128 = if dot {
                            (den as i128) * 10
                        } else {
                            den as i128
                        };
                        if acc2 > i64::MAX as i128 || den2 > i64::MAX as i128 {
                            return Err(CalcError::NumberParseError);
                        }
                        acc = acc2 as i64;
                        den = den2 as i64;
                        has_digit = true;
                    }
                    j = j + 1;
                }
                proof {
                    assert(run_end(s, j as int) == j as int);
                }
                if !has_digit {
                    return Err(CalcError::NumberParseError);
                }
                let t = Token::Number(Number { num: acc, den });
                proof {
                    lemma_tok_step(s, done, i as int, t, j as int);
                    lemma_wf_tokens_push(done, t);
                }
                tokens.push_back(t);
                i = j;
            } else if c == ' ' {
                i = i + 1;
            } else {
                let t_opt: Option<Token> = if c == '+' {
                    Some(Token::Plus)
                } else if c == '-' {
                    Some(Token::Minus)
                } else if c == '*' {
                    Some(Token::Multiply)
                } else if c == '/' {
                    Some(Token::Divide)
                } else if c == '(' {
                    Some(Token::LeftParen)
                } else if c == ')' {
                    Some(Token::RightParen)
                } else {
                    None
                };
                match t_opt {
                    Some(t) => {
                        proof {
                            lemma_tok_step(s, done, i as int, t, i as int + 1);
                            lemma_wf_tokens_push(done, t);
                        }
                        tokens.push_back(t);
                        i = i + 1;
                    },
                    None => {
                        return Err(CalcError::InvalidChar(c, n - i));
                    },
                }
            }
        }
        Ok(tokens)
    }
}

} // verus!
