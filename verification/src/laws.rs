//! The library's general laws, each proved once and for all inputs.

use vstd::prelude::*;

use crate::calculator::BinOp;
use crate::calculator::CalcError;
use crate::calculator::Expr;
use crate::calculator::Token;
use crate::calculator::UnOp;
use crate::calculator::lift_arith;
use crate::calculator::spec_calculate;
use crate::calculator::spec_eval;
use crate::calculator::wf_expr;
use crate::number::Number;
use crate::number::lemma_spec_ops_wf;
use crate::tokenizer::digit_val;
use crate::tokenizer::is_num_char;
use crate::tokenizer::lemma_run_end_bounds;
use crate::tokenizer::run_end;
use crate::tokenizer::scan_run;
use crate::tokenizer::spec_tokenize;
use crate::parser::spec_parse_add_sub;
use crate::parser::spec_parse_add_sub_rest;
use crate::parser::spec_parse_expr;
use crate::parser::spec_parse_mul_div;
use crate::parser::spec_parse_mul_div_rest;
use crate::parser::spec_parse_primary;

verus! {

/// The mathematically exact value of a tree: the same walk as `spec_eval`,
/// but in unbounded rational arithmetic, with nothing to say only when a
/// division by zero is met.
pub open spec fn exact_eval(e: Expr) -> Option<(int, int)>
    decreases e,
{
    match e {
        Expr::Number(n) => Some((n.num as int, n.den as int)),
        Expr::UnaryOp { op, operand } => match exact_eval(*operand) {
            Some(v) => match op {
                UnOp::Plus => Some(v),
                UnOp::Minus => Some((-v.0, v.1)),
            },
            None => None,
        },
        Expr::BinaryOp { op, left, right } => match exact_eval(*left) {
            Some(l) => match exact_eval(*right) {
                Some(r) => match op {
                    BinOp::Add => Some((l.0 * r.1 + r.0 * l.1, l.1 * r.1)),
                    BinOp::Sub => Some((l.0 * r.1 - r.0 * l.1, l.1 * r.1)),
                    BinOp::Mul => Some((l.0 * r.0, l.1 * r.1)),
                    BinOp::Div => if r.0 == 0 {
                        None
                    } else {
                        let n0 = l.0 * r.1;
                        let d0 = l.1 * r.0;
                        if d0 < 0 {
                            Some((-n0, -d0))
                        } else {
                            Some((n0, d0))
                        }
                    },
                },
                None => None,
            },
            None => None,
        },
    }
}

/// Law: a successful evaluation returns the mathematically exact rational
/// value of the tree — the bounded `i64` arithmetic introduces no error, it
/// only refuses (with an overflow error) what it cannot represent.
pub proof fn lemma_eval_exact(e: Expr)
    requires
        wf_expr(e),
    ensures
        spec_eval(e) matches Ok(v) ==> (exact_eval(e) == Some((v.num as int, v.den as int))
            && v.wf()),
    decreases e,
{
    match e {
        Expr::Number(n) => {
            assert(spec_eval(e) == Ok::<Number, CalcError>(n));
            assert(exact_eval(e) == Some((n.num as int, n.den as int)));
        },
        Expr::UnaryOp { op, operand } => {
            lemma_eval_exact(*operand);
            match spec_eval(*operand) {
                Ok(v0) => {
                    assert(v0.wf());
                    assert(exact_eval(*operand) == Some((v0.num as int, v0.den as int)));
                    match op {
                        UnOp::Plus => {
                            assert(spec_eval(e) == Ok::<Number, CalcError>(v0));
                            assert(exact_eval(e) == exact_eval(*operand));
                        },
                        UnOp::Minus => {
                            assert(spec_eval(e) == Ok::<Number, CalcError>(v0.spec_neg()));
                            assert(v0.spec_neg().wf());
                            assert(exact_eval(e) == Some((-(v0.num as int), v0.den as int)));
                        },
                    }
                },
                Err(er) => {
                    assert(spec_eval(e) == Err::<Number, CalcError>(er));
                },
            }
        },
        Expr::BinaryOp { op, left, right } => {
            lemma_eval_exact(*left);
            lemma_eval_exact(*right);
            match spec_eval(*left) {
                Ok(l0) => match spec_eval(*right) {
                    Ok(r0) => {
                        lemma_spec_ops_wf(l0, r0);
                        match op {
                            BinOp::Add => {
                                assert(spec_eval(e) == lift_arith(l0.spec_add(r0)));
                            },
                            BinOp::Sub => {
                                assert(spec_eval(e) == lift_arith(l0.spec_sub(r0)));
                            },
                            BinOp::Mul => {
                                assert(spec_eval(e) == lift_arith(l0.spec_mul(r0)));
                            },
                            BinOp::Div => {
                                if r0.num == 0 {
                                    assert(spec_eval(e) == Err::<Number, CalcError>(
                                        CalcError::DivisionByZero,
                                    ));
                                } else {
                                    assert(spec_eval(e) == lift_arith(l0.spec_div(r0)));
                                }
                            },
                        }
                    },
                    Err(er) => {
                        assert(spec_eval(e) == Err::<Number, CalcError>(er));
                    },
                },
                Err(er) => {
                    assert(spec_eval(e) == Err::<Number, CalcError>(er));
                },
            }
        },
    }
}

/// Law: unary plus is the identity on evaluation.
pub proof fn lemma_unary_plus(e: Expr)
    ensures
        spec_eval(Expr::UnaryOp { op: UnOp::Plus, operand: Box::new(e) }) == spec_eval(e),
{
}

/// Law: two nested unary minus signs cancel: `--e` evaluates exactly as `e`
/// does, value and error alike.
pub proof fn lemma_double_negation(e: Expr)
    requires
        wf_expr(e),
    ensures
        spec_eval(
            Expr::UnaryOp {
                op: UnOp::Minus,
                operand: Box::new(Expr::UnaryOp { op: UnOp::Minus, operand: Box::new(e) }),
            },
        ) == spec_eval(e),
{
    lemma_eval_exact(e);
    let inner = Expr::UnaryOp { op: UnOp::Minus, operand: Box::new(e) };
    let outer = Expr::UnaryOp { op: UnOp::Minus, operand: Box::new(inner) };
    match spec_eval(e) {
        Ok(v) => {
            assert(spec_eval(inner) == Ok::<Number, CalcError>(v.spec_neg()));
            assert(spec_eval(outer) == Ok::<Number, CalcError>(v.spec_neg().spec_neg()));
            assert(v.spec_neg().spec_neg() == v);
        },
        Err(er) => {
            assert(spec_eval(inner) == Err::<Number, CalcError>(er));
            assert(spec_eval(outer) == Err::<Number, CalcError>(er));
        },
    }
}

/// Law: a division fails with the division-by-zero kind exactly when its
/// right operand evaluates to zero; with both operands evaluated, no other
/// input produces that kind there.
pub proof fn lemma_division_by_zero(l: Expr, r: Expr)
    requires
        spec_eval(l) is Ok,
        spec_eval(r) is Ok,
    ensures
        (spec_eval(Expr::BinaryOp { op: BinOp::Div, left: Box::new(l), right: Box::new(r) })
            == Err::<Number, CalcError>(CalcError::DivisionByZero)) <==> (spec_eval(
            r,
        ) matches Ok(v) && v.num == 0),
{
}

/// Law: the outcome of a calculation is a function of the input text alone —
/// there is no hidden state, so two runs over the same text agree.
pub proof fn lemma_calculate_deterministic(
    s: Seq<char>,
    r1: Result<Number, CalcError>,
    r2: Result<Number, CalcError>,
)
    requires
        r1 == spec_calculate(s),
        r2 == spec_calculate(s),
    ensures
        r1 == r2,
{
}


/// Law: multiplication binds tighter than addition: the token sequence of
/// `x + y * z` parses with the product as the right operand of the sum.
pub proof fn lemma_precedence(x: Number, y: Number, z: Number)
    ensures
        spec_parse_expr(
            seq![
                Token::Number(x),
                Token::Plus,
                Token::Number(y),
                Token::Multiply,
                Token::Number(z),
            ],
        ) == Ok::<(Expr, Seq<Token>), CalcError>(
            (
                Expr::BinaryOp {
                    op: BinOp::Add,
                    left: Box::new(Expr::Number(x)),
                    right: Box::new(
                        Expr::BinaryOp {
                            op: BinOp::Mul,
                            left: Box::new(Expr::Number(y)),
                            right: Box::new(Expr::Number(z)),
                        },
                    ),
                },
                Seq::<Token>::empty(),
            ),
        ),
{
    let t = seq![
        Token::Number(x),
        Token::Plus,
        Token::Number(y),
        Token::Multiply,
        Token::Number(z),
    ];
    let t1 = seq![Token::Plus, Token::Number(y), Token::Multiply, Token::Number(z)];
    let t2 = seq![Token::Number(y), Token::Multiply, Token::Number(z)];
    let t3 = seq![Token::Multiply, Token::Number(z)];
    let t4 = seq![Token::Number(z)];
    let e: Seq<Token> = Seq::empty();
    assert(t.drop_first() =~= t1);
    assert(t1.drop_first() =~= t2);
    assert(t2.drop_first() =~= t3);
    assert(t3.drop_first() =~= t4);
    assert(t4.drop_first() =~= e);
    let nx = Expr::Number(x);
    let ny = Expr::Number(y);
    let nz = Expr::Number(z);
    let prod = Expr::BinaryOp { op: BinOp::Mul, left: Box::new(ny), right: Box::new(nz) };
    assert(spec_parse_primary(t) == Ok::<(Expr, Seq<Token>), CalcError>((nx, t1)));
    assert(spec_parse_mul_div_rest(nx, t1) == Ok::<(Expr, Seq<Token>), CalcError>((nx, t1)));
    assert(spec_parse_mul_div(t) == Ok::<(Expr, Seq<Token>), CalcError>((nx, t1)));
    assert(spec_parse_primary(t2) == Ok::<(Expr, Seq<Token>), CalcError>((ny, t3)));
    assert(spec_parse_primary(t4) == Ok::<(Expr, Seq<Token>), CalcError>((nz, e)));
    assert(spec_parse_mul_div_rest(prod, e) == Ok::<(Expr, Seq<Token>), CalcError>((prod, e)));
    assert(spec_parse_mul_div_rest(ny, t3) == Ok::<(Expr, Seq<Token>), CalcError>((prod, e)));
    assert(spec_parse_mul_div(t2) == Ok::<(Expr, Seq<Token>), CalcError>((prod, e)));
    let total = Expr::BinaryOp { op: BinOp::Add, left: Box::new(nx), right: Box::new(prod) };
    assert(spec_parse_add_sub_rest(total, e) == Ok::<(Expr, Seq<Token>), CalcError>((total, e)));
    assert(spec_parse_add_sub_rest(nx, t1) == Ok::<(Expr, Seq<Token>), CalcError>((total, e)));
    assert(spec_parse_add_sub(t) == Ok::<(Expr, Seq<Token>), CalcError>((total, e)));
}


/// Law: the additive level is left-associative: the token sequence of
/// `x - y - z` parses with the leftmost difference as the left operand.
pub proof fn lemma_left_associative_sub(x: Number, y: Number, z: Number)
    ensures
        spec_parse_expr(
            seq![
                Token::Number(x),
                Token::Minus,
                Token::Number(y),
                Token::Minus,
                Token::Number(z),
            ],
        ) == Ok::<(Expr, Seq<Token>), CalcError>(
            (
                Expr::BinaryOp {
                    op: BinOp::Sub,
                    left: Box::new(
                        Expr::BinaryOp {
                            op: BinOp::Sub,
                            left: Box::new(Expr::Number(x)),
                            right: Box::new(Expr::Number(y)),
                        },
                    ),
                    right: Box::new(Expr::Number(z)),
                },
                Seq::<Token>::empty(),
            ),
        ),
{
    let t = seq![
        Token::Number(x),
        Token::Minus,
        Token::Number(y),
        Token::Minus,
        Token::Number(z),
    ];
    let t1 = seq![Token::Minus, Token::Number(y), Token::Minus, Token::Number(z)];
    let t2 = seq![Token::Number(y), Token::Minus, Token::Number(z)];
    let t3 = seq![Token::Minus, Token::Number(z)];
    let t4 = seq![Token::Number(z)];
    let e: Seq<Token> = Seq::empty();
    assert(t.drop_first() =~= t1);
    assert(t1.drop_first() =~= t2);
    assert(t2.drop_first() =~= t3);
    assert(t3.drop_first() =~= t4);
    assert(t4.drop_first() =~= e);
    let nx = Expr::Number(x);
    let ny = Expr::Number(y);
    let nz = Expr::Number(z);
    assert(spec_parse_primary(t) == Ok::<(Expr, Seq<Token>), CalcError>((nx, t1)));
    assert(spec_parse_mul_div_rest(nx, t1) == Ok::<(Expr, Seq<Token>), CalcError>((nx, t1)));
    assert(spec_parse_mul_div(t) == Ok::<(Expr, Seq<Token>), CalcError>((nx, t1)));
    assert(spec_parse_primary(t2) == Ok::<(Expr, Seq<Token>), CalcError>((ny, t3)));
    assert(spec_parse_mul_div_rest(ny, t3) == Ok::<(Expr, Seq<Token>), CalcError>((ny, t3)));
    assert(spec_parse_mul_div(t2) == Ok::<(Expr, Seq<Token>), CalcError>((ny, t3)));
    let first = Expr::BinaryOp { op: BinOp::Sub, left: Box::new(nx), right: Box::new(ny) };
    assert(spec_parse_primary(t4) == Ok::<(Expr, Seq<Token>), CalcError>((nz, e)));
    assert(spec_parse_mul_div_rest(nz, e) == Ok::<(Expr, Seq<Token>), CalcError>((nz, e)));
    assert(spec_parse_mul_div(t4) == Ok::<(Expr, Seq<Token>), CalcError>((nz, e)));
    let total = Expr::BinaryOp { op: BinOp::Sub, left: Box::new(first), right: Box::new(nz) };
    assert(spec_parse_add_sub_rest(total, e) == Ok::<(Expr, Seq<Token>), CalcError>((total, e)));
    assert(spec_parse_add_sub_rest(first, t3) == Ok::<(Expr, Seq<Token>), CalcError>((total, e)));
    assert(spec_parse_add_sub_rest(nx, t1) == Ok::<(Expr, Seq<Token>), CalcError>((total, e)));
    assert(spec_parse_add_sub(t) == Ok::<(Expr, Seq<Token>), CalcError>((total, e)));
}

/// Law: the multiplicative level is left-associative: the token sequence of
/// `x / y / z` parses with the leftmost quotient as the left operand.
pub proof fn lemma_left_associative_div(x: Number, y: Number, z: Number)
    ensures
        spec_parse_expr(
            seq![
                Token::Number(x),
                Token::Divide,
                Token::Number(y),
                Token::Divide,
                Token::Number(z),
            ],
        ) == Ok::<(Expr, Seq<Token>), CalcError>(
            (
                Expr::BinaryOp {
                    op: BinOp::Div,
                    left: Box::new(
                        Expr::BinaryOp {
                            op: BinOp::Div,
                            left: Box::new(Expr::Number(x)),
                            right: Box::new(Expr::Number(y)),
                        },
                    ),
                    right: Box::new(Expr::Number(z)),
                },
                Seq::<Token>::empty(),
            ),
        ),
{
    let t = seq![
        Token::Number(x),
        Token::Divide,
        Token::Number(y),
        Token::Divide,
        Token::Number(z),
    ];
    let t1 = seq![Token::Divide, Token::Number(y), Token::Divide, Token::Number(z)];
    let t2 = seq![Token::Number(y), Token::Divide, Token::Number(z)];
    let t3 = seq![Token::Divide, Token::Number(z)];
    let t4 = seq![Token::Number(z)];
    let e: Seq<Token> = Seq::empty();
    assert(t.drop_first() =~= t1);
    assert(t1.drop_first() =~= t2);
    assert(t2.drop_first() =~= t3);
    assert(t3.drop_first() =~= t4);
    assert(t4.drop_first() =~= e);
    let nx = Expr::Number(x);
    let ny = Expr::Number(y);
    let nz = Expr::Number(z);
    assert(spec_parse_primary(t) == Ok::<(Expr, Seq<Token>), CalcError>((nx, t1)));
    assert(spec_parse_primary(t2) == Ok::<(Expr, Seq<Token>), CalcError>((ny, t3)));
    assert(spec_parse_primary(t4) == Ok::<(Expr, Seq<Token>), CalcError>((nz, e)));
    let first = Expr::BinaryOp { op: BinOp::Div, left: Box::new(nx), right: Box::new(ny) };
    let total = Expr::BinaryOp { op: BinOp::Div, left: Box::new(first), right: Box::new(nz) };
    assert(spec_parse_mul_div_rest(total, e) == Ok::<(Expr, Seq<Token>), CalcError>((total, e)));
    assert(spec_parse_mul_div_rest(first, t3) == Ok::<(Expr, Seq<Token>), CalcError>((total, e)));
    assert(spec_parse_mul_div_rest(nx, t1) == Ok::<(Expr, Seq<Token>), CalcError>((total, e)));
    assert(spec_parse_mul_div(t) == Ok::<(Expr, Seq<Token>), CalcError>((total, e)));
    assert(spec_parse_add_sub_rest(total, e) == Ok::<(Expr, Seq<Token>), CalcError>((total, e)));
    assert(spec_parse_add_sub(t) == Ok::<(Expr, Seq<Token>), CalcError>((total, e)));
}

/// Law: unary prefixes chain: the token sequences of `--x` and `+-x` parse
/// as nested unary applications.
pub proof fn lemma_unary_chain(x: Number)
    ensures
        spec_parse_expr(seq![Token::Minus, Token::Minus, Token::Number(x)]) == Ok::<
            (Expr, Seq<Token>),
            CalcError,
        >(
            (
                Expr::UnaryOp {
                    op: UnOp::Minus,
                    operand: Box::new(
                        Expr::UnaryOp { op: UnOp::Minus, operand: Box::new(Expr::Number(x)) },
                    ),
                },
                Seq::<Token>::empty(),
            ),
        ),
        spec_parse_expr(seq![Token::Plus, Token::Minus, Token::Number(x)]) == Ok::<
            (Expr, Seq<Token>),
            CalcError,
        >(
            (
                Expr::UnaryOp {
                    op: UnOp::Plus,
                    operand: Box::new(
                        Expr::UnaryOp { op: UnOp::Minus, operand: Box::new(Expr::Number(x)) },
                    ),
                },
                Seq::<Token>::empty(),
            ),
        ),
{
    let nx = Expr::Number(x);
    let e: Seq<Token> = Seq::empty();
    let inner = Expr::UnaryOp { op: UnOp::Minus, operand: Box::new(nx) };
    let ta = seq![Token::Minus, Token::Minus, Token::Number(x)];
    let ta1 = seq![Token::Minus, Token::Number(x)];
    let ta2 = seq![Token::Number(x)];
    assert(ta.drop_first() =~= ta1);
    assert(ta1.drop_first() =~= ta2);
    assert(ta2.drop_first() =~= e);
    assert(spec_parse_primary(ta2) == Ok::<(Expr, Seq<Token>), CalcError>((nx, e)));
    assert(spec_parse_primary(ta1) == Ok::<(Expr, Seq<Token>), CalcError>((inner, e)));
    let mm = Expr::UnaryOp { op: UnOp::Minus, operand: Box::new(inner) };
    assert(spec_parse_primary(ta) == Ok::<(Expr, Seq<Token>), CalcError>((mm, e)));
    assert(spec_parse_mul_div_rest(mm, e) == Ok::<(Expr, Seq<Token>), CalcError>((mm, e)));
    assert(spec_parse_mul_div(ta) == Ok::<(Expr, Seq<Token>), CalcError>((mm, e)));
    assert(spec_parse_add_sub_rest(mm, e) == Ok::<(Expr, Seq<Token>), CalcError>((mm, e)));
    assert(spec_parse_add_sub(ta) == Ok::<(Expr, Seq<Token>), CalcError>((mm, e)));
    let tb = seq![Token::Plus, Token::Minus, Token::Number(x)];
    assert(tb.drop_first() =~= ta1);
    let pm = Expr::UnaryOp { op: UnOp::Plus, operand: Box::new(inner) };
    assert(spec_parse_primary(tb) == Ok::<(Expr, Seq<Token>), CalcError>((pm, e)));
    assert(spec_parse_mul_div_rest(pm, e) == Ok::<(Expr, Seq<Token>), CalcError>((pm, e)));
    assert(spec_parse_mul_div(tb) == Ok::<(Expr, Seq<Token>), CalcError>((pm, e)));
    assert(spec_parse_add_sub_rest(pm, e) == Ok::<(Expr, Seq<Token>), CalcError>((pm, e)));
    assert(spec_parse_add_sub(tb) == Ok::<(Expr, Seq<Token>), CalcError>((pm, e)));
}


/// `s` with one space inserted at position `p`.
pub open spec fn insert_space(s: Seq<char>, p: int) -> Seq<char> {
    s.subrange(0, p) + seq![' '] + s.subrange(p, s.len() as int)
}

/// The insertion point `p` does not split a numeric run of `s`: the
/// characters on its two sides are not both numeric-run characters.
pub open spec fn at_token_boundary(s: Seq<char>, p: int) -> bool {
    !(0 < p < s.len() && is_num_char(s[p - 1]) && is_num_char(s[p]))
}

/// How `insert_space` relates the two strings position by position.
proof fn lemma_insert_space_shape(s: Seq<char>, p: int)
    requires
        0 <= p <= s.len(),
    ensures
        insert_space(s, p).len() == s.len() + 1,
        forall|j: int| 0 <= j < p ==> insert_space(s, p)[j] == s[j],
        insert_space(s, p)[p] == ' ',
        forall|j: int| p <= j < s.len() ==> insert_space(s, p)[j + 1] == s[j],
{
}

/// Past the insertion point, run ends shift with the inserted character.
proof fn lemma_run_end_shift(s: Seq<char>, p: int, i: int)
    requires
        0 <= p <= i <= s.len(),
    ensures
        run_end(insert_space(s, p), i + 1) == run_end(s, i) + 1,
    decreases s.len() - i,
{
    lemma_insert_space_shape(s, p);
    if i < s.len() && is_num_char(s[i]) {
        lemma_run_end_shift(s, p, i + 1);
    }
}

/// Past the insertion point, run scans shift with the inserted character.
proof fn lemma_scan_shift(
    s: Seq<char>,
    p: int,
    j: int,
    end: int,
    acc: int,
    den: int,
    dot: bool,
    has_digit: bool,
)
    requires
        0 <= p <= j <= end <= s.len(),
    ensures
        scan_run(insert_space(s, p), j + 1, end + 1, acc, den, dot, has_digit) == scan_run(
            s,
            j,
            end,
            acc,
            den,
            dot,
            has_digit,
        ),
    decreases end - j,
{
    lemma_insert_space_shape(s, p);
    if j < end {
        let c = s[j];
        if c == '.' {
            if !dot {
                lemma_scan_shift(s, p, j + 1, end, acc, den, true, has_digit);
            }
        } else {
            let acc2 = acc * 10 + digit_val(c);
            let den2 = if dot { den * 10 } else { den };
            if !(acc2 > i64::MAX as int || den2 > i64::MAX as int) {
                lemma_scan_shift(s, p, j + 1, end, acc2, den2, dot, true);
            }
        }
    }
}

/// Past the insertion point, the scan of the longer string from the shifted
/// position is the scan of the shorter one: the space before it is spent and
/// the rest of the text is the same.
proof fn lemma_tokenize_shift(s: Seq<char>, p: int, i: int)
    requires
        0 <= p <= i <= s.len(),
    ensures
        spec_tokenize(insert_space(s, p), i + 1) == spec_tokenize(s, i),
    decreases s.len() - i,
{
    lemma_insert_space_shape(s, p);
    let s2 = insert_space(s, p);
    if i < s.len() {
        let c = s[i];
        if is_num_char(c) {
            lemma_run_end_bounds(s, i + 1);
            lemma_run_end_shift(s, p, i + 1);
            let e0 = run_end(s, i + 1);
            let e = if e0 < i + 1 {
                i + 1
            } else if e0 > s.len() {
                s.len() as int
            } else {
                e0
            };
            assert(e == e0);
            assert(run_end(s2, i + 2) == e0 + 1);
            lemma_scan_shift(s, p, i, e, 0, 1, false, false);
            match scan_run(s, i, e, 0, 1, false, false) {
                Some(v) => {
                    lemma_tokenize_shift(s, p, e);
                },
                None => {},
            }
        } else if c == '+' || c == '-' || c == '*' || c == '/' || c == '(' || c == ')'
            || c == ' ' {
            lemma_tokenize_shift(s, p, i + 1);
        } else {
            assert(s2.len() - (i + 1) == s.len() - i);
        }
    }
}

/// Every character strictly before a run's end belongs to the run.
proof fn lemma_run_chars(s: Seq<char>, i: int, k: int)
    requires
        0 <= i <= k < run_end(s, i),
    ensures
        k < s.len() && is_num_char(s[k]),
    decreases k - i,
{
    if !(i < s.len() && is_num_char(s[i])) {
        assert(run_end(s, i) == i);
    }
    if k > i {
        lemma_run_chars(s, i + 1, k);
    }
}

/// Before a boundary insertion point, a run cannot reach past it.
proof fn lemma_run_end_le(s: Seq<char>, p: int, i: int)
    requires
        0 <= i < p <= s.len(),
        at_token_boundary(s, p),
    ensures
        run_end(s, i) <= p,
{
    lemma_run_end_bounds(s, i);
    if run_end(s, i) > p {
        lemma_run_chars(s, i, p - 1);
        lemma_run_chars(s, i, p);
    }
}

/// Before the insertion point, a run that ends by the insertion point ends at
/// the same place in both strings.
proof fn lemma_run_end_prefix(s: Seq<char>, p: int, i: int)
    requires
        0 <= i <= p <= s.len(),
        run_end(s, i) <= p,
    ensures
        run_end(insert_space(s, p), i) == run_end(s, i),
    decreases p - i,
{
    lemma_insert_space_shape(s, p);
    lemma_run_end_bounds(s, i);
    let s2 = insert_space(s, p);
    if i == p {
        assert(run_end(s, i) == i);
        assert(s2[i] == ' ');
        assert(run_end(s2, i) == i);
    } else {
        if i < s.len() && is_num_char(s[i]) {
            lemma_run_end_prefix(s, p, i + 1);
        } else {
            assert(run_end(s, i) == i);
            assert(run_end(s2, i) == i);
        }
    }
}

/// Before the insertion point, a scan that ends by the insertion point reads
/// the same characters in both strings.
proof fn lemma_scan_prefix(
    s: Seq<char>,
    p: int,
    j: int,
    end: int,
    acc: int,
    den: int,
    dot: bool,
    has_digit: bool,
)
    requires
        0 <= j <= end <= p <= s.len(),
    ensures
        scan_run(insert_space(s, p), j, end, acc, den, dot, has_digit) == scan_run(
            s,
            j,
            end,
            acc,
            den,
            dot,
            has_digit,
        ),
    decreases end - j,
{
    lemma_insert_space_shape(s, p);
    if j < end {
        let c = s[j];
        if c == '.' {
            if !dot {
                lemma_scan_prefix(s, p, j + 1, end, acc, den, true, has_digit);
            }
        } else {
            let acc2 = acc * 10 + digit_val(c);
            let den2 = if dot { den * 10 } else { den };
            if !(acc2 > i64::MAX as int || den2 > i64::MAX as int) {
                lemma_scan_prefix(s, p, j + 1, end, acc2, den2, dot, true);
            }
        }
    }
}

/// The scans of the two strings from the same position `i` before the
/// insertion point agree, as long as the shorter string's scan succeeds.
proof fn lemma_tokenize_insert(s: Seq<char>, p: int, i: int)
    requires
        0 <= i <= p <= s.len(),
        at_token_boundary(s, p),
        spec_tokenize(s, i) is Ok,
    ensures
        spec_tokenize(insert_space(s, p), i) == spec_tokenize(s, i),
    decreases s.len() - i,
{
    lemma_insert_space_shape(s, p);
    let s2 = insert_space(s, p);
    if i == p {
        if i < s.len() {
            assert(s2[i] == ' ');
            assert(!is_num_char(' '));
            lemma_tokenize_shift(s, p, p);
        } else {
            lemma_tokenize_shift(s, p, p);
        }
    } else {
        let c = s[i];
        assert(s2[i] == c);
        if is_num_char(c) {
            lemma_run_end_bounds(s, i + 1);
            let e0 = run_end(s, i + 1);
            assert(run_end(s, i) == e0);
            lemma_run_end_le(s, p, i);
            lemma_run_end_prefix(s, p, i);
            assert(run_end(s2, i) == e0);
            assert(run_end(s2, i + 1) == e0);
            let e = if e0 < i + 1 {
                i + 1
            } else if e0 > s.len() {
                s.len() as int
            } else {
                e0
            };
            assert(e == e0);
            lemma_scan_prefix(s, p, i, e, 0, 1, false, false);
            match scan_run(s, i, e, 0, 1, false, false) {
                Some(v) => {
                    lemma_tokenize_insert(s, p, e);
                },
                None => {},
            }
        } else if c == '+' || c == '-' || c == '*' || c == '/' || c == '(' || c == ')'
            || c == ' ' {
            lemma_tokenize_insert(s, p, i + 1);
        } else {
        }
    }
}

/// Law: whitespace between tokens is insignificant. Inserting a space at any
/// position that does not split a numeric literal leaves a successful
/// calculation's outcome unchanged; spaces only separate tokens.
pub proof fn lemma_space_insensitive(s: Seq<char>, p: int)
    requires
        0 <= p <= s.len(),
        at_token_boundary(s, p),
        spec_tokenize(s, 0) is Ok,
    ensures
        spec_tokenize(insert_space(s, p), 0) == spec_tokenize(s, 0),
        spec_calculate(insert_space(s, p)) == spec_calculate(s),
{
    lemma_tokenize_insert(s, p, 0);
}

} // verus!
