//! Exact rational numbers with `i64` numerator and denominator.
//!
//! A `Number` carries the value `num / den`. Well-formed numbers keep
//! `den >= 1` and exclude `i64::MIN` as a numerator, so that negation never
//! overflows. The arithmetic operations compute in `i128`, which is wide
//! enough to hold every intermediate product exactly, and report `None` when
//! a result does not fit back into the well-formed `i64` range.

use vstd::prelude::*;

verus! {

/// An exact rational number: the value `num / den`.
#[derive(Clone, Copy, Debug, PartialEq, Eq, Structural)]
pub struct Number {
    pub num: i64,
    pub den: i64,
}

/// Bounds on a component of a well-formed `Number`: the symmetric `i64`
/// range, which leaves room for negation.
pub open spec fn in_component_range(x: int) -> bool {
    -(i64::MAX as int) <= x <= i64::MAX as int
}

/// `x * y` of two components stays within `i128` and keeps the expected
/// bounds; products of two positive components stay positive.
proof fn lemma_mul_component_bounds(x: int, y: int, b: int) by (nonlinear_arith)
    requires
        -b <= x <= b,
        -b <= y <= b,
        0 <= b,
    ensures
        -(b * b) <= x * y <= b * b,
        (1 <= x && 1 <= y) ==> 1 <= x * y,
        (1 <= x && y != 0) ==> x * y != 0,
{
}

/// The spec-level arithmetic keeps well-formedness: whenever an operation on
/// well-formed numbers yields a value, that value is well-formed again.
pub proof fn lemma_spec_ops_wf(a: Number, b: Number)
    requires
        a.wf(),
        b.wf(),
    ensures
        a.spec_add(b) matches Some(v) ==> v.wf(),
        a.spec_sub(b) matches Some(v) ==> v.wf(),
        a.spec_mul(b) matches Some(v) ==> v.wf(),
        b.num != 0 ==> (a.spec_div(b) matches Some(v) ==> v.wf()),
{
    lemma_mul_component_bounds(a.den as int, b.den as int, i64::MAX as int);
    lemma_mul_component_bounds(a.den as int, b.num as int, i64::MAX as int);
}

impl Number {
    /// Well-formedness: a positive denominator, and a numerator that can be
    /// negated without overflow.
    pub open spec fn wf(self) -> bool {
        &&& 1 <= self.den
        &&& i64::MIN < self.num
    }

    /// The rational value `self` stands for, as a numerator-denominator pair
    /// of unbounded integers.
    pub open spec fn ratio(self) -> (int, int) {
        (self.num as int, self.den as int)
    }

    /// Two numbers stand for the same rational value.
    pub open spec fn same_value(self, other: Number) -> bool {
        self.num * other.den == other.num * self.den
    }

    /// What `add` returns: the exact sum, or `None` when a component of the
    /// sum falls outside the well-formed range.
    pub open spec fn spec_add(self, other: Number) -> Option<Number> {
        let n = self.num * other.den + other.num * self.den;
        let d = self.den * other.den;
        if in_component_range(n) && d <= i64::MAX as int {
            Some(Number { num: n as i64, den: d as i64 })
        } else {
            None
        }
    }

    /// What `sub` returns: the exact difference, or `None` out of range.
    pub open spec fn spec_sub(self, other: Number) -> Option<Number> {
        let n = self.num * other.den - other.num * self.den;
        let d = self.den * other.den;
        if in_component_range(n) && d <= i64::MAX as int {
            Some(Number { num: n as i64, den: d as i64 })
        } else {
            None
        }
    }

    /// What `mul` returns: the exact product, or `None` out of range.
    pub open spec fn spec_mul(self, other: Number) -> Option<Number> {
        let n = self.num * other.num;
        let d = self.den * other.den;
        if in_component_range(n) && d <= i64::MAX as int {
            Some(Number { num: n as i64, den: d as i64 })
        } else {
            None
        }
    }

    /// What `div` returns for a non-zero divisor: the exact quotient with the
    /// denominator kept positive, or `None` out of range.
    pub open spec fn spec_div(self, other: Number) -> Option<Number> {
        let n0 = self.num * other.den;
        let d0 = self.den * other.num;
        let n = if d0 < 0 { -n0 } else { n0 };
        let d = if d0 < 0 { -d0 } else { d0 };
        if in_component_range(n) && d <= i64::MAX as int {
            Some(Number { num: n as i64, den: d as i64 })
        } else {
            None
        }
    }

    /// The negation of `self`: exact, always representable.
    pub open spec fn spec_neg(self) -> Number {
        Number { num: (-self.num) as i64, den: self.den }
    }

    /// The whole number `v`.
    pub fn from_int(v: i64) -> (r: Number)
        requires
            i64::MIN < v,
        ensures
            r.wf(),
            r.num == v,
            r.den == 1,
    {
        Number { num: v, den: 1 }
    }

    /// The numerator component.
    pub fn numer(&self) -> (r: i64)
        ensures
            r == self.num,
    {
        self.num
    }

    /// The denominator component.
    pub fn denom(&self) -> (r: i64)
        ensures
            r == self.den,
    {
        self.den
    }

    /// Exact addition.
    pub fn add(self, other: Number) -> (r: Option<Number>)
        requires
            self.wf(),
            other.wf(),
        ensures
            r == self.spec_add(other),
            r matches Some(v) ==> v.wf(),
    {
        proof {
            lemma_mul_component_bounds(self.num as int, other.den as int, i64::MAX as int);
            lemma_mul_component_bounds(other.num as int, self.den as int, i64::MAX as int);
            lemma_mul_component_bounds(self.den as int, other.den as int, i64::MAX as int);
        }
        let n: i128 = (self.num as i128) * (other.den as i128)
            + (other.num as i128) * (self.den as i128);
        let d: i128 = (self.den as i128) * (other.den as i128);
        if n < -(i64::MAX as i128) || n > i64::MAX as i128 || d > i64::MAX as i128 {
            None
        } else {
            Some(Number { num: n as i64, den: d as i64 })
        }
    }

    /// Exact subtraction.
    pub fn sub(self, other: Number) -> (r: Option<Number>)
        requires
            self.wf(),
            other.wf(),
        ensures
            r == self.spec_sub(other),
            r matches Some(v) ==> v.wf(),
    {
        proof {
            lemma_mul_component_bounds(self.num as int, other.den as int, i64::MAX as int);
            lemma_mul_component_bounds(other.num as int, self.den as int, i64::MAX as int);
            lemma_mul_component_bounds(self.den as int, other.den as int, i64::MAX as int);
        }
        let n: i128 = (self.num as i128) * (other.den as i128)
            - (other.num as i128) * (self.den as i128);
        let d: i128 = (self.den as i128) * (other.den as i128);
        if n < -(i64::MAX as i128) || n > i64::MAX as i128 || d > i64::MAX as i128 {
            None
        } else {
            Some(Number { num: n as i64, den: d as i64 })
        }
    }

    /// Exact multiplication.
    pub fn mul(self, other: Number) -> (r: Option<Number>)
        requires
            self.wf(),
            other.wf(),
        ensures
            r == self.spec_mul(other),
            r matches Some(v) ==> v.wf(),
    {
        proof {
            lemma_mul_component_bounds(self.num as int, other.num as int, i64::MAX as int);
            lemma_mul_component_bounds(self.den as int, other.den as int, i64::MAX as int);
        }
        let n: i128 = (self.num as i128) * (other.num as i128);
        let d: i128 = (self.den as i128) * (other.den as i128);
        if n < -(i64::MAX as i128) || n > i64::MAX as i128 || d > i64::MAX as i128 {
            None
        } else {
            Some(Number { num: n as i64, den: d as i64 })
        }
    }

    /// Exact division by a non-zero number; the result's denominator is kept
    /// positive.
    pub fn div(self, other: Number) -> (r: Option<Number>)
        requires
            self.wf(),
            other.wf(),
            other.num != 0,
        ensures
            r == self.spec_div(other),
            r matches Some(v) ==> v.wf(),
    {
        proof {
            lemma_mul_component_bounds(self.num as int, other.den as int, i64::MAX as int);
            lemma_mul_component_bounds(self.den as int, other.num as int, i64::MAX as int);
        }
        let n0: i128 = (self.num as i128) * (other.den as i128);
        let d0: i128 = (self.den as i128) * (other.num as i128);
        let n: i128 = if d0 < 0 { -n0 } else { n0 };
        let d: i128 = if d0 < 0 { -d0 } else { d0 };
        if n < -(i64::MAX as i128) || n > i64::MAX as i128 || d > i64::MAX as i128 {
            None
        } else {
            Some(Number { num: n as i64, den: d as i64 })
        }
    }

    /// Exact negation.
    pub fn neg(self) -> (r: Number)
        requires
            self.wf(),
        ensures
            r == self.spec_neg(),
            r.wf(),
    {
        Number { num: -self.num, den: self.den }
    }

    /// Whether `self` and `other` stand for the same rational value,
    /// decided by cross-multiplication.
    pub fn eq_value(&self, other: &Number) -> (r: bool)
        requires
            self.wf(),
            other.wf(),
        ensures
            r == self.same_value(*other),
    {
        proof {
            lemma_mul_component_bounds(self.num as int, other.den as int, i64::MAX as int);
            lemma_mul_component_bounds(other.num as int, self.den as int, i64::MAX as int);
        }
        (self.num as i128) * (other.den as i128) == (other.num as i128) * (self.den as i128)
    }
}

} // verus!
