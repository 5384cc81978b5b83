//! Exact rational money values.
//!
//! A `Money` value is a fraction `num / den` with a positive denominator.
//! Executable arithmetic is exact: intermediate products are taken in
//! 128-bit integers (a product of two 64-bit values always fits), and an
//! operation returns `None` exactly when the mathematical result does not
//! fit back into 64-bit numerator and denominator.

use vstd::prelude::*;

verus! {

/// The mathematical value of a `Money`: an unbounded fraction.
pub struct Rational {
    pub num: int,
    pub den: int,
}

/// Exact rational amount, `num / den`; well-formed when `den > 0`.
#[derive(Clone, Copy, Debug, PartialEq, Eq, Structural)]
pub struct Money {
    pub num: i64,
    pub den: i64,
}

impl View for Money {
    type V = Rational;

    open spec fn view(&self) -> Rational {
        Rational { num: self.num as int, den: self.den as int }
    }
}

pub open spec fn rat_wf(a: Rational) -> bool {
    a.den > 0
}

pub open spec fn rat_zero() -> Rational {
    Rational { num: 0, den: 1 }
}

/// Value equality of two fractions, by cross-multiplication.
/// Meaningful when both denominators are positive.
pub open spec fn rat_eq(a: Rational, b: Rational) -> bool {
    a.num * b.den == b.num * a.den
}

/// Value ordering of two fractions, by cross-multiplication.
/// Meaningful when both denominators are positive.
pub open spec fn rat_le(a: Rational, b: Rational) -> bool {
    a.num * b.den <= b.num * a.den
}

pub open spec fn rat_add(a: Rational, b: Rational) -> Rational {
    Rational { num: a.num * b.den + b.num * a.den, den: a.den * b.den }
}

pub open spec fn rat_sub(a: Rational, b: Rational) -> Rational {
    Rational { num: a.num * b.den - b.num * a.den, den: a.den * b.den }
}

pub open spec fn rat_mul_int(a: Rational, k: int) -> Rational {
    Rational { num: a.num * k, den: a.den }
}

/// Division by an integer; meaningful for `k > 0`.
pub open spec fn rat_div_int(a: Rational, k: int) -> Rational {
    Rational { num: a.num, den: a.den * k }
}

pub open spec fn in_i64_range(x: int) -> bool {
    i64::MIN <= x <= i64::MAX
}

/// Whether a mathematical fraction is representable as a `Money`.
pub open spec fn rat_fits(a: Rational) -> bool {
    in_i64_range(a.num) && in_i64_range(a.den)
}

/// Value ordering of well-formed fractions is transitive.
pub proof fn lemma_rat_le_trans(a: Rational, b: Rational, c: Rational)
    requires
        rat_wf(a),
        rat_wf(b),
        rat_wf(c),
        rat_le(a, b),
        rat_le(b, c),
    ensures
        rat_le(a, c),
{
    assert(a.num * c.den <= c.num * a.den) by (nonlinear_arith)
        requires
            a.den > 0,
            b.den > 0,
            c.den > 0,
            a.num * b.den <= b.num * a.den,
            b.num * c.den <= c.num * b.den,
    ;
}

/// The product of two 64-bit values always fits in 128 bits.
proof fn lemma_i64_product_in_i128(a: int, b: int)
    requires
        in_i64_range(a),
        in_i64_range(b),
    ensures
        i128::MIN <= a * b <= i128::MAX,
{
    assert(i128::MIN <= a * b <= i128::MAX) by (nonlinear_arith)
        requires
            -0x8000_0000_0000_0000 <= a <= 0x7fff_ffff_ffff_ffff,
            -0x8000_0000_0000_0000 <= b <= 0x7fff_ffff_ffff_ffff,
    ;
}

/// Exact product of two 64-bit values, in 128 bits.
fn mul_wide(a: i64, b: i64) -> (r: i128)
    ensures
        r == a * b,
{
    proof {
        lemma_i64_product_in_i128(a as int, b as int);
    }
    (a as i128) * (b as i128)
}

/// Narrow an exact 128-bit value back to 64 bits, or report that it
/// does not fit.
fn narrow(w: i128) -> (r: Option<i64>)
    ensures
        r matches Some(v) ==> v == w,
        r is Some <==> in_i64_range(w as int),
{
    if w < i64::MIN as i128 || w > i64::MAX as i128 {
        None
    } else {
        Some(w as i64)
    }
}

impl Money {
    /// A well-formed `Money` has a positive denominator.
    pub open spec fn wf(&self) -> bool {
        self.den > 0
    }

    /// Whole amount `n`, as the fraction `n / 1`.
    pub fn from_int(n: i64) -> (r: Money)
        ensures
            r@ == (Rational { num: n as int, den: 1int }),
            r.wf(),
    {
        Money { num: n, den: 1 }
    }

    /// The fraction `num / den`; `None` exactly when `den` is not positive.
    pub fn new(num: i64, den: i64) -> (r: Option<Money>)
        ensures
            r matches Some(m) ==> m@ == (Rational { num: num as int, den: den as int }) && m.wf(),
            r is Some <==> den > 0,
    {
        if den > 0 {
            Some(Money { num, den })
        } else {
            None
        }
    }

    /// Exact sum; `None` exactly when the result does not fit.
    pub fn add_rat(&self, other: &Money) -> (r: Option<Money>)
        ensures
            r matches Some(m) ==> m@ == rat_add(self@, other@),
            r is Some <==> rat_fits(rat_add(self@, other@)),
            r matches Some(m) ==> (self.wf() && other.wf() ==> m.wf()),
    {
        let p1: i128 = mul_wide(self.num, other.den);
        let p2: i128 = mul_wide(other.num, self.den);
        let num_wide: i128 = match p1.checked_add(p2) {
            Some(s) => s,
            None => {
                // The true numerator has magnitude at least 2^127, far
                // outside the 64-bit range.
                return None;
            },
        };
        let den_wide: i128 = mul_wide(self.den, other.den);
        let num: i64 = match narrow(num_wide) {
            Some(v) => v,
            None => {
                return None;
            },
        };
        let den: i64 = match narrow(den_wide) {
            Some(v) => v,
            None => {
                return None;
            },
        };
        proof {
            if self.wf() && other.wf() {
                assert(self.den as int * other.den as int > 0) by (nonlinear_arith)
                    requires
                        self.den > 0,
                        other.den > 0,
                ;
            }
        }
        Some(Money { num, den })
    }

    /// Exact difference; `None` exactly when the result does not fit.
    pub fn sub_rat(&self, other: &Money) -> (r: Option<Money>)
        ensures
            r matches Some(m) ==> m@ == rat_sub(self@, other@),
            r is Some <==> rat_fits(rat_sub(self@, other@)),
            r matches Some(m) ==> (self.wf() && other.wf() ==> m.wf()),
    {
        let p1: i128 = mul_wide(self.num, other.den);
        let p2: i128 = mul_wide(other.num, self.den);
        let num_wide: i128 = match p1.checked_sub(p2) {
            Some(s) => s,
            None => {
                return None;
            },
        };
        let den_wide: i128 = mul_wide(self.den, other.den);
        let num: i64 = match narrow(num_wide) {
            Some(v) => v,
            None => {
                return None;
            },
        };
        let den: i64 = match narrow(den_wide) {
            Some(v) => v,
            None => {
                return None;
            },
        };
        proof {
            if self.wf() && other.wf() {
                assert(self.den as int * other.den as int > 0) by (nonlinear_arith)
                    requires
                        self.den > 0,
                        other.den > 0,
                ;
            }
        }
        Some(Money { num, den })
    }

    /// Exact product with an integer; `None` exactly when the result
    /// does not fit.
    pub fn mul_int(&self, k: i64) -> (r: Option<Money>)
        ensures
            r matches Some(m) ==> m@ == rat_mul_int(self@, k as int),
            r is Some <==> in_i64_range(self@.num * k),
            r matches Some(m) ==> (self.wf() ==> m.wf()),
    {
        let num_wide: i128 = mul_wide(self.num, k);
        match narrow(num_wide) {
            Some(num) => Some(Money { num, den: self.den }),
            None => None,
        }
    }

    /// Exact quotient by a positive integer; `None` exactly when `k` is
    /// not positive or the denominator would not fit.
    pub fn div_int(&self, k: i64) -> (r: Option<Money>)
        ensures
            r matches Some(m) ==> m@ == rat_div_int(self@, k as int),
            r is Some <==> k > 0 && in_i64_range(self@.den * k),
            r matches Some(m) ==> (self.wf() ==> m.wf()),
    {
        if k <= 0 {
            return None;
        }
        let den_wide: i128 = mul_wide(self.den, k);
        proof {
            if self.wf() {
                assert(self.den as int * k as int > 0) by (nonlinear_arith)
                    requires
                        self.den > 0,
                        k > 0,
                ;
            }
        }
        match narrow(den_wide) {
            Some(den) => Some(Money { num: self.num, den }),
            None => None,
        }
    }

    /// Exact value ordering; total and overflow-free.
    pub fn le(&self, other: &Money) -> (r: bool)
        ensures
            r == rat_le(self@, other@),
    {
        let p1: i128 = mul_wide(self.num, other.den);
        let p2: i128 = mul_wide(other.num, self.den);
        p1 <= p2
    }

    /// Exact value equality; total and overflow-free.
    pub fn eq_rat(&self, other: &Money) -> (r: bool)
        ensures
            r == rat_eq(self@, other@),
    {
        let p1: i128 = mul_wide(self.num, other.den);
        let p2: i128 = mul_wide(other.num, self.den);
        p1 == p2
    }
}

} // verus!
