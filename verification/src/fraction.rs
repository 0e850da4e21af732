//! The mathematical model of an exact value: a fraction of two integers,
//! with the arithmetic, the order and the reduction to lowest terms that the
//! executable type is specified against.

use crate::numbers::{abs, gcd, lemma_coprime_divides_product, lemma_gcd_positive};
use vstd::prelude::*;

verus! {

/// A fraction of two mathematical integers.
pub struct Fraction {
    pub num: int,
    pub den: int,
}

impl Fraction {
    /// Lowest terms with the sign carried by the numerator.
    pub open spec fn is_reduced(self) -> bool {
        self.den > 0 && gcd(abs(self.num), abs(self.den)) == 1
    }

    /// Both parts can be stored: the numerator in 32 signed bits, the
    /// denominator as a positive number of that width.
    pub open spec fn fits(self) -> bool {
        i32::MIN <= self.num <= i32::MAX && 0 < self.den <= i32::MAX
    }

    /// The same value in lowest terms (for a positive denominator).
    pub open spec fn reduced(self) -> Fraction {
        let g = gcd(abs(self.num), abs(self.den)) as int;
        Fraction { num: self.num / g, den: self.den / g }
    }

    /// The same value with a positive denominator (for a non-zero one).
    pub open spec fn sign_normalized(self) -> Fraction {
        if self.den < 0 {
            Fraction { num: -self.num, den: -self.den }
        } else {
            self
        }
    }

    /// Equality of values, by cross-multiplication.
    pub open spec fn same_value(self, other: Fraction) -> bool {
        self.num * other.den == other.num * self.den
    }

    /// Strict order of values, by cross-multiplication (for positive
    /// denominators).
    pub open spec fn less_than(self, other: Fraction) -> bool {
        self.num * other.den < other.num * self.den
    }

    /// Order of values, by cross-multiplication (for positive denominators).
    pub open spec fn at_most(self, other: Fraction) -> bool {
        self.num * other.den <= other.num * self.den
    }

    /// The fraction of an integer.
    pub open spec fn of_int(n: int) -> Fraction {
        Fraction { num: n, den: 1 }
    }

    /// Cross-multiplied sum, not reduced.
    pub open spec fn plus(self, other: Fraction) -> Fraction {
        Fraction { num: self.num * other.den + other.num * self.den, den: self.den * other.den }
    }

    /// Cross-multiplied difference, not reduced.
    pub open spec fn minus(self, other: Fraction) -> Fraction {
        Fraction { num: self.num * other.den - other.num * self.den, den: self.den * other.den }
    }

    /// Product, not reduced.
    pub open spec fn times(self, other: Fraction) -> Fraction {
        Fraction { num: self.num * other.num, den: self.den * other.den }
    }

    /// Quotient by a non-zero fraction, not reduced, with a positive
    /// denominator.
    pub open spec fn over(self, other: Fraction) -> Fraction {
        Fraction { num: self.num * other.den, den: self.den * other.num }.sign_normalized()
    }
}

/// Reduction keeps the value and yields lowest terms.
pub proof fn lemma_reduced_is_reduced(f: Fraction)
    requires
        f.den > 0,
    ensures
        f.reduced().is_reduced(),
        f.reduced().same_value(f),
        0 < f.reduced().den <= f.den,
        abs(f.reduced().num) <= abs(f.num),
{
    let a = abs(f.num);
    let b = abs(f.den);
    let g = gcd(a, b);
    lemma_gcd_positive(a, b);
    crate::numbers::lemma_gcd_divides(a, b);
    crate::numbers::lemma_gcd_of_quotients(a, b);
    vstd::arithmetic::div_mod::lemma_fundamental_div_mod(a as int, g as int);
    vstd::arithmetic::div_mod::lemma_fundamental_div_mod(b as int, g as int);
    let qa = (a / g) as int;
    let qb = (b / g) as int;
    let gi = g as int;
    assert(a as int == gi * qa);
    assert(f.den == gi * qb);
    assert(0 < qb <= f.den) by (nonlinear_arith)
        requires
            f.den == gi * qb,
            f.den > 0,
            gi > 0,
    ;
    assert(0 <= qa <= a) by (nonlinear_arith)
        requires
            a as int == gi * qa,
            a >= 0,
            gi > 0,
    ;
    if f.num >= 0 {
        assert(f.num / gi == qa);
    } else {
        assert(f.num == (-qa) * gi + 0) by (nonlinear_arith)
            requires
                -f.num == gi * qa,
        ;
        vstd::arithmetic::div_mod::lemma_fundamental_div_mod_converse(f.num, gi, -qa, 0);
        assert(f.num / gi == -qa);
    }
    let r = f.reduced();
    assert(r.den == qb);
    assert(abs(r.num) == qa);
    assert(abs(r.den) == qb);
    assert(r.num * f.den == f.num * r.den) by (nonlinear_arith)
        requires
            f.den == gi * qb,
            r.den == qb,
            (f.num >= 0 && f.num == gi * qa && r.num == qa) || (f.num < 0 && -f.num == gi * qa
                && r.num == -qa),
    ;
}

/// Two fractions in lowest terms that have the same value are the same
/// fraction.
pub proof fn lemma_reduced_is_unique(p: Fraction, q: Fraction)
    requires
        p.is_reduced(),
        q.is_reduced(),
        p.same_value(q),
    ensures
        p == q,
{
    // gcd(p.den, |p.num|) may be stated either way round: use the symmetric
    // consequence of it, that p.den divides q.den and q.den divides p.den.
    let (sp, np) = if p.num < 0 {
        (-1int, -p.num)
    } else {
        (1int, p.num)
    };
    let (sq, nq) = if q.num < 0 {
        (-1int, -q.num)
    } else {
        (1int, q.num)
    };
    assert(abs(p.num) == np && abs(q.num) == nq);
    assert(abs(p.den) == p.den && abs(q.den) == q.den);
    // p.num * q.den == q.num * p.den, so  np * (sp * q.den) == p.den * (q.num)
    lemma_gcd_symmetric(abs(p.num), abs(p.den));
    lemma_gcd_symmetric(abs(q.num), abs(q.den));
    assert((np as nat) * (sp * q.den) == (p.den as nat) * q.num) by (nonlinear_arith)
        requires
            p.num * q.den == q.num * p.den,
            p.num == sp * np,
            np >= 0,
            p.den > 0,
    ;
    let m1 = lemma_coprime_divides_product(p.den as nat, np as nat, sp * q.den, q.num);
    assert(sp * q.den == p.den * m1);
    assert((nq as nat) * (sq * p.den) == (q.den as nat) * p.num) by (nonlinear_arith)
        requires
            p.num * q.den == q.num * p.den,
            q.num == sq * nq,
            nq >= 0,
            q.den > 0,
    ;
    let m2 = lemma_coprime_divides_product(q.den as nat, nq as nat, sq * p.den, p.num);
    assert(sq * p.den == q.den * m2);
    assert(p.den == q.den) by (nonlinear_arith)
        requires
            sp * q.den == p.den * m1,
            sq * p.den == q.den * m2,
            sp == 1 || sp == -1,
            sq == 1 || sq == -1,
            p.den > 0,
            q.den > 0,
    ;
    assert(p.num == q.num) by (nonlinear_arith)
        requires
            p.num * q.den == q.num * p.den,
            p.den == q.den,
            p.den > 0,
    ;
}

/// The greatest common divisor does not depend on the order of the numbers.
pub proof fn lemma_gcd_symmetric(a: nat, b: nat)
    ensures
        gcd(a, b) == gcd(b, a),
{
    if a == 0 || b == 0 {
        // gcd(0, b) == gcd(b, 0 % b) == gcd(b, 0) == b
        if a == 0 && b != 0 {
            assert(0nat % b == 0) by {
                vstd::arithmetic::div_mod::lemma_small_mod(0, b);
            }
            assert(gcd(a, b) == gcd(b, 0));
        }
        if b == 0 && a != 0 {
            assert(0nat % a == 0) by {
                vstd::arithmetic::div_mod::lemma_small_mod(0, a);
            }
            assert(gcd(b, a) == gcd(a, 0));
        }
    } else if a == b {
    } else if a < b {
        // gcd(a, b) == gcd(b, a % b) == gcd(b, a)
        vstd::arithmetic::div_mod::lemma_small_mod(a, b);
        assert(gcd(a, b) == gcd(b, a));
    } else {
        vstd::arithmetic::div_mod::lemma_small_mod(b, a);
        assert(gcd(b, a) == gcd(a, b));
    }
}

/// Exactly one of "less", "same value" and "greater" holds of two fractions.
pub proof fn lemma_order_is_total(p: Fraction, q: Fraction)
    ensures
        p.less_than(q) || p.same_value(q) || q.less_than(p),
        !(p.less_than(q) && p.same_value(q)),
        !(p.less_than(q) && q.less_than(p)),
        !(p.same_value(q) && q.less_than(p)),
        p.at_most(q) <==> p.less_than(q) || p.same_value(q),
{
}

/// The strict order of values is transitive.
pub proof fn lemma_less_than_is_transitive(p: Fraction, q: Fraction, r: Fraction)
    requires
        p.den > 0,
        q.den > 0,
        r.den > 0,
        p.less_than(q),
        q.less_than(r),
    ensures
        p.less_than(r),
{
    assert(p.num * r.den < r.num * p.den) by (nonlinear_arith)
        requires
            p.den > 0,
            q.den > 0,
            r.den > 0,
            p.num * q.den < q.num * p.den,
            q.num * r.den < r.num * q.den,
    ;
}

/// The order of values is transitive.
pub proof fn lemma_at_most_is_transitive(p: Fraction, q: Fraction, r: Fraction)
    requires
        p.den > 0,
        q.den > 0,
        r.den > 0,
        p.at_most(q),
        q.at_most(r),
    ensures
        p.at_most(r),
{
    assert(p.num * r.den <= r.num * p.den) by (nonlinear_arith)
        requires
            p.den > 0,
            q.den > 0,
            r.den > 0,
            p.num * q.den <= q.num * p.den,
            q.num * r.den <= r.num * q.den,
    ;
}

} // verus!
