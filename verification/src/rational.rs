//! The exact value: a fraction of two 32-bit integers, always in lowest
//! terms, whose arithmetic reports an overflow instead of wrapping.

use crate::fraction::{lemma_reduced_is_reduced, Fraction};
use crate::numbers::{abs, gcd, gcd_u64, lemma_gcd_divides, lemma_gcd_positive};
use vstd::prelude::*;

verus! {

/// Why an operation on exact values has no result.
#[derive(Clone, Copy, Debug, PartialEq, Eq, Structural)]
pub enum ArithmeticError {
    /// A cross-multiplied numerator or denominator cannot be stored.
    Overflow,
    /// The divisor, or a denominator, is zero.
    DivisionByZero,
}

/// An exact value: a signed numerator over a positive denominator, in lowest
/// terms.
#[derive(Clone, Copy, Debug, PartialEq, Eq, Structural)]
pub struct Rational {
    numer: i32,
    denom: i32,
}

impl View for Rational {
    type V = Fraction;

    closed spec fn view(&self) -> Fraction {
        Fraction { num: self.numer as int, den: self.denom as int }
    }
}

/// What an operation returns whose cross-multiplied result is `raw` (with a
/// positive denominator): the reduced fraction if `raw` can be stored, an
/// overflow otherwise.
pub open spec fn stored(raw: Fraction) -> Result<Fraction, ArithmeticError> {
    if raw.fits() {
        Ok(raw.reduced())
    } else {
        Err(ArithmeticError::Overflow)
    }
}

/// The model of a result: the view of the value, or the error.
pub open spec fn result_view(r: Result<Rational, ArithmeticError>) -> Result<
    Fraction,
    ArithmeticError,
> {
    match r {
        Ok(v) => Ok(v@),
        Err(e) => Err(e),
    }
}

/// What `Rational::new` returns for a numerator and a denominator.
pub open spec fn new_spec(numer: int, denom: int) -> Result<Fraction, ArithmeticError> {
    if denom == 0 {
        Err(ArithmeticError::DivisionByZero)
    } else {
        stored(Fraction { num: numer, den: denom }.sign_normalized())
    }
}

/// What `checked_div` returns.
pub open spec fn div_spec(a: Fraction, b: Fraction) -> Result<Fraction, ArithmeticError> {
    if b.num == 0 {
        Err(ArithmeticError::DivisionByZero)
    } else {
        stored(a.over(b))
    }
}

/// What an operation stores is in lowest terms with a positive
/// denominator, can be stored, and has the value of the cross-multiplied
/// result.
pub proof fn lemma_stored_is_reduced(raw: Fraction)
    requires
        stored(raw) is Ok,
    ensures
        stored(raw)->Ok_0.is_reduced(),
        stored(raw)->Ok_0.fits(),
        stored(raw)->Ok_0.same_value(raw),
{
    lemma_reduced_is_reduced(raw);
    let r = raw.reduced();
    assert((raw.num < 0 ==> r.num < 0) && (raw.num >= 0 ==> r.num >= 0)) by (nonlinear_arith)
        requires
            r.num * raw.den == raw.num * r.den,
            raw.den > 0,
            r.den > 0,
    ;
}

/// After every arithmetic operation that has a result, the greatest common
/// divisor of the numerator's magnitude and the denominator is one and the
/// denominator is positive.
pub proof fn lemma_arithmetic_keeps_lowest_terms(a: Fraction, b: Fraction)
    ensures
        stored(a.plus(b)) matches Ok(r) ==> gcd(abs(r.num), abs(r.den)) == 1 && r.den > 0,
        stored(a.minus(b)) matches Ok(r) ==> gcd(abs(r.num), abs(r.den)) == 1 && r.den > 0,
        stored(a.times(b)) matches Ok(r) ==> gcd(abs(r.num), abs(r.den)) == 1 && r.den > 0,
        div_spec(a, b) matches Ok(r) ==> gcd(abs(r.num), abs(r.den)) == 1 && r.den > 0,
        new_spec(a.num, a.den) matches Ok(r) ==> gcd(abs(r.num), abs(r.den)) == 1 && r.den > 0,
{
    if stored(a.plus(b)) is Ok {
        lemma_stored_is_reduced(a.plus(b));
    }
    if stored(a.minus(b)) is Ok {
        lemma_stored_is_reduced(a.minus(b));
    }
    if stored(a.times(b)) is Ok {
        lemma_stored_is_reduced(a.times(b));
    }
    if div_spec(a, b) is Ok {
        lemma_stored_is_reduced(a.over(b));
    }
    if new_spec(a.num, a.den) is Ok {
        lemma_stored_is_reduced(a.sign_normalized());
    }
}

/// An exact value is determined by the fraction that it stands for.
pub proof fn lemma_rational_is_its_view(a: Rational, b: Rational)
    requires
        a@ == b@,
    ensures
        a == b,
{
}

/// The fraction of a whole number is in lowest terms.
pub proof fn lemma_of_int_is_reduced(n: int)
    ensures
        Fraction::of_int(n).is_reduced(),
        Fraction::of_int(n).reduced() == Fraction::of_int(n),
{
    let a = abs(n);
    assert(gcd(a, 1) == gcd(1, a % 1));
    assert(a % 1 == 0);
    assert(gcd(1, 0) == 1);
}

/// Reduces a fraction with a positive denominator, or reports that it cannot
/// be stored.
pub(crate) fn store(n: i64, d: i64) -> (r: Result<Rational, ArithmeticError>)
    requires
        d > 0,
        i64::MIN < n,
    ensures
        result_view(r) == stored(Fraction { num: n as int, den: d as int }),
        r matches Ok(v) ==> v.wf(),
{
    if n < -2147483648 || n > 2147483647 || d > 2147483647 {
        return Err(ArithmeticError::Overflow);
    }
    let ghost raw = Fraction { num: n as int, den: d as int };
    let negative = n < 0;
    let magnitude: u64 = if negative {
        (-n) as u64
    } else {
        n as u64
    };
    let divisor: u64 = d as u64;
    let g: u64 = gcd_u64(magnitude, divisor);
    proof {
        assert(magnitude as nat == abs(raw.num));
        assert(divisor as nat == abs(raw.den));
        lemma_gcd_positive(magnitude as nat, divisor as nat);
        lemma_gcd_divides(magnitude as nat, divisor as nat);
        lemma_reduced_is_reduced(raw);
        vstd::arithmetic::div_mod::lemma_fundamental_div_mod(magnitude as int, g as int);
    }
    let qn: u64 = magnitude / g;
    let qd: u64 = divisor / g;
    proof {
        assert(qd as int == raw.reduced().den);
        assert(qn as int * g as int == magnitude as int) by (nonlinear_arith)
            requires
                magnitude as int == (g as int) * ((magnitude as int) / (g as int)) + (magnitude
                    as int) % (g as int),
                (magnitude as int) % (g as int) == 0,
                qn as int == (magnitude as int) / (g as int),
        ;
        assert(qn <= magnitude) by (nonlinear_arith)
            requires
                qn as int * g as int == magnitude as int,
                g > 0,
        ;
        if negative {
            assert(raw.num == -(qn as int) * (g as int) + 0) by (nonlinear_arith)
                requires
                    qn as int * g as int == magnitude as int,
                    raw.num == -(magnitude as int),
            ;
            vstd::arithmetic::div_mod::lemma_fundamental_div_mod_converse(
                raw.num,
                g as int,
                -(qn as int),
                0,
            );
        }
    }
    let numer: i32 = if negative {
        (-(qn as i64)) as i32
    } else {
        qn as i32
    };
    assert(numer as int == raw.reduced().num);
    Ok(Rational { numer, denom: qd as i32 })
}

impl Rational {
    /// The invariant of the type: lowest terms, positive denominator, both
    /// parts within 32 signed bits.
    #[verifier::type_invariant]
    pub open spec fn wf(self) -> bool {
        self@.is_reduced() && self@.fits()
    }

    /// The exact value `numer / denom`, reduced to lowest terms.
    ///
    /// A zero denominator is a division by zero. A negative denominator
    /// moves its sign to the numerator first; a part that cannot be stored
    /// after that is an overflow.
    pub fn new(numer: i32, denom: i32) -> (r: Result<Rational, ArithmeticError>)
        ensures
            result_view(r) == new_spec(numer as int, denom as int),
            r matches Ok(v) ==> v.wf(),
    {
        if denom == 0 {
            return Err(ArithmeticError::DivisionByZero);
        }
        let n: i64 = numer as i64;
        let d: i64 = denom as i64;
        if d < 0 {
            store(-n, -d)
        } else {
            store(n, d)
        }
    }

    /// The exact value of a whole number.
    pub fn from_integer(n: i32) -> (r: Rational)
        ensures
            r@ == Fraction::of_int(n as int),
            r.wf(),
    {
        proof {
            lemma_of_int_is_reduced(n as int);
        }
        Rational { numer: n, denom: 1 }
    }

    /// Zero.
    pub fn zero() -> (r: Rational)
        ensures
            r@ == Fraction::of_int(0),
            r.wf(),
    {
        Rational::from_integer(0)
    }

    /// The numerator, which carries the sign.
    pub fn numer(&self) -> (n: i32)
        ensures
            n == self@.num,
    {
        self.numer
    }

    /// The denominator, which is positive.
    pub fn denom(&self) -> (d: i32)
        ensures
            d == self@.den,
            d > 0,
    {
        proof {
            use_type_invariant(self);
        }
        self.denom
    }

    /// Sum of two exact values: an overflow if the cross-multiplied
    /// numerator or denominator cannot be stored.
    pub fn checked_add(&self, other: &Rational) -> (r: Result<Rational, ArithmeticError>)
        ensures
            result_view(r) == stored(self@.plus(other@)),
            r matches Ok(v) ==> v.wf(),
    {
        proof {
            use_type_invariant(self);
            use_type_invariant(other);
        }
        let (a, b, c, d) = (
            self.numer as i64,
            self.denom as i64,
            other.numer as i64,
            other.denom as i64,
        );
        proof {
            lemma_scaled_bounds(a as int, d as int);
            lemma_scaled_bounds(c as int, b as int);
            lemma_scaled_bounds(b as int, d as int);
        }
        store(a * d + c * b, b * d)
    }

    /// Difference of two exact values: an overflow if the cross-multiplied
    /// numerator or denominator cannot be stored.
    pub fn checked_sub(&self, other: &Rational) -> (r: Result<Rational, ArithmeticError>)
        ensures
            result_view(r) == stored(self@.minus(other@)),
            r matches Ok(v) ==> v.wf(),
    {
        proof {
            use_type_invariant(self);
            use_type_invariant(other);
        }
        let (a, b, c, d) = (
            self.numer as i64,
            self.denom as i64,
            other.numer as i64,
            other.denom as i64,
        );
        proof {
            lemma_scaled_bounds(a as int, d as int);
            lemma_scaled_bounds(c as int, b as int);
            lemma_scaled_bounds(b as int, d as int);
        }
        store(a * d - c * b, b * d)
    }

    /// Product of two exact values: an overflow if the product of the
    /// numerators or of the denominators cannot be stored.
    pub fn checked_mul(&self, other: &Rational) -> (r: Result<Rational, ArithmeticError>)
        ensures
            result_view(r) == stored(self@.times(other@)),
            r matches Ok(v) ==> v.wf(),
    {
        proof {
            use_type_invariant(self);
            use_type_invariant(other);
        }
        let (a, b, c, d) = (
            self.numer as i64,
            self.denom as i64,
            other.numer as i64,
            other.denom as i64,
        );
        proof {
            lemma_product_bounds(a as int, c as int);
            lemma_scaled_bounds(b as int, d as int);
        }
        store(a * c, b * d)
    }

    /// Quotient of two exact values: a division by zero if the divisor is
    /// zero, an overflow if a cross-multiplied part cannot be stored.
    pub fn checked_div(&self, other: &Rational) -> (r: Result<Rational, ArithmeticError>)
        ensures
            result_view(r) == div_spec(self@, other@),
            r matches Ok(v) ==> v.wf(),
    {
        proof {
            use_type_invariant(self);
            use_type_invariant(other);
        }
        if other.numer == 0 {
            return Err(ArithmeticError::DivisionByZero);
        }
        let (a, b, c, d) = (
            self.numer as i64,
            self.denom as i64,
            other.numer as i64,
            other.denom as i64,
        );
        proof {
            lemma_scaled_bounds(a as int, d as int);
            lemma_scaled_bounds(c as int, b as int);
        }
        let n: i64 = a * d;
        let m: i64 = c * b;
        if m < 0 {
            store(-n, -m)
        } else {
            store(n, m)
        }
    }

    /// Whether the value is zero.
    pub fn is_zero(&self) -> (b: bool)
        ensures
            b == (self@.num == 0),
    {
        self.numer == 0
    }

    /// Whether the value is below zero.
    pub fn is_negative(&self) -> (b: bool)
        ensures
            b == (self@.num < 0),
            b == self@.less_than(Fraction::of_int(0)),
    {
        proof {
            use_type_invariant(self);
            assert(self@.num * 1 == self@.num);
            assert(0 * self@.den == 0);
        }
        self.numer < 0
    }

    /// Whether this value is strictly less than the other, by
    /// cross-multiplication.
    pub fn lt(&self, other: &Rational) -> (b: bool)
        ensures
            b == self@.less_than(other@),
    {
        proof {
            use_type_invariant(self);
            use_type_invariant(other);
            lemma_scaled_bounds(self.numer as int, other.denom as int);
            lemma_scaled_bounds(other.numer as int, self.denom as int);
        }
        (self.numer as i64) * (other.denom as i64) < (other.numer as i64) * (self.denom as i64)
    }

    /// Whether this value is less than or equal to the other, by
    /// cross-multiplication.
    pub fn le(&self, other: &Rational) -> (b: bool)
        ensures
            b == self@.at_most(other@),
    {
        proof {
            use_type_invariant(self);
            use_type_invariant(other);
            lemma_scaled_bounds(self.numer as int, other.denom as int);
            lemma_scaled_bounds(other.numer as int, self.denom as int);
        }
        (self.numer as i64) * (other.denom as i64) <= (other.numer as i64) * (self.denom as i64)
    }

    /// Whether the two values are equal, by cross-multiplication. For values
    /// of this type that is the same as `==`.
    pub fn same_value(&self, other: &Rational) -> (b: bool)
        ensures
            b == self@.same_value(other@),
            b == (*self == *other),
    {
        proof {
            use_type_invariant(self);
            use_type_invariant(other);
            lemma_scaled_bounds(self.numer as int, other.denom as int);
            lemma_scaled_bounds(other.numer as int, self.denom as int);
            if self@.same_value(other@) {
                crate::fraction::lemma_reduced_is_unique(self@, other@);
            }
        }
        (self.numer as i64) * (other.denom as i64) == (other.numer as i64) * (self.denom as i64)
    }
}

/// A 32-bit number scaled by a denominator stays well inside 64 bits and
/// keeps its sign.
pub proof fn lemma_scaled_bounds(x: int, y: int)
    requires
        i32::MIN <= x <= i32::MAX,
        0 < y <= i32::MAX,
    ensures
        -0x3fff_ffff_8000_0000 <= x * y <= 0x3fff_ffff_8000_0000,
        x > 0 ==> x * y > 0,
        x < 0 ==> x * y < 0,
        x == 0 ==> x * y == 0,
{
    assert(-0x3fff_ffff_8000_0000 <= x * y <= 0x3fff_ffff_8000_0000 && (x > 0 ==> x * y > 0) && (x
        < 0 ==> x * y < 0) && (x == 0 ==> x * y == 0)) by (nonlinear_arith)
        requires
            -0x8000_0000 <= x <= 0x7fff_ffff,
            0 < y <= 0x7fff_ffff,
    ;
}

/// The product of two 32-bit numbers is well inside 64 bits.
pub proof fn lemma_product_bounds(x: int, y: int)
    requires
        i32::MIN <= x <= i32::MAX,
        i32::MIN <= y <= i32::MAX,
    ensures
        -0x4000_0000_0000_0000 <= x * y <= 0x4000_0000_0000_0000,
{
    assert(-0x4000_0000_0000_0000 <= x * y <= 0x4000_0000_0000_0000) by (nonlinear_arith)
        requires
            -0x8000_0000 <= x <= 0x7fff_ffff,
            -0x8000_0000 <= y <= 0x7fff_ffff,
    ;
}

} // verus!
