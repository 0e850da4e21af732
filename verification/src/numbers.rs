//! Integer facts that the fraction type rests on: absolute values, greatest
//! common divisors and the lemmas about them.

use vstd::arithmetic::div_mod::{
    lemma_fundamental_div_mod, lemma_mod_multiples_basic, lemma_small_mod, lemma_truncate_middle,
};
use vstd::prelude::*;

verus! {

/// Absolute value of an integer.
pub open spec fn abs(x: int) -> nat {
    if x < 0 {
        (-x) as nat
    } else {
        x as nat
    }
}

/// Greatest common divisor of two natural numbers, by Euclid's recursion.
/// `gcd(0, 0)` is `0`.
pub open spec fn gcd(a: nat, b: nat) -> nat
    decreases b,
{
    if b == 0 {
        a
    } else {
        gcd(b, a % b)
    }
}

/// The greatest common divisor is positive unless both numbers are zero.
pub proof fn lemma_gcd_positive(a: nat, b: nat)
    requires
        a > 0 || b > 0,
    ensures
        gcd(a, b) > 0,
    decreases b,
{
    if b != 0 {
        lemma_gcd_positive(b, a % b);
    }
}

/// The greatest common divisor divides both numbers.
pub proof fn lemma_gcd_divides(a: nat, b: nat)
    requires
        a > 0 || b > 0,
    ensures
        a % gcd(a, b) == 0,
        b % gcd(a, b) == 0,
    decreases b,
{
    let g = gcd(a, b);
    lemma_gcd_positive(a, b);
    if b == 0 {
        lemma_mod_multiples_basic(1, a as int);
        assert(1 * (a as int) == a as int);
        assert(0nat % g == 0) by {
            lemma_small_mod(0, g);
        }
    } else {
        let r = a % b;
        lemma_gcd_divides(b, r);
        // b == g * kb, r == g * kr, a == b * (a / b) + r
        lemma_fundamental_div_mod(a as int, b as int);
        lemma_fundamental_div_mod(b as int, g as int);
        lemma_fundamental_div_mod(r as int, g as int);
        let kb = (b as int) / (g as int);
        let kr = (r as int) / (g as int);
        let q = (a as int) / (b as int);
        assert(b as int == (g as int) * kb);
        assert(r as int == (g as int) * kr);
        assert(a as int == (g as int) * (kb * q + kr)) by (nonlinear_arith)
            requires
                a as int == (b as int) * q + (r as int),
                b as int == (g as int) * kb,
                r as int == (g as int) * kr,
        ;
        lemma_mod_multiples_basic(kb * q + kr, g as int);
        assert((kb * q + kr) * (g as int) == (g as int) * (kb * q + kr)) by (nonlinear_arith);
    }
}

/// Scaling both numbers scales their greatest common divisor.
pub proof fn lemma_gcd_scales(k: nat, a: nat, b: nat)
    requires
        k > 0,
    ensures
        gcd(k * a, k * b) == k * gcd(a, b),
    decreases b,
{
    if b == 0 {
        assert(k * b == 0) by (nonlinear_arith)
            requires
                b == 0,
        ;
    } else {
        assert(k * b > 0) by (nonlinear_arith)
            requires
                k > 0,
                b > 0,
        ;
        lemma_truncate_middle(a as int, k as int, b as int);
        assert((k * a) % (k * b) == k * (a % b));
        lemma_gcd_scales(k, b, a % b);
    }
}

/// Dividing two numbers by their greatest common divisor leaves numbers
/// whose greatest common divisor is one.
pub proof fn lemma_gcd_of_quotients(a: nat, b: nat)
    requires
        a > 0 || b > 0,
    ensures
        gcd(a / gcd(a, b), b / gcd(a, b)) == 1,
{
    let g = gcd(a, b);
    lemma_gcd_positive(a, b);
    lemma_gcd_divides(a, b);
    lemma_fundamental_div_mod(a as int, g as int);
    lemma_fundamental_div_mod(b as int, g as int);
    let qa = a / g;
    let qb = b / g;
    assert(a == g * qa);
    assert(b == g * qb);
    lemma_gcd_scales(g, qa, qb);
    let h = gcd(qa, qb);
    assert(g == g * h);
    assert(h == 1) by (nonlinear_arith)
        requires
            g == g * h,
            g > 0,
    ;
}

/// Coefficients `(x, y)` with `a * x + b * y == gcd(a, b)`.
pub proof fn lemma_bezout(a: nat, b: nat) -> (c: (int, int))
    ensures
        a * c.0 + b * c.1 == gcd(a, b),
    decreases b,
{
    if b == 0 {
        (1, 0)
    } else {
        let r = a % b;
        let q = (a as int) / (b as int);
        let (x, y) = lemma_bezout(b, r);
        lemma_fundamental_div_mod(a as int, b as int);
        assert(a * y + b * (x - q * y) == b * x + r * y) by (nonlinear_arith)
            requires
                a as int == (b as int) * q + (r as int),
        ;
        (y, x - q * y)
    }
}

/// Euclid's lemma: a number that divides a product and shares no divisor
/// with one factor divides the other factor.
/// The lemma returns the quotient.
pub proof fn lemma_coprime_divides_product(a: nat, b: nat, c: int, k: int) -> (m: int)
    requires
        gcd(a, b) == 1,
        b * c == a * k,
    ensures
        c == a * m,
{
    let (x, y) = lemma_bezout(a, b);
    let m = c * x + k * y;
    assert(c == a * m) by (nonlinear_arith)
        requires
            a * x + b * y == 1,
            b * c == a * k,
            m == c * x + k * y,
    ;
    m
}

/// Computes the greatest common divisor of two numbers.
pub fn gcd_u64(a: u64, b: u64) -> (g: u64)
    ensures
        g == gcd(a as nat, b as nat),
{
    let mut x: u64 = a;
    let mut y: u64 = b;
    while y != 0
        invariant
            gcd(x as nat, y as nat) == gcd(a as nat, b as nat),
        decreases y,
    {
        let r: u64 = x % y;
        x = y;
        y = r;
    }
    x
}

} // verus!
