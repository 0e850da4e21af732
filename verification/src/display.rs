//! Writing an exact value in decimal notation, and the proof that reading
//! it back gives the same value.

use crate::decimal::{
    all_digits, digit_value, digits_value, is_digit, parse_decimal, point_from, pow10,
    sign_length, DecimalLiteral,
};
use crate::fraction::{lemma_reduced_is_reduced, Fraction};
use crate::numbers::{abs, gcd, lemma_gcd_divides, lemma_gcd_positive};
use crate::rational::Rational;
use vstd::arithmetic::div_mod::{
    lemma_fundamental_div_mod, lemma_mod_multiples_basic, lemma_mod_multiples_vanish,
};
use vstd::prelude::*;

verus! {

/// The greatest number of digits that are written after the decimal point.
/// Every denominator that can be stored and divides a power of ten divides
/// ten to this power.
pub const MAX_FRACTION_DIGITS: usize = 30;

/// The character of a decimal digit.
pub open spec fn digit_char(d: nat) -> char {
    ('0' as nat + d) as char
}

/// The decimal digits of a natural number, without leading zeros.
pub open spec fn nat_text(n: nat) -> Seq<char>
    decreases n,
{
    if n < 10 {
        seq![digit_char(n)]
    } else {
        nat_text(n / 10).push(digit_char(n % 10))
    }
}

/// The digits after the decimal point of `rem / den`, by long division:
/// as many as it takes to reach the remainder zero, and `limit` at most.
pub open spec fn fraction_text(rem: nat, den: nat, limit: nat) -> Seq<char>
    decreases limit,
{
    if rem == 0 || limit == 0 {
        Seq::empty()
    } else {
        seq![digit_char(rem * 10 / den)] + fraction_text(
            rem * 10 % den,
            den,
            (limit - 1) as nat,
        )
    }
}

/// The decimal notation of a fraction with a positive denominator: a minus
/// sign if it is negative, the digits of its whole part, and, unless it is a
/// whole number, a decimal point and the digits of its fractional part,
/// cut off after `MAX_FRACTION_DIGITS` digits.
pub open spec fn decimal_text(f: Fraction) -> Seq<char> {
    let magnitude = abs(f.num);
    let den = abs(f.den);
    let sign = if f.num < 0 {
        seq!['-']
    } else {
        Seq::empty()
    };
    let rem = magnitude % den;
    if rem == 0 {
        sign + nat_text(magnitude / den)
    } else {
        sign + nat_text(magnitude / den) + seq!['.'] + fraction_text(
            rem,
            den,
            MAX_FRACTION_DIGITS as nat,
        )
    }
}

/// The decimal expansion of the fraction ends within `MAX_FRACTION_DIGITS`
/// digits.
pub open spec fn is_terminating(f: Fraction) -> bool {
    pow10(MAX_FRACTION_DIGITS as nat) % abs(f.den) == 0
}

/// std's `String::push` appends the character to the end of the string,
/// as its documentation says.
pub assume_specification[ String::push ](s: &mut String, c: char)
    ensures
        final(s)@ == old(s)@.push(c),
;

/// The character of a decimal digit.
fn digit_to_char(d: u64) -> (c: char)
    requires
        d <= 9,
    ensures
        c == digit_char(d as nat),
        is_digit(c),
        digit_value(c) == d,
{
    let b: u8 = 48 + (d as u8);
    b as char
}

/// Appends the decimal digits of a number.
fn push_nat(out: &mut String, n: u64)
    ensures
        final(out)@ == old(out)@ + nat_text(n as nat),
    decreases n,
{
    if n >= 10 {
        push_nat(out, n / 10);
    }
    out.push(digit_to_char(n % 10));
    proof {
        assert(final(out)@ =~= old(out)@ + nat_text(n as nat));
    }
}

impl Rational {
    /// The value in decimal notation.
    ///
    /// The notation is exact where the decimal expansion ends, which it does
    /// for every value whose denominator has no prime factors but 2 and 5;
    /// of any other value the expansion is cut off after
    /// `MAX_FRACTION_DIGITS` digits after the point.
    pub fn to_decimal_string(&self) -> (s: String)
        ensures
            s@ == decimal_text(self@),
    {
        let numer: i64 = self.numer() as i64;
        let den: u64 = self.denom() as u64;
        let magnitude: u64 = if numer < 0 {
            (-numer) as u64
        } else {
            numer as u64
        };
        let mut out = String::new();
        if numer < 0 {
            out.push('-');
        }
        push_nat(&mut out, magnitude / den);
        let mut rem: u64 = magnitude % den;
        if rem != 0 {
            out.push('.');
            let ghost head = out@;
            let ghost first = rem;
            let mut written: usize = 0;
            while rem != 0 && written < MAX_FRACTION_DIGITS
                invariant
                    written <= MAX_FRACTION_DIGITS,
                    0 < den <= i32::MAX,
                    rem < den,
                    out@ + fraction_text(
                        rem as nat,
                        den as nat,
                        (MAX_FRACTION_DIGITS - written) as nat,
                    ) == head + fraction_text(
                        first as nat,
                        den as nat,
                        MAX_FRACTION_DIGITS as nat,
                    ),
                decreases MAX_FRACTION_DIGITS - written,
            {
                let scaled: u64 = rem * 10;
                let ghost before = out@;
                let ghost tail = fraction_text(
                    (scaled % den) as nat,
                    den as nat,
                    (MAX_FRACTION_DIGITS - written - 1) as nat,
                );
                proof {
                    lemma_long_division_step(rem as nat, den as nat);
                }
                out.push(digit_to_char(scaled / den));
                proof {
                    assert(out@ + tail =~= before + (seq![digit_char((scaled / den) as nat)]
                        + tail));
                }
                rem = scaled % den;
                written = written + 1;
            }
            proof {
                assert(fraction_text(
                    rem as nat,
                    den as nat,
                    (MAX_FRACTION_DIGITS - written) as nat,
                ) =~= Seq::<char>::empty());
                assert(out@ =~= head + fraction_text(
                    first as nat,
                    den as nat,
                    MAX_FRACTION_DIGITS as nat,
                ));
            }
        }
        out
    }
}

/// Ten to a sum of powers is the product of the powers of ten.
pub proof fn lemma_pow10_adds(a: nat, b: nat)
    ensures
        pow10(a + b) == pow10(a) * pow10(b),
        pow10(a) >= 1,
    decreases a,
{
    if a == 0 {
        assert(pow10(a + b) == 1 * pow10(b));
    } else {
        lemma_pow10_adds((a - 1) as nat, b);
        assert(pow10(a + b) == 10 * pow10((a + b - 1) as nat));
        assert(10 * (pow10((a - 1) as nat) * pow10(b)) == (10 * pow10((a - 1) as nat)) * pow10(b))
            by (nonlinear_arith);
    }
}

/// The number that two runs of digits denote when written one after the
/// other.
pub proof fn lemma_digits_value_concat(a: Seq<char>, b: Seq<char>)
    ensures
        digits_value(a + b) == digits_value(a) * pow10(b.len()) + digits_value(b),
    decreases b.len(),
{
    if b.len() == 0 {
        assert(a + b =~= a);
        assert(digits_value(a) * 1 == digits_value(a));
    } else {
        lemma_digits_value_concat(a, b.drop_last());
        assert((a + b).drop_last() =~= a + b.drop_last());
        assert((a + b).last() == b.last());
        let x = digits_value(a) as int;
        let p = pow10(b.drop_last().len()) as int;
        let y = digits_value(b.drop_last()) as int;
        let d = digit_value(b.last()) as int;
        assert(pow10(b.len()) == 10 * p);
        assert((x * p + y) * 10 + d == x * (10 * p) + (y * 10 + d)) by (nonlinear_arith);
    }
}

/// The digits of a number are digits, at least one, and denote the number.
pub proof fn lemma_nat_text(n: nat)
    ensures
        nat_text(n).len() >= 1,
        all_digits(nat_text(n)),
        digits_value(nat_text(n)) == n,
    decreases n,
{
    let t = nat_text(n);
    if n < 10 {
        assert(t.drop_last() =~= Seq::<char>::empty());
        assert(digits_value(t) == digits_value(t.drop_last()) * 10 + digit_value(t.last()));
    } else {
        lemma_nat_text(n / 10);
        let head = nat_text(n / 10);
        assert(t.drop_last() =~= head);
        assert(t.last() == digit_char(n % 10));
        assert(digits_value(t) == digits_value(head) * 10 + digit_value(t.last()));
        assert forall|i: int| 0 <= i < t.len() implies is_digit(#[trigger] t[i]) by {
            if i < head.len() {
                assert(t[i] == head[i]);
            }
        }
    }
}

/// The digits that long division writes are digits, and where the division
/// ends within the limit they denote the fraction exactly.
pub proof fn lemma_fraction_text(rem: nat, den: nat, limit: nat)
    requires
        rem < den,
    ensures
        all_digits(fraction_text(rem, den, limit)),
        fraction_text(rem, den, limit).len() <= limit,
        rem > 0 && limit > 0 ==> fraction_text(rem, den, limit).len() > 0,
        (rem * pow10(limit)) % den == 0 ==> digits_value(fraction_text(rem, den, limit)) * den
            == rem * pow10(fraction_text(rem, den, limit).len()),
    decreases limit,
{
    let text = fraction_text(rem, den, limit);
    if rem == 0 || limit == 0 {
        assert(digits_value(text) == 0);
        if limit == 0 && (rem * pow10(limit)) % den == 0 {
            assert(rem * pow10(0) == rem) by (nonlinear_arith)
                requires
                    pow10(0) == 1,
            ;
            vstd::arithmetic::div_mod::lemma_small_mod(rem, den);
        }
        assert(0 * den == 0);
        if rem == 0 {
            assert(rem * pow10(text.len()) == 0);
        }
    } else {
        let q = rem * 10 / den;
        let next = rem * 10 % den;
        let shorter = (limit - 1) as nat;
        let tail = fraction_text(next, den, shorter);
        lemma_long_division_step(rem, den);
        lemma_fraction_text(next, den, shorter);
        let first = seq![digit_char(q)];
        assert(text == first + tail);
        assert forall|i: int| 0 <= i < text.len() implies is_digit(#[trigger] text[i]) by {
            if i > 0 {
                assert(text[i] == tail[i - 1]);
            }
        }
        if (rem * pow10(limit)) % den == 0 {
            // rem * 10^limit == (den * q + next) * 10^(limit - 1)
            let p = pow10(shorter) as int;
            assert(pow10(limit) == 10 * p);
            assert(rem * pow10(limit) == den * (q * p) + next * p) by (nonlinear_arith)
                requires
                    rem * 10 == den * q + next,
                    pow10(limit) == 10 * p,
            ;
            lemma_mod_multiples_vanish(q * p, next * p, den as int);
            assert((next * pow10(shorter)) % den == 0);
            lemma_digits_value_concat(first, tail);
            assert(first.drop_last() =~= Seq::<char>::empty());
            assert(digits_value(first) == digits_value(first.drop_last()) * 10 + digit_value(
                first.last(),
            ));
            assert(digits_value(first) == q);
            let k = pow10(tail.len()) as int;
            let v = digits_value(tail) as int;
            assert(pow10(text.len()) == 10 * k);
            assert((q * k + v) * den == rem * (10 * k)) by (nonlinear_arith)
                requires
                    rem * 10 == den * q + next,
                    v * den == next * k,
            ;
        }
    }
}

/// Where digits run from `start` up to a decimal point or to the end of the
/// string, that is where the first decimal point is found.
pub proof fn lemma_point_after_digits(t: Seq<char>, start: int, p: int)
    requires
        0 <= start <= p <= t.len(),
        forall|j: int| start <= j < p ==> is_digit(#[trigger] t[j]),
        p == t.len() || t[p] == '.',
    ensures
        point_from(t, start) == p,
    decreases p - start,
{
    if start < p {
        assert(is_digit(t[start]));
        lemma_point_after_digits(t, start + 1, p);
    }
}

/// Read as a decimal literal, the notation of a fraction is well formed, and
/// where the expansion ends it denotes the fraction's value.
pub proof fn lemma_decimal_text_denotes(f: Fraction)
    requires
        f.den > 0,
    ensures
        DecimalLiteral::of(decimal_text(f)).is_well_formed(),
        is_terminating(f) ==> DecimalLiteral::of(decimal_text(f)).value().same_value(f),
{
    let text = decimal_text(f);
    let magnitude = abs(f.num);
    let den = abs(f.den);
    let whole = magnitude / den;
    let rem = magnitude % den;
    let limit = MAX_FRACTION_DIGITS as nat;
    let sign: Seq<char> = if f.num < 0 {
        seq!['-']
    } else {
        Seq::empty()
    };
    let digits = nat_text(whole);
    let tail = fraction_text(rem, den, limit);
    lemma_nat_text(whole);
    lemma_fundamental_div_mod(magnitude as int, den as int);
    lemma_fraction_text(rem, den, limit);
    let start = sign.len() as int;
    let p = start + digits.len();
    assert(text.len() >= p);
    assert(forall|j: int| start <= j < p ==> text[j] == digits[j - start]);
    assert(text[0] == if f.num < 0 {
        '-'
    } else {
        digits[0]
    });
    assert(is_digit(digits[0]));
    assert(sign_length(text) == start);
    if rem != 0 {
        assert(text[p] == '.');
    } else {
        assert(text.len() == p);
    }
    lemma_point_after_digits(text, start, p);
    let literal = DecimalLiteral::of(text);
    assert(literal.whole =~= digits);
    if rem != 0 {
        assert(literal.fraction =~= tail);
    } else {
        assert(literal.fraction =~= Seq::<char>::empty());
        assert(tail =~= Seq::<char>::empty());
    }
    assert(literal.fraction == tail);
    assert(literal.negative == (f.num < 0));
    if is_terminating(f) {
        let full = pow10(limit) as int;
        let m = full / (den as int);
        lemma_fundamental_div_mod(full, den as int);
        assert((rem * pow10(limit)) % den == 0) by {
            assert(rem * full == (rem * m) * den) by (nonlinear_arith)
                requires
                    full == den * m,
            ;
            lemma_mod_multiples_basic(rem * m, den as int);
        }
        lemma_digits_value_concat(digits, tail);
        let k = pow10(tail.len()) as int;
        let v = digits_value(tail) as int;
        let value = literal.value();
        assert(value.den == k);
        assert(digits_value(literal.whole + literal.fraction) == whole * k + v);
        assert((whole * k + v) * den == magnitude * k) by (nonlinear_arith)
            requires
                magnitude == den * whole + rem,
                v * den == rem * k,
        ;
        assert(value.num * f.den == f.num * value.den) by (nonlinear_arith)
            requires
                (whole * k + v) * den == magnitude * k,
                f.den == den,
                value.den == k,
                (f.num < 0 && value.num == -(whole * k + v) && f.num == -(magnitude as int)) || (
                f.num >= 0 && value.num == whole * k + v && f.num == magnitude as int),
        ;
    }
}

/// A power of ten that can be stored as a denominator has at most nine
/// zeros.
pub proof fn lemma_stored_scale_is_short(k: nat)
    requires
        pow10(k) <= i32::MAX,
    ensures
        k <= 9,
{
    if k >= 10 {
        crate::decimal::lemma_pow10_grows(10, k);
        assert(pow10(10) == 10_000_000_000) by {
            reveal_with_fuel(pow10, 11);
        }
    }
}

/// Reading a decimal literal and writing the value back gives a literal
/// that denotes the same value as the first: the notation is changed at
/// most by a sign `+`, by zeros at the front and by zeros at the end.
pub proof fn lemma_parse_then_write_keeps_value(s: Seq<char>)
    requires
        parse_decimal(s) is Ok,
    ensures
        ({
            let value = parse_decimal(s)->Ok_0;
            let written = DecimalLiteral::of(decimal_text(value));
            &&& written.is_well_formed()
            &&& written.value().same_value(DecimalLiteral::of(s).value())
            &&& value.same_value(DecimalLiteral::of(s).value())
        }),
{
    let literal = DecimalLiteral::of(s);
    let raw = literal.value();
    let value = raw.reduced();
    let k = literal.fraction.len();
    lemma_pow10_adds(k, 0);
    lemma_reduced_is_reduced(raw);
    lemma_stored_scale_is_short(k);
    // the reduced denominator divides the scale, which divides ten to the limit
    let g = gcd(abs(raw.num), abs(raw.den));
    lemma_gcd_positive(abs(raw.num), abs(raw.den));
    lemma_gcd_divides(abs(raw.num), abs(raw.den));
    lemma_fundamental_div_mod(raw.den, g as int);
    assert(raw.den == g * value.den);
    let rest = (MAX_FRACTION_DIGITS - k) as nat;
    lemma_pow10_adds(k, rest);
    let full = pow10(MAX_FRACTION_DIGITS as nat) as int;
    assert(full == (g * pow10(rest)) * value.den) by (nonlinear_arith)
        requires
            full == raw.den * pow10(rest),
            raw.den == g * value.den,
    ;
    lemma_mod_multiples_basic((g * pow10(rest)) as int, value.den);
    assert(is_terminating(value));
    lemma_decimal_text_denotes(value);
    let written = DecimalLiteral::of(decimal_text(value)).value();
    lemma_pow10_adds(DecimalLiteral::of(decimal_text(value)).fraction.len(), 0);
    assert(written.num * raw.den == raw.num * written.den) by (nonlinear_arith)
        requires
            written.num * value.den == value.num * written.den,
            value.num * raw.den == raw.num * value.den,
            value.den > 0,
    ;
}

/// One step of long division yields a digit.
pub proof fn lemma_long_division_step(rem: nat, den: nat)
    requires
        rem < den,
    ensures
        rem * 10 / den <= 9,
        rem * 10 % den < den,
        rem * 10 == den * (rem * 10 / den) + rem * 10 % den,
{
    let q = (rem * 10) as int / (den as int);
    let r = (rem * 10) as int % (den as int);
    lemma_fundamental_div_mod((rem * 10) as int, den as int);
    assert(0 <= r < den);
    assert(q <= 9) by (nonlinear_arith)
        requires
            rem * 10 == den * q + r,
            0 <= r,
            rem < den,
            den > 0,
    ;
    assert(q >= 0) by (nonlinear_arith)
        requires
            rem * 10 == den * q + r,
            r < den,
            rem >= 0,
            den > 0,
    ;
}

} // verus!
