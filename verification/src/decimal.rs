//! Decimal notation of exact values: the grammar of a decimal literal, what
//! it denotes, and the parser that turns one into an exact value.

use crate::fraction::Fraction;
use crate::rational::{store, Rational};
use vstd::prelude::*;

verus! {

/// Why a string is not read as an exact value.
#[derive(Clone, Copy, Debug, PartialEq, Eq, Structural)]
pub enum ParseRationalError {
    /// The string is not a decimal literal, or it denotes a value whose
    /// scale or whose digits cannot be stored.
    MalformedDecimal,
}

/// A decimal digit.
pub open spec fn is_digit(c: char) -> bool {
    '0' <= c <= '9'
}

/// The number that a decimal digit stands for.
pub open spec fn digit_value(c: char) -> nat {
    (c as nat - '0' as nat) as nat
}

/// Every character is a decimal digit.
pub open spec fn all_digits(s: Seq<char>) -> bool {
    forall|i: int| 0 <= i < s.len() ==> is_digit(#[trigger] s[i])
}

/// The number that a run of decimal digits denotes; the empty run denotes 0.
pub open spec fn digits_value(s: Seq<char>) -> nat
    decreases s.len(),
{
    if s.len() == 0 {
        0
    } else {
        digits_value(s.drop_last()) * 10 + digit_value(s.last())
    }
}

/// Ten to the power `k`.
pub open spec fn pow10(k: nat) -> nat
    decreases k,
{
    if k == 0 {
        1
    } else {
        10 * pow10((k - 1) as nat)
    }
}

/// The number of characters that a leading sign takes: 1 or 0.
pub open spec fn sign_length(s: Seq<char>) -> int {
    if s.len() > 0 && (s[0] == '+' || s[0] == '-') {
        1
    } else {
        0
    }
}

/// The position of the first decimal point at or after `i`, or the length
/// of the string if there is none.
pub open spec fn point_from(s: Seq<char>, i: int) -> int
    decreases s.len() - i,
{
    if i < 0 || i >= s.len() {
        s.len() as int
    } else if s[i] == '.' {
        i
    } else {
        point_from(s, i + 1)
    }
}

/// The parts of a string read as a decimal literal: a sign, the digits
/// before the first decimal point, and what follows that point.
pub struct DecimalLiteral {
    pub negative: bool,
    pub whole: Seq<char>,
    pub has_point: bool,
    pub fraction: Seq<char>,
}

impl DecimalLiteral {
    /// The parts of `s`.
    pub open spec fn of(s: Seq<char>) -> DecimalLiteral {
        let start = sign_length(s);
        let point = point_from(s, start);
        DecimalLiteral {
            negative: s.len() > 0 && s[0] == '-',
            whole: s.subrange(start, point),
            has_point: point < s.len(),
            fraction: if point < s.len() {
                s.subrange(point + 1, s.len() as int)
            } else {
                Seq::empty()
            },
        }
    }

    /// The grammar: an optional sign, one or more digits, and optionally a
    /// decimal point followed by one or more digits.
    pub open spec fn is_well_formed(self) -> bool {
        &&& self.whole.len() > 0
        &&& all_digits(self.whole)
        &&& all_digits(self.fraction)
        &&& self.has_point ==> self.fraction.len() > 0
    }

    /// What the literal denotes: all its digits as the numerator, ten to the
    /// number of digits after the point as the denominator.
    pub open spec fn value(self) -> Fraction {
        let magnitude = digits_value(self.whole + self.fraction) as int;
        Fraction {
            num: if self.negative {
                -magnitude
            } else {
                magnitude
            },
            den: pow10(self.fraction.len()) as int,
        }
    }
}

/// What parsing a string returns: the value of the literal in lowest terms,
/// if the string is a well-formed literal whose numerator and scale can be
/// stored.
pub open spec fn parse_decimal(s: Seq<char>) -> Result<Fraction, ParseRationalError> {
    let literal = DecimalLiteral::of(s);
    if literal.is_well_formed() && literal.value().fits() {
        Ok(literal.value().reduced())
    } else {
        Err(ParseRationalError::MalformedDecimal)
    }
}

/// The model of a parse result.
pub open spec fn parsed_view(r: Result<Rational, ParseRationalError>) -> Result<
    Fraction,
    ParseRationalError,
> {
    match r {
        Ok(v) => Ok(v@),
        Err(e) => Err(e),
    }
}

/// The first decimal point at or after `i` is not before `i`, and no
/// character between the two is a decimal point.
pub proof fn lemma_point_from(s: Seq<char>, i: int)
    requires
        0 <= i <= s.len(),
    ensures
        i <= point_from(s, i) <= s.len(),
        point_from(s, i) < s.len() ==> s[point_from(s, i)] == '.',
        forall|j: int| i <= j < point_from(s, i) ==> s[j] != '.',
    decreases s.len() - i,
{
    if i < s.len() && s[i] != '.' {
        lemma_point_from(s, i + 1);
    }
}

/// The characters of a string.
pub fn chars_of(s: &str) -> (v: Vec<char>)
    ensures
        v@ == s@,
{
    let mut v: Vec<char> = Vec::new();
    for c in it: s.chars()
        invariant
            v@ == s@.take(it.index()),
            it.seq() == s@,
    {
        v.push(c);
    }
    v
}

/// Whether a character is a decimal digit.
pub fn is_decimal_digit(c: char) -> (b: bool)
    ensures
        b == is_digit(c),
{
    '0' <= c && c <= '9'
}

/// The number that a decimal digit stands for.
pub fn decimal_digit_value(c: char) -> (d: u64)
    requires
        is_digit(c),
    ensures
        d == digit_value(c),
        d <= 9,
{
    (c as u64) - ('0' as u64)
}

/// The largest magnitude that a numerator can have: that of the least
/// 32-bit number.
pub const MAGNITUDE_LIMIT: u64 = 0x8000_0000;

/// Reads the digits of `chars` from `from` on and appends them to a number
/// whose digits so far are `seen`.
///
/// Returns `None` if a character is no digit. Otherwise returns the number
/// that all the digits denote, or `MAGNITUDE_LIMIT + 1` if that number is
/// greater than `MAGNITUDE_LIMIT`.
fn read_digits(chars: &Vec<char>, from: usize, seen: Ghost<Seq<char>>, start: u64) -> (r: Option<
    u64,
>)
    requires
        from <= chars.len(),
        start <= MAGNITUDE_LIMIT + 1,
        start <= MAGNITUDE_LIMIT ==> start == digits_value(seen@),
        start > MAGNITUDE_LIMIT ==> digits_value(seen@) > MAGNITUDE_LIMIT,
    ensures
        r is Some <==> all_digits(chars@.subrange(from as int, chars.len() as int)),
        r matches Some(v) ==> {
            let all = seen@ + chars@.subrange(from as int, chars.len() as int);
            &&& v <= MAGNITUDE_LIMIT + 1
            &&& v <= MAGNITUDE_LIMIT ==> v == digits_value(all)
            &&& v > MAGNITUDE_LIMIT ==> digits_value(all) > MAGNITUDE_LIMIT
        },
{
    let ghost rest = chars@.subrange(from as int, chars.len() as int);
    let mut value: u64 = start;
    let mut i: usize = from;
    while i < chars.len()
        invariant
            from <= i <= chars.len(),
            rest == chars@.subrange(from as int, chars.len() as int),
            all_digits(rest.take(i - from)),
            value <= MAGNITUDE_LIMIT + 1,
            value <= MAGNITUDE_LIMIT ==> value == digits_value(seen@ + rest.take(i - from)),
            value > MAGNITUDE_LIMIT ==> digits_value(seen@ + rest.take(i - from))
                > MAGNITUDE_LIMIT,
        decreases chars.len() - i,
    {
        let c = chars[i];
        if !is_decimal_digit(c) {
            assert(rest[i - from] == c);
            return None;
        }
        let d = decimal_digit_value(c);
        proof {
            let before = seen@ + rest.take(i - from);
            let after = seen@ + rest.take(i - from + 1);
            assert(after.drop_last() =~= before);
            assert(after.last() == c);
            assert(digits_value(after) == digits_value(before) * 10 + digit_value(c));
            assert forall|j: int| 0 <= j < rest.take(i - from + 1).len() implies is_digit(
                #[trigger] rest.take(i - from + 1)[j],
            ) by {
                if j < i - from {
                    assert(rest.take(i - from)[j] == rest.take(i - from + 1)[j]);
                }
            }
        }
        if value <= MAGNITUDE_LIMIT {
            value = value * 10 + d;
            if value > MAGNITUDE_LIMIT {
                value = MAGNITUDE_LIMIT + 1;
            }
        }
        i = i + 1;
    }
    proof {
        assert(rest.take(i - from) =~= rest);
    }
    Some(value)
}

/// Ten to the power `k`, or `None` if that is more than the greatest
/// denominator.
fn scale_of(k: usize) -> (r: Option<u64>)
    ensures
        r matches Some(v) ==> v == pow10(k as nat) && 1 <= v <= i32::MAX,
        r is None ==> pow10(k as nat) > i32::MAX,
{
    let mut scale: u64 = 1;
    let mut i: usize = 0;
    while i < k
        invariant
            i <= k,
            scale == pow10(i as nat),
            1 <= scale <= i32::MAX,
        decreases k - i,
    {
        scale = scale * 10;
        i = i + 1;
        if scale > 2147483647 {
            proof {
                lemma_pow10_grows(i as nat, k as nat);
            }
            return None;
        }
    }
    Some(scale)
}

/// Ten to a greater power is not less.
pub proof fn lemma_pow10_grows(i: nat, k: nat)
    requires
        i <= k,
    ensures
        1 <= pow10(i) <= pow10(k),
    decreases k,
{
    if i < k {
        lemma_pow10_grows(i, (k - 1) as nat);
    } else if k > 0 {
        lemma_pow10_grows((i - 1) as nat, (k - 1) as nat);
    }
}

/// Parses a decimal literal into an exact value.
///
/// The literal is an optional sign (`+` or `-`), one or more digits, and
/// optionally a decimal point followed by one or more digits. All the digits
/// together are the numerator and ten to the number of digits after the
/// point is the denominator; the result is that fraction in lowest terms.
/// Any other string, and a literal whose numerator or denominator cannot be
/// stored before the reduction, is malformed.
pub fn r32_from_decimal(s: &str) -> (r: Result<Rational, ParseRationalError>)
    ensures
        parsed_view(r) == parse_decimal(s@),
        r matches Ok(v) ==> v.wf(),
{
    let chars = chars_of(s);
    let n = chars.len();
    let ghost literal = DecimalLiteral::of(s@);
    let negative = n > 0 && chars[0] == '-';
    let start: usize = if n > 0 && (chars[0] == '+' || chars[0] == '-') {
        1
    } else {
        0
    };
    proof {
        lemma_point_from(s@, start as int);
    }
    // the digits before the point
    let mut magnitude: u64 = 0;
    let mut i: usize = start;
    while i < n && chars[i] != '.'
        invariant
            start <= i <= n,
            n == chars.len(),
            chars@ == s@,
            start == sign_length(s@),
            literal == DecimalLiteral::of(s@),
            point_from(s@, start as int) == point_from(s@, i as int),
            all_digits(s@.subrange(start as int, i as int)),
            magnitude <= MAGNITUDE_LIMIT + 1,
            magnitude <= MAGNITUDE_LIMIT ==> magnitude == digits_value(
                s@.subrange(start as int, i as int),
            ),
            magnitude > MAGNITUDE_LIMIT ==> digits_value(s@.subrange(start as int, i as int))
                > MAGNITUDE_LIMIT,
        decreases n - i,
    {
        let c = chars[i];
        proof {
            lemma_point_from(s@, i as int);
            lemma_point_from(s@, i as int + 1);
        }
        if !is_decimal_digit(c) {
            proof {
                assert(literal.whole[i - start] == c);
            }
            return Err(ParseRationalError::MalformedDecimal);
        }
        let d = decimal_digit_value(c);
        proof {
            let before = s@.subrange(start as int, i as int);
            let after = s@.subrange(start as int, i as int + 1);
            assert(after.drop_last() =~= before);
            assert(after.last() == c);
            assert forall|j: int| 0 <= j < after.len() implies is_digit(#[trigger] after[j]) by {
                if j < before.len() {
                    assert(before[j] == after[j]);
                }
            }
        }
        if magnitude <= MAGNITUDE_LIMIT {
            magnitude = magnitude * 10 + d;
            if magnitude > MAGNITUDE_LIMIT {
                magnitude = MAGNITUDE_LIMIT + 1;
            }
        }
        i = i + 1;
    }
    proof {
        lemma_point_from(s@, i as int);
        assert(point_from(s@, start as int) == i);
        assert(literal.whole == s@.subrange(start as int, i as int));
    }
    if i == start {
        return Err(ParseRationalError::MalformedDecimal);
    }
    let mut digits_after: usize = 0;
    if i < n {
        // the digits after the point
        if i + 1 == n {
            return Err(ParseRationalError::MalformedDecimal);
        }
        match read_digits(&chars, i + 1, Ghost(literal.whole), magnitude) {
            None => {
                return Err(ParseRationalError::MalformedDecimal);
            },
            Some(v) => {
                magnitude = v;
            },
        }
        digits_after = n - (i + 1);
    } else {
        assert(literal.whole + literal.fraction =~= literal.whole);
    }
    assert(literal.is_well_formed());
    assert(digits_after == literal.fraction.len());
    if magnitude > MAGNITUDE_LIMIT {
        return Err(ParseRationalError::MalformedDecimal);
    }
    let scale = match scale_of(digits_after) {
        None => {
            return Err(ParseRationalError::MalformedDecimal);
        },
        Some(v) => v,
    };
    let numer: i64 = if negative {
        -(magnitude as i64)
    } else {
        magnitude as i64
    };
    match store(numer, scale as i64) {
        Ok(v) => Ok(v),
        Err(_) => Err(ParseRationalError::MalformedDecimal),
    }
}

} // verus!
