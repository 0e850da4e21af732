//! Reading whole numbers in decimal notation.

use crate::decimal::{
    all_digits, chars_of, decimal_digit_value, digits_value, is_decimal_digit, is_digit,
    sign_length,
};
use vstd::prelude::*;

verus! {

/// Why a string is not read as a whole number.
#[derive(Clone, Copy, Debug, PartialEq, Eq, Structural)]
pub enum IntParseError {
    /// The string is empty.
    Empty,
    /// The string has a character that is no digit where a digit has to
    /// stand, or it is a sign alone.
    InvalidDigit,
    /// The number is greater than the greatest of its type.
    PosOverflow,
    /// The number is less than the least of its type.
    NegOverflow,
}

/// What reading a whole number between `min` and `max` returns: the string
/// has to be an optional sign (`+` or `-`) followed by one or more digits.
pub open spec fn parse_int(s: Seq<char>, min: int, max: int) -> Result<int, IntParseError> {
    let digits = s.subrange(sign_length(s), s.len() as int);
    if s.len() == 0 {
        Err(IntParseError::Empty)
    } else if digits.len() == 0 || !all_digits(digits) {
        Err(IntParseError::InvalidDigit)
    } else {
        let value = if s[0] == '-' {
            -(digits_value(digits) as int)
        } else {
            digits_value(digits) as int
        };
        if value > max {
            Err(IntParseError::PosOverflow)
        } else if value < min {
            Err(IntParseError::NegOverflow)
        } else {
            Ok(value)
        }
    }
}

/// The model of a result of reading a 32-bit number.
pub open spec fn i32_view(r: Result<i32, IntParseError>) -> Result<int, IntParseError> {
    match r {
        Ok(v) => Ok(v as int),
        Err(e) => Err(e),
    }
}

/// The model of a result of reading a 64-bit number.
pub open spec fn i64_view(r: Result<i64, IntParseError>) -> Result<int, IntParseError> {
    match r {
        Ok(v) => Ok(v as int),
        Err(e) => Err(e),
    }
}

/// The greatest magnitude of a 64-bit number: that of the least one.
pub const WIDEST_MAGNITUDE: u128 = 0x8000_0000_0000_0000;

/// Reads a whole number whose magnitude is `limit` at most if it is
/// negative, and less than `limit` otherwise.
fn parse_within(s: &str, limit: u128) -> (r: Result<(bool, u128), IntParseError>)
    requires
        0 < limit <= WIDEST_MAGNITUDE,
    ensures
        match r {
            Ok((negative, magnitude)) => {
                &&& magnitude <= limit
                &&& !negative ==> magnitude < limit
                &&& parse_int(s@, -(limit as int), limit - 1) == Ok::<int, IntParseError>(
                    if negative {
                        -(magnitude as int)
                    } else {
                        magnitude as int
                    },
                )
            },
            Err(e) => parse_int(s@, -(limit as int), limit - 1) == Err::<int, IntParseError>(e),
        },
{
    let chars = chars_of(s);
    let n = chars.len();
    if n == 0 {
        return Err(IntParseError::Empty);
    }
    let negative = chars[0] == '-';
    let start: usize = if chars[0] == '+' || chars[0] == '-' {
        1
    } else {
        0
    };
    let ghost digits = s@.subrange(start as int, n as int);
    if start == n {
        return Err(IntParseError::InvalidDigit);
    }
    let mut magnitude: u128 = 0;
    let mut i: usize = start;
    while i < n
        invariant
            start <= i <= n,
            n == chars.len(),
            chars@ == s@,
            start == sign_length(s@),
            digits == s@.subrange(start as int, n as int),
            0 < limit <= WIDEST_MAGNITUDE,
            all_digits(digits.take(i - start)),
            magnitude <= limit + 1,
            magnitude <= limit ==> magnitude == digits_value(digits.take(i - start)),
            magnitude > limit ==> digits_value(digits.take(i - start)) > limit,
        decreases n - i,
    {
        let c = chars[i];
        if !is_decimal_digit(c) {
            assert(digits[i - start] == c);
            return Err(IntParseError::InvalidDigit);
        }
        let d = decimal_digit_value(c);
        proof {
            let before = digits.take(i - start);
            let after = digits.take(i - start + 1);
            assert(after.drop_last() =~= before);
            assert(after.last() == c);
            assert forall|j: int| 0 <= j < after.len() implies is_digit(#[trigger] after[j]) by {
                if j < before.len() {
                    assert(before[j] == after[j]);
                }
            }
        }
        if magnitude <= limit {
            magnitude = magnitude * 10 + (d as u128);
            if magnitude > limit {
                magnitude = limit + 1;
            }
        }
        i = i + 1;
    }
    proof {
        assert(digits.take(i - start) =~= digits);
    }
    if negative {
        if magnitude > limit {
            Err(IntParseError::NegOverflow)
        } else {
            Ok((true, magnitude))
        }
    } else {
        if magnitude >= limit {
            Err(IntParseError::PosOverflow)
        } else {
            Ok((false, magnitude))
        }
    }
}

/// Reads a 32-bit whole number: an optional sign (`+` or `-`) followed by
/// one or more digits.
pub fn parse_i32(s: &str) -> (r: Result<i32, IntParseError>)
    ensures
        i32_view(r) == parse_int(s@, i32::MIN as int, i32::MAX as int),
{
    match parse_within(s, 0x8000_0000) {
        Ok((negative, magnitude)) => {
            if negative {
                Ok((-(magnitude as i64)) as i32)
            } else {
                Ok(magnitude as i32)
            }
        },
        Err(e) => Err(e),
    }
}

/// Reads a 64-bit whole number: an optional sign (`+` or `-`) followed by
/// one or more digits.
pub fn parse_i64(s: &str) -> (r: Result<i64, IntParseError>)
    ensures
        i64_view(r) == parse_int(s@, i64::MIN as int, i64::MAX as int),
{
    match parse_within(s, WIDEST_MAGNITUDE) {
        Ok((negative, magnitude)) => {
            if negative {
                Ok((-(magnitude as i128)) as i64)
            } else {
                Ok(magnitude as i64)
            }
        },
        Err(e) => Err(e),
    }
}

} // verus!
