//! Values of a submitted form: the pairs of names and values of a request
//! body, and the numbers that are read from them.

use crate::decimal::{parse_decimal, r32_from_decimal, ParseRationalError};
use crate::fraction::Fraction;
use crate::intparse::{parse_i32, parse_i64, parse_int, IntParseError};
use crate::rational::{ArithmeticError, Rational};
use crate::units::same_text;
use vstd::prelude::*;

verus! {

/// Why a submitted value is refused.
#[derive(Clone, Debug, PartialEq, Eq)]
pub enum ClientError {
    /// The form has no value of this name.
    MissingValue(String),
    /// The value of this name is read as a whole number and is none.
    FailedToParseIntValue(String, String, IntParseError),
    /// The value of this name is read as an exact value and is none.
    FailedToParseRationalValue(String, String, ParseRationalError),
    /// The whole number of this name is below zero.
    IntValueZeroOrLess(String, i32),
    /// The exact value of this name is below zero.
    RationalValueZeroOrLess(String, Rational),
    /// The whole number of this name is above the greatest that is allowed.
    IntValueTooHigh(String, i32, i32),
    /// The exact value of this name is below the least that is allowed.
    RationalValueTooLow(String, Rational, Rational),
    /// The value of this name is none of the options that are allowed.
    ValueIsInvalidOption(String, String, Vec<String>),
    /// What is computed from the value of this name cannot be stored.
    ArithmeticFailed(String, String, ArithmeticError),
}

/// The model of `ClientError`.
pub enum Refusal {
    MissingValue(Seq<char>),
    FailedToParseIntValue(Seq<char>, Seq<char>, IntParseError),
    FailedToParseRationalValue(Seq<char>, Seq<char>, ParseRationalError),
    IntValueZeroOrLess(Seq<char>, int),
    RationalValueZeroOrLess(Seq<char>, Fraction),
    IntValueTooHigh(Seq<char>, int, int),
    RationalValueTooLow(Seq<char>, Fraction, Fraction),
    ValueIsInvalidOption(Seq<char>, Seq<char>, Seq<Seq<char>>),
    ArithmeticFailed(Seq<char>, Seq<char>, ArithmeticError),
}

impl View for ClientError {
    type V = Refusal;

    open spec fn view(&self) -> Refusal {
        match self {
            ClientError::MissingValue(key) => Refusal::MissingValue(key@),
            ClientError::FailedToParseIntValue(key, value, e) => Refusal::FailedToParseIntValue(
                key@,
                value@,
                *e,
            ),
            ClientError::FailedToParseRationalValue(key, value, e) => {
                Refusal::FailedToParseRationalValue(key@, value@, *e)
            },
            ClientError::IntValueZeroOrLess(key, value) => Refusal::IntValueZeroOrLess(
                key@,
                *value as int,
            ),
            ClientError::RationalValueZeroOrLess(key, value) => Refusal::RationalValueZeroOrLess(
                key@,
                value@,
            ),
            ClientError::IntValueTooHigh(key, value, max) => Refusal::IntValueTooHigh(
                key@,
                *value as int,
                *max as int,
            ),
            ClientError::RationalValueTooLow(key, value, min) => Refusal::RationalValueTooLow(
                key@,
                value@,
                min@,
            ),
            ClientError::ValueIsInvalidOption(key, value, options) => Refusal::ValueIsInvalidOption(
                key@,
                value@,
                options@.map_values(|s: String| s@),
            ),
            ClientError::ArithmeticFailed(key, value, e) => Refusal::ArithmeticFailed(
                key@,
                value@,
                *e,
            ),
        }
    }
}

/// The pairs of names and values of a form, as characters.
pub type Pairs = Seq<(Seq<char>, Seq<char>)>;

/// The value of a name: that of the last pair with the name, as in a map
/// that is filled pair by pair.
pub open spec fn lookup(pairs: Pairs, key: Seq<char>) -> Option<Seq<char>>
    decreases pairs.len(),
{
    if pairs.len() == 0 {
        None
    } else if pairs.last().0 == key {
        Some(pairs.last().1)
    } else {
        lookup(pairs.drop_last(), key)
    }
}

/// The pairs that a request body in the syntax
/// `application/x-www-form-urlencoded` holds, as the crate form_urlencoded
/// reads them.
pub uninterp spec fn form_urlencoded_pairs(input: Seq<u8>) -> Seq<(Seq<char>, Seq<char>)>;

/// The pairs of strings as pairs of characters.
pub open spec fn pairs_view(pairs: Seq<(String, String)>) -> Pairs {
    pairs.map_values(|p: (String, String)| (p.0@, p.1@))
}

/// Calls form_urlencoded's `parse` and collects the pairs that its
/// iterator yields, each as two owned strings.
///
/// The result depends on the bytes alone; the contract names it.
#[verifier::external_body]
fn parse_pairs(input: &[u8]) -> (pairs: Vec<(String, String)>)
    ensures
        pairs_view(pairs@) == form_urlencoded_pairs(input@),
{
    form_urlencoded::parse(input).into_owned().collect()
}

/// The names and values of a submitted form.
#[derive(Clone, Debug, PartialEq, Eq)]
pub struct Form {
    pairs: Vec<(String, String)>,
}

impl View for Form {
    type V = Pairs;

    closed spec fn view(&self) -> Pairs {
        pairs_view(self.pairs@)
    }
}

impl Form {
    /// The form of the given pairs of names and values.
    pub fn from_pairs(pairs: Vec<(String, String)>) -> (form: Form)
        ensures
            form@ == pairs_view(pairs@),
    {
        Form { pairs }
    }

    /// The form that a request body or a query string holds.
    pub fn parse(input: &[u8]) -> (form: Form)
        ensures
            form@ == form_urlencoded_pairs(input@),
    {
        Form { pairs: parse_pairs(input) }
    }

    /// The value of a name, if the form has one. Of several values of one
    /// name the last counts.
    pub fn get(&self, key: &str) -> (value: Option<&String>)
        ensures
            match value {
                Some(v) => lookup(self@, key@) == Some(v@),
                None => lookup(self@, key@) is None,
            },
    {
        let mut i: usize = self.pairs.len();
        proof {
            assert(self@.take(i as int) =~= self@);
        }
        while i > 0
            invariant
                i <= self.pairs.len(),
                lookup(self@, key@) == lookup(self@.take(i as int), key@),
            decreases i,
        {
            i = i - 1;
            proof {
                assert(self@.take(i as int + 1).drop_last() =~= self@.take(i as int));
                assert(self@.take(i as int + 1).last() == self@[i as int]);
                assert(self@[i as int] == (self.pairs@[i as int].0@, self.pairs@[i as int].1@));
            }
            if same_text(self.pairs[i].0.as_str(), key) {
                return Some(&self.pairs[i].1);
            }
        }
        None
    }
}

/// What `get_form_i32_gt0` returns.
pub open spec fn form_i32_gt0(pairs: Pairs, key: Seq<char>) -> Result<Option<int>, Refusal> {
    match lookup(pairs, key) {
        None => Ok(None),
        Some(text) => match parse_int(text, i32::MIN as int, i32::MAX as int) {
            Err(e) => Err(Refusal::FailedToParseIntValue(key, text, e)),
            Ok(v) => if v < 0 {
                Err(Refusal::IntValueZeroOrLess(key, v))
            } else {
                Ok(Some(v))
            },
        },
    }
}

/// What `get_form_i64` returns.
pub open spec fn form_i64(pairs: Pairs, key: Seq<char>) -> Result<Option<int>, Refusal> {
    match lookup(pairs, key) {
        None => Ok(None),
        Some(text) => match parse_int(text, i64::MIN as int, i64::MAX as int) {
            Err(e) => Err(Refusal::FailedToParseIntValue(key, text, e)),
            Ok(v) => Ok(Some(v)),
        },
    }
}

/// What `get_form_r32` returns.
pub open spec fn form_r32(pairs: Pairs, key: Seq<char>) -> Result<Option<Fraction>, Refusal> {
    match lookup(pairs, key) {
        None => Ok(None),
        Some(text) => match parse_decimal(text) {
            Err(e) => Err(Refusal::FailedToParseRationalValue(key, text, e)),
            Ok(v) => Ok(Some(v)),
        },
    }
}

/// What `get_form_r32_gt0` returns.
pub open spec fn form_r32_gt0(pairs: Pairs, key: Seq<char>) -> Result<Option<Fraction>, Refusal> {
    match form_r32(pairs, key) {
        Err(e) => Err(e),
        Ok(None) => Ok(None),
        Ok(Some(v)) => if v.num < 0 {
            Err(Refusal::RationalValueZeroOrLess(key, v))
        } else {
            Ok(Some(v))
        },
    }
}

/// A value that has to be there: without it the result is the refusal
/// `MissingValue`.
pub open spec fn required<T>(r: Result<Option<T>, Refusal>, key: Seq<char>) -> Result<T, Refusal> {
    match r {
        Ok(Some(v)) => Ok(v),
        Ok(None) => Err(Refusal::MissingValue(key)),
        Err(e) => Err(e),
    }
}

/// The model of a whole number that was read from a form.
pub open spec fn i32_outcome(r: Result<Option<i32>, ClientError>) -> Result<Option<int>, Refusal> {
    match r {
        Ok(Some(v)) => Ok(Some(v as int)),
        Ok(None) => Ok(None),
        Err(e) => Err(e@),
    }
}

/// The model of a whole number that was read from a form.
pub open spec fn i64_outcome(r: Result<Option<i64>, ClientError>) -> Result<Option<int>, Refusal> {
    match r {
        Ok(Some(v)) => Ok(Some(v as int)),
        Ok(None) => Ok(None),
        Err(e) => Err(e@),
    }
}

/// The model of an exact value that was read from a form.
pub open spec fn r32_outcome(r: Result<Option<Rational>, ClientError>) -> Result<
    Option<Fraction>,
    Refusal,
> {
    match r {
        Ok(Some(v)) => Ok(Some(v@)),
        Ok(None) => Ok(None),
        Err(e) => Err(e@),
    }
}

/// The model of a required whole number that was read from a form.
pub open spec fn req_i32_outcome(r: Result<i32, ClientError>) -> Result<int, Refusal> {
    match r {
        Ok(v) => Ok(v as int),
        Err(e) => Err(e@),
    }
}

/// The model of a required whole number that was read from a form.
pub open spec fn req_i64_outcome(r: Result<i64, ClientError>) -> Result<int, Refusal> {
    match r {
        Ok(v) => Ok(v as int),
        Err(e) => Err(e@),
    }
}

/// The model of a required exact value that was read from a form.
pub open spec fn req_r32_outcome(r: Result<Rational, ClientError>) -> Result<Fraction, Refusal> {
    match r {
        Ok(v) => Ok(v@),
        Err(e) => Err(e@),
    }
}

/// Reads the whole number of a name, which may not be below zero.
///
/// Without a value of the name there is no number. A value that is no
/// 32-bit whole number, and a number below zero, are refused.
pub fn get_form_i32_gt0(req_kv: &Form, key: &str) -> (r: Result<Option<i32>, ClientError>)
    ensures
        i32_outcome(r) == form_i32_gt0(req_kv@, key@),
{
    let string_value = match req_kv.get(key) {
        Some(sv) => sv,
        None => {
            return Ok(None);
        },
    };
    match parse_i32(string_value.as_str()) {
        Err(e) => Err(
            ClientError::FailedToParseIntValue(key.to_owned(), string_value.clone(), e),
        ),
        Ok(value) => {
            if value < 0 {
                Err(ClientError::IntValueZeroOrLess(key.to_owned(), value))
            } else {
                Ok(Some(value))
            }
        },
    }
}

/// Reads the whole number of a name, which has to be there and may not be
/// below zero.
pub fn get_req_form_i32_gt0(req_kv: &Form, key: &str) -> (r: Result<i32, ClientError>)
    ensures
        req_i32_outcome(r) == required(form_i32_gt0(req_kv@, key@), key@),
{
    match get_form_i32_gt0(req_kv, key) {
        Ok(Some(i)) => Ok(i),
        Ok(None) => Err(ClientError::MissingValue(key.to_owned())),
        Err(e) => Err(e),
    }
}

/// Reads the 64-bit whole number of a name.
///
/// Without a value of the name there is no number. A value that is no
/// 64-bit whole number is refused.
pub fn get_form_i64(req_kv: &Form, key: &str) -> (r: Result<Option<i64>, ClientError>)
    ensures
        i64_outcome(r) == form_i64(req_kv@, key@),
{
    let string_value = match req_kv.get(key) {
        Some(sv) => sv,
        None => {
            return Ok(None);
        },
    };
    match parse_i64(string_value.as_str()) {
        Err(e) => Err(
            ClientError::FailedToParseIntValue(key.to_owned(), string_value.clone(), e),
        ),
        Ok(value) => Ok(Some(value)),
    }
}

/// Reads the 64-bit whole number of a name, which has to be there.
pub fn get_req_form_i64(req_kv: &Form, key: &str) -> (r: Result<i64, ClientError>)
    ensures
        req_i64_outcome(r) == required(form_i64(req_kv@, key@), key@),
{
    match get_form_i64(req_kv, key) {
        Ok(Some(i)) => Ok(i),
        Ok(None) => Err(ClientError::MissingValue(key.to_owned())),
        Err(e) => Err(e),
    }
}

/// Reads the exact value of a name.
///
/// Without a value of the name there is no number. A value that is no
/// decimal literal, or that cannot be stored, is refused.
pub fn get_form_r32(req_kv: &Form, key: &str) -> (r: Result<Option<Rational>, ClientError>)
    ensures
        r32_outcome(r) == form_r32(req_kv@, key@),
        r matches Ok(Some(v)) ==> v.wf(),
{
    let string_value = match req_kv.get(key) {
        Some(sv) => sv,
        None => {
            return Ok(None);
        },
    };
    match r32_from_decimal(string_value.as_str()) {
        Err(e) => Err(
            ClientError::FailedToParseRationalValue(key.to_owned(), string_value.clone(), e),
        ),
        Ok(value) => Ok(Some(value)),
    }
}

/// Reads the exact value of a name, which may not be below zero.
pub fn get_form_r32_gt0(req_kv: &Form, key: &str) -> (r: Result<Option<Rational>, ClientError>)
    ensures
        r32_outcome(r) == form_r32_gt0(req_kv@, key@),
        r matches Ok(Some(v)) ==> v.wf(),
{
    match get_form_r32(req_kv, key) {
        Err(e) => Err(e),
        Ok(None) => Ok(None),
        Ok(Some(v)) => {
            if v.is_negative() {
                Err(ClientError::RationalValueZeroOrLess(key.to_owned(), v))
            } else {
                Ok(Some(v))
            }
        },
    }
}

/// Reads the exact value of a name, which has to be there.
pub fn get_req_form_r32(req_kv: &Form, key: &str) -> (r: Result<Rational, ClientError>)
    ensures
        req_r32_outcome(r) == required(form_r32(req_kv@, key@), key@),
        r matches Ok(v) ==> v.wf(),
{
    match get_form_r32(req_kv, key) {
        Ok(Some(i)) => Ok(i),
        Ok(None) => Err(ClientError::MissingValue(key.to_owned())),
        Err(e) => Err(e),
    }
}

/// Reads the exact value of a name, which has to be there and may not be
/// below zero.
pub fn get_req_form_r32_gt0(req_kv: &Form, key: &str) -> (r: Result<Rational, ClientError>)
    ensures
        req_r32_outcome(r) == required(form_r32_gt0(req_kv@, key@), key@),
        r matches Ok(v) ==> v.wf(),
{
    match get_form_r32_gt0(req_kv, key) {
        Ok(Some(i)) => Ok(i),
        Ok(None) => Err(ClientError::MissingValue(key.to_owned())),
        Err(e) => Err(e),
    }
}

} // verus!
