//! The units in which quantities are kept: the body-mass index from a mass
//! and a height, and the concentration of blood sugar in mmol/L.

use crate::decimal::chars_of;
use crate::fraction::Fraction;
use crate::rational::{div_spec, new_spec, result_view, stored, ArithmeticError, Rational};
use crate::stats::option_view;
use vstd::prelude::*;

verus! {

/// The square of a height in metres, given in centimetres.
pub open spec fn squared_height(height_cm: int) -> Result<Fraction, ArithmeticError> {
    match new_spec(height_cm, 100) {
        Err(e) => Err(e),
        Ok(height_m) => stored(height_m.times(height_m)),
    }
}

/// The body-mass index: the mass in kilograms divided by the square of the
/// height in metres. Without a height there is none.
pub open spec fn bmi_of(mass_kg: Fraction, height_cm: Option<int>) -> Result<
    Option<Fraction>,
    ArithmeticError,
> {
    match height_cm {
        None => Ok(None),
        Some(h) => match squared_height(h) {
            Err(e) => Err(e),
            Ok(square) => match div_spec(mass_kg, square) {
                Err(e) => Err(e),
                Ok(bmi) => Ok(Some(bmi)),
            },
        },
    }
}

/// The model of a body-mass index that may be absent or fail.
pub open spec fn bmi_view(r: Result<Option<Rational>, ArithmeticError>) -> Result<
    Option<Fraction>,
    ArithmeticError,
> {
    match r {
        Ok(v) => Ok(option_view(v)),
        Err(e) => Err(e),
    }
}

/// The height as a whole number in a model.
pub open spec fn height_view(height_cm: Option<i32>) -> Option<int> {
    match height_cm {
        Some(h) => Some(h as int),
        None => None,
    }
}

/// The square of a height in metres, for a height given in centimetres.
pub fn squared_height_m2(height_cm: i32) -> (r: Result<Rational, ArithmeticError>)
    ensures
        result_view(r) == squared_height(height_cm as int),
        r matches Ok(v) ==> v.wf(),
{
    match Rational::new(height_cm, 100) {
        Ok(height_m) => height_m.checked_mul(&height_m),
        Err(e) => Err(e),
    }
}

/// The body-mass index of a mass in kilograms and a height in centimetres:
/// the mass divided by the square of the height in metres, as an exact
/// value.
///
/// Without a height the index cannot be computed and is absent. A height
/// of zero is a division by zero.
pub fn body_mass_index(mass_kg: &Rational, height_cm: Option<i32>) -> (r: Result<
    Option<Rational>,
    ArithmeticError,
>)
    ensures
        bmi_view(r) == bmi_of(mass_kg@, height_view(height_cm)),
        r matches Ok(Some(v)) ==> v.wf(),
{
    match height_cm {
        None => Ok(None),
        Some(h) => match squared_height_m2(h) {
            Err(e) => Err(e),
            Ok(square) => match mass_kg.checked_div(&square) {
                Err(e) => Err(e),
                Ok(bmi) => Ok(Some(bmi)),
            },
        },
    }
}

/// The unit in which a concentration of blood sugar is entered.
#[derive(Clone, Copy, Debug, PartialEq, Eq, Structural)]
pub enum SugarUnit {
    /// Millimoles per litre, the unit in which concentrations are kept.
    MmolPerL,
    /// Milligrams per decilitre.
    MgPerDl,
}

/// The key of millimoles per litre.
pub open spec fn mmol_per_l_key() -> Seq<char> {
    "mmol-per-l"@
}

/// The key of milligrams per decilitre.
pub open spec fn mg_per_dl_key() -> Seq<char> {
    "mg-per-dl"@
}

/// The unit that a key names.
pub open spec fn unit_of_key(key: Seq<char>) -> Option<SugarUnit> {
    if key == mmol_per_l_key() {
        Some(SugarUnit::MmolPerL)
    } else if key == mg_per_dl_key() {
        Some(SugarUnit::MgPerDl)
    } else {
        None
    }
}

/// The factor that turns a concentration in the unit into mmol/L.
pub open spec fn factor_of(unit: SugarUnit) -> Fraction {
    match unit {
        SugarUnit::MmolPerL => Fraction { num: 1, den: 1 },
        SugarUnit::MgPerDl => Fraction { num: 1, den: 18 },
    }
}

/// Whether two strings hold the same characters.
pub fn same_text(a: &str, b: &str) -> (r: bool)
    ensures
        r == (a@ == b@),
{
    let x = chars_of(a);
    let y = chars_of(b);
    if x.len() != y.len() {
        return false;
    }
    let mut i: usize = 0;
    while i < x.len()
        invariant
            i <= x.len(),
            x.len() == y.len(),
            x@ == a@,
            y@ == b@,
            forall|j: int| 0 <= j < i ==> x@[j] == y@[j],
        decreases x.len() - i,
    {
        if x[i] != y[i] {
            return false;
        }
        i = i + 1;
    }
    proof {
        assert(a@ =~= b@);
    }
    true
}

impl SugarUnit {
    /// The unit that a key names: `mmol-per-l` or `mg-per-dl`.
    pub fn from_key(key: &str) -> (r: Option<SugarUnit>)
        ensures
            r == unit_of_key(key@),
    {
        if same_text(key, "mmol-per-l") {
            Some(SugarUnit::MmolPerL)
        } else if same_text(key, "mg-per-dl") {
            Some(SugarUnit::MgPerDl)
        } else {
            None
        }
    }

    /// The factor that turns a concentration in this unit into mmol/L: 1
    /// for mmol/L, 1/18 for mg/dL.
    pub fn factor_to_mmol_per_l(&self) -> (r: Rational)
        ensures
            r@ == factor_of(*self),
            r.wf(),
    {
        match self {
            SugarUnit::MmolPerL => Rational::from_integer(1),
            SugarUnit::MgPerDl => {
                let r = Rational::new(1, 18);
                proof {
                    lemma_one_eighteenth();
                }
                r.unwrap()
            },
        }
    }

    /// A concentration in this unit as a concentration in mmol/L.
    pub fn to_mmol_per_l(&self, value: &Rational) -> (r: Result<Rational, ArithmeticError>)
        ensures
            result_view(r) == stored(value@.times(factor_of(*self))),
            r matches Ok(v) ==> v.wf(),
    {
        let factor = self.factor_to_mmol_per_l();
        value.checked_mul(&factor)
    }
}

/// One eighteenth is in lowest terms.
proof fn lemma_one_eighteenth()
    ensures
        new_spec(1, 18) == Ok::<Fraction, ArithmeticError>(Fraction { num: 1, den: 18 }),
{
    let f = Fraction { num: 1, den: 18 };
    assert(crate::numbers::gcd(1, 18) == 1) by {
        reveal_with_fuel(crate::numbers::gcd, 4);
        assert(1nat % 18nat == 1);
        assert(18nat % 1nat == 0);
    }
    assert(f.sign_normalized() == f);
    assert(crate::numbers::abs(f.num) == 1 && crate::numbers::abs(f.den) == 18);
    assert(1int / 1 == 1 && 18int / 1 == 18);
    assert(f.reduced() == f);
}

} // verus!
