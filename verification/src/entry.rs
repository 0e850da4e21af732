//! New measurements from the values of a submitted form, and measurements
//! from the values that the store holds as text.

use crate::datetime::Timestamp;
use crate::decimal::{parse_decimal, r32_from_decimal, ParseRationalError};
use crate::form::{
    form_i32_gt0, form_i64, form_r32, form_r32_gt0, get_form_i32_gt0, get_req_form_i32_gt0,
    get_req_form_i64, get_req_form_r32, get_req_form_r32_gt0, lookup, required, ClientError, Form,
    Pairs, Refusal,
};
use crate::fraction::{lemma_reduced_is_reduced, Fraction};
use crate::model::{
    BloodPressureMeasurement, BloodSugarMeasurement, BodyMassMeasurement,
    BodyTemperatureMeasurement, UNSET_ID,
};
use crate::rational::{stored, ArithmeticError, Rational};
use crate::units::{
    bmi_of, body_mass_index, factor_of, height_view, mg_per_dl_key, mmol_per_l_key, unit_of_key,
    SugarUnit,
};
use vstd::prelude::*;

verus! {

/// The greatest oxygen saturation, in percent.
pub const MAX_SPO2_PERCENT: i32 = 100;

/// The model of a measurement that was made from a form.
pub open spec fn outcome<T>(r: Result<T, ClientError>) -> Result<T, Refusal> {
    match r {
        Ok(v) => Ok(v),
        Err(e) => Err(e@),
    }
}

/// The name of the systolic pressure in a form.
pub open spec fn systolic_key() -> Seq<char> {
    "systolic_mmhg"@
}

/// The name of the diastolic pressure in a form.
pub open spec fn diastolic_key() -> Seq<char> {
    "diastolic_mmhg"@
}

/// The name of the pulse in a form.
pub open spec fn pulse_key() -> Seq<char> {
    "pulse_bpm"@
}

/// The name of the oxygen saturation in a form.
pub open spec fn spo2_key() -> Seq<char> {
    "spo2_percent"@
}

/// The name of the mass in a form.
pub open spec fn mass_key() -> Seq<char> {
    "mass_kg"@
}

/// The name of the place of measurement in a form.
pub open spec fn location_key() -> Seq<char> {
    "location"@
}

/// The name of the temperature in a form.
pub open spec fn temperature_key() -> Seq<char> {
    "temperature_celsius"@
}

/// The name of the unit of blood sugar in a form.
pub open spec fn sugar_unit_key() -> Seq<char> {
    "sugar_unit_key"@
}

/// The name of the concentration of blood sugar in a form.
pub open spec fn sugar_value_key() -> Seq<char> {
    "sugar_value"@
}

/// What `get_measurement_from_form` returns: the three required numbers
/// and the saturation are read in this order, and the first refusal is the
/// result; a saturation above `MAX_SPO2_PERCENT` is refused last.
pub open spec fn blood_pressure_of_form(pairs: Pairs, now: Timestamp) -> Result<
    BloodPressureMeasurement,
    Refusal,
> {
    match required(form_i32_gt0(pairs, systolic_key()), systolic_key()) {
        Err(e) => Err(e),
        Ok(systolic) => match required(form_i32_gt0(pairs, diastolic_key()), diastolic_key()) {
            Err(e) => Err(e),
            Ok(diastolic) => match required(form_i32_gt0(pairs, pulse_key()), pulse_key()) {
                Err(e) => Err(e),
                Ok(pulse) => match form_i32_gt0(pairs, spo2_key()) {
                    Err(e) => Err(e),
                    Ok(Some(sat)) => if sat > MAX_SPO2_PERCENT {
                        Err(Refusal::IntValueTooHigh(spo2_key(), sat, MAX_SPO2_PERCENT as int))
                    } else {
                        Ok(
                            BloodPressureMeasurement {
                                id: UNSET_ID,
                                timestamp: now,
                                systolic_mmhg: systolic as i32,
                                diastolic_mmhg: diastolic as i32,
                                pulse_bpm: pulse as i32,
                                spo2_percent: Some(sat as i32),
                            },
                        )
                    },
                    Ok(None) => Ok(
                        BloodPressureMeasurement {
                            id: UNSET_ID,
                            timestamp: now,
                            systolic_mmhg: systolic as i32,
                            diastolic_mmhg: diastolic as i32,
                            pulse_bpm: pulse as i32,
                            spo2_percent: None,
                        },
                    ),
                },
            },
        },
    }
}

/// Makes a reading of blood pressure, taken at `now`, from a form.
///
/// The form has to hold the whole numbers `systolic_mmhg`,
/// `diastolic_mmhg` and `pulse_bpm`, none of them below zero; it may hold
/// `spo2_percent`, from 0 to 100. The measurement has no identity yet.
pub fn get_measurement_from_form(req_kv: &Form, now: Timestamp) -> (r: Result<
    BloodPressureMeasurement,
    ClientError,
>)
    ensures
        outcome(r) == blood_pressure_of_form(req_kv@, now),
{
    let systolic_mmhg: i32 = match get_req_form_i32_gt0(req_kv, "systolic_mmhg") {
        Ok(v) => v,
        Err(e) => {
            return Err(e);
        },
    };
    let diastolic_mmhg: i32 = match get_req_form_i32_gt0(req_kv, "diastolic_mmhg") {
        Ok(v) => v,
        Err(e) => {
            return Err(e);
        },
    };
    let pulse_bpm: i32 = match get_req_form_i32_gt0(req_kv, "pulse_bpm") {
        Ok(v) => v,
        Err(e) => {
            return Err(e);
        },
    };
    let spo2_percent: Option<i32> = match get_form_i32_gt0(req_kv, "spo2_percent") {
        Ok(v) => v,
        Err(e) => {
            return Err(e);
        },
    };
    if let Some(sat) = spo2_percent {
        if sat > MAX_SPO2_PERCENT {
            return Err(
                ClientError::IntValueTooHigh("spo2_percent".to_owned(), sat, MAX_SPO2_PERCENT),
            );
        }
    }
    Ok(
        BloodPressureMeasurement::new(
            UNSET_ID,
            now,
            systolic_mmhg,
            diastolic_mmhg,
            pulse_bpm,
            spo2_percent,
        ),
    )
}

/// What `get_mass_measurement_from_form` returns.
pub open spec fn mass_of_form(pairs: Pairs, height_cm: Option<int>, now: Timestamp) -> Result<
    (Fraction, Option<Fraction>),
    Refusal,
> {
    match required(form_r32_gt0(pairs, mass_key()), mass_key()) {
        Err(e) => Err(e),
        Ok(mass) => match bmi_of(mass, height_cm) {
            Err(e) => Err(Refusal::ArithmeticFailed(mass_key(), lookup(pairs, mass_key())->0, e)),
            Ok(bmi) => Ok((mass, bmi)),
        },
    }
}

/// Makes a reading of body mass, taken at `now`, from a form.
///
/// The form has to hold the exact value `mass_kg`, not below zero. The
/// body-mass index is computed from it and from the height, if there is
/// one. The measurement has no identity yet.
pub fn get_mass_measurement_from_form(req_kv: &Form, height_cm: Option<i32>, now: Timestamp) -> (r:
    Result<BodyMassMeasurement, ClientError>)
    ensures
        match mass_of_form(req_kv@, height_view(height_cm), now) {
            Err(e) => r matches Err(x) && x@ == e,
            Ok((mass, bmi)) => r matches Ok(m) && m.id == UNSET_ID && m.timestamp == now
                && m.mass_kg@ == mass && crate::stats::option_view(m.bmi) == bmi,
        },
{
    let mass_kg: Rational = match get_req_form_r32_gt0(req_kv, "mass_kg") {
        Ok(v) => v,
        Err(e) => {
            return Err(e);
        },
    };
    match body_mass_index(&mass_kg, height_cm) {
        Ok(bmi) => Ok(BodyMassMeasurement::new(UNSET_ID, now, mass_kg, bmi)),
        Err(e) => {
            let raw = match req_kv.get("mass_kg") {
                Some(v) => v.clone(),
                None => String::new(),
            };
            Err(ClientError::ArithmeticFailed("mass_kg".to_owned(), raw, e))
        },
    }
}

/// Absolute zero in degrees Celsius, as a fraction that is not reduced.
pub open spec fn absolute_zero_celsius() -> Fraction {
    Fraction { num: -27315, den: 100 }
}

/// What `get_temperature_measurement_from_form` returns.
pub open spec fn temperature_of_form(pairs: Pairs, now: Timestamp) -> Result<
    (int, Fraction),
    Refusal,
> {
    match required(form_i64(pairs, location_key()), location_key()) {
        Err(e) => Err(e),
        Ok(location) => match required(form_r32(pairs, temperature_key()), temperature_key()) {
            Err(e) => Err(e),
            Ok(t) => if t.less_than(absolute_zero_celsius()) {
                Err(
                    Refusal::RationalValueTooLow(
                        temperature_key(),
                        t,
                        absolute_zero_celsius().reduced(),
                    ),
                )
            } else {
                Ok((location, t))
            },
        },
    }
}

/// Absolute zero in degrees Celsius.
pub fn absolute_zero() -> (r: Rational)
    ensures
        r@ == absolute_zero_celsius().reduced(),
        r@.same_value(absolute_zero_celsius()),
        r.wf(),
{
    proof {
        lemma_reduced_is_reduced(absolute_zero_celsius());
    }
    match Rational::new(-27315, 100) {
        Ok(v) => v,
        Err(_) => Rational::zero(),
    }
}

/// Makes a reading of body temperature, taken at `now`, from a form.
///
/// The form has to hold the whole number `location` and the exact value
/// `temperature_celsius`, which may not be below absolute zero. The
/// measurement has no identity yet.
pub fn get_temperature_measurement_from_form(req_kv: &Form, now: Timestamp) -> (r: Result<
    BodyTemperatureMeasurement,
    ClientError,
>)
    ensures
        match temperature_of_form(req_kv@, now) {
            Err(e) => r matches Err(x) && x@ == e,
            Ok((location, t)) => r matches Ok(m) && m.id == UNSET_ID && m.timestamp == now
                && m.location_id == location && m.temperature_celsius@ == t,
        },
{
    let location_id: i64 = match get_req_form_i64(req_kv, "location") {
        Ok(v) => v,
        Err(e) => {
            return Err(e);
        },
    };
    let temp_celsius: Rational = match get_req_form_r32(req_kv, "temperature_celsius") {
        Ok(v) => v,
        Err(e) => {
            return Err(e);
        },
    };
    let least = absolute_zero();
    proof {
        lemma_same_order(temp_celsius@, least@, absolute_zero_celsius());
    }
    if temp_celsius.lt(&least) {
        return Err(
            ClientError::RationalValueTooLow("temperature_celsius".to_owned(), temp_celsius, least),
        );
    }
    Ok(BodyTemperatureMeasurement::new(UNSET_ID, now, location_id, temp_celsius))
}

/// A fraction is less than another one exactly if it is less than every
/// fraction of the same value as that one.
pub proof fn lemma_same_order(p: Fraction, q: Fraction, r: Fraction)
    requires
        q.den > 0,
        r.den > 0,
        q.same_value(r),
    ensures
        p.less_than(q) == p.less_than(r),
{
    assert((p.num * q.den < q.num * p.den) == (p.num * r.den < r.num * p.den)) by (nonlinear_arith)
        requires
            q.den > 0,
            r.den > 0,
            q.num * r.den == r.num * q.den,
    ;
}

/// The names of the units of blood sugar.
pub open spec fn sugar_unit_keys() -> Seq<Seq<char>> {
    seq![mmol_per_l_key(), mg_per_dl_key()]
}

/// What `get_sugar_measurement_from_form` returns: the unit is read
/// first, then the value, which is then turned into mmol/L.
pub open spec fn sugar_of_form(pairs: Pairs, now: Timestamp) -> Result<Fraction, Refusal> {
    match lookup(pairs, sugar_unit_key()) {
        None => Err(Refusal::MissingValue(sugar_unit_key())),
        Some(key) => match unit_of_key(key) {
            None => Err(Refusal::ValueIsInvalidOption(sugar_unit_key(), key, sugar_unit_keys())),
            Some(unit) => match required(
                form_r32_gt0(pairs, sugar_value_key()),
                sugar_value_key(),
            ) {
                Err(e) => Err(e),
                Ok(value) => match stored(value.times(factor_of(unit))) {
                    Err(e) => Err(
                        Refusal::ArithmeticFailed(
                            sugar_value_key(),
                            lookup(pairs, sugar_value_key())->0,
                            e,
                        ),
                    ),
                    Ok(v) => Ok(v),
                },
            },
        },
    }
}

/// Makes a reading of blood sugar, taken at `now`, from a form.
///
/// The form has to hold `sugar_unit_key`, which is `mmol-per-l` or
/// `mg-per-dl`, and the exact value `sugar_value`, not below zero, in that
/// unit. The measurement holds the concentration in mmol/L and has no
/// identity yet.
pub fn get_sugar_measurement_from_form(req_kv: &Form, now: Timestamp) -> (r: Result<
    BloodSugarMeasurement,
    ClientError,
>)
    ensures
        match sugar_of_form(req_kv@, now) {
            Err(e) => r matches Err(x) && x@ == e,
            Ok(v) => r matches Ok(m) && m.id == UNSET_ID && m.timestamp == now
                && m.sugar_mmol_per_l@ == v,
        },
{
    let unit_key = match req_kv.get("sugar_unit_key") {
        Some(uk) => uk,
        None => {
            return Err(ClientError::MissingValue("sugar_unit_key".to_owned()));
        },
    };
    let unit = match SugarUnit::from_key(unit_key.as_str()) {
        Some(u) => u,
        None => {
            let mut options: Vec<String> = Vec::new();
            options.push("mmol-per-l".to_owned());
            options.push("mg-per-dl".to_owned());
            proof {
                assert(options@.map_values(|s: String| s@) =~= sugar_unit_keys());
            }
            return Err(
                ClientError::ValueIsInvalidOption(
                    "sugar_unit_key".to_owned(),
                    unit_key.clone(),
                    options,
                ),
            );
        },
    };
    let sugar_value: Rational = match get_req_form_r32_gt0(req_kv, "sugar_value") {
        Ok(v) => v,
        Err(e) => {
            return Err(e);
        },
    };
    match unit.to_mmol_per_l(&sugar_value) {
        Ok(sugar_mmol_per_l) => Ok(BloodSugarMeasurement::new(UNSET_ID, now, sugar_mmol_per_l)),
        Err(e) => {
            let raw = match req_kv.get("sugar_value") {
                Some(v) => v.clone(),
                None => String::new(),
            };
            Err(ClientError::ArithmeticFailed("sugar_value".to_owned(), raw, e))
        },
    }
}

/// Why a stored value gives no measurement.
#[derive(Clone, Copy, Debug, PartialEq, Eq, Structural)]
pub enum StoredValueError {
    /// The text is not read as an exact value.
    Malformed(ParseRationalError),
    /// What is computed from the value cannot be stored.
    Arithmetic(ArithmeticError),
}

/// What `mass_measurement_from_stored` returns.
pub open spec fn mass_of_stored(text: Seq<char>, height_cm: Option<int>) -> Result<
    (Fraction, Option<Fraction>),
    StoredValueError,
> {
    match parse_decimal(text) {
        Err(e) => Err(StoredValueError::Malformed(e)),
        Ok(mass) => match bmi_of(mass, height_cm) {
            Err(e) => Err(StoredValueError::Arithmetic(e)),
            Ok(bmi) => Ok((mass, bmi)),
        },
    }
}

/// Makes a reading of body mass from what the store holds of it: its
/// identity, its timestamp and its mass as a decimal literal. The
/// body-mass index is computed from the mass and from the height, if there
/// is one.
pub fn mass_measurement_from_stored(
    id: i64,
    timestamp: Timestamp,
    mass_kg: &str,
    height_cm: Option<i32>,
) -> (r: Result<BodyMassMeasurement, StoredValueError>)
    ensures
        match mass_of_stored(mass_kg@, height_view(height_cm)) {
            Err(e) => r matches Err(x) && x == e,
            Ok((mass, bmi)) => r matches Ok(m) && m.id == id && m.timestamp == timestamp
                && m.mass_kg@ == mass && crate::stats::option_view(m.bmi) == bmi,
        },
{
    let mass = match r32_from_decimal(mass_kg) {
        Ok(v) => v,
        Err(e) => {
            return Err(StoredValueError::Malformed(e));
        },
    };
    match body_mass_index(&mass, height_cm) {
        Ok(bmi) => Ok(BodyMassMeasurement::new(id, timestamp, mass, bmi)),
        Err(e) => Err(StoredValueError::Arithmetic(e)),
    }
}

/// Makes a reading of body temperature from what the store holds of it:
/// its identity, its timestamp, its place and its temperature as a decimal
/// literal.
pub fn temperature_measurement_from_stored(
    id: i64,
    timestamp: Timestamp,
    location_id: i64,
    temperature_celsius: &str,
) -> (r: Result<BodyTemperatureMeasurement, StoredValueError>)
    ensures
        match parse_decimal(temperature_celsius@) {
            Err(e) => r matches Err(x) && x == StoredValueError::Malformed(e),
            Ok(t) => r matches Ok(m) && m.id == id && m.timestamp == timestamp && m.location_id
                == location_id && m.temperature_celsius@ == t,
        },
{
    match r32_from_decimal(temperature_celsius) {
        Ok(t) => Ok(BodyTemperatureMeasurement::new(id, timestamp, location_id, t)),
        Err(e) => Err(StoredValueError::Malformed(e)),
    }
}

/// Makes a reading of blood sugar from what the store holds of it: its
/// identity, its timestamp and its concentration in mmol/L as a decimal
/// literal.
pub fn sugar_measurement_from_stored(id: i64, timestamp: Timestamp, sugar_mmol_per_l: &str) -> (r:
    Result<BloodSugarMeasurement, StoredValueError>)
    ensures
        match parse_decimal(sugar_mmol_per_l@) {
            Err(e) => r matches Err(x) && x == StoredValueError::Malformed(e),
            Ok(v) => r matches Ok(m) && m.id == id && m.timestamp == timestamp
                && m.sugar_mmol_per_l@ == v,
        },
{
    match r32_from_decimal(sugar_mmol_per_l) {
        Ok(v) => Ok(BloodSugarMeasurement::new(id, timestamp, v)),
        Err(e) => Err(StoredValueError::Malformed(e)),
    }
}

} // verus!
