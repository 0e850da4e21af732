//! The four kinds of measurement and their composite summary records.

use crate::datetime::Timestamp;
use crate::fraction::Fraction;
use crate::measurement::{
    average, is_average, is_quasi_n_tile, quasi_n_tile, Composite, Measurement,
};
use crate::rational::{ArithmeticError, Rational};
use crate::stats::{greater_of, greater_of_present, lesser_of, lesser_of_present, option_view};
use vstd::prelude::*;

verus! {

/// The identity of a measurement that has not been stored yet.
pub const UNSET_ID: i64 = -1;

/// The exact value of a whole number that may be absent.
pub fn exact_if_any(v: Option<i32>) -> (r: Option<Rational>)
    ensures
        option_view(r) == match v {
            Some(n) => Some(Fraction::of_int(n as int)),
            None => None,
        },
        r matches Some(x) ==> x.wf(),
{
    match v {
        Some(n) => Some(Rational::from_integer(n)),
        None => None,
    }
}

/// A reading of blood pressure.
#[derive(Clone, Copy, Debug, PartialEq, Eq, Structural)]
pub struct BloodPressureMeasurement {
    /// The identity, `UNSET_ID` until the measurement is stored.
    pub id: i64,
    pub timestamp: Timestamp,
    /// Systolic pressure in mmHg.
    pub systolic_mmhg: i32,
    /// Diastolic pressure in mmHg.
    pub diastolic_mmhg: i32,
    /// Pulse in beats per minute.
    pub pulse_bpm: i32,
    /// Oxygen saturation in percent, if it was measured.
    pub spo2_percent: Option<i32>,
}

/// A composite summary of readings of blood pressure.
#[derive(Clone, Copy, Debug, PartialEq, Eq, Structural)]
pub struct BloodPressureSummary {
    pub systolic_mmhg: Rational,
    pub diastolic_mmhg: Rational,
    pub pulse_bpm: Rational,
    pub spo2_percent: Option<Rational>,
}

/// The field of the systolic pressure.
pub const SYSTOLIC: usize = 0;

/// The field of the diastolic pressure.
pub const DIASTOLIC: usize = 1;

/// The field of the pulse.
pub const PULSE: usize = 2;

/// The field of the oxygen saturation.
pub const SPO2: usize = 3;

impl Measurement for BloodPressureMeasurement {
    open spec fn field_count() -> nat {
        4
    }

    open spec fn is_required(k: int) -> bool {
        k == SYSTOLIC || k == DIASTOLIC || k == PULSE
    }

    open spec fn field(self, k: int) -> Option<Fraction> {
        if k == SYSTOLIC {
            Some(Fraction::of_int(self.systolic_mmhg as int))
        } else if k == DIASTOLIC {
            Some(Fraction::of_int(self.diastolic_mmhg as int))
        } else if k == PULSE {
            Some(Fraction::of_int(self.pulse_bpm as int))
        } else if k == SPO2 {
            match self.spo2_percent {
                Some(v) => Some(Fraction::of_int(v as int)),
                None => None,
            }
        } else {
            None
        }
    }

    open spec fn taken_at(self) -> Timestamp {
        self.timestamp
    }

    proof fn lemma_required_is_present(self, k: int) {
    }

    fn fields() -> (n: usize) {
        4
    }

    fn value(&self, k: usize) -> (v: Option<Rational>) {
        if k == SYSTOLIC {
            Some(Rational::from_integer(self.systolic_mmhg))
        } else if k == DIASTOLIC {
            Some(Rational::from_integer(self.diastolic_mmhg))
        } else if k == PULSE {
            Some(Rational::from_integer(self.pulse_bpm))
        } else {
            exact_if_any(self.spo2_percent)
        }
    }

    fn timestamp(&self) -> (t: Timestamp) {
        proof {
            use_type_invariant(&self.timestamp);
        }
        self.timestamp
    }
}

impl Composite<BloodPressureMeasurement> for BloodPressureSummary {
    open spec fn part(self, k: int) -> Option<Fraction> {
        if k == SYSTOLIC {
            Some(self.systolic_mmhg@)
        } else if k == DIASTOLIC {
            Some(self.diastolic_mmhg@)
        } else if k == PULSE {
            Some(self.pulse_bpm@)
        } else if k == SPO2 {
            option_view(self.spo2_percent)
        } else {
            None
        }
    }

    fn of(m: &BloodPressureMeasurement) -> (s: Self) {
        BloodPressureSummary {
            systolic_mmhg: Rational::from_integer(m.systolic_mmhg),
            diastolic_mmhg: Rational::from_integer(m.diastolic_mmhg),
            pulse_bpm: Rational::from_integer(m.pulse_bpm),
            spo2_percent: exact_if_any(m.spo2_percent),
        }
    }

    fn from_parts(parts: &Vec<Option<Rational>>) -> (s: Self) {
        BloodPressureSummary {
            systolic_mmhg: parts[SYSTOLIC].unwrap(),
            diastolic_mmhg: parts[DIASTOLIC].unwrap(),
            pulse_bpm: parts[PULSE].unwrap(),
            spo2_percent: parts[SPO2],
        }
    }

    fn values_max(&self, m: &BloodPressureMeasurement) -> (s: Self) {
        BloodPressureSummary {
            systolic_mmhg: greater_of(self.systolic_mmhg, Rational::from_integer(m.systolic_mmhg)),
            diastolic_mmhg: greater_of(
                self.diastolic_mmhg,
                Rational::from_integer(m.diastolic_mmhg),
            ),
            pulse_bpm: greater_of(self.pulse_bpm, Rational::from_integer(m.pulse_bpm)),
            spo2_percent: greater_of_present(self.spo2_percent, exact_if_any(m.spo2_percent)),
        }
    }

    fn values_min(&self, m: &BloodPressureMeasurement) -> (s: Self) {
        BloodPressureSummary {
            systolic_mmhg: lesser_of(self.systolic_mmhg, Rational::from_integer(m.systolic_mmhg)),
            diastolic_mmhg: lesser_of(
                self.diastolic_mmhg,
                Rational::from_integer(m.diastolic_mmhg),
            ),
            pulse_bpm: lesser_of(self.pulse_bpm, Rational::from_integer(m.pulse_bpm)),
            spo2_percent: lesser_of_present(self.spo2_percent, exact_if_any(m.spo2_percent)),
        }
    }
}

impl BloodPressureMeasurement {
    /// A reading of blood pressure.
    pub fn new(
        id: i64,
        timestamp: Timestamp,
        systolic_mmhg: i32,
        diastolic_mmhg: i32,
        pulse_bpm: i32,
        spo2_percent: Option<i32>,
    ) -> (m: Self)
        ensures
            m.id == id,
            m.timestamp == timestamp,
            m.systolic_mmhg == systolic_mmhg,
            m.diastolic_mmhg == diastolic_mmhg,
            m.pulse_bpm == pulse_bpm,
            m.spo2_percent == spo2_percent,
    {
        BloodPressureMeasurement {
            id,
            timestamp,
            systolic_mmhg,
            diastolic_mmhg,
            pulse_bpm,
            spo2_percent,
        }
    }

    /// The readings that have an oxygen saturation, in their order.
    pub fn with_spo2(ms: &Vec<Self>) -> (r: Vec<Self>)
        ensures
            r@ == ms@.filter(|m: Self| m.spo2_percent is Some),
    {
        let mut r: Vec<Self> = Vec::new();
        let mut i: usize = 0;
        proof {
            assert(ms@.take(0) =~= Seq::empty());
            assert(Seq::<Self>::empty().filter(|m: Self| m.spo2_percent is Some) =~= Seq::empty())
                by {
                reveal(Seq::filter);
            }
        }
        while i < ms.len()
            invariant
                i <= ms.len(),
                r@ == ms@.take(i as int).filter(|m: Self| m.spo2_percent is Some),
            decreases ms.len() - i,
        {
            proof {
                assert(ms@.take(i as int + 1) =~= ms@.take(i as int).push(ms@[i as int]));
                ms@.take(i as int).lemma_filter_push(
                    ms@[i as int],
                    |m: Self| m.spo2_percent is Some,
                );
            }
            if ms[i].spo2_percent.is_some() {
                r.push(ms[i]);
            }
            i = i + 1;
        }
        proof {
            assert(ms@.take(i as int) =~= ms@);
        }
        r
    }

    /// The field-wise averages of the readings.
    pub fn average(ms: &Vec<Self>) -> (r: Result<BloodPressureSummary, ArithmeticError>)
        requires
            ms.len() > 0,
        ensures
            is_average(r, ms@),
    {
        average(ms)
    }

    /// The field-wise quasi-quantiles of the readings.
    pub fn quasi_n_tile(ms: &Vec<Self>, numerator: usize, denominator: usize) -> (s:
        BloodPressureSummary)
        requires
            ms.len() > 0,
            denominator > 0,
            numerator <= denominator,
        ensures
            is_quasi_n_tile(s, ms@, numerator as nat, denominator as nat),
    {
        quasi_n_tile(ms, numerator, denominator)
    }
}

/// A reading of body mass.
#[derive(Clone, Copy, Debug, PartialEq, Eq, Structural)]
pub struct BodyMassMeasurement {
    /// The identity, `UNSET_ID` until the measurement is stored.
    pub id: i64,
    pub timestamp: Timestamp,
    /// Mass in kilograms.
    pub mass_kg: Rational,
    /// Body-mass index, present only if a height is configured.
    pub bmi: Option<Rational>,
}

/// A composite summary of readings of body mass.
#[derive(Clone, Copy, Debug, PartialEq, Eq, Structural)]
pub struct BodyMassSummary {
    pub mass_kg: Rational,
    pub bmi: Option<Rational>,
}

/// The field of the mass.
pub const MASS: usize = 0;

/// The field of the body-mass index.
pub const BMI: usize = 1;

impl Measurement for BodyMassMeasurement {
    open spec fn field_count() -> nat {
        2
    }

    open spec fn is_required(k: int) -> bool {
        k == MASS
    }

    open spec fn field(self, k: int) -> Option<Fraction> {
        if k == MASS {
            Some(self.mass_kg@)
        } else if k == BMI {
            option_view(self.bmi)
        } else {
            None
        }
    }

    open spec fn taken_at(self) -> Timestamp {
        self.timestamp
    }

    proof fn lemma_required_is_present(self, k: int) {
    }

    fn fields() -> (n: usize) {
        2
    }

    fn value(&self, k: usize) -> (v: Option<Rational>) {
        proof {
            use_type_invariant(&self.mass_kg);
        }
        if k == MASS {
            Some(self.mass_kg)
        } else {
            match self.bmi {
                Some(b) => {
                    proof {
                        use_type_invariant(&b);
                    }
                    Some(b)
                },
                None => None,
            }
        }
    }

    fn timestamp(&self) -> (t: Timestamp) {
        proof {
            use_type_invariant(&self.timestamp);
        }
        self.timestamp
    }
}

impl BodyMassMeasurement {
    /// A reading of body mass.
    pub fn new(id: i64, timestamp: Timestamp, mass_kg: Rational, bmi: Option<Rational>) -> (m:
        Self)
        ensures
            m.id == id,
            m.timestamp == timestamp,
            m.mass_kg == mass_kg,
            m.bmi == bmi,
    {
        BodyMassMeasurement { id, timestamp, mass_kg, bmi }
    }

    /// The denominators of the values are positive.
    fn values_are_stored(&self)
        ensures
            self.mass_kg@.den > 0,
            self.bmi matches Some(b) ==> b@.den > 0,
    {
        proof {
            use_type_invariant(&self.mass_kg);
        }
        match self.bmi {
            Some(b) => {
                proof {
                    use_type_invariant(&b);
                }
            },
            None => {},
        }
    }

    /// The field-wise averages of the readings.
    pub fn average(ms: &Vec<Self>) -> (r: Result<BodyMassSummary, ArithmeticError>)
        requires
            ms.len() > 0,
        ensures
            is_average(r, ms@),
    {
        average(ms)
    }

    /// The field-wise quasi-quantiles of the readings.
    pub fn quasi_n_tile(ms: &Vec<Self>, numerator: usize, denominator: usize) -> (s:
        BodyMassSummary)
        requires
            ms.len() > 0,
            denominator > 0,
            numerator <= denominator,
        ensures
            is_quasi_n_tile(s, ms@, numerator as nat, denominator as nat),
    {
        quasi_n_tile(ms, numerator, denominator)
    }
}

impl Composite<BodyMassMeasurement> for BodyMassSummary {
    open spec fn part(self, k: int) -> Option<Fraction> {
        if k == MASS {
            Some(self.mass_kg@)
        } else if k == BMI {
            option_view(self.bmi)
        } else {
            None
        }
    }

    fn of(m: &BodyMassMeasurement) -> (s: Self) {
        m.values_are_stored();
        BodyMassSummary { mass_kg: m.mass_kg, bmi: m.bmi }
    }

    fn from_parts(parts: &Vec<Option<Rational>>) -> (s: Self) {
        BodyMassSummary { mass_kg: parts[MASS].unwrap(), bmi: parts[BMI] }
    }

    fn values_max(&self, m: &BodyMassMeasurement) -> (s: Self) {
        m.values_are_stored();
        BodyMassSummary {
            mass_kg: greater_of(self.mass_kg, m.mass_kg),
            bmi: greater_of_present(self.bmi, m.bmi),
        }
    }

    fn values_min(&self, m: &BodyMassMeasurement) -> (s: Self) {
        m.values_are_stored();
        BodyMassSummary {
            mass_kg: lesser_of(self.mass_kg, m.mass_kg),
            bmi: lesser_of_present(self.bmi, m.bmi),
        }
    }
}

/// A place on the body where temperature is measured.
#[derive(Clone, Debug, PartialEq, Eq)]
pub struct BodyTemperatureLocation {
    pub id: i64,
    pub name: String,
}

impl BodyTemperatureLocation {
    /// A place of measurement.
    pub fn new(id: i64, name: String) -> (location: Self)
        ensures
            location.id == id,
            location.name == name,
    {
        BodyTemperatureLocation { id, name }
    }
}

/// A reading of body temperature.
#[derive(Clone, Copy, Debug, PartialEq, Eq, Structural)]
pub struct BodyTemperatureMeasurement {
    /// The identity, `UNSET_ID` until the measurement is stored.
    pub id: i64,
    pub timestamp: Timestamp,
    /// The identity of the place of measurement.
    pub location_id: i64,
    /// Temperature in degrees Celsius.
    pub temperature_celsius: Rational,
}

/// A composite summary of readings of body temperature.
#[derive(Clone, Copy, Debug, PartialEq, Eq, Structural)]
pub struct BodyTemperatureSummary {
    pub temperature_celsius: Rational,
}

/// The field of the temperature.
pub const TEMPERATURE: usize = 0;

impl Measurement for BodyTemperatureMeasurement {
    open spec fn field_count() -> nat {
        1
    }

    open spec fn is_required(k: int) -> bool {
        k == TEMPERATURE
    }

    open spec fn field(self, k: int) -> Option<Fraction> {
        if k == TEMPERATURE {
            Some(self.temperature_celsius@)
        } else {
            None
        }
    }

    open spec fn taken_at(self) -> Timestamp {
        self.timestamp
    }

    proof fn lemma_required_is_present(self, k: int) {
    }

    fn fields() -> (n: usize) {
        1
    }

    fn value(&self, k: usize) -> (v: Option<Rational>) {
        proof {
            use_type_invariant(&self.temperature_celsius);
        }
        Some(self.temperature_celsius)
    }

    fn timestamp(&self) -> (t: Timestamp) {
        proof {
            use_type_invariant(&self.timestamp);
        }
        self.timestamp
    }
}

impl BodyTemperatureMeasurement {
    /// A reading of body temperature.
    pub fn new(id: i64, timestamp: Timestamp, location_id: i64, temperature_celsius: Rational) -> (m:
        Self)
        ensures
            m.id == id,
            m.timestamp == timestamp,
            m.location_id == location_id,
            m.temperature_celsius == temperature_celsius,
    {
        BodyTemperatureMeasurement { id, timestamp, location_id, temperature_celsius }
    }

    /// The denominator of the value is positive.
    fn values_are_stored(&self)
        ensures
            self.temperature_celsius@.den > 0,
    {
        proof {
            use_type_invariant(&self.temperature_celsius);
        }
    }

    /// The field-wise averages of the readings.
    pub fn average(ms: &Vec<Self>) -> (r: Result<BodyTemperatureSummary, ArithmeticError>)
        requires
            ms.len() > 0,
        ensures
            is_average(r, ms@),
    {
        average(ms)
    }

    /// The field-wise quasi-quantiles of the readings.
    pub fn quasi_n_tile(ms: &Vec<Self>, numerator: usize, denominator: usize) -> (s:
        BodyTemperatureSummary)
        requires
            ms.len() > 0,
            denominator > 0,
            numerator <= denominator,
        ensures
            is_quasi_n_tile(s, ms@, numerator as nat, denominator as nat),
    {
        quasi_n_tile(ms, numerator, denominator)
    }
}

impl Composite<BodyTemperatureMeasurement> for BodyTemperatureSummary {
    open spec fn part(self, k: int) -> Option<Fraction> {
        if k == TEMPERATURE {
            Some(self.temperature_celsius@)
        } else {
            None
        }
    }

    fn of(m: &BodyTemperatureMeasurement) -> (s: Self) {
        m.values_are_stored();
        BodyTemperatureSummary { temperature_celsius: m.temperature_celsius }
    }

    fn from_parts(parts: &Vec<Option<Rational>>) -> (s: Self) {
        BodyTemperatureSummary { temperature_celsius: parts[TEMPERATURE].unwrap() }
    }

    fn values_max(&self, m: &BodyTemperatureMeasurement) -> (s: Self) {
        m.values_are_stored();
        BodyTemperatureSummary {
            temperature_celsius: greater_of(self.temperature_celsius, m.temperature_celsius),
        }
    }

    fn values_min(&self, m: &BodyTemperatureMeasurement) -> (s: Self) {
        m.values_are_stored();
        BodyTemperatureSummary {
            temperature_celsius: lesser_of(self.temperature_celsius, m.temperature_celsius),
        }
    }
}

/// A reading of blood sugar.
#[derive(Clone, Copy, Debug, PartialEq, Eq, Structural)]
pub struct BloodSugarMeasurement {
    /// The identity, `UNSET_ID` until the measurement is stored.
    pub id: i64,
    pub timestamp: Timestamp,
    /// Concentration in mmol/L, whatever unit it was entered in.
    pub sugar_mmol_per_l: Rational,
}

/// A composite summary of readings of blood sugar.
#[derive(Clone, Copy, Debug, PartialEq, Eq, Structural)]
pub struct BloodSugarSummary {
    pub sugar_mmol_per_l: Rational,
}

/// The field of the concentration.
pub const SUGAR: usize = 0;

impl Measurement for BloodSugarMeasurement {
    open spec fn field_count() -> nat {
        1
    }

    open spec fn is_required(k: int) -> bool {
        k == SUGAR
    }

    open spec fn field(self, k: int) -> Option<Fraction> {
        if k == SUGAR {
            Some(self.sugar_mmol_per_l@)
        } else {
            None
        }
    }

    open spec fn taken_at(self) -> Timestamp {
        self.timestamp
    }

    proof fn lemma_required_is_present(self, k: int) {
    }

    fn fields() -> (n: usize) {
        1
    }

    fn value(&self, k: usize) -> (v: Option<Rational>) {
        proof {
            use_type_invariant(&self.sugar_mmol_per_l);
        }
        Some(self.sugar_mmol_per_l)
    }

    fn timestamp(&self) -> (t: Timestamp) {
        proof {
            use_type_invariant(&self.timestamp);
        }
        self.timestamp
    }
}

impl BloodSugarMeasurement {
    /// A reading of blood sugar.
    pub fn new(id: i64, timestamp: Timestamp, sugar_mmol_per_l: Rational) -> (m: Self)
        ensures
            m.id == id,
            m.timestamp == timestamp,
            m.sugar_mmol_per_l == sugar_mmol_per_l,
    {
        BloodSugarMeasurement { id, timestamp, sugar_mmol_per_l }
    }

    /// The denominator of the value is positive.
    fn values_are_stored(&self)
        ensures
            self.sugar_mmol_per_l@.den > 0,
    {
        proof {
            use_type_invariant(&self.sugar_mmol_per_l);
        }
    }

    /// The field-wise averages of the readings.
    pub fn average(ms: &Vec<Self>) -> (r: Result<BloodSugarSummary, ArithmeticError>)
        requires
            ms.len() > 0,
        ensures
            is_average(r, ms@),
    {
        average(ms)
    }

    /// The field-wise quasi-quantiles of the readings.
    pub fn quasi_n_tile(ms: &Vec<Self>, numerator: usize, denominator: usize) -> (s:
        BloodSugarSummary)
        requires
            ms.len() > 0,
            denominator > 0,
            numerator <= denominator,
        ensures
            is_quasi_n_tile(s, ms@, numerator as nat, denominator as nat),
    {
        quasi_n_tile(ms, numerator, denominator)
    }
}

impl Composite<BloodSugarMeasurement> for BloodSugarSummary {
    open spec fn part(self, k: int) -> Option<Fraction> {
        if k == SUGAR {
            Some(self.sugar_mmol_per_l@)
        } else {
            None
        }
    }

    fn of(m: &BloodSugarMeasurement) -> (s: Self) {
        m.values_are_stored();
        BloodSugarSummary { sugar_mmol_per_l: m.sugar_mmol_per_l }
    }

    fn from_parts(parts: &Vec<Option<Rational>>) -> (s: Self) {
        BloodSugarSummary { sugar_mmol_per_l: parts[SUGAR].unwrap() }
    }

    fn values_max(&self, m: &BloodSugarMeasurement) -> (s: Self) {
        m.values_are_stored();
        BloodSugarSummary { sugar_mmol_per_l: greater_of(self.sugar_mmol_per_l, m.sugar_mmol_per_l) }
    }

    fn values_min(&self, m: &BloodSugarMeasurement) -> (s: Self) {
        m.values_are_stored();
        BloodSugarSummary { sugar_mmol_per_l: lesser_of(self.sugar_mmol_per_l, m.sugar_mmol_per_l) }
    }
}

} // verus!
