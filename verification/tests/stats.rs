use beepee::datetime::{Date, Timestamp};
use beepee::measurement::{average, maximum, minimum, overview, quasi_n_tile, Composite, Overview};
use beepee::model::{
    BloodPressureMeasurement, BloodPressureSummary, BloodSugarMeasurement, BloodSugarSummary,
    BodyMassMeasurement, BodyMassSummary, BodyTemperatureMeasurement, BodyTemperatureSummary,
};
use beepee::rational::{ArithmeticError, Rational};
use beepee::stats::{
    greater_of, greater_of_present, lesser_of, lesser_of_present, mean, rank, sorted_ascending,
    value_at_rank,
};

fn noon() -> Timestamp {
    Timestamp::new(Date::new(2024, 1, 2).unwrap(), 12, 0, 0, 0, 3600).unwrap()
}

fn whole(n: i32) -> Rational {
    Rational::from_integer(n)
}

fn exact(numer: i32, denom: i32) -> Rational {
    Rational::new(numer, denom).unwrap()
}

fn pressure(systolic: i32, diastolic: i32, pulse: i32, spo2: Option<i32>) -> BloodPressureMeasurement {
    BloodPressureMeasurement::new(-1, noon(), systolic, diastolic, pulse, spo2)
}

fn sugar(value: i32) -> BloodSugarMeasurement {
    BloodSugarMeasurement::new(-1, noon(), whole(value))
}

#[test]
fn mean_of_three_whole_numbers() {
    assert_eq!(mean(&vec![whole(10), whole(20), whole(30)]), Ok(whole(20)));
}

#[test]
fn mean_is_an_exact_fraction() {
    assert_eq!(mean(&vec![whole(1), whole(2)]), Ok(exact(3, 2)));
    assert_eq!(mean(&vec![exact(1, 2), exact(1, 3), exact(1, 6)]), Ok(exact(1, 3)));
    assert_eq!(mean(&vec![whole(10), whole(10), whole(11)]), Ok(exact(31, 3)));
}

#[test]
fn mean_of_nothing_is_a_division_by_zero() {
    assert_eq!(mean(&Vec::new()), Err(ArithmeticError::DivisionByZero));
}

#[test]
fn mean_overflows_with_its_sum() {
    assert_eq!(mean(&vec![whole(i32::MAX), whole(1)]), Err(ArithmeticError::Overflow));
}

#[test]
fn average_of_whole_numbers_is_exact() {
    let ms = vec![sugar(10), sugar(20), sugar(30)];
    let summary: BloodSugarSummary = average(&ms).unwrap();
    assert_eq!(summary.sugar_mmol_per_l, whole(20));
    assert_eq!(BloodSugarMeasurement::average(&ms), Ok(summary));
}

#[test]
fn average_leaves_absent_values_out() {
    let ms = vec![
        pressure(120, 80, 60, Some(10)),
        pressure(130, 90, 70, None),
        pressure(140, 70, 65, Some(30)),
    ];
    let summary = BloodPressureMeasurement::average(&ms).unwrap();
    assert_eq!(summary.systolic_mmhg, whole(130));
    assert_eq!(summary.diastolic_mmhg, whole(80));
    assert_eq!(summary.pulse_bpm, whole(65));
    assert_eq!(summary.spo2_percent, Some(whole(20)));
}

#[test]
fn average_of_a_field_that_is_never_present_is_absent() {
    let ms = vec![pressure(120, 80, 60, None), pressure(121, 80, 61, None)];
    let summary = BloodPressureMeasurement::average(&ms).unwrap();
    assert_eq!(summary.systolic_mmhg, exact(241, 2));
    assert_eq!(summary.spo2_percent, None);
}

#[test]
fn average_reports_the_first_failure() {
    let ms = vec![pressure(i32::MAX, 80, 60, None), pressure(1, 80, 60, None)];
    assert_eq!(BloodPressureMeasurement::average(&ms), Err(ArithmeticError::Overflow));
}

#[test]
fn rank_is_rounded_down() {
    assert_eq!(rank(4, 1, 2), 1);
    assert_eq!(rank(4, 1, 4), 0);
    assert_eq!(rank(4, 3, 4), 2);
    assert_eq!(rank(4, 1, 1), 3);
    assert_eq!(rank(4, 0, 1), 0);
    assert_eq!(rank(1, 3, 4), 0);
    assert_eq!(rank(10, 1, 2), 4);
    assert_eq!(rank(usize::MAX, usize::MAX, usize::MAX), usize::MAX - 1);
}

#[test]
fn quasi_median_of_four_is_the_second() {
    let ms = vec![sugar(10), sugar(20), sugar(30), sugar(40)];
    let summary: BloodSugarSummary = quasi_n_tile(&ms, 1, 2);
    assert_eq!(summary.sugar_mmol_per_l, whole(20));
    assert_eq!(BloodSugarMeasurement::quasi_n_tile(&ms, 1, 2), summary);
}

#[test]
fn quasi_quartiles_of_four() {
    let ms = vec![sugar(40), sugar(10), sugar(30), sugar(20)];
    assert_eq!(BloodSugarMeasurement::quasi_n_tile(&ms, 1, 4).sugar_mmol_per_l, whole(10));
    assert_eq!(BloodSugarMeasurement::quasi_n_tile(&ms, 3, 4).sugar_mmol_per_l, whole(30));
    assert_eq!(BloodSugarMeasurement::quasi_n_tile(&ms, 1, 1).sugar_mmol_per_l, whole(40));
    assert_eq!(BloodSugarMeasurement::quasi_n_tile(&ms, 0, 4).sugar_mmol_per_l, whole(10));
}

#[test]
fn quasi_quantile_ranks_each_field_by_its_own_values() {
    let ms = vec![
        pressure(150, 60, 70, None),
        pressure(110, 90, 50, Some(99)),
        pressure(130, 80, 90, None),
        pressure(120, 70, 60, Some(95)),
    ];
    let summary = BloodPressureMeasurement::quasi_n_tile(&ms, 1, 2);
    // ranks: floor(3 * 1 / 2) = 1 of four values, floor(1 * 1 / 2) = 0 of two
    assert_eq!(summary.systolic_mmhg, whole(120));
    assert_eq!(summary.diastolic_mmhg, whole(70));
    assert_eq!(summary.pulse_bpm, whole(60));
    assert_eq!(summary.spo2_percent, Some(whole(95)));
}

#[test]
fn quasi_quantile_of_a_field_that_is_never_present_is_absent() {
    let ms = vec![pressure(150, 60, 70, None)];
    assert_eq!(BloodPressureMeasurement::quasi_n_tile(&ms, 1, 2).spo2_percent, None);
}

#[test]
fn value_at_rank_of_a_column() {
    let column = vec![exact(1, 2), exact(1, 3), exact(3, 4), exact(-1, 2)];
    assert_eq!(value_at_rank(&column, 1, 2), Some(exact(1, 3)));
    assert_eq!(value_at_rank(&column, 0, 1), Some(exact(-1, 2)));
    assert_eq!(value_at_rank(&column, 1, 1), Some(exact(3, 4)));
    assert_eq!(value_at_rank(&Vec::new(), 1, 2), None);
}

#[test]
fn sorting_is_ascending_by_value() {
    let column = vec![exact(1, 2), exact(1, 3), exact(3, 4), exact(-1, 2), exact(1, 3)];
    assert_eq!(
        sorted_ascending(&column),
        vec![exact(-1, 2), exact(1, 3), exact(1, 3), exact(1, 2), exact(3, 4)]
    );
}

#[test]
fn greater_and_lesser_of_two() {
    assert_eq!(greater_of(exact(1, 2), exact(1, 3)), exact(1, 2));
    assert_eq!(lesser_of(exact(1, 2), exact(1, 3)), exact(1, 3));
    assert_eq!(greater_of_present(None, Some(whole(1))), Some(whole(1)));
    assert_eq!(greater_of_present(Some(whole(2)), None), Some(whole(2)));
    assert_eq!(greater_of_present(Some(whole(2)), Some(whole(3))), Some(whole(3)));
    assert_eq!(greater_of_present(None, None), None);
    assert_eq!(lesser_of_present(None, Some(whole(1))), Some(whole(1)));
    assert_eq!(lesser_of_present(Some(whole(2)), Some(whole(3))), Some(whole(2)));
    assert_eq!(lesser_of_present(None, None), None);
}

#[test]
fn maximum_is_taken_field_by_field() {
    let ms = vec![
        pressure(150, 60, 70, None),
        pressure(110, 90, 50, Some(95)),
        pressure(130, 80, 90, Some(99)),
    ];
    let greatest: BloodPressureSummary = maximum(&ms).unwrap();
    assert_eq!(
        greatest,
        BloodPressureSummary {
            systolic_mmhg: whole(150),
            diastolic_mmhg: whole(90),
            pulse_bpm: whole(90),
            spo2_percent: Some(whole(99)),
        }
    );
}

#[test]
fn minimum_is_taken_field_by_field() {
    let ms = vec![
        pressure(150, 60, 70, None),
        pressure(110, 90, 50, Some(95)),
        pressure(130, 80, 90, Some(99)),
    ];
    let least: BloodPressureSummary = minimum(&ms).unwrap();
    assert_eq!(
        least,
        BloodPressureSummary {
            systolic_mmhg: whole(110),
            diastolic_mmhg: whole(60),
            pulse_bpm: whole(50),
            spo2_percent: Some(whole(95)),
        }
    );
}

#[test]
fn extremes_of_nothing_are_absent() {
    let ms: Vec<BloodPressureMeasurement> = Vec::new();
    let greatest: Option<BloodPressureSummary> = maximum(&ms);
    let least: Option<BloodPressureSummary> = minimum(&ms);
    assert_eq!(greatest, None);
    assert_eq!(least, None);
}

#[test]
fn running_composite_combines_field_by_field() {
    let first = pressure(150, 60, 70, None);
    let second = pressure(110, 90, 50, Some(95));
    let composite = BloodPressureSummary::of(&first);
    assert_eq!(composite.spo2_percent, None);
    let greater = composite.values_max(&second);
    assert_eq!(
        (greater.systolic_mmhg, greater.diastolic_mmhg, greater.pulse_bpm, greater.spo2_percent),
        (whole(150), whole(90), whole(70), Some(whole(95)))
    );
    let lesser = composite.values_min(&second);
    assert_eq!(
        (lesser.systolic_mmhg, lesser.diastolic_mmhg, lesser.pulse_bpm, lesser.spo2_percent),
        (whole(110), whole(60), whole(50), Some(whole(95)))
    );
}

#[test]
fn mass_summaries() {
    let ms = vec![
        BodyMassMeasurement::new(1, noon(), exact(725, 10), Some(exact(3625, 162))),
        BodyMassMeasurement::new(2, noon(), exact(71, 1), None),
        BodyMassMeasurement::new(3, noon(), exact(735, 10), Some(exact(3675, 162))),
    ];
    let greatest: BodyMassSummary = maximum(&ms).unwrap();
    assert_eq!(greatest, BodyMassSummary { mass_kg: exact(147, 2), bmi: Some(exact(3675, 162)) });
    let least: BodyMassSummary = minimum(&ms).unwrap();
    assert_eq!(least, BodyMassSummary { mass_kg: whole(71), bmi: Some(exact(3625, 162)) });
    let mean = BodyMassMeasurement::average(&ms).unwrap();
    assert_eq!(mean.mass_kg, exact(217, 3));
    assert_eq!(mean.bmi, Some(exact(3650, 162)));
    let median = BodyMassMeasurement::quasi_n_tile(&ms, 1, 2);
    assert_eq!(median, BodyMassSummary { mass_kg: exact(145, 2), bmi: Some(exact(3625, 162)) });
}

#[test]
fn temperature_summaries() {
    let ms = vec![
        BodyTemperatureMeasurement::new(1, noon(), 7, exact(366, 10)),
        BodyTemperatureMeasurement::new(2, noon(), 8, exact(371, 10)),
    ];
    let greatest: BodyTemperatureSummary = maximum(&ms).unwrap();
    assert_eq!(greatest.temperature_celsius, exact(371, 10));
    let least: BodyTemperatureSummary = minimum(&ms).unwrap();
    assert_eq!(least.temperature_celsius, exact(183, 5));
    assert_eq!(
        BodyTemperatureMeasurement::average(&ms).unwrap().temperature_celsius,
        exact(737, 20)
    );
    assert_eq!(
        BodyTemperatureMeasurement::quasi_n_tile(&ms, 3, 4).temperature_celsius,
        exact(183, 5)
    );
}

#[test]
fn overview_of_nothing_is_absent() {
    let ms: Vec<BloodSugarMeasurement> = Vec::new();
    let summaries: Option<Overview<BloodSugarSummary>> = overview(&ms);
    assert_eq!(summaries, None);
}

#[test]
fn overview_holds_all_summaries() {
    let ms = vec![sugar(40), sugar(10), sugar(30), sugar(20)];
    let summaries: Overview<BloodSugarSummary> = overview(&ms).unwrap();
    assert_eq!(summaries.maximum.sugar_mmol_per_l, whole(40));
    assert_eq!(summaries.quasi_q3.sugar_mmol_per_l, whole(30));
    assert_eq!(summaries.average, Ok(BloodSugarSummary { sugar_mmol_per_l: whole(25) }));
    assert_eq!(summaries.quasi_q2.sugar_mmol_per_l, whole(20));
    assert_eq!(summaries.quasi_q1.sugar_mmol_per_l, whole(10));
    assert_eq!(summaries.minimum.sugar_mmol_per_l, whole(10));
}

#[test]
fn summaries_are_the_same_when_computed_again() {
    let ms = vec![
        pressure(150, 60, 70, None),
        pressure(110, 90, 50, Some(95)),
        pressure(130, 80, 90, Some(99)),
    ];
    let first: Option<Overview<BloodPressureSummary>> = overview(&ms);
    let second: Option<Overview<BloodPressureSummary>> = overview(&ms);
    assert_eq!(first, second);
}

#[test]
fn summaries_do_not_depend_on_the_order() {
    let ms = vec![sugar(40), sugar(10), sugar(30), sugar(20)];
    let reversed: Vec<BloodSugarMeasurement> = ms.iter().rev().cloned().collect();
    let first: Option<Overview<BloodSugarSummary>> = overview(&ms);
    let second: Option<Overview<BloodSugarSummary>> = overview(&reversed);
    assert_eq!(first, second);
}

#[test]
fn readings_with_saturation_are_kept_in_order() {
    let ms = vec![
        pressure(150, 60, 70, None),
        pressure(110, 90, 50, Some(95)),
        pressure(130, 80, 90, None),
        pressure(120, 80, 90, Some(99)),
    ];
    assert_eq!(BloodPressureMeasurement::with_spo2(&ms), vec![ms[1], ms[3]]);
}
