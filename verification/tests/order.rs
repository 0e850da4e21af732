use beepee::datetime::{Date, Timestamp};
use beepee::model::BloodSugarMeasurement;
use beepee::order::{reversed, sorted_by_time, sorted_latest_first};
use beepee::rational::Rational;
use chrono::{Datelike, FixedOffset, NaiveDate, TimeZone};

fn date(year: i32, month: u32, day: u32) -> Date {
    Date::new(year, month, day).unwrap()
}

fn reading(id: i64, time: Timestamp) -> BloodSugarMeasurement {
    BloodSugarMeasurement::new(id, time, Rational::from_integer(5))
}

fn ids(ms: &[BloodSugarMeasurement]) -> Vec<i64> {
    ms.iter().map(|m| m.id).collect()
}

#[test]
fn day_numbers_count_days() {
    assert_eq!(date(2024, 1, 2).day_number() - date(2024, 1, 1).day_number(), 1);
    assert_eq!(date(2024, 3, 1).day_number() - date(2024, 2, 28).day_number(), 2);
    assert_eq!(date(2023, 3, 1).day_number() - date(2023, 2, 28).day_number(), 1);
    assert_eq!(date(2025, 1, 1).day_number() - date(2024, 1, 1).day_number(), 366);
    assert_eq!(date(2024, 1, 1).day_number() - date(2023, 1, 1).day_number(), 365);
    assert_eq!(date(2001, 1, 1).day_number() - date(1601, 1, 1).day_number(), 146_097);
    assert_eq!(date(1, 1, 1).day_number() - date(0, 12, 31).day_number(), 1);
    assert_eq!(date(0, 1, 1).day_number() - date(-1, 12, 31).day_number(), 1);
}

#[test]
fn day_numbers_agree_with_chrono() {
    let origin = date(1, 1, 1).day_number() - 1;
    for (year, month, day) in [
        (1, 1, 1),
        (1970, 1, 1),
        (2000, 2, 29),
        (2024, 12, 31),
        (-1, 3, 1),
        (-400, 2, 29),
        (262142, 12, 31),
        (-262143, 1, 1),
    ]
    .iter()
    {
        let ours = date(*year, *month, *day).day_number() - origin;
        let theirs = NaiveDate::from_ymd_opt(*year, *month, *day).unwrap().num_days_from_ce();
        assert_eq!(ours, theirs as i64);
    }
}

#[test]
fn moments_agree_with_chrono() {
    let cases = [
        ((2024, 1, 2, 3, 4, 5), 3600),
        ((2024, 1, 1, 23, 59, 59), -7200),
        ((1969, 12, 31, 23, 0, 0), 0),
        ((2024, 2, 29, 0, 0, 0), 19800),
    ];
    let origin = Timestamp::new(date(1970, 1, 1), 0, 0, 0, 0, 0).unwrap().utc_seconds();
    for ((y, mo, d, h, mi, s), offset) in cases.iter() {
        let ours = Timestamp::new(date(*y, *mo, *d), *h, *mi, *s, 0, *offset).unwrap();
        let theirs = FixedOffset::east_opt(*offset)
            .unwrap()
            .with_ymd_and_hms(*y, *mo, *d, *h, *mi, *s)
            .unwrap();
        assert_eq!(ours.utc_seconds() - origin, theirs.timestamp());
    }
}

#[test]
fn moments_are_compared_in_utc() {
    let early = Timestamp::new(date(2024, 1, 2), 10, 0, 0, 0, 7200).unwrap();
    let late = Timestamp::new(date(2024, 1, 2), 9, 0, 0, 0, 0).unwrap();
    assert!(early.is_not_later_than(&late));
    assert!(!late.is_not_later_than(&early));
    let same = Timestamp::new(date(2024, 1, 2), 8, 0, 0, 0, 0).unwrap();
    assert!(early.is_not_later_than(&same));
    assert!(same.is_not_later_than(&early));
}

#[test]
fn nanoseconds_order_moments_of_one_second() {
    let first = Timestamp::new(date(2024, 1, 2), 8, 0, 0, 1, 0).unwrap();
    let second = Timestamp::new(date(2024, 1, 2), 8, 0, 0, 2, 0).unwrap();
    assert!(first.is_not_later_than(&second));
    assert!(!second.is_not_later_than(&first));
}

#[test]
fn sorting_puts_the_earliest_first() {
    let ms = vec![
        reading(1, Timestamp::new(date(2024, 1, 3), 8, 0, 0, 0, 0).unwrap()),
        reading(2, Timestamp::new(date(2024, 1, 1), 8, 0, 0, 0, 0).unwrap()),
        reading(3, Timestamp::new(date(2024, 1, 2), 8, 0, 0, 0, 0).unwrap()),
        reading(4, Timestamp::new(date(2023, 12, 31), 23, 0, 0, 0, 0).unwrap()),
    ];
    assert_eq!(ids(&sorted_by_time(&ms)), vec![4, 2, 3, 1]);
}

#[test]
fn sorting_keeps_the_order_of_one_moment() {
    let moment = Timestamp::new(date(2024, 1, 2), 8, 0, 0, 0, 0).unwrap();
    let same_moment_elsewhere = Timestamp::new(date(2024, 1, 2), 9, 0, 0, 0, 3600).unwrap();
    let ms = vec![
        reading(1, moment),
        reading(2, Timestamp::new(date(2024, 1, 1), 8, 0, 0, 0, 0).unwrap()),
        reading(3, same_moment_elsewhere),
        reading(4, moment),
    ];
    assert_eq!(ids(&sorted_by_time(&ms)), vec![2, 1, 3, 4]);
}

#[test]
fn sorting_the_latest_first_is_the_opposite_order() {
    let ms = vec![
        reading(1, Timestamp::new(date(2024, 1, 3), 8, 0, 0, 0, 0).unwrap()),
        reading(2, Timestamp::new(date(2024, 1, 1), 8, 0, 0, 0, 0).unwrap()),
        reading(3, Timestamp::new(date(2024, 1, 2), 8, 0, 0, 0, 0).unwrap()),
    ];
    assert_eq!(ids(&sorted_latest_first(&ms)), vec![1, 3, 2]);
    assert_eq!(ids(&reversed(&ms)), vec![3, 2, 1]);
    assert!(sorted_by_time(&Vec::<BloodSugarMeasurement>::new()).is_empty());
}
