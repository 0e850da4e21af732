use beepee::daily::{choose_slot, day_of, group_by_day, DailyMeasurements, Hours, Slot};
use beepee::datetime::{Date, Timestamp};
use beepee::model::BloodPressureMeasurement;

fn hours() -> Hours {
    Hours { morning_start: 6, morning_end: 11, midday_start: 11, midday_end: 15, evening_start: 18 }
}

fn date(year: i32, month: u32, day: u32) -> Date {
    Date::new(year, month, day).unwrap()
}

fn at(year: i32, month: u32, day: u32, hour: u32) -> Timestamp {
    Timestamp::new(date(year, month, day), hour, 0, 0, 0, 3600).unwrap()
}

fn reading(id: i64, time: Timestamp) -> BloodPressureMeasurement {
    BloodPressureMeasurement::new(id, time, 120, 80, 60, None)
}

#[test]
fn reading_before_the_morning_goes_to_the_evening_before() {
    let ms = vec![reading(1, at(2024, 1, 2, 3))];
    let days = group_by_day(&ms, &hours());
    assert_eq!(days.len(), 1);
    assert_eq!(days[0].date, date(2024, 1, 1));
    assert_eq!(days[0].date_string(), "2024-01-01");
    assert_eq!(days[0].evening, Some(ms[0]));
    assert_eq!(days[0].morning, None);
    assert_eq!(days[0].midday, None);
    assert!(days[0].other.is_empty());
}

#[test]
fn reading_in_the_morning_goes_to_the_morning_of_its_day() {
    let ms = vec![reading(1, at(2024, 1, 2, 3)), reading(2, at(2024, 1, 2, 7))];
    let days = group_by_day(&ms, &hours());
    assert_eq!(days.len(), 2);
    assert_eq!(days[0].date_string(), "2024-01-02");
    assert_eq!(days[0].morning, Some(ms[1]));
    assert_eq!(days[0].evening, None);
    assert_eq!(days[1].date_string(), "2024-01-01");
    assert_eq!(days[1].evening, Some(ms[0]));
}

#[test]
fn days_come_out_most_recent_first() {
    let ms = vec![
        reading(1, at(2023, 12, 31, 8)),
        reading(2, at(2024, 2, 1, 8)),
        reading(3, at(2024, 1, 15, 8)),
        reading(4, at(2024, 1, 2, 8)),
    ];
    let days = group_by_day(&ms, &hours());
    let dates: Vec<String> = days.iter().map(|d| d.date_string()).collect();
    assert_eq!(dates, vec!["2024-02-01", "2024-01-15", "2024-01-02", "2023-12-31"]);
}

#[test]
fn each_slot_takes_its_first_reading() {
    let ms = vec![
        reading(1, at(2024, 1, 2, 7)),
        reading(2, at(2024, 1, 2, 8)),
        reading(3, at(2024, 1, 2, 12)),
        reading(4, at(2024, 1, 2, 14)),
        reading(5, at(2024, 1, 2, 19)),
        reading(6, at(2024, 1, 2, 23)),
    ];
    let days = group_by_day(&ms, &hours());
    assert_eq!(days.len(), 1);
    assert_eq!(
        days[0],
        DailyMeasurements {
            date: date(2024, 1, 2),
            morning: Some(ms[0]),
            midday: Some(ms[2]),
            evening: Some(ms[4]),
            other: vec![ms[1], ms[3], ms[5]],
        }
    );
}

#[test]
fn reading_outside_every_period_goes_to_the_others() {
    let ms = vec![reading(1, at(2024, 1, 2, 16))];
    let days = group_by_day(&ms, &hours());
    assert_eq!(days[0].morning, None);
    assert_eq!(days[0].midday, None);
    assert_eq!(days[0].evening, None);
    assert_eq!(days[0].other, vec![ms[0]]);
}

#[test]
fn night_reading_shares_the_evening_slot_with_the_evening_before() {
    // the evening reading of the first takes the slot; the reading of the
    // night after it is counted to the same day and finds the slot taken
    let ms = vec![reading(1, at(2024, 1, 1, 20)), reading(2, at(2024, 1, 2, 2))];
    let days = group_by_day(&ms, &hours());
    assert_eq!(days.len(), 1);
    assert_eq!(days[0].date, date(2024, 1, 1));
    assert_eq!(days[0].evening, Some(ms[0]));
    assert_eq!(days[0].other, vec![ms[1]]);
}

#[test]
fn morning_at_midnight_never_rolls_over() {
    let from_midnight =
        Hours { morning_start: 0, morning_end: 11, midday_start: 11, midday_end: 15, evening_start: 18 };
    let ms = vec![reading(1, at(2024, 1, 2, 0))];
    let days = group_by_day(&ms, &from_midnight);
    assert_eq!(days.len(), 1);
    assert_eq!(days[0].date, date(2024, 1, 2));
    assert_eq!(days[0].morning, Some(ms[0]));
}

#[test]
fn rollover_crosses_months_and_years() {
    assert_eq!(day_of(&at(2024, 3, 1, 5), &hours()), date(2024, 2, 29));
    assert_eq!(day_of(&at(2023, 3, 1, 5), &hours()), date(2023, 2, 28));
    assert_eq!(day_of(&at(2024, 1, 1, 0), &hours()), date(2023, 12, 31));
    assert_eq!(day_of(&at(2024, 1, 1, 6), &hours()), date(2024, 1, 1));
}

#[test]
fn no_readings_give_no_days() {
    let ms: Vec<BloodPressureMeasurement> = Vec::new();
    assert!(group_by_day(&ms, &hours()).is_empty());
}

#[test]
fn grouping_is_the_same_when_done_again() {
    let ms = vec![
        reading(1, at(2024, 1, 2, 3)),
        reading(2, at(2024, 1, 2, 7)),
        reading(3, at(2024, 1, 2, 7)),
        reading(4, at(2024, 1, 3, 12)),
    ];
    assert_eq!(group_by_day(&ms, &hours()), group_by_day(&ms, &hours()));
}

#[test]
fn slots_follow_the_first_rule_that_applies() {
    let h = hours();
    assert_eq!(choose_slot(3, &h, true, true, true), Slot::Evening);
    assert_eq!(choose_slot(3, &h, true, true, false), Slot::Other);
    assert_eq!(choose_slot(6, &h, true, true, true), Slot::Morning);
    assert_eq!(choose_slot(10, &h, false, true, true), Slot::Other);
    assert_eq!(choose_slot(11, &h, true, true, true), Slot::Midday);
    assert_eq!(choose_slot(14, &h, true, false, true), Slot::Other);
    assert_eq!(choose_slot(15, &h, true, true, true), Slot::Other);
    assert_eq!(choose_slot(18, &h, true, true, true), Slot::Evening);
    assert_eq!(choose_slot(23, &h, true, true, false), Slot::Other);
}

#[test]
fn overlapping_periods_prefer_the_morning() {
    let h = Hours { morning_start: 6, morning_end: 12, midday_start: 10, midday_end: 15, evening_start: 14 };
    assert_eq!(choose_slot(11, &h, true, true, true), Slot::Morning);
    assert_eq!(choose_slot(11, &h, false, true, true), Slot::Midday);
    assert_eq!(choose_slot(14, &h, true, true, true), Slot::Midday);
    assert_eq!(choose_slot(14, &h, true, false, true), Slot::Evening);
}

#[test]
fn dates_of_the_calendar() {
    assert!(Date::new(2024, 2, 29).is_some());
    assert!(Date::new(2023, 2, 29).is_none());
    assert!(Date::new(1900, 2, 29).is_none());
    assert!(Date::new(2000, 2, 29).is_some());
    assert!(Date::new(-4, 2, 29).is_some());
    assert!(Date::new(2024, 4, 31).is_none());
    assert!(Date::new(2024, 0, 1).is_none());
    assert!(Date::new(2024, 13, 1).is_none());
    assert!(Date::new(2024, 1, 0).is_none());
    assert!(Date::new(2024, 1, 32).is_none());
    assert!(Date::new(262142, 12, 31).is_some());
    assert!(Date::new(262143, 1, 1).is_none());
    assert!(Date::new(-262143, 1, 1).is_some());
    assert!(Date::new(-262144, 12, 31).is_none());
}

#[test]
fn dates_agree_with_chrono() {
    for year in [-5, 0, 1, 1900, 2000, 2023, 2024, 2100].iter() {
        for month in 0..14u32 {
            for day in 0..33u32 {
                assert_eq!(
                    Date::new(*year, month, day).is_some(),
                    chrono::NaiveDate::from_ymd_opt(*year, month, day).is_some()
                );
            }
        }
    }
}

#[test]
fn day_before_a_date() {
    assert_eq!(date(2024, 1, 2).previous(), Some(date(2024, 1, 1)));
    assert_eq!(date(2024, 3, 1).previous(), Some(date(2024, 2, 29)));
    assert_eq!(date(2023, 3, 1).previous(), Some(date(2023, 2, 28)));
    assert_eq!(date(1900, 3, 1).previous(), Some(date(1900, 2, 28)));
    assert_eq!(date(2000, 3, 1).previous(), Some(date(2000, 2, 29)));
    assert_eq!(date(2024, 5, 1).previous(), Some(date(2024, 4, 30)));
    assert_eq!(date(2024, 8, 1).previous(), Some(date(2024, 7, 31)));
    assert_eq!(date(2024, 1, 1).previous(), Some(date(2023, 12, 31)));
    assert_eq!(date(1, 1, 1).previous(), Some(date(0, 12, 31)));
    assert_eq!(date(0, 3, 1).previous(), Some(date(0, 2, 29)));
}

#[test]
fn first_day_has_no_day_before() {
    let first = date(-262143, 1, 1);
    assert!(first.is_first());
    assert_eq!(first.previous(), None);
    assert_eq!(date(-262143, 1, 2).previous(), Some(first));
    assert!(!date(2024, 1, 1).is_first());
}

#[test]
fn timestamp_needs_a_day_before_its_date() {
    assert!(Timestamp::new(date(-262143, 1, 1), 12, 0, 0, 0, 0).is_none());
    assert!(Timestamp::new(date(-262143, 1, 2), 12, 0, 0, 0, 0).is_some());
}

#[test]
fn timestamp_needs_a_time_of_day() {
    let d = date(2024, 1, 2);
    assert!(Timestamp::new(d, 23, 59, 59, 999_999_999, 0).is_some());
    assert!(Timestamp::new(d, 23, 59, 59, 1_999_999_999, 0).is_some());
    assert!(Timestamp::new(d, 24, 0, 0, 0, 0).is_none());
    assert!(Timestamp::new(d, 0, 60, 0, 0, 0).is_none());
    assert!(Timestamp::new(d, 0, 0, 60, 0, 0).is_none());
    assert!(Timestamp::new(d, 0, 0, 0, 2_000_000_000, 0).is_none());
    assert!(Timestamp::new(d, 0, 0, 0, 0, 86_400).is_none());
    assert!(Timestamp::new(d, 0, 0, 0, 0, -86_400).is_none());
    assert!(Timestamp::new(d, 0, 0, 0, 0, -86_399).is_some());
}

#[test]
fn timestamp_gives_back_its_parts() {
    let t = Timestamp::new(date(2024, 1, 2), 3, 4, 5, 6, -7200).unwrap();
    assert_eq!(t.date(), date(2024, 1, 2));
    assert_eq!((t.date().year(), t.date().month(), t.date().day()), (2024, 1, 2));
    assert_eq!((t.hour(), t.minute(), t.second(), t.nanosecond()), (3, 4, 5, 6));
    assert_eq!(t.utc_offset_seconds(), -7200);
}

#[test]
fn date_as_text() {
    assert_eq!(date(2024, 1, 2).to_key_string(), "2024-01-02");
    assert_eq!(date(1999, 12, 31).to_key_string(), "1999-12-31");
    assert_eq!(date(5, 1, 1).to_key_string(), "0005-01-01");
    assert_eq!(date(0, 2, 29).to_key_string(), "0000-02-29");
    assert_eq!(date(9999, 12, 31).to_key_string(), "9999-12-31");
}

#[test]
fn date_as_text_outside_four_digit_years() {
    assert_eq!(date(12345, 6, 7).to_key_string(), "+12345-06-07");
    assert_eq!(date(10000, 1, 1).to_key_string(), "+10000-01-01");
    assert_eq!(date(-1, 12, 31).to_key_string(), "-0001-12-31");
    assert_eq!(date(-262143, 1, 1).to_key_string(), "-262143-01-01");
}

#[test]
fn dates_are_ordered_by_year_month_and_day() {
    assert!(date(2023, 12, 31).is_before(&date(2024, 1, 1)));
    assert!(date(2024, 1, 31).is_before(&date(2024, 2, 1)));
    assert!(date(2024, 2, 1).is_before(&date(2024, 2, 2)));
    assert!(!date(2024, 2, 2).is_before(&date(2024, 2, 2)));
    assert!(!date(2024, 2, 2).is_before(&date(2024, 1, 31)));
}
