//! Calendar dates and local timestamps, as far as the grouping of
//! measurements reads them: the date, the hour of the day, the day before a
//! date and the text of a date.

use crate::display::nat_text;
use vstd::prelude::*;

verus! {

/// The first year of the calendar that dates are taken from.
pub const FIRST_YEAR: i32 = -262143;

/// The last year of the calendar that dates are taken from.
pub const LAST_YEAR: i32 = 262142;

/// Whether a year of the proleptic Gregorian calendar has a 29 February.
pub open spec fn is_leap_year(year: int) -> bool {
    year % 4 == 0 && (year % 100 != 0 || year % 400 == 0)
}

/// The number of days of a month.
pub open spec fn days_in_month(year: int, month: int) -> int {
    if month == 2 {
        if is_leap_year(year) {
            29
        } else {
            28
        }
    } else if month == 4 || month == 6 || month == 9 || month == 11 {
        30
    } else {
        31
    }
}

/// A day of the proleptic Gregorian calendar: the model of `Date`.
pub struct CalendarDay {
    pub year: int,
    pub month: int,
    pub day: int,
}

impl CalendarDay {
    /// The day of a year, a month and a day of the month.
    pub open spec fn of(year: int, month: int, day: int) -> CalendarDay {
        CalendarDay { year, month, day }
    }

    /// The day exists in the calendar, within the years that are supported.
    pub open spec fn is_valid(self) -> bool {
        &&& FIRST_YEAR <= self.year <= LAST_YEAR
        &&& 1 <= self.month <= 12
        &&& 1 <= self.day <= days_in_month(self.year, self.month)
    }

    /// The first day that is supported.
    pub open spec fn first() -> CalendarDay {
        CalendarDay { year: FIRST_YEAR as int, month: 1, day: 1 }
    }

    /// The day before this one.
    pub open spec fn previous(self) -> CalendarDay {
        if self.day > 1 {
            CalendarDay { year: self.year, month: self.month, day: self.day - 1 }
        } else if self.month > 1 {
            CalendarDay {
                year: self.year,
                month: self.month - 1,
                day: days_in_month(self.year, self.month - 1),
            }
        } else {
            CalendarDay { year: self.year - 1, month: 12, day: 31 }
        }
    }

    /// The day before this one, if this is a day of the calendar and not
    /// its first.
    pub open spec fn previous_if_any(self) -> Option<CalendarDay> {
        if self.is_valid() && self != CalendarDay::first() {
            Some(self.previous())
        } else {
            None
        }
    }

    /// This day comes before the other.
    pub open spec fn is_before(self, other: CalendarDay) -> bool {
        ||| self.year < other.year
        ||| self.year == other.year && self.month < other.month
        ||| self.year == other.year && self.month == other.month && self.day < other.day
    }

    /// The date as text: the year, the month and the day, with `-` between
    /// them (`2024-01-02`).
    pub open spec fn text(self) -> Seq<char> {
        year_text(self.year) + seq!['-'] + zero_padded(self.month as nat, 2) + seq!['-']
            + zero_padded(self.day as nat, 2)
    }
}

/// A number of years, a multiple of 400, that makes every year of the
/// calendar positive when it is added.
pub const YEAR_SHIFT: i64 = 280_000;

/// The number of days of a year before the month begins.
pub open spec fn days_before_month(year: int, month: int) -> int
    decreases month,
{
    if month <= 1 {
        0
    } else {
        days_before_month(year, month - 1) + days_in_month(year, month - 1)
    }
}

/// The number of a day, where the days of the calendar are numbered one
/// after the other: 365 days for each year that has passed, one more for
/// each leap year among them, the days of the months of the year that have
/// passed, and the day of the month. The numbers start long before the
/// first year of the calendar.
pub open spec fn day_number(day: CalendarDay) -> int {
    let passed = day.year - 1 + YEAR_SHIFT;
    365 * passed + passed / 4 - passed / 100 + passed / 400 + days_before_month(
        day.year,
        day.month,
    ) + day.day
}

/// The digits of a number, with zeros in front of them up to a width.
pub open spec fn zero_padded(n: nat, width: nat) -> Seq<char> {
    let digits = nat_text(n);
    if digits.len() >= width {
        digits
    } else {
        Seq::new((width - digits.len()) as nat, |i: int| '0') + digits
    }
}

/// The year in a date's text: four digits for the years 0 to 9999, and a
/// sign and at least four digits for any other year.
pub open spec fn year_text(year: int) -> Seq<char> {
    if 0 <= year <= 9999 {
        zero_padded(year as nat, 4)
    } else if year < 0 {
        seq!['-'] + zero_padded((-year) as nat, 4)
    } else {
        seq!['+'] + zero_padded(year as nat, 4)
    }
}

/// The pattern of a date's text.
pub open spec fn date_pattern() -> Seq<char> {
    "%Y-%m-%d"@
}

/// Calls chrono's `NaiveDate::pred_opt` on the date that
/// `NaiveDate::from_ymd_opt` makes of a year, a month and a day.
///
/// The contract states what chrono documents: `from_ymd_opt` makes a date
/// if and only if the day exists in the proleptic Gregorian calendar and
/// its year is from `FIRST_YEAR` to `LAST_YEAR`, and `pred_opt` gives the
/// previous calendar date of every date but the first one.
#[verifier::external_body]
fn day_before(year: i32, month: u32, day: u32) -> (r: Option<(i32, u32, u32)>)
    ensures
        CalendarDay::of(year as int, month as int, day as int).previous_if_any() == match r {
            Some((y, m, d)) => Some(CalendarDay::of(y as int, m as int, d as int)),
            None => None,
        },
{
    let date = chrono::NaiveDate::from_ymd_opt(year, month, day)?.pred_opt()?;
    Some((chrono::Datelike::year(&date), chrono::Datelike::month(&date), chrono::Datelike::day(&date)))
}

/// Calls chrono's `NaiveDate::format` with the pattern `%Y-%m-%d` on the
/// date that `NaiveDate::from_ymd_opt` makes of a year, a month and a day,
/// and takes the text.
///
/// The contract states what chrono documents of `%Y`, `%m` and `%d`: the
/// year with zeros up to four digits, and with a sign before it outside
/// the years 0 to 9999; the month and the day with two digits.
#[verifier::external_body]
fn day_text(year: i32, month: u32, day: u32, pattern: &str) -> (s: String)
    requires
        CalendarDay::of(year as int, month as int, day as int).is_valid(),
        pattern@ == date_pattern(),
    ensures
        s@ == CalendarDay::of(year as int, month as int, day as int).text(),
{
    chrono::NaiveDate::from_ymd_opt(year, month, day).unwrap().format(pattern).to_string()
}

/// A calendar date.
#[derive(Clone, Copy, Debug, PartialEq, Eq, Structural)]
pub struct Date {
    year: i32,
    month: u32,
    day: u32,
}

impl View for Date {
    type V = CalendarDay;

    closed spec fn view(&self) -> CalendarDay {
        CalendarDay { year: self.year as int, month: self.month as int, day: self.day as int }
    }
}

/// Whether a year has a 29 February.
fn leap_year(year: i32) -> (b: bool)
    ensures
        b == is_leap_year(year as int),
{
    let y: i64 = year as i64 + 400_000_000;
    assert(y % 4 == (year as int) % 4 && y % 100 == (year as int) % 100 && y % 400 == (year as int)
        % 400) by {
        vstd::arithmetic::div_mod::lemma_mod_multiples_vanish(100_000_000, year as int, 4);
        vstd::arithmetic::div_mod::lemma_mod_multiples_vanish(4_000_000, year as int, 100);
        vstd::arithmetic::div_mod::lemma_mod_multiples_vanish(1_000_000, year as int, 400);
    }
    y % 4 == 0 && (y % 100 != 0 || y % 400 == 0)
}

/// The number of days of a month.
fn month_length(year: i32, month: u32) -> (n: u32)
    ensures
        n == days_in_month(year as int, month as int),
{
    if month == 2 {
        if leap_year(year) {
            29
        } else {
            28
        }
    } else if month == 4 || month == 6 || month == 9 || month == 11 {
        30
    } else {
        31
    }
}

impl Date {
    /// The invariant of the type: the date exists in the calendar.
    #[verifier::type_invariant]
    pub open spec fn wf(self) -> bool {
        self@.is_valid()
    }

    /// The date of a year, a month and a day, if that day exists in the
    /// calendar and its year is from `FIRST_YEAR` to `LAST_YEAR`.
    pub fn new(year: i32, month: u32, day: u32) -> (r: Option<Date>)
        ensures
            r is Some <==> CalendarDay::of(year as int, month as int, day as int).is_valid(),
            r matches Some(date) ==> date.wf() && date@ == CalendarDay::of(
                year as int,
                month as int,
                day as int,
            ),
    {
        if year < FIRST_YEAR || year > LAST_YEAR || month < 1 || month > 12 || day < 1 {
            return None;
        }
        if day > month_length(year, month) {
            return None;
        }
        Some(Date { year, month, day })
    }

    /// The year.
    pub fn year(&self) -> (y: i32)
        ensures
            y == self@.year,
    {
        self.year
    }

    /// The month, from 1 to 12.
    pub fn month(&self) -> (m: u32)
        ensures
            m == self@.month,
            1 <= m <= 12,
    {
        proof {
            use_type_invariant(self);
        }
        self.month
    }

    /// The day of the month, from 1.
    pub fn day(&self) -> (d: u32)
        ensures
            d == self@.day,
            1 <= d <= 31,
    {
        proof {
            use_type_invariant(self);
        }
        self.day
    }

    /// Whether this is the first day of the calendar, which has no day
    /// before it.
    pub fn is_first(&self) -> (b: bool)
        ensures
            b == (self@ == CalendarDay::first()),
    {
        self.year == FIRST_YEAR && self.month == 1 && self.day == 1
    }

    /// The day before this one, or nothing for the first day of the
    /// calendar.
    pub fn previous(&self) -> (r: Option<Date>)
        ensures
            r is None <==> self@ == CalendarDay::first(),
            r matches Some(date) ==> date.wf() && date@ == self@.previous(),
    {
        proof {
            use_type_invariant(self);
        }
        match day_before(self.year, self.month, self.day) {
            Some((year, month, day)) => Some(Date { year, month, day }),
            None => None,
        }
    }

    /// Whether this date comes before the other.
    pub fn is_before(&self, other: &Date) -> (b: bool)
        ensures
            b == self@.is_before(other@),
    {
        self.year < other.year || (self.year == other.year && (self.month < other.month || (
        self.month == other.month && self.day < other.day)))
    }

    /// The number of the day: the days of the calendar are numbered one
    /// after the other.
    pub fn day_number(&self) -> (n: i64)
        ensures
            n == day_number(self@),
            0 <= n <= 200_000_000,
    {
        proof {
            use_type_invariant(self);
        }
        let p: i64 = (self.year as i64) - 1 + YEAR_SHIFT;
        let mut in_year: i64 = 0;
        let mut month: u32 = 1;
        while month < self.month
            invariant
                1 <= month <= self.month <= 12,
                in_year == days_before_month(self.year as int, month as int),
                0 <= in_year <= 31 * (month - 1),
            decreases self.month - month,
        {
            in_year = in_year + (month_length(self.year, month) as i64);
            month = month + 1;
        }
        365 * p + p / 4 - p / 100 + p / 400 + in_year + (self.day as i64)
    }

    /// The date as text, such as `2024-01-02`.
    pub fn to_key_string(&self) -> (s: String)
        ensures
            s@ == self@.text(),
    {
        proof {
            use_type_invariant(self);
        }
        day_text(self.year, self.month, self.day, "%Y-%m-%d")
    }
}

/// Two dates with the same model are the same date.
pub proof fn lemma_date_is_its_view(a: Date, b: Date)
    requires
        a@ == b@,
    ensures
        a == b,
{
}

/// What a timestamp holds: the model of `Timestamp`.
pub struct LocalTime {
    pub date: Date,
    pub hour: int,
    pub minute: int,
    pub second: int,
    pub nanosecond: int,
    pub utc_offset_seconds: int,
}

impl LocalTime {
    /// The time of a date, a time of day and an offset from UTC.
    pub open spec fn of(
        date: Date,
        hour: int,
        minute: int,
        second: int,
        nanosecond: int,
        utc_offset_seconds: int,
    ) -> LocalTime {
        LocalTime { date, hour, minute, second, nanosecond, utc_offset_seconds }
    }

    /// The seconds from the beginning of the day with the number 0 to this
    /// moment, in UTC: the local time less its offset from UTC.
    pub open spec fn utc_seconds(self) -> int {
        day_number(self.date@) * 86_400 + self.hour * 3_600 + self.minute * 60 + self.second
            - self.utc_offset_seconds
    }

    /// This moment is the other one or an earlier one.
    pub open spec fn is_not_later_than(self, other: LocalTime) -> bool {
        self.utc_seconds() < other.utc_seconds() || (self.utc_seconds() == other.utc_seconds()
            && self.nanosecond <= other.nanosecond)
    }

    /// A time of a day that has a day before it; the nanoseconds may count
    /// a leap second.
    pub open spec fn is_valid(self) -> bool {
        &&& self.date.wf()
        &&& self.date@ != CalendarDay::first()
        &&& 0 <= self.hour < 24
        &&& 0 <= self.minute < 60
        &&& 0 <= self.second < 60
        &&& 0 <= self.nanosecond < 2_000_000_000
        &&& -86_400 < self.utc_offset_seconds < 86_400
    }
}

/// A moment in local civil time: the date and the time of day that a clock
/// showed, and that clock's offset from UTC.
#[derive(Clone, Copy, Debug, PartialEq, Eq, Structural)]
pub struct Timestamp {
    date: Date,
    hour: u32,
    minute: u32,
    second: u32,
    nanosecond: u32,
    utc_offset_seconds: i32,
}

impl View for Timestamp {
    type V = LocalTime;

    closed spec fn view(&self) -> LocalTime {
        LocalTime {
            date: self.date,
            hour: self.hour as int,
            minute: self.minute as int,
            second: self.second as int,
            nanosecond: self.nanosecond as int,
            utc_offset_seconds: self.utc_offset_seconds as int,
        }
    }
}

impl Timestamp {
    /// The invariant of the type.
    #[verifier::type_invariant]
    pub open spec fn wf(self) -> bool {
        self@.is_valid()
    }

    /// The timestamp of a date, a time of day and an offset from UTC in
    /// seconds, if the time exists and the date is not the first day of the
    /// calendar.
    pub fn new(
        date: Date,
        hour: u32,
        minute: u32,
        second: u32,
        nanosecond: u32,
        utc_offset_seconds: i32,
    ) -> (r: Option<Timestamp>)
        ensures
            r is Some <==> LocalTime::of(
                date,
                hour as int,
                minute as int,
                second as int,
                nanosecond as int,
                utc_offset_seconds as int,
            ).is_valid(),
            r matches Some(t) ==> t.wf() && t@ == LocalTime::of(
                date,
                hour as int,
                minute as int,
                second as int,
                nanosecond as int,
                utc_offset_seconds as int,
            ),
    {
        proof {
            use_type_invariant(&date);
        }
        if date.is_first() || hour >= 24 || minute >= 60 || second >= 60 || nanosecond
            >= 2_000_000_000 || utc_offset_seconds <= -86_400 || utc_offset_seconds >= 86_400 {
            return None;
        }
        Some(Timestamp { date, hour, minute, second, nanosecond, utc_offset_seconds })
    }

    /// The local date.
    pub fn date(&self) -> (d: Date)
        ensures
            d == self@.date,
            d.wf(),
            d@ != CalendarDay::first(),
    {
        proof {
            use_type_invariant(self);
        }
        self.date
    }

    /// The hour of the day, from 0 to 23.
    pub fn hour(&self) -> (h: u32)
        ensures
            h == self@.hour,
            h < 24,
    {
        proof {
            use_type_invariant(self);
        }
        self.hour
    }

    /// The minute of the hour.
    pub fn minute(&self) -> (m: u32)
        ensures
            m == self@.minute,
    {
        self.minute
    }

    /// The second of the minute.
    pub fn second(&self) -> (s: u32)
        ensures
            s == self@.second,
    {
        self.second
    }

    /// The nanoseconds since the second began.
    pub fn nanosecond(&self) -> (n: u32)
        ensures
            n == self@.nanosecond,
    {
        self.nanosecond
    }

    /// The offset of the local time from UTC, in seconds.
    pub fn utc_offset_seconds(&self) -> (s: i32)
        ensures
            s == self@.utc_offset_seconds,
    {
        self.utc_offset_seconds
    }

    /// The seconds from the beginning of the day with the number 0 to this
    /// moment, in UTC.
    pub fn utc_seconds(&self) -> (s: i64)
        ensures
            s == self@.utc_seconds(),
    {
        proof {
            use_type_invariant(self);
        }
        let days = self.date.day_number();
        days * 86_400 + (self.hour as i64) * 3_600 + (self.minute as i64) * 60 + (
        self.second as i64) - (self.utc_offset_seconds as i64)
    }

    /// Whether this moment is the other one or an earlier one. Moments are
    /// compared as moments: the offsets from UTC are taken into account.
    pub fn is_not_later_than(&self, other: &Timestamp) -> (b: bool)
        ensures
            b == self@.is_not_later_than(other@),
    {
        let (a, b) = (self.utc_seconds(), other.utc_seconds());
        a < b || (a == b && self.nanosecond <= other.nanosecond)
    }
}

} // verus!
