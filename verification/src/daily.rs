//! The grouping of measurements by calendar day and by period of the day:
//! each day has a morning, a midday and an evening slot that hold one
//! measurement each, and a list for the measurements that find no free slot.

use crate::datetime::{lemma_date_is_its_view, CalendarDay, Date, Timestamp};
use crate::measurement::Measurement;
use vstd::prelude::*;

verus! {

/// The hours of the day at which the periods of a day begin and end. A
/// period runs from its first hour up to, but not including, its last.
#[derive(Clone, Copy, Debug, PartialEq, Eq, Structural)]
pub struct Hours {
    pub morning_start: u32,
    pub morning_end: u32,
    pub midday_start: u32,
    pub midday_end: u32,
    pub evening_start: u32,
}

/// Where a measurement is put within its day.
#[derive(Clone, Copy, Debug, PartialEq, Eq, Structural)]
pub enum Slot {
    Morning,
    Midday,
    Evening,
    Other,
}

/// The slot of a measurement taken at `hour`, given which slots of its day
/// are still free. The first rule that applies decides:
/// before the morning begins, the evening slot (of the day before) if it
/// is free; in the morning, the morning slot if it is free; at midday, the
/// midday slot if it is free; from the beginning of the evening on, the
/// evening slot if it is free; otherwise the list of the others.
pub open spec fn slot_for(
    hour: int,
    hours: Hours,
    morning_free: bool,
    midday_free: bool,
    evening_free: bool,
) -> Slot {
    if hour < hours.morning_start && evening_free {
        Slot::Evening
    } else if hours.morning_start <= hour < hours.morning_end && morning_free {
        Slot::Morning
    } else if hours.midday_start <= hour < hours.midday_end && midday_free {
        Slot::Midday
    } else if hour >= hours.evening_start && evening_free {
        Slot::Evening
    } else {
        Slot::Other
    }
}

/// The day that a measurement taken at `date` and `hour` is counted to: the
/// day before if the morning has not begun yet, the same day otherwise.
pub open spec fn day_for(date: CalendarDay, hour: int, hours: Hours) -> CalendarDay {
    if hour < hours.morning_start {
        date.previous()
    } else {
        date
    }
}

/// The measurements of one day: the model of `DailyMeasurements`.
pub struct Day<M> {
    pub date: CalendarDay,
    pub morning: Option<M>,
    pub midday: Option<M>,
    pub evening: Option<M>,
    pub other: Seq<M>,
}

impl<M> Day<M> {
    /// A day without measurements.
    pub open spec fn empty(date: CalendarDay) -> Day<M> {
        Day { date, morning: None, midday: None, evening: None, other: Seq::empty() }
    }

    /// The day with one more measurement, taken at `hour`.
    pub open spec fn with(self, m: M, hour: int, hours: Hours) -> Day<M> {
        match slot_for(
            hour,
            hours,
            self.morning is None,
            self.midday is None,
            self.evening is None,
        ) {
            Slot::Morning => Day { morning: Some(m), ..self },
            Slot::Midday => Day { midday: Some(m), ..self },
            Slot::Evening => Day { evening: Some(m), ..self },
            Slot::Other => Day { other: self.other.push(m), ..self },
        }
    }
}

/// The days of a sequence of measurements, each with the measurements that
/// are counted to it, put into their slots in the order of the sequence.
pub open spec fn grouped<M: Measurement>(ms: Seq<M>, hours: Hours) -> Map<CalendarDay, Day<M>>
    decreases ms.len(),
{
    if ms.len() == 0 {
        Map::empty()
    } else {
        let before = grouped(ms.drop_last(), hours);
        let m = ms.last();
        let time = m.taken_at()@;
        let date = day_for(time.date@, time.hour, hours);
        let day = if before.contains_key(date) {
            before[date]
        } else {
            Day::empty(date)
        };
        before.insert(date, day.with(m, time.hour, hours))
    }
}

/// `days` lists the days of `by_date`, each once, the most recent first.
pub open spec fn lists_days<M>(days: Seq<Day<M>>, by_date: Map<CalendarDay, Day<M>>) -> bool {
    &&& forall|i: int, j: int|
        0 <= i < j < days.len() ==> (#[trigger] days[j]).date.is_before((#[trigger] days[i]).date)
    &&& forall|i: int|
        0 <= i < days.len() ==> by_date.contains_key((#[trigger] days[i]).date)
            && by_date[days[i].date] == days[i]
    &&& forall|d: CalendarDay| #[trigger]
        by_date.contains_key(d) ==> exists|i: int| 0 <= i < days.len() && (#[trigger] days[i]).date == d
}

/// In two lists of the same days, the day at each position of the first
/// stands at the same position of the second.
pub proof fn lemma_listed_dates_agree<M>(
    a: Seq<Day<M>>,
    b: Seq<Day<M>>,
    by_date: Map<CalendarDay, Day<M>>,
    i: int,
)
    requires
        lists_days(a, by_date),
        lists_days(b, by_date),
        0 <= i < a.len(),
    ensures
        i < b.len(),
        a[i].date == b[i].date,
    decreases i,
{
    // the date at `i` in `a` stands somewhere in `b`, and not before `i`
    assert(by_date.contains_key(a[i].date));
    let j = choose|j: int| 0 <= j < b.len() && (#[trigger] b[j]).date == a[i].date;
    if j < i {
        lemma_listed_dates_agree(a, b, by_date, j);
        assert(a[i].date.is_before(a[j].date));
    }
    // the date at `i` in `b` stands somewhere in `a`, and not before `i`
    assert(by_date.contains_key(b[i].date));
    let k = choose|k: int| 0 <= k < a.len() && (#[trigger] a[k]).date == b[i].date;
    if k < i {
        lemma_listed_dates_agree(a, b, by_date, k);
        assert(b[i].date.is_before(b[k].date));
    }
    if j > i {
        assert(b[j].date.is_before(b[i].date));
        if k > i {
            assert(a[k].date.is_before(a[i].date));
        }
    }
}

/// The days of a map have but one list: grouping the same measurements
/// again gives the same days with the same measurements in the same slots.
pub proof fn lemma_listing_is_unique<M>(
    a: Seq<Day<M>>,
    b: Seq<Day<M>>,
    by_date: Map<CalendarDay, Day<M>>,
)
    requires
        lists_days(a, by_date),
        lists_days(b, by_date),
    ensures
        a == b,
{
    if a.len() > 0 {
        lemma_listed_dates_agree(a, b, by_date, a.len() - 1);
    }
    if b.len() > 0 {
        lemma_listed_dates_agree(b, a, by_date, b.len() - 1);
    }
    assert forall|i: int| 0 <= i < a.len() implies a[i] == b[i] by {
        lemma_listed_dates_agree(a, b, by_date, i);
        assert(by_date[a[i].date] == a[i]);
        assert(by_date[b[i].date] == b[i]);
    }
    assert(a =~= b);
}

/// Decides the slot of a measurement taken at `hour`, given which slots of
/// its day are still free.
pub fn choose_slot(
    hour: u32,
    hours: &Hours,
    morning_free: bool,
    midday_free: bool,
    evening_free: bool,
) -> (slot: Slot)
    ensures
        slot == slot_for(hour as int, *hours, morning_free, midday_free, evening_free),
{
    if hour < hours.morning_start && evening_free {
        Slot::Evening
    } else if hour >= hours.morning_start && hour < hours.morning_end && morning_free {
        Slot::Morning
    } else if hour >= hours.midday_start && hour < hours.midday_end && midday_free {
        Slot::Midday
    } else if hour >= hours.evening_start && evening_free {
        Slot::Evening
    } else {
        Slot::Other
    }
}

/// The day that a measurement taken at `time` is counted to: the day
/// before its date if the morning has not begun yet, its date otherwise.
pub fn day_of(time: &Timestamp, hours: &Hours) -> (date: Date)
    ensures
        date@ == day_for(time@.date@, time@.hour, *hours),
        date.wf(),
{
    let date = time.date();
    if time.hour() < hours.morning_start {
        match date.previous() {
            Some(before) => before,
            None => date,
        }
    } else {
        date
    }
}

/// The measurements of one calendar day, by period of the day.
#[derive(Clone, Debug, PartialEq, Eq)]
pub struct DailyMeasurements<M> {
    pub date: Date,
    pub morning: Option<M>,
    pub midday: Option<M>,
    pub evening: Option<M>,
    /// The measurements that found no free slot, in the order in which they
    /// came.
    pub other: Vec<M>,
}

impl<M> View for DailyMeasurements<M> {
    type V = Day<M>;

    open spec fn view(&self) -> Day<M> {
        Day {
            date: self.date@,
            morning: self.morning,
            midday: self.midday,
            evening: self.evening,
            other: self.other@,
        }
    }
}

/// The models of a list of days.
pub open spec fn day_views<M>(days: Seq<DailyMeasurements<M>>) -> Seq<Day<M>> {
    days.map_values(|d: DailyMeasurements<M>| d@)
}

impl<M: Measurement> DailyMeasurements<M> {
    /// A day without measurements.
    pub fn new_empty(date: Date) -> (day: Self)
        ensures
            day@ == Day::<M>::empty(date@),
            day.date == date,
    {
        DailyMeasurements { date, morning: None, midday: None, evening: None, other: Vec::new() }
    }

    /// Puts a measurement taken at `hour` into its slot.
    pub fn place(&mut self, m: M, hour: u32, hours: &Hours)
        ensures
            final(self)@ == old(self)@.with(m, hour as int, *hours),
            final(self).date == old(self).date,
    {
        let slot = choose_slot(
            hour,
            hours,
            self.morning.is_none(),
            self.midday.is_none(),
            self.evening.is_none(),
        );
        match slot {
            Slot::Morning => {
                self.morning = Some(m);
            },
            Slot::Midday => {
                self.midday = Some(m);
            },
            Slot::Evening => {
                self.evening = Some(m);
            },
            Slot::Other => {
                self.other.push(m);
            },
        }
    }

    /// The date as text, such as `2024-01-02`.
    pub fn date_string(&self) -> (s: String)
        ensures
            s@ == self.date@.text(),
    {
        self.date.to_key_string()
    }
}

/// Groups measurements by day and by period of the day.
///
/// Each measurement is counted to the date of its timestamp, or to the day
/// before if it was taken before the morning begins. Within its day it
/// takes the slot that `slot_for` gives it, the measurements being placed
/// in the order of the sequence. The days come out by date, the most
/// recent first.
pub fn group_by_day<M: Measurement>(ms: &Vec<M>, hours: &Hours) -> (days: Vec<DailyMeasurements<M>>)
    ensures
        lists_days(day_views(days@), grouped(ms@, *hours)),
{
    let mut days: Vec<DailyMeasurements<M>> = Vec::new();
    let mut i: usize = 0;
    proof {
        assert(ms@.take(0) =~= Seq::empty());
    }
    while i < ms.len()
        invariant
            i <= ms.len(),
            lists_days(day_views(days@), grouped(ms@.take(i as int), *hours)),
        decreases ms.len() - i,
    {
        let m = ms[i];
        let time = m.timestamp();
        let hour = time.hour();
        let date = day_of(&time, hours);
        let ghost before = grouped(ms@.take(i as int), *hours);
        let ghost after = grouped(ms@.take(i as int + 1), *hours);
        let ghost old_days = day_views(days@);
        proof {
            assert(ms@.take(i as int + 1).drop_last() =~= ms@.take(i as int));
            assert(ms@.take(i as int + 1).last() == m);
        }
        // the days are listed from the most recent on: pass those after `date`
        let mut at: usize = 0;
        while at < days.len() && date.is_before(&days[at].date)
            invariant
                at <= days.len(),
                forall|t: int| 0 <= t < at ==> date@.is_before((#[trigger] day_views(days@)[t]).date),
            decreases days.len() - at,
        {
            at = at + 1;
        }
        let found = at < days.len() && days[at].date == date;
        let mut day = if found {
            days.remove(at)
        } else {
            DailyMeasurements::new_empty(date)
        };
        let ghost rest = day_views(days@);
        let ghost old_day = day@;
        proof {
            if found {
                assert(old_days[at as int].date == date@);
                assert(old_day == old_days[at as int]);
                assert(rest =~= old_days.remove(at as int));
            } else {
                assert(rest == old_days);
                if at < old_days.len() {
                    if old_days[at as int].date == date@ {
                        lemma_date_is_its_view(days@[at as int].date, date);
                    }
                    assert(old_days[at as int].date.is_before(date@));
                }
                // no day of the list has this date, so the date is new
                if before.contains_key(date@) {
                    let w = choose|w: int| 0 <= w < old_days.len() && (#[trigger] old_days[w]).date
                        == date@;
                    if w < at {
                        assert(date@.is_before(old_days[w].date));
                    } else if w > at {
                        assert(old_days[w].date.is_before(old_days[at as int].date));
                    }
                }
                assert(!before.contains_key(date@));
            }
        }
        day.place(m, hour, hours);
        let ghost new_day = day@;
        days.insert(at, day);
        proof {
            let new_days = day_views(days@);
            assert(new_days =~= rest.insert(at as int, new_day));
            assert(after == before.insert(date@, new_day));
            assert(new_day.date == date@);
            assert forall|a: int, b: int| 0 <= a < b < new_days.len() implies (
            #[trigger] new_days[b]).date.is_before((#[trigger] new_days[a]).date) by {
                if found {
                    assert(new_days[a].date == old_days[a].date);
                    assert(new_days[b].date == old_days[b].date);
                } else {
                    let oa = if a < at {
                        a
                    } else {
                        a - 1
                    };
                    let ob = if b < at {
                        b
                    } else {
                        b - 1
                    };
                    if a != at {
                        assert(new_days[a] == old_days[oa]);
                    }
                    if b != at {
                        assert(new_days[b] == old_days[ob]);
                    }
                    if a == at {
                        assert(old_days[ob].date.is_before(date@)) by {
                            if ob > at {
                                assert(old_days[ob].date.is_before(old_days[at as int].date));
                            }
                        }
                    } else if b == at {
                        assert(date@.is_before(old_days[oa].date));
                    }
                }
            }
            assert forall|t: int| 0 <= t < new_days.len() implies after.contains_key(
                (#[trigger] new_days[t]).date,
            ) && after[new_days[t].date] == new_days[t] by {
                if t != at {
                    let ot = if found || t < at {
                        t
                    } else {
                        t - 1
                    };
                    assert(new_days[t] == old_days[ot]);
                    assert(before.contains_key(old_days[ot].date));
                    if found {
                        if ot < at {
                            assert(old_days[at as int].date.is_before(old_days[ot].date));
                        } else {
                            assert(old_days[ot].date.is_before(old_days[at as int].date));
                        }
                    }
                    assert(old_days[ot].date != date@);
                }
            }
            assert forall|d: CalendarDay| #[trigger] after.contains_key(d) implies exists|t: int|
                0 <= t < new_days.len() && (#[trigger] new_days[t]).date == d by {
                if d == date@ {
                    assert(new_days[at as int].date == d);
                } else {
                    assert(before.contains_key(d));
                    let w = choose|w: int| 0 <= w < old_days.len() && (#[trigger] old_days[w]).date
                        == d;
                    let t = if found || w < at {
                        w
                    } else {
                        w + 1
                    };
                    assert(new_days[t] == old_days[w]);
                }
            }
        }
        i = i + 1;
    }
    proof {
        assert(ms@.take(i as int) =~= ms@);
    }
    days
}

} // verus!
