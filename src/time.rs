use vstd::prelude::*;
use chrono::{Datelike, NaiveDate};

verus! {

/// Smallest day number handled (days counted from 1 January of year 1, which
/// is day 1), well inside the calendar range that chrono supports.
pub const MIN_DAY: i32 = -90_000_000;

/// Largest day number handled.
pub const MAX_DAY: i32 = 90_000_000;

/// Milliseconds in a day.
pub const MILLIS_PER_DAY: i64 = 86_400_000;

/// A local wall-clock instant: a day number and a time of day.
#[derive(Debug, Clone, Copy, PartialEq, Eq, Structural)]
pub struct LocalTime {
    pub day: i32,
    pub hour: u32,
    pub minute: u32,
    pub second: u32,
    pub nanosecond: u32,
}

/// Month (1..=12), day of month (1..=31) and weekday (0..=6, Sunday 0) of a day.
#[derive(Debug, Clone, Copy, PartialEq, Eq, Structural)]
pub struct CalendarDay {
    pub month: u32,
    pub day: u32,
    pub weekday: u32,
}

/// Month of a day number.
pub uninterp spec fn month_of_day(day: int) -> int;

/// Day of month of a day number.
pub uninterp spec fn day_of_month_of_day(day: int) -> int;

/// Weekday of a day number, counted from Sunday.
pub uninterp spec fn weekday_of_day(day: int) -> int;

/// Day number of a calendar date.
pub uninterp spec fn day_number_of(year: int, month: int, day: int) -> int;

/// Relies on chrono's `NaiveDate::from_num_days_from_ce_opt`, which yields a
/// date for every day number in `MIN_DAY..=MAX_DAY` (about 246,000 years each
/// way), and on `Datelike::month` (1..=12), `Datelike::day` (1..=31) and
/// `Weekday::num_days_from_sunday` (0..=6) of that date.
#[verifier::external_body]
pub(crate) fn calendar_of(day: i32) -> (r: CalendarDay)
    requires
        MIN_DAY <= day <= MAX_DAY,
    ensures
        r.month as int == month_of_day(day as int),
        r.day as int == day_of_month_of_day(day as int),
        r.weekday as int == weekday_of_day(day as int),
        1 <= r.month <= 12,
        1 <= r.day <= 31,
        r.weekday < 7,
{
    let d = NaiveDate::from_num_days_from_ce_opt(day).unwrap();
    CalendarDay { month: d.month(), day: d.day(), weekday: d.weekday().num_days_from_sunday() }
}

/// Relies on chrono's `NaiveDate::from_ymd_opt`, which yields `None` for a
/// date that does not exist, and `Datelike::num_days_from_ce` of the date.
#[verifier::external_body]
fn day_number(year: i32, month: u32, day: u32) -> (r: Option<i32>)
    ensures
        r matches Some(n) ==> n as int == day_number_of(year as int, month as int, day as int),
        !(1 <= month <= 12 && 1 <= day <= 31) ==> r is None,
{
    NaiveDate::from_ymd_opt(year, month, day).map(|d| d.num_days_from_ce())
}

/// `a` comes strictly before `b`: the parts compared in order, day first.
pub open spec fn earlier(a: LocalTime, b: LocalTime) -> bool {
    ||| a.day < b.day
    ||| a.day == b.day && a.hour < b.hour
    ||| a.day == b.day && a.hour == b.hour && a.minute < b.minute
    ||| a.day == b.day && a.hour == b.hour && a.minute == b.minute && a.second < b.second
    ||| a.day == b.day && a.hour == b.hour && a.minute == b.minute && a.second == b.second
        && a.nanosecond < b.nanosecond
}

/// `earlier` is a strict order.
pub proof fn lemma_earlier_order(a: LocalTime, b: LocalTime, c: LocalTime)
    ensures
        !earlier(a, a),
        earlier(a, b) && earlier(b, c) ==> earlier(a, c),
        earlier(a, b) ==> !earlier(b, a),
{
}

/// Milliseconds from the start of the day-number count to `t`.
pub open spec fn total_millis(t: LocalTime) -> int {
    t.day * 86_400_000 + ((t.hour * 60 + t.minute) * 60 + t.second) * 1000 + t.nanosecond / 1_000_000
}

impl LocalTime {
    /// Every part lies in its range (a nanosecond count of a second or more
    /// stands for a leap second).
    pub open spec fn wf(&self) -> bool {
        &&& MIN_DAY <= self.day <= MAX_DAY
        &&& self.hour < 24
        &&& self.minute < 60
        &&& self.second < 60
        &&& self.nanosecond < 2_000_000_000
    }

    /// The instant at `hour:minute:second` of the given calendar date, if
    /// the date exists, lies in the range handled, and the time is valid.
    pub fn from_parts(year: i32, month: u32, day: u32, hour: u32, minute: u32, second: u32) -> (r:
        Option<LocalTime>)
        ensures
            r matches Some(t) ==> t.wf() && t.day as int == day_number_of(
                year as int,
                month as int,
                day as int,
            ) && t.hour == hour && t.minute == minute && t.second == second && t.nanosecond == 0,
            !(1 <= month <= 12 && 1 <= day <= 31 && hour < 24 && minute < 60 && second < 60)
                ==> r is None,
    {
        if hour >= 24 || minute >= 60 || second >= 60 {
            return None;
        }
        match day_number(year, month, day) {
            Some(n) => if MIN_DAY <= n && n <= MAX_DAY {
                Some(LocalTime { day: n, hour, minute, second, nanosecond: 0 })
            } else {
                None
            },
            None => None,
        }
    }

    /// Calendar facts of this instant's day.
    pub fn calendar(&self) -> (r: CalendarDay)
        requires
            self.wf(),
        ensures
            r.month as int == month_of_day(self.day as int),
            r.day as int == day_of_month_of_day(self.day as int),
            r.weekday as int == weekday_of_day(self.day as int),
    {
        calendar_of(self.day)
    }

    /// Does `self` come strictly before `other`?
    pub fn is_before(&self, other: &LocalTime) -> (r: bool)
        ensures
            r == earlier(*self, *other),
    {
        if self.day != other.day {
            return self.day < other.day;
        }
        if self.hour != other.hour {
            return self.hour < other.hour;
        }
        if self.minute != other.minute {
            return self.minute < other.minute;
        }
        if self.second != other.second {
            return self.second < other.second;
        }
        self.nanosecond < other.nanosecond
    }

    /// Milliseconds from `self` to `later` (negative when `later` comes first).
    pub fn millis_until(&self, later: &LocalTime) -> (r: i64)
        requires
            self.wf(),
            later.wf(),
        ensures
            r == total_millis(*later) - total_millis(*self),
    {
        let a: i64 = self.day as i64 * MILLIS_PER_DAY + ((self.hour as i64 * 60 + self.minute as i64) * 60
            + self.second as i64) * 1000 + (self.nanosecond / 1_000_000) as i64;
        let b: i64 = later.day as i64 * MILLIS_PER_DAY + ((later.hour as i64 * 60 + later.minute as i64)
            * 60 + later.second as i64) * 1000 + (later.nanosecond / 1_000_000) as i64;
        b - a
    }
}

} // verus!
