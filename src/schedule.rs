use vstd::prelude::*;
use crate::constraint::Constraint;
use crate::time::{
    calendar_of, day_of_month_of_day, earlier, month_of_day, weekday_of_day, LocalTime, MAX_DAY,
    MIN_DAY,
};

verus! {

/// Number of days after the starting day that the search looks at.
pub const SEARCH_DAYS: i32 = 3650;

/// Why no next run could be computed.
#[derive(Debug, Clone, Copy, PartialEq, Eq, Structural)]
pub enum ScheduleError {
    /// No qualifying instant within the search bound.
    Unsatisfiable,
}

/// Five fields: minute, hour, day of month, month and day of week.
#[derive(Debug, Clone)]
pub struct Schedule {
    minute: Constraint,
    hour: Constraint,
    month_day: Constraint,
    month: Constraint,
    week_day: Constraint,
}

/// The instant at minute `q` of the day `day`.
pub open spec fn at_minute(day: int, q: int) -> LocalTime {
    LocalTime { day: day as i32, hour: (q / 60) as u32, minute: (q % 60) as u32, second: 0, nanosecond: 0 }
}

/// First minute of the day to consider after `t`: its own minute when it
/// lies exactly on a minute boundary, else the next one.
pub open spec fn start_minute(t: LocalTime) -> int {
    t.hour * 60 + t.minute + if t.second == 0 && t.nanosecond == 0 {
        0int
    } else {
        1int
    }
}

impl Schedule {
    pub closed spec fn minutes(&self) -> Seq<bool> {
        self.minute@
    }

    pub closed spec fn hours(&self) -> Seq<bool> {
        self.hour@
    }

    pub closed spec fn month_days(&self) -> Seq<bool> {
        self.month_day@
    }

    pub closed spec fn months(&self) -> Seq<bool> {
        self.month@
    }

    pub closed spec fn week_days(&self) -> Seq<bool> {
        self.week_day@
    }

    /// Each field covers its whole domain.
    pub open spec fn wf(&self) -> bool {
        &&& self.minutes().len() == 60
        &&& self.hours().len() == 24
        &&& self.month_days().len() == 32
        &&& self.months().len() == 13
        &&& self.week_days().len() == 7
    }

    /// Minute `q` of a day satisfies the hour and minute fields.
    pub open spec fn slot_ok(&self, q: int) -> bool {
        0 <= q < 1440 && self.hours()[q / 60] && self.minutes()[q % 60]
    }

    /// The earliest qualifying minute of a day from minute `from` on.
    pub open spec fn first_slot(&self, from: int) -> Option<int>
        decreases 1440 - from,
    {
        if 0 <= from < 1440 {
            if self.slot_ok(from) {
                Some(from)
            } else {
                self.first_slot(from + 1)
            }
        } else {
            None
        }
    }

    /// The day's month, day of month and weekday satisfy their fields.
    pub open spec fn day_ok(&self, day: int) -> bool {
        &&& self.months()[month_of_day(day)]
        &&& self.month_days()[day_of_month_of_day(day)]
        &&& self.week_days()[weekday_of_day(day)]
    }

    /// The first qualifying instant on the days `day + k ..= day + SEARCH_DAYS`,
    /// searched from each day's start.
    pub open spec fn scan_days(&self, day: int, k: int) -> Option<LocalTime>
        decreases SEARCH_DAYS + 1 - k,
    {
        if 1 <= k <= SEARCH_DAYS {
            if self.day_ok(day + k) && self.first_slot(0) is Some {
                Some(at_minute(day + k, self.first_slot(0)->0))
            } else {
                self.scan_days(day, k + 1)
            }
        } else {
            None
        }
    }

    /// The next run after `t`: later the same day if the day qualifies,
    /// else on the first qualifying day of the following `SEARCH_DAYS`.
    pub open spec fn next_occurrence(&self, t: LocalTime) -> Option<LocalTime> {
        if self.day_ok(t.day as int) && self.first_slot(start_minute(t)) is Some {
            Some(at_minute(t.day as int, self.first_slot(start_minute(t))->0))
        } else {
            self.scan_days(t.day as int, 1)
        }
    }

    pub fn new(
        minute: Constraint,
        hour: Constraint,
        month_day: Constraint,
        month: Constraint,
        week_day: Constraint,
    ) -> (r: Schedule)
        requires
            minute@.len() == 60,
            hour@.len() == 24,
            month_day@.len() == 32,
            month@.len() == 13,
            week_day@.len() == 7,
        ensures
            r.wf(),
            r.minutes() == minute@,
            r.hours() == hour@,
            r.month_days() == month_day@,
            r.months() == month@,
            r.week_days() == week_day@,
    {
        Schedule { minute, hour, month_day, month, week_day }
    }

    /// Does the day with these calendar facts satisfy the day fields?
    pub fn day_matches(&self, month: u32, day: u32, weekday: u32) -> (r: bool)
        requires
            self.wf(),
            1 <= month <= 12,
            1 <= day <= 31,
            weekday < 7,
        ensures
            r == (self.months()[month as int] && self.month_days()[day as int]
                && self.week_days()[weekday as int]),
    {
        self.month.satisfy(month) && self.month_day.satisfy(day) && self.week_day.satisfy(weekday)
    }

    /// The earliest qualifying minute of `t`'s day from `start_minute(t)` on.
    pub fn first_in_day(&self, t: &LocalTime) -> (r: Option<LocalTime>)
        requires
            self.wf(),
            t.wf(),
        ensures
            match self.first_slot(start_minute(*t)) {
                Some(q) => r == Some(at_minute(t.day as int, q)),
                None => r is None,
            },
    {
        let mut q: u32 = t.hour * 60 + t.minute;
        if t.second != 0 || t.nanosecond != 0 {
            q = q + 1;
        }
        while q < 1440
            invariant
                self.wf(),
                start_minute(*t) <= q <= 1440,
                self.first_slot(start_minute(*t)) == self.first_slot(q as int),
            decreases 1440 - q,
        {
            if !self.hour.satisfy(q / 60) {
                let next: u32 = (q / 60 + 1) * 60;
                proof {
                    self.lemma_skip_hour(q as int, next as int);
                }
                q = next;
            } else if self.minute.satisfy(q % 60) {
                return Some(LocalTime { day: t.day, hour: q / 60, minute: q % 60, second: 0, nanosecond: 0 });
            } else {
                q = q + 1;
            }
        }
        None
    }

    /// The rest of an hour that does not qualify holds no qualifying minute.
    proof fn lemma_skip_hour(&self, q: int, next: int)
        requires
            0 <= q < 1440,
            next == (q / 60 + 1) * 60,
            !self.hours()[q / 60],
        ensures
            self.first_slot(q) == self.first_slot(next),
        decreases next - q,
    {
        assert(q < next) by (nonlinear_arith)
            requires
                next == (q / 60 + 1) * 60,
                0 <= q,
        ;
        if q + 1 < next {
            assert((q + 1) / 60 == q / 60) by (nonlinear_arith)
                requires
                    next == (q / 60 + 1) * 60,
                    0 <= q,
                    q + 1 < next,
            ;
            self.lemma_skip_hour(q + 1, next);
        } else {
            assert(next <= 1440) by (nonlinear_arith)
                requires
                    next == (q / 60 + 1) * 60,
                    0 <= q < 1440,
            ;
        }
    }

    /// The next run after `t` (at `t` itself when `t` is exactly a qualifying
    /// minute), or an error when no day of the search bound qualifies.
    pub fn calc_next(&self, t: &LocalTime) -> (r: Result<LocalTime, ScheduleError>)
        requires
            self.wf(),
            t.wf(),
            t.day + SEARCH_DAYS <= MAX_DAY,
        ensures
            r == match self.next_occurrence(*t) {
                Some(n) => Ok(n),
                None => Err(ScheduleError::Unsatisfiable),
            },
            r matches Ok(n) ==> n.wf(),
    {
        proof {
            self.lemma_next_not_before(*t);
        }
        let cal = calendar_of(t.day);
        if self.day_matches(cal.month, cal.day, cal.weekday) {
            if let Some(n) = self.first_in_day(t) {
                return Ok(n);
            }
        }
        let mut k: i32 = 0;
        while k < SEARCH_DAYS
            invariant
                self.wf(),
                t.wf(),
                t.day + SEARCH_DAYS <= MAX_DAY,
                0 <= k <= SEARCH_DAYS,
                self.next_occurrence(*t) == self.scan_days(t.day as int, k + 1),
                self.next_occurrence(*t) matches Some(n) ==> n.wf(),
            decreases SEARCH_DAYS - k,
        {
            k = k + 1;
            let day: i32 = t.day + k;
            let cal = calendar_of(day);
            if self.day_matches(cal.month, cal.day, cal.weekday) {
                let start = LocalTime { day, hour: 0, minute: 0, second: 0, nanosecond: 0 };
                if let Some(n) = self.first_in_day(&start) {
                    return Ok(n);
                }
            }
        }
        Err(ScheduleError::Unsatisfiable)
    }

    /// A first qualifying minute lies at or after the minute it is searched
    /// from, and qualifies.
    pub proof fn lemma_first_slot(&self, from: int)
        requires
            0 <= from,
        ensures
            self.first_slot(from) matches Some(q) ==> from <= q < 1440 && self.slot_ok(q),
        decreases 1440 - from,
    {
        if 0 <= from < 1440 && !self.slot_ok(from) {
            self.lemma_first_slot(from + 1);
        }
    }

    /// Any day found by the forward scan lies after `day`.
    proof fn lemma_scan_after(&self, day: int, k: int)
        requires
            1 <= k,
            MIN_DAY <= day,
            day + SEARCH_DAYS <= MAX_DAY,
        ensures
            self.scan_days(day, k) matches Some(n) ==> day < n.day <= day + SEARCH_DAYS && n
                == at_minute(n.day as int, self.first_slot(0)->0) && self.first_slot(0) is Some,
        decreases SEARCH_DAYS + 1 - k,
    {
        if 1 <= k <= SEARCH_DAYS && !(self.day_ok(day + k) && self.first_slot(0) is Some) {
            self.lemma_scan_after(day, k + 1);
        }
    }

    /// The next run never lies before the instant asked about, and equals
    /// it only when that instant is exactly a qualifying minute boundary.
    pub proof fn lemma_next_not_before(&self, t: LocalTime)
        requires
            self.wf(),
            t.wf(),
            t.day + SEARCH_DAYS <= MAX_DAY,
        ensures
            self.next_occurrence(t) matches Some(n) ==> earlier(t, n) || (n == t && t.second == 0
                && t.nanosecond == 0),
            self.next_occurrence(t) matches Some(n) ==> n.wf(),
    {
        let st = start_minute(t);
        if self.day_ok(t.day as int) && self.first_slot(st) is Some {
            self.lemma_first_slot(st);
            let q = self.first_slot(st)->0;
            let n = at_minute(t.day as int, q);
            assert(n.hour as int == q / 60 && n.minute as int == q % 60) by (nonlinear_arith)
                requires
                    0 <= q < 1440,
                    n == at_minute(t.day as int, q),
            ;
            assert(earlier(t, n) || (n == t && t.second == 0 && t.nanosecond == 0))
                by (nonlinear_arith)
                requires
                    n.hour as int == q / 60,
                    n.minute as int == q % 60,
                    n.day == t.day,
                    n.second == 0,
                    n.nanosecond == 0,
                    st <= q,
                    st == t.hour * 60 + t.minute + if t.second == 0 && t.nanosecond == 0 {
                        0int
                    } else {
                        1int
                    },
                    t.minute < 60,
                    0 <= q,
            ;
        } else {
            self.lemma_scan_after(t.day as int, 1);
            self.lemma_first_slot(0);
            if self.scan_days(t.day as int, 1) is Some {
                let q = self.first_slot(0)->0;
                let n = self.scan_days(t.day as int, 1)->0;
                assert(n.hour as int == q / 60 && n.minute as int == q % 60 && n.hour < 24) by (nonlinear_arith)
                    requires
                        0 <= q < 1440,
                        n == at_minute(n.day as int, q),
                ;
            }
        }
    }
}

} // verus!
