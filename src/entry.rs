use vstd::prelude::*;
use crate::schedule::{Schedule, ScheduleError, SEARCH_DAYS};
use crate::time::{earlier, LocalTime, MAX_DAY};

verus! {

/// The cached next run is missing or lies before `now`, so it is computed anew.
pub open spec fn stale(cache: Option<LocalTime>, now: LocalTime) -> bool {
    cache is None || earlier(cache->0, now)
}

/// The cache after asking for the next run at `now`.
pub open spec fn memo_after(cache: Option<LocalTime>, s: Schedule, now: LocalTime) -> Option<
    LocalTime,
> {
    if stale(cache, now) {
        s.next_occurrence(now)
    } else {
        cache
    }
}

/// What a next-run query reports for a cache value.
pub open spec fn outcome(cache: Option<LocalTime>) -> Result<LocalTime, ScheduleError> {
    match cache {
        Some(n) => Ok(n),
        None => Err(ScheduleError::Unsatisfiable),
    }
}

/// A job: a command and its schedule, with the next run remembered.
#[derive(Debug, Clone)]
pub struct Entry {
    command: String,
    schedule: Schedule,
    next_run: Option<LocalTime>,
}

impl Entry {
    pub closed spec fn command_view(&self) -> Seq<char> {
        self.command@
    }

    pub closed spec fn schedule_view(&self) -> Schedule {
        self.schedule
    }

    pub closed spec fn cached(&self) -> Option<LocalTime> {
        self.next_run
    }

    pub open spec fn wf(&self) -> bool {
        &&& self.schedule_view().wf()
        &&& self.cached() matches Some(c) ==> c.wf()
    }

    pub fn new(command: String, schedule: Schedule) -> (r: Entry)
        requires
            schedule.wf(),
        ensures
            r.wf(),
            r.command_view() == command@,
            r.schedule_view() == schedule,
            r.cached() is None,
    {
        Entry { command, schedule, next_run: None }
    }

    pub fn command(&self) -> (r: &str)
        ensures
            r@ == self.command_view(),
    {
        self.command.as_str()
    }

    /// The next run at or after `now`, computed only when the remembered one
    /// is missing or already past.
    pub fn next_run(&mut self, now: &LocalTime) -> (r: Result<LocalTime, ScheduleError>)
        requires
            old(self).wf(),
            now.wf(),
            now.day + SEARCH_DAYS <= MAX_DAY,
        ensures
            final(self).wf(),
            final(self).command_view() == old(self).command_view(),
            final(self).schedule_view() == old(self).schedule_view(),
            final(self).cached() == memo_after(old(self).cached(), old(self).schedule_view(), *now),
            r == outcome(final(self).cached()),
    {
        let refresh = match self.next_run {
            None => true,
            Some(c) => c.is_before(now),
        };
        if refresh {
            let n = self.schedule.calc_next(now);
            self.next_run = match n {
                Ok(t) => Some(t),
                Err(_) => None,
            };
        }
        match self.next_run {
            Some(t) => Ok(t),
            None => Err(ScheduleError::Unsatisfiable),
        }
    }
}

/// Asking twice at the same instant gives the same answer and leaves the
/// cache as the first query left it.
pub proof fn lemma_next_run_idempotent(cache: Option<LocalTime>, s: Schedule, now: LocalTime)
    requires
        s.wf(),
        now.wf(),
        now.day + SEARCH_DAYS <= MAX_DAY,
    ensures
        memo_after(memo_after(cache, s, now), s, now) == memo_after(cache, s, now),
        outcome(memo_after(memo_after(cache, s, now), s, now)) == outcome(memo_after(cache, s, now)),
{
    s.lemma_next_not_before(now);
}

} // verus!
