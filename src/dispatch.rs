use vstd::prelude::*;
use crate::entry::{memo_after, outcome, Entry};
use crate::schedule::{ScheduleError, SEARCH_DAYS};
use crate::time::{earlier, lemma_earlier_order, total_millis, LocalTime, MAX_DAY};

verus! {

/// Below this many milliseconds to the nearest run, the loop arms a batch.
pub const LOOKAHEAD_MS: i64 = 10_000;

/// Sleep between polls when nothing is due soon.
pub const POLL_MS: u64 = 10_000;

/// Sleep after a batch was handed out.
pub const COOLDOWN_MS: u64 = 500;

/// What the loop does after a planning step.
#[derive(Debug, Clone)]
pub struct Plan {
    /// Milliseconds to sleep before the next step.
    pub sleep_ms: u64,
    /// The nearest next run over all entries, if any entry has one.
    pub nearest: Option<LocalTime>,
    /// Positions of the entries whose schedule has no next run.
    pub failed: Vec<usize>,
}

/// The scheduling state of the dispatch loop: the entries (none after a
/// config that did not parse) and the batch armed for dispatch.
pub struct Dispatcher {
    entries: Vec<Entry>,
    degraded: bool,
    pending: Vec<usize>,
}

/// The contents of an optional vector of entries.
pub open spec fn seq_of(entries: Option<Vec<Entry>>) -> Option<Seq<Entry>> {
    match entries {
        Some(v) => Some(v@),
        None => None,
    }
}

/// The next-run answers that entries give.
pub open spec fn results(es: Seq<Entry>) -> Seq<Result<LocalTime, ScheduleError>> {
    es.map_values(|e: Entry| outcome(e.cached()))
}

/// `m` is a next run of some entry and no entry runs earlier.
pub open spec fn is_nearest(rs: Seq<Result<LocalTime, ScheduleError>>, m: LocalTime) -> bool {
    &&& exists|i: int| 0 <= i < rs.len() && rs[i] == Ok::<LocalTime, ScheduleError>(m)
    &&& forall|i: int| 0 <= i < rs.len() && (#[trigger] rs[i]) is Ok ==> !earlier(rs[i]->Ok_0, m)
}

/// `xs` lists, in increasing order, exactly the positions where `mask` holds.
pub open spec fn lists_exactly(xs: Seq<usize>, mask: Seq<bool>) -> bool {
    &&& forall|a: int, b: int| 0 <= a < b < xs.len() ==> xs[a] < xs[b]
    &&& forall|a: int| 0 <= a < xs.len() ==> 0 <= #[trigger] xs[a] < mask.len() && mask[xs[a] as int]
    &&& forall|i: int| 0 <= i < mask.len() && #[trigger] mask[i] ==> xs.contains(i as usize)
}

/// Which answers are errors.
pub open spec fn err_mask(rs: Seq<Result<LocalTime, ScheduleError>>) -> Seq<bool> {
    Seq::new(rs.len(), |i: int| rs[i] is Err)
}

/// Which answers are the run `m`.
pub open spec fn hit_mask(rs: Seq<Result<LocalTime, ScheduleError>>, m: LocalTime) -> Seq<bool> {
    Seq::new(rs.len(), |i: int| rs[i] == Ok::<LocalTime, ScheduleError>(m))
}

/// Extending a mask by one position extends its listing by that position
/// when it holds there.
proof fn lemma_lists_push(xs: Seq<usize>, mask: Seq<bool>, b: bool)
    requires
        lists_exactly(xs, mask),
        mask.len() < usize::MAX,
    ensures
        lists_exactly(if b { xs.push(mask.len() as usize) } else { xs }, mask.push(b)),
{
    let ys = if b { xs.push(mask.len() as usize) } else { xs };
    let m2 = mask.push(b);
    assert forall|i: int| 0 <= i < m2.len() && #[trigger] m2[i] implies ys.contains(i as usize) by {
        if i < mask.len() {
            assert(mask[i]);
            let a = choose|a: int| 0 <= a < xs.len() && xs[a] == i as usize;
            assert(ys[a] == i as usize);
        } else {
            assert(ys[ys.len() - 1] == i as usize);
        }
    }
    assert forall|a: int| 0 <= a < ys.len() implies 0 <= #[trigger] ys[a] < m2.len() && m2[ys[a] as int] by {
        if a < xs.len() {
            assert(ys[a] == xs[a]);
        }
    }
}

impl Dispatcher {
    /// The entries, or `None` in the degraded state.
    pub closed spec fn entries_view(&self) -> Option<Seq<Entry>> {
        if self.degraded {
            None
        } else {
            Some(self.entries@)
        }
    }

    /// Positions of the entries in the armed batch.
    pub closed spec fn pending_view(&self) -> Seq<usize> {
        self.pending@
    }

    /// Commands of the armed batch.
    pub open spec fn pending_commands(&self) -> Seq<Seq<char>> {
        self.pending_view().map_values(|j: usize| self.entries_view()->0[j as int].command_view())
    }

    pub open spec fn wf(&self) -> bool {
        &&& self.entries_view() matches Some(es) ==> forall|i: int|
            0 <= i < es.len() ==> (#[trigger] es[i]).wf()
        &&& self.entries_view() matches Some(es) ==> forall|a: int|
            0 <= a < self.pending_view().len() ==> #[trigger] self.pending_view()[a] < es.len()
        &&& self.entries_view() is None ==> self.pending_view().len() == 0
    }

    pub fn new(entries: Option<Vec<Entry>>) -> (r: Dispatcher)
        requires
            entries matches Some(v) ==> forall|i: int| 0 <= i < v@.len() ==> (#[trigger] v@[i]).wf(),
        ensures
            r.wf(),
            r.entries_view() == seq_of(entries),
            r.pending_view().len() == 0,
    {
        let mut d = Dispatcher { entries: Vec::new(), degraded: true, pending: Vec::new() };
        d.reload(entries);
        d
    }

    /// Is the dispatcher without entries because the config did not parse?
    pub fn is_degraded(&self) -> (r: bool)
        ensures
            r == self.entries_view() is None,
    {
        self.degraded
    }

    /// Replaces the entries with a freshly parsed set (`None`: the config did
    /// not parse) and discards any armed batch.
    pub fn reload(&mut self, entries: Option<Vec<Entry>>)
        requires
            entries matches Some(v) ==> forall|i: int| 0 <= i < v@.len() ==> (#[trigger] v@[i]).wf(),
        ensures
            final(self).wf(),
            final(self).entries_view() == seq_of(entries),
            final(self).pending_view().len() == 0,
            final(self).pending_commands() == Seq::<Seq<char>>::empty(),
    {
        match entries {
            Some(v) => {
                self.entries = v;
                self.degraded = false;
            },
            None => {
                self.entries = Vec::new();
                self.degraded = true;
            },
        }
        self.pending = Vec::new();
        assert(self.pending_commands() =~= Seq::<Seq<char>>::empty());
    }

    /// Hands out the commands of the armed batch and disarms it.
    pub fn take_batch(&mut self) -> (r: Vec<String>)
        requires
            old(self).wf(),
        ensures
            final(self).wf(),
            final(self).entries_view() == old(self).entries_view(),
            final(self).pending_view().len() == 0,
            r@.map_values(|c: String| c@) == old(self).pending_commands(),
    {
        let mut out: Vec<String> = Vec::new();
        let mut a: usize = 0;
        while a < self.pending.len()
            invariant
                self.wf(),
                0 <= a <= self.pending@.len(),
                self.pending@.len() > 0 ==> !self.degraded,
                out@.map_values(|c: String| c@) == self.pending_commands().take(a as int),
            decreases self.pending@.len() - a,
        {
            let j = self.pending[a];
            let c = self.entries[j].command().to_owned();
            assert(self.entries_view()->0 == self.entries@);
            assert(c@ == self.pending_commands()[a as int]);
            let ghost before = out@;
            out.push(c);
            assert(out@.map_values(|c: String| c@) =~= before.map_values(|c: String| c@).push(c@));
            a = a + 1;
            assert(out@.map_values(|c: String| c@) =~= self.pending_commands().take(a as int));
        }
        assert(self.pending_commands().take(a as int) =~= self.pending_commands());
        self.pending = Vec::new();
        out
    }

    /// One planning step at `now`: asks every entry for its next run, finds
    /// the nearest, and when it is less than `LOOKAHEAD_MS` away arms the
    /// batch of all entries due exactly then and sleeps until it; otherwise
    /// sleeps `POLL_MS`.
    #[verifier::rlimit(60)]
    pub fn plan(&mut self, now: &LocalTime) -> (r: Plan)
        requires
            old(self).wf(),
            now.wf(),
            now.day + SEARCH_DAYS <= MAX_DAY,
        ensures
            final(self).wf(),
            old(self).entries_view() is None ==> final(self).entries_view() is None
                && r.nearest is None && r.sleep_ms == POLL_MS && r.failed@.len() == 0
                && final(self).pending_view().len() == 0,
            old(self).entries_view() matches Some(es) ==> ({
                let fs = final(self).entries_view()->0;
                let rs = results(fs);
                &&& final(self).entries_view() is Some
                &&& fs.len() == es.len()
                &&& forall|i: int| 0 <= i < es.len() ==> (#[trigger] fs[i]).command_view()
                    == es[i].command_view() && fs[i].schedule_view() == es[i].schedule_view()
                    && fs[i].cached() == memo_after(es[i].cached(), es[i].schedule_view(), *now)
                &&& lists_exactly(r.failed@, err_mask(rs))
                &&& match r.nearest {
                    None => (forall|i: int| 0 <= i < rs.len() ==> (#[trigger] rs[i]) is Err)
                        && r.sleep_ms == POLL_MS && final(self).pending_view().len() == 0,
                    Some(m) => is_nearest(rs, m) && ({
                        let d = total_millis(m) - total_millis(*now);
                        if d < LOOKAHEAD_MS {
                            r.sleep_ms == (if d < 0 { 0 } else { d }) && lists_exactly(
                                final(self).pending_view(),
                                hit_mask(rs, m),
                            )
                        } else {
                            r.sleep_ms == POLL_MS && final(self).pending_view().len() == 0
                        }
                    }),
                }
            }),
    {
        self.pending = Vec::new();
        if self.degraded {
            return Plan { sleep_ms: POLL_MS, nearest: None, failed: Vec::new() };
        }
        let ghost es = self.entries@;
        let mut rs: Vec<Result<LocalTime, ScheduleError>> = Vec::new();
        let mut failed: Vec<usize> = Vec::new();
        let mut nearest: Option<LocalTime> = None;
        let mut i: usize = 0;
        while i < self.entries.len()
            invariant
                !self.degraded,
                self.pending@.len() == 0,
                now.wf(),
                now.day + SEARCH_DAYS <= MAX_DAY,
                self.entries@.len() == es.len(),
                0 <= i <= es.len(),
                rs@.len() == i,
                forall|j: int| 0 <= j < es.len() ==> (#[trigger] es[j]).wf(),
                forall|j: int| 0 <= j < es.len() ==> (#[trigger] self.entries@[j]).wf(),
                forall|j: int| i <= j < es.len() ==> #[trigger] self.entries@[j] == es[j],
                forall|j: int| 0 <= j < i ==> (#[trigger] self.entries@[j]).command_view()
                    == es[j].command_view() && self.entries@[j].schedule_view()
                    == es[j].schedule_view() && self.entries@[j].cached() == memo_after(
                    es[j].cached(),
                    es[j].schedule_view(),
                    *now,
                ),
                forall|j: int| 0 <= j < i ==> #[trigger] rs@[j] == outcome(self.entries@[j].cached()),
                lists_exactly(failed@, err_mask(rs@)),
                nearest is None ==> forall|j: int| 0 <= j < i ==> (#[trigger] rs@[j]) is Err,
                nearest matches Some(m) ==> is_nearest(rs@, m) && m.wf(),
                forall|j: int| 0 <= j < i ==> ((#[trigger] rs@[j]) matches Ok(t) ==> t.wf()),
            decreases es.len() - i,
        {
            let res = self.entries[i].next_run(now);
            let ghost before = rs@;
            proof {
                lemma_lists_push(failed@, err_mask(rs@), res is Err);
            }
            rs.push(res);
            assert(err_mask(rs@) =~= err_mask(before).push(res is Err));
            match res {
                Ok(t) => {
                    let closer = match nearest {
                        None => true,
                        Some(m) => t.is_before(&m),
                    };
                    proof {
                        if nearest is Some {
                            let m = nearest->0;
                            assert forall|j: int| 0 <= j < rs@.len() && (#[trigger] rs@[j]) is Ok
                                implies !earlier(rs@[j]->Ok_0, if closer { t } else { m }) by {
                                lemma_earlier_order(rs@[j]->Ok_0, t, m);
                                if j < i {
                                    assert(before[j] == rs@[j]);
                                }
                            }
                            assert(rs@[i as int] == Ok::<LocalTime, ScheduleError>(t));
                            if !closer {
                                let w = choose|w: int| 0 <= w < before.len() && before[w] == Ok::<LocalTime, ScheduleError>(m);
                                assert(rs@[w] == before[w]);
                            }
                        } else {
                            lemma_earlier_order(t, t, t);
                            assert(rs@[i as int] == Ok::<LocalTime, ScheduleError>(t));
                        }
                    }
                    if closer {
                        nearest = Some(t);
                    }
                    assert(t.wf());
                },
                Err(_) => {
                    proof {
                        if nearest is Some {
                            let m = nearest->0;
                            let w = choose|w: int| 0 <= w < before.len() && before[w] == Ok::<LocalTime, ScheduleError>(m);
                            assert(rs@[w] == before[w]);
                            assert forall|j: int| 0 <= j < rs@.len() && (#[trigger] rs@[j]) is Ok
                                implies !earlier(rs@[j]->Ok_0, m) by {
                                assert(before[j] == rs@[j]);
                            }
                        }
                    }
                    failed.push(i);
                },
            }
            i = i + 1;
        }
        assert(rs@ =~= results(self.entries@));
        let sleep_ms: u64 = match nearest {
            None => POLL_MS,
            Some(m) => {
                let d = now.millis_until(&m);
                if d < LOOKAHEAD_MS {
                    let mut pending: Vec<usize> = Vec::new();
                    let mut j: usize = 0;
                    while j < rs.len()
                        invariant
                            0 <= j <= rs@.len(),
                            lists_exactly(pending@, hit_mask(rs@.take(j as int), m)),
                        decreases rs@.len() - j,
                    {
                        let hit = match rs[j] {
                            Ok(t) => t == m,
                            Err(_) => false,
                        };
                        proof {
                            lemma_lists_push(pending@, hit_mask(rs@.take(j as int), m), hit);
                        }
                        if hit {
                            pending.push(j);
                        }
                        assert(hit_mask(rs@.take(j + 1), m) =~= hit_mask(rs@.take(j as int), m).push(hit));
                        j = j + 1;
                    }
                    assert(rs@.take(j as int) =~= rs@);
                    self.pending = pending;
                    if d < 0 {
                        0
                    } else {
                        d as u64
                    }
                } else {
                    POLL_MS
                }
            },
        };
        assert forall|a: int| 0 <= a < self.pending@.len() implies #[trigger] self.pending@[a]
            < self.entries@.len() by {
            assert(rs@.len() == self.entries@.len());
        }
        Plan { sleep_ms, nearest, failed }
    }
}

/// Two entries with the same schedule and the same remembered run are
/// planned alike: whatever the nearest run `m`, the armed batch holds both
/// or neither.
pub proof fn lemma_equal_entries_batched_together(
    es: Seq<Entry>,
    fs: Seq<Entry>,
    now: LocalTime,
    m: LocalTime,
    i: int,
    j: int,
)
    requires
        fs.len() == es.len(),
        0 <= i < es.len(),
        0 <= j < es.len(),
        es[i].schedule_view() == es[j].schedule_view(),
        es[i].cached() == es[j].cached(),
        forall|k: int| 0 <= k < es.len() ==> (#[trigger] fs[k]).cached() == memo_after(
            es[k].cached(),
            es[k].schedule_view(),
            now,
        ),
    ensures
        hit_mask(results(fs), m)[i] == hit_mask(results(fs), m)[j],
{
    assert(fs[i].cached() == fs[j].cached());
}

} // verus!
