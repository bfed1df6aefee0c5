//! The per-date schedule store and the run gate.
//!
//! The store keeps at most one schedule per calendar day. The first
//! invocation of a day creates and persists that day's schedule; every later
//! invocation of the same day reads the stored record back unchanged. The
//! gate asks the day's schedule whether the current minute lies within
//! tolerance of some slot.

use vstd::prelude::*;
use crate::schedule::{
    generate_schedule, sched_eq, sched_model, schedule_wf, should_run_at, spec_interval,
    spec_should_run, spec_slots, spec_total_runs, DailySchedule, MINUTES_PER_DAY,
};

verus! {

/// An in-memory store of daily schedules, keyed by their date.
pub struct ScheduleStore {
    pub schedules: Vec<DailySchedule>,
}

/// The schedule stored for `date`: the first matching record, if any.
pub open spec fn store_lookup(entries: Seq<DailySchedule>, date: int) -> Option<DailySchedule>
    decreases entries.len(),
{
    if entries.len() == 0 {
        None
    } else if entries[0].date == date {
        Some(entries[0])
    } else {
        store_lookup(entries.drop_first(), date)
    }
}

/// The store's invariant: one record per date, each well-formed.
pub open spec fn store_wf(entries: Seq<DailySchedule>) -> bool {
    &&& forall|i: int, j: int|
        0 <= i < j < entries.len() ==> entries[i].date != entries[j].date
    &&& forall|i: int| 0 <= i < entries.len() ==> schedule_wf(#[trigger] entries[i])
}

/// The content of the schedule a fresh generation for `date` would have.
pub open spec fn generated_model(date: int, seed: u64) -> (int, Seq<u16>, int, int) {
    (date, spec_slots(seed), spec_total_runs(seed), spec_interval(seed))
}

/// The content a load of `date` yields: the stored record when one exists,
/// else a fresh generation from `seed`.
pub open spec fn spec_load_model(entries: Seq<DailySchedule>, date: int, seed: u64) -> (
    int,
    Seq<u16>,
    int,
    int,
) {
    match store_lookup(entries, date) {
        Some(s) => sched_model(s),
        None => generated_model(date, seed),
    }
}

/// A record absent from the store has no entry carrying its date.
proof fn lemma_lookup_none_absent(entries: Seq<DailySchedule>, date: int)
    requires
        store_lookup(entries, date) is None,
    ensures
        forall|i: int| 0 <= i < entries.len() ==> (#[trigger] entries[i]).date != date,
    decreases entries.len(),
{
    if entries.len() > 0 {
        lemma_lookup_none_absent(entries.drop_first(), date);
        assert forall|i: int| 0 <= i < entries.len() implies (#[trigger] entries[i]).date
            != date by {
            if i > 0 {
                assert(entries.drop_first()[i - 1] == entries[i]);
            }
        }
    }
}

/// Appending a record only fills the one date that was absent.
proof fn lemma_lookup_push(entries: Seq<DailySchedule>, s: DailySchedule, d: int)
    ensures
        store_lookup(entries.push(s), d) == (match store_lookup(entries, d) {
            Some(x) => Some(x),
            None => if s.date == d {
                Some(s)
            } else {
                None
            },
        }),
    decreases entries.len(),
{
    if entries.len() == 0 {
        assert(entries.push(s)[0] == s);
        assert(entries.push(s).drop_first() =~= Seq::<DailySchedule>::empty());
    } else {
        assert(entries.push(s)[0] == entries[0]);
        assert(entries.push(s).drop_first() =~= entries.drop_first().push(s));
        lemma_lookup_push(entries.drop_first(), s, d);
    }
}

impl ScheduleStore {
    /// An empty store.
    pub fn new() -> (r: ScheduleStore)
        ensures
            r.schedules@.len() == 0,
            store_wf(r.schedules@),
    {
        ScheduleStore { schedules: Vec::new() }
    }

    /// The stored schedule for `date`, if this date has one.
    pub fn find_schedule(&self, date: i64) -> (r: Option<&DailySchedule>)
        ensures
            match r {
                Some(s) => store_lookup(self.schedules@, date as int) == Some(*s),
                None => store_lookup(self.schedules@, date as int) is None,
            },
    {
        let n = self.schedules.len();
        let mut i: usize = 0;
        assert(self.schedules@.skip(0) =~= self.schedules@);
        while i < n
            invariant
                0 <= i <= n,
                n == self.schedules@.len(),
                store_lookup(self.schedules@, date as int) == store_lookup(
                    self.schedules@.skip(i as int),
                    date as int,
                ),
            decreases n - i,
        {
            if self.schedules[i].date == date {
                assert(self.schedules@.skip(i as int)[0] == self.schedules@[i as int]);
                return Some(&self.schedules[i]);
            }
            assert(self.schedules@.skip(i as int).drop_first() =~= self.schedules@.skip(i + 1));
            i += 1;
        }
        assert(self.schedules@.skip(n as int) =~= Seq::<DailySchedule>::empty());
        None
    }

    /// The schedule governing `date`: the stored one when present — it is
    /// authoritative and is not regenerated — else a fresh one generated from
    /// `seed`, stored for every later invocation of the same date.
    pub fn load_or_create(&mut self, date: i64, seed: u64) -> (r: DailySchedule)
        requires
            store_wf(old(self).schedules@),
        ensures
            store_wf(final(self).schedules@),
            schedule_wf(r),
            r.date == date,
            sched_model(r) == spec_load_model(old(self).schedules@, date as int, seed),
            store_lookup(final(self).schedules@, date as int) is Some,
            sched_eq(store_lookup(final(self).schedules@, date as int)->Some_0, r),
            forall|d: int|
                d != date ==> #[trigger] store_lookup(final(self).schedules@, d) == store_lookup(
                    old(self).schedules@,
                    d,
                ),
            store_lookup(old(self).schedules@, date as int) is Some ==> final(self).schedules@
                == old(self).schedules@,
    {
        let n = self.schedules.len();
        let mut i: usize = 0;
        assert(self.schedules@.skip(0) =~= self.schedules@);
        while i < n
            invariant
                0 <= i <= n,
                n == self.schedules@.len(),
                store_wf(self.schedules@),
                store_lookup(self.schedules@, date as int) == store_lookup(
                    self.schedules@.skip(i as int),
                    date as int,
                ),
            decreases n - i,
        {
            if self.schedules[i].date == date {
                assert(self.schedules@.skip(i as int)[0] == self.schedules@[i as int]);
                let s = &self.schedules[i];
                let r = s.duplicate();
                return r;
            }
            assert(self.schedules@.skip(i as int).drop_first() =~= self.schedules@.skip(i + 1));
            i += 1;
        }
        assert(self.schedules@.skip(n as int) =~= Seq::<DailySchedule>::empty());
        let g = generate_schedule(date, seed);
        let r = g.duplicate();
        proof {
            lemma_lookup_none_absent(self.schedules@, date as int);
        }
        let ghost before = self.schedules@;
        self.schedules.push(g);
        proof {
            assert forall|d: int| true implies #[trigger] store_lookup(self.schedules@, d)
                == (match store_lookup(before, d) {
                Some(x) => Some(x),
                None => if date as int == d {
                    Some(self.schedules@.last())
                } else {
                    None
                },
            }) by {
                lemma_lookup_push(before, self.schedules@.last(), d);
            }
            assert(store_wf(self.schedules@)) by {
                assert forall|i: int, j: int|
                    0 <= i < j < self.schedules@.len() implies self.schedules@[i].date
                    != self.schedules@[j].date by {
                    if j < self.schedules@.len() - 1 {
                        assert(before[i] == self.schedules@[i]);
                        assert(before[j] == self.schedules@[j]);
                    } else {
                        assert(before[i] == self.schedules@[i]);
                    }
                }
                assert forall|i: int| 0 <= i < self.schedules@.len() implies schedule_wf(
                    #[trigger] self.schedules@[i],
                ) by {
                    if i < self.schedules@.len() - 1 {
                        assert(before[i] == self.schedules@[i]);
                    }
                }
            }
        }
        r
    }

    /// Whether the job should run now: load (or create) today's schedule and
    /// test whether some slot lies within the tolerance window of
    /// `minutes_now`, the minutes elapsed since today's midnight.
    pub fn should_run_now(&mut self, today: i64, minutes_now: u16, seed: u64) -> (r: bool)
        requires
            store_wf(old(self).schedules@),
            minutes_now < MINUTES_PER_DAY,
        ensures
            store_wf(final(self).schedules@),
            r == spec_should_run(
                spec_load_model(old(self).schedules@, today as int, seed).1,
                minutes_now as int,
            ),
            store_lookup(final(self).schedules@, today as int) is Some,
            forall|d: int|
                d != today ==> #[trigger] store_lookup(final(self).schedules@, d) == store_lookup(
                    old(self).schedules@,
                    d,
                ),
    {
        let sched = self.load_or_create(today, seed);
        should_run_at(&sched, minutes_now)
    }
}

/// The ways reading a stored record can fail.
#[derive(PartialEq, Eq, Structural, Debug)]
pub enum GateError {
    MalformedRecord,
    WrongDate,
}

/// Decide from a stored record whether some slot of its schedule lies
/// within tolerance of `minutes_now`. A record that does not parse, or whose
/// date is not `today`, is an error: the caller learns of the bad file and
/// gets no substitute schedule.
pub fn should_run_from_record(bytes: &Vec<u8>, today: i64, minutes_now: u16) -> (r: Result<
    bool,
    GateError,
>)
    ensures
        crate::codec::spec_parse(bytes@) is None ==> r == Err::<bool, GateError>(
            GateError::MalformedRecord,
        ),
        (crate::codec::spec_parse(bytes@) matches Some(m) && m.0 != today) ==> r == Err::<
            bool,
            GateError,
        >(GateError::WrongDate),
        (crate::codec::spec_parse(bytes@) matches Some(m) && m.0 == today) ==> r == Ok::<
            bool,
            GateError,
        >(spec_should_run(crate::codec::spec_parse(bytes@)->Some_0.1, minutes_now as int)),
{
    let sched = match crate::codec::parse_schedule(bytes) {
        Ok(s) => s,
        Err(_) => {
            return Err(GateError::MalformedRecord);
        },
    };
    if sched.date != today {
        return Err(GateError::WrongDate);
    }
    Ok(should_run_at(&sched, minutes_now))
}

/// A date's schedule is fixed by its first load: with the record in the
/// store, every later load of that date returns it, no matter the seed.
pub proof fn lemma_gate_idempotent(
    entries0: Seq<DailySchedule>,
    entries1: Seq<DailySchedule>,
    s1: DailySchedule,
    date: int,
    seed1: u64,
    seed2: u64,
)
    requires
        store_lookup(entries1, date) == Some(s1),
        sched_model(s1) == spec_load_model(entries0, date, seed1),
    ensures
        spec_load_model(entries1, date, seed2) == spec_load_model(entries0, date, seed1),
{
}

} // verus!
