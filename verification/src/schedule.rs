//! Daily run schedules.
//!
//! A schedule is created once per calendar day from a random seed: a number of
//! runs is drawn from `[1, MAX_RUNS_PER_DAY]`, the day is divided into equal
//! intervals, and each run is placed at the start of its interval with an
//! independent jitter of up to `MAX_JITTER_MINUTES` either way, clamped into
//! the day. Slots that collide after jitter and clamping collapse into one,
//! so the slot list may be shorter than the drawn run count but never longer.
//!
//! The whole derivation is deterministic in the seed, so a schedule's contract
//! pins its slots exactly: they are the minutes of the day that some raw draw
//! hit, in ascending order without duplicates.

use vstd::prelude::*;

verus! {

pub const MINUTES_PER_DAY: u16 = 1440;

pub const TOLERANCE_MINUTES: u16 = 10;

pub const MAX_RUNS_PER_DAY: u16 = 30;

pub const MAX_JITTER_MINUTES: u16 = 15;

/// The multiplier of the linear congruential generator that expands a seed.
pub const LCG_MUL: u64 = 6364136223846793005;

/// The increment of the linear congruential generator that expands a seed.
pub const LCG_INC: u64 = 1442695040888963407;

/// The schedule of eligible run times for one calendar day. `date` is a plain
/// day number; `run_slots` holds minutes since midnight, ascending and
/// duplicate-free; `total_runs` is the number of runs originally drawn;
/// `interval_minutes` is the mean spacing `MINUTES_PER_DAY / total_runs`.
#[derive(Debug, PartialEq, Eq)]
pub struct DailySchedule {
    pub date: i64,
    pub run_slots: Vec<u16>,
    pub total_runs: u16,
    pub interval_minutes: u16,
}

/// The invariant every schedule carries: a plausible run count, the matching
/// interval, and a non-empty, sorted, duplicate-free slot list inside the day,
/// no longer than the drawn run count.
pub open spec fn schedule_wf(s: DailySchedule) -> bool {
    &&& 1 <= s.total_runs <= MAX_RUNS_PER_DAY
    &&& s.interval_minutes == MINUTES_PER_DAY as int / s.total_runs as int
    &&& 1 <= s.run_slots@.len() <= s.total_runs
    &&& forall|i: int|
        0 <= i < s.run_slots@.len() ==> #[trigger] s.run_slots@[i] < MINUTES_PER_DAY
    &&& forall|i: int, j: int|
        0 <= i < j < s.run_slots@.len() ==> s.run_slots@[i] < s.run_slots@[j]
}

/// Two schedules agree field for field.
pub open spec fn sched_eq(a: DailySchedule, b: DailySchedule) -> bool {
    &&& a.date == b.date
    &&& a.run_slots@ == b.run_slots@
    &&& a.total_runs == b.total_runs
    &&& a.interval_minutes == b.interval_minutes
}

/// The observable content of a schedule: date, slots, run count, interval.
pub open spec fn sched_model(s: DailySchedule) -> (int, Seq<u16>, int, int) {
    (s.date as int, s.run_slots@, s.total_runs as int, s.interval_minutes as int)
}

/// One step of the linear congruential generator.
#[verifier::opaque]
pub open spec fn lcg_next(s: u64) -> u64 {
    vstd::wrapping::u64_specs::wrapping_add(
        vstd::wrapping::u64_specs::wrapping_mul(s, LCG_MUL),
        LCG_INC,
    )
}

/// The generator's state after `n` steps from `seed`.
pub open spec fn lcg_state(seed: u64, n: nat) -> u64
    decreases n,
{
    if n == 0 {
        seed
    } else {
        lcg_next(lcg_state(seed, (n - 1) as nat))
    }
}

/// How many runs the seed draws: uniform over `[1, MAX_RUNS_PER_DAY]`.
pub open spec fn spec_total_runs(seed: u64) -> int {
    1 + lcg_state(seed, 1) as int % (MAX_RUNS_PER_DAY as int)
}

/// The mean spacing between runs for this seed.
pub open spec fn spec_interval(seed: u64) -> int {
    MINUTES_PER_DAY as int / spec_total_runs(seed)
}

/// The jitter drawn for run `i`: a minute offset in `[-15, 15]`.
pub open spec fn spec_jitter(seed: u64, i: int) -> int {
    lcg_state(seed, (i + 2) as nat) as int % (2 * MAX_JITTER_MINUTES as int + 1)
        - MAX_JITTER_MINUTES as int
}

/// A raw value forced back into the day.
pub open spec fn clamp_slot(x: int) -> int {
    if x < 0 {
        0
    } else if x > MINUTES_PER_DAY - 1 {
        MINUTES_PER_DAY - 1
    } else {
        x
    }
}

/// Where run `i` lands: the start of its interval, jittered, clamped.
pub open spec fn spec_raw_slot(seed: u64, i: int) -> u16 {
    clamp_slot(i * spec_interval(seed) + spec_jitter(seed, i)) as u16
}

/// The raw slots of all drawn runs, in drawing order, collisions included.
pub open spec fn raw_slots(seed: u64) -> Seq<u16> {
    Seq::new(spec_total_runs(seed) as nat, |i: int| spec_raw_slot(seed, i))
}

/// Every minute of the day, in order.
pub open spec fn minute_seq() -> Seq<u16> {
    Seq::new(MINUTES_PER_DAY as nat, |m: int| m as u16)
}

/// Whether a minute occurs in a raw slot list.
pub open spec fn hit_pred(raw: Seq<u16>) -> spec_fn(u16) -> bool {
    |s: u16| raw.contains(s)
}

/// The slot list a seed determines: the minutes some raw slot hit, ascending.
pub open spec fn spec_slots(seed: u64) -> Seq<u16> {
    minute_seq().filter(hit_pred(raw_slots(seed)))
}

/// One step of the linear congruential generator.
fn lcg_step(s: u64) -> (r: u64)
    ensures
        r == lcg_next(s),
{
    let r = s.wrapping_mul(LCG_MUL).wrapping_add(LCG_INC);
    proof {
        reveal(lcg_next);
    }
    r
}

/// Whether `x` occurs in `v`.
fn vec_contains(v: &Vec<u16>, x: u16) -> (r: bool)
    ensures
        r == v@.contains(x),
{
    let n = v.len();
    let mut i: usize = 0;
    while i < n
        invariant
            0 <= i <= n,
            n == v@.len(),
            forall|j: int| 0 <= j < i ==> v@[j] != x,
        decreases n - i,
    {
        if v[i] == x {
            return true;
        }
        i += 1;
    }
    false
}

/// Draw the run count, the interval, and the raw (unsorted, possibly
/// colliding) slot list that `seed` determines.
#[verifier::rlimit(100)]
fn draw_raw_slots(seed: u64) -> (r: (Vec<u16>, u16, u16))
    ensures
        r.0@ == raw_slots(seed),
        r.1 as int == spec_total_runs(seed),
        r.2 as int == spec_interval(seed),
        1 <= r.1 <= MAX_RUNS_PER_DAY,
        forall|j: int| 0 <= j < r.0@.len() ==> #[trigger] r.0@[j] < MINUTES_PER_DAY,
{
    let mut state: u64 = lcg_step(seed);
    let total_runs: u16 = 1 + (state % (MAX_RUNS_PER_DAY as u64)) as u16;
    let interval: u16 = MINUTES_PER_DAY / total_runs;
    assert(lcg_state(seed, 0) == seed);
    assert(state == lcg_state(seed, 1));
    assert(total_runs as int == spec_total_runs(seed));

    let mut raw: Vec<u16> = Vec::new();
    let mut i: u16 = 0;
    while i < total_runs
        invariant
            1 <= total_runs <= MAX_RUNS_PER_DAY,
            total_runs as int == spec_total_runs(seed),
            interval as int == spec_interval(seed),
            interval <= MINUTES_PER_DAY,
            0 <= i <= total_runs,
            state == lcg_state(seed, (i + 1) as nat),
            raw@.len() == i as int,
            forall|j: int| 0 <= j < i ==> #[trigger] raw@[j] == spec_raw_slot(seed, j),
            forall|j: int| 0 <= j < i ==> #[trigger] raw@[j] < MINUTES_PER_DAY,
        decreases total_runs - i,
    {
        state = lcg_step(state);
        assert(lcg_state(seed, (i + 2) as nat) == lcg_next(lcg_state(seed, (i + 1) as nat)));
        assert(state == lcg_state(seed, (i + 2) as nat));
        let jitter: i32 = (state % (2 * MAX_JITTER_MINUTES as u64 + 1)) as i32
            - MAX_JITTER_MINUTES as i32;
        assert(i as int * interval as int <= 30 * 1440) by (nonlinear_arith)
            requires
                0 <= i as int <= 30,
                0 <= interval as int <= 1440,
        ;
        let base: i32 = i as i32 * interval as i32;
        let slot_raw: i32 = base + jitter;
        let slot: u16 = if slot_raw < 0 {
            0
        } else if slot_raw > MINUTES_PER_DAY as i32 - 1 {
            MINUTES_PER_DAY - 1
        } else {
            slot_raw as u16
        };
        assert(slot == spec_raw_slot(seed, i as int));
        raw.push(slot);
        i += 1;
    }
    assert(raw@ =~= raw_slots(seed));
    (raw, total_runs, interval)
}

/// Walk the minutes of the day in order and keep those that occur in `raw`:
/// the sorted, deduplicated slot list.
fn filter_minutes(raw: &Vec<u16>) -> (slots: Vec<u16>)
    requires
        raw@.len() >= 1,
        forall|j: int| 0 <= j < raw@.len() ==> #[trigger] raw@[j] < MINUTES_PER_DAY,
    ensures
        slots@ == minute_seq().filter(hit_pred(raw@)),
        1 <= slots@.len() <= raw@.len(),
        forall|j: int| 0 <= j < slots@.len() ==> #[trigger] slots@[j] < MINUTES_PER_DAY,
        forall|j: int, k: int| 0 <= j < k < slots@.len() ==> slots@[j] < slots@[k],
{
    let mut slots: Vec<u16> = Vec::new();
    let mut m: u16 = 0;
    proof {
        reveal(Seq::filter);
        assert(minute_seq().take(0) =~= Seq::<u16>::empty());
    }
    while m < MINUTES_PER_DAY
        invariant
            0 <= m <= MINUTES_PER_DAY,
            raw@.len() >= 1,
            forall|j: int| 0 <= j < raw@.len() ==> #[trigger] raw@[j] < MINUTES_PER_DAY,
            slots@ == minute_seq().take(m as int).filter(hit_pred(raw@)),
            forall|j: int| 0 <= j < slots@.len() ==> #[trigger] slots@[j] < m,
            forall|j: int, k: int| 0 <= j < k < slots@.len() ==> slots@[j] < slots@[k],
            forall|j: int| 0 <= j < slots@.len() ==> raw@.contains(#[trigger] slots@[j]),
        decreases MINUTES_PER_DAY - m,
    {
        let hit = vec_contains(raw, m);
        proof {
            reveal(Seq::filter);
            let prefix = minute_seq().take(m as int);
            let longer = minute_seq().take(m as int + 1);
            assert(longer =~= prefix.push(m));
            assert(prefix.push(m).drop_last() =~= prefix);
            assert(prefix.push(m).last() == m);
            assert(hit_pred(raw@)(m) == hit);
            if hit {
                assert(longer.filter(hit_pred(raw@)) == slots@.push(m));
            } else {
                assert(longer.filter(hit_pred(raw@)) == slots@);
            }
        }
        if hit {
            slots.push(m);
        }
        m += 1;
    }
    proof {
        assert(minute_seq().take(MINUTES_PER_DAY as int) =~= minute_seq());

        // At least one minute is kept: the first raw value occurs in `raw`.
        let s0 = raw@[0];
        assert(raw@.contains(s0));
        assert(minute_seq()[s0 as int] == s0);
        minute_seq().lemma_filter_contains(hit_pred(raw@), s0 as int);
        assert(slots@.contains(s0));

        // No more slots than raw values: the slots are distinct values of `raw`.
        assert(slots@.no_duplicates()) by {
            assert forall|j: int, k: int|
                0 <= j < slots@.len() && 0 <= k < slots@.len() && j != k implies slots@[j]
                != slots@[k] by {
                if j < k {
                    assert(slots@[j] < slots@[k]);
                } else {
                    assert(slots@[k] < slots@[j]);
                }
            }
        }
        slots@.unique_seq_to_set();
        raw@.lemma_cardinality_of_set();
        assert(slots@.to_set() <= raw@.to_set()) by {
            assert forall|x: u16| slots@.to_set().contains(x) implies raw@.to_set().contains(
                x,
            ) by {
                assert(slots@.contains(x));
                let j = choose|j: int| 0 <= j < slots@.len() && slots@[j] == x;
                assert(raw@.contains(slots@[j]));
            }
        }
        vstd::set_lib::lemma_len_subset(slots@.to_set(), raw@.to_set());
    }
    slots
}

/// Create the schedule that `seed` determines for `date`: `total_runs` drawn
/// from `[1, MAX_RUNS_PER_DAY]`, one raw slot per run, and the sorted,
/// deduplicated slot list. Deduplication may shrink the list but at least one
/// slot always remains.
pub fn generate_schedule(date: i64, seed: u64) -> (r: DailySchedule)
    ensures
        schedule_wf(r),
        r.date == date,
        r.total_runs as int == spec_total_runs(seed),
        r.interval_minutes as int == spec_interval(seed),
        r.run_slots@ == spec_slots(seed),
{
    let (raw, total_runs, interval) = draw_raw_slots(seed);
    let slots = filter_minutes(&raw);
    assert(raw@.len() == spec_total_runs(seed));
    DailySchedule { date, run_slots: slots, total_runs, interval_minutes: interval }
}

/// Whether `slot` lies within the tolerance window around `offset`.
pub open spec fn within_tolerance(slot: int, offset: int) -> bool {
    -(TOLERANCE_MINUTES as int) <= slot - offset <= TOLERANCE_MINUTES as int
}

/// Whether some slot of the list lies within tolerance of `offset`.
pub open spec fn spec_should_run(slots: Seq<u16>, offset: int) -> bool {
    exists|i: int| 0 <= i < slots.len() && #[trigger] within_tolerance(slots[i] as int, offset)
}

/// Whether the schedule makes the job eligible at `offset` minutes since
/// midnight: true exactly when some slot is within `TOLERANCE_MINUTES`
/// (inclusive) of `offset`.
pub fn should_run_at(s: &DailySchedule, offset: u16) -> (r: bool)
    ensures
        r == spec_should_run(s.run_slots@, offset as int),
{
    let n = s.run_slots.len();
    let mut i: usize = 0;
    while i < n
        invariant
            0 <= i <= n,
            n == s.run_slots@.len(),
            forall|j: int|
                0 <= j < i ==> !#[trigger] within_tolerance(
                    s.run_slots@[j] as int,
                    offset as int,
                ),
        decreases n - i,
    {
        let slot = s.run_slots[i];
        let near = if slot >= offset {
            slot - offset <= TOLERANCE_MINUTES
        } else {
            offset - slot <= TOLERANCE_MINUTES
        };
        if near {
            assert(within_tolerance(s.run_slots@[i as int] as int, offset as int));
            return true;
        }
        assert(!within_tolerance(s.run_slots@[i as int] as int, offset as int));
        i += 1;
    }
    false
}

impl DailySchedule {
    /// A field-for-field copy.
    pub fn duplicate(&self) -> (r: DailySchedule)
        ensures
            r.date == self.date,
            r.run_slots@ == self.run_slots@,
            r.total_runs == self.total_runs,
            r.interval_minutes == self.interval_minutes,
    {
        let mut slots: Vec<u16> = Vec::new();
        let n = self.run_slots.len();
        let mut i: usize = 0;
        while i < n
            invariant
                0 <= i <= n,
                n == self.run_slots@.len(),
                slots@ =~= self.run_slots@.take(i as int),
            decreases n - i,
        {
            slots.push(self.run_slots[i]);
            i += 1;
        }
        assert(slots@ =~= self.run_slots@);
        DailySchedule {
            date: self.date,
            run_slots: slots,
            total_runs: self.total_runs,
            interval_minutes: self.interval_minutes,
        }
    }
}

} // verus!
