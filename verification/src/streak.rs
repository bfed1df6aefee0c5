//! Contribution streak calculation.
//!
//! Given a calendar of `(date, count)` pairs and a reference day `today`, the
//! streak is the length of the run of consecutive active days (`count > 0`)
//! ending at `today`, or — when `today` itself is inactive — the run ending at
//! the day before (the grace-day rule: today's activity may simply not have
//! been recorded yet). Dates are plain day numbers, so the previous calendar
//! day is the date minus one.
//!
//! A date that appears more than once is read at its first occurrence; a date
//! that is absent counts as a zero-activity day.

use vstd::prelude::*;

verus! {

/// One day of contribution data: a day number and how much activity it saw.
#[derive(Debug, PartialEq, Eq, Clone, Copy, Structural)]
pub struct ContributionDay {
    pub date: i64,
    pub count: i64,
}

/// The count recorded for `date`: the first matching entry, if any.
pub open spec fn lookup(days: Seq<ContributionDay>, date: int) -> Option<i64>
    decreases days.len(),
{
    if days.len() == 0 {
        None
    } else if days[0].date == date {
        Some(days[0].count)
    } else {
        lookup(days.drop_first(), date)
    }
}

/// A day is active when it is recorded with a positive count.
pub open spec fn is_active(days: Seq<ContributionDay>, date: int) -> bool {
    match lookup(days, date) {
        Some(c) => c > 0,
        None => false,
    }
}

/// The `k` consecutive days ending at `last` are all active.
pub open spec fn is_run(days: Seq<ContributionDay>, last: int, k: int) -> bool {
    forall|j: int| 0 <= j < k ==> #[trigger] is_active(days, last - j)
}

/// The streak the calculator owes: the maximal trailing run from `today` when
/// today is active, from yesterday under the grace-day rule when only
/// yesterday is, and zero otherwise.
pub open spec fn streak_spec_holds(days: Seq<ContributionDay>, today: int, r: int) -> bool {
    if is_active(days, today) {
        &&& r >= 1
        &&& is_run(days, today, r)
        &&& !is_active(days, today - r)
    } else if is_active(days, today - 1) {
        &&& r >= 1
        &&& is_run(days, today - 1, r)
        &&& !is_active(days, today - 1 - r)
    } else {
        r == 0
    }
}

/// A date outside the representable range is never recorded.
proof fn lemma_lookup_out_of_range(days: Seq<ContributionDay>, date: int)
    requires
        date < i64::MIN || date > i64::MAX,
    ensures
        lookup(days, date) is None,
    decreases days.len(),
{
    if days.len() > 0 {
        lemma_lookup_out_of_range(days.drop_first(), date);
    }
}

/// Removing an entry of a different date leaves a lookup unchanged.
proof fn lemma_lookup_remove(days: Seq<ContributionDay>, i: int, date: int)
    requires
        0 <= i < days.len(),
        days[i].date != date,
    ensures
        lookup(days.remove(i), date) == lookup(days, date),
    decreases days.len(),
{
    if i == 0 {
        assert(days.remove(0) =~= days.drop_first());
    } else {
        assert(days.remove(i).drop_first() =~= days.drop_first().remove(i - 1));
        lemma_lookup_remove(days.drop_first(), i - 1, date);
    }
}

/// The index of the first entry recorded for `date`, meaningful when one exists.
spec fn first_index_of(days: Seq<ContributionDay>, date: int) -> int
    decreases days.len(),
{
    if days.len() == 0 {
        -1
    } else if days[0].date == date {
        0
    } else {
        1 + first_index_of(days.drop_first(), date)
    }
}

proof fn lemma_first_index_of(days: Seq<ContributionDay>, date: int)
    requires
        lookup(days, date) is Some,
    ensures
        0 <= first_index_of(days, date) < days.len(),
        days[first_index_of(days, date)].date == date,
    decreases days.len(),
{
    if days.len() > 0 && days[0].date != date {
        lemma_first_index_of(days.drop_first(), date);
    }
}

/// A run of `k` active days needs `k` distinct recorded dates, so no run is
/// longer than the calendar itself.
pub proof fn lemma_run_bounded(days: Seq<ContributionDay>, last: int, k: int)
    requires
        0 <= k,
        is_run(days, last, k),
    ensures
        k <= days.len(),
    decreases k,
{
    if k > 0 {
        assert(is_active(days, last - 0));
        lemma_first_index_of(days, last);
        let i = first_index_of(days, last);
        let rest = days.remove(i);
        assert forall|j: int| 0 <= j < k - 1 implies #[trigger] is_active(rest, (last - 1) - j) by {
            assert(is_active(days, last - (j + 1)));
            lemma_lookup_remove(days, i, last - 1 - j);
        }
        lemma_run_bounded(rest, last - 1, k - 1);
    }
}

/// Whether `date` is recorded with a positive count, by a scan that reads the
/// first matching entry.
pub fn active_at(days: &Vec<ContributionDay>, date: i64) -> (r: bool)
    ensures
        r == is_active(days@, date as int),
{
    let n = days.len();
    let mut i: usize = 0;
    assert(days@.skip(0) =~= days@);
    while i < n
        invariant
            0 <= i <= n,
            n == days@.len(),
            lookup(days@, date as int) == lookup(days@.skip(i as int), date as int),
        decreases n - i,
    {
        if days[i].date == date {
            assert(days@.skip(i as int)[0] == days@[i as int]);
            return days[i].count > 0;
        }
        assert(days@.skip(i as int).drop_first() =~= days@.skip(i + 1));
        i += 1;
    }
    assert(days@.skip(n as int) =~= Seq::<ContributionDay>::empty());
    false
}

/// The length of the trailing run of active days that is still live at
/// `today`: the walk from `today` itself when today is active, the walk from
/// the day before under the grace-day rule, and zero when neither day is
/// active. Absent dates count as inactive, so the walk never leaves the
/// supplied range.
pub fn calculate_contribution_streak(days: &Vec<ContributionDay>, today: i64) -> (r: u64)
    ensures
        streak_spec_holds(days@, today as int, r as int),
{
    let base: i64;
    if active_at(days, today) {
        base = today;
    } else if today > i64::MIN && active_at(days, today - 1) {
        base = today - 1;
    } else {
        proof {
            if today == i64::MIN {
                lemma_lookup_out_of_range(days@, today - 1);
            }
        }
        return 0;
    }

    let ghost gbase: int = base as int;
    let n = days.len();
    let mut r: usize = 0;
    let mut current: i64 = base;
    let mut done = false;
    while !done
        invariant
            base as int == gbase,
            n == days@.len(),
            0 <= r <= n,
            is_run(days@, gbase, r as int),
            !done ==> current == gbase - r,
            !done ==> is_active(days@, current as int),
            !done ==> r < n,
            done ==> !is_active(days@, gbase - r),
            done ==> r >= 1,
        decreases days@.len() - r + (if done { 0int } else { 1int }),
    {
        proof {
            assert(is_run(days@, gbase, r + 1)) by {
                assert forall|j: int| 0 <= j < r + 1 implies #[trigger] is_active(days@, gbase - j) by {
                    if j < r {
                        assert(is_run(days@, gbase, r as int));
                    } else {
                        assert(gbase - j == current as int);
                    }
                }
            }
            lemma_run_bounded(days@, gbase, r + 1);
        }
        r += 1;
        if current == i64::MIN {
            proof {
                lemma_lookup_out_of_range(days@, current - 1);
            }
            done = true;
        } else {
            current -= 1;
            if !active_at(days, current) {
                done = true;
            } else {
                proof {
                    assert(is_run(days@, gbase, r + 1)) by {
                        assert forall|j: int| 0 <= j < r + 1 implies #[trigger] is_active(
                            days@,
                            gbase - j,
                        ) by {
                            if j < r {
                                assert(is_run(days@, gbase, r as int));
                            } else {
                                assert(gbase - j == current as int);
                            }
                        }
                    }
                    lemma_run_bounded(days@, gbase, r + 1);
                }
            }
        }
    }
    r as u64
}

} // verus!
