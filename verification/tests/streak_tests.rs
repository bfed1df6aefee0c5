use readme_stats::streak::{active_at, calculate_contribution_streak, ContributionDay};

fn days(pairs: &[(i64, i64)]) -> Vec<ContributionDay> {
    pairs.iter().map(|&(date, count)| ContributionDay { date, count }).collect()
}

const TODAY: i64 = 738000;

#[test]
fn streak_today_active_broken_two_back() {
    let d = days(&[(TODAY, 5), (TODAY - 1, 3), (TODAY - 2, 0)]);
    assert_eq!(calculate_contribution_streak(&d, TODAY), 2);
}

#[test]
fn streak_grace_day_counts_yesterdays_run() {
    let d = days(&[(TODAY, 0), (TODAY - 1, 4), (TODAY - 2, 2)]);
    assert_eq!(calculate_contribution_streak(&d, TODAY), 2);
}

#[test]
fn streak_no_active_days() {
    let d = days(&[(TODAY, 0), (TODAY - 1, 0), (TODAY - 2, 0)]);
    assert_eq!(calculate_contribution_streak(&d, TODAY), 0);
}

#[test]
fn streak_active_day_outside_grace_window() {
    let d = days(&[(TODAY, 0), (TODAY - 1, 0), (TODAY - 5, 7)]);
    assert_eq!(calculate_contribution_streak(&d, TODAY), 0);
}

#[test]
fn streak_empty_calendar() {
    let d = days(&[]);
    assert_eq!(calculate_contribution_streak(&d, TODAY), 0);
}

#[test]
fn streak_unbroken_history_stops_at_range_edge() {
    let d = days(&[(TODAY, 1), (TODAY - 1, 2), (TODAY - 2, 3), (TODAY - 3, 4)]);
    assert_eq!(calculate_contribution_streak(&d, TODAY), 4);
}

#[test]
fn streak_single_active_today() {
    let d = days(&[(TODAY, 9)]);
    assert_eq!(calculate_contribution_streak(&d, TODAY), 1);
}

#[test]
fn streak_yesterday_single_active() {
    let d = days(&[(TODAY - 1, 2), (TODAY - 2, 0)]);
    assert_eq!(calculate_contribution_streak(&d, TODAY), 1);
}

#[test]
fn streak_input_order_does_not_matter() {
    let d = days(&[(TODAY - 2, 1), (TODAY, 5), (TODAY - 1, 3)]);
    assert_eq!(calculate_contribution_streak(&d, TODAY), 3);
}

#[test]
fn streak_duplicate_date_first_occurrence_wins() {
    let d = days(&[(TODAY, 0), (TODAY, 5), (TODAY - 1, 3)]);
    assert_eq!(calculate_contribution_streak(&d, TODAY), 1);
}

#[test]
fn active_at_reads_counts() {
    let d = days(&[(TODAY, 5), (TODAY - 1, 0)]);
    assert!(active_at(&d, TODAY));
    assert!(!active_at(&d, TODAY - 1));
    assert!(!active_at(&d, TODAY - 2));
}
