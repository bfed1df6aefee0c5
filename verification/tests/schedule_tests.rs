use readme_stats::schedule::{generate_schedule, should_run_at, DailySchedule};

fn one_slot_schedule(slot: u16) -> DailySchedule {
    DailySchedule { date: 0, run_slots: vec![slot], total_runs: 1, interval_minutes: 1440 }
}

#[test]
fn generated_slots_sorted_unique_in_range() {
    for seed in [0u64, 1, 7, 42, 123456789, u64::MAX] {
        let s = generate_schedule(10, seed);
        assert!(!s.run_slots.is_empty());
        for w in s.run_slots.windows(2) {
            assert!(w[0] < w[1], "slots must be strictly ascending");
        }
        for &slot in &s.run_slots {
            assert!(slot <= 1439);
        }
    }
}

#[test]
fn generated_run_count_and_interval() {
    for seed in [0u64, 3, 99, 4096] {
        let s = generate_schedule(5, seed);
        assert!(1 <= s.total_runs && s.total_runs <= 30);
        assert_eq!(s.interval_minutes, 1440 / s.total_runs);
        assert!(s.run_slots.len() <= s.total_runs as usize);
    }
}

#[test]
fn generation_is_deterministic_in_the_seed() {
    let a = generate_schedule(77, 987654321);
    let b = generate_schedule(77, 987654321);
    assert_eq!(a.date, b.date);
    assert_eq!(a.run_slots, b.run_slots);
    assert_eq!(a.total_runs, b.total_runs);
    assert_eq!(a.interval_minutes, b.interval_minutes);
}

#[test]
fn generated_date_is_kept() {
    let s = generate_schedule(-321, 5);
    assert_eq!(s.date, -321);
}

#[test]
fn tolerance_window_examples() {
    let s = one_slot_schedule(480);
    assert!(should_run_at(&s, 489));
    assert!(!should_run_at(&s, 491));
}

#[test]
fn tolerance_is_inclusive_at_ten_minutes() {
    let s = one_slot_schedule(480);
    assert!(should_run_at(&s, 490));
    assert!(should_run_at(&s, 470));
    assert!(!should_run_at(&s, 491));
    assert!(!should_run_at(&s, 469));
}

#[test]
fn tolerance_matches_exact_slot() {
    let s = one_slot_schedule(0);
    assert!(should_run_at(&s, 0));
    assert!(should_run_at(&s, 10));
    assert!(!should_run_at(&s, 11));
}

#[test]
fn any_slot_within_tolerance_matches() {
    let s = DailySchedule {
        date: 0,
        run_slots: vec![100, 700, 1340],
        total_runs: 3,
        interval_minutes: 480,
    };
    assert!(should_run_at(&s, 710));
    assert!(should_run_at(&s, 1330));
    assert!(!should_run_at(&s, 400));
}

#[test]
fn duplicate_copies_every_field() {
    let s = generate_schedule(9, 1234);
    let c = s.duplicate();
    assert_eq!(c.date, s.date);
    assert_eq!(c.run_slots, s.run_slots);
    assert_eq!(c.total_runs, s.total_runs);
    assert_eq!(c.interval_minutes, s.interval_minutes);
}
