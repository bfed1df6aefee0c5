use readme_stats::store::{should_run_from_record, GateError, ScheduleStore};

#[test]
fn first_load_creates_and_persists() {
    let mut store = ScheduleStore::new();
    assert!(store.find_schedule(40).is_none());
    let s = store.load_or_create(40, 7);
    let found = store.find_schedule(40).expect("the schedule must be stored");
    assert_eq!(found.date, s.date);
    assert_eq!(found.run_slots, s.run_slots);
    assert_eq!(found.total_runs, s.total_runs);
    assert_eq!(found.interval_minutes, s.interval_minutes);
}

#[test]
fn second_load_returns_the_stored_schedule() {
    let mut store = ScheduleStore::new();
    let first = store.load_or_create(123, 1111);
    // A different seed must not matter: the stored schedule is authoritative.
    let second = store.load_or_create(123, 9999);
    assert_eq!(first.date, second.date);
    assert_eq!(first.run_slots, second.run_slots);
    assert_eq!(first.total_runs, second.total_runs);
    assert_eq!(first.interval_minutes, second.interval_minutes);
}

#[test]
fn distinct_dates_get_independent_schedules() {
    let mut store = ScheduleStore::new();
    let a = store.load_or_create(1, 5);
    let b = store.load_or_create(2, 5);
    assert_eq!(a.date, 1);
    assert_eq!(b.date, 2);
    let fa = store.find_schedule(1).unwrap();
    assert_eq!(fa.run_slots, a.run_slots);
    let fb = store.find_schedule(2).unwrap();
    assert_eq!(fb.run_slots, b.run_slots);
}

#[test]
fn gate_answers_identically_for_one_date() {
    let mut store = ScheduleStore::new();
    for minutes in [0u16, 300, 720, 1439] {
        let first = store.should_run_now(55, minutes, 42);
        let second = store.should_run_now(55, minutes, 271828);
        assert_eq!(first, second);
    }
}

#[test]
fn gate_matches_the_stored_slots() {
    let mut store = ScheduleStore::new();
    let s = store.load_or_create(90, 31415);
    let slot = s.run_slots[0];
    assert!(store.should_run_now(90, slot, 0));
}

#[test]
fn gate_reads_a_persisted_record() {
    let sched = readme_stats::schedule::generate_schedule(200, 777);
    let bytes = readme_stats::codec::serialize_schedule(&sched);
    let slot = sched.run_slots[0];
    assert_eq!(should_run_from_record(&bytes, 200, slot), Ok(true));
}

#[test]
fn gate_fails_on_a_corrupt_record() {
    let bytes: Vec<u8> = vec![9, 9, 9];
    assert_eq!(
        should_run_from_record(&bytes, 200, 0),
        Err(GateError::MalformedRecord)
    );
}

#[test]
fn gate_fails_on_a_record_for_another_date() {
    let sched = readme_stats::schedule::generate_schedule(200, 777);
    let bytes = readme_stats::codec::serialize_schedule(&sched);
    assert_eq!(
        should_run_from_record(&bytes, 201, 0),
        Err(GateError::WrongDate)
    );
}
