use readme_stats::codec::{parse_schedule, serialize_schedule, CodecError};
use readme_stats::schedule::{generate_schedule, DailySchedule};

fn assert_round_trip(s: &DailySchedule) {
    let bytes = serialize_schedule(s);
    let back = parse_schedule(&bytes).expect("a canonical record must parse");
    assert_eq!(back.date, s.date);
    assert_eq!(back.run_slots, s.run_slots);
    assert_eq!(back.total_runs, s.total_runs);
    assert_eq!(back.interval_minutes, s.interval_minutes);
}

#[test]
fn round_trip_of_generated_schedules() {
    for seed in [0u64, 1, 99, 123456, u64::MAX] {
        let s = generate_schedule(738000, seed);
        assert_round_trip(&s);
    }
}

#[test]
fn round_trip_of_negative_and_extreme_dates() {
    for date in [-1i64, i64::MIN, i64::MAX, 0] {
        let s = DailySchedule {
            date,
            run_slots: vec![7, 700],
            total_runs: 2,
            interval_minutes: 720,
        };
        assert_round_trip(&s);
    }
}

#[test]
fn empty_record_is_malformed() {
    let bytes: Vec<u8> = Vec::new();
    assert_eq!(parse_schedule(&bytes), Err(CodecError::Malformed));
}

#[test]
fn short_record_is_malformed() {
    let bytes: Vec<u8> = vec![0; 14];
    assert_eq!(parse_schedule(&bytes), Err(CodecError::Malformed));
}

#[test]
fn bad_sign_byte_is_malformed() {
    let s = DailySchedule { date: 3, run_slots: vec![100], total_runs: 1, interval_minutes: 1440 };
    let mut bytes = serialize_schedule(&s);
    bytes[0] = 2;
    assert_eq!(parse_schedule(&bytes), Err(CodecError::Malformed));
}

#[test]
fn negative_zero_date_is_malformed() {
    let s = DailySchedule { date: 0, run_slots: vec![100], total_runs: 1, interval_minutes: 1440 };
    let mut bytes = serialize_schedule(&s);
    bytes[0] = 1;
    assert_eq!(parse_schedule(&bytes), Err(CodecError::Malformed));
}

#[test]
fn trailing_bytes_are_malformed() {
    let s = DailySchedule { date: 3, run_slots: vec![100], total_runs: 1, interval_minutes: 1440 };
    let mut bytes = serialize_schedule(&s);
    bytes.push(0);
    assert_eq!(parse_schedule(&bytes), Err(CodecError::Malformed));
}

#[test]
fn truncated_slots_are_malformed() {
    let s = DailySchedule {
        date: 3,
        run_slots: vec![100, 200],
        total_runs: 2,
        interval_minutes: 720,
    };
    let mut bytes = serialize_schedule(&s);
    bytes.pop();
    assert_eq!(parse_schedule(&bytes), Err(CodecError::Malformed));
}

#[test]
fn unsorted_slots_are_malformed() {
    let good = DailySchedule {
        date: 3,
        run_slots: vec![100, 200],
        total_runs: 2,
        interval_minutes: 720,
    };
    let mut bytes = serialize_schedule(&good);
    // Swap the two slots in place: [200, 100] breaks the ascending order.
    let n = bytes.len();
    bytes.swap(n - 4, n - 2);
    bytes.swap(n - 3, n - 1);
    assert_eq!(parse_schedule(&bytes), Err(CodecError::Malformed));
}

#[test]
fn wrong_interval_is_malformed() {
    let s = DailySchedule { date: 3, run_slots: vec![100], total_runs: 1, interval_minutes: 1440 };
    let mut bytes = serialize_schedule(&s);
    // The interval field sits at bytes 11..13; 1440 / 1 is 1440, not 99.
    bytes[11] = 99;
    bytes[12] = 0;
    assert_eq!(parse_schedule(&bytes), Err(CodecError::Malformed));
}

#[test]
fn slot_out_of_day_is_malformed() {
    let s = DailySchedule { date: 3, run_slots: vec![100], total_runs: 1, interval_minutes: 1440 };
    let mut bytes = serialize_schedule(&s);
    // Overwrite the single slot with 1440, one past the last minute.
    let n = bytes.len();
    bytes[n - 2] = (1440u16 % 256) as u8;
    bytes[n - 1] = (1440u16 / 256) as u8;
    assert_eq!(parse_schedule(&bytes), Err(CodecError::Malformed));
}
