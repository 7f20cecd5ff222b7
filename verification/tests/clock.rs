use contemporary_z::clock::{current_seconds, seconds_of_reading};

#[test]
fn the_clock_reads_a_time_after_the_epoch() {
    let now = current_seconds();
    assert!(now >= 0);
    // after the year 2020
    assert!(now > 1_577_836_800);
    assert!(current_seconds() >= now);
}

#[test]
fn a_reading_of_the_clock_becomes_seconds() {
    assert_eq!(seconds_of_reading(Some(0)), 0);
    assert_eq!(seconds_of_reading(Some(1_700_000_000)), 1_700_000_000);
    assert_eq!(seconds_of_reading(Some(i64::MAX as u64)), i64::MAX);
    assert_eq!(seconds_of_reading(Some(i64::MAX as u64 + 1)), i64::MAX);
    assert_eq!(seconds_of_reading(Some(u64::MAX)), i64::MAX);
    assert_eq!(seconds_of_reading(None), 0);
}
