use agapornis_agent::time::{
    clamp_timestamp, docker_since_timestamp, elapsed_seconds, parse_stamp, Stamp,
};

#[test]
fn timestamps_stay_within_32_bits() {
    assert_eq!(clamp_timestamp(1_700_000_000), 1_700_000_000);
    assert_eq!(clamp_timestamp(-5), -5);
    assert_eq!(clamp_timestamp(i64::MAX), i32::MAX);
    assert_eq!(clamp_timestamp(i64::MIN), i32::MIN);
}

#[test]
fn logs_are_asked_for_from_the_epoch_on() {
    assert_eq!(docker_since_timestamp(&Stamp { seconds: -5, nanos: 0 }), 0);
    assert_eq!(docker_since_timestamp(&Stamp { seconds: 42, nanos: 7 }), 42);
    assert_eq!(docker_since_timestamp(&Stamp { seconds: i64::MAX, nanos: 0 }), i32::MAX);
}

#[test]
fn elapsed_time_is_in_whole_seconds() {
    let from = parse_stamp("2026-01-01T00:00:00.500Z").unwrap();
    let to = parse_stamp("2026-01-01T01:00:10.250+01:00").unwrap();
    assert_eq!(elapsed_seconds(&from, &to), 9);
    assert_eq!(elapsed_seconds(&to, &from), 0);
    assert_eq!(elapsed_seconds(&from, &from), 0);
}

#[test]
fn a_leap_second_counts() {
    let from = parse_stamp("2016-12-31T23:59:60Z").unwrap();
    let next = parse_stamp("2017-01-01T00:00:00Z").unwrap();
    let before = parse_stamp("2016-12-31T23:59:58Z").unwrap();
    assert_eq!(elapsed_seconds(&before, &from), 2);
    assert_eq!(elapsed_seconds(&from, &next), 0);
}
