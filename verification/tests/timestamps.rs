use access_replay::error::ReplayError;
use access_replay::timestamp::{parse_timestamp_fields, CalendarFields, Timestamp, MAX_TIMESTAMP_NANOS};

#[test]
fn fields_are_read_off_the_shape() {
    let fields = parse_timestamp_fields("2024-03-09T12:34:56.789Z").unwrap();
    assert_eq!(
        fields,
        CalendarFields { year: 2024, month: 3, day: 9, hour: 12, minute: 34, second: 56, millisecond: 789 }
    );
}

#[test]
fn other_shapes_have_no_fields() {
    assert!(parse_timestamp_fields("").is_none());
    assert!(parse_timestamp_fields("2024-03-09T12:34:56.789").is_none());
    assert!(parse_timestamp_fields("2024-03-09 12:34:56.789Z").is_none());
    assert!(parse_timestamp_fields("2024-03-09T12:34:56,789Z").is_none());
    assert!(parse_timestamp_fields("2024-03-09T12:34:56.78Z").is_none());
    assert!(parse_timestamp_fields("2024-03-09T12:34:56.7890Z").is_none());
    assert!(parse_timestamp_fields("2024-03-09T12:34:5x.789Z").is_none());
    assert!(parse_timestamp_fields("2024-03-09T12:34:56.789z").is_none());
    assert!(parse_timestamp_fields("２024-03-09T12:34:56.789Z").is_none());
}

#[test]
fn shape_does_not_judge_the_calendar() {
    let fields = parse_timestamp_fields("2024-13-40T25:61:61.000Z").unwrap();
    assert_eq!(fields.month, 13);
    assert_eq!(fields.day, 40);
}

#[test]
fn parse_gives_instants_with_millisecond_distance() {
    let first = Timestamp::parse("2024-01-01T12:00:00.000Z").unwrap();
    let second = Timestamp::parse("2024-01-01T12:00:00.500Z").unwrap();
    let third = Timestamp::parse("2024-01-01T12:00:02.000Z").unwrap();
    assert_eq!(second.since(&first), 500_000_000);
    assert_eq!(third.since(&first), 2_000_000_000);
    assert_eq!(first.since(&third), -2_000_000_000);
    assert_eq!(first.since(&first), 0);
}

#[test]
fn parse_counts_from_the_start_of_1900() {
    let reference = Timestamp::parse("1900-01-01T00:00:00.000Z").unwrap();
    assert_eq!(reference.nanos(), 0);
    let next_day = Timestamp::parse("1900-01-02T00:00:00.001Z").unwrap();
    assert_eq!(next_day.nanos(), 86_400_001_000_000);
}

#[test]
fn parse_refuses_days_that_do_not_exist() {
    assert!(matches!(Timestamp::parse("2024-04-31T00:00:00.000Z"), Err(ReplayError::BadTimestamp)));
    assert!(matches!(Timestamp::parse("2023-02-29T00:00:00.000Z"), Err(ReplayError::BadTimestamp)));
    assert!(matches!(Timestamp::parse("2024-13-01T00:00:00.000Z"), Err(ReplayError::BadTimestamp)));
    assert!(matches!(Timestamp::parse("2024-00-01T00:00:00.000Z"), Err(ReplayError::BadTimestamp)));
    assert!(matches!(Timestamp::parse("2024-01-01T00:61:00.000Z"), Err(ReplayError::BadTimestamp)));
    assert!(Timestamp::parse("2024-02-29T00:00:00.000Z").is_ok());
}

#[test]
fn parse_refuses_other_shapes() {
    assert!(matches!(Timestamp::parse("yesterday"), Err(ReplayError::BadTimestamp)));
    assert!(matches!(Timestamp::parse("2024-01-01T00:00:00Z"), Err(ReplayError::BadTimestamp)));
    assert!(matches!(Timestamp::parse("2024-01-01T00:00:00.000+01:00"), Err(ReplayError::BadTimestamp)));
}

#[test]
fn text_is_the_calendar_date_in_utc() {
    let whole = Timestamp::parse("2024-01-01T00:00:00.000Z").unwrap();
    assert_eq!(whole.to_text(), "2024-01-01T00:00:00 UTC");
    let split = Timestamp::parse("2024-06-30T23:59:59.250Z").unwrap();
    assert_eq!(split.to_text(), "2024-06-30T23:59:59.250000000 UTC");
}

#[test]
fn from_nanos_keeps_the_range() {
    assert!(Timestamp::from_nanos(MAX_TIMESTAMP_NANOS).is_some());
    assert!(Timestamp::from_nanos(-MAX_TIMESTAMP_NANOS).is_some());
    assert!(Timestamp::from_nanos(MAX_TIMESTAMP_NANOS + 1).is_none());
    assert!(Timestamp::from_nanos(-MAX_TIMESTAMP_NANOS - 1).is_none());
    assert_eq!(Timestamp::from_nanos(42).unwrap().nanos(), 42);
}

#[test]
fn from_instant_maps_a_missing_instant_to_bad_timestamp() {
    assert!(matches!(Timestamp::from_instant(None), Err(ReplayError::BadTimestamp)));
    assert!(matches!(Timestamp::from_instant(Some((i16::MAX, u64::MAX))), Err(ReplayError::BadTimestamp)));
    assert!(matches!(Timestamp::from_instant(Some((i16::MIN, 0))), Err(ReplayError::BadTimestamp)));
    assert!(matches!(Timestamp::from_instant(Some((317, 0))), Err(ReplayError::BadTimestamp)));
}

#[test]
fn from_instant_counts_centuries_and_nanoseconds() {
    assert_eq!(Timestamp::from_instant(Some((0, 7))).unwrap().nanos(), 7);
    assert_eq!(Timestamp::from_instant(Some((1, 7))).unwrap().nanos(), 3_155_760_000_000_000_007);
    assert_eq!(Timestamp::from_instant(Some((-1, 7))).unwrap().nanos(), -3_155_759_999_999_999_993);
    assert_eq!(Timestamp::from_instant(Some((-3, 1_000))).unwrap().nanos(), -9_467_279_999_999_999_000);
    assert_eq!(
        Timestamp::from_instant(Some((316, 0))).unwrap().nanos(),
        997_220_160_000_000_000_000
    );
}

#[test]
fn instants_long_before_the_reference_keep_their_order() {
    let first = Timestamp::parse("1700-03-01T00:00:00.000Z").unwrap();
    let second = Timestamp::parse("1700-03-02T00:00:00.250Z").unwrap();
    assert_eq!(second.since(&first), 86_400_250_000_000);
    assert!(first.nanos() < second.nanos());
    assert!(second.nanos() < 0);
    let earlier = Timestamp::parse("1650-01-01T00:00:00.000Z").unwrap();
    let later = Timestamp::parse("1899-12-31T23:59:59.999Z").unwrap();
    assert!(earlier.nanos() < first.nanos());
    assert!(second.nanos() < later.nanos());
    assert_eq!(later.nanos(), -1_000_000);
}

#[test]
fn instants_that_the_time_library_cannot_tell_apart_are_refused() {
    assert!(Timestamp::parse("2192-01-01T00:00:00.000Z").is_ok());
    assert!(matches!(Timestamp::parse("2200-01-01T00:00:00.000Z"), Err(ReplayError::BadTimestamp)));
    assert!(matches!(Timestamp::parse("9999-12-31T23:59:59.999Z"), Err(ReplayError::BadTimestamp)));
}
