use aegis::timestamp::get_timestamp;

#[test]
fn whole_second_has_no_fraction() {
    assert_eq!(get_timestamp(1431648000, 0), Some("2015-05-15T00:00:00+00:00".to_string()));
}

#[test]
fn epoch_with_milliseconds() {
    assert_eq!(get_timestamp(0, 500_000_000), Some("1970-01-01T00:00:00.500+00:00".to_string()));
}

#[test]
fn nanoseconds_are_kept() {
    assert_eq!(get_timestamp(1_700_000_000, 123_456_789), Some("2023-11-14T22:13:20.123456789+00:00".to_string()));
}

#[test]
fn before_the_epoch() {
    assert_eq!(get_timestamp(-86_400, 0), Some("1969-12-31T00:00:00+00:00".to_string()));
}

#[test]
fn invalid_nanoseconds_are_refused() {
    assert_eq!(get_timestamp(0, 2_000_000_000), None);
    assert_eq!(get_timestamp(0, 1_000_000_000), None);
}

#[test]
fn leap_second_is_accepted_on_the_last_second_of_a_minute() {
    assert_eq!(get_timestamp(59, 1_000_000_000), Some("1970-01-01T00:00:60+00:00".to_string()));
}

#[test]
fn out_of_range_seconds_are_refused() {
    assert_eq!(get_timestamp(i64::MAX, 0), None);
}
