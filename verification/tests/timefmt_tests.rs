use kiraboshi::timefmt::format_time;

#[test]
fn zero_is_rendered_with_both_fields_padded() {
    assert_eq!(format_time(0), b"00:00".to_vec());
}

#[test]
fn sub_second_remainders_are_truncated() {
    assert_eq!(format_time(59_999), b"00:59".to_vec());
    assert_eq!(format_time(60_000), b"01:00".to_vec());
}

#[test]
fn minutes_and_seconds_are_split_at_sixty() {
    assert_eq!(format_time(61_000), b"01:01".to_vec());
    assert_eq!(format_time(3_599_000), b"59:59".to_vec());
    assert_eq!(format_time(754_000), b"12:34".to_vec());
}

#[test]
fn minutes_grow_past_two_digits_when_they_must() {
    assert_eq!(format_time(6_000_000), b"100:00".to_vec());
}
