use afdb_core::timestamp::{format_utc_timestamp, iso_now};

#[test]
fn epoch_zero() {
    assert_eq!(format_utc_timestamp(0, 0), "1970-01-01T00:00:00.000Z");
}

#[test]
fn leap_day_with_millis() {
    // 2024-02-29T12:00:00Z is 1_709_208_000 seconds after the epoch.
    assert_eq!(format_utc_timestamp(1_709_208_000, 500), "2024-02-29T12:00:00.500Z");
}

#[test]
fn last_instant_of_1999() {
    assert_eq!(format_utc_timestamp(946_684_799, 999), "1999-12-31T23:59:59.999Z");
}

#[test]
fn century_year_is_not_leap() {
    // 2100 is not a leap year: 4_107_456_000 is 2100-02-28T00:00:00Z,
    // and one day later it is March.
    assert_eq!(format_utc_timestamp(4_107_456_000, 0), "2100-02-28T00:00:00.000Z");
    assert_eq!(format_utc_timestamp(4_107_542_400, 0), "2100-03-01T00:00:00.000Z");
}

#[test]
fn first_of_march_after_leap_day() {
    // 2024-03-01T00:00:00Z.
    assert_eq!(format_utc_timestamp(1_709_251_200, 0), "2024-03-01T00:00:00.000Z");
}

#[test]
fn iso_now_has_the_fixed_shape() {
    let s = iso_now();
    let b = s.as_bytes();
    assert_eq!(b.len(), 24);
    assert_eq!(b[4], b'-');
    assert_eq!(b[7], b'-');
    assert_eq!(b[10], b'T');
    assert_eq!(b[13], b':');
    assert_eq!(b[16], b':');
    assert_eq!(b[19], b'.');
    assert_eq!(b[23], b'Z');
}
