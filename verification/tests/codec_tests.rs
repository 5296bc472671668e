use collect_logs::codec::{decode_record_id, EPOCH_OFFSET_MILLIS, MIN_RECORD_ID};

/// Record id encoding a given Unix millisecond instant.
fn id_of_unix_millis(ms: i64) -> i64 {
    (ms + EPOCH_OFFSET_MILLIS) * 10
}

#[test]
fn decodes_epoch_start() {
    let ts = decode_record_id(MIN_RECORD_ID);
    assert_eq!(ts.unix_millis, 0);
    assert_eq!(ts.year, 1970);
    assert_eq!(ts.month, 1);
    assert_eq!(ts.day, 1);
    assert_eq!(ts.hour, 0);
    assert_eq!(ts.minute, 0);
    assert_eq!(ts.second, 0);
    assert_eq!(ts.millisecond, 0);
}

#[test]
fn decodes_known_date() {
    // 2022-08-01T00:00:00Z is 1659312000000 ms after the Unix epoch.
    let ts = decode_record_id(637949088000000);
    assert_eq!(ts.unix_millis, 1659312000000);
    assert_eq!(ts.year, 2022);
    assert_eq!(ts.month, 8);
    assert_eq!(ts.day, 1);
    assert_eq!(ts.hour, 0);
    assert_eq!(ts.minute, 0);
    assert_eq!(ts.second, 0);
    assert_eq!(ts.millisecond, 0);
}

#[test]
fn decodes_time_of_day() {
    // 2022-08-01T12:30:45.123Z.
    let id = id_of_unix_millis(1659312000000 + 12 * 3600000 + 30 * 60000 + 45 * 1000 + 123);
    let ts = decode_record_id(id);
    assert_eq!(ts.year, 2022);
    assert_eq!(ts.month, 8);
    assert_eq!(ts.day, 1);
    assert_eq!(ts.hour, 12);
    assert_eq!(ts.minute, 30);
    assert_eq!(ts.second, 45);
    assert_eq!(ts.millisecond, 123);
    assert_eq!(ts.to_text(), "2022-08-01T12:30:45.123Z");
}

#[test]
fn decodes_leap_day() {
    // 2020-02-29T00:00:00Z is day 18321 after the Unix epoch.
    let ts = decode_record_id(id_of_unix_millis(18321 * 86400000));
    assert_eq!(ts.year, 2020);
    assert_eq!(ts.month, 2);
    assert_eq!(ts.day, 29);
    assert_eq!(ts.to_text(), "2020-02-29T00:00:00.000Z");
}

#[test]
fn decodes_end_of_year() {
    // 2021-12-31T23:59:59.999Z: 2022-01-01 is day 18993, so one
    // millisecond earlier.
    let ts = decode_record_id(id_of_unix_millis(18993i64 * 86400000 - 1));
    assert_eq!(ts.year, 2021);
    assert_eq!(ts.month, 12);
    assert_eq!(ts.day, 31);
    assert_eq!(ts.hour, 23);
    assert_eq!(ts.minute, 59);
    assert_eq!(ts.second, 59);
    assert_eq!(ts.millisecond, 999);
}

#[test]
fn decode_follows_divide_and_subtract() {
    // The decoded millisecond count is the id divided by ten minus the
    // fixed offset, exactly.
    let id: i64 = 637950000000000000;
    let ts = decode_record_id(id);
    assert_eq!(ts.unix_millis, id / 10 - 62135596800000);
}

#[test]
fn round_trips_to_millis() {
    // Re-encoding the civil fields gives back the decoded milliseconds.
    let id = id_of_unix_millis(1659312000000 + 7 * 3600000 + 8 * 60000 + 9 * 1000 + 10);
    let ts = decode_record_id(id);
    let days: i64 = 19205; // 2022-08-01
    let encoded = days * 86400000
        + ts.hour as i64 * 3600000
        + ts.minute as i64 * 60000
        + ts.second as i64 * 1000
        + ts.millisecond as i64;
    assert_eq!(encoded, ts.unix_millis);
}
