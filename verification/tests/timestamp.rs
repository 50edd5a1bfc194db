use webdav_server::timestamp::{current_timestamp, format_timestamp, parse_datetime};

#[test]
fn parses_stored_timestamps() {
    assert_eq!(parse_datetime("1970-01-01 00:00:00"), Some(0));
    assert_eq!(parse_datetime("2024-01-01 00:00:00"), Some(1_704_067_200));
    assert_eq!(parse_datetime("2024-03-15 10:30:45"), Some(1_710_498_645));
    // extra fields are ignored
    assert_eq!(parse_datetime("2024-03-15 10:30:45:99"), parse_datetime("2024-03-15 10:30:45"));
}

#[test]
fn malformed_timestamps_are_not_read() {
    assert_eq!(parse_datetime(""), None);
    assert_eq!(parse_datetime("2024-03-15"), None);
    assert_eq!(parse_datetime("2024-03-15T10:30:45"), None);
    assert_eq!(parse_datetime("2024-03-15 10:30:4x"), None);
    // the month must be one of the twelve, the year from 1
    assert_eq!(parse_datetime("1970-00-01 00:00:00"), None);
    assert_eq!(parse_datetime("1970-13-01 00:00:00"), None);
    assert_eq!(parse_datetime("0000-01-01 00:00:00"), None);
}

#[test]
fn timestamps_before_the_epoch_wrap() {
    // one day before the epoch: -86400 seconds, as u64
    assert_eq!(parse_datetime("1969-12-31 00:00:00"), Some(0u64.wrapping_sub(86400)));
    // a day 0 carries over to the day before
    assert_eq!(parse_datetime("1970-01-00 00:00:00"), Some(0u64.wrapping_sub(86400)));
    assert_eq!(parse_datetime("1970-01--1 00:00:00"), None);
}

#[test]
fn fields_parse_as_std_parses_integers() {
    let base = parse_datetime("1970-01-01 00:00:00").unwrap();
    assert_eq!(parse_datetime("+1970-01-01 00:00:00"), Some(base));
    assert_eq!(parse_datetime("1970-01-01 00:00:+7"), Some(base + 7));
    assert_eq!(parse_datetime("1970-01-01 00:00:007"), Some(base + 7));
    assert_eq!(parse_datetime("1970-01-01 00:00:+"), None);
    // a minus sign is a separator: "-5" is an empty field followed by "5"
    assert_eq!(parse_datetime("1970-01-01 00:00:-5"), parse_datetime("1970-01-01 00:00:"));
    assert_eq!(parse_datetime("1970-01-01 00:00:9223372036854775808"), None);
    assert_eq!(parse_datetime("1970-01-01 00:00:9223372036854775807"), Some(base.wrapping_add(9223372036854775807)));
}

#[test]
fn formats_timestamps() {
    assert_eq!(format_timestamp(0), "1970-01-01 00:00:00");
    assert_eq!(format_timestamp(86400 * 365 + 3661), "1971-01-01 01:01:01");
    assert_eq!(format_timestamp(86400 * 360), "1970-12-27 00:00:00");
    assert_eq!(format_timestamp(86400 * 364), "1970-12-31 00:00:00");
    assert_eq!(format_timestamp(1_700_000_000), "2023-11-14 22:13:20");
    // leap days of the Gregorian calendar
    assert_eq!(format_timestamp(951_825_600), "2000-02-29 12:00:00");
    assert_eq!(format_timestamp(4_107_542_400), "2100-03-01 00:00:00");
    // the largest clock reading still gives a date
    let far = format_timestamp(u64::MAX);
    assert!(far.ends_with(" 07:00:15"));
}

#[test]
fn written_timestamps_read_back() {
    for secs in [0u64, 1, 86_399, 86_400 * 400 + 12_345, 951_825_600, 1_700_000_000, 4_107_542_400] {
        assert_eq!(parse_datetime(&format_timestamp(secs)), Some(secs));
    }
}

#[test]
fn current_timestamp_is_well_formed() {
    let t = current_timestamp().unwrap();
    assert_eq!(t.len(), 19);
    assert!(parse_datetime(&t).is_some());
}

#[test]
fn later_clock_readings_give_later_texts() {
    let readings = [0u64, 59, 86_399, 86_400, 31_449_600, 951_825_600, 1_700_000_000, 4_107_542_400];
    for w in readings.windows(2) {
        assert!(format_timestamp(w[0]) < format_timestamp(w[1]));
    }
    assert_eq!(format_timestamp(1_700_000_000), format_timestamp(1_700_000_000));
}
