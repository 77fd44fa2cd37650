use chrono::TimeZone;
use gem_keep::datetime::parse_exif_datetime;

#[test]
fn test_parse_exif_datetime_valid() {
    let parsed = parse_exif_datetime("2024:03:15 12:30:45");
    assert!(parsed.is_some());
    let dt = chrono::Utc.timestamp_opt(parsed.unwrap(), 0).unwrap();
    assert_eq!(dt.format("%Y-%m-%d").to_string(), "2024-03-15");
}

#[test]
fn test_parse_exif_datetime_invalid() {
    assert!(parse_exif_datetime("not a date").is_none());
    assert!(parse_exif_datetime("short").is_none());
    assert!(parse_exif_datetime("").is_none());
}

#[test]
fn test_exif_parse_datetime_roundtrip() {
    let parsed = parse_exif_datetime("2024:03:15 10:30:00");
    assert!(parsed.is_some(), "valid EXIF datetime must parse successfully");
    let dt = chrono::Utc.timestamp_opt(parsed.unwrap(), 0).unwrap();
    assert_eq!(dt.format("%Y-%m-%d").to_string(), "2024-03-15");
    assert_eq!(dt.format("%H:%M:%S").to_string(), "10:30:00");
}

#[test]
fn test_parse_exif_datetime_epoch_anchor() {
    assert_eq!(parse_exif_datetime("1970:01:01 00:00:00"), Some(0));
    assert_eq!(parse_exif_datetime("1969:12:31 23:59:59"), Some(-1));
}

#[test]
fn test_parse_exif_datetime_known_values() {
    assert_eq!(parse_exif_datetime("2024:03:15 12:30:45"), Some(1710505845));
    assert_eq!(parse_exif_datetime("2023:01:15 10:30:00"), Some(1673778600));
    assert_eq!(parse_exif_datetime("2000:02:29 23:59:59"), Some(951868799));
    assert_eq!(parse_exif_datetime("9999:12:31 23:59:59"), Some(253402300799));
}

#[test]
fn test_parse_exif_datetime_rejects_bad_calendar_fields() {
    assert!(parse_exif_datetime("2023:02:29 10:00:00").is_none());
    assert!(parse_exif_datetime("2024:13:01 10:00:00").is_none());
    assert!(parse_exif_datetime("2024:00:01 10:00:00").is_none());
    assert!(parse_exif_datetime("2024:04:31 10:00:00").is_none());
    assert!(parse_exif_datetime("2024:03:15 24:00:00").is_none());
    assert!(parse_exif_datetime("2024:03:15 10:60:00").is_none());
    assert!(parse_exif_datetime("2024:03:15 10:00:60").is_none());
}

#[test]
fn test_parse_exif_datetime_accepts_hyphen_date() {
    assert_eq!(
        parse_exif_datetime("2024-03-15 10:30:00"),
        parse_exif_datetime("2024:03:15 10:30:00")
    );
}

#[test]
fn test_parse_exif_datetime_ignores_trailing_text() {
    assert_eq!(
        parse_exif_datetime("2024:03:15 10:30:00.123"),
        parse_exif_datetime("2024:03:15 10:30:00")
    );
}

#[test]
fn test_parse_exif_datetime_agrees_with_calendar_library() {
    for s in [
        "1999:12:31 23:59:59",
        "2012:02:29 01:02:03",
        "2024:07:04 08:00:00",
        "1970:01:02 00:00:01",
    ] {
        let parsed = parse_exif_datetime(s).expect("must parse");
        let normalized = format!("{}-{}-{} {}", &s[0..4], &s[5..7], &s[8..10], &s[11..19]);
        let ndt =
            chrono::NaiveDateTime::parse_from_str(&normalized, "%Y-%m-%d %H:%M:%S").unwrap();
        assert_eq!(parsed, ndt.and_utc().timestamp(), "mismatch for {}", s);
    }
}
