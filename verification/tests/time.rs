use temperature_app::time::{leap_year, month_days, parse_rfc3339, rfc3339_string, UtcTime};

fn ts(
    year: u16,
    month: u8,
    day: u8,
    hour: u8,
    minute: u8,
    second: u8,
    nanos: u32,
) -> UtcTime {
    UtcTime::new(year, month, day, hour, minute, second, nanos).unwrap()
}

#[test]
fn builds_only_real_instants() {
    assert!(UtcTime::new(2019, 10, 6, 17, 32, 59, 0).is_some());
    assert!(UtcTime::new(2024, 2, 29, 0, 0, 0, 0).is_some());
    assert!(UtcTime::new(2023, 2, 29, 0, 0, 0, 0).is_none());
    assert!(UtcTime::new(2019, 4, 31, 0, 0, 0, 0).is_none());
    assert!(UtcTime::new(2019, 13, 1, 0, 0, 0, 0).is_none());
    assert!(UtcTime::new(2019, 0, 1, 0, 0, 0, 0).is_none());
    assert!(UtcTime::new(2019, 1, 0, 0, 0, 0, 0).is_none());
    assert!(UtcTime::new(2019, 1, 1, 24, 0, 0, 0).is_none());
    assert!(UtcTime::new(2019, 1, 1, 0, 60, 0, 0).is_none());
    assert!(UtcTime::new(2019, 1, 1, 0, 0, 60, 0).is_none());
    assert!(UtcTime::new(2019, 1, 1, 0, 0, 0, 1_000_000_000).is_none());
    assert!(UtcTime::new(10_000, 1, 1, 0, 0, 0, 0).is_none());
}

#[test]
fn calendar_rules() {
    assert!(leap_year(2000));
    assert!(!leap_year(1900));
    assert!(leap_year(2024));
    assert!(!leap_year(2023));
    assert_eq!(month_days(2024, 2), 29);
    assert_eq!(month_days(2023, 2), 28);
    assert_eq!(month_days(2023, 4), 30);
    assert_eq!(month_days(2023, 12), 31);
}

#[test]
fn truncation_drops_only_the_subsecond_part() {
    let t = ts(2019, 10, 6, 17, 32, 59, 123_456_789);
    let u = t.truncate_subsec();
    assert_eq!(u, ts(2019, 10, 6, 17, 32, 59, 0));
}

#[test]
fn interchange_text_is_fixed_width() {
    let t = ts(2019, 1, 1, 0, 0, 0, 0);
    assert_eq!(rfc3339_string(&t), "2019-01-01T00:00:00+00:00");
    let u = ts(2019, 10, 6, 17, 32, 59, 0);
    assert_eq!(rfc3339_string(&u), "2019-10-06T17:32:59+00:00");
}

#[test]
fn parse_round_trips_what_the_store_writes() {
    let t = ts(2019, 10, 6, 17, 32, 59, 0);
    let text = rfc3339_string(&t);
    assert_eq!(parse_rfc3339(&text), Some(t));
}

#[test]
fn parse_accepts_the_z_spelling() {
    assert_eq!(
        parse_rfc3339("2019-10-06T17:32:59Z"),
        Some(ts(2019, 10, 6, 17, 32, 59, 0))
    );
}

#[test]
fn parse_rejects_other_texts() {
    assert_eq!(parse_rfc3339(""), None);
    assert_eq!(parse_rfc3339("2019-10-06"), None);
    assert_eq!(parse_rfc3339("2019-10-06 17:32:59+00:00"), None);
    assert_eq!(parse_rfc3339("2019-13-06T17:32:59+00:00"), None);
    assert_eq!(parse_rfc3339("2019-02-29T17:32:59+00:00"), None);
    assert_eq!(parse_rfc3339("2019-10-06T17:32:59+02:00"), None);
    assert_eq!(parse_rfc3339("2019-10-06T17:32:5x+00:00"), None);
    assert_eq!(parse_rfc3339("2019-10-06T24:00:00+00:00"), None);
}
