use temperature_app::read::parse_search_response;
use temperature_app::store::DatabaseError;
use temperature_app::temperature::Celsius;
use temperature_app::time::UtcTime;

fn hit(id: &str, date: Option<&str>, temp: Option<&str>) -> String {
    let date_part = match date {
        Some(d) => format!(",\"date\":\"{}\"", d),
        None => String::new(),
    };
    let temp_part = match temp {
        Some(t) => format!(",\"temp_c\":{}", t),
        None => String::new(),
    };
    format!(
        "{{\"_id\":\"{}\",\"_index\":\"20191006\",\"_score\":1.0,\"_type\":\"_doc\",\"_source\":{{\"address\":\"abc\"{}{}}}}}",
        id, date_part, temp_part
    )
}

fn envelope(hits: &[String]) -> String {
    format!(
        "{{\"took\":3,\"timed_out\":false,\"hits\":{{\"total\":2,\"max_score\":null,\"hits\":[{}]}}}}",
        hits.join(",")
    )
}

#[test]
fn reply_is_reversed_into_chronological_order() {
    // The engine returns most recent first: t3, t2, t1.
    let body = envelope(&[
        hit("c", Some("2019-10-06T17:34:00+00:00"), Some("23.0")),
        hit("b", Some("2019-10-06T17:33:00+00:00"), Some("22.0")),
        hit("a", Some("2019-10-06T17:32:00+00:00"), Some("21.0")),
    ]);
    let ms = parse_search_response(&body).ok().unwrap();
    assert_eq!(ms.len(), 3);
    let t1 = UtcTime::new(2019, 10, 6, 17, 32, 0, 0).unwrap();
    let t2 = UtcTime::new(2019, 10, 6, 17, 33, 0, 0).unwrap();
    let t3 = UtcTime::new(2019, 10, 6, 17, 34, 0, 0).unwrap();
    assert_eq!(ms[0].date, Some(t1));
    assert_eq!(ms[1].date, Some(t2));
    assert_eq!(ms[2].date, Some(t3));
    assert_eq!(ms[0].temperature, Some(Celsius(21_000)));
    assert_eq!(ms[1].temperature, Some(Celsius(22_000)));
    assert_eq!(ms[2].temperature, Some(Celsius(23_000)));
    assert_eq!(ms[0].address.as_deref(), Some("abc"));
}

#[test]
fn record_missing_temperature_keeps_only_its_field_absent() {
    let body = envelope(&[
        hit("b", Some("2019-10-06T17:33:00+00:00"), Some("27.5")),
        hit("a", Some("2019-10-06T17:32:00+00:00"), None),
    ]);
    let ms = parse_search_response(&body).ok().unwrap();
    assert_eq!(ms.len(), 2);
    assert_eq!(ms[0].temperature, None);
    assert!(ms[0].date.is_some());
    assert_eq!(ms[1].temperature, Some(Celsius(27_500)));
}

#[test]
fn temperatures_come_back_as_exact_millidegrees() {
    let body = envelope(&[hit("a", Some("2019-10-06T17:32:00+00:00"), Some("-1.5"))]);
    let ms = parse_search_response(&body).ok().unwrap();
    assert_eq!(ms[0].temperature, Some(Celsius(-1_500)));
    let body = envelope(&[hit("a", None, Some("27"))]);
    let ms = parse_search_response(&body).ok().unwrap();
    assert_eq!(ms[0].temperature, Some(Celsius(27_000)));
    assert_eq!(ms[0].date, None);
}

#[test]
fn long_fractions_are_truncated_to_millidegrees() {
    let body = envelope(&[hit("a", None, Some("18.2348729"))]);
    let ms = parse_search_response(&body).ok().unwrap();
    assert_eq!(ms[0].temperature, Some(Celsius(18_234)));
    let body = envelope(&[hit("a", None, Some("-0.0019"))]);
    let ms = parse_search_response(&body).ok().unwrap();
    assert_eq!(ms[0].temperature, Some(Celsius(-1)));
}

#[test]
fn null_fields_count_as_absent() {
    let body = envelope(&[
        "{\"_id\":\"a\",\"_index\":\"i\",\"_score\":null,\"_type\":\"_doc\",\"_source\":{\"address\":null,\"date\":null,\"temp_c\":null}}".to_string(),
    ]);
    let ms = parse_search_response(&body).ok().unwrap();
    assert_eq!(ms.len(), 1);
    assert!(ms[0].address.is_none());
    assert!(ms[0].date.is_none());
    assert!(ms[0].temperature.is_none());
}

#[test]
fn invalid_json_is_an_invalid_response() {
    assert_eq!(
        parse_search_response("this is not json").err().unwrap(),
        DatabaseError::InvalidResponse
    );
}

#[test]
fn missing_envelope_is_an_invalid_response() {
    assert_eq!(
        parse_search_response("{}").err().unwrap(),
        DatabaseError::InvalidResponse
    );
    assert_eq!(
        parse_search_response("{\"hits\":{}}").err().unwrap(),
        DatabaseError::InvalidResponse
    );
}

#[test]
fn non_array_hits_are_unexpected() {
    assert_eq!(
        parse_search_response("{\"hits\":{\"hits\":5}}").err().unwrap(),
        DatabaseError::UnexpectedResponse
    );
}

#[test]
fn hit_without_required_fields_is_unexpected() {
    let body = envelope(&[
        "{\"_index\":\"i\",\"_type\":\"_doc\",\"_source\":{\"address\":\"abc\"}}".to_string(),
    ]);
    assert_eq!(
        parse_search_response(&body).err().unwrap(),
        DatabaseError::UnexpectedResponse
    );
}

#[test]
fn wrongly_typed_record_field_is_unexpected() {
    // temp_c as a string is not a number field.
    let body = envelope(&[
        "{\"_id\":\"a\",\"_index\":\"i\",\"_type\":\"_doc\",\"_source\":{\"temp_c\":\"27\"}}".to_string(),
    ]);
    assert_eq!(
        parse_search_response(&body).err().unwrap(),
        DatabaseError::UnexpectedResponse
    );
}

#[test]
fn malformed_date_text_is_unexpected() {
    let body = envelope(&[hit("a", Some("yesterday"), Some("1.0"))]);
    assert_eq!(
        parse_search_response(&body).err().unwrap(),
        DatabaseError::UnexpectedResponse
    );
}

#[test]
fn empty_reply_yields_no_measurements() {
    let body = envelope(&[]);
    let ms = parse_search_response(&body).ok().unwrap();
    assert_eq!(ms.len(), 0);
}
