use temperature_app::store::{
    bucket_key, doc_id, doc_path, insert_body, search_body, Database, DatabaseError,
};
use temperature_app::temperature::Celsius;
use temperature_app::time::UtcTime;

fn ts(year: u16, month: u8, day: u8, hour: u8, minute: u8, second: u8, nanos: u32) -> UtcTime {
    UtcTime::new(year, month, day, hour, minute, second, nanos).unwrap()
}

fn database() -> Database {
    Database::new("http://localhost:9200".to_string())
}

#[test]
fn bucket_is_the_calendar_day() {
    assert_eq!(bucket_key(&ts(2019, 10, 6, 17, 32, 59, 0)), "20191006");
    assert_eq!(bucket_key(&ts(2019, 1, 1, 0, 0, 0, 0)), "20190101");
}

#[test]
fn identity_is_stamp_and_address() {
    assert_eq!(
        doc_id(&ts(2019, 10, 6, 17, 32, 59, 0), "f4d55889b1d6"),
        "20191006T173259-f4d55889b1d6"
    );
}

#[test]
fn path_joins_bucket_and_identity() {
    assert_eq!(
        doc_path(&ts(2019, 10, 6, 17, 32, 59, 0), "f4d55889b1d6"),
        "20191006/_doc/20191006T173259-f4d55889b1d6"
    );
}

#[test]
fn document_body_is_exact() {
    let body = insert_body("f4d55889b1d6", &ts(2019, 10, 6, 17, 32, 59, 0), Celsius(27_000));
    assert_eq!(
        body,
        "{\"address\":\"f4d55889b1d6\",\"date\":\"2019-10-06T17:32:59+00:00\",\"temp_c\":27.000}"
    );
}

#[test]
fn document_body_writes_negative_temperatures() {
    let body = insert_body("a", &ts(2019, 1, 1, 0, 0, 0, 0), Celsius(-1_500));
    assert_eq!(
        body,
        "{\"address\":\"a\",\"date\":\"2019-01-01T00:00:00+00:00\",\"temp_c\":-1.500}"
    );
}

#[test]
fn addresses_are_escaped_in_bodies() {
    let body = insert_body("a\"b\\c", &ts(2019, 1, 1, 0, 0, 0, 0), Celsius(0));
    assert_eq!(
        body,
        "{\"address\":\"a\\\"b\\\\c\",\"date\":\"2019-01-01T00:00:00+00:00\",\"temp_c\":0.000}"
    );
    // The body must stay valid JSON that decodes to the same address.
    let v: serde_json::Value = serde_json::from_str(&body).unwrap();
    assert_eq!(v.get("address").unwrap().as_str().unwrap(), "a\"b\\c");
}

#[test]
fn search_body_is_exact() {
    assert_eq!(
        search_body("f4d55889b1d6", 10),
        "{\"size\":10,\"sort\":{\"date\":\"desc\"},\"query\":{\"bool\":{\"filter\":{\"term\":{\"address\":\"f4d55889b1d6\"}}}}}"
    );
    // And it is valid JSON with the pieces in place.
    let v: serde_json::Value = serde_json::from_str(&search_body("x", 3)).unwrap();
    assert_eq!(v.get("size").unwrap().as_u64().unwrap(), 3);
    assert_eq!(
        v.get("query").unwrap().get("bool").unwrap().get("filter").unwrap().get("term").unwrap()
            .get("address").unwrap().as_str().unwrap(),
        "x"
    );
}

#[test]
fn write_truncates_subseconds_to_one_identity() {
    let db = database();
    let t1 = ts(2019, 10, 6, 17, 32, 59, 1);
    let t2 = ts(2019, 10, 6, 17, 32, 59, 999_999_999);
    let w1 = db.insert_request("abc", t1, Celsius(20_000)).ok().unwrap();
    let w2 = db.insert_request("abc", t2, Celsius(21_000)).ok().unwrap();
    assert_eq!(w1.path, w2.path);
}

#[test]
fn same_second_writes_share_an_identity_with_the_second_value() {
    let db = database();
    let t = ts(2019, 10, 6, 17, 32, 59, 0);
    let w1 = db.insert_request("abc", t, Celsius(20_000)).ok().unwrap();
    let w2 = db.insert_request("abc", t, Celsius(21_000)).ok().unwrap();
    assert_eq!(w1.path, w2.path);
    assert!(w2.body.contains("21.000"));
}

#[test]
fn different_days_use_different_buckets() {
    let t1 = ts(2019, 10, 6, 23, 59, 59, 0);
    let t2 = ts(2019, 10, 7, 0, 0, 0, 0);
    assert_ne!(bucket_key(&t1), bucket_key(&t2));
    let db = database();
    let w1 = db.insert_request("abc", t1, Celsius(1_000)).ok().unwrap();
    let w2 = db.insert_request("abc", t2, Celsius(1_000)).ok().unwrap();
    assert!(w1.path.starts_with("20191006/"));
    assert!(w2.path.starts_with("20191007/"));
}

#[test]
fn insert_request_resolves_against_the_base() {
    let db = database();
    let w = db.insert_request("abc", ts(2019, 10, 6, 17, 32, 59, 0), Celsius(27_000)).ok().unwrap();
    assert_eq!(w.url, "http://localhost:9200/20191006/_doc/20191006T173259-abc");
}

#[test]
fn search_request_targets_all_buckets() {
    let db = database();
    let q = db.search_request("abc", 7).ok().unwrap();
    assert_eq!(q.url, "http://localhost:9200/*/_search");
    assert_eq!(q.body, search_body("abc", 7));
}

#[test]
fn error_messages() {
    assert_eq!(DatabaseError::InvalidDestination.message(), "Invalid destination");
    assert_eq!(
        DatabaseError::RequestFailed.message(),
        "The request to the database failed"
    );
    assert_eq!(
        DatabaseError::InvalidResponse.message(),
        "The database returned an invalid response"
    );
    assert_eq!(
        DatabaseError::UnexpectedResponse.message(),
        "The database returned unexpected results"
    );
}

#[test]
fn unjoinable_base_is_an_invalid_destination() {
    // A cannot-be-a-base URL accepts no path, so no target location can be
    // constructed from it.
    let db = Database::new("mailto:sensors@example.com".to_string());
    let t = ts(2019, 10, 6, 17, 32, 59, 0);
    assert_eq!(
        db.insert_request("abc", t, Celsius(1_000)).err().unwrap(),
        DatabaseError::InvalidDestination
    );
    assert_eq!(
        db.search_request("abc", 1).err().unwrap(),
        DatabaseError::InvalidDestination
    );
}

#[test]
fn unparseable_base_is_an_invalid_destination() {
    let db = Database::new("not a url".to_string());
    let t = ts(2019, 10, 6, 17, 32, 59, 0);
    assert_eq!(
        db.insert_request("abc", t, Celsius(1_000)).err().unwrap(),
        DatabaseError::InvalidDestination
    );
    assert_eq!(
        db.search_request("abc", 1).err().unwrap(),
        DatabaseError::InvalidDestination
    );
}
