use temperature_app::device::{
    clamp_count, current_measurement_from_results, effective_reading, measurements_from_results,
    record_response, resolve_device, Device, DeviceRef,
};
use temperature_app::read::{parse_search_response, MeasurementResult};
use temperature_app::temperature::Celsius;
use temperature_app::time::UtcTime;

fn table() -> Vec<Device> {
    vec![
        Device {
            address: "f4d55889b1d6".to_string(),
            name: Some("Living room".to_string()),
            description: Some("On the shelf".to_string()),
            adjustment: Celsius(1_500),
        },
        Device {
            address: "d0f7083ca3b1".to_string(),
            name: None,
            description: None,
            adjustment: Celsius(0),
        },
    ]
}

fn ts(minute: u8) -> UtcTime {
    UtcTime::new(2019, 10, 6, 17, minute, 0, 0).unwrap()
}

#[test]
fn known_address_resolves_to_the_table_entry() {
    let devices = table();
    let d = resolve_device(&devices, "f4d55889b1d6".to_string());
    assert_eq!(d.address(), "f4d55889b1d6");
    assert_eq!(d.name(), Some("Living room".to_string()));
    assert_eq!(d.description(), Some("On the shelf".to_string()));
    assert_eq!(d.adjustment(), Celsius(1_500));
    assert!(matches!(d, DeviceRef::Known(_)));
}

#[test]
fn unknown_address_keeps_the_address_and_has_zero_adjustment() {
    let devices = table();
    let d = resolve_device(&devices, "000000000000".to_string());
    assert!(matches!(d, DeviceRef::Unknown(_)));
    assert_eq!(d.address(), "000000000000");
    assert_eq!(d.name(), None);
    assert_eq!(d.description(), None);
    assert_eq!(d.adjustment(), Celsius(0));
}

#[test]
fn adjustment_is_applied_at_read_time() {
    let devices = table();
    let known = resolve_device(&devices, "f4d55889b1d6".to_string());
    let raw = Celsius(20_000);
    assert_eq!(effective_reading(raw, &known), Celsius(21_500));
}

#[test]
fn adjustment_transparency_on_a_concrete_reading() {
    let devices = table();
    let adjusted = resolve_device(&devices, "f4d55889b1d6".to_string());
    let neutral = resolve_device(&devices, "d0f7083ca3b1".to_string());
    let raw = Celsius(20_000);
    let diff = effective_reading(raw, &adjusted).value() - effective_reading(raw, &neutral).value();
    assert_eq!(diff, adjusted.adjustment().value());
}

#[test]
fn count_clamp_boundaries() {
    assert_eq!(clamp_count(None), 10);
    assert_eq!(clamp_count(Some(0)), 0);
    assert_eq!(clamp_count(Some(50)), 50);
    assert_eq!(clamp_count(Some(100)), 100);
    assert_eq!(clamp_count(Some(1000)), 100);
    assert_eq!(clamp_count(Some(-3)), 0);
}

#[test]
fn only_complete_records_become_measurements() {
    let device = DeviceRef::Unknown("abc".to_string());
    let results = vec![
        MeasurementResult { address: None, date: Some(ts(1)), temperature: None },
        MeasurementResult {
            address: Some("abc".to_string()),
            date: Some(ts(2)),
            temperature: Some(Celsius(21_000)),
        },
        MeasurementResult { address: None, date: None, temperature: Some(Celsius(22_000)) },
    ];
    let ms = measurements_from_results(&device, &results);
    assert_eq!(ms.len(), 1);
    assert_eq!(ms[0].date(), ts(2));
    assert_eq!(ms[0].temp_raw_c(), Celsius(21_000));
}

#[test]
fn measurements_keep_their_order_and_device() {
    let devices = table();
    let device = resolve_device(&devices, "f4d55889b1d6".to_string());
    let results = vec![
        MeasurementResult { address: None, date: Some(ts(1)), temperature: Some(Celsius(20_000)) },
        MeasurementResult { address: None, date: Some(ts(2)), temperature: Some(Celsius(20_500)) },
        MeasurementResult { address: None, date: Some(ts(3)), temperature: Some(Celsius(21_000)) },
    ];
    let ms = measurements_from_results(&device, &results);
    assert_eq!(ms.len(), 3);
    assert_eq!(ms[0].date(), ts(1));
    assert_eq!(ms[1].date(), ts(2));
    assert_eq!(ms[2].date(), ts(3));
    // Adjusted and raw values differ by the device's calibration offset.
    assert_eq!(ms[0].temp_c(), Celsius(21_500));
    assert_eq!(ms[0].temp_raw_c(), Celsius(20_000));
    assert_eq!(ms[0].temp_f().value(), 70_700);
}

#[test]
fn current_measurement_is_the_first_complete_record() {
    let device = DeviceRef::Unknown("abc".to_string());
    let results = vec![
        MeasurementResult { address: None, date: Some(ts(1)), temperature: None },
        MeasurementResult { address: None, date: Some(ts(2)), temperature: Some(Celsius(19_000)) },
    ];
    let m = current_measurement_from_results(&device, &results).unwrap();
    assert_eq!(m.date(), ts(2));
    assert_eq!(m.temp_raw_c(), Celsius(19_000));
    assert!(current_measurement_from_results(&device, &Vec::new()).is_none());
}

#[test]
fn recording_for_an_unknown_device_succeeds() {
    let devices = table();
    let stamp = UtcTime::new(2019, 10, 6, 17, 32, 59, 123_456_789).unwrap();
    let m = record_response(&devices, "000000000000".to_string(), stamp, Celsius(18_000));
    assert!(matches!(m.device, DeviceRef::Unknown(_)));
    assert_eq!(m.date(), UtcTime::new(2019, 10, 6, 17, 32, 59, 0).unwrap());
    assert_eq!(m.temp_raw_c(), Celsius(18_000));
    assert_eq!(m.temp_c(), Celsius(18_000));
}

#[test]
fn full_read_pipeline_orders_and_adjusts() {
    // The engine replies most recent first; the caller sees chronological,
    // adjusted measurements.
    let body = "{\"hits\":{\"hits\":[\
{\"_id\":\"b\",\"_index\":\"20191006\",\"_type\":\"_doc\",\"_source\":{\"address\":\"f4d55889b1d6\",\"date\":\"2019-10-06T17:33:00+00:00\",\"temp_c\":20.5}},\
{\"_id\":\"a\",\"_index\":\"20191006\",\"_type\":\"_doc\",\"_source\":{\"address\":\"f4d55889b1d6\",\"date\":\"2019-10-06T17:32:00+00:00\",\"temp_c\":20.0}}\
]}}";
    let results = parse_search_response(body).ok().unwrap();
    let devices = table();
    let device = resolve_device(&devices, "f4d55889b1d6".to_string());
    let ms = measurements_from_results(&device, &results);
    assert_eq!(ms.len(), 2);
    assert_eq!(ms[0].date(), UtcTime::new(2019, 10, 6, 17, 32, 0, 0).unwrap());
    assert_eq!(ms[1].date(), UtcTime::new(2019, 10, 6, 17, 33, 0, 0).unwrap());
    assert_eq!(ms[0].temp_c(), Celsius(21_500));
    assert_eq!(ms[1].temp_c(), Celsius(22_000));
}
