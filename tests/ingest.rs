use hive_telemetry::device::{receive_readings, SensorReading, SensorReadings};
use hive_telemetry::shared::{AppData, DBDevice, Failure};

const TOKEN: u128 = 0x550e8400_e29b_41d4_a716_446655440000;

fn cache() -> AppData {
    let rows = vec![DBDevice {
        auth_token: "550e8400-e29b-41d4-a716-446655440000".to_string(),
        serial_number: "936da01f-9abd-4d9d-80c7-02af85c822a8".to_string(),
    }];
    AppData::new(&rows).unwrap()
}

fn batch(id: u8, timestamp: i64, values: Vec<(u8, f64)>) -> SensorReadings {
    SensorReadings {
        id,
        timestamp,
        values: values
            .into_iter()
            .map(|(class, v)| SensorReading { class, value_bits: v.to_bits() })
            .collect(),
    }
}

#[test]
fn valid_submission_writes_one_row() {
    let data = cache();
    let mut ing = receive_readings(&data, TOKEN, Some(vec![batch(1, 1000, vec![(0, 21.5)])])).unwrap();
    assert_eq!(ing.outcome(), None);
    let row = ing.next_row().unwrap();
    assert_eq!(row.serial_number, "936da01f-9abd-4d9d-80c7-02af85c822a8");
    assert_eq!(row.timestamp, 1000);
    assert_eq!(row.sensor_name, "TEMPERATURE");
    assert_eq!(f64::from_bits(row.value_bits), 21.5);
    ing.record_write(true);
    assert!(ing.next_row().is_none());
    assert_eq!(ing.outcome(), Some(Ok(())));
}

#[test]
fn unregistered_token_is_rejected_before_any_write() {
    let data = cache();
    let r = receive_readings(&data, 7, Some(vec![batch(1, 1000, vec![(0, 21.5)])]));
    assert_eq!(r.err(), Some(Failure::Authorization));
    // the token is checked before the body
    assert_eq!(receive_readings(&data, 7, None).err(), Some(Failure::Authorization));
}

#[test]
fn malformed_body_is_a_format_failure() {
    let data = cache();
    assert_eq!(receive_readings(&data, TOKEN, None).err(), Some(Failure::Format));
}

#[test]
fn first_failed_write_stops_the_submission() {
    let data = cache();
    let mut ing = receive_readings(
        &data,
        TOKEN,
        Some(vec![batch(1, 5, vec![(0x04, 40.0), (0x13, 1.0)]), batch(2, 6, vec![(0x08, 3.0)])]),
    )
    .unwrap();
    assert_eq!(ing.next_row().unwrap().sensor_name, "HUMIDITY");
    ing.record_write(true);
    assert_eq!(ing.next_row().unwrap().sensor_name, "WEIGHT_3");
    ing.record_write(false);
    assert!(ing.next_row().is_none());
    assert_eq!(ing.outcome(), Some(Err(Failure::Format)));
    // further results change nothing
    ing.record_write(true);
    assert!(ing.next_row().is_none());
    assert_eq!(ing.outcome(), Some(Err(Failure::Format)));
}

#[test]
fn rows_follow_input_order_with_batch_timestamps() {
    let data = cache();
    let mut ing = receive_readings(
        &data,
        TOKEN,
        Some(vec![batch(1, 10, vec![(0x01, 1.0), (0x0C, 2.0)]), batch(2, 20, vec![(0x0A, 3.0)])]),
    )
    .unwrap();
    let mut seen = Vec::new();
    while let Some(row) = ing.next_row() {
        seen.push((row.timestamp, row.sensor_name.clone(), f64::from_bits(row.value_bits)));
        ing.record_write(true);
    }
    assert_eq!(
        seen,
        vec![
            (10, "TEMPERATURE_1".to_string(), 1.0),
            (10, "CO2".to_string(), 2.0),
            (20, "SOUND_2".to_string(), 3.0),
        ]
    );
    assert_eq!(ing.outcome(), Some(Ok(())));
}

#[test]
fn empty_submission_succeeds_at_once() {
    let data = cache();
    let ing = receive_readings(&data, TOKEN, Some(Vec::new())).unwrap();
    assert!(ing.next_row().is_none());
    assert_eq!(ing.outcome(), Some(Ok(())));
    let ing = receive_readings(&data, TOKEN, Some(vec![batch(3, 0, vec![])])).unwrap();
    assert_eq!(ing.outcome(), Some(Ok(())));
}
