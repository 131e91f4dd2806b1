use apiary::codec::{decode_create_hive, decode_delete, decode_reading, decode_sensor, encode_reading};
use apiary::types::SensorReading;

fn reading(
    reading_id: Option<i32>,
    sensor_id: i32,
    value: &str,
    timestamp: Option<&str>,
) -> SensorReading {
    SensorReading {
        reading_id,
        sensor_id,
        value: value.to_string(),
        timestamp: timestamp.map(|t| t.to_string()),
    }
}

fn assert_round_trip(r: &SensorReading) {
    let payload = encode_reading(r);
    let d = decode_reading(&payload).expect("canonical payload must decode");
    assert_eq!(d.reading_id, r.reading_id);
    assert_eq!(d.sensor_id, r.sensor_id);
    assert_eq!(d.value, r.value);
    assert_eq!(d.timestamp, r.timestamp);
}

#[test]
fn reading_encodes_canonically() {
    let r = reading(None, 10, "abc", Some("2024-01-01T00:00:00+00:00"));
    let payload = encode_reading(&r);
    assert_eq!(
        String::from_utf8(payload).unwrap(),
        "{\"reading_id\":null,\"sensor_id\":10,\"value\":\"abc\",\"timestamp\":\"2024-01-01T00:00:00+00:00\"}"
    );
}

#[test]
fn reading_round_trip_preserves_fields() {
    assert_round_trip(&reading(None, 10, "abc", Some("2024-01-01T00:00:00+00:00")));
}

#[test]
fn reading_round_trip_with_ids_and_negatives() {
    assert_round_trip(&reading(Some(-42), -2147483648, "x", None));
    assert_round_trip(&reading(Some(2147483647), 2147483647, "", None));
    assert_round_trip(&reading(Some(0), 0, "0", Some("")));
}

#[test]
fn reading_round_trip_with_escapes_and_unicode() {
    assert_round_trip(&reading(Some(1), 2, "say \"hi\" \\ now", None));
    assert_round_trip(&reading(Some(1), 2, "line\nbreak\ttab\rret\u{8}\u{c}", None));
    assert_round_trip(&reading(Some(1), 2, "ctrl:\u{1}\u{1f}", Some("Ünïcødé ✓ 🐝")));
}

#[test]
fn encoded_reading_is_plain_json() {
    let r = reading(Some(7), 10, "a \"quoted\" value\n", Some("2024-06-01T12:00:00+00:00"));
    let payload = encode_reading(&r);
    let v: serde_json::Value = serde_json::from_slice(&payload).expect("valid JSON");
    assert_eq!(v["reading_id"].as_i64(), Some(7));
    assert_eq!(v["sensor_id"].as_i64(), Some(10));
    assert_eq!(v["value"].as_str(), Some("a \"quoted\" value\n"));
    assert_eq!(v["timestamp"].as_str(), Some("2024-06-01T12:00:00+00:00"));
}

#[test]
fn decode_sensor_accepts_the_schema() {
    let p = b"{\"sensor_id\":10,\"hive_id\":1,\"sensor_type\":\"temp\",\"last_reading\":\"\",\"last_reading_time\":null}".to_vec();
    let s = decode_sensor(&p).expect("well-formed sensor");
    assert_eq!(s.sensor_id, 10);
    assert_eq!(s.hive_id, 1);
    assert_eq!(s.sensor_type, "temp");
    assert_eq!(s.last_reading, "");
    assert_eq!(s.last_reading_time, None);
}

#[test]
fn decode_sensor_accepts_whitespace() {
    let p = b" { \"sensor_id\" : 10 , \"hive_id\" : 1 , \"sensor_type\" : \"t\" , \"last_reading\" : \"r\" , \"last_reading_time\" : \"now\" } ".to_vec();
    let s = decode_sensor(&p).expect("whitespace is allowed between tokens");
    assert_eq!(s.last_reading_time.as_deref(), Some("now"));
}

#[test]
fn decode_sensor_rejects_malformed() {
    assert!(decode_sensor(&b"not json".to_vec()).is_none());
    assert!(decode_sensor(&b"{\"sensor_id\":10}".to_vec()).is_none());
    assert!(decode_sensor(&Vec::new()).is_none());
    // invalid UTF-8 inside a string
    let mut p = b"{\"sensor_id\":1,\"hive_id\":1,\"sensor_type\":\"".to_vec();
    p.push(0xff);
    p.extend_from_slice(b"\",\"last_reading\":\"\",\"last_reading_time\":null}");
    assert!(decode_sensor(&p).is_none());
}

#[test]
fn decode_delete_accepts_and_rejects() {
    let d = decode_delete(&b"{\"hive_id\":1,\"sensor_id\":10}".to_vec()).expect("well-formed");
    assert_eq!(d.hive_id, 1);
    assert_eq!(d.sensor_id, 10);
    assert!(decode_delete(&b"{\"hive_id\":1}".to_vec()).is_none());
    assert!(decode_delete(&b"{\"hive_id\":1,\"sensor_id\":10} x".to_vec()).is_none());
    // an id outside 32 bits is refused
    assert!(decode_delete(&b"{\"hive_id\":123456789012345678,\"sensor_id\":1}".to_vec()).is_none());
    // more than eighteen digits is refused outright
    assert!(decode_delete(&b"{\"hive_id\":1234567890123456789,\"sensor_id\":1}".to_vec()).is_none());
}

#[test]
fn decode_create_hive_accepts_the_schema() {
    let p = b"{\"hive_id\":1,\"sensors\":[{\"sensor_id\":10,\"hive_id\":1,\"sensor_type\":\"temp\",\"last_reading\":\"\",\"last_reading_time\":null},{\"sensor_id\":11,\"hive_id\":1,\"sensor_type\":\"rh\",\"last_reading\":\"x\",\"last_reading_time\":\"t\"}]}".to_vec();
    let m = decode_create_hive(&p).expect("well-formed creation request");
    assert_eq!(m.hive_id, 1);
    assert_eq!(m.sensors.len(), 2);
    assert_eq!(m.sensors[0].sensor_id, 10);
    assert_eq!(m.sensors[1].sensor_type, "rh");
}

#[test]
fn decode_create_hive_accepts_empty_sensor_list() {
    let m = decode_create_hive(&b"{\"hive_id\":7,\"sensors\":[]}".to_vec()).expect("empty list");
    assert_eq!(m.hive_id, 7);
    assert_eq!(m.sensors.len(), 0);
}

#[test]
fn decode_create_hive_rejects_malformed() {
    assert!(decode_create_hive(&b"{\"hive_id\":7}".to_vec()).is_none());
    assert!(decode_create_hive(&b"{\"hive_id\":7,\"sensors\":[{}]}".to_vec()).is_none());
    assert!(decode_create_hive(&b"{\"hive_id\":7,\"sensors\":".to_vec()).is_none());
}

#[test]
fn decode_reading_handles_unicode_escapes() {
    let p = b"{\"reading_id\":null,\"sensor_id\":1,\"value\":\"\\u0041\\u000a\",\"timestamp\":null}".to_vec();
    let r = decode_reading(&p).expect("low escapes are accepted");
    assert_eq!(r.value, "A\n");
    // escapes at or above 0x80 are not part of the format
    let p2 = b"{\"reading_id\":null,\"sensor_id\":1,\"value\":\"\\u00ff\",\"timestamp\":null}".to_vec();
    assert!(decode_reading(&p2).is_none());
}

#[test]
fn decode_reading_rejects_raw_control_bytes() {
    let mut p = b"{\"reading_id\":null,\"sensor_id\":1,\"value\":\"a".to_vec();
    p.push(0x01);
    p.extend_from_slice(b"\",\"timestamp\":null}");
    assert!(decode_reading(&p).is_none());
}
