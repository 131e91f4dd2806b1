use apiary::apiary::Apiary;
use apiary::codec::decode_reading;
use apiary::config::{config_create_hive, ApiaryConfig, HiveConfig, LogLevel, SensorConfig};
use apiary::consumer::{QueueAction, QueueKind};
use apiary::hive::Hive;
use apiary::messages::SensorReadingData;
use apiary::types::{Sensor, SensorReading};
use base64::Engine;

fn apiary() -> Apiary {
    Apiary::new("amqp://localhost:5672".to_string())
}

fn creation_payload(hive_id: i32, sensor_id: i32) -> Vec<u8> {
    format!(
        "{{\"hive_id\":{},\"sensors\":[{{\"sensor_id\":{},\"hive_id\":{},\"sensor_type\":\"temp\",\"last_reading\":\"\",\"last_reading_time\":null}}]}}",
        hive_id, sensor_id, hive_id
    )
    .into_bytes()
}

#[test]
fn malformed_creation_does_not_block_later_deliveries() {
    let mut a = apiary();
    let act = a.process_delivery(QueueKind::HiveCreation, &b"{broken".to_vec());
    assert_eq!(act, QueueAction::NackDiscard);
    assert_eq!(a.hives.len(), 0);
    let act2 = a.process_delivery(QueueKind::HiveCreation, &creation_payload(1, 10));
    assert_eq!(act2, QueueAction::Ack);
    assert_eq!(a.hives.len(), 1);
    assert_eq!(a.hives[0].sensors, vec![10]);
}

#[test]
fn malformed_delete_does_not_block_later_deliveries() {
    let mut a = apiary();
    a.process_delivery(QueueKind::HiveCreation, &creation_payload(1, 10));
    let act = a.process_delivery(QueueKind::SensorDelete, &b"garbage".to_vec());
    assert_eq!(act, QueueAction::NackDiscard);
    assert_eq!(a.hives[0].sensors, vec![10]);
    let act2 = a.process_delivery(
        QueueKind::SensorDelete,
        &b"{\"hive_id\":1,\"sensor_id\":10}".to_vec(),
    );
    assert_eq!(act2, QueueAction::Ack);
    assert_eq!(a.hives[0].sensors.len(), 0);
}

#[test]
fn malformed_sensor_data_is_discarded_and_acked_when_valid() {
    let mut a = apiary();
    let act = a.process_delivery(QueueKind::SensorData, &b"oops".to_vec());
    assert_eq!(act, QueueAction::NackDiscard);
    let act2 = a.process_delivery(
        QueueKind::SensorData,
        &b"{\"sensor_id\":10,\"hive_id\":1,\"sensor_type\":\"temp\",\"last_reading\":\"\",\"last_reading_time\":null}".to_vec(),
    );
    assert_eq!(act2, QueueAction::Ack);
}

#[test]
fn delete_for_unknown_hive_is_still_acked() {
    let mut a = apiary();
    let act = a.process_delivery(
        QueueKind::SensorDelete,
        &b"{\"hive_id\":9,\"sensor_id\":1}".to_vec(),
    );
    assert_eq!(act, QueueAction::Ack);
}

#[test]
fn recovery_acks_good_and_requeues_bad_messages() {
    let (m, act) = Apiary::recover_delivery(&creation_payload(3, 7));
    assert_eq!(act, QueueAction::Ack);
    assert_eq!(m.unwrap().hive_id, 3);
    let (m2, act2) = Apiary::recover_delivery(&b"{bad".to_vec());
    assert_eq!(act2, QueueAction::NackRequeue);
    assert!(m2.is_none());
}

#[test]
fn one_tick_publishes_one_reading_per_sensor() {
    let h = Hive { hive_id: 1, sensors: vec![10], rabbitmq_url: "amqp://x".to_string() };
    let out = h.tick();
    assert_eq!(out.len(), 1);
    let p = &out[0];
    assert!(p.persistent);
    assert!(p.mandatory);
    assert_eq!(p.queue, "sensor_reading_queue");
    let r = decode_reading(&p.payload).expect("published reading must decode");
    assert_eq!(r.sensor_id, 10);
    assert_eq!(r.reading_id, None);
    // the timestamp is a parseable RFC 3339 instant
    let ts = r.timestamp.expect("timestamp is set");
    assert!(chrono::DateTime::parse_from_rfc3339(&ts).is_ok());
    // the value is base64 for thirteen bytes in the schema's ranges
    let bytes = base64::engine::general_purpose::STANDARD
        .decode(r.value.as_bytes())
        .expect("value is base64");
    assert_eq!(bytes.len(), 13);
    assert!((10..80).contains(&bytes[0]));
    assert!(bytes[1] < 255);
    assert!(bytes[2..].iter().all(|b| *b < 100));
}

#[test]
fn tick_covers_every_sensor_in_order() {
    let h = Hive { hive_id: 1, sensors: vec![4, 5, 6], rabbitmq_url: "amqp://x".to_string() };
    let out = h.tick();
    assert_eq!(out.len(), 3);
    let ids: Vec<i32> = out
        .iter()
        .map(|p| decode_reading(&p.payload).unwrap().sensor_id)
        .collect();
    assert_eq!(ids, vec![4, 5, 6]);
}

#[test]
fn receive_reading_frames_the_given_reading() {
    let h = Hive { hive_id: 1, sensors: vec![10], rabbitmq_url: "amqp://x".to_string() };
    let reading = SensorReading {
        reading_id: Some(5),
        sensor_id: 10,
        value: "dGVzdA==".to_string(),
        timestamp: Some("2024-01-01T00:00:00+00:00".to_string()),
    };
    let p = h.receive_reading(SensorReadingData { reading });
    assert!(p.persistent);
    assert!(!p.mandatory);
    assert_eq!(p.queue, "sensor_reading_queue");
    let r = decode_reading(&p.payload).unwrap();
    assert_eq!(r.reading_id, Some(5));
    assert_eq!(r.value, "dGVzdA==");
}

fn config_with_level(level: &str) -> ApiaryConfig {
    ApiaryConfig {
        rabbitmq_url: "amqp://localhost".to_string(),
        log_level: level.to_string(),
        hives: Vec::new(),
    }
}

#[test]
fn log_level_is_matched_ignoring_case() {
    assert_eq!(config_with_level("TRACE").get_log_level(), LogLevel::Trace);
    assert_eq!(config_with_level("Debug").get_log_level(), LogLevel::Debug);
    assert_eq!(config_with_level("info").get_log_level(), LogLevel::Info);
    assert_eq!(config_with_level("wArN").get_log_level(), LogLevel::Warn);
    assert_eq!(config_with_level("error").get_log_level(), LogLevel::Error);
}

#[test]
fn unknown_log_level_means_info() {
    assert_eq!(config_with_level("verbose").get_log_level(), LogLevel::Info);
    assert_eq!(config_with_level("").get_log_level(), LogLevel::Info);
}

#[test]
fn configured_hives_become_creation_commands() {
    let cfg = HiveConfig {
        id: 3,
        sensors: vec![SensorConfig { sensor_id: 9, sensor_type: "humidity".to_string() }],
    };
    let m = config_create_hive(&cfg);
    assert_eq!(m.hive_id, 3);
    assert_eq!(m.sensors.len(), 1);
    let s: &Sensor = &m.sensors[0];
    assert_eq!(s.sensor_id, 9);
    assert_eq!(s.hive_id, 3);
    assert_eq!(s.sensor_type, "humidity");
    assert_eq!(s.last_reading, "");
    assert_eq!(s.last_reading_time, None);
}

#[test]
fn queue_names_match_the_broker_layout() {
    assert_eq!(apiary::apiary::hive_queue_name(), "hive_queue");
    assert_eq!(apiary::apiary::sensor_queue_name(), "sensor_queue");
    assert_eq!(apiary::apiary::sensor_delete_queue_name(), "sensor_delete_queue");
    assert_eq!(apiary::apiary::sensor_reading_queue_name(), "sensor_reading_queue");
}
