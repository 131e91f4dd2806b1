use apiary::apiary::Apiary;
use apiary::hive::Hive;
use apiary::messages::{CreateHive, DeleteError, DeleteSensor};
use apiary::types::Sensor;

fn sensor(sensor_id: i32, hive_id: i32, ty: &str) -> Sensor {
    Sensor {
        sensor_id,
        hive_id,
        sensor_type: ty.to_string(),
        last_reading: String::new(),
        last_reading_time: None,
    }
}

fn apiary() -> Apiary {
    Apiary::new("amqp://localhost:5672".to_string())
}

#[test]
fn create_hive_registers_sensors() {
    let mut a = apiary();
    let r = a.create_hive(CreateHive { hive_id: 1, sensors: vec![sensor(10, 1, "temp")] });
    assert!(r.is_ok());
    assert_eq!(a.hives.len(), 1);
    assert_eq!(a.hives[0].hive_id, 1);
    assert_eq!(a.hives[0].sensors, vec![10]);
}

#[test]
fn create_hive_twice_is_idempotent() {
    let mut a = apiary();
    let r1 = a.create_hive(CreateHive { hive_id: 1, sensors: vec![sensor(10, 1, "temp")] });
    assert!(r1.is_ok());
    // the second call reports success and the sensor list is neither
    // merged nor replaced
    let r2 = a.create_hive(
        CreateHive { hive_id: 1, sensors: vec![sensor(20, 1, "humidity"), sensor(30, 1, "co2")] },
    );
    assert!(r2.is_ok());
    assert_eq!(a.hives.len(), 1);
    assert_eq!(a.hives[0].sensors, vec![10]);
}

#[test]
fn delete_sensor_empties_hive() {
    let mut a = apiary();
    a.create_hive(CreateHive { hive_id: 1, sensors: vec![sensor(10, 1, "temp")] }).unwrap();
    let r = a.delete_sensor(DeleteSensor { hive_id: 1, sensor_id: 10 });
    assert_eq!(r, Ok(()));
    assert_eq!(a.hives[0].sensors.len(), 0);
}

#[test]
fn delete_sensor_unknown_hive_reports_not_found() {
    let mut a = apiary();
    a.create_hive(CreateHive { hive_id: 1, sensors: vec![sensor(10, 1, "temp")] }).unwrap();
    let r = a.delete_sensor(DeleteSensor { hive_id: 2, sensor_id: 10 });
    assert_eq!(r, Err(DeleteError::HiveNotFound));
    assert_eq!(a.hives[0].sensors, vec![10]);
}

#[test]
fn delete_sensor_is_idempotent_when_absent() {
    let mut a = apiary();
    a.create_hive(CreateHive { hive_id: 1, sensors: vec![sensor(10, 1, "temp")] }).unwrap();
    let r = a.delete_sensor(DeleteSensor { hive_id: 1, sensor_id: 99 });
    assert_eq!(r, Ok(()));
    assert_eq!(a.hives[0].sensors, vec![10]);
}

#[test]
fn delete_never_touches_other_hives() {
    let mut a = apiary();
    a.create_hive(CreateHive { hive_id: 5, sensors: vec![sensor(1, 5, "temp"), sensor(2, 5, "rh")] })
        .unwrap();
    a.create_hive(CreateHive { hive_id: 7, sensors: vec![sensor(1, 7, "temp")] }).unwrap();
    a.delete_sensor(DeleteSensor { hive_id: 5, sensor_id: 1 }).unwrap();
    assert_eq!(a.hives[0].sensors, vec![2]);
    assert_eq!(a.hives[1].hive_id, 7);
    assert_eq!(a.hives[1].sensors, vec![1]);
}

#[test]
fn worker_rejects_foreign_hive_id_distinctly() {
    let mut h = Hive { hive_id: 5, sensors: vec![1, 2], rabbitmq_url: "amqp://x".to_string() };
    let r = h.delete_sensor(DeleteSensor { hive_id: 7, sensor_id: 1 });
    assert_eq!(r, Err(DeleteError::HiveMismatch));
    assert_eq!(h.sensors, vec![1, 2]);
}

#[test]
fn worker_delete_removes_every_occurrence() {
    let mut h = Hive { hive_id: 5, sensors: vec![1, 2, 1, 3], rabbitmq_url: "amqp://x".to_string() };
    let r = h.delete_sensor(DeleteSensor { hive_id: 5, sensor_id: 1 });
    assert_eq!(r, Ok(()));
    assert_eq!(h.sensors, vec![2, 3]);
}

#[test]
fn recovered_hives_are_registered_before_live_traffic() {
    let mut a = apiary();
    let recovered = vec![
        CreateHive { hive_id: 3, sensors: vec![sensor(1, 3, "temp")] },
        CreateHive { hive_id: 4, sensors: vec![sensor(2, 4, "rh")] },
    ];
    a.apply_recovered(recovered).unwrap();
    assert_eq!(a.hives.len(), 2);
    // a live delete for one recovered hive finds it registered
    let r = a.delete_sensor(DeleteSensor { hive_id: 4, sensor_id: 2 });
    assert_eq!(r, Ok(()));
}

#[test]
fn new_sensor_data_is_accepted() {
    let a = apiary();
    let msg = apiary::messages::NewSensorData { sensor: sensor(1, 1, "temp") };
    assert_eq!(a.new_sensor_data(&msg), Ok(()));
}
