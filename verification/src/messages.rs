//! Commands understood by the coordinator and the hive workers.

use vstd::prelude::*;
use crate::types::{Sensor, SensorReading, SensorV};

verus! {

/// Register a new hive with its initial sensors.  Creation is idempotent:
/// a hive id that is already registered is left exactly as it is.
pub struct CreateHive {
    pub hive_id: i32,
    pub sensors: Vec<Sensor>,
}

impl CreateHive {
    /// The sensor ids of the creation request, in order.
    pub open spec fn sensor_ids(&self) -> Seq<int> {
        self.sensors@.map_values(|s: Sensor| s@.sensor_id)
    }

    /// The sensor models of the creation request, in order.
    pub open spec fn sensor_views(&self) -> Seq<SensorV> {
        self.sensors@.map_values(|s: Sensor| s@)
    }
}

/// A sensor observation arriving on the sensor-data queue.
pub struct NewSensorData {
    pub sensor: Sensor,
}

/// Ask a hive worker to publish one reading.
pub struct SensorReadingData {
    pub reading: SensorReading,
}

/// Remove one sensor from one hive.
#[derive(Debug, Clone, Copy, PartialEq, Eq, Structural)]
pub struct DeleteSensor {
    pub hive_id: i32,
    pub sensor_id: i32,
}

/// Why a delete request was refused.  The coordinator reports
/// `HiveNotFound` when the hive id is not registered; a worker reports
/// `HiveMismatch` when a request reaches it with another hive's id.
#[derive(Debug, Clone, Copy, PartialEq, Eq, Structural)]
pub enum DeleteError {
    HiveNotFound,
    HiveMismatch,
}

} // verus!
