//! Shared data types: sensors and sensor readings.

use vstd::prelude::*;

verus! {

/// One sensor definition, as carried on the sensor-data queue.
#[derive(Debug)]
pub struct Sensor {
    pub sensor_id: i32,
    pub hive_id: i32,
    pub sensor_type: String,
    pub last_reading: String,
    pub last_reading_time: Option<String>,
}

/// Mathematical model of a [`Sensor`].
pub struct SensorV {
    pub sensor_id: int,
    pub hive_id: int,
    pub sensor_type: Seq<char>,
    pub last_reading: Seq<char>,
    pub last_reading_time: Option<Seq<char>>,
}

impl View for Sensor {
    type V = SensorV;

    open spec fn view(&self) -> SensorV {
        SensorV {
            sensor_id: self.sensor_id as int,
            hive_id: self.hive_id as int,
            sensor_type: self.sensor_type@,
            last_reading: self.last_reading@,
            last_reading_time: match self.last_reading_time {
                Option::Some(ref t) => Option::Some(t@),
                Option::None => Option::None,
            },
        }
    }
}

/// One timestamped value sampled from a sensor, as published on the
/// reading queue.
#[derive(Debug)]
pub struct SensorReading {
    pub reading_id: Option<i32>,
    pub sensor_id: i32,
    pub value: String,
    pub timestamp: Option<String>,
}

/// Mathematical model of a [`SensorReading`].
pub struct ReadingV {
    pub reading_id: Option<int>,
    pub sensor_id: int,
    pub value: Seq<char>,
    pub timestamp: Option<Seq<char>>,
}

impl View for SensorReading {
    type V = ReadingV;

    open spec fn view(&self) -> ReadingV {
        ReadingV {
            reading_id: match self.reading_id {
                Option::Some(id) => Option::Some(id as int),
                Option::None => Option::None,
            },
            sensor_id: self.sensor_id as int,
            value: self.value@,
            timestamp: match self.timestamp {
                Option::Some(ref t) => Option::Some(t@),
                Option::None => Option::None,
            },
        }
    }
}

} // verus!
