//! Static configuration: the bus address, the log level, and the hive
//! and sensor definitions applied at boot.  Reading and parsing the
//! configuration file is the embedding program's job; this module holds
//! the configured values and what they mean.

use vstd::prelude::*;
use crate::messages::CreateHive;
use crate::types::Sensor;

verus! {

/// The whole configuration file.
#[derive(Debug)]
pub struct Config {
    pub apiary: ApiaryConfig,
}

/// The apiary section: bus address, log level and static hives.
#[derive(Debug)]
pub struct ApiaryConfig {
    pub rabbitmq_url: String,
    pub log_level: String,
    pub hives: Vec<HiveConfig>,
}

/// One statically configured hive.
#[derive(Debug)]
pub struct HiveConfig {
    pub id: i32,
    pub sensors: Vec<SensorConfig>,
}

/// One statically configured sensor.
#[derive(Debug)]
pub struct SensorConfig {
    pub sensor_id: i32,
    pub sensor_type: String,
}

/// The log levels the configuration can name.
#[derive(Debug, Clone, Copy, PartialEq, Eq, Structural)]
pub enum LogLevel {
    Trace,
    Debug,
    Info,
    Warn,
    Error,
}

/// A character's code point after ASCII lowercasing.
pub open spec fn lower_u32(c: char) -> u32 {
    if 65 <= c as u32 <= 90 {
        (c as u32 + 32) as u32
    } else {
        c as u32
    }
}

/// Whether a string equals a lowercase keyword, ignoring ASCII case.
pub open spec fn lower_eq(s: Seq<char>, t: Seq<char>) -> bool {
    s.len() == t.len() && forall|i: int| 0 <= i < s.len() ==> lower_u32(s[i]) == #[trigger] (
    t[i] as u32)
}

/// The level a configured string names: the five keywords, ASCII
/// case-insensitively, and `Info` for anything else.
pub open spec fn spec_log_level(s: Seq<char>) -> LogLevel {
    if lower_eq(s, "trace"@) {
        LogLevel::Trace
    } else if lower_eq(s, "debug"@) {
        LogLevel::Debug
    } else if lower_eq(s, "info"@) {
        LogLevel::Info
    } else if lower_eq(s, "warn"@) {
        LogLevel::Warn
    } else if lower_eq(s, "error"@) {
        LogLevel::Error
    } else {
        LogLevel::Info
    }
}

/// Compares a string to a lowercase keyword, ignoring ASCII case.
fn eq_lower(s: &str, t: &str) -> (r: bool)
    ensures
        r == lower_eq(s@, t@),
{
    let n = s.unicode_len();
    if n != t.unicode_len() {
        return false;
    }
    let mut i: usize = 0;
    while i < n
        invariant
            n == s@.len(),
            n == t@.len(),
            i <= n,
            forall|k: int| 0 <= k < i ==> lower_u32(s@[k]) == #[trigger] (t@[k] as u32),
        decreases n - i,
    {
        let a = s.get_char(i);
        let b = t.get_char(i);
        let ua = a as u32;
        let la = if 65 <= ua && ua <= 90 {
            ua + 32
        } else {
            ua
        };
        if la != b as u32 {
            return false;
        }
        i = i + 1;
    }
    true
}

impl ApiaryConfig {
    /// Maps the configured log-level string to a level: the five level
    /// names are recognized ignoring ASCII case, anything else means
    /// `Info`.
    pub fn get_log_level(&self) -> (l: LogLevel)
        ensures
            l == spec_log_level(self.log_level@),
    {
        let s = self.log_level.as_str();
        if eq_lower(s, "trace") {
            LogLevel::Trace
        } else if eq_lower(s, "debug") {
            LogLevel::Debug
        } else if eq_lower(s, "info") {
            LogLevel::Info
        } else if eq_lower(s, "warn") {
            LogLevel::Warn
        } else if eq_lower(s, "error") {
            LogLevel::Error
        } else {
            LogLevel::Info
        }
    }
}

/// Builds the creation command for one configured hive: each configured
/// sensor becomes a sensor of that hive with an empty last reading and
/// no reading time.
pub fn config_create_hive(cfg: &HiveConfig) -> (m: CreateHive)
    ensures
        m.hive_id == cfg.id,
        m.sensors@.len() == cfg.sensors@.len(),
        forall|k: int|
            0 <= k < m.sensors@.len() ==> {
                let sv = #[trigger] m.sensors@[k]@;
                &&& sv.sensor_id == cfg.sensors@[k].sensor_id as int
                &&& sv.hive_id == cfg.id as int
                &&& sv.sensor_type == cfg.sensors@[k].sensor_type@
                &&& sv.last_reading.len() == 0
                &&& sv.last_reading_time is None
            },
{
    let mut sensors: Vec<Sensor> = Vec::new();
    let mut i: usize = 0;
    while i < cfg.sensors.len()
        invariant
            i <= cfg.sensors@.len(),
            sensors@.len() == i,
            forall|k: int|
                0 <= k < sensors@.len() ==> {
                    let sv = #[trigger] sensors@[k]@;
                    &&& sv.sensor_id == cfg.sensors@[k].sensor_id as int
                    &&& sv.hive_id == cfg.id as int
                    &&& sv.sensor_type == cfg.sensors@[k].sensor_type@
                    &&& sv.last_reading.len() == 0
                    &&& sv.last_reading_time is None
                },
        decreases cfg.sensors@.len() - i,
    {
        let st = clone_string(&cfg.sensors[i].sensor_type);
        sensors.push(
            Sensor {
                sensor_id: cfg.sensors[i].sensor_id,
                hive_id: cfg.id,
                sensor_type: st,
                last_reading: String::new(),
                last_reading_time: None,
            },
        );
        i = i + 1;
    }
    CreateHive { hive_id: cfg.id, sensors }
}

/// A copy of a string with the same characters.
fn clone_string(s: &String) -> (r: String)
    ensures
        r@ == s@,
{
    s.clone()
}

} // verus!
