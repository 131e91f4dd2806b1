//! Coordination core for a fleet of sensor hives over a durable message bus.
//!
//! An [`apiary::Apiary`] owns the registry of hives and decides how each
//! delivery on the creation, sensor-data and delete queues changes that
//! registry and whether the delivery is acknowledged or rejected
//! ([`consumer`]); boot-time backlog recovery replays queued hive
//! definitions through the same idempotent creation path ([`recovery`]).
//! Each [`hive::Hive`] owns one hive's sensor list and frames the
//! periodic sensor readings for publication.  The wire format of every
//! queue payload is defined, parsed and printed in [`codec`], with a
//! proved round trip for published readings.  Bus I/O itself
//! (connecting, consuming, publishing) is left to the embedding program:
//! this crate supplies the verified decisions and the payloads they rest
//! on.

pub mod apiary;
pub mod codec;
pub mod config;
pub mod consumer;
pub mod hive;
pub mod messages;
pub mod recovery;
pub mod types;
