//! A hive worker: owns one hive's sensor list, removes sensors on command
//! and synthesizes the periodic sensor readings.

use vstd::prelude::*;
use rand::Rng;
use base64::Engine;
use crate::codec::{encode_reading, lemma_reading_round_trip, reading_json, spec_decode_reading};
use crate::messages::{DeleteError, DeleteSensor, SensorReadingData};
use crate::types::{ReadingV, SensorReading};

verus! {

/// One hive: its identity, its sensor ids in order, and the bus address its
/// worker publishes through.
#[derive(Debug)]
pub struct Hive {
    pub hive_id: i32,
    pub sensors: Vec<i32>,
    pub rabbitmq_url: String,
}

/// A sequence of machine-word sensor ids as a mathematical sequence.
pub open spec fn ids_of(v: Seq<i32>) -> Seq<int> {
    v.map_values(|s: i32| s as int)
}

impl Hive {
    /// The hive's sensor ids as a mathematical sequence.
    pub open spec fn sensor_ids(&self) -> Seq<int> {
        ids_of(self.sensors@)
    }

    /// What remains of a sensor-id sequence after deleting one id: every
    /// occurrence of that id is removed, the order of the rest is kept.
    pub open spec fn spec_delete(ids: Seq<int>, sensor_id: int) -> Seq<int> {
        ids.filter(|s: int| s != sensor_id)
    }

    /// Removes a sensor from this hive.  A request carrying another hive's id
    /// is refused without touching the sensor list; deleting an id that is
    /// not present succeeds and changes nothing.
    pub fn delete_sensor(&mut self, msg: DeleteSensor) -> (r: Result<(), DeleteError>)
        ensures
            old(self).hive_id != msg.hive_id ==> {
                &&& r == Result::<(), DeleteError>::Err(DeleteError::HiveMismatch)
                &&& *final(self) == *old(self)
            },
            old(self).hive_id == msg.hive_id ==> {
                &&& r == Result::<(), DeleteError>::Ok(())
                &&& final(self).hive_id == old(self).hive_id
                &&& final(self).rabbitmq_url == old(self).rabbitmq_url
                &&& final(self).sensor_ids() == Self::spec_delete(
                    old(self).sensor_ids(),
                    msg.sensor_id as int,
                )
            },
    {
        if self.hive_id != msg.hive_id {
            return Err(DeleteError::HiveMismatch);
        }
        let mut kept: Vec<i32> = Vec::new();
        let mut i: usize = 0;
        while i < self.sensors.len()
            invariant
                i <= self.sensors@.len(),
                ids_of(kept@) == Self::spec_delete(
                    ids_of(self.sensors@.take(i as int)),
                    msg.sensor_id as int,
                ),
            decreases self.sensors@.len() - i,
        {
            let s = self.sensors[i];
            proof {
                reveal(Seq::filter);
                let prev = ids_of(self.sensors@.take(i as int));
                let cur = ids_of(self.sensors@.take(i + 1));
                assert(cur.drop_last() =~= prev);
                assert(cur.last() == s as int);
                if s != msg.sensor_id {
                    assert(ids_of(kept@.push(s)) =~= ids_of(kept@).push(s as int));
                }
            }
            if s != msg.sensor_id {
                kept.push(s);
            }
            i = i + 1;
        }
        proof {
            assert(self.sensors@.take(self.sensors@.len() as int) =~= self.sensors@);
        }
        self.sensors = kept;
        Ok(())
    }
}

/// What survives a deletion was in the list before.
proof fn lemma_delete_subset(ids: Seq<int>, sensor_id: int, x: int)
    requires
        Hive::spec_delete(ids, sensor_id).contains(x),
    ensures
        ids.contains(x),
    decreases ids.len(),
{
    reveal(Seq::filter);
    if ids.len() > 0 {
        let sub = ids.drop_last();
        if ids.last() != sensor_id && x == ids.last() {
            assert(ids[ids.len() - 1] == x);
        } else {
            assert(Hive::spec_delete(sub, sensor_id).contains(x));
            lemma_delete_subset(sub, sensor_id, x);
            let i = choose|i: int| 0 <= i < sub.len() && sub[i] == x;
            assert(ids[i] == x);
        }
    }
}

/// Law: a sensor list whose ids are pairwise distinct keeps that
/// property when a sensor is deleted.  Nothing grows a hive's list after
/// creation, so a hive created with distinct sensor ids keeps them
/// distinct for its whole life.
pub proof fn lemma_delete_keeps_distinct(ids: Seq<int>, sensor_id: int)
    requires
        forall|i: int, j: int| 0 <= i < j < ids.len() ==> ids[i] != ids[j],
    ensures
        forall|i: int, j: int|
            0 <= i < j < Hive::spec_delete(ids, sensor_id).len() ==> Hive::spec_delete(
                ids,
                sensor_id,
            )[i] != Hive::spec_delete(ids, sensor_id)[j],
    decreases ids.len(),
{
    reveal(Seq::filter);
    if ids.len() > 0 {
        let sub = ids.drop_last();
        let fsub = Hive::spec_delete(sub, sensor_id);
        lemma_delete_keeps_distinct(sub, sensor_id);
        if ids.last() != sensor_id {
            let f = Hive::spec_delete(ids, sensor_id);
            assert(f == fsub.push(ids.last()));
            assert forall|i: int, j: int| 0 <= i < j < f.len() implies f[i] != f[j] by {
                if j < fsub.len() {
                    assert(fsub[i] != fsub[j]);
                } else {
                    assert(f[j] == ids.last());
                    if f[i] == ids.last() {
                        assert(fsub.contains(ids.last()));
                        lemma_delete_subset(sub, sensor_id, ids.last());
                        let t = choose|t: int| 0 <= t < sub.len() && sub[t] == ids.last();
                        assert(ids[t] == ids[ids.len() - 1]);
                        assert(false);
                    }
                }
            }
        } else {
            assert(Hive::spec_delete(ids, sensor_id) == fsub);
        }
    }
}

/// The fixed ranges of the thirteen pseudo-random bytes that make up one
/// mock sensor value.
pub open spec fn mock_bytes_ok(b: Seq<u8>) -> bool {
    &&& b.len() == 13
    &&& 10 <= b[0] < 80
    &&& b[1] < 255
    &&& forall|i: int| 2 <= i < 13 ==> b[i] < 100
}

/// The base64 encoding (standard alphabet, padded) of a byte sequence.
pub uninterp spec fn base64_chars(bytes: Seq<u8>) -> Seq<char>;

/// Relies on rand: `thread_rng().gen_range(lo..hi)` returns a value in
/// `lo..hi` and panics only when the range is empty.
#[verifier::external_body]
fn gen_range_u8(lo: u8, hi: u8) -> (r: u8)
    requires
        lo < hi,
    ensures
        lo <= r < hi,
{
    rand::thread_rng().gen_range(lo..hi)
}

/// Relies on base64's `STANDARD` engine: the encoding depends on the input
/// bytes alone and is four characters for every started group of three
/// bytes; the engine panics only when that length overflows `usize`.
#[verifier::external_body]
fn base64_encode(bytes: &Vec<u8>) -> (r: String)
    requires
        bytes@.len() <= 0x1000_0000,
    ensures
        r@ == base64_chars(bytes@),
        r@.len() == 4 * ((bytes@.len() + 2) / 3),
{
    base64::engine::general_purpose::STANDARD.encode(bytes.as_slice())
}

/// Relies on chrono: `Utc::now().to_rfc3339()`.  The result depends on the
/// clock, so nothing is promised of it.
#[verifier::external_body]
fn now_rfc3339() -> String {
    chrono::Utc::now().to_rfc3339()
}

impl Hive {
    /// Synthesizes one mock sensor value: thirteen pseudo-random bytes in
    /// the schema's fixed ranges, base64-encoded.
    fn generate_mock_value(&self) -> (v: String)
        ensures
            exists|b: Seq<u8>| mock_bytes_ok(b) && v@ == base64_chars(b),
    {
        let mut values: Vec<u8> = Vec::new();
        values.push(gen_range_u8(10, 80));
        values.push(gen_range_u8(0, 255));
        let mut i: usize = 0;
        while i < 11
            invariant
                i <= 11,
                values@.len() == 2 + i,
                10 <= values@[0] < 80,
                values@[1] < 255,
                forall|j: int| 2 <= j < values@.len() ==> values@[j] < 100,
            decreases 11 - i,
        {
            values.push(gen_range_u8(0, 100));
            i = i + 1;
        }
        let v = base64_encode(&values);
        proof {
            assert(mock_bytes_ok(values@));
        }
        v
    }
}

/// One reading framed for the bus: the payload, the queue it goes to,
/// and its delivery properties.
#[derive(Debug)]
pub struct ReadingPublish {
    pub queue: &'static str,
    pub payload: Vec<u8>,
    pub persistent: bool,
    pub mandatory: bool,
}

/// What a freshly synthesized reading looks like: no reading id yet, a
/// mock value in the fixed schema, and some timestamp.
pub open spec fn synthesized_reading(rv: ReadingV, sensor_id: int) -> bool {
    &&& rv.sensor_id == sensor_id
    &&& rv.reading_id is None
    &&& rv.timestamp is Some
    &&& exists|b: Seq<u8>| mock_bytes_ok(b) && rv.value == base64_chars(b)
}

impl Hive {
    /// One timer tick: for every owned sensor, in order, synthesize one
    /// reading with a fresh mock value and the current timestamp, framed
    /// for a persistent, confirmed publish to the reading queue.
    pub fn tick(&self) -> (out: Vec<ReadingPublish>)
        ensures
            out@.len() == self.sensors@.len(),
            forall|k: int|
                0 <= k < out@.len() ==> {
                    let p = #[trigger] out@[k];
                    &&& p.persistent
                    &&& p.mandatory
                    &&& p.queue@ == "sensor_reading_queue"@
                    &&& exists|rv: ReadingV|
                        p.payload@ == reading_json(rv) && spec_decode_reading(p.payload@)
                            == Option::Some(rv) && synthesized_reading(
                            rv,
                            self.sensors@[k] as int,
                        )
                },
    {
        let mut out: Vec<ReadingPublish> = Vec::new();
        let mut i: usize = 0;
        while i < self.sensors.len()
            invariant
                i <= self.sensors@.len(),
                out@.len() == i,
                forall|k: int|
                    0 <= k < out@.len() ==> {
                        let p = #[trigger] out@[k];
                        &&& p.persistent
                        &&& p.mandatory
                        &&& p.queue@ == "sensor_reading_queue"@
                        &&& exists|rv: ReadingV|
                            p.payload@ == reading_json(rv) && spec_decode_reading(p.payload@)
                                == Option::Some(rv) && synthesized_reading(
                                rv,
                                self.sensors@[k] as int,
                            )
                    },
            decreases self.sensors@.len() - i,
        {
            let reading = SensorReading {
                reading_id: None,
                sensor_id: self.sensors[i],
                value: self.generate_mock_value(),
                timestamp: Some(now_rfc3339()),
            };
            let payload = encode_reading(&reading);
            proof {
                lemma_reading_round_trip(reading@);
                assert(synthesized_reading(reading@, self.sensors@[i as int] as int));
            }
            out.push(
                ReadingPublish {
                    queue: crate::apiary::sensor_reading_queue_name(),
                    payload,
                    persistent: true,
                    mandatory: true,
                },
            );
            i = i + 1;
        }
        out
    }

    /// The explicit one-shot publish path: frames one handed-in reading
    /// for the reading queue with the same persistence and confirmation
    /// contract as the periodic loop.
    pub fn receive_reading(&self, msg: SensorReadingData) -> (p: ReadingPublish)
        ensures
            p.payload@ == reading_json(msg.reading@),
            spec_decode_reading(p.payload@) == Option::Some(msg.reading@),
            p.persistent,
            !p.mandatory,
            p.queue@ == "sensor_reading_queue"@,
    {
        proof {
            lemma_reading_round_trip(msg.reading@);
        }
        let payload = encode_reading(&msg.reading);
        ReadingPublish {
            queue: crate::apiary::sensor_reading_queue_name(),
            payload,
            persistent: true,
            mandatory: false,
        }
    }
}

} // verus!
