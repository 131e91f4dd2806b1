//! Live queue consumers: how one delivery changes the registry and
//! whether it is acknowledged.
//!
//! The contract is uniform over the three queues: a payload that parses
//! is dispatched and acknowledged; a malformed payload is rejected
//! without requeue and leaves the registry untouched, so the deliveries
//! after it are processed exactly as if it had never arrived.

use vstd::prelude::*;
use crate::apiary::{spec_create_hive, spec_delete_sensor, Apiary};
use crate::codec::{
    decode_create_hive, decode_delete, decode_sensor, spec_decode_create_hive, spec_decode_delete,
    spec_decode_sensor,
};
use crate::messages::NewSensorData;
use crate::types::SensorV;

verus! {

/// What the consumer does with a delivery after processing it.
#[derive(Debug, Clone, Copy, PartialEq, Eq, Structural)]
pub enum QueueAction {
    Ack,
    NackDiscard,
    NackRequeue,
}

/// The three live queues the coordinator consumes.
#[derive(Debug, Clone, Copy, PartialEq, Eq, Structural)]
pub enum QueueKind {
    HiveCreation,
    SensorData,
    SensorDelete,
}

/// The sensor ids named by a sequence of sensor models, in order.
pub open spec fn sensor_ids_of(svs: Seq<SensorV>) -> Seq<int> {
    svs.map_values(|sv: SensorV| sv.sensor_id)
}

/// Whether a payload fails to parse for its queue.
pub open spec fn malformed(q: QueueKind, payload: Seq<u8>) -> bool {
    match q {
        QueueKind::HiveCreation => spec_decode_create_hive(payload) is None,
        QueueKind::SensorData => spec_decode_sensor(payload) is None,
        QueueKind::SensorDelete => spec_decode_delete(payload) is None,
    }
}

/// What one delivery does: the registry afterwards and the queue action.
pub open spec fn spec_process(
    reg: Map<int, Seq<int>>,
    q: QueueKind,
    payload: Seq<u8>,
) -> (Map<int, Seq<int>>, QueueAction) {
    match q {
        QueueKind::HiveCreation => match spec_decode_create_hive(payload) {
            Option::Some((hid, svs)) => (
                spec_create_hive(reg, hid, sensor_ids_of(svs)),
                QueueAction::Ack,
            ),
            Option::None => (reg, QueueAction::NackDiscard),
        },
        QueueKind::SensorData => match spec_decode_sensor(payload) {
            Option::Some(_) => (reg, QueueAction::Ack),
            Option::None => (reg, QueueAction::NackDiscard),
        },
        QueueKind::SensorDelete => match spec_decode_delete(payload) {
            Option::Some((hid, sid)) => (spec_delete_sensor(reg, hid, sid), QueueAction::Ack),
            Option::None => (reg, QueueAction::NackDiscard),
        },
    }
}

/// The registry after the consumers have processed a trace of
/// deliveries.  Within one queue deliveries are processed in receipt
/// order; across queues no order is guaranteed, so a trace is any
/// interleaving of the three queues.
pub open spec fn spec_run(
    reg: Map<int, Seq<int>>,
    msgs: Seq<(QueueKind, Seq<u8>)>,
) -> Map<int, Seq<int>>
    decreases msgs.len(),
{
    if msgs.len() == 0 {
        reg
    } else {
        spec_run(spec_process(reg, msgs[0].0, msgs[0].1).0, msgs.drop_first())
    }
}

impl Apiary {
    /// Processes one live delivery: parse the typed payload; on failure,
    /// reject without requeue and continue; on success, dispatch the
    /// matching operation and acknowledge after the dispatch returns.
    pub fn process_delivery(&mut self, queue: QueueKind, payload: &Vec<u8>) -> (act: QueueAction)
        requires
            old(self).wf(),
        ensures
            final(self).wf(),
            final(self).rabbitmq_url == old(self).rabbitmq_url,
            (final(self).registry(), act) == spec_process(
                old(self).registry(),
                queue,
                payload@,
            ),
    {
        match queue {
            QueueKind::HiveCreation => match decode_create_hive(payload) {
                Some(m) => {
                    proof {
                        assert(m.sensor_ids() =~= sensor_ids_of(m.sensor_views()));
                    }
                    let _ = self.create_hive(m);
                    QueueAction::Ack
                },
                None => QueueAction::NackDiscard,
            },
            QueueKind::SensorData => match decode_sensor(payload) {
                Some(sensor) => {
                    let _ = self.new_sensor_data(&NewSensorData { sensor });
                    QueueAction::Ack
                },
                None => QueueAction::NackDiscard,
            },
            QueueKind::SensorDelete => match decode_delete(payload) {
                Some(d) => {
                    let _ = self.delete_sensor(d);
                    QueueAction::Ack
                },
                None => QueueAction::NackDiscard,
            },
        }
    }
}

/// A malformed payload is rejected without requeue and changes nothing.
pub proof fn lemma_malformed_step(reg: Map<int, Seq<int>>, q: QueueKind, payload: Seq<u8>)
    requires
        malformed(q, payload),
    ensures
        spec_process(reg, q, payload) == (reg, QueueAction::NackDiscard),
{
}

/// Law: a malformed payload on any queue does not block subsequent valid
/// deliveries: the trace gives the same registry as if the malformed
/// delivery had never arrived.
pub proof fn lemma_malformed_does_not_block(
    reg: Map<int, Seq<int>>,
    msgs: Seq<(QueueKind, Seq<u8>)>,
    k: int,
)
    requires
        0 <= k < msgs.len(),
        malformed(msgs[k].0, msgs[k].1),
    ensures
        spec_run(reg, msgs) == spec_run(reg, msgs.remove(k)),
    decreases msgs.len(),
{
    if k == 0 {
        lemma_malformed_step(reg, msgs[0].0, msgs[0].1);
        assert(msgs.remove(0) =~= msgs.drop_first());
    } else {
        let r1 = spec_process(reg, msgs[0].0, msgs[0].1).0;
        assert(msgs.drop_first()[k - 1] == msgs[k]);
        lemma_malformed_does_not_block(r1, msgs.drop_first(), k - 1);
        assert(msgs.remove(k).drop_first() =~= msgs.drop_first().remove(k - 1));
        assert(msgs.remove(k)[0] == msgs[0]);
    }
}

/// Registered hives are never removed by live processing.
pub proof fn lemma_process_keeps_hives(
    reg: Map<int, Seq<int>>,
    q: QueueKind,
    payload: Seq<u8>,
    id: int,
)
    requires
        reg.contains_key(id),
    ensures
        spec_process(reg, q, payload).0.contains_key(id),
{
}

/// Law: a hive registered before live consumption starts - a recovered
/// hive among them - is still registered after any prefix of live
/// traffic, whatever the interleaving of the queues.
pub proof fn lemma_recovered_before_live(
    reg: Map<int, Seq<int>>,
    msgs: Seq<(QueueKind, Seq<u8>)>,
    id: int,
)
    requires
        reg.contains_key(id),
    ensures
        spec_run(reg, msgs).contains_key(id),
    decreases msgs.len(),
{
    if msgs.len() > 0 {
        lemma_process_keeps_hives(reg, msgs[0].0, msgs[0].1, id);
        lemma_recovered_before_live(spec_process(reg, msgs[0].0, msgs[0].1).0, msgs.drop_first(), id);
    }
}

} // verus!
