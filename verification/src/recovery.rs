//! Boot-time backlog recovery: the creation queue's backlog is drained,
//! each message parsed as a hive definition, and every recovered
//! definition replayed through the normal creation path, so that
//! recovery and live traffic share one idempotent code path.

use vstd::prelude::*;
use crate::apiary::{spec_create_hive, Apiary};
use crate::codec::{decode_create_hive, spec_decode_create_hive};
use crate::consumer::QueueAction;
use crate::messages::CreateHive;

verus! {

/// The registry after replaying a sequence of recovered hive
/// definitions through the creation path, in order.
pub open spec fn spec_replay(reg: Map<int, Seq<int>>, hives: Seq<CreateHive>) -> Map<
    int,
    Seq<int>,
>
    decreases hives.len(),
{
    if hives.len() == 0 {
        reg
    } else {
        spec_replay(
            spec_create_hive(reg, hives[0].hive_id as int, hives[0].sensor_ids()),
            hives.drop_first(),
        )
    }
}

impl Apiary {
    /// One backlog message during recovery: a hive definition to replay,
    /// to be acknowledged; or a malformed payload, rejected back onto the
    /// queue for a later attempt.
    pub fn recover_delivery(payload: &Vec<u8>) -> (r: (Option<CreateHive>, QueueAction))
        ensures
            match spec_decode_create_hive(payload@) {
                Option::Some((hid, svs)) => {
                    &&& r.0 matches Option::Some(m) && m.hive_id as int == hid
                        && m.sensor_views() == svs
                    &&& r.1 == QueueAction::Ack
                },
                Option::None => r.0 is None && r.1 == QueueAction::NackRequeue,
            },
    {
        match decode_create_hive(payload) {
            Some(m) => (Some(m), QueueAction::Ack),
            None => (None, QueueAction::NackRequeue),
        }
    }

    /// Replays recovered hive definitions through the normal creation
    /// path.  Afterwards every recovered hive id is registered.
    pub fn apply_recovered(&mut self, hives: Vec<CreateHive>) -> (r: Result<(), ()>)
        requires
            old(self).wf(),
        ensures
            final(self).wf(),
            r == Result::<(), ()>::Ok(()),
            final(self).rabbitmq_url == old(self).rabbitmq_url,
            final(self).registry() == spec_replay(old(self).registry(), hives@),
            forall|k: int|
                0 <= k < hives@.len() ==> final(self).contains_hive(
                    #[trigger] hives@[k].hive_id as int,
                ),
    {
        let ghost all = hives@;
        let mut rest = hives;
        while rest.len() > 0
            invariant
                self.wf(),
                self.rabbitmq_url == old(self).rabbitmq_url,
                rest@.len() <= all.len(),
                rest@ == all.subrange(all.len() - rest@.len(), all.len() as int),
                spec_replay(old(self).registry(), all) == spec_replay(self.registry(), rest@),
                forall|k: int|
                    0 <= k < all.len() - rest@.len() ==> self.contains_hive(
                        #[trigger] all[k].hive_id as int,
                    ),
            decreases rest@.len(),
        {
            let ghost prev_reg = self.registry();
            let ghost prev_rest = rest@;
            let m = rest.remove(0);
            let ghost id = m.hive_id as int;
            let _ = self.create_hive(m);
            proof {
                assert(rest@ =~= prev_rest.drop_first());
                assert(self.registry() == spec_create_hive(prev_reg, id, prev_rest[0].sensor_ids()));
                assert(self.contains_hive(id)) by {
                    assert(self.registry().contains_key(id));
                }
                assert forall|k: int|
                    0 <= k < all.len() - rest@.len() implies self.contains_hive(
                    #[trigger] all[k].hive_id as int,
                ) by {
                    if k < all.len() - prev_rest.len() {
                        assert(prev_reg.contains_key(all[k].hive_id as int));
                        assert(self.registry().contains_key(all[k].hive_id as int));
                    } else {
                        assert(all[k] == prev_rest[0]);
                    }
                }
            }
        }
        proof {
            assert(rest@ =~= Seq::<CreateHive>::empty());
        }
        Ok(())
    }
}

} // verus!
