//! The apiary coordinator: owns the hive registry and decides how creation,
//! sensor-data and delete commands change it.

use vstd::prelude::*;
use crate::hive::{Hive, ids_of};
use crate::messages::{CreateHive, DeleteError, DeleteSensor, NewSensorData};

verus! {

/// What hive creation does to a registry: a fresh id is bound to the given
/// sensor ids, an id that is already bound is left exactly as it is.
pub open spec fn spec_create_hive(
    reg: Map<int, Seq<int>>,
    hive_id: int,
    sensor_ids: Seq<int>,
) -> Map<int, Seq<int>> {
    if reg.contains_key(hive_id) {
        reg
    } else {
        reg.insert(hive_id, sensor_ids)
    }
}

/// What a sensor deletion does to a registry: the named hive's list loses
/// every occurrence of the sensor id; an unknown hive id changes nothing.
pub open spec fn spec_delete_sensor(
    reg: Map<int, Seq<int>>,
    hive_id: int,
    sensor_id: int,
) -> Map<int, Seq<int>> {
    if reg.contains_key(hive_id) {
        reg.insert(hive_id, Hive::spec_delete(reg[hive_id], sensor_id))
    } else {
        reg
    }
}

/// Law: hive creation is idempotent.  A second creation with the same id
/// reports success and changes nothing, whatever sensor list it carries:
/// the registry holds exactly one entry for the id, with the first call's
/// sensors.
pub proof fn lemma_create_hive_idempotent(
    reg: Map<int, Seq<int>>,
    hive_id: int,
    ids1: Seq<int>,
    ids2: Seq<int>,
)
    ensures
        spec_create_hive(spec_create_hive(reg, hive_id, ids1), hive_id, ids2) == spec_create_hive(
            reg,
            hive_id,
            ids1,
        ),
        spec_create_hive(reg, hive_id, ids1).contains_key(hive_id),
        !reg.contains_key(hive_id) ==> spec_create_hive(reg, hive_id, ids1)[hive_id] == ids1,
        forall|x: int|
            reg.contains_key(x) ==> #[trigger] spec_create_hive(reg, hive_id, ids1)[x] == reg[x],
{
}

/// Law: deleting a sensor from one hive never touches another hive's
/// entry, and whether the other hive is registered does not change.
pub proof fn lemma_delete_sensor_isolated(
    reg: Map<int, Seq<int>>,
    hive_id: int,
    sensor_id: int,
    other: int,
)
    requires
        other != hive_id,
    ensures
        spec_delete_sensor(reg, hive_id, sensor_id).contains_key(other) == reg.contains_key(other),
        reg.contains_key(other) ==> spec_delete_sensor(reg, hive_id, sensor_id)[other]
            == reg[other],
{
}

/// The durable queue of hive-creation commands.
pub fn hive_queue_name() -> (s: &'static str)
    ensures
        s@ == "hive_queue"@,
{
    "hive_queue"
}

/// The durable queue of sensor-data messages.
pub fn sensor_queue_name() -> (s: &'static str)
    ensures
        s@ == "sensor_queue"@,
{
    "sensor_queue"
}

/// The durable queue of delete commands.
pub fn sensor_delete_queue_name() -> (s: &'static str)
    ensures
        s@ == "sensor_delete_queue"@,
{
    "sensor_delete_queue"
}

/// The durable queue the hive workers publish readings to.
pub fn sensor_reading_queue_name() -> (s: &'static str)
    ensures
        s@ == "sensor_reading_queue"@,
{
    "sensor_reading_queue"
}

/// The root coordinator: the bus address and the registry of hives, one
/// worker per registered hive id.
pub struct Apiary {
    pub rabbitmq_url: String,
    pub hives: Vec<Hive>,
}

impl Apiary {
    /// Registry well-formedness: hive ids are globally unique.
    pub open spec fn wf(&self) -> bool {
        forall|i: int, j: int|
            0 <= i < j < self.hives@.len() ==> self.hives@[i].hive_id != self.hives@[j].hive_id
    }

    /// Whether a hive id is registered.
    pub open spec fn contains_hive(&self, id: int) -> bool {
        exists|i: int| 0 <= i < self.hives@.len() && self.hives@[i].hive_id == id
    }

    /// The position of a registered hive id.
    pub open spec fn hive_index(&self, id: int) -> int {
        choose|i: int| 0 <= i < self.hives@.len() && self.hives@[i].hive_id == id
    }

    /// The registry as a map from hive id to that hive's sensor ids.
    pub open spec fn registry(&self) -> Map<int, Seq<int>> {
        Map::new(
            |id: int| self.contains_hive(id),
            |id: int| self.hives@[self.hive_index(id)].sensor_ids(),
        )
    }

    /// A fresh coordinator with an empty registry.
    pub fn new(rabbitmq_url: String) -> (a: Apiary)
        ensures
            a.wf(),
            a.hives@.len() == 0,
            a.registry() == Map::<int, Seq<int>>::empty(),
            a.rabbitmq_url == rabbitmq_url,
    {
        let a = Apiary { rabbitmq_url, hives: Vec::new() };
        proof {
            assert(a.registry() =~= Map::<int, Seq<int>>::empty());
        }
        a
    }

    /// The position of a hive id in the worker list, if it is registered.
    fn find_hive(&self, hive_id: i32) -> (idx: Option<usize>)
        ensures
            match idx {
                Option::Some(i) => i < self.hives@.len() && self.hives@[i as int].hive_id
                    == hive_id,
                Option::None => !self.contains_hive(hive_id as int),
            },
    {
        let mut i: usize = 0;
        while i < self.hives.len()
            invariant
                i <= self.hives@.len(),
                forall|k: int| 0 <= k < i ==> self.hives@[k].hive_id != hive_id,
            decreases self.hives@.len() - i,
        {
            if self.hives[i].hive_id == hive_id {
                return Some(i);
            }
            i = i + 1;
        }
        None
    }

    /// Registers a hive.  Creation is idempotent: an id that is already
    /// registered succeeds as a no-op and the existing sensor list is
    /// neither merged nor replaced; otherwise a worker seeded with the
    /// request's sensor ids and this coordinator's bus address is added.
    pub fn create_hive(&mut self, msg: CreateHive) -> (r: Result<(), ()>)
        requires
            old(self).wf(),
        ensures
            final(self).wf(),
            r == Result::<(), ()>::Ok(()),
            final(self).rabbitmq_url == old(self).rabbitmq_url,
            final(self).registry() == spec_create_hive(
                old(self).registry(),
                msg.hive_id as int,
                msg.sensor_ids(),
            ),
            old(self).contains_hive(msg.hive_id as int) ==> *final(self) == *old(self),
    {
        if let Some(_i) = self.find_hive(msg.hive_id) {
            proof {
                assert(self.registry().contains_key(msg.hive_id as int));
            }
            return Ok(());
        }
        let mut ids: Vec<i32> = Vec::new();
        let mut j: usize = 0;
        while j < msg.sensors.len()
            invariant
                j <= msg.sensors@.len(),
                ids@.len() == j,
                ids_of(ids@) == msg.sensor_ids().take(j as int),
            decreases msg.sensors@.len() - j,
        {
            let sid = msg.sensors[j].sensor_id;
            proof {
                assert(ids_of(ids@.push(sid)) =~= msg.sensor_ids().take(j + 1)) by {
                    assert forall|k: int|
                        0 <= k < j + 1 implies ids_of(ids@.push(sid))[k] == msg.sensor_ids().take(
                        j + 1,
                    )[k] by {
                        if k < j {
                            assert(ids_of(ids@)[k] == msg.sensor_ids().take(j as int)[k]);
                        } else {
                            assert(ids@.push(sid)[k] == sid);
                            assert(msg.sensor_ids()[j as int] == msg.sensors@[j as int]@.sensor_id);
                        }
                    }
                }
            }
            ids.push(sid);
            j = j + 1;
        }
        proof {
            assert(msg.sensor_ids().take(msg.sensors@.len() as int) =~= msg.sensor_ids());
        }
        let hive = Hive {
            hive_id: msg.hive_id,
            sensors: ids,
            rabbitmq_url: self.rabbitmq_url.clone(),
        };
        self.hives.push(hive);
        proof {
            self.lemma_push_registry(*old(self), msg);
        }
        Ok(())
    }

    /// After pushing a fresh hive the registry gains exactly that binding.
    proof fn lemma_push_registry(&self, prev: Apiary, msg: CreateHive)
        requires
            prev.wf(),
            !prev.contains_hive(msg.hive_id as int),
            self.hives@.len() == prev.hives@.len() + 1,
            forall|k: int| 0 <= k < prev.hives@.len() ==> self.hives@[k] == prev.hives@[k],
            self.hives@.last().hive_id == msg.hive_id,
            self.hives@.last().sensor_ids() == msg.sensor_ids(),
        ensures
            self.wf(),
            self.registry() == prev.registry().insert(msg.hive_id as int, msg.sensor_ids()),
    {
        let n = prev.hives@.len() as int;
        let id = msg.hive_id as int;
        assert forall|i: int, j: int|
            0 <= i < j < self.hives@.len() implies self.hives@[i].hive_id
            != self.hives@[j].hive_id by {
            if j < n {
                assert(prev.hives@[i].hive_id != prev.hives@[j].hive_id);
            } else {
                assert(self.hives@[j].hive_id == id);
                if self.hives@[i].hive_id == id {
                    assert(prev.contains_hive(id));
                }
            }
        }
        let r0 = prev.registry();
        let r1 = self.registry();
        assert forall|k: int| #[trigger] r1.contains_key(k) implies r0.insert(
            id,
            msg.sensor_ids(),
        ).contains_key(k) by {
            let i = choose|i: int| 0 <= i < self.hives@.len() && self.hives@[i].hive_id == k;
            if i < n {
                assert(prev.contains_hive(k));
            }
        }
        assert forall|k: int| r0.insert(id, msg.sensor_ids()).contains_key(
            k,
        ) implies #[trigger] r1.contains_key(k) by {
            if k == id {
                assert(self.hives@[n].hive_id == k);
            } else {
                let i = choose|i: int| 0 <= i < prev.hives@.len() && prev.hives@[i].hive_id == k;
                assert(self.hives@[i].hive_id == k);
            }
        }
        assert forall|k: int| #[trigger] r1.contains_key(k) implies r1[k] == r0.insert(
            id,
            msg.sensor_ids(),
        )[k] by {
            let i = self.hive_index(k);
            assert(0 <= i < self.hives@.len() && self.hives@[i].hive_id == k);
            if k == id {
                if i < n {
                    assert(prev.contains_hive(id));
                }
                assert(i == n);
            } else {
                assert(i < n);
                assert(prev.contains_hive(k));
                let pi = prev.hive_index(k);
                assert(0 <= pi < n && prev.hives@[pi].hive_id == k);
                assert(self.hives@[pi].hive_id == k);
                if i < pi {
                    assert(self.hives@[i].hive_id != self.hives@[pi].hive_id);
                }
                if pi < i {
                    assert(self.hives@[pi].hive_id != self.hives@[i].hive_id);
                }
                assert(i == pi);
            }
        }
        assert(r1 =~= r0.insert(id, msg.sensor_ids()));
    }

    /// Accepts a sensor observation.  In this scope it is an extension
    /// point and always succeeds without changing the registry.
    pub fn new_sensor_data(&self, _msg: &NewSensorData) -> (r: Result<(), ()>)
        ensures
            r == Result::<(), ()>::Ok(()),
    {
        Ok(())
    }

    /// Deletes a sensor: an unregistered hive id is reported as not found;
    /// otherwise the command is forwarded to that hive's worker and its
    /// result returned.  No other hive's state is touched.
    pub fn delete_sensor(&mut self, msg: DeleteSensor) -> (r: Result<(), DeleteError>)
        requires
            old(self).wf(),
        ensures
            final(self).wf(),
            final(self).rabbitmq_url == old(self).rabbitmq_url,
            final(self).registry() == spec_delete_sensor(
                old(self).registry(),
                msg.hive_id as int,
                msg.sensor_id as int,
            ),
            r is Ok <==> old(self).contains_hive(msg.hive_id as int),
            !old(self).contains_hive(msg.hive_id as int) ==> r == Result::<(),
                DeleteError,
            >::Err(DeleteError::HiveNotFound) && *final(self) == *old(self),
    {
        let idx = self.find_hive(msg.hive_id);
        match idx {
            None => {
                proof {
                    assert(!self.registry().contains_key(msg.hive_id as int));
                }
                Err(DeleteError::HiveNotFound)
            },
            Some(i) => {
                let mut h = self.hives.remove(i);
                let r = h.delete_sensor(msg);
                self.hives.insert(i, h);
                proof {
                    assert(self.hives@ =~= old(self).hives@.update(i as int, h));
                    self.lemma_update_registry(*old(self), i as int, msg);
                }
                r
            },
        }
    }

    /// After replacing one hive by a version with some sensors deleted,
    /// the registry changes in exactly that hive's binding.
    proof fn lemma_update_registry(&self, prev: Apiary, at: int, msg: DeleteSensor)
        requires
            prev.wf(),
            0 <= at < prev.hives@.len(),
            prev.hives@[at].hive_id == msg.hive_id,
            self.hives@.len() == prev.hives@.len(),
            forall|k: int|
                0 <= k < prev.hives@.len() && k != at ==> self.hives@[k] == prev.hives@[k],
            self.hives@[at].hive_id == msg.hive_id,
            self.hives@[at].sensor_ids() == Hive::spec_delete(
                prev.hives@[at].sensor_ids(),
                msg.sensor_id as int,
            ),
        ensures
            self.wf(),
            self.registry() == spec_delete_sensor(
                prev.registry(),
                msg.hive_id as int,
                msg.sensor_id as int,
            ),
    {
        let id = msg.hive_id as int;
        let n = prev.hives@.len() as int;
        assert forall|i: int, j: int|
            0 <= i < j < self.hives@.len() implies self.hives@[i].hive_id
            != self.hives@[j].hive_id by {
            assert(self.hives@[i].hive_id == prev.hives@[i].hive_id);
            assert(self.hives@[j].hive_id == prev.hives@[j].hive_id);
        }
        let r0 = prev.registry();
        let r1 = self.registry();
        assert(prev.contains_hive(id));
        assert(r0.contains_key(id));
        let target = spec_delete_sensor(r0, id, msg.sensor_id as int);
        assert forall|k: int| #[trigger] r1.contains_key(k) implies target.contains_key(k) by {
            let i = choose|i: int| 0 <= i < self.hives@.len() && self.hives@[i].hive_id == k;
            assert(prev.hives@[i].hive_id == k);
        }
        assert forall|k: int| target.contains_key(k) implies #[trigger] r1.contains_key(k) by {
            let i = choose|i: int| 0 <= i < prev.hives@.len() && prev.hives@[i].hive_id == k;
            assert(self.hives@[i].hive_id == k);
        }
        assert(prev.hive_index(id) == at) by {
            let pi = prev.hive_index(id);
            assert(0 <= pi < n && prev.hives@[pi].hive_id == id);
            if pi < at {
                assert(prev.hives@[pi].hive_id != prev.hives@[at].hive_id);
            }
            if at < pi {
                assert(prev.hives@[at].hive_id != prev.hives@[pi].hive_id);
            }
        }
        assert forall|k: int| #[trigger] r1.contains_key(k) implies r1[k] == target[k] by {
            let i = self.hive_index(k);
            assert(0 <= i < n && self.hives@[i].hive_id == k);
            let pi = prev.hive_index(k);
            assert(prev.contains_hive(k)) by {
                assert(prev.hives@[i].hive_id == k);
            }
            assert(0 <= pi < n && prev.hives@[pi].hive_id == k);
            assert(i == pi) by {
                assert(self.hives@[pi].hive_id == prev.hives@[pi].hive_id);
                if i < pi {
                    assert(self.hives@[i].hive_id != self.hives@[pi].hive_id);
                }
                if pi < i {
                    assert(self.hives@[pi].hive_id != self.hives@[i].hive_id);
                }
            }
            if k == id {
                assert(i == at) by {
                    if i < at {
                        assert(self.hives@[i].hive_id != self.hives@[at].hive_id);
                    }
                    if at < i {
                        assert(self.hives@[at].hive_id != self.hives@[i].hive_id);
                    }
                }
            }
        }
        assert(r1 =~= target);
    }
}

} // verus!
