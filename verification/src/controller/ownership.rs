//! Recording which VMs automatic scaling owns.

use vstd::prelude::*;
use vstd::string::StringExecFns;

use crate::controller::{Controller, ControllerError, ControllerErrorView};
use crate::instance::Instance;
use crate::registry::Registry;
use crate::state::{lemma_take_one, VmOwnership};

verus! {

/// Whether a VM's classification contradicts the recorded one.
pub open spec fn contradicts(instance: Instance, ownership: VmOwnership) -> bool {
    match instance.status.ownership_classification {
        Some(managed) => ownership.of(instance.id@) == Some(!managed),
        None => false,
    }
}

/// Whether a VM has a classification that is not recorded.
pub open spec fn unrecorded(instance: Instance, ownership: VmOwnership) -> bool {
    instance.status.ownership_classification is Some && ownership.of(instance.id@) is None
}

/// The ownership of a VM once the first `n` tracked VMs are recorded: what is
/// recorded stays, and what is not is taken from the VM.
pub open spec fn learned(
    instances: Registry<Instance>,
    ownership: VmOwnership,
    n: int,
    id: Seq<char>,
) -> Option<bool> {
    if ownership.of(id) is Some {
        ownership.of(id)
    } else if instances.ids().take(n).contains(id) {
        instances.at(id).status.ownership_classification
    } else {
        None
    }
}

impl Controller {
    /// Record classifications produced by first successful backend snapshots.
    /// `Ok(true)` means that the ownership has changed and is to be stored.
    pub fn persist_new_classifications(&mut self) -> (r: Result<bool, ControllerError>)
        requires
            old(self).wf(),
        ensures
            final(self).wf(),
            final(self).cfg == old(self).cfg,
            final(self).instances == old(self).instances,
            final(self).tick_index == old(self).tick_index,
            final(self).last_host_cpu == old(self).last_host_cpu,
            final(self).host_cpu_util == old(self).host_cpu_util,
            match r {
                Ok(changed) => {
                    &&& forall|i: int|
                        0 <= i < old(self).instances.ids().len() ==> !contradicts(
                            #[trigger] old(self).instances.vals()[i],
                            old(self).vm_ownership,
                        )
                    &&& changed <==> exists|i: int|
                        0 <= i < old(self).instances.ids().len() && unrecorded(
                            #[trigger] old(self).instances.vals()[i],
                            old(self).vm_ownership,
                        )
                    &&& forall|id: Seq<char>| #[trigger]
                        final(self).vm_ownership.of(id) == learned(
                            old(self).instances,
                            old(self).vm_ownership,
                            old(self).instances.ids().len() as int,
                            id,
                        )
                },
                Err(e) => exists|k: int|
                    {
                        &&& 0 <= k < old(self).instances.ids().len()
                        &&& contradicts(
                            #[trigger] old(self).instances.vals()[k],
                            old(self).vm_ownership,
                        )
                        &&& forall|i: int|
                            0 <= i < k ==> !contradicts(
                                #[trigger] old(self).instances.vals()[i],
                                old(self).vm_ownership,
                            )
                        &&& e@ == ControllerErrorView::VmError(
                            "VM "@ + old(self).instances.ids()[k]
                                + " ownership changed after classification"@,
                        )
                        &&& forall|id: Seq<char>| #[trigger]
                            final(self).vm_ownership.of(id) == learned(
                                old(self).instances,
                                old(self).vm_ownership,
                                k,
                                id,
                            )
                    },
            },
    {
        let ghost start = *self;
        let ghost ids = self.instances.ids();
        let ghost vals = self.instances.vals();
        let mut changed = false;
        let mut i: usize = 0;
        while i < self.instances.len()
            invariant
                self.wf(),
                start == *old(self),
                start.wf(),
                ids == start.instances.ids(),
                vals == start.instances.vals(),
                self.cfg == start.cfg,
                self.instances == start.instances,
                self.tick_index == start.tick_index,
                self.last_host_cpu == start.last_host_cpu,
                self.host_cpu_util == start.host_cpu_util,
                i <= ids.len(),
                forall|j: int| 0 <= j < i ==> !contradicts(#[trigger] vals[j], start.vm_ownership),
                changed <==> exists|j: int|
                    0 <= j < i && unrecorded(#[trigger] vals[j], start.vm_ownership),
                forall|id: Seq<char>| #[trigger]
                    self.vm_ownership.of(id) == learned(
                        start.instances,
                        start.vm_ownership,
                        i as int,
                        id,
                    ),
            decreases ids.len() - i,
        {
            let ghost before = self.vm_ownership;
            let ghost changed_before = changed;
            let instance = self.instances.value_at(i);
            let classification = instance.status.ownership_classification;
            let id = instance.id.clone();
            proof {
                assert(vals[i as int].id@ == ids[i as int]);
                lemma_take_one(ids, i as int);
                if ids.take(i as int).contains(id@) {
                    let at = ids.take(i as int).index_of(id@);
                    assert(ids[at] == ids[i as int]);
                }
                assert(before.of(id@) == start.vm_ownership.of(id@));
                assert(start.instances.at(id@) == vals[i as int]);
            }
            match classification {
                Some(managed) => {
                    match self.vm_ownership.classification(id.as_str()) {
                        Some(recorded) => {
                            if recorded != managed {
                                assert(contradicts(vals[i as int], start.vm_ownership));
                                return Err(
                                    ControllerError::VmError(
                                        "VM ".to_owned().concat(id.as_str()).concat(
                                            " ownership changed after classification",
                                        ),
                                    ),
                                );
                            }
                        },
                        None => {
                            match self.vm_ownership.record(id.as_str(), managed) {
                                Ok(_) => {},
                                Err(error) => {
                                    return Err(ControllerError::State(error));
                                },
                            }
                            assert(unrecorded(vals[i as int], start.vm_ownership));
                            changed = true;
                        },
                    }
                },
                None => {},
            }
            proof {
                assert forall|other: Seq<char>| #[trigger]
                    self.vm_ownership.of(other) == learned(
                        start.instances,
                        start.vm_ownership,
                        i + 1,
                        other,
                    ) by {
                    assert(before.of(other) == learned(
                        start.instances,
                        start.vm_ownership,
                        i as int,
                        other,
                    ));
                }
                if changed_before {
                    let j = choose|j: int|
                        0 <= j < i && unrecorded(#[trigger] vals[j], start.vm_ownership);
                    assert(unrecorded(vals[j], start.vm_ownership));
                }
            }
            i += 1;
        }
        Ok(changed)
    }
}

// ---------------------------------------------------------------------
// Laws
// ---------------------------------------------------------------------

/// A VM's classification contradicts the registry exactly where both are known and differ,
/// and is new to the registry exactly where only the VM has one.
pub proof fn law_contradiction_is_a_difference(instance: Instance, ownership: VmOwnership)
    ensures
        contradicts(instance, ownership) <==> {
            let recorded = ownership.classified().lookup(instance.id@);
            &&& instance.status.ownership_classification is Some
            &&& recorded is Some
            &&& instance.status.ownership_classification->0 != recorded->0
        },
        unrecorded(instance, ownership) <==> instance.status.ownership_classification is Some
            && !ownership.classified().ids().contains(instance.id@),
{
}

/// What is recorded stays recorded as it is; a VM that is not recorded yet is recorded with
/// its own classification once it has come up, and not before.
pub proof fn law_first_classification_is_recorded(
    instances: Registry<Instance>,
    ownership: VmOwnership,
    n: int,
    k: int,
)
    requires
        instances.wf(),
        0 <= n <= instances.ids().len(),
        0 <= k < instances.ids().len(),
    ensures
        ({
            let id = instances.ids()[k];
            let recorded = ownership.classified();
            &&& recorded.ids().contains(id) ==> learned(instances, ownership, n, id) == Some(
                recorded.vals()[recorded.ids().index_of(id)],
            )
            &&& !recorded.ids().contains(id) && k < n ==> learned(instances, ownership, n, id)
                == instances.vals()[k].status.ownership_classification
            &&& !recorded.ids().contains(id) && k >= n ==> learned(instances, ownership, n, id)
                is None
        }),
{
    let id = instances.ids()[k];
    let ids = instances.ids();
    assert(ids.index_of(id) == k);
    if k < n {
        assert(ids.take(n)[k] == id);
    } else if ids.take(n).contains(id) {
        let at = ids.take(n).index_of(id);
        assert(ids[at] == id);
    }
}

} // verus!
