//! Refreshing the fleet.

use vstd::prelude::*;

use crate::backends::BackendClientError;
use crate::controller::host::{host_util_after, HostCpuSample};
use crate::controller::ownership::{contradicts, learned, unrecorded};
use crate::controller::{
    lemma_ids_after_remove, lemma_ids_kept, Controller, ControllerError, ControllerErrorView,
};
use crate::engines::EngineTickContext;
use crate::instance::{Instance, Observation, RefreshVerdict, RollingUpdate};
use crate::registry::{law_remove_is_local, law_update_is_local, Registry};
use crate::state::lemma_take_one;
use crate::text::texts;

verus! {

impl Controller {
    /// Refresh a VM from what its client reported. A VM whose refresh failed
    /// leaves the inventory; the engine is to be told of it. `None` means that the
    /// VM is not in the inventory.
    pub fn refresh_instance(
        &mut self,
        id: &str,
        outcome: Result<Observation, BackendClientError>,
        now: u128,
    ) -> (r: Option<RefreshVerdict>)
        requires
            old(self).wf(),
        ensures
            final(self).wf(),
            final(self).same_but_instances(*old(self)),
            !old(self).instances.has(id@) ==> r is None && *final(self) == *old(self),
            old(self).instances.has(id@) && outcome is Ok ==> {
                let before = old(self).instances.at(id@);
                let seen = outcome->Ok_0;
                &&& r == Some(
                    RefreshVerdict {
                        refreshed: true,
                        close_client: false,
                        rolling: seen.rolling(),
                    },
                )
                &&& final(self).only_changed(
                    *old(self),
                    id@,
                    Instance { status: before.status.after(seen, now), ..before },
                )
            },
            old(self).instances.has(id@) && outcome is Err ==> {
                &&& r == Some(
                    RefreshVerdict {
                        refreshed: false,
                        close_client: true,
                        rolling: RollingUpdate::Nothing,
                    },
                )
                &&& final(self).instances.ids() == old(self).instances.ids().remove(
                    old(self).instances.ids().index_of(id@),
                )
                &&& forall|other: Seq<char>|
                    #![trigger final(self).instances.lookup(other)]
                    final(self).instances.lookup(other) == if other == id@ {
                        None
                    } else {
                        old(self).instances.lookup(other)
                    }
            },
    {
        let ghost before = self.instances;
        let verdict = match self.instances.get_mut(id) {
            Some(instance) => instance.refresh_state(outcome, now),
            None => {
                return None;
            },
        };
        let ghost middle = self.instances;
        proof {
            let at = before.ids().index_of(id@);
            assert(before.ids()[at] == id@);
            assert(before.vals()[at].id@ == id@);
            law_update_is_local(before, middle, id@, middle.vals()[at]);
            lemma_ids_kept(before, middle, id@);
        }
        if !verdict.refreshed {
            self.instances.remove(id);
            proof {
                law_remove_is_local(middle, self.instances, id@);
                lemma_ids_after_remove(middle, self.instances, id@);
                assert forall|other: Seq<char>|
                    #![trigger self.instances.lookup(other)]
                    self.instances.lookup(other) == if other == id@ {
                        None
                    } else {
                        before.lookup(other)
                    } by {
                    assert(middle.lookup(other) == middle.lookup(other));
                }
            }
        }
        Some(verdict)
    }
}

/// What the client of one VM reported.
#[derive(Debug)]
pub struct RefreshOutcome {
    /// The VM.
    pub id: String,
    /// What its client reported.
    pub outcome: Result<Observation, BackendClientError>,
    /// When it did, in nanoseconds.
    pub at: u128,
}

/// The VMs that reports are about.
pub open spec fn outcome_ids(outcomes: Seq<RefreshOutcome>) -> Seq<Seq<char>> {
    outcomes.map_values(|o: RefreshOutcome| o.id@)
}

/// The record of a VM after a report on it: up to date, or gone.
pub open spec fn record_after(
    record: Option<Instance>,
    report: RefreshOutcome,
) -> Option<Instance> {
    match (record, report.outcome) {
        (Some(instance), Ok(seen)) => Some(
            Instance { status: instance.status.after(seen, report.at), ..instance },
        ),
        _ => None,
    }
}

/// Whether an inventory is what another one becomes by reports on some VMs: each
/// of these is up to date or gone, and the others are as they were.
pub open spec fn refreshed_by(
    before: Registry<Instance>,
    after: Registry<Instance>,
    outcomes: Seq<RefreshOutcome>,
) -> bool {
    &&& forall|k: int|
        0 <= k < outcomes.len() ==> after.lookup(#[trigger] outcome_ids(outcomes)[k])
            == record_after(before.lookup(outcome_ids(outcomes)[k]), outcomes[k])
    &&& forall|id: Seq<char>|
        !outcome_ids(outcomes).contains(id) ==> #[trigger] after.lookup(id) == before.lookup(id)
}

/// The VMs in an inventory that reports say have failed.
pub open spec fn failed_ids(before: Registry<Instance>, outcomes: Seq<RefreshOutcome>) -> Seq<
    Seq<char>,
>
    decreases outcomes.len(),
{
    if outcomes.len() == 0 {
        seq![]
    } else {
        let front = failed_ids(before, outcomes.drop_last());
        if before.has(outcomes.last().id@) && outcomes.last().outcome is Err {
            front.push(outcomes.last().id@)
        } else {
            front
        }
    }
}

/// What is left to do after the refresh of a fleet.
#[derive(Debug)]
pub struct FleetRefresh {
    /// For each report, what is left to do for its VM; `None` where the VM is not
    /// in the inventory.
    pub verdicts: Vec<Option<RefreshVerdict>>,
    /// The VMs that left the inventory; the engine is to be told of them.
    pub dropped: Vec<String>,
}

/// What is left to do for one report.
pub open spec fn verdict_on(
    before: Registry<Instance>,
    report: RefreshOutcome,
) -> Option<RefreshVerdict> {
    if before.has(report.id@) {
        Some(
            match report.outcome {
                Ok(seen) => RefreshVerdict {
                    refreshed: true,
                    close_client: false,
                    rolling: seen.rolling(),
                },
                Err(_) => RefreshVerdict {
                    refreshed: false,
                    close_client: true,
                    rolling: RollingUpdate::Nothing,
                },
            },
        )
    } else {
        None
    }
}

/// What a tick goes on with after the refresh of the fleet.
#[derive(Debug)]
pub struct TickReport {
    /// What the engine is told of the tick.
    pub context: EngineTickContext,
    /// Whether the ownership has changed and is to be stored.
    pub ownership_changed: bool,
}

impl Controller {
    /// Refresh the fleet from what the clients reported, one report for each VM;
    /// VMs whose refresh failed leave the inventory.
    #[verifier::rlimit(40)]
    pub fn refresh_fleet(&mut self, outcomes: Vec<RefreshOutcome>) -> (r: FleetRefresh)
        requires
            old(self).wf(),
            outcome_ids(outcomes@).no_duplicates(),
        ensures
            final(self).wf(),
            final(self).same_but_instances(*old(self)),
            refreshed_by(old(self).instances, final(self).instances, outcomes@),
            texts(r.dropped@) == failed_ids(old(self).instances, outcomes@),
            r.verdicts@.len() == outcomes@.len(),
            forall|k: int|
                0 <= k < outcomes@.len() ==> #[trigger] r.verdicts@[k] == verdict_on(
                    old(self).instances,
                    outcomes@[k],
                ),
    {
        let ghost start = *self;
        let ghost all = outcomes@;
        let ghost ids = outcome_ids(all);
        let count: usize = outcomes.len();
        let mut rest = outcomes;
        let mut verdicts: Vec<Option<RefreshVerdict>> = Vec::new();
        let mut dropped: Vec<String> = Vec::new();
        let mut i: usize = 0;
        proof {
            assert(all.skip(0) =~= all);
            assert(texts(dropped@) =~= failed_ids(start.instances, all.take(0)));
        }
        while i < count
            invariant
                start == *old(self),
                self.wf(),
                self.same_but_instances(start),
                all == outcomes@,
                ids == outcome_ids(all),
                ids.no_duplicates(),
                count == all.len(),
                i <= count,
                rest@ == all.skip(i as int),
                texts(dropped@) == failed_ids(start.instances, all.take(i as int)),
                verdicts@.len() == i,
                forall|k: int|
                    0 <= k < i ==> #[trigger] verdicts@[k] == verdict_on(start.instances, all[k]),
                forall|k: int|
                    0 <= k < i ==> self.instances.lookup(#[trigger] ids[k]) == record_after(
                        start.instances.lookup(ids[k]),
                        all[k],
                    ),
                forall|id: Seq<char>|
                    !ids.take(i as int).contains(id) ==> #[trigger] self.instances.lookup(id)
                        == start.instances.lookup(id),
            decreases count - i,
        {
            let ghost before = *self;
            let ghost dropped_before = dropped@;
            let report = rest.remove(0);
            let id = report.id.clone();
            proof {
                assert(report == all[i as int]);
                assert(ids[i as int] == id@);
                assert(rest@ =~= all.skip(i + 1));
                assert(all.take(i + 1).drop_last() =~= all.take(i as int));
                assert(all.take(i + 1).last() == report);
                lemma_take_one(ids, i as int);
                if ids.take(i as int).contains(id@) {
                    let at = ids.take(i as int).index_of(id@);
                    assert(ids[at] == ids[i as int]);
                }
                assert(before.instances.lookup(id@) == start.instances.lookup(id@));
            }
            let verdict = self.refresh_instance(id.as_str(), report.outcome, report.at);
            let lost: bool = match &verdict {
                Some(v) => !v.refreshed,
                None => false,
            };
            verdicts.push(verdict);
            if lost {
                dropped.push(id);
                assert(texts(dropped@) =~= texts(dropped_before).push(id@));
            }
            proof {
                assert(self.instances.lookup(id@) == record_after(
                    start.instances.lookup(id@),
                    all[i as int],
                ));
                assert forall|other: Seq<char>| other != id@ implies #[trigger] self.instances.lookup(
                    other,
                ) == before.instances.lookup(other) by {}
                assert forall|k: int| 0 <= k < i + 1 implies self.instances.lookup(
                    #[trigger] ids[k],
                ) == record_after(start.instances.lookup(ids[k]), all[k]) by {
                    if k < i {
                        assert(ids[k] != ids[i as int]);
                        assert(before.instances.lookup(ids[k]) == record_after(
                            start.instances.lookup(ids[k]),
                            all[k],
                        ));
                    }
                }
            }
            i += 1;
        }
        proof {
            assert(all.take(i as int) =~= all);
            assert(ids.take(i as int) =~= ids);
        }
        FleetRefresh { verdicts, dropped }
    }

    /// Take in the reports of one tick: count it, read the host's load, refresh the
    /// fleet, drop what failed, and record first classifications. `now` is when the
    /// tick began. What is left to do for the refreshed VMs is reported whether or not
    /// the classifications agree.
    pub fn tick(
        &mut self,
        sample: Option<HostCpuSample>,
        outcomes: Vec<RefreshOutcome>,
        now: u128,
    ) -> (r: (FleetRefresh, Result<TickReport, ControllerError>))
        requires
            old(self).wf(),
            outcome_ids(outcomes@).no_duplicates(),
        ensures
            final(self).wf(),
            final(self).cfg == old(self).cfg,
            final(self).tick_index == if old(self).tick_index == u64::MAX {
                0
            } else {
                old(self).tick_index + 1
            },
            final(self).host_cpu_util == host_util_after(
                old(self).last_host_cpu,
                old(self).host_cpu_util,
                sample,
            ),
            final(self).last_host_cpu == if sample is Some {
                sample
            } else {
                old(self).last_host_cpu
            },
            refreshed_by(old(self).instances, final(self).instances, outcomes@),
            texts(r.0.dropped@) == failed_ids(old(self).instances, outcomes@),
            r.0.verdicts@.len() == outcomes@.len(),
            forall|k: int|
                0 <= k < outcomes@.len() ==> #[trigger] r.0.verdicts@[k] == verdict_on(
                    old(self).instances,
                    outcomes@[k],
                ),
            r.1 is Err <==> exists|i: int|
                0 <= i < final(self).instances.ids().len() && contradicts(
                    #[trigger] final(self).instances.vals()[i],
                    old(self).vm_ownership,
                ),
            match r.1 {
                Ok(report) => {
                    &&& report.context == (EngineTickContext {
                        now,
                        min_thread_count: old(self).cfg.min_thread_count,
                        max_thread_count: old(self).cfg.max_thread_count,
                        host_cpu_util: final(self).host_cpu_util,
                        tick_index: final(self).tick_index,
                    })
                    &&& report.ownership_changed <==> exists|i: int|
                        0 <= i < final(self).instances.ids().len() && unrecorded(
                            #[trigger] final(self).instances.vals()[i],
                            old(self).vm_ownership,
                        )
                    &&& forall|id: Seq<char>| #[trigger]
                        final(self).vm_ownership.of(id) == learned(
                            final(self).instances,
                            old(self).vm_ownership,
                            final(self).instances.ids().len() as int,
                            id,
                        )
                },
                Err(error) => exists|k: int|
                    {
                        &&& 0 <= k < final(self).instances.ids().len()
                        &&& contradicts(
                            #[trigger] final(self).instances.vals()[k],
                            old(self).vm_ownership,
                        )
                        &&& forall|i: int|
                            0 <= i < k ==> !contradicts(
                                #[trigger] final(self).instances.vals()[i],
                                old(self).vm_ownership,
                            )
                        &&& error@ == ControllerErrorView::VmError(
                            "VM "@ + final(self).instances.ids()[k]
                                + " ownership changed after classification"@,
                        )
                        &&& forall|id: Seq<char>| #[trigger]
                            final(self).vm_ownership.of(id) == learned(
                                final(self).instances,
                                old(self).vm_ownership,
                                k,
                                id,
                            )
                    },
            },
    {
        let context = self.begin_tick(sample, now);
        let refresh = self.refresh_fleet(outcomes);
        match self.persist_new_classifications() {
            Ok(ownership_changed) => (refresh, Ok(TickReport { context, ownership_changed })),
            Err(error) => (refresh, Err(error)),
        }
    }
}

// ---------------------------------------------------------------------
// Laws
// ---------------------------------------------------------------------

/// A refresh of the fleet goes by the reports: a tracked VM whose client answered stays, under
/// its own identity, alive and with the worker count, vCPU count and counters that were
/// reported; one whose client failed is gone; one that was not tracked does not appear; and
/// one without a report is as it was.
pub proof fn law_fleet_goes_by_the_reports(
    before: Registry<Instance>,
    after: Registry<Instance>,
    outcomes: Seq<RefreshOutcome>,
    k: int,
    other: Seq<char>,
)
    requires
        refreshed_by(before, after, outcomes),
        0 <= k < outcomes.len(),
        forall|i: int| 0 <= i < outcomes.len() ==> (#[trigger] outcomes[i]).id@ != other,
    ensures
        ({
            let id = outcomes[k].id@;
            let was = before.vals()[before.ids().index_of(id)];
            let is = after.vals()[after.ids().index_of(id)];
            &&& after.ids().contains(id) <==> before.ids().contains(id) && outcomes[k].outcome is Ok
            &&& before.ids().contains(id) && outcomes[k].outcome is Ok ==> {
                let seen = outcomes[k].outcome->Ok_0.snapshot;
                &&& is.id == was.id
                &&& is.pid == was.pid
                &&& is.sock_path == was.sock_path
                &&& is.thread_name_filter == was.thread_name_filter
                &&& is.status.alive
                &&& is.status.thread_count == seen.thread_count
                &&& is.status.vcpu_count == seen.vcpu_count
                &&& is.status.perf == seen.perf
                &&& is.status.previous_perf_time == Some(outcomes[k].at)
                &&& is.status.manual_scaling_sticky == was.status.manual_scaling_sticky
                &&& is.status.cooldown_until == was.status.cooldown_until
            }
            &&& after.ids().contains(other) == before.ids().contains(other)
            &&& before.ids().contains(other) ==> after.vals()[after.ids().index_of(other)]
                == before.vals()[before.ids().index_of(other)]
        }),
{
    let ids = outcome_ids(outcomes);
    assert(ids[k] == outcomes[k].id@);
    assert(after.lookup(ids[k]) == record_after(before.lookup(ids[k]), outcomes[k]));
    assert(!ids.contains(other)) by {
        if ids.contains(other) {
            let i = ids.index_of(other);
            assert(outcomes[i].id@ == other);
        }
    }
    assert(after.lookup(other) == before.lookup(other));
}

/// The VMs that leave the inventory are the tracked ones whose clients failed.
pub proof fn law_failed_vms_leave(
    before: Registry<Instance>,
    outcomes: Seq<RefreshOutcome>,
    id: Seq<char>,
)
    ensures
        failed_ids(before, outcomes).contains(id) <==> exists|k: int|
            0 <= k < outcomes.len() && (#[trigger] outcomes[k]).id@ == id && outcomes[k].outcome
                is Err && before.ids().contains(id),
    decreases outcomes.len(),
{
    if outcomes.len() > 0 {
        let rest = outcomes.drop_last();
        let front = failed_ids(before, rest);
        let n = outcomes.len() - 1;
        law_failed_vms_leave(before, rest, id);
        if front.contains(id) {
            let at = front.index_of(id);
            assert(failed_ids(before, outcomes)[at] == id);
            let k = choose|k: int|
                0 <= k < rest.len() && (#[trigger] rest[k]).id@ == id && rest[k].outcome is Err
                    && before.ids().contains(id);
            assert(outcomes[k] == rest[k]);
        }
        if before.has(outcomes.last().id@) && outcomes.last().outcome is Err {
            assert(failed_ids(before, outcomes)[front.len() as int] == outcomes.last().id@);
            assert(outcomes[n] == outcomes.last());
        }
        if exists|k: int|
            0 <= k < outcomes.len() && (#[trigger] outcomes[k]).id@ == id && outcomes[k].outcome
                is Err && before.ids().contains(id) {
            let k = choose|k: int|
                0 <= k < outcomes.len() && (#[trigger] outcomes[k]).id@ == id
                    && outcomes[k].outcome is Err && before.ids().contains(id);
            if k < n {
                assert(rest[k] == outcomes[k]);
            }
        }
    }
}

/// For a tracked VM, a report that is a failure has its client closed and adds nothing to its
/// history, and any other report does not close it and adds what was seen; for a VM that is
/// not tracked there is nothing to do.
pub proof fn law_failed_clients_are_closed(before: Registry<Instance>, report: RefreshOutcome)
    ensures
        verdict_on(before, report) is Some <==> before.ids().contains(report.id@),
        verdict_on(before, report) matches Some(verdict) ==> {
            &&& verdict.refreshed <==> report.outcome is Ok
            &&& verdict.close_client <==> report.outcome is Err
            &&& report.outcome is Err ==> verdict.rolling == RollingUpdate::Nothing
            &&& report.outcome matches Ok(seen) ==> verdict.rolling == seen.rolling()
        },
{
}

} // verus!
