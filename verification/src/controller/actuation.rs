//! Holding scale actions against the safety checks, and applying them.

use vstd::prelude::*;

use crate::backends::BackendClientError;
use crate::binary64::Binary64;
use crate::config::Config;
use crate::controller::{lemma_ids_kept, Controller, ControllerError, ControllerErrorView};
use crate::engines::threshold::{poll, InstanceState, PollFigures, ThresholdConfig};
use crate::engines::{AppliedOutcome, BlockedReason, EngineTickContext, ScaleAction};
use crate::instance::{io_ops_total, io_total, Instance, InstanceStatus, Observation};
use crate::registry::law_update_is_local;

verus! {

/// A scale action that passed the controller's checks.
#[derive(Debug, Clone, Copy, PartialEq, Eq, Structural)]
pub struct ScaleRequest {
    /// Worker count to set.
    pub target: u32,
    /// Worker count before the action.
    pub prev_thread_count: u32,
    /// Completed operations before the action.
    pub prev_io_count_total: u64,
}

/// What the controller makes of an engine's decision.
#[derive(Debug, Clone, Copy, PartialEq, Eq, Structural)]
pub enum DecisionVerdict {
    /// There is nothing to do.
    Ignore,
    /// The action is not applied; the engine is to be told why.
    Block(BlockedReason),
    /// The VM's client is to set the worker count.
    Apply(ScaleRequest),
}

/// Whether the previous action is too recent for another one.
pub open spec fn cooling_down(status: InstanceStatus, now: u128) -> bool {
    match status.cooldown_until {
        Some(until) => now < until,
        None => false,
    }
}

/// Whether the host is too busy to grow a pool.
pub open spec fn host_saturated(cfg: Config, host_cpu_util: Binary64) -> bool {
    cfg.host_cpu_scale_up_ceiling.positive() && cfg.host_cpu_scale_up_ceiling.at_most(host_cpu_util)
}

/// Whether a worker count is above the guest's vCPU count. A count that is not known
/// caps nothing.
pub open spec fn beyond_vcpus(threads: u32, vcpu_count: Option<u32>) -> bool {
    match vcpu_count {
        Some(n) => threads > n,
        None => false,
    }
}

fn exceeds_vcpus(threads: u32, vcpu_count: Option<u32>) -> (r: bool)
    ensures
        r == beyond_vcpus(threads, vcpu_count),
{
    match vcpu_count {
        Some(n) => threads > n,
        None => false,
    }
}

/// The first check that an action fails, if any.
pub open spec fn blocked_by(
    cfg: Config,
    host_cpu_util: Binary64,
    status: InstanceStatus,
    action: ScaleAction,
    target: u32,
    now: u128,
) -> Option<BlockedReason> {
    if status.manual_scaling_sticky {
        Some(BlockedReason::ManualOverride)
    } else if !status.is_managed() {
        Some(BlockedReason::UnmanagedVm)
    } else if target < cfg.min_thread_count {
        Some(BlockedReason::TargetBelowMinimum)
    } else if target > cfg.max_thread_count {
        Some(BlockedReason::TargetExceedsMaximum)
    } else if beyond_vcpus(target, status.vcpu_count) {
        Some(BlockedReason::TargetExceedsVcpuCount)
    } else if action.ordinary() && cooling_down(status, now) {
        Some(BlockedReason::Cooldown)
    } else if action is Up && target > status.thread_count && host_saturated(cfg, host_cpu_util) {
        Some(BlockedReason::HostCpuCeiling)
    } else {
        None
    }
}

/// What the controller makes of an engine's decision on a VM.
pub open spec fn guarded(
    cfg: Config,
    host_cpu_util: Binary64,
    status: InstanceStatus,
    action: ScaleAction,
    now: u128,
) -> DecisionVerdict {
    match action.wanted() {
        None => DecisionVerdict::Ignore,
        Some(target) => match blocked_by(cfg, host_cpu_util, status, action, target, now) {
            Some(reason) => DecisionVerdict::Block(reason),
            None => DecisionVerdict::Apply(
                ScaleRequest {
                    target,
                    prev_thread_count: status.thread_count,
                    prev_io_count_total: io_total(status.perf) as u64,
                },
            ),
        },
    }
}

/// A VM's status after its client has set a worker count.
pub open spec fn actuated(
    cfg: Config,
    status: InstanceStatus,
    action: ScaleAction,
    target: u32,
    now: u128,
) -> InstanceStatus {
    InstanceStatus {
        thread_count: target,
        cooldown_until: if action.ordinary() {
            Some((now + cfg.cooldown_ns) as u128)
        } else {
            status.cooldown_until
        },
        ..status
    }
}

/// What the engine is told of an applied action and the client's answer.
pub open spec fn outcome_of(
    action: ScaleAction,
    request: ScaleRequest,
    answer: Result<(), BackendClientError>,
) -> AppliedOutcome {
    match answer {
        Ok(_) => AppliedOutcome::Success {
            action,
            prev_thread_count: request.prev_thread_count,
            prev_io_count_total: request.prev_io_count_total,
        },
        Err(error) => AppliedOutcome::Failed { action, error },
    }
}

/// A VM's status after an operator has set its worker count.
pub open spec fn set_by_hand(status: InstanceStatus, threads: u32, sticky: bool) -> InstanceStatus {
    InstanceStatus { thread_count: threads, manual_scaling_sticky: sticky, ..status }
}

impl Controller {
    /// What the controller makes of an engine's decision on a VM.
    pub open spec fn verdict(&self, id: Seq<char>, action: ScaleAction, now: u128) -> DecisionVerdict {
        match self.instances.lookup(id) {
            Some(instance) => guarded(
                self.cfg,
                self.host_cpu_util,
                instance.status,
                action,
                now,
            ),
            None => DecisionVerdict::Ignore,
        }
    }

    /// Hold one engine action against the controller's safety checks.
    pub fn apply_engine_decision(
        &self,
        instance_id: &str,
        action: ScaleAction,
        now: u128,
    ) -> (r: DecisionVerdict)
        requires
            self.wf(),
        ensures
            r == self.verdict(instance_id@, action, now),
    {
        let target: u32 = match action.target() {
            Some(target) => target,
            None => {
                return DecisionVerdict::Ignore;
            },
        };
        let status = match self.instances.get(instance_id) {
            Some(instance) => instance.status,
            None => {
                return DecisionVerdict::Ignore;
            },
        };
        if status.manual_scaling_sticky {
            return DecisionVerdict::Block(BlockedReason::ManualOverride);
        }
        if !status.scaling_allowed() {
            return DecisionVerdict::Block(BlockedReason::UnmanagedVm);
        }
        if target < self.cfg.min_thread_count {
            return DecisionVerdict::Block(BlockedReason::TargetBelowMinimum);
        }
        if target > self.cfg.max_thread_count {
            return DecisionVerdict::Block(BlockedReason::TargetExceedsMaximum);
        }
        if exceeds_vcpus(target, status.vcpu_count) {
            return DecisionVerdict::Block(BlockedReason::TargetExceedsVcpuCount);
        }
        let cooling: bool = match status.cooldown_until {
            Some(until) => now < until,
            None => false,
        };
        if action.is_ordinary() && cooling {
            return DecisionVerdict::Block(BlockedReason::Cooldown);
        }
        let growing: bool = match action {
            ScaleAction::Up(_) => target > status.thread_count,
            _ => false,
        };
        let ceiling = self.cfg.host_cpu_scale_up_ceiling;
        if growing && ceiling.is_positive() && ceiling.no_more_than(self.host_cpu_util) {
            return DecisionVerdict::Block(BlockedReason::HostCpuCeiling);
        }
        DecisionVerdict::Apply(
            ScaleRequest {
                target,
                prev_thread_count: status.thread_count,
                prev_io_count_total: io_ops_total(&status.perf),
            },
        )
    }

    /// Take note of the client's answer to an applied action, and report the
    /// outcome for the engine.
    pub fn finish_engine_decision(
        &mut self,
        instance_id: &str,
        action: ScaleAction,
        request: &ScaleRequest,
        answer: Result<(), BackendClientError>,
        now: u128,
    ) -> (r: AppliedOutcome)
        requires
            old(self).wf(),
            now + old(self).cfg.cooldown_ns <= u128::MAX,
        ensures
            final(self).wf(),
            r == outcome_of(action, *request, answer),
            match answer {
                Ok(_) => {
                    &&& r == (AppliedOutcome::Success {
                        action,
                        prev_thread_count: request.prev_thread_count,
                        prev_io_count_total: request.prev_io_count_total,
                    })
                    &&& match old(self).instances.lookup(instance_id@) {
                        Some(instance) => final(self).only_changed(
                            *old(self),
                            instance_id@,
                            Instance {
                                status: actuated(
                                    old(self).cfg,
                                    instance.status,
                                    action,
                                    request.target,
                                    now,
                                ),
                                ..instance
                            },
                        ),
                        None => *final(self) == *old(self),
                    }
                },
                Err(error) => r == (AppliedOutcome::Failed { action, error }) && *final(self)
                    == *old(self),
            },
    {
        match answer {
            Ok(_) => {
                let ghost before = self.instances;
                let until: u128 = now + self.cfg.cooldown_ns;
                let known = match self.instances.get_mut(instance_id) {
                    Some(instance) => {
                        instance.status.thread_count = request.target;
                        if action.is_ordinary() {
                            instance.status.cooldown_until = Some(until);
                        }
                        true
                    },
                    None => false,
                };
                proof {
                    if known {
                        let at = before.ids().index_of(instance_id@);
                        assert(before.ids()[at] == instance_id@);
                        assert(before.vals()[at].id@ == instance_id@);
                        law_update_is_local(
                            before,
                            self.instances,
                            instance_id@,
                            self.instances.vals()[at],
                        );
                        lemma_ids_kept(before, self.instances, instance_id@);
                    }
                }
                AppliedOutcome::Success {
                    action,
                    prev_thread_count: request.prev_thread_count,
                    prev_io_count_total: request.prev_io_count_total,
                }
            },
            Err(error) => AppliedOutcome::Failed { action, error },
        }
    }

    /// What is wrong with a request for a worker count, if anything.
    pub open spec fn manual_fault(&self, vm: Seq<char>, threads: u32) -> Option<ControllerErrorView> {
        match self.instances.lookup(vm) {
            None => Some(ControllerErrorView::VmError("unknown VM {vm}"@)),
            Some(instance) => if threads == 0 {
                Some(
                    ControllerErrorView::ThreadCountError(
                        "target thread count must be greater than zero"@,
                    ),
                )
            } else if beyond_vcpus(threads, instance.status.vcpu_count) {
                Some(
                    ControllerErrorView::ThreadCountError(
                        "target thread count {threads} > guest vCPU count {vcpu_count}"@,
                    ),
                )
            } else {
                None
            },
        }
    }

    /// Check a debug-only manual thread-count request; on success the VM's client
    /// is to set the worker count.
    pub fn handle_set_thread_count(&self, vm: &str, threads: u32) -> (r: Result<(), ControllerError>)
        requires
            self.wf(),
        ensures
            match self.manual_fault(vm@, threads) {
                Some(fault) => r is Err && r->Err_0@ == fault,
                None => r is Ok,
            },
    {
        let vcpu_count: Option<u32> = match self.instances.get(vm) {
            Some(instance) => instance.status.vcpu_count,
            None => {
                return Err(ControllerError::VmError("unknown VM {vm}".to_owned()));
            },
        };
        if threads == 0 {
            return Err(
                ControllerError::ThreadCountError(
                    "target thread count must be greater than zero".to_owned(),
                ),
            );
        }
        if exceeds_vcpus(threads, vcpu_count) {
            return Err(
                ControllerError::ThreadCountError(
                    "target thread count {threads} > guest vCPU count {vcpu_count}".to_owned(),
                ),
            );
        }
        Ok(())
    }

    /// Take note of the client's answer to a manual thread-count request.
    pub fn finish_set_thread_count(
        &mut self,
        vm: &str,
        threads: u32,
        sticky: bool,
        answer: Result<(), BackendClientError>,
    ) -> (r: Result<(), ControllerError>)
        requires
            old(self).wf(),
        ensures
            final(self).wf(),
            match answer {
                Ok(_) => {
                    &&& r is Ok
                    &&& match old(self).instances.lookup(vm@) {
                        Some(instance) => final(self).only_changed(
                            *old(self),
                            vm@,
                            Instance {
                                status: set_by_hand(instance.status, threads, sticky),
                                ..instance
                            },
                        ),
                        None => *final(self) == *old(self),
                    }
                },
                Err(e) => r is Err && r->Err_0@ == ControllerErrorView::BackendClient(e@)
                    && *final(self) == *old(self),
            },
    {
        match answer {
            Ok(_) => {
                let ghost before = self.instances;
                let known = match self.instances.get_mut(vm) {
                    Some(instance) => {
                        instance.status.thread_count = threads;
                        instance.status.manual_scaling_sticky = sticky;
                        true
                    },
                    None => false,
                };
                proof {
                    if known {
                        let at = before.ids().index_of(vm@);
                        assert(before.ids()[at] == vm@);
                        assert(before.vals()[at].id@ == vm@);
                        law_update_is_local(before, self.instances, vm@, self.instances.vals()[at]);
                        lemma_ids_kept(before, self.instances, vm@);
                    }
                }
                Ok(())
            },
            Err(error) => Err(ControllerError::BackendClient(error)),
        }
    }
}

// ---------------------------------------------------------------------
// Laws
// ---------------------------------------------------------------------

/// What the controller applies is safe: the VM is managed and under no override,
/// the target is within the configured bounds and the guest's vCPUs where their
/// number is known, an ordinary action waits for the cooldown, and a pool grows only on a host with room.
pub proof fn law_applied_actions_are_safe(
    cfg: Config,
    host_cpu_util: Binary64,
    status: InstanceStatus,
    action: ScaleAction,
    now: u128,
)
    requires
        guarded(cfg, host_cpu_util, status, action, now) is Apply,
    ensures
        ({
            let request = guarded(cfg, host_cpu_util, status, action, now)->Apply_0;
            &&& action.wanted() == Some(request.target)
            &&& !status.manual_scaling_sticky
            &&& status.is_managed()
            &&& cfg.min_thread_count <= request.target <= cfg.max_thread_count
            &&& !beyond_vcpus(request.target, status.vcpu_count)
            &&& action.ordinary() ==> !cooling_down(status, now)
            &&& action is Up && request.target > status.thread_count ==> !host_saturated(
                cfg,
                host_cpu_util,
            )
        }),
{
}

/// A vCPU count that is not known caps nothing: neither an engine's action nor a
/// manual request is turned down for it.
pub proof fn law_unknown_vcpus_cap_nothing(
    controller: Controller,
    status: InstanceStatus,
    action: ScaleAction,
    target: u32,
    now: u128,
    vm: Seq<char>,
    threads: u32,
)
    requires
        status.vcpu_count is None,
    ensures
        blocked_by(controller.cfg, controller.host_cpu_util, status, action, target, now) != Some(
            BlockedReason::TargetExceedsVcpuCount,
        ),
        controller.instances.lookup(vm) is Some && controller.instances.lookup(vm)->0.status
            == status && threads > 0 ==> controller.manual_fault(vm, threads) is None,
{
}

/// A managed VM is not starved: an action within the bounds and the guest's vCPUs
/// is applied where no override, cooldown or busy host stands against it.
pub proof fn law_eligible_actions_are_applied(
    cfg: Config,
    host_cpu_util: Binary64,
    status: InstanceStatus,
    action: ScaleAction,
    now: u128,
)
    requires
        action.wanted() is Some,
        !status.manual_scaling_sticky,
        status.is_managed(),
        cfg.min_thread_count <= action.wanted()->0 <= cfg.max_thread_count,
        !beyond_vcpus(action.wanted()->0, status.vcpu_count),
        !cooling_down(status, now),
        !host_saturated(cfg, host_cpu_util),
    ensures
        guarded(cfg, host_cpu_util, status, action, now) is Apply,
{
}

/// A saturated pool grows: where the engine sees more load than its threshold, with
/// nothing pending and room below the maximum, and the VM is managed, has a vCPU
/// for another worker, and no override, cooldown or busy host stands against it,
/// the decision to add one worker is applied.
pub proof fn law_saturated_pool_grows(
    settings: ThresholdConfig,
    state: InstanceState,
    seen: PollFigures,
    context: EngineTickContext,
    cfg: Config,
    status: InstanceStatus,
    now: u128,
)
    requires
        state.pending_validation is None,
        settings.scale_up_threshold.below(seen.per_thread_util),
        seen.thread_count == status.thread_count,
        context.min_thread_count == cfg.min_thread_count,
        context.max_thread_count == cfg.max_thread_count,
        cfg.min_thread_count <= status.thread_count + 1 <= cfg.max_thread_count,
        !beyond_vcpus((status.thread_count + 1) as u32, status.vcpu_count),
        status.is_managed(),
        !status.manual_scaling_sticky,
        !cooling_down(status, now),
        !host_saturated(cfg, context.host_cpu_util),
    ensures
        guarded(
            cfg,
            context.host_cpu_util,
            status,
            poll(settings, state, seen, context).1,
            now,
        ) == DecisionVerdict::Apply(
            ScaleRequest {
                target: (status.thread_count + 1) as u32,
                prev_thread_count: status.thread_count,
                prev_io_count_total: io_total(status.perf) as u64,
            },
        ),
{
}

/// A revert depends neither on the cooldown nor on the host's load.
pub proof fn law_revert_passes_cooldown_and_ceiling(
    cfg: Config,
    host_cpu_util: Binary64,
    other_util: Binary64,
    status: InstanceStatus,
    cooldown_until: Option<u128>,
    target: u32,
    now: u128,
)
    ensures
        guarded(cfg, host_cpu_util, status, ScaleAction::Revert(target), now) == guarded(
            cfg,
            other_util,
            InstanceStatus { cooldown_until, ..status },
            ScaleAction::Revert(target),
            now,
        ),
{
}

/// What can happen to a tracked VM between two ordinary actions of the engine.
pub enum VmStep {
    /// Its client reported at a time.
    Refreshed(Observation, u128),
    /// An operator set its worker count.
    SetByHand {
        /// The worker count.
        threads: u32,
        /// Whether automatic scaling is suppressed from now on.
        sticky: bool,
    },
    /// A revert to a worker count was applied at a time.
    Reverted(u32, u128),
}

/// A VM's status after a run of steps.
pub open spec fn after_steps(
    cfg: Config,
    status: InstanceStatus,
    steps: Seq<VmStep>,
) -> InstanceStatus
    decreases steps.len(),
{
    if steps.len() == 0 {
        status
    } else {
        let before = after_steps(cfg, status, steps.drop_last());
        match steps.last() {
            VmStep::Refreshed(seen, now) => before.after(seen, now),
            VmStep::SetByHand { threads, sticky } => set_by_hand(before, threads, sticky),
            VmStep::Reverted(target, now) => actuated(
                cfg,
                before,
                ScaleAction::Revert(target),
                target,
                now,
            ),
        }
    }
}

/// Whether no operator lifts the override in a run of steps.
pub open spec fn keeps_override(steps: Seq<VmStep>) -> bool {
    forall|i: int|
        0 <= i < steps.len() ==> match #[trigger] steps[i] {
            VmStep::SetByHand { threads, sticky } => sticky,
            _ => true,
        }
}

proof fn lemma_steps_keep_cooldown(cfg: Config, status: InstanceStatus, steps: Seq<VmStep>)
    ensures
        after_steps(cfg, status, steps).cooldown_until == status.cooldown_until,
    decreases steps.len(),
{
    if steps.len() > 0 {
        lemma_steps_keep_cooldown(cfg, status, steps.drop_last());
    }
}

proof fn lemma_steps_keep_override(cfg: Config, status: InstanceStatus, steps: Seq<VmStep>)
    requires
        status.manual_scaling_sticky,
        keeps_override(steps),
    ensures
        after_steps(cfg, status, steps).manual_scaling_sticky,
    decreases steps.len(),
{
    if steps.len() > 0 {
        let front = steps.drop_last();
        assert forall|i: int| 0 <= i < front.len() implies match #[trigger] front[i] {
            VmStep::SetByHand { threads, sticky } => sticky,
            _ => true,
        } by {
            assert(steps[i] == front[i]);
        }
        lemma_steps_keep_override(cfg, status, front);
        assert(steps[steps.len() - 1] == steps.last());
    }
}

/// After an ordinary action on a VM, no other one is applied to it before the
/// cooldown is over, whatever refreshes, manual requests and reverts come in between.
pub proof fn law_cooldown_separates_actions(
    cfg: Config,
    host_cpu_util: Binary64,
    status: InstanceStatus,
    action: ScaleAction,
    target: u32,
    applied_at: u128,
    steps: Seq<VmStep>,
    next: ScaleAction,
    now: u128,
)
    requires
        action.ordinary(),
        next.ordinary(),
        applied_at + cfg.cooldown_ns <= u128::MAX,
        now < applied_at + cfg.cooldown_ns,
    ensures
        !(guarded(
            cfg,
            host_cpu_util,
            after_steps(cfg, actuated(cfg, status, action, target, applied_at), steps),
            next,
            now,
        ) is Apply),
{
    lemma_steps_keep_cooldown(cfg, actuated(cfg, status, action, target, applied_at), steps);
}

/// A sticky manual override blocks every automatic action on the VM, and goes on doing
/// so over refreshes and further manual requests until one of these lifts it.
pub proof fn law_sticky_override_blocks(
    cfg: Config,
    host_cpu_util: Binary64,
    status: InstanceStatus,
    steps: Seq<VmStep>,
    action: ScaleAction,
    now: u128,
)
    requires
        status.manual_scaling_sticky,
        keeps_override(steps),
        action.wanted() is Some,
    ensures
        guarded(cfg, host_cpu_util, after_steps(cfg, status, steps), action, now)
            == DecisionVerdict::Block(BlockedReason::ManualOverride),
{
    lemma_steps_keep_override(cfg, status, steps);
}

/// A manual request that is not sticky lifts the override.
pub proof fn law_override_is_lifted(
    cfg: Config,
    host_cpu_util: Binary64,
    status: InstanceStatus,
    threads: u32,
    action: ScaleAction,
    now: u128,
)
    ensures
        guarded(cfg, host_cpu_util, set_by_hand(status, threads, false), action, now)
            != DecisionVerdict::Block(BlockedReason::ManualOverride),
{
}

/// A VM that is not classified as managed is never scaled automatically.
pub proof fn law_unmanaged_is_never_scaled(
    cfg: Config,
    host_cpu_util: Binary64,
    status: InstanceStatus,
    action: ScaleAction,
    now: u128,
)
    requires
        !status.is_managed(),
    ensures
        !(guarded(cfg, host_cpu_util, status, action, now) is Apply),
{
}

/// A busy host grows no pool: where the ceiling is a positive number and the host's
/// utilisation is at or above it, as numbers, no action in the upward direction with a
/// target above the present worker count is applied.
pub proof fn law_busy_host_grows_no_pool(
    cfg: Config,
    host_cpu_util: Binary64,
    status: InstanceStatus,
    target: u32,
    now: u128,
)
    requires
        Binary64::zero_spec().below(cfg.host_cpu_scale_up_ceiling),
        cfg.host_cpu_scale_up_ceiling.at_most(host_cpu_util),
        target > status.thread_count,
    ensures
        !(guarded(cfg, host_cpu_util, status, ScaleAction::Up(target), now) is Apply),
{
}

/// The host's load stands against nothing else: an action that is turned down at one
/// load for another reason, or that does not grow the pool, is judged alike at every
/// load; and so is every action where the ceiling is not positive.
pub proof fn law_host_load_concerns_growth_only(
    cfg: Config,
    one_util: Binary64,
    other_util: Binary64,
    status: InstanceStatus,
    action: ScaleAction,
    now: u128,
)
    requires
        !Binary64::zero_spec().below(cfg.host_cpu_scale_up_ceiling) || !(action is Up) || action->Up_0
            <= status.thread_count || !cfg.host_cpu_scale_up_ceiling.at_most(one_util)
            && !cfg.host_cpu_scale_up_ceiling.at_most(other_util),
    ensures
        guarded(cfg, one_util, status, action, now) == guarded(
            cfg,
            other_util,
            status,
            action,
            now,
        ),
{
}

/// An action is applied exactly when nothing stands against it: no override; a VM that
/// is classified as managed; a target within the configured bounds, and no larger than
/// the guest's vCPU count where that is known; for an action other than a revert, a
/// cooldown that is over; and for growth, a host below its ceiling, if it has one. What is
/// applied is the action's own target, along with the worker count and the sum of the
/// I/O counters before it.
pub proof fn law_applied_exactly_when_nothing_stands_against(
    cfg: Config,
    host_cpu_util: Binary64,
    status: InstanceStatus,
    action: ScaleAction,
    target: u32,
    now: u128,
)
    requires
        action == ScaleAction::Up(target) || action == ScaleAction::Down(target) || action
            == ScaleAction::Revert(target),
    ensures
        guarded(cfg, host_cpu_util, status, action, now) is Apply <==> {
            &&& !status.manual_scaling_sticky
            &&& status.ownership_classification == Some(true)
            &&& cfg.min_thread_count <= target
            &&& target <= cfg.max_thread_count
            &&& status.vcpu_count is Some ==> target <= status.vcpu_count->0
            &&& !(action is Revert) && status.cooldown_until is Some ==> now
                >= status.cooldown_until->0
            &&& action is Up && target > status.thread_count && Binary64::zero_spec().below(
                cfg.host_cpu_scale_up_ceiling,
            ) ==> !cfg.host_cpu_scale_up_ceiling.at_most(host_cpu_util)
        },
        guarded(cfg, host_cpu_util, status, action, now) matches DecisionVerdict::Apply(request)
            ==> {
            &&& request.target == target
            &&& request.prev_thread_count == status.thread_count
            &&& status.perf is None ==> request.prev_io_count_total == 0
            &&& status.perf matches Some(perf) ==> {
                let sum = perf.read_io_count + perf.write_io_count + perf.other_io_count;
                &&& sum <= u64::MAX ==> request.prev_io_count_total == sum
                &&& sum > u64::MAX ==> request.prev_io_count_total == u64::MAX
            }
        },
{
}

/// A decision to leave the pool alone is neither applied nor blocked.
pub proof fn law_holding_is_ignored(
    cfg: Config,
    host_cpu_util: Binary64,
    status: InstanceStatus,
    now: u128,
)
    ensures
        guarded(cfg, host_cpu_util, status, ScaleAction::Hold, now) is Ignore,
{
}

/// A blocked action is blocked for the first of the reasons that hold, in this order:
/// the override, the ownership, the minimum, the maximum, the vCPU count, the cooldown,
/// and the host's load.
pub proof fn law_blocked_for_the_first_reason(
    cfg: Config,
    host_cpu_util: Binary64,
    status: InstanceStatus,
    action: ScaleAction,
    target: u32,
    now: u128,
)
    requires
        action == ScaleAction::Up(target) || action == ScaleAction::Down(target) || action
            == ScaleAction::Revert(target),
    ensures
        ({
            let verdict = guarded(cfg, host_cpu_util, status, action, now);
            let held = status.manual_scaling_sticky;
            let foreign = status.ownership_classification != Some(true);
            let low = target < cfg.min_thread_count;
            let high = target > cfg.max_thread_count;
            let beyond = status.vcpu_count is Some && target > status.vcpu_count->0;
            let cooling = !(action is Revert) && status.cooldown_until is Some && now
                < status.cooldown_until->0;
            &&& held ==> verdict == DecisionVerdict::Block(BlockedReason::ManualOverride)
            &&& !held && foreign ==> verdict == DecisionVerdict::Block(BlockedReason::UnmanagedVm)
            &&& !held && !foreign && low ==> verdict == DecisionVerdict::Block(
                BlockedReason::TargetBelowMinimum,
            )
            &&& !held && !foreign && !low && high ==> verdict == DecisionVerdict::Block(
                BlockedReason::TargetExceedsMaximum,
            )
            &&& !held && !foreign && !low && !high && beyond ==> verdict == DecisionVerdict::Block(
                BlockedReason::TargetExceedsVcpuCount,
            )
            &&& !held && !foreign && !low && !high && !beyond && cooling ==> verdict
                == DecisionVerdict::Block(BlockedReason::Cooldown)
            &&& !held && !foreign && !low && !high && !beyond && !cooling ==> verdict is Apply
                || verdict == DecisionVerdict::Block(BlockedReason::HostCpuCeiling)
        }),
{
}

/// A VM is judged by its own status, the controller's settings and the controller's
/// measure of the host; a VM that is not tracked is left alone.
pub proof fn law_vms_are_judged_by_their_own_status(
    controller: Controller,
    id: Seq<char>,
    action: ScaleAction,
    now: u128,
)
    ensures
        !controller.instances.has(id) ==> controller.verdict(id, action, now) is Ignore,
        controller.instances.has(id) ==> controller.verdict(id, action, now) == guarded(
            controller.cfg,
            controller.host_cpu_util,
            controller.instances.vals()[controller.instances.ids().index_of(id)].status,
            action,
            now,
        ),
{
}

/// An applied action takes effect: the worker count is the target, an action other than
/// a revert starts the cooldown and a revert leaves it, and nothing else changes.
pub proof fn law_applied_action_takes_effect(
    cfg: Config,
    status: InstanceStatus,
    action: ScaleAction,
    target: u32,
    now: u128,
)
    requires
        action is Up || action is Down || action is Revert,
        now + cfg.cooldown_ns <= u128::MAX,
    ensures
        ({
            let after = actuated(cfg, status, action, target, now);
            &&& after.thread_count == target
            &&& !(action is Revert) ==> after.cooldown_until is Some && after.cooldown_until->0
                == now + cfg.cooldown_ns
            &&& action is Revert ==> after.cooldown_until == status.cooldown_until
            &&& (InstanceStatus {
                thread_count: status.thread_count,
                cooldown_until: status.cooldown_until,
                ..after
            }) == status
        }),
{
}

/// The cooldown ends: an action that is blocked for nothing but the cooldown is applied
/// once the cooldown is over.
pub proof fn law_cooldown_ends(
    cfg: Config,
    host_cpu_util: Binary64,
    status: InstanceStatus,
    action: ScaleAction,
    now: u128,
    later: u128,
)
    requires
        status.cooldown_until is Some,
        later >= status.cooldown_until->0,
    ensures
        guarded(cfg, host_cpu_util, status, action, later) == guarded(
            cfg,
            host_cpu_util,
            InstanceStatus { cooldown_until: None, ..status },
            action,
            now,
        ),
{
}

/// A manual request is turned down exactly where its VM is not tracked, or it asks for no
/// worker, or for more than the guest's known vCPU count.
pub proof fn law_manual_requests_within_limits_pass(
    controller: Controller,
    vm: Seq<char>,
    threads: u32,
)
    ensures
        controller.manual_fault(vm, threads) is None <==> {
            let status = controller.instances.vals()[controller.instances.ids().index_of(vm)].status;
            &&& controller.instances.ids().contains(vm)
            &&& threads >= 1
            &&& status.vcpu_count is Some ==> threads <= status.vcpu_count->0
        },
        controller.manual_fault(vm, threads) is Some ==> {
            let fault = controller.manual_fault(vm, threads)->0;
            (fault is VmError) == !controller.instances.ids().contains(vm) && (
            fault is ThreadCountError) == controller.instances.ids().contains(vm)
        },
{
}

/// A manual request sets the worker count and the override, and nothing else: neither the
/// ownership nor the cooldown nor what was measured.
pub proof fn law_manual_request_takes_effect(status: InstanceStatus, threads: u32, sticky: bool)
    ensures
        set_by_hand(status, threads, sticky).thread_count == threads,
        set_by_hand(status, threads, sticky).manual_scaling_sticky == sticky,
        (InstanceStatus {
            thread_count: status.thread_count,
            manual_scaling_sticky: status.manual_scaling_sticky,
            ..set_by_hand(status, threads, sticky)
        }) == status,
{
}

/// The engine is told what became of its action: that it succeeded, with the worker count and the
/// operations that there were before it, or that it failed, and why.
pub proof fn law_engine_is_told_the_outcome(
    action: ScaleAction,
    request: ScaleRequest,
    error: BackendClientError,
)
    ensures
        ({
            let good = outcome_of(action, request, Ok(()));
            &&& good is Success
            &&& good->Success_action == action
            &&& good->Success_prev_thread_count == request.prev_thread_count
            &&& good->Success_prev_io_count_total == request.prev_io_count_total
        }),
        ({
            let bad = outcome_of(action, request, Err(error));
            &&& bad is Failed
            &&& bad->Failed_action == action
            &&& bad->error == error
        }),
{
}

} // verus!
