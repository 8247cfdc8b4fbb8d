//! Threshold engine: size a worker pool to carry the observed CPU load.

use vstd::prelude::*;

use crate::arithmetic::{held_count, lemma_infinite_count, one_units};
use crate::binary64::{Binary64, INFINITY_BITS, ONE_BITS};
use crate::bounds::{
    lemma_at_least, lemma_at_most, lemma_count_is_exact, lemma_count_range, lemma_infinite_over,
    lemma_power_units, lemma_rounded_is_number, lemma_scaled_back, lemma_smallest_count,
    lemma_sum_range,
};
use crate::config::{ConfigError, ConfigErrorView};
use crate::engines::{AppliedOutcome, EngineTickContext, ScaleAction};
use crate::instance::{io_ops_total, io_total, InstanceStatus};
use crate::powers::lemma_twos_grow;
use crate::registry::{law_append_is_local, law_remove_is_local, law_update_is_local, Registry};
use crate::rounding::{lemma_nearest_in_order, lemma_twos_120, lemma_units_grow};

verus! {

/// Registry and configuration name of the threshold engine.
pub const ENGINE_NAME: &'static str = "threshold";

/// The binary64 pattern of 0.95.
pub const DEFAULT_THRESHOLD_BITS: u64 = 0x3fee_6666_6666_6666;

/// The binary64 pattern of 0.05.
pub const DEFAULT_TOLERANCE_BITS: u64 = 0x3fa9_9999_9999_999a;

/// Scale, sustain, and post-action validation settings.
#[derive(Debug, Clone, Copy, PartialEq, Eq, Structural)]
pub struct ThresholdConfig {
    /// Average per-worker CPU fraction above which another worker is proposed.
    pub scale_up_threshold: Binary64,
    /// Consecutive eligible polls required before scale-down.
    pub scale_down_sustain_polls: u32,
    /// Maximum number of threads than can be reduced in a scale down operation.
    /// 0 means unlimited.
    pub max_scale_down_step: u32,
    /// Minimum IOPS gain required after scale-up; zero disables validation.
    pub scale_up_min_gain: Binary64,
    /// Maximum tolerated IOPS loss after scale-down; zero disables validation.
    pub scale_down_revert_drop: Binary64,
    /// Complete samples to wait before validating a successful action.
    pub scale_validation_sample_polls: u32,
}

impl ThresholdConfig {
    /// The built-in settings.
    pub open spec fn built_in() -> ThresholdConfig {
        ThresholdConfig {
            scale_up_threshold: Binary64 { bits: DEFAULT_THRESHOLD_BITS },
            scale_down_sustain_polls: 3,
            max_scale_down_step: 0,
            scale_up_min_gain: Binary64 { bits: DEFAULT_TOLERANCE_BITS },
            scale_down_revert_drop: Binary64 { bits: DEFAULT_TOLERANCE_BITS },
            scale_validation_sample_polls: 2,
        }
    }

    /// What is wrong with the settings, if anything.
    pub open spec fn fault(self) -> Option<Seq<char>> {
        if !(self.scale_up_threshold.positive() && self.scale_up_threshold.in_unit()) {
            Some("scale_up_threshold_percent must be in (0, 100]"@)
        } else if !self.scale_up_min_gain.in_unit() {
            Some("scale_up_min_gain_percent must be in [0, 100]"@)
        } else if !self.scale_down_revert_drop.in_unit() {
            Some("scale_down_revert_drop_percent must be in [0, 100]"@)
        } else {
            None
        }
    }

    /// Reject unusable percentages.
    pub fn validate(&self) -> (r: Result<(), ConfigError>)
        ensures
            match self.fault() {
                Some(text) => r is Err && r->Err_0@ == ConfigErrorView::InvalidValue(text),
                None => r is Ok,
            },
    {
        if !(self.scale_up_threshold.is_finite() && self.scale_up_threshold.is_positive()
            && self.scale_up_threshold.no_more_than(Binary64::one())) {
            return Err(
                ConfigError::InvalidValue(
                    "scale_up_threshold_percent must be in (0, 100]".to_owned(),
                ),
            );
        }
        if !(self.scale_up_min_gain.is_finite() && self.scale_up_min_gain.is_unit()) {
            return Err(
                ConfigError::InvalidValue(
                    "scale_up_min_gain_percent must be in [0, 100]".to_owned(),
                ),
            );
        }
        if !(self.scale_down_revert_drop.is_finite() && self.scale_down_revert_drop.is_unit()) {
            return Err(
                ConfigError::InvalidValue(
                    "scale_down_revert_drop_percent must be in [0, 100]".to_owned(),
                ),
            );
        }
        Ok(())
    }
}

impl Default for ThresholdConfig {
    fn default() -> (r: Self)
        ensures
            r == ThresholdConfig::built_in(),
    {
        ThresholdConfig {
            scale_up_threshold: Binary64::from_bits(DEFAULT_THRESHOLD_BITS),
            scale_down_sustain_polls: 3,
            max_scale_down_step: 0,
            scale_up_min_gain: Binary64::from_bits(DEFAULT_TOLERANCE_BITS),
            scale_down_revert_drop: Binary64::from_bits(DEFAULT_TOLERANCE_BITS),
            scale_validation_sample_polls: 2,
        }
    }
}

/// One successful action waiting for post-action IOPS validation.
#[derive(Debug, Clone, Copy, PartialEq, Eq, Structural)]
pub struct PendingValidation {
    /// Action whose performance effect is being checked.
    pub action: ScaleAction,
    /// Worker count to restore after a regression.
    pub baseline_thread_count: u32,
    /// I/O operations counted immediately before actuation.
    pub baseline_iops: u64,
    /// Complete observations still required before evaluation.
    pub polls_remaining: u32,
}

/// Per-VM counters owned by this engine.
#[derive(Debug, Clone, Copy, PartialEq, Eq, Structural)]
pub struct InstanceState {
    /// Number of consecutive polls eligible for scale-down.
    pub low_util_polls: u32,
    /// Successful action waiting for its performance validation sample.
    pub pending_validation: Option<PendingValidation>,
}

/// What the engine is told of a VM on one poll.
#[derive(Debug, Clone, Copy, PartialEq, Eq, Structural)]
pub struct PollFigures {
    /// Average CPU utilisation per worker.
    pub per_thread_util: Binary64,
    /// Current worker count.
    pub thread_count: u32,
    /// I/O operations counted up to this poll.
    pub iops_total: u64,
}

impl PollFigures {
    /// Read the figures off a VM's status.
    pub fn of(status: &InstanceStatus) -> (r: Self)
        ensures
            r.per_thread_util == status.per_thread_util,
            r.thread_count == status.thread_count,
            r.iops_total == io_total(status.perf),
    {
        PollFigures {
            per_thread_util: status.per_thread_util,
            thread_count: status.thread_count,
            iops_total: io_ops_total(&status.perf),
        }
    }
}

impl InstanceState {
    /// The state of a VM that the engine has just met.
    pub open spec fn fresh() -> InstanceState {
        InstanceState { low_util_polls: 0, pending_validation: None }
    }

    /// Create the state of a VM that the engine has just met.
    pub fn new() -> (r: Self)
        ensures
            r == InstanceState::fresh(),
    {
        InstanceState { low_util_polls: 0, pending_validation: None }
    }

    /// Retain the baseline needed to validate a completed scale action.
    fn start_validation(
        &mut self,
        action: ScaleAction,
        previous_thread_count: u32,
        previous_iops: u64,
        polls_remaining: u32,
    )
        ensures
            *final(self) == (InstanceState {
                pending_validation: Some(
                    PendingValidation {
                        action,
                        baseline_thread_count: previous_thread_count,
                        baseline_iops: previous_iops,
                        polls_remaining,
                    },
                ),
                ..*old(self)
            }),
    {
        self.pending_validation = Some(
            PendingValidation {
                action,
                baseline_thread_count: previous_thread_count,
                baseline_iops: previous_iops,
                polls_remaining,
            },
        );
    }
}

// ---------------------------------------------------------------------
// The rules
// ---------------------------------------------------------------------

/// The larger of two counts.
pub open spec fn larger(a: int, b: int) -> int {
    if a >= b {
        a
    } else {
        b
    }
}

/// The fewest workers that carry a load at the threshold: the utilisation times the
/// present count, divided by the threshold, rounded up, and held between 1 and the
/// largest count. It is 0 where the load is not a number.
pub open spec fn required_threads(util: Binary64, thread_count: u32, threshold: Binary64) -> u32 {
    if util.is_nan_spec() || (!util.is_finite_spec() && thread_count == 0) {
        0
    } else if !util.positive() {
        1
    } else if !util.is_finite_spec() {
        u32::MAX
    } else {
        let load = util.times(Binary64::of_count(thread_count as u64));
        held_count(load.over(threshold).rounded_up()) as u32
    }
}

/// The worker count to shrink to: what the load requires, no lower than the
/// minimum and no more than `step` below the present count (0: any distance);
/// the present count where that is no reduction.
pub open spec fn down_target(step: u32, required: u32, thread_count: u32, minimum: u32) -> int {
    let target = larger(required as int, minimum as int);
    if target >= thread_count {
        thread_count as int
    } else if step == 0 {
        target
    } else {
        larger(target, thread_count - step)
    }
}

/// The tolerance under which an action is validated, if it is.
pub open spec fn tolerance(cfg: ThresholdConfig, action: ScaleAction) -> Option<Binary64> {
    match action {
        ScaleAction::Up(_) => Some(cfg.scale_up_min_gain),
        ScaleAction::Down(_) => Some(cfg.scale_down_revert_drop),
        _ => None,
    }
}

/// The count of I/O operations that an action must show: the baseline times one plus
/// the minimum gain after a scale-up, times one minus the tolerated drop after a
/// scale-down.
pub open spec fn required_iops(cfg: ThresholdConfig, pending: PendingValidation) -> Binary64 {
    let factor = match pending.action {
        ScaleAction::Up(_) => Binary64::one_spec().plus(cfg.scale_up_min_gain),
        _ => Binary64::one_spec().minus(cfg.scale_down_revert_drop),
    };
    Binary64::of_count(pending.baseline_iops).times(factor)
}

/// Whether a settled action has failed its validation.
pub open spec fn regressed(
    cfg: ThresholdConfig,
    pending: PendingValidation,
    observed_iops: u64,
) -> bool {
    &&& tolerance(cfg, pending.action) is Some
    &&& tolerance(cfg, pending.action)->0.positive()
    &&& pending.baseline_iops > 0
    &&& Binary64::of_count(observed_iops).below(required_iops(cfg, pending))
}

/// The worker count that a poll finds enough.
pub open spec fn enough(
    cfg: ThresholdConfig,
    seen: PollFigures,
    context: EngineTickContext,
) -> int {
    down_target(
        cfg.max_scale_down_step,
        required_threads(seen.per_thread_util, seen.thread_count, cfg.scale_up_threshold),
        seen.thread_count,
        context.min_thread_count,
    )
}

/// The engine's state and decision after one poll that is not spent on
/// validation.
pub open spec fn decide(
    cfg: ThresholdConfig,
    low_util_polls: int,
    seen: PollFigures,
    context: EngineTickContext,
) -> (InstanceState, ScaleAction) {
    let down = enough(cfg, seen, context);
    let polls = if down < seen.thread_count {
        low_util_polls + 1
    } else {
        0
    };
    let state = InstanceState { low_util_polls: polls as u32, pending_validation: None };
    if seen.thread_count < context.max_thread_count && cfg.scale_up_threshold.below(
        seen.per_thread_util,
    ) {
        (state, ScaleAction::Up((seen.thread_count + 1) as u32))
    } else if down < seen.thread_count && polls >= cfg.scale_down_sustain_polls {
        (state, ScaleAction::Down(down as u32))
    } else {
        (state, ScaleAction::Hold)
    }
}

/// The engine's state and decision after one poll.
pub open spec fn poll(
    cfg: ThresholdConfig,
    state: InstanceState,
    seen: PollFigures,
    context: EngineTickContext,
) -> (InstanceState, ScaleAction) {
    match state.pending_validation {
        Some(pending) => if pending.polls_remaining > 0 {
            let waiting = PendingValidation {
                polls_remaining: (pending.polls_remaining - 1) as u32,
                ..pending
            };
            (InstanceState { pending_validation: Some(waiting), ..state }, ScaleAction::Hold)
        } else if regressed(cfg, pending, seen.iops_total) {
            (
                InstanceState { pending_validation: None, ..state },
                ScaleAction::Revert(pending.baseline_thread_count),
            )
        } else {
            decide(cfg, state.low_util_polls as int, seen, context)
        },
        None => decide(cfg, state.low_util_polls as int, seen, context),
    }
}

/// The engine's state after an accepted action.
pub open spec fn accepted(
    cfg: ThresholdConfig,
    state: InstanceState,
    action: ScaleAction,
    prev_thread_count: u32,
    prev_iops: u64,
) -> InstanceState {
    match tolerance(cfg, action) {
        Some(t) => InstanceState {
            low_util_polls: 0,
            pending_validation: if t.positive() {
                Some(
                    PendingValidation {
                        action,
                        baseline_thread_count: prev_thread_count,
                        baseline_iops: prev_iops,
                        polls_remaining: cfg.scale_validation_sample_polls,
                    },
                )
            } else {
                state.pending_validation
            },
        },
        None => state,
    }
}

/// The engine's state after an action's outcome.
pub open spec fn told(
    cfg: ThresholdConfig,
    state: InstanceState,
    outcome: AppliedOutcome,
) -> InstanceState {
    match outcome {
        AppliedOutcome::Success { action, prev_thread_count, prev_io_count_total } => accepted(
            cfg,
            state,
            action,
            prev_thread_count,
            prev_io_count_total,
        ),
        AppliedOutcome::DryRun { action, prev_thread_count, prev_io_count_total } => accepted(
            cfg,
            state,
            action,
            prev_thread_count,
            prev_io_count_total,
        ),
        AppliedOutcome::Blocked { .. } => state,
        AppliedOutcome::Failed { .. } => state,
    }
}

// ---------------------------------------------------------------------
// The engine
// ---------------------------------------------------------------------

/// Scaling engine driven by CPU utilisation thresholds.
pub struct ThresholdEngine {
    cfg: ThresholdConfig,
    state: Registry<InstanceState>,
}

impl ThresholdEngine {
    /// The settings.
    pub closed spec fn settings(&self) -> ThresholdConfig {
        self.cfg
    }

    /// The VMs that the engine knows, with their state.
    pub closed spec fn known(&self) -> Registry<InstanceState> {
        self.state
    }

    /// The settings are usable, and no VM is known twice.
    pub open spec fn wf(&self) -> bool {
        &&& self.settings().fault() is None
        &&& self.known().wf()
    }

    /// The state of a VM; that of a new one where the engine has not met it.
    pub open spec fn state_of(&self, id: Seq<char>) -> InstanceState {
        match self.known().lookup(id) {
            Some(state) => state,
            None => InstanceState::fresh(),
        }
    }

    /// Whether the VM `id` has the state `state` and all else is as in `before`.
    pub open spec fn only_changed(&self, before: Self, id: Seq<char>, state: InstanceState) -> bool {
        &&& self.settings() == before.settings()
        &&& forall|other: Seq<char>|
            #![trigger self.known().lookup(other)]
            self.known().lookup(other) == if other == id {
                Some(state)
            } else {
                before.known().lookup(other)
            }
    }

    /// Construct an engine from validated settings.
    pub fn new(cfg: ThresholdConfig) -> (r: Self)
        requires
            cfg.fault() is None,
        ensures
            r.wf(),
            r.settings() == cfg,
            r.known().ids().len() == 0,
    {
        ThresholdEngine { cfg, state: Registry::new() }
    }

    /// Construct an engine from the settings file, falling back to built-in
    /// settings when it is absent (`None`).
    pub fn from_config_dir(loaded: Option<Result<ThresholdConfig, ConfigError>>) -> (r: Result<
        Self,
        ConfigError,
    >)
        ensures
            match loaded {
                Some(Err(e)) => r is Err && r->Err_0 == e,
                Some(Ok(cfg)) => match cfg.fault() {
                    Some(text) => r is Err && r->Err_0@ == ConfigErrorView::InvalidValue(text),
                    None => r is Ok && r->Ok_0.settings() == cfg,
                },
                None => r is Ok && r->Ok_0.settings() == ThresholdConfig::built_in(),
            },
            r is Ok ==> r->Ok_0.wf() && r->Ok_0.known().ids().len() == 0,
    {
        let cfg = match loaded {
            Some(Ok(cfg)) => cfg,
            Some(Err(error)) => {
                return Err(error);
            },
            None => ThresholdConfig::default(),
        };
        match cfg.validate() {
            Ok(_) => Ok(ThresholdEngine::new(cfg)),
            Err(error) => Err(error),
        }
    }

    /// Return the engine's effective configuration.
    pub fn config(&self) -> (r: &ThresholdConfig)
        ensures
            *r == self.settings(),
    {
        &self.cfg
    }

    /// The state of a VM; that of a new one where the engine has not met it.
    pub fn instance_state(&self, instance_id: &str) -> (r: InstanceState)
        requires
            self.wf(),
        ensures
            r == self.state_of(instance_id@),
    {
        match self.state.get(instance_id) {
            Some(state) => *state,
            None => InstanceState::new(),
        }
    }

    /// Calculate the fewest workers that carry a load at the up threshold.
    fn required_thread_count(&self, per_thread_util: Binary64, thread_count: u32) -> (r: u32)
        requires
            self.wf(),
        ensures
            r == required_threads(
                per_thread_util,
                thread_count,
                self.settings().scale_up_threshold,
            ),
    {
        if per_thread_util.is_nan() || (!per_thread_util.is_finite() && thread_count == 0) {
            return 0;
        }
        if !per_thread_util.is_positive() {
            return 1;
        }
        if !per_thread_util.is_finite() {
            return u32::MAX;
        }
        proof {
            lemma_count_range(thread_count as u64);
        }
        let load = per_thread_util.multiply(Binary64::from_count(thread_count as u64));
        let count = if load.bits == INFINITY_BITS {
            proof {
                lemma_infinite_over(self.cfg.scale_up_threshold);
            }
            load
        } else {
            load.divide(self.cfg.scale_up_threshold)
        };
        count.ceil_count()
    }

    /// Calculate the smallest pool that keeps average load at the up threshold.
    pub fn scale_down_target(
        &self,
        per_thread_util: Binary64,
        thread_count: u32,
        min_thread_count: u32,
    ) -> (r: u32)
        requires
            self.wf(),
        ensures
            r == down_target(
                self.settings().max_scale_down_step,
                required_threads(
                    per_thread_util,
                    thread_count,
                    self.settings().scale_up_threshold,
                ),
                thread_count,
                min_thread_count,
            ),
    {
        let required: u32 = self.required_thread_count(per_thread_util, thread_count);
        let target: u32 = if required >= min_thread_count {
            required
        } else {
            min_thread_count
        };
        if target >= thread_count {
            return thread_count;
        }
        let step: u32 = self.cfg.max_scale_down_step;
        if step == 0 || step >= thread_count || thread_count - step <= target {
            target
        } else {
            thread_count - step
        }
    }

    /// Calculate the IOPS that a settled action must show. Its direction is one that
    /// is validated.
    pub fn iops_requirement(&self, pending: &PendingValidation) -> (r: Binary64)
        requires
            self.wf(),
            tolerance(self.settings(), pending.action) is Some,
            tolerance(self.settings(), pending.action)->0.positive(),
        ensures
            r == required_iops(self.settings(), *pending),
    {
        proof {
            lemma_power_units(1);
            lemma_count_range(pending.baseline_iops);
        }
        let factor = match pending.action {
            ScaleAction::Up(_) => {
                proof {
                    lemma_sum_range(Binary64::one_spec(), self.cfg.scale_up_min_gain, 0);
                }
                Binary64::one().add_to(self.cfg.scale_up_min_gain)
            },
            _ => Binary64::one().subtract(self.cfg.scale_down_revert_drop),
        };
        Binary64::from_count(pending.baseline_iops).multiply(factor)
    }

    /// Validate a settled action and return its revert target on regression.
    pub fn validation_revert_target(
        &self,
        observed_iops: u64,
        pending: &PendingValidation,
    ) -> (r: Option<u32>)
        requires
            self.wf(),
        ensures
            r == if regressed(self.settings(), *pending, observed_iops) {
                Some(pending.baseline_thread_count)
            } else {
                None
            },
    {
        let tolerated = match pending.action {
            ScaleAction::Up(_) => self.cfg.scale_up_min_gain,
            ScaleAction::Down(_) => self.cfg.scale_down_revert_drop,
            _ => {
                return None;
            },
        };
        if !tolerated.is_positive() || pending.baseline_iops == 0 {
            return None;
        }
        let required = self.iops_requirement(pending);
        if Binary64::from_count(observed_iops).less_than(required) {
            Some(pending.baseline_thread_count)
        } else {
            None
        }
    }

    fn put(&mut self, instance_id: &str, state: InstanceState)
        requires
            old(self).wf(),
        ensures
            final(self).wf(),
            final(self).only_changed(*old(self), instance_id@, state),
    {
        let ghost before = self.state;
        self.state.insert(instance_id.to_owned(), state);
        proof {
            if before.has(instance_id@) {
                law_update_is_local(before, self.state, instance_id@, state);
            } else {
                law_append_is_local(before, self.state, instance_id@, state);
            }
        }
    }

    /// Decide on one VM.
    pub fn evaluate(
        &mut self,
        instance_id: &str,
        seen: &PollFigures,
        context: &EngineTickContext,
    ) -> (r: ScaleAction)
        requires
            old(self).wf(),
            old(self).state_of(instance_id@).low_util_polls < u32::MAX,
        ensures
            final(self).wf(),
            r == poll(old(self).settings(), old(self).state_of(instance_id@), *seen, *context).1,
            final(self).only_changed(
                *old(self),
                instance_id@,
                poll(old(self).settings(), old(self).state_of(instance_id@), *seen, *context).0,
            ),
    {
        let down: u32 = self.scale_down_target(
            seen.per_thread_util,
            seen.thread_count,
            context.min_thread_count,
        );
        let mut state = self.instance_state(instance_id);
        match state.pending_validation {
            Some(pending) => {
                if pending.polls_remaining > 0 {
                    let mut waiting = pending;
                    waiting.polls_remaining = pending.polls_remaining - 1;
                    state.pending_validation = Some(waiting);
                    self.put(instance_id, state);
                    return ScaleAction::Hold;
                }
                state.pending_validation = None;
                match self.validation_revert_target(seen.iops_total, &pending) {
                    Some(target) => {
                        self.put(instance_id, state);
                        return ScaleAction::Revert(target);
                    },
                    None => {},
                }
            },
            None => {},
        }
        if down < seen.thread_count {
            state.low_util_polls = state.low_util_polls + 1;
        } else {
            state.low_util_polls = 0;
        }
        self.put(instance_id, state);
        if seen.thread_count < context.max_thread_count && self.cfg.scale_up_threshold.less_than(
            seen.per_thread_util,
        ) {
            return ScaleAction::Up(seen.thread_count + 1);
        }
        if down < seen.thread_count && state.low_util_polls >= self.cfg.scale_down_sustain_polls {
            ScaleAction::Down(down)
        } else {
            ScaleAction::Hold
        }
    }

    /// Take note of what became of an action.
    pub fn on_applied(&mut self, instance_id: &str, outcome: &AppliedOutcome)
        requires
            old(self).wf(),
        ensures
            final(self).wf(),
            old(self).known().has(instance_id@) ==> final(self).only_changed(
                *old(self),
                instance_id@,
                told(old(self).settings(), old(self).state_of(instance_id@), *outcome),
            ),
            !old(self).known().has(instance_id@) ==> *final(self) == *old(self),
    {
        let (action, previous_thread_count, previous_iops): (ScaleAction, u32, u64) = match outcome {
            AppliedOutcome::Success { action, prev_thread_count, prev_io_count_total } => (
                *action,
                *prev_thread_count,
                *prev_io_count_total,
            ),
            AppliedOutcome::DryRun { action, prev_thread_count, prev_io_count_total } => (
                *action,
                *prev_thread_count,
                *prev_io_count_total,
            ),
            _ => {
                return ;
            },
        };
        let mut state = match self.state.get(instance_id) {
            Some(state) => *state,
            None => {
                return ;
            },
        };
        let polls: u32 = self.cfg.scale_validation_sample_polls;
        match action {
            ScaleAction::Up(_) => {
                state.low_util_polls = 0;
                if self.cfg.scale_up_min_gain.is_positive() {
                    state.start_validation(action, previous_thread_count, previous_iops, polls);
                }
            },
            ScaleAction::Down(_) => {
                state.low_util_polls = 0;
                if self.cfg.scale_down_revert_drop.is_positive() {
                    state.start_validation(action, previous_thread_count, previous_iops, polls);
                }
            },
            _ => {},
        }
        self.put(instance_id, state);
    }

    /// Take note of a VM; one that is known keeps its state.
    pub fn on_instance_added(&mut self, instance_id: &str)
        requires
            old(self).wf(),
        ensures
            final(self).wf(),
            final(self).only_changed(
                *old(self),
                instance_id@,
                old(self).state_of(instance_id@),
            ),
    {
        let state = self.instance_state(instance_id);
        self.put(instance_id, state);
    }

    /// Forget a VM.
    pub fn on_instance_removed(&mut self, instance_id: &str)
        requires
            old(self).wf(),
        ensures
            final(self).wf(),
            final(self).settings() == old(self).settings(),
            forall|other: Seq<char>|
                #![trigger final(self).known().lookup(other)]
                final(self).known().lookup(other) == if other == instance_id@ {
                    None
                } else {
                    old(self).known().lookup(other)
                },
    {
        let ghost before = self.state;
        self.state.remove(instance_id);
        proof {
            if before.has(instance_id@) {
                law_remove_is_local(before, self.state, instance_id@);
            }
        }
    }
}

// ---------------------------------------------------------------------
// Laws
// ---------------------------------------------------------------------

/// A run of polls of one VM.
pub type Polls = Seq<(PollFigures, EngineTickContext)>;

/// The engine's state after a run of polls.
pub open spec fn state_after(cfg: ThresholdConfig, state: InstanceState, polls: Polls) -> InstanceState
    decreases polls.len(),
{
    if polls.len() == 0 {
        state
    } else {
        poll(cfg, state_after(cfg, state, polls.drop_last()), polls.last().0, polls.last().1).0
    }
}

/// The engine's decision on the last of a run of polls.
pub open spec fn last_decision(
    cfg: ThresholdConfig,
    state: InstanceState,
    polls: Polls,
) -> ScaleAction {
    poll(cfg, state_after(cfg, state, polls.drop_last()), polls.last().0, polls.last().1).1
}

/// After an accepted action the engine holds for as many polls as validation
/// waits for, whatever it sees.
pub proof fn law_validation_waits(
    cfg: ThresholdConfig,
    state: InstanceState,
    action: ScaleAction,
    prev_thread_count: u32,
    prev_iops: u64,
    polls: Polls,
)
    requires
        tolerance(cfg, action) is Some,
        tolerance(cfg, action)->0.positive(),
        polls.len() <= cfg.scale_validation_sample_polls,
    ensures
        state_after(cfg, accepted(cfg, state, action, prev_thread_count, prev_iops), polls)
            == (InstanceState {
            low_util_polls: 0,
            pending_validation: Some(
                PendingValidation {
                    action,
                    baseline_thread_count: prev_thread_count,
                    baseline_iops: prev_iops,
                    polls_remaining: (cfg.scale_validation_sample_polls - polls.len()) as u32,
                },
            ),
        }),
        polls.len() > 0 ==> last_decision(
            cfg,
            accepted(cfg, state, action, prev_thread_count, prev_iops),
            polls,
        ) == ScaleAction::Hold,
    decreases polls.len(),
{
    if polls.len() > 0 {
        law_validation_waits(
            cfg,
            state,
            action,
            prev_thread_count,
            prev_iops,
            polls.drop_last(),
        );
    }
}

/// On the poll after the wait, an accepted action is reverted to the worker count
/// before it if and only if there were IOPS before it and the observed IOPS are
/// below the ones before it times one plus the minimum gain, or times one minus the
/// tolerated drop.
pub proof fn law_validation_verdict(
    cfg: ThresholdConfig,
    state: InstanceState,
    action: ScaleAction,
    prev_thread_count: u32,
    prev_iops: u64,
    polls: Polls,
)
    requires
        tolerance(cfg, action) is Some,
        tolerance(cfg, action)->0.positive(),
        polls.len() == cfg.scale_validation_sample_polls + 1,
    ensures
        ({
            let start = accepted(cfg, state, action, prev_thread_count, prev_iops);
            let observed = Binary64::of_count(polls.last().0.iops_total);
            let baseline = Binary64::of_count(prev_iops);
            let factor = if action is Up {
                Binary64::one_spec().plus(cfg.scale_up_min_gain)
            } else {
                Binary64::one_spec().minus(cfg.scale_down_revert_drop)
            };
            let verdict = last_decision(cfg, start, polls);
            &&& verdict is Revert <==> prev_iops > 0 && observed.below(baseline.times(factor))
            &&& verdict is Revert ==> verdict == ScaleAction::Revert(prev_thread_count)
            &&& state_after(cfg, start, polls).pending_validation is None
        }),
{
    law_validation_waits(cfg, state, action, prev_thread_count, prev_iops, polls.drop_last());
}

/// With no validation pending, no run of polls ends in a revert, and none starts
/// a validation.
pub proof fn law_no_revert_without_validation(
    cfg: ThresholdConfig,
    state: InstanceState,
    polls: Polls,
)
    requires
        state.pending_validation is None,
    ensures
        state_after(cfg, state, polls).pending_validation is None,
        polls.len() > 0 ==> !(last_decision(cfg, state, polls) is Revert),
    decreases polls.len(),
{
    if polls.len() > 0 {
        law_no_revert_without_validation(cfg, state, polls.drop_last());
    }
}

/// A percentage of zero disables the validation of its direction: an accepted
/// action starts none.
pub proof fn law_zero_disables_validation(
    cfg: ThresholdConfig,
    state: InstanceState,
    action: ScaleAction,
    prev_thread_count: u32,
    prev_iops: u64,
)
    requires
        action is Up ==> cfg.scale_up_min_gain == Binary64::zero_spec(),
        action is Down ==> cfg.scale_down_revert_drop == Binary64::zero_spec(),
    ensures
        accepted(cfg, state, action, prev_thread_count, prev_iops).pending_validation
            == state.pending_validation,
{
}

/// The worker count to shrink to is never above the present one, is below it only
/// if the load and the minimum allow it, and is at most the configured step below.
pub proof fn law_down_target_bounds(step: u32, required: u32, thread_count: u32, minimum: u32)
    ensures
        0 <= down_target(step, required, thread_count, minimum) <= thread_count,
        down_target(step, required, thread_count, minimum) < thread_count ==> {
            &&& down_target(step, required, thread_count, minimum) >= required
            &&& down_target(step, required, thread_count, minimum) >= minimum
        },
        step > 0 ==> thread_count - down_target(step, required, thread_count, minimum) <= step,
        step == 0 && required < thread_count && minimum < thread_count ==> down_target(
            step,
            required,
            thread_count,
            minimum,
        ) == larger(required as int, minimum as int),
{
}

/// A scale-up asks for one more worker and stays within the maximum; a scale-down
/// asks for fewer and stays at or above the minimum.
pub proof fn law_decisions_within_bounds(
    cfg: ThresholdConfig,
    state: InstanceState,
    seen: PollFigures,
    context: EngineTickContext,
)
    ensures
        match poll(cfg, state, seen, context).1 {
            ScaleAction::Up(n) => n == seen.thread_count + 1 && n <= context.max_thread_count
                && cfg.scale_up_threshold.below(seen.per_thread_util),
            ScaleAction::Down(n) => context.min_thread_count <= n < seen.thread_count
                && required_threads(
                seen.per_thread_util,
                seen.thread_count,
                cfg.scale_up_threshold,
            ) <= n,
            ScaleAction::Revert(n) => state.pending_validation is Some && n
                == state.pending_validation->0.baseline_thread_count,
            ScaleAction::Hold => true,
        },
{
}

/// Whether a poll finds fewer workers enough.
pub open spec fn eligible(cfg: ThresholdConfig, polled: (PollFigures, EngineTickContext)) -> bool {
    enough(cfg, polled.0, polled.1) < polled.0.thread_count
}

/// Number of eligible polls in a row at the end of a run.
pub open spec fn streak(cfg: ThresholdConfig, polls: Polls) -> int
    decreases polls.len(),
{
    if polls.len() == 0 || !eligible(cfg, polls.last()) {
        0
    } else {
        streak(cfg, polls.drop_last()) + 1
    }
}

proof fn lemma_streak_len(cfg: ThresholdConfig, polls: Polls)
    ensures
        0 <= streak(cfg, polls) <= polls.len(),
    decreases polls.len(),
{
    if polls.len() > 0 {
        lemma_streak_len(cfg, polls.drop_last());
    }
}

/// From a fresh start the engine shrinks a pool only on the last of at least
/// `scale_down_sustain_polls` eligible polls in a row.
pub proof fn law_scale_down_is_sustained(cfg: ThresholdConfig, polls: Polls)
    requires
        polls.len() <= u32::MAX,
    ensures
        state_after(cfg, InstanceState::fresh(), polls).pending_validation is None,
        state_after(cfg, InstanceState::fresh(), polls).low_util_polls == streak(cfg, polls),
        polls.len() > 0 && last_decision(cfg, InstanceState::fresh(), polls) is Down ==> streak(
            cfg,
            polls,
        ) >= cfg.scale_down_sustain_polls && streak(cfg, polls) >= 1,
    decreases polls.len(),
{
    if polls.len() > 0 {
        law_scale_down_is_sustained(cfg, polls.drop_last());
        lemma_streak_len(cfg, polls.drop_last());
    }
}

/// An accepted action in either direction ends the run of eligible polls; one that
/// was blocked or refused changes nothing.
pub proof fn law_only_accepted_actions_count(
    cfg: ThresholdConfig,
    state: InstanceState,
    outcome: AppliedOutcome,
)
    ensures
        outcome is Blocked || outcome is Failed ==> told(cfg, state, outcome) == state,
        outcome is Success && outcome->Success_action.ordinary() ==> told(
            cfg,
            state,
            outcome,
        ).low_util_polls == 0,
{
}

/// A pool whose workers are loaded at the threshold or above it is not shrunk, at
/// whatever worker count and settings.
pub proof fn law_loaded_pool_is_not_shrunk(
    cfg: ThresholdConfig,
    seen: PollFigures,
    context: EngineTickContext,
)
    requires
        cfg.fault() is None,
        cfg.scale_up_threshold.at_most(seen.per_thread_util),
    ensures
        enough(cfg, seen, context) == seen.thread_count,
{
    if seen.per_thread_util.is_finite_spec() && seen.thread_count > 0 {
        lemma_scaled_back(seen.per_thread_util, cfg.scale_up_threshold, seen.thread_count);
    }
}

/// The fewest workers that carry a load keep each of them at the threshold, and with
/// one fewer they would be above it, give or take two roundings: each is off by at
/// most one part in 2 to the power 53.
pub proof fn law_required_workers_fit_the_load(
    util: Binary64,
    thread_count: u32,
    threshold: Binary64,
)
    requires
        util.positive(),
        threshold.positive(),
        threshold.in_unit(),
        required_threads(util, thread_count, threshold) < u32::MAX,
        util.is_finite_spec(),
    ensures
        ({
            let required = required_threads(util, thread_count, threshold);
            let load = util.in_units() * thread_count;
            let p = 0x20_0000_0000_0000int;
            &&& p * p * load <= (p + 1) * (p + 1) * (required * threshold.in_units())
            &&& required > 1 ==> p * p * load > (p - 1) * (p - 1) * ((required - 1)
                * threshold.in_units())
        }),
{
    let quotient = util.times(Binary64::of_count(thread_count as u64)).over(threshold);
    lemma_rounded_is_number(
        util.times(Binary64::of_count(thread_count as u64)).in_units() * one_units(),
        threshold.in_units(),
    );
    if quotient.bits == INFINITY_BITS {
        lemma_infinite_count();
    }
    lemma_smallest_count(util, threshold, thread_count);
}

/// More load never needs fewer workers.
pub proof fn law_more_load_needs_no_fewer_workers(
    less: Binary64,
    more: Binary64,
    thread_count: u32,
    threshold: Binary64,
)
    requires
        less.at_most(more),
        less.is_finite_spec(),
        more.is_finite_spec(),
        threshold.positive(),
        threshold.in_unit(),
    ensures
        required_threads(less, thread_count, threshold) <= required_threads(
            more,
            thread_count,
            threshold,
        ),
{
    if less.positive() {
        let one = one_units();
        let count = Binary64::of_count(thread_count as u64).in_units();
        let low = less.times(Binary64::of_count(thread_count as u64));
        let high = more.times(Binary64::of_count(thread_count as u64));
        let t = threshold.in_units();
        lemma_twos_grow(0, 1074);
        lemma_units_grow(0, threshold.bits as int);
        lemma_units_grow(less.bits as int, more.bits as int);
        assert(less.in_units() * count <= more.in_units() * count) by (nonlinear_arith)
            requires
                less.in_units() <= more.in_units(),
        ;
        lemma_nearest_in_order(less.in_units() * count, more.in_units() * count, one);
        lemma_units_grow(low.bits as int, high.bits as int);
        assert(low.in_units() * one <= high.in_units() * one) by (nonlinear_arith)
            requires
                low.in_units() <= high.in_units(),
        ;
        lemma_nearest_in_order(low.in_units() * one, high.in_units() * one, t);
        lemma_units_grow(low.over(threshold).bits as int, high.over(threshold).bits as int);
        vstd::arithmetic::div_mod::lemma_div_is_ordered(
            low.over(threshold).in_units() + one - 1,
            high.over(threshold).in_units() + one - 1,
            one as int,
        );
    }
}

/// A scale-down after which there are no fewer IOPS than before is kept.
pub proof fn law_lossless_shrinking_is_kept(
    cfg: ThresholdConfig,
    pending: PendingValidation,
    observed_iops: u64,
)
    requires
        cfg.fault() is None,
        pending.action is Down,
        observed_iops >= pending.baseline_iops,
    ensures
        !regressed(cfg, pending, observed_iops),
{
    let drop = cfg.scale_down_revert_drop;
    if drop.positive() {
        let one = one_units();
        let factor = Binary64::one_spec().minus(drop);
        let baseline = Binary64::of_count(pending.baseline_iops);
        lemma_twos_grow(0, 1074);
        lemma_power_units(0);
        lemma_units_grow(drop.bits as int, ONE_BITS as int);
        lemma_at_most(
            (Binary64::one_spec().in_units() - drop.in_units()) as nat,
            1,
            ONE_BITS as int,
        );
        lemma_units_grow(factor.bits as int, ONE_BITS as int);
        assert(baseline.in_units() * factor.in_units() <= one * baseline.in_units())
            by (nonlinear_arith)
            requires
                factor.in_units() <= one,
        ;
        lemma_at_most(
            baseline.in_units() * factor.in_units(),
            one,
            baseline.bits as int,
        );
        assert(pending.baseline_iops as nat * one <= observed_iops as nat * one)
            by (nonlinear_arith)
            requires
                pending.baseline_iops <= observed_iops,
        ;
        lemma_nearest_in_order(
            pending.baseline_iops as nat * one,
            observed_iops as nat * one,
            1,
        );
    }
}

/// A scale-up after which there are fewer IOPS than before is reverted, where a gain
/// is asked for. Counts of more than 53 binary digits are told apart only roughly.
pub proof fn law_lossy_growth_is_reverted(
    cfg: ThresholdConfig,
    pending: PendingValidation,
    observed_iops: u64,
)
    requires
        cfg.fault() is None,
        cfg.scale_up_min_gain.positive(),
        pending.action is Up,
        observed_iops < pending.baseline_iops < 0x20_0000_0000_0000,
    ensures
        regressed(cfg, pending, observed_iops),
{
    let one = one_units();
    let gain = cfg.scale_up_min_gain;
    let factor = Binary64::one_spec().plus(gain);
    let baseline = Binary64::of_count(pending.baseline_iops);
    let observed = Binary64::of_count(observed_iops);
    lemma_twos_grow(0, 1074);
    lemma_twos_120();
    lemma_power_units(0);
    lemma_sum_range(Binary64::one_spec(), gain, 0);
    lemma_power_units(1);
    lemma_units_grow(ONE_BITS as int, factor.bits as int);
    lemma_count_is_exact(pending.baseline_iops, 52);
    lemma_count_is_exact(observed_iops, 52);
    assert(observed_iops * one < pending.baseline_iops * one) by (nonlinear_arith)
        requires
            observed_iops < pending.baseline_iops,
            one >= 1,
    ;
    if observed.bits >= baseline.bits {
        lemma_units_grow(baseline.bits as int, observed.bits as int);
    }
    assert(baseline.in_units() * factor.in_units() >= one * baseline.in_units())
        by (nonlinear_arith)
        requires
            factor.in_units() >= one,
    ;
    lemma_at_least(baseline.in_units() * factor.in_units(), one, baseline.bits as int);
}

/// With no validation pending, a pool grows by one worker exactly when it is saturated: its
/// utilisation is above the threshold, and its worker count below the maximum.
pub proof fn law_saturated_pool_asks_for_one_more(
    cfg: ThresholdConfig,
    state: InstanceState,
    seen: PollFigures,
    context: EngineTickContext,
)
    requires
        state.pending_validation is None,
    ensures
        ({
            let decision = poll(cfg, state, seen, context).1;
            &&& decision is Up <==> seen.thread_count < context.max_thread_count
                && cfg.scale_up_threshold.below(seen.per_thread_util)
            &&& decision is Up ==> decision->Up_0 == seen.thread_count + 1
        }),
{
}

/// Whether fewer workers than there are would do: fewer carry the load at the threshold,
/// and the minimum is lower too.
pub open spec fn fewer_would_do(
    cfg: ThresholdConfig,
    seen: PollFigures,
    context: EngineTickContext,
) -> bool {
    &&& required_threads(seen.per_thread_util, seen.thread_count, cfg.scale_up_threshold)
        < seen.thread_count
    &&& context.min_thread_count < seen.thread_count
}

/// Whether a pool may shrink to a worker count: it carries the load at the threshold, it is
/// not below the minimum, and it takes away no more workers than a step may.
pub open spec fn may_shrink_to(
    cfg: ThresholdConfig,
    seen: PollFigures,
    context: EngineTickContext,
    n: int,
) -> bool {
    &&& n >= required_threads(seen.per_thread_util, seen.thread_count, cfg.scale_up_threshold)
    &&& n >= context.min_thread_count
    &&& cfg.max_scale_down_step > 0 ==> seen.thread_count - n <= cfg.max_scale_down_step
}

/// With no validation pending and no saturation, a pool shrinks exactly when fewer workers
/// would do and this poll makes the run of such polls long enough; and it shrinks to the
/// smallest worker count that it may shrink to.
pub proof fn law_idle_pool_shrinks(
    cfg: ThresholdConfig,
    state: InstanceState,
    seen: PollFigures,
    context: EngineTickContext,
)
    requires
        state.pending_validation is None,
        state.low_util_polls < u32::MAX,
        seen.thread_count >= context.max_thread_count || !cfg.scale_up_threshold.below(
            seen.per_thread_util,
        ),
    ensures
        ({
            let decision = poll(cfg, state, seen, context).1;
            &&& decision is Down <==> fewer_would_do(cfg, seen, context) && state.low_util_polls + 1
                >= cfg.scale_down_sustain_polls
            &&& decision is Hold <==> !(decision is Down)
            &&& decision matches ScaleAction::Down(n) ==> {
                &&& n < seen.thread_count
                &&& may_shrink_to(cfg, seen, context, n as int)
                &&& forall|m: int| #[trigger] may_shrink_to(cfg, seen, context, m) ==> n <= m
            }
        }),
{
    if fewer_would_do(cfg, seen, context) {
        let n = enough(cfg, seen, context);
        assert(may_shrink_to(cfg, seen, context, n));
        assert forall|m: int| #[trigger] may_shrink_to(cfg, seen, context, m) implies n <= m by {}
    }
}

/// The run of polls on which fewer workers would do is counted: one more on each such poll,
/// and back to zero on any other; and a poll without validation leaves none pending.
pub proof fn law_idle_run_is_counted(
    cfg: ThresholdConfig,
    state: InstanceState,
    seen: PollFigures,
    context: EngineTickContext,
)
    requires
        state.pending_validation is None,
        state.low_util_polls < u32::MAX,
    ensures
        ({
            let after = poll(cfg, state, seen, context).0;
            &&& fewer_would_do(cfg, seen, context) ==> after.low_util_polls == state.low_util_polls
                + 1
            &&& !fewer_would_do(cfg, seen, context) ==> after.low_util_polls == 0
            &&& after.pending_validation is None
        }),
{
}

proof fn lemma_idle_run(cfg: ThresholdConfig, state: InstanceState, polls: Polls)
    requires
        state.pending_validation is None,
        state.low_util_polls + polls.len() <= u32::MAX,
        forall|i: int|
            0 <= i < polls.len() ==> fewer_would_do(cfg, (#[trigger] polls[i]).0, polls[i].1),
    ensures
        state_after(cfg, state, polls).pending_validation is None,
        state_after(cfg, state, polls).low_util_polls == state.low_util_polls + polls.len(),
    decreases polls.len(),
{
    if polls.len() > 0 {
        let front = polls.drop_last();
        assert forall|i: int| 0 <= i < front.len() implies fewer_would_do(
            cfg,
            (#[trigger] front[i]).0,
            front[i].1,
        ) by {
            assert(front[i] == polls[i]);
        }
        lemma_idle_run(cfg, state, front);
        assert(polls.last() == polls[polls.len() - 1]);
        law_idle_run_is_counted(
            cfg,
            state_after(cfg, state, front),
            polls.last().0,
            polls.last().1,
        );
    }
}

/// A pool that stays idle is shrunk: on the last of as many polls in a row on which fewer
/// workers would do as the settings ask for, or of more, the decision is to shrink the
/// pool to the smallest worker count that it may shrink to, unless the pool is saturated.
pub proof fn law_sustained_idleness_shrinks(
    cfg: ThresholdConfig,
    state: InstanceState,
    polls: Polls,
)
    requires
        state.pending_validation is None,
        state.low_util_polls + polls.len() <= u32::MAX,
        polls.len() > 0,
        polls.len() >= cfg.scale_down_sustain_polls,
        forall|i: int|
            0 <= i < polls.len() ==> fewer_would_do(cfg, (#[trigger] polls[i]).0, polls[i].1),
        polls.last().0.thread_count >= polls.last().1.max_thread_count
            || !cfg.scale_up_threshold.below(polls.last().0.per_thread_util),
    ensures
        ({
            let decision = last_decision(cfg, state, polls);
            let seen = polls.last().0;
            let context = polls.last().1;
            &&& decision is Down
            &&& decision->Down_0 < seen.thread_count
            &&& may_shrink_to(cfg, seen, context, decision->Down_0 as int)
            &&& forall|m: int| #[trigger]
                may_shrink_to(cfg, seen, context, m) ==> decision->Down_0 <= m
        }),
{
    let front = polls.drop_last();
    assert forall|i: int| 0 <= i < front.len() implies fewer_would_do(
        cfg,
        (#[trigger] front[i]).0,
        front[i].1,
    ) by {
        assert(front[i] == polls[i]);
    }
    lemma_idle_run(cfg, state, front);
    assert(polls.last() == polls[polls.len() - 1]);
    law_idle_pool_shrinks(
        cfg,
        state_after(cfg, state, front),
        polls.last().0,
        polls.last().1,
    );
}

/// An idle or negative load needs one worker; a load that is a number needs at least one.
pub proof fn law_every_load_needs_a_worker(
    util: Binary64,
    thread_count: u32,
    threshold: Binary64,
)
    requires
        util.is_finite_spec(),
    ensures
        required_threads(util, thread_count, threshold) >= 1,
        util.at_most(Binary64::zero_spec()) ==> required_threads(util, thread_count, threshold) == 1,
{
}

/// While an action waits for its validation, every poll takes one off the wait, leaves
/// everything else about the VM as it is, and decides to hold.
pub proof fn law_waiting_polls_hold(
    cfg: ThresholdConfig,
    state: InstanceState,
    pending: PendingValidation,
    seen: PollFigures,
    context: EngineTickContext,
)
    requires
        state.pending_validation == Some(pending),
        pending.polls_remaining > 0,
    ensures
        ({
            let (after, decision) = poll(cfg, state, seen, context);
            &&& decision is Hold
            &&& after.low_util_polls == state.low_util_polls
            &&& after.pending_validation is Some
            &&& after.pending_validation->0.polls_remaining == pending.polls_remaining - 1
            &&& after.pending_validation->0.action == pending.action
            &&& after.pending_validation->0.baseline_thread_count == pending.baseline_thread_count
            &&& after.pending_validation->0.baseline_iops == pending.baseline_iops
        }),
{
}

/// A settled action that failed is reverted to the worker count before it, and the run of
/// idle polls stays; one that did not fail is done with, and the poll decides as if there
/// had been none. It fails if and only if it was a scale-up or a scale-down whose direction
/// is validated, there were operations before it, and the operations seen are below those
/// before it times one plus the gain, or times one minus the drop.
pub proof fn law_settled_actions_are_judged(
    cfg: ThresholdConfig,
    state: InstanceState,
    pending: PendingValidation,
    seen: PollFigures,
    context: EngineTickContext,
)
    requires
        state.pending_validation == Some(pending),
        pending.polls_remaining == 0,
    ensures
        ({
            let zero = Binary64::zero_spec();
            let one = Binary64::one_spec();
            let before = Binary64::of_count(pending.baseline_iops);
            let observed = Binary64::of_count(seen.iops_total);
            let failed = pending.baseline_iops > 0 && match pending.action {
                ScaleAction::Up(_) => zero.below(cfg.scale_up_min_gain) && observed.below(
                    before.times(one.plus(cfg.scale_up_min_gain)),
                ),
                ScaleAction::Down(_) => zero.below(cfg.scale_down_revert_drop) && observed.below(
                    before.times(one.minus(cfg.scale_down_revert_drop)),
                ),
                _ => false,
            };
            let settled = InstanceState {
                low_util_polls: state.low_util_polls,
                pending_validation: None,
            };
            &&& failed ==> poll(cfg, state, seen, context) == (
                settled,
                ScaleAction::Revert(pending.baseline_thread_count),
            )
            &&& !failed ==> poll(cfg, state, seen, context) == poll(cfg, settled, seen, context)
        }),
{
}

/// An accepted scale-up or scale-down, or one that would have been accepted, ends the run of
/// idle polls, and is put up for validation with what was before it where a positive gain,
/// or a positive drop, is configured; any other accepted action changes nothing.
pub proof fn law_accepted_actions_are_put_up_for_validation(
    cfg: ThresholdConfig,
    state: InstanceState,
    action: ScaleAction,
    prev_thread_count: u32,
    prev_io_count_total: u64,
    dry: bool,
)
    ensures
        ({
            let outcome = if dry {
                AppliedOutcome::DryRun { action, prev_thread_count, prev_io_count_total }
            } else {
                AppliedOutcome::Success { action, prev_thread_count, prev_io_count_total }
            };
            let after = told(cfg, state, outcome);
            let zero = Binary64::zero_spec();
            let validated = action is Up && zero.below(cfg.scale_up_min_gain) || action is Down
                && zero.below(cfg.scale_down_revert_drop);
            &&& !(action is Up) && !(action is Down) ==> after == state
            &&& action is Up || action is Down ==> after.low_util_polls == 0
            &&& !validated ==> after.pending_validation == state.pending_validation
            &&& validated ==> {
                &&& after.pending_validation is Some
                &&& after.pending_validation->0.action == action
                &&& after.pending_validation->0.baseline_thread_count == prev_thread_count
                &&& after.pending_validation->0.baseline_iops == prev_io_count_total
                &&& after.pending_validation->0.polls_remaining == cfg.scale_validation_sample_polls
            }
        }),
{
}

/// Settings are usable if and only if the threshold is in `(0, 1]` and the gain and the drop
/// are in `[0, 1]`.
pub proof fn law_usable_settings(cfg: ThresholdConfig)
    ensures
        cfg.fault() is None <==> {
            let zero = Binary64::zero_spec();
            let one = Binary64::one_spec();
            &&& zero.below(cfg.scale_up_threshold) && cfg.scale_up_threshold.at_most(one)
            &&& zero.at_most(cfg.scale_up_min_gain) && cfg.scale_up_min_gain.at_most(one)
            &&& zero.at_most(cfg.scale_down_revert_drop) && cfg.scale_down_revert_drop.at_most(one)
        },
{
}

/// What the engine does for one VM concerns no other: their states and the settings stay.
pub proof fn law_vms_do_not_share_state(
    before: ThresholdEngine,
    after: ThresholdEngine,
    id: Seq<char>,
    state: InstanceState,
    other: Seq<char>,
)
    requires
        after.only_changed(before, id, state),
        other != id,
    ensures
        after.state_of(other) == before.state_of(other),
        after.known().has(other) == before.known().has(other),
        after.state_of(id) == state,
        after.settings() == before.settings(),
{
    assert(after.known().lookup(other) == before.known().lookup(other));
    assert(after.known().lookup(id) == Some(state));
}

/// A VM that the engine has not met has nothing pending and no idle run.
pub proof fn law_unmet_vms_start_fresh(engine: ThresholdEngine, id: Seq<char>)
    requires
        !engine.known().ids().contains(id),
    ensures
        engine.state_of(id).low_util_polls == 0,
        engine.state_of(id).pending_validation is None,
{
}

/// A load without bounds needs every worker there can be.
pub proof fn law_boundless_load_needs_every_worker(
    util: Binary64,
    thread_count: u32,
    threshold: Binary64,
)
    requires
        !util.is_nan_spec(),
        !util.is_finite_spec(),
        util.positive(),
        thread_count > 0,
    ensures
        required_threads(util, thread_count, threshold) == u32::MAX,
{
}

} // verus!
