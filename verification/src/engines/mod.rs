//! Scaling decisions and what becomes of them.

use vstd::prelude::*;

use crate::backends::BackendClientError;
use crate::binary64::Binary64;

pub mod threshold;

verus! {

/// One scaling decision for a VM.
#[derive(Debug, Clone, Copy, PartialEq, Eq, Structural)]
pub enum ScaleAction {
    /// Grow the pool to this worker count.
    Up(u32),
    /// Shrink the pool to this worker count.
    Down(u32),
    /// Undo the previous action by going back to this worker count.
    Revert(u32),
    /// Leave the pool alone.
    Hold,
}

impl ScaleAction {
    /// The worker count that the action asks for.
    pub open spec fn wanted(self) -> Option<u32> {
        match self {
            ScaleAction::Up(n) => Some(n),
            ScaleAction::Down(n) => Some(n),
            ScaleAction::Revert(n) => Some(n),
            ScaleAction::Hold => None,
        }
    }

    /// Whether the action is an ordinary one, subject to the cooldown.
    pub open spec fn ordinary(self) -> bool {
        self is Up || self is Down
    }

    /// The name of the action.
    pub open spec fn name(self) -> Seq<char> {
        match self {
            ScaleAction::Up(_) => "up"@,
            ScaleAction::Down(_) => "down"@,
            ScaleAction::Revert(_) => "revert"@,
            ScaleAction::Hold => "hold"@,
        }
    }

    /// The worker count that the action asks for.
    pub fn target(&self) -> (r: Option<u32>)
        ensures
            r == self.wanted(),
    {
        match self {
            ScaleAction::Up(n) => Some(*n),
            ScaleAction::Down(n) => Some(*n),
            ScaleAction::Revert(n) => Some(*n),
            ScaleAction::Hold => None,
        }
    }

    /// Whether the action is an ordinary one, subject to the cooldown.
    pub fn is_ordinary(&self) -> (r: bool)
        ensures
            r == self.ordinary(),
    {
        match self {
            ScaleAction::Up(_) => true,
            ScaleAction::Down(_) => true,
            ScaleAction::Revert(_) => false,
            ScaleAction::Hold => false,
        }
    }

    /// The name of the action, for log lines.
    pub fn to_text(&self) -> (r: String)
        ensures
            r@ == self.name(),
    {
        match self {
            ScaleAction::Up(_) => "up".to_owned(),
            ScaleAction::Down(_) => "down".to_owned(),
            ScaleAction::Revert(_) => "revert".to_owned(),
            ScaleAction::Hold => "hold".to_owned(),
        }
    }
}

/// Why the controller did not apply an action.
#[derive(Debug, Clone, Copy, PartialEq, Eq, Structural)]
pub enum BlockedReason {
    /// An operator holds the worker count.
    ManualOverride,
    /// The VM is not managed.
    UnmanagedVm,
    /// The target is below the configured minimum.
    TargetBelowMinimum,
    /// The target is above the configured maximum.
    TargetExceedsMaximum,
    /// The target is above the guest's vCPU count.
    TargetExceedsVcpuCount,
    /// The previous action is too recent.
    Cooldown,
    /// The host is too busy to grow a pool.
    HostCpuCeiling,
}

/// What became of an action.
#[derive(Debug)]
pub enum AppliedOutcome {
    /// The backend accepted the action.
    Success {
        /// The action.
        action: ScaleAction,
        /// Worker count before the action.
        prev_thread_count: u32,
        /// Completed operations before the action.
        prev_io_count_total: u64,
    },
    /// The action would have been applied.
    DryRun {
        /// The action.
        action: ScaleAction,
        /// Worker count before the action.
        prev_thread_count: u32,
        /// Completed operations before the action.
        prev_io_count_total: u64,
    },
    /// The controller did not apply the action.
    Blocked {
        /// The action.
        action: ScaleAction,
        /// Why not.
        reason: BlockedReason,
    },
    /// The backend refused the action.
    Failed {
        /// The action.
        action: ScaleAction,
        /// The refusal.
        error: BackendClientError,
    },
}

/// What an engine knows of a tick besides the VM.
#[derive(Debug, Clone, Copy, PartialEq, Eq, Structural)]
pub struct EngineTickContext {
    /// Time of the tick, in nanoseconds.
    pub now: u128,
    /// Smallest worker count that automatic scaling may set.
    pub min_thread_count: u32,
    /// Largest worker count that automatic scaling may set.
    pub max_thread_count: u32,
    /// Fraction of host CPU consumed since the previous tick.
    pub host_cpu_util: Binary64,
    /// Number of the tick.
    pub tick_index: u64,
}

} // verus!
