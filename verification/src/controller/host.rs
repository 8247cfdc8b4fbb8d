//! The load of the host.

use vstd::prelude::*;

use crate::arithmetic::one_units;
use crate::binary64::Binary64;
use crate::bounds::lemma_rounded_is_number;
use crate::controller::Controller;
use crate::engines::EngineTickContext;
use crate::figures::{
    law_ratio_grows, law_ratio_of_parts, lemma_ratio_is_unit, ratio, ratio_of,
};
use crate::instance::{add_saturating, decrease_floor, saturated, sub_saturating};

verus! {

/// Host-wide cumulative CPU times, as the kernel reports them.
#[derive(Debug, Clone, Copy, PartialEq, Eq, Structural)]
pub struct KernelCpuTimes {
    /// Ticks spent in user mode.
    pub user: u64,
    /// Ticks spent in user mode at low priority.
    pub nice: u64,
    /// Ticks spent in kernel mode.
    pub system: u64,
    /// Ticks spent idle.
    pub idle: u64,
    /// Ticks spent waiting for I/O.
    pub iowait: Option<u64>,
    /// Ticks spent on interrupts.
    pub irq: Option<u64>,
    /// Ticks spent on soft interrupts.
    pub softirq: Option<u64>,
    /// Ticks stolen by other guests.
    pub steal: Option<u64>,
    /// Ticks spent on guests.
    pub guest: Option<u64>,
    /// Ticks spent on guests at low priority.
    pub guest_nice: Option<u64>,
}

/// Host-wide cumulative CPU counters.
#[derive(Debug, Clone, Copy, PartialEq, Eq, Structural)]
pub struct HostCpuSample {
    /// Ticks spent on anything but idling.
    pub busy_ticks: u64,
    /// All ticks.
    pub total_ticks: u64,
}

/// A time that the kernel may leave out.
pub open spec fn or_zero(ticks: Option<u64>) -> int {
    match ticks {
        Some(t) => t as int,
        None => 0,
    }
}

fn ticks_or_zero(ticks: Option<u64>) -> (r: u64)
    ensures
        r == or_zero(ticks),
{
    match ticks {
        Some(t) => t,
        None => 0,
    }
}

impl KernelCpuTimes {
    /// Ticks spent idle, held at the largest counter value.
    pub open spec fn idling(self) -> int {
        saturated(self.idle + or_zero(self.iowait))
    }

    /// All ticks, held at the largest counter value.
    pub open spec fn all(self) -> int {
        saturated(
            self.user + self.nice + self.system + self.idle + or_zero(self.iowait) + or_zero(
                self.irq,
            ) + or_zero(self.softirq) + or_zero(self.steal) + or_zero(self.guest) + or_zero(
                self.guest_nice,
            ),
        )
    }
}

impl HostCpuSample {
    /// Sum up the host's CPU times.
    pub fn from_times(times: &KernelCpuTimes) -> (r: Self)
        ensures
            r.total_ticks == times.all(),
            r.busy_ticks == decrease_floor(times.all() as u64, times.idling() as u64),
    {
        let iowait: u64 = ticks_or_zero(times.iowait);
        let idle_ticks: u64 = add_saturating(times.idle, iowait);
        let mut total: u64 = add_saturating(times.user, times.nice);
        total = add_saturating(total, times.system);
        total = add_saturating(total, times.idle);
        total = add_saturating(total, iowait);
        total = add_saturating(total, ticks_or_zero(times.irq));
        total = add_saturating(total, ticks_or_zero(times.softirq));
        total = add_saturating(total, ticks_or_zero(times.steal));
        total = add_saturating(total, ticks_or_zero(times.guest));
        total = add_saturating(total, ticks_or_zero(times.guest_nice));
        HostCpuSample { busy_ticks: sub_saturating(total, idle_ticks), total_ticks: total }
    }
}

/// The fraction of the ticks between two samples that was not idle; 0 over no ticks.
pub open spec fn utilisation_between(earlier: HostCpuSample, later: HostCpuSample) -> Binary64 {
    let busy = decrease_floor(later.busy_ticks, earlier.busy_ticks) as u64;
    let total = decrease_floor(later.total_ticks, earlier.total_ticks) as u64;
    if total == 0 {
        Binary64::zero_spec()
    } else {
        ratio_of(busy, total)
    }
}

/// Compute host CPU utilisation from successive cumulative samples.
pub fn host_cpu_utilisation(previous: &HostCpuSample, current: &HostCpuSample) -> (r: Binary64)
    ensures
        r == utilisation_between(*previous, *current),
{
    let delta_busy: u64 = sub_saturating(current.busy_ticks, previous.busy_ticks);
    let delta_total: u64 = sub_saturating(current.total_ticks, previous.total_ticks);
    if delta_total == 0 {
        Binary64::zero()
    } else {
        ratio(delta_busy, delta_total)
    }
}

/// The host utilisation after a sample: that since the previous sample, or the last
/// one while there is nothing to measure against.
pub open spec fn host_util_after(
    last: Option<HostCpuSample>,
    util: Binary64,
    sample: Option<HostCpuSample>,
) -> Binary64 {
    match (last, sample) {
        (Some(earlier), Some(later)) => utilisation_between(earlier, later),
        _ => util,
    }
}

impl Controller {
    /// Start a tick: count it and take in the host's CPU counters. `sample` is
    /// `None` when they could not be read.
    pub fn begin_tick(&mut self, sample: Option<HostCpuSample>, now: u128) -> (r: EngineTickContext)
        ensures
            final(self).cfg == old(self).cfg,
            final(self).vm_ownership == old(self).vm_ownership,
            final(self).instances == old(self).instances,
            final(self).tick_index == if old(self).tick_index == u64::MAX {
                0
            } else {
                old(self).tick_index + 1
            },
            final(self).host_cpu_util == host_util_after(
                old(self).last_host_cpu,
                old(self).host_cpu_util,
                sample,
            ),
            final(self).last_host_cpu == if sample is Some {
                sample
            } else {
                old(self).last_host_cpu
            },
            r == (EngineTickContext {
                now,
                min_thread_count: old(self).cfg.min_thread_count,
                max_thread_count: old(self).cfg.max_thread_count,
                host_cpu_util: final(self).host_cpu_util,
                tick_index: final(self).tick_index,
            }),
    {
        self.tick_index = self.tick_index.wrapping_add(1);
        match sample {
            Some(current) => {
                match self.last_host_cpu {
                    Some(previous) => {
                        self.host_cpu_util = host_cpu_utilisation(&previous, &current);
                    },
                    None => {},
                }
                self.last_host_cpu = Some(current);
            },
            None => {},
        }
        EngineTickContext {
            now,
            min_thread_count: self.cfg.min_thread_count,
            max_thread_count: self.cfg.max_thread_count,
            host_cpu_util: self.host_cpu_util,
            tick_index: self.tick_index,
        }
    }
}

/// The host's utilisation stays in `[0, 1]`, whatever the counters say.
pub proof fn law_host_util_stays_unit(
    last: Option<HostCpuSample>,
    util: Binary64,
    sample: Option<HostCpuSample>,
)
    requires
        util.in_unit(),
    ensures
        host_util_after(last, util, sample).in_unit(),
{
    match (last, sample) {
        (Some(earlier), Some(later)) => {
            lemma_ratio_is_unit(
                decrease_floor(later.busy_ticks, earlier.busy_ticks) as u64,
                decrease_floor(later.total_ticks, earlier.total_ticks) as u64,
            );
        },
        _ => {},
    }
}

/// The host's utilisation goes by the increase of the counters alone: ticks that both samples
/// count make no difference.
pub proof fn law_host_util_is_a_difference(
    earlier: HostCpuSample,
    later: HostCpuSample,
    busy: u64,
    total: u64,
    moved_earlier: HostCpuSample,
    moved_later: HostCpuSample,
)
    requires
        moved_earlier.busy_ticks == earlier.busy_ticks + busy,
        moved_earlier.total_ticks == earlier.total_ticks + total,
        moved_later.busy_ticks == later.busy_ticks + busy,
        moved_later.total_ticks == later.total_ticks + total,
    ensures
        utilisation_between(moved_earlier, moved_later) == utilisation_between(earlier, later),
{
}

/// A host that idled throughout has a utilisation of 0, one that did not idle at all one of
/// 1, and a busier one no lower a utilisation over the same ticks.
pub proof fn law_host_util_of_extremes(
    earlier: HostCpuSample,
    later: HostCpuSample,
    busier: HostCpuSample,
)
    requires
        earlier.total_ticks < later.total_ticks < earlier.total_ticks + 0x20_0000_0000_0000,
        earlier.busy_ticks <= later.busy_ticks < earlier.busy_ticks + 0x20_0000_0000_0000,
        later.busy_ticks <= busier.busy_ticks,
        busier.total_ticks == later.total_ticks,
    ensures
        later.busy_ticks == earlier.busy_ticks ==> utilisation_between(earlier, later)
            == Binary64::zero_spec(),
        later.busy_ticks - earlier.busy_ticks >= later.total_ticks - earlier.total_ticks
            ==> utilisation_between(earlier, later) == Binary64::one_spec(),
        utilisation_between(earlier, later).at_most(utilisation_between(earlier, busier)),
{
    let part = (later.busy_ticks - earlier.busy_ticks) as u64;
    let whole = (later.total_ticks - earlier.total_ticks) as u64;
    law_ratio_of_parts(part, whole);
    law_ratio_grows(part, (busier.busy_ticks - earlier.busy_ticks) as u64, whole);
}

/// Between two samples the utilisation is the busy ticks over all ticks.
pub proof fn law_host_util_is_busy_over_all(earlier: HostCpuSample, later: HostCpuSample)
    requires
        earlier.total_ticks < later.total_ticks,
        earlier.busy_ticks <= later.busy_ticks,
    ensures
        ({
            let busy = Binary64::of_count((later.busy_ticks - earlier.busy_ticks) as u64);
            let all = Binary64::of_count((later.total_ticks - earlier.total_ticks) as u64);
            let util = utilisation_between(earlier, later);
            &&& busy.over(all).at_most(Binary64::one_spec()) ==> util == busy.over(all)
            &&& Binary64::one_spec().below(busy.over(all)) ==> util == Binary64::one_spec()
        }),
{
    lemma_rounded_is_number(
        Binary64::of_count((later.busy_ticks - earlier.busy_ticks) as u64).in_units()
            * one_units(),
        Binary64::of_count((later.total_ticks - earlier.total_ticks) as u64).in_units(),
    );
}

/// Each sample is measured against the one before it: after two samples in a row the
/// utilisation is the one between them, whatever it was before.
pub proof fn law_host_util_follows_the_samples(
    last: Option<HostCpuSample>,
    util: Binary64,
    first: HostCpuSample,
    second: HostCpuSample,
)
    ensures
        host_util_after(Some(first), host_util_after(last, util, Some(first)), Some(second))
            == utilisation_between(first, second),
        host_util_after(None, util, Some(first)) == util,
        host_util_after(last, util, None) == util,
{
}

/// Every kind of time counts once among all ticks, and the two idle kinds once among the idle
/// ones, up to the largest counter value; a kind that the kernel leaves out counts as none.
pub proof fn law_every_kind_of_time_counts(times: KernelCpuTimes)
    ensures
        ({
            let opt = |t: Option<u64>|
                match t {
                    Some(n) => n as int,
                    None => 0int,
                };
            let busy = times.user + times.nice + times.system + opt(times.irq) + opt(times.softirq)
                + opt(times.steal) + opt(times.guest) + opt(times.guest_nice);
            let idle = times.idle + opt(times.iowait);
            &&& times.all() == vstd::math::min(busy + idle, u64::MAX as int)
            &&& times.idling() == vstd::math::min(idle, u64::MAX as int)
        }),
{
}

} // verus!
