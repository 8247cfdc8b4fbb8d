//! Bounded history of I/O and CPU counters.

use vstd::prelude::*;

use crate::arithmetic::one_units;
use crate::binary64::Binary64;
use crate::bounds::{
    lemma_at_most, lemma_count_at_most, lemma_count_range, lemma_power_units, lemma_product_at_most,
};
use crate::figures::{law_whole_seconds_are_counts, lemma_seconds_range, seconds, seconds_of};
use crate::instance::{add_saturating, decrease_floor, saturated, sub_saturating, RollingUpdate};
use crate::powers::{lemma_twos_grow, twos};
use crate::values::{law_counts_are_their_values, law_counts_multiply, law_neutral_numbers};

verus! {

/// Nanoseconds of history that are kept: the longest window.
pub const HORIZON_NS: u128 = 900_000_000_000;

/// Cumulative counters at one time.
#[derive(Debug, Clone, Copy, PartialEq, Eq, Structural)]
pub struct RollingSample {
    /// Time of the sample, in nanoseconds.
    pub at: u128,
    /// All completed operations.
    pub io_ops_total: u64,
    /// CPU time, in microseconds.
    pub cpu_us_total: u64,
}

/// Counters over the longest window.
#[derive(Debug)]
pub struct RollingMetrics {
    samples: Vec<RollingSample>,
}

/// Whether a sample is within a window that ends at `end`.
pub open spec fn within(sample: RollingSample, window_ns: u128, end: u128) -> bool {
    sample.at <= end && end - sample.at <= window_ns
}

/// The samples within a window that ends at `end`.
pub open spec fn recent(samples: Seq<RollingSample>, window_ns: u128, end: u128) -> Seq<
    RollingSample,
> {
    samples.filter(|s: RollingSample| within(s, window_ns, end))
}

/// The first and the last sample of a window that ends at the last sample, if they
/// are apart in time.
pub open spec fn span(samples: Seq<RollingSample>, window_ns: u128) -> Option<
    (RollingSample, RollingSample),
> {
    if samples.len() == 0 {
        None
    } else {
        let last = samples.last();
        let inside = recent(samples, window_ns, last.at);
        if inside.len() > 0 && inside[0].at < last.at {
            Some((inside[0], last))
        } else {
            None
        }
    }
}

/// Completed operations per second over a window.
pub open spec fn iops_in(samples: Seq<RollingSample>, window_ns: u128) -> Option<u64> {
    match span(samples, window_ns) {
        Some(ends) => Some(
            ((decrease_floor(ends.1.io_ops_total, ends.0.io_ops_total) * 1_000_000_000 / (ends.1.at
                - ends.0.at)) % 0x1_0000_0000_0000_0000) as u64,
        ),
        None => None,
    }
}

/// CPU microseconds per completed operation over a window.
pub open spec fn cpu_us_per_io_in(samples: Seq<RollingSample>, window_ns: u128) -> Option<u64> {
    match span(samples, window_ns) {
        Some(ends) => {
            let ops = decrease_floor(ends.1.io_ops_total, ends.0.io_ops_total);
            if ops == 0 {
                None
            } else {
                Some((decrease_floor(ends.1.cpu_us_total, ends.0.cpu_us_total) / ops) as u64)
            }
        },
        None => None,
    }
}

/// The CPU microseconds that a pool uses over a time at a utilisation, held at the
/// largest counter value; 0 where the utilisation is no positive number.
pub open spec fn pool_cpu_us(util: Binary64, thread_count: u32, elapsed_ns: u128) -> int {
    let held = util.clamped();
    if !held.positive() {
        0
    } else {
        saturated(
            held.times(Binary64::of_count(thread_count as u64)).times(seconds_of(elapsed_ns)).times(
                Binary64::of_count(1_000_000),
            ).rounded_down(),
        )
    }
}

/// The CPU microseconds in a number of ticks, held at the largest counter value.
pub open spec fn ticks_cpu_us(ticks: u64, hz: u64) -> int {
    saturated(ticks * 1_000_000 / hz as int)
}

/// The CPU microseconds that a history ends with.
pub open spec fn cpu_us_so_far(history: Seq<RollingSample>) -> int {
    if history.len() == 0 {
        0
    } else {
        history.last().cpu_us_total as int
    }
}

/// Nanoseconds from the end of a history to a time.
pub open spec fn since_last(history: Seq<RollingSample>, at: u128) -> u128 {
    if history.len() == 0 || at <= history.last().at {
        0
    } else {
        (at - history.last().at) as u128
    }
}

/// The history after a refresh of a VM.
pub open spec fn recorded(
    history: Seq<RollingSample>,
    update: RollingUpdate,
    hz: u64,
    at: u128,
) -> Seq<RollingSample> {
    match update {
        RollingUpdate::BackendUtil { io_ops_total, per_thread_util, thread_count } => recent(
            history,
            HORIZON_NS,
            at,
        ).push(
            RollingSample {
                at,
                io_ops_total,
                cpu_us_total: saturated(
                    cpu_us_so_far(history) + pool_cpu_us(
                        per_thread_util,
                        thread_count,
                        since_last(history, at),
                    ),
                ) as u64,
            },
        ),
        RollingUpdate::ProcessTicks { io_ops_total, cpu_ticks } => recent(
            history,
            HORIZON_NS,
            at,
        ).push(
            RollingSample { at, io_ops_total, cpu_us_total: ticks_cpu_us(cpu_ticks, hz) as u64 },
        ),
        RollingUpdate::Nothing => history,
    }
}

/// Compute the CPU microseconds that a pool uses over a time at a utilisation.
fn pool_us(util: Binary64, thread_count: u32, elapsed_ns: u128) -> (r: u64)
    ensures
        r == pool_cpu_us(util, thread_count, elapsed_ns),
{
    let held = util.clamp_unit();
    if !held.is_positive() {
        return 0;
    }
    proof {
        let threads = Binary64::of_count(thread_count as u64);
        let time = seconds_of(elapsed_ns);
        assert(twos(20) == 0x10_0000) by {
            reveal_with_fuel(twos, 21);
        }
        lemma_count_range(thread_count as u64);
        lemma_count_at_most(1_000_000, 20);
        lemma_seconds_range(elapsed_ns);
        lemma_product_at_most(held, threads, 0, 64);
        lemma_product_at_most(held.times(threads), time, 64, 65);
        lemma_product_at_most(held.times(threads).times(time), Binary64::of_count(1_000_000), 129, 20);
        lemma_power_units(149);
    }
    let load = held.multiply(Binary64::from_count(thread_count as u64));
    let used = load.multiply(seconds(elapsed_ns)).multiply(Binary64::from_count(1_000_000));
    used.floor_count()
}

/// Compute the CPU microseconds in a number of ticks.
fn ticks_us(ticks: u64, hz: u64) -> (r: u64)
    requires
        hz > 0,
    ensures
        r == ticks_cpu_us(ticks, hz),
{
    let us: u128 = ticks as u128 * 1_000_000 / hz as u128;
    if us > u64::MAX as u128 {
        u64::MAX
    } else {
        us as u64
    }
}

impl RollingMetrics {
    /// The samples, oldest first.
    pub closed spec fn history(&self) -> Seq<RollingSample> {
        self.samples@
    }

    /// Make an empty history.
    pub fn new() -> (r: Self)
        ensures
            r.history().len() == 0,
    {
        RollingMetrics { samples: Vec::new() }
    }

    /// Add the counters at a time, and forget what is out of the longest window.
    pub fn push(&mut self, at: u128, io_ops_total: u64, cpu_us_total: u64)
        ensures
            final(self).history() == recent(old(self).history(), HORIZON_NS, at).push(
                RollingSample { at, io_ops_total, cpu_us_total },
            ),
    {
        let mut kept: Vec<RollingSample> = Vec::new();
        let mut i: usize = 0;
        proof {
            reveal(Seq::filter);
            assert(kept@ =~= recent(self.samples@.take(0), HORIZON_NS, at));
        }
        while i < self.samples.len()
            invariant
                i <= self.samples.len(),
                kept@ == recent(self.samples@.take(i as int), HORIZON_NS, at),
            decreases self.samples.len() - i,
        {
            let sample = self.samples[i];
            proof {
                reveal(Seq::filter);
                assert(self.samples@.take(i + 1).drop_last() =~= self.samples@.take(i as int));
                assert(self.samples@.take(i + 1).last() == sample);
            }
            if sample.at <= at && at - sample.at <= HORIZON_NS {
                kept.push(sample);
            }
            i += 1;
        }
        assert(self.samples@.take(i as int) =~= self.samples@);
        kept.push(RollingSample { at, io_ops_total, cpu_us_total });
        self.samples = kept;
    }

    /// Add a refresh of a VM at a time; `hz` is the number of ticks in a second.
    pub fn record(&mut self, update: &RollingUpdate, hz: u64, at: u128)
        requires
            hz > 0,
        ensures
            final(self).history() == recorded(old(self).history(), *update, hz, at),
    {
        match update {
            RollingUpdate::BackendUtil { io_ops_total, per_thread_util, thread_count } => {
                let n: usize = self.samples.len();
                let (before, elapsed): (u64, u128) = if n == 0 {
                    (0, 0)
                } else {
                    let last = self.samples[n - 1];
                    (
                        last.cpu_us_total,
                        if at > last.at {
                            at - last.at
                        } else {
                            0
                        },
                    )
                };
                let used: u64 = pool_us(*per_thread_util, *thread_count, elapsed);
                self.push(at, *io_ops_total, add_saturating(before, used));
            },
            RollingUpdate::ProcessTicks { io_ops_total, cpu_ticks } => {
                self.push(at, *io_ops_total, ticks_us(*cpu_ticks, hz));
            },
            RollingUpdate::Nothing => {},
        }
    }

    /// The first and the last sample of a window.
    fn ends(&self, window_ns: u128) -> (r: Option<(RollingSample, RollingSample)>)
        ensures
            r == span(self.history(), window_ns),
    {
        if self.samples.len() == 0 {
            return None;
        }
        let last = self.samples[self.samples.len() - 1];
        let ghost all = self.samples@;
        let mut i: usize = 0;
        proof {
            reveal(Seq::filter);
            assert(recent(all.take(0), window_ns, last.at).len() == 0);
        }
        while i < self.samples.len()
            invariant
                i <= self.samples.len(),
                all == self.samples@,
                all.len() > 0,
                last == all.last(),
                recent(all.take(i as int), window_ns, last.at).len() == 0,
            decreases self.samples.len() - i,
        {
            let sample = self.samples[i];
            proof {
                reveal(Seq::filter);
                assert(all.take(i + 1).drop_last() =~= all.take(i as int));
                assert(all.take(i + 1).last() == sample);
            }
            if sample.at <= last.at && last.at - sample.at <= window_ns {
                proof {
                    lemma_first_recent(all, window_ns, last.at, i as int);
                }
                return if sample.at < last.at {
                    Some((sample, last))
                } else {
                    None
                };
            }
            i += 1;
        }
        assert(all.take(i as int) =~= all);
        None
    }

    /// Completed operations per second over a window; the low 64 bits where they
    /// need more. `None` before the window has two samples apart in time.
    pub fn iops_over(&self, window_ns: u128) -> (r: Option<u64>)
        ensures
            r == iops_in(self.history(), window_ns),
            r == match span(self.history(), window_ns) {
                Some(ends) => Some(
                    ((decrease_floor(ends.1.io_ops_total, ends.0.io_ops_total) * 1_000_000_000 / (
                    ends.1.at - ends.0.at)) % 0x1_0000_0000_0000_0000) as u64,
                ),
                None => None,
            },
    {
        match self.ends(window_ns) {
            Some((first, last)) => {
                let delta: u128 = sub_saturating(last.io_ops_total, first.io_ops_total) as u128;
                let elapsed: u128 = last.at - first.at;
                let per_second: u128 = delta * 1_000_000_000 / elapsed;
                assert(per_second as u64 == per_second % 0x1_0000_0000_0000_0000) by (bit_vector);
                Some(per_second as u64)
            },
            None => None,
        }
    }

    /// CPU microseconds per completed operation over a window. `None` before the
    /// window has two samples apart in time, or while no operation completes.
    pub fn cpu_us_per_io_over(&self, window_ns: u128) -> (r: Option<u64>)
        ensures
            r == cpu_us_per_io_in(self.history(), window_ns),
            r == match span(self.history(), window_ns) {
                Some(ends) => {
                    let ops = decrease_floor(ends.1.io_ops_total, ends.0.io_ops_total);
                    if ops == 0 {
                        None
                    } else {
                        Some(
                            (decrease_floor(ends.1.cpu_us_total, ends.0.cpu_us_total) / ops) as u64,
                        )
                    }
                },
                None => None,
            },
    {
        match self.ends(window_ns) {
            Some((first, last)) => {
                let ops: u64 = sub_saturating(last.io_ops_total, first.io_ops_total);
                let cpu: u64 = sub_saturating(last.cpu_us_total, first.cpu_us_total);
                if ops == 0 {
                    None
                } else {
                    Some(cpu / ops)
                }
            },
            None => None,
        }
    }
}

/// The first sample within a window comes first in its filtered samples.
proof fn lemma_first_recent(samples: Seq<RollingSample>, window_ns: u128, end: u128, i: int)
    requires
        0 <= i < samples.len(),
        within(samples[i], window_ns, end),
        recent(samples.take(i), window_ns, end).len() == 0,
    ensures
        recent(samples, window_ns, end).len() > 0,
        recent(samples, window_ns, end)[0] == samples[i],
    decreases samples.len(),
{
    reveal(Seq::filter);
    let front = samples.drop_last();
    if i == samples.len() - 1 {
        assert(front =~= samples.take(i));
    } else {
        assert(front.take(i) =~= samples.take(i));
        lemma_first_recent(front, window_ns, end, i);
    }
}

/// What is kept reaches back no further than the longest window.
pub proof fn law_history_is_bounded(before: Seq<RollingSample>, at: u128, i: int)
    requires
        0 <= i < recent(before, HORIZON_NS, at).len(),
    ensures
        within(recent(before, HORIZON_NS, at)[i], HORIZON_NS, at),
    decreases before.len(),
{
    reveal(Seq::filter);
    let front = before.drop_last();
    if i < recent(front, HORIZON_NS, at).len() {
        law_history_is_bounded(front, at, i);
    }
}

proof fn lemma_recent_contains(samples: Seq<RollingSample>, window_ns: u128, end: u128)
    ensures
        forall|s: RollingSample| #[trigger]
            recent(samples, window_ns, end).contains(s) <==> samples.contains(s) && s.at <= end
                && end - s.at <= window_ns,
    decreases samples.len(),
{
    reveal(Seq::filter);
    if samples.len() > 0 {
        let front = samples.drop_last();
        let sub = recent(front, window_ns, end);
        let all = recent(samples, window_ns, end);
        lemma_recent_contains(front, window_ns, end);
        assert forall|s: RollingSample| #[trigger]
            all.contains(s) <==> samples.contains(s) && s.at <= end && end - s.at <= window_ns by {
            assert(sub.contains(s) <==> front.contains(s) && s.at <= end && end - s.at <= window_ns);
            if front.contains(s) {
                let at = front.index_of(s);
                assert(samples[at] == s);
            }
            if samples.contains(s) {
                let at = samples.index_of(s);
                if at < front.len() {
                    assert(front[at] == s);
                }
            }
            if sub.contains(s) {
                let at = sub.index_of(s);
                assert(all[at] == s);
            }
            if all.contains(s) {
                let at = all.index_of(s);
                if at < sub.len() {
                    assert(sub[at] == s);
                }
            }
            if within(samples.last(), window_ns, end) {
                assert(all[sub.len() as int] == samples.last());
            }
            assert(samples[samples.len() - 1] == samples.last());
        }
    }
}

/// A refresh is remembered: unless there was nothing to add, the history ends with its time
/// and its operations, and keeps of the earlier samples exactly those of the last 15 minutes.
pub proof fn law_refreshes_are_remembered(
    history: Seq<RollingSample>,
    update: RollingUpdate,
    hz: u64,
    at: u128,
    s: RollingSample,
)
    ensures
        update is Nothing ==> recorded(history, update, hz, at) == history,
        !(update is Nothing) ==> {
            let after = recorded(history, update, hz, at);
            &&& after.len() > 0
            &&& after.last().at == at
            &&& after.last().io_ops_total == match update {
                RollingUpdate::BackendUtil { io_ops_total, .. } => io_ops_total,
                RollingUpdate::ProcessTicks { io_ops_total, .. } => io_ops_total,
                RollingUpdate::Nothing => 0,
            }
            &&& after.drop_last().contains(s) <==> history.contains(s) && s.at <= at && at - s.at
                <= 900_000_000_000
        },
{
    lemma_recent_contains(history, HORIZON_NS, at);
    let kept = recent(history, HORIZON_NS, at);
    if !(update is Nothing) {
        let after = recorded(history, update, hz, at);
        assert(after.drop_last() =~= kept);
    }
}

/// The CPU time of a history goes on from where it was: a pool that the backend measured adds
/// what it used since the last sample, and never takes anything away.
pub proof fn law_pool_time_adds_up(
    history: Seq<RollingSample>,
    io_ops_total: u64,
    per_thread_util: Binary64,
    thread_count: u32,
    hz: u64,
    at: u128,
)
    ensures
        ({
            let update = RollingUpdate::BackendUtil { io_ops_total, per_thread_util, thread_count };
            let after = recorded(history, update, hz, at).last().cpu_us_total;
            let before = if history.len() == 0 {
                0
            } else {
                history.last().cpu_us_total
            };
            let elapsed = if history.len() == 0 || at <= history.last().at {
                0
            } else {
                (at - history.last().at) as u128
            };
            let used = pool_cpu_us(per_thread_util, thread_count, elapsed);
            &&& used >= 0
            &&& after >= before
            &&& before + used <= u64::MAX ==> after == before + used
            &&& before + used > u64::MAX ==> after == u64::MAX
        }),
{
    let elapsed = since_last(history, at);
    let held = per_thread_util.clamped();
    if held.positive() {
        let used = held.times(Binary64::of_count(thread_count as u64)).times(
            seconds_of(elapsed),
        ).times(Binary64::of_count(1_000_000));
        lemma_floor(used);
    }
}

proof fn lemma_floor(x: Binary64)
    ensures
        x.rounded_down() >= 0,
{
    lemma_twos_grow(0, 1074);
    vstd::arithmetic::div_mod::lemma_div_pos_is_pos(x.in_units() as int, one_units() as int);
}

/// A pool of fully busy workers uses, over whole seconds, a million microseconds for each
/// worker and second; an idle one uses none.
pub proof fn law_busy_pools_use_their_time(
    thread_count: u32,
    s: u64,
    ns: u128,
    busy: u64,
    us: u64,
)
    requires
        ns == s * 1_000_000_000,
        s > 0,
        busy == thread_count * s,
        us == busy * 1_000_000,
        us < 0x20_0000_0000_0000,
    ensures
        pool_cpu_us(Binary64::one_spec(), thread_count, ns) == us,
        pool_cpu_us(Binary64::zero_spec(), thread_count, ns) == 0,
{
    let one = one_units();
    assert(busy <= us) by (nonlinear_arith)
        requires
            us == busy * 1_000_000,
    ;
    if thread_count == 0 {
        assert(busy == 0) by (nonlinear_arith)
            requires
                busy == thread_count * s,
                thread_count == 0,
        ;
    } else {
        assert(s <= busy) by (nonlinear_arith)
            requires
                busy == thread_count * s,
                thread_count >= 1,
        ;
    }
    let threads = Binary64::of_count(thread_count as u64);
    law_counts_are_their_values(thread_count as u64);
    lemma_count_range(thread_count as u64);
    law_neutral_numbers(threads);
    assert(Binary64::one_spec().times(threads) == threads) by {
        assert(Binary64::one_spec().in_units() * threads.in_units() == threads.in_units()
            * Binary64::one_spec().in_units()) by (nonlinear_arith);
    }
    lemma_power_units(0);
    if thread_count > 0 {
        law_whole_seconds_are_counts(s, ns);
        law_counts_multiply(thread_count as u64, s, busy);
    } else {
        lemma_twos_grow(0, 1074);
        law_counts_are_their_values(0);
        assert(0 * seconds_of(ns).in_units() == 0);
        lemma_at_most(0, one, 0);
    }
    law_counts_multiply(busy, 1_000_000, us);
    law_counts_are_their_values(us);
    lemma_twos_grow(0, 1074);
    vstd::arithmetic::div_mod::lemma_div_multiples_vanish(us as int, one as int);
    assert(one * us == us * one) by (nonlinear_arith);
}

/// A process that has used a whole number of seconds has used a million microseconds for each.
pub proof fn law_ticks_are_time(seconds_used: u64, hz: u64, ticks: u64)
    requires
        hz > 0,
        ticks == seconds_used * hz,
    ensures
        ticks_cpu_us(ticks, hz) == vstd::math::min(
            seconds_used * 1_000_000,
            u64::MAX as int,
        ),
{
    let us = seconds_used * 1_000_000;
    assert(ticks * 1_000_000 == hz * us) by (nonlinear_arith)
        requires
            ticks == seconds_used * hz,
            us == seconds_used * 1_000_000,
    ;
    vstd::arithmetic::div_mod::lemma_div_multiples_vanish(us, hz as int);
}

/// A window is measured from its oldest sample to the last one: it reaches back from the last
/// sample, the first sample in the history that it reaches is its start, and it counts only
/// where the two are apart in time.
pub proof fn law_windows_reach_back_from_the_last_sample(
    samples: Seq<RollingSample>,
    window_ns: u128,
)
    ensures
        samples.len() == 0 ==> span(samples, window_ns) is None,
        samples.len() > 0 ==> exists|i: int|
            {
                let last = samples.last();
                &&& 0 <= i < samples.len()
                &&& (#[trigger] samples[i]).at <= last.at
                &&& last.at - samples[i].at <= window_ns
                &&& forall|j: int|
                    0 <= j < i ==> (#[trigger] samples[j]).at > last.at || last.at - samples[j].at
                        > window_ns
                &&& span(samples, window_ns) == if samples[i].at < last.at {
                    Some((samples[i], last))
                } else {
                    None
                }
            },
{
    if samples.len() > 0 {
        let last = samples.last();
        let i = lemma_first_within(samples, window_ns, last.at, samples.len() - 1);
        lemma_none_recent(samples.take(i), window_ns, last.at);
        lemma_first_recent(samples, window_ns, last.at, i);
        assert(samples[i].at <= last.at);
    }
}

proof fn lemma_none_recent(samples: Seq<RollingSample>, window_ns: u128, end: u128)
    requires
        forall|j: int| 0 <= j < samples.len() ==> !within(#[trigger] samples[j], window_ns, end),
    ensures
        recent(samples, window_ns, end).len() == 0,
    decreases samples.len(),
{
    reveal(Seq::filter);
    if samples.len() > 0 {
        let front = samples.drop_last();
        assert forall|j: int| 0 <= j < front.len() implies !within(
            #[trigger] front[j],
            window_ns,
            end,
        ) by {
            assert(front[j] == samples[j]);
        }
        lemma_none_recent(front, window_ns, end);
        assert(!within(samples[samples.len() - 1], window_ns, end));
    }
}

proof fn lemma_first_within(samples: Seq<RollingSample>, window_ns: u128, end: u128, k: int) -> (i:
    int)
    requires
        0 <= k < samples.len(),
        within(samples[k], window_ns, end),
    ensures
        0 <= i <= k,
        within(samples[i], window_ns, end),
        forall|j: int| 0 <= j < i ==> !within(#[trigger] samples[j], window_ns, end),
    decreases k,
{
    if exists|j: int| 0 <= j < k && within(#[trigger] samples[j], window_ns, end) {
        let j = choose|j: int| 0 <= j < k && within(#[trigger] samples[j], window_ns, end);
        lemma_first_within(samples, window_ns, end, j)
    } else {
        k
    }
}

/// The CPU time of a process is what its ticks say, in microseconds, up to the largest counter value.
pub proof fn law_process_time_is_its_ticks(
    history: Seq<RollingSample>,
    io_ops_total: u64,
    cpu_ticks: u64,
    hz: u64,
    at: u128,
)
    requires
        hz > 0,
    ensures
        ({
            let update = RollingUpdate::ProcessTicks { io_ops_total, cpu_ticks };
            let us = cpu_ticks * 1_000_000 / hz as int;
            recorded(history, update, hz, at).last().cpu_us_total == vstd::math::min(
                us,
                u64::MAX as int,
            )
        }),
{
    vstd::arithmetic::div_mod::lemma_div_pos_is_pos(cpu_ticks * 1_000_000, hz as int);
}

/// The rate over a window is the increase of the operations from its first sample to its last, per
/// second of the time between them, where that fits a counter.
pub proof fn law_windowed_rates_are_differences(
    samples: Seq<RollingSample>,
    window_ns: u128,
    first: RollingSample,
    last: RollingSample,
)
    requires
        span(samples, window_ns) == Some((first, last)),
        first.at < last.at,
        first.io_ops_total <= last.io_ops_total,
        (last.io_ops_total - first.io_ops_total) * 1_000_000_000 / (last.at - first.at) <= u64::MAX,
    ensures
        iops_in(samples, window_ns) is Some,
        iops_in(samples, window_ns)->0 == (last.io_ops_total - first.io_ops_total) * 1_000_000_000 / (
        last.at - first.at),
{
    let rate = (last.io_ops_total - first.io_ops_total) * 1_000_000_000 / (last.at - first.at);
    vstd::arithmetic::div_mod::lemma_div_pos_is_pos(
        (last.io_ops_total - first.io_ops_total) * 1_000_000_000,
        last.at - first.at,
    );
    vstd::arithmetic::div_mod::lemma_small_mod(rate as nat, 0x1_0000_0000_0000_0000);
}

/// The CPU time per operation over a window is the increase of the CPU time over that of the
/// operations; there is none while no operation completes, nor before the window has data.
pub proof fn law_windowed_cpu_time_is_shared_out(
    samples: Seq<RollingSample>,
    window_ns: u128,
    first: RollingSample,
    last: RollingSample,
)
    requires
        span(samples, window_ns) == Some((first, last)),
        first.cpu_us_total <= last.cpu_us_total,
    ensures
        last.io_ops_total <= first.io_ops_total ==> cpu_us_per_io_in(samples, window_ns) is None,
        last.io_ops_total > first.io_ops_total ==> {
            let ops = last.io_ops_total - first.io_ops_total;
            let us = last.cpu_us_total - first.cpu_us_total;
            &&& cpu_us_per_io_in(samples, window_ns) is Some
            &&& cpu_us_per_io_in(samples, window_ns)->0 == us / ops
        },
{
    if last.io_ops_total > first.io_ops_total {
        let ops = last.io_ops_total - first.io_ops_total;
        let us = last.cpu_us_total - first.cpu_us_total;
        vstd::arithmetic::div_mod::lemma_div_pos_is_pos(us, ops);
        vstd::arithmetic::div_mod::lemma_div_is_ordered_by_denominator(us, 1, ops);
        assert(us / 1 == us);
    }
}

/// Before a window has two samples apart in time it has no figures.
pub proof fn law_windows_without_data_have_no_figures(
    samples: Seq<RollingSample>,
    window_ns: u128,
)
    requires
        span(samples, window_ns) is None,
    ensures
        iops_in(samples, window_ns) is None,
        cpu_us_per_io_in(samples, window_ns) is None,
{
}

} // verus!
