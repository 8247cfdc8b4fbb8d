//! Figures computed from counters: times in seconds and shares of a time.

use vstd::prelude::*;

use crate::arithmetic::one_units;
use crate::binary64::{Binary64, INFINITY_BITS, ONE_BITS};
use crate::bounds::{
    lemma_at_most, lemma_count_at_most, lemma_count_is_exact, lemma_count_range, lemma_power_units,
    lemma_product_at_least, lemma_product_at_most, lemma_quotient_at_least, lemma_quotient_at_most,
    lemma_rounded_is_number, lemma_sum_range, lemma_total_stays, power_bits,
};
use crate::powers::twos;
use crate::rounding::{lemma_nearest_in_order, lemma_twos_120, lemma_units_grow};
use crate::values::{law_counts_are_their_values, law_counts_multiply, law_neutral_numbers};

verus! {

/// Nanoseconds in a second.
pub const NANOS_PER_SECOND: u64 = 1_000_000_000;

/// The whole seconds in a number of nanoseconds, held at the largest counter value.
pub open spec fn whole_seconds(ns: u128) -> u64 {
    if ns / NANOS_PER_SECOND as u128 > u64::MAX {
        u64::MAX
    } else {
        (ns / NANOS_PER_SECOND as u128) as u64
    }
}

/// A number of nanoseconds in seconds: the whole ones and the rest, each rounded.
pub open spec fn seconds_of(ns: u128) -> Binary64 {
    Binary64::of_count(whole_seconds(ns)).plus(
        Binary64::of_count((ns % NANOS_PER_SECOND as u128) as u64).over(
            Binary64::of_count(NANOS_PER_SECOND),
        ),
    )
}

proof fn lemma_nanos_range()
    ensures
        ONE_BITS <= Binary64::of_count(NANOS_PER_SECOND).bits <= power_bits(30),
{
    lemma_count_range(NANOS_PER_SECOND);
    assert(twos(30) == 0x4000_0000) by {
        reveal_with_fuel(twos, 31);
    }
    lemma_count_at_most(NANOS_PER_SECOND, 30);
}

/// A time in seconds is finite, and not 0 unless the time is.
pub proof fn lemma_seconds_range(ns: u128)
    ensures
        seconds_of(ns).bits <= power_bits(65) < INFINITY_BITS,
        ns > 0 ==> power_bits(-30) <= seconds_of(ns).bits,
{
    let whole = whole_seconds(ns);
    let rest = (ns % NANOS_PER_SECOND as u128) as u64;
    let nanos = Binary64::of_count(NANOS_PER_SECOND);
    let part = Binary64::of_count(rest).over(nanos);
    lemma_nanos_range();
    lemma_count_range(whole);
    lemma_count_range(rest);
    lemma_quotient_at_most(Binary64::of_count(rest), nanos, 64, 0);
    lemma_sum_range(Binary64::of_count(whole), part, 64);
    if rest > 0 {
        lemma_quotient_at_least(Binary64::of_count(rest), nanos, 0, 30);
    }
}

/// Convert nanoseconds to seconds.
pub fn seconds(ns: u128) -> (r: Binary64)
    ensures
        r == seconds_of(ns),
{
    let all: u128 = ns / NANOS_PER_SECOND as u128;
    let whole: u64 = if all > u64::MAX as u128 {
        u64::MAX
    } else {
        all as u64
    };
    let rest: u64 = (ns % NANOS_PER_SECOND as u128) as u64;
    proof {
        lemma_nanos_range();
        lemma_power_units(30);
        lemma_count_range(whole);
        lemma_count_range(rest);
        lemma_quotient_at_most(
            Binary64::of_count(rest),
            Binary64::of_count(NANOS_PER_SECOND),
            64,
            0,
        );
    }
    let part = Binary64::from_count(rest).divide(Binary64::from_count(NANOS_PER_SECOND));
    Binary64::from_count(whole).add_to(part)
}

/// The quotient of two counts, held in `[0, 1]`.
pub open spec fn ratio_of(part: u64, whole: u64) -> Binary64 {
    Binary64::of_count(part).over(Binary64::of_count(whole)).clamped()
}

/// Divide two counts, holding the result in `[0, 1]`.
pub fn ratio(part: u64, whole: u64) -> (r: Binary64)
    requires
        whole > 0,
    ensures
        r == ratio_of(part, whole),
        r.bits <= ONE_BITS,
{
    proof {
        lemma_count_range(part);
        lemma_count_range(whole);
        lemma_quotient_at_most(Binary64::of_count(part), Binary64::of_count(whole), 64, 0);
    }
    Binary64::from_count(part).divide(Binary64::from_count(whole)).clamp_unit()
}

/// The fraction of a time that one task ran for, from its ticks and the number of
/// ticks in a second, held in `[0, 1]`.
pub open spec fn busy_share_of(ticks: u64, hz: u64, elapsed_ns: u128) -> Binary64 {
    Binary64::of_count(ticks).over(Binary64::of_count(hz)).over(seconds_of(elapsed_ns)).clamped()
}

/// Compute the fraction of a time that one task ran for.
pub fn busy_share(ticks: u64, hz: u64, elapsed_ns: u128) -> (r: Binary64)
    requires
        hz > 0,
        elapsed_ns > 0,
    ensures
        r == busy_share_of(ticks, hz, elapsed_ns),
        r.bits <= ONE_BITS,
{
    let ghost run = Binary64::of_count(ticks).over(Binary64::of_count(hz));
    proof {
        lemma_count_range(ticks);
        lemma_count_range(hz);
        lemma_seconds_range(elapsed_ns);
        lemma_quotient_at_most(Binary64::of_count(ticks), Binary64::of_count(hz), 64, 0);
        lemma_quotient_at_most(run, seconds_of(elapsed_ns), 64, -30);
    }
    let run_seconds = Binary64::from_count(ticks).divide(Binary64::from_count(hz));
    run_seconds.divide(seconds(elapsed_ns)).clamp_unit()
}

/// The sum of the fractions of a time that some tasks ran for.
pub open spec fn total_share_of(ticks: Seq<u64>, hz: u64, elapsed_ns: u128) -> Binary64
    decreases ticks.len(),
{
    if ticks.len() == 0 {
        Binary64::zero_spec()
    } else {
        total_share_of(ticks.drop_last(), hz, elapsed_ns).plus(
            busy_share_of(ticks.last(), hz, elapsed_ns),
        )
    }
}

/// The average fraction of a time that some tasks ran for; 0 for no tasks.
pub open spec fn average_share_of(ticks: Seq<u64>, hz: u64, elapsed_ns: u128) -> Binary64 {
    if ticks.len() == 0 {
        Binary64::zero_spec()
    } else {
        total_share_of(ticks, hz, elapsed_ns).over(Binary64::of_count(ticks.len() as u64))
    }
}

/// Compute the average fraction of a time that some tasks ran for.
pub fn average_share(ticks: &Vec<u64>, hz: u64, elapsed_ns: u128) -> (r: Binary64)
    requires
        hz > 0,
        elapsed_ns > 0,
    ensures
        r == average_share_of(ticks@, hz, elapsed_ns),
{
    if ticks.len() == 0 {
        return Binary64::zero();
    }
    let mut total = Binary64::zero();
    let mut i: usize = 0;
    proof {
        lemma_power_units(54);
    }
    while i < ticks.len()
        invariant
            i <= ticks.len(),
            hz > 0,
            elapsed_ns > 0,
            total == total_share_of(ticks@.take(i as int), hz, elapsed_ns),
            total.bits <= power_bits(54) < INFINITY_BITS,
        decreases ticks.len() - i,
    {
        let share = busy_share(ticks[i], hz, elapsed_ns);
        proof {
            lemma_total_stays(total, share);
            let seen = ticks@.take(i + 1);
            assert(seen.drop_last() =~= ticks@.take(i as int));
            assert(seen.last() == ticks@[i as int]);
        }
        total = total.add_to(share);
        i = i + 1;
    }
    proof {
        assert(ticks@.take(i as int) =~= ticks@);
        lemma_count_range(ticks.len() as u64);
    }
    total.divide(Binary64::from_count(ticks.len() as u64))
}

proof fn lemma_total_share(ticks: Seq<u64>, hz: u64, elapsed_ns: u128)
    requires
        ticks.len() < 0x20_0000_0000_0000,
    ensures
        total_share_of(ticks, hz, elapsed_ns).bits <= Binary64::of_count(ticks.len() as u64).bits,
    decreases ticks.len(),
{
    if ticks.len() > 0 {
        let one = one_units();
        let n = ticks.len();
        let front = total_share_of(ticks.drop_last(), hz, elapsed_ns);
        let share = busy_share_of(ticks.last(), hz, elapsed_ns);
        lemma_total_share(ticks.drop_last(), hz, elapsed_ns);
        lemma_rounded_is_number(
            Binary64::of_count(ticks.last()).over(Binary64::of_count(hz)).in_units() * one,
            seconds_of(elapsed_ns).in_units(),
        );
        lemma_power_units(0);
        lemma_twos_120();
        lemma_count_is_exact((n - 1) as u64, 52);
        lemma_count_is_exact(n as u64, 52);
        lemma_units_grow(front.bits as int, Binary64::of_count((n - 1) as u64).bits as int);
        lemma_units_grow(share.bits as int, ONE_BITS as int);
        assert((n - 1) * one + one == n * one) by (nonlinear_arith);
        lemma_at_most(
            front.in_units() + share.in_units(),
            1,
            Binary64::of_count(n as u64).bits as int,
        );
    }
}

/// The average fraction of a time that some tasks ran for is in `[0, 1]`.
pub proof fn law_average_share_is_unit(ticks: Seq<u64>, hz: u64, elapsed_ns: u128)
    requires
        ticks.len() < 0x20_0000_0000_0000,
    ensures
        average_share_of(ticks, hz, elapsed_ns).in_unit(),
{
    if ticks.len() > 0 {
        let total = total_share_of(ticks, hz, elapsed_ns);
        let count = Binary64::of_count(ticks.len() as u64);
        lemma_total_share(ticks, hz, elapsed_ns);
        lemma_count_range(ticks.len() as u64);
        lemma_power_units(0);
        lemma_units_grow(0, count.bits as int);
        lemma_units_grow(total.bits as int, count.bits as int);
        assert(total.in_units() * one_units() <= count.in_units() * one_units())
            by (nonlinear_arith)
            requires
                total.in_units() <= count.in_units(),
        ;
        lemma_at_most(total.in_units() * one_units(), count.in_units(), ONE_BITS as int);
    }
}

/// The fraction of a time that each of a number of tasks ran for on average, from
/// the ticks of all of them, held in `[0, 1]`.
pub open spec fn task_share_of(ticks: u64, elapsed_ns: u128, hz: u64, tasks: u32) -> Binary64 {
    Binary64::of_count(ticks).over(
        seconds_of(elapsed_ns).times(Binary64::of_count(hz)),
    ).over(Binary64::of_count(tasks as u64)).clamped()
}

/// The fraction of a time that each task ran for is in `[0, 1]`.
pub proof fn lemma_task_share_is_unit(ticks: u64, elapsed_ns: u128, hz: u64, tasks: u32)
    ensures
        task_share_of(ticks, elapsed_ns, hz, tasks).in_unit(),
{
    let time = seconds_of(elapsed_ns).times(Binary64::of_count(hz));
    lemma_rounded_is_number(
        Binary64::of_count(ticks).over(time).in_units() * one_units(),
        Binary64::of_count(tasks as u64).in_units(),
    );
}

/// The quotient of two counts is in `[0, 1]`.
pub proof fn lemma_ratio_is_unit(part: u64, whole: u64)
    ensures
        ratio_of(part, whole).in_unit(),
{
    lemma_rounded_is_number(
        Binary64::of_count(part).in_units() * one_units(),
        Binary64::of_count(whole).in_units(),
    );
}

/// Compute the fraction of a time that each of a number of tasks ran for.
pub fn task_share(ticks: u64, elapsed_ns: u128, hz: u64, tasks: u32) -> (r: Binary64)
    requires
        hz > 0,
        elapsed_ns > 0,
        tasks > 0,
    ensures
        r == task_share_of(ticks, elapsed_ns, hz, tasks),
        r.bits <= ONE_BITS,
{
    let ghost time = seconds_of(elapsed_ns).times(Binary64::of_count(hz));
    let ghost all = Binary64::of_count(ticks).over(time);
    proof {
        lemma_count_range(ticks);
        lemma_count_range(hz);
        lemma_count_range(tasks as u64);
        lemma_seconds_range(elapsed_ns);
        lemma_product_at_most(seconds_of(elapsed_ns), Binary64::of_count(hz), 65, 64);
        lemma_product_at_least(seconds_of(elapsed_ns), Binary64::of_count(hz), -30, 0);
        lemma_quotient_at_most(Binary64::of_count(ticks), time, 64, -30);
        lemma_quotient_at_most(all, Binary64::of_count(tasks as u64), 94, 0);
    }
    let time_ticks = seconds(elapsed_ns).multiply(Binary64::from_count(hz));
    let all_tasks = Binary64::from_count(ticks).divide(time_ticks);
    all_tasks.divide(Binary64::from_count(tasks as u64)).clamp_unit()
}

/// A whole number of seconds is that number.
pub proof fn law_whole_seconds_are_counts(s: u64, ns: u128)
    requires
        s < 0x20_0000_0000_0000,
        ns == s * NANOS_PER_SECOND,
    ensures
        seconds_of(ns) == Binary64::of_count(s),
{
    assert(ns / NANOS_PER_SECOND as u128 == s && ns % NANOS_PER_SECOND as u128 == 0)
        by (nonlinear_arith)
        requires
            ns == s * NANOS_PER_SECOND,
            NANOS_PER_SECOND == 1_000_000_000,
    ;
    lemma_twos_120();
    lemma_nanos_range();
    law_counts_are_their_values(s);
    lemma_count_is_exact(s, 52);
    law_counts_multiply(0, NANOS_PER_SECOND, 0);
    law_neutral_numbers(Binary64::of_count(s));
}

/// The share of a task that ran for some whole seconds out of some whole seconds is the
/// quotient of the two, at every tick rate.
pub proof fn law_busy_share_is_time_over_time(run: u64, s: u64, hz: u64, ticks: u64, ns: u128)
    requires
        hz > 0,
        ticks == run * hz,
        ns == s * NANOS_PER_SECOND,
        ticks < 0x20_0000_0000_0000,
        run < 0x20_0000_0000_0000,
        hz < 0x20_0000_0000_0000,
        s < 0x20_0000_0000_0000,
    ensures
        busy_share_of(ticks, hz, ns) == ratio_of(run, s),
{
    law_counts_multiply(run, hz, ticks);
    law_whole_seconds_are_counts(s, ns);
}

/// The share of tasks that ran for `run` times some whole seconds altogether is `run` over
/// the number of tasks, at every tick rate.
pub proof fn law_task_share_is_time_over_tasks(
    run: u64,
    s: u64,
    hz: u64,
    tasks: u32,
    per_task: u64,
    ticks: u64,
    ns: u128,
)
    requires
        hz > 0,
        s > 0,
        per_task == s * hz,
        ticks == run * per_task,
        ns == s * NANOS_PER_SECOND,
        per_task < 0x20_0000_0000_0000,
        ticks < 0x20_0000_0000_0000,
        run < 0x20_0000_0000_0000,
        hz < 0x20_0000_0000_0000,
        s < 0x20_0000_0000_0000,
    ensures
        task_share_of(ticks, ns, hz, tasks) == ratio_of(run, tasks as u64),
{
    assert(per_task > 0) by (nonlinear_arith)
        requires
            per_task == s * hz,
            s > 0,
            hz > 0,
    ;
    law_whole_seconds_are_counts(s, ns);
    law_counts_multiply(s, hz, per_task);
    law_counts_multiply(run, per_task, ticks);
}

/// The average over one task is that task's own share.
pub proof fn law_average_of_one_task(ticks: u64, hz: u64, elapsed_ns: u128)
    ensures
        average_share_of(seq![ticks], hz, elapsed_ns) == busy_share_of(ticks, hz, elapsed_ns),
{
    let share = busy_share_of(ticks, hz, elapsed_ns);
    lemma_rounded_is_number(
        Binary64::of_count(ticks).over(Binary64::of_count(hz)).in_units() * one_units(),
        seconds_of(elapsed_ns).in_units(),
    );
    reveal_with_fuel(total_share_of, 2);
    assert(seq![ticks].drop_last() =~= Seq::<u64>::empty());
    law_counts_are_their_values(1);
    let zero = Binary64::zero_spec();
    assert(zero.plus(share) == share) by {
        law_neutral_numbers(share);
        assert(zero.in_units() + share.in_units() == share.in_units() + zero.in_units());
    }
    law_neutral_numbers(share);
}

/// More busy ticks never make a smaller share of the same whole.
pub proof fn law_ratio_grows(less: u64, more: u64, whole: u64)
    requires
        less <= more,
        whole > 0,
    ensures
        ratio_of(less, whole).at_most(ratio_of(more, whole)),
{
    let one = one_units();
    let low = Binary64::of_count(less);
    let high = Binary64::of_count(more);
    let w = Binary64::of_count(whole);
    assert(less as nat * one <= more as nat * one) by (nonlinear_arith)
        requires
            less <= more,
    ;
    lemma_nearest_in_order(less as nat * one, more as nat * one, 1);
    lemma_units_grow(low.bits as int, high.bits as int);
    lemma_count_range(whole);
    lemma_units_grow(0, w.bits as int);
    assert(low.in_units() * one <= high.in_units() * one) by (nonlinear_arith)
        requires
            low.in_units() <= high.in_units(),
    ;
    lemma_nearest_in_order(low.in_units() * one, high.in_units() * one, w.in_units());
}

/// No part of a whole is a share of 0, and the whole or more than the whole is a share of 1.
pub proof fn law_ratio_of_parts(part: u64, whole: u64)
    requires
        0 < whole < 0x20_0000_0000_0000,
        part < 0x20_0000_0000_0000,
    ensures
        part == 0 ==> ratio_of(part, whole) == Binary64::zero_spec(),
        part >= whole ==> ratio_of(part, whole) == Binary64::one_spec(),
{
    law_counts_are_their_values(part);
    law_counts_multiply(0, whole, 0);
    law_counts_multiply(1, whole, whole);
    law_ratio_grows(whole, if part >= whole { part } else { whole }, whole);
    lemma_ratio_is_unit(part, whole);
}

/// Every task counts once in the sum of the shares, and the average is that sum over the number of
/// tasks.
pub proof fn law_every_share_counts(ticks: Seq<u64>, more: u64, hz: u64, elapsed_ns: u128)
    requires
        ticks.len() < u64::MAX,
    ensures
        total_share_of(ticks.push(more), hz, elapsed_ns) == total_share_of(
            ticks,
            hz,
            elapsed_ns,
        ).plus(busy_share_of(more, hz, elapsed_ns)),
        average_share_of(ticks.push(more), hz, elapsed_ns) == total_share_of(
            ticks.push(more),
            hz,
            elapsed_ns,
        ).over(Binary64::of_count((ticks.len() + 1) as u64)),
        total_share_of(Seq::<u64>::empty(), hz, elapsed_ns) == Binary64::zero_spec(),
        average_share_of(Seq::<u64>::empty(), hz, elapsed_ns) == Binary64::zero_spec(),
{
    assert(ticks.push(more).drop_last() =~= ticks);
}

/// More ticks never make a smaller share: neither of one task, nor of several together.
pub proof fn law_shares_grow_with_ticks(less: u64, more: u64, hz: u64, elapsed_ns: u128, tasks: u32)
    requires
        less <= more,
        hz > 0,
        elapsed_ns > 0,
        tasks > 0,
    ensures
        busy_share_of(less, hz, elapsed_ns).at_most(busy_share_of(more, hz, elapsed_ns)),
        task_share_of(less, elapsed_ns, hz, tasks).at_most(
            task_share_of(more, elapsed_ns, hz, tasks),
        ),
{
    let one = one_units();
    assert(less as nat * one <= more as nat * one) by (nonlinear_arith)
        requires
            less <= more,
    ;
    lemma_nearest_in_order(less as nat * one, more as nat * one, 1);
    let low = Binary64::of_count(less);
    let high = Binary64::of_count(more);
    let rate = Binary64::of_count(hz);
    let time = seconds_of(elapsed_ns);
    let span = time.times(rate);
    let count = Binary64::of_count(tasks as u64);
    lemma_count_range(hz);
    lemma_count_range(tasks as u64);
    lemma_seconds_range(elapsed_ns);
    lemma_product_at_least(time, rate, -30, 0);
    lemma_power_units(-30);
    lemma_quotients_in_order(low, high, rate);
    lemma_quotients_in_order(low.over(rate), high.over(rate), time);
    lemma_quotients_in_order(low, high, span);
    lemma_quotients_in_order(low.over(span), high.over(span), count);
}

proof fn lemma_quotients_in_order(low: Binary64, high: Binary64, by: Binary64)
    requires
        low.bits <= high.bits <= INFINITY_BITS,
        0 < by.bits <= INFINITY_BITS,
    ensures
        low.over(by).bits <= high.over(by).bits <= INFINITY_BITS,
{
    let one = one_units();
    lemma_units_grow(low.bits as int, high.bits as int);
    lemma_units_grow(0, by.bits as int);
    assert(low.in_units() * one <= high.in_units() * one) by (nonlinear_arith)
        requires
            low.in_units() <= high.in_units(),
    ;
    lemma_nearest_in_order(low.in_units() * one, high.in_units() * one, by.in_units());
}

} // verus!
