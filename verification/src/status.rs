//! What the status lines say.

use vstd::prelude::*;
use vstd::string::StringExecFns;

use crate::arithmetic::one_units;
use crate::binary64::{Binary64, SIGN_BIT};
use crate::bounds::{
    lemma_at_most, lemma_count_at_most, lemma_count_range, lemma_power_units,
    lemma_product_at_most,
};
use crate::instance::{add_saturating, saturated, InstanceStatus};
use crate::numerals::{decimal, decimal_text};
use crate::powers::{lemma_twos_grow, twos};
use crate::values::{law_counts_are_their_values, law_counts_multiply, law_neutral_numbers};

verus! {

/// Length of the first rolling window, in minutes.
pub const FIRST_WINDOW_MINS: u64 = 1;

/// Length of the second rolling window, in minutes.
pub const SECOND_WINDOW_MINS: u64 = 5;

/// Length of the third rolling window, in minutes.
pub const THIRD_WINDOW_MINS: u64 = 15;

/// One value for each rolling window; `None` before the window has data.
#[derive(Debug, Clone, Copy, PartialEq, Eq, Structural)]
pub struct WindowCells {
    /// Value of the first window.
    pub first: Option<u64>,
    /// Value of the second window.
    pub second: Option<u64>,
    /// Value of the third window.
    pub third: Option<u64>,
}

/// What one VM adds to the aggregate.
#[derive(Debug, Clone, Copy, PartialEq, Eq, Structural)]
pub struct StatusRow {
    /// Worker count.
    pub thread_count: u32,
    /// IOPS over the rolling windows.
    pub iops: WindowCells,
}

/// The aggregate over all VMs.
#[derive(Debug, Clone, Copy, PartialEq, Eq, Structural)]
pub struct AggregateStatus {
    /// Number of VMs.
    pub tracked_vms: usize,
    /// Workers of all VMs.
    pub total_threads: u64,
    /// IOPS of all VMs over the rolling windows.
    pub iops: WindowCells,
}

/// A cell of the aggregate: the sum of the cells with data, held at the largest
/// counter value, or none where no cell has data.
pub open spec fn cell_sum(cells: Seq<Option<u64>>) -> Option<int>
    decreases cells.len(),
{
    if cells.len() == 0 {
        None
    } else {
        match (cell_sum(cells.drop_last()), cells.last()) {
            (Some(sum), Some(value)) => Some(sum + value),
            (Some(sum), None) => Some(sum),
            (None, Some(value)) => Some(value as int),
            (None, None) => None,
        }
    }
}

/// A sum as a cell.
pub open spec fn cell_of(sum: Option<int>) -> Option<u64> {
    match sum {
        Some(n) => Some(saturated(n) as u64),
        None => None,
    }
}

/// Workers of all VMs.
pub open spec fn thread_sum(rows: Seq<StatusRow>) -> int
    decreases rows.len(),
{
    if rows.len() == 0 {
        0
    } else {
        thread_sum(rows.drop_last()) + rows.last().thread_count
    }
}

/// The cells of the first window.
pub open spec fn first_cells(rows: Seq<StatusRow>) -> Seq<Option<u64>> {
    rows.map_values(|row: StatusRow| row.iops.first)
}

/// The cells of the second window.
pub open spec fn second_cells(rows: Seq<StatusRow>) -> Seq<Option<u64>> {
    rows.map_values(|row: StatusRow| row.iops.second)
}

/// The cells of the third window.
pub open spec fn third_cells(rows: Seq<StatusRow>) -> Seq<Option<u64>> {
    rows.map_values(|row: StatusRow| row.iops.third)
}

fn add_cell(sum: Option<u64>, value: Option<u64>) -> (r: Option<u64>)
    ensures
        r == match (sum, value) {
            (Some(s), Some(v)) => Some(saturated(s + v) as u64),
            (Some(s), None) => Some(s),
            (None, v) => v,
        },
{
    match (sum, value) {
        (Some(s), Some(v)) => Some(add_saturating(s, v)),
        (Some(s), None) => Some(s),
        (None, v) => v,
    }
}

proof fn lemma_cell_sum(cells: Seq<Option<u64>>)
    ensures
        cell_sum(cells) is Some ==> cell_sum(cells)->0 >= 0,
    decreases cells.len(),
{
    if cells.len() > 0 {
        lemma_cell_sum(cells.drop_last());
    }
}

/// Sum up the status of all VMs.
pub fn aggregate_status(rows: &Vec<StatusRow>) -> (r: AggregateStatus)
    requires
        rows@.len() <= u32::MAX,
    ensures
        r.tracked_vms == rows@.len(),
        r.total_threads == thread_sum(rows@),
        r.iops.first == cell_of(cell_sum(first_cells(rows@))),
        r.iops.second == cell_of(cell_sum(second_cells(rows@))),
        r.iops.third == cell_of(cell_sum(third_cells(rows@))),
{
    let mut total_threads: u64 = 0;
    let mut iops = WindowCells { first: None, second: None, third: None };
    let mut i: usize = 0;
    while i < rows.len()
        invariant
            rows@.len() <= u32::MAX,
            i <= rows.len(),
            total_threads == thread_sum(rows@.take(i as int)),
            total_threads <= i * u32::MAX,
            iops.first == cell_of(cell_sum(first_cells(rows@.take(i as int)))),
            iops.second == cell_of(cell_sum(second_cells(rows@.take(i as int)))),
            iops.third == cell_of(cell_sum(third_cells(rows@.take(i as int)))),
        decreases rows.len() - i,
    {
        let row = rows[i];
        proof {
            let longer = rows@.take(i + 1);
            let front = rows@.take(i as int);
            assert(longer.drop_last() =~= front);
            assert(longer.last() == row);
            assert(first_cells(longer).drop_last() =~= first_cells(front));
            assert(second_cells(longer).drop_last() =~= second_cells(front));
            assert(third_cells(longer).drop_last() =~= third_cells(front));
            lemma_cell_sum(first_cells(front));
            lemma_cell_sum(second_cells(front));
            lemma_cell_sum(third_cells(front));
            assert(i * u32::MAX + u32::MAX <= u32::MAX * u32::MAX) by (nonlinear_arith)
                requires
                    i < u32::MAX,
            ;
            assert((i + 1) * u32::MAX == i * u32::MAX + u32::MAX) by (nonlinear_arith);
        }
        total_threads = total_threads + row.thread_count as u64;
        iops.first = add_cell(iops.first, row.iops.first);
        iops.second = add_cell(iops.second, row.iops.second);
        iops.third = add_cell(iops.third, row.iops.third);
        i += 1;
    }
    assert(rows@.take(i as int) =~= rows@);
    AggregateStatus { tracked_vms: rows.len(), total_threads, iops }
}

/// The text of a cell: the number, or `-` before the window has data.
pub open spec fn cell_text(cell: Option<u64>) -> Seq<char> {
    match cell {
        Some(n) => decimal(n as nat),
        None => "-"@,
    }
}

fn format_cell(cell: Option<u64>) -> (r: String)
    ensures
        r@ == cell_text(cell),
{
    match cell {
        Some(n) => decimal_text(n),
        None => "-".to_owned(),
    }
}

/// Render the cells of the rolling windows, using `-` before a window has data.
pub fn format_optional_cells(values: &WindowCells) -> (r: String)
    ensures
        r@ == cell_text(values.first) + "/"@ + cell_text(values.second) + "/"@ + cell_text(
            values.third,
        ),
{
    format_cell(values.first).concat("/").concat(format_cell(values.second).as_str()).concat(
        "/",
    ).concat(format_cell(values.third).as_str())
}

/// Render the current read, write and other rates of a VM.
pub fn iops_text(status: &InstanceStatus) -> (r: String)
    ensures
        r@ == decimal(status.read_iops as nat) + "/"@ + decimal(status.write_iops as nat) + "/"@
            + decimal(status.other_iops as nat),
{
    decimal_text(status.read_iops).concat("/").concat(
        decimal_text(status.write_iops).as_str(),
    ).concat("/").concat(decimal_text(status.other_iops).as_str())
}

/// Render the current read and write bandwidth of a VM, in whole MB/s.
pub fn bandwidth_text(status: &InstanceStatus) -> (r: String)
    ensures
        r@ == decimal((status.read_bytes_per_second / 1_000_000) as nat) + "/"@ + decimal(
            (status.write_bytes_per_second / 1_000_000) as nat,
        ),
{
    decimal_text(status.read_bytes_per_second / 1_000_000).concat("/").concat(
        decimal_text(status.write_bytes_per_second / 1_000_000).as_str(),
    )
}

/// The average CPU percentage of a worker, for a utilisation in `[0, 1]`.
pub open spec fn average_percent(util: Binary64) -> Binary64 {
    util.times(Binary64::of_count(100))
}

/// The CPU percentage of a pool.
pub open spec fn total_percent(util: Binary64, thread_count: u32) -> Binary64 {
    average_percent(util).times(Binary64::of_count(thread_count as u64))
}

/// The text of the CPU percentages: both rounded to whole numbers. A utilisation that
/// is no number is shown as such, and a negative zero with its sign.
pub open spec fn cpu_cells(util: Binary64, thread_count: u32) -> Seq<char> {
    let held = util.clamped();
    if held.is_nan_spec() {
        "NaN/NaN"@
    } else if held.bits == SIGN_BIT {
        "-0/-0"@
    } else {
        decimal(average_percent(held).nearest_whole() as nat) + "/"@ + decimal(
            total_percent(held, thread_count).nearest_whole() as nat,
        )
    }
}

/// Render the average per-worker and the total CPU percentage of a VM's pool.
pub fn cpu_text(status: &InstanceStatus) -> (r: String)
    ensures
        r@ == cpu_cells(status.per_thread_util, status.thread_count),
{
    let held = status.per_thread_util.clamp_unit();
    if held.is_nan() {
        return "NaN/NaN".to_owned();
    }
    if held.bits == SIGN_BIT {
        return "-0/-0".to_owned();
    }
    proof {
        let threads = Binary64::of_count(status.thread_count as u64);
        assert(twos(7) == 128) by {
            reveal_with_fuel(twos, 8);
        }
        assert(twos(32) == 0x1_0000_0000) by {
            reveal_with_fuel(twos, 33);
        }
        lemma_count_at_most(100, 7);
        lemma_count_at_most(status.thread_count as u64, 32);
        lemma_product_at_most(held, Binary64::of_count(100), 0, 7);
        lemma_product_at_most(average_percent(held), threads, 7, 32);
    }
    let average = held.multiply(Binary64::from_count(100));
    let total = average.multiply(Binary64::from_count(status.thread_count as u64));
    decimal_text(average.round_count()).concat("/").concat(
        decimal_text(total.round_count()).as_str(),
    )
}

/// Render a change of the worker count.
pub fn transition_text(from: u32, to: u32) -> (r: String)
    ensures
        r@ == decimal(from as nat) + "->"@ + decimal(to as nat),
{
    decimal_text(from as u64).concat("->").concat(decimal_text(to as u64).as_str())
}

// ---------------------------------------------------------------------
// Laws
// ---------------------------------------------------------------------

/// The workers of a fleet in two parts are those of its parts together, and those of one VM
/// are its own.
pub proof fn law_workers_add_up(first: Seq<StatusRow>, second: Seq<StatusRow>, row: StatusRow)
    ensures
        thread_sum(first + second) == thread_sum(first) + thread_sum(second),
        thread_sum(seq![row]) == row.thread_count,
    decreases second.len(),
{
    reveal_with_fuel(thread_sum, 2);
    assert(seq![row].drop_last() =~= Seq::<StatusRow>::empty());
    if second.len() == 0 {
        assert(first + second =~= first);
    } else {
        law_workers_add_up(first, second.drop_last(), row);
        assert((first + second).drop_last() =~= first + second.drop_last());
        assert((first + second).last() == second.last());
    }
}

/// The number in a cell; 0 where it has none.
pub open spec fn number_in(cell: Option<int>) -> int {
    match cell {
        Some(n) => n,
        None => 0,
    }
}

/// A cell of the aggregate has data exactly where some VM's cell has, and then holds the sum of
/// those that have: the sums of a fleet in two parts are those of its parts together.
pub proof fn law_cells_add_up(first: Seq<Option<u64>>, second: Seq<Option<u64>>, cell: Option<u64>)
    ensures
        cell_sum(first + second) is Some <==> cell_sum(first) is Some || cell_sum(second) is Some,
        number_in(cell_sum(first + second)) == number_in(cell_sum(first)) + number_in(
            cell_sum(second),
        ),
        cell_sum(seq![cell]) is Some <==> cell is Some,
        cell is Some ==> cell_sum(seq![cell]) == Some(cell->0 as int),
    decreases second.len(),
{
    reveal_with_fuel(cell_sum, 2);
    assert(seq![cell].drop_last() =~= Seq::<Option<u64>>::empty());
    if second.len() == 0 {
        assert(first + second =~= first);
    } else {
        law_cells_add_up(first, second.drop_last(), cell);
        assert((first + second).drop_last() =~= first + second.drop_last());
        assert((first + second).last() == second.last());
    }
}

/// A sum is shown as it is, or as the largest counter value where it is larger; and each of the
/// three windows has cells of its own.
pub proof fn law_cells_show_their_sums(sum: Option<int>, rows: Seq<StatusRow>, i: int)
    requires
        sum is Some ==> sum->0 >= 0,
        0 <= i < rows.len(),
    ensures
        cell_of(sum) is Some <==> sum is Some,
        sum is Some ==> cell_of(sum)->0 == vstd::math::min(sum->0, u64::MAX as int),
        first_cells(rows)[i] == rows[i].iops.first,
        second_cells(rows)[i] == rows[i].iops.second,
        third_cells(rows)[i] == rows[i].iops.third,
        first_cells(rows).len() == rows.len(),
        second_cells(rows).len() == rows.len(),
        third_cells(rows).len() == rows.len(),
{
}

/// A cell without data is a dash, and one with data its number.
pub proof fn law_cells_without_data_are_dashes(n: u64)
    ensures
        cell_text(None) == "-"@,
        cell_text(Some(n)) == decimal(n as nat),
{
}

/// Fully busy workers show 100 percent each, and a hundred times their number in all; idle ones
/// show 0.
pub proof fn law_busy_pools_show_full_percentages(thread_count: u32, util: Binary64)
    ensures
        Binary64::one_spec().at_most(util) ==> cpu_cells(util, thread_count) == decimal(100) + "/"@
            + decimal((100 * thread_count) as nat),
        cpu_cells(Binary64::zero_spec(), thread_count) == decimal(0) + "/"@ + decimal(0),
{
    let one = Binary64::one_spec();
    let zero = Binary64::zero_spec();
    let hundred = Binary64::of_count(100);
    let threads = Binary64::of_count(thread_count as u64);
    let all = (100 * thread_count) as u64;
    lemma_twos_grow(0, 1074);
    lemma_count_range(100);
    lemma_count_range(thread_count as u64);
    lemma_power_units(0);
    law_counts_are_their_values(100);
    law_counts_are_their_values(all);
    law_counts_are_their_values(0);
    law_neutral_numbers(hundred);
    assert(one.times(hundred) == hundred) by {
        assert(one.in_units() * hundred.in_units() == hundred.in_units() * one.in_units())
            by (nonlinear_arith);
    }
    assert(hundred.times(threads) == Binary64::of_count(all)) by {
        if thread_count > 0 {
            law_counts_multiply(100, thread_count as u64, all);
        } else {
            law_counts_are_their_values(0);
            assert(hundred.in_units() * 0 == 0);
            lemma_at_most(0, one_units(), 0);
        }
    }
    assert(zero.times(hundred) == zero) by {
        law_counts_multiply(0, 100, 0);
    }
    assert(zero.times(threads) == zero) by {
        assert(0 * threads.in_units() == 0);
        lemma_at_most(0, one_units(), 0);
    }
    lemma_whole_percent(100);
    lemma_whole_percent(all);
    lemma_whole_percent(0);
}

proof fn lemma_whole_percent(n: u64)
    requires
        n < 0x20_0000_0000_0000,
    ensures
        Binary64::of_count(n).nearest_whole() == n,
{
    let one = one_units() as int;
    lemma_twos_grow(0, 1074);
    law_counts_are_their_values(n);
    assert(n * one == n * one + 0);
    vstd::arithmetic::div_mod::lemma_fundamental_div_mod_converse(n * one, one, n as int, 0);
}

/// A percentage is shown as the nearest whole number: it is off by at most a half.
pub proof fn law_percentages_are_rounded(x: Binary64)
    ensures
        2 * x.in_units() - one_units() <= 2 * (x.nearest_whole() * one_units()) <= 2 * x.in_units()
            + one_units(),
{
    let one = one_units() as int;
    let u = x.in_units() as int;
    lemma_twos_grow(0, 1074);
    vstd::arithmetic::div_mod::lemma_fundamental_div_mod(u, one);
    vstd::arithmetic::div_mod::lemma_mod_bound(u, one);
    let q = u / one;
    assert(one * q == q * one) by (nonlinear_arith);
    assert((q + 1) * one == q * one + one) by (nonlinear_arith);
}

} // verus!
