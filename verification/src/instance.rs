//! Backend-neutral data model for one VM.
//!
//! [`Instance`] is a record, not a backend abstraction: it holds identity and
//! current state. The client that controls the VM belongs to the caller, which
//! hands the record what the client reported. Instants are nanoseconds since an
//! epoch of the caller's choice.

use vstd::prelude::*;
use vstd::string::StringExecFns;

use crate::backends::BackendClientError;
use crate::binary64::Binary64;
use crate::figures::{lemma_task_share_is_unit, task_share, task_share_of};
use crate::patterns::{compile_pattern, pattern_matches, regex_compiles, regex_matches};
use crate::text::{from_chars, to_chars, trim, trimmed};

verus! {

/// Failure to build part of an instance.
#[derive(Debug)]
pub enum InstanceError {
    /// A task-name pattern does not compile.
    Regex(regex::Error),
}

/// Failure to sample the CPU counters of a backend process.
#[derive(Debug, Clone, Copy, PartialEq, Eq, Structural)]
pub enum CpuSampleError {
    /// No task of the process is part of the sample.
    NoCpuSamples,
}

impl CpuSampleError {
    /// Render the failure for people.
    pub fn message(&self) -> (r: String)
        ensures
            r@ == "no usable backend task CPU samples"@,
    {
        "no usable backend task CPU samples".to_owned()
    }
}

/// The sum of counters, held at the largest counter value.
pub open spec fn saturated(sum: int) -> int {
    if sum > u64::MAX {
        u64::MAX as int
    } else {
        sum
    }
}

/// Add counters, held at the largest counter value.
pub fn add_saturating(a: u64, b: u64) -> (r: u64)
    ensures
        r == saturated(a + b),
{
    if a > u64::MAX - b {
        u64::MAX
    } else {
        a + b
    }
}

/// Subtract counters, held at 0.
pub open spec fn decrease_floor(a: u64, b: u64) -> int {
    if a >= b {
        a - b
    } else {
        0
    }
}

/// Subtract counters, held at 0.
pub fn sub_saturating(a: u64, b: u64) -> (r: u64)
    ensures
        r == decrease_floor(a, b),
{
    if a >= b {
        a - b
    } else {
        0
    }
}

// ---------------------------------------------------------------------
// Observations
// ---------------------------------------------------------------------

/// Cumulative CPU counters sampled across one backend process.
#[derive(Debug, Clone, Copy, PartialEq, Eq, Structural)]
pub struct CpuSample {
    /// Sum of user and system CPU ticks across sampled tasks.
    pub cpu_ticks: u64,
    /// Monotonic time at which this sample was taken, in nanoseconds.
    pub sampled_at: u128,
    /// Number of tasks included in the sample.
    pub thread_count: u32,
}

/// Backend-neutral performance counters from one snapshot.
#[derive(Debug, Clone, Copy, PartialEq, Eq, Structural)]
pub struct InstancePerfSample {
    /// Cumulative completed reads.
    pub read_io_count: u64,
    /// Cumulative completed writes.
    pub write_io_count: u64,
    /// Cumulative completed non-read/write operations.
    pub other_io_count: u64,
    /// Cumulative bytes read.
    pub read_bytes_total: u64,
    /// Cumulative bytes written.
    pub write_bytes_total: u64,
}

impl InstancePerfSample {
    /// Every counter at zero.
    pub open spec fn zero() -> InstancePerfSample {
        InstancePerfSample {
            read_io_count: 0,
            write_io_count: 0,
            other_io_count: 0,
            read_bytes_total: 0,
            write_bytes_total: 0,
        }
    }

    /// All completed operations, held at the largest counter value.
    pub open spec fn total(self) -> int {
        saturated(self.read_io_count + self.write_io_count + self.other_io_count)
    }

    /// All completed operations.
    pub fn total_io_count(&self) -> (r: u64)
        ensures
            r == self.total(),
    {
        add_saturating(add_saturating(self.read_io_count, self.write_io_count), self.other_io_count)
    }
}

impl Default for InstancePerfSample {
    fn default() -> (r: Self)
        ensures
            r == InstancePerfSample::zero(),
    {
        InstancePerfSample {
            read_io_count: 0,
            write_io_count: 0,
            other_io_count: 0,
            read_bytes_total: 0,
            write_bytes_total: 0,
        }
    }
}

/// The counters of an optional sample; zeros where there is none.
pub open spec fn perf_or_zero(perf: Option<InstancePerfSample>) -> InstancePerfSample {
    match perf {
        Some(p) => p,
        None => InstancePerfSample::zero(),
    }
}

/// All completed operations of an optional sample.
pub open spec fn io_total(perf: Option<InstancePerfSample>) -> int {
    perf_or_zero(perf).total()
}

/// All completed operations of an optional sample.
pub fn io_ops_total(perf: &Option<InstancePerfSample>) -> (r: u64)
    ensures
        r == io_total(*perf),
{
    match perf {
        Some(p) => p.total_io_count(),
        None => 0,
    }
}

/// One backend snapshot consumed by the controller and engine.
#[derive(Debug, Clone, Copy, PartialEq, Eq, Structural)]
pub struct ThreadPoolSnapshot {
    /// Number of active I/O workers.
    pub thread_count: u32,
    /// Current backend-reported vCPU count; `None` where the backend could not tell.
    pub vcpu_count: Option<u32>,
    /// Performance counters captured with the current worker count.
    pub perf: Option<InstancePerfSample>,
    /// Backend-computed per-thread CPU utilisation.
    ///
    /// `None` asks for a sample of the backend process's own tasks, chosen by
    /// [`Instance::thread_name_filter`].
    pub per_thread_util: Option<Binary64>,
}

// ---------------------------------------------------------------------
// Task-name filter
// ---------------------------------------------------------------------

/// Regex classifier for backend task names.
#[derive(Debug, Clone)]
pub struct ThreadNameFilter {
    match_regex: Option<String>,
}

/// The pattern that a filter made from `pattern` looks for, if any.
pub open spec fn filter_pattern(pattern: Seq<char>) -> Option<Seq<char>> {
    if pattern.len() == 0 {
        None
    } else {
        Some("(?:"@ + pattern + ")"@)
    }
}

impl ThreadNameFilter {
    /// The pattern that a task name must match, if any.
    pub closed spec fn pattern(&self) -> Option<Seq<char>> {
        match self.match_regex {
            Some(p) => Some(p@),
            None => None,
        }
    }

    /// Whether a task name belongs in CPU sampling.
    pub open spec fn accepts(&self, task_name: Seq<char>) -> bool {
        match self.pattern() {
            Some(p) => regex_matches(p, task_name),
            None => true,
        }
    }

    /// Compile a task-name pattern. An empty one accepts every task.
    pub fn new(pattern: &str) -> (r: Result<Self, InstanceError>)
        ensures
            match filter_pattern(pattern@) {
                Some(p) => r is Ok == regex_compiles(p),
                None => r is Ok,
            },
            r is Ok ==> r->Ok_0.pattern() == filter_pattern(pattern@),
    {
        if pattern.is_empty() {
            return Ok(ThreadNameFilter { match_regex: None });
        }
        let whole = "(?:".to_owned().concat(pattern).concat(")");
        match compile_pattern(whole.as_str()) {
            Ok(_) => Ok(ThreadNameFilter { match_regex: Some(whole) }),
            Err(error) => Err(InstanceError::Regex(error)),
        }
    }

    /// Return whether a task name belongs in CPU sampling.
    pub fn matches(&self, task_name: &str) -> (r: bool)
        ensures
            r == self.accepts(task_name@),
    {
        match &self.match_regex {
            Some(p) => pattern_matches(p.as_str(), task_name),
            None => true,
        }
    }
}

impl Default for ThreadNameFilter {
    fn default() -> (r: Self)
        ensures
            r.pattern() is None,
    {
        ThreadNameFilter { match_regex: None }
    }
}

/// Name and ticks of one task of a backend process.
#[derive(Debug, Clone)]
pub struct TaskStat {
    /// Task name.
    pub comm: String,
    /// Ticks spent in user mode.
    pub utime: u64,
    /// Ticks spent in kernel mode.
    pub stime: u64,
}

/// Ticks of one task, and whether the task belongs in the sample.
#[derive(Debug, Clone, Copy, PartialEq, Eq, Structural)]
pub struct TaskReading {
    /// Whether the task belongs in the sample.
    pub included: bool,
    /// Ticks spent in user mode.
    pub utime: u64,
    /// Ticks spent in kernel mode.
    pub stime: u64,
}

/// Ticks of the tasks that belong in a sample.
pub open spec fn included_ticks(tasks: Seq<TaskReading>) -> int
    decreases tasks.len(),
{
    if tasks.len() == 0 {
        0
    } else {
        included_ticks(tasks.drop_last()) + if tasks.last().included {
            tasks.last().utime + tasks.last().stime
        } else {
            0
        }
    }
}

/// Number of the tasks that belong in a sample.
pub open spec fn included_count(tasks: Seq<TaskReading>) -> int
    decreases tasks.len(),
{
    if tasks.len() == 0 {
        0
    } else {
        included_count(tasks.drop_last()) + if tasks.last().included {
            1int
        } else {
            0
        }
    }
}

/// The sample that readings make, unless no task belongs in it.
pub open spec fn summed_sample(tasks: Seq<TaskReading>, now: u128) -> Option<CpuSample> {
    if included_count(tasks) == 0 {
        None
    } else {
        Some(
            CpuSample {
                cpu_ticks: saturated(included_ticks(tasks)) as u64,
                sampled_at: now,
                thread_count: included_count(tasks) as u32,
            },
        )
    }
}

/// Sum the readings that belong in a sample.
pub fn sum_readings(tasks: &Vec<TaskReading>, now: u128) -> (r: Result<CpuSample, CpuSampleError>)
    requires
        tasks@.len() <= u32::MAX,
    ensures
        match summed_sample(tasks@, now) {
            Some(sample) => r == Ok::<CpuSample, CpuSampleError>(sample),
            None => r == Err::<CpuSample, CpuSampleError>(CpuSampleError::NoCpuSamples),
        },
{
    let mut cpu_ticks: u64 = 0;
    let mut thread_count: u32 = 0;
    let mut i: usize = 0;
    while i < tasks.len()
        invariant
            tasks@.len() <= u32::MAX,
            i <= tasks.len(),
            cpu_ticks == saturated(included_ticks(tasks@.take(i as int))),
            included_ticks(tasks@.take(i as int)) >= 0,
            thread_count == included_count(tasks@.take(i as int)),
            thread_count <= i,
        decreases tasks.len() - i,
    {
        let task = tasks[i];
        proof {
            assert(tasks@.take(i + 1).drop_last() =~= tasks@.take(i as int));
            assert(tasks@.take(i + 1).last() == task);
        }
        if task.included {
            cpu_ticks = add_saturating(cpu_ticks, add_saturating(task.utime, task.stime));
            thread_count += 1;
        }
        i += 1;
    }
    assert(tasks@.take(i as int) =~= tasks@);
    if thread_count == 0 {
        Err(CpuSampleError::NoCpuSamples)
    } else {
        Ok(CpuSample { cpu_ticks, sampled_at: now, thread_count })
    }
}

/// The readings of tasks under a filter; a task that could not be read does not
/// belong in the sample.
pub open spec fn filtered_readings(
    tasks: Seq<Option<TaskStat>>,
    filter: ThreadNameFilter,
) -> Seq<TaskReading> {
    tasks.map_values(
        |task: Option<TaskStat>|
            match task {
                Some(t) => TaskReading {
                    included: filter.accepts(t.comm@),
                    utime: t.utime,
                    stime: t.stime,
                },
                None => TaskReading { included: false, utime: 0, stime: 0 },
            },
    )
}

/// Sum the CPU counters of the tasks whose names the filter accepts. `None`
/// stands for a task that could not be read.
pub fn read_cpu_sample(
    tasks: &Vec<Option<TaskStat>>,
    filter: &ThreadNameFilter,
    now: u128,
) -> (r: Result<CpuSample, CpuSampleError>)
    requires
        tasks@.len() <= u32::MAX,
    ensures
        match summed_sample(filtered_readings(tasks@, *filter), now) {
            Some(sample) => r == Ok::<CpuSample, CpuSampleError>(sample),
            None => r == Err::<CpuSample, CpuSampleError>(CpuSampleError::NoCpuSamples),
        },
{
    let mut readings: Vec<TaskReading> = Vec::new();
    let mut i: usize = 0;
    while i < tasks.len()
        invariant
            i <= tasks.len(),
            readings@ == filtered_readings(tasks@, *filter).take(i as int),
        decreases tasks.len() - i,
    {
        let reading = match &tasks[i] {
            Some(t) => TaskReading {
                included: filter.matches(t.comm.as_str()),
                utime: t.utime,
                stime: t.stime,
            },
            None => TaskReading { included: false, utime: 0, stime: 0 },
        };
        readings.push(reading);
        i += 1;
    }
    assert(readings@ =~= filtered_readings(tasks@, *filter));
    sum_readings(&readings, now)
}

// ---------------------------------------------------------------------
// Instance
// ---------------------------------------------------------------------

/// Most recent mutable state for one VM.
#[derive(Debug, Clone, Copy, PartialEq, Eq, Structural)]
pub struct InstanceStatus {
    /// Current backend worker count.
    pub thread_count: u32,
    /// Current backend-reported vCPU count; `None` where the backend could not tell.
    pub vcpu_count: Option<u32>,
    /// Whether the last refresh succeeded.
    pub alive: bool,
    /// Whether backend ownership policy permits automatic scaling.
    pub scaling_allowed: bool,
    /// Persisted ownership classification, or `None` before the first usable
    /// snapshot of a previously unknown VM.
    pub ownership_classification: Option<bool>,
    /// Earliest time at which another ordinary scale action may be applied.
    pub cooldown_until: Option<u128>,
    /// Process-local debug override suppressing automatic scaling.
    ///
    /// The override is deliberately cleared when the daemon restarts.
    pub manual_scaling_sticky: bool,
    /// Latest backend performance counters, [`None`] if the backend didn't
    /// provide any.
    pub perf: Option<InstancePerfSample>,
    /// Latest average CPU utilisation per backend task, from 0 to 1.
    pub per_thread_util: Binary64,
    /// Previous cumulative CPU sample used to compute a delta.
    pub last_cpu_sample: Option<CpuSample>,
    /// Time of the previous backend performance snapshot.
    pub previous_perf_time: Option<u128>,
    /// Previous cumulative read count.
    pub previous_read_io_count: u64,
    /// Previous cumulative write count.
    pub previous_write_io_count: u64,
    /// Previous cumulative other-operation count.
    pub previous_other_io_count: u64,
    /// Previous cumulative read-byte count.
    pub previous_read_bytes_total: u64,
    /// Previous cumulative write-byte count.
    pub previous_write_bytes_total: u64,
    /// Latest read rate in operations per second.
    pub read_iops: u64,
    /// Latest write rate in operations per second.
    pub write_iops: u64,
    /// Latest other-operation rate per second.
    pub other_iops: u64,
    /// Latest read bandwidth in bytes per second.
    pub read_bytes_per_second: u64,
    /// Latest write bandwidth in bytes per second.
    pub write_bytes_per_second: u64,
}

/// The increase of a counter per second, from its increase over a number of
/// nanoseconds; the low 64 bits where it needs more.
pub open spec fn rate_of(current: u64, previous: u64, elapsed_ns: int) -> int {
    (decrease_floor(current, previous) * 1_000_000_000 / elapsed_ns) % 0x1_0000_0000_0000_0000
}

/// Compute the increase of a counter per second.
fn rate(current: u64, previous: u64, elapsed_ns: u128) -> (r: u64)
    requires
        elapsed_ns > 0,
    ensures
        r == rate_of(current, previous, elapsed_ns as int),
{
    let delta: u128 = sub_saturating(current, previous) as u128;
    let per_second: u128 = delta * 1_000_000_000 / elapsed_ns;
    assert(per_second as u64 == per_second % 0x1_0000_0000_0000_0000) by (bit_vector);
    per_second as u64
}

/// Ticks that the tasks of a process ran for between two comparable samples.
#[derive(Debug, Clone, Copy, PartialEq, Eq, Structural)]
pub struct CpuDelta {
    /// Ticks between the samples.
    pub ticks: u64,
    /// Nanoseconds between the samples.
    pub elapsed_ns: u128,
    /// Number of tasks in each sample.
    pub thread_count: u32,
}

/// The difference of two samples, if they are comparable: as many tasks in both,
/// at least one, a counter that did not go back, and time in between.
pub open spec fn delta_of(earlier: Option<CpuSample>, later: Option<CpuSample>) -> Option<CpuDelta> {
    match (earlier, later) {
        (Some(prev), Some(cur)) => if prev.thread_count == cur.thread_count && cur.thread_count > 0
            && cur.cpu_ticks >= prev.cpu_ticks && cur.sampled_at > prev.sampled_at {
            Some(
                CpuDelta {
                    ticks: (cur.cpu_ticks - prev.cpu_ticks) as u64,
                    elapsed_ns: (cur.sampled_at - prev.sampled_at) as u128,
                    thread_count: cur.thread_count,
                },
            )
        } else {
            None
        },
        _ => None,
    }
}

/// What a refresh adds to the rolling history.
#[derive(Debug, Clone, Copy, PartialEq, Eq, Structural)]
pub enum RollingUpdate {
    /// A utilisation that the backend computed.
    BackendUtil {
        /// All completed operations.
        io_ops_total: u64,
        /// Average CPU utilisation per worker, as the backend gave it.
        per_thread_util: Binary64,
        /// Number of workers.
        thread_count: u32,
    },
    /// A counter of the backend process.
    ProcessTicks {
        /// All completed operations.
        io_ops_total: u64,
        /// Cumulative CPU ticks.
        cpu_ticks: u64,
    },
    /// Nothing.
    Nothing,
}

/// What came back of one refresh of a VM.
#[derive(Debug, Clone, Copy, PartialEq, Eq, Structural)]
pub struct Observation {
    /// The backend's snapshot.
    pub snapshot: ThreadPoolSnapshot,
    /// The client's classification of the pool, used when the VM has none yet.
    pub initially_managed: bool,
    /// Sample of the backend process, used when the backend gave no utilisation.
    pub cpu: Option<CpuSample>,
    /// Ticks that a busy task counts in a second.
    pub ticks_per_second: u64,
}

impl Observation {
    /// The sample that counts: none when the backend gave a utilisation.
    pub open spec fn sample(self) -> Option<CpuSample> {
        if self.snapshot.per_thread_util is Some {
            None
        } else {
            self.cpu
        }
    }

    /// The entry for the rolling history.
    pub open spec fn rolling(self) -> RollingUpdate {
        let io_ops_total = io_total(self.snapshot.perf) as u64;
        match self.snapshot.per_thread_util {
            Some(util) => RollingUpdate::BackendUtil {
                io_ops_total,
                per_thread_util: util,
                thread_count: self.snapshot.thread_count,
            },
            None => match self.cpu {
                Some(sample) => RollingUpdate::ProcessTicks {
                    io_ops_total,
                    cpu_ticks: sample.cpu_ticks,
                },
                None => RollingUpdate::Nothing,
            },
        }
    }
}

impl InstanceStatus {
    /// The status of a VM of which nothing is known.
    pub open spec fn blank() -> InstanceStatus {
        InstanceStatus {
            thread_count: 0,
            vcpu_count: Some(0),
            alive: false,
            scaling_allowed: false,
            ownership_classification: None,
            cooldown_until: None,
            manual_scaling_sticky: false,
            perf: None,
            per_thread_util: Binary64::zero_spec(),
            last_cpu_sample: None,
            previous_perf_time: None,
            previous_read_io_count: 0,
            previous_write_io_count: 0,
            previous_other_io_count: 0,
            previous_read_bytes_total: 0,
            previous_write_bytes_total: 0,
            read_iops: 0,
            write_iops: 0,
            other_iops: 0,
            read_bytes_per_second: 0,
            write_bytes_per_second: 0,
        }
    }

    /// Whether the VM is classified as managed.
    pub open spec fn is_managed(self) -> bool {
        self.ownership_classification == Some(true)
    }

    /// Whether automatic scaling owns the VM's pool.
    pub fn scaling_allowed(&self) -> (r: bool)
        ensures
            r == self.is_managed(),
    {
        match self.ownership_classification {
            Some(managed) => managed,
            None => false,
        }
    }

    /// Nanoseconds since the previous performance snapshot; 0 if there is none,
    /// or if it is not in the past.
    pub open spec fn elapsed_since_perf(self, now: u128) -> int {
        match self.previous_perf_time {
            Some(then) => if now > then {
                now - then
            } else {
                0
            },
            None => 0,
        }
    }

    /// The status with rates and previous counters brought up to date.
    pub open spec fn with_rates(self, perf: InstancePerfSample, now: u128) -> InstanceStatus {
        let elapsed = self.elapsed_since_perf(now);
        let counted = InstanceStatus {
            previous_perf_time: Some(now),
            previous_read_io_count: perf.read_io_count,
            previous_write_io_count: perf.write_io_count,
            previous_other_io_count: perf.other_io_count,
            previous_read_bytes_total: perf.read_bytes_total,
            previous_write_bytes_total: perf.write_bytes_total,
            ..self
        };
        if elapsed > 0 {
            InstanceStatus {
                read_iops: rate_of(perf.read_io_count, self.previous_read_io_count, elapsed) as u64,
                write_iops: rate_of(
                    perf.write_io_count,
                    self.previous_write_io_count,
                    elapsed,
                ) as u64,
                other_iops: rate_of(
                    perf.other_io_count,
                    self.previous_other_io_count,
                    elapsed,
                ) as u64,
                read_bytes_per_second: rate_of(
                    perf.read_bytes_total,
                    self.previous_read_bytes_total,
                    elapsed,
                ) as u64,
                write_bytes_per_second: rate_of(
                    perf.write_bytes_total,
                    self.previous_write_bytes_total,
                    elapsed,
                ) as u64,
                ..counted
            }
        } else {
            counted
        }
    }

    /// The utilisation after an observation: the backend's, or else that of the
    /// tasks between two comparable samples, or else the last one.
    pub open spec fn util_after(self, seen: Observation) -> Binary64 {
        match seen.snapshot.per_thread_util {
            Some(util) => util.clamped(),
            None => match delta_of(self.last_cpu_sample, seen.cpu) {
                Some(delta) if seen.ticks_per_second > 0 => task_share_of(
                    delta.ticks,
                    delta.elapsed_ns,
                    seen.ticks_per_second,
                    delta.thread_count,
                ),
                _ => self.per_thread_util,
            },
        }
    }

    /// The status after an observation.
    pub open spec fn after(self, seen: Observation, now: u128) -> InstanceStatus {
        InstanceStatus {
            thread_count: seen.snapshot.thread_count,
            vcpu_count: seen.snapshot.vcpu_count,
            alive: true,
            ownership_classification: match self.ownership_classification {
                Some(managed) => Some(managed),
                None => Some(seen.initially_managed),
            },
            perf: seen.snapshot.perf,
            per_thread_util: self.util_after(seen),
            last_cpu_sample: seen.sample(),
            ..self.with_rates(perf_or_zero(seen.snapshot.perf), now)
        }
    }

    /// Refresh per-tick rates from cumulative backend counters.
    pub fn update_perf_rates(&mut self, perf: &Option<InstancePerfSample>, now: u128)
        ensures
            *final(self) == old(self).with_rates(perf_or_zero(*perf), now),
    {
        let counters = match perf {
            Some(p) => *p,
            None => InstancePerfSample::default(),
        };
        let elapsed_ns: u128 = match self.previous_perf_time {
            Some(then) => if now > then {
                now - then
            } else {
                0
            },
            None => 0,
        };
        if elapsed_ns > 0 {
            self.read_iops = rate(counters.read_io_count, self.previous_read_io_count, elapsed_ns);
            self.write_iops = rate(counters.write_io_count, self.previous_write_io_count, elapsed_ns);
            self.other_iops = rate(counters.other_io_count, self.previous_other_io_count, elapsed_ns);
            self.read_bytes_per_second = rate(
                counters.read_bytes_total,
                self.previous_read_bytes_total,
                elapsed_ns,
            );
            self.write_bytes_per_second = rate(
                counters.write_bytes_total,
                self.previous_write_bytes_total,
                elapsed_ns,
            );
        }
        self.previous_perf_time = Some(now);
        self.previous_read_io_count = counters.read_io_count;
        self.previous_write_io_count = counters.write_io_count;
        self.previous_other_io_count = counters.other_io_count;
        self.previous_read_bytes_total = counters.read_bytes_total;
        self.previous_write_bytes_total = counters.write_bytes_total;
    }
}

impl Default for InstanceStatus {
    fn default() -> (r: Self)
        ensures
            r == InstanceStatus::blank(),
    {
        InstanceStatus {
            thread_count: 0,
            vcpu_count: Some(0),
            alive: false,
            scaling_allowed: false,
            ownership_classification: None,
            cooldown_until: None,
            manual_scaling_sticky: false,
            perf: None,
            per_thread_util: Binary64::zero(),
            last_cpu_sample: None,
            previous_perf_time: None,
            previous_read_io_count: 0,
            previous_write_io_count: 0,
            previous_other_io_count: 0,
            previous_read_bytes_total: 0,
            previous_write_bytes_total: 0,
            read_iops: 0,
            write_iops: 0,
            other_iops: 0,
            read_bytes_per_second: 0,
            write_bytes_per_second: 0,
        }
    }
}

/// One VM tracked by the controller.
#[derive(Debug)]
pub struct Instance {
    /// Stable identifier used by inventory, logs, and engine plans.
    pub id: String,
    /// Backend-owned path or URI identifying this VM's transport.
    pub sock_path: String,
    /// Backend process ID.
    pub pid: i32,
    /// Backend-selected task names that count in CPU sampling.
    pub thread_name_filter: ThreadNameFilter,
    /// Latest snapshot shared by refresh, evaluation, and status output.
    pub status: InstanceStatus,
}

/// What the caller has left to do after a refresh.
#[derive(Debug, Clone, Copy, PartialEq, Eq, Structural)]
pub struct RefreshVerdict {
    /// Whether the VM stays in the inventory.
    pub refreshed: bool,
    /// Whether to close the VM's client.
    pub close_client: bool,
    /// Entry for the rolling history.
    pub rolling: RollingUpdate,
}

impl Instance {
    /// Construct a VM record with an empty initial status.
    pub fn new(id: String, sock_path: String, pid: i32) -> (r: Self)
        ensures
            r.id == id,
            r.sock_path == sock_path,
            r.pid == pid,
            r.thread_name_filter.pattern() is None,
            r.status == (InstanceStatus { scaling_allowed: true, ..InstanceStatus::blank() }),
    {
        let mut status = InstanceStatus::default();
        status.scaling_allowed = true;
        Instance { id, sock_path, pid, thread_name_filter: ThreadNameFilter::default(), status }
    }

    /// Replace the default all-task CPU sampling filter.
    pub fn with_thread_name_filter(self, filter: ThreadNameFilter) -> (r: Self)
        ensures
            r == (Instance { thread_name_filter: filter, ..self }),
    {
        Instance {
            id: self.id,
            sock_path: self.sock_path,
            pid: self.pid,
            thread_name_filter: filter,
            status: self.status,
        }
    }

    /// The difference between the previous CPU sample and a new one.
    fn cpu_delta(&self, cpu: &Option<CpuSample>) -> (r: Option<CpuDelta>)
        ensures
            r == delta_of(self.status.last_cpu_sample, *cpu),
    {
        match (&self.status.last_cpu_sample, cpu) {
            (Some(prev), Some(cur)) => if prev.thread_count == cur.thread_count && cur.thread_count
                > 0 && cur.cpu_ticks >= prev.cpu_ticks && cur.sampled_at > prev.sampled_at {
                Some(
                    CpuDelta {
                        ticks: cur.cpu_ticks - prev.cpu_ticks,
                        elapsed_ns: cur.sampled_at - prev.sampled_at,
                        thread_count: cur.thread_count,
                    },
                )
            } else {
                None
            },
            _ => None,
        }
    }

    /// Apply one successful thread-pool snapshot to this instance.
    pub fn apply_thread_pool_snapshot(&mut self, seen: &Observation, now: u128) -> (r: RollingUpdate)
        ensures
            *final(self) == (Instance { status: old(self).status.after(*seen, now), ..*old(self) }),
            r == seen.rolling(),
    {
        let snapshot = seen.snapshot;
        let cpu = match snapshot.per_thread_util {
            Some(_) => None,
            None => seen.cpu,
        };
        let delta = self.cpu_delta(&cpu);
        if self.status.ownership_classification.is_none() {
            self.status.ownership_classification = Some(seen.initially_managed);
        }
        self.status.update_perf_rates(&snapshot.perf, now);
        self.status.thread_count = snapshot.thread_count;
        self.status.vcpu_count = snapshot.vcpu_count;
        self.status.perf = snapshot.perf;
        self.status.alive = true;
        match (snapshot.per_thread_util, delta) {
            (Some(util), _) => {
                self.status.per_thread_util = util.clamp_unit();
            },
            (None, Some(delta)) => {
                if seen.ticks_per_second > 0 {
                    self.status.per_thread_util = task_share(
                        delta.ticks,
                        delta.elapsed_ns,
                        seen.ticks_per_second,
                        delta.thread_count,
                    );
                }
            },
            _ => {},
        }
        self.status.last_cpu_sample = cpu;
        let total: u64 = io_ops_total(&snapshot.perf);
        match (snapshot.per_thread_util, cpu) {
            (Some(util), _) => RollingUpdate::BackendUtil {
                io_ops_total: total,
                per_thread_util: util,
                thread_count: snapshot.thread_count,
            },
            (None, Some(sample)) => RollingUpdate::ProcessTicks {
                io_ops_total: total,
                cpu_ticks: sample.cpu_ticks,
            },
            _ => RollingUpdate::Nothing,
        }
    }

    /// Refresh one VM from what its client reported; a failure marks the VM dead
    /// and its client is to be closed.
    pub fn refresh_state(
        &mut self,
        outcome: Result<Observation, BackendClientError>,
        now: u128,
    ) -> (r: RefreshVerdict)
        ensures
            match outcome {
                Ok(seen) => {
                    &&& *final(self) == (Instance {
                        status: old(self).status.after(seen, now),
                        ..*old(self)
                    })
                    &&& r == (RefreshVerdict {
                        refreshed: true,
                        close_client: false,
                        rolling: seen.rolling(),
                    })
                },
                Err(_) => {
                    &&& *final(self) == (Instance {
                        status: InstanceStatus { alive: false, ..old(self).status },
                        ..*old(self)
                    })
                    &&& r == (RefreshVerdict {
                        refreshed: false,
                        close_client: true,
                        rolling: RollingUpdate::Nothing,
                    })
                },
            },
    {
        match outcome {
            Ok(seen) => {
                let rolling = self.apply_thread_pool_snapshot(&seen, now);
                RefreshVerdict { refreshed: true, close_client: false, rolling }
            },
            Err(_) => {
                self.status.alive = false;
                RefreshVerdict {
                    refreshed: false,
                    close_client: true,
                    rolling: RollingUpdate::Nothing,
                }
            },
        }
    }

    /// The bare VM identifier.
    pub fn to_text(&self) -> (r: String)
        ensures
            r@ == trimmed(self.id@),
    {
        from_chars(&trim(&to_chars(self.id.as_str())))
    }
}

// ---------------------------------------------------------------------
// Laws
// ---------------------------------------------------------------------

/// The status after a run of refreshes, each with its time.
pub open spec fn after_refreshes(
    status: InstanceStatus,
    refreshes: Seq<(Observation, u128)>,
) -> InstanceStatus
    decreases refreshes.len(),
{
    if refreshes.len() == 0 {
        status
    } else {
        after_refreshes(status, refreshes.drop_last()).after(
            refreshes.last().0,
            refreshes.last().1,
        )
    }
}

/// The first refresh classifies a VM, and no refresh changes a classification.
pub proof fn law_classification_is_stable(
    status: InstanceStatus,
    refreshes: Seq<(Observation, u128)>,
)
    ensures
        status.ownership_classification is Some ==> after_refreshes(
            status,
            refreshes,
        ).ownership_classification == status.ownership_classification,
        status.ownership_classification is None && refreshes.len() > 0 ==> after_refreshes(
            status,
            refreshes,
        ).ownership_classification == Some(refreshes[0].0.initially_managed),
    decreases refreshes.len(),
{
    if refreshes.len() > 0 {
        law_classification_is_stable(status, refreshes.drop_last());
    }
}

/// Refreshes leave the manual override and the cooldown alone.
pub proof fn law_refreshes_keep_controls(
    status: InstanceStatus,
    refreshes: Seq<(Observation, u128)>,
)
    ensures
        after_refreshes(status, refreshes).manual_scaling_sticky == status.manual_scaling_sticky,
        after_refreshes(status, refreshes).cooldown_until == status.cooldown_until,
        after_refreshes(status, refreshes).scaling_allowed == status.scaling_allowed,
    decreases refreshes.len(),
{
    if refreshes.len() > 0 {
        law_refreshes_keep_controls(status, refreshes.drop_last());
    }
}

/// The utilisation of a VM stays in `[0, 1]` over a refresh, unless the one that the
/// backend gave is not a number.
pub proof fn law_util_stays_unit(status: InstanceStatus, seen: Observation, now: u128)
    requires
        status.per_thread_util.in_unit(),
        seen.snapshot.per_thread_util is Some ==> !seen.snapshot.per_thread_util->0.is_nan_spec(),
    ensures
        status.after(seen, now).per_thread_util.in_unit(),
{
    match delta_of(status.last_cpu_sample, seen.cpu) {
        Some(delta) => {
            lemma_task_share_is_unit(
                delta.ticks,
                delta.elapsed_ns,
                seen.ticks_per_second,
                delta.thread_count,
            );
        },
        None => {},
    }
}

/// A changed number of sampled tasks invalidates the difference: the last
/// utilisation stays.
pub proof fn law_changed_task_count_keeps_util(status: InstanceStatus, seen: Observation, now: u128)
    requires
        seen.snapshot.per_thread_util is None,
        status.last_cpu_sample is Some,
        seen.cpu is Some,
        status.last_cpu_sample->0.thread_count != seen.cpu->0.thread_count,
    ensures
        status.after(seen, now).per_thread_util == status.per_thread_util,
{
}

/// The increase of a counter per second, where the counter does not go back.
pub open spec fn per_second(before: u64, after: u64, elapsed_ns: int) -> int {
    (after - before) * 1_000_000_000 / elapsed_ns
}

/// Whether every counter of `second` is at least that of `first`, and no rate
/// over the time between them needs more than 64 bits.
pub open spec fn rates_fit(first: InstancePerfSample, second: InstancePerfSample, ns: int) -> bool {
    &&& first.read_io_count <= second.read_io_count
    &&& first.write_io_count <= second.write_io_count
    &&& first.other_io_count <= second.other_io_count
    &&& first.read_bytes_total <= second.read_bytes_total
    &&& first.write_bytes_total <= second.write_bytes_total
    &&& per_second(first.read_io_count, second.read_io_count, ns) <= u64::MAX
    &&& per_second(first.write_io_count, second.write_io_count, ns) <= u64::MAX
    &&& per_second(first.other_io_count, second.other_io_count, ns) <= u64::MAX
    &&& per_second(first.read_bytes_total, second.read_bytes_total, ns) <= u64::MAX
    &&& per_second(first.write_bytes_total, second.write_bytes_total, ns) <= u64::MAX
}

proof fn lemma_rate(before: u64, after: u64, ns: int)
    requires
        before <= after,
        ns > 0,
        per_second(before, after, ns) <= u64::MAX,
    ensures
        rate_of(after, before, ns) == per_second(before, after, ns),
{
    let rate = per_second(before, after, ns);
    vstd::arithmetic::div_mod::lemma_div_pos_is_pos((after - before) * 1_000_000_000, ns);
    vstd::arithmetic::div_mod::lemma_small_mod(rate as nat, 0x1_0000_0000_0000_0000);
}

/// After two refreshes, the rates are the increases of the counters between
/// them, per second.
pub proof fn law_rates_are_differences(
    status: InstanceStatus,
    first: InstancePerfSample,
    earlier: u128,
    second: InstancePerfSample,
    later: u128,
)
    requires
        earlier < later,
        rates_fit(first, second, later - earlier),
    ensures
        ({
            let ns = later - earlier;
            let end = status.with_rates(first, earlier).with_rates(second, later);
            &&& end.read_iops == per_second(first.read_io_count, second.read_io_count, ns)
            &&& end.write_iops == per_second(first.write_io_count, second.write_io_count, ns)
            &&& end.other_iops == per_second(first.other_io_count, second.other_io_count, ns)
            &&& end.read_bytes_per_second == per_second(
                first.read_bytes_total,
                second.read_bytes_total,
                ns,
            )
            &&& end.write_bytes_per_second == per_second(
                first.write_bytes_total,
                second.write_bytes_total,
                ns,
            )
        }),
{
    let ns = later - earlier;
    lemma_rate(first.read_io_count, second.read_io_count, ns);
    lemma_rate(first.write_io_count, second.write_io_count, ns);
    lemma_rate(first.other_io_count, second.other_io_count, ns);
    lemma_rate(first.read_bytes_total, second.read_bytes_total, ns);
    lemma_rate(first.write_bytes_total, second.write_bytes_total, ns);
}

/// After a refresh the status reports what the snapshot reported: its worker count, its
/// vCPU count and its performance counters, whatever the status was before; and the VM
/// counts as alive.
pub proof fn law_status_reports_the_snapshot(status: InstanceStatus, seen: Observation, now: u128)
    ensures
        status.after(seen, now).thread_count == seen.snapshot.thread_count,
        status.after(seen, now).vcpu_count == seen.snapshot.vcpu_count,
        status.after(seen, now).perf == seen.snapshot.perf,
        status.after(seen, now).alive,
{
}

/// A run of refreshes ends with what its last snapshot reported.
pub proof fn law_last_snapshot_counts(status: InstanceStatus, refreshes: Seq<(Observation, u128)>)
    requires
        refreshes.len() > 0,
    ensures
        ({
            let end = after_refreshes(status, refreshes);
            let last = refreshes.last().0.snapshot;
            &&& end.thread_count == last.thread_count
            &&& end.vcpu_count == last.vcpu_count
            &&& end.perf == last.perf
            &&& end.alive
        }),
{
}

/// The counters of a snapshot; zeros where it has none.
pub open spec fn counters_of(seen: Observation) -> InstancePerfSample {
    match seen.snapshot.perf {
        Some(perf) => perf,
        None => InstancePerfSample {
            read_io_count: 0,
            write_io_count: 0,
            other_io_count: 0,
            read_bytes_total: 0,
            write_bytes_total: 0,
        },
    }
}

/// After two refreshes in a row, each rate is the increase of its own counter from the one
/// snapshot to the other, per second of the time between them.
pub proof fn law_refreshes_measure_rates(
    status: InstanceStatus,
    first: Observation,
    earlier: u128,
    second: Observation,
    later: u128,
)
    requires
        earlier < later,
        rates_fit(counters_of(first), counters_of(second), later - earlier),
    ensures
        ({
            let ns = later - earlier;
            let a = counters_of(first);
            let b = counters_of(second);
            let end = status.after(first, earlier).after(second, later);
            &&& end.read_iops == (b.read_io_count - a.read_io_count) * 1_000_000_000 / ns
            &&& end.write_iops == (b.write_io_count - a.write_io_count) * 1_000_000_000 / ns
            &&& end.other_iops == (b.other_io_count - a.other_io_count) * 1_000_000_000 / ns
            &&& end.read_bytes_per_second == (b.read_bytes_total - a.read_bytes_total)
                * 1_000_000_000 / ns
            &&& end.write_bytes_per_second == (b.write_bytes_total - a.write_bytes_total)
                * 1_000_000_000 / ns
        }),
{
    law_rates_are_differences(status, counters_of(first), earlier, counters_of(second), later);
}

/// A rate is zero where its counter went back or stood still, and each rate depends on its
/// own counter alone.
pub proof fn law_counters_that_go_back_have_no_rate(
    status: InstanceStatus,
    first: Observation,
    earlier: u128,
    second: Observation,
    later: u128,
)
    requires
        earlier < later,
    ensures
        ({
            let a = counters_of(first);
            let b = counters_of(second);
            let end = status.after(first, earlier).after(second, later);
            &&& b.read_io_count <= a.read_io_count ==> end.read_iops == 0
            &&& b.write_io_count <= a.write_io_count ==> end.write_iops == 0
            &&& b.other_io_count <= a.other_io_count ==> end.other_iops == 0
            &&& b.read_bytes_total <= a.read_bytes_total ==> end.read_bytes_per_second == 0
            &&& b.write_bytes_total <= a.write_bytes_total ==> end.write_bytes_per_second == 0
        }),
{
    vstd::arithmetic::div_mod::lemma_div_of0(later - earlier);
}

/// Without time since a previous refresh, or without a previous refresh, the rates stay as
/// they were.
pub proof fn law_rates_need_time(status: InstanceStatus, seen: Observation, now: u128)
    requires
        status.previous_perf_time is None || now <= status.previous_perf_time->0,
    ensures
        ({
            let end = status.after(seen, now);
            &&& end.read_iops == status.read_iops
            &&& end.write_iops == status.write_iops
            &&& end.other_iops == status.other_iops
            &&& end.read_bytes_per_second == status.read_bytes_per_second
            &&& end.write_bytes_per_second == status.write_bytes_per_second
        }),
{
}

/// The next refresh measures from this one: its time and its counters are kept.
pub proof fn law_refresh_is_the_next_baseline(status: InstanceStatus, seen: Observation, now: u128)
    ensures
        ({
            let end = status.after(seen, now);
            let c = counters_of(seen);
            &&& end.previous_perf_time == Some(now)
            &&& end.previous_read_io_count == c.read_io_count
            &&& end.previous_write_io_count == c.write_io_count
            &&& end.previous_other_io_count == c.other_io_count
            &&& end.previous_read_bytes_total == c.read_bytes_total
            &&& end.previous_write_bytes_total == c.write_bytes_total
            &&& end.last_cpu_sample == if seen.snapshot.per_thread_util is Some {
                None
            } else {
                seen.cpu
            }
        }),
{
}

/// A utilisation that the backend gives is taken: as it is within `[0, 1]`, as 0 below and
/// as 1 above; and then no process sample counts.
pub proof fn law_backend_util_is_taken(
    status: InstanceStatus,
    seen: Observation,
    now: u128,
    util: Binary64,
)
    requires
        seen.snapshot.per_thread_util == Some(util),
    ensures
        ({
            let end = status.after(seen, now).per_thread_util;
            let zero = Binary64::zero_spec();
            let one = Binary64::one_spec();
            &&& zero.at_most(util) && util.at_most(one) ==> end == util
            &&& util.below(zero) ==> end == zero
            &&& one.below(util) ==> end == one
        }),
{
}

/// Between two refreshes that sample the same number of tasks, at least one, the
/// utilisation is the share of the time that each task ran for, from the ticks that
/// were added and the time that has passed between the two samples.
pub proof fn law_process_util_is_measured(
    status: InstanceStatus,
    first: Observation,
    earlier: u128,
    second: Observation,
    later: u128,
    a: CpuSample,
    b: CpuSample,
)
    requires
        first.snapshot.per_thread_util is None,
        second.snapshot.per_thread_util is None,
        first.cpu == Some(a),
        second.cpu == Some(b),
        second.ticks_per_second > 0,
        a.thread_count == b.thread_count,
        b.thread_count > 0,
        a.cpu_ticks <= b.cpu_ticks,
        a.sampled_at < b.sampled_at,
    ensures
        status.after(first, earlier).after(second, later).per_thread_util == task_share_of(
            (b.cpu_ticks - a.cpu_ticks) as u64,
            (b.sampled_at - a.sampled_at) as u128,
            second.ticks_per_second,
            b.thread_count,
        ),
{
}

/// Where there is nothing to measure with, the last utilisation stays: without a sample
/// now or before, or with a counter or a clock that went back.
pub proof fn law_unmeasured_util_stays(status: InstanceStatus, seen: Observation, now: u128)
    requires
        seen.snapshot.per_thread_util is None,
        seen.cpu is None || status.last_cpu_sample is None || seen.cpu->0.cpu_ticks
            < status.last_cpu_sample->0.cpu_ticks || seen.cpu->0.sampled_at
            <= status.last_cpu_sample->0.sampled_at || seen.cpu->0.thread_count == 0
            || seen.ticks_per_second == 0,
    ensures
        status.after(seen, now).per_thread_util == status.per_thread_util,
{
}

/// What a refresh adds to the rolling history is what it saw: the sum of the I/O counters,
/// with the backend's utilisation and worker count if the backend gave one, or else with
/// the ticks of the process sample, if there is one.
pub proof fn law_history_gets_what_was_seen(seen: Observation)
    ensures
        ({
            let c = counters_of(seen);
            let sum = c.read_io_count + c.write_io_count + c.other_io_count;
            let total = if sum > u64::MAX {
                u64::MAX
            } else {
                sum as u64
            };
            match (seen.snapshot.per_thread_util, seen.cpu) {
                (Some(util), _) => seen.rolling() == (RollingUpdate::BackendUtil {
                    io_ops_total: total,
                    per_thread_util: util,
                    thread_count: seen.snapshot.thread_count,
                }),
                (None, Some(sample)) => seen.rolling() == (RollingUpdate::ProcessTicks {
                    io_ops_total: total,
                    cpu_ticks: sample.cpu_ticks,
                }),
                (None, None) => seen.rolling() == RollingUpdate::Nothing,
            }
        }),
{
}

/// The total of a sample counts every operation once: it is the sum of reads, writes and
/// others, up to the largest counter value.
pub proof fn law_total_counts_every_operation(perf: InstancePerfSample)
    ensures
        io_total(Some(perf)) == vstd::math::min(
            perf.read_io_count + perf.write_io_count + perf.other_io_count,
            u64::MAX as int,
        ),
        io_total(None) == 0,
{
}

/// Process samples are additive over the tasks: those of a list in two parts are those of
/// its parts added up.
pub proof fn law_task_sums_add_up(first: Seq<TaskReading>, second: Seq<TaskReading>)
    ensures
        included_ticks(first + second) == included_ticks(first) + included_ticks(second),
        included_count(first + second) == included_count(first) + included_count(second),
    decreases second.len(),
{
    if second.len() == 0 {
        assert(first + second =~= first);
    } else {
        law_task_sums_add_up(first, second.drop_last());
        assert((first + second).drop_last() =~= first + second.drop_last());
        assert((first + second).last() == second.last());
    }
}

/// A task counts with its user and system ticks where it belongs in the sample, and not at
/// all where it does not.
pub proof fn law_one_task_counts_itself(task: TaskReading)
    ensures
        task.included ==> included_ticks(seq![task]) == task.utime + task.stime && included_count(
            seq![task],
        ) == 1,
        !task.included ==> included_ticks(seq![task]) == 0 && included_count(seq![task]) == 0,
{
    reveal_with_fuel(included_ticks, 2);
    reveal_with_fuel(included_count, 2);
    assert(seq![task].drop_last() =~= Seq::<TaskReading>::empty());
}

/// A task belongs in the sample exactly where it could be read and the filter accepts its
/// name; a filter without a pattern accepts every name.
pub proof fn law_filter_decides_on_tasks(
    tasks: Seq<Option<TaskStat>>,
    filter: ThreadNameFilter,
    i: int,
)
    requires
        0 <= i < tasks.len(),
    ensures
        filtered_readings(tasks, filter).len() == tasks.len(),
        filtered_readings(tasks, filter)[i].included <==> tasks[i] is Some && (filter.pattern()
            is None || regex_matches(filter.pattern()->0, tasks[i]->0.comm@)),
        tasks[i] matches Some(t) ==> filtered_readings(tasks, filter)[i].utime == t.utime
            && filtered_readings(tasks, filter)[i].stime == t.stime,
{
}

proof fn lemma_included_count(tasks: Seq<TaskReading>)
    ensures
        0 <= included_count(tasks) <= tasks.len(),
        included_ticks(tasks) >= 0,
        included_count(tasks) > 0 <==> exists|i: int|
            0 <= i < tasks.len() && (#[trigger] tasks[i]).included,
    decreases tasks.len(),
{
    if tasks.len() > 0 {
        let front = tasks.drop_last();
        lemma_included_count(front);
        if included_count(front) > 0 {
            let i = choose|i: int| 0 <= i < front.len() && (#[trigger] front[i]).included;
            assert(tasks[i].included);
        }
        if exists|i: int| 0 <= i < tasks.len() && (#[trigger] tasks[i]).included {
            let i = choose|i: int| 0 <= i < tasks.len() && (#[trigger] tasks[i]).included;
            if i < front.len() {
                assert(front[i].included);
            }
        }
        if tasks.last().included {
            assert(tasks[tasks.len() - 1].included);
        }
    }
}

/// A sample is made if and only if some task belongs in it, and then holds the number of
/// those tasks, the sum of their ticks up to the largest counter value, and the time.
pub proof fn law_samples_need_a_task(tasks: Seq<TaskReading>, now: u128)
    requires
        tasks.len() <= u32::MAX,
    ensures
        summed_sample(tasks, now) is Some <==> exists|i: int|
            0 <= i < tasks.len() && (#[trigger] tasks[i]).included,
        summed_sample(tasks, now) matches Some(sample) ==> {
            &&& sample.thread_count == included_count(tasks)
            &&& sample.cpu_ticks == vstd::math::min(included_ticks(tasks), u64::MAX as int)
            &&& sample.sampled_at == now
        },
{
    lemma_included_count(tasks);
}

/// A filter without a pattern has none; any other looks for its pattern as a group of its own.
pub proof fn law_patterns_are_grouped(pattern: Seq<char>)
    ensures
        filter_pattern(pattern) is None <==> pattern.len() == 0,
        filter_pattern(pattern) is Some ==> {
            let group = filter_pattern(pattern)->0;
            &&& group.len() == pattern.len() + 4
            &&& group.subrange(3, group.len() - 1) == pattern
            &&& group.take(3) == "(?:"@
            &&& group.last() == ')'
        },
{
    reveal_strlit("(?:");
    reveal_strlit(")");
    if pattern.len() > 0 {
        let group = filter_pattern(pattern)->0;
        assert(group.subrange(3, group.len() - 1) =~= pattern);
        assert(group.take(3) =~= "(?:"@);
    }
}

/// A new VM starts without any of what is measured, held or known of it.
pub proof fn law_new_vms_know_nothing()
    ensures
        ({
            let new = InstanceStatus::blank();
            &&& new.thread_count == 0
            &&& new.vcpu_count == Some(0u32)
            &&& !new.alive
            &&& new.ownership_classification is None
            &&& new.cooldown_until is None
            &&& !new.manual_scaling_sticky
            &&& new.perf is None
            &&& new.per_thread_util == Binary64::zero_spec()
            &&& new.last_cpu_sample is None
            &&& new.previous_perf_time is None
        }),
{
}

} // verus!
