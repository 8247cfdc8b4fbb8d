//! VM records, refreshes and task-name filters.

use io_thread_controller::backends::BackendClientError;
use io_thread_controller::binary64::Binary64;
use io_thread_controller::instance::{
    io_ops_total, read_cpu_sample, sum_readings, CpuSample, CpuSampleError, Instance,
    InstanceError, InstancePerfSample, InstanceStatus, Observation, RollingUpdate, TaskReading,
    TaskStat, ThreadNameFilter, ThreadPoolSnapshot,
};

const SECOND: u128 = 1_000_000_000;

fn fraction(x: f64) -> Binary64 {
    Binary64::from_bits(x.to_bits())
}

fn value(x: Binary64) -> f64 {
    f64::from_bits(x.bits)
}

fn seen(thread_count: u32, vcpu_count: u32) -> Observation {
    Observation {
        snapshot: ThreadPoolSnapshot {
            thread_count,
            vcpu_count: Some(vcpu_count),
            perf: None,
            per_thread_util: None,
        },
        initially_managed: true,
        cpu: None,
        ticks_per_second: 100,
    }
}

fn instance(id: &str) -> Instance {
    Instance::new(id.to_string(), String::new(), 7)
}

/// A successful client snapshot updates alive/thread_count state.
#[test]
fn refresh_state_applies_successful_snapshot() {
    let mut instance = instance("vm-ok");
    assert!(instance.refresh_state(Ok(seen(3, 1)), 5).refreshed);
    assert!(instance.status.alive);
    assert_eq!(instance.status.thread_count, 3);
}

/// Client errors mark the instance dead and close the client.
#[test]
fn refresh_state_marks_failed_instances_dead_and_closes() {
    let mut instance = instance("vm-bad");
    let error = BackendClientError::Disconnected("gone".to_string());
    let verdict = instance.refresh_state(Err(error), 5);
    assert!(!verdict.refreshed);
    assert!(!instance.status.alive);
    assert!(verdict.close_client);
}

/// An instance prints as the bare VM id.
#[test]
fn display_trims_instance_id() {
    assert_eq!(instance("  vm-1  ").to_text(), "vm-1");
}

#[test]
fn new_instance_is_blank_but_allowed() {
    let instance = Instance::new("a".to_string(), "/sock".to_string(), 4);
    assert_eq!(instance.id, "a");
    assert_eq!(instance.sock_path, "/sock");
    assert_eq!(instance.pid, 4);
    let mut blank = InstanceStatus::default();
    blank.scaling_allowed = true;
    assert_eq!(instance.status, blank);
    assert!(!instance.status.scaling_allowed());
}

#[test]
fn first_refresh_classifies_and_later_ones_do_not() {
    let mut instance = instance("vm");
    let mut first = seen(1, 2);
    first.initially_managed = false;
    instance.refresh_state(Ok(first), 1);
    assert_eq!(instance.status.ownership_classification, Some(false));
    assert!(!instance.status.scaling_allowed());
    instance.refresh_state(Ok(seen(1, 2)), 2);
    assert_eq!(instance.status.ownership_classification, Some(false));
    instance.status.ownership_classification = Some(true);
    assert!(instance.status.scaling_allowed());
}

#[test]
fn refreshes_keep_override_and_cooldown() {
    let mut instance = instance("vm");
    instance.status.manual_scaling_sticky = true;
    instance.status.cooldown_until = Some(99);
    instance.refresh_state(Ok(seen(2, 2)), 1);
    instance.refresh_state(Ok(seen(2, 2)), 2);
    assert!(instance.status.manual_scaling_sticky);
    assert_eq!(instance.status.cooldown_until, Some(99));
}

fn perf(reads: u64, writes: u64, others: u64, rd: u64, wr: u64) -> Option<InstancePerfSample> {
    Some(InstancePerfSample {
        read_io_count: reads,
        write_io_count: writes,
        other_io_count: others,
        read_bytes_total: rd,
        write_bytes_total: wr,
    })
}

#[test]
fn rates_are_increases_per_second() {
    let mut status = InstanceStatus::default();
    status.update_perf_rates(&perf(100, 10, 1, 4096, 512), SECOND);
    assert_eq!(status.read_iops, 0);
    assert_eq!(status.previous_perf_time, Some(SECOND));
    status.update_perf_rates(&perf(350, 5, 4, 8192, 1024), 3 * SECOND);
    assert_eq!(status.read_iops, 125);
    assert_eq!(status.write_iops, 0);
    assert_eq!(status.other_iops, 1);
    assert_eq!(status.read_bytes_per_second, 2048);
    assert_eq!(status.write_bytes_per_second, 256);
    assert_eq!(status.previous_read_io_count, 350);
    status.update_perf_rates(&None, 3 * SECOND);
    assert_eq!(status.read_iops, 125);
    assert_eq!(status.previous_read_io_count, 0);
    status.update_perf_rates(&perf(u64::MAX, 0, 0, 0, 0), 3 * SECOND + 1);
    let exact = (u64::MAX as u128) * SECOND;
    assert_eq!(status.read_iops, exact as u64);
}

#[test]
fn totals_saturate() {
    let sample = perf(u64::MAX, 1, 1, 0, 0);
    assert_eq!(sample.unwrap().total_io_count(), u64::MAX);
    assert_eq!(perf(1, 2, 3, 9, 9).unwrap().total_io_count(), 6);
    assert_eq!(io_ops_total(&None), 0);
    assert_eq!(InstancePerfSample::default().total_io_count(), 0);
}

#[test]
fn backend_utilisation_is_clamped_and_rolled_as_given() {
    let mut instance = instance("vm");
    let mut observation = seen(4, 8);
    observation.snapshot.per_thread_util = Some(fraction(1.5));
    observation.snapshot.perf = perf(1, 2, 3, 0, 0);
    observation.cpu = Some(CpuSample { cpu_ticks: 1, sampled_at: 1, thread_count: 1 });
    let rolling = instance.apply_thread_pool_snapshot(&observation, 9);
    assert_eq!(value(instance.status.per_thread_util), 1.0);
    assert_eq!(instance.status.last_cpu_sample, None);
    assert_eq!(
        rolling,
        RollingUpdate::BackendUtil {
            io_ops_total: 6,
            per_thread_util: fraction(1.5),
            thread_count: 4
        }
    );
    observation.snapshot.per_thread_util = Some(fraction(-0.5));
    instance.apply_thread_pool_snapshot(&observation, 10);
    assert_eq!(value(instance.status.per_thread_util), 0.0);
}

fn cpu(ticks: u64, at: u128, threads: u32) -> Option<CpuSample> {
    Some(CpuSample { cpu_ticks: ticks, sampled_at: at, thread_count: threads })
}

#[test]
fn process_samples_are_compared_like_for_like() {
    let mut instance = instance("vm");
    let mut observation = seen(2, 4);
    observation.cpu = cpu(100, SECOND, 2);
    let rolling = instance.apply_thread_pool_snapshot(&observation, SECOND);
    assert_eq!(rolling, RollingUpdate::ProcessTicks { io_ops_total: 0, cpu_ticks: 100 });
    assert_eq!(value(instance.status.per_thread_util), 0.0);

    observation.cpu = cpu(150, 2 * SECOND, 2);
    instance.apply_thread_pool_snapshot(&observation, 2 * SECOND);
    assert_eq!(value(instance.status.per_thread_util), 0.25);

    observation.cpu = cpu(500, 3 * SECOND, 3);
    instance.apply_thread_pool_snapshot(&observation, 3 * SECOND);
    assert_eq!(value(instance.status.per_thread_util), 0.25);
    assert_eq!(instance.status.last_cpu_sample, cpu(500, 3 * SECOND, 3));

    observation.cpu = cpu(499, 4 * SECOND, 3);
    instance.apply_thread_pool_snapshot(&observation, 4 * SECOND);
    assert_eq!(value(instance.status.per_thread_util), 0.25);

    observation.cpu = cpu(530, 4 * SECOND, 3);
    instance.apply_thread_pool_snapshot(&observation, 4 * SECOND);
    assert_eq!(value(instance.status.per_thread_util), 0.25);

    observation.cpu = cpu(560, 5 * SECOND, 3);
    instance.apply_thread_pool_snapshot(&observation, 5 * SECOND);
    assert_eq!(value(instance.status.per_thread_util), 30.0 / 100.0 / 3.0);

    observation.cpu = cpu(1_000, 6 * SECOND, 3);
    instance.apply_thread_pool_snapshot(&observation, 6 * SECOND);
    assert_eq!(value(instance.status.per_thread_util), 1.0);

    observation.cpu = cpu(1_000, 7 * SECOND, 3);
    observation.ticks_per_second = 0;
    instance.apply_thread_pool_snapshot(&observation, 7 * SECOND);
    assert_eq!(value(instance.status.per_thread_util), 1.0);

    observation.cpu = None;
    let rolling = instance.apply_thread_pool_snapshot(&observation, 8 * SECOND);
    assert_eq!(rolling, RollingUpdate::Nothing);
    assert_eq!(instance.status.last_cpu_sample, None);
}

#[test]
fn filter_matches_like_the_pattern() {
    let all = ThreadNameFilter::new("").unwrap();
    assert!(all.matches("anything"));
    assert!(ThreadNameFilter::default().matches(""));
    let some = ThreadNameFilter::new("^io|worker$").unwrap();
    assert!(some.matches("iothread"));
    assert!(some.matches("net-worker"));
    assert!(!some.matches("workers"));
    assert!(!some.matches("xio"));
    match ThreadNameFilter::new("(") {
        Err(InstanceError::Regex(error)) => assert!(!error.to_string().is_empty()),
        other => panic!("{other:?}"),
    }
}

#[test]
fn filter_can_be_replaced() {
    let instance = instance("vm").with_thread_name_filter(ThreadNameFilter::new("^a").unwrap());
    assert!(instance.thread_name_filter.matches("abc"));
    assert!(!instance.thread_name_filter.matches("bc"));
    assert_eq!(instance.pid, 7);
}

fn task(comm: &str, utime: u64, stime: u64) -> Option<TaskStat> {
    Some(TaskStat { comm: comm.to_string(), utime, stime })
}

#[test]
fn cpu_sample_sums_the_accepted_tasks() {
    let filter = ThreadNameFilter::new("^w").unwrap();
    let tasks = vec![task("w0", 1, 2), task("x", 50, 50), None, task("w1", 3, 4)];
    let sample = read_cpu_sample(&tasks, &filter, 42).unwrap();
    assert_eq!(sample, CpuSample { cpu_ticks: 10, sampled_at: 42, thread_count: 2 });
    let none = read_cpu_sample(&vec![task("x", 1, 1), None], &filter, 42);
    assert_eq!(none, Err(CpuSampleError::NoCpuSamples));
    assert_eq!(CpuSampleError::NoCpuSamples.message(), "no usable backend task CPU samples");
}

#[test]
fn readings_saturate() {
    let reading = TaskReading { included: true, utime: u64::MAX, stime: u64::MAX };
    let left_out = TaskReading { included: false, utime: 1, stime: 1 };
    let sample = sum_readings(&vec![reading, left_out, reading], 1).unwrap();
    assert_eq!(sample, CpuSample { cpu_ticks: u64::MAX, sampled_at: 1, thread_count: 2 });
    assert_eq!(sum_readings(&Vec::new(), 1), Err(CpuSampleError::NoCpuSamples));
}
