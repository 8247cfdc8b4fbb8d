//! Discovery and per-VM state of the QEMU backend.

use std::collections::HashMap;

use io_thread_controller::backends::qemu::client::{
    MetricsVerdict, QemuInstanceClient, ScalePhase, ScaleStep,
};
use io_thread_controller::backends::qemu::helpers::{CpuSample, QemuError, QemuTopology, TaskTicks};
use io_thread_controller::backends::qemu::{
    LibvirtAnswer, QemuBackend, QemuConfig, VmAdmission, VmReport, BACKEND_NAME,
};
use io_thread_controller::backends::BackendClientError;
use io_thread_controller::binary64::Binary64;
use io_thread_controller::config::ConfigError;
use io_thread_controller::instance::InstancePerfSample;

fn client(ids: &[&str], vq_count: u16) -> QemuInstanceClient {
    let mut client = QemuInstanceClient::new(7, Some(4));
    client.iothreads = ids.iter().map(|s| s.to_string()).collect();
    client.device_path = "/dev".to_string();
    client.vq_count = vq_count;
    client
}

fn describe(step: &ScaleStep) -> String {
    match step {
        ScaleStep::AddIoThread { id } => format!("add {id}"),
        ScaleStep::SetVqMapping { device_path, mapping } => {
            let parts: Vec<String> =
                mapping.iter().map(|m| format!("{}:{:?}", m.iothread, m.vqs)).collect();
            format!("map {device_path} {}", parts.join(" "))
        }
        ScaleStep::DelIoThread { id } => format!("del {id}"),
        ScaleStep::Finish(Ok(())) => "done".to_string(),
        ScaleStep::Finish(Err(error)) => format!("failed {}", error.message()),
    }
}

/// Drive a change of the worker count; the answers to the steps come from a list,
/// and are good where the list ends.
fn drive(client: &mut QemuInstanceClient, target: u32, answers: &[bool]) -> Vec<String> {
    let mut log = Vec::new();
    let (mut step, mut phase): (ScaleStep, ScalePhase) = client.set_thread_count(target);
    loop {
        log.push(describe(&step));
        if let ScaleStep::Finish(_) = step {
            return log;
        }
        let good = answers.get(log.len() - 1).copied().unwrap_or(true);
        let answer = if good {
            Ok(())
        } else {
            Err(QemuError::Parse(format!("step {}", log.len())))
        };
        let next = client.resume_thread_count(target, phase, answer);
        step = next.0;
        phase = next.1;
    }
}

#[test]
fn growing_adds_and_spreads_one_at_a_time() {
    let mut client = client(&["iot0", "iot2"], 4);
    let log = drive(&mut client, 4, &[]);
    assert_eq!(
        log,
        vec![
            "add iot1",
            "map /dev iot0:[0, 3] iot1:[1] iot2:[2]",
            "add iot3",
            "map /dev iot0:[0] iot1:[1] iot2:[2] iot3:[3]",
            "done",
        ]
    );
    assert_eq!(client.iothreads, vec!["iot0", "iot1", "iot2", "iot3"]);
}

#[test]
fn shrinking_moves_queues_before_deleting() {
    let mut client = client(&["iot0", "iot1", "iot2"], 4);
    let log = drive(&mut client, 1, &[]);
    assert_eq!(
        log,
        vec![
            "map /dev iot0:[0, 2] iot1:[1, 3]",
            "del iot2",
            "map /dev iot0:[0, 1, 2, 3]",
            "del iot1",
            "done",
        ]
    );
    assert_eq!(client.iothreads, vec!["iot0"]);
}

#[test]
fn the_last_iothread_stays() {
    let mut client = client(&["iot0", "iot1"], 2);
    let log = drive(&mut client, 0, &[]);
    assert_eq!(
        log.last().unwrap(),
        "failed parse: refusing to scale below one iothread (have 1)"
    );
    assert_eq!(client.iothreads, vec!["iot0"]);
    assert_eq!(drive(&mut QemuInstanceClient::new(1, Some(1)), 0, &[]), vec!["done"]);
}

#[test]
fn nothing_to_do_at_the_target() {
    let mut client = client(&["iot0", "iot1"], 2);
    assert_eq!(drive(&mut client, 2, &[]), vec!["done"]);
}

#[test]
fn a_failed_spread_is_rolled_back() {
    for rollback in [true, false] {
        let mut client = client(&["iot0"], 2);
        let log = drive(&mut client, 3, &[true, false, rollback]);
        assert_eq!(
            log,
            vec!["add iot1", "map /dev iot0:[0] iot1:[1]", "del iot1", "failed parse: step 2"]
        );
        assert_eq!(client.iothreads, vec!["iot0"]);
    }
}

#[test]
fn other_failures_end_the_change() {
    let mut one = client(&["iot0"], 2);
    assert_eq!(drive(&mut one, 2, &[false]), vec!["add iot1", "failed parse: step 1"]);
    assert_eq!(one.iothreads, vec!["iot0"]);
    let mut two = client(&["iot0", "iot1"], 1);
    assert_eq!(drive(&mut two, 1, &[false]), vec!["map /dev iot0:[0]", "failed parse: step 1"]);
    let log = drive(&mut two, 1, &[true, false]);
    assert_eq!(log, vec!["map /dev iot0:[0]", "del iot1", "failed parse: step 2"]);
    assert_eq!(two.iothreads, vec!["iot0", "iot1"]);
}

fn unsupported() -> QemuError {
    QemuError::QmpError {
        cmd: "x-query-prometheus-metrics".to_string(),
        class: "CommandNotFound".to_string(),
        desc: "whatever".to_string(),
    }
}

#[test]
fn missing_metrics_fall_back_and_warn_once() {
    let mut client = client(&[], 0);
    for wanted in [true, false, false] {
        match client.on_metrics(Err(unsupported())) {
            MetricsVerdict::Fallback { warn } => assert_eq!(warn, wanted),
            other => panic!("{other:?}"),
        }
    }
    match client.on_metrics(Err(QemuError::Broken)) {
        MetricsVerdict::Failed(error) => assert_eq!(error.message(), "transport: qemu client broken"),
        other => panic!("{other:?}"),
    }
    let other_class = QemuError::QmpError {
        cmd: "x-query-prometheus-metrics".to_string(),
        class: "GenericError".to_string(),
        desc: "d".to_string(),
    };
    match client.on_metrics(Err(other_class)) {
        MetricsVerdict::Failed(BackendClientError::QmpError { class, .. }) => {
            assert_eq!(class, "GenericError")
        }
        other => panic!("{other:?}"),
    }
}

fn complaint(body: &str) -> String {
    match client(&[], 0).on_metrics(Ok(body.to_string())) {
        MetricsVerdict::Failed(BackendClientError::InvalidState(text)) => text,
        other => panic!("{other:?}"),
    }
}

#[test]
fn unusable_topologies_are_reported() {
    assert_eq!(complaint(""), "qemu topology incomplete: iothreads=0 device=");
    assert_eq!(
        complaint("qemu_iothread_info{id=\"iot0\",tid=\"5\"} 1"),
        "qemu topology incomplete: iothreads=1 device="
    );
    assert_eq!(
        complaint("qemu_virtio_scsi_num_queues{device=\"/d\"} 1"),
        "qemu topology incomplete: iothreads=0 device=/d"
    );
    assert_eq!(
        complaint(
            "qemu_iothread_info{id=\"iot0\",tid=\"0\"} 1\n\
qemu_iothread_info{id=\"iot1\",tid=\"7\"} 1\n\
qemu_virtio_scsi_num_queues{device=\"/d\"} 1"
        ),
        "qemu topology reported no iothread TIDs"
    );
}

fn usable() -> QemuTopology {
    QemuTopology::new(
        "qemu_iothread_info{id=\"iot1\",tid=\"6\"} 1\n\
qemu_iothread_info{id=\"iot0\",tid=\"5\"} 1\n\
qemu_virtio_scsi_num_queues{device=\"/d\"} 8",
    )
}

#[test]
fn usable_topologies_name_the_first_task() {
    match QemuInstanceClient::judge_topology(usable()) {
        MetricsVerdict::Usable { topology, first_tid } => {
            assert_eq!(first_tid, 5);
            assert_eq!(topology.vq_count, 8);
        }
        other => panic!("{other:?}"),
    }
}

#[test]
fn process_ids_are_checked() {
    assert_eq!(QemuInstanceClient::check_pid(5, Ok(4)).unwrap(), 4);
    let text = |found| QemuInstanceClient::check_pid(5, found).unwrap_err().message();
    assert_eq!(text(Ok(0)), "invalid pid 0 from tid 5");
    assert_eq!(text(Ok(-2147483648)), "invalid pid -2147483648 from tid 5");
    assert_eq!(text(Err("no".to_string())), "pid resolution: no");
}

fn sampled(ticks: u64, wall: u128) -> CpuSample {
    let readings = vec![TaskTicks { utime: ticks, stime: 1 }, TaskTicks { utime: 0, stime: 0 }];
    CpuSample::new(&usable().iothread_tids, &readings, wall)
}

#[test]
fn samples_are_compared_with_the_previous_one() {
    let mut client = client(&[], 0);
    let empty = CpuSample { jiffies: HashMap::new(), wall: 1 };
    assert_eq!(
        client.on_sample(usable(), 9, empty, 100).unwrap_err().message(),
        "qemu per-thread sample empty"
    );
    assert_eq!(client.pid, 0);
    assert_eq!(client.on_sample(usable(), 9, sampled(10, 100), 100).unwrap(), None);
    assert_eq!(client.pid, 9);
    assert_eq!(client.iothreads, vec!["iot0", "iot1"]);
    assert_eq!(client.device_path, "/d");
    assert_eq!(client.vq_count, 8);
    let later = sampled(25, 1_000_000_100);
    let util = client.on_sample(usable(), 9, later, 100).unwrap().unwrap();
    assert_eq!(f64::from_bits(util.bits), (0.15 + 0.0) / 2.0);
    let again = sampled(25, 1_000_000_100);
    assert_eq!(client.on_sample(usable(), 9, again, 100).unwrap(), Some(Binary64::zero()));
}

#[test]
fn snapshots_report_what_is_known() {
    let util = Some(Binary64::one());
    let perf = InstancePerfSample::default();
    let client2 = client(&["iot0", "iot1"], 2);
    let snapshot = client2.sampled_snapshot(util, Ok(Some(perf)));
    assert_eq!(snapshot.thread_count, 2);
    assert_eq!(snapshot.vcpu_count, Some(4));
    assert_eq!(snapshot.perf, Some(perf));
    assert_eq!(snapshot.per_thread_util, util);
    let snapshot = client2.sampled_snapshot(None, Err(QemuError::Broken));
    assert_eq!(snapshot.perf, None);
    let fallback = client2.snapshot_from_cached_topology(Ok(None));
    assert_eq!((fallback.thread_count, fallback.per_thread_util), (2, None));
    let minimal = client(&[], 0).snapshot_from_cached_topology(Err(QemuError::Broken));
    assert_eq!((minimal.thread_count, minimal.perf), (1, None));
}

#[test]
fn backend_configuration_falls_back_to_defaults() {
    assert_eq!(BACKEND_NAME, "qemu");
    assert_eq!(QemuConfig::default().libvirt_uri, "qemu:///system");
    assert_eq!(QemuConfig::from_dir(None).unwrap().libvirt_uri, "qemu:///system");
    let other = QemuConfig { libvirt_uri: "test:///".to_string() };
    let backend = QemuBackend::from_config_dir(Some(Ok(other))).unwrap();
    assert_eq!(backend.cfg.libvirt_uri, "test:///");
    let error = Err(ConfigError::Parse("x".to_string()));
    assert_eq!(QemuBackend::from_config_dir(Some(error)).unwrap_err().message(), "parse: x");
    assert_eq!(QemuBackend::default().cfg.libvirt_uri, "qemu:///system");
}

#[test]
fn connections_are_reused_by_uri() {
    let mut backend = QemuBackend::new(QemuConfig::default());
    assert!(!backend.reuses_connection("qemu:///system"));
    backend.on_open("qemu:///system", false);
    assert!(!backend.reuses_connection("qemu:///system"));
    backend.on_open("qemu:///system", true);
    assert!(backend.reuses_connection("qemu:///system"));
    assert!(!backend.reuses_connection("other"));
    backend.on_open("other", false);
    assert!(backend.reuses_connection("qemu:///system"));
}

#[test]
fn discovered_vms_need_a_vcpu_count() {
    let backend = QemuBackend::default();
    let uuid = 0x0123_4567_89ab_cdef_0011_2233_4455_6677;
    match backend.take_in(uuid, Err(QemuError::Broken), Ok(3)) {
        VmAdmission::Track { instance, client } => {
            assert_eq!(instance.id, "01234567-89ab-cdef-0011-223344556677");
            assert_eq!(instance.id, uuid::Uuid::from_u128(uuid).to_string());
            assert_eq!(instance.sock_path, "qemu:///system");
            assert_eq!(instance.pid, 0);
            assert_eq!(client.vcpu_count, Some(3));
            assert_eq!(client.uuid, uuid);
        }
        other => panic!("{other:?}"),
    }
    match backend.take_in(0, Ok(42), Ok(1)) {
        VmAdmission::Track { instance, .. } => {
            assert_eq!(instance.pid, 42);
            assert_eq!(instance.id, "00000000-0000-0000-0000-000000000000");
        }
        other => panic!("{other:?}"),
    }
    match backend.take_in(uuid, Ok(1), Ok(0)) {
        VmAdmission::NoVcpus => {}
        other => panic!("{other:?}"),
    }
    match backend.take_in(uuid, Ok(1), Err(QemuError::Broken)) {
        VmAdmission::Track { instance, client } => {
            assert_eq!(instance.pid, 1);
            assert_eq!(client.vcpu_count, None);
        }
        other => panic!("{other:?}"),
    }
}

fn report(uuid: u128, pid: Result<i32, QemuError>, vcpus: Result<u32, QemuError>) -> VmReport {
    VmReport { uuid, pid, vcpus }
}

/// A vCPU count that cannot be read skips the cap, not the VM.
#[test]
fn an_unknown_vcpu_count_keeps_the_vm() {
    let mut backend = QemuBackend::default();
    let listed = LibvirtAnswer::Listed(vec![report(7, Ok(3), Err(QemuError::Broken))]);
    let found = backend.discover(listed);
    assert_eq!(found.taken.len(), 1);
    assert_eq!(found.taken[0].instance.id, uuid::Uuid::from_u128(7).to_string());
    assert_eq!(found.taken[0].instance.pid, 3);
    let client = &found.taken[0].client;
    assert_eq!((client.uuid, client.vcpu_count, client.pid), (7, None, 0));
    assert_eq!((client.device_path.as_str(), client.vq_count), ("", 0));
    assert!(client.iothreads.is_empty() && client.iothread_tids.is_empty());
    assert!(client.last_sample.is_none() && !client.warned_unsupported_metrics);
    assert!(found.skipped.is_empty());
}

/// Discovery finds nothing while libvirt is away, and picks up once it is back.
#[test]
fn discovery_recovers_when_libvirt_returns() {
    let mut backend = QemuBackend::default();
    let found = backend.discover(LibvirtAnswer::Unreachable);
    assert!(found.taken.is_empty() && found.skipped.is_empty());
    assert!(!backend.reuses_connection("qemu:///system"));

    let found = backend.discover(LibvirtAnswer::NotListed(QemuError::Broken));
    assert!(found.taken.is_empty() && found.skipped.is_empty());
    assert!(backend.reuses_connection("qemu:///system"));

    let found = backend.discover(LibvirtAnswer::Listed(vec![
        report(1, Ok(11), Ok(4)),
        report(2, Ok(12), Ok(0)),
        report(3, Err(QemuError::Broken), Ok(2)),
        report(4, Ok(14), Err(QemuError::Broken)),
    ]));
    let seen: Vec<(String, i32, Option<u32>)> = found
        .taken
        .iter()
        .map(|vm| (vm.instance.id.clone(), vm.instance.pid, vm.client.vcpu_count))
        .collect();
    let id = |n: u128| uuid::Uuid::from_u128(n).to_string();
    assert_eq!(
        seen,
        vec![(id(1), 11, Some(4)), (id(3), 0, Some(2)), (id(4), 14, None)]
    );
    assert_eq!(found.skipped, vec![2]);
    assert_eq!(backend.cfg.libvirt_uri, "qemu:///system");
}

#[test]
fn vm_ids_tell_uuids_apart() {
    let backend = QemuBackend::default();
    let mut ids = Vec::new();
    for uuid in [0u128, 1, 15, 16, 1 << 64, u128::MAX, u128::MAX - 1, 0xa << 124] {
        match backend.take_in(uuid, Ok(1), Ok(1)) {
            VmAdmission::Track { instance, .. } => {
                assert_eq!(instance.id, uuid::Uuid::from_u128(uuid).to_string());
                ids.push(instance.id);
            }
            other => panic!("{other:?}"),
        }
    }
    let count = ids.len();
    ids.sort();
    ids.dedup();
    assert_eq!(ids.len(), count);
}

#[test]
fn growing_keeps_ids_distinct() {
    let mut client = client(&["iot3", "iot1", "spare"], 9);
    drive(&mut client, 8, &[]);
    let mut ids = client.iothreads.clone();
    assert_eq!(ids.len(), 8);
    ids.dedup();
    assert_eq!(ids.len(), 8);
    assert!(ids.contains(&"spare".to_string()));
}
