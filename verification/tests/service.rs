//! Backend errors, ownership, operator requests, daemon rules and status lines.

use io_thread_controller::backends::{
    control_socket_entry, control_socket_peer, is_peer_disconnect_kind, BackendClientError,
    EntryVerdict, IoErrorKind, IoFailure, IoThreadProperties, PeerVerdict,
};
use io_thread_controller::binary64::Binary64;
use io_thread_controller::config::{Config, ConfigError};
use io_thread_controller::controller::Controller;
use io_thread_controller::daemon::{
    check_watch_paths, find_cli_backend, load_daemon_config, react, ConfigSource, DaemonAction,
    DaemonEvent, WatchPath,
};
use io_thread_controller::dbus::{
    poll_override, settle_reply, ClientCall, DbusRequest, ReplyOutcome, DBUS_BUS_NAME,
    DBUS_INTERFACE, DBUS_OBJECT_PATH,
};
use io_thread_controller::instance::{Instance, InstanceStatus, RollingUpdate};
use io_thread_controller::rolling::{RollingMetrics, HORIZON_NS};
use io_thread_controller::state::{StateError, VmOwnership};
use io_thread_controller::status::{
    aggregate_status, bandwidth_text, cpu_text, format_optional_cells, iops_text, transition_text,
    StatusRow, WindowCells, FIRST_WINDOW_MINS, SECOND_WINDOW_MINS, THIRD_WINDOW_MINS,
};

const SECOND: u128 = 1_000_000_000;

fn io(kind: IoErrorKind) -> IoFailure {
    IoFailure { kind, message: "broken".to_string() }
}

#[test]
fn transport_failures_tell_teardown_apart() {
    let teardown = [
        IoErrorKind::BrokenPipe,
        IoErrorKind::ConnectionReset,
        IoErrorKind::ConnectionAborted,
        IoErrorKind::UnexpectedEof,
        IoErrorKind::NotFound,
    ];
    for kind in teardown {
        assert!(is_peer_disconnect_kind(kind));
        let error = BackendClientError::from_transport_io("send", &io(kind));
        assert_eq!(error.message(), "disconnected: send: broken");
        assert_eq!(BackendClientError::from(io(kind)).message(), "disconnected: broken");
    }
    assert!(!is_peer_disconnect_kind(IoErrorKind::Other));
    let error = BackendClientError::from_transport_io("send", &io(IoErrorKind::Other));
    assert_eq!(error.message(), "transport: send: broken");
    assert_eq!(BackendClientError::from(io(IoErrorKind::Other)).message(), "transport: broken");
}

#[test]
fn client_errors_render() {
    let s = || "x".to_string();
    assert_eq!(
        BackendClientError::NotSupported(s()).message(),
        "operation not supported on this backend: x"
    );
    assert_eq!(BackendClientError::Protocol(s()).message(), "x");
    assert_eq!(BackendClientError::InvalidState(s()).message(), "x");
    assert_eq!(BackendClientError::Procfs(s()).message(), "proc error");
    assert_eq!(BackendClientError::Opaque(s()).message(), "x");
    let qmp = BackendClientError::QmpError { cmd: s(), class: s(), desc: s() };
    assert_eq!(qmp.message(), "qmp x error: x: x");
    assert_eq!(
        BackendClientError::no_command_line("qemu").message(),
        "operation not supported on this backend: backend `qemu` has no command-line interface"
    );
}

#[test]
fn only_readable_directories_with_text_names_are_probed() {
    match control_socket_entry(Some(true), Some("vm".to_string())) {
        EntryVerdict::Probe { id } => assert_eq!(id, "vm"),
        other => panic!("{other:?}"),
    }
    for (is_dir, name) in
        [(Some(false), Some("vm")), (None, Some("vm")), (Some(true), None), (None, None)]
    {
        match control_socket_entry(is_dir, name.map(|n| n.to_string())) {
            EntryVerdict::Skip => {}
            other => panic!("{other:?}"),
        }
    }
}

#[test]
fn a_missing_socket_is_no_warning() {
    assert_eq!(control_socket_peer(Ok(5)), PeerVerdict::Track { pid: 5 });
    assert_eq!(control_socket_peer(Err(IoErrorKind::NotFound)), PeerVerdict::Skip { warn: false });
    assert_eq!(control_socket_peer(Err(IoErrorKind::Other)), PeerVerdict::Skip { warn: true });
}

#[test]
fn ownership_is_recorded_once() {
    let mut ownership = VmOwnership::new();
    assert_eq!(ownership.classification("a"), None);
    ownership.record("a", true).unwrap();
    ownership.record("b", false).unwrap();
    ownership.record("a", true).unwrap();
    assert_eq!(ownership.classification("a"), Some(true));
    assert_eq!(ownership.classification("b"), Some(false));
    match ownership.record("a", false) {
        Err(error) => assert_eq!(error.message(), "VM a is both managed and unmanaged"),
        Ok(()) => panic!("accepted"),
    }
    assert_eq!(ownership.classification("a"), Some(true));
    assert_eq!(ownership.ids(true), vec!["a"]);
    assert_eq!(ownership.ids(false), vec!["b"]);
}

fn ids(items: &[&str]) -> Vec<String> {
    items.iter().map(|s| s.to_string()).collect()
}

#[test]
fn ownership_survives_a_restart() {
    let mut before = VmOwnership::new();
    for (id, managed) in [("a", true), ("b", false), ("c", true)] {
        before.record(id, managed).unwrap();
    }
    let after = match VmOwnership::from_sets(&before.ids(true), &before.ids(false)) {
        Ok(after) => after,
        Err(error) => panic!("{error:?}"),
    };
    for id in ["a", "b", "c", "d"] {
        assert_eq!(after.classification(id), before.classification(id));
    }
    match VmOwnership::from_sets(&ids(&["x", "y", "x"]), &ids(&["z", "y"])) {
        Err(StateError::Conflict(id)) => assert_eq!(id, "y"),
        _ => panic!("accepted"),
    }
}

#[test]
fn errors_of_files_render() {
    assert_eq!(StateError::Io(io(IoErrorKind::Other)).message(), "io: broken");
    assert_eq!(StateError::Parse("x".to_string()).message(), "parse: x");
    assert_eq!(ConfigError::Io(io(IoErrorKind::Other)).message(), "io: broken");
    assert_eq!(ConfigError::InvalidValue("x".to_string()).message(), "invalid value: x");
}

fn controller() -> Controller {
    let cfg = Config {
        min_thread_count: 1,
        max_thread_count: 8,
        host_cpu_scale_up_ceiling: Binary64::zero(),
        cooldown_ns: 0,
        enable_per_vm_status_line: true,
        enable_aggregate_status_line: true,
    };
    let mut controller = match Controller::new(cfg, Ok(VmOwnership::new())) {
        Ok(controller) => controller,
        Err(error) => panic!("{error:?}"),
    };
    let mut vm = Instance::new("vm".to_string(), String::new(), 1);
    vm.status.vcpu_count = Some(4);
    controller.sync_instances(vec![vm]);
    controller
}

fn served(request: DbusRequest) -> String {
    match controller().handle_dbus_request(request) {
        Ok((vm, call)) => format!("{vm}: {call:?}"),
        Err(text) => text,
    }
}

#[test]
fn requests_become_client_calls() {
    let vm = || "vm".to_string();
    let s = |t: &str| t.to_string();
    assert_eq!(
        served(DbusRequest::SetThreadCount { vm: vm(), threads: 4, sticky: true }),
        "vm: SetThreadCount { threads: 4, sticky: true }"
    );
    assert_eq!(
        served(DbusRequest::SetThreadCount { vm: vm(), threads: 0, sticky: true }),
        "Set thread count error: target thread count must be greater than zero"
    );
    assert_eq!(
        served(DbusRequest::GetIoThreadVqMapping { vm: vm(), device: s("/d") }),
        "vm: GetVqMapping { device: \"/d\" }"
    );
    assert_eq!(
        served(DbusRequest::DelIoThread { vm: vm(), id: s("iot1") }),
        "vm: DelIoThread { id: \"iot1\" }"
    );
    assert_eq!(
        served(DbusRequest::SetIoThreadVqMapping {
            vm: vm(),
            device: s("/d"),
            mapping_json: s("[]")
        }),
        "vm: SetVqMapping { device: \"/d\", mapping_json: \"[]\" }"
    );
    for request in [
        DbusRequest::SetThreadCount { vm: s("x"), threads: 1, sticky: false },
        DbusRequest::GetIoThreadVqMapping { vm: s("x"), device: s("/d") },
        DbusRequest::AddIoThread { vm: s("x"), id: s("i"), poll_max_ns: 1 },
        DbusRequest::DelIoThread { vm: s("x"), id: s("i") },
        DbusRequest::SetIoThreadVqMapping { vm: s("x"), device: s("/d"), mapping_json: s("") },
    ] {
        assert_eq!(served(request), "VM error: unknown VM {vm}");
    }
}

#[test]
fn minus_one_leaves_the_poll_default() {
    assert_eq!(poll_override(-1), None);
    let mut props = IoThreadProperties::default();
    props.poll_max_ns = Some(0);
    assert_eq!(poll_override(0), Some(props));
    let request = |poll_max_ns| DbusRequest::AddIoThread {
        vm: "vm".to_string(),
        id: "iot1".to_string(),
        poll_max_ns,
    };
    match controller().handle_dbus_request(request(-1)) {
        Ok((_, ClientCall::AddIoThread { id, props })) => {
            assert_eq!((id.as_str(), props), ("iot1", None))
        }
        other => panic!("{other:?}"),
    }
    match controller().handle_dbus_request(request(-2)) {
        Ok((_, ClientCall::AddIoThread { props, .. })) => {
            assert_eq!(props.unwrap().poll_max_ns, Some(-2))
        }
        other => panic!("{other:?}"),
    }
}

#[test]
fn replies_settle() {
    let text = |outcome| settle_reply(outcome).unwrap_err();
    assert_eq!(settle_reply(ReplyOutcome::Answered(Ok("y".to_string()))), Ok("y".to_string()));
    assert_eq!(text(ReplyOutcome::Answered(Err("n".to_string()))), "n");
    assert_eq!(text(ReplyOutcome::NotSent), "controller channel closed");
    assert_eq!(text(ReplyOutcome::Closed), "controller reply channel closed");
    let timeout = std::time::Duration::from_secs(30);
    assert_eq!(text(ReplyOutcome::TimedOut), format!("request timed out after {timeout:?}"));
    assert_eq!(DBUS_BUS_NAME, "com.nutanix.io_thread_controller1");
    assert_eq!(DBUS_OBJECT_PATH, "/com/nutanix/io_thread_controller1");
    assert_eq!(DBUS_INTERFACE, "com.nutanix.io_thread_controller1");
}

#[test]
fn events_lead_to_actions() {
    assert_eq!(react(DaemonEvent::PollTimer), vec![DaemonAction::Tick, DaemonAction::Rediscover]);
    assert_eq!(react(DaemonEvent::PathChanged), vec![DaemonAction::Rediscover]);
    assert_eq!(react(DaemonEvent::Request), vec![DaemonAction::Serve]);
    assert_eq!(react(DaemonEvent::Signal), vec![DaemonAction::Stop]);
}

#[test]
fn watch_paths_must_be_directories() {
    let path = |path: &str, is_dir| WatchPath { path: path.to_string(), is_dir };
    assert_eq!(check_watch_paths(&vec![path("/a", true)]), Ok(()));
    assert_eq!(
        check_watch_paths(&vec![path("/a", true), path("/b", false), path("/c", false)]),
        Err("backend watch path `/b` is not a directory".to_string())
    );
}

#[test]
fn defaults_stand_in_for_an_absent_file_only() {
    assert_eq!(load_daemon_config(Ok(())), ConfigSource::File);
    assert_eq!(load_daemon_config(Err(IoErrorKind::NotFound)), ConfigSource::Defaults);
    assert_eq!(load_daemon_config(Err(IoErrorKind::Other)), ConfigSource::Failure);
}

#[test]
fn the_first_backend_with_the_subcommand_runs() {
    let offered = vec![None, Some("a".to_string()), Some("b".to_string()), Some("b".to_string())];
    assert_eq!(find_cli_backend(&offered, "b"), Ok(2));
    assert_eq!(find_cli_backend(&offered, "c"), Err("no backend `c`".to_string()));
}

fn cells(first: Option<u64>, second: Option<u64>, third: Option<u64>) -> WindowCells {
    WindowCells { first, second, third }
}

#[test]
fn aggregates_sum_what_has_data() {
    let rows = vec![
        StatusRow { thread_count: 4, iops: cells(Some(10), None, Some(u64::MAX)) },
        StatusRow { thread_count: u32::MAX, iops: cells(Some(5), None, Some(1)) },
        StatusRow { thread_count: 0, iops: cells(None, None, None) },
    ];
    let all = aggregate_status(&rows);
    assert_eq!(all.tracked_vms, 3);
    assert_eq!(all.total_threads, 4 + u64::from(u32::MAX));
    assert_eq!(all.iops, cells(Some(15), None, Some(u64::MAX)));
    assert_eq!(format_optional_cells(&all.iops), format!("15/-/{}", u64::MAX));
    assert_eq!(aggregate_status(&Vec::new()).iops, cells(None, None, None));
    assert_eq!((FIRST_WINDOW_MINS, SECOND_WINDOW_MINS, THIRD_WINDOW_MINS), (1, 5, 15));
}

#[test]
fn status_fields_render() {
    let mut status = InstanceStatus::default();
    status.read_iops = 155_593;
    status.other_iops = 7;
    status.read_bytes_per_second = 20_394_999_999;
    assert_eq!(iops_text(&status), "155593/0/7");
    assert_eq!(bandwidth_text(&status), "20394/0");
    assert_eq!(transition_text(6, 5), "6->5");
    assert_eq!(format_optional_cells(&cells(Some(154_995), Some(0), None)), "154995/0/-");
}

#[test]
fn cpu_percentages_are_rounded() {
    let mut status = InstanceStatus::default();
    status.thread_count = 4;
    status.per_thread_util = Binary64::from_bits(0.8955f64.to_bits());
    assert_eq!(cpu_text(&status), "90/358");
    let mut utils = vec![0.0, -0.0, -3.0, 0.005, 0.015, 0.025, 0.125, 0.5, 0.995, 1.0, 7.5, f64::NAN];
    for n in 0..1000 {
        utils.push(f64::from(n) / 1000.0);
        utils.push(f64::from(n) / 1024.0);
    }
    for util in utils {
        for threads in [0, 1, 2, 3, 50, 128, u32::MAX] {
            status.thread_count = threads;
            status.per_thread_util = Binary64::from_bits(util.to_bits());
            let average = util.clamp(0.0, 1.0) * 100.0;
            let total = average * f64::from(threads);
            assert_eq!(cpu_text(&status), format!("{average:.0}/{total:.0}"), "{util} {threads}");
        }
    }
}

#[test]
fn refreshes_add_up_in_the_history() {
    let backend = |ops: u64, util: f64, threads: u32| RollingUpdate::BackendUtil {
        io_ops_total: ops,
        per_thread_util: Binary64::from_bits(util.to_bits()),
        thread_count: threads,
    };
    let mut rolling = RollingMetrics::new();
    rolling.record(&backend(0, 0.5, 4), 100, SECOND);
    rolling.record(&RollingUpdate::Nothing, 100, 2 * SECOND);
    rolling.record(&backend(1000, 0.5, 4), 100, 3 * SECOND);
    assert_eq!(rolling.iops_over(60 * SECOND), Some(500));
    assert_eq!(rolling.cpu_us_per_io_over(60 * SECOND), Some(4000));
    rolling.record(&backend(2000, f64::NAN, 4), 100, 4 * SECOND);
    assert_eq!(rolling.cpu_us_per_io_over(60 * SECOND), Some(2000));
    rolling.record(&backend(2000, 2.5, 1), 100, 4 * SECOND + 500_000_000);
    assert_eq!(rolling.cpu_us_per_io_over(60 * SECOND), Some(2250));

    let ticks = |ops: u64, cpu_ticks: u64| RollingUpdate::ProcessTicks { io_ops_total: ops, cpu_ticks };
    let mut rolling = RollingMetrics::new();
    rolling.record(&ticks(10, 100), 100, SECOND);
    rolling.record(&ticks(20, 250), 100, 2 * SECOND);
    assert_eq!(rolling.cpu_us_per_io_over(60 * SECOND), Some(150_000));
    rolling.record(&ticks(11, u64::MAX), 100, 3 * SECOND);
    assert_eq!(rolling.cpu_us_per_io_over(60 * SECOND), Some(u64::MAX - 1_000_000));
}

#[test]
fn rolling_rates_cover_their_window() {
    let mut rolling = RollingMetrics::new();
    assert_eq!(rolling.iops_over(60 * SECOND), None);
    rolling.push(0, 0, 0);
    assert_eq!(rolling.iops_over(60 * SECOND), None);
    rolling.push(100 * SECOND, 1000, 500);
    assert_eq!(rolling.iops_over(60 * SECOND), None);
    assert_eq!(rolling.iops_over(300 * SECOND), Some(10));
    assert_eq!(rolling.cpu_us_per_io_over(300 * SECOND), Some(0));
    rolling.push(150 * SECOND, 2000, 20_500);
    assert_eq!(rolling.iops_over(60 * SECOND), Some(20));
    assert_eq!(rolling.cpu_us_per_io_over(60 * SECOND), Some(20));
    assert_eq!(rolling.iops_over(300 * SECOND), Some(13));
    rolling.push(HORIZON_NS + SECOND, 2000, 20_500);
    assert_eq!(rolling.iops_over(HORIZON_NS), Some(1));
    assert_eq!(rolling.cpu_us_per_io_over(60 * SECOND), None);
    rolling.push(HORIZON_NS + 2 * SECOND, 2000, 20_501);
    assert_eq!(rolling.cpu_us_per_io_over(60 * SECOND), None);
    assert_eq!(rolling.iops_over(60 * SECOND), Some(0));
}
