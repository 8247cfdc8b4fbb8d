//! Inventory, ownership and actuation.

use io_thread_controller::backends::BackendClientError;
use io_thread_controller::binary64::Binary64;
use io_thread_controller::config::Config;
use io_thread_controller::controller::actuation::{DecisionVerdict, ScaleRequest};
use io_thread_controller::controller::host::{host_cpu_utilisation, HostCpuSample, KernelCpuTimes};
use io_thread_controller::controller::refresh::RefreshOutcome;
use io_thread_controller::controller::sync::SyncEffect;
use io_thread_controller::controller::{Controller, ControllerError};
use io_thread_controller::engines::threshold::{
    InstanceState, PollFigures, ThresholdConfig, ThresholdEngine,
};
use io_thread_controller::engines::{AppliedOutcome, BlockedReason, ScaleAction};
use io_thread_controller::instance::{
    Instance, InstancePerfSample, Observation, ThreadPoolSnapshot,
};
use io_thread_controller::state::{StateError, VmOwnership};

fn fraction(x: f64) -> Binary64 {
    Binary64::from_bits(x.to_bits())
}

fn config() -> Config {
    Config {
        min_thread_count: 1,
        max_thread_count: 8,
        host_cpu_scale_up_ceiling: Binary64::zero(),
        cooldown_ns: 0,
        enable_per_vm_status_line: true,
        enable_aggregate_status_line: true,
    }
}

fn controller(cfg: Config) -> Controller {
    match Controller::new(cfg, Ok(VmOwnership::new())) {
        Ok(controller) => controller,
        Err(error) => panic!("{error:?}"),
    }
}

fn instance(id: &str) -> Instance {
    Instance::new(id.to_string(), String::new(), 1)
}

/// Apply one action as a daemon would, with a client that accepts everything.
fn apply(controller: &mut Controller, id: &str, action: ScaleAction, target: &mut u32, now: u128) {
    match controller.apply_engine_decision(id, action, now) {
        DecisionVerdict::Apply(request) => {
            *target = request.target;
            controller.finish_engine_decision(id, action, &request, Ok(()), now);
        }
        DecisionVerdict::Block(_) | DecisionVerdict::Ignore => {}
    }
}

/// Actuation will not raise the pool above the VM vCPU count.
#[test]
fn actuation_enforces_vcpu_cap() {
    let id = "some-vcpu-limited-test-instance";
    let mut controller = controller(config());
    let mut target = 2;
    let mut vm = instance(id);
    vm.status.thread_count = 2;
    vm.status.vcpu_count = Some(4);
    vm.status.ownership_classification = Some(true);
    controller.instances.insert(id.to_string(), vm);

    apply(&mut controller, id, ScaleAction::Up(4), &mut target, 1);
    assert_eq!(target, 4);

    apply(&mut controller, id, ScaleAction::Up(5), &mut target, 2);
    assert_eq!(target, 4);

    apply(&mut controller, id, ScaleAction::Down(3), &mut target, 3);
    assert_eq!(target, 3);

    controller.instances.get_mut(id).unwrap().status.ownership_classification = Some(false);
    apply(&mut controller, id, ScaleAction::Up(4), &mut target, 4);
    apply(&mut controller, id, ScaleAction::Down(2), &mut target, 5);
    assert_eq!(target, 3);
}

/// Actuation holds thread targets to configured min/max and blocks scale-up when
/// host CPU is above the ceiling.
#[test]
fn actuation_enforces_controller_bounds_and_host_ceiling() {
    let id = "policy-guarded";
    let mut cfg = config();
    cfg.min_thread_count = 2;
    cfg.max_thread_count = 3;
    cfg.host_cpu_scale_up_ceiling = fraction(0.5);
    cfg.cooldown_ns = 30_000_000_000;
    let mut controller = controller(cfg);
    let mut target = 2;
    let mut vm = instance(id);
    vm.status.thread_count = 2;
    vm.status.vcpu_count = Some(4);
    controller.host_cpu_util = fraction(0.5);
    controller.instances.insert(id.to_string(), vm);

    apply(&mut controller, id, ScaleAction::Up(3), &mut target, 1);
    assert_eq!(target, 2);

    controller.host_cpu_util = Binary64::zero();
    apply(&mut controller, id, ScaleAction::Up(3), &mut target, 2);
    assert_eq!(target, 2);

    apply(&mut controller, id, ScaleAction::Down(2), &mut target, 3);
    assert_eq!(target, 2);

    apply(&mut controller, id, ScaleAction::Revert(2), &mut target, 4);
    assert_eq!(target, 2);

    apply(&mut controller, id, ScaleAction::Down(1), &mut target, 5);
    apply(&mut controller, id, ScaleAction::Up(4), &mut target, 6);
    assert_eq!(target, 2);
}

fn effects(list: &[SyncEffect]) -> Vec<String> {
    list.iter()
        .map(|effect| match effect {
            SyncEffect::CloseDuplicate(i) => format!("duplicate {i}"),
            SyncEffect::Added(i) => format!("added {i}"),
            SyncEffect::Removed(id) => format!("removed {id}"),
        })
        .collect()
}

/// Discovery sync adds new VMs, retains existing ones, and removes disappeared
/// ones.
#[test]
fn sync_instances_adds_retains_and_removes() {
    let mut controller = controller(config());

    let report = controller.sync_instances(vec![instance("vm-a")]);
    assert_eq!((report.added, report.removed), (1, 0));
    assert_eq!(controller.instances.len(), 1);
    assert_eq!(effects(&report.effects), vec!["added 0"]);

    let report = controller.sync_instances(vec![instance("vm-a")]);
    assert_eq!((report.added, report.removed), (0, 0));
    assert_eq!(controller.instances.len(), 1);
    assert_eq!(effects(&report.effects), vec!["duplicate 0"]);

    let report = controller.sync_instances(vec![]);
    assert_eq!((report.added, report.removed), (0, 1));
    assert!(controller.instances.is_empty());
    assert_eq!(effects(&report.effects), vec!["removed vm-a"]);
}

fn observed(thread_count: u32) -> Observation {
    Observation {
        snapshot: ThreadPoolSnapshot {
            thread_count,
            vcpu_count: Some(2),
            perf: None,
            per_thread_util: None,
        },
        initially_managed: true,
        cpu: None,
        ticks_per_second: 100,
    }
}

fn ok(id: &str, thread_count: u32) -> RefreshOutcome {
    RefreshOutcome { id: id.to_string(), outcome: Ok(observed(thread_count)), at: 1 }
}

fn failed(id: &str) -> RefreshOutcome {
    RefreshOutcome {
        id: id.to_string(),
        outcome: Err(BackendClientError::Transport("boom".to_string())),
        at: 1,
    }
}

/// One tick refreshes state and drops instances that fail refresh; the rest is
/// what the engine evaluates.
#[test]
fn tick_refreshes_evaluates_and_drops_failed_instances() {
    let mut controller = controller(config());
    let report = controller.sync_instances(vec![instance("ok"), instance("bad")]);
    assert_eq!(report.added, 2);

    let outcomes = vec![ok("ok", 4), failed("bad")];
    let mut engine = ThresholdEngine::new(ThresholdConfig::default());
    engine.on_instance_added("ok");
    engine.on_instance_added("bad");
    let grown = AppliedOutcome::Success {
        action: ScaleAction::Up(2),
        prev_thread_count: 1,
        prev_io_count_total: 1,
    };
    engine.on_applied("bad", &grown);
    assert!(engine.instance_state("bad").pending_validation.is_some());

    let (refresh, settled) = controller.tick(None, outcomes, 1);
    let report = settled.unwrap();
    assert_eq!(controller.tick_index, 1);
    assert_eq!(controller.instances.len(), 1);
    assert!(controller.instances.contains_key("ok"));
    assert_eq!(controller.instances.get("ok").unwrap().status.thread_count, 4);
    assert_eq!(refresh.dropped, vec!["bad"]);
    assert!(refresh.verdicts[1].unwrap().close_client);
    assert!(report.ownership_changed);

    let mut removed = 0;
    for id in &refresh.dropped {
        engine.on_instance_removed(id);
        removed += 1;
    }
    assert_eq!(engine.instance_state("bad"), InstanceState::new());
    let mut evaluated = 0;
    for id in controller.status_order() {
        assert_eq!(id, "ok");
        let seen = PollFigures::of(&controller.instances.get(&id).unwrap().status);
        engine.evaluate(&id, &seen, &report.context);
        evaluated += 1;
    }
    assert_eq!(engine.instance_state("ok").low_util_polls, 1);
    assert_eq!((evaluated, removed), (1, 1));
    assert_eq!(report.context.tick_index, 1);
    assert_eq!(report.context.min_thread_count, 1);
    assert_eq!(report.context.max_thread_count, 8);
}

/// A contradicted classification fails the tick, but not the report on the refresh.
#[test]
fn a_contradiction_still_reports_the_refresh() {
    let mut controller = controller(config());
    controller.sync_instances(vec![instance("a"), instance("b"), instance("bad")]);
    controller.vm_ownership.record("b", false).unwrap();
    let (refresh, settled) =
        controller.tick(None, vec![ok("a", 1), ok("b", 1), failed("bad")], 1);
    assert_eq!(
        settled.unwrap_err().message(),
        "VM error: VM b ownership changed after classification"
    );
    assert_eq!(refresh.dropped, vec!["bad"]);
    assert!(refresh.verdicts[2].unwrap().close_client);
    assert!(!controller.instances.contains_key("bad"));
    assert_eq!(controller.vm_ownership.classification("a"), Some(true));
    assert_eq!(controller.vm_ownership.classification("b"), Some(false));
}

/// An unknown vCPU count caps neither the engine nor the operator.
#[test]
fn unknown_vcpus_cap_nothing() {
    let mut controller = managed(config());
    controller.instances.get_mut("vm").unwrap().status.vcpu_count = None;
    assert!(controller.handle_set_thread_count("vm", 1_000).is_ok());
    match controller.apply_engine_decision("vm", ScaleAction::Up(8), 1) {
        DecisionVerdict::Apply(request) => assert_eq!(request.target, 8),
        other => panic!("{other:?}"),
    }
    controller.instances.get_mut("vm").unwrap().status.vcpu_count = Some(7);
    assert_eq!(
        controller.apply_engine_decision("vm", ScaleAction::Up(8), 1),
        DecisionVerdict::Block(BlockedReason::TargetExceedsVcpuCount)
    );
}

/// Each VM's rates go by the time of its own report.
#[test]
fn reports_carry_their_own_times() {
    let mut controller = controller(config());
    controller.sync_instances(vec![instance("a"), instance("b")]);
    let report = |id: &str, reads: u64, at: u128| {
        let mut seen = observed(1);
        let mut perf = InstancePerfSample::default();
        perf.read_io_count = reads;
        seen.snapshot.perf = Some(perf);
        RefreshOutcome { id: id.to_string(), outcome: Ok(seen), at }
    };
    let second = 1_000_000_000;
    controller.tick(None, vec![report("a", 0, second), report("b", 0, second)], 5).1.unwrap();
    let later = vec![report("a", 100, 2 * second), report("b", 100, 3 * second)];
    let settled = controller.tick(None, later, 6).1.unwrap();
    assert_eq!(settled.context.now, 6);
    assert_eq!(controller.instances.get("a").unwrap().status.read_iops, 100);
    assert_eq!(controller.instances.get("b").unwrap().status.read_iops, 50);
}

/// Manual requests leave the cooldown alone, and the override lasts until one of them
/// lifts it.
#[test]
fn manual_requests_between_actions_keep_the_controls() {
    let mut cfg = config();
    cfg.cooldown_ns = 100;
    let mut controller = managed(cfg);
    let mut target = 2;
    apply(&mut controller, "vm", ScaleAction::Up(3), &mut target, 1_000);
    assert_eq!(target, 3);
    controller.finish_set_thread_count("vm", 4, false, Ok(())).unwrap();
    assert_eq!(
        controller.apply_engine_decision("vm", ScaleAction::Up(5), 1_099),
        DecisionVerdict::Block(BlockedReason::Cooldown)
    );
    controller.finish_set_thread_count("vm", 4, true, Ok(())).unwrap();
    controller.finish_set_thread_count("vm", 5, true, Ok(())).unwrap();
    for action in [ScaleAction::Up(6), ScaleAction::Down(4), ScaleAction::Revert(3)] {
        assert_eq!(
            controller.apply_engine_decision("vm", action, 9_000),
            DecisionVerdict::Block(BlockedReason::ManualOverride)
        );
    }
    controller.finish_set_thread_count("vm", 5, false, Ok(())).unwrap();
    apply(&mut controller, "vm", ScaleAction::Up(6), &mut target, 9_000);
    assert_eq!(target, 6);
}

#[test]
fn sync_counts_are_set_differences() {
    let mut controller = controller(config());
    controller.sync_instances(vec![instance("a"), instance("b"), instance("c")]);
    let found = vec![instance("d"), instance("c"), instance("d"), instance("e")];
    let report = controller.sync_instances(found);
    assert_eq!((report.added, report.removed), (2, 2));
}

#[test]
fn reports_on_unknown_vms_are_ignored() {
    let mut controller = controller(config());
    controller.sync_instances(vec![instance("a")]);
    let refresh = controller.refresh_fleet(vec![ok("x", 1), failed("y"), ok("a", 2)]);
    assert!(refresh.dropped.is_empty());
    assert_eq!(refresh.verdicts[0], None);
    assert_eq!(refresh.verdicts[1], None);
    assert!(refresh.verdicts[2].unwrap().refreshed);
    assert_eq!(controller.instances.len(), 1);
}

#[test]
fn sync_keeps_the_first_of_duplicates_and_the_records() {
    let mut controller = controller(config());
    controller.sync_instances(vec![instance("b"), instance("a")]);
    controller.instances.get_mut("a").unwrap().status.thread_count = 9;
    let mut first = instance("c");
    first.pid = 10;
    let mut second = instance("c");
    second.pid = 11;
    let report = controller.sync_instances(vec![first, instance("a"), second]);
    assert_eq!((report.added, report.removed), (1, 1));
    assert_eq!(
        effects(&report.effects),
        vec!["added 0", "duplicate 1", "duplicate 2", "removed b"]
    );
    assert_eq!(controller.instances.get("a").unwrap().status.thread_count, 9);
    assert_eq!(controller.instances.get("c").unwrap().pid, 10);
    assert!(controller.instances.get("b").is_none());
    assert_eq!(controller.instances.id_at(0), "a");
    assert_eq!(controller.instances.id_at(1), "c");
    let again = controller.sync_instances(vec![instance("c"), instance("a")]);
    assert_eq!((again.added, again.removed), (0, 0));
    assert_eq!(controller.instances.id_at(0), "a");
}

#[test]
fn known_vms_keep_their_classification() {
    let mut ownership = VmOwnership::new();
    ownership.record("old", false).unwrap();
    let mut controller = match Controller::new(config(), Ok(ownership)) {
        Ok(controller) => controller,
        Err(error) => panic!("{error:?}"),
    };
    controller.sync_instances(vec![instance("old"), instance("new")]);
    assert_eq!(
        controller.instances.get("old").unwrap().status.ownership_classification,
        Some(false)
    );
    assert_eq!(controller.instances.get("new").unwrap().status.ownership_classification, None);
    let report = controller.tick(None, vec![ok("old", 1), ok("new", 1)], 1).1.unwrap();
    assert!(report.ownership_changed);
    assert_eq!(controller.vm_ownership.classification("old"), Some(false));
    assert_eq!(controller.vm_ownership.classification("new"), Some(true));
    let report = controller.tick(None, vec![ok("old", 1), ok("new", 1)], 2).1.unwrap();
    assert!(!report.ownership_changed);

    controller.instances.get_mut("old").unwrap().status.ownership_classification = Some(true);
    match controller.persist_new_classifications() {
        Err(ControllerError::VmError(text)) => {
            assert_eq!(text, "VM old ownership changed after classification")
        }
        other => panic!("{other:?}"),
    }
}

#[test]
fn unloadable_ownership_stops_the_controller() {
    match Controller::new(config(), Err(StateError::Parse("bad".to_string()))) {
        Err(error) => assert_eq!(error.message(), "parse: bad"),
        Ok(_) => panic!("accepted"),
    }
}

fn managed(cfg: Config) -> Controller {
    let mut controller = controller(cfg);
    let mut vm = instance("vm");
    vm.status.thread_count = 2;
    vm.status.vcpu_count = Some(6);
    vm.status.ownership_classification = Some(true);
    vm.status.perf = Some(InstancePerfSample {
        read_io_count: 1,
        write_io_count: 2,
        other_io_count: 3,
        read_bytes_total: 0,
        write_bytes_total: 0,
    });
    controller.instances.insert("vm".to_string(), vm);
    controller
}

fn blocked(controller: &Controller, action: ScaleAction, now: u128) -> Option<BlockedReason> {
    match controller.apply_engine_decision("vm", action, now) {
        DecisionVerdict::Block(reason) => Some(reason),
        _ => None,
    }
}

#[test]
fn each_guard_has_its_reason() {
    let mut cfg = config();
    cfg.min_thread_count = 2;
    cfg.max_thread_count = 7;
    cfg.cooldown_ns = 100;
    cfg.host_cpu_scale_up_ceiling = fraction(0.75);
    let mut controller = managed(cfg);
    assert_eq!(blocked(&controller, ScaleAction::Up(1), 0), Some(BlockedReason::TargetBelowMinimum));
    assert_eq!(
        blocked(&controller, ScaleAction::Revert(8), 0),
        Some(BlockedReason::TargetExceedsMaximum)
    );
    assert_eq!(
        blocked(&controller, ScaleAction::Up(7), 0),
        Some(BlockedReason::TargetExceedsVcpuCount)
    );
    assert_eq!(
        controller.apply_engine_decision("vm", ScaleAction::Up(3), 0),
        DecisionVerdict::Apply(ScaleRequest {
            target: 3,
            prev_thread_count: 2,
            prev_io_count_total: 6
        })
    );
    controller.host_cpu_util = fraction(0.75);
    assert_eq!(blocked(&controller, ScaleAction::Up(3), 0), Some(BlockedReason::HostCpuCeiling));
    assert_eq!(blocked(&controller, ScaleAction::Up(2), 0), None);
    assert_eq!(blocked(&controller, ScaleAction::Down(3), 0), None);
    assert_eq!(blocked(&controller, ScaleAction::Revert(3), 0), None);
    controller.host_cpu_util = fraction(0.7499);
    assert_eq!(blocked(&controller, ScaleAction::Up(3), 0), None);

    let request = ScaleRequest { target: 3, prev_thread_count: 2, prev_io_count_total: 6 };
    controller.finish_engine_decision("vm", ScaleAction::Up(3), &request, Ok(()), 1000);
    assert_eq!(controller.instances.get("vm").unwrap().status.cooldown_until, Some(1100));
    assert_eq!(blocked(&controller, ScaleAction::Down(2), 1099), Some(BlockedReason::Cooldown));
    assert_eq!(blocked(&controller, ScaleAction::Up(4), 1099), Some(BlockedReason::Cooldown));
    assert_eq!(blocked(&controller, ScaleAction::Revert(2), 1099), None);
    assert_eq!(blocked(&controller, ScaleAction::Down(2), 1100), None);

    controller.instances.get_mut("vm").unwrap().status.ownership_classification = None;
    assert_eq!(blocked(&controller, ScaleAction::Revert(2), 0), Some(BlockedReason::UnmanagedVm));
    controller.instances.get_mut("vm").unwrap().status.manual_scaling_sticky = true;
    assert_eq!(blocked(&controller, ScaleAction::Revert(2), 0), Some(BlockedReason::ManualOverride));
    assert_eq!(
        controller.apply_engine_decision("vm", ScaleAction::Hold, 0),
        DecisionVerdict::Ignore
    );
    assert_eq!(
        controller.apply_engine_decision("other", ScaleAction::Up(3), 0),
        DecisionVerdict::Ignore
    );
}

#[test]
fn zero_ceiling_disables_the_host_guard() {
    let mut controller = managed(config());
    controller.host_cpu_util = Binary64::one();
    assert_eq!(blocked(&controller, ScaleAction::Up(3), 0), None);
}

#[test]
fn outcomes_report_success_and_failure() {
    let mut cfg = config();
    cfg.cooldown_ns = 5;
    let mut controller = managed(cfg);
    let request = ScaleRequest { target: 4, prev_thread_count: 2, prev_io_count_total: 6 };
    let error = BackendClientError::Transport("no".to_string());
    match controller.finish_engine_decision("vm", ScaleAction::Up(4), &request, Err(error), 1) {
        AppliedOutcome::Failed { action, error } => {
            assert_eq!(action, ScaleAction::Up(4));
            assert_eq!(error.message(), "transport: no");
        }
        other => panic!("{other:?}"),
    }
    assert_eq!(controller.instances.get("vm").unwrap().status.thread_count, 2);
    match controller.finish_engine_decision("vm", ScaleAction::Revert(4), &request, Ok(()), 1) {
        AppliedOutcome::Success { action, prev_thread_count, prev_io_count_total } => {
            assert_eq!(action, ScaleAction::Revert(4));
            assert_eq!((prev_thread_count, prev_io_count_total), (2, 6));
        }
        other => panic!("{other:?}"),
    }
    let status = controller.instances.get("vm").unwrap().status;
    assert_eq!(status.thread_count, 4);
    assert_eq!(status.cooldown_until, None);
}

#[test]
fn manual_requests_are_checked_and_applied() {
    let mut controller = managed(config());
    let text = |r: Result<(), ControllerError>| r.unwrap_err().message();
    assert_eq!(text(controller.handle_set_thread_count("x", 1)), "VM error: unknown VM {vm}");
    assert_eq!(
        text(controller.handle_set_thread_count("vm", 0)),
        "Set thread count error: target thread count must be greater than zero"
    );
    assert_eq!(
        text(controller.handle_set_thread_count("vm", 7)),
        "Set thread count error: target thread count {threads} > guest vCPU count {vcpu_count}"
    );
    assert!(controller.handle_set_thread_count("vm", 6).is_ok());
    let error = BackendClientError::Disconnected("gone".to_string());
    assert_eq!(
        text(controller.finish_set_thread_count("vm", 6, true, Err(error))),
        "disconnected: gone"
    );
    assert!(!controller.instances.get("vm").unwrap().status.manual_scaling_sticky);
    assert!(controller.finish_set_thread_count("vm", 6, true, Ok(())).is_ok());
    let status = controller.instances.get("vm").unwrap().status;
    assert_eq!(status.thread_count, 6);
    assert!(status.manual_scaling_sticky);
    assert_eq!(blocked(&controller, ScaleAction::Up(5), 0), Some(BlockedReason::ManualOverride));
    controller.finish_set_thread_count("vm", 5, false, Ok(())).unwrap();
    assert_eq!(blocked(&controller, ScaleAction::Up(5), 0), None);
}

fn times(user: u64, idle: u64) -> KernelCpuTimes {
    KernelCpuTimes {
        user,
        nice: 1,
        system: 2,
        idle,
        iowait: Some(3),
        irq: None,
        softirq: Some(4),
        steal: None,
        guest: Some(5),
        guest_nice: None,
    }
}

#[test]
fn host_samples_sum_and_saturate() {
    let sample = HostCpuSample::from_times(&times(10, 100));
    assert_eq!(sample, HostCpuSample { busy_ticks: 22, total_ticks: 125 });
    let full = HostCpuSample::from_times(&times(u64::MAX, u64::MAX));
    assert_eq!(full, HostCpuSample { busy_ticks: 0, total_ticks: u64::MAX });
}

#[test]
fn host_utilisation_follows_the_samples() {
    let mut controller = controller(config());
    let first = HostCpuSample { busy_ticks: 10, total_ticks: 100 };
    let context = controller.begin_tick(Some(first), 7);
    assert_eq!(context.host_cpu_util, Binary64::zero());
    assert_eq!(context.now, 7);
    let second = HostCpuSample { busy_ticks: 60, total_ticks: 200 };
    assert_eq!(controller.begin_tick(Some(second), 8).host_cpu_util, fraction(0.5));
    assert_eq!(controller.begin_tick(None, 9).host_cpu_util, fraction(0.5));
    assert_eq!(controller.last_host_cpu, Some(second));
    assert_eq!(controller.begin_tick(Some(second), 10).host_cpu_util, Binary64::zero());
    let third = HostCpuSample { busy_ticks: 161, total_ticks: 201 };
    assert_eq!(controller.begin_tick(Some(third), 11).host_cpu_util, Binary64::one());
    assert_eq!(controller.tick_index, 5);
    controller.tick_index = u64::MAX;
    assert_eq!(controller.begin_tick(None, 12).tick_index, 0);
}

#[test]
fn host_utilisation_is_a_rounded_quotient() {
    let previous = HostCpuSample { busy_ticks: 7, total_ticks: 10 };
    for (busy, total) in [(7, 10), (8, 13), (17, 1_000_010), (0, 11), (7, 5), (1 << 60, u64::MAX)] {
        let current = HostCpuSample { busy_ticks: busy, total_ticks: total };
        let spent = total.saturating_sub(10) as f64;
        let expected = if spent == 0.0 { 0.0 } else { busy.saturating_sub(7) as f64 / spent };
        assert_eq!(host_cpu_utilisation(&previous, &current), fraction(expected.clamp(0.0, 1.0)));
    }
}

#[test]
fn status_lines_come_in_order() {
    let mut controller = controller(config());
    controller.sync_instances(vec![instance("vm-b"), instance("vm-"), instance("vm-a"), instance("é")]);
    assert_eq!(controller.status_order(), vec!["vm-", "vm-a", "vm-b", "é"]);
}

#[test]
fn a_saturated_managed_pool_grows_by_one() {
    let mut controller = managed(config());
    let context = controller.begin_tick(None, 1);
    let mut engine = ThresholdEngine::new(ThresholdConfig::default());
    let status = controller.instances.get("vm").unwrap().status;
    let seen = PollFigures {
        per_thread_util: fraction(0.96),
        thread_count: status.thread_count,
        iops_total: 0,
    };
    let action = engine.evaluate("vm", &seen, &context);
    assert_eq!(action, ScaleAction::Up(3));
    assert_eq!(
        controller.apply_engine_decision("vm", action, 1),
        DecisionVerdict::Apply(ScaleRequest {
            target: 3,
            prev_thread_count: 2,
            prev_io_count_total: 6
        })
    );
}
