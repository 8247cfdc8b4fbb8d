//! The threshold engine.

use io_thread_controller::backends::BackendClientError;
use io_thread_controller::binary64::Binary64;
use io_thread_controller::config::ConfigError;
use io_thread_controller::engines::threshold::{
    InstanceState, PendingValidation, PollFigures, ThresholdConfig, ThresholdEngine, ENGINE_NAME,
};
use io_thread_controller::engines::{
    AppliedOutcome, BlockedReason, EngineTickContext, ScaleAction,
};
use io_thread_controller::instance::{InstancePerfSample, InstanceStatus};

fn fraction(x: f64) -> Binary64 {
    Binary64::from_bits(x.to_bits())
}

fn value(x: Binary64) -> f64 {
    f64::from_bits(x.bits)
}

fn context() -> EngineTickContext {
    EngineTickContext {
        now: 1_000_000_000,
        min_thread_count: 2,
        max_thread_count: 8,
        host_cpu_util: Binary64::zero(),
        tick_index: 0,
    }
}

fn evaluate(engine: &mut ThresholdEngine, threads: u32, util: f64, iops: u64) -> ScaleAction {
    let seen = PollFigures { per_thread_util: fraction(util), thread_count: threads, iops_total: iops };
    engine.evaluate("vm-1", &seen, &context())
}

fn engine() -> ThresholdEngine {
    let mut cfg = ThresholdConfig::default();
    cfg.scale_up_threshold = fraction(0.8);
    cfg.scale_up_min_gain = fraction(0.05);
    cfg.scale_validation_sample_polls = 0;
    ThresholdEngine::new(cfg)
}

fn success(action: ScaleAction, threads: u32, iops: u64) -> AppliedOutcome {
    AppliedOutcome::Success {
        action,
        prev_thread_count: threads,
        prev_io_count_total: iops,
    }
}

/// An IOPS-rate drop after scale-up triggers revert.
#[test]
fn scale_up_revert_fires_on_iops_rate_drop() {
    let mut engine = engine();
    engine.on_instance_added("vm-1");
    engine.on_applied("vm-1", &success(ScaleAction::Up(6), 5, 155_000));
    assert_eq!(evaluate(&mut engine, 6, 0.6, 122_000), ScaleAction::Revert(5));
}

/// Flat post-scale IOPS during validation triggers revert.
#[test]
fn scale_up_flat_rate_reverts() {
    let mut engine = engine();
    engine.on_instance_added("vm-1");
    engine.on_applied("vm-1", &success(ScaleAction::Up(4), 3, 100_000));
    assert_eq!(evaluate(&mut engine, 4, 0.6, 101_000), ScaleAction::Revert(3));
}

/// While a prior scale-up is pending validation, further scale-ups are suppressed.
#[test]
fn no_scale_up_during_pending_validation() {
    let mut engine = engine();
    engine.on_instance_added("vm-1");
    engine.on_applied("vm-1", &success(ScaleAction::Up(5), 4, 149_000));
    for _ in 0..engine.config().scale_validation_sample_polls {
        assert_eq!(evaluate(&mut engine, 5, 0.88, 160_000), ScaleAction::Hold);
    }
    assert_eq!(evaluate(&mut engine, 5, 0.88, 160_000), ScaleAction::Up(6));
}

/// A scale-up is reverted after the validation period if performance does not
/// increase much.
#[test]
fn pending_validation_reverts_regressive_scale() {
    let mut engine = engine();
    engine.on_instance_added("vm-1");
    engine.on_applied("vm-1", &success(ScaleAction::Up(5), 4, 149_000));
    for _ in 0..engine.config().scale_validation_sample_polls {
        assert_eq!(evaluate(&mut engine, 5, 0.88, 140_000), ScaleAction::Hold);
    }
    assert_eq!(evaluate(&mut engine, 5, 0.88, 140_000), ScaleAction::Revert(4));
}

/// A missing settings file still builds an engine with defaults.
#[test]
fn missing_config_file_uses_defaults() {
    let engine = match ThresholdEngine::from_config_dir(None) {
        Ok(engine) => engine,
        Err(error) => panic!("{error:?}"),
    };
    assert_eq!(ENGINE_NAME, "threshold");
    let _ = engine.config();
    assert_eq!(*engine.config(), ThresholdConfig::default());
}

/// CPU utilisation below scale-up/down thresholds yields no action.
#[test]
fn evaluate_holds_when_util_below_thresholds() {
    let mut engine = ThresholdEngine::new(ThresholdConfig::default());
    assert_eq!(evaluate(&mut engine, 0, 0.0, 0), ScaleAction::Hold);
}

#[test]
fn defaults_are_the_documented_ones() {
    let cfg = ThresholdConfig::default();
    assert_eq!(value(cfg.scale_up_threshold), 0.95);
    assert_eq!(cfg.scale_down_sustain_polls, 3);
    assert_eq!(cfg.max_scale_down_step, 0);
    assert_eq!(value(cfg.scale_up_min_gain), 0.05);
    assert_eq!(value(cfg.scale_down_revert_drop), 0.05);
    assert_eq!(cfg.scale_validation_sample_polls, 2);
    assert!(cfg.validate().is_ok());
}

fn complaint(cfg: ThresholdConfig) -> String {
    match ThresholdEngine::from_config_dir(Some(Ok(cfg))) {
        Err(ConfigError::InvalidValue(text)) => text,
        Err(other) => panic!("{other:?}"),
        Ok(_) => String::new(),
    }
}

#[test]
fn unusable_percentages_are_rejected() {
    for bad in [0.0, -0.5, 1.5, f64::NAN, f64::INFINITY] {
        let mut cfg = ThresholdConfig::default();
        cfg.scale_up_threshold = fraction(bad);
        assert_eq!(complaint(cfg), "scale_up_threshold_percent must be in (0, 100]");
    }
    for bad in [-0.1, 1.1, f64::NAN, f64::NEG_INFINITY] {
        let mut cfg = ThresholdConfig::default();
        cfg.scale_up_min_gain = fraction(bad);
        assert_eq!(complaint(cfg), "scale_up_min_gain_percent must be in [0, 100]");
        let mut cfg = ThresholdConfig::default();
        cfg.scale_down_revert_drop = fraction(bad);
        assert_eq!(complaint(cfg), "scale_down_revert_drop_percent must be in [0, 100]");
    }
    for good in [0.0, -0.0, 1.0, 0.5] {
        let mut cfg = ThresholdConfig::default();
        cfg.scale_up_min_gain = fraction(good);
        cfg.scale_down_revert_drop = fraction(good);
        assert_eq!(complaint(cfg), "");
    }
    match ThresholdEngine::from_config_dir(Some(Err(ConfigError::Parse("x".to_string())))) {
        Err(error) => assert_eq!(error.message(), "parse: x"),
        Ok(_) => panic!("accepted"),
    }
}

#[test]
fn validation_waits_for_its_samples() {
    let mut engine = ThresholdEngine::new(ThresholdConfig::default());
    engine.on_instance_added("vm-1");
    engine.on_applied("vm-1", &success(ScaleAction::Down(3), 4, 1000));
    assert_eq!(evaluate(&mut engine, 3, 1.0, 0), ScaleAction::Hold);
    assert_eq!(evaluate(&mut engine, 3, 1.0, 0), ScaleAction::Hold);
    assert_eq!(
        engine.instance_state("vm-1").pending_validation,
        Some(PendingValidation {
            action: ScaleAction::Down(3),
            baseline_thread_count: 4,
            baseline_iops: 1000,
            polls_remaining: 0,
        })
    );
    assert_eq!(evaluate(&mut engine, 3, 1.0, 949), ScaleAction::Revert(4));
    assert_eq!(engine.instance_state("vm-1").pending_validation, None);
}

#[test]
fn tolerated_loss_is_kept() {
    let mut engine = engine();
    engine.on_instance_added("vm-1");
    engine.on_applied("vm-1", &success(ScaleAction::Down(3), 4, 1000));
    assert_eq!(evaluate(&mut engine, 3, 0.9, 950), ScaleAction::Up(4));
}

#[test]
fn zero_baseline_is_never_reverted() {
    let mut engine = engine();
    engine.on_instance_added("vm-1");
    engine.on_applied("vm-1", &success(ScaleAction::Up(4), 3, 0));
    assert_eq!(evaluate(&mut engine, 4, 0.1, 0), ScaleAction::Hold);
}

#[test]
fn zero_percent_disables_validation() {
    let mut cfg = ThresholdConfig::default();
    cfg.scale_up_min_gain = Binary64::zero();
    cfg.scale_down_revert_drop = Binary64::zero();
    let mut engine = ThresholdEngine::new(cfg);
    engine.on_instance_added("vm-1");
    assert_eq!(evaluate(&mut engine, 4, 0.1, 0), ScaleAction::Hold);
    assert_eq!(engine.instance_state("vm-1").low_util_polls, 1);
    engine.on_applied("vm-1", &success(ScaleAction::Up(5), 4, 1000));
    assert_eq!(engine.instance_state("vm-1"), InstanceState::new());
    engine.on_applied("vm-1", &success(ScaleAction::Down(3), 4, 1000));
    assert_eq!(engine.instance_state("vm-1"), InstanceState::new());
}

#[test]
fn scale_down_needs_a_sustained_run() {
    let mut engine = ThresholdEngine::new(ThresholdConfig::default());
    assert_eq!(evaluate(&mut engine, 6, 0.2, 0), ScaleAction::Hold);
    assert_eq!(evaluate(&mut engine, 6, 0.2, 0), ScaleAction::Hold);
    assert_eq!(evaluate(&mut engine, 6, 0.9, 0), ScaleAction::Hold);
    assert_eq!(evaluate(&mut engine, 6, 0.2, 0), ScaleAction::Hold);
    assert_eq!(evaluate(&mut engine, 6, 0.2, 0), ScaleAction::Hold);
    assert_eq!(evaluate(&mut engine, 6, 0.2, 0), ScaleAction::Down(2));
    assert_eq!(evaluate(&mut engine, 6, 0.2, 0), ScaleAction::Down(2));
}

#[test]
fn blocked_and_failed_actions_keep_the_evidence() {
    let mut engine = ThresholdEngine::new(ThresholdConfig::default());
    for _ in 0..2 {
        evaluate(&mut engine, 6, 0.2, 0);
    }
    engine.on_applied(
        "vm-1",
        &AppliedOutcome::Blocked {
            action: ScaleAction::Down(2),
            reason: BlockedReason::Cooldown,
        },
    );
    engine.on_applied(
        "vm-1",
        &AppliedOutcome::Failed {
            action: ScaleAction::Down(2),
            error: BackendClientError::Transport("x".to_string()),
        },
    );
    assert_eq!(engine.instance_state("vm-1").low_util_polls, 2);
    engine.on_applied(
        "vm-1",
        &AppliedOutcome::DryRun {
            action: ScaleAction::Down(2),
            prev_thread_count: 6,
            prev_io_count_total: 10,
        },
    );
    assert_eq!(engine.instance_state("vm-1").low_util_polls, 0);
    assert!(engine.instance_state("vm-1").pending_validation.is_some());
    engine.on_applied("vm-1", &success(ScaleAction::Revert(6), 2, 10));
    assert!(engine.instance_state("vm-1").pending_validation.is_some());
}

#[test]
fn down_target_respects_minimum_and_step() {
    let mut cfg = ThresholdConfig::default();
    cfg.scale_up_threshold = fraction(0.5);
    let unlimited = ThresholdEngine::new(cfg);
    let util = |x: f64| fraction(x);
    assert_eq!(unlimited.scale_down_target(util(0.1875), 8, 2), 3);
    assert_eq!(unlimited.scale_down_target(util(0.1876), 8, 2), 4);
    assert_eq!(unlimited.scale_down_target(util(0.0), 8, 2), 2);
    assert_eq!(unlimited.scale_down_target(util(0.9), 8, 2), 8);
    assert_eq!(unlimited.scale_down_target(util(0.0), 2, 4), 2);
    assert_eq!(unlimited.scale_down_target(util(0.0), 8, 0), 1);
    cfg.max_scale_down_step = 2;
    let stepped = ThresholdEngine::new(cfg);
    assert_eq!(stepped.scale_down_target(util(0.0), 8, 2), 6);
    assert_eq!(stepped.scale_down_target(util(0.4), 8, 2), 7);
    assert_eq!(stepped.scale_down_target(util(f64::NAN), 1, 0), 0);
    cfg.max_scale_down_step = 100;
    assert_eq!(ThresholdEngine::new(cfg).scale_down_target(util(0.0), 8, 2), 2);
}

/// The pool size as the processor's own arithmetic has it.
fn expected_target(util: f64, threshold: f64, threads: u32) -> u32 {
    let load = util * f64::from(threads);
    let required = (load / threshold).ceil().clamp(1.0, f64::from(u32::MAX)) as u32;
    required.min(threads)
}

#[test]
fn required_workers_are_load_over_threshold() {
    let utils = [
        0.0, -0.0, -1.0, 1e-310, 5e-324, 0.05, 0.1, 0.19, 0.3, 0.475, 0.57, 0.7, 0.95, 1.0, 1.5, 1e300,
        1.7e308, f64::INFINITY, f64::NEG_INFINITY, f64::NAN,
    ];
    let thresholds = [5e-324, 1e-310, 1e-9, 0.05, 0.1, 0.3, 0.8, 0.95, 0.999, 1.0];
    for threshold in thresholds {
        let mut cfg = ThresholdConfig::default();
        cfg.scale_up_threshold = fraction(threshold);
        let engine = ThresholdEngine::new(cfg);
        for util in utils {
            for threads in [0, 1, 2, 3, 7, 10, 19, 64, 1000, u32::MAX] {
                assert_eq!(
                    engine.scale_down_target(fraction(util), threads, 0),
                    expected_target(util, threshold, threads),
                    "{util} {threshold} {threads}"
                );
            }
        }
    }
}

#[test]
fn required_iops_are_the_baseline_with_its_tolerance() {
    let tolerances = [5e-324, 1e-17, 0.01, 0.05, 0.1, 0.333, 0.999, 1.0];
    let baselines = [1, 3, 149_000, 155_000, (1 << 53) + 1, u64::MAX];
    for tolerance in tolerances {
        let mut cfg = ThresholdConfig::default();
        cfg.scale_up_min_gain = fraction(tolerance);
        cfg.scale_down_revert_drop = fraction(tolerance);
        let engine = ThresholdEngine::new(cfg);
        for baseline_iops in baselines {
            let mut pending = PendingValidation {
                action: ScaleAction::Up(2),
                baseline_thread_count: 1,
                baseline_iops,
                polls_remaining: 0,
            };
            let up = baseline_iops as f64 * (1.0 + tolerance);
            assert_eq!(value(engine.iops_requirement(&pending)), up);
            pending.action = ScaleAction::Down(2);
            let down = baseline_iops as f64 * (1.0 - tolerance);
            assert_eq!(value(engine.iops_requirement(&pending)), down);
            for observed in [0, 1, 148_999, 149_000, 1 << 53, u64::MAX] {
                let failed = (observed as f64) < down;
                assert_eq!(engine.validation_revert_target(observed, &pending).is_some(), failed);
            }
            pending.action = ScaleAction::Revert(2);
            assert_eq!(engine.validation_revert_target(0, &pending), None);
        }
    }
}

#[test]
fn loaded_pools_are_not_shrunk() {
    for threshold in [1e-300, 0.1, 0.3, 0.7, 0.8, 0.95, 1.0] {
        let mut cfg = ThresholdConfig::default();
        cfg.scale_up_threshold = fraction(threshold);
        let engine = ThresholdEngine::new(cfg);
        for threads in [1, 3, 7, 49, 1_000_003, u32::MAX] {
            assert_eq!(engine.scale_down_target(fraction(threshold), threads, 0), threads);
            assert_eq!(engine.scale_down_target(fraction(1.0), threads, 0), threads);
        }
    }
}

#[test]
fn more_load_needs_no_fewer_workers() {
    let engine = engine();
    let mut last = 0;
    for step in 0..=1000 {
        let target = engine.scale_down_target(fraction(f64::from(step) / 1000.0), 640, 0);
        assert!(target >= last);
        last = target;
    }
    assert_eq!(last, 640);
    assert_eq!(engine.scale_down_target(fraction(0.4), 640, 0), 320);
}

#[test]
fn gains_and_losses_are_told_apart() {
    let engine = engine();
    let mut pending = PendingValidation {
        action: ScaleAction::Down(3),
        baseline_thread_count: 4,
        baseline_iops: 100_000,
        polls_remaining: 0,
    };
    assert_eq!(engine.validation_revert_target(100_000, &pending), None);
    assert_eq!(engine.validation_revert_target(95_000, &pending), None);
    assert_eq!(engine.validation_revert_target(94_999, &pending), Some(4));
    pending.action = ScaleAction::Up(5);
    assert_eq!(engine.validation_revert_target(99_999, &pending), Some(4));
    assert_eq!(engine.validation_revert_target(104_999, &pending), Some(4));
    assert_eq!(engine.validation_revert_target(105_000, &pending), None);
}

#[test]
fn figures_are_read_off_a_status() {
    let mut status = InstanceStatus::default();
    status.thread_count = 3;
    status.per_thread_util = fraction(0.25);
    let blank = PollFigures { per_thread_util: fraction(0.25), thread_count: 3, iops_total: 0 };
    assert_eq!(PollFigures::of(&status), blank);
    let mut perf = InstancePerfSample::default();
    perf.read_io_count = 5;
    perf.write_io_count = 6;
    perf.other_io_count = 7;
    status.perf = Some(perf);
    assert_eq!(PollFigures::of(&status).iops_total, 18);
}

#[test]
fn scale_up_stops_at_the_maximum() {
    let mut engine = engine();
    assert_eq!(evaluate(&mut engine, 7, 0.81, 0), ScaleAction::Up(8));
    assert_eq!(evaluate(&mut engine, 8, 1.0, 0), ScaleAction::Hold);
    assert_eq!(evaluate(&mut engine, 7, 0.8, 0), ScaleAction::Hold);
}

#[test]
fn state_belongs_to_each_vm() {
    let mut engine = engine();
    engine.on_instance_added("vm-1");
    engine.on_instance_added("vm-2");
    engine.on_applied("vm-2", &success(ScaleAction::Up(4), 3, 9));
    engine.on_applied("vm-3", &success(ScaleAction::Up(4), 3, 9));
    assert_eq!(engine.instance_state("vm-1"), InstanceState::new());
    assert!(engine.instance_state("vm-2").pending_validation.is_some());
    assert_eq!(engine.instance_state("vm-3"), InstanceState::new());
    engine.on_instance_added("vm-2");
    assert!(engine.instance_state("vm-2").pending_validation.is_some());
    engine.on_instance_removed("vm-2");
    engine.on_instance_removed("vm-2");
    assert_eq!(engine.instance_state("vm-2"), InstanceState::new());
}

#[test]
fn actions_name_their_target() {
    let actions = [
        (ScaleAction::Up(3), Some(3), "up", true),
        (ScaleAction::Down(2), Some(2), "down", true),
        (ScaleAction::Revert(1), Some(1), "revert", false),
        (ScaleAction::Hold, None, "hold", false),
    ];
    for (action, target, text, ordinary) in actions {
        assert_eq!(action.target(), target);
        assert_eq!(action.to_text(), text);
        assert_eq!(action.is_ordinary(), ordinary);
    }
}
