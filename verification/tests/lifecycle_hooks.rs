use std::collections::HashMap;

use stellar_k8s::controller::lifecycle_hooks::{
    apply_to_pod, ordered, record_report, render_metrics, run_phase, validate, Container, ExecReport, FailurePolicy,
    HookExecutor, HookOutcome, HookPhase, HookValidationError, LifecycleHook, PhaseResult, PodSpec, HOOKS_ENV,
    HOOKS_VOLUME,
};
use stellar_k8s::span::Duration;

fn hook(name: &str, phase: HookPhase, order: i32) -> LifecycleHook {
    LifecycleHook {
        name: name.into(),
        phase,
        order,
        command: vec!["true".into()],
        timeout_seconds: 5,
        failure_policy: None,
        idempotent: true,
    }
}

/// Returns a scripted outcome per hook name; default success in 10ms.
#[derive(Default)]
struct Scripted {
    outcomes: HashMap<String, (HookOutcome, Duration)>,
    ran: Vec<(String, Duration)>,
}

impl HookExecutor for Scripted {
    fn exec(&mut self, hook: &LifecycleHook, timeout: Duration) -> ExecReport {
        self.ran.push((hook.name.clone(), timeout));
        let (outcome, elapsed) = self
            .outcomes
            .get(&hook.name)
            .copied()
            .unwrap_or((HookOutcome::Succeeded, Duration::from_millis(10)));
        ExecReport { outcome, elapsed }
    }
}

fn all_phases() -> Vec<LifecycleHook> {
    vec![
        hook("migrate", HookPhase::Setup, 1),
        hook("warm-cache", HookPhase::Setup, 2),
        hook("config", HookPhase::Setup, 1),
        hook("peers", HookPhase::Readiness, 0),
        hook("sync", HookPhase::Readiness, 1),
        hook("drain", HookPhase::Teardown, 0),
        hook("flush", HookPhase::Teardown, 1),
    ]
}

fn pod() -> PodSpec {
    PodSpec {
        termination_grace_period_seconds: None,
        containers: vec![Container {
            name: "core".into(),
            image: Some("stellar/core:21".into()),
            command: vec![],
            env: vec![],
            volume_mounts: vec![],
            readiness_probe: None,
            pre_stop: None,
        }],
        init_containers: vec![],
        volumes: vec![],
    }
}

#[test]
fn order_is_deterministic() {
    let hooks = all_phases();
    let names: Vec<_> = ordered(&hooks, HookPhase::Setup).iter().map(|h| h.name.as_str()).collect();
    assert_eq!(names, vec!["config", "migrate", "warm-cache"]);
}

#[test]
fn validation_enforces_idempotency_timeouts_and_grace() {
    let mut h = all_phases();
    h[0].idempotent = false;
    assert_eq!(validate(&h, 30), Err(HookValidationError::NotIdempotent("migrate".into())));
    let mut h = all_phases();
    h[1].timeout_seconds = 0;
    assert!(matches!(validate(&h, 30), Err(HookValidationError::ZeroTimeout(_))));
    assert_eq!(
        validate(&all_phases(), 9),
        Err(HookValidationError::TeardownExceedsGrace { needed: 10, grace: 9 })
    );
    assert!(validate(&all_phases(), 30).is_ok());
    assert!(validate(&all_phases(), 10).is_ok());
}

#[test]
fn validation_reports_names_and_commands() {
    let mut h = all_phases();
    h[3].name = "migrate".into();
    let e = validate(&h, 30).unwrap_err();
    assert_eq!(e, HookValidationError::DuplicateName("migrate".into()));
    assert!(e.message().contains("migrate"));
    let mut h = all_phases();
    h[2].command.clear();
    assert_eq!(validate(&h, 30), Err(HookValidationError::EmptyCommand("config".into())));
}

#[test]
fn phases_parse_back() {
    for p in [HookPhase::Setup, HookPhase::Readiness, HookPhase::Teardown] {
        assert_eq!(HookPhase::parse(p.as_str()), Some(p));
    }
    assert_eq!(HookPhase::parse("Setup"), None);
    assert_eq!(HookPhase::Teardown.default_policy(), FailurePolicy::Warn);
    assert_eq!(HookPhase::Setup.default_policy(), FailurePolicy::Block);
}

/// Failure matrix: each phase fails in isolation under each policy.
#[test]
fn failure_matrix() {
    for phase in [HookPhase::Setup, HookPhase::Readiness, HookPhase::Teardown] {
        for policy in [FailurePolicy::Block, FailurePolicy::Warn] {
            for outcome in [HookOutcome::Failed, HookOutcome::TimedOut] {
                let mut hooks = all_phases();
                let first = ordered(&hooks, phase)[0].name.clone();
                hooks.iter_mut().find(|h| h.name == first).unwrap().failure_policy = Some(policy);
                let mut exec = Scripted::default();
                exec.outcomes.insert(first.clone(), (outcome, Duration::from_millis(250)));

                for p in [HookPhase::Setup, HookPhase::Readiness, HookPhase::Teardown] {
                    let r = run_phase(&hooks, p, None, &mut exec);
                    let expect_block = p == phase && policy == FailurePolicy::Block;
                    assert_eq!(r.blocked, expect_block, "{phase:?}/{policy:?}/{p:?}");
                    let rest = &r.results[1..];
                    if expect_block {
                        assert!(rest.iter().all(|x| x.outcome == HookOutcome::Skipped));
                    } else {
                        assert!(rest.iter().all(|x| x.outcome == HookOutcome::Succeeded));
                    }
                    if p == phase {
                        assert_eq!(r.results[0].outcome, outcome);
                        assert_eq!(r.results[0].duration_ms, 250);
                    }
                }
            }
        }
    }
}

#[test]
fn teardown_stays_within_grace_period() {
    let mut hooks = all_phases();
    hooks.push(hook("zz-last", HookPhase::Teardown, 9));
    let mut exec = Scripted::default();
    exec.outcomes.insert("drain".into(), (HookOutcome::Succeeded, Duration::from_secs(5)));
    exec.outcomes.insert("flush".into(), (HookOutcome::TimedOut, Duration::from_secs(3)));
    let r = run_phase(&hooks, HookPhase::Teardown, Some(Duration::from_secs(8)), &mut exec);
    assert!(!r.blocked, "teardown defaults to warn");
    assert_eq!(exec.ran[1], ("flush".into(), Duration::from_secs(3)));
    assert_eq!(r.results[2].outcome, HookOutcome::Skipped);
    assert_eq!(exec.ran.len(), 2, "a hook that is skipped is not executed");
    let total: u128 = r.results.iter().map(|x| x.duration_ms).sum();
    assert!(total <= 8_000);
}

#[test]
fn each_hook_is_executed_once_until_one_blocks() {
    let mut hooks = all_phases();
    hooks[2].failure_policy = Some(FailurePolicy::Block);
    let mut exec = Scripted::default();
    exec.outcomes.insert("config".into(), (HookOutcome::Failed, Duration::from_millis(1)));
    let r = run_phase(&hooks, HookPhase::Setup, None, &mut exec);
    let expected: Vec<&str> = ordered(&hooks, HookPhase::Setup).iter().map(|h| h.name.as_str()).collect();
    let failed = expected.iter().position(|name| *name == "config").unwrap();
    let ran: Vec<&str> = exec.ran.iter().map(|(name, _)| name.as_str()).collect();
    assert_eq!(ran, expected[..=failed]);
    assert!(exec.ran.iter().all(|(_, timeout)| *timeout == Duration::from_secs(5)));
    assert!(r.blocked);
    assert!(r.results[failed + 1..].iter().all(|x| x.outcome == HookOutcome::Skipped && x.duration_ms == 0));
}

#[test]
fn metrics_are_exported_per_hook() {
    let mut exec = Scripted::default();
    let r = run_phase(&all_phases(), HookPhase::Readiness, None, &mut exec);
    let text = render_metrics(&r);
    assert!(text.contains(
        "stellar_lifecycle_hook_duration_seconds{hook=\"peers\",phase=\"readiness\",outcome=\"succeeded\"} 0.010"
    ));
    assert!(text.contains("stellar_lifecycle_phase_blocked{phase=\"readiness\"} 0"));
}

#[test]
fn apply_to_pod_wires_runner() {
    let mut spec = pod();
    apply_to_pod(&mut spec, "core", "stellar/operator:1", &all_phases(), Ok("[]".into())).unwrap();
    let init = &spec.init_containers;
    assert_eq!(init[0].name, "stellar-hooks-install");
    assert_eq!(init[1].image.as_deref(), Some("stellar/core:21"));
    let main = &spec.containers[0];
    assert!(main.readiness_probe.as_ref().unwrap().action.is_some());
    assert!(main.pre_stop.is_some());
    assert!(main.env.iter().any(|e| e.name == HOOKS_ENV));
    assert_eq!(spec.volumes[0].name, HOOKS_VOLUME);

    let mut again = spec.clone();
    assert!(apply_to_pod(&mut again, "core", "x", &all_phases(), Ok("[]".into())).is_err());
}

#[test]
fn apply_to_pod_refuses_unknown_containers() {
    let mut spec = pod();
    assert!(apply_to_pod(&mut spec, "nope", "x", &all_phases(), Ok("[]".into())).is_err());
    let mut spec = pod();
    assert!(apply_to_pod(&mut spec, "core", "x", &all_phases(), Err("bad".into())).is_err());
}

#[test]
fn long_readiness_hooks_bind_only_where_a_probe_is_written() {
    let mut hooks = all_phases();
    hooks[3].timeout_seconds = u64::MAX;
    let mut spec = pod();
    assert_eq!(
        apply_to_pod(&mut spec, "nope", "x", &hooks, Ok("[]".into())),
        Err("container 'nope' not found".to_string()),
    );
    let mut spec = pod();
    apply_to_pod(&mut spec, "core", "x", &all_phases(), Ok("[]".into())).unwrap();
    assert_eq!(
        apply_to_pod(&mut spec, "core", "x", &hooks, Ok("[]".into())),
        Err("container 'core' already has a readinessProbe".to_string()),
    );
}

#[test]
fn reports_are_recorded() {
    let mut phase = PhaseResult { phase: HookPhase::Setup, blocked: false, results: vec![] };
    let report = ExecReport { outcome: HookOutcome::TimedOut, elapsed: Duration::from_millis(1_500) };
    record_report(&mut phase, &hook("migrate", HookPhase::Setup, 1), Some(report));
    assert!(phase.blocked);
    assert_eq!(phase.results[0].outcome, HookOutcome::TimedOut);
    assert_eq!(phase.results[0].duration_ms, 1_500);
    record_report(&mut phase, &hook("warm-cache", HookPhase::Setup, 2), None);
    assert_eq!(phase.results[1].name, "warm-cache");
    assert_eq!(phase.results[1].outcome, HookOutcome::Skipped);
    assert_eq!(phase.results[1].duration_ms, 0);
}
