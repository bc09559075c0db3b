use stellar_k8s::error::Error;
use stellar_k8s::latency::attribution::{
    determine_confidence, service_selector, AttributionConfidence, AttributionConfig, ChangeAttributor, ChangeType,
    FoundDeployment, FoundResource,
};
use stellar_k8s::latency::canary::{
    CanaryAnalyzer, CanaryAssessment, CanaryConfig, CanaryPhase, CanaryRecommendation, CanaryResult, ErrorReadings,
};
use stellar_k8s::latency::deploy_marker::{
    assemble_marker, bare_marker, create_marker_from_annotation, deploy_labels, marker_config_map, DeployMarker, DeployMarkerConfig,
    DeployMarkerEmitter, DeploymentStrategy,
};
use stellar_k8s::latency::sli_tracker::{DeltaFigures, LatencySLITracker, SLIConfig, SLIValue, SLIWindow};
use stellar_k8s::reading::Reading;
use stellar_k8s::span::Duration;
use stellar_k8s::strmap::StrMap;

const NOON: i64 = 1_735_732_800_000_000;
const MINUTE: i64 = 60_000_000;

fn reading(x: f64) -> Reading {
    Reading { bits: x.to_bits() }
}

fn number(r: Reading) -> f64 {
    f64::from_bits(r.bits)
}

fn labels(pairs: &[(&str, &str)]) -> StrMap<String> {
    let mut m = StrMap::new();
    for (k, v) in pairs {
        m.insert(k.to_string(), v.to_string());
    }
    m
}

fn sli(name: &str, service: &str, window: SLIWindow) -> SLIConfig {
    SLIConfig {
        name: name.to_string(),
        service: service.to_string(),
        threshold_ms: reading(500.0),
        target_percentage: reading(99.9),
        window,
        labels: StrMap::new(),
    }
}

fn marker(id: &str, service: &str, baseline: Option<f64>) -> DeployMarker {
    let mut m = bare_marker(id, service, "production", "abc123def456");
    if let Some(b) = baseline {
        m.pre_deploy_baselines.insert("p99".to_string(), reading(b));
    }
    m
}

#[test]
fn test_sli_tracker_basic() {
    let mut tracker = LatencySLITracker::new();
    tracker.register_sli(sli("api_latency_p99", "api-gateway", SLIWindow::FiveMinutes));
    assert!(tracker.get_sli_value("api_latency_p99").is_none());
    match tracker.recalculate_sli("api_latency_p99") {
        Ok(SLIValue::Target(t)) => assert_eq!(number(t), 99.9),
        _ => {}
    }
    for i in 0..100 {
        tracker
            .record_latency("api_latency_p99", reading(i as f64 * 5.0), labels(&[("endpoint", "/api/test")]), NOON)
            .unwrap_or_else(|_| panic!("not recorded"));
    }
    match tracker.get_sli_value("api_latency_p99").unwrap() {
        SLIValue::Share { under, total } => {
            assert!(under as f64 / total as f64 * 100.0 > 0.0);
            assert_eq!((under, total), (100, 100));
        }
        _ => panic!("expected a share"),
    }
    assert!(tracker.get_sli_value("other").is_none());
    match tracker.record_latency("other", reading(1.0), StrMap::new(), NOON) {
        Err(Error::NotFound(_)) => {}
        _ => panic!("expected an error"),
    }
}

#[test]
fn samples_leave_the_window() {
    let mut tracker = LatencySLITracker::new();
    tracker.register_sli(sli("p99", "api", SLIWindow::FiveMinutes));
    tracker.record_latency("p99", reading(900.0), StrMap::new(), NOON).unwrap_or_else(|_| panic!("lost"));
    tracker.record_latency("p99", reading(10.0), StrMap::new(), NOON + 6 * MINUTE).unwrap_or_else(|_| panic!("lost"));
    match tracker.recalculate_sli("p99") {
        Ok(SLIValue::Share { under, total }) => assert_eq!((under, total), (1, 1)),
        _ => panic!("expected a share"),
    }
    assert_eq!(tracker.get_all_slis().len(), 1);
}

#[test]
fn test_sli_window_duration() {
    assert_eq!(SLIWindow::FiveMinutes.duration(), Duration::from_secs(300));
    assert_eq!(SLIWindow::OneHour.duration(), Duration::from_secs(3600));
    assert_eq!(SLIWindow::Custom(123).duration(), Duration::from_secs(123));
}

#[test]
fn deltas_compare_with_the_baseline() {
    let mut tracker = LatencySLITracker::new();
    tracker.register_sli(sli("p99", "api", SLIWindow::OneHour));
    tracker.record_latency("p99", reading(10.0), StrMap::new(), NOON).unwrap_or_else(|_| panic!("lost"));
    tracker.record_latency("p99", reading(900.0), StrMap::new(), NOON).unwrap_or_else(|_| panic!("lost"));
    let m = marker("d1", "api", Some(99.0));
    let figures =
        DeltaFigures { current_value: reading(50.0), delta: reading(-49.0), delta_percentage: reading(-49.49) };
    let delta = match tracker.calculate_delta("p99", &m, &figures, NOON) {
        Ok(Some(d)) => d,
        _ => panic!("expected a delta"),
    };
    assert_eq!(number(delta.pre_deploy_value), 99.0);
    assert_eq!(number(delta.post_deploy_value), 50.0);
    assert!(delta.is_regression);
    assert_eq!(delta.deploy_marker_id, "d1");
    assert!(tracker.calculate_delta("missing", &m, &figures, NOON).is_err());
}

#[test]
fn test_canary_config_defaults() {
    let config = CanaryConfig::default();
    assert_eq!(config.traffic_percentage, 10);
    assert_eq!(number(config.regression_threshold), 1.0);
    assert_eq!(number(config.error_rate_threshold), 0.01);
    assert_eq!(config.min_samples, 100);
    assert_eq!(config.duration, Duration::from_secs(1800));
}

fn canary(config: CanaryConfig) -> CanaryAnalyzer {
    let mut analyzer = CanaryAnalyzer::new(config);
    let started =
        analyzer.start_canary(&mut LatencySLITracker::new(), marker("d1", "api", None), &vec![], NOON);
    assert_eq!(started.phase, CanaryPhase::Running);
    analyzer
}

#[test]
fn canaries_run_until_there_is_enough_to_judge() {
    let mut config = CanaryConfig::default();
    config.min_samples = 2;
    let mut analyzer = canary(config);
    let tracker = LatencySLITracker::new();
    let errors = ErrorReadings { error_rate: reading(0.0), half_threshold: reading(0.005) };
    let (r, outcome) = analyzer
        .analyze_canary(&tracker, "d1", &vec![], &errors, NOON + MINUTE)
        .unwrap_or_else(|_| panic!("unknown canary"));
    assert_eq!(r.phase, CanaryPhase::Running);
    assert!(outcome.is_none());
    analyzer.record_sample("d1", false);
    analyzer.record_sample("d1", true);
    let status = analyzer.get_canary_status("d1").unwrap();
    assert_eq!((status.sample_count, status.error_count), (2, 1));
    assert_eq!(analyzer.list_active_canaries().len(), 1);
    assert!(analyzer.get_canary_status("d2").is_none());
}

#[test]
fn bad_canaries_are_rolled_back() {
    let mut tracker = LatencySLITracker::new();
    tracker.register_sli(sli("p99", "api", SLIWindow::OneHour));
    tracker.record_latency("p99", reading(900.0), StrMap::new(), NOON).unwrap_or_else(|_| panic!("lost"));
    let mut config = CanaryConfig::default();
    config.sli_names = vec!["p99".to_string()];
    config.auto_rollback = true;
    let mut analyzer = CanaryAnalyzer::new(config);
    assert_eq!(tracker.values(&analyzer.config.sli_names).len(), 1);
    analyzer.start_canary(&mut tracker, marker("d1", "api", None), &vec![reading(99.0)], NOON);
    analyzer.record_sample("d1", true);
    assert_eq!(analyzer.canary_bases(&tracker, "d1").unwrap_or_else(|_| panic!("unknown canary")).len(), 1);
    let figures =
        vec![DeltaFigures { current_value: reading(0.0), delta: reading(-99.0), delta_percentage: reading(-100.0) }];
    let errors = ErrorReadings { error_rate: reading(1.0), half_threshold: reading(0.005) };
    let (r, outcome) = analyzer
        .analyze_canary(&tracker, "d1", &figures, &errors, NOON + 31 * MINUTE)
        .unwrap_or_else(|_| panic!("unknown canary"));
    assert_eq!(r.overall_assessment, CanaryAssessment::Critical);
    assert_eq!(r.recommendation, CanaryRecommendation::Rollback);
    assert!(r.regression_detected);
    assert_eq!(r.phase, CanaryPhase::RolledBack);
    assert_eq!(outcome.unwrap().duration_seconds, 31 * 60);
    assert!(analyzer.list_active_canaries().is_empty());
    match analyzer.analyze_canary(&tracker, "d1", &vec![], &errors, NOON) {
        Err(e) => assert!(e.message().starts_with("Canary not found: ")),
        _ => panic!("expected an error"),
    }
}

fn slightly_worse(config: CanaryConfig, samples: usize) -> CanaryResult {
    let mut tracker = LatencySLITracker::new();
    tracker.register_sli(sli("p99", "api", SLIWindow::OneHour));
    tracker.record_latency("p99", reading(900.0), StrMap::new(), NOON).unwrap_or_else(|_| panic!("lost"));
    let mut analyzer = CanaryAnalyzer::new(config);
    analyzer.start_canary(&mut tracker, marker("d1", "api", None), &vec![reading(99.0)], NOON);
    for _ in 0..samples {
        analyzer.record_sample("d1", false);
    }
    let figures =
        vec![DeltaFigures { current_value: reading(97.0), delta: reading(-2.0), delta_percentage: reading(-2.0) }];
    let errors = ErrorReadings { error_rate: reading(0.0), half_threshold: reading(0.005) };
    analyzer
        .analyze_canary(&tracker, "d1", &figures, &errors, NOON + 31 * MINUTE)
        .unwrap_or_else(|_| panic!("unknown canary"))
        .0
}

fn watched(threshold: f64, auto: bool) -> CanaryConfig {
    let mut config = CanaryConfig::default();
    config.sli_names = vec!["p99".to_string()];
    config.regression_threshold = reading(threshold);
    config.min_samples = 3;
    config.auto_promote = auto;
    config.auto_rollback = auto;
    config
}

#[test]
fn the_regression_threshold_decides() {
    let r = slightly_worse(watched(5.0, true), 3);
    assert!(!r.regression_detected);
    assert_eq!(r.recommendation, CanaryRecommendation::Promote);
    assert_eq!(r.phase, CanaryPhase::Promoted);
    let r = slightly_worse(watched(1.0, true), 3);
    assert!(r.regression_detected);
    assert_eq!(r.recommendation, CanaryRecommendation::Rollback);
    assert_eq!(r.phase, CanaryPhase::RolledBack);
}

#[test]
fn canaries_wait_for_samples_and_for_leave() {
    assert_eq!(slightly_worse(watched(5.0, true), 2).phase, CanaryPhase::Analyzing);
    assert_eq!(slightly_worse(watched(5.0, false), 3).phase, CanaryPhase::Analyzing);
    assert_eq!(slightly_worse(watched(1.0, false), 3).phase, CanaryPhase::Analyzing);
}

#[test]
fn test_attribution_config_defaults() {
    let config = AttributionConfig::default();
    assert_eq!(config.lookback_window, Duration::from_secs(24 * 3600));
    assert_eq!(number(config.correlation_threshold), 0.7);
}

#[test]
fn regressions_are_attributed() {
    let mut attributor = ChangeAttributor::new(AttributionConfig::default()).with_namespace("prod".to_string());
    let maps = vec![
        FoundResource { name: "cfg".to_string(), namespace: Some("prod".to_string()), created: Some(NOON) },
        FoundResource { name: "old".to_string(), namespace: Some("prod".to_string()), created: Some(0) },
    ];
    let config_changes = attributor.find_config_changes(&maps, &vec![], NOON - MINUTE);
    assert_eq!(config_changes.len(), 1);
    assert_eq!(config_changes[0].description, "ConfigMap cfg updated");
    let scaling = attributor
        .find_scaling_events(&vec![FoundDeployment { name: "api".to_string(), replicas: Some(3) }], NOON);
    let a = attributor.attribute_regression(
        "p99",
        &marker("d1", "api", None),
        reading(-2.0),
        config_changes,
        scaling,
        reading(0.95),
        NOON,
    );
    assert_eq!(a.attributed_changes[0].change_type, ChangeType::CodeDeployment);
    assert_eq!(a.attributed_changes[0].description, "Deployment of api@abc123de");
    assert_eq!(a.attributed_changes.len(), 2, "a correlation of 0.6 is below the minimum of 0.7");
    assert_eq!(a.attributed_changes[1].change_type, ChangeType::ConfigChange);
    assert_eq!(a.confidence, AttributionConfidence::High);
    assert_eq!(attributor.get_for_deploy("d1").len(), 1);
    assert_eq!(attributor.get_for_sli("p50").len(), 0);
    assert!(service_selector("api").contains("api"));
}

#[test]
fn the_minimum_correlation_decides_what_is_attributed() {
    let found = vec![FoundDeployment { name: "api".to_string(), replicas: Some(3) }];
    for (minimum, events, expected) in [(0.6, true, 2), (0.61, true, 1), (0.6, false, 1)] {
        let mut config = AttributionConfig::default();
        config.correlation_threshold = reading(minimum);
        config.enable_k8s_events = events;
        let mut attributor = ChangeAttributor::new(config);
        let scaling = attributor.find_scaling_events(&found, NOON);
        let marker = marker("d1", "api", None);
        let a = attributor.attribute_regression("p99", &marker, reading(-2.0), vec![], scaling, reading(0.8), NOON);
        assert_eq!(a.attributed_changes.len(), expected);
    }
}

#[test]
fn confidence_needs_a_score() {
    let none = vec![];
    assert_eq!(determine_confidence(&reading(0.95), &none), AttributionConfidence::Medium);
    assert_eq!(determine_confidence(&reading(0.7), &none), AttributionConfidence::Medium);
    assert_eq!(determine_confidence(&reading(0.5), &none), AttributionConfidence::Low);
    assert_eq!(determine_confidence(&reading(0.49), &none), AttributionConfidence::Absent);
    assert_eq!(determine_confidence(&reading(f64::NAN), &none), AttributionConfidence::Absent);
}

#[test]
fn test_deploy_marker_creation() {
    let marker = DeployMarker {
        id: "test-123".to_string(),
        timestamp: NOON,
        service: "api-gateway".to_string(),
        environment: "production".to_string(),
        commit_sha: "abc123".to_string(),
        git_ref: Some("main".to_string()),
        version: Some("v1.2.3".to_string()),
        strategy: DeploymentStrategy::Canary,
        deployed_by: Some("ci-bot".to_string()),
        change_ids: vec!["PR-456".to_string()],
        metadata: StrMap::new(),
        pre_deploy_baselines: StrMap::new(),
    };
    let l = deploy_labels(&marker);
    assert_eq!((l.service.as_str(), l.strategy.as_str()), ("api-gateway", "Canary"));
    let map = marker_config_map("observability", &marker, "{}");
    let metadata = map.get("metadata").unwrap();
    assert_eq!(metadata.get("name").unwrap().as_str(), Some("deploy-marker-test-123"));
    let annotations = metadata.get("annotations").unwrap();
    assert_eq!(annotations.get("observability.stellar.org/commit-sha").unwrap().as_str(), Some("abc123"));
    assert_eq!(
        annotations.get("observability.stellar.org/timestamp").unwrap().as_str(),
        Some("2025-01-01T12:00:00+00:00")
    );
    assert_eq!(DeploymentStrategy::Custom("my-strategy".to_string()).name(), "Custom(\"my-strategy\")");
}

#[test]
fn emitted_markers_are_completed_and_kept() {
    let mut config = DeployMarkerConfig::default();
    config.default_labels.insert("region".to_string(), "eu".to_string());
    let mut emitter = DeployMarkerEmitter::new(config);
    let out = emitter.emit_as(bare_marker("", "api", "prod", "abc"), "id-1".to_string(), NOON);
    assert_eq!(out.id, "id-1");
    assert_eq!(out.timestamp, NOON);
    assert_eq!(out.metadata.get("region"), Some(&"eu".to_string()));
    let fresh = emitter.emit(bare_marker("", "web", "prod", "def"));
    assert_eq!(fresh.id.len(), 36);
    assert!(fresh.timestamp > NOON);
    let start = emitter.emit_start("api", "prod", "123");
    assert_ne!(start.id, fresh.id);
    assert_eq!(emitter.get_recent(1)[0].commit_sha, "123");
    assert_eq!(emitter.get_for_service("api").len(), 2);
    assert_eq!(emitter.get_in_range(NOON, NOON).len(), 1);
}

#[test]
fn markers_come_from_annotations() {
    let a = labels(&[
        ("deployment.stellar.org/commit-sha", "abc"),
        ("deployment.stellar.org/service", "api"),
        ("deployment.stellar.org/environment", "prod"),
        ("deployment.stellar.org/change-ids", "[\"PR-1\", \"PR-2\"]"),
    ]);
    let m = create_marker_from_annotation(&a, None, NOON).unwrap();
    assert_eq!(m.change_ids, vec!["PR-1", "PR-2"]);
    assert!(matches!(m.strategy, DeploymentStrategy::Rolling));
    let a = labels(&[
        ("deployment.stellar.org/commit-sha", "abc"),
        ("deployment.stellar.org/service", "api"),
        ("deployment.stellar.org/environment", "prod"),
        ("deployment.stellar.org/change-ids", "PR-1"),
    ]);
    let m = create_marker_from_annotation(&a, Some(DeploymentStrategy::BlueGreen), NOON).unwrap();
    assert!(m.change_ids.is_empty());
    assert!(matches!(m.strategy, DeploymentStrategy::BlueGreen));
    assert!(create_marker_from_annotation(&StrMap::new(), None, NOON).is_none());
    let m = assemble_marker(&a, None, Some(vec!["PR-3".to_string()]), NOON).unwrap();
    assert_eq!(m.change_ids, vec!["PR-3"]);
    assert_eq!(m.commit_sha, "abc");
}
