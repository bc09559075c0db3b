use stellar_k8s::controller::cross_signal_anomaly::{
    signal_change, unset_config, CrossSignalDetector, DeploymentEvent, MetricStats, SignalAnalysis,
    SignalStats, TrafficMetrics,
};
use stellar_k8s::reading::Reading;

const SECOND: i64 = 1_000_000;
const NOON: i64 = 1_735_732_800_000_000;

fn reading(x: f64) -> Reading {
    Reading { bits: x.to_bits() }
}

fn deployment(id: &str) -> DeploymentEvent {
    DeploymentEvent {
        id: id.into(),
        service: "api".into(),
        version: "v2".into(),
        timestamp: NOON,
        environment: "prod".into(),
        deployer: "ci".into(),
    }
}

fn metrics(at: i64) -> TrafficMetrics {
    TrafficMetrics {
        service: "api".into(),
        timestamp: at,
        requests_per_second: reading(100.0),
        error_rate: reading(0.01),
        p50_latency_ms: reading(10.0),
        p95_latency_ms: reading(20.0),
        p99_latency_ms: reading(30.0),
    }
}

fn stats() -> MetricStats {
    MetricStats { mean: reading(1.0), std_dev: reading(0.0), min: reading(1.0), max: reading(1.0) }
}

fn signals(p: f64) -> SignalAnalysis {
    let change = signal_change(reading(0.01), reading(0.10), reading(900.0), reading(p));
    let steady = signal_change(reading(1.0), reading(1.0), reading(0.0), reading(1.0));
    SignalAnalysis {
        error_rate_change: change,
        latency_p50_change: steady,
        latency_p95_change: steady,
        throughput_change: steady,
    }
}

fn detector() -> CrossSignalDetector {
    let mut d = CrossSignalDetector::new(unset_config());
    d.record_deployment(deployment("d1"));
    for i in 1..=40 {
        d.record_traffic_metrics(metrics(NOON - i * SECOND));
        d.record_traffic_metrics(metrics(NOON + i * SECOND));
    }
    d
}

fn analyze(d: &mut CrossSignalDetector, id: &str, p: f64) -> Option<bool> {
    let each = SignalStats {
        error_rate: stats(),
        latency_p50: stats(),
        latency_p95: stats(),
        throughput: stats(),
    };
    d.analyze_deployment(id, signals(p), each, each, NOON + 60 * SECOND).map(|a| a.anomaly_detected)
}

#[test]
fn windows_lie_around_the_deployment() {
    let d = detector();
    let w = d.windows("d1").unwrap();
    assert_eq!(w.service, "api");
    assert!(w.before.iter().all(|m| m.timestamp < NOON));
    assert!(w.after.iter().all(|m| m.timestamp >= NOON));
    assert_eq!(w.before.len(), 40);
    assert_eq!(w.after.len(), 40);
    assert!(d.windows("d2").is_none());
}

#[test]
fn significant_changes_are_anomalies() {
    let mut d = detector();
    assert_eq!(analyze(&mut d, "d1", 0.001), Some(true));
    let found = d.get_analyses(None);
    assert_eq!(found.len(), 1);
    assert_eq!((found[0].baseline.sample_count, found[0].post_deploy.sample_count), (40, 40));
    assert_eq!(f64::from_bits(found[0].confidence_score.bits), 0.25);
    assert_eq!(d.get_analyses(Some("api")).len(), 1);
    assert!(d.get_analyses(Some("web")).is_empty());
    assert_eq!(analyze(&mut d, "missing", 0.001), None);
}

#[test]
fn the_configured_threshold_decides() {
    let mut d = detector();
    d.config.significance_threshold = reading(0.0001);
    assert_eq!(analyze(&mut d, "d1", 0.001), Some(false));
    d.config.significance_threshold = reading(0.05);
    assert_eq!(analyze(&mut d, "d1", 0.02), Some(true));
}

#[test]
fn steady_signals_are_no_anomaly() {
    let mut d = detector();
    assert_eq!(analyze(&mut d, "d1", 0.9), Some(false));
}
