use stellar_k8s::compliance::evidence_schedule::{
    ControlProbe, EvidencePackage, FnRunner, ProbeResult, ProbeRunner, ScheduledCollector,
};

fn probes() -> Vec<ControlProbe> {
    vec![
        ControlProbe::new("SOC2", "CC6.1", "RBAC enabled", 3600, 90),
        ControlProbe::new("ISO27001", "A.12.4", "Logging enabled", 3600, 90),
    ]
}

/// A probe as a configuration declares it.
fn declared(json: &str) -> ControlProbe {
    let value: serde_json::Value = serde_json::from_str(json).unwrap();
    let text = |key: &str| value[key].as_str().unwrap().to_string();
    ControlProbe {
        framework: text("framework"),
        control_id: text("control_id"),
        description: text("description"),
        expression: text("expression"),
        interval_secs: value["interval_secs"].as_u64().unwrap(),
        retention_days: value["retention_days"].as_u64().unwrap().try_into().unwrap(),
    }
}

#[test]
fn declarative_probe_parses_from_config() {
    let json = r#"{
        "framework": "SOC2", "control_id": "CC6.1",
        "description": "RBAC enabled", "expression": "rbac == enabled",
        "interval_secs": 60, "retention_days": 90
    }"#;
    let probe = declared(json);
    assert_eq!(probe.key(), "SOC2:CC6.1");
    assert_eq!(probe.interval_secs, 60);
    assert_eq!(probe.expression, "rbac == enabled");
}

#[test]
fn probes_ask_for_compliance_unless_told_otherwise() {
    let probe = ControlProbe::new("SOC2", "CC6.1", "RBAC enabled", 60, 90);
    assert_eq!(probe.expression, "control(CC6.1) == compliant");
    let probe = probe.with_expression("rbac == enabled");
    assert_eq!(probe.expression, "rbac == enabled");
    assert_eq!(probe.key(), "SOC2:CC6.1");
    assert_eq!(probe.interval_secs, 60);
}

#[test]
fn every_probe_is_in_scope() {
    let probe = ControlProbe::new("SOC2", "CC6.1", "RBAC enabled", 3600, 90);
    let mut collector = ScheduledCollector::new(vec![probe], b"audit-key".to_vec());
    collector.collect_due(9_999_999_999);
    assert_eq!(collector.coverage().total, 1);
}

#[test]
fn scheduled_collection_reaches_full_coverage() {
    let mut collector = ScheduledCollector::new(probes(), b"key".to_vec());
    assert_eq!(collector.coverage().total, 2);
    collector.collect_due(1_000);
    let coverage = collector.coverage();
    assert_eq!(coverage.covered, 2);
    assert!(coverage.complete);
    assert!((coverage.covered as f64 / coverage.total as f64 - 1.0).abs() < f64::EPSILON);
}

#[test]
fn collection_respects_per_control_schedule() {
    let mut collector = ScheduledCollector::new(probes(), b"key".to_vec());
    collector.collect_due(1_000);
    // Not due yet: no new runs, results unchanged.
    collector.collect_due(1_001);
    assert_eq!(collector.results().len(), 2);
    assert_eq!(collector.results().get("SOC2:CC6.1").unwrap().collected_at, 1_000);
    assert!(collector.due_probes(1_000 + 3_599).is_empty());
    // Due again after the interval.
    collector.collect_due(1_000 + 3_600);
    assert_eq!(collector.results().len(), 2);
    assert_eq!(collector.results().get("SOC2:CC6.1").unwrap().collected_at, 4_600);
}

#[test]
fn collection_failure_raises_finding_within_one_cycle() {
    struct Failing;
    impl ProbeRunner for Failing {
        fn run(&self, _probe: &ControlProbe) -> (bool, String) {
            (false, "__FAIL__".to_string())
        }
    }
    let mut collector = ScheduledCollector::new(probes(), b"key".to_vec());
    collector.collect_due_with(&Failing, 2_000);
    assert!(!collector.findings().is_empty());
    assert!(collector.findings().iter().all(|f| f.kind == "collection-failed"));
    assert_eq!(collector.findings()[0].detail, "probe SOC2:CC6.1 failed within cycle at 2000");
    assert!(collector.results().is_empty());
}

#[test]
fn unsatisfied_control_becomes_a_gap_finding() {
    let deny = FnRunner::new(|probe: &ControlProbe| (false, format!("{} violated", probe.key())));
    let mut collector = ScheduledCollector::new(probes(), b"key".to_vec());
    collector.collect_due_with(&deny, 3_000);
    assert_eq!(collector.coverage_gaps().len(), 2);
    assert!(!collector.coverage().complete);
    assert_eq!(collector.findings()[1].kind, "missing-evidence");
    assert_eq!(collector.findings()[1].detail, "control ISO27001:A.12.4 not satisfied at 3000");
    assert_eq!(collector.coverage_gaps()[0].kind, "missing-evidence");
    assert_eq!(collector.coverage_gaps()[0].detail, "no valid in-window evidence for SOC2:CC6.1");
}

#[test]
fn findings_are_bounded() {
    let mut collector =
        ScheduledCollector::new(vec![ControlProbe::new("SOC2", "CC6.1", "RBAC", 1, 90)], b"key".to_vec());
    let deny = FnRunner::new(|_: &ControlProbe| (false, String::new()));
    for i in 0..1_005u64 {
        collector.collect_due_with(&deny, 10 * i);
    }
    assert_eq!(collector.findings().len(), 1_000);
    assert_eq!(collector.findings()[0].raised_at, 50);
}

#[test]
fn signed_package_validates_offline() {
    let mut collector = ScheduledCollector::new(probes(), b"audit-key".to_vec());
    collector.collect_due(4_000);
    let package = collector.package();
    assert_eq!(package.items.len(), 2);
    assert_eq!(package.items[0].control_key, "ISO27001:A.12.4");
    assert!(package.verify_offline(b"audit-key"));
    assert!(!package.verify_offline(b"wrong-key"));
}

#[test]
fn tampered_package_fails_offline_verification() {
    let mut collector = ScheduledCollector::new(probes(), b"audit-key".to_vec());
    collector.collect_due(5_000);
    let mut package = collector.package();
    package.items[0].evidence.push_str(" forged");
    assert!(!package.verify_offline(b"audit-key"));
}

#[test]
fn hashes_cover_the_payload() {
    let mut result = ProbeResult::new("k".to_string(), 1, true, "abc");
    assert_eq!(result.evidence_hash, "ba7816bf8f01cfea414140de5dae2223b00361a396177a9cb410ff61f20015ad");
    assert!(result.integrity_ok());
    result.evidence = "abd".to_string();
    assert!(!result.integrity_ok());
    // A package that is signed over a damaged item still fails.
    assert!(!EvidencePackage::sign(vec![result], b"k").verify_offline(b"k"));
}

#[test]
fn retention_prunes_expired_evidence() {
    // Long interval (no re-collection) with 1-day retention.
    let probe = ControlProbe::new("SOC2", "CC6.1", "RBAC", 10 * 86_400, 1);
    let mut collector = ScheduledCollector::new(vec![probe], b"key".to_vec());
    collector.collect_due(6_000);
    assert_eq!(collector.results().len(), 1);
    // Past the 1-day retention window: pruned on the next cycle.
    collector.collect_due(6_000 + 86_400 + 1);
    assert!(collector.results().is_empty());
    assert!(!collector.coverage_at(6_000 + 86_400 + 1).complete);
}

#[test]
fn stale_evidence_counts_as_gap() {
    let mut collector = ScheduledCollector::new(probes(), b"key".to_vec());
    collector.collect_due(7_000);
    assert!(collector.coverage_at(7_000).complete);
    // Past the 1h interval with no fresh collection: stale.
    assert_eq!(collector.coverage_gaps_at(7_000 + 7_200).len(), 2);
    assert!(collector.coverage_gaps_at(7_000 + 7_200).iter().all(|g| g.kind == "stale-evidence"));
}

#[test]
fn nothing_in_scope_is_never_complete() {
    let collector = ScheduledCollector::new(vec![], b"key".to_vec());
    assert_eq!(collector.coverage().total, 0);
    assert!(!collector.coverage().complete);
    assert!(collector.probes().is_empty());
}

#[test]
fn the_latest_result_replaces_the_one_before() {
    let mut collector = ScheduledCollector::new(probes(), b"key".to_vec());
    collector.collect_due(1_000);
    assert!(collector.results().get("SOC2:CC6.1").unwrap().satisfied);
    let deny = FnRunner::new(|_: &ControlProbe| (false, "violated".to_string()));
    collector.collect_due_with(&deny, 4_600);
    let latest = collector.results().get("SOC2:CC6.1").unwrap();
    assert_eq!(latest.collected_at, 4_600);
    assert!(!latest.satisfied);
    assert_eq!(collector.coverage().covered, 0);
}

#[test]
fn coverage_counts_a_collection_that_failed_later() {
    let probe = ControlProbe::new("SOC2", "CC6.1", "RBAC enabled", 60, 90);
    let mut collector = ScheduledCollector::new(vec![probe], b"key".to_vec());
    collector.collect_due(1_000);
    assert!(collector.coverage().complete);
    let fail = FnRunner::new(|_: &ControlProbe| (false, "__FAIL__".to_string()));
    collector.collect_due_with(&fail, 2_000);
    let coverage = collector.coverage();
    assert_eq!((coverage.total, coverage.covered), (1, 0));
    assert!(!coverage.complete);
    assert_eq!(collector.results().get("SOC2:CC6.1").unwrap().collected_at, 1_000);
}
