use stellar_k8s::controller::registry_gate::{
    parse_manifest_path, rewrite_to_local, CVECount, CVEDetectionResult, CacheStats, PullDecision, PullGate,
    PullGateMode, StellarRegistry, Vulnerability, VulnerabilitySeverity,
};
use stellar_k8s::json::Json;

fn scan(critical: &[&str]) -> CVEDetectionResult {
    let vulnerabilities: Vec<Vulnerability> = critical
        .iter()
        .map(|id| Vulnerability { cve_id: id.to_string(), severity: VulnerabilitySeverity::Critical })
        .collect();
    CVEDetectionResult {
        cve_count: CVECount { critical: vulnerabilities.len() as u32, ..Default::default() },
        vulnerabilities,
        scan_timestamp: 0,
    }
}

fn gate(mode: PullGateMode) -> PullGate {
    PullGate::new(mode, 0, "registry.local", "https://registry.local/reports/")
}

fn first(j: &Json) -> &Json {
    match j {
        Json::Arr(items) => &items[0],
        _ => panic!("not a list"),
    }
}

#[test]
fn seeded_critical_cve_is_denied_with_report() {
    let mut g = gate(PullGateMode::Enforce);
    let report = g.handle_push("app/api", "sha256:bad", Ok(scan(&["CVE-2024-0001"]))).unwrap();
    assert_eq!(report.image, "registry.local/app/api@sha256:bad");
    assert_eq!(report.critical_cves, vec!["CVE-2024-0001"]);

    let d = g.authorize_pull("sha256:bad");
    assert!(d.is_denied());
    let (status, body) = d.oci_response("sha256:bad").unwrap();
    assert_eq!(status, 403);
    let error = first(body.get("errors").unwrap());
    assert_eq!(error.get("code").unwrap().as_str(), Some("DENIED"));
    assert_eq!(
        error.get("detail").unwrap().get("reportUrl").unwrap().as_str(),
        Some("https://registry.local/reports/sha256:bad")
    );
    assert!(error.get("message").unwrap().as_str().unwrap().contains("CVE-2024-0001"));
    assert_eq!(g.report("sha256:bad").unwrap(), report);
}

#[test]
fn unscanned_pull_denied_in_enforce_only() {
    assert!(gate(PullGateMode::Enforce).authorize_pull("sha256:new").is_denied());
    assert!(matches!(
        gate(PullGateMode::Audit).authorize_pull("sha256:new"),
        PullDecision::AllowAudited { .. }
    ));
    assert_eq!(gate(PullGateMode::Off).authorize_pull("sha256:new"), PullDecision::Allow);
    assert!(PullDecision::Allow.oci_response("sha256:new").is_none());
}

#[test]
fn clean_image_allowed_and_scanner_failure_leaves_unscanned() {
    let mut g = gate(PullGateMode::Enforce);
    g.handle_push("app/api", "sha256:ok", Ok(scan(&[]))).unwrap();
    assert_eq!(g.authorize_pull("sha256:ok"), PullDecision::Allow);

    assert_eq!(
        g.handle_push("app/api", "sha256:x", Err("scanner unavailable".into())),
        Err("scanner unavailable".to_string())
    );
    assert!(g.report("sha256:x").is_none());
    assert!(g.authorize_pull("sha256:x").is_denied());
}

#[test]
fn limits_come_from_the_registry() {
    let registry =
        StellarRegistry { endpoint: "r.local".into(), pull_gate: PullGateMode::Enforce, max_critical_cves: 1 };
    let mut g = PullGate::from_registry(&registry, "https://r.local/reports");
    g.handle_push("a", "sha256:1", Ok(scan(&["CVE-1"]))).unwrap();
    assert_eq!(g.authorize_pull("sha256:1"), PullDecision::Allow);
    g.handle_push("a", "sha256:2", Ok(scan(&["CVE-1", "CVE-2"]))).unwrap();
    assert!(g.authorize_pull("sha256:2").is_denied());
    assert_eq!(g.image_ref("a", "sha256:2"), "r.local/a@sha256:2");
}

#[test]
fn parses_manifest_paths() {
    assert_eq!(
        parse_manifest_path("/v2/org/app/manifests/sha256:abc"),
        Some(("org/app".to_string(), "sha256:abc".to_string()))
    );
    assert_eq!(parse_manifest_path("/v2/org/app/blobs/sha256:abc"), None);
}

#[test]
fn rewrites_every_reference_to_local_registry() {
    let l = "registry.local";
    assert_eq!(rewrite_to_local("nginx:1.27", l), "registry.local/docker.io/library/nginx:1.27");
    assert_eq!(rewrite_to_local("bitnami/redis", l), "registry.local/docker.io/bitnami/redis");
    assert_eq!(
        rewrite_to_local("ghcr.io/stellar/stellar-k8s:1.3.7", l),
        "registry.local/ghcr.io/stellar/stellar-k8s:1.3.7"
    );
    assert_eq!(rewrite_to_local("registry.local/x/y", l), "registry.local/x/y");
    let once = rewrite_to_local("localhost/x", l);
    assert_eq!(once, "registry.local/localhost/x");
    assert_eq!(rewrite_to_local(&once, l), once);
}

#[test]
fn cache_hit_rate() {
    let mut s = CacheStats::default();
    assert_eq!(s.hit_rate(), None);
    for i in 0..100 {
        s.record(i % 20 != 0);
    }
    let (hits, total) = s.hit_rate().unwrap();
    assert!((hits as f64 / total as f64 - 0.95).abs() < 1e-9);
}
