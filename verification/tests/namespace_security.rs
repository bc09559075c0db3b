use stellar_k8s::error::Error;
use stellar_k8s::namespace_security::audit::{result_label, AuditConfig, AuditEntry, BaselineAuditLog};
use stellar_k8s::namespace_security::baseline::{
    builtin_checks, default_remediation_schedule, default_schedule, AutoRemediationConfig, BaselinePhase,
    BaselineProfile, BaselineSpec, CheckSeverity, CheckStatus, RemediationAction, RemediationActionType,
    TargetResource,
};
use stellar_k8s::namespace_security::evaluator::{
    check_default_deny_egress, check_default_deny_ingress, check_default_sa_automount, check_limit_range,
    check_no_wildcard_rbac, check_pss_labels, check_resource_quota, check_secrets_encryption, run_check, BaselineEvaluator,
    EvaluatorConfig, Finding, NamespaceFacts, PolicyFacts, RoleFacts, RuleFacts, SelectorFacts, Targets,
};
use stellar_k8s::namespace_security::remediation::{
    describe_remediation, dry_run_remediation, execute_remediation, BaselineRemediator, RemediationConfig,
};
use stellar_k8s::strmap::StrMap;

const NOON: i64 = 1_735_732_800_000_000;

fn labels(pairs: &[(&str, &str)]) -> StrMap<String> {
    let mut m = StrMap::new();
    for (k, v) in pairs {
        m.insert(k.to_string(), v.to_string());
    }
    m
}

fn entry(i: usize) -> AuditEntry {
    AuditEntry {
        namespace: format!("ns-{}", i % 2),
        action: if i % 2 == 0 { "AutoRemediation" } else { "Evaluation" }.to_string(),
        resource_type: "NetworkPolicy".to_string(),
        resource_name: format!("np-{}", i),
        success: i % 3 != 0,
        message: "test".to_string(),
        timestamp: NOON,
        dry_run: i % 2 == 0,
    }
}

fn created() -> AuditEntry {
    AuditEntry {
        namespace: "test-ns".to_string(),
        action: "AutoRemediation".to_string(),
        resource_type: "NetworkPolicy".to_string(),
        resource_name: "default-deny-ingress".to_string(),
        success: true,
        message: "Created default deny ingress".to_string(),
        timestamp: NOON,
        dry_run: false,
    }
}

fn spec(profile: BaselineProfile) -> BaselineSpec {
    BaselineSpec {
        profile,
        target_namespaces: vec!["test".to_string()],
        namespace_selector: StrMap::new(),
        checks: vec![],
        skipped_checks: vec![],
        auto_remediation: AutoRemediationConfig::default(),
        schedule: "0 */6 * * *".to_string(),
        remediation_schedule: "0 */12 * * *".to_string(),
    }
}

fn bare_facts() -> NamespaceFacts {
    NamespaceFacts {
        labels: Ok(StrMap::new()),
        policies: Ok(vec![]),
        limit_ranges: Ok(0),
        quotas: Ok(0),
        roles: Ok(vec![]),
        default_account: None,
    }
}

fn deny(kind: &str) -> PolicyFacts {
    PolicyFacts {
        pod_selector: Some(SelectorFacts { labels_empty: true, expressions_empty: true }),
        policy_types: Some(vec![kind.to_string()]),
        ingress: Some(0),
        egress: Some(0),
    }
}

fn action(action_type: RemediationActionType) -> RemediationAction {
    RemediationAction {
        action_type,
        target_resource: TargetResource {
            api_version: "v1".to_string(),
            kind: "Namespace".to_string(),
            name: "target".to_string(),
            namespace: None,
        },
        parameters: StrMap::new(),
        description: "do it".to_string(),
    }
}

#[test]
fn test_audit_log_record() {
    let mut audit_log = BaselineAuditLog::new(AuditConfig::default());
    audit_log.record(created());
    let recent = audit_log.get_recent(10);
    assert_eq!(recent.len(), 1);
    assert_eq!(recent[0].namespace, "test-ns");
}

#[test]
fn test_audit_log_stats() {
    let mut audit_log = BaselineAuditLog::new(AuditConfig::default());
    for i in 0..5 {
        audit_log.record(entry(i));
    }
    let stats = audit_log.get_stats();
    assert_eq!(stats.total_entries, 5);
    assert_eq!(stats.success_count, 3);
    assert_eq!(stats.dry_run_count, 3);
    assert_eq!(stats.failure_count, 2);
    assert_eq!(stats.namespaces.get("ns-0"), Some(&3));
    assert_eq!(stats.actions.get("Evaluation"), Some(&2));
    assert_eq!(audit_log.get_for_namespace("ns-1").len(), 2);
    assert_eq!(audit_log.get_for_action("AutoRemediation").len(), 3);
}

#[test]
fn test_audit_log_export() {
    let mut audit_log = BaselineAuditLog::new(AuditConfig::default());
    audit_log.record(created());
    let csv = audit_log.export_csv();
    assert!(csv.contains("test-ns"));
    assert!(csv.contains("AutoRemediation"));
    assert!(csv.contains("2025-01-01T12:00:00+00:00"));
    assert_eq!(result_label(false), "failure");
}

#[test]
fn test_builtin_checks() {
    let checks = builtin_checks();
    assert!(!checks.is_empty());

    // Verify all checks have required fields
    for check in &checks {
        assert!(!check.id.is_empty());
        assert!(!check.name.is_empty());
        assert!(!check.profiles.is_empty());
    }

    // Check specific profiles
    let minimal_checks: Vec<_> =
        checks.iter().filter(|c| c.profiles.iter().any(|p| p.same_as(&BaselineProfile::Minimal))).collect();
    assert!(!minimal_checks.is_empty());

    let strict_checks: Vec<_> =
        checks.iter().filter(|c| c.profiles.iter().any(|p| p.same_as(&BaselineProfile::Strict))).collect();
    assert!(strict_checks.len() > minimal_checks.len());
}

#[test]
fn test_evaluator_config() {
    let spec = spec(BaselineProfile::Standard);
    assert!(spec.profile.same_as(&BaselineProfile::Standard));
    assert_eq!(spec.schedule, default_schedule());
    assert_eq!(spec.remediation_schedule, default_remediation_schedule());
    let config = EvaluatorConfig::new(spec);
    assert!(config.custom_checks.is_empty());
}

#[test]
fn single_checks_judge_what_was_found() {
    assert_eq!(check_pss_labels(&StrMap::new(), NOON).status, CheckStatus::Fail);
    let full = labels(&[
        ("pod-security.kubernetes.io/enforce", "restricted"),
        ("pod-security.kubernetes.io/enforce-version", "latest"),
        ("pod-security.kubernetes.io/warn", "restricted"),
        ("pod-security.kubernetes.io/warn-version", "latest"),
        ("pod-security.kubernetes.io/audit", "restricted"),
        ("pod-security.kubernetes.io/audit-version", "latest"),
    ]);
    assert_eq!(check_pss_labels(&full, NOON).status, CheckStatus::Pass);
    assert_eq!(check_default_deny_ingress(&vec![deny("Ingress")], NOON).status, CheckStatus::Pass);
    assert_eq!(check_default_deny_ingress(&vec![deny("Egress")], NOON).status, CheckStatus::Fail);
    assert_eq!(check_default_deny_egress(&vec![deny("Egress")], NOON).status, CheckStatus::Pass);
    assert_eq!(check_limit_range(0, NOON).status, CheckStatus::Fail);
    assert_eq!(check_limit_range(1, NOON).status, CheckStatus::Pass);
    assert_eq!(check_resource_quota(0, NOON).status, CheckStatus::Fail);
    let wild = RoleFacts {
        name: "admin".to_string(),
        rules: vec![RuleFacts {
            verbs: vec!["*".to_string()],
            resources: vec!["pods".to_string()],
            api_groups: vec!["".to_string()],
        }],
    };
    assert_eq!(check_no_wildcard_rbac(&vec![wild], NOON).status, CheckStatus::Fail);
    assert_eq!(check_no_wildcard_rbac(&vec![], NOON).status, CheckStatus::Pass);
    assert_eq!(check_default_sa_automount(&Some(Some(false)), NOON).status, CheckStatus::Pass);
    assert_eq!(check_default_sa_automount(&Some(None), NOON).status, CheckStatus::Fail);
    assert_eq!(check_secrets_encryption(NOON).evaluated_at, NOON);
}

#[test]
fn evaluations_add_up() {
    let evaluator = BaselineEvaluator::new(EvaluatorConfig::new(spec(BaselineProfile::Standard)));
    let r = evaluator.evaluate_namespace("test", &bare_facts(), NOON);
    assert_eq!(r.passed + r.failed + r.skipped, evaluator.checks.len() as u32);
    assert!(r.failed > 0);
    let found = vec![
        Finding { namespace: "a".to_string(), facts: bare_facts() },
        Finding { namespace: "b".to_string(), facts: bare_facts() },
    ];
    let all = evaluator.evaluate_all(&found, 12, NOON);
    assert_eq!(all.total_failed, 2 * r.failed);
    assert_eq!(all.namespace_results.len(), 2);
    assert_eq!(all.duration_ms, 12);
    assert_eq!(all.overall_phase, BaselinePhase::Completed);
    assert!(matches!(evaluator.get_target_namespaces(), Targets::Named(n) if n == vec!["test".to_string()]));
}

#[test]
fn skipped_checks_are_left_out() {
    let mut s = spec(BaselineProfile::Standard);
    let all = BaselineEvaluator::new(EvaluatorConfig::new(spec(BaselineProfile::Standard))).checks.len();
    s.skipped_checks = vec![builtin_checks()[0].id.clone()];
    let fewer = BaselineEvaluator::new(EvaluatorConfig::new(s)).checks.len();
    assert_eq!(fewer, all - 1);
}

#[test]
fn remediation_keeps_to_its_limits() {
    let mut s = spec(BaselineProfile::Strict);
    s.auto_remediation.enabled = true;
    s.auto_remediation.safe_only = false;
    s.auto_remediation.require_approval_high_severity = false;
    s.auto_remediation.max_remediations_per_cycle = 1;
    let evaluator = BaselineEvaluator::new(EvaluatorConfig::new(spec(BaselineProfile::Strict)));
    let found = vec![Finding { namespace: "a".to_string(), facts: bare_facts() }];
    let evaluation = evaluator.evaluate_all(&found, 0, NOON);
    let remediator = BaselineRemediator::new(RemediationConfig { spec_: s, dry_run: false, max_concurrent: 1 });
    assert_eq!(remediator.remediate(&evaluation).len(), 1);
    let mut off = spec(BaselineProfile::Strict);
    off.auto_remediation.enabled = false;
    let idle = BaselineRemediator::new(RemediationConfig { spec_: off, dry_run: false, max_concurrent: 1 });
    assert!(idle.remediate(&evaluation).is_empty());
}

#[test]
fn failed_checks_come_with_their_remediation() {
    let checks = builtin_checks();
    let limits = checks.iter().find(|c| c.id == "limit-range").unwrap();
    let failed = run_check(limits, &bare_facts(), NOON);
    assert_eq!(failed.status, CheckStatus::Fail);
    assert_eq!(failed.remediation_action.unwrap().action_type, RemediationActionType::CreateResource);
    let mut facts = bare_facts();
    facts.limit_ranges = Ok(1);
    assert!(run_check(limits, &facts, NOON).remediation_action.is_none());
    let roles = checks.iter().find(|c| c.id == "no-wildcard-rbac").unwrap();
    assert!(run_check(roles, &bare_facts(), NOON).remediation_action.is_none());
}

#[test]
fn a_policy_without_a_selector_denies_only_its_types() {
    let mut policy = deny("Egress");
    policy.pod_selector = None;
    assert_eq!(check_default_deny_ingress(&vec![policy], NOON).status, CheckStatus::Fail);
    let mut policy = deny("Ingress");
    policy.pod_selector = None;
    assert_eq!(check_default_deny_ingress(&vec![policy], NOON).status, CheckStatus::Pass);
}

#[test]
fn remediation_outcomes_are_recorded() {
    let mut s = spec(BaselineProfile::Strict);
    s.auto_remediation.dry_run = false;
    let remediator = BaselineRemediator::new(RemediationConfig { spec_: s, dry_run: false, max_concurrent: 1 });
    let check = check_limit_range(0, NOON);
    let act = action(RemediationActionType::AddLabel);
    let (r, audit) = remediator.remediate_check("ns", &check, &act, Err("refused".to_string()), NOON);
    assert!(!r.success);
    assert_eq!(r.error, Some("refused".to_string()));
    assert!(!audit.success);
    let (r, audit) = remediator.remediate_check("ns", &check, &act, Ok("done".to_string()), NOON);
    assert!(r.success);
    assert_eq!(r.check_id, "limit-range");
    assert_eq!(r.message, "done");
    assert_eq!(audit.namespace, "ns");
    assert!(describe_remediation(&act, "ns").ends_with(" to namespace ns"));
    assert_eq!(
        describe_remediation(&action(RemediationActionType::DeleteResource), "ns"),
        "Delete Namespace/target in namespace ns"
    );
    assert!(!dry_run_remediation(&act, "ns").is_empty());
}

#[test]
fn actions_without_parameters_are_refused() {
    match execute_remediation(&action(RemediationActionType::AddLabel), "ns", &StrMap::new()) {
        Err(Error::ValidationError(_)) => {}
        Err(Error::NotFound(_)) => panic!("unexpected error"),
        Ok(step) => assert!(step.patch.is_some()),
    }
    assert_eq!(CheckSeverity::default(), CheckSeverity::Warning);
}
