use stellar_k8s::approval::audit::{record_key, ApprovalAuditEntry, ApprovalAuditLog};
use stellar_k8s::approval::controller::{add_approval, execute_change, list_pending, reconcile, record_execution, Verdict};
use stellar_k8s::approval::crd::{
    default_ttl, Approval, ApprovalDecision, ApprovalState, Approver, ChangeClass, ChangeRequest, ChangeRequestPhase,
    ChangeRequestSpec, ChangeRequestStatus, PrivilegedOperation, RiskLevel, TargetReference,
};
use stellar_k8s::approval::webhook::{
    build_change_request, create_change_request, register_approvers, validate_admission, ApprovalWebhook, Checked,
    SimpleAdmissionRequest, SimpleGroupVersionKind, SimpleUserInfo,
};
use stellar_k8s::duration_text::{format_duration, parse_duration, DurationError};
use stellar_k8s::error::Error;
use stellar_k8s::json::Json;
use stellar_k8s::span::Duration;
use stellar_k8s::strmap::StrMap;

const NOON: i64 = 1_735_732_800_000_000;

fn entry(change_request: &str, namespace: &str, details: &str, timestamp: i64) -> ApprovalAuditEntry {
    ApprovalAuditEntry {
        change_request: change_request.to_string(),
        namespace: namespace.to_string(),
        action: "Approved".to_string(),
        actor: "user@example.com".to_string(),
        details: details.to_string(),
        timestamp,
    }
}

fn approver(identity: &str, required: bool) -> Approver {
    Approver { identity: identity.to_string(), name: None, required }
}

fn vote(identity: &str, decision: ApprovalDecision) -> Approval {
    Approval { approver: approver(identity, true), decision, timestamp: NOON, justification: None, signature: None }
}

fn request_spec(min_approvals: u32, auto_execute: bool) -> ChangeRequestSpec {
    ChangeRequestSpec {
        operation: PrivilegedOperation {
            class: ChangeClass::NodeUpgrade,
            target_ref: TargetReference {
                api_version: "stellar.org/v1alpha1".to_string(),
                kind: "StellarNode".to_string(),
                name: "test-node".to_string(),
                namespace: Some("stellar".to_string()),
            },
            description: "Upgrade node to v21".to_string(),
            change_payload: Json::Null,
            risk_level: RiskLevel::Medium,
        },
        required_approvers: vec![approver("ops-team", true), approver("security", false)],
        optional_approvers: vec![approver("guest", false)],
        min_approvals,
        ttl: default_ttl(),
        auto_execute,
        execution_window: None,
        metadata: StrMap::new(),
    }
}

fn status_in(phase: ChangeRequestPhase) -> ChangeRequestStatus {
    let mut status = ChangeRequestStatus::default();
    status.phase = phase;
    status
}

fn admission(kind: &str, operation: &str) -> SimpleAdmissionRequest {
    SimpleAdmissionRequest {
        uid: "uid-1".to_string(),
        kind: SimpleGroupVersionKind {
            group: "stellar.org".to_string(),
            version: "v1alpha1".to_string(),
            kind: kind.to_string(),
        },
        operation: operation.to_string(),
        name: "node-a".to_string(),
        namespace: Some("prod".to_string()),
        object: Some(Json::Str("payload".to_string())),
        user_info: SimpleUserInfo {
            username: "alice".to_string(),
            uid: None,
            groups: vec![],
            extra: StrMap::new(),
        },
    }
}

#[test]
fn test_audit_log_record_and_retrieve() {
    let mut audit_log = ApprovalAuditLog::new(100);
    let entry = entry("cr-test-123", "stellar", "Quorum reached", NOON);
    audit_log.record(entry.clone());
    let recent = audit_log.get_recent(10);
    assert_eq!(recent.len(), 1);
    assert_eq!(recent[0].change_request, "cr-test-123");
    assert_eq!(recent[0], entry);
}

#[test]
fn test_audit_log_max_entries() {
    let mut audit_log = ApprovalAuditLog::new(3);
    for i in 0..5 {
        audit_log.record(entry(&format!("cr-test-{}", i), "stellar", "test", NOON));
    }
    let recent = audit_log.get_recent(10);
    assert_eq!(recent.len(), 3);
    assert_eq!(recent[0].change_request, "cr-test-4");
    assert_eq!(recent[2].change_request, "cr-test-2");
}

#[test]
fn test_audit_log_export_csv() {
    let mut audit_log = ApprovalAuditLog::new(100);
    audit_log.record(entry("cr-test-123", "stellar", "Quorum, reached", NOON));
    let csv = audit_log.export_csv();
    assert!(csv.contains("cr-test-123"));
    assert!(csv.contains("Approved"));
    assert_eq!(
        csv,
        "timestamp,change_request,namespace,action,actor,details\n\
         2025-01-01T12:00:00+00:00,cr-test-123,stellar,Approved,user@example.com,Quorum; reached\n"
    );
}

#[test]
fn audit_entries_are_filtered_in_order() {
    let mut audit_log = ApprovalAuditLog::new(10);
    audit_log.record(entry("a", "n1", "one", 1));
    audit_log.record(entry("b", "n1", "two", 2));
    audit_log.record(entry("a", "n2", "three", 3));
    let a = audit_log.get_for_change_request("a");
    assert_eq!(a.len(), 2);
    assert_eq!(a[0].details, "one");
    assert_eq!(a[1].details, "three");
    assert_eq!(audit_log.get_for_namespace("n1").len(), 2);
    assert!(audit_log.get_for_namespace("n3").is_empty());
    audit_log.record(entry("late", "n1", "four", 1));
    audit_log.remove_older_than(2);
    let left: Vec<String> = audit_log.entries().iter().map(|e| e.details.clone()).collect();
    assert_eq!(left, vec!["two", "three"]);
    assert_eq!(record_key(&entry("cr", "ns", "d", NOON)).contains("20250101"), true);
}

#[test]
fn test_change_class_display() {
    assert_eq!(ChangeClass::ClusterConfig.name(), "ClusterConfig");
    assert_eq!(ChangeClass::Custom("test".to_string()).name(), "Custom(test)");
}

#[test]
fn test_duration_serde() {
    let serialized = format_duration(24 * 3600);
    assert!(serialized.contains("86400s") || serialized.contains("24h"));
    assert_eq!(serialized, "86400s");
}

#[test]
fn durations_read_back() {
    assert!(matches!(parse_duration("90s"), Ok(90)));
    assert!(matches!(parse_duration("5m"), Ok(300)));
    assert!(matches!(parse_duration("24h"), Ok(86400)));
    assert!(matches!(parse_duration("-2d"), Ok(-172800)));
    assert!(matches!(parse_duration(&format_duration(12345)), Ok(12345)));
    assert!(matches!(parse_duration("5w"), Err(DurationError::Unit)));
    assert!(matches!(parse_duration("x5s"), Err(DurationError::Number)));
    assert!(matches!(parse_duration(""), Err(DurationError::Unit)));
}

#[test]
fn review_starts_from_pending() {
    let r = reconcile("cr", "ns", None, &request_spec(1, false), status_in(ChangeRequestPhase::Pending), NOON);
    assert!(matches!(r.verdict, Verdict::StartReview));
    assert_eq!(r.status.phase, ChangeRequestPhase::UnderReview);
    let audit = r.audit.unwrap();
    assert_eq!(audit.action, "ReviewStarted");
    assert_eq!(audit.details, "ChangeRequest entered review phase for operation: NodeUpgrade");
    assert_eq!(audit.timestamp, NOON);
}

#[test]
fn quorum_approves_and_starts_execution_where_asked() {
    let mut status = status_in(ChangeRequestPhase::UnderReview);
    status.approvals.push(vote("ops-team", ApprovalDecision::Approve));
    status.approvals.push(vote("guest", ApprovalDecision::Approve));
    let r = reconcile("cr", "ns", None, &request_spec(2, true), status, NOON);
    assert_eq!(r.status.approval_state, ApprovalState::Approved);
    assert_eq!(r.status.phase, ChangeRequestPhase::Executing);
    assert_eq!(r.status.approvals_received, 2);
    assert!(r.status.quorum_reached);
    assert_eq!(r.audit.unwrap().details, "Quorum reached with 2/2 approvals");
}

#[test]
fn required_rejection_wins_over_quorum() {
    let mut status = status_in(ChangeRequestPhase::UnderReview);
    status.approvals.push(vote("guest", ApprovalDecision::Approve));
    status.approvals.push(vote("ops-team", ApprovalDecision::Reject));
    let r = reconcile("cr", "ns", None, &request_spec(1, false), status, NOON);
    assert_eq!(r.status.approval_state, ApprovalState::Rejected);
    assert_eq!(r.status.phase, ChangeRequestPhase::Rejected);
    assert_eq!(r.audit.unwrap().details, "Required approver rejected the change");

    let mut status = status_in(ChangeRequestPhase::UnderReview);
    status.approvals.push(vote("security", ApprovalDecision::Reject));
    let r = reconcile("cr", "ns", None, &request_spec(1, false), status, NOON);
    assert_eq!(r.status.phase, ChangeRequestPhase::UnderReview);
    assert!(r.audit.is_none());
}

#[test]
fn pending_requests_expire() {
    let mut status = status_in(ChangeRequestPhase::UnderReview);
    status.expires_at = Some(NOON - 1);
    let r = reconcile("cr", "ns", Some(7), &request_spec(1, false), status, NOON);
    assert!(matches!(r.verdict, Verdict::Expire));
    assert_eq!(r.status.phase, ChangeRequestPhase::Expired);
    assert_eq!(r.status.conditions.len(), 1);
    assert_eq!(r.status.conditions[0].reason, "TTLExpired");
    assert_eq!(r.status.conditions[0].observed_generation, Some(7));

    let mut status = status_in(ChangeRequestPhase::UnderReview);
    status.expires_at = Some(NOON);
    let r = reconcile("cr", "ns", None, &request_spec(1, false), status, NOON);
    assert_eq!(r.status.phase, ChangeRequestPhase::UnderReview);
}

#[test]
fn a_quorum_that_was_reached_in_time_stands() {
    for (voted, expected) in [(NOON - 2, Verdict::Approve), (NOON, Verdict::Expire)] {
        let mut status = status_in(ChangeRequestPhase::UnderReview);
        status.expires_at = Some(NOON - 1);
        let mut approval = vote("guest", ApprovalDecision::Approve);
        approval.timestamp = voted;
        status.approvals.push(approval);
        let r = reconcile("cr", "ns", None, &request_spec(1, false), status, NOON);
        assert_eq!(r.verdict, expected);
    }
}

#[test]
fn execution_is_recorded() {
    let (status, audit) =
        record_execution("cr", "ns", status_in(ChangeRequestPhase::Executing), Ok("done".to_string()), NOON);
    assert_eq!(status.phase, ChangeRequestPhase::Executed);
    assert_eq!(status.execution_result, Some("done".to_string()));
    assert_eq!(status.executed_at, Some(NOON));
    assert_eq!(audit.action, "Executed");
    let (status, audit) =
        record_execution("cr", "ns", status_in(ChangeRequestPhase::Executing), Err("boom".to_string()), NOON);
    assert_eq!(status.phase, ChangeRequestPhase::Failed);
    assert_eq!(status.execution_result, Some("Execution failed: boom".to_string()));
    assert_eq!(audit.details, "ChangeRequest execution failed: boom");
    assert_eq!(
        execute_change(&request_spec(1, true)),
        "Successfully applied change to StellarNode/test-node (simulated)"
    );
}

#[test]
fn votes_are_checked() {
    let spec = request_spec(1, false);
    let status = add_approval(&spec, ChangeRequestStatus::default(), vote("guest", ApprovalDecision::Approve), NOON)
        .unwrap_or_else(|_| panic!("vote refused"));
    assert_eq!(status.approvals.len(), 1);
    assert_eq!(status.last_updated, NOON);
    match add_approval(&spec, status, vote("guest", ApprovalDecision::Reject), NOON) {
        Err(Error::ValidationError(e)) => assert_eq!(e, "Approver has already voted"),
        _ => panic!("expected a refusal"),
    }
    match add_approval(&spec, ChangeRequestStatus::default(), vote("eve", ApprovalDecision::Approve), NOON) {
        Err(Error::ValidationError(e)) => assert_eq!(e, "Approver eve is not authorized for this change"),
        _ => panic!("expected a refusal"),
    }
    let mut decided = ChangeRequestStatus::default();
    decided.approval_state = ApprovalState::Approved;
    match add_approval(&spec, decided, vote("guest", ApprovalDecision::Approve), NOON) {
        Err(e) => assert_eq!(e.message(), "ChangeRequest is no longer pending"),
        _ => panic!("expected a refusal"),
    }
}

#[test]
fn webhook_guards_privileged_kinds() {
    let mut webhook = ApprovalWebhook::new(Duration::from_secs(86_400));
    let request = admission("StellarNode", "UPDATE");
    let spec = webhook.requires_approval(&request, &vec![]).unwrap();
    assert_eq!(spec.operation.class, ChangeClass::NodeUpgrade);
    assert_eq!(spec.operation.target_ref.api_version, "stellar.org/v1alpha1");
    assert_eq!(spec.operation.description, "Privileged operation on StellarNode/node-a");
    assert_eq!(spec.required_approvers.len(), 2);
    assert_eq!(spec.required_approvers[0].identity, "stellar-ops");
    assert!(webhook.requires_approval(&admission("Pod", "UPDATE"), &vec![]).is_none());
    assert!(webhook.requires_approval(&admission("StellarNode", "CONNECT"), &vec![]).is_none());
    assert_eq!(
        ApprovalWebhook::selector(&request),
        "approval.stellar.org/target-name=node-a,approval.stellar.org/target-namespace=prod,\
         approval.stellar.org/target-kind=StellarNode"
    );
    register_approvers(&mut webhook, "NodeUpgrade".to_string(), vec![approver("solo", true)]);
    assert_eq!(webhook.requires_approval(&request, &vec![]).unwrap().required_approvers.len(), 1);
    assert!(webhook.get_required_approvers("Unknown").is_empty());
}

#[test]
fn approved_change_requests_let_the_request_pass() {
    let webhook = ApprovalWebhook::new(Duration::from_secs(86_400));
    let request = admission("StellarNode", "UPDATE");
    let spec = webhook.requires_approval(&request, &vec![]).unwrap();
    let mut cr = build_change_request("ops", spec, &request, NOON, "1a2b3c4d-9999");
    assert_eq!(cr.name, "cr-stellarnode-node-a-1a2b3c4d");
    assert_eq!(cr.labels.get("approval.stellar.org/target-namespace"), Some(&"prod".to_string()));
    assert_eq!(cr.annotations.get("approval.stellar.org/requested-by"), Some(&"alice".to_string()));
    let status = cr.status.as_mut().unwrap();
    assert_eq!(status.expires_at, Some(NOON + 86_400_000_000));
    assert_eq!(status.approvals_required, 2);
    status.approval_state = ApprovalState::Approved;
    status.phase = ChangeRequestPhase::Approved;
    let pending = ChangeRequest {
        name: "p".to_string(),
        namespace: "ops".to_string(),
        generation: None,
        labels: StrMap::new(),
        annotations: StrMap::new(),
        spec_: request_spec(1, false),
        status: Some(ChangeRequestStatus::default()),
    };
    let all = vec![cr, pending];
    assert_eq!(list_pending(&all).len(), 1);
    assert_eq!(list_pending(&all)[0].name, "p");
    assert!(webhook.requires_approval(&request, &all).is_none());
}

#[test]
fn change_requests_get_the_default_ttl_of_the_webhook() {
    let webhook = ApprovalWebhook::new(Duration::from_secs(5_400));
    let spec = webhook.requires_approval(&admission("Namespace", "DELETE"), &vec![]).unwrap();
    assert_eq!(spec.ttl, "5400s");
    assert!(matches!(parse_duration(&spec.ttl), Ok(5_400)));
}

#[test]
fn created_change_requests_have_fresh_names() {
    let webhook = ApprovalWebhook::new(Duration::from_secs(86_400));
    let request = admission("Namespace", "DELETE");
    let one = create_change_request("ops", webhook.requires_approval(&request, &vec![]).unwrap(), &request, NOON);
    let two = create_change_request("ops", webhook.requires_approval(&request, &vec![]).unwrap(), &request, NOON);
    assert!(one.name.starts_with("cr-namespace-node-a-"));
    assert_eq!(one.name.len(), "cr-namespace-node-a-".len() + 8);
    assert_ne!(one.name, two.name);
}

#[test]
fn admission_answers() {
    let r = validate_admission("u", &Checked::NotRequired, false);
    assert!(r.allowed);
    let held = Checked::Requested { change_request: "cr-1".to_string(), min_approvals: 2 };
    let r = validate_admission("u", &held, true);
    assert!(!r.allowed);
    let status = r.status.unwrap();
    assert_eq!(status.code, 403);
    assert_eq!(
        status.message,
        "Privileged operation requires multi-party approval. Created ChangeRequest: cr-1. \
         Please obtain 2 approvals from required approvers before proceeding."
    );
    assert_eq!(r.warnings[1], "ChangeRequest: cr-1");
    let failed = Checked::CreateFailed { reason: "down".to_string() };
    assert!(validate_admission("u", &failed, true).allowed);
    let status = validate_admission("u", &failed, false).status.unwrap();
    assert_eq!(status.code, 500);
    assert_eq!(status.message, "Failed to create approval request: down");
    let unchecked = Checked::CheckFailed { reason: "down".to_string() };
    assert_eq!(validate_admission("u", &unchecked, false).status.unwrap().message, "Approval check failed: down");
}
