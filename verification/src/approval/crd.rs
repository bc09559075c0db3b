//! Change requests: what is asked for, who must approve it, and how far it has got.

use vstd::prelude::*;
#[allow(unused_imports)]
use vstd::string::*;
use crate::json::Json;
use crate::strmap::StrMap;
#[allow(unused_imports)]
use crate::text::copy_opt;

verus! {

/// Privileged operation classes that require multi-party approval.
#[derive(Debug, Clone, PartialEq, Eq)]
pub enum ChangeClass {
    /// Cluster-wide configuration changes.
    ClusterConfig,
    /// Security policy modifications (PSS, NetworkPolicy, RBAC).
    SecurityPolicy,
    /// Namespace creation/deletion in restricted environments.
    NamespaceManagement,
    /// Node version upgrades affecting quorum.
    NodeUpgrade,
    /// Disaster recovery operations (failover, restore).
    DisasterRecovery,
    /// Certificate rotation affecting multiple nodes.
    CertificateRotation,
    /// Custom privileged operation with user-defined approvers.
    Custom(String),
}

impl ChangeClass {
    /// The name of the class.
    pub open spec fn label(self) -> Seq<char> {
        match self {
            ChangeClass::ClusterConfig => "ClusterConfig"@,
            ChangeClass::SecurityPolicy => "SecurityPolicy"@,
            ChangeClass::NamespaceManagement => "NamespaceManagement"@,
            ChangeClass::NodeUpgrade => "NodeUpgrade"@,
            ChangeClass::DisasterRecovery => "DisasterRecovery"@,
            ChangeClass::CertificateRotation => "CertificateRotation"@,
            ChangeClass::Custom(s) => "Custom("@ + s@ + ")"@,
        }
    }

    /// The name of the class.
    pub fn name(&self) -> (out: String)
        ensures
            out@ == self.label(),
    {
        match self {
            ChangeClass::ClusterConfig => "ClusterConfig".to_owned(),
            ChangeClass::SecurityPolicy => "SecurityPolicy".to_owned(),
            ChangeClass::NamespaceManagement => "NamespaceManagement".to_owned(),
            ChangeClass::NodeUpgrade => "NodeUpgrade".to_owned(),
            ChangeClass::DisasterRecovery => "DisasterRecovery".to_owned(),
            ChangeClass::CertificateRotation => "CertificateRotation".to_owned(),
            ChangeClass::Custom(s) => {
                let mut out = "Custom(".to_owned();
                out.append(s.as_str());
                out.append(")");
                out
            },
        }
    }
}

/// Specific privileged operation being requested.
#[derive(Debug)]
pub struct PrivilegedOperation {
    /// The class of change.
    pub class: ChangeClass,
    /// Target resource (group/version/kind/name/namespace).
    pub target_ref: TargetReference,
    /// Human-readable description of the change.
    pub description: String,
    /// Patch or manifest representing the desired change.
    pub change_payload: Json,
    /// Risk assessment level.
    pub risk_level: RiskLevel,
}

/// Risk level of the privileged operation.
#[derive(Debug, Clone, Copy, PartialEq, Eq, Structural)]
pub enum RiskLevel {
    Low,
    Medium,
    High,
    Critical,
}

/// Reference to the target Kubernetes resource.
#[derive(Debug, PartialEq, Eq)]
pub struct TargetReference {
    pub api_version: String,
    pub kind: String,
    pub name: String,
    pub namespace: Option<String>,
}

/// Approver identity.
#[derive(Debug, PartialEq, Eq)]
pub struct Approver {
    /// Unique identifier (user principal, service account, or group).
    pub identity: String,
    /// Human-readable name.
    pub name: Option<String>,
    /// Whether this approver is required (vs optional).
    pub required: bool,
}

impl Clone for Approver {
    fn clone(&self) -> (r: Self)
        ensures
            r == *self,
    {
        Approver { identity: self.identity.clone(), name: copy_opt(&self.name), required: self.required }
    }
}

/// Individual approval record.
#[derive(Debug, PartialEq, Eq)]
pub struct Approval {
    /// Approver identity.
    pub approver: Approver,
    /// Approval decision.
    pub decision: ApprovalDecision,
    /// When the vote was cast, in microseconds since the epoch.
    pub timestamp: i64,
    /// Optional justification/comment.
    pub justification: Option<String>,
    /// Cryptographic signature of the approval (for non-repudiation).
    pub signature: Option<String>,
}

/// Approval decision.
#[derive(Debug, Clone, Copy, PartialEq, Eq, Structural)]
pub enum ApprovalDecision {
    Approve,
    Reject,
}

/// Current approval state.
#[derive(Debug, Clone, Copy, PartialEq, Eq, Structural)]
pub enum ApprovalState {
    /// Waiting for approvals.
    Pending,
    /// Sufficient approvals received.
    Approved,
    /// Explicitly rejected by a required approver.
    Rejected,
    /// Expired without reaching quorum.
    Expired,
    /// Executed successfully.
    Executed,
    /// Execution failed.
    Failed,
}

/// Phase of the change request lifecycle.
#[derive(Debug, Clone, Copy, PartialEq, Eq, Structural)]
pub enum ChangeRequestPhase {
    Pending,
    UnderReview,
    Approved,
    Rejected,
    Expired,
    Executing,
    Executed,
    Failed,
}

impl Default for ChangeRequestPhase {
    fn default() -> (p: Self)
        ensures
            p == ChangeRequestPhase::Pending,
    {
        ChangeRequestPhase::Pending
    }
}

/// What a change request asks for.
#[derive(Debug)]
pub struct ChangeRequestSpec {
    /// The privileged operation being requested.
    pub operation: PrivilegedOperation,
    /// Required approvers for this change class.
    pub required_approvers: Vec<Approver>,
    /// Optional additional approvers.
    pub optional_approvers: Vec<Approver>,
    /// Minimum number of approvals required (N-of-M).
    pub min_approvals: u32,
    /// Time-to-live for the approval request, in words (e.g. `24h`).
    pub ttl: String,
    /// Whether to auto-execute on approval.
    pub auto_execute: bool,
    /// Optional execution window (cron expression).
    pub execution_window: Option<String>,
    /// Metadata for audit trail.
    pub metadata: StrMap<String>,
}

/// The time-to-live where none is given.
pub fn default_ttl() -> (s: String)
    ensures
        s@ == "24h"@,
{
    "24h".to_owned()
}

/// How far a change request has got.
#[derive(Debug)]
pub struct ChangeRequestStatus {
    /// Current phase.
    pub phase: ChangeRequestPhase,
    /// Current approval state.
    pub approval_state: ApprovalState,
    /// All approvals received.
    pub approvals: Vec<Approval>,
    /// Number of approvals received.
    pub approvals_received: u32,
    /// Number of approvals required.
    pub approvals_required: u32,
    /// Whether quorum has been reached.
    pub quorum_reached: bool,
    /// Expiration, in microseconds since the epoch.
    pub expires_at: Option<i64>,
    /// Execution, in microseconds since the epoch.
    pub executed_at: Option<i64>,
    /// Execution result.
    pub execution_result: Option<String>,
    /// Conditions for Kubernetes status.
    pub conditions: Vec<ChangeRequestCondition>,
    /// Last update, in microseconds since the epoch.
    pub last_updated: i64,
}

impl Default for ChangeRequestStatus {
    fn default() -> (s: Self)
        ensures
            s.phase == ChangeRequestPhase::Pending,
            s.approval_state == ApprovalState::Pending,
            s.approvals@.len() == 0,
            s.approvals_received == 0,
            s.approvals_required == 0,
            !s.quorum_reached,
            s.expires_at is None,
            s.executed_at is None,
            s.execution_result is None,
            s.conditions@.len() == 0,
            s.last_updated == 0,
    {
        ChangeRequestStatus {
            phase: ChangeRequestPhase::Pending,
            approval_state: ApprovalState::Pending,
            approvals: Vec::new(),
            approvals_received: 0,
            approvals_required: 0,
            quorum_reached: false,
            expires_at: None,
            executed_at: None,
            execution_result: None,
            conditions: Vec::new(),
            last_updated: 0,
        }
    }
}

/// Condition for the Kubernetes status subresource.
#[derive(Debug, PartialEq, Eq)]
pub struct ChangeRequestCondition {
    pub type_: String,
    pub status: String,
    pub reason: String,
    pub message: String,
    pub last_transition_time: Option<i64>,
    pub observed_generation: Option<i64>,
}

/// A change request with its metadata.
#[derive(Debug)]
pub struct ChangeRequest {
    pub name: String,
    pub namespace: String,
    pub generation: Option<i64>,
    pub labels: StrMap<String>,
    pub annotations: StrMap<String>,
    pub spec_: ChangeRequestSpec,
    pub status: Option<ChangeRequestStatus>,
}

} // verus!
