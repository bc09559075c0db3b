//! Admission control: privileged operations are held back until enough approvers agree.

use vstd::prelude::*;
#[allow(unused_imports)]
use vstd::string::*;
#[allow(unused_imports)]
use crate::ids::{fresh_id, is_hyphenated};
#[allow(unused_imports)]
use crate::approval::controller::{reviewed, verdict};
#[allow(unused_imports)]
use crate::approval::crd::{
    Approval, ApprovalState, Approver, ChangeClass, ChangeRequest, ChangeRequestPhase, ChangeRequestSpec,
    ChangeRequestStatus, PrivilegedOperation, RiskLevel, TargetReference,
};
#[allow(unused_imports)]
use crate::duration_text::{int_of, parse_duration, seconds_of, unit_seconds};
#[allow(unused_imports)]
use crate::json::{Doc, Json};
#[allow(unused_imports)]
use crate::span::Duration;
#[allow(unused_imports)]
use crate::strmap::{texts, StrMap};
#[allow(unused_imports)]
use crate::text::{
    before_char, copy_opt, dec, decimal, decimal_wide, lowercase, opt_view, same, same_opt, strip_end, to_lowercase, up_to, views,
};

verus! {

/// An admission request (subset of the Kubernetes one).
#[derive(Debug)]
pub struct SimpleAdmissionRequest {
    pub uid: String,
    pub kind: SimpleGroupVersionKind,
    pub operation: String,
    pub name: String,
    pub namespace: Option<String>,
    pub object: Option<Json>,
    pub user_info: SimpleUserInfo,
}

/// Group, version and kind of a resource.
#[derive(Debug)]
pub struct SimpleGroupVersionKind {
    pub group: String,
    pub version: String,
    pub kind: String,
}

/// Who makes a request.
#[derive(Debug)]
pub struct SimpleUserInfo {
    pub username: String,
    pub uid: Option<String>,
    pub groups: Vec<String>,
    pub extra: StrMap<Vec<String>>,
}

/// The answer to an admission request.
#[derive(Debug)]
pub struct SimpleAdmissionResponse {
    pub uid: String,
    pub allowed: bool,
    pub status: Option<SimpleStatus>,
    pub warnings: Vec<String>,
}

/// Code and message of an answer.
#[derive(Debug)]
pub struct SimpleStatus {
    pub code: i32,
    pub message: String,
}

/// The approvers of each class of change.
pub struct ApprovalWebhook {
    /// Default TTL for change requests.
    pub default_ttl: Duration,
    pub approver_cache: StrMap<Vec<Approver>>,
}

/// A time-to-live, written as its whole seconds.
pub open spec fn ttl_text(ttl: Duration) -> Seq<char> {
    dec((ttl.nanos / 1_000_000_000) as nat).push('s')
}

/// Identity, name and whether the approver is required.
pub open spec fn approver_view(a: Approver) -> (Seq<char>, Option<Seq<char>>, bool) {
    (a.identity@, opt_view(a.name), a.required)
}

/// What a list of approvers says.
pub open spec fn approver_views(v: Seq<Approver>) -> Seq<(Seq<char>, Option<Seq<char>>, bool)> {
    v.map_values(|a: Approver| approver_view(a))
}

/// A list of one required approver.
pub open spec fn one(identity: Seq<char>, name: Seq<char>) -> Seq<(Seq<char>, Option<Seq<char>>, bool)> {
    Seq::empty().push((identity, Some(name), true))
}

/// A list of two required approvers.
pub open spec fn two(
    identity: Seq<char>,
    name: Seq<char>,
    identity2: Seq<char>,
    name2: Seq<char>,
) -> Seq<(Seq<char>, Option<Seq<char>>, bool)> {
    one(identity, name).push((identity2, Some(name2), true))
}

/// The approvers of the built-in classes.
pub open spec fn builtin_approvers(class: Seq<char>) -> Option<Seq<(Seq<char>, Option<Seq<char>>, bool)>> {
    if class == "CertificateRotation"@ {
        Some(two("security-team"@, "Security Team"@, "platform-team"@, "Platform Team"@))
    } else if class == "DisasterRecovery"@ {
        Some(two("incident-commander"@, "Incident Commander"@, "platform-team"@, "Platform Team"@))
    } else if class == "NodeUpgrade"@ {
        Some(two("stellar-ops"@, "Stellar Operations"@, "platform-team"@, "Platform Team"@))
    } else if class == "NamespaceManagement"@ {
        Some(one("platform-team"@, "Platform Team"@))
    } else if class == "SecurityPolicy"@ {
        Some(two("security-team"@, "Security Team"@, "platform-team"@, "Platform Team"@))
    } else if class == "ClusterConfig"@ {
        Some(two("cluster-admin"@, "Cluster Admin"@, "security-team"@, "Security Team"@))
    } else {
        None
    }
}

/// A list of one required approver.
fn require_one(identity: &str, name: &str) -> (v: Vec<Approver>)
    ensures
        approver_views(v@) == one(identity@, name@),
{
    let mut v: Vec<Approver> = Vec::new();
    v.push(Approver { identity: identity.to_owned(), name: Some(name.to_owned()), required: true });
    proof {
        assert(approver_views(v@) =~= one(identity@, name@));
    }
    v
}

/// A list of two required approvers.
fn require_two(identity: &str, name: &str, identity2: &str, name2: &str) -> (v: Vec<Approver>)
    ensures
        approver_views(v@) == two(identity@, name@, identity2@, name2@),
{
    let mut v = require_one(identity, name);
    let ghost was = v@;
    v.push(Approver { identity: identity2.to_owned(), name: Some(name2.to_owned()), required: true });
    proof {
        assert(approver_views(v@) =~= approver_views(was).push((identity2@, Some(name2@), true)));
    }
    v
}

/// Copies a list of approvers.
fn copy_approvers(v: &Vec<Approver>) -> (out: Vec<Approver>)
    ensures
        out@ == v@,
{
    let mut out: Vec<Approver> = Vec::new();
    let mut i: usize = 0;
    while i < v.len()
        invariant
            i <= v@.len(),
            out@ == v@.take(i as int),
        decreases v@.len() - i,
    {
        out.push(v[i].clone());
        proof {
            assert(v@.take(i as int + 1) =~= v@.take(i as int).push(v@[i as int]));
        }
        i = i + 1;
    }
    proof {
        assert(v@.take(v@.len() as int) =~= v@);
    }
    out
}

/// The operation is one that can need approval.
pub open spec fn is_checked_operation(op: Seq<char>) -> bool {
    op == "CREATE"@ || op == "UPDATE"@ || op == "DELETE"@
}

/// Resources of this kind are privileged.
pub open spec fn is_privileged_kind(kind: Seq<char>) -> bool {
    ||| kind == "StellarNode"@
    ||| kind == "NetworkPolicy"@
    ||| kind == "PodSecurityPolicy"@
    ||| kind == "Role"@
    ||| kind == "ClusterRole"@
    ||| kind == "RoleBinding"@
    ||| kind == "ClusterRoleBinding"@
    ||| kind == "Namespace"@
    ||| kind == "CertificateSigningRequest"@
}

/// The request needs an approved change request.
pub open spec fn is_guarded(request: SimpleAdmissionRequest) -> bool {
    is_checked_operation(request.operation@) && is_privileged_kind(request.kind.kind@)
}

/// The operation is for the resource of the request.
pub open spec fn same_target(operation: PrivilegedOperation, request: SimpleAdmissionRequest) -> bool {
    &&& operation.target_ref.kind@ == request.kind.kind@
    &&& operation.target_ref.name@ == request.name@
    &&& opt_view(operation.target_ref.namespace) == opt_view(request.namespace)
}

/// The change request is approved, not yet taken further, and for this request.
pub open spec fn authorises(cr: ChangeRequest, request: SimpleAdmissionRequest) -> bool {
    &&& cr.status matches Some(s) && s.approval_state == ApprovalState::Approved && s.phase
        == ChangeRequestPhase::Approved
    &&& same_target(cr.spec_.operation, request)
}

/// Some change request authorises the request.
pub open spec fn is_authorised(existing: Seq<ChangeRequest>, request: SimpleAdmissionRequest) -> bool {
    exists|i: int| 0 <= i < existing.len() && authorises(#[trigger] existing[i], request)
}

/// The class of change that a request for a resource of `kind` is.
pub open spec fn class_of(kind: Seq<char>, c: ChangeClass) -> bool {
    if kind == "StellarNode"@ {
        c is NodeUpgrade
    } else if kind == "NetworkPolicy"@ || kind == "PodSecurityPolicy"@ || kind == "Role"@ || kind == "ClusterRole"@
        || kind == "RoleBinding"@ || kind == "ClusterRoleBinding"@ {
        c is SecurityPolicy
    } else if kind == "Namespace"@ {
        c is NamespaceManagement
    } else if kind == "CertificateSigningRequest"@ {
        c is CertificateRotation
    } else {
        c matches ChangeClass::Custom(s) && s@ == kind
    }
}

/// The change that a request stands for, to be approved within `ttl`.
pub open spec fn is_requested_change(
    cache: Map<Seq<char>, Vec<Approver>>,
    ttl: Duration,
    request: SimpleAdmissionRequest,
    s: ChangeRequestSpec,
) -> bool {
    let t = s.operation.target_ref;
    &&& class_of(request.kind.kind@, s.operation.class)
    &&& t.api_version@ == request.kind.group@ + "/"@ + request.kind.version@
    &&& t.kind@ == request.kind.kind@
    &&& t.name@ == request.name@
    &&& t.namespace == request.namespace
    &&& s.operation.description@ == "Privileged operation on "@ + request.kind.kind@ + "/"@ + request.name@
    &&& s.operation.change_payload@ == match request.object {
        Some(o) => o@,
        None => Doc::Null,
    }
    &&& s.operation.risk_level == RiskLevel::Medium
    &&& s.required_approvers@ == if cache.contains_key(s.operation.class.label()) {
        cache[s.operation.class.label()]@
    } else {
        Seq::<Approver>::empty()
    }
    &&& s.optional_approvers@.len() == 0
    &&& s.min_approvals == 2
    &&& s.ttl@ == ttl_text(ttl)
    &&& !s.auto_execute
    &&& s.execution_window is None
    &&& s.metadata@ == Map::<Seq<char>, String>::empty()
}

impl ApprovalWebhook {
    /// A webhook that knows the approvers of the built-in classes, and gives change requests
    /// `default_ttl` to be approved in.
    pub fn new(default_ttl: Duration) -> (w: Self)
        ensures
            w.default_ttl == default_ttl,
            forall|c: Seq<char>| #[trigger] w.approver_cache@.contains_key(c) <==> builtin_approvers(c) is Some,
            forall|c: Seq<char>| #[trigger]
                w.approver_cache@.contains_key(c) ==> Some(approver_views(w.approver_cache@[c]@)) == builtin_approvers(
                    c,
                ),
    {
        let mut cache: StrMap<Vec<Approver>> = StrMap::new();
        cache.insert(
            "ClusterConfig".to_owned(),
            require_two("cluster-admin", "Cluster Admin", "security-team", "Security Team"),
        );
        cache.insert(
            "SecurityPolicy".to_owned(),
            require_two("security-team", "Security Team", "platform-team", "Platform Team"),
        );
        cache.insert("NamespaceManagement".to_owned(), require_one("platform-team", "Platform Team"));
        cache.insert(
            "NodeUpgrade".to_owned(),
            require_two("stellar-ops", "Stellar Operations", "platform-team", "Platform Team"),
        );
        cache.insert(
            "DisasterRecovery".to_owned(),
            require_two("incident-commander", "Incident Commander", "platform-team", "Platform Team"),
        );
        cache.insert(
            "CertificateRotation".to_owned(),
            require_two("security-team", "Security Team", "platform-team", "Platform Team"),
        );
        ApprovalWebhook { default_ttl, approver_cache: cache }
    }

    /// Get required approvers for a change class.
    pub fn get_required_approvers(&self, class: &str) -> (out: Vec<Approver>)
        ensures
            out@ == if self.approver_cache@.contains_key(class@) {
                self.approver_cache@[class@]@
            } else {
                Seq::<Approver>::empty()
            },
    {
        match self.approver_cache.get(class) {
            Some(v) => copy_approvers(v),
            None => Vec::new(),
        }
    }

    /// Whether the request needs an approved change request at all.
    pub fn guards(request: &SimpleAdmissionRequest) -> (r: bool)
        ensures
            r == is_guarded(*request),
    {
        let op = request.operation.as_str();
        let kind = request.kind.kind.as_str();
        (same(op, "CREATE") || same(op, "UPDATE") || same(op, "DELETE")) && (same(kind, "StellarNode") || same(
            kind,
            "NetworkPolicy",
        ) || same(kind, "PodSecurityPolicy") || same(kind, "Role") || same(kind, "ClusterRole") || same(
            kind,
            "RoleBinding",
        ) || same(kind, "ClusterRoleBinding") || same(kind, "Namespace") || same(kind, "CertificateSigningRequest"))
    }

    /// The label selector under which change requests for this request are found.
    pub fn selector(request: &SimpleAdmissionRequest) -> (out: String)
        ensures
            out@ == "approval.stellar.org/target-name="@ + request.name@ + ",approval.stellar.org/target-namespace="@
                + (match request.namespace {
                Some(ns) => ns@,
                None => ""@,
            }) + ",approval.stellar.org/target-kind="@ + request.kind.kind@,
    {
        let mut out = "approval.stellar.org/target-name=".to_owned();
        out.append(request.name.as_str());
        out.append(",approval.stellar.org/target-namespace=");
        match &request.namespace {
            Some(ns) => {
                out.append(ns.as_str());
            },
            None => {
                out.append("");
            },
        }
        out.append(",approval.stellar.org/target-kind=");
        out.append(request.kind.kind.as_str());
        out
    }

    /// Check if a request requires approval: `None` where it does not, or where one of the
    /// `existing` change requests authorises it; else the change to be approved.
    pub fn requires_approval(&self, request: &SimpleAdmissionRequest, existing: &Vec<ChangeRequest>) -> (r: Option<
        ChangeRequestSpec,
    >)
        ensures
            r is None <==> !is_guarded(*request) || is_authorised(existing@, *request),
            r matches Some(s) ==> is_requested_change(self.approver_cache@, self.default_ttl, *request, s),
    {
        if !Self::guards(request) {
            return None;
        }
        let mut i: usize = 0;
        while i < existing.len()
            invariant
                i <= existing@.len(),
                forall|k: int| 0 <= k < i ==> !authorises(#[trigger] existing@[k], *request),
            decreases existing@.len() - i,
        {
            let cr = &existing[i];
            if let Some(s) = &cr.status {
                if s.approval_state == ApprovalState::Approved && s.phase == ChangeRequestPhase::Approved
                    && self.operation_matches_request(&cr.spec_.operation, request) {
                    proof {
                        assert(authorises(existing@[i as int], *request));
                    }
                    return None;
                }
            }
            i = i + 1;
        }
        let class = self.infer_change_class(request);
        let required_approvers = self.get_required_approvers(class.name().as_str());
        let mut api_version = request.kind.group.clone();
        api_version.append("/");
        api_version.append(request.kind.version.as_str());
        let mut description = "Privileged operation on ".to_owned();
        description.append(request.kind.kind.as_str());
        description.append("/");
        description.append(request.name.as_str());
        let mut ttl = decimal_wide(self.default_ttl.nanos / 1_000_000_000);
        ttl.push('s');
        Some(
            ChangeRequestSpec {
                operation: PrivilegedOperation {
                    class,
                    target_ref: TargetReference {
                        api_version,
                        kind: request.kind.kind.clone(),
                        name: request.name.clone(),
                        namespace: copy_opt(&request.namespace),
                    },
                    description,
                    change_payload: match &request.object {
                        Some(o) => o.copy(),
                        None => Json::Null,
                    },
                    risk_level: RiskLevel::Medium,
                },
                required_approvers,
                optional_approvers: Vec::new(),
                min_approvals: 2,
                ttl,
                auto_execute: false,
                execution_window: None,
                metadata: StrMap::new(),
            },
        )
    }

    /// Infer the change class from the admission request.
    pub fn infer_change_class(&self, request: &SimpleAdmissionRequest) -> (c: ChangeClass)
        ensures
            class_of(request.kind.kind@, c),
    {
        let kind = request.kind.kind.as_str();
        if same(kind, "StellarNode") {
            ChangeClass::NodeUpgrade
        } else if same(kind, "NetworkPolicy") || same(kind, "PodSecurityPolicy") || same(kind, "Role") || same(
            kind,
            "ClusterRole",
        ) || same(kind, "RoleBinding") || same(kind, "ClusterRoleBinding") {
            ChangeClass::SecurityPolicy
        } else if same(kind, "Namespace") {
            ChangeClass::NamespaceManagement
        } else if same(kind, "CertificateSigningRequest") {
            ChangeClass::CertificateRotation
        } else {
            ChangeClass::Custom(request.kind.kind.clone())
        }
    }

    /// Check if an operation matches the admission request.
    pub fn operation_matches_request(
        &self,
        operation: &PrivilegedOperation,
        request: &SimpleAdmissionRequest,
    ) -> (r: bool)
        ensures
            r == same_target(*operation, *request),
    {
        same(operation.target_ref.kind.as_str(), request.kind.kind.as_str()) && same(
            operation.target_ref.name.as_str(),
            request.name.as_str(),
        ) && same_opt(&operation.target_ref.namespace, &request.namespace)
    }
}

/// Register custom approvers for a change class.
pub fn register_approvers(webhook: &mut ApprovalWebhook, change_class: String, approvers: Vec<Approver>)
    ensures
        final(webhook).approver_cache@ == old(webhook).approver_cache@.insert(change_class@, approvers),
        final(webhook).default_ttl == old(webhook).default_ttl,
{
    webhook.approver_cache.insert(change_class, approvers);
}

/// What the check of an admission request came to.
pub enum Checked {
    /// No approval is needed.
    NotRequired,
    /// A change request was created; it needs this many approvals.
    Requested { change_request: String, min_approvals: u32 },
    /// A change request was needed and could not be created.
    CreateFailed { reason: String },
    /// Whether approval is needed could not be found out.
    CheckFailed { reason: String },
}

/// The response lets the request pass.
pub open spec fn is_allowed(r: SimpleAdmissionResponse, uid: Seq<char>) -> bool {
    r.uid@ == uid && r.allowed && r.status is None && r.warnings@.len() == 0
}

/// The response refuses the request with this code and message.
pub open spec fn is_refused(r: SimpleAdmissionResponse, uid: Seq<char>, code: i32, message: Seq<char>) -> bool {
    r.uid@ == uid && !r.allowed && (r.status matches Some(s) && s.code == code && s.message@ == message)
}

/// The message of a request that is held back.
pub open spec fn held_back_text(change_request: Seq<char>, min_approvals: nat) -> Seq<char> {
    "Privileged operation requires multi-party approval. Created ChangeRequest: "@ + change_request
        + ". Please obtain "@ + dec(min_approvals) + " approvals from required approvers before proceeding."@
}

/// A response that lets the request pass.
pub fn allow(uid: &str) -> (r: SimpleAdmissionResponse)
    ensures
        is_allowed(r, uid@),
{
    SimpleAdmissionResponse { uid: uid.to_owned(), allowed: true, status: None, warnings: Vec::new() }
}

/// A response that refuses the request.
fn refuse(uid: &str, code: i32, message: String) -> (r: SimpleAdmissionResponse)
    ensures
        is_refused(r, uid@, code, message@),
        r.warnings@.len() == 0,
{
    SimpleAdmissionResponse {
        uid: uid.to_owned(),
        allowed: false,
        status: Some(SimpleStatus { code, message }),
        warnings: Vec::new(),
    }
}

/// `r` is the answer to a request of which the check came to `checked`.
pub open spec fn is_answer(r: SimpleAdmissionResponse, uid: Seq<char>, checked: Checked, fail_open: bool) -> bool {
    match checked {
        Checked::NotRequired => is_allowed(r, uid),
        Checked::Requested { change_request, min_approvals } => {
            &&& is_refused(r, uid, 403, held_back_text(change_request@, min_approvals as nat))
            &&& views(r.warnings@) == Seq::<Seq<char>>::empty().push("Operation blocked pending approval"@).push(
                "ChangeRequest: "@ + change_request@,
            )
        },
        Checked::CreateFailed { reason } => if fail_open {
            is_allowed(r, uid)
        } else {
            is_refused(r, uid, 500, "Failed to create approval request: "@ + reason@) && r.warnings@.len() == 0
        },
        Checked::CheckFailed { reason } => if fail_open {
            is_allowed(r, uid)
        } else {
            is_refused(r, uid, 500, "Approval check failed: "@ + reason@) && r.warnings@.len() == 0
        },
    }
}

/// Answers an admission request once it has been checked. Where the check or the creation
/// of a change request failed, the request passes only if the webhook fails open.
pub fn validate_admission(uid: &str, checked: &Checked, fail_open: bool) -> (r: SimpleAdmissionResponse)
    ensures
        is_answer(r, uid@, *checked, fail_open),
{
    match checked {
        Checked::NotRequired => allow(uid),
        Checked::Requested { change_request, min_approvals } => {
            let mut message = "Privileged operation requires multi-party approval. Created ChangeRequest: ".to_owned();
            message.append(change_request.as_str());
            message.append(". Please obtain ");
            message.append(decimal(*min_approvals as u64).as_str());
            message.append(" approvals from required approvers before proceeding.");
            let mut r = refuse(uid, 403, message);
            let mut note = "ChangeRequest: ".to_owned();
            note.append(change_request.as_str());
            let mut warnings: Vec<String> = Vec::new();
            warnings.push("Operation blocked pending approval".to_owned());
            warnings.push(note);
            proof {
                assert(views(warnings@) =~= Seq::<Seq<char>>::empty().push("Operation blocked pending approval"@).push(
                    "ChangeRequest: "@ + change_request@,
                ));
            }
            r.warnings = warnings;
            r
        },
        Checked::CreateFailed { reason } => {
            if fail_open {
                allow(uid)
            } else {
                let mut message = "Failed to create approval request: ".to_owned();
                message.append(reason.as_str());
                refuse(uid, 500, message)
            }
        },
        Checked::CheckFailed { reason } => {
            if fail_open {
                allow(uid)
            } else {
                let mut message = "Approval check failed: ".to_owned();
                message.append(reason.as_str());
                refuse(uid, 500, message)
            }
        },
    }
}

/// When a request made at `now` with this time-to-live expires; `None` where the
/// time-to-live cannot be read or reaches beyond what can be represented.
pub open spec fn expiry_of(ttl: Seq<char>, now: i64) -> Option<i64> {
    match seconds_of(ttl) {
        Ok(n) => if i64::MIN <= now + n * 1_000_000 <= i64::MAX {
            Some((now + n * 1_000_000) as i64)
        } else {
            None
        },
        Err(_) => None,
    }
}

/// When a request made at `now` with this time-to-live expires.
fn expiry(ttl: &str, now: i64) -> (r: Option<i64>)
    ensures
        r == expiry_of(ttl@, now),
{
    match parse_duration(ttl) {
        Ok(n) => {
            proof {
                assert(-9_223_372_036_854_775_808 * 86400 <= n <= 9_223_372_036_854_775_807 * 86400) by {
                    seconds_bounded(ttl@);
                }
            }
            let t: i128 = now as i128 + n * 1_000_000;
            if t < i64::MIN as i128 || t > i64::MAX as i128 {
                None
            } else {
                Some(t as i64)
            }
        },
        Err(_) => None,
    }
}

/// A length of time that can be read is bounded.
proof fn seconds_bounded(s: Seq<char>)
    ensures
        seconds_of(s) matches Ok(n) ==> -9_223_372_036_854_775_808 * 86400 <= n <= 9_223_372_036_854_775_807 * 86400,
{
    if seconds_of(s) is Ok {
        let v = int_of(strip_end(s, s.last()))->0;
        let u = unit_seconds(s.last())->0;
        assert(-9_223_372_036_854_775_808 * 86400 <= v * u <= 9_223_372_036_854_775_807 * 86400) by (nonlinear_arith)
            requires
                -9_223_372_036_854_775_808 <= v <= 9_223_372_036_854_775_807,
                1 <= u <= 86400,
        ;
    }
}

/// `cr` is the change request for `request`, named with `id`.
pub open spec fn is_change_request(
    cr: ChangeRequest,
    namespace: Seq<char>,
    spec_: ChangeRequestSpec,
    request: SimpleAdmissionRequest,
    now: i64,
    id: Seq<char>,
) -> bool {
    let base = Map::<Seq<char>, Seq<char>>::empty().insert(
        "approval.stellar.org/target-kind"@,
        request.kind.kind@,
    ).insert("approval.stellar.org/target-name"@, request.name@);
    let targeted = match request.namespace {
        Some(ns) => base.insert("approval.stellar.org/target-namespace"@, ns@),
        None => base,
    };
    &&& cr.name@ == "cr-"@ + lowercase(request.kind.kind@) + "-"@ + request.name@ + "-"@ + up_to(id, '-')
    &&& cr.namespace@ == namespace
    &&& cr.generation is None
    &&& texts(cr.labels@) == targeted.insert("approval.stellar.org/operation"@, spec_.operation.class.label())
    &&& texts(cr.annotations@) == Map::<Seq<char>, Seq<char>>::empty().insert(
        "approval.stellar.org/requested-by"@,
        request.user_info.username@,
    ).insert("approval.stellar.org/operation"@, request.operation@)
    &&& cr.spec_ == spec_
    &&& cr.status matches Some(s) && is_fresh_status(s, spec_, now)
}

/// The status of a change request that was just created.
pub open spec fn is_fresh_status(s: ChangeRequestStatus, spec_: ChangeRequestSpec, now: i64) -> bool {
    &&& s.phase == ChangeRequestPhase::Pending
    &&& s.approval_state == ApprovalState::Pending
    &&& s.approvals@.len() == 0
    &&& s.approvals_received == 0
    &&& s.approvals_required == spec_.min_approvals
    &&& !s.quorum_reached
    &&& s.expires_at == expiry_of(spec_.ttl@, now)
    &&& s.executed_at is None
    &&& s.execution_result is None
    &&& s.conditions@.len() == 0
    &&& s.last_updated == now
}

/// The change request for `request`, named with `id`.
pub fn build_change_request(
    namespace: &str,
    spec_: ChangeRequestSpec,
    request: &SimpleAdmissionRequest,
    now: i64,
    id: &str,
) -> (cr: ChangeRequest)
    ensures
        is_change_request(cr, namespace@, spec_, *request, now, id@),
{
    let mut name = "cr-".to_owned();
    name.append(to_lowercase(request.kind.kind.as_str()).as_str());
    name.append("-");
    name.append(request.name.as_str());
    name.append("-");
    name.append(before_char(id, '-').as_str());
    let mut labels: StrMap<String> = StrMap::new();
    proof {
        assert(texts(labels@) =~= Map::<Seq<char>, Seq<char>>::empty());
    }
    labels.set("approval.stellar.org/target-kind", request.kind.kind.as_str());
    labels.set("approval.stellar.org/target-name", request.name.as_str());
    if let Some(ns) = &request.namespace {
        labels.set("approval.stellar.org/target-namespace", ns.as_str());
    }
    labels.set("approval.stellar.org/operation", spec_.operation.class.name().as_str());
    let mut annotations: StrMap<String> = StrMap::new();
    proof {
        assert(texts(annotations@) =~= Map::<Seq<char>, Seq<char>>::empty());
    }
    annotations.set("approval.stellar.org/requested-by", request.user_info.username.as_str());
    annotations.set("approval.stellar.org/operation", request.operation.as_str());
    let status = ChangeRequestStatus {
        phase: ChangeRequestPhase::Pending,
        approval_state: ApprovalState::Pending,
        approvals: Vec::new(),
        approvals_received: 0,
        approvals_required: spec_.min_approvals,
        quorum_reached: false,
        expires_at: expiry(spec_.ttl.as_str(), now),
        executed_at: None,
        execution_result: None,
        conditions: Vec::new(),
        last_updated: now,
    };
    ChangeRequest {
        name,
        namespace: namespace.to_owned(),
        generation: None,
        labels,
        annotations,
        spec_,
        status: Some(status),
    }
}

/// Create a change request with a fresh name.
pub fn create_change_request(
    namespace: &str,
    spec_: ChangeRequestSpec,
    request: &SimpleAdmissionRequest,
    now: i64,
) -> (cr: ChangeRequest)
    ensures
        exists|id: Seq<char>|
            is_hyphenated(id) && #[trigger] is_change_request(cr, namespace@, spec_, *request, now, id),
{
    let id = fresh_id();
    build_change_request(namespace, spec_, request, now, id.as_str())
}

/// A privileged request that no approved change request stands for is held back, unless the
/// webhook fails open and the change request could not be created.
pub proof fn unapproved_changes_are_held_back(
    existing: Seq<ChangeRequest>,
    request: SimpleAdmissionRequest,
    checked: Checked,
    fail_open: bool,
    r: SimpleAdmissionResponse,
    uid: Seq<char>,
)
    requires
        is_guarded(request),
        !is_authorised(existing, request),
        checked is Requested || checked is CreateFailed,
        is_answer(r, uid, checked, fail_open),
    ensures
        r.allowed ==> fail_open && checked is CreateFailed,
{
}

/// A change request that was created for a request and that its review then approved lets
/// that request pass.
pub proof fn approved_changes_pass(
    cache: Map<Seq<char>, Vec<Approver>>,
    ttl: Duration,
    existing: Seq<ChangeRequest>,
    i: int,
    request: SimpleAdmissionRequest,
    before: ChangeRequestStatus,
    now: i64,
)
    requires
        0 <= i < existing.len(),
        is_requested_change(cache, ttl, request, existing[i].spec_),
        verdict(existing[i].spec_, before, now) is Approve,
        existing[i].status == Some(reviewed(existing[i].spec_, before, now)),
    ensures
        is_authorised(existing, request),
{
    assert(authorises(existing[i], request));
}

/// Only a creation, an update or a deletion of a privileged kind is held back for approval: every
/// other operation passes, and so does every other kind.
pub proof fn privileged_changes_are_guarded(request: SimpleAdmissionRequest)
    ensures
        is_guarded(request) <==> {
            let op = request.operation@;
            let kind = request.kind.kind@;
            &&& op == "CREATE"@ || op == "UPDATE"@ || op == "DELETE"@
            &&& kind == "StellarNode"@ || kind == "NetworkPolicy"@ || kind == "PodSecurityPolicy"@ || kind == "Role"@
                || kind == "ClusterRole"@ || kind == "RoleBinding"@ || kind == "ClusterRoleBinding"@ || kind
                == "Namespace"@ || kind == "CertificateSigningRequest"@
        },
{
}

/// A change is let through only on an approved change request, in its approved phase, for the very
/// same kind, name and namespace.
pub proof fn approvals_are_for_their_target(existing: Seq<ChangeRequest>, request: SimpleAdmissionRequest)
    ensures
        is_authorised(existing, request) <==> exists|i: int|
            0 <= i < existing.len() && {
                let cr = #[trigger] existing[i];
                let t = cr.spec_.operation.target_ref;
                &&& cr.status is Some
                &&& (cr.status->0).approval_state is Approved
                &&& (cr.status->0).phase is Approved
                &&& t.kind@ == request.kind.kind@
                &&& t.name@ == request.name@
                &&& t.namespace is Some <==> request.namespace is Some
                &&& t.namespace is Some ==> (t.namespace->0)@ == (request.namespace->0)@
            },
{
    if is_authorised(existing, request) {
        let i = choose|i: int| 0 <= i < existing.len() && authorises(#[trigger] existing[i], request);
        let cr = existing[i];
        assert(cr.spec_.operation.target_ref.name@ == request.name@);
    }
    if exists|i: int|
        0 <= i < existing.len() && {
            let cr = #[trigger] existing[i];
            let t = cr.spec_.operation.target_ref;
            &&& cr.status is Some
            &&& (cr.status->0).approval_state is Approved
            &&& (cr.status->0).phase is Approved
            &&& t.kind@ == request.kind.kind@
            &&& t.name@ == request.name@
            &&& t.namespace is Some <==> request.namespace is Some
            &&& t.namespace is Some ==> (t.namespace->0)@ == (request.namespace->0)@
        } {
        let i = choose|i: int|
            0 <= i < existing.len() && {
                let cr = #[trigger] existing[i];
                let t = cr.spec_.operation.target_ref;
                &&& cr.status is Some
                &&& (cr.status->0).approval_state is Approved
                &&& (cr.status->0).phase is Approved
                &&& t.kind@ == request.kind.kind@
                &&& t.name@ == request.name@
                &&& t.namespace is Some <==> request.namespace is Some
                &&& t.namespace is Some ==> (t.namespace->0)@ == (request.namespace->0)@
            };
        assert(authorises(existing[i], request));
    }
}

/// The class of a change follows from what it changes: nodes are upgraded, namespaces managed,
/// certificates rotated, and roles, bindings and policies are matters of security.
pub proof fn classes_follow_from_the_kind(kind: Seq<char>, c: ChangeClass)
    requires
        class_of(kind, c),
    ensures
        kind == "StellarNode"@ ==> c is NodeUpgrade,
        kind == "Namespace"@ ==> c is NamespaceManagement,
        kind == "CertificateSigningRequest"@ ==> c is CertificateRotation,
        kind == "NetworkPolicy"@ || kind == "PodSecurityPolicy"@ || kind == "Role"@ || kind == "ClusterRole"@ || kind
            == "RoleBinding"@ || kind == "ClusterRoleBinding"@ ==> c is SecurityPolicy,
        c is Custom ==> c->Custom_0@ == kind,
{
    reveal_strlit("StellarNode");
    reveal_strlit("NetworkPolicy");
    reveal_strlit("PodSecurityPolicy");
    reveal_strlit("Role");
    reveal_strlit("ClusterRole");
    reveal_strlit("RoleBinding");
    reveal_strlit("ClusterRoleBinding");
    reveal_strlit("Namespace");
    reveal_strlit("CertificateSigningRequest");
    assert("StellarNode"@[0] == 'S' && "ClusterRole"@[0] == 'C' && "RoleBinding"@[0] == 'R');
    assert("StellarNode"@.len() == 11 && "NetworkPolicy"@.len() == 13 && "PodSecurityPolicy"@.len() == 17);
    assert("Role"@.len() == 4 && "ClusterRole"@.len() == 11 && "RoleBinding"@.len() == 11);
    assert("ClusterRoleBinding"@.len() == 18 && "Namespace"@.len() == 9);
    assert("CertificateSigningRequest"@.len() == 25);
}

/// The changes that a class of them stands for are approved by those whom they concern: security by
/// the security team, recovery by the incident commander, upgrades by operations, and the platform
/// team with them; the configuration of the cluster by its administrators.
pub proof fn classes_have_their_approvers()
    ensures
        builtin_approvers("CertificateRotation"@) == Some(
            seq![("security-team"@, Some("Security Team"@), true), ("platform-team"@, Some("Platform Team"@), true)],
        ),
        builtin_approvers("SecurityPolicy"@) == Some(
            seq![("security-team"@, Some("Security Team"@), true), ("platform-team"@, Some("Platform Team"@), true)],
        ),
        builtin_approvers("DisasterRecovery"@) == Some(
            seq![
                ("incident-commander"@, Some("Incident Commander"@), true),
                ("platform-team"@, Some("Platform Team"@), true),
            ],
        ),
        builtin_approvers("NodeUpgrade"@) == Some(
            seq![("stellar-ops"@, Some("Stellar Operations"@), true), ("platform-team"@, Some("Platform Team"@), true)],
        ),
        builtin_approvers("NamespaceManagement"@) == Some(seq![("platform-team"@, Some("Platform Team"@), true)]),
        builtin_approvers("ClusterConfig"@) == Some(
            seq![("cluster-admin"@, Some("Cluster Admin"@), true), ("security-team"@, Some("Security Team"@), true)],
        ),
{
    reveal_strlit("CertificateRotation");
    reveal_strlit("DisasterRecovery");
    reveal_strlit("NodeUpgrade");
    reveal_strlit("NamespaceManagement");
    reveal_strlit("SecurityPolicy");
    reveal_strlit("ClusterConfig");
    assert("CertificateRotation"@[0] == 'C' && "NamespaceManagement"@[0] == 'N');
    assert("CertificateRotation"@.len() == 19 && "DisasterRecovery"@.len() == 16 && "NodeUpgrade"@.len() == 11);
    assert("NamespaceManagement"@.len() == 19 && "SecurityPolicy"@.len() == 14 && "ClusterConfig"@.len() == 13);
    let p = ("platform-team"@, Some("Platform Team"@), true);
    let s = ("security-team"@, Some("Security Team"@), true);
    assert(two("security-team"@, "Security Team"@, "platform-team"@, "Platform Team"@) =~= seq![s, p]);
    assert(two("incident-commander"@, "Incident Commander"@, "platform-team"@, "Platform Team"@) =~= seq![
        ("incident-commander"@, Some("Incident Commander"@), true),
        p,
    ]);
    assert(two("stellar-ops"@, "Stellar Operations"@, "platform-team"@, "Platform Team"@) =~= seq![
        ("stellar-ops"@, Some("Stellar Operations"@), true),
        p,
    ]);
    assert(one("platform-team"@, "Platform Team"@) =~= seq![p]);
    assert(two("cluster-admin"@, "Cluster Admin"@, "security-team"@, "Security Team"@) =~= seq![
        ("cluster-admin"@, Some("Cluster Admin"@), true),
        s,
    ]);
}

/// A request that is held back is answered with a refusal that names the change request and how many
/// approvals it takes. Where the check itself fails, the request is let through only if the hook is
/// to fail open. What needs no approval is allowed.
pub proof fn admission_answers_say_what_was_found(
    r: SimpleAdmissionResponse,
    uid: Seq<char>,
    checked: Checked,
    fail_open: bool,
)
    requires
        is_answer(r, uid, checked, fail_open),
    ensures
        r.uid@ == uid,
        r.allowed <==> checked is NotRequired || fail_open && !(checked is Requested),
        checked is Requested ==> r.status is Some && (r.status->0).code == 403,
        !r.allowed && !(checked is Requested) ==> r.status is Some && (r.status->0).code == 500,
        checked matches Checked::Requested { change_request, min_approvals } ==> (r.status->0).message@
            == "Privileged operation requires multi-party approval. Created ChangeRequest: "@ + change_request@
            + ". Please obtain "@ + dec(min_approvals as nat)
            + " approvals from required approvers before proceeding."@,
{
}

/// A requested change waits for two approvals, is not carried out by itself, and expires after the
/// time that the hook gives it; its request starts without votes, pending.
pub proof fn requested_changes_wait_for_two(
    cache: Map<Seq<char>, Vec<Approver>>,
    ttl: Duration,
    request: SimpleAdmissionRequest,
    s: ChangeRequestSpec,
    cr: ChangeRequest,
    namespace: Seq<char>,
    now: i64,
    id: Seq<char>,
)
    requires
        is_requested_change(cache, ttl, request, s),
        is_change_request(cr, namespace, s, request, now, id),
    ensures
        s.min_approvals == 2,
        !s.auto_execute,
        s.operation.target_ref.kind@ == request.kind.kind@ && s.operation.target_ref.name@ == request.name@
            && s.operation.target_ref.namespace == request.namespace,
        cr.status is Some && (cr.status->0).phase is Pending && (cr.status->0).approval_state is Pending && (
        cr.status->0).approvals@.len() == 0 && !(cr.status->0).quorum_reached && (cr.status->0).approvals_required == 2,
        cr.namespace@ == namespace,
        texts(cr.annotations@)["approval.stellar.org/requested-by"@] == request.user_info.username@,
{
    reveal_strlit("approval.stellar.org/requested-by");
    reveal_strlit("approval.stellar.org/operation");
    assert("approval.stellar.org/requested-by"@.len() == 33);
    assert("approval.stellar.org/operation"@.len() == 30);
}

/// A time to live that can be read ends as many seconds after now as it says.
pub proof fn requests_end_after_their_time(ttl: Seq<char>, now: i64, n: int)
    requires
        seconds_of(ttl) is Ok,
        seconds_of(ttl)->Ok_0 == n,
        i64::MIN <= now + n * 1_000_000 <= i64::MAX,
    ensures
        expiry_of(ttl, now) is Some,
        expiry_of(ttl, now)->0 - now == n * 1_000_000,
{
}

/// A requested change carries what was asked for: the object to be written, what it is about, and the
/// approvers that its class has; it is of medium risk and runs whenever it is approved.
pub proof fn requested_changes_carry_the_request(
    cache: Map<Seq<char>, Vec<Approver>>,
    ttl: Duration,
    request: SimpleAdmissionRequest,
    s: ChangeRequestSpec,
)
    requires
        is_requested_change(cache, ttl, request, s),
    ensures
        request.object is None ==> s.operation.change_payload@ == Doc::Null,
        request.object is Some ==> s.operation.change_payload@ == (request.object->0)@,
        s.operation.target_ref.api_version@ == request.kind.group@ + "/"@ + request.kind.version@,
        s.operation.description@ == "Privileged operation on "@ + request.kind.kind@ + "/"@ + request.name@,
        s.operation.risk_level is Medium,
        cache.contains_key(s.operation.class.label()) ==> s.required_approvers@
            == cache[s.operation.class.label()]@,
        !cache.contains_key(s.operation.class.label()) ==> s.required_approvers@.len() == 0,
        s.optional_approvers@.len() == 0 && s.execution_window is None,
{
}

} // verus!
