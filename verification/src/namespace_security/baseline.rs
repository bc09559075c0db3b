//! Security baseline definitions.

use vstd::prelude::*;
#[allow(unused_imports)]
use vstd::string::*;
#[allow(unused_imports)]
use crate::json::{add_item, list, no_fields, no_items, object, put, put_text, text_value, Doc, Fields, Json};
use crate::strmap::StrMap;
#[allow(unused_imports)]
use crate::text::{copy_opt, copy_strings, debug_text, opt_view, same, text_debug, views};

verus! {

/// Baseline profile.
#[derive(Debug, PartialEq, Eq)]
pub enum BaselineProfile {
    /// Minimal baseline: basic pod security, restricted.
    Minimal,
    /// Standard baseline: minimal, network policies and resource limits.
    Standard,
    /// Strict baseline: standard, admission controls and encryption.
    Strict,
    /// Custom profile with user-defined checks.
    Custom(String),
}

/// What a profile says.
pub enum Profile {
    Minimal,
    Standard,
    Strict,
    Custom(Seq<char>),
}

impl View for BaselineProfile {
    type V = Profile;

    open spec fn view(&self) -> Profile {
        match self {
            BaselineProfile::Minimal => Profile::Minimal,
            BaselineProfile::Standard => Profile::Standard,
            BaselineProfile::Strict => Profile::Strict,
            BaselineProfile::Custom(s) => Profile::Custom(s@),
        }
    }
}

impl Default for BaselineProfile {
    fn default() -> (p: Self)
        ensures
            p is Minimal,
    {
        BaselineProfile::Minimal
    }
}

impl Clone for BaselineProfile {
    fn clone(&self) -> (r: Self)
        ensures
            r == *self,
    {
        match self {
            BaselineProfile::Minimal => BaselineProfile::Minimal,
            BaselineProfile::Standard => BaselineProfile::Standard,
            BaselineProfile::Strict => BaselineProfile::Strict,
            BaselineProfile::Custom(s) => BaselineProfile::Custom(s.clone()),
        }
    }
}

impl BaselineProfile {
    /// The profile's label.
    pub open spec fn label(self) -> Seq<char> {
        match self {
            BaselineProfile::Minimal => "Minimal"@,
            BaselineProfile::Standard => "Standard"@,
            BaselineProfile::Strict => "Strict"@,
            BaselineProfile::Custom(s) => "Custom("@ + text_debug(s@) + ")"@,
        }
    }

    /// The profile's label.
    pub fn name(&self) -> (s: String)
        ensures
            s@ == self.label(),
    {
        match self {
            BaselineProfile::Minimal => "Minimal".to_owned(),
            BaselineProfile::Standard => "Standard".to_owned(),
            BaselineProfile::Strict => "Strict".to_owned(),
            BaselineProfile::Custom(s) => {
                let mut out = "Custom(".to_owned();
                out.append(debug_text(s.as_str()).as_str());
                out.append(")");
                out
            },
        }
    }

    /// Whether this is the same profile.
    pub fn same_as(&self, other: &BaselineProfile) -> (r: bool)
        ensures
            r == (self@ == other@),
    {
        match (self, other) {
            (BaselineProfile::Minimal, BaselineProfile::Minimal) => true,
            (BaselineProfile::Standard, BaselineProfile::Standard) => true,
            (BaselineProfile::Strict, BaselineProfile::Strict) => true,
            (BaselineProfile::Custom(a), BaselineProfile::Custom(b)) => same(a.as_str(), b.as_str()),
            _ => false,
        }
    }
}

/// Auto-remediation configuration.
#[derive(Debug)]
pub struct AutoRemediationConfig {
    /// Enable auto-remediation.
    pub enabled: bool,
    /// Only remediate safe checks (no risk of breaking workloads).
    pub safe_only: bool,
    /// Maximum remediations per evaluation cycle.
    pub max_remediations_per_cycle: u32,
    /// Require approval for high-severity remediations.
    pub require_approval_high_severity: bool,
    /// Dry run mode.
    pub dry_run: bool,
    /// Notification webhook.
    pub notification_webhook: Option<String>,
}

impl Default for AutoRemediationConfig {
    fn default() -> (c: Self)
        ensures
            !c.enabled,
            !c.safe_only,
            c.max_remediations_per_cycle == 0,
            !c.require_approval_high_severity,
            !c.dry_run,
            c.notification_webhook is None,
    {
        AutoRemediationConfig {
            enabled: false,
            safe_only: false,
            max_remediations_per_cycle: 0,
            require_approval_high_severity: false,
            dry_run: false,
            notification_webhook: None,
        }
    }
}

/// The auto-remediation configuration where none of its fields is given: disabled, safe
/// checks only, ten per cycle, with approval for high severity.
pub fn unset_auto_remediation() -> (c: AutoRemediationConfig)
    ensures
        !c.enabled,
        c.safe_only,
        c.max_remediations_per_cycle == 10,
        c.require_approval_high_severity,
        !c.dry_run,
        c.notification_webhook is None,
{
    AutoRemediationConfig {
        enabled: false,
        safe_only: true,
        max_remediations_per_cycle: 10,
        require_approval_high_severity: true,
        dry_run: false,
        notification_webhook: None,
    }
}

/// The evaluation schedule where none is given: every six hours.
pub fn default_schedule() -> (s: String)
    ensures
        s@ == "0 */6 * * *"@,
{
    "0 */6 * * *".to_owned()
}

/// The remediation schedule where none is given: every twelve hours.
pub fn default_remediation_schedule() -> (s: String)
    ensures
        s@ == "0 */12 * * *"@,
{
    "0 */12 * * *".to_owned()
}

/// Security baseline.
#[derive(Debug)]
pub struct BaselineSpec {
    /// Baseline profile name.
    pub profile: BaselineProfile,
    /// Namespaces to evaluate (empty = all managed namespaces).
    pub target_namespaces: Vec<String>,
    /// Namespace label selector.
    pub namespace_selector: StrMap<String>,
    /// Checks to run (empty = all for profile).
    pub checks: Vec<String>,
    /// Checks to skip.
    pub skipped_checks: Vec<String>,
    /// Auto-remediation configuration.
    pub auto_remediation: AutoRemediationConfig,
    /// Evaluation schedule (cron expression).
    pub schedule: String,
    /// Remediation schedule (cron expression).
    pub remediation_schedule: String,
}

/// Baseline evaluation phase.
#[derive(Debug, Clone, Copy, PartialEq, Eq, Structural)]
pub enum BaselinePhase {
    Pending,
    Evaluating,
    Completed,
    Remediating,
    Failed,
}

impl Default for BaselinePhase {
    fn default() -> (p: Self)
        ensures
            p == BaselinePhase::Pending,
    {
        BaselinePhase::Pending
    }
}

/// Check severity.
#[derive(Debug, Clone, Copy, PartialEq, Eq, Structural)]
pub enum CheckSeverity {
    Info,
    Warning,
    Medium,
    High,
    Critical,
}

impl Default for CheckSeverity {
    fn default() -> (s: Self)
        ensures
            s == CheckSeverity::Warning,
    {
        CheckSeverity::Warning
    }
}

/// Check status.
#[derive(Debug, Clone, Copy, PartialEq, Eq, Structural)]
pub enum CheckStatus {
    Pass,
    Fail,
    Skip,
    Error,
}

impl Default for CheckStatus {
    fn default() -> (s: Self)
        ensures
            s == CheckStatus::Pass,
    {
        CheckStatus::Pass
    }
}

/// Remediation action type.
#[derive(Debug, Clone, Copy, PartialEq, Eq, Structural)]
pub enum RemediationActionType {
    AddLabel,
    RemoveLabel,
    AddAnnotation,
    PatchResource,
    CreateResource,
    DeleteResource,
    ApplyManifest,
}

impl RemediationActionType {
    /// The type's label.
    pub open spec fn label(self) -> Seq<char> {
        match self {
            RemediationActionType::AddLabel => "AddLabel"@,
            RemediationActionType::RemoveLabel => "RemoveLabel"@,
            RemediationActionType::AddAnnotation => "AddAnnotation"@,
            RemediationActionType::PatchResource => "PatchResource"@,
            RemediationActionType::CreateResource => "CreateResource"@,
            RemediationActionType::DeleteResource => "DeleteResource"@,
            RemediationActionType::ApplyManifest => "ApplyManifest"@,
        }
    }

    /// The type's label.
    pub fn name(&self) -> (s: &'static str)
        ensures
            s@ == self.label(),
    {
        match self {
            RemediationActionType::AddLabel => "AddLabel",
            RemediationActionType::RemoveLabel => "RemoveLabel",
            RemediationActionType::AddAnnotation => "AddAnnotation",
            RemediationActionType::PatchResource => "PatchResource",
            RemediationActionType::CreateResource => "CreateResource",
            RemediationActionType::DeleteResource => "DeleteResource",
            RemediationActionType::ApplyManifest => "ApplyManifest",
        }
    }
}

/// Target resource for remediation.
#[derive(Debug)]
pub struct TargetResource {
    pub api_version: String,
    pub kind: String,
    pub name: String,
    pub namespace: Option<String>,
}

/// Remediation action.
#[derive(Debug)]
pub struct RemediationAction {
    pub action_type: RemediationActionType,
    pub target_resource: TargetResource,
    pub parameters: StrMap<Json>,
    pub description: String,
}

/// What a remediation action says.
pub struct Action {
    pub action_type: RemediationActionType,
    pub api_version: Seq<char>,
    pub kind: Seq<char>,
    pub name: Seq<char>,
    pub namespace: Option<Seq<char>>,
    pub parameters: Map<Seq<char>, Doc>,
    pub description: Seq<char>,
}

/// The contents of the documents of a map.
pub open spec fn docs(m: Map<Seq<char>, Json>) -> Map<Seq<char>, Doc> {
    m.map_values(|j: Json| j@)
}

impl View for RemediationAction {
    type V = Action;

    open spec fn view(&self) -> Action {
        Action {
            action_type: self.action_type,
            api_version: self.target_resource.api_version@,
            kind: self.target_resource.kind@,
            name: self.target_resource.name@,
            namespace: opt_view(self.target_resource.namespace),
            parameters: docs(self.parameters@),
            description: self.description@,
        }
    }
}

impl Clone for RemediationAction {
    fn clone(&self) -> (r: Self)
        ensures
            r@ == self@,
    {
        RemediationAction {
            action_type: self.action_type,
            target_resource: TargetResource {
                api_version: self.target_resource.api_version.clone(),
                kind: self.target_resource.kind.clone(),
                name: self.target_resource.name.clone(),
                namespace: copy_opt(&self.target_resource.namespace),
            },
            parameters: copy_documents(&self.parameters),
            description: self.description.clone(),
        }
    }
}

/// A copy of a map of documents.
fn copy_documents(m: &StrMap<Json>) -> (out: StrMap<Json>)
    ensures
        docs(out@) == docs(m@),
{
    let mut out: StrMap<Json> = StrMap::new();
    let n: usize = m.len();
    let ghost pairs = m.pairs();
    let mut i: usize = 0;
    while i < n
        invariant
            i <= n == pairs.len(),
            pairs == m.pairs(),
            m@ == crate::strmap::map_of(pairs),
            forall|k: Seq<char>| #[trigger]
                out@.contains_key(k) <==> crate::strmap::keys_of(pairs).take(i as int).contains(k),
            forall|k: Seq<char>| #[trigger] out@.contains_key(k) ==> m@.contains_key(k) && out@[k]@ == m@[k]@,
        decreases n - i,
    {
        let k = m.key_at(i);
        let v = m.value_at(i);
        proof {
            let taken = crate::strmap::keys_of(pairs).take(i as int);
            let next = crate::strmap::keys_of(pairs).take(i as int + 1);
            assert(next =~= taken.push(k@));
            assert forall|x: Seq<char>| next.contains(x) <==> taken.contains(x) || x == k@ by {
                if next.contains(x) {
                    let j = next.index_of(x);
                    if j < i {
                        assert(taken[j] == x);
                    }
                }
                if taken.contains(x) {
                    let j = taken.index_of(x);
                    assert(next[j] == x);
                }
                assert(next[i as int] == k@);
            }
        }
        out.insert(k.clone(), v.copy());
        i = i + 1;
    }
    proof {
        assert(crate::strmap::keys_of(pairs).take(n as int) =~= crate::strmap::keys_of(pairs));
        assert(docs(out@) =~= docs(m@));
    }
    out
}

/// Baseline check definition.
#[derive(Debug)]
pub struct BaselineCheck {
    /// Check identifier.
    pub id: String,
    /// Human-readable name.
    pub name: String,
    /// Description.
    pub description: String,
    /// Severity if failed.
    pub severity: CheckSeverity,
    /// Whether this check can be auto-remediated safely.
    pub auto_remediable: bool,
    /// Remediation action (if auto_remediable).
    pub remediation: Option<RemediationAction>,
    /// Profiles this check belongs to.
    pub profiles: Vec<BaselineProfile>,
    /// Kubernetes resource types this check applies to.
    pub resource_types: Vec<String>,
}

/// What a baseline check says.
pub struct Check {
    pub id: Seq<char>,
    pub name: Seq<char>,
    pub description: Seq<char>,
    pub severity: CheckSeverity,
    pub auto_remediable: bool,
    pub remediation: Option<Action>,
    pub profiles: Seq<Profile>,
    pub resource_types: Seq<Seq<char>>,
}

/// What profiles say.
pub open spec fn profiles_of(v: Seq<BaselineProfile>) -> Seq<Profile> {
    v.map_values(|p: BaselineProfile| p@)
}

impl View for BaselineCheck {
    type V = Check;

    open spec fn view(&self) -> Check {
        Check {
            id: self.id@,
            name: self.name@,
            description: self.description@,
            severity: self.severity,
            auto_remediable: self.auto_remediable,
            remediation: match self.remediation {
                Some(a) => Some(a@),
                None => None,
            },
            profiles: profiles_of(self.profiles@),
            resource_types: views(self.resource_types@),
        }
    }
}

/// A copy of the profiles.
fn copy_profiles(v: &Vec<BaselineProfile>) -> (out: Vec<BaselineProfile>)
    ensures
        out@ == v@,
{
    let mut out: Vec<BaselineProfile> = Vec::new();
    let mut i: usize = 0;
    while i < v.len()
        invariant
            i <= v@.len(),
            out@ == v@.take(i as int),
        decreases v@.len() - i,
    {
        out.push(v[i].clone());
        proof {
            assert(out@ =~= v@.take(i as int + 1));
        }
        i = i + 1;
    }
    proof {
        assert(v@.take(v@.len() as int) =~= v@);
    }
    out
}

impl Clone for BaselineCheck {
    fn clone(&self) -> (r: Self)
        ensures
            r@ == self@,
    {
        BaselineCheck {
            id: self.id.clone(),
            name: self.name.clone(),
            description: self.description.clone(),
            severity: self.severity,
            auto_remediable: self.auto_remediable,
            remediation: match &self.remediation {
                Some(a) => Some(a.clone()),
                None => None,
            },
            profiles: copy_profiles(&self.profiles),
            resource_types: copy_strings(&self.resource_types),
        }
    }
}

/// Check result.
#[derive(Debug)]
pub struct CheckResult {
    pub check_id: String,
    pub check_name: String,
    pub status: CheckStatus,
    pub severity: CheckSeverity,
    pub message: String,
    pub details: Option<String>,
    pub remediated: bool,
    pub remediation_action: Option<RemediationAction>,
    /// In microseconds since the epoch.
    pub evaluated_at: i64,
}

/// Per-namespace baseline result.
#[derive(Debug)]
pub struct NamespaceBaselineResult {
    pub namespace: String,
    pub phase: BaselinePhase,
    pub passed: u32,
    pub failed: u32,
    pub skipped: u32,
    pub remediated: u32,
    /// In microseconds since the epoch.
    pub last_evaluation: Option<i64>,
    pub check_results: Vec<CheckResult>,
}

/// Baseline condition.
#[derive(Debug)]
pub struct BaselineCondition {
    pub type_: String,
    pub status: String,
    pub reason: String,
    pub message: String,
    /// In microseconds since the epoch.
    pub last_transition_time: Option<i64>,
}

/// Baseline status. Instants are in microseconds since the epoch.
#[derive(Debug)]
pub struct BaselineStatus {
    /// Current evaluation phase.
    pub phase: BaselinePhase,
    /// Last evaluation timestamp.
    pub last_evaluation: Option<i64>,
    /// Next scheduled evaluation.
    pub next_evaluation: Option<i64>,
    /// Last remediation timestamp.
    pub last_remediation: Option<i64>,
    /// Number of passed checks.
    pub passed_checks: u32,
    /// Number of failed checks.
    pub failed_checks: u32,
    /// Number of skipped checks.
    pub skipped_checks: u32,
    /// Number of auto-remediated checks.
    pub remediated_checks: u32,
    /// Per-namespace results.
    pub namespace_results: StrMap<NamespaceBaselineResult>,
    /// Conditions.
    pub conditions: Vec<BaselineCondition>,
}

impl Default for BaselineStatus {
    fn default() -> (s: Self)
        ensures
            s.phase == BaselinePhase::Pending,
            s.last_evaluation is None,
            s.next_evaluation is None,
            s.last_remediation is None,
            s.passed_checks == 0,
            s.failed_checks == 0,
            s.skipped_checks == 0,
            s.remediated_checks == 0,
            s.namespace_results@ == Map::<Seq<char>, NamespaceBaselineResult>::empty(),
            s.conditions@.len() == 0,
    {
        BaselineStatus {
            phase: BaselinePhase::Pending,
            last_evaluation: None,
            next_evaluation: None,
            last_remediation: None,
            passed_checks: 0,
            failed_checks: 0,
            skipped_checks: 0,
            remediated_checks: 0,
            namespace_results: StrMap::new(),
            conditions: Vec::new(),
        }
    }
}

/// The six pod security labels of the restricted level.
pub open spec fn restricted_labels() -> Seq<(Seq<char>, Seq<char>)> {
    Seq::<(Seq<char>, Seq<char>)>::empty().push(("pod-security.kubernetes.io/enforce"@, "restricted"@)).push(
        ("pod-security.kubernetes.io/enforce-version"@, "latest"@),
    ).push(("pod-security.kubernetes.io/warn"@, "restricted"@)).push(
        ("pod-security.kubernetes.io/warn-version"@, "latest"@),
    ).push(("pod-security.kubernetes.io/audit"@, "restricted"@)).push(
        ("pod-security.kubernetes.io/audit-version"@, "latest"@),
    )
}

/// An object with one text field.
pub open spec fn single(key: Seq<char>, value: Seq<char>) -> Doc {
    Doc::Obj(Fields::empty().push((key, Doc::Str(value))))
}

/// An object with two text fields.
pub open spec fn couple(k1: Seq<char>, v1: Seq<char>, k2: Seq<char>, v2: Seq<char>) -> Doc {
    Doc::Obj(Fields::empty().push((k1, Doc::Str(v1))).push((k2, Doc::Str(v2))))
}

/// The manifest of a resource that the baseline creates.
pub open spec fn manifest_of(api_version: Seq<char>, kind: Seq<char>, name: Seq<char>, content: Doc) -> Doc {
    Doc::Obj(
        Fields::empty().push(("apiVersion"@, Doc::Str(api_version))).push(("kind"@, Doc::Str(kind))).push(
            (
                "metadata"@,
                Doc::Obj(
                    Fields::empty().push(("name"@, Doc::Str(name))).push(
                        ("labels"@, single("security.stellar.org/baseline"@, "true"@)),
                    ),
                ),
            ),
        ).push(("spec"@, content)),
    )
}

/// The policy that denies all traffic in one direction to all pods.
pub open spec fn deny_all_of(direction: Seq<char>, rules: Seq<char>) -> Doc {
    Doc::Obj(
        Fields::empty().push(("podSelector"@, Doc::Obj(Fields::empty()))).push(
            ("policyTypes"@, Doc::Arr(Seq::<Doc>::empty().push(Doc::Str(direction)))),
        ).push((rules, Doc::Arr(Seq::<Doc>::empty()))),
    )
}

/// The limits of a container.
pub open spec fn limits_content() -> Doc {
    let item = Doc::Obj(
        Fields::empty().push(("type"@, Doc::Str("Container"@))).push(
            ("default"@, couple("cpu"@, "500m"@, "memory"@, "1Gi"@)),
        ).push(("defaultRequest"@, couple("cpu"@, "100m"@, "memory"@, "256Mi"@))).push(
            ("max"@, couple("cpu"@, "4"@, "memory"@, "8Gi"@)),
        ).push(("min"@, couple("cpu"@, "10m"@, "memory"@, "10Mi"@))),
    );
    Doc::Obj(Fields::empty().push(("limits"@, Doc::Arr(Seq::<Doc>::empty().push(item)))))
}

/// The quota of a namespace.
pub open spec fn quota_content() -> Doc {
    let hard = Fields::empty().push(("cpu"@, Doc::Str("16"@))).push(("memory"@, Doc::Str("32Gi"@))).push(
        ("pods"@, Doc::Str("50"@)),
    ).push(("services"@, Doc::Str("20"@))).push(("secrets"@, Doc::Str("50"@))).push(
        ("persistentvolumeclaims"@, Doc::Str("10"@)),
    );
    Doc::Obj(Fields::empty().push(("hard"@, Doc::Obj(hard))))
}

/// No parameters.
pub open spec fn no_parameters() -> Map<Seq<char>, Doc> {
    Map::empty()
}

/// The action that creates a resource from a manifest.
pub open spec fn creation_of(
    api_version: Seq<char>,
    kind: Seq<char>,
    name: Seq<char>,
    content: Doc,
    description: Seq<char>,
) -> Action {
    Action {
        action_type: RemediationActionType::CreateResource,
        api_version,
        kind,
        name,
        namespace: None,
        parameters: no_parameters().insert("manifest"@, manifest_of(api_version, kind, name, content)),
        description,
    }
}

/// The action that labels a namespace as restricted.
pub open spec fn labelling() -> Action {
    Action {
        action_type: RemediationActionType::AddLabel,
        api_version: "v1"@,
        kind: "Namespace"@,
        name: ""@,
        namespace: None,
        parameters: no_parameters().insert(
            "pod-security.kubernetes.io/enforce"@,
            Doc::Str("restricted"@),
        ).insert("pod-security.kubernetes.io/enforce-version"@, Doc::Str("latest"@)).insert(
            "pod-security.kubernetes.io/warn"@,
            Doc::Str("restricted"@),
        ).insert("pod-security.kubernetes.io/warn-version"@, Doc::Str("latest"@)).insert(
            "pod-security.kubernetes.io/audit"@,
            Doc::Str("restricted"@),
        ).insert("pod-security.kubernetes.io/audit-version"@, Doc::Str("latest"@)),
        description: "Add PSS restricted labels to namespace"@,
    }
}

/// The action that stops the default service account from being mounted.
pub open spec fn unmounting() -> Action {
    Action {
        action_type: RemediationActionType::PatchResource,
        api_version: "v1"@,
        kind: "ServiceAccount"@,
        name: "default"@,
        namespace: None,
        parameters: no_parameters().insert("automountServiceAccountToken"@, Doc::Bool(false)),
        description: "Disable automount for default service account"@,
    }
}

/// The strict profile alone.
pub open spec fn strict_only() -> Seq<Profile> {
    Seq::<Profile>::empty().push(Profile::Strict)
}

/// The standard and the strict profile.
pub open spec fn standard_and_strict() -> Seq<Profile> {
    Seq::<Profile>::empty().push(Profile::Standard).push(Profile::Strict)
}

/// All built-in profiles.
pub open spec fn all_profiles() -> Seq<Profile> {
    Seq::<Profile>::empty().push(Profile::Minimal).push(Profile::Standard).push(Profile::Strict)
}

/// The pod security check.
pub open spec fn pss_check() -> Check {
    Check {
        id: "pss-restricted-enforce"@,
        name: "PSS Restricted Enforce Label"@,
        description: "Namespace has pod-security.kubernetes.io/enforce=restricted label"@,
        severity: CheckSeverity::High,
        auto_remediable: true,
        remediation: Some(labelling()),
        profiles: all_profiles(),
        resource_types: Seq::<Seq<char>>::empty().push("Namespace"@),
    }
}

/// The check that incoming traffic is denied by default.
pub open spec fn ingress_check() -> Check {
    Check {
        id: "default-deny-ingress"@,
        name: "Default Deny Ingress NetworkPolicy"@,
        description: "Namespace has a default-deny ingress NetworkPolicy"@,
        severity: CheckSeverity::High,
        auto_remediable: true,
        remediation: Some(
            creation_of(
                "networking.k8s.io/v1"@,
                "NetworkPolicy"@,
                "default-deny-ingress"@,
                deny_all_of("Ingress"@, "ingress"@),
                "Create default-deny ingress NetworkPolicy"@,
            ),
        ),
        profiles: standard_and_strict(),
        resource_types: Seq::<Seq<char>>::empty().push("NetworkPolicy"@),
    }
}

/// The check that outgoing traffic is denied by default.
pub open spec fn egress_check() -> Check {
    Check {
        id: "default-deny-egress"@,
        name: "Default Deny Egress NetworkPolicy"@,
        description: "Namespace has a default-deny egress NetworkPolicy"@,
        severity: CheckSeverity::Medium,
        auto_remediable: true,
        remediation: Some(
            creation_of(
                "networking.k8s.io/v1"@,
                "NetworkPolicy"@,
                "default-deny-egress"@,
                deny_all_of("Egress"@, "egress"@),
                "Create default-deny egress NetworkPolicy"@,
            ),
        ),
        profiles: strict_only(),
        resource_types: Seq::<Seq<char>>::empty().push("NetworkPolicy"@),
    }
}

/// The check that containers have default limits.
pub open spec fn limits_check() -> Check {
    Check {
        id: "limit-range"@,
        name: "LimitRange for Resource Quotas"@,
        description: "Namespace has a LimitRange defining default resource limits"@,
        severity: CheckSeverity::Medium,
        auto_remediable: true,
        remediation: Some(
            creation_of(
                "v1"@,
                "LimitRange"@,
                "default-limits"@,
                limits_content(),
                "Create default LimitRange for containers"@,
            ),
        ),
        profiles: standard_and_strict(),
        resource_types: Seq::<Seq<char>>::empty().push("LimitRange"@),
    }
}

/// The check that the namespace has a quota.
pub open spec fn quota_check() -> Check {
    Check {
        id: "resource-quota"@,
        name: "ResourceQuota for Namespace"@,
        description: "Namespace has a ResourceQuota limiting resource consumption"@,
        severity: CheckSeverity::Medium,
        auto_remediable: true,
        remediation: Some(
            creation_of("v1"@, "ResourceQuota"@, "default-quota"@, quota_content(), "Create default ResourceQuota"@),
        ),
        profiles: standard_and_strict(),
        resource_types: Seq::<Seq<char>>::empty().push("ResourceQuota"@),
    }
}

/// The check that no role grants everything.
pub open spec fn wildcard_check() -> Check {
    Check {
        id: "no-wildcard-rbac"@,
        name: "No Wildcard RBAC Permissions"@,
        description: "No Role/ClusterRole with wildcard (*) permissions in namespace"@,
        severity: CheckSeverity::High,
        auto_remediable: false,
        remediation: None,
        profiles: standard_and_strict(),
        resource_types: Seq::<Seq<char>>::empty().push("Role"@).push("RoleBinding"@),
    }
}

/// The check that the default service account is not mounted.
pub open spec fn automount_check() -> Check {
    Check {
        id: "no-default-sa-automount"@,
        name: "Default Service Account Automount Disabled"@,
        description: "Default service account has automountServiceAccountToken=false"@,
        severity: CheckSeverity::Medium,
        auto_remediable: true,
        remediation: Some(unmounting()),
        profiles: standard_and_strict(),
        resource_types: Seq::<Seq<char>>::empty().push("ServiceAccount"@),
    }
}

/// The check that secrets are encrypted.
pub open spec fn encryption_check() -> Check {
    Check {
        id: "secrets-encryption"@,
        name: "Secrets Encryption at Rest"@,
        description: "Secrets are encrypted at rest (requires cluster-level configuration)"@,
        severity: CheckSeverity::Critical,
        auto_remediable: false,
        remediation: None,
        profiles: strict_only(),
        resource_types: Seq::<Seq<char>>::empty().push("Secret"@),
    }
}

/// The built-in checks.
pub open spec fn builtin() -> Seq<Check> {
    Seq::<Check>::empty().push(pss_check()).push(ingress_check()).push(egress_check()).push(limits_check()).push(
        quota_check(),
    ).push(wildcard_check()).push(automount_check()).push(encryption_check())
}

/// What checks say.
pub open spec fn checks_of(v: Seq<BaselineCheck>) -> Seq<Check> {
    v.map_values(|c: BaselineCheck| c@)
}

/// Adds a parameter.
fn set_parameter(m: &mut StrMap<Json>, key: &str, value: Json)
    ensures
        docs(final(m)@) == docs(old(m)@).insert(key@, value@),
{
    m.insert(key.to_owned(), value);
    proof {
        assert(docs(m@) =~= docs(old(m)@).insert(key@, value@));
    }
}

fn parameters() -> (m: StrMap<Json>)
    ensures
        docs(m@) == no_parameters(),
{
    let m: StrMap<Json> = StrMap::new();
    proof {
        assert(docs(m@) =~= no_parameters());
    }
    m
}

fn pair(k1: &str, v1: &str, k2: &str, v2: &str) -> (j: Json)
    ensures
        j@ == couple(k1@, v1@, k2@, v2@),
{
    let mut fields = no_fields();
    put_text(&mut fields, k1, v1);
    put_text(&mut fields, k2, v2);
    object(fields)
}

/// The action that creates a resource from a manifest.
fn creation(api_version: &str, kind: &str, name: &str, content: Json, description: &str) -> (a: RemediationAction)
    ensures
        a@ == creation_of(api_version@, kind@, name@, content@, description@),
{
    let mut labels = no_fields();
    put_text(&mut labels, "security.stellar.org/baseline", "true");
    let mut metadata = no_fields();
    put_text(&mut metadata, "name", name);
    put(&mut metadata, "labels", object(labels));
    let mut fields = no_fields();
    put_text(&mut fields, "apiVersion", api_version);
    put_text(&mut fields, "kind", kind);
    put(&mut fields, "metadata", object(metadata));
    put(&mut fields, "spec", content);
    let mut m = parameters();
    set_parameter(&mut m, "manifest", object(fields));
    RemediationAction {
        action_type: RemediationActionType::CreateResource,
        target_resource: TargetResource {
            api_version: api_version.to_owned(),
            kind: kind.to_owned(),
            name: name.to_owned(),
            namespace: None,
        },
        parameters: m,
        description: description.to_owned(),
    }
}

fn deny_all(direction: &str, rules: &str) -> (j: Json)
    ensures
        j@ == deny_all_of(direction@, rules@),
{
    let mut types = no_items();
    add_item(&mut types, text_value(direction));
    let mut fields = no_fields();
    put(&mut fields, "podSelector", object(no_fields()));
    put(&mut fields, "policyTypes", list(types));
    put(&mut fields, rules, list(no_items()));
    object(fields)
}

fn limits() -> (j: Json)
    ensures
        j@ == limits_content(),
{
    let mut item = no_fields();
    put_text(&mut item, "type", "Container");
    put(&mut item, "default", pair("cpu", "500m", "memory", "1Gi"));
    put(&mut item, "defaultRequest", pair("cpu", "100m", "memory", "256Mi"));
    put(&mut item, "max", pair("cpu", "4", "memory", "8Gi"));
    put(&mut item, "min", pair("cpu", "10m", "memory", "10Mi"));
    let mut items = no_items();
    add_item(&mut items, object(item));
    let mut fields = no_fields();
    put(&mut fields, "limits", list(items));
    object(fields)
}

fn quota() -> (j: Json)
    ensures
        j@ == quota_content(),
{
    let mut hard = no_fields();
    put_text(&mut hard, "cpu", "16");
    put_text(&mut hard, "memory", "32Gi");
    put_text(&mut hard, "pods", "50");
    put_text(&mut hard, "services", "20");
    put_text(&mut hard, "secrets", "50");
    put_text(&mut hard, "persistentvolumeclaims", "10");
    let mut fields = no_fields();
    put(&mut fields, "hard", object(hard));
    object(fields)
}

fn label_action() -> (a: RemediationAction)
    ensures
        a@ == labelling(),
{
    let mut m = parameters();
    set_parameter(&mut m, "pod-security.kubernetes.io/enforce", text_value("restricted"));
    set_parameter(&mut m, "pod-security.kubernetes.io/enforce-version", text_value("latest"));
    set_parameter(&mut m, "pod-security.kubernetes.io/warn", text_value("restricted"));
    set_parameter(&mut m, "pod-security.kubernetes.io/warn-version", text_value("latest"));
    set_parameter(&mut m, "pod-security.kubernetes.io/audit", text_value("restricted"));
    set_parameter(&mut m, "pod-security.kubernetes.io/audit-version", text_value("latest"));
    RemediationAction {
        action_type: RemediationActionType::AddLabel,
        target_resource: TargetResource {
            api_version: "v1".to_owned(),
            kind: "Namespace".to_owned(),
            name: "".to_owned(),
            namespace: None,
        },
        parameters: m,
        description: "Add PSS restricted labels to namespace".to_owned(),
    }
}

fn automount_action() -> (a: RemediationAction)
    ensures
        a@ == unmounting(),
{
    let mut m = parameters();
    set_parameter(&mut m, "automountServiceAccountToken", Json::Bool(false));
    RemediationAction {
        action_type: RemediationActionType::PatchResource,
        target_resource: TargetResource {
            api_version: "v1".to_owned(),
            kind: "ServiceAccount".to_owned(),
            name: "default".to_owned(),
            namespace: None,
        },
        parameters: m,
        description: "Disable automount for default service account".to_owned(),
    }
}

fn in_strict() -> (v: Vec<BaselineProfile>)
    ensures
        profiles_of(v@) == strict_only(),
{
    let mut v: Vec<BaselineProfile> = Vec::new();
    v.push(BaselineProfile::Strict);
    proof {
        assert(profiles_of(v@) =~= strict_only());
    }
    v
}

fn in_standard() -> (v: Vec<BaselineProfile>)
    ensures
        profiles_of(v@) == standard_and_strict(),
{
    let mut v: Vec<BaselineProfile> = Vec::new();
    v.push(BaselineProfile::Standard);
    v.push(BaselineProfile::Strict);
    proof {
        assert(profiles_of(v@) =~= standard_and_strict());
    }
    v
}

fn in_all() -> (v: Vec<BaselineProfile>)
    ensures
        profiles_of(v@) == all_profiles(),
{
    let mut v: Vec<BaselineProfile> = Vec::new();
    v.push(BaselineProfile::Minimal);
    v.push(BaselineProfile::Standard);
    v.push(BaselineProfile::Strict);
    proof {
        assert(profiles_of(v@) =~= all_profiles());
    }
    v
}

/// A list of one text.
fn one(s: &str) -> (v: Vec<String>)
    ensures
        views(v@) == Seq::<Seq<char>>::empty().push(s@),
{
    let mut v: Vec<String> = Vec::new();
    v.push(s.to_owned());
    proof {
        assert(views(v@) =~= Seq::<Seq<char>>::empty().push(s@));
    }
    v
}

/// A check with a remediation action.
fn remediable(
    id: &str,
    name: &str,
    description: &str,
    severity: CheckSeverity,
    action: RemediationAction,
    profiles: Vec<BaselineProfile>,
    resource_type: &str,
) -> (c: BaselineCheck)
    ensures
        c@ == (Check {
            id: id@,
            name: name@,
            description: description@,
            severity,
            auto_remediable: true,
            remediation: Some(action@),
            profiles: profiles_of(profiles@),
            resource_types: Seq::<Seq<char>>::empty().push(resource_type@),
        }),
{
    BaselineCheck {
        id: id.to_owned(),
        name: name.to_owned(),
        description: description.to_owned(),
        severity,
        auto_remediable: true,
        remediation: Some(action),
        profiles,
        resource_types: one(resource_type),
    }
}

/// A check that is not remediated.
fn observed(
    id: &str,
    name: &str,
    description: &str,
    severity: CheckSeverity,
    profiles: Vec<BaselineProfile>,
    resource_types: Vec<String>,
) -> (c: BaselineCheck)
    ensures
        c@ == (Check {
            id: id@,
            name: name@,
            description: description@,
            severity,
            auto_remediable: false,
            remediation: None,
            profiles: profiles_of(profiles@),
            resource_types: views(resource_types@),
        }),
{
    BaselineCheck {
        id: id.to_owned(),
        name: name.to_owned(),
        description: description.to_owned(),
        severity,
        auto_remediable: false,
        remediation: None,
        profiles,
        resource_types,
    }
}

/// Adds a check.
fn add_check(v: &mut Vec<BaselineCheck>, c: BaselineCheck)
    ensures
        checks_of(final(v)@) == checks_of(old(v)@).push(c@),
{
    v.push(c);
    proof {
        assert(checks_of(v@) =~= checks_of(old(v)@).push(c@));
    }
}

/// Built-in baseline checks.
pub fn builtin_checks() -> (v: Vec<BaselineCheck>)
    ensures
        checks_of(v@) == builtin(),
{
    let mut v: Vec<BaselineCheck> = Vec::new();
    proof {
        assert(checks_of(v@) =~= Seq::<Check>::empty());
    }
    add_check(
        &mut v,
        remediable(
            "pss-restricted-enforce",
            "PSS Restricted Enforce Label",
            "Namespace has pod-security.kubernetes.io/enforce=restricted label",
            CheckSeverity::High,
            label_action(),
            in_all(),
            "Namespace",
        ),
    );
    add_check(
        &mut v,
        remediable(
            "default-deny-ingress",
            "Default Deny Ingress NetworkPolicy",
            "Namespace has a default-deny ingress NetworkPolicy",
            CheckSeverity::High,
            creation(
                "networking.k8s.io/v1",
                "NetworkPolicy",
                "default-deny-ingress",
                deny_all("Ingress", "ingress"),
                "Create default-deny ingress NetworkPolicy",
            ),
            in_standard(),
            "NetworkPolicy",
        ),
    );
    add_check(
        &mut v,
        remediable(
            "default-deny-egress",
            "Default Deny Egress NetworkPolicy",
            "Namespace has a default-deny egress NetworkPolicy",
            CheckSeverity::Medium,
            creation(
                "networking.k8s.io/v1",
                "NetworkPolicy",
                "default-deny-egress",
                deny_all("Egress", "egress"),
                "Create default-deny egress NetworkPolicy",
            ),
            in_strict(),
            "NetworkPolicy",
        ),
    );
    add_check(
        &mut v,
        remediable(
            "limit-range",
            "LimitRange for Resource Quotas",
            "Namespace has a LimitRange defining default resource limits",
            CheckSeverity::Medium,
            creation(
                "v1",
                "LimitRange",
                "default-limits",
                limits(),
                "Create default LimitRange for containers",
            ),
            in_standard(),
            "LimitRange",
        ),
    );
    add_check(
        &mut v,
        remediable(
            "resource-quota",
            "ResourceQuota for Namespace",
            "Namespace has a ResourceQuota limiting resource consumption",
            CheckSeverity::Medium,
            creation("v1", "ResourceQuota", "default-quota", quota(), "Create default ResourceQuota"),
            in_standard(),
            "ResourceQuota",
        ),
    );
    let mut roles = one("Role");
    roles.push("RoleBinding".to_owned());
    proof {
        assert(views(roles@) =~= Seq::<Seq<char>>::empty().push("Role"@).push("RoleBinding"@));
    }
    add_check(
        &mut v,
        observed(
            "no-wildcard-rbac",
            "No Wildcard RBAC Permissions",
            "No Role/ClusterRole with wildcard (*) permissions in namespace",
            CheckSeverity::High,
            in_standard(),
            roles,
        ),
    );
    add_check(
        &mut v,
        remediable(
            "no-default-sa-automount",
            "Default Service Account Automount Disabled",
            "Default service account has automountServiceAccountToken=false",
            CheckSeverity::Medium,
            automount_action(),
            in_standard(),
            "ServiceAccount",
        ),
    );
    add_check(
        &mut v,
        observed(
            "secrets-encryption",
            "Secrets Encryption at Rest",
            "Secrets are encrypted at rest (requires cluster-level configuration)",
            CheckSeverity::Critical,
            in_strict(),
            one("Secret"),
        ),
    );
    v
}

/// Every built-in check of a weaker profile is a check of each stricter one, and a check has
/// a remediation action exactly where it is auto-remediable.
pub proof fn profiles_nest()
    ensures
        forall|i: int|
            0 <= i < builtin().len() ==> {
                let c = #[trigger] builtin()[i];
                &&& c.profiles.contains(Profile::Minimal) ==> c.profiles.contains(Profile::Standard)
                &&& c.profiles.contains(Profile::Standard) ==> c.profiles.contains(Profile::Strict)
                &&& c.auto_remediable <==> c.remediation is Some
            },
{
    assert forall|i: int| 0 <= i < builtin().len() implies {
        let c = #[trigger] builtin()[i];
        &&& c.profiles.contains(Profile::Minimal) ==> c.profiles.contains(Profile::Standard)
        &&& c.profiles.contains(Profile::Standard) ==> c.profiles.contains(Profile::Strict)
        &&& c.auto_remediable <==> c.remediation is Some
    } by {
        assert(all_profiles()[1] == Profile::Standard);
        assert(all_profiles()[2] == Profile::Strict);
        assert(standard_and_strict()[0] == Profile::Standard);
        assert(standard_and_strict()[1] == Profile::Strict);
        assert(strict_only()[0] == Profile::Strict);
    }
}

/// The remediation of a namespace without the labels of the restricted standard adds each of them
/// with the value that its check asks for.
pub proof fn the_label_remedy_meets_its_check()
    ensures
        pss_check().remediation is Some,
        pss_check().remediation->0.action_type is AddLabel,
        pss_check().remediation->0.kind == "Namespace"@,
        forall|i: int|
            0 <= i < restricted_labels().len() ==> pss_check().remediation->0.parameters.contains_pair(
                (#[trigger] restricted_labels()[i]).0,
                Doc::Str(restricted_labels()[i].1),
            ),
        restricted_labels().contains(("pod-security.kubernetes.io/enforce"@, "restricted"@)),
        restricted_labels().contains(("pod-security.kubernetes.io/warn"@, "restricted"@)),
        restricted_labels().contains(("pod-security.kubernetes.io/audit"@, "restricted"@)),
{
    let r = restricted_labels();
    reveal_strlit("pod-security.kubernetes.io/enforce");
    reveal_strlit("pod-security.kubernetes.io/enforce-version");
    reveal_strlit("pod-security.kubernetes.io/warn");
    reveal_strlit("pod-security.kubernetes.io/warn-version");
    reveal_strlit("pod-security.kubernetes.io/audit");
    reveal_strlit("pod-security.kubernetes.io/audit-version");
    let e = "pod-security.kubernetes.io/enforce"@;
    let ev = "pod-security.kubernetes.io/enforce-version"@;
    let w = "pod-security.kubernetes.io/warn"@;
    let wv = "pod-security.kubernetes.io/warn-version"@;
    let a = "pod-security.kubernetes.io/audit"@;
    let av = "pod-security.kubernetes.io/audit-version"@;
    assert(e[27] == 'e' && ev[27] == 'e' && w[27] == 'w' && wv[27] == 'w' && a[27] == 'a' && av[27] == 'a');
    assert(e.len() == 34 && ev.len() == 42 && w.len() == 31 && wv.len() == 39 && a.len() == 32 && av.len() == 40);
    assert(r.len() == 6);
    assert(r[0] == (e, "restricted"@) && r[1] == (ev, "latest"@) && r[2] == (w, "restricted"@) && r[3] == (wv, "latest"@)
        && r[4] == (a, "restricted"@) && r[5] == (av, "latest"@));
}

/// The policy that remedies a missing default denial selects every pod, covers the direction of
/// its check and lets nothing through.
pub proof fn the_policy_remedies_deny_everything(check: Check, direction: Seq<char>, rules: Seq<char>)
    requires
        check == ingress_check() && direction == "Ingress"@ && rules == "ingress"@ || check == egress_check()
            && direction == "Egress"@ && rules == "egress"@,
    ensures
        check.remediation is Some,
        check.remediation->0.action_type is CreateResource,
        check.remediation->0.kind == "NetworkPolicy"@,
        ({
            let manifest = check.remediation->0.parameters["manifest"@];
            &&& manifest is Obj
            &&& manifest->Obj_0.contains(("kind"@, Doc::Str("NetworkPolicy"@)))
            &&& manifest->Obj_0.contains(
                (
                    "spec"@,
                    Doc::Obj(
                        seq![
                            ("podSelector"@, Doc::Obj(Fields::empty())),
                            ("policyTypes"@, Doc::Arr(seq![Doc::Str(direction)])),
                            (rules, Doc::Arr(Seq::<Doc>::empty())),
                        ],
                    ),
                ),
            )
        }),
{
    let manifest = check.remediation->0.parameters["manifest"@];
    let fields = manifest->Obj_0;
    assert(fields[1] == ("kind"@, Doc::Str("NetworkPolicy"@)));
    let spec_ = seq![
        ("podSelector"@, Doc::Obj(Fields::empty())),
        ("policyTypes"@, Doc::Arr(seq![Doc::Str(direction)])),
        (rules, Doc::Arr(Seq::<Doc>::empty())),
    ];
    assert(Seq::<Doc>::empty().push(Doc::Str(direction)) =~= seq![Doc::Str(direction)]);
    assert(deny_all_of(direction, rules)->Obj_0 =~= spec_);
    assert(fields[3].0 == "spec"@);
}

/// The pod security check belongs to every profile; denial of ingress, limits, quotas, wildcards and
/// the service account to the standard one and the strict one; denial of egress and encryption to
/// the strict one alone. A failure to encrypt is critical.
pub proof fn profiles_add_checks()
    ensures
        forall|i: int| 0 <= i < builtin().len() ==> (#[trigger] builtin()[i]).profiles.contains(Profile::Strict),
        pss_check().profiles.contains(Profile::Minimal),
        ingress_check().profiles.contains(Profile::Standard) && !ingress_check().profiles.contains(Profile::Minimal),
        limits_check().profiles.contains(Profile::Standard) && !limits_check().profiles.contains(Profile::Minimal),
        quota_check().profiles.contains(Profile::Standard) && !quota_check().profiles.contains(Profile::Minimal),
        wildcard_check().profiles.contains(Profile::Standard) && !wildcard_check().profiles.contains(Profile::Minimal),
        automount_check().profiles.contains(Profile::Standard) && !automount_check().profiles.contains(Profile::Minimal),
        !egress_check().profiles.contains(Profile::Standard) && !egress_check().profiles.contains(Profile::Minimal),
        !encryption_check().profiles.contains(Profile::Standard),
        encryption_check().severity is Critical,
        pss_check().severity is High && ingress_check().severity is High && wildcard_check().severity is High,
        egress_check().severity is Medium && limits_check().severity is Medium && quota_check().severity is Medium
            && automount_check().severity is Medium,
        !wildcard_check().auto_remediable && !encryption_check().auto_remediable,
        unmounting().parameters["automountServiceAccountToken"@] == Doc::Bool(false),
{
    let all = all_profiles();
    let two = standard_and_strict();
    let one = strict_only();
    assert(all[0] == Profile::Minimal && all[1] == Profile::Standard && all[2] == Profile::Strict);
    assert(two[0] == Profile::Standard && two[1] == Profile::Strict);
    assert(one[0] == Profile::Strict);
    let b = builtin();
    assert(b.len() == 8);
    assert(b[0] == pss_check() && b[1] == ingress_check() && b[2] == egress_check() && b[3] == limits_check() && b[4]
        == quota_check() && b[5] == wildcard_check() && b[6] == automount_check() && b[7] == encryption_check());
}

} // verus!
