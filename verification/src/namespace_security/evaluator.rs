//! Baseline evaluator.

use vstd::prelude::*;
#[allow(unused_imports)]
use vstd::string::*;
#[allow(unused_imports)]
use crate::namespace_security::baseline::{
    automount_check, builtin, builtin_checks, checks_of, egress_check, encryption_check, ingress_check, limits_check,
    profiles_of, pss_check, quota_check, restricted_labels, wildcard_check, BaselineCheck, BaselinePhase,
    Action, BaselineProfile, BaselineSpec, Check, CheckResult, CheckSeverity, CheckStatus, NamespaceBaselineResult,
    Profile, RemediationAction,
};
#[allow(unused_imports)]
use crate::seqs::{filter_none, filter_step};
#[allow(unused_imports)]
use crate::strmap::{texts, StrMap};
#[allow(unused_imports)]
use crate::text::{copy_strings, find, join, joined, opt_view, same, views};

verus! {

/// Evaluator configuration.
pub struct EvaluatorConfig {
    /// Baseline specification.
    pub spec_: BaselineSpec,
    /// Custom checks (merged with builtin).
    pub custom_checks: Vec<BaselineCheck>,
    /// Namespace to evaluate (if not using the target namespaces).
    pub namespace: Option<String>,
}

impl EvaluatorConfig {
    /// A configuration without custom checks and without a namespace of its own.
    pub fn new(spec_: BaselineSpec) -> (c: Self)
        ensures
            c.spec_ == spec_,
            c.custom_checks@.len() == 0,
            c.namespace is None,
    {
        EvaluatorConfig { spec_, custom_checks: Vec::new(), namespace: None }
    }
}

/// Evaluation result.
#[derive(Debug)]
pub struct EvaluationResult {
    pub baseline_name: String,
    /// In microseconds since the epoch.
    pub timestamp: i64,
    pub duration_ms: u64,
    pub namespace_results: StrMap<NamespaceBaselineResult>,
    pub total_passed: u32,
    pub total_failed: u32,
    pub total_skipped: u32,
    pub overall_phase: BaselinePhase,
}

/// Labels of evaluator metrics.
#[derive(Debug, Clone, Hash, PartialEq, Eq)]
pub struct EvaluatorLabels {
    pub baseline: String,
    pub profile: String,
}

/// Labels of per-namespace metrics.
#[derive(Debug, Clone, Hash, PartialEq, Eq)]
pub struct NamespaceLabels {
    pub baseline: String,
    pub namespace: String,
}

/// What the pod selector of a network policy holds.
#[derive(Debug, Clone, Copy)]
pub struct SelectorFacts {
    /// Whether there is no label to match.
    pub labels_empty: bool,
    /// Whether there is no expression to match.
    pub expressions_empty: bool,
}

/// A network policy.
#[derive(Debug)]
pub struct PolicyFacts {
    pub pod_selector: Option<SelectorFacts>,
    pub policy_types: Option<Vec<String>>,
    /// The number of ingress rules.
    pub ingress: Option<usize>,
    /// The number of egress rules.
    pub egress: Option<usize>,
}

/// A rule of a role.
#[derive(Debug)]
pub struct RuleFacts {
    pub verbs: Vec<String>,
    pub resources: Vec<String>,
    pub api_groups: Vec<String>,
}

/// A role.
#[derive(Debug)]
pub struct RoleFacts {
    pub name: String,
    pub rules: Vec<RuleFacts>,
}

/// What was found in a namespace, each part with the error that kept it from being found.
#[derive(Debug)]
pub struct NamespaceFacts {
    /// The labels of the namespace.
    pub labels: Result<StrMap<String>, String>,
    /// Its network policies.
    pub policies: Result<Vec<PolicyFacts>, String>,
    /// The number of its limit ranges.
    pub limit_ranges: Result<usize, String>,
    /// The number of its resource quotas.
    pub quotas: Result<usize, String>,
    /// Its roles.
    pub roles: Result<Vec<RoleFacts>, String>,
    /// Its default service account, if there is one: whether the token is mounted, if that
    /// is said.
    pub default_account: Option<Option<bool>>,
}

/// How a check came out.
pub struct Verdict {
    pub id: Seq<char>,
    pub name: Seq<char>,
    pub status: CheckStatus,
    pub severity: CheckSeverity,
    pub message: Seq<char>,
    pub details: Option<Seq<char>>,
    pub remedy: Option<Action>,
}

/// The verdict on a check.
pub open spec fn verdict(
    c: Check,
    status: CheckStatus,
    message: Seq<char>,
    details: Option<Seq<char>>,
) -> Verdict {
    Verdict { id: c.id, name: c.name, status, severity: c.severity, message, details, remedy: None }
}

/// The verdict on a check whose facts could not be had.
pub open spec fn failed_to_look(c: Check, error: Seq<char>) -> Verdict {
    verdict(c, CheckStatus::Error, "Check error: "@ + error, None)
}

/// The required labels that are not there, each written `key=value`.
pub open spec fn missing_labels(labels: Map<Seq<char>, Seq<char>>, required: Seq<(Seq<char>, Seq<char>)>) -> Seq<
    Seq<char>,
>
    decreases required.len(),
{
    if required.len() == 0 {
        Seq::empty()
    } else {
        let rest = missing_labels(labels, required.drop_last());
        let (k, v) = required.last();
        if labels.contains_key(k) && labels[k] == v {
            rest
        } else {
            rest.push(k + "="@ + v)
        }
    }
}

/// The verdict on the pod security labels.
pub open spec fn pss_verdict(labels: Map<Seq<char>, Seq<char>>) -> Verdict {
    let missing = missing_labels(labels, restricted_labels());
    if missing.len() == 0 {
        verdict(pss_check(), CheckStatus::Pass, "All PSS restricted labels present"@, None)
    } else {
        verdict(
            pss_check(),
            CheckStatus::Fail,
            "Missing PSS labels: "@ + joined(missing, ", "@),
            Some(joined(missing, ", "@)),
        )
    }
}

/// The policy denies incoming traffic by default: it selects all pods, is of type `Ingress`
/// and has an empty list of rules.
pub open spec fn denies_ingress(p: PolicyFacts) -> bool {
    selects_all(p) && covers(p, "Ingress"@) && p.ingress == Some(0usize)
}

/// The policy denies outgoing traffic by default: it selects all pods, is of type `Egress`
/// and has an empty list of rules.
pub open spec fn denies_egress(p: PolicyFacts) -> bool {
    selects_all(p) && covers(p, "Egress"@) && p.egress == Some(0usize)
}

/// The policy selects all pods: it has no pod selector, or one that matches any pod.
pub open spec fn selects_all(p: PolicyFacts) -> bool {
    match p.pod_selector {
        Some(s) => s.labels_empty && s.expressions_empty,
        None => true,
    }
}

/// The policy is of this type.
pub open spec fn covers(p: PolicyFacts, kind: Seq<char>) -> bool {
    p.policy_types matches Some(t) && views(t@).contains(kind)
}

/// One of the policies denies incoming traffic by default.
pub open spec fn some_deny_ingress(ps: Seq<PolicyFacts>) -> bool {
    exists|i: int| 0 <= i < ps.len() && denies_ingress(#[trigger] ps[i])
}

/// One of the policies denies outgoing traffic by default.
pub open spec fn some_deny_egress(ps: Seq<PolicyFacts>) -> bool {
    exists|i: int| 0 <= i < ps.len() && denies_egress(#[trigger] ps[i])
}

/// The verdict where something must be there.
pub open spec fn presence(c: Check, there: bool, found: Seq<char>, absent: Seq<char>) -> Verdict {
    if there {
        verdict(c, CheckStatus::Pass, found, None)
    } else {
        verdict(c, CheckStatus::Fail, absent, None)
    }
}

/// The rule grants everything of some kind.
pub open spec fn is_wildcard(r: RuleFacts) -> bool {
    views(r.verbs@).contains("*"@) || views(r.resources@).contains("*"@) || views(r.api_groups@).contains("*"@)
}

/// The role has a rule that grants everything of some kind.
pub open spec fn has_wildcard(r: RoleFacts) -> bool {
    exists|i: int| 0 <= i < r.rules@.len() && is_wildcard(#[trigger] r.rules@[i])
}

/// The names of the roles that grant everything of some kind.
pub open spec fn wildcard_roles(roles: Seq<RoleFacts>) -> Seq<Seq<char>>
    decreases roles.len(),
{
    if roles.len() == 0 {
        Seq::empty()
    } else {
        let rest = wildcard_roles(roles.drop_last());
        if has_wildcard(roles.last()) {
            rest.push(roles.last().name@)
        } else {
            rest
        }
    }
}

/// The verdict on the roles.
pub open spec fn roles_verdict(roles: Seq<RoleFacts>) -> Verdict {
    let names = wildcard_roles(roles);
    if names.len() == 0 {
        verdict(wildcard_check(), CheckStatus::Pass, "No wildcard RBAC permissions found"@, None)
    } else {
        verdict(
            wildcard_check(),
            CheckStatus::Fail,
            "Wildcard permissions found in roles: "@ + joined(names, ", "@),
            Some(joined(names, ", "@)),
        )
    }
}

/// The verdict on the default service account, whose token is mounted unless said otherwise.
pub open spec fn account_verdict(account: Option<Option<bool>>) -> Verdict {
    match account {
        Some(Some(false)) => verdict(automount_check(), CheckStatus::Pass, "Default SA automount disabled"@, None),
        Some(_) => verdict(automount_check(), CheckStatus::Fail, "Default SA automount enabled"@, None),
        None => verdict(automount_check(), CheckStatus::Error, "Default service account not found"@, None),
    }
}

/// What remedies a check that came out like this: the action of a check that failed and can
/// be remediated.
pub open spec fn remedy_of(c: Check, status: CheckStatus) -> Option<Action> {
    if status == CheckStatus::Fail && c.auto_remediable {
        c.remediation
    } else {
        None
    }
}

/// What an action says, if there is one.
pub open spec fn action_view(a: Option<RemediationAction>) -> Option<Action> {
    match a {
        Some(a) => Some(a@),
        None => None,
    }
}

/// The verdict on a check in a namespace where these facts were found, with what remedies it.
pub open spec fn verdict_of(c: Check, facts: NamespaceFacts) -> Verdict {
    Verdict { remedy: remedy_of(c, outcome_of(c, facts).status), ..outcome_of(c, facts) }
}

/// How a check comes out in a namespace where these facts were found.
pub open spec fn outcome_of(c: Check, facts: NamespaceFacts) -> Verdict {
    if c.id == "pss-restricted-enforce"@ {
        match facts.labels {
            Ok(labels) => pss_verdict(texts(labels@)),
            Err(e) => failed_to_look(c, e@),
        }
    } else if c.id == "default-deny-ingress"@ {
        match facts.policies {
            Ok(ps) => presence(
                ingress_check(),
                some_deny_ingress(ps@),
                "Default deny ingress NetworkPolicy exists"@,
                "No default deny ingress NetworkPolicy found"@,
            ),
            Err(e) => failed_to_look(c, e@),
        }
    } else if c.id == "default-deny-egress"@ {
        match facts.policies {
            Ok(ps) => presence(
                egress_check(),
                some_deny_egress(ps@),
                "Default deny egress NetworkPolicy exists"@,
                "No default deny egress NetworkPolicy found"@,
            ),
            Err(e) => failed_to_look(c, e@),
        }
    } else if c.id == "limit-range"@ {
        match facts.limit_ranges {
            Ok(n) => presence(limits_check(), n > 0, "LimitRange exists"@, "No LimitRange found"@),
            Err(e) => failed_to_look(c, e@),
        }
    } else if c.id == "resource-quota"@ {
        match facts.quotas {
            Ok(n) => presence(quota_check(), n > 0, "ResourceQuota exists"@, "No ResourceQuota found"@),
            Err(e) => failed_to_look(c, e@),
        }
    } else if c.id == "no-wildcard-rbac"@ {
        match facts.roles {
            Ok(roles) => roles_verdict(roles@),
            Err(e) => failed_to_look(c, e@),
        }
    } else if c.id == "no-default-sa-automount"@ {
        account_verdict(facts.default_account)
    } else if c.id == "secrets-encryption"@ {
        verdict(
            encryption_check(),
            CheckStatus::Pass,
            "Cluster-level check - evaluated separately"@,
            None,
        )
    } else {
        verdict(c, CheckStatus::Skip, "Check not implemented"@, None)
    }
}

/// `r` records a verdict.
pub open spec fn records(r: CheckResult, v: Verdict, now: i64) -> bool {
    &&& r.check_id@ == v.id
    &&& r.check_name@ == v.name
    &&& r.status == v.status
    &&& r.severity == v.severity
    &&& r.message@ == v.message
    &&& opt_view(r.details) == v.details
    &&& !r.remediated
    &&& action_view(r.remediation_action) == v.remedy
    &&& r.evaluated_at == now
}

fn record(
    id: &str,
    name: &str,
    status: CheckStatus,
    severity: CheckSeverity,
    message: &str,
    details: Option<String>,
    now: i64,
) -> (r: CheckResult)
    ensures
        records(
            r,
            (Verdict {
                id: id@,
                name: name@,
                status,
                severity,
                message: message@,
                details: opt_view(details),
                remedy: None,
            }),
            now,
        ),
{
    CheckResult {
        check_id: id.to_owned(),
        check_name: name.to_owned(),
        status,
        severity,
        message: message.to_owned(),
        details,
        remediated: false,
        remediation_action: None,
        evaluated_at: now,
    }
}

fn require_label(labels: &StrMap<String>, key: &str, value: &str, missing: &mut Vec<String>, Ghost(done): Ghost<
    Seq<(Seq<char>, Seq<char>)>,
>)
    requires
        views(old(missing)@) == missing_labels(texts(labels@), done),
    ensures
        views(final(missing)@) == missing_labels(texts(labels@), done.push((key@, value@))),
{
    proof {
        assert(done.push((key@, value@)).drop_last() =~= done);
    }
    let present = match labels.get(key) {
        Some(v) => same(v.as_str(), value),
        None => false,
    };
    if !present {
        let mut s = key.to_owned();
        s.append("=");
        s.append(value);
        missing.push(s);
        proof {
            assert(views(missing@) =~= views(old(missing)@).push(key@ + "="@ + value@));
        }
    }
}

/// Check PSS labels on namespace.
pub fn check_pss_labels(labels: &StrMap<String>, now: i64) -> (r: CheckResult)
    ensures
        records(r, pss_verdict(texts(labels@)), now),
{
    let mut missing: Vec<String> = Vec::new();
    let ghost d0 = Seq::<(Seq<char>, Seq<char>)>::empty();
    proof {
        assert(views(missing@) =~= missing_labels(texts(labels@), d0));
    }
    require_label(labels, "pod-security.kubernetes.io/enforce", "restricted", &mut missing, Ghost(d0));
    let ghost d1 = d0.push(("pod-security.kubernetes.io/enforce"@, "restricted"@));
    require_label(labels, "pod-security.kubernetes.io/enforce-version", "latest", &mut missing, Ghost(d1));
    let ghost d2 = d1.push(("pod-security.kubernetes.io/enforce-version"@, "latest"@));
    require_label(labels, "pod-security.kubernetes.io/warn", "restricted", &mut missing, Ghost(d2));
    let ghost d3 = d2.push(("pod-security.kubernetes.io/warn"@, "restricted"@));
    require_label(labels, "pod-security.kubernetes.io/warn-version", "latest", &mut missing, Ghost(d3));
    let ghost d4 = d3.push(("pod-security.kubernetes.io/warn-version"@, "latest"@));
    require_label(labels, "pod-security.kubernetes.io/audit", "restricted", &mut missing, Ghost(d4));
    let ghost d5 = d4.push(("pod-security.kubernetes.io/audit"@, "restricted"@));
    require_label(labels, "pod-security.kubernetes.io/audit-version", "latest", &mut missing, Ghost(d5));
    proof {
        assert(views(missing@).len() == missing@.len());
    }
    if missing.len() == 0 {
        record(
            "pss-restricted-enforce",
            "PSS Restricted Enforce Label",
            CheckStatus::Pass,
            CheckSeverity::High,
            "All PSS restricted labels present",
            None,
            now,
        )
    } else {
        let all = join(&missing, ", ");
        let mut message = "Missing PSS labels: ".to_owned();
        message.append(all.as_str());
        record(
            "pss-restricted-enforce",
            "PSS Restricted Enforce Label",
            CheckStatus::Fail,
            CheckSeverity::High,
            message.as_str(),
            Some(all),
            now,
        )
    }
}

/// Whether the policy selects all pods and is of a type.
fn blankets(p: &PolicyFacts, kind: &str) -> (r: bool)
    ensures
        r == (selects_all(*p) && covers(*p, kind@)),
{
    let all = match &p.pod_selector {
        Some(s) => s.labels_empty && s.expressions_empty,
        None => true,
    };
    match &p.policy_types {
        Some(t) => all && find(t, kind).is_some(),
        None => false,
    }
}

/// Check default-deny ingress NetworkPolicy.
pub fn check_default_deny_ingress(policies: &Vec<PolicyFacts>, now: i64) -> (r: CheckResult)
    ensures
        records(
            r,
            presence(
                ingress_check(),
                some_deny_ingress(policies@),
                "Default deny ingress NetworkPolicy exists"@,
                "No default deny ingress NetworkPolicy found"@,
            ),
            now,
        ),
{
    let mut i: usize = 0;
    while i < policies.len()
        invariant
            i <= policies@.len(),
            forall|k: int| 0 <= k < i ==> !denies_ingress(#[trigger] policies@[k]),
        decreases policies@.len() - i,
    {
        let p = &policies[i];
        let no_rules = match p.ingress {
            Some(n) => n == 0,
            None => false,
        };
        if blankets(p, "Ingress") && no_rules {
            proof {
                assert(denies_ingress(policies@[i as int]));
            }
            return record(
                "default-deny-ingress",
                "Default Deny Ingress NetworkPolicy",
                CheckStatus::Pass,
                CheckSeverity::High,
                "Default deny ingress NetworkPolicy exists",
                None,
                now,
            );
        }
        i = i + 1;
    }
    record(
        "default-deny-ingress",
        "Default Deny Ingress NetworkPolicy",
        CheckStatus::Fail,
        CheckSeverity::High,
        "No default deny ingress NetworkPolicy found",
        None,
        now,
    )
}

/// Check default-deny egress NetworkPolicy.
pub fn check_default_deny_egress(policies: &Vec<PolicyFacts>, now: i64) -> (r: CheckResult)
    ensures
        records(
            r,
            presence(
                egress_check(),
                some_deny_egress(policies@),
                "Default deny egress NetworkPolicy exists"@,
                "No default deny egress NetworkPolicy found"@,
            ),
            now,
        ),
{
    let mut i: usize = 0;
    while i < policies.len()
        invariant
            i <= policies@.len(),
            forall|k: int| 0 <= k < i ==> !denies_egress(#[trigger] policies@[k]),
        decreases policies@.len() - i,
    {
        let p = &policies[i];
        let no_rules = match p.egress {
            Some(n) => n == 0,
            None => false,
        };
        if blankets(p, "Egress") && no_rules {
            proof {
                assert(denies_egress(policies@[i as int]));
            }
            return record(
                "default-deny-egress",
                "Default Deny Egress NetworkPolicy",
                CheckStatus::Pass,
                CheckSeverity::Medium,
                "Default deny egress NetworkPolicy exists",
                None,
                now,
            );
        }
        i = i + 1;
    }
    record(
        "default-deny-egress",
        "Default Deny Egress NetworkPolicy",
        CheckStatus::Fail,
        CheckSeverity::Medium,
        "No default deny egress NetworkPolicy found",
        None,
        now,
    )
}

/// Check LimitRange.
pub fn check_limit_range(found: usize, now: i64) -> (r: CheckResult)
    ensures
        records(r, presence(limits_check(), found > 0, "LimitRange exists"@, "No LimitRange found"@), now),
{
    let (status, message) = if found > 0 {
        (CheckStatus::Pass, "LimitRange exists")
    } else {
        (CheckStatus::Fail, "No LimitRange found")
    };
    record("limit-range", "LimitRange for Resource Quotas", status, CheckSeverity::Medium, message, None, now)
}

/// Check ResourceQuota.
pub fn check_resource_quota(found: usize, now: i64) -> (r: CheckResult)
    ensures
        records(r, presence(quota_check(), found > 0, "ResourceQuota exists"@, "No ResourceQuota found"@), now),
{
    let (status, message) = if found > 0 {
        (CheckStatus::Pass, "ResourceQuota exists")
    } else {
        (CheckStatus::Fail, "No ResourceQuota found")
    };
    record("resource-quota", "ResourceQuota for Namespace", status, CheckSeverity::Medium, message, None, now)
}

/// Whether the role has a rule that grants everything of some kind.
fn grants_everything(role: &RoleFacts) -> (r: bool)
    ensures
        r == has_wildcard(*role),
{
    let mut i: usize = 0;
    while i < role.rules.len()
        invariant
            i <= role.rules@.len(),
            forall|k: int| 0 <= k < i ==> !is_wildcard(#[trigger] role.rules@[k]),
        decreases role.rules@.len() - i,
    {
        let rule = &role.rules[i];
        if find(&rule.verbs, "*").is_some() || find(&rule.resources, "*").is_some() || find(
            &rule.api_groups,
            "*",
        ).is_some() {
            proof {
                assert(is_wildcard(role.rules@[i as int]));
            }
            return true;
        }
        i = i + 1;
    }
    false
}

/// Check no wildcard RBAC.
pub fn check_no_wildcard_rbac(roles: &Vec<RoleFacts>, now: i64) -> (r: CheckResult)
    ensures
        records(r, roles_verdict(roles@), now),
{
    let mut names: Vec<String> = Vec::new();
    let mut i: usize = 0;
    proof {
        assert(views(names@) =~= wildcard_roles(roles@.take(0)));
    }
    while i < roles.len()
        invariant
            i <= roles@.len(),
            views(names@) == wildcard_roles(roles@.take(i as int)),
        decreases roles@.len() - i,
    {
        proof {
            assert(roles@.take(i as int + 1).drop_last() =~= roles@.take(i as int));
        }
        if grants_everything(&roles[i]) {
            let ghost was = names@;
            names.push(roles[i].name.clone());
            proof {
                assert(views(names@) =~= views(was).push(roles@[i as int].name@));
            }
        }
        i = i + 1;
    }
    proof {
        assert(roles@.take(roles@.len() as int) =~= roles@);
        assert(views(names@).len() == names@.len());
    }
    if names.len() == 0 {
        record(
            "no-wildcard-rbac",
            "No Wildcard RBAC Permissions",
            CheckStatus::Pass,
            CheckSeverity::High,
            "No wildcard RBAC permissions found",
            None,
            now,
        )
    } else {
        let all = join(&names, ", ");
        let mut message = "Wildcard permissions found in roles: ".to_owned();
        message.append(all.as_str());
        record(
            "no-wildcard-rbac",
            "No Wildcard RBAC Permissions",
            CheckStatus::Fail,
            CheckSeverity::High,
            message.as_str(),
            Some(all),
            now,
        )
    }
}

/// Check default service account automount.
pub fn check_default_sa_automount(account: &Option<Option<bool>>, now: i64) -> (r: CheckResult)
    ensures
        records(r, account_verdict(*account), now),
{
    let (status, message) = match account {
        Some(Some(false)) => (CheckStatus::Pass, "Default SA automount disabled"),
        Some(_) => (CheckStatus::Fail, "Default SA automount enabled"),
        None => (CheckStatus::Error, "Default service account not found"),
    };
    record(
        "no-default-sa-automount",
        "Default Service Account Automount Disabled",
        status,
        CheckSeverity::Medium,
        message,
        None,
        now,
    )
}

/// Check secrets encryption, which is looked at for the cluster and not for a namespace.
pub fn check_secrets_encryption(now: i64) -> (r: CheckResult)
    ensures
        records(
            r,
            verdict(encryption_check(), CheckStatus::Pass, "Cluster-level check - evaluated separately"@, None),
            now,
        ),
{
    record(
        "secrets-encryption",
        "Secrets Encryption at Rest",
        CheckStatus::Pass,
        CheckSeverity::Critical,
        "Cluster-level check - evaluated separately",
        None,
        now,
    )
}

fn check_error(check: &BaselineCheck, error: &str, now: i64) -> (r: CheckResult)
    ensures
        records(r, failed_to_look(check@, error@), now),
{
    let mut message = "Check error: ".to_owned();
    message.append(error);
    record(
        check.id.as_str(),
        check.name.as_str(),
        CheckStatus::Error,
        check.severity,
        message.as_str(),
        None,
        now,
    )
}

/// Run a single check against what was found in a namespace. A check that failed comes with
/// its remediation action, where it can be remediated.
pub fn run_check(check: &BaselineCheck, facts: &NamespaceFacts, now: i64) -> (r: CheckResult)
    ensures
        records(r, verdict_of(check@, *facts), now),
{
    let mut r = look(check, facts, now);
    if r.status == CheckStatus::Fail && check.auto_remediable {
        r.remediation_action = match &check.remediation {
            Some(a) => Some(a.clone()),
            None => None,
        };
    }
    r
}

/// How a check comes out on what was found in a namespace.
fn look(check: &BaselineCheck, facts: &NamespaceFacts, now: i64) -> (r: CheckResult)
    ensures
        records(r, outcome_of(check@, *facts), now),
{
    let id = check.id.as_str();
    if same(id, "pss-restricted-enforce") {
        match &facts.labels {
            Ok(labels) => check_pss_labels(labels, now),
            Err(e) => check_error(check, e.as_str(), now),
        }
    } else if same(id, "default-deny-ingress") {
        match &facts.policies {
            Ok(ps) => check_default_deny_ingress(ps, now),
            Err(e) => check_error(check, e.as_str(), now),
        }
    } else if same(id, "default-deny-egress") {
        match &facts.policies {
            Ok(ps) => check_default_deny_egress(ps, now),
            Err(e) => check_error(check, e.as_str(), now),
        }
    } else if same(id, "limit-range") {
        match &facts.limit_ranges {
            Ok(n) => check_limit_range(*n, now),
            Err(e) => check_error(check, e.as_str(), now),
        }
    } else if same(id, "resource-quota") {
        match &facts.quotas {
            Ok(n) => check_resource_quota(*n, now),
            Err(e) => check_error(check, e.as_str(), now),
        }
    } else if same(id, "no-wildcard-rbac") {
        match &facts.roles {
            Ok(roles) => check_no_wildcard_rbac(roles, now),
            Err(e) => check_error(check, e.as_str(), now),
        }
    } else if same(id, "no-default-sa-automount") {
        check_default_sa_automount(&facts.default_account, now)
    } else if same(id, "secrets-encryption") {
        check_secrets_encryption(now)
    } else {
        record(
            id,
            check.name.as_str(),
            CheckStatus::Skip,
            check.severity,
            "Check not implemented",
            None,
            now,
        )
    }
}

/// The check belongs to the profile, or to custom profiles without a name, is among the
/// checks to run where some are named, and is not to be skipped.
pub open spec fn is_selected(c: Check, spec_: BaselineSpec) -> bool {
    &&& c.profiles.contains(spec_.profile@) || c.profiles.contains(Profile::Custom(""@))
    &&& spec_.checks@.len() == 0 || views(spec_.checks@).contains(c.id)
    &&& !views(spec_.skipped_checks@).contains(c.id)
}

/// The checks that an evaluator runs: the built-in and then the custom ones, as far as they
/// are selected.
pub open spec fn selection(spec_: BaselineSpec, custom: Seq<Check>) -> Seq<Check> {
    (builtin() + custom).filter(|c: Check| is_selected(c, spec_))
}

fn has_profile(profiles: &Vec<BaselineProfile>, p: &BaselineProfile) -> (r: bool)
    ensures
        r == profiles_of(profiles@).contains(p@),
{
    let ghost all = profiles_of(profiles@);
    let mut i: usize = 0;
    while i < profiles.len()
        invariant
            i <= profiles@.len(),
            all == profiles_of(profiles@),
            forall|k: int| 0 <= k < i ==> #[trigger] all[k] != p@,
        decreases profiles@.len() - i,
    {
        if profiles[i].same_as(p) {
            proof {
                assert(all[i as int] == p@);
            }
            return true;
        }
        i = i + 1;
    }
    false
}

fn selected(c: &BaselineCheck, spec_: &BaselineSpec) -> (r: bool)
    ensures
        r == is_selected(c@, *spec_),
{
    let nameless = BaselineProfile::Custom("".to_owned());
    (has_profile(&c.profiles, &spec_.profile) || has_profile(&c.profiles, &nameless)) && (spec_.checks.len() == 0
        || find(&spec_.checks, c.id.as_str()).is_some()) && find(&spec_.skipped_checks, c.id.as_str()).is_none()
}

/// Which namespaces are evaluated.
#[derive(Debug)]
pub enum Targets {
    /// These.
    Named(Vec<String>),
    /// Those that a label selector selects.
    Selected(String),
}

/// The labels of a selector, each written `key=value`, in key order.
pub open spec fn selector_terms(pairs: Seq<(String, String)>) -> Seq<Seq<char>> {
    Seq::new(pairs.len(), |i: int| pairs[i].0@ + "="@ + pairs[i].1@)
}

/// How many of the verdicts have a status that counts as `status`; an error counts as a
/// failure.
pub open spec fn tally_of(checks: Seq<Check>, facts: NamespaceFacts, status: CheckStatus) -> nat
    decreases checks.len(),
{
    if checks.len() == 0 {
        0
    } else {
        let s = verdict_of(checks.last(), facts).status;
        let counted = if s == CheckStatus::Error {
            CheckStatus::Fail
        } else {
            s
        };
        tally_of(checks.drop_last(), facts, status) + (if counted == status {
            1nat
        } else {
            0nat
        })
    }
}

/// `r` is the result of a namespace.
pub open spec fn is_namespace_result(
    r: NamespaceBaselineResult,
    namespace: Seq<char>,
    checks: Seq<Check>,
    facts: NamespaceFacts,
    now: i64,
) -> bool {
    &&& r.namespace@ == namespace
    &&& r.phase == BaselinePhase::Completed
    &&& r.passed == tally_of(checks, facts, CheckStatus::Pass)
    &&& r.failed == tally_of(checks, facts, CheckStatus::Fail)
    &&& r.skipped == tally_of(checks, facts, CheckStatus::Skip)
    &&& r.remediated == 0
    &&& r.last_evaluation == Some(now)
    &&& r.check_results@.len() == checks.len()
    &&& forall|i: int|
        0 <= i < checks.len() ==> records(#[trigger] r.check_results@[i], verdict_of(checks[i], facts), now)
}

/// What was found in a namespace.
#[derive(Debug)]
pub struct Finding {
    pub namespace: String,
    pub facts: NamespaceFacts,
}

/// The sum over the namespaces.
pub open spec fn total_of(checks: Seq<Check>, found: Seq<Finding>, status: CheckStatus) -> nat
    decreases found.len(),
{
    if found.len() == 0 {
        0
    } else {
        total_of(checks, found.drop_last(), status) + tally_of(checks, found.last().facts, status)
    }
}

/// For each namespace where it was last looked at.
pub open spec fn last_look(found: Seq<Finding>) -> Map<Seq<char>, int>
    decreases found.len(),
{
    if found.len() == 0 {
        Map::empty()
    } else {
        last_look(found.drop_last()).insert(found.last().namespace@, found.len() - 1)
    }
}

/// The tallies of all checks together are as many as the checks.
proof fn tallies_add_up(checks: Seq<Check>, facts: NamespaceFacts)
    ensures
        tally_of(checks, facts, CheckStatus::Pass) + tally_of(checks, facts, CheckStatus::Fail) + tally_of(
            checks,
            facts,
            CheckStatus::Skip,
        ) == checks.len(),
    decreases checks.len(),
{
    if checks.len() > 0 {
        tallies_add_up(checks.drop_last(), facts);
    }
}

/// Fewer namespaces have no larger sum.
proof fn totals_grow(checks: Seq<Check>, found: Seq<Finding>, k: int, status: CheckStatus)
    requires
        0 <= k <= found.len(),
    ensures
        total_of(checks, found.take(k), status) <= total_of(checks, found, status),
    decreases found.len(),
{
    if k == found.len() {
        assert(found.take(k) =~= found);
    } else {
        assert(found.drop_last().take(k) =~= found.take(k));
        totals_grow(checks, found.drop_last(), k, status);
    }
}

/// Baseline evaluator.
pub struct BaselineEvaluator {
    pub config: EvaluatorConfig,
    pub checks: Vec<BaselineCheck>,
}

impl BaselineEvaluator {
    /// Create a new baseline evaluator.
    pub fn new(config: EvaluatorConfig) -> (e: Self)
        ensures
            e.config == config,
            checks_of(e.checks@) == selection(config.spec_, checks_of(config.custom_checks@)),
    {
        let mut rest = builtin_checks();
        let ghost custom = checks_of(config.custom_checks@);
        let mut i: usize = 0;
        proof {
            assert(checks_of(rest@) =~= builtin() + custom.take(0));
        }
        while i < config.custom_checks.len()
            invariant
                i <= config.custom_checks@.len(),
                custom == checks_of(config.custom_checks@),
                checks_of(rest@) == builtin() + custom.take(i as int),
            decreases config.custom_checks@.len() - i,
        {
            let ghost was = rest@;
            rest.push(config.custom_checks[i].clone());
            proof {
                assert(checks_of(rest@) =~= checks_of(was).push(custom[i as int]));
                assert(custom.take(i as int + 1) =~= custom.take(i as int).push(custom[i as int]));
                assert(checks_of(rest@) =~= builtin() + custom.take(i as int + 1));
            }
            i = i + 1;
        }
        proof {
            assert(custom.take(config.custom_checks@.len() as int) =~= custom);
        }
        let ghost all = builtin() + custom;
        let ghost f = |c: Check| is_selected(c, config.spec_);
        let n: usize = rest.len();
        let mut checks: Vec<BaselineCheck> = Vec::new();
        let mut j: usize = 0;
        proof {
            filter_none(all, f);
            assert(checks_of(checks@) =~= all.take(0).filter(f));
            assert(all.skip(0) =~= all);
        }
        while j < n
            invariant
                j <= n == all.len(),
                f == (|c: Check| is_selected(c, config.spec_)),
                checks_of(rest@) == all.skip(j as int),
                checks_of(checks@) == all.take(j as int).filter(f),
            decreases n - j,
        {
            proof {
                filter_step(all, j as int, f);
                assert(checks_of(rest@).len() == rest@.len());
                assert(rest@[0]@ == checks_of(rest@)[0]);
            }
            let ghost before = rest@;
            let c = rest.remove(0);
            proof {
                assert(checks_of(rest@) =~= checks_of(before).skip(1));
                assert(all.skip(j as int).skip(1) =~= all.skip(j as int + 1));
            }
            if selected(&c, &config.spec_) {
                let ghost was = checks@;
                checks.push(c);
                proof {
                    assert(checks_of(checks@) =~= checks_of(was).push(all[j as int]));
                }
            }
            j = j + 1;
        }
        proof {
            assert(all.take(n as int) =~= all);
        }
        BaselineEvaluator { config, checks }
    }

    /// Evaluate a single namespace, in which these facts were found.
    pub fn evaluate_namespace(&self, namespace: &str, facts: &NamespaceFacts, now: i64) -> (r: NamespaceBaselineResult)
        requires
            self.checks@.len() <= u32::MAX,
        ensures
            is_namespace_result(r, namespace@, checks_of(self.checks@), *facts, now),
    {
        let ghost all = checks_of(self.checks@);
        let mut passed: u32 = 0;
        let mut failed: u32 = 0;
        let mut skipped: u32 = 0;
        let mut check_results: Vec<CheckResult> = Vec::new();
        let mut i: usize = 0;
        while i < self.checks.len()
            invariant
                i <= self.checks@.len() <= u32::MAX,
                all == checks_of(self.checks@),
                passed == tally_of(all.take(i as int), *facts, CheckStatus::Pass),
                failed == tally_of(all.take(i as int), *facts, CheckStatus::Fail),
                skipped == tally_of(all.take(i as int), *facts, CheckStatus::Skip),
                passed + failed + skipped == i,
                check_results@.len() == i,
                forall|k: int|
                    0 <= k < i ==> records(#[trigger] check_results@[k], verdict_of(all[k], *facts), now),
            decreases self.checks@.len() - i,
        {
            proof {
                assert(all.take(i as int + 1).drop_last() =~= all.take(i as int));
                assert(all.take(i as int + 1).last() == self.checks@[i as int]@);
            }
            let result = run_check(&self.checks[i], facts, now);
            match result.status {
                CheckStatus::Pass => {
                    passed = passed + 1;
                },
                CheckStatus::Fail => {
                    failed = failed + 1;
                },
                CheckStatus::Skip => {
                    skipped = skipped + 1;
                },
                CheckStatus::Error => {
                    failed = failed + 1;
                },
            }
            check_results.push(result);
            i = i + 1;
        }
        proof {
            assert(all.take(self.checks@.len() as int) =~= all);
        }
        NamespaceBaselineResult {
            namespace: namespace.to_owned(),
            phase: BaselinePhase::Completed,
            passed,
            failed,
            skipped,
            remediated: 0,
            last_evaluation: Some(now),
            check_results,
        }
    }

    /// Run evaluation for all target namespaces, in which this was found. It took
    /// `duration_ms` milliseconds to find it.
    pub fn evaluate_all(&self, found: &Vec<Finding>, duration_ms: u64, now: i64) -> (r: EvaluationResult)
        requires
            self.checks@.len() <= u32::MAX,
            total_of(checks_of(self.checks@), found@, CheckStatus::Pass) <= u32::MAX,
            total_of(checks_of(self.checks@), found@, CheckStatus::Fail) <= u32::MAX,
            total_of(checks_of(self.checks@), found@, CheckStatus::Skip) <= u32::MAX,
        ensures
            r.baseline_name@ == self.config.spec_.profile.label(),
            r.timestamp == now,
            r.duration_ms == duration_ms,
            r.total_passed == total_of(checks_of(self.checks@), found@, CheckStatus::Pass),
            r.total_failed == total_of(checks_of(self.checks@), found@, CheckStatus::Fail),
            r.total_skipped == total_of(checks_of(self.checks@), found@, CheckStatus::Skip),
            r.overall_phase == BaselinePhase::Completed,
            r.namespace_results@.dom() == last_look(found@).dom(),
            forall|ns: Seq<char>| #[trigger]
                r.namespace_results@.contains_key(ns) ==> is_namespace_result(
                    r.namespace_results@[ns],
                    ns,
                    checks_of(self.checks@),
                    found@[last_look(found@)[ns]].facts,
                    now,
                ),
    {
        let ghost all = checks_of(self.checks@);
        let mut results: StrMap<NamespaceBaselineResult> = StrMap::new();
        let mut total_passed: u32 = 0;
        let mut total_failed: u32 = 0;
        let mut total_skipped: u32 = 0;
        let mut i: usize = 0;
        proof {
            assert(results@.dom() =~= last_look(found@.take(0)).dom());
        }
        while i < found.len()
            invariant
                i <= found@.len(),
                all == checks_of(self.checks@),
                self.checks@.len() <= u32::MAX,
                total_of(all, found@, CheckStatus::Pass) <= u32::MAX,
                total_of(all, found@, CheckStatus::Fail) <= u32::MAX,
                total_of(all, found@, CheckStatus::Skip) <= u32::MAX,
                total_passed == total_of(all, found@.take(i as int), CheckStatus::Pass),
                total_failed == total_of(all, found@.take(i as int), CheckStatus::Fail),
                total_skipped == total_of(all, found@.take(i as int), CheckStatus::Skip),
                results@.dom() == last_look(found@.take(i as int)).dom(),
                forall|ns: Seq<char>| #[trigger]
                    last_look(found@.take(i as int)).contains_key(ns) ==> 0 <= last_look(found@.take(i as int))[ns] < i,
                forall|ns: Seq<char>| #[trigger]
                    results@.contains_key(ns) ==> is_namespace_result(
                        results@[ns],
                        ns,
                        all,
                        found@[last_look(found@.take(i as int))[ns]].facts,
                        now,
                    ),
            decreases found@.len() - i,
        {
            let ghost t = found@.take(i as int);
            let ghost u = found@.take(i as int + 1);
            proof {
                assert(u.drop_last() =~= t);
                assert(u.last() == found@[i as int]);
                totals_grow(all, found@, i as int + 1, CheckStatus::Pass);
                totals_grow(all, found@, i as int + 1, CheckStatus::Fail);
                totals_grow(all, found@, i as int + 1, CheckStatus::Skip);
            }
            let one = self.evaluate_namespace(found[i].namespace.as_str(), &found[i].facts, now);
            total_passed = total_passed + one.passed;
            total_failed = total_failed + one.failed;
            total_skipped = total_skipped + one.skipped;
            let ghost before = results@;
            results.insert(found[i].namespace.clone(), one);
            proof {
                let at = found@[i as int].namespace@;
                assert(last_look(u) == last_look(t).insert(at, i as int));
                assert(results@.dom() =~= last_look(u).dom());
                assert forall|ns: Seq<char>| #[trigger] results@.contains_key(ns) implies is_namespace_result(
                    results@[ns],
                    ns,
                    all,
                    found@[last_look(u)[ns]].facts,
                    now,
                ) by {
                    if ns != at {
                        assert(before.contains_key(ns));
                    }
                }
            }
            i = i + 1;
        }
        proof {
            assert(found@.take(found@.len() as int) =~= found@);
        }
        EvaluationResult {
            baseline_name: self.config.spec_.profile.name(),
            timestamp: now,
            duration_ms,
            namespace_results: results,
            total_passed,
            total_failed,
            total_skipped,
            overall_phase: BaselinePhase::Completed,
        }
    }

    /// Get target namespaces: the configured one, else those that the baseline names, else
    /// those that its selector selects, which without labels is the operator's own.
    pub fn get_target_namespaces(&self) -> (t: Targets)
        ensures
            match self.config.namespace {
                Some(ns) => t matches Targets::Named(v) && views(v@) == Seq::<Seq<char>>::empty().push(ns@),
                None => if self.config.spec_.target_namespaces@.len() > 0 {
                    t matches Targets::Named(v) && views(v@) == views(self.config.spec_.target_namespaces@)
                } else {
                    t matches Targets::Selected(s) && s@ == if self.config.spec_.namespace_selector.pairs().len() == 0 {
                        "app.kubernetes.io/managed-by=stellar-operator"@
                    } else {
                        joined(selector_terms(self.config.spec_.namespace_selector.pairs()), ","@)
                    }
                },
            },
    {
        if let Some(ns) = &self.config.namespace {
            let mut v: Vec<String> = Vec::new();
            v.push(ns.clone());
            proof {
                assert(views(v@) =~= Seq::<Seq<char>>::empty().push(ns@));
            }
            return Targets::Named(v);
        }
        if self.config.spec_.target_namespaces.len() > 0 {
            return Targets::Named(copy_strings(&self.config.spec_.target_namespaces));
        }
        let selector = &self.config.spec_.namespace_selector;
        let n: usize = selector.len();
        if n == 0 {
            return Targets::Selected("app.kubernetes.io/managed-by=stellar-operator".to_owned());
        }
        let ghost terms = selector_terms(selector.pairs());
        let mut parts: Vec<String> = Vec::new();
        let mut i: usize = 0;
        while i < n
            invariant
                i <= n == selector.pairs().len(),
                terms == selector_terms(selector.pairs()),
                views(parts@) == terms.take(i as int),
            decreases n - i,
        {
            let mut s = selector.key_at(i).clone();
            s.append("=");
            s.append(selector.value_at(i).as_str());
            let ghost was = parts@;
            parts.push(s);
            proof {
                assert(views(parts@) =~= views(was).push(terms[i as int]));
                assert(terms.take(i as int + 1) =~= terms.take(i as int).push(terms[i as int]));
            }
            i = i + 1;
        }
        proof {
            assert(terms.take(n as int) =~= terms);
        }
        Targets::Selected(join(&parts, ","))
    }
}

/// Every check of a namespace is counted exactly once: as passed, as failed or as skipped.
pub proof fn every_check_counts(r: NamespaceBaselineResult, ns: Seq<char>, checks: Seq<Check>, facts: NamespaceFacts, now: i64)
    requires
        is_namespace_result(r, ns, checks, facts, now),
    ensures
        r.passed + r.failed + r.skipped == r.check_results@.len(),
{
    tallies_add_up(checks, facts);
}

/// A skipped check is never run, whatever else selects it.
pub proof fn skipped_checks_stay_out(spec_: BaselineSpec, custom: Seq<Check>, c: Check)
    requires
        views(spec_.skipped_checks@).contains(c.id),
    ensures
        !selection(spec_, custom).contains(c),
{
    let f = |c: Check| is_selected(c, spec_);
    let all = builtin() + custom;
    all.filter_lemma(f);
    if selection(spec_, custom).contains(c) {
        let i = choose|i: int| 0 <= i < all.filter(f).len() && all.filter(f)[i] == c;
        assert(f(all.filter(f)[i]));
    }
}

proof fn missing_labels_are_those_not_there(labels: Map<Seq<char>, Seq<char>>, required: Seq<(Seq<char>, Seq<char>)>)
    ensures
        missing_labels(labels, required).len() == 0 <==> forall|i: int|
            0 <= i < required.len() ==> labels.contains_key((#[trigger] required[i]).0) && labels[required[i].0]
                == required[i].1,
    decreases required.len(),
{
    if required.len() > 0 {
        let front = required.drop_last();
        missing_labels_are_those_not_there(labels, front);
        assert forall|i: int| 0 <= i < front.len() implies #[trigger] front[i] == required[i] by {}
        if missing_labels(labels, required).len() == 0 {
            assert forall|i: int| 0 <= i < required.len() implies labels.contains_key((#[trigger] required[i]).0)
                && labels[required[i].0] == required[i].1 by {
                if i < front.len() {
                    assert(front[i] == required[i]);
                }
            }
        }
        if forall|i: int|
            0 <= i < required.len() ==> labels.contains_key((#[trigger] required[i]).0) && labels[required[i].0]
                == required[i].1 {
            assert(labels.contains_key(required[required.len() - 1].0));
        }
    }
}

/// A namespace passes the pod security check exactly where all six labels of the restricted
/// standard are there: enforced, warned of and audited, each in its latest version.
#[verifier::rlimit(40)]
pub proof fn restricted_namespaces_are_labelled(c: Check, facts: NamespaceFacts, r: CheckResult, now: i64)
    requires
        records(r, verdict_of(c, facts), now),
        c.id == "pss-restricted-enforce"@,
    ensures
        facts.labels is Err ==> r.status is Error,
        facts.labels matches Ok(m) ==> {
            let labelled = {
                &&& m@.contains_key("pod-security.kubernetes.io/enforce"@)
                    && m@["pod-security.kubernetes.io/enforce"@]@ == "restricted"@
                &&& m@.contains_key("pod-security.kubernetes.io/enforce-version"@)
                    && m@["pod-security.kubernetes.io/enforce-version"@]@ == "latest"@
                &&& m@.contains_key("pod-security.kubernetes.io/warn"@) && m@["pod-security.kubernetes.io/warn"@]@
                    == "restricted"@
                &&& m@.contains_key("pod-security.kubernetes.io/warn-version"@)
                    && m@["pod-security.kubernetes.io/warn-version"@]@ == "latest"@
                &&& m@.contains_key("pod-security.kubernetes.io/audit"@) && m@["pod-security.kubernetes.io/audit"@]@
                    == "restricted"@
                &&& m@.contains_key("pod-security.kubernetes.io/audit-version"@)
                    && m@["pod-security.kubernetes.io/audit-version"@]@ == "latest"@
            };
            &&& labelled ==> r.status is Pass
            &&& !labelled ==> r.status is Fail
            &&& r.severity is High
        },
{
    if facts.labels is Ok {
        let m = texts(facts.labels->Ok_0@);
        let required = restricted_labels();
        missing_labels_are_those_not_there(m, required);
        assert(required.len() == 6);
        assert(required[0] == ("pod-security.kubernetes.io/enforce"@, "restricted"@));
        assert(required[1] == ("pod-security.kubernetes.io/enforce-version"@, "latest"@));
        assert(required[2] == ("pod-security.kubernetes.io/warn"@, "restricted"@));
        assert(required[3] == ("pod-security.kubernetes.io/warn-version"@, "latest"@));
        assert(required[4] == ("pod-security.kubernetes.io/audit"@, "restricted"@));
        assert(required[5] == ("pod-security.kubernetes.io/audit-version"@, "latest"@));
    }
}

/// A namespace denies a direction by default exactly where one of its policies selects every pod,
/// covers that direction and has no rule that lets anything through.
pub proof fn default_denial_lets_nothing_through(c: Check, facts: NamespaceFacts, r: CheckResult, now: i64)
    requires
        records(r, verdict_of(c, facts), now),
        c.id == "default-deny-ingress"@ || c.id == "default-deny-egress"@,
    ensures
        facts.policies is Err ==> r.status is Error,
        facts.policies matches Ok(ps) ==> {
            let direction = if c.id == "default-deny-ingress"@ {
                "Ingress"@
            } else {
                "Egress"@
            };
            let denied = exists|i: int|
                0 <= i < ps@.len() && {
                    let p = #[trigger] ps@[i];
                    &&& p.pod_selector matches Some(s) ==> s.labels_empty && s.expressions_empty
                    &&& p.policy_types is Some && views(p.policy_types->0@).contains(direction)
                    &&& (if c.id == "default-deny-ingress"@ {
                        p.ingress
                    } else {
                        p.egress
                    }) == Some(0usize)
                };
            &&& denied ==> r.status is Pass
            &&& !denied ==> r.status is Fail
        },
{
    check_names_differ();
    if facts.policies is Ok {
        let ps = facts.policies->Ok_0@;
        if c.id == "default-deny-ingress"@ {
            if some_deny_ingress(ps) {
                let i = choose|i: int| 0 <= i < ps.len() && denies_ingress(#[trigger] ps[i]);
                assert(ps[i].ingress == Some(0usize));
            }
            if exists|i: int|
                0 <= i < ps.len() && {
                    let p = #[trigger] ps[i];
                    &&& p.pod_selector matches Some(s) ==> s.labels_empty && s.expressions_empty
                    &&& p.policy_types is Some && views(p.policy_types->0@).contains("Ingress"@)
                    &&& p.ingress == Some(0usize)
                } {
                let i = choose|i: int|
                    0 <= i < ps.len() && {
                        let p = #[trigger] ps[i];
                        &&& p.pod_selector matches Some(s) ==> s.labels_empty && s.expressions_empty
                        &&& p.policy_types is Some && views(p.policy_types->0@).contains("Ingress"@)
                        &&& p.ingress == Some(0usize)
                    };
                assert(denies_ingress(ps[i]));
            }
        } else {
            if some_deny_egress(ps) {
                let i = choose|i: int| 0 <= i < ps.len() && denies_egress(#[trigger] ps[i]);
                assert(ps[i].egress == Some(0usize));
            }
            if exists|i: int|
                0 <= i < ps.len() && {
                    let p = #[trigger] ps[i];
                    &&& p.pod_selector matches Some(s) ==> s.labels_empty && s.expressions_empty
                    &&& p.policy_types is Some && views(p.policy_types->0@).contains("Egress"@)
                    &&& p.egress == Some(0usize)
                } {
                let i = choose|i: int|
                    0 <= i < ps.len() && {
                        let p = #[trigger] ps[i];
                        &&& p.pod_selector matches Some(s) ==> s.labels_empty && s.expressions_empty
                        &&& p.policy_types is Some && views(p.policy_types->0@).contains("Egress"@)
                        &&& p.egress == Some(0usize)
                    };
                assert(denies_egress(ps[i]));
            }
        }
    }
}

/// The identifiers of the built-in checks differ.
pub proof fn check_names_differ()
    ensures
        "pss-restricted-enforce"@ != "default-deny-ingress"@,
        "pss-restricted-enforce"@ != "default-deny-egress"@,
        "default-deny-ingress"@ != "default-deny-egress"@,
        "limit-range"@ != "pss-restricted-enforce"@ && "limit-range"@ != "default-deny-ingress"@ && "limit-range"@
            != "default-deny-egress"@,
        "resource-quota"@ != "pss-restricted-enforce"@ && "resource-quota"@ != "default-deny-ingress"@
            && "resource-quota"@ != "default-deny-egress"@ && "resource-quota"@ != "limit-range"@,
        "no-wildcard-rbac"@ != "pss-restricted-enforce"@ && "no-wildcard-rbac"@ != "default-deny-ingress"@
            && "no-wildcard-rbac"@ != "default-deny-egress"@ && "no-wildcard-rbac"@ != "limit-range"@
            && "no-wildcard-rbac"@ != "resource-quota"@,
        "no-default-sa-automount"@ != "pss-restricted-enforce"@ && "no-default-sa-automount"@ != "default-deny-ingress"@
            && "no-default-sa-automount"@ != "default-deny-egress"@ && "no-default-sa-automount"@ != "limit-range"@
            && "no-default-sa-automount"@ != "resource-quota"@ && "no-default-sa-automount"@ != "no-wildcard-rbac"@,
{
    reveal_strlit("pss-restricted-enforce");
    reveal_strlit("default-deny-ingress");
    reveal_strlit("default-deny-egress");
    reveal_strlit("limit-range");
    reveal_strlit("resource-quota");
    reveal_strlit("no-wildcard-rbac");
    reveal_strlit("no-default-sa-automount");
    assert("pss-restricted-enforce"@[0] == 'p' && "default-deny-ingress"@[0] == 'd' && "default-deny-egress"@[0] == 'd'
        && "limit-range"@[0] == 'l' && "resource-quota"@[0] == 'r' && "no-wildcard-rbac"@[3] == 'w'
        && "no-default-sa-automount"@[3] == 'd' && "no-default-sa-automount"@[0] == 'n' && "no-wildcard-rbac"@[0]
        == 'n');
    assert("default-deny-ingress"@.len() == 20 && "default-deny-egress"@.len() == 19);
}

/// A namespace needs at least one limit range and at least one resource quota, and its default
/// service account must say that it mounts no token.
pub proof fn namespaces_need_limits(c: Check, facts: NamespaceFacts, r: CheckResult, now: i64)
    requires
        records(r, verdict_of(c, facts), now),
    ensures
        c.id == "limit-range"@ ==> (facts.limit_ranges matches Ok(n) ==> (n >= 1 ==> r.status is Pass) && (n == 0
            ==> r.status is Fail)) && (facts.limit_ranges is Err ==> r.status is Error),
        c.id == "resource-quota"@ ==> (facts.quotas matches Ok(n) ==> (n >= 1 ==> r.status is Pass) && (n == 0
            ==> r.status is Fail)) && (facts.quotas is Err ==> r.status is Error),
        c.id == "no-default-sa-automount"@ ==> {
            &&& r.status is Pass <==> facts.default_account == Some(Some(false))
            &&& r.status is Error <==> facts.default_account is None
            &&& r.status is Fail <==> facts.default_account == Some(Some(true)) || facts.default_account == Some(
                None::<bool>,
            )
        },
{
    check_names_differ();
}

pub proof fn wildcard_roles_are_those_with_one(roles: Seq<RoleFacts>)
    ensures
        wildcard_roles(roles).len() == 0 <==> forall|i: int| 0 <= i < roles.len() ==> !has_wildcard(#[trigger] roles[i]),
    decreases roles.len(),
{
    if roles.len() > 0 {
        let front = roles.drop_last();
        wildcard_roles_are_those_with_one(front);
        assert forall|i: int| 0 <= i < front.len() implies #[trigger] front[i] == roles[i] by {}
        if wildcard_roles(roles).len() == 0 {
            assert forall|i: int| 0 <= i < roles.len() implies !has_wildcard(#[trigger] roles[i]) by {
                if i < front.len() {
                    assert(front[i] == roles[i]);
                }
            }
        }
        if forall|i: int| 0 <= i < roles.len() ==> !has_wildcard(#[trigger] roles[i]) {
            assert(!has_wildcard(roles[roles.len() - 1]));
        }
    }
}

/// A star among the verbs, the resources or the groups of any rule of any role fails the check for
/// wildcards, and nothing else does.
pub proof fn one_star_is_a_wildcard(c: Check, facts: NamespaceFacts, r: CheckResult, now: i64)
    requires
        records(r, verdict_of(c, facts), now),
        c.id == "no-wildcard-rbac"@,
    ensures
        facts.roles is Err ==> r.status is Error,
        facts.roles matches Ok(roles) ==> {
            let starred = exists|i: int, j: int|
                0 <= i < roles@.len() && 0 <= j < roles@[i].rules@.len() && {
                    let rule = #[trigger] roles@[i].rules@[j];
                    ||| views(rule.verbs@).contains("*"@)
                    ||| views(rule.resources@).contains("*"@)
                    ||| views(rule.api_groups@).contains("*"@)
                };
            &&& starred ==> r.status is Fail
            &&& !starred ==> r.status is Pass
            &&& r.severity is High
        },
{
    check_names_differ();
    if facts.roles is Ok {
        let roles = facts.roles->Ok_0@;
        wildcard_roles_are_those_with_one(roles);
        if exists|i: int, j: int|
            0 <= i < roles.len() && 0 <= j < roles[i].rules@.len() && {
                let rule = #[trigger] roles[i].rules@[j];
                ||| views(rule.verbs@).contains("*"@)
                ||| views(rule.resources@).contains("*"@)
                ||| views(rule.api_groups@).contains("*"@)
            } {
            let (i, j) = choose|i: int, j: int|
                0 <= i < roles.len() && 0 <= j < roles[i].rules@.len() && {
                    let rule = #[trigger] roles[i].rules@[j];
                    ||| views(rule.verbs@).contains("*"@)
                    ||| views(rule.resources@).contains("*"@)
                    ||| views(rule.api_groups@).contains("*"@)
                };
            assert(is_wildcard(roles[i].rules@[j]));
            assert(has_wildcard(roles[i]));
        } else {
            assert forall|i: int| 0 <= i < roles.len() implies !has_wildcard(#[trigger] roles[i]) by {
                if has_wildcard(roles[i]) {
                    let j = choose|j: int| 0 <= j < roles[i].rules@.len() && is_wildcard(#[trigger] roles[i].rules@[j]);
                    let rule = roles[i].rules@[j];
                }
            }
        }
    }
}

/// Only a failed check that can be remediated asks for its remediation, and every such check does.
pub proof fn failures_ask_for_their_remedy(c: Check, facts: NamespaceFacts, r: CheckResult, now: i64)
    requires
        records(r, verdict_of(c, facts), now),
    ensures
        r.status is Fail && c.auto_remediable ==> action_view(r.remediation_action) == c.remediation,
        !(r.status is Fail) ==> r.remediation_action is None,
        !c.auto_remediable ==> r.remediation_action is None,
        !r.remediated,
        r.evaluated_at == now,
{
}

/// A check is run exactly where it belongs to the profile, or to every profile of a user, is
/// among those that are asked for where any are, and is not skipped.
pub proof fn checks_are_selected_by_profile(spec_: BaselineSpec, custom: Seq<Check>, i: int)
    requires
        0 <= i < (builtin() + custom).len(),
    ensures
        ({
            let c = (builtin() + custom)[i];
            let wanted = {
                &&& c.profiles.contains(spec_.profile@) || c.profiles.contains(Profile::Custom(""@))
                &&& spec_.checks@.len() == 0 || exists|k: int|
                    0 <= k < spec_.checks@.len() && (#[trigger] spec_.checks@[k])@ == c.id
                &&& forall|k: int|
                    0 <= k < spec_.skipped_checks@.len() ==> (#[trigger] spec_.skipped_checks@[k])@ != c.id
            };
            &&& wanted ==> selection(spec_, custom).contains(c)
            &&& !wanted ==> !selection(spec_, custom).contains(c)
        }),
{
    let all = builtin() + custom;
    let c = all[i];
    let f = |c: Check| is_selected(c, spec_);
    all.filter_lemma(f);
    let only = views(spec_.checks@);
    let skipped = views(spec_.skipped_checks@);
    if exists|k: int| 0 <= k < spec_.checks@.len() && (#[trigger] spec_.checks@[k])@ == c.id {
        let k = choose|k: int| 0 <= k < spec_.checks@.len() && (#[trigger] spec_.checks@[k])@ == c.id;
        assert(only[k] == c.id);
    }
    if only.contains(c.id) {
        let k = only.index_of(c.id);
        assert(spec_.checks@[k]@ == c.id);
    }
    if skipped.contains(c.id) {
        let k = skipped.index_of(c.id);
        assert(spec_.skipped_checks@[k]@ == c.id);
    }
    if exists|k: int| 0 <= k < spec_.skipped_checks@.len() && (#[trigger] spec_.skipped_checks@[k])@ == c.id {
        let k = choose|k: int| 0 <= k < spec_.skipped_checks@.len() && (#[trigger] spec_.skipped_checks@[k])@ == c.id;
        assert(skipped[k] == c.id);
    }
    if f(c) {
        assert(selection(spec_, custom).contains(c));
    } else if selection(spec_, custom).contains(c) {
        let k = selection(spec_, custom).index_of(c);
        assert(f(all.filter(f)[k]));
    }
}

/// The counts of a namespace are those of its results: the checks that passed, those that failed
/// or could not be made, and those that were skipped.
pub proof fn counts_are_those_of_the_results(
    r: NamespaceBaselineResult,
    ns: Seq<char>,
    checks: Seq<Check>,
    facts: NamespaceFacts,
    now: i64,
)
    requires
        is_namespace_result(r, ns, checks, facts, now),
    ensures
        r.passed == r.check_results@.filter(|c: CheckResult| c.status is Pass).len(),
        r.failed == r.check_results@.filter(|c: CheckResult| c.status is Fail || c.status is Error).len(),
        r.skipped == r.check_results@.filter(|c: CheckResult| c.status is Skip).len(),
{
    tallies_count_results(r.check_results@, checks, facts, now);
}

proof fn tallies_count_results(results: Seq<CheckResult>, checks: Seq<Check>, facts: NamespaceFacts, now: i64)
    requires
        results.len() == checks.len(),
        forall|i: int| 0 <= i < checks.len() ==> records(#[trigger] results[i], verdict_of(checks[i], facts), now),
    ensures
        tally_of(checks, facts, CheckStatus::Pass) == results.filter(|c: CheckResult| c.status is Pass).len(),
        tally_of(checks, facts, CheckStatus::Fail) == results.filter(
            |c: CheckResult| c.status is Fail || c.status is Error,
        ).len(),
        tally_of(checks, facts, CheckStatus::Skip) == results.filter(|c: CheckResult| c.status is Skip).len(),
    decreases checks.len(),
{
    reveal(Seq::filter);
    if checks.len() > 0 {
        let front = results.drop_last();
        assert forall|i: int| 0 <= i < checks.drop_last().len() implies records(
            #[trigger] front[i],
            verdict_of(checks.drop_last()[i], facts),
            now,
        ) by {
            assert(front[i] == results[i]);
        }
        tallies_count_results(front, checks.drop_last(), facts, now);
        assert(records(results[results.len() - 1], verdict_of(checks[checks.len() - 1], facts), now));
    }
}

/// The outcomes of all namespaces are those of each, added up.
pub proof fn outcomes_add_up(checks: Seq<Check>, found: Seq<Finding>, f: Finding, status: CheckStatus)
    ensures
        total_of(checks, Seq::empty(), status) == 0,
        total_of(checks, found.push(f), status) == total_of(checks, found, status) + tally_of(checks, f.facts, status),
{
    assert(found.push(f).drop_last() =~= found);
}

/// A namespace that was looked at more than once is reported as it was last found.
pub proof fn the_last_look_counts(found: Seq<Finding>, i: int)
    requires
        0 <= i < found.len(),
        forall|j: int| i < j < found.len() ==> (#[trigger] found[j]).namespace@ != found[i].namespace@,
    ensures
        last_look(found).contains_key(found[i].namespace@),
        last_look(found)[found[i].namespace@] == i,
    decreases found.len(),
{
    let front = found.drop_last();
    if i < front.len() {
        assert(front[i] == found[i]);
        assert forall|j: int| i < j < front.len() implies (#[trigger] front[j]).namespace@ != front[i].namespace@ by {
            assert(front[j] == found[j]);
        }
        the_last_look_counts(front, i);
        assert(found[found.len() - 1].namespace@ != found[i].namespace@);
    }
}

/// Labels are selected by name and content.
pub proof fn selectors_name_label_and_content(pairs: Seq<(String, String)>, i: int)
    requires
        0 <= i < pairs.len(),
    ensures
        selector_terms(pairs).len() == pairs.len(),
        selector_terms(pairs)[i] == pairs[i].0@ + "="@ + pairs[i].1@,
{
}

/// A result tells what its check found, of which check, and when.
pub proof fn results_tell_what_was_found(r: CheckResult, v: Verdict, now: i64)
    requires
        records(r, v, now),
    ensures
        r.check_id@ == v.id && r.check_name@ == v.name && r.severity == v.severity,
        r.status == v.status && r.message@ == v.message,
        v.details is None <==> r.details is None,
        v.details is Some ==> (r.details->0)@ == v.details->0,
        r.evaluated_at == now && !r.remediated,
{
}

/// A label is missing where it is not there or has other content, and is then told with what it
/// should have.
pub proof fn missing_labels_are_told(
    labels: Map<Seq<char>, Seq<char>>,
    required: Seq<(Seq<char>, Seq<char>)>,
    i: int,
)
    requires
        0 <= i < required.len(),
        !(labels.contains_key(required[i].0) && labels[required[i].0] == required[i].1),
    ensures
        missing_labels(labels, required).contains(required[i].0 + "="@ + required[i].1),
    decreases required.len(),
{
    let front = required.drop_last();
    let all = missing_labels(labels, required);
    let rest = missing_labels(labels, front);
    let told = required[i].0 + "="@ + required[i].1;
    if i < front.len() {
        assert(front[i] == required[i]);
        missing_labels_are_told(labels, front, i);
        let j = rest.index_of(told);
        assert(all[j] == told);
    } else {
        assert(required.last() == required[i]);
        assert(all.last() == told);
    }
}

/// Encryption of secrets is a matter of the cluster and passes here; a check that is not known is
/// skipped.
pub proof fn unknown_checks_are_skipped(c: Check, facts: NamespaceFacts, r: CheckResult, now: i64)
    requires
        records(r, verdict_of(c, facts), now),
    ensures
        c.id == "secrets-encryption"@ ==> r.status is Pass,
        c.id != "pss-restricted-enforce"@ && c.id != "default-deny-ingress"@ && c.id != "default-deny-egress"@ && c.id
            != "limit-range"@ && c.id != "resource-quota"@ && c.id != "no-wildcard-rbac"@ && c.id
            != "no-default-sa-automount"@ && c.id != "secrets-encryption"@ ==> r.status is Skip && r.message@
            == "Check not implemented"@,
{
    reveal_strlit("secrets-encryption");
    reveal_strlit("pss-restricted-enforce");
    reveal_strlit("default-deny-ingress");
    reveal_strlit("default-deny-egress");
    reveal_strlit("limit-range");
    reveal_strlit("resource-quota");
    reveal_strlit("no-wildcard-rbac");
    reveal_strlit("no-default-sa-automount");
    assert("secrets-encryption"@[0] == 's' && "pss-restricted-enforce"@[0] == 'p' && "default-deny-ingress"@[0] == 'd'
        && "default-deny-egress"@[0] == 'd' && "limit-range"@[0] == 'l' && "resource-quota"@[0] == 'r'
        && "no-wildcard-rbac"@[0] == 'n' && "no-default-sa-automount"@[0] == 'n');
}

} // verus!
