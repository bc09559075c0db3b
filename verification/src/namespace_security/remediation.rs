//! Baseline auto-remediation.

use vstd::prelude::*;
#[allow(unused_imports)]
use vstd::string::*;
use crate::error::Error;
#[allow(unused_imports)]
use crate::json::{field, no_fields, object, put, put_text, Doc, Fields, Json};
use crate::namespace_security::audit::AuditEntry;
#[allow(unused_imports)]
use crate::namespace_security::baseline::{
    BaselineSpec, Check, CheckResult, CheckSeverity, CheckStatus, NamespaceBaselineResult, RemediationAction,
    RemediationActionType, TargetResource,
};
#[allow(unused_imports)]
use crate::namespace_security::evaluator::{records, verdict_of, EvaluationResult, NamespaceFacts};
#[allow(unused_imports)]
use crate::strmap::{keys_of, StrMap};
#[allow(unused_imports)]
use crate::text::{join, joined, text2};

verus! {

/// Remediation configuration.
pub struct RemediationConfig {
    /// Baseline specification.
    pub spec_: BaselineSpec,
    /// Dry run mode.
    pub dry_run: bool,
    /// Maximum concurrent remediations.
    pub max_concurrent: usize,
}

impl RemediationConfig {
    /// Nothing is changed, only described.
    pub open spec fn is_dry(self) -> bool {
        self.dry_run || self.spec_.auto_remediation.dry_run
    }

    /// Whether nothing is changed, only described.
    pub fn dry(&self) -> (r: bool)
        ensures
            r == self.is_dry(),
    {
        self.dry_run || self.spec_.auto_remediation.dry_run
    }
}

/// The concurrent remediations where no number is given.
pub fn default_max_concurrent() -> (n: usize)
    ensures
        n == 5,
{
    5
}

/// Remediation result.
#[derive(Debug)]
pub struct RemediationResult {
    pub namespace: String,
    pub check_id: String,
    pub action_type: RemediationActionType,
    pub success: bool,
    pub message: String,
    pub dry_run: bool,
    /// In microseconds since the epoch.
    pub timestamp: i64,
    pub error: Option<String>,
}

/// Labels of remediation metrics.
#[derive(Debug, Clone, Hash, PartialEq, Eq)]
pub struct RemediationLabels {
    pub baseline: String,
    pub namespace: String,
    pub check_id: String,
    pub action_type: String,
}

/// A check result and its namespace.
pub struct Candidate {
    pub namespace: Seq<char>,
    pub check: CheckResult,
}

/// The check results of one namespace.
pub open spec fn candidates_in(namespace: Seq<char>, results: Seq<CheckResult>) -> Seq<Candidate> {
    results.map_values(|check: CheckResult| Candidate { namespace, check })
}

/// The check results of all namespaces, in namespace order.
pub open spec fn candidates(pairs: Seq<(String, NamespaceBaselineResult)>) -> Seq<Candidate>
    decreases pairs.len(),
{
    if pairs.len() == 0 {
        Seq::empty()
    } else {
        candidates(pairs.drop_last()) + candidates_in(pairs.last().0@, pairs.last().1.check_results@)
    }
}

/// The severity is high or critical.
pub open spec fn is_severe(s: CheckSeverity) -> bool {
    s == CheckSeverity::High || s == CheckSeverity::Critical
}

/// The check failed and has a remediation action, and it is not so severe that only safe
/// checks are remediated or an approval is required.
pub open spec fn is_eligible(c: CheckResult, spec_: BaselineSpec) -> bool {
    &&& c.status == CheckStatus::Fail
    &&& c.remediation_action is Some
    &&& !(is_severe(c.severity) && (spec_.auto_remediation.safe_only
        || spec_.auto_remediation.require_approval_high_severity))
}

/// The candidates that may be remediated.
pub open spec fn eligible(all: Seq<Candidate>, spec_: BaselineSpec) -> Seq<Candidate>
    decreases all.len(),
{
    if all.len() == 0 {
        Seq::empty()
    } else if is_eligible(all.last().check, spec_) {
        eligible(all.drop_last(), spec_).push(all.last())
    } else {
        eligible(all.drop_last(), spec_)
    }
}

/// The first `n` elements, or all where there are no more.
pub open spec fn first_n<T>(s: Seq<T>, n: int) -> Seq<T> {
    if s.len() > n {
        s.take(n)
    } else {
        s
    }
}

/// The candidates that are remediated in one cycle: none unless remediation is enabled, and
/// no more than a cycle allows.
pub open spec fn due(all: Seq<Candidate>, spec_: BaselineSpec) -> Seq<Candidate> {
    if spec_.auto_remediation.enabled {
        first_n(eligible(all, spec_), spec_.auto_remediation.max_remediations_per_cycle as int)
    } else {
        Seq::empty()
    }
}

/// What stands for a selected check result.
pub struct Selected<'a> {
    pub namespace: &'a String,
    pub check: &'a CheckResult,
}

/// What the selected check results stand for.
pub open spec fn chosen(v: Seq<Selected>) -> Seq<Candidate> {
    v.map_values(|s: Selected| Candidate { namespace: s.namespace@, check: *s.check })
}

/// Whether the check may be remediated.
pub fn may_remediate(c: &CheckResult, spec_: &BaselineSpec) -> (r: bool)
    ensures
        r == is_eligible(*c, *spec_),
{
    let severe = match c.severity {
        CheckSeverity::High | CheckSeverity::Critical => true,
        _ => false,
    };
    c.status == CheckStatus::Fail && c.remediation_action.is_some() && !(severe && (spec_.auto_remediation.safe_only
        || spec_.auto_remediation.require_approval_high_severity))
}

/// Baseline remediator.
pub struct BaselineRemediator {
    pub config: RemediationConfig,
}

impl BaselineRemediator {
    /// Create a new baseline remediator.
    pub fn new(config: RemediationConfig) -> (r: Self)
        ensures
            r.config == config,
    {
        BaselineRemediator { config }
    }

    /// The failed checks of an evaluation that are remediated, in order.
    pub fn remediate<'a>(&self, evaluation: &'a EvaluationResult) -> (out: Vec<Selected<'a>>)
        ensures
            chosen(out@) == due(candidates(evaluation.namespace_results.pairs()), self.config.spec_),
    {
        let mut out: Vec<Selected<'a>> = Vec::new();
        proof {
            assert(chosen(out@) =~= Seq::<Candidate>::empty());
        }
        if !self.config.spec_.auto_remediation.enabled {
            return out;
        }
        let max: u32 = self.config.spec_.auto_remediation.max_remediations_per_cycle;
        let results = &evaluation.namespace_results;
        let n: usize = results.len();
        let ghost pairs = results.pairs();
        let ghost all = candidates(pairs);
        let ghost spec_ = self.config.spec_;
        let ghost mut done = Seq::<Candidate>::empty();
        let mut i: usize = 0;
        while i < n
            invariant
                i <= n == pairs.len(),
                pairs == results.pairs(),
                spec_ == self.config.spec_,
                max == spec_.auto_remediation.max_remediations_per_cycle,
                done == candidates(pairs.take(i as int)),
                chosen(out@) == first_n(eligible(done, spec_), max as int),
            decreases n - i,
        {
            let namespace = results.key_at(i);
            let checks = &results.value_at(i).check_results;
            let ghost own = candidates_in(namespace@, checks@);
            let ghost start = done;
            let m: usize = checks.len();
            let mut j: usize = 0;
            proof {
                assert(start + own.take(0) =~= start);
            }
            while j < m
                invariant
                    j <= m == checks@.len(),
                    own == candidates_in(namespace@, checks@),
                    spec_ == self.config.spec_,
                    max == spec_.auto_remediation.max_remediations_per_cycle,
                    chosen(out@) == first_n(eligible(start + own.take(j as int), spec_), max as int),
                decreases m - j,
            {
                let ghost before = start + own.take(j as int);
                let ghost after = start + own.take(j as int + 1);
                proof {
                    assert(after.drop_last() =~= before);
                    assert(after.last() == own[j as int]);
                    assert(chosen(out@).len() == out@.len());
                }
                if out.len() < max as usize && may_remediate(&checks[j], &self.config.spec_) {
                    let ghost was = out@;
                    out.push(Selected { namespace, check: &checks[j] });
                    proof {
                        assert(chosen(out@) =~= chosen(was).push(own[j as int]));
                        assert(chosen(out@) =~= first_n(eligible(after, spec_), max as int));
                    }
                } else {
                    proof {
                        assert(first_n(eligible(after, spec_), max as int) =~= first_n(
                            eligible(before, spec_),
                            max as int,
                        ));
                    }
                }
                j = j + 1;
            }
            proof {
                assert(own.take(m as int) =~= own);
                assert(pairs.take(i as int + 1).drop_last() =~= pairs.take(i as int));
                assert(pairs.take(i as int + 1).last() == pairs[i as int]);
                done = candidates(pairs.take(i as int + 1));
                assert(done == start + own);
            }
            i = i + 1;
        }
        proof {
            assert(pairs.take(n as int) =~= pairs);
        }
        out
    }

    /// What remains to be recorded of a remediation: its result and its audit entry.
    /// `outcome` is the message of what was done or described, or the error.
    pub fn remediate_check(
        &self,
        namespace: &str,
        check: &CheckResult,
        action: &RemediationAction,
        outcome: Result<String, String>,
        now: i64,
    ) -> (r: (RemediationResult, AuditEntry))
        ensures
            r.0.namespace@ == namespace@,
            r.0.action_type == action.action_type,
            r.0.success == (outcome is Ok),
            r.0.dry_run == self.config.is_dry(),
            r.0.timestamp == now,
            r.0.check_id@ == check.check_id@,
            outcome matches Ok(m) ==> r.0.message == m && r.0.error is None,
            outcome matches Err(e) ==> r.0.message@ == "Remediation failed"@ && r.0.error == Some(e),
            r.1.namespace@ == namespace@,
            r.1.action@ == "AutoRemediation"@,
            r.1.resource_type@ == action.action_type.label(),
            r.1.resource_name@ == check.check_id@,
            r.1.success == (outcome is Ok),
            r.1.message@ == match outcome {
                Ok(m) => m@,
                Err(e) => e@,
            },
            r.1.timestamp == now,
            r.1.dry_run == self.config.is_dry(),
    {
        let dry_run = self.config.dry();
        let entry = AuditEntry {
            namespace: namespace.to_owned(),
            action: "AutoRemediation".to_owned(),
            resource_type: action.action_type.name().to_owned(),
            resource_name: check.check_id.clone(),
            success: outcome.is_ok(),
            message: match &outcome {
                Ok(m) => m.clone(),
                Err(e) => e.clone(),
            },
            timestamp: now,
            dry_run,
        };
        let result = match outcome {
            Ok(m) => RemediationResult {
                namespace: namespace.to_owned(),
                check_id: check.check_id.clone(),
                action_type: action.action_type,
                success: true,
                message: m,
                dry_run,
                timestamp: now,
                error: None,
            },
            Err(e) => RemediationResult {
                namespace: namespace.to_owned(),
                check_id: check.check_id.clone(),
                action_type: action.action_type,
                success: false,
                message: "Remediation failed".to_owned(),
                dry_run,
                timestamp: now,
                error: Some(e),
            },
        };
        (result, entry)
    }
}

/// The namespace that an action is for: its target's, or else the evaluated one.
pub open spec fn namespace_for(action: RemediationAction, namespace: Seq<char>) -> Seq<char> {
    match action.target_resource.namespace {
        Some(ns) => ns@,
        None => namespace,
    }
}

/// The keys of the parameters, in order, separated by commas.
pub open spec fn parameter_names(action: RemediationAction) -> Seq<char> {
    joined(keys_of(action.parameters.pairs()), ", "@)
}

/// What an action would do.
pub open spec fn description_of(action: RemediationAction, namespace: Seq<char>) -> Seq<char> {
    let ns = namespace_for(action, namespace);
    let t = action.target_resource;
    match action.action_type {
        RemediationActionType::AddLabel => "Add labels "@ + parameter_names(action) + " to namespace "@ + ns,
        RemediationActionType::RemoveLabel => "Remove labels "@ + parameter_names(action) + " from namespace "@ + ns,
        RemediationActionType::AddAnnotation => "Add annotations "@ + parameter_names(action) + " to namespace "@ + ns,
        RemediationActionType::PatchResource => "Patch "@ + t.kind@ + "/"@ + t.name@ + " in namespace "@ + ns,
        RemediationActionType::CreateResource => "Create "@ + t.kind@ + " in namespace "@ + ns,
        RemediationActionType::DeleteResource => "Delete "@ + t.kind@ + "/"@ + t.name@ + " in namespace "@ + ns,
        RemediationActionType::ApplyManifest => "Apply manifest for "@ + t.kind@ + " in namespace "@ + ns,
    }
}

fn namespace_of<'a>(action: &'a RemediationAction, namespace: &'a str) -> (ns: &'a str)
    ensures
        ns@ == namespace_for(*action, namespace@),
{
    match &action.target_resource.namespace {
        Some(ns) => ns.as_str(),
        None => namespace,
    }
}

fn sentence(a: &str, b: &str, c: &str, d: &str) -> (s: String)
    ensures
        s@ == a@ + b@ + c@ + d@,
{
    let mut s = a.to_owned();
    s.append(b);
    s.append(c);
    s.append(d);
    s
}

fn target_sentence(verb: &str, t: &TargetResource, ns: &str) -> (s: String)
    ensures
        s@ == verb@ + t.kind@ + "/"@ + t.name@ + " in namespace "@ + ns@,
{
    let mut s = sentence(verb, t.kind.as_str(), "/", t.name.as_str());
    s.append(" in namespace ");
    s.append(ns);
    s
}

/// Generate human-readable description of remediation.
pub fn describe_remediation(action: &RemediationAction, namespace: &str) -> (s: String)
    ensures
        s@ == description_of(*action, namespace@),
{
    let ns = namespace_of(action, namespace);
    let t = &action.target_resource;
    match action.action_type {
        RemediationActionType::AddLabel => {
            let names = join(&action.parameters.keys(), ", ");
            sentence("Add labels ", names.as_str(), " to namespace ", ns)
        },
        RemediationActionType::RemoveLabel => {
            let names = join(&action.parameters.keys(), ", ");
            sentence("Remove labels ", names.as_str(), " from namespace ", ns)
        },
        RemediationActionType::AddAnnotation => {
            let names = join(&action.parameters.keys(), ", ");
            sentence("Add annotations ", names.as_str(), " to namespace ", ns)
        },
        RemediationActionType::PatchResource => target_sentence("Patch ", t, ns),
        RemediationActionType::CreateResource => sentence("Create ", t.kind.as_str(), " in namespace ", ns),
        RemediationActionType::DeleteResource => target_sentence("Delete ", t, ns),
        RemediationActionType::ApplyManifest => sentence("Apply manifest for ", t.kind.as_str(), " in namespace ", ns),
    }
}

/// What a dry run reports: the description, and nothing is done.
pub fn dry_run_remediation(action: &RemediationAction, namespace: &str) -> (s: String)
    ensures
        s@ == "DRY RUN: "@ + description_of(*action, namespace@),
{
    let mut s = "DRY RUN: ".to_owned();
    s.append(describe_remediation(action, namespace).as_str());
    s
}

/// The text parameters, in key order, as fields.
pub open spec fn text_fields(pairs: Seq<(String, Json)>) -> Fields
    decreases pairs.len(),
{
    if pairs.len() == 0 {
        Fields::empty()
    } else {
        let rest = text_fields(pairs.drop_last());
        match pairs.last().1@ {
            Doc::Str(s) => rest.push((pairs.last().0@, Doc::Str(s))),
            _ => rest,
        }
    }
}

/// The labels that are not among the parameters, in key order, as fields.
pub open spec fn kept_fields(labels: Seq<(String, String)>, gone: Map<Seq<char>, Json>) -> Fields
    decreases labels.len(),
{
    if labels.len() == 0 {
        Fields::empty()
    } else {
        let rest = kept_fields(labels.drop_last(), gone);
        if gone.contains_key(labels.last().0@) {
            rest
        } else {
            rest.push((labels.last().0@, Doc::Str(labels.last().1@)))
        }
    }
}

/// A patch of one part of the metadata.
pub open spec fn metadata_patch(part: Seq<char>, fields: Fields) -> Doc {
    Doc::Obj(
        Fields::empty().push(("metadata"@, Doc::Obj(Fields::empty().push((part, Doc::Obj(fields)))))),
    )
}

fn patch_of(part: &str, fields: Vec<(String, Json)>) -> (j: Json)
    ensures
        j@ == metadata_patch(part@, crate::json::fields_of(fields@)),
{
    let mut metadata = no_fields();
    put(&mut metadata, part, object(fields));
    let mut patch = no_fields();
    put(&mut patch, "metadata", object(metadata));
    object(patch)
}

fn text_parameters(action: &RemediationAction) -> (fields: Vec<(String, Json)>)
    ensures
        crate::json::fields_of(fields@) == text_fields(action.parameters.pairs()),
{
    let mut fields = no_fields();
    let n: usize = action.parameters.len();
    let ghost pairs = action.parameters.pairs();
    let mut i: usize = 0;
    proof {
        assert(text_fields(pairs.take(0)) =~= Fields::empty());
    }
    while i < n
        invariant
            i <= n == pairs.len(),
            pairs == action.parameters.pairs(),
            crate::json::fields_of(fields@) == text_fields(pairs.take(i as int)),
        decreases n - i,
    {
        proof {
            assert(pairs.take(i as int + 1).drop_last() =~= pairs.take(i as int));
            assert(pairs.take(i as int + 1).last() == pairs[i as int]);
        }
        if let Some(s) = action.parameters.value_at(i).as_str() {
            put_text(&mut fields, action.parameters.key_at(i).as_str(), s);
        }
        i = i + 1;
    }
    proof {
        assert(pairs.take(n as int) =~= pairs);
    }
    fields
}

fn kept_labels(labels: &StrMap<String>, action: &RemediationAction) -> (fields: Vec<(String, Json)>)
    ensures
        crate::json::fields_of(fields@) == kept_fields(labels.pairs(), action.parameters@),
{
    let mut fields = no_fields();
    let n: usize = labels.len();
    let ghost pairs = labels.pairs();
    let ghost gone = action.parameters@;
    let mut i: usize = 0;
    proof {
        assert(kept_fields(pairs.take(0), gone) =~= Fields::empty());
    }
    while i < n
        invariant
            i <= n == pairs.len(),
            pairs == labels.pairs(),
            gone == action.parameters@,
            crate::json::fields_of(fields@) == kept_fields(pairs.take(i as int), gone),
        decreases n - i,
    {
        proof {
            assert(pairs.take(i as int + 1).drop_last() =~= pairs.take(i as int));
            assert(pairs.take(i as int + 1).last() == pairs[i as int]);
        }
        let key = labels.key_at(i);
        if !action.parameters.contains_key(key.as_str()) {
            put_text(&mut fields, key.as_str(), labels.value_at(i).as_str());
        }
        i = i + 1;
    }
    proof {
        assert(pairs.take(n as int) =~= pairs);
    }
    fields
}

/// What a remediation does: a patch for the namespace, if there is one, and the message once
/// that is done.
#[derive(Debug)]
pub struct Step {
    pub patch: Option<Json>,
    pub message: String,
}

/// The kind that a manifest names; a `ConfigMap` where it names none.
pub open spec fn manifest_kind(manifest: Doc) -> Seq<char> {
    match manifest {
        Doc::Obj(fields) => match field(fields, "kind"@) {
            Some(Doc::Str(s)) => s,
            _ => "ConfigMap"@,
        },
        _ => "ConfigMap"@,
    }
}

/// The content of a patch.
pub open spec fn patch_view(p: Option<Json>) -> Option<Doc> {
    match p {
        Some(j) => Some(j@),
        None => None,
    }
}

/// The action creates a resource but has no manifest.
pub open spec fn lacks_manifest(a: RemediationAction) -> bool {
    (a.action_type == RemediationActionType::CreateResource || a.action_type == RemediationActionType::ApplyManifest)
        && !a.parameters@.contains_key("manifest"@)
}

/// The patch of an action.
pub open spec fn patch_for(a: RemediationAction, labels: Seq<(String, String)>) -> Option<Doc> {
    match a.action_type {
        RemediationActionType::AddLabel => Some(metadata_patch("labels"@, text_fields(a.parameters.pairs()))),
        RemediationActionType::RemoveLabel => Some(metadata_patch("labels"@, kept_fields(labels, a.parameters@))),
        RemediationActionType::AddAnnotation => Some(
            metadata_patch("annotations"@, text_fields(a.parameters.pairs())),
        ),
        _ => None,
    }
}

/// The message of an action that was carried out.
pub open spec fn message_for(a: RemediationAction, namespace: Seq<char>) -> Seq<char> {
    let ns = namespace_for(a, namespace);
    let t = a.target_resource;
    match a.action_type {
        RemediationActionType::AddLabel => "Added labels to namespace "@ + namespace,
        RemediationActionType::RemoveLabel => "Removed labels from namespace "@ + namespace,
        RemediationActionType::AddAnnotation => "Added annotations to namespace "@ + namespace,
        RemediationActionType::PatchResource => "Patched "@ + t.kind@ + "/"@ + t.name@ + " in namespace "@ + ns
            + " (simulated)"@,
        RemediationActionType::DeleteResource => "Deleted "@ + t.kind@ + "/"@ + t.name@ + " in namespace "@ + ns
            + " (simulated)"@,
        RemediationActionType::CreateResource | RemediationActionType::ApplyManifest => "Created "@ + manifest_kind(
            a.parameters@["manifest"@]@,
        ) + " in namespace "@ + namespace + " (simulated)"@,
    }
}

/// Execute remediation action: the step that it takes. `labels` are the namespace's own,
/// which the removal of labels starts from.
pub fn execute_remediation(
    action: &RemediationAction,
    namespace: &str,
    labels: &StrMap<String>,
) -> (r: Result<Step, Error>)
    ensures
        r is Err <==> lacks_manifest(*action),
        r matches Err(e) ==> e is ValidationError && e.text() == "Manifest parameter required for CreateResource"@,
        r matches Ok(s) ==> patch_view(s.patch) == patch_for(*action, labels.pairs()) && s.message@ == message_for(
            *action,
            namespace@,
        ),
{
    let ns = namespace_of(action, namespace);
    let t = &action.target_resource;
    match action.action_type {
        RemediationActionType::AddLabel => Ok(
            Step {
                patch: Some(patch_of("labels", text_parameters(action))),
                message: text2("Added labels to namespace ", namespace),
            },
        ),
        RemediationActionType::RemoveLabel => Ok(
            Step {
                patch: Some(patch_of("labels", kept_labels(labels, action))),
                message: text2("Removed labels from namespace ", namespace),
            },
        ),
        RemediationActionType::AddAnnotation => Ok(
            Step {
                patch: Some(patch_of("annotations", text_parameters(action))),
                message: text2("Added annotations to namespace ", namespace),
            },
        ),
        RemediationActionType::PatchResource => {
            let mut message = target_sentence("Patched ", t, ns);
            message.append(" (simulated)");
            Ok(Step { patch: None, message })
        },
        RemediationActionType::DeleteResource => {
            let mut message = target_sentence("Deleted ", t, ns);
            message.append(" (simulated)");
            Ok(Step { patch: None, message })
        },
        RemediationActionType::CreateResource | RemediationActionType::ApplyManifest => {
            match action.parameters.get("manifest") {
                None => Err(Error::ValidationError("Manifest parameter required for CreateResource".to_owned())),
                Some(manifest) => {
                    let kind = match manifest.get("kind") {
                        Some(k) => match k.as_str() {
                            Some(s) => s,
                            None => "ConfigMap",
                        },
                        None => "ConfigMap",
                    };
                    let mut message = sentence("Created ", kind, " in namespace ", namespace);
                    message.append(" (simulated)");
                    Ok(Step { patch: None, message })
                },
            }
        },
    }
}

/// No more is remediated in a cycle than it allows, nothing while remediation is disabled,
/// and nothing severe while only safe checks are remediated or severe ones need approval.
pub proof fn remediation_is_bounded(all: Seq<Candidate>, spec_: BaselineSpec)
    ensures
        due(all, spec_).len() <= spec_.auto_remediation.max_remediations_per_cycle,
        !spec_.auto_remediation.enabled ==> due(all, spec_).len() == 0,
        forall|i: int|
            0 <= i < due(all, spec_).len() ==> {
                let c = (#[trigger] due(all, spec_)[i]).check;
                &&& c.status == CheckStatus::Fail
                &&& c.remediation_action is Some
                &&& spec_.auto_remediation.safe_only ==> !is_severe(c.severity)
                &&& spec_.auto_remediation.require_approval_high_severity ==> !is_severe(c.severity)
            },
{
    eligible_are_eligible(all, spec_);
}

/// A check that failed, can be remediated and is not severe is eligible for remediation.
pub proof fn remediable_failures_are_eligible(
    c: Check,
    facts: NamespaceFacts,
    r: CheckResult,
    now: i64,
    spec_: BaselineSpec,
)
    requires
        records(r, verdict_of(c, facts), now),
        r.status == CheckStatus::Fail,
        c.auto_remediable,
        c.remediation is Some,
        !is_severe(r.severity),
    ensures
        is_eligible(r, spec_),
{
}

proof fn eligible_are_eligible(all: Seq<Candidate>, spec_: BaselineSpec)
    ensures
        forall|i: int| 0 <= i < eligible(all, spec_).len() ==> is_eligible((#[trigger] eligible(all, spec_)[i]).check, spec_),
    decreases all.len(),
{
    if all.len() > 0 {
        eligible_are_eligible(all.drop_last(), spec_);
        assert forall|i: int| 0 <= i < eligible(all, spec_).len() implies is_eligible(
            (#[trigger] eligible(all, spec_)[i]).check,
            spec_,
        ) by {
            let rest = eligible(all.drop_last(), spec_);
            if i < rest.len() {
                assert(eligible(all, spec_)[i] == rest[i]);
            }
        }
    }
}

proof fn eligible_failures_are_kept(all: Seq<Candidate>, spec_: BaselineSpec)
    ensures
        eligible(all, spec_) == all.filter(|c: Candidate| is_eligible(c.check, spec_)),
    decreases all.len(),
{
    reveal(Seq::filter);
    if all.len() > 0 {
        eligible_failures_are_kept(all.drop_last(), spec_);
    }
}

/// Where remediation is enabled, the failures that can be remediated are remediated in order up to
/// the number that a cycle allows: all of them where only safe ones are asked for or grave ones need
/// approval, but for the grave ones. Where it is disabled, none is.
pub proof fn cycles_take_the_first_failures(all: Seq<Candidate>, spec_: BaselineSpec)
    ensures
        ({
            let a = spec_.auto_remediation;
            let open = all.filter(
                |c: Candidate|
                    c.check.status is Fail && c.check.remediation_action is Some && (c.check.severity is High
                        || c.check.severity is Critical ==> !a.safe_only && !a.require_approval_high_severity),
            );
            &&& !a.enabled ==> due(all, spec_).len() == 0
            &&& a.enabled && open.len() <= a.max_remediations_per_cycle ==> due(all, spec_) == open
            &&& a.enabled && open.len() > a.max_remediations_per_cycle ==> due(all, spec_) == open.take(
                a.max_remediations_per_cycle as int,
            )
        }),
{
    let a = spec_.auto_remediation;
    let f = |c: Candidate|
        c.check.status is Fail && c.check.remediation_action is Some && (c.check.severity is High
            || c.check.severity is Critical ==> !a.safe_only && !a.require_approval_high_severity);
    let g = |c: Candidate| is_eligible(c.check, spec_);
    eligible_failures_are_kept(all, spec_);
    assert forall|c: Candidate| #[trigger] f(c) == g(c) by {}
    assert(f =~= g);
}

/// Only texts are added as labels: each parameter that is a text becomes a label of the same name
/// and value, and nothing else does.
pub proof fn labels_come_from_text_parameters(pairs: Seq<(String, Json)>, key: Seq<char>, value: Seq<char>)
    ensures
        text_fields(pairs).contains((key, Doc::Str(value))) <==> exists|i: int|
            0 <= i < pairs.len() && (#[trigger] pairs[i]).0@ == key && pairs[i].1@ == Doc::Str(value),
    decreases pairs.len(),
{
    if pairs.len() > 0 {
        let front = pairs.drop_last();
        labels_come_from_text_parameters(front, key, value);
        let all = text_fields(pairs);
        let rest = text_fields(front);
        if all.contains((key, Doc::Str(value))) {
            let i = all.index_of((key, Doc::Str(value)));
            if i < rest.len() {
                assert(rest[i] == (key, Doc::Str(value)));
                let k = choose|k: int| 0 <= k < front.len() && (#[trigger] front[k]).0@ == key && front[k].1@ == Doc::Str(value);
                assert(pairs[k] == front[k]);
            } else {
                assert(pairs[pairs.len() - 1].0@ == key);
            }
        }
        if exists|i: int| 0 <= i < pairs.len() && (#[trigger] pairs[i]).0@ == key && pairs[i].1@ == Doc::Str(value) {
            let i = choose|i: int| 0 <= i < pairs.len() && (#[trigger] pairs[i]).0@ == key && pairs[i].1@ == Doc::Str(value);
            if i < front.len() {
                assert(front[i] == pairs[i]);
                let k = rest.index_of((key, Doc::Str(value)));
                assert(all[k] == rest[k]);
            } else {
                assert(all.last() == (key, Doc::Str(value)));
            }
        }
    }
}

/// Removing labels leaves exactly the labels that are not named.
pub proof fn removed_labels_are_gone(
    labels: Seq<(String, String)>,
    gone: Map<Seq<char>, Json>,
    key: Seq<char>,
    value: Seq<char>,
)
    ensures
        kept_fields(labels, gone).contains((key, Doc::Str(value))) <==> !gone.contains_key(key) && exists|i: int|
            0 <= i < labels.len() && (#[trigger] labels[i]).0@ == key && labels[i].1@ == value,
    decreases labels.len(),
{
    if labels.len() > 0 {
        let front = labels.drop_last();
        removed_labels_are_gone(front, gone, key, value);
        let all = kept_fields(labels, gone);
        let rest = kept_fields(front, gone);
        if all.contains((key, Doc::Str(value))) {
            let i = all.index_of((key, Doc::Str(value)));
            if i < rest.len() {
                assert(rest[i] == (key, Doc::Str(value)));
                let k = choose|k: int| 0 <= k < front.len() && (#[trigger] front[k]).0@ == key && front[k].1@ == value;
                assert(labels[k] == front[k]);
            } else {
                assert(labels[labels.len() - 1].0@ == key);
            }
        }
        if !gone.contains_key(key) && exists|i: int|
            0 <= i < labels.len() && (#[trigger] labels[i]).0@ == key && labels[i].1@ == value {
            let i = choose|i: int| 0 <= i < labels.len() && (#[trigger] labels[i]).0@ == key && labels[i].1@ == value;
            if i < front.len() {
                assert(front[i] == labels[i]);
                let k = rest.index_of((key, Doc::Str(value)));
                assert(all[k] == rest[k]);
            } else {
                assert(all.last() == (key, Doc::Str(value)));
            }
        }
    }
}

/// What a remediation sends depends on its kind: labels and annotations are patched into the
/// metadata of the namespace, and only a creation without its manifest is refused.
pub proof fn remedies_patch_what_they_name(a: RemediationAction, labels: Seq<(String, String)>)
    ensures
        a.action_type is AddLabel ==> patch_for(a, labels) == Some(
            Doc::Obj(
                seq![("metadata"@, Doc::Obj(seq![("labels"@, Doc::Obj(text_fields(a.parameters.pairs())))]))],
            ),
        ),
        a.action_type is AddAnnotation ==> patch_for(a, labels) == Some(
            Doc::Obj(
                seq![("metadata"@, Doc::Obj(seq![("annotations"@, Doc::Obj(text_fields(a.parameters.pairs())))]))],
            ),
        ),
        a.action_type is RemoveLabel ==> patch_for(a, labels) == Some(
            Doc::Obj(seq![("metadata"@, Doc::Obj(seq![("labels"@, Doc::Obj(kept_fields(labels, a.parameters@)))]))]),
        ),
        lacks_manifest(a) ==> a.action_type is CreateResource || a.action_type is ApplyManifest,
        a.action_type is CreateResource && !a.parameters@.contains_key("manifest"@) ==> lacks_manifest(a),
        a.parameters@.contains_key("manifest"@) ==> !lacks_manifest(a),
{
    let l = Fields::empty().push(("labels"@, Doc::Obj(text_fields(a.parameters.pairs()))));
    assert(l =~= seq![("labels"@, Doc::Obj(text_fields(a.parameters.pairs())))]);
    let m = Fields::empty().push(("annotations"@, Doc::Obj(text_fields(a.parameters.pairs()))));
    assert(m =~= seq![("annotations"@, Doc::Obj(text_fields(a.parameters.pairs())))]);
    let k = Fields::empty().push(("labels"@, Doc::Obj(kept_fields(labels, a.parameters@))));
    assert(k =~= seq![("labels"@, Doc::Obj(kept_fields(labels, a.parameters@)))]);
    assert(Fields::empty().push(("metadata"@, Doc::Obj(l))) =~= seq![("metadata"@, Doc::Obj(l))]);
    assert(Fields::empty().push(("metadata"@, Doc::Obj(m))) =~= seq![("metadata"@, Doc::Obj(m))]);
    assert(Fields::empty().push(("metadata"@, Doc::Obj(k))) =~= seq![("metadata"@, Doc::Obj(k))]);
}

/// Every result of every namespace is a candidate, under its namespace, in order.
pub proof fn every_result_is_a_candidate(pairs: Seq<(String, NamespaceBaselineResult)>, i: int, k: int)
    requires
        0 <= i < pairs.len(),
        0 <= k < pairs[i].1.check_results@.len(),
    ensures
        candidates(pairs).contains(Candidate { namespace: pairs[i].0@, check: pairs[i].1.check_results@[k] }),
    decreases pairs.len(),
{
    let front = pairs.drop_last();
    let c = Candidate { namespace: pairs[i].0@, check: pairs[i].1.check_results@[k] };
    let before = candidates(front);
    let own = candidates_in(pairs.last().0@, pairs.last().1.check_results@);
    let all = candidates(pairs);
    assert(all == before + own);
    if i < front.len() {
        assert(front[i] == pairs[i]);
        every_result_is_a_candidate(front, i, k);
        let j = before.index_of(c);
        assert(all[j] == c);
    } else {
        assert(own[k] == c);
        assert(all[before.len() + k] == c);
    }
}

/// An action takes place where it says, and else in the namespace that was checked.
pub proof fn actions_take_place_where_they_say(action: RemediationAction, namespace: Seq<char>)
    ensures
        action.target_resource.namespace is None ==> namespace_for(action, namespace) == namespace,
        action.target_resource.namespace matches Some(ns) ==> namespace_for(action, namespace) == ns@,
{
}

/// What is going to be done is told by its kind, what it is done to and where.
pub proof fn descriptions_tell_what_is_done(action: RemediationAction, namespace: Seq<char>)
    requires
        action.target_resource.namespace is None,
    ensures
        ({
            let t = action.target_resource;
            let names = joined(keys_of(action.parameters.pairs()), ", "@);
            let d = description_of(action, namespace);
            &&& action.action_type is AddLabel ==> d == "Add labels "@ + names + " to namespace "@ + namespace
            &&& action.action_type is RemoveLabel ==> d == "Remove labels "@ + names + " from namespace "@ + namespace
            &&& action.action_type is AddAnnotation ==> d == "Add annotations "@ + names + " to namespace "@ + namespace
            &&& action.action_type is PatchResource ==> d == "Patch "@ + t.kind@ + "/"@ + t.name@ + " in namespace "@
                + namespace
            &&& action.action_type is CreateResource ==> d == "Create "@ + t.kind@ + " in namespace "@ + namespace
            &&& action.action_type is DeleteResource ==> d == "Delete "@ + t.kind@ + "/"@ + t.name@
                + " in namespace "@ + namespace
            &&& action.action_type is ApplyManifest ==> d == "Apply manifest for "@ + t.kind@ + " in namespace "@
                + namespace
        }),
        ({
            let t = action.target_resource;
            let d = message_for(action, namespace);
            &&& action.action_type is AddLabel ==> d == "Added labels to namespace "@ + namespace
            &&& action.action_type is RemoveLabel ==> d == "Removed labels from namespace "@ + namespace
            &&& action.action_type is AddAnnotation ==> d == "Added annotations to namespace "@ + namespace
            &&& action.action_type is PatchResource ==> d == "Patched "@ + t.kind@ + "/"@ + t.name@ + " in namespace "@
                + namespace + " (simulated)"@
            &&& action.action_type is DeleteResource ==> d == "Deleted "@ + t.kind@ + "/"@ + t.name@
                + " in namespace "@ + namespace + " (simulated)"@
        }),
{
}

} // verus!
