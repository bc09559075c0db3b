//! The service ownership registry: which team and rotation own each workload.

use vstd::prelude::*;
#[allow(unused_imports)]
use vstd::string::*;
#[allow(unused_imports)]
use crate::text::{before, copy_opt, lex_irreflexive, lex_lt, lex_total, lex_transitive, opt_view, same};

verus! {

/// Where ownership comes from, and the teams' rotations.
#[derive(Debug)]
pub struct ServiceOwnershipRegistrySpec {
    /// Workload label naming the owning team (highest precedence).
    pub owner_label: String,
    /// Annotation set by the deploy pipeline naming the deploying team.
    pub deploy_annotation: String,
    /// Annotation holding the workload's source path, matched against `codeowners`.
    pub source_path_annotation: String,
    /// CODEOWNERS file contents (lowest precedence).
    pub codeowners: Option<String>,
    /// Known teams and their on-call rotations.
    pub teams: Vec<TeamRotation>,
    /// Namespaces excluded from attribution (e.g. `kube-system`).
    pub excluded_namespaces: Vec<String>,
    /// Alertmanager base URL; unowned/stale workloads are alerted each cycle.
    pub alertmanager_url: Option<String>,
    /// Maximum ownership change records kept in status.
    pub history_limit: usize,
}

/// The owner label where none is given.
pub fn default_owner_label() -> (s: String)
    ensures
        s@ == "stellar.org/owner"@,
{
    "stellar.org/owner".to_owned()
}

/// The deploy annotation where none is given.
pub fn default_deploy_annotation() -> (s: String)
    ensures
        s@ == "stellar.org/deployed-by-team"@,
{
    "stellar.org/deployed-by-team".to_owned()
}

/// The source path annotation where none is given.
pub fn default_source_path_annotation() -> (s: String)
    ensures
        s@ == "stellar.org/source-path"@,
{
    "stellar.org/source-path".to_owned()
}

/// The history limit where none is given.
pub fn default_history_limit() -> (n: usize)
    ensures
        n == 100,
{
    100
}

/// A rotation is live where nothing else is said.
pub fn default_true() -> (b: bool)
    ensures
        b,
{
    true
}

/// A team and its on-call rotation.
#[derive(Debug, PartialEq, Eq)]
pub struct TeamRotation {
    pub team: String,
    /// CODEOWNERS handles that map to this team (e.g. `@devops-team`).
    pub handles: Vec<String>,
    /// On-call rotation / schedule identifier.
    pub rotation: String,
    /// Alertmanager receiver for this team.
    pub receiver: String,
    /// Whether the rotation currently has someone on call.
    pub live: bool,
}

/// Identifies a workload.
#[derive(Debug, PartialEq, Eq, PartialOrd, Ord, Hash)]
pub struct WorkloadRef {
    pub kind: String,
    pub namespace: String,
    pub name: String,
}

/// What identifies a workload: kind, namespace and name.
pub struct RefView {
    pub kind: Seq<char>,
    pub namespace: Seq<char>,
    pub name: Seq<char>,
}

impl View for WorkloadRef {
    type V = RefView;

    open spec fn view(&self) -> RefView {
        RefView { kind: self.kind@, namespace: self.namespace@, name: self.name@ }
    }
}

impl Clone for WorkloadRef {
    fn clone(&self) -> (r: Self)
        ensures
            r == *self,
    {
        WorkloadRef {
            kind: self.kind.clone(),
            namespace: self.namespace.clone(),
            name: self.name.clone(),
        }
    }
}

/// Workloads in order: by kind, then namespace, then name.
pub open spec fn ref_lt(a: RefView, b: RefView) -> bool {
    ||| lex_lt(a.kind, b.kind)
    ||| a.kind == b.kind && lex_lt(a.namespace, b.namespace)
    ||| a.kind == b.kind && a.namespace == b.namespace && lex_lt(a.name, b.name)
}

/// The order of workloads is strict and total.
pub proof fn ref_order(a: RefView, b: RefView, c: RefView)
    ensures
        !ref_lt(a, a),
        !(ref_lt(a, b) && ref_lt(b, a)),
        ref_lt(a, b) && ref_lt(b, c) ==> ref_lt(a, c),
        a != b ==> ref_lt(a, b) || ref_lt(b, a),
{
    lex_irreflexive(a.kind);
    lex_irreflexive(a.namespace);
    lex_irreflexive(a.name);
    lex_total(a.kind, b.kind);
    lex_total(a.namespace, b.namespace);
    lex_total(a.name, b.name);
    if lex_lt(a.kind, b.kind) && lex_lt(b.kind, c.kind) {
        lex_transitive(a.kind, b.kind, c.kind);
    }
    if lex_lt(a.namespace, b.namespace) && lex_lt(b.namespace, c.namespace) {
        lex_transitive(a.namespace, b.namespace, c.namespace);
    }
    if lex_lt(a.name, b.name) && lex_lt(b.name, c.name) {
        lex_transitive(a.name, b.name, c.name);
    }
}

impl WorkloadRef {
    /// Whether both identify the same workload.
    pub fn is(&self, other: &WorkloadRef) -> (r: bool)
        ensures
            r == (self@ == other@),
    {
        same(self.kind.as_str(), other.kind.as_str()) && same(
            self.namespace.as_str(),
            other.namespace.as_str(),
        ) && same(self.name.as_str(), other.name.as_str())
    }

    /// Whether this workload comes before `other`.
    pub fn before(&self, other: &WorkloadRef) -> (r: bool)
        ensures
            r == ref_lt(self@, other@),
    {
        proof {
            lex_irreflexive(self.kind@);
            lex_irreflexive(self.namespace@);
        }
        if !same(self.kind.as_str(), other.kind.as_str()) {
            before(self.kind.as_str(), other.kind.as_str())
        } else if !same(self.namespace.as_str(), other.namespace.as_str()) {
            before(self.namespace.as_str(), other.namespace.as_str())
        } else {
            before(self.name.as_str(), other.name.as_str())
        }
    }
}

/// Where an ownership attribution came from.
#[derive(Clone, Copy, Debug, PartialEq, Eq, Structural)]
pub enum OwnershipSource {
    Label,
    DeployMetadata,
    Codeowners,
}

/// Resolved owner of a workload.
#[derive(Debug, PartialEq, Eq)]
pub struct OwnershipEntry {
    pub workload: WorkloadRef,
    pub team: String,
    pub rotation: String,
    pub receiver: String,
    pub source: OwnershipSource,
}

/// What an entry says.
pub struct EntryView {
    pub workload: RefView,
    pub team: Seq<char>,
    pub rotation: Seq<char>,
    pub receiver: Seq<char>,
    pub source: OwnershipSource,
}

impl View for OwnershipEntry {
    type V = EntryView;

    open spec fn view(&self) -> EntryView {
        EntryView {
            workload: self.workload@,
            team: self.team@,
            rotation: self.rotation@,
            receiver: self.receiver@,
            source: self.source,
        }
    }
}

/// A workload whose attribution cannot be trusted.
#[derive(Debug, PartialEq, Eq)]
pub struct StaleOwnership {
    pub workload: WorkloadRef,
    pub team: String,
    pub reason: String,
}

/// What a stale attribution says.
pub struct StaleView {
    pub workload: RefView,
    pub team: Seq<char>,
    pub reason: Seq<char>,
}

impl View for StaleOwnership {
    type V = StaleView;

    open spec fn view(&self) -> StaleView {
        StaleView { workload: self.workload@, team: self.team@, reason: self.reason@ }
    }
}

/// One ownership change.
#[derive(Debug, PartialEq, Eq)]
pub struct OwnershipChange {
    pub workload: WorkloadRef,
    pub previous_team: Option<String>,
    pub team: Option<String>,
    pub source: Option<OwnershipSource>,
    /// In microseconds since the epoch.
    pub changed_at: i64,
}

/// What a change says.
pub struct ChangeView {
    pub workload: RefView,
    pub previous_team: Option<Seq<char>>,
    pub team: Option<Seq<char>>,
    pub source: Option<OwnershipSource>,
    pub changed_at: i64,
}

impl View for OwnershipChange {
    type V = ChangeView;

    open spec fn view(&self) -> ChangeView {
        ChangeView {
            workload: self.workload@,
            previous_team: opt_view(self.previous_team),
            team: opt_view(self.team),
            source: self.source,
            changed_at: self.changed_at,
        }
    }
}

impl Clone for OwnershipChange {
    fn clone(&self) -> (r: Self)
        ensures
            r == *self,
    {
        OwnershipChange {
            workload: self.workload.clone(),
            previous_team: copy_opt(&self.previous_team),
            team: copy_opt(&self.team),
            source: self.source,
            changed_at: self.changed_at,
        }
    }
}

/// A condition of a resource's status.
#[derive(Debug, PartialEq, Eq)]
pub struct Condition {
    pub type_: String,
    pub status: String,
    pub reason: String,
    pub message: String,
}

impl Condition {
    /// The `Ready` condition.
    pub fn ready(ready: bool, reason: &str, message: &str) -> (c: Condition)
        ensures
            c.type_@ == "Ready"@,
            c.status@ == if ready { "True"@ } else { "False"@ },
            c.reason@ == reason@,
            c.message@ == message@,
    {
        Condition {
            type_: "Ready".to_owned(),
            status: if ready {
                "True".to_owned()
            } else {
                "False".to_owned()
            },
            reason: reason.to_owned(),
            message: message.to_owned(),
        }
    }
}

/// The derived state of the registry.
#[derive(Debug)]
pub struct ServiceOwnershipRegistryStatus {
    pub entries: Vec<OwnershipEntry>,
    pub unowned: Vec<WorkloadRef>,
    pub stale: Vec<StaleOwnership>,
    /// Oldest first, bounded by the history limit.
    pub history: Vec<OwnershipChange>,
    pub owned_count: u32,
    pub unowned_count: u32,
    /// In microseconds since the epoch.
    pub last_reconciled: Option<i64>,
    pub conditions: Vec<Condition>,
}

impl Default for ServiceOwnershipRegistryStatus {
    fn default() -> (s: Self)
        ensures
            s.entries@.len() == 0,
            s.unowned@.len() == 0,
            s.stale@.len() == 0,
            s.history@.len() == 0,
            s.owned_count == 0,
            s.unowned_count == 0,
            s.last_reconciled is None,
            s.conditions@.len() == 0,
    {
        ServiceOwnershipRegistryStatus {
            entries: Vec::new(),
            unowned: Vec::new(),
            stale: Vec::new(),
            history: Vec::new(),
            owned_count: 0,
            unowned_count: 0,
            last_reconciled: None,
            conditions: Vec::new(),
        }
    }
}

} // verus!
