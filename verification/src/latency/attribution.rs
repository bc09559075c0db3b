//! Change attribution for latency regressions.

use vstd::prelude::*;
#[allow(unused_imports)]
use vstd::string::*;
#[allow(unused_imports)]
use crate::bounded::{last_n, BoundedLog};
use crate::latency::deploy_marker::DeployMarker;
use crate::reading::Reading;
#[allow(unused_imports)]
use crate::seqs::{filter_holds, filter_none, filter_step};
use crate::span::Duration;
#[allow(unused_imports)]
use crate::text::{byte_prefix, dec_int, decimal_signed, same, take_bytes, text2};

verus! {

/// Attribution configuration.
#[derive(Debug)]
pub struct AttributionConfig {
    /// Lookback window for finding related changes.
    pub lookback_window: Duration,
    /// Minimum correlation threshold.
    pub correlation_threshold: Reading,
    /// Enable git commit analysis.
    pub enable_git_analysis: bool,
    /// Git repository URL.
    pub git_repo_url: Option<String>,
    /// Enable Kubernetes event correlation.
    pub enable_k8s_events: bool,
}

impl Default for AttributionConfig {
    fn default() -> (c: Self)
        ensures
            c.lookback_window.nanos == 86_400_000_000_000,
            c.correlation_threshold.bits == 0x3FE6_6666_6666_6666,
            !c.enable_git_analysis,
            c.git_repo_url is None,
            c.enable_k8s_events,
    {
        AttributionConfig {
            lookback_window: Duration::from_secs(24 * 60 * 60),
            correlation_threshold: Reading { bits: 0x3FE6_6666_6666_6666 },
            enable_git_analysis: false,
            git_repo_url: None,
            enable_k8s_events: true,
        }
    }
}

/// Change type.
#[derive(Debug, Clone, Copy, PartialEq, Eq, Structural)]
pub enum ChangeType {
    CodeDeployment,
    ConfigChange,
    InfrastructureChange,
    DependencyUpdate,
    DatabaseMigration,
    FeatureFlag,
    ScalingEvent,
    Unknown,
}

/// Attribution confidence level.
#[derive(Debug, Clone, Copy, PartialEq, Eq, Structural)]
pub enum AttributionConfidence {
    High,
    Medium,
    Low,
    Absent,
}

impl AttributionConfidence {
    /// The level as it is shown by its gauge.
    pub open spec fn level(self) -> int {
        match self {
            AttributionConfidence::High => 3,
            AttributionConfidence::Medium => 2,
            AttributionConfidence::Low => 1,
            AttributionConfidence::Absent => 0,
        }
    }

    /// The level as it is shown by its gauge.
    pub fn value(&self) -> (n: u64)
        ensures
            n == self.level(),
    {
        match self {
            AttributionConfidence::High => 3,
            AttributionConfidence::Medium => 2,
            AttributionConfidence::Low => 1,
            AttributionConfidence::Absent => 0,
        }
    }
}

/// Attributed change.
#[derive(Debug)]
pub struct AttributedChange {
    pub change_type: ChangeType,
    pub identifier: String,
    pub description: String,
    /// In microseconds since the epoch.
    pub timestamp: i64,
    pub correlation: Reading,
    pub evidence: Vec<String>,
}

/// Latency attribution result.
#[derive(Debug)]
pub struct LatencyAttribution {
    pub sli_name: String,
    pub deploy_marker_id: String,
    /// In microseconds since the epoch.
    pub timestamp: i64,
    pub delta: Reading,
    pub attributed_changes: Vec<AttributedChange>,
    pub correlation_score: Reading,
    pub confidence: AttributionConfidence,
}

/// Labels of attribution metrics.
#[derive(Debug, Clone, Hash, PartialEq, Eq)]
pub struct AttributionLabels {
    pub sli_name: String,
    pub service: String,
    pub change_type: String,
}

/// A `ConfigMap` or `Secret` that was found.
#[derive(Debug)]
pub struct FoundResource {
    pub name: String,
    pub namespace: Option<String>,
    /// When it was created, in microseconds since the epoch.
    pub created: Option<i64>,
}

/// A `Deployment` that was found.
#[derive(Debug)]
pub struct FoundDeployment {
    pub name: String,
    pub replicas: Option<i32>,
}

/// `t` is no further from `since` than the lookback window.
pub open spec fn in_window(window: Duration, t: i64, since: i64) -> bool {
    (t - since) * 1000 <= window.nanos && (since - t) * 1000 <= window.nanos
}

/// Whether `t` is no further from `since` than the lookback window.
fn within(window: &Duration, t: i64, since: i64) -> (r: bool)
    ensures
        r == in_window(*window, t, since),
{
    let gap: i128 = if t >= since {
        t as i128 - since as i128
    } else {
        since as i128 - t as i128
    };
    gap as u128 * 1000 <= window.nanos
}

/// A found resource whose creation lies in the window.
pub open spec fn is_recent(window: Duration, since: i64) -> spec_fn(FoundResource) -> bool {
    |f: FoundResource| f.created is Some && in_window(window, f.created->0, since)
}

/// `c` tells of a `ConfigMap`.
pub open spec fn is_config_map_change(c: AttributedChange, f: FoundResource) -> bool {
    &&& c.change_type == ChangeType::ConfigChange
    &&& c.identifier@ == f.name@
    &&& c.description@ == "ConfigMap "@ + f.name@ + " updated"@
    &&& Some(c.timestamp) == f.created
    &&& c.correlation.bits == 0x3FE9_9999_9999_999A
    &&& c.evidence@.len() == 2
    &&& c.evidence@[0]@ == "ConfigMap: "@ + f.name@
    &&& c.evidence@[1]@ == "Namespace: "@ + match f.namespace {
        Some(n) => n@,
        None => ""@,
    }
}

/// `c` tells of a `Secret`.
pub open spec fn is_secret_change(c: AttributedChange, f: FoundResource) -> bool {
    &&& c.change_type == ChangeType::ConfigChange
    &&& c.identifier@ == f.name@
    &&& c.description@ == "Secret "@ + f.name@ + " updated"@
    &&& Some(c.timestamp) == f.created
    &&& c.correlation.bits == 0x3FE6_6666_6666_6666
    &&& c.evidence@.len() == 1
    &&& c.evidence@[0]@ == "Secret: "@ + f.name@
}

/// `c` tells of a scaled `Deployment`.
pub open spec fn is_scaling_event(c: AttributedChange, f: FoundDeployment, since: i64) -> bool {
    &&& c.change_type == ChangeType::ScalingEvent
    &&& c.identifier@ == f.name@
    &&& c.description@ == "Deployment "@ + f.name@ + " scaled to "@ + dec_int(f.replicas->0 as int) + " replicas"@
    &&& c.timestamp == since
    &&& c.correlation.bits == 0x3FE3_3333_3333_3333
    &&& c.evidence@.len() == 2
    &&& c.evidence@[0]@ == "Deployment: "@ + f.name@
    &&& c.evidence@[1]@ == "Replicas: "@ + dec_int(f.replicas->0 as int)
}

/// `c` tells of the deployment itself.
pub open spec fn is_deployment_change(c: AttributedChange, m: DeployMarker) -> bool {
    &&& c.change_type == ChangeType::CodeDeployment
    &&& c.identifier@ == m.id@
    &&& c.description@ == "Deployment of "@ + m.service@ + "@"@ + byte_prefix(m.commit_sha@, 8)->0
    &&& c.timestamp == m.timestamp
    &&& c.correlation.bits == 0x3FF0_0000_0000_0000
    &&& c.evidence@.len() == 3
    &&& c.evidence@[0]@ == "Commit: "@ + m.commit_sha@
    &&& c.evidence@[1]@ == "Version: "@ + match m.version {
        Some(v) => v@,
        None => "unknown"@,
    }
    &&& c.evidence@[2]@ == "Strategy: "@ + m.strategy.label()
}

/// The change that tells of a `ConfigMap`.
fn config_map_change(f: &FoundResource, created: i64) -> (c: AttributedChange)
    requires
        f.created == Some(created),
    ensures
        is_config_map_change(c, *f),
{
    let mut description = text2("ConfigMap ", f.name.as_str());
    description.append(" updated");
    let mut evidence: Vec<String> = Vec::new();
    evidence.push(text2("ConfigMap: ", f.name.as_str()));
    evidence.push(
        match &f.namespace {
            Some(n) => text2("Namespace: ", n.as_str()),
            None => text2("Namespace: ", ""),
        },
    );
    AttributedChange {
        change_type: ChangeType::ConfigChange,
        identifier: f.name.clone(),
        description,
        timestamp: created,
        correlation: Reading { bits: 0x3FE9_9999_9999_999A },
        evidence,
    }
}

/// The change that tells of a `Secret`.
fn secret_change(f: &FoundResource, created: i64) -> (c: AttributedChange)
    requires
        f.created == Some(created),
    ensures
        is_secret_change(c, *f),
{
    let mut description = text2("Secret ", f.name.as_str());
    description.append(" updated");
    let mut evidence: Vec<String> = Vec::new();
    evidence.push(text2("Secret: ", f.name.as_str()));
    AttributedChange {
        change_type: ChangeType::ConfigChange,
        identifier: f.name.clone(),
        description,
        timestamp: created,
        correlation: Reading { bits: 0x3FE6_6666_6666_6666 },
        evidence,
    }
}

/// The change that tells of a scaled `Deployment`.
fn scaling_event(f: &FoundDeployment, replicas: i32, since: i64) -> (c: AttributedChange)
    requires
        f.replicas == Some(replicas),
    ensures
        is_scaling_event(c, *f, since),
{
    let number = decimal_signed(replicas as i64);
    let mut description = text2("Deployment ", f.name.as_str());
    description.append(" scaled to ");
    description.append(number.as_str());
    description.append(" replicas");
    let mut evidence: Vec<String> = Vec::new();
    evidence.push(text2("Deployment: ", f.name.as_str()));
    evidence.push(text2("Replicas: ", number.as_str()));
    AttributedChange {
        change_type: ChangeType::ScalingEvent,
        identifier: f.name.clone(),
        description,
        timestamp: since,
        correlation: Reading { bits: 0x3FE3_3333_3333_3333 },
        evidence,
    }
}

/// The change that tells of the deployment itself. The commit has a prefix of eight bytes.
pub fn deployment_change(m: &DeployMarker) -> (c: AttributedChange)
    requires
        byte_prefix(m.commit_sha@, 8) is Some,
    ensures
        is_deployment_change(c, *m),
{
    let short = match take_bytes(m.commit_sha.as_str(), 8) {
        Some(s) => s,
        None => String::new(),
    };
    let mut description = text2("Deployment of ", m.service.as_str());
    description.append("@");
    description.append(short.as_str());
    let mut evidence: Vec<String> = Vec::new();
    evidence.push(text2("Commit: ", m.commit_sha.as_str()));
    evidence.push(
        match &m.version {
            Some(v) => text2("Version: ", v.as_str()),
            None => text2("Version: ", "unknown"),
        },
    );
    evidence.push(text2("Strategy: ", m.strategy.name().as_str()));
    AttributedChange {
        change_type: ChangeType::CodeDeployment,
        identifier: m.id.clone(),
        description,
        timestamp: m.timestamp,
        correlation: Reading { bits: 0x3FF0_0000_0000_0000 },
        evidence,
    }
}

/// The changes tell of these `ConfigMap`s and then of these `Secret`s.
pub open spec fn are_config_changes(
    changes: Seq<AttributedChange>,
    maps: Seq<FoundResource>,
    secrets: Seq<FoundResource>,
) -> bool {
    &&& changes.len() == maps.len() + secrets.len()
    &&& forall|i: int| 0 <= i < maps.len() ==> is_config_map_change(#[trigger] changes[i], maps[i])
    &&& forall|i: int|
        maps.len() <= i < changes.len() ==> is_secret_change(#[trigger] changes[i], secrets[i - maps.len()])
}

/// The changes tell of these `Deployment`s.
pub open spec fn are_scaling_events(changes: Seq<AttributedChange>, found: Seq<FoundDeployment>, since: i64) -> bool {
    &&& changes.len() == found.len()
    &&& forall|i: int| 0 <= i < found.len() ==> is_scaling_event(#[trigger] changes[i], found[i], since)
}

/// The `Deployment` runs more than one replica.
pub open spec fn is_scaled() -> spec_fn(FoundDeployment) -> bool {
    |f: FoundDeployment| f.replicas is Some && f.replicas->0 > 1
}

/// A change found around a deployment is attributed: Kubernetes events are correlated, and
/// its correlation reaches the minimum.
pub open spec fn counts_for(config: AttributionConfig, c: AttributedChange) -> bool {
    config.enable_k8s_events && config.correlation_threshold.at_most(c.correlation)
}

/// The changes among those found that are attributed.
pub open spec fn attributable(config: AttributionConfig, found: Seq<AttributedChange>) -> Seq<AttributedChange> {
    found.filter(|c: AttributedChange| counts_for(config, c))
}

/// The score is at least `bits` as a double.
pub open spec fn reaches(score: Reading, bits: u64) -> bool {
    (Reading { bits }).at_most(score)
}

/// One of the changes is a code deployment.
pub open spec fn deployed(changes: Seq<AttributedChange>) -> bool {
    exists|i: int| 0 <= i < changes.len() && (#[trigger] changes[i]).change_type == ChangeType::CodeDeployment
}

/// The confidence in an attribution: high from a score of 0.9 where there is a code
/// deployment, medium from 0.7, low from 0.5.
pub open spec fn confidence_of(score: Reading, changes: Seq<AttributedChange>) -> AttributionConfidence {
    if reaches(score, 0x3FEC_CCCC_CCCC_CCCD) && deployed(changes) {
        AttributionConfidence::High
    } else if reaches(score, 0x3FE6_6666_6666_6666) {
        AttributionConfidence::Medium
    } else if reaches(score, 0x3FE0_0000_0000_0000) {
        AttributionConfidence::Low
    } else {
        AttributionConfidence::Absent
    }
}

/// Determine confidence level.
pub fn determine_confidence(score: &Reading, changes: &Vec<AttributedChange>) -> (c: AttributionConfidence)
    ensures
        c == confidence_of(*score, changes@),
{
    let mut deployment = false;
    let mut i: usize = 0;
    while i < changes.len()
        invariant
            i <= changes@.len(),
            deployment == deployed(changes@.take(i as int)),
        decreases changes@.len() - i,
    {
        proof {
            let t = changes@.take(i as int);
            let u = changes@.take(i as int + 1);
            assert(u[i as int] == changes@[i as int]);
            if deployed(t) {
                let k = choose|k: int| 0 <= k < t.len() && (#[trigger] t[k]).change_type == ChangeType::CodeDeployment;
                assert(u[k].change_type == ChangeType::CodeDeployment);
            }
            if deployed(u) {
                let k = choose|k: int| 0 <= k < u.len() && (#[trigger] u[k]).change_type == ChangeType::CodeDeployment;
                if k < i {
                    assert(t[k].change_type == ChangeType::CodeDeployment);
                }
            }
        }
        if changes[i].change_type == ChangeType::CodeDeployment {
            deployment = true;
        }
        i = i + 1;
    }
    proof {
        assert(changes@.take(changes@.len() as int) =~= changes@);
    }
    let high = Reading { bits: 0x3FEC_CCCC_CCCC_CCCD };
    let medium = Reading { bits: 0x3FE6_6666_6666_6666 };
    let low = Reading { bits: 0x3FE0_0000_0000_0000 };
    if high.le(score) && deployment {
        AttributionConfidence::High
    } else if medium.le(score) {
        AttributionConfidence::Medium
    } else if low.le(score) {
        AttributionConfidence::Low
    } else {
        AttributionConfidence::Absent
    }
}

/// The label that selects the resources of a service.
pub fn service_selector(service: &str) -> (s: String)
    ensures
        s@ == "app.kubernetes.io/name="@ + service@,
{
    text2("app.kubernetes.io/name=", service)
}

/// Change attributor for linking latency regressions to deployments.
pub struct ChangeAttributor {
    pub config: AttributionConfig,
    /// Namespace for Kubernetes resources.
    pub namespace: String,
    /// Attribution history, oldest first.
    pub history: BoundedLog<LatencyAttribution>,
}

impl ChangeAttributor {
    /// Create a new change attributor for the default namespace, which keeps a thousand
    /// attributions.
    pub fn new(config: AttributionConfig) -> (a: Self)
        ensures
            a.config == config,
            a.namespace@ == "default"@,
            a.history@ == Seq::<LatencyAttribution>::empty(),
            a.history.capacity() == 1000,
    {
        ChangeAttributor { config, namespace: "default".to_owned(), history: BoundedLog::new(1000) }
    }

    /// The attributor for another namespace.
    pub fn with_namespace(self, namespace: String) -> (a: Self)
        ensures
            a.config == self.config,
            a.namespace == namespace,
            a.history == self.history,
    {
        ChangeAttributor { config: self.config, namespace, history: self.history }
    }

    /// The config changes among what was found: the `ConfigMap`s and then the `Secret`s whose
    /// creation lies in the lookback window around `since`.
    pub fn find_config_changes(
        &self,
        maps: &Vec<FoundResource>,
        secrets: &Vec<FoundResource>,
        since: i64,
    ) -> (changes: Vec<AttributedChange>)
        ensures
            are_config_changes(
                changes@,
                maps@.filter(is_recent(self.config.lookback_window, since)),
                secrets@.filter(is_recent(self.config.lookback_window, since)),
            ),
    {
        let ghost f = is_recent(self.config.lookback_window, since);
        let mut changes: Vec<AttributedChange> = Vec::new();
        let mut i: usize = 0;
        proof {
            filter_none(maps@, f);
            filter_none(secrets@, f);
        }
        while i < maps.len()
            invariant
                i <= maps@.len(),
                f == is_recent(self.config.lookback_window, since),
                are_config_changes(changes@, maps@.take(i as int).filter(f), Seq::empty()),
            decreases maps@.len() - i,
        {
            proof {
                filter_step(maps@, i as int, f);
            }
            if let Some(created) = maps[i].created {
                if within(&self.config.lookback_window, created, since) {
                    changes.push(config_map_change(&maps[i], created));
                }
            }
            i = i + 1;
        }
        let ghost m = maps@.filter(f);
        proof {
            assert(maps@.take(maps@.len() as int) =~= maps@);
        }
        let mut j: usize = 0;
        while j < secrets.len()
            invariant
                j <= secrets@.len(),
                f == is_recent(self.config.lookback_window, since),
                are_config_changes(changes@, m, secrets@.take(j as int).filter(f)),
            decreases secrets@.len() - j,
        {
            proof {
                filter_step(secrets@, j as int, f);
            }
            if let Some(created) = secrets[j].created {
                if within(&self.config.lookback_window, created, since) {
                    changes.push(secret_change(&secrets[j], created));
                }
            }
            j = j + 1;
        }
        proof {
            assert(secrets@.take(secrets@.len() as int) =~= secrets@);
        }
        changes
    }

    /// The scaling events among what was found: the `Deployment`s with more than one replica.
    pub fn find_scaling_events(&self, found: &Vec<FoundDeployment>, since: i64) -> (changes: Vec<AttributedChange>)
        ensures
            are_scaling_events(changes@, found@.filter(is_scaled()), since),
    {
        let ghost f = is_scaled();
        let mut changes: Vec<AttributedChange> = Vec::new();
        let mut i: usize = 0;
        proof {
            filter_none(found@, f);
        }
        while i < found.len()
            invariant
                i <= found@.len(),
                f == is_scaled(),
                are_scaling_events(changes@, found@.take(i as int).filter(f), since),
            decreases found@.len() - i,
        {
            proof {
                filter_step(found@, i as int, f);
            }
            if let Some(replicas) = found[i].replicas {
                if replicas > 1 {
                    changes.push(scaling_event(&found[i], replicas, since));
                }
            }
            i = i + 1;
        }
        proof {
            assert(found@.take(found@.len() as int) =~= found@);
        }
        changes
    }

    /// Whether a change found around a deployment is attributed: Kubernetes events are
    /// correlated, and its correlation reaches the minimum.
    pub fn is_attributable(&self, c: &AttributedChange) -> (r: bool)
        ensures
            r == counts_for(self.config, *c),
    {
        self.config.enable_k8s_events && self.config.correlation_threshold.le(&c.correlation)
    }

    /// The changes among those found that are attributed.
    fn keep_attributable(&self, found: Vec<AttributedChange>) -> (kept: Vec<AttributedChange>)
        ensures
            kept@ == attributable(self.config, found@),
    {
        let ghost all = found@;
        let ghost f = |c: AttributedChange| counts_for(self.config, c);
        let ghost mut seen: int = 0;
        let mut kept = found;
        let mut i: usize = 0;
        proof {
            filter_none(all, f);
            assert(kept@ =~= all.take(0).filter(f) + all.skip(0));
        }
        while i < kept.len()
            invariant
                f == (|c: AttributedChange| counts_for(self.config, c)),
                0 <= seen <= all.len(),
                i == all.take(seen).filter(f).len(),
                kept@ == all.take(seen).filter(f) + all.skip(seen),
            decreases all.len() - seen,
        {
            let ghost before = all.take(seen).filter(f);
            proof {
                filter_step(all, seen, f);
                assert(kept@[i as int] == all.skip(seen)[0]);
            }
            if self.is_attributable(&kept[i]) {
                proof {
                    assert(kept@ =~= before.push(all[seen]) + all.skip(seen + 1));
                }
                i = i + 1;
            } else {
                let _ = kept.remove(i);
                proof {
                    assert(kept@ =~= before + all.skip(seen + 1));
                }
            }
            proof {
                seen = seen + 1;
            }
        }
        proof {
            assert(all.skip(seen).len() == 0);
            assert(all.take(seen) =~= all);
            assert(kept@ =~= all.filter(f));
        }
        kept
    }

    /// The changes that a regression is attributed to: the deployment itself, then those of
    /// the config changes and of the scaling events that are attributed.
    fn gather_changes(
        &self,
        marker: &DeployMarker,
        config_changes: Vec<AttributedChange>,
        scaling_events: Vec<AttributedChange>,
    ) -> (changes: Vec<AttributedChange>)
        requires
            byte_prefix(marker.commit_sha@, 8) is Some,
        ensures
            changes@.len() > 0,
            is_deployment_change(changes@[0], *marker),
            changes@.skip(1) == attributable(self.config, config_changes@) + attributable(self.config, scaling_events@),
    {
        let mut changes: Vec<AttributedChange> = Vec::new();
        changes.push(deployment_change(marker));
        let mut config_changes = self.keep_attributable(config_changes);
        let mut scaling_events = self.keep_attributable(scaling_events);
        let ghost found = config_changes@ + scaling_events@;
        changes.append(&mut config_changes);
        changes.append(&mut scaling_events);
        proof {
            assert(changes@.skip(1) =~= found);
        }
        changes
    }

    /// Attribute a latency regression to the deployment and to those config changes and scaling
    /// events that are attributed; `score` is the mean of their correlations. The attribution
    /// is recorded, the oldest being dropped where there is no room.
    pub fn attribute_regression(
        &mut self,
        sli_name: &str,
        marker: &DeployMarker,
        delta: Reading,
        config_changes: Vec<AttributedChange>,
        scaling_events: Vec<AttributedChange>,
        score: Reading,
        now: i64,
    ) -> (a: &LatencyAttribution)
        requires
            old(self).history.capacity() > 0,
            byte_prefix(marker.commit_sha@, 8) is Some,
        ensures
            a.sli_name@ == sli_name@,
            a.deploy_marker_id@ == marker.id@,
            a.timestamp == now,
            a.delta == delta,
            a.attributed_changes@.len() > 0,
            is_deployment_change(a.attributed_changes@[0], *marker),
            a.attributed_changes@.skip(1) == attributable(old(self).config, config_changes@) + attributable(
                old(self).config,
                scaling_events@,
            ),
            a.correlation_score == score,
            a.confidence == confidence_of(score, a.attributed_changes@),
            final(self).config == old(self).config,
            final(self).namespace == old(self).namespace,
            final(self).history@ == last_n(old(self).history@.push(*a), old(self).history.capacity() as int),
            final(self).history.capacity() == old(self).history.capacity(),
    {
        let changes = self.gather_changes(marker, config_changes, scaling_events);
        let confidence = determine_confidence(&score, &changes);
        let a = LatencyAttribution {
            sli_name: sli_name.to_owned(),
            deploy_marker_id: marker.id.clone(),
            timestamp: now,
            delta,
            attributed_changes: changes,
            correlation_score: score,
            confidence,
        };
        self.history.push(a);
        let n: usize = self.history.len();
        self.history.at(n - 1)
    }

    /// Get attribution history, oldest first.
    pub fn get_history(&self) -> (log: &BoundedLog<LatencyAttribution>)
        ensures
            log@ == self.history@,
    {
        &self.history
    }

    /// Get attributions for a deploy marker, oldest first.
    pub fn get_for_deploy(&self, deploy_marker_id: &str) -> (out: Vec<&LatencyAttribution>)
        ensures
            out@.map_values(|a: &LatencyAttribution| *a) == self.history@.filter(
                |a: LatencyAttribution| a.deploy_marker_id@ == deploy_marker_id@,
            ),
    {
        let n: usize = self.history.len();
        let ghost all = self.history@;
        let ghost f = |a: LatencyAttribution| a.deploy_marker_id@ == deploy_marker_id@;
        let mut out: Vec<&LatencyAttribution> = Vec::new();
        proof {
            filter_none(all, f);
        }
        let mut i: usize = 0;
        while i < n
            invariant
                i <= n == all.len(),
                all == self.history@,
                f == (|a: LatencyAttribution| a.deploy_marker_id@ == deploy_marker_id@),
                out@.map_values(|a: &LatencyAttribution| *a) == all.take(i as int).filter(f),
            decreases n - i,
        {
            let a = self.history.at(i);
            proof {
                filter_step(all, i as int, f);
            }
            if same(a.deploy_marker_id.as_str(), deploy_marker_id) {
                let ghost was = out@;
                out.push(a);
                proof {
                    assert(out@.map_values(|a: &LatencyAttribution| *a) =~= was.map_values(
                        |a: &LatencyAttribution| *a,
                    ).push(*a));
                }
            }
            i = i + 1;
        }
        proof {
            assert(all.take(n as int) =~= all);
        }
        out
    }

    /// Get attributions for an SLI, oldest first.
    pub fn get_for_sli(&self, sli_name: &str) -> (out: Vec<&LatencyAttribution>)
        ensures
            out@.map_values(|a: &LatencyAttribution| *a) == self.history@.filter(
                |a: LatencyAttribution| a.sli_name@ == sli_name@,
            ),
    {
        let n: usize = self.history.len();
        let ghost all = self.history@;
        let ghost f = |a: LatencyAttribution| a.sli_name@ == sli_name@;
        let mut out: Vec<&LatencyAttribution> = Vec::new();
        proof {
            filter_none(all, f);
        }
        let mut i: usize = 0;
        while i < n
            invariant
                i <= n == all.len(),
                all == self.history@,
                f == (|a: LatencyAttribution| a.sli_name@ == sli_name@),
                out@.map_values(|a: &LatencyAttribution| *a) == all.take(i as int).filter(f),
            decreases n - i,
        {
            let a = self.history.at(i);
            proof {
                filter_step(all, i as int, f);
            }
            if same(a.sli_name.as_str(), sli_name) {
                let ghost was = out@;
                out.push(a);
                proof {
                    assert(out@.map_values(|a: &LatencyAttribution| *a) =~= was.map_values(
                        |a: &LatencyAttribution| *a,
                    ).push(*a));
                }
            }
            i = i + 1;
        }
        proof {
            assert(all.take(n as int) =~= all);
        }
        out
    }
}

/// The gathered changes always hold a code deployment, so a score of 0.9 or more gives high
/// confidence.
pub proof fn deployments_carry_confidence(changes: Seq<AttributedChange>, marker: DeployMarker, score: Reading)
    requires
        changes.len() > 0,
        is_deployment_change(changes[0], marker),
    ensures
        confidence_of(score, changes) == AttributionConfidence::High <==> reaches(score, 0x3FEC_CCCC_CCCC_CCCD),
{
    assert(changes[0].change_type == ChangeType::CodeDeployment);
}

/// What happened within the window counts, on either side of the moment and at its ends.
pub proof fn windows_reach_both_ways(window: Duration, t: i64, since: i64)
    ensures
        in_window(window, t, since) <==> in_window(window, since, t),
        t <= since ==> (in_window(window, t, since) <==> (since - t) * 1000 <= window.nanos),
        in_window(window, since, since),
{
}

/// Changes count by how far they may explain a regression: the deployment itself most, then a
/// configuration, a secret and a change of scale.
pub proof fn changes_have_their_weight(
    d: AttributedChange,
    m: DeployMarker,
    c: AttributedChange,
    f: FoundResource,
    s: AttributedChange,
    g: FoundResource,
    e: AttributedChange,
    h: FoundDeployment,
    since: i64,
)
    requires
        is_deployment_change(d, m),
        is_config_map_change(c, f),
        is_secret_change(s, g),
        is_scaling_event(e, h, since),
    ensures
        c.correlation.less(d.correlation),
        s.correlation.less(c.correlation),
        e.correlation.less(s.correlation),
        d.change_type is CodeDeployment && c.change_type is ConfigChange && s.change_type is ConfigChange
            && e.change_type is ScalingEvent,
        d.identifier@ == m.id@ && c.identifier@ == f.name@ && s.identifier@ == g.name@ && e.identifier@ == h.name@,
        d.timestamp == m.timestamp && Some(c.timestamp) == f.created && Some(s.timestamp) == g.created && e.timestamp
            == since,
{
}

/// A change is attributed where events are correlated at all and its correlation is no lower than
/// the threshold, the threshold itself taken in.
pub proof fn correlated_changes_are_attributed(
    config: AttributionConfig,
    found: Seq<AttributedChange>,
    c: AttributedChange,
)
    ensures
        attributable(config, found).contains(c) <==> found.contains(c) && config.enable_k8s_events
            && config.correlation_threshold.at_most(c.correlation),
        !config.enable_k8s_events ==> attributable(config, found).len() == 0,
{
    let f = |x: AttributedChange| counts_for(config, x);
    let kept = found.filter(f);
    found.filter_lemma(f);
    filter_holds(found, f, c);
    if kept.len() > 0 {
        assert(f(kept[0]));
    }
}

/// A higher score never means less confidence, and only a deployment among the changes makes it
/// high: from nine tenths on high, from seven tenths on medium, from one half on low.
pub proof fn higher_scores_mean_more_confidence(score: Reading, higher: Reading, changes: Seq<AttributedChange>)
    requires
        score.at_most(higher),
    ensures
        confidence_of(score, changes).level() <= confidence_of(higher, changes).level(),
        confidence_of(score, changes) is High ==> exists|i: int|
            0 <= i < changes.len() && (#[trigger] changes[i]).change_type is CodeDeployment,
        (Reading { bits: 0x3FEC_CCCC_CCCC_CCCD }).at_most(score) ==> confidence_of(score, changes).level() >= 2,
        (Reading { bits: 0x3FEC_CCCC_CCCC_CCCD }).at_most(score) && (exists|i: int|
            0 <= i < changes.len() && (#[trigger] changes[i]).change_type is CodeDeployment) ==> confidence_of(
            score,
            changes,
        ) is High,
        score.less(Reading { bits: 0x3FEC_CCCC_CCCC_CCCD }) && (Reading { bits: 0x3FE6_6666_6666_6666 }).at_most(score)
            ==> confidence_of(score, changes) is Medium,
        score.less(Reading { bits: 0x3FE6_6666_6666_6666 }) && (Reading { bits: 0x3FE0_0000_0000_0000 }).at_most(score)
            ==> confidence_of(score, changes) is Low,
        score.less(Reading { bits: 0x3FE0_0000_0000_0000 }) ==> confidence_of(score, changes) is Absent,
        AttributionConfidence::Absent.level() < AttributionConfidence::Low.level(),
        AttributionConfidence::Low.level() < AttributionConfidence::Medium.level(),
        AttributionConfidence::Medium.level() < AttributionConfidence::High.level(),
{
}

/// A configuration counts as changed where it was created within the window, and a deployment as
/// scaled where it runs more than one replica.
pub proof fn recent_resources_are_candidates(
    window: Duration,
    since: i64,
    found: Seq<FoundResource>,
    f: FoundResource,
    deployments: Seq<FoundDeployment>,
    d: FoundDeployment,
)
    ensures
        found.filter(is_recent(window, since)).contains(f) <==> found.contains(f) && f.created is Some && -window.nanos
            <= (f.created->0 - since) * 1000 <= window.nanos,
        deployments.filter(is_scaled()).contains(d) <==> deployments.contains(d) && d.replicas is Some && d.replicas->0
            >= 2,
{
    filter_holds(found, is_recent(window, since), f);
    filter_holds(deployments, is_scaled(), d);
}

/// A change brings along what speaks for it: a deployment its commit, version and strategy, and the
/// others their names.
pub proof fn changes_bring_their_evidence(
    d: AttributedChange,
    m: DeployMarker,
    c: AttributedChange,
    f: FoundResource,
    e: AttributedChange,
    h: FoundDeployment,
    since: i64,
)
    requires
        is_deployment_change(d, m),
        is_config_map_change(c, f),
        is_scaling_event(e, h, since),
    ensures
        d.evidence@[0]@ == "Commit: "@ + m.commit_sha@,
        m.version is Some ==> d.evidence@[1]@ == "Version: "@ + (m.version->0)@,
        m.version is None ==> d.evidence@[1]@ == "Version: "@ + "unknown"@,
        d.evidence@[2]@ == "Strategy: "@ + m.strategy.label(),
        c.evidence@[0]@ == "ConfigMap: "@ + f.name@,
        f.namespace is Some ==> c.evidence@[1]@ == "Namespace: "@ + (f.namespace->0)@,
        e.evidence@[1]@ == "Replicas: "@ + dec_int(h.replicas->0 as int),
        e.description@ == "Deployment "@ + h.name@ + " scaled to "@ + dec_int(h.replicas->0 as int) + " replicas"@,
{
}

/// A secret and a deployment that was scaled are told by name.
pub proof fn other_changes_are_told_by_name(
    s: AttributedChange,
    g: FoundResource,
    c: AttributedChange,
    f: FoundResource,
    e: AttributedChange,
    h: FoundDeployment,
    since: i64,
)
    requires
        is_secret_change(s, g),
        is_config_map_change(c, f),
        is_scaling_event(e, h, since),
    ensures
        s.description@ == "Secret "@ + g.name@ + " updated"@ && s.evidence@.len() == 1 && s.evidence@[0]@
            == "Secret: "@ + g.name@,
        c.description@ == "ConfigMap "@ + f.name@ + " updated"@ && c.evidence@.len() == 2,
        e.evidence@.len() == 2 && e.evidence@[0]@ == "Deployment: "@ + h.name@,
{
}

/// Every recent configuration and secret, and every scaled deployment, is among the changes, in order.
pub proof fn every_candidate_is_a_change(
    changes: Seq<AttributedChange>,
    maps: Seq<FoundResource>,
    secrets: Seq<FoundResource>,
    i: int,
    events: Seq<AttributedChange>,
    found: Seq<FoundDeployment>,
    since: i64,
    k: int,
)
    requires
        are_config_changes(changes, maps, secrets),
        are_scaling_events(events, found, since),
    ensures
        changes.len() == maps.len() + secrets.len(),
        0 <= i < maps.len() ==> changes[i].identifier@ == maps[i].name@,
        0 <= i < secrets.len() ==> changes[maps.len() + i].identifier@ == secrets[i].name@,
        events.len() == found.len(),
        0 <= k < found.len() ==> events[k].identifier@ == found[k].name@ && events[k].timestamp == since,
{
    if 0 <= i < maps.len() {
        assert(is_config_map_change(changes[i], maps[i]));
    }
    if 0 <= i < secrets.len() {
        assert(is_secret_change(changes[maps.len() + i], secrets[i]));
    }
    if 0 <= k < found.len() {
        assert(is_scaling_event(events[k], found[k], since));
    }
}

} // verus!
