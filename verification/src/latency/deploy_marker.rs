//! Markers of deployments.

use vstd::prelude::*;
#[allow(unused_imports)]
use vstd::string::*;
#[allow(unused_imports)]
use crate::bounded::{last_n, BoundedLog};
use crate::clock;
#[allow(unused_imports)]
use crate::clock::{is_dated, rfc3339};
#[allow(unused_imports)]
use crate::ids::{fresh_id, is_hyphenated};
#[allow(unused_imports)]
use crate::json::{no_fields, object, put, put_text, Doc, Fields, Json};
use crate::reading::Reading;
#[allow(unused_imports)]
use crate::seqs::{filter_none, filter_step};
#[allow(unused_imports)]
use crate::strmap::{ascending, keys_of, map_of, texts, StrMap};
#[allow(unused_imports)]
use crate::text::{copy_opt, copy_strings, debug_text, opt_view, same, text_debug, views};

verus! {

/// Configuration for deploy marker emission.
#[derive(Debug)]
pub struct DeployMarkerConfig {
    /// Namespace for deploy markers.
    pub namespace: String,
    /// Emit to Prometheus metrics.
    pub emit_prometheus: bool,
    /// Emit to Kafka topic.
    pub kafka_topic: Option<String>,
    /// Emit to NATS subject.
    pub nats_subject: Option<String>,
    /// Default labels to apply.
    pub default_labels: StrMap<String>,
}

/// The namespace where none is given.
pub fn default_namespace() -> (s: String)
    ensures
        s@ == "observability"@,
{
    "observability".to_owned()
}

impl Default for DeployMarkerConfig {
    fn default() -> (c: Self)
        ensures
            c.namespace@ == "observability"@,
            c.emit_prometheus,
            c.kafka_topic is None,
            c.nats_subject is None,
            c.default_labels@ == Map::<Seq<char>, String>::empty(),
    {
        DeployMarkerConfig {
            namespace: default_namespace(),
            emit_prometheus: true,
            kafka_topic: None,
            nats_subject: None,
            default_labels: StrMap::new(),
        }
    }
}

/// Deployment strategy.
#[derive(Debug, PartialEq, Eq)]
pub enum DeploymentStrategy {
    Rolling,
    BlueGreen,
    Canary,
    Recreate,
    Custom(String),
}

impl Default for DeploymentStrategy {
    fn default() -> (s: Self)
        ensures
            s is Rolling,
    {
        DeploymentStrategy::Rolling
    }
}

impl Clone for DeploymentStrategy {
    fn clone(&self) -> (r: Self)
        ensures
            r == *self,
    {
        match self {
            DeploymentStrategy::Rolling => DeploymentStrategy::Rolling,
            DeploymentStrategy::BlueGreen => DeploymentStrategy::BlueGreen,
            DeploymentStrategy::Canary => DeploymentStrategy::Canary,
            DeploymentStrategy::Recreate => DeploymentStrategy::Recreate,
            DeploymentStrategy::Custom(s) => DeploymentStrategy::Custom(s.clone()),
        }
    }
}

impl DeploymentStrategy {
    /// The strategy's label.
    pub open spec fn label(self) -> Seq<char> {
        match self {
            DeploymentStrategy::Rolling => "Rolling"@,
            DeploymentStrategy::BlueGreen => "BlueGreen"@,
            DeploymentStrategy::Canary => "Canary"@,
            DeploymentStrategy::Recreate => "Recreate"@,
            DeploymentStrategy::Custom(s) => "Custom("@ + text_debug(s@) + ")"@,
        }
    }

    /// The strategy's label.
    pub fn name(&self) -> (s: String)
        ensures
            s@ == self.label(),
    {
        match self {
            DeploymentStrategy::Rolling => "Rolling".to_owned(),
            DeploymentStrategy::BlueGreen => "BlueGreen".to_owned(),
            DeploymentStrategy::Canary => "Canary".to_owned(),
            DeploymentStrategy::Recreate => "Recreate".to_owned(),
            DeploymentStrategy::Custom(s) => {
                let mut out = "Custom(".to_owned();
                out.append(debug_text(s.as_str()).as_str());
                out.append(")");
                out
            },
        }
    }
}

/// Deploy marker representing a code deployment.
#[derive(Debug)]
pub struct DeployMarker {
    /// Unique marker ID.
    pub id: String,
    /// Deployment timestamp, in microseconds since the epoch.
    pub timestamp: i64,
    /// Service/component name.
    pub service: String,
    /// Environment (production, staging, etc.).
    pub environment: String,
    /// Git commit SHA.
    pub commit_sha: String,
    /// Git ref (branch/tag).
    pub git_ref: Option<String>,
    /// Deployment version/tag.
    pub version: Option<String>,
    /// Deployment strategy.
    pub strategy: DeploymentStrategy,
    /// Deployer identity.
    pub deployed_by: Option<String>,
    /// Related change/ticket IDs.
    pub change_ids: Vec<String>,
    /// Custom metadata.
    pub metadata: StrMap<String>,
    /// Pre-deploy baseline SLI values.
    pub pre_deploy_baselines: StrMap<Reading>,
}

/// The two markers say the same.
pub open spec fn same_marker(a: DeployMarker, b: DeployMarker) -> bool {
    &&& a.id@ == b.id@
    &&& a.timestamp == b.timestamp
    &&& a.service@ == b.service@
    &&& a.environment@ == b.environment@
    &&& a.commit_sha@ == b.commit_sha@
    &&& opt_view(a.git_ref) == opt_view(b.git_ref)
    &&& opt_view(a.version) == opt_view(b.version)
    &&& a.strategy == b.strategy
    &&& opt_view(a.deployed_by) == opt_view(b.deployed_by)
    &&& views(a.change_ids@) == views(b.change_ids@)
    &&& texts(a.metadata@) == texts(b.metadata@)
    &&& a.pre_deploy_baselines@ == b.pre_deploy_baselines@
}

impl Clone for DeployMarker {
    fn clone(&self) -> (r: Self)
        ensures
            same_marker(r, *self),
    {
        DeployMarker {
            id: self.id.clone(),
            timestamp: self.timestamp,
            service: self.service.clone(),
            environment: self.environment.clone(),
            commit_sha: self.commit_sha.clone(),
            git_ref: copy_opt(&self.git_ref),
            version: copy_opt(&self.version),
            strategy: self.strategy.clone(),
            deployed_by: copy_opt(&self.deployed_by),
            change_ids: copy_strings(&self.change_ids),
            metadata: self.metadata.copy(),
            pre_deploy_baselines: self.pre_deploy_baselines.copied(),
        }
    }
}

/// `m` is a marker with these three texts and nothing else.
pub open spec fn is_bare_marker(
    m: DeployMarker,
    id: Seq<char>,
    service: Seq<char>,
    environment: Seq<char>,
    commit_sha: Seq<char>,
) -> bool {
    &&& m.id@ == id
    &&& m.timestamp == 0
    &&& m.service@ == service
    &&& m.environment@ == environment
    &&& m.commit_sha@ == commit_sha
    &&& m.git_ref is None
    &&& m.version is None
    &&& m.strategy is Rolling
    &&& m.deployed_by is None
    &&& m.change_ids@.len() == 0
    &&& m.metadata@ == Map::<Seq<char>, String>::empty()
    &&& m.pre_deploy_baselines@ == Map::<Seq<char>, Reading>::empty()
}

/// A marker with an ID, a service, an environment and a commit, at the epoch.
pub fn bare_marker(id: &str, service: &str, environment: &str, commit_sha: &str) -> (m: DeployMarker)
    ensures
        is_bare_marker(m, id@, service@, environment@, commit_sha@),
{
    DeployMarker {
        id: id.to_owned(),
        timestamp: 0,
        service: service.to_owned(),
        environment: environment.to_owned(),
        commit_sha: commit_sha.to_owned(),
        git_ref: None,
        version: None,
        strategy: DeploymentStrategy::Rolling,
        deployed_by: None,
        change_ids: Vec::new(),
        metadata: StrMap::new(),
        pre_deploy_baselines: StrMap::new(),
    }
}

impl Default for DeployMarker {
    fn default() -> (m: Self)
        ensures
            is_bare_marker(m, ""@, ""@, ""@, ""@),
    {
        bare_marker("", "", "", "")
    }
}

/// Labels of deployment metrics.
#[derive(Debug, Clone, Hash, PartialEq, Eq)]
pub struct DeployLabels {
    pub service: String,
    pub environment: String,
    pub strategy: String,
}

/// The labels under which a deployment is counted.
pub fn deploy_labels(marker: &DeployMarker) -> (l: DeployLabels)
    ensures
        l.service@ == marker.service@,
        l.environment@ == marker.environment@,
        l.strategy@ == marker.strategy.label(),
{
    DeployLabels {
        service: marker.service.clone(),
        environment: marker.environment.clone(),
        strategy: marker.strategy.name(),
    }
}

/// `out` is `marker` as it is emitted: with `id` where it has none, with the time where it
/// is at the epoch, and with the default labels that it does not have already.
pub open spec fn is_emitted(
    out: DeployMarker,
    marker: DeployMarker,
    defaults: Map<Seq<char>, Seq<char>>,
    id: Seq<char>,
    now: i64,
) -> bool {
    &&& out.id@ == if marker.id@.len() == 0 {
        id
    } else {
        marker.id@
    }
    &&& out.timestamp == if marker.timestamp == 0 {
        now
    } else {
        marker.timestamp
    }
    &&& texts(out.metadata@) == defaults.union_prefer_right(texts(marker.metadata@))
    &&& out.service == marker.service
    &&& out.environment == marker.environment
    &&& out.commit_sha == marker.commit_sha
    &&& out.git_ref == marker.git_ref
    &&& out.version == marker.version
    &&& out.strategy == marker.strategy
    &&& out.deployed_by == marker.deployed_by
    &&& out.change_ids == marker.change_ids
    &&& out.pre_deploy_baselines == marker.pre_deploy_baselines
}

/// Adds the labels that `own` does not have already.
fn with_defaults(own: StrMap<String>, defaults: &StrMap<String>) -> (out: StrMap<String>)
    ensures
        texts(out@) == texts(defaults@).union_prefer_right(texts(own@)),
{
    let ghost before = own@;
    let mut out = own;
    let n: usize = defaults.len();
    let ghost pairs = defaults.pairs();
    let mut i: usize = 0;
    while i < n
        invariant
            i <= n == pairs.len(),
            pairs == defaults.pairs(),
            ascending(keys_of(pairs)),
            defaults@ == map_of(pairs),
            forall|k: Seq<char>| #[trigger]
                out@.contains_key(k) <==> before.contains_key(k) || keys_of(pairs).take(i as int).contains(k),
            forall|k: Seq<char>| before.contains_key(k) ==> #[trigger] out@[k]@ == before[k]@,
            forall|k: Seq<char>|
                !before.contains_key(k) && keys_of(pairs).take(i as int).contains(k) ==> #[trigger] out@[k]@
                    == defaults@[k]@,
        decreases n - i,
    {
        let k = defaults.key_at(i);
        let v = defaults.value_at(i);
        let ghost was = out@;
        proof {
            let taken = keys_of(pairs).take(i as int);
            let next = keys_of(pairs).take(i as int + 1);
            assert(next =~= taken.push(k@));
            assert forall|x: Seq<char>| next.contains(x) <==> taken.contains(x) || x == k@ by {
                if next.contains(x) {
                    let j = next.index_of(x);
                    if j < i {
                        assert(taken[j] == x);
                    }
                }
                if taken.contains(x) {
                    let j = taken.index_of(x);
                    assert(next[j] == x);
                }
                assert(next[i as int] == k@);
            }
        }
        if !out.contains_key(k.as_str()) {
            out.insert(k.clone(), v.clone());
        }
        i = i + 1;
    }
    proof {
        assert(keys_of(pairs).take(n as int) =~= keys_of(pairs));
        assert forall|k: Seq<char>| keys_of(pairs).contains(k) <==> defaults@.contains_key(k) by {}
        assert(texts(out@) =~= texts(defaults@).union_prefer_right(texts(before)));
    }
    out
}

/// Deploy marker emitter, with the newest markers.
pub struct DeployMarkerEmitter {
    pub config: DeployMarkerConfig,
    /// Emitted markers, oldest first.
    pub history: BoundedLog<DeployMarker>,
}

impl DeployMarkerEmitter {
    /// Create a new deploy marker emitter, which keeps a thousand markers.
    pub fn new(config: DeployMarkerConfig) -> (e: Self)
        ensures
            e.config == config,
            e.history@ == Seq::<DeployMarker>::empty(),
            e.history.capacity() == 1000,
    {
        DeployMarkerEmitter { config, history: BoundedLog::new(1000) }
    }

    /// Records a marker, under `id` where it has no ID and at `now` where it has no time.
    pub fn emit_as(&mut self, marker: DeployMarker, id: String, now: i64) -> (out: DeployMarker)
        ensures
            final(self).config == old(self).config,
            final(self).history.capacity() == old(self).history.capacity(),
            exists|kept: DeployMarker|
                #![trigger same_marker(out, kept)]
                same_marker(out, kept) && is_emitted(
                    kept,
                    marker,
                    texts(old(self).config.default_labels@),
                    id@,
                    now,
                ) && final(self).history@ == last_n(
                    old(self).history@.push(kept),
                    old(self).history.capacity() as int,
                ),
    {
        let mut kept = marker;
        if kept.id.as_str().is_empty() {
            kept.id = id;
        }
        if kept.timestamp == 0 {
            kept.timestamp = now;
        }
        kept.metadata = with_defaults(kept.metadata, &self.config.default_labels);
        let out = kept.clone();
        let ghost g = kept;
        self.history.push(kept);
        proof {
            assert(same_marker(out, g));
        }
        out
    }

    /// Emit a deploy marker: a marker without an ID gets a fresh one, and one at the epoch
    /// the present time.
    pub fn emit(&mut self, marker: DeployMarker) -> (out: DeployMarker)
        ensures
            final(self).config == old(self).config,
            final(self).history.capacity() == old(self).history.capacity(),
            exists|kept: DeployMarker, id: Seq<char>, now: i64|
                #![trigger same_marker(out, kept), is_emitted(
                    kept,
                    marker,
                    texts(old(self).config.default_labels@),
                    id,
                    now,
                )]
                same_marker(out, kept) && is_hyphenated(id) && is_emitted(
                    kept,
                    marker,
                    texts(old(self).config.default_labels@),
                    id,
                    now,
                ) && final(self).history@ == last_n(
                    old(self).history@.push(kept),
                    old(self).history.capacity() as int,
                ),
    {
        let id = fresh_id();
        let now: i64 = clock::now();
        self.emit_as(marker, id, now)
    }

    /// Emit a deployment start marker.
    pub fn emit_start(&mut self, service: &str, environment: &str, commit_sha: &str) -> (out: DeployMarker)
        ensures
            final(self).config == old(self).config,
            final(self).history.capacity() == old(self).history.capacity(),
            is_hyphenated(out.id@),
            out.service@ == service@,
            out.environment@ == environment@,
            out.commit_sha@ == commit_sha@,
            out.git_ref is None,
            out.version is None,
            out.strategy is Rolling,
            out.deployed_by is None,
            out.change_ids@.len() == 0,
            texts(out.metadata@) == texts(old(self).config.default_labels@),
            out.pre_deploy_baselines@ == Map::<Seq<char>, Reading>::empty(),
            exists|kept: DeployMarker| #[trigger]
                same_marker(out, kept) && final(self).history@ == last_n(
                    old(self).history@.push(kept),
                    old(self).history.capacity() as int,
                ),
    {
        let marker = bare_marker("", service, environment, commit_sha);
        let ghost defaults = texts(self.config.default_labels@);
        proof {
            reveal_strlit("");
            assert(defaults.union_prefer_right(texts(marker.metadata@)) =~= defaults);
        }
        let out = self.emit(marker);
        proof {
            assert(out.change_ids@.len() == views(out.change_ids@).len());
        }
        out
    }

    /// Get recent deploy markers, newest first.
    pub fn get_recent(&self, limit: usize) -> (out: Vec<DeployMarker>)
        ensures
            out@.len() == if limit <= self.history@.len() {
                limit as int
            } else {
                self.history@.len() as int
            },
            forall|i: int|
                0 <= i < out@.len() ==> same_marker(#[trigger] out@[i], self.history@[self.history@.len() - 1 - i]),
    {
        self.history.newest(limit)
    }

    /// Get deploy markers for a service, oldest first.
    pub fn get_for_service(&self, service: &str) -> (out: Vec<&DeployMarker>)
        ensures
            out@.map_values(|m: &DeployMarker| *m) == self.history@.filter(|m: DeployMarker| m.service@ == service@),
    {
        let n: usize = self.history.len();
        let ghost all = self.history@;
        let ghost f = |m: DeployMarker| m.service@ == service@;
        let mut out: Vec<&DeployMarker> = Vec::new();
        proof {
            filter_none(all, f);
        }
        let mut i: usize = 0;
        while i < n
            invariant
                i <= n == all.len(),
                all == self.history@,
                f == (|m: DeployMarker| m.service@ == service@),
                out@.map_values(|m: &DeployMarker| *m) == all.take(i as int).filter(f),
            decreases n - i,
        {
            let m = self.history.at(i);
            proof {
                filter_step(all, i as int, f);
            }
            if same(m.service.as_str(), service) {
                let ghost was = out@;
                out.push(m);
                proof {
                    assert(out@.map_values(|m: &DeployMarker| *m) =~= was.map_values(|m: &DeployMarker| *m).push(*m));
                }
            }
            i = i + 1;
        }
        proof {
            assert(all.take(n as int) =~= all);
        }
        out
    }

    /// Get deploy markers in time range, both ends in it, oldest first.
    pub fn get_in_range(&self, start: i64, end: i64) -> (out: Vec<&DeployMarker>)
        ensures
            out@.map_values(|m: &DeployMarker| *m) == self.history@.filter(
                |m: DeployMarker| start <= m.timestamp <= end,
            ),
    {
        let n: usize = self.history.len();
        let ghost all = self.history@;
        let ghost f = |m: DeployMarker| start <= m.timestamp <= end;
        let mut out: Vec<&DeployMarker> = Vec::new();
        proof {
            filter_none(all, f);
        }
        let mut i: usize = 0;
        while i < n
            invariant
                i <= n == all.len(),
                all == self.history@,
                f == (|m: DeployMarker| start <= m.timestamp <= end),
                out@.map_values(|m: &DeployMarker| *m) == all.take(i as int).filter(f),
            decreases n - i,
        {
            let m = self.history.at(i);
            proof {
                filter_step(all, i as int, f);
            }
            if m.timestamp >= start && m.timestamp <= end {
                let ghost was = out@;
                out.push(m);
                proof {
                    assert(out@.map_values(|m: &DeployMarker| *m) =~= was.map_values(|m: &DeployMarker| *m).push(*m));
                }
            }
            i = i + 1;
        }
        proof {
            assert(all.take(n as int) =~= all);
        }
        out
    }
}

/// The `ConfigMap` that a marker is kept in.
pub open spec fn config_map_of(namespace: Seq<char>, m: DeployMarker, data: Seq<char>) -> Doc {
    let labels = Fields::empty().push(("observability.stellar.org/type"@, Doc::Str("deploy-marker"@))).push(
        ("observability.stellar.org/service"@, Doc::Str(m.service@)),
    ).push(("observability.stellar.org/environment"@, Doc::Str(m.environment@)));
    let annotations = Fields::empty().push(("observability.stellar.org/commit-sha"@, Doc::Str(m.commit_sha@))).push(
        ("observability.stellar.org/timestamp"@, Doc::Str(rfc3339(m.timestamp))),
    );
    let metadata = Fields::empty().push(("name"@, Doc::Str("deploy-marker-"@ + m.id@))).push(
        ("namespace"@, Doc::Str(namespace)),
    ).push(("labels"@, Doc::Obj(labels))).push(("annotations"@, Doc::Obj(annotations)));
    Doc::Obj(
        Fields::empty().push(("metadata"@, Doc::Obj(metadata))).push(
            ("data"@, Doc::Obj(Fields::empty().push(("marker.json"@, Doc::Str(data))))),
        ),
    )
}

/// The `ConfigMap` that a marker is kept in; `data` is the marker in JSON.
pub fn marker_config_map(namespace: &str, marker: &DeployMarker, data: &str) -> (j: Json)
    requires
        is_dated(marker.timestamp),
    ensures
        j@ == config_map_of(namespace@, *marker, data@),
{
    let mut labels = no_fields();
    put_text(&mut labels, "observability.stellar.org/type", "deploy-marker");
    put_text(&mut labels, "observability.stellar.org/service", marker.service.as_str());
    put_text(&mut labels, "observability.stellar.org/environment", marker.environment.as_str());
    let mut annotations = no_fields();
    put_text(&mut annotations, "observability.stellar.org/commit-sha", marker.commit_sha.as_str());
    put_text(
        &mut annotations,
        "observability.stellar.org/timestamp",
        clock::to_rfc3339(marker.timestamp).as_str(),
    );
    let mut name = "deploy-marker-".to_owned();
    name.append(marker.id.as_str());
    let mut metadata = no_fields();
    put_text(&mut metadata, "name", name.as_str());
    put_text(&mut metadata, "namespace", namespace);
    put(&mut metadata, "labels", object(labels));
    put(&mut metadata, "annotations", object(annotations));
    let mut content = no_fields();
    put_text(&mut content, "marker.json", data);
    let mut fields = no_fields();
    put(&mut fields, "metadata", object(metadata));
    put(&mut fields, "data", object(content));
    object(fields)
}

/// What `serde_json::from_str` reads as a list of strings.
pub uninterp spec fn json_strings(s: Seq<char>) -> Option<Seq<Seq<char>>>;

/// `serde_json::from_str` into a list of strings; `None` where the text is no JSON array of
/// strings. The grammar is named, not restated.
#[verifier::external_body]
fn parse_strings(s: &str) -> (r: Option<Vec<String>>)
    ensures
        r is Some <==> json_strings(s@) is Some,
        r matches Some(v) ==> json_strings(s@) == Some(views(v@)),
{
    serde_json::from_str::<Vec<String>>(s).ok()
}

/// The text of an annotation.
pub open spec fn annotation(m: Map<Seq<char>, Seq<char>>, key: Seq<char>) -> Option<Seq<char>> {
    if m.contains_key(key) {
        Some(m[key])
    } else {
        None
    }
}

/// What the list of changes in the annotations was read as, if it is there and can be read.
pub open spec fn annotated_changes(a: Map<Seq<char>, Seq<char>>) -> Option<Seq<Seq<char>>> {
    match annotation(a, "deployment.stellar.org/change-ids"@) {
        Some(s) => json_strings(s),
        None => None,
    }
}

/// `r` is the marker of a deployment with these annotations, whose strategy and list of
/// changes were read as given.
pub open spec fn is_annotated(
    r: Option<DeployMarker>,
    a: Map<Seq<char>, Seq<char>>,
    strategy: Option<DeploymentStrategy>,
    changes: Option<Seq<Seq<char>>>,
    now: i64,
) -> bool {
    &&& r is Some <==> a.contains_key("deployment.stellar.org/commit-sha"@) && a.contains_key(
        "deployment.stellar.org/service"@,
    ) && a.contains_key("deployment.stellar.org/environment"@)
    &&& r matches Some(m) ==> {
        &&& m.id@ == ""@
        &&& m.timestamp == now
        &&& m.service@ == a["deployment.stellar.org/service"@]
        &&& m.environment@ == a["deployment.stellar.org/environment"@]
        &&& m.commit_sha@ == a["deployment.stellar.org/commit-sha"@]
        &&& opt_view(m.git_ref) == annotation(a, "deployment.stellar.org/git-ref"@)
        &&& opt_view(m.version) == annotation(a, "deployment.stellar.org/version"@)
        &&& m.strategy == match strategy {
            Some(s) => s,
            None => DeploymentStrategy::Rolling,
        }
        &&& opt_view(m.deployed_by) == annotation(a, "deployment.stellar.org/deployed-by"@)
        &&& views(m.change_ids@) == match changes {
            Some(v) => v,
            None => Seq::empty(),
        }
        &&& m.metadata@ == Map::<Seq<char>, String>::empty()
        &&& m.pre_deploy_baselines@ == Map::<Seq<char>, Reading>::empty()
    }
}

/// The text of an annotation.
fn read_annotation(annotations: &StrMap<String>, key: &str) -> (r: Option<String>)
    ensures
        opt_view(r) == annotation(texts(annotations@), key@),
{
    match annotations.get(key) {
        Some(s) => Some(s.clone()),
        None => None,
    }
}

/// Create deploy marker from deployment annotations; `None` where the commit, the service
/// or the environment is missing. `strategy` is what the strategy annotation was read as,
/// if it was readable.
pub fn create_marker_from_annotation(
    annotations: &StrMap<String>,
    strategy: Option<DeploymentStrategy>,
    now: i64,
) -> (r: Option<DeployMarker>)
    ensures
        is_annotated(r, texts(annotations@), strategy, annotated_changes(texts(annotations@)), now),
{
    let changes = match annotations.get("deployment.stellar.org/change-ids") {
        Some(s) => parse_strings(s.as_str()),
        None => None,
    };
    assemble_marker(annotations, strategy, changes, now)
}

/// The marker of the annotations; `strategy` and `changes` are what the strategy and the list
/// of changes were read as, if they were readable.
pub fn assemble_marker(
    annotations: &StrMap<String>,
    strategy: Option<DeploymentStrategy>,
    changes: Option<Vec<String>>,
    now: i64,
) -> (r: Option<DeployMarker>)
    ensures
        is_annotated(
            r,
            texts(annotations@),
            strategy,
            match changes {
                Some(v) => Some(views(v@)),
                None => None,
            },
            now,
        ),
{
    let commit_sha = match annotations.get("deployment.stellar.org/commit-sha") {
        Some(s) => s.clone(),
        None => {
            return None;
        },
    };
    let service = match annotations.get("deployment.stellar.org/service") {
        Some(s) => s.clone(),
        None => {
            return None;
        },
    };
    let environment = match annotations.get("deployment.stellar.org/environment") {
        Some(s) => s.clone(),
        None => {
            return None;
        },
    };
    let ghost listed = changes;
    let change_ids: Vec<String> = match changes {
        Some(v) => v,
        None => Vec::new(),
    };
    proof {
        assert(listed is None ==> views(change_ids@) =~= Seq::<Seq<char>>::empty());
    }
    Some(
        DeployMarker {
            id: "".to_owned(),
            timestamp: now,
            service,
            environment,
            commit_sha,
            git_ref: read_annotation(annotations, "deployment.stellar.org/git-ref"),
            version: read_annotation(annotations, "deployment.stellar.org/version"),
            strategy: match strategy {
                Some(s) => s,
                None => DeploymentStrategy::Rolling,
            },
            deployed_by: read_annotation(annotations, "deployment.stellar.org/deployed-by"),
            change_ids,
            metadata: StrMap::new(),
            pre_deploy_baselines: StrMap::new(),
        },
    )
}

/// A marker that has an ID, a time and every default label is emitted as it is.
pub proof fn complete_markers_are_kept(
    out: DeployMarker,
    marker: DeployMarker,
    defaults: Map<Seq<char>, Seq<char>>,
    id: Seq<char>,
    now: i64,
)
    requires
        is_emitted(out, marker, defaults, id, now),
        marker.id@.len() > 0,
        marker.timestamp != 0,
        forall|k: Seq<char>| #[trigger] defaults.contains_key(k) ==> marker.metadata@.contains_key(k),
    ensures
        same_marker(out, marker),
{
    assert(defaults.union_prefer_right(texts(marker.metadata@)) =~= texts(marker.metadata@));
}

/// A marker keeps the name, the time and the metadata that it brings; what it lacks comes from the
/// emitter: the fresh name, the present time, and each default label under whose key it has none.
pub proof fn markers_keep_what_they_bring(
    out: DeployMarker,
    marker: DeployMarker,
    defaults: Map<Seq<char>, Seq<char>>,
    id: Seq<char>,
    now: i64,
    k: Seq<char>,
)
    requires
        is_emitted(out, marker, defaults, id, now),
    ensures
        marker.id@.len() > 0 ==> out.id@ == marker.id@,
        marker.id@.len() == 0 ==> out.id@ == id,
        marker.timestamp != 0 ==> out.timestamp == marker.timestamp,
        marker.timestamp == 0 ==> out.timestamp == now,
        texts(marker.metadata@).contains_key(k) ==> texts(out.metadata@).contains_key(k) && texts(out.metadata@)[k]
            == texts(marker.metadata@)[k],
        !texts(marker.metadata@).contains_key(k) && defaults.contains_key(k) ==> texts(out.metadata@).contains_key(k)
            && texts(out.metadata@)[k] == defaults[k],
        !texts(marker.metadata@).contains_key(k) && !defaults.contains_key(k) ==> !texts(out.metadata@).contains_key(k),
        out.service@ == marker.service@ && out.environment@ == marker.environment@ && out.commit_sha@
            == marker.commit_sha@,
{
}

/// A marker is read off annotations where they name the commit, the service and the environment, and
/// only there; what else they name goes into it, and what they do not name stays out.
pub proof fn annotations_make_a_marker(
    r: Option<DeployMarker>,
    a: Map<Seq<char>, Seq<char>>,
    strategy: Option<DeploymentStrategy>,
    changes: Option<Seq<Seq<char>>>,
    now: i64,
)
    requires
        is_annotated(r, a, strategy, changes, now),
    ensures
        !a.contains_key("deployment.stellar.org/commit-sha"@) ==> r is None,
        !a.contains_key("deployment.stellar.org/service"@) ==> r is None,
        !a.contains_key("deployment.stellar.org/environment"@) ==> r is None,
        a.contains_key("deployment.stellar.org/commit-sha"@) && a.contains_key("deployment.stellar.org/service"@)
            && a.contains_key("deployment.stellar.org/environment"@) ==> r is Some && (r->0).commit_sha@
            == a["deployment.stellar.org/commit-sha"@] && (r->0).service@ == a["deployment.stellar.org/service"@] && (
        r->0).environment@ == a["deployment.stellar.org/environment"@] && (r->0).timestamp == now,
        r is Some && a.contains_key("deployment.stellar.org/git-ref"@) ==> (r->0).git_ref is Some && ((
        r->0).git_ref->0)@ == a["deployment.stellar.org/git-ref"@],
        r is Some && !a.contains_key("deployment.stellar.org/git-ref"@) ==> (r->0).git_ref is None,
        r is Some && a.contains_key("deployment.stellar.org/version"@) ==> (r->0).version is Some && ((
        r->0).version->0)@ == a["deployment.stellar.org/version"@],
        r is Some && !a.contains_key("deployment.stellar.org/version"@) ==> (r->0).version is None,
        r is Some && a.contains_key("deployment.stellar.org/deployed-by"@) ==> (r->0).deployed_by is Some && ((
        r->0).deployed_by->0)@ == a["deployment.stellar.org/deployed-by"@],
        r is Some && strategy is None ==> (r->0).strategy is Rolling,
        r is Some && strategy is Some ==> (r->0).strategy == strategy->0,
        r is Some && changes is None ==> (r->0).change_ids@.len() == 0,
        r is Some && changes is Some ==> views((r->0).change_ids@) == changes->0,
{
    if r is Some && changes is None {
        assert(views((r->0).change_ids@).len() == 0);
    }
}

/// A marker is kept as a config map named after it, labelled with its service and environment, that
/// holds the marker itself.
#[verifier::rlimit(40)]
pub proof fn markers_are_kept_by_name(namespace: Seq<char>, m: DeployMarker, data: Seq<char>)
    ensures
        config_map_of(namespace, m, data) matches Doc::Obj(top) && top.len() == 2 && top[0].0 == "metadata"@ && top[1].0
            == "data"@ && top[1].1 == Doc::Obj(Fields::empty().push(("marker.json"@, Doc::Str(data)))) && (top[0].1
            matches Doc::Obj(meta) && meta.len() == 4 && meta.contains(("name"@, Doc::Str("deploy-marker-"@ + m.id@)))
            && meta.contains(("namespace"@, Doc::Str(namespace))) && meta[2].0 == "labels"@ && (meta[2].1
            matches Doc::Obj(labels) && labels.contains(("observability.stellar.org/service"@, Doc::Str(m.service@)))
            && labels.contains(("observability.stellar.org/environment"@, Doc::Str(m.environment@)))
            && labels.contains(("observability.stellar.org/type"@, Doc::Str("deploy-marker"@)))) && meta[3].0
            == "annotations"@ && (meta[3].1 matches Doc::Obj(notes) && notes.contains(
            ("observability.stellar.org/commit-sha"@, Doc::Str(m.commit_sha@)),
        ) && notes.contains(("observability.stellar.org/timestamp"@, Doc::Str(rfc3339(m.timestamp)))))),
{
    let top = config_map_of(namespace, m, data)->Obj_0;
    let meta = top[0].1->Obj_0;
    let labels = meta[2].1->Obj_0;
    let notes = meta[3].1->Obj_0;
    assert(top[1].0 == "data"@);
    assert(meta[0] == ("name"@, Doc::Str("deploy-marker-"@ + m.id@)));
    assert(meta[1] == ("namespace"@, Doc::Str(namespace)));
    assert(labels[0] == ("observability.stellar.org/type"@, Doc::Str("deploy-marker"@)));
    assert(labels[1] == ("observability.stellar.org/service"@, Doc::Str(m.service@)));
    assert(labels[2] == ("observability.stellar.org/environment"@, Doc::Str(m.environment@)));
    assert(notes[0] == ("observability.stellar.org/commit-sha"@, Doc::Str(m.commit_sha@)));
    assert(notes[1] == ("observability.stellar.org/timestamp"@, Doc::Str(rfc3339(m.timestamp))));
}

/// The ways to deploy go by their own names.
pub proof fn strategies_go_by_their_names(name: String)
    ensures
        DeploymentStrategy::Rolling.label() == "Rolling"@,
        DeploymentStrategy::BlueGreen.label() == "BlueGreen"@,
        DeploymentStrategy::Canary.label() == "Canary"@,
        DeploymentStrategy::Recreate.label() == "Recreate"@,
        DeploymentStrategy::Custom(name).label() == "Custom("@ + text_debug(name@) + ")"@,
{
}

/// Two markers that are the same agree in all that they mark.
pub proof fn same_markers_agree(a: DeployMarker, b: DeployMarker)
    requires
        same_marker(a, b),
    ensures
        same_marker(b, a) && same_marker(a, a),
        a.id@ == b.id@ && a.timestamp == b.timestamp && a.service@ == b.service@,
        a.environment@ == b.environment@ && a.commit_sha@ == b.commit_sha@ && a.strategy == b.strategy,
        a.pre_deploy_baselines@ == b.pre_deploy_baselines@ && texts(a.metadata@) == texts(b.metadata@),
{
}

} // verus!
