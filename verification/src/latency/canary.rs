//! Canary analysis for latency regressions.

use vstd::prelude::*;
#[allow(unused_imports)]
use vstd::string::*;
use crate::error::Error;
use crate::latency::deploy_marker::DeployMarker;
#[allow(unused_imports)]
use crate::latency::sli_tracker::{
    delta_over, with_baselines, DeltaBasis, DeltaFigures, LatencySLITracker, SLIDelta,
};
use crate::reading::Reading;
#[allow(unused_imports)]
use crate::seqs::{filter_is_prefix, filter_none, filter_step};
use crate::span::Duration;
#[allow(unused_imports)]
use crate::strmap::StrMap;
#[allow(unused_imports)]
use crate::text::views;

verus! {

/// Canary analysis configuration.
#[derive(Debug)]
pub struct CanaryConfig {
    /// Canary name.
    pub name: String,
    /// Service being analyzed.
    pub service: String,
    /// SLIs to monitor during canary.
    pub sli_names: Vec<String>,
    /// Canary duration.
    pub duration: Duration,
    /// Traffic percentage for canary (0-100).
    pub traffic_percentage: u8,
    /// Regression threshold (percentage points).
    pub regression_threshold: Reading,
    /// Error rate threshold.
    pub error_rate_threshold: Reading,
    /// Minimum samples required.
    pub min_samples: u64,
    /// Auto-promote on success.
    pub auto_promote: bool,
    /// Auto-rollback on failure.
    pub auto_rollback: bool,
}

impl Default for CanaryConfig {
    fn default() -> (c: Self)
        ensures
            c.name@ == ""@,
            c.service@ == ""@,
            c.sli_names@.len() == 0,
            c.duration.nanos == 1_800_000_000_000,
            c.traffic_percentage == 10,
            c.regression_threshold.bits == 0x3FF0_0000_0000_0000,
            c.error_rate_threshold.bits == 0x3F84_7AE1_47AE_147B,
            c.min_samples == 100,
            !c.auto_promote,
            !c.auto_rollback,
    {
        CanaryConfig {
            name: "".to_owned(),
            service: "".to_owned(),
            sli_names: Vec::new(),
            duration: Duration::from_secs(30 * 60),
            traffic_percentage: 10,
            regression_threshold: Reading { bits: 0x3FF0_0000_0000_0000 },
            error_rate_threshold: Reading { bits: 0x3F84_7AE1_47AE_147B },
            min_samples: 100,
            auto_promote: false,
            auto_rollback: false,
        }
    }
}

/// Canary phase.
#[derive(Debug, Clone, Copy, PartialEq, Eq, Structural)]
pub enum CanaryPhase {
    NotStarted,
    Running,
    Analyzing,
    Promoted,
    RolledBack,
    Failed,
}

impl Default for CanaryPhase {
    fn default() -> (p: Self)
        ensures
            p == CanaryPhase::NotStarted,
    {
        CanaryPhase::NotStarted
    }
}

impl CanaryPhase {
    /// The phase's label.
    pub open spec fn label(self) -> Seq<char> {
        match self {
            CanaryPhase::NotStarted => "NotStarted"@,
            CanaryPhase::Running => "Running"@,
            CanaryPhase::Analyzing => "Analyzing"@,
            CanaryPhase::Promoted => "Promoted"@,
            CanaryPhase::RolledBack => "RolledBack"@,
            CanaryPhase::Failed => "Failed"@,
        }
    }

    /// The phase's label.
    pub fn name(&self) -> (s: &'static str)
        ensures
            s@ == self.label(),
    {
        match self {
            CanaryPhase::NotStarted => "NotStarted",
            CanaryPhase::Running => "Running",
            CanaryPhase::Analyzing => "Analyzing",
            CanaryPhase::Promoted => "Promoted",
            CanaryPhase::RolledBack => "RolledBack",
            CanaryPhase::Failed => "Failed",
        }
    }

    /// The canary is over in this phase.
    pub open spec fn is_over(self) -> bool {
        self is Promoted || self is RolledBack || self is Failed
    }

    /// Whether the canary is over in this phase.
    pub fn over(&self) -> (r: bool)
        ensures
            r == self.is_over(),
    {
        match self {
            CanaryPhase::Promoted | CanaryPhase::RolledBack | CanaryPhase::Failed => true,
            _ => false,
        }
    }
}

/// Overall canary assessment.
#[derive(Debug, Clone, Copy, PartialEq, Eq, Structural)]
pub enum CanaryAssessment {
    Healthy,
    Degraded,
    Critical,
}

/// Canary recommendation.
#[derive(Debug, Clone, Copy, PartialEq, Eq, Structural)]
pub enum CanaryRecommendation {
    Promote,
    Rollback,
    Extend,
    ManualReview,
}

/// Canary analysis result. Instants are in microseconds since the epoch. The error rate is
/// `error_count` of `sample_count`, and zero where there is no sample.
#[derive(Debug)]
pub struct CanaryResult {
    pub canary_name: String,
    pub deploy_marker_id: String,
    pub phase: CanaryPhase,
    pub started_at: i64,
    pub completed_at: Option<i64>,
    pub sli_deltas: Vec<SLIDelta>,
    pub overall_assessment: CanaryAssessment,
    pub regression_detected: bool,
    pub error_count: u64,
    pub sample_count: u64,
    pub recommendation: CanaryRecommendation,
}

/// How a canary ended, for its metrics.
#[derive(Debug)]
pub struct CanaryOutcome {
    /// How long it took, in whole seconds.
    pub duration_seconds: i128,
    /// `promoted`, `rolled_back` or `failed`.
    pub outcome: &'static str,
    /// Whether a regression was detected.
    pub regression_detected: bool,
}

/// Labels of canary metrics.
#[derive(Debug, Clone, Hash, PartialEq, Eq)]
pub struct CanaryLabels {
    pub canary_name: String,
    pub service: String,
}

/// Labels of the canary outcome counter.
#[derive(Debug, Clone, Hash, PartialEq, Eq)]
pub struct CanaryOutcomeLabels {
    pub canary_name: String,
    pub service: String,
    pub outcome: String,
}

/// What is known of an active canary.
#[derive(Debug)]
pub struct CanaryState {
    pub deploy_marker: DeployMarker,
    pub phase: CanaryPhase,
    /// In microseconds since the epoch.
    pub started_at: i64,
    pub sli_deltas: Vec<SLIDelta>,
    pub sample_count: u64,
    pub error_count: u64,
}

/// One of the deltas is a regression.
pub open spec fn regressed(deltas: Seq<SLIDelta>) -> bool {
    exists|i: int| 0 <= i < deltas.len() && (#[trigger] deltas[i]).is_regression
}

/// Whether one of the deltas is a regression.
pub fn any_regression(deltas: &Vec<SLIDelta>) -> (r: bool)
    ensures
        r == regressed(deltas@),
{
    let mut i: usize = 0;
    while i < deltas.len()
        invariant
            i <= deltas@.len(),
            forall|k: int| 0 <= k < i ==> !(#[trigger] deltas@[k]).is_regression,
        decreases deltas@.len() - i,
    {
        if deltas[i].is_regression {
            return true;
        }
        i = i + 1;
    }
    false
}

/// A copy of the deltas.
fn copy_deltas(deltas: &Vec<SLIDelta>) -> (out: Vec<SLIDelta>)
    ensures
        out@ == deltas@,
{
    let mut out: Vec<SLIDelta> = Vec::new();
    let mut i: usize = 0;
    while i < deltas.len()
        invariant
            i <= deltas@.len(),
            out@ == deltas@.take(i as int),
        decreases deltas@.len() - i,
    {
        out.push(deltas[i].clone());
        proof {
            assert(out@ =~= deltas@.take(i as int + 1));
        }
        i = i + 1;
    }
    proof {
        assert(deltas@.take(deltas@.len() as int) =~= deltas@);
    }
    out
}

/// A regression, or an error rate above the threshold, is critical; an error rate above
/// half the threshold is a degradation.
pub open spec fn assessment_of(
    regression: bool,
    error_rate: Reading,
    threshold: Reading,
    half_threshold: Reading,
) -> CanaryAssessment {
    if regression || threshold.less(error_rate) {
        CanaryAssessment::Critical
    } else if half_threshold.less(error_rate) {
        CanaryAssessment::Degraded
    } else {
        CanaryAssessment::Healthy
    }
}

/// What an assessment recommends.
pub open spec fn recommendation_of(a: CanaryAssessment) -> CanaryRecommendation {
    match a {
        CanaryAssessment::Critical => CanaryRecommendation::Rollback,
        CanaryAssessment::Degraded => CanaryRecommendation::Extend,
        CanaryAssessment::Healthy => CanaryRecommendation::Promote,
    }
}

/// The assessment of a canary and what it recommends.
pub fn assess(
    regression: bool,
    error_rate: &Reading,
    threshold: &Reading,
    half_threshold: &Reading,
) -> (r: (CanaryAssessment, CanaryRecommendation))
    ensures
        r.0 == assessment_of(regression, *error_rate, *threshold, *half_threshold),
        r.1 == recommendation_of(r.0),
{
    if regression || threshold.lt(error_rate) {
        (CanaryAssessment::Critical, CanaryRecommendation::Rollback)
    } else if half_threshold.lt(error_rate) {
        (CanaryAssessment::Degraded, CanaryRecommendation::Extend)
    } else {
        (CanaryAssessment::Healthy, CanaryRecommendation::Promote)
    }
}

/// The phase after an analysis. A canary that is over stays in its phase, and so does one
/// whose time is not up. Any other is rolled back where there is a regression and rollbacks
/// are automatic, and promoted where there is none, promotions are automatic and it has had
/// the samples it needs; else it waits.
pub open spec fn phase_after(s: CanaryState, config: CanaryConfig, time_is_up: bool, regression: bool) -> CanaryPhase {
    if s.phase.is_over() || !(time_is_up || s.phase is Analyzing) {
        s.phase
    } else if regression && config.auto_rollback {
        CanaryPhase::RolledBack
    } else if !regression && config.auto_promote && s.sample_count >= config.min_samples {
        CanaryPhase::Promoted
    } else {
        CanaryPhase::Analyzing
    }
}

/// The time of a canary is up.
pub open spec fn time_is_up(started_at: i64, duration: Duration, now: i64) -> bool {
    (now - started_at) * 1000 >= duration.nanos
}

/// The outcome that a phase is counted under.
pub open spec fn outcome_of(p: CanaryPhase) -> Seq<char> {
    match p {
        CanaryPhase::Promoted => "promoted"@,
        CanaryPhase::RolledBack => "rolled_back"@,
        _ => "failed"@,
    }
}

/// The whole seconds between two instants, towards zero.
pub open spec fn whole_seconds(micros: int) -> int {
    if micros >= 0 {
        micros / 1_000_000
    } else {
        -((-micros) / 1_000_000)
    }
}

/// The key of an active canary.
pub open spec fn canary_key(name: Seq<char>, marker_id: Seq<char>) -> Seq<char> {
    name + "-"@ + marker_id
}

/// What a canary that is not finished shows.
pub open spec fn is_status(r: CanaryResult, name: Seq<char>, id: Seq<char>, s: CanaryState) -> bool {
    &&& r.canary_name@ == name
    &&& r.deploy_marker_id@ == id
    &&& r.phase == s.phase
    &&& r.started_at == s.started_at
    &&& r.completed_at is None
    &&& r.sli_deltas@ == s.sli_deltas@
    &&& r.overall_assessment == CanaryAssessment::Healthy
    &&& r.regression_detected == regressed(s.sli_deltas@)
    &&& r.error_count == s.error_count
    &&& r.sample_count == s.sample_count
    &&& r.recommendation == CanaryRecommendation::ManualReview
}

/// The state is that of a canary that has just started.
pub open spec fn is_started(s: CanaryState, marker: DeployMarker, now: i64) -> bool {
    &&& s.deploy_marker == marker
    &&& s.phase == CanaryPhase::Running
    &&& s.started_at == now
    &&& s.sli_deltas@.len() == 0
    &&& s.sample_count == 0
    &&& s.error_count == 0
}

/// The readings that an analysis weighs.
#[derive(Debug, Clone, Copy)]
pub struct ErrorReadings {
    /// The errors among the samples; zero where there are none.
    pub error_rate: Reading,
    /// Half of the error rate threshold.
    pub half_threshold: Reading,
}

/// `r` and `outcome` are what the analysis of a canary in state `s` gives.
pub open spec fn is_analysis(
    r: CanaryResult,
    outcome: Option<CanaryOutcome>,
    config: CanaryConfig,
    id: Seq<char>,
    s: CanaryState,
    deltas: Seq<SLIDelta>,
    errors: ErrorReadings,
    now: i64,
) -> bool {
    let regression = regressed(deltas);
    let phase = phase_after(s, config, time_is_up(s.started_at, config.duration, now), regression);
    &&& r.canary_name@ == config.name@
    &&& r.deploy_marker_id@ == id
    &&& r.phase == phase
    &&& r.started_at == s.started_at
    &&& r.completed_at == if phase is Running || phase is Analyzing {
        None
    } else {
        Some(now)
    }
    &&& r.sli_deltas@ == deltas
    &&& r.overall_assessment == assessment_of(
        regression,
        errors.error_rate,
        config.error_rate_threshold,
        errors.half_threshold,
    )
    &&& r.regression_detected == regression
    &&& r.error_count == s.error_count
    &&& r.sample_count == s.sample_count
    &&& r.recommendation == recommendation_of(r.overall_assessment)
    &&& outcome is Some <==> phase.is_over()
    &&& outcome matches Some(o) ==> o.duration_seconds == whole_seconds(now - s.started_at) && o.outcome@ == outcome_of(
        phase,
    ) && o.regression_detected == regression
}

/// Canary analyzer for automated latency regression detection.
pub struct CanaryAnalyzer {
    pub config: CanaryConfig,
    /// Active canary deployments.
    pub active: StrMap<CanaryState>,
}

impl CanaryAnalyzer {
    /// The canary of a deploy marker is active.
    pub open spec fn is_active(self, id: Seq<char>) -> bool {
        self.active@.contains_key(canary_key(self.config.name@, id))
    }

    /// The state of the active canary of a deploy marker.
    pub open spec fn state_of(self, id: Seq<char>) -> CanaryState {
        self.active@[canary_key(self.config.name@, id)]
    }

    /// The SLIs of an active canary whose deltas can be worked out.
    pub open spec fn measured(self, tracker: LatencySLITracker, id: Seq<char>) -> Seq<Seq<char>> {
        tracker.measured(views(self.config.sli_names@), self.state_of(id).deploy_marker)
    }

    /// The deltas are those of the measured SLIs, with these figures, held against the
    /// canary's regression threshold.
    pub open spec fn are_deltas(
        self,
        deltas: Seq<SLIDelta>,
        tracker: LatencySLITracker,
        id: Seq<char>,
        figures: Seq<DeltaFigures>,
        now: i64,
    ) -> bool {
        let names = self.measured(tracker, id);
        &&& deltas.len() == names.len()
        &&& forall|k: int|
            0 <= k < deltas.len() ==> tracker.is_delta(
                #[trigger] deltas[k],
                names[k],
                self.state_of(id).deploy_marker,
                figures[k],
                self.config.regression_threshold,
                now,
            )
    }

    /// Create a new canary analyzer.
    pub fn new(config: CanaryConfig) -> (a: Self)
        ensures
            a.config == config,
            a.active@ == Map::<Seq<char>, CanaryState>::empty(),
    {
        CanaryAnalyzer { config, active: StrMap::new() }
    }

    fn key(&self, id: &str) -> (key: String)
        ensures
            key@ == canary_key(self.config.name@, id@),
    {
        let mut key = self.config.name.clone();
        key.append("-");
        key.append(id);
        key
    }

    fn missing(&self, id: &str) -> (e: Error)
        ensures
            e is NotFound,
            e.text() == "Canary not found: "@ + canary_key(self.config.name@, id@),
    {
        let mut s = "Canary not found: ".to_owned();
        s.append(self.key(id).as_str());
        Error::NotFound(s)
    }

    /// Keep the values of the canary's SLIs as the baselines of a deployment.
    fn record_baselines(&self, tracker: &mut LatencySLITracker, id: &str, values: &Vec<Reading>)
        requires
            values@.len() == old(tracker).valued(views(self.config.sli_names@)).len(),
        ensures
            final(tracker).configs == old(tracker).configs,
            final(tracker).samples == old(tracker).samples,
            final(tracker).baseline_map() == with_baselines(
                old(tracker).baseline_map(),
                old(tracker).valued(views(self.config.sli_names@)),
                id@,
                values@,
            ),
    {
        let names = &self.config.sli_names;
        let ghost all = views(names@);
        let ghost start = *tracker;
        let ghost valued = start.valued(all);
        let ghost f = |n: Seq<char>| start.has_value(n);
        let mut i: usize = 0;
        let mut done: usize = 0;
        proof {
            filter_none(all, f);
        }
        while i < names.len()
            invariant
                i <= names@.len(),
                all == views(names@),
                f == (|n: Seq<char>| start.has_value(n)),
                valued == all.filter(f),
                values@.len() == valued.len(),
                tracker.configs == start.configs,
                tracker.samples == start.samples,
                done <= valued.len(),
                all.take(i as int).filter(f) == valued.take(done as int),
                tracker.baseline_map() == with_baselines(
                    start.baseline_map(),
                    valued.take(done as int),
                    id@,
                    values@.take(done as int),
                ),
            decreases names@.len() - i,
        {
            let name = names[i].as_str();
            proof {
                filter_step(all, i as int, f);
            }
            if tracker.get_sli_value(name).is_some() {
                proof {
                    filter_is_prefix(all, i as int + 1, f);
                    assert(all.take(i as int + 1).filter(f) == valued.take(done as int).push(name@));
                    assert(valued.take(done as int + 1) =~= valued.take(done as int).push(name@));
                    assert(valued.take(done as int + 1).drop_last() =~= valued.take(done as int));
                    assert(values@.take(done as int + 1).drop_last() =~= values@.take(done as int));
                }
                tracker.set_baseline(name, id, values[done]);
                done = done + 1;
            }
            i = i + 1;
        }
        proof {
            assert(all.take(names@.len() as int) =~= all);
            assert(values@.take(done as int) =~= values@);
            assert(valued.take(done as int) =~= valued);
        }
    }

    /// Start a canary analysis for a deployment. `values` are the readings of the values that
    /// the tracker gives for the canary's SLIs, in order: they become the baselines of the
    /// deployment.
    pub fn start_canary(
        &mut self,
        tracker: &mut LatencySLITracker,
        deploy_marker: DeployMarker,
        values: &Vec<Reading>,
        now: i64,
    ) -> (r: CanaryResult)
        requires
            values@.len() == old(tracker).valued(views(old(self).config.sli_names@)).len(),
        ensures
            final(tracker).configs == old(tracker).configs,
            final(tracker).samples == old(tracker).samples,
            final(tracker).baseline_map() == with_baselines(
                old(tracker).baseline_map(),
                old(tracker).valued(views(old(self).config.sli_names@)),
                deploy_marker.id@,
                values@,
            ),
            final(self).config == old(self).config,
            final(self).is_active(deploy_marker.id@),
            is_started(final(self).state_of(deploy_marker.id@), deploy_marker, now),
            final(self).active@ == old(self).active@.insert(
                canary_key(old(self).config.name@, deploy_marker.id@),
                final(self).state_of(deploy_marker.id@),
            ),
            is_status(
                r,
                old(self).config.name@,
                deploy_marker.id@,
                final(self).state_of(deploy_marker.id@),
            ),
    {
        let id = deploy_marker.id.clone();
        self.record_baselines(tracker, id.as_str(), values);
        let key = self.key(id.as_str());
        let state = CanaryState {
            deploy_marker,
            phase: CanaryPhase::Running,
            started_at: now,
            sli_deltas: Vec::new(),
            sample_count: 0,
            error_count: 0,
        };
        self.active.insert(key, state);
        CanaryResult {
            canary_name: self.config.name.clone(),
            deploy_marker_id: id,
            phase: CanaryPhase::Running,
            started_at: now,
            completed_at: None,
            sli_deltas: Vec::new(),
            overall_assessment: CanaryAssessment::Healthy,
            regression_detected: false,
            error_count: 0,
            sample_count: 0,
            recommendation: CanaryRecommendation::ManualReview,
        }
    }

    /// What the deltas of an active canary are worked out from.
    pub fn canary_bases(&self, tracker: &LatencySLITracker, id: &str) -> (r: Result<Vec<DeltaBasis>, Error>)
        ensures
            r is Ok <==> self.is_active(id@),
            r matches Err(e) ==> e is NotFound && e.text() == "Canary not found: "@ + canary_key(
                self.config.name@,
                id@,
            ),
            r matches Ok(bases) ==> tracker.are_bases(
                bases@,
                views(self.config.sli_names@),
                self.state_of(id@).deploy_marker,
            ),
    {
        match self.active.get(self.key(id).as_str()) {
            Some(state) => Ok(tracker.bases(&self.config.sli_names, &state.deploy_marker)),
            None => Err(self.missing(id)),
        }
    }

    /// Analyze canary progress. `figures` are those of the bases that the tracker gives for
    /// the canary, in order. A canary that is over is no longer active afterwards.
    pub fn analyze_canary(
        &mut self,
        tracker: &LatencySLITracker,
        id: &str,
        figures: &Vec<DeltaFigures>,
        errors: &ErrorReadings,
        now: i64,
    ) -> (r: Result<(CanaryResult, Option<CanaryOutcome>), Error>)
        requires
            old(self).is_active(id@) ==> figures@.len() == old(self).measured(*tracker, id@).len(),
        ensures
            final(self).config == old(self).config,
            r is Ok <==> old(self).is_active(id@),
            r matches Err(e) ==> e is NotFound && e.text() == "Canary not found: "@ + canary_key(
                old(self).config.name@,
                id@,
            ) && final(self).active == old(self).active,
            r matches Ok(x) ==> {
                let key = canary_key(old(self).config.name@, id@);
                let was = old(self).state_of(id@);
                &&& old(self).are_deltas(x.0.sli_deltas@, *tracker, id@, figures@, now)
                &&& is_analysis(
                    x.0,
                    x.1,
                    old(self).config,
                    id@,
                    was,
                    x.0.sli_deltas@,
                    *errors,
                    now,
                )
                &&& x.0.phase.is_over() ==> final(self).active@ == old(self).active@.remove(key)
                &&& !x.0.phase.is_over() ==> {
                    let s = final(self).state_of(id@);
                    &&& final(self).active@ == old(self).active@.insert(key, s)
                    &&& s.phase == x.0.phase
                    &&& s.sli_deltas@ == x.0.sli_deltas@
                    &&& s.deploy_marker == was.deploy_marker
                    &&& s.started_at == was.started_at
                    &&& s.sample_count == was.sample_count
                    &&& s.error_count == was.error_count
                }
            },
    {
        let key = self.key(id);
        let bases = match self.canary_bases(tracker, id) {
            Ok(bases) => bases,
            Err(e) => {
                return Err(e);
            },
        };
        let ghost marker = self.state_of(id@).deploy_marker;
        let ghost names = self.measured(*tracker, id@);
        let mut bases = bases;
        let ghost all = bases@;
        let n: usize = bases.len();
        let mut deltas: Vec<SLIDelta> = Vec::new();
        let mut i: usize = 0;
        while i < n
            invariant
                i <= n == all.len(),
                n == names.len(),
                figures@.len() == n,
                bases@ == all.skip(i as int),
                deltas@.len() == i,
                forall|k: int| 0 <= k < n ==> tracker.is_basis(#[trigger] all[k], names[k], marker),
                forall|k: int|
                    0 <= k < i ==> tracker.is_delta(
                        #[trigger] deltas@[k],
                        names[k],
                        marker,
                        figures@[k],
                        self.config.regression_threshold,
                        now,
                    ),
            decreases n - i,
        {
            let b = bases.remove(0);
            proof {
                assert(b == all[i as int]);
                assert(all.skip(i as int).remove(0) =~= all.skip(i as int + 1));
            }
            let threshold = self.config.regression_threshold;
            let d = delta_over(b, &figures[i], &threshold, now);
            proof {
                assert(tracker.is_delta(d, names[i as int], marker, figures@[i as int], threshold, now));
            }
            deltas.push(d);
            i = i + 1;
        }
        let regression = any_regression(&deltas);
        let (assessment, recommendation) = assess(
            regression,
            &errors.error_rate,
            &self.config.error_rate_threshold,
            &errors.half_threshold,
        );
        let ghost before = self.active@;
        let state = match self.active.remove(key.as_str()) {
            Some(state) => state,
            None => {
                return Err(self.missing(id));
            },
        };
        let mut state = state;
        let elapsed: i128 = now as i128 - state.started_at as i128;
        let up = elapsed >= 0 && elapsed as u128 * 1000 >= self.config.duration.nanos;
        let phase = if state.phase.over() || !(up || state.phase == CanaryPhase::Analyzing) {
            state.phase
        } else if regression && self.config.auto_rollback {
            CanaryPhase::RolledBack
        } else if !regression && self.config.auto_promote && state.sample_count >= self.config.min_samples {
            CanaryPhase::Promoted
        } else {
            CanaryPhase::Analyzing
        };
        let completed_at: Option<i64> = match phase {
            CanaryPhase::Running | CanaryPhase::Analyzing => None,
            _ => Some(now),
        };
        let result = CanaryResult {
            canary_name: self.config.name.clone(),
            deploy_marker_id: id.to_owned(),
            phase,
            started_at: state.started_at,
            completed_at,
            sli_deltas: copy_deltas(&deltas),
            overall_assessment: assessment,
            regression_detected: regression,
            error_count: state.error_count,
            sample_count: state.sample_count,
            recommendation,
        };
        if phase.over() {
            let seconds: i128 = if elapsed >= 0 {
                elapsed / 1_000_000
            } else {
                -((-elapsed) / 1_000_000)
            };
            let outcome = match phase {
                CanaryPhase::Promoted => "promoted",
                CanaryPhase::RolledBack => "rolled_back",
                _ => "failed",
            };
            proof {
                assert(self.active@ =~= before.remove(key@));
            }
            Ok((result, Some(CanaryOutcome { duration_seconds: seconds, outcome, regression_detected: regression })))
        } else {
            state.phase = phase;
            state.sli_deltas = deltas;
            let ghost kept = state;
            self.active.insert(key, state);
            proof {
                assert(self.active@ =~= before.insert(key@, kept));
            }
            Ok((result, None))
        }
    }

    /// Record a sample for the canary, if it is active.
    pub fn record_sample(&mut self, id: &str, is_error: bool)
        requires
            old(self).is_active(id@) ==> old(self).state_of(id@).sample_count < u64::MAX,
            old(self).is_active(id@) && is_error ==> old(self).state_of(id@).error_count < u64::MAX,
        ensures
            final(self).config == old(self).config,
            final(self).active@ == if old(self).is_active(id@) {
                let s = old(self).state_of(id@);
                old(self).active@.insert(
                    canary_key(old(self).config.name@, id@),
                    CanaryState {
                        sample_count: (s.sample_count + 1) as u64,
                        error_count: if is_error {
                            (s.error_count + 1) as u64
                        } else {
                            s.error_count
                        },
                        ..s
                    },
                )
            } else {
                old(self).active@
            },
    {
        let key = self.key(id);
        let ghost before = self.active@;
        match self.active.remove(key.as_str()) {
            Some(state) => {
                let mut state = state;
                state.sample_count = state.sample_count + 1;
                if is_error {
                    state.error_count = state.error_count + 1;
                }
                let ghost kept = state;
                self.active.insert(key, state);
                proof {
                    assert(self.active@ =~= before.insert(key@, kept));
                }
            },
            None => {
                proof {
                    assert(self.active@ =~= before);
                }
            },
        }
    }

    fn status(&self, id: &str, state: &CanaryState) -> (r: CanaryResult)
        ensures
            is_status(r, self.config.name@, id@, *state),
    {
        CanaryResult {
            canary_name: self.config.name.clone(),
            deploy_marker_id: id.to_owned(),
            phase: state.phase,
            started_at: state.started_at,
            completed_at: None,
            sli_deltas: copy_deltas(&state.sli_deltas),
            overall_assessment: CanaryAssessment::Healthy,
            regression_detected: any_regression(&state.sli_deltas),
            error_count: state.error_count,
            sample_count: state.sample_count,
            recommendation: CanaryRecommendation::ManualReview,
        }
    }

    /// Get canary status.
    pub fn get_canary_status(&self, id: &str) -> (r: Option<CanaryResult>)
        ensures
            r is Some <==> self.is_active(id@),
            r matches Some(x) ==> is_status(x, self.config.name@, id@, self.state_of(id@)),
    {
        match self.active.get(self.key(id).as_str()) {
            Some(state) => Some(self.status(id, state)),
            None => None,
        }
    }

    /// Moves an active canary to a phase.
    fn force(&mut self, id: &str, phase: CanaryPhase)
        ensures
            final(self).config == old(self).config,
            final(self).active@ == if old(self).is_active(id@) {
                old(self).active@.insert(
                    canary_key(old(self).config.name@, id@),
                    CanaryState { phase, ..old(self).state_of(id@) },
                )
            } else {
                old(self).active@
            },
    {
        let key = self.key(id);
        let ghost before = self.active@;
        match self.active.remove(key.as_str()) {
            Some(state) => {
                let mut state = state;
                state.phase = phase;
                let ghost kept = state;
                self.active.insert(key, state);
                proof {
                    assert(self.active@ =~= before.insert(key@, kept));
                }
            },
            None => {
                proof {
                    assert(self.active@ =~= before);
                }
            },
        }
    }

    /// Force promote a canary: it is analyzed as one that has been promoted.
    pub fn promote_canary(
        &mut self,
        tracker: &LatencySLITracker,
        id: &str,
        figures: &Vec<DeltaFigures>,
        errors: &ErrorReadings,
        now: i64,
    ) -> (r: Result<(CanaryResult, Option<CanaryOutcome>), Error>)
        requires
            old(self).is_active(id@) ==> figures@.len() == old(self).measured(*tracker, id@).len(),
        ensures
            old(self).forced(*final(self), r, CanaryPhase::Promoted, *tracker, id@, figures@, *errors, now),
    {
        self.force(id, CanaryPhase::Promoted);
        let r = self.analyze_canary(tracker, id, figures, errors, now);
        proof {
            let key = canary_key(old(self).config.name@, id@);
            if r is Ok {
                assert(self.active@ =~= old(self).active@.remove(key));
            }
        }
        r
    }

    /// Force rollback a canary: it is analyzed as one that has been rolled back.
    pub fn rollback_canary(
        &mut self,
        tracker: &LatencySLITracker,
        id: &str,
        figures: &Vec<DeltaFigures>,
        errors: &ErrorReadings,
        now: i64,
    ) -> (r: Result<(CanaryResult, Option<CanaryOutcome>), Error>)
        requires
            old(self).is_active(id@) ==> figures@.len() == old(self).measured(*tracker, id@).len(),
        ensures
            old(self).forced(*final(self), r, CanaryPhase::RolledBack, *tracker, id@, figures@, *errors, now),
    {
        self.force(id, CanaryPhase::RolledBack);
        let r = self.analyze_canary(tracker, id, figures, errors, now);
        proof {
            let key = canary_key(old(self).config.name@, id@);
            if r is Ok {
                assert(self.active@ =~= old(self).active@.remove(key));
            }
        }
        r
    }

    /// What moving a canary to a final phase does: an active canary is analyzed in that
    /// phase and is then no longer active.
    pub open spec fn forced(
        self,
        after: Self,
        r: Result<(CanaryResult, Option<CanaryOutcome>), Error>,
        phase: CanaryPhase,
        tracker: LatencySLITracker,
        id: Seq<char>,
        figures: Seq<DeltaFigures>,
        errors: ErrorReadings,
        now: i64,
    ) -> bool {
        let key = canary_key(self.config.name@, id);
        &&& after.config == self.config
        &&& r is Ok <==> self.is_active(id)
        &&& r matches Err(e) ==> e is NotFound && e.text() == "Canary not found: "@ + key && after.active@ == self.active@
        &&& r matches Ok(x) ==> {
            &&& self.are_deltas(x.0.sli_deltas@, tracker, id, figures, now)
            &&& is_analysis(
                x.0,
                x.1,
                self.config,
                id,
                (CanaryState { phase, ..self.state_of(id) }),
                x.0.sli_deltas@,
                errors,
                now,
            )
            &&& x.0.phase == phase
            &&& after.active@ == self.active@.remove(key)
        }
    }

    /// List active canaries, in key order.
    pub fn list_active_canaries(&self) -> (out: Vec<CanaryResult>)
        ensures
            out@.len() == self.active.pairs().len(),
            forall|i: int|
                0 <= i < out@.len() ==> is_status(
                    #[trigger] out@[i],
                    self.config.name@,
                    self.active.pairs()[i].1.deploy_marker.id@,
                    self.active.pairs()[i].1,
                ),
    {
        let n: usize = self.active.len();
        let mut out: Vec<CanaryResult> = Vec::new();
        let mut i: usize = 0;
        while i < n
            invariant
                i <= n == self.active.pairs().len(),
                out@.len() == i,
                forall|k: int|
                    0 <= k < i ==> is_status(
                        #[trigger] out@[k],
                        self.config.name@,
                        self.active.pairs()[k].1.deploy_marker.id@,
                        self.active.pairs()[k].1,
                    ),
            decreases n - i,
        {
            let state = self.active.value_at(i);
            out.push(self.status(state.deploy_marker.id.as_str(), state));
            i = i + 1;
        }
        out
    }
}

/// A canary with a regression is never promoted by its analysis, and is always recommended
/// for rollback.
pub proof fn regressions_are_not_promoted(
    r: CanaryResult,
    outcome: Option<CanaryOutcome>,
    config: CanaryConfig,
    id: Seq<char>,
    s: CanaryState,
    deltas: Seq<SLIDelta>,
    errors: ErrorReadings,
    now: i64,
)
    requires
        is_analysis(r, outcome, config, id, s, deltas, errors, now),
        regressed(deltas),
        !(s.phase is Promoted),
    ensures
        !(r.phase is Promoted),
        r.overall_assessment == CanaryAssessment::Critical,
        r.recommendation == CanaryRecommendation::Rollback,
{
}

/// A running canary whose time is not up keeps running. Once its time is up, a regression
/// rolls it back where that is automatic; and it is promoted exactly where there is no
/// regression, promotion is automatic and it has had the samples it needs.
pub proof fn canaries_run_their_time(
    r: CanaryResult,
    outcome: Option<CanaryOutcome>,
    config: CanaryConfig,
    id: Seq<char>,
    s: CanaryState,
    deltas: Seq<SLIDelta>,
    errors: ErrorReadings,
    now: i64,
)
    requires
        is_analysis(r, outcome, config, id, s, deltas, errors, now),
        s.phase is Running,
    ensures
        !time_is_up(s.started_at, config.duration, now) ==> r.phase is Running && outcome is None
            && r.completed_at is None,
        time_is_up(s.started_at, config.duration, now) ==> {
            &&& r.phase is RolledBack <==> regressed(deltas) && config.auto_rollback
            &&& r.phase is Promoted <==> !regressed(deltas) && config.auto_promote && s.sample_count
                >= config.min_samples
            &&& !r.phase.is_over() ==> r.phase is Analyzing && outcome is None
        },
{
}

/// Whatever the deltas, an error rate above the threshold is critical and calls for a rollback.
/// Without a regression, one above half the threshold only is a degradation and calls for more
/// time, and one that is not above the half is healthy and may be promoted.
pub proof fn error_rates_are_weighed(
    r: CanaryResult,
    outcome: Option<CanaryOutcome>,
    config: CanaryConfig,
    id: Seq<char>,
    s: CanaryState,
    deltas: Seq<SLIDelta>,
    errors: ErrorReadings,
    now: i64,
)
    requires
        is_analysis(r, outcome, config, id, s, deltas, errors, now),
    ensures
        config.error_rate_threshold.less(errors.error_rate) ==> r.overall_assessment is Critical
            && r.recommendation is Rollback,
        (exists|i: int| 0 <= i < deltas.len() && (#[trigger] deltas[i]).is_regression) ==> r.overall_assessment is Critical
            && r.recommendation is Rollback && r.regression_detected,
        (forall|i: int| 0 <= i < deltas.len() ==> !(#[trigger] deltas[i]).is_regression) ==> {
            &&& !r.regression_detected
            &&& !config.error_rate_threshold.less(errors.error_rate) && errors.half_threshold.less(errors.error_rate)
                ==> r.overall_assessment is Degraded && r.recommendation is Extend
            &&& !config.error_rate_threshold.less(errors.error_rate) && !errors.half_threshold.less(errors.error_rate)
                ==> r.overall_assessment is Healthy && r.recommendation is Promote
        },
{
}

/// How grave an assessment is.
pub open spec fn gravity(a: CanaryAssessment) -> int {
    match a {
        CanaryAssessment::Healthy => 0,
        CanaryAssessment::Degraded => 1,
        CanaryAssessment::Critical => 2,
    }
}

/// A larger error rate never gives a milder assessment, and neither does a regression.
pub proof fn worse_canaries_are_not_milder(
    regression: bool,
    worse_regression: bool,
    rate: Reading,
    worse_rate: Reading,
    threshold: Reading,
    half_threshold: Reading,
)
    requires
        regression ==> worse_regression,
        rate.less(worse_rate),
    ensures
        gravity(assessment_of(regression, rate, threshold, half_threshold)) <= gravity(
            assessment_of(worse_regression, worse_rate, threshold, half_threshold),
        ),
        recommendation_of(assessment_of(worse_regression, worse_rate, threshold, half_threshold)) is Promote
            ==> recommendation_of(assessment_of(regression, rate, threshold, half_threshold)) is Promote,
{
}

/// The time of a canary is up once its duration has passed, that moment taken in, and stays up; a
/// verdict that was reached is not changed by a later analysis.
pub proof fn time_only_runs_out(started_at: i64, duration: Duration, now: i64, later: i64)
    requires
        now <= later,
    ensures
        time_is_up(started_at, duration, now) ==> time_is_up(started_at, duration, later),
        (now - started_at) * 1000 == duration.nanos ==> time_is_up(started_at, duration, now),
        (now - started_at) * 1000 < duration.nanos ==> !time_is_up(started_at, duration, now),
{
}

/// A canary that is over stays as it is. One whose time is up, or that is being analysed, is rolled
/// back on a regression and promoted without one, each only where that is to happen by itself, and
/// the promotion only with enough samples; else it is analysed on. Any other runs on.
pub proof fn verdicts_are_reached_in_time(
    s: CanaryState,
    config: CanaryConfig,
    up: bool,
    regression: bool,
)
    ensures
        s.phase is Promoted || s.phase is RolledBack || s.phase is Failed ==> phase_after(s, config, up, regression)
            == s.phase,
        !up && !(s.phase is Analyzing) ==> phase_after(s, config, up, regression) == s.phase,
        (up && (s.phase is Running || s.phase is NotStarted)) || s.phase is Analyzing ==> {
            &&& regression && config.auto_rollback ==> phase_after(s, config, up, regression) is RolledBack
            &&& regression && !config.auto_rollback ==> phase_after(s, config, up, regression) is Analyzing
            &&& !regression && config.auto_promote && s.sample_count >= config.min_samples ==> phase_after(
                s,
                config,
                up,
                regression,
            ) is Promoted
            &&& !regression && !config.auto_promote ==> phase_after(s, config, up, regression) is Analyzing
            &&& !regression && s.sample_count < config.min_samples ==> phase_after(s, config, up, regression)
                is Analyzing
        },
{
}

/// What is over is completed now and has an outcome, which names the verdict and how many whole
/// seconds the canary ran.
pub proof fn verdicts_are_recorded(
    r: CanaryResult,
    outcome: Option<CanaryOutcome>,
    config: CanaryConfig,
    id: Seq<char>,
    s: CanaryState,
    deltas: Seq<SLIDelta>,
    errors: ErrorReadings,
    now: i64,
)
    requires
        is_analysis(r, outcome, config, id, s, deltas, errors, now),
    ensures
        r.phase is Promoted ==> r.completed_at == Some(now) && outcome is Some && (outcome->0).outcome@ == "promoted"@,
        r.phase is RolledBack ==> r.completed_at == Some(now) && outcome is Some && (outcome->0).outcome@
            == "rolled_back"@,
        r.phase is Failed ==> r.completed_at == Some(now) && outcome is Some && (outcome->0).outcome@ == "failed"@,
        r.phase is Running || r.phase is Analyzing ==> r.completed_at is None && outcome is None,
        outcome is Some && s.started_at <= now ==> (outcome->0).duration_seconds * 1_000_000 <= now - s.started_at
            && now - s.started_at < ((outcome->0).duration_seconds + 1) * 1_000_000,
        outcome is Some ==> ((outcome->0).regression_detected <==> r.regression_detected),
        r.started_at == s.started_at && r.sample_count == s.sample_count && r.error_count == s.error_count,
        r.deploy_marker_id@ == id && r.canary_name@ == config.name@,
{
}

/// A canary starts running now, without samples or errors, and is reported as it stands.
pub proof fn canaries_start_empty(
    r: CanaryResult,
    name: Seq<char>,
    id: Seq<char>,
    s: CanaryState,
    marker: DeployMarker,
    now: i64,
)
    requires
        is_started(s, marker, now),
        is_status(r, name, id, s),
    ensures
        r.phase is Running && r.started_at == now && r.completed_at is None,
        r.sample_count == 0 && r.error_count == 0 && r.sli_deltas@.len() == 0,
        !r.regression_detected,
        r.overall_assessment is Healthy && r.recommendation is ManualReview,
        r.canary_name@ == name && r.deploy_marker_id@ == id,
{
}

/// A canary that is promoted or rolled back by hand ends so, whatever its readings, and is active no
/// more; one that is not active is not found, and nothing changes.
pub proof fn canaries_end_by_hand(
    before: CanaryAnalyzer,
    after: CanaryAnalyzer,
    r: Result<(CanaryResult, Option<CanaryOutcome>), Error>,
    phase: CanaryPhase,
    tracker: LatencySLITracker,
    id: Seq<char>,
    figures: Seq<DeltaFigures>,
    errors: ErrorReadings,
    now: i64,
)
    requires
        before.forced(after, r, phase, tracker, id, figures, errors, now),
        phase is Promoted || phase is RolledBack,
    ensures
        r is Ok <==> before.active@.contains_key(before.config.name@ + "-"@ + id),
        r is Ok ==> {
            let x = r->Ok_0;
            &&& (x.0).phase == phase
            &&& (x.0).completed_at == Some(now)
            &&& x.1 is Some
            &&& phase is Promoted ==> (x.1->0).outcome@ == "promoted"@
            &&& phase is RolledBack ==> (x.1->0).outcome@ == "rolled_back"@
        },
        r is Ok ==> !after.active@.contains_key(before.config.name@ + "-"@ + id),
        r is Err ==> after.active@ == before.active@,
        after.config == before.config,
        forall|k: Seq<char>|
            k != before.config.name@ + "-"@ + id ==> (#[trigger] after.active@.contains_key(k)
                <==> before.active@.contains_key(k)),
{
}

} // verus!
