//! Cross-signal anomaly detection for deployments.
//!
//! Joins deployment events to traffic metrics on a shared time axis: the metrics in a window
//! before a deployment are compared with those in a window behind it. The statistics of the
//! windows are worked out by the caller.

use vstd::prelude::*;
#[allow(unused_imports)]
use vstd::string::*;
#[allow(unused_imports)]
use crate::bounded::{last_n, BoundedLog};
use crate::reading::Reading;
#[allow(unused_imports)]
use crate::seqs::{filter_none, filter_step};
#[allow(unused_imports)]
use crate::strmap::StrMap;
#[allow(unused_imports)]
use crate::text::same;

verus! {

/// A deployment event from the deployment pipeline.
#[derive(Debug)]
pub struct DeploymentEvent {
    pub id: String,
    pub service: String,
    pub version: String,
    /// In microseconds since the epoch.
    pub timestamp: i64,
    pub environment: String,
    pub deployer: String,
}

/// Traffic metrics snapshot for a service at a point in time.
#[derive(Debug)]
pub struct TrafficMetrics {
    pub service: String,
    /// In microseconds since the epoch.
    pub timestamp: i64,
    pub requests_per_second: Reading,
    pub error_rate: Reading,
    pub p50_latency_ms: Reading,
    pub p95_latency_ms: Reading,
    pub p99_latency_ms: Reading,
}

impl Clone for TrafficMetrics {
    fn clone(&self) -> (r: Self)
        ensures
            r == *self,
    {
        TrafficMetrics {
            service: self.service.clone(),
            timestamp: self.timestamp,
            requests_per_second: self.requests_per_second,
            error_rate: self.error_rate,
            p50_latency_ms: self.p50_latency_ms,
            p95_latency_ms: self.p95_latency_ms,
            p99_latency_ms: self.p99_latency_ms,
        }
    }
}

/// Configuration for cross-signal anomaly detection.
#[derive(Debug, Clone, Copy)]
pub struct CrossSignalConfig {
    /// Pre-deploy baseline window (seconds).
    pub pre_window_seconds: u64,
    /// Post-deploy observation window (seconds).
    pub post_window_seconds: u64,
    /// Minimum baseline samples required.
    pub min_baseline_samples: usize,
    /// Significance threshold for change-point detection (p-value).
    pub significance_threshold: Reading,
    /// Enable cumulative sum change detection.
    pub enable_cusum: bool,
    /// Smoothing factor for the adaptive baseline.
    pub ewma_alpha: Reading,
}

impl Default for CrossSignalConfig {
    fn default() -> (c: Self)
        ensures
            c.pre_window_seconds == 0,
            c.post_window_seconds == 0,
            c.min_baseline_samples == 0,
            c.significance_threshold.bits == 0,
            !c.enable_cusum,
            c.ewma_alpha.bits == 0,
    {
        CrossSignalConfig {
            pre_window_seconds: 0,
            post_window_seconds: 0,
            min_baseline_samples: 0,
            significance_threshold: Reading::zero(),
            enable_cusum: false,
            ewma_alpha: Reading::zero(),
        }
    }
}

/// The configuration where none of its fields is given: five minutes before and ten after a
/// deployment, thirty samples, a threshold of 0.01 and a smoothing factor of 0.25.
pub fn unset_config() -> (c: CrossSignalConfig)
    ensures
        c.pre_window_seconds == 300,
        c.post_window_seconds == 600,
        c.min_baseline_samples == 30,
        c.significance_threshold.bits == 0x3F84_7AE1_47AE_147B,
        c.enable_cusum,
        c.ewma_alpha.bits == 0x3FD0_0000_0000_0000,
{
    CrossSignalConfig {
        pre_window_seconds: 300,
        post_window_seconds: 600,
        min_baseline_samples: 30,
        significance_threshold: Reading { bits: 0x3F84_7AE1_47AE_147B },
        enable_cusum: true,
        ewma_alpha: Reading { bits: 0x3FD0_0000_0000_0000 },
    }
}

/// Change detected in a single signal.
#[derive(Debug, Clone, Copy)]
pub struct SignalChange {
    pub baseline_mean: Reading,
    pub post_mean: Reading,
    pub relative_change_pct: Reading,
    pub p_value: Reading,
    pub significant: bool,
}

/// The change with these figures; it is significant where the p-value is below the default
/// threshold of 0.01.
pub fn signal_change(
    baseline_mean: Reading,
    post_mean: Reading,
    relative_change_pct: Reading,
    p_value: Reading,
) -> (c: SignalChange)
    ensures
        c.baseline_mean == baseline_mean,
        c.post_mean == post_mean,
        c.relative_change_pct == relative_change_pct,
        c.p_value == p_value,
        c.significant == p_value.less(Reading { bits: 0x3F84_7AE1_47AE_147B }),
{
    let significant = p_value.lt(&Reading { bits: 0x3F84_7AE1_47AE_147B });
    SignalChange { baseline_mean, post_mean, relative_change_pct, p_value, significant }
}

/// Individual signal analysis results.
#[derive(Debug, Clone, Copy)]
pub struct SignalAnalysis {
    pub error_rate_change: SignalChange,
    pub latency_p50_change: SignalChange,
    pub latency_p95_change: SignalChange,
    pub throughput_change: SignalChange,
}

/// Basic statistics for a metric.
#[derive(Debug, Clone, Copy)]
pub struct MetricStats {
    pub mean: Reading,
    pub std_dev: Reading,
    pub min: Reading,
    pub max: Reading,
}

/// The statistics of each signal over a window.
#[derive(Debug, Clone, Copy)]
pub struct SignalStats {
    pub error_rate: MetricStats,
    pub latency_p50: MetricStats,
    pub latency_p95: MetricStats,
    pub throughput: MetricStats,
}

/// Baseline statistics for a service.
#[derive(Debug, Clone, Copy)]
pub struct BaselineStats {
    pub sample_count: usize,
    pub error_rate: MetricStats,
    pub latency_p50: MetricStats,
    pub latency_p95: MetricStats,
    pub throughput: MetricStats,
}

/// Post-deploy statistics.
#[derive(Debug, Clone, Copy)]
pub struct PostDeployStats {
    pub sample_count: usize,
    pub error_rate: MetricStats,
    pub latency_p50: MetricStats,
    pub latency_p95: MetricStats,
    pub throughput: MetricStats,
}

/// Result of cross-signal analysis for a deployment.
#[derive(Debug)]
pub struct CrossSignalAnalysis {
    pub deployment_id: String,
    pub service: String,
    /// In microseconds since the epoch.
    pub analyzed_at: i64,
    /// From zero to one.
    pub confidence_score: Reading,
    pub anomaly_detected: bool,
    pub signals: SignalAnalysis,
    pub baseline: BaselineStats,
    pub post_deploy: PostDeployStats,
}

impl Clone for CrossSignalAnalysis {
    fn clone(&self) -> (r: Self)
        ensures
            r == *self,
    {
        CrossSignalAnalysis {
            deployment_id: self.deployment_id.clone(),
            service: self.service.clone(),
            analyzed_at: self.analyzed_at,
            confidence_score: self.confidence_score,
            anomaly_detected: self.anomaly_detected,
            signals: self.signals,
            baseline: self.baseline,
            post_deploy: self.post_deploy,
        }
    }
}

/// The changes held against a threshold: those are significant whose p-value is below it.
pub open spec fn judged(s: SignalAnalysis, threshold: Reading) -> SignalAnalysis {
    let one = |c: SignalChange| SignalChange { significant: c.p_value.less(threshold), ..c };
    SignalAnalysis {
        error_rate_change: one(s.error_rate_change),
        latency_p50_change: one(s.latency_p50_change),
        latency_p95_change: one(s.latency_p95_change),
        throughput_change: one(s.throughput_change),
    }
}

/// Holds the changes against a threshold.
pub fn judge(s: &SignalAnalysis, threshold: &Reading) -> (r: SignalAnalysis)
    ensures
        r == judged(*s, *threshold),
{
    let mut r = *s;
    r.error_rate_change.significant = r.error_rate_change.p_value.lt(threshold);
    r.latency_p50_change.significant = r.latency_p50_change.p_value.lt(threshold);
    r.latency_p95_change.significant = r.latency_p95_change.p_value.lt(threshold);
    r.throughput_change.significant = r.throughput_change.p_value.lt(threshold);
    r
}

/// How many of the four signals changed significantly.
pub open spec fn significant_count(s: SignalAnalysis) -> int {
    (if s.error_rate_change.significant { 1int } else { 0int }) + (if s.latency_p50_change.significant { 1int } else { 0int })
        + (if s.latency_p95_change.significant { 1int } else { 0int }) + (if s.throughput_change.significant {
        1int
    } else {
        0int
    })
}

/// A quarter of `k`, which is at most four.
pub open spec fn quarters(k: int) -> Reading {
    if k <= 0 {
        Reading { bits: 0 }
    } else if k == 1 {
        Reading { bits: 0x3FD0_0000_0000_0000 }
    } else if k == 2 {
        Reading { bits: 0x3FE0_0000_0000_0000 }
    } else if k == 3 {
        Reading { bits: 0x3FE8_0000_0000_0000 }
    } else {
        Reading { bits: 0x3FF0_0000_0000_0000 }
    }
}

/// The metrics before a deployment and those from it on.
#[derive(Debug)]
pub struct Windows {
    pub service: String,
    pub before: Vec<TrafficMetrics>,
    pub after: Vec<TrafficMetrics>,
}

/// The metric lies in the window before the deployment.
pub open spec fn is_before(config: CrossSignalConfig, deployed: i64) -> spec_fn(TrafficMetrics) -> bool {
    |m: TrafficMetrics| deployed - config.pre_window_seconds * 1_000_000 <= m.timestamp < deployed
}

/// The metric lies in the window from the deployment on.
pub open spec fn is_after(config: CrossSignalConfig, deployed: i64) -> spec_fn(TrafficMetrics) -> bool {
    |m: TrafficMetrics| deployed <= m.timestamp <= deployed + config.post_window_seconds * 1_000_000
}

/// The first event with this ID.
pub open spec fn first_event(events: Seq<DeploymentEvent>, id: Seq<char>) -> Option<DeploymentEvent>
    decreases events.len(),
{
    if events.len() == 0 {
        None
    } else {
        match first_event(events.drop_last(), id) {
            Some(e) => Some(e),
            None => if events.last().id@ == id {
                Some(events.last())
            } else {
                None
            },
        }
    }
}

/// How many metrics are kept for each service: a day's at one every ten seconds.
pub const MAX_METRICS: usize = 8640;

/// Cross-signal anomaly detector.
pub struct CrossSignalDetector {
    pub config: CrossSignalConfig,
    /// Deployment events, oldest first.
    pub deployment_events: BoundedLog<DeploymentEvent>,
    /// Traffic metrics per service, oldest first.
    pub traffic_metrics: StrMap<BoundedLog<TrafficMetrics>>,
    /// Analyses by deployment.
    pub analyses: StrMap<CrossSignalAnalysis>,
}

impl CrossSignalDetector {
    /// Every log has room for its largest number of entries.
    pub open spec fn valid(self) -> bool {
        &&& self.deployment_events.capacity() == 1000
        &&& forall|k: Seq<char>| #[trigger]
            self.traffic_metrics@.contains_key(k) ==> self.traffic_metrics@[k].capacity() == MAX_METRICS
    }

    /// The metrics that are kept for a service.
    pub open spec fn metrics_of(self, service: Seq<char>) -> Seq<TrafficMetrics> {
        if self.traffic_metrics@.contains_key(service) {
            self.traffic_metrics@[service]@
        } else {
            Seq::empty()
        }
    }

    /// The metrics of the deployed service in the window before the deployment.
    pub open spec fn samples_before(self, id: Seq<char>) -> Seq<TrafficMetrics> {
        let e = first_event(self.deployment_events@, id)->0;
        self.metrics_of(e.service@).filter(is_before(self.config, e.timestamp))
    }

    /// The metrics of the deployed service in the window from the deployment on.
    pub open spec fn samples_after(self, id: Seq<char>) -> Seq<TrafficMetrics> {
        let e = first_event(self.deployment_events@, id)->0;
        self.metrics_of(e.service@).filter(is_after(self.config, e.timestamp))
    }

    /// The deployment is known, its service has metrics, and there are enough of them in both
    /// windows.
    pub open spec fn analyzable(self, id: Seq<char>) -> bool {
        match first_event(self.deployment_events@, id) {
            Some(e) => {
                &&& self.traffic_metrics@.contains_key(e.service@)
                &&& self.samples_before(id).len() >= self.config.min_baseline_samples
                &&& self.samples_after(id).len() > 0
            },
            None => false,
        }
    }

    /// A detector that has seen nothing.
    pub fn new(config: CrossSignalConfig) -> (d: Self)
        ensures
            d.valid(),
            d.config == config,
            d.deployment_events@ == Seq::<DeploymentEvent>::empty(),
            d.traffic_metrics@ == Map::<Seq<char>, BoundedLog<TrafficMetrics>>::empty(),
            d.analyses@ == Map::<Seq<char>, CrossSignalAnalysis>::empty(),
    {
        CrossSignalDetector {
            config,
            deployment_events: BoundedLog::new(1000),
            traffic_metrics: StrMap::new(),
            analyses: StrMap::new(),
        }
    }

    /// Record a deployment event; the last thousand are kept.
    pub fn record_deployment(&mut self, event: DeploymentEvent)
        requires
            old(self).valid(),
        ensures
            final(self).valid(),
            final(self).deployment_events@ == last_n(old(self).deployment_events@.push(event), 1000),
            final(self).config == old(self).config,
            final(self).traffic_metrics == old(self).traffic_metrics,
            final(self).analyses == old(self).analyses,
    {
        self.deployment_events.push(event);
    }

    /// Record traffic metrics for a service; the last day's are kept.
    pub fn record_traffic_metrics(&mut self, metrics: TrafficMetrics)
        requires
            old(self).valid(),
        ensures
            final(self).valid(),
            final(self).config == old(self).config,
            final(self).deployment_events == old(self).deployment_events,
            final(self).analyses == old(self).analyses,
            final(self).traffic_metrics@.dom() == old(self).traffic_metrics@.dom().insert(metrics.service@),
            final(self).metrics_of(metrics.service@) == last_n(
                old(self).metrics_of(metrics.service@).push(metrics),
                MAX_METRICS as int,
            ),
            forall|k: Seq<char>|
                k != metrics.service@ ==> #[trigger] final(self).metrics_of(k) == old(self).metrics_of(k),
    {
        let service = metrics.service.clone();
        let ghost before = self.traffic_metrics@;
        let known = self.traffic_metrics.remove(service.as_str());
        let mut log = match known {
            Some(log) => log,
            None => BoundedLog::new(MAX_METRICS),
        };
        proof {
            assert(log@ =~= old(self).metrics_of(service@));
        }
        log.push(metrics);
        self.traffic_metrics.insert(service, log);
        proof {
            assert(self.traffic_metrics@.dom() =~= before.dom().insert(service@));
            assert forall|k: Seq<char>| #[trigger] self.traffic_metrics@.contains_key(k) implies self.traffic_metrics@[k].capacity()
                == MAX_METRICS by {
                assert(k != service@ ==> before.contains_key(k));
            }
        }
    }

    /// The metrics in the windows around a deployment; `None` where it is not known, where its
    /// service has no metrics, or where there are too few of them.
    pub fn windows(&self, deployment_id: &str) -> (r: Option<Windows>)
        ensures
            r is Some <==> self.analyzable(deployment_id@),
            r matches Some(w) ==> {
                &&& w.service@ == (first_event(self.deployment_events@, deployment_id@)->0).service@
                &&& w.before@ == self.samples_before(deployment_id@)
                &&& w.after@ == self.samples_after(deployment_id@)
            },
    {
        let n: usize = self.deployment_events.len();
        let ghost events = self.deployment_events@;
        let mut i: usize = 0;
        while i < n
            invariant
                i <= n == events.len(),
                events == self.deployment_events@,
                first_event(events.take(i as int), deployment_id@) is None,
            decreases n - i,
        {
            let e = self.deployment_events.at(i);
            proof {
                assert(events.take(i as int + 1).drop_last() =~= events.take(i as int));
            }
            if same(e.id.as_str(), deployment_id) {
                proof {
                    first_event_stays(events, deployment_id@, i as int + 1);
                }
                return self.windows_at(e);
            }
            i = i + 1;
        }
        proof {
            assert(events.take(n as int) =~= events);
        }
        None
    }

    /// The metrics in the windows around a deployment.
    fn windows_at(&self, e: &DeploymentEvent) -> (r: Option<Windows>)
        ensures
            ({
                let s = self.metrics_of(e.service@);
                let before = s.filter(is_before(self.config, e.timestamp));
                let after = s.filter(is_after(self.config, e.timestamp));
                &&& r is Some <==> self.traffic_metrics@.contains_key(e.service@) && before.len()
                    >= self.config.min_baseline_samples && after.len() > 0
                &&& r matches Some(w) ==> w.service@ == e.service@ && w.before@ == before && w.after@ == after
            }),
    {
        let log = match self.traffic_metrics.get(e.service.as_str()) {
            Some(log) => log,
            None => {
                return None;
            },
        };
        let deployed: i128 = e.timestamp as i128;
        let start: i128 = deployed - self.config.pre_window_seconds as i128 * 1_000_000;
        let end: i128 = deployed + self.config.post_window_seconds as i128 * 1_000_000;
        let ghost s = log@;
        let ghost f = is_before(self.config, e.timestamp);
        let ghost g = is_after(self.config, e.timestamp);
        let n: usize = log.len();
        let mut before: Vec<TrafficMetrics> = Vec::new();
        let mut after: Vec<TrafficMetrics> = Vec::new();
        let mut i: usize = 0;
        proof {
            filter_none(s, f);
            filter_none(s, g);
        }
        while i < n
            invariant
                i <= n == s.len(),
                s == log@,
                f == is_before(self.config, e.timestamp),
                g == is_after(self.config, e.timestamp),
                deployed == e.timestamp,
                start == deployed - self.config.pre_window_seconds * 1_000_000,
                end == deployed + self.config.post_window_seconds * 1_000_000,
                before@ == s.take(i as int).filter(f),
                after@ == s.take(i as int).filter(g),
            decreases n - i,
        {
            proof {
                filter_step(s, i as int, f);
                filter_step(s, i as int, g);
            }
            let m = log.at(i);
            let t: i128 = m.timestamp as i128;
            if t >= start && t < deployed {
                before.push(m.clone());
            }
            if t >= deployed && t <= end {
                after.push(m.clone());
            }
            i = i + 1;
        }
        proof {
            assert(s.take(n as int) =~= s);
        }
        if before.len() < self.config.min_baseline_samples || after.len() == 0 {
            None
        } else {
            Some(Windows { service: e.service.clone(), before, after })
        }
    }

    /// Records the analysis of a deployment from the statistics of its windows: any signal
    /// that changed significantly is an anomaly, and the confidence is the share of those that
    /// did. `None` where the deployment cannot be analyzed.
    pub fn analyze_deployment(
        &mut self,
        deployment_id: &str,
        signals: SignalAnalysis,
        before: SignalStats,
        after: SignalStats,
        now: i64,
    ) -> (r: Option<CrossSignalAnalysis>)
        requires
            old(self).valid(),
        ensures
            final(self).valid(),
            final(self).config == old(self).config,
            final(self).deployment_events == old(self).deployment_events,
            final(self).traffic_metrics == old(self).traffic_metrics,
            r is Some <==> old(self).analyzable(deployment_id@),
            r is None ==> final(self).analyses == old(self).analyses,
            r matches Some(a) ==> {
                &&& a.deployment_id@ == deployment_id@
                &&& a.service@ == (first_event(old(self).deployment_events@, deployment_id@)->0).service@
                &&& a.analyzed_at == now
                &&& a.signals == judged(signals, old(self).config.significance_threshold)
                &&& a.confidence_score == quarters(significant_count(a.signals))
                &&& a.anomaly_detected == (significant_count(a.signals) > 0)
                &&& a.baseline == (BaselineStats {
                    sample_count: old(self).samples_before(deployment_id@).len() as usize,
                    error_rate: before.error_rate,
                    latency_p50: before.latency_p50,
                    latency_p95: before.latency_p95,
                    throughput: before.throughput,
                })
                &&& a.post_deploy == (PostDeployStats {
                    sample_count: old(self).samples_after(deployment_id@).len() as usize,
                    error_rate: after.error_rate,
                    latency_p50: after.latency_p50,
                    latency_p95: after.latency_p95,
                    throughput: after.throughput,
                })
                &&& final(self).analyses@ == old(self).analyses@.insert(deployment_id@, a)
            },
    {
        let w = match self.windows(deployment_id) {
            Some(w) => w,
            None => {
                return None;
            },
        };
        let signals = judge(&signals, &self.config.significance_threshold);
        let mut k: u32 = 0;
        if signals.error_rate_change.significant {
            k = k + 1;
        }
        if signals.latency_p50_change.significant {
            k = k + 1;
        }
        if signals.latency_p95_change.significant {
            k = k + 1;
        }
        if signals.throughput_change.significant {
            k = k + 1;
        }
        let confidence_score = if k == 0 {
            Reading { bits: 0 }
        } else if k == 1 {
            Reading { bits: 0x3FD0_0000_0000_0000 }
        } else if k == 2 {
            Reading { bits: 0x3FE0_0000_0000_0000 }
        } else if k == 3 {
            Reading { bits: 0x3FE8_0000_0000_0000 }
        } else {
            Reading { bits: 0x3FF0_0000_0000_0000 }
        };
        let analysis = CrossSignalAnalysis {
            deployment_id: deployment_id.to_owned(),
            service: w.service,
            analyzed_at: now,
            confidence_score,
            anomaly_detected: k > 0,
            signals,
            baseline: BaselineStats {
                sample_count: w.before.len(),
                error_rate: before.error_rate,
                latency_p50: before.latency_p50,
                latency_p95: before.latency_p95,
                throughput: before.throughput,
            },
            post_deploy: PostDeployStats {
                sample_count: w.after.len(),
                error_rate: after.error_rate,
                latency_p50: after.latency_p50,
                latency_p95: after.latency_p95,
                throughput: after.throughput,
            },
        };
        let copy = analysis.clone();
        self.analyses.insert(deployment_id.to_owned(), analysis);
        Some(copy)
    }

    /// Get recent analyses, in deployment order; those of one service where one is named.
    pub fn get_analyses(&self, service: Option<&str>) -> (out: Vec<CrossSignalAnalysis>)
        ensures
            out@ == values_of(self.analyses.pairs()).filter(wanted(service)),
    {
        let n: usize = self.analyses.len();
        let ghost all = values_of(self.analyses.pairs());
        let ghost f = wanted(service);
        let mut out: Vec<CrossSignalAnalysis> = Vec::new();
        let mut i: usize = 0;
        proof {
            filter_none(all, f);
        }
        while i < n
            invariant
                i <= n == self.analyses.pairs().len(),
                all == values_of(self.analyses.pairs()),
                f == wanted(service),
                out@ == all.take(i as int).filter(f),
            decreases n - i,
        {
            proof {
                filter_step(all, i as int, f);
            }
            let a = self.analyses.value_at(i);
            let take = match service {
                Some(s) => same(a.service.as_str(), s),
                None => true,
            };
            if take {
                out.push(a.clone());
            }
            i = i + 1;
        }
        proof {
            assert(all.take(n as int) =~= all);
        }
        out
    }
}

/// The values of the entries.
pub open spec fn values_of(pairs: Seq<(String, CrossSignalAnalysis)>) -> Seq<CrossSignalAnalysis> {
    pairs.map_values(|p: (String, CrossSignalAnalysis)| p.1)
}

/// The analysis is of the service, where one is named.
pub open spec fn wanted(service: Option<&str>) -> spec_fn(CrossSignalAnalysis) -> bool {
    |a: CrossSignalAnalysis| match service {
        Some(s) => a.service@ == s@,
        None => true,
    }
}

/// Later events do not change which is the first.
proof fn first_event_stays(events: Seq<DeploymentEvent>, id: Seq<char>, k: int)
    requires
        0 <= k <= events.len(),
        first_event(events.take(k), id) is Some,
    ensures
        first_event(events, id) == first_event(events.take(k), id),
    decreases events.len(),
{
    if k == events.len() {
        assert(events.take(k) =~= events);
    } else {
        assert(events.drop_last().take(k) =~= events.take(k));
        first_event_stays(events.drop_last(), id, k);
    }
}

/// No metric lies in both windows of a deployment.
pub proof fn windows_are_disjoint(config: CrossSignalConfig, deployed: i64, m: TrafficMetrics)
    ensures
        !(is_before(config, deployed)(m) && is_after(config, deployed)(m)),
{
}

/// A change is significant exactly where its p-value is below the threshold, signal by signal, and
/// judging changes nothing else.
pub proof fn signals_are_judged_by_the_threshold(s: SignalAnalysis, threshold: Reading)
    ensures
        judged(s, threshold).error_rate_change.significant <==> s.error_rate_change.p_value.less(threshold),
        judged(s, threshold).latency_p50_change.significant <==> s.latency_p50_change.p_value.less(threshold),
        judged(s, threshold).latency_p95_change.significant <==> s.latency_p95_change.p_value.less(threshold),
        judged(s, threshold).throughput_change.significant <==> s.throughput_change.p_value.less(threshold),
        judged(s, threshold).error_rate_change.p_value == s.error_rate_change.p_value,
        judged(s, threshold).throughput_change.post_mean == s.throughput_change.post_mean,
        judged(judged(s, threshold), threshold) == judged(s, threshold),
{
}

/// Each of the four signals that changed counts alike, and the confidence grows with their number
/// from nothing to one.
pub proof fn more_signals_mean_more_confidence(s: SignalAnalysis, more: SignalAnalysis)
    requires
        s.error_rate_change.significant ==> more.error_rate_change.significant,
        s.latency_p50_change.significant ==> more.latency_p50_change.significant,
        s.latency_p95_change.significant ==> more.latency_p95_change.significant,
        s.throughput_change.significant ==> more.throughput_change.significant,
    ensures
        significant_count(s) <= significant_count(more) <= 4,
        0 <= significant_count(s),
        significant_count(s) == 0 <==> !s.error_rate_change.significant && !s.latency_p50_change.significant
            && !s.latency_p95_change.significant && !s.throughput_change.significant,
        significant_count(more) == 4 <==> more.error_rate_change.significant && more.latency_p50_change.significant
            && more.latency_p95_change.significant && more.throughput_change.significant,
        quarters(significant_count(s)).at_most(quarters(significant_count(more))),
        quarters(0).bits == 0,
        quarters(4).bits == 0x3FF0_0000_0000_0000,
        significant_count(s) < significant_count(more) ==> quarters(significant_count(s)).less(
            quarters(significant_count(more)),
        ),
{
}

/// The window before a deployment ends with it, and the one after it starts with it; each is as
/// long as it is configured to be.
pub proof fn windows_meet_at_the_deployment(config: CrossSignalConfig, deployed: i64, m: TrafficMetrics)
    ensures
        m.timestamp == deployed ==> is_after(config, deployed)(m) && !is_before(config, deployed)(m),
        m.timestamp < deployed ==> !is_after(config, deployed)(m) && (is_before(config, deployed)(m) <==> deployed
            - m.timestamp <= config.pre_window_seconds * 1_000_000),
        m.timestamp > deployed ==> !is_before(config, deployed)(m) && (is_after(config, deployed)(m) <==> m.timestamp
            - deployed <= config.post_window_seconds * 1_000_000),
{
}

/// A deployment is found by its identifier, the earliest one where several have it.
pub proof fn the_earliest_deployment_counts(events: Seq<DeploymentEvent>, id: Seq<char>, i: int)
    ensures
        0 <= i < events.len() && events[i].id@ == id && (forall|j: int|
            0 <= j < i ==> (#[trigger] events[j]).id@ != id) ==> first_event(events, id) == Some(events[i]),
        (forall|j: int| 0 <= j < events.len() ==> (#[trigger] events[j]).id@ != id) ==> first_event(events, id) is None,
    decreases events.len(),
{
    if events.len() > 0 {
        let front = events.drop_last();
        the_earliest_deployment_counts(front, id, i);
        if 0 <= i < events.len() && events[i].id@ == id && forall|j: int|
            0 <= j < i ==> (#[trigger] events[j]).id@ != id {
            assert forall|j: int| 0 <= j < i && j < front.len() implies (#[trigger] front[j]).id@ != id by {
                assert(front[j] == events[j]);
            }
            if i < front.len() {
                assert(front[i] == events[i]);
            }
        }
        if forall|j: int| 0 <= j < events.len() ==> (#[trigger] events[j]).id@ != id {
            assert(events[events.len() - 1].id@ != id);
            assert forall|j: int| 0 <= j < front.len() implies (#[trigger] front[j]).id@ != id by {
                assert(front[j] == events[j]);
            }
        }
    }
}

/// A deployment can be analysed exactly where it and its service's traffic are known, with enough
/// samples before it and at least one after it.
pub proof fn analyses_need_samples(d: CrossSignalDetector, id: Seq<char>)
    ensures
        first_event(d.deployment_events@, id) is None ==> !d.analyzable(id),
        first_event(d.deployment_events@, id) matches Some(e) ==> {
            let all = if d.traffic_metrics@.contains_key(e.service@) {
                d.traffic_metrics@[e.service@]@
            } else {
                Seq::empty()
            };
            d.analyzable(id) <==> d.traffic_metrics@.contains_key(e.service@) && all.filter(
                |m: TrafficMetrics|
                    e.timestamp - d.config.pre_window_seconds * 1_000_000 <= m.timestamp && m.timestamp < e.timestamp,
            ).len() >= d.config.min_baseline_samples && all.filter(
                |m: TrafficMetrics|
                    e.timestamp <= m.timestamp && m.timestamp <= e.timestamp + d.config.post_window_seconds * 1_000_000,
            ).len() >= 1
        },
{
    if first_event(d.deployment_events@, id) is Some {
        let e = first_event(d.deployment_events@, id)->0;
        let f = |m: TrafficMetrics|
            e.timestamp - d.config.pre_window_seconds * 1_000_000 <= m.timestamp && m.timestamp < e.timestamp;
        let g = |m: TrafficMetrics|
            e.timestamp <= m.timestamp && m.timestamp <= e.timestamp + d.config.post_window_seconds * 1_000_000;
        assert(f =~= is_before(d.config, e.timestamp));
        assert(g =~= is_after(d.config, e.timestamp));
    }
}

/// Analyses are asked for by service, or all of them.
pub proof fn analyses_are_asked_for_by_service(service: Option<&str>, a: CrossSignalAnalysis)
    ensures
        service is None ==> wanted(service)(a),
        service matches Some(s) ==> (wanted(service)(a) <==> a.service@ == s@),
{
}

} // verus!
