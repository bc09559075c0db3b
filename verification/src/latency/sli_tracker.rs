//! Service level indicators of latency, and how a deployment moved them.

use vstd::prelude::*;
#[allow(unused_imports)]
use vstd::string::*;
#[allow(unused_imports)]
use crate::bounded::{last_n, BoundedLog};
use crate::error::Error;
#[allow(unused_imports)]
use crate::latency::deploy_marker::{bare_marker, is_bare_marker, DeployMarker};
#[allow(unused_imports)]
use crate::reading::{the_sign_turns_the_order, Reading};
#[allow(unused_imports)]
use crate::seqs::{filter_holds, filter_none, filter_step};
use crate::span::Duration;
#[allow(unused_imports)]
use crate::strmap::{keys_of, texts, StrMap};
#[allow(unused_imports)]
use crate::text::views;

verus! {

/// SLI evaluation window.
#[derive(Debug, Clone, Copy, PartialEq, Eq, Structural)]
pub enum SLIWindow {
    /// Last 5 minutes.
    FiveMinutes,
    /// Last 15 minutes.
    FifteenMinutes,
    /// Last hour.
    OneHour,
    /// Last 6 hours.
    SixHours,
    /// Last 24 hours.
    TwentyFourHours,
    /// Last 7 days.
    SevenDays,
    /// Last 30 days.
    ThirtyDays,
    /// Custom window in seconds.
    Custom(u64),
}

impl SLIWindow {
    /// The seconds in the window.
    pub open spec fn seconds(self) -> int {
        match self {
            SLIWindow::FiveMinutes => 300,
            SLIWindow::FifteenMinutes => 900,
            SLIWindow::OneHour => 3600,
            SLIWindow::SixHours => 21_600,
            SLIWindow::TwentyFourHours => 86_400,
            SLIWindow::SevenDays => 604_800,
            SLIWindow::ThirtyDays => 2_592_000,
            SLIWindow::Custom(secs) => secs as int,
        }
    }

    /// How long the window is.
    pub fn duration(&self) -> (d: Duration)
        ensures
            d.nanos == self.seconds() * 1_000_000_000,
    {
        match self {
            SLIWindow::FiveMinutes => Duration::from_secs(5 * 60),
            SLIWindow::FifteenMinutes => Duration::from_secs(15 * 60),
            SLIWindow::OneHour => Duration::from_secs(60 * 60),
            SLIWindow::SixHours => Duration::from_secs(6 * 60 * 60),
            SLIWindow::TwentyFourHours => Duration::from_secs(24 * 60 * 60),
            SLIWindow::SevenDays => Duration::from_secs(7 * 24 * 60 * 60),
            SLIWindow::ThirtyDays => Duration::from_secs(30 * 24 * 60 * 60),
            SLIWindow::Custom(secs) => Duration::from_secs(*secs),
        }
    }
}

/// SLI configuration.
#[derive(Debug)]
pub struct SLIConfig {
    /// SLI name.
    pub name: String,
    /// Service this SLI applies to.
    pub service: String,
    /// Latency threshold in milliseconds.
    pub threshold_ms: Reading,
    /// Target percentage (e.g., 99.9 for 99.9% under threshold).
    pub target_percentage: Reading,
    /// Evaluation window.
    pub window: SLIWindow,
    /// Labels for metric grouping.
    pub labels: StrMap<String>,
}

/// The two configurations say the same.
pub open spec fn same_config(a: SLIConfig, b: SLIConfig) -> bool {
    &&& a.name@ == b.name@
    &&& a.service@ == b.service@
    &&& a.threshold_ms == b.threshold_ms
    &&& a.target_percentage == b.target_percentage
    &&& a.window == b.window
    &&& texts(a.labels@) == texts(b.labels@)
}

impl Clone for SLIConfig {
    fn clone(&self) -> (r: Self)
        ensures
            same_config(r, *self),
    {
        SLIConfig {
            name: self.name.clone(),
            service: self.service.clone(),
            threshold_ms: self.threshold_ms,
            target_percentage: self.target_percentage,
            window: self.window,
            labels: self.labels.copy(),
        }
    }
}

/// SLI delta calculation result.
#[derive(Debug)]
pub struct SLIDelta {
    pub sli_name: String,
    pub service: String,
    pub deploy_marker_id: String,
    pub pre_deploy_value: Reading,
    pub post_deploy_value: Reading,
    pub delta: Reading,
    pub delta_percentage: Reading,
    pub is_regression: bool,
    pub regression_threshold: Reading,
    /// In microseconds since the epoch.
    pub calculated_at: i64,
    pub window: SLIWindow,
}

impl Clone for SLIDelta {
    fn clone(&self) -> (r: Self)
        ensures
            r == *self,
    {
        SLIDelta {
            sli_name: self.sli_name.clone(),
            service: self.service.clone(),
            deploy_marker_id: self.deploy_marker_id.clone(),
            pre_deploy_value: self.pre_deploy_value,
            post_deploy_value: self.post_deploy_value,
            delta: self.delta,
            delta_percentage: self.delta_percentage,
            is_regression: self.is_regression,
            regression_threshold: self.regression_threshold,
            calculated_at: self.calculated_at,
            window: self.window,
        }
    }
}

/// Labels of SLI metrics.
#[derive(Debug, Clone, Hash, PartialEq, Eq)]
pub struct SLILabels {
    pub sli_name: String,
    pub service: String,
}

/// Labels of SLI delta metrics.
#[derive(Debug, Clone, Hash, PartialEq, Eq)]
pub struct SLIDeltaLabels {
    pub sli_name: String,
    pub service: String,
    pub deploy_id: String,
}

/// Latency sample for SLI calculation.
#[derive(Debug)]
pub struct LatencySample {
    /// In microseconds since the epoch.
    pub timestamp: i64,
    pub latency_ms: Reading,
    pub labels: StrMap<String>,
}

/// The value of an SLI in percent: its target where there is no sample, or the share of
/// the samples that keep the threshold.
#[derive(Debug, Clone, Copy, PartialEq, Eq)]
pub enum SLIValue {
    Target(Reading),
    Share { under: usize, total: usize },
}

/// What a delta is worked out from.
#[derive(Debug)]
pub struct DeltaBasis {
    pub sli_name: String,
    pub service: String,
    pub deploy_marker_id: String,
    /// How many samples keep the threshold.
    pub under: usize,
    /// How many samples there are.
    pub total: usize,
    /// The value before the deployment.
    pub baseline: Reading,
    pub window: SLIWindow,
}

/// The figures that follow from a basis.
#[derive(Debug, Clone, Copy)]
pub struct DeltaFigures {
    /// The share of the samples that keep the threshold, in percent.
    pub current_value: Reading,
    /// The current value less the baseline.
    pub delta: Reading,
    /// The delta in percent of the baseline; zero where the baseline is zero.
    pub delta_percentage: Reading,
}

/// The samples from the first one on that is not older than `cutoff`.
pub open spec fn fresh_from(s: Seq<LatencySample>, cutoff: int) -> Seq<LatencySample>
    decreases s.len(),
{
    if s.len() > 0 && s[0].timestamp < cutoff {
        fresh_from(s.skip(1), cutoff)
    } else {
        s
    }
}

/// How many samples keep the threshold.
pub open spec fn under_threshold(s: Seq<LatencySample>, threshold: Reading) -> nat {
    s.filter(|x: LatencySample| x.latency_ms.at_most(threshold)).len()
}

/// The value that the samples give.
pub open spec fn value_of(s: Seq<LatencySample>, config: SLIConfig) -> SLIValue {
    if s.len() == 0 {
        SLIValue::Target(config.target_percentage)
    } else {
        SLIValue::Share { under: under_threshold(s, config.threshold_ms) as usize, total: s.len() as usize }
    }
}

/// Counts the samples that keep the threshold.
fn count_under(samples: &BoundedLog<LatencySample>, threshold: &Reading) -> (n: usize)
    ensures
        n == under_threshold(samples@, *threshold),
        n <= samples@.len(),
{
    let len: usize = samples.len();
    let ghost s = samples@;
    let ghost f = |x: LatencySample| x.latency_ms.at_most(*threshold);
    let mut n: usize = 0;
    let mut i: usize = 0;
    proof {
        filter_none(s, f);
    }
    while i < len
        invariant
            i <= len == s.len(),
            s == samples@,
            f == (|x: LatencySample| x.latency_ms.at_most(*threshold)),
            n == s.take(i as int).filter(f).len(),
            n <= i,
        decreases len - i,
    {
        proof {
            filter_step(s, i as int, f);
        }
        if samples.at(i).latency_ms.le(threshold) {
            n = n + 1;
        }
        i = i + 1;
    }
    proof {
        assert(s.take(len as int) =~= s);
    }
    n
}

/// A new sample that is not older than `cutoff` does not change which others are too old.
proof fn fresh_push(s: Seq<LatencySample>, x: LatencySample, cutoff: int)
    requires
        x.timestamp >= cutoff,
    ensures
        fresh_from(s.push(x), cutoff) == fresh_from(s, cutoff).push(x),
    decreases s.len(),
{
    if s.len() > 0 && s[0].timestamp < cutoff {
        assert(s.push(x).skip(1) =~= s.skip(1).push(x));
        fresh_push(s.skip(1), x, cutoff);
    }
}

/// The largest number of samples kept for one SLI.
pub const MAX_SAMPLES: usize = 100000;

/// SLI tracker for latency budgets.
pub struct LatencySLITracker {
    pub configs: StrMap<SLIConfig>,
    /// Latency samples per SLI.
    pub samples: StrMap<BoundedLog<LatencySample>>,
    /// Baseline values per SLI and deploy marker.
    pub baselines: StrMap<StrMap<Reading>>,
}

/// The samples that are kept for an SLI.
pub open spec fn samples_of(m: Map<Seq<char>, BoundedLog<LatencySample>>, name: Seq<char>) -> Seq<LatencySample> {
    if m.contains_key(name) {
        m[name]@
    } else {
        Seq::empty()
    }
}

/// The baseline of an SLI for a deploy marker: the one that was set, or else the marker's
/// own.
pub open spec fn baseline_of(
    set: Map<Seq<char>, StrMap<Reading>>,
    name: Seq<char>,
    marker: DeployMarker,
) -> Option<Reading> {
    if set.contains_key(name) && set[name]@.contains_key(marker.id@) {
        Some(set[name]@[marker.id@])
    } else if marker.pre_deploy_baselines@.contains_key(name) {
        Some(marker.pre_deploy_baselines@[name])
    } else {
        None
    }
}

/// The text of the error about an SLI that is not registered.
pub open spec fn no_such_sli(name: Seq<char>) -> Seq<char> {
    "SLI not found: "@ + name
}

/// The baselines with one more: `value`, for this SLI and deploy marker.
pub open spec fn with_baseline(
    m: Map<Seq<char>, Map<Seq<char>, Reading>>,
    sli: Seq<char>,
    deploy_id: Seq<char>,
    value: Reading,
) -> Map<Seq<char>, Map<Seq<char>, Reading>> {
    let own = if m.contains_key(sli) {
        m[sli]
    } else {
        Map::empty()
    };
    m.insert(sli, own.insert(deploy_id, value))
}

/// The baselines with one more for each of these SLIs, in order.
pub open spec fn with_baselines(
    m: Map<Seq<char>, Map<Seq<char>, Reading>>,
    slis: Seq<Seq<char>>,
    deploy_id: Seq<char>,
    values: Seq<Reading>,
) -> Map<Seq<char>, Map<Seq<char>, Reading>>
    decreases slis.len(),
{
    if slis.len() == 0 {
        m
    } else {
        with_baseline(
            with_baselines(m, slis.drop_last(), deploy_id, values.drop_last()),
            slis.last(),
            deploy_id,
            values.last(),
        )
    }
}

fn not_found(name: &str) -> (e: Error)
    ensures
        e is NotFound,
        e.text() == no_such_sli(name@),
{
    let mut s = "SLI not found: ".to_owned();
    s.append(name);
    Error::NotFound(s)
}

/// The delta with this basis and these figures: a drop of more than `threshold` percentage
/// points is a regression.
pub fn delta_over(b: DeltaBasis, figures: &DeltaFigures, threshold: &Reading, now: i64) -> (d: SLIDelta)
    ensures
        d.sli_name == b.sli_name,
        d.service == b.service,
        d.deploy_marker_id == b.deploy_marker_id,
        d.pre_deploy_value == b.baseline,
        d.post_deploy_value == figures.current_value,
        d.delta == figures.delta,
        d.delta_percentage == figures.delta_percentage,
        d.is_regression == figures.delta.less(threshold.minus()),
        d.regression_threshold == *threshold,
        d.calculated_at == now,
        d.window == b.window,
{
    SLIDelta {
        sli_name: b.sli_name,
        service: b.service,
        deploy_marker_id: b.deploy_marker_id,
        pre_deploy_value: b.baseline,
        post_deploy_value: figures.current_value,
        delta: figures.delta,
        delta_percentage: figures.delta_percentage,
        is_regression: figures.delta.lt(&threshold.negated()),
        regression_threshold: *threshold,
        calculated_at: now,
        window: b.window,
    }
}

/// The delta with this basis and these figures: a drop of more than one percentage point is
/// a regression.
pub fn finish_delta(b: DeltaBasis, figures: &DeltaFigures, now: i64) -> (d: SLIDelta)
    ensures
        d.sli_name == b.sli_name,
        d.service == b.service,
        d.deploy_marker_id == b.deploy_marker_id,
        d.pre_deploy_value == b.baseline,
        d.post_deploy_value == figures.current_value,
        d.delta == figures.delta,
        d.delta_percentage == figures.delta_percentage,
        d.is_regression == figures.delta.less(one().minus()),
        d.regression_threshold == one(),
        d.calculated_at == now,
        d.window == b.window,
{
    delta_over(b, figures, &Reading { bits: 0x3FF0_0000_0000_0000 }, now)
}

impl LatencySLITracker {
    /// Every log has room for the largest number of samples.
    pub open spec fn valid(self) -> bool {
        forall|k: Seq<char>| #[trigger] self.samples@.contains_key(k) ==> self.samples@[k].capacity() == MAX_SAMPLES
    }

    /// There is a delta to be worked out: the SLI has samples and a baseline.
    pub open spec fn comparable(self, name: Seq<char>, marker: DeployMarker) -> bool {
        samples_of(self.samples@, name).len() > 0 && baseline_of(self.baselines@, name, marker) is Some
    }

    /// `b` is what the delta of a registered SLI is worked out from.
    pub open spec fn is_basis(self, b: DeltaBasis, name: Seq<char>, marker: DeployMarker) -> bool {
        let s = samples_of(self.samples@, name);
        &&& b.sli_name@ == name
        &&& b.service@ == self.configs@[name].service@
        &&& b.deploy_marker_id@ == marker.id@
        &&& b.under == under_threshold(s, self.configs@[name].threshold_ms)
        &&& b.total == s.len()
        &&& Some(b.baseline) == baseline_of(self.baselines@, name, marker)
        &&& b.window == self.configs@[name].window
    }

    /// `d` is the delta of a registered SLI with these figures, held against a threshold.
    pub open spec fn is_delta(
        self,
        d: SLIDelta,
        name: Seq<char>,
        marker: DeployMarker,
        figures: DeltaFigures,
        threshold: Reading,
        now: i64,
    ) -> bool {
        &&& d.sli_name@ == name
        &&& d.service@ == self.configs@[name].service@
        &&& d.deploy_marker_id@ == marker.id@
        &&& Some(d.pre_deploy_value) == baseline_of(self.baselines@, name, marker)
        &&& d.post_deploy_value == figures.current_value
        &&& d.delta == figures.delta
        &&& d.delta_percentage == figures.delta_percentage
        &&& d.is_regression == figures.delta.less(threshold.minus())
        &&& d.regression_threshold == threshold
        &&& d.calculated_at == now
        &&& d.window == self.configs@[name].window
    }

    /// Those of the SLIs that are registered and have samples and a baseline.
    pub open spec fn measured(self, names: Seq<Seq<char>>, marker: DeployMarker) -> Seq<Seq<char>> {
        names.filter(|n: Seq<char>| self.configs@.contains_key(n) && self.comparable(n, marker))
    }

    /// The bases are those of the measured SLIs, in order.
    pub open spec fn are_bases(self, out: Seq<DeltaBasis>, names: Seq<Seq<char>>, marker: DeployMarker) -> bool {
        let measured = self.measured(names, marker);
        &&& out.len() == measured.len()
        &&& forall|k: int| 0 <= k < out.len() ==> self.is_basis(#[trigger] out[k], measured[k], marker)
    }

    /// The SLI is registered and a sample was recorded for it at some time.
    pub open spec fn has_value(self, name: Seq<char>) -> bool {
        self.configs@.contains_key(name) && self.samples@.contains_key(name)
    }

    /// Those of the SLIs that have a value.
    pub open spec fn valued(self, names: Seq<Seq<char>>) -> Seq<Seq<char>> {
        names.filter(|n: Seq<char>| self.has_value(n))
    }

    /// The values are those of the SLIs that have one, in order.
    pub open spec fn are_values(self, out: Seq<SLIValue>, names: Seq<Seq<char>>) -> bool {
        let valued = self.valued(names);
        &&& out.len() == valued.len()
        &&& forall|k: int|
            0 <= k < out.len() ==> #[trigger] out[k] == value_of(
                samples_of(self.samples@, valued[k]),
                self.configs@[valued[k]],
            )
    }

    /// The baselines of each SLI, by deploy marker.
    pub open spec fn baseline_map(self) -> Map<Seq<char>, Map<Seq<char>, Reading>> {
        self.baselines@.map_values(|m: StrMap<Reading>| m@)
    }

    /// Create a new SLI tracker.
    pub fn new() -> (t: Self)
        ensures
            t.valid(),
            t.configs@ == Map::<Seq<char>, SLIConfig>::empty(),
            t.samples@ == Map::<Seq<char>, BoundedLog<LatencySample>>::empty(),
            t.baselines@ == Map::<Seq<char>, StrMap<Reading>>::empty(),
    {
        LatencySLITracker { configs: StrMap::new(), samples: StrMap::new(), baselines: StrMap::new() }
    }

    /// Register an SLI configuration under its name.
    pub fn register_sli(&mut self, config: SLIConfig)
        ensures
            final(self).configs@ == old(self).configs@.insert(config.name@, config),
            final(self).samples == old(self).samples,
            final(self).baselines == old(self).baselines,
    {
        self.configs.insert(config.name.clone(), config);
    }

    /// Record a latency sample. Samples that have left the window are dropped, and then the
    /// oldest until at most a hundred thousand are left.
    pub fn record_latency(
        &mut self,
        sli_name: &str,
        latency_ms: Reading,
        labels: StrMap<String>,
        now: i64,
    ) -> (r: Result<(), Error>)
        requires
            old(self).valid(),
        ensures
            final(self).valid(),
            final(self).configs == old(self).configs,
            final(self).baselines == old(self).baselines,
            r is Ok <==> old(self).configs@.contains_key(sli_name@),
            r matches Err(e) ==> e is NotFound && e.text() == no_such_sli(sli_name@) && final(self).samples == old(
                self,
            ).samples,
            r is Ok ==> {
                let cutoff = now - old(self).configs@[sli_name@].window.seconds() * 1_000_000;
                let sample = LatencySample { timestamp: now, latency_ms, labels };
                let grown = samples_of(old(self).samples@, sli_name@).push(sample);
                &&& final(self).samples@.dom() == old(self).samples@.dom().insert(sli_name@)
                &&& samples_of(final(self).samples@, sli_name@) == last_n(
                    fresh_from(grown, cutoff),
                    MAX_SAMPLES as int,
                )
                &&& forall|k: Seq<char>| k != sli_name@ ==> samples_of(#[trigger] final(self).samples@, k)
                    == samples_of(old(self).samples@, k)
            },
    {
        let seconds: i128 = match self.configs.get(sli_name) {
            Some(config) => {
                let d = config.window.duration();
                (d.nanos / 1_000_000_000) as i128
            },
            None => {
                return Err(not_found(sli_name));
            },
        };
        let cutoff: i128 = now as i128 - seconds * 1_000_000;
        let sample = LatencySample { timestamp: now, latency_ms, labels };
        let ghost before = self.samples@;
        let ghost s = samples_of(before, sli_name@);
        let ghost new = sample;
        let known = self.samples.remove(sli_name);
        let mut log = match known {
            Some(log) => log,
            None => BoundedLog::new(MAX_SAMPLES),
        };
        proof {
            assert(log@ =~= s);
        }
        while log.len() > 0 && (log.at(0).timestamp as i128) < cutoff
            invariant
                fresh_from(log@, cutoff as int) == fresh_from(s, cutoff as int),
                log.capacity() == MAX_SAMPLES,
            decreases log@.len(),
        {
            log.drop_oldest();
        }
        log.push(sample);
        proof {
            fresh_push(s, new, cutoff as int);
        }
        self.samples.insert(sli_name.to_owned(), log);
        proof {
            assert(self.samples@.dom() =~= before.dom().insert(sli_name@));
            assert forall|k: Seq<char>| #[trigger] self.samples@.contains_key(k) implies self.samples@[k].capacity()
                == MAX_SAMPLES by {
                assert(k != sli_name@ ==> before.contains_key(k));
            }
        }
        Ok(())
    }

    /// The value of an SLI for its gauge: the target where there are no samples.
    pub fn recalculate_sli(&self, sli_name: &str) -> (r: Result<SLIValue, Error>)
        ensures
            r is Ok <==> self.configs@.contains_key(sli_name@),
            r matches Err(e) ==> e is NotFound && e.text() == no_such_sli(sli_name@),
            r matches Ok(v) ==> v == value_of(samples_of(self.samples@, sli_name@), self.configs@[sli_name@]),
    {
        match self.configs.get(sli_name) {
            Some(config) => match self.samples.get(sli_name) {
                Some(samples) => {
                    let total: usize = samples.len();
                    if total == 0 {
                        Ok(SLIValue::Target(config.target_percentage))
                    } else {
                        Ok(SLIValue::Share { under: count_under(samples, &config.threshold_ms), total })
                    }
                },
                None => Ok(SLIValue::Target(config.target_percentage)),
            },
            None => Err(not_found(sli_name)),
        }
    }

    /// Set pre-deploy baseline for an SLI.
    pub fn set_baseline(&mut self, sli_name: &str, deploy_id: &str, value: Reading)
        ensures
            final(self).configs == old(self).configs,
            final(self).samples == old(self).samples,
            final(self).baseline_map() == with_baseline(old(self).baseline_map(), sli_name@, deploy_id@, value),
    {
        let ghost before = self.baselines@;
        let known = self.baselines.remove(sli_name);
        let mut own = match known {
            Some(m) => m,
            None => StrMap::new(),
        };
        own.insert(deploy_id.to_owned(), value);
        self.baselines.insert(sli_name.to_owned(), own);
        proof {
            assert(self.baseline_map() =~= with_baseline(old(self).baseline_map(), sli_name@, deploy_id@, value));
        }
    }

    /// What the delta of an SLI from its pre-deploy baseline is worked out from; `None`
    /// where there are no samples or there is no baseline.
    pub fn delta_basis(&self, sli_name: &str, marker: &DeployMarker) -> (r: Result<Option<DeltaBasis>, Error>)
        ensures
            r is Ok <==> self.configs@.contains_key(sli_name@),
            r matches Err(e) ==> e is NotFound && e.text() == no_such_sli(sli_name@),
            r matches Ok(o) ==> (o is Some <==> self.comparable(sli_name@, *marker)),
            r matches Ok(Some(b)) ==> self.is_basis(b, sli_name@, *marker),
    {
        let config = match self.configs.get(sli_name) {
            Some(config) => config,
            None => {
                return Err(not_found(sli_name));
            },
        };
        let samples = match self.samples.get(sli_name) {
            Some(samples) => samples,
            None => {
                return Ok(None);
            },
        };
        let total: usize = samples.len();
        if total == 0 {
            return Ok(None);
        }
        let under: usize = count_under(samples, &config.threshold_ms);
        let set: Option<Reading> = match self.baselines.get(sli_name) {
            Some(b) => match b.get(marker.id.as_str()) {
                Some(x) => Some(*x),
                None => None,
            },
            None => None,
        };
        let baseline: Option<Reading> = match set {
            Some(x) => Some(x),
            None => match marker.pre_deploy_baselines.get(sli_name) {
                Some(x) => Some(*x),
                None => None,
            },
        };
        match baseline {
            Some(baseline) => Ok(
                Some(
                    DeltaBasis {
                        sli_name: sli_name.to_owned(),
                        service: config.service.clone(),
                        deploy_marker_id: marker.id.clone(),
                        under,
                        total,
                        baseline,
                        window: config.window,
                    },
                ),
            ),
            None => Ok(None),
        }
    }

    /// Calculate SLI delta from pre-deploy baseline, with the figures that follow from its
    /// basis: a drop of more than one percentage point is a regression. There is a delta
    /// just where there is a basis.
    pub fn calculate_delta(
        &self,
        sli_name: &str,
        marker: &DeployMarker,
        figures: &DeltaFigures,
        now: i64,
    ) -> (r: Result<Option<SLIDelta>, Error>)
        ensures
            r is Ok <==> self.configs@.contains_key(sli_name@),
            r matches Err(e) ==> e is NotFound && e.text() == no_such_sli(sli_name@),
            r matches Ok(o) ==> (o is Some <==> self.comparable(sli_name@, *marker)),
            r matches Ok(Some(d)) ==> self.is_delta(d, sli_name@, *marker, *figures, one(), now),
    {
        match self.delta_basis(sli_name, marker) {
            Err(e) => Err(e),
            Ok(None) => Ok(None),
            Ok(Some(b)) => Ok(Some(finish_delta(b, figures, now))),
        }
    }

    /// Get current SLI value; `None` where the SLI is not registered or no sample was ever
    /// recorded.
    pub fn get_sli_value(&self, sli_name: &str) -> (r: Option<SLIValue>)
        ensures
            r is Some <==> self.has_value(sli_name@),
            r matches Some(v) ==> v == value_of(samples_of(self.samples@, sli_name@), self.configs@[sli_name@]),
    {
        if !self.samples.contains_key(sli_name) {
            return None;
        }
        match self.recalculate_sli(sli_name) {
            Ok(v) => Some(v),
            Err(_) => None,
        }
    }

    /// The present values of the named SLIs, for those that have one.
    pub fn values(&self, names: &Vec<String>) -> (out: Vec<SLIValue>)
        ensures
            self.are_values(out@, views(names@)),
    {
        let ghost all = views(names@);
        let ghost f = |n: Seq<char>| self.has_value(n);
        let mut out: Vec<SLIValue> = Vec::new();
        let mut i: usize = 0;
        proof {
            filter_none(all, f);
        }
        while i < names.len()
            invariant
                i <= names@.len(),
                all == views(names@),
                f == (|n: Seq<char>| self.has_value(n)),
                self.are_values(out@, all.take(i as int)),
            decreases names@.len() - i,
        {
            proof {
                filter_step(all, i as int, f);
            }
            match self.get_sli_value(names[i].as_str()) {
                Some(v) => {
                    out.push(v);
                },
                None => {},
            }
            i = i + 1;
        }
        proof {
            assert(all.take(names@.len() as int) =~= all);
        }
        out
    }

    /// What the deltas of the named SLIs are worked out from, for those that are registered
    /// and have samples and a baseline.
    pub fn bases(&self, names: &Vec<String>, marker: &DeployMarker) -> (out: Vec<DeltaBasis>)
        ensures
            self.are_bases(out@, views(names@), *marker),
    {
        let ghost all = views(names@);
        let ghost f = |n: Seq<char>| self.configs@.contains_key(n) && self.comparable(n, *marker);
        let mut out: Vec<DeltaBasis> = Vec::new();
        let mut i: usize = 0;
        proof {
            filter_none(all, f);
        }
        while i < names.len()
            invariant
                i <= names@.len(),
                all == views(names@),
                f == (|n: Seq<char>| self.configs@.contains_key(n) && self.comparable(n, *marker)),
                self.are_bases(out@, all.take(i as int), *marker),
            decreases names@.len() - i,
        {
            let name = &names[i];
            let ghost before = all.take(i as int).filter(f);
            proof {
                filter_step(all, i as int, f);
            }
            match self.delta_basis(name.as_str(), marker) {
                Ok(Some(b)) => {
                    let ghost was = out@;
                    out.push(b);
                    proof {
                        let after = self.measured(all.take(i as int + 1), *marker);
                        assert(after == before.push(name@));
                        assert forall|k: int| 0 <= k < out@.len() implies self.is_basis(
                            #[trigger] out@[k],
                            after[k],
                            *marker,
                        ) by {
                            if k < was.len() {
                                assert(out@[k] == was[k]);
                            }
                        }
                    }
                },
                _ => {},
            }
            i = i + 1;
        }
        proof {
            assert(all.take(names@.len() as int) =~= all);
        }
        out
    }

    /// What the deltas for a deploy marker are worked out from, for every SLI that has
    /// samples and a baseline set for it, in name order.
    pub fn get_deltas_for_deploy(&self, deploy_id: &str) -> (out: Vec<DeltaBasis>)
        ensures
            exists|m: DeployMarker| #[trigger]
                is_bare_marker(m, deploy_id@, ""@, ""@, ""@) && self.are_bases(out@, keys_of(self.configs.pairs()), m),
    {
        let marker = bare_marker(deploy_id, "", "", "");
        let names = self.configs.keys();
        self.bases(&names, &marker)
    }

    /// Get all registered SLIs, in name order.
    pub fn get_all_slis(&self) -> (out: Vec<SLIConfig>)
        ensures
            out@.len() == self.configs.pairs().len(),
            forall|i: int| 0 <= i < out@.len() ==> same_config(#[trigger] out@[i], self.configs.pairs()[i].1),
    {
        let n: usize = self.configs.len();
        let mut out: Vec<SLIConfig> = Vec::new();
        let mut i: usize = 0;
        while i < n
            invariant
                i <= n == self.configs.pairs().len(),
                out@.len() == i,
                forall|k: int| 0 <= k < i ==> same_config(#[trigger] out@[k], self.configs.pairs()[k].1),
            decreases n - i,
        {
            out.push(self.configs.value_at(i).clone());
            i = i + 1;
        }
        out
    }
}

/// The reading 1.0.
pub open spec fn one() -> Reading {
    Reading { bits: 0x3FF0_0000_0000_0000 }
}

/// Where timestamps ascend, exactly the samples inside the window are kept, as far as there
/// is room for them.
pub proof fn window_is_kept(s: Seq<LatencySample>, cutoff: int)
    requires
        forall|i: int, j: int| 0 <= i < j < s.len() ==> (#[trigger] s[i]).timestamp <= (#[trigger] s[j]).timestamp,
    ensures
        fresh_from(s, cutoff) == s.filter(|x: LatencySample| x.timestamp >= cutoff),
    decreases s.len(),
{
    let f = |x: LatencySample| x.timestamp >= cutoff;
    if s.len() > 0 && s[0].timestamp < cutoff {
        let head = Seq::<LatencySample>::empty().push(s[0]);
        window_is_kept(s.skip(1), cutoff);
        assert(s =~= head + s.skip(1));
        Seq::filter_distributes_over_add(head, s.skip(1), f);
        assert(head.filter(f) =~= Seq::<LatencySample>::empty()) by {
            filter_none(head, f);
            filter_step(head, 0, f);
            assert(head.take(1) =~= head);
        }
        assert(Seq::<LatencySample>::empty() + s.skip(1).filter(f) =~= s.skip(1).filter(f));
    } else {
        all_kept(s, f);
    }
}

/// A filter that lets all pass changes nothing.
proof fn all_kept(s: Seq<LatencySample>, f: spec_fn(LatencySample) -> bool)
    requires
        forall|i: int| 0 <= i < s.len() ==> f(#[trigger] s[i]),
    ensures
        s.filter(f) == s,
    decreases s.len(),
{
    reveal(Seq::filter);
    if s.len() > 0 {
        all_kept(s.drop_last(), f);
        assert(s.drop_last().push(s.last()) =~= s);
    }
}

/// Of the baselines that a deployment is given, the last one for an SLI is the one it is
/// compared with, and those of other deployments stay.
pub proof fn last_baseline_counts(
    m: Map<Seq<char>, Map<Seq<char>, Reading>>,
    slis: Seq<Seq<char>>,
    deploy_id: Seq<char>,
    values: Seq<Reading>,
    k: int,
)
    requires
        values.len() == slis.len(),
        0 <= k < slis.len(),
        forall|j: int| k < j < slis.len() ==> #[trigger] slis[j] != slis[k],
    ensures
        with_baselines(m, slis, deploy_id, values).contains_key(slis[k]),
        with_baselines(m, slis, deploy_id, values)[slis[k]].contains_key(deploy_id),
        with_baselines(m, slis, deploy_id, values)[slis[k]][deploy_id] == values[k],
        forall|other: Seq<char>|
            other != deploy_id && m.contains_key(slis[k]) && #[trigger] m[slis[k]].contains_key(other)
                ==> with_baselines(m, slis, deploy_id, values)[slis[k]].contains_key(other) && with_baselines(
                m,
                slis,
                deploy_id,
                values,
            )[slis[k]][other] == m[slis[k]][other],
    decreases slis.len(),
{
    other_baselines_stay(m, slis, deploy_id, values, slis[k]);
    if k < slis.len() - 1 {
        assert(slis[slis.len() - 1] != slis[k]);
        last_baseline_counts(m, slis.drop_last(), deploy_id, values.drop_last(), k);
    }
}

proof fn other_baselines_stay(
    m: Map<Seq<char>, Map<Seq<char>, Reading>>,
    slis: Seq<Seq<char>>,
    deploy_id: Seq<char>,
    values: Seq<Reading>,
    sli: Seq<char>,
)
    requires
        values.len() == slis.len(),
    ensures
        m.contains_key(sli) ==> with_baselines(m, slis, deploy_id, values).contains_key(sli),
        forall|other: Seq<char>|
            other != deploy_id && m.contains_key(sli) && #[trigger] m[sli].contains_key(other) ==> with_baselines(
                m,
                slis,
                deploy_id,
                values,
            )[sli].contains_key(other) && with_baselines(m, slis, deploy_id, values)[sli][other] == m[sli][other],
    decreases slis.len(),
{
    if slis.len() > 0 {
        other_baselines_stay(m, slis.drop_last(), deploy_id, values.drop_last(), sli);
    }
}

/// A sample at or below the threshold counts as kept, and one above it does not; without samples
/// the target stands in.
pub proof fn samples_within_the_threshold_count(s: Seq<LatencySample>, x: LatencySample, config: SLIConfig)
    requires
        s.len() < MAX_SAMPLES,
    ensures
        value_of(Seq::<LatencySample>::empty(), config) == SLIValue::Target(config.target_percentage),
        value_of(s.push(x), config) matches SLIValue::Share { under, total } && total == s.len() + 1 && under
            == under_threshold(s, config.threshold_ms) + (if x.latency_ms.at_most(config.threshold_ms) {
            1int
        } else {
            0int
        }),
        under_threshold(Seq::<LatencySample>::empty(), config.threshold_ms) == 0,
        under_threshold(s, config.threshold_ms) <= s.len(),
{
    reveal(Seq::filter);
    let f = |y: LatencySample| y.latency_ms.at_most(config.threshold_ms);
    assert(s.push(x).drop_last() =~= s);
    filter_holds(s, f, x);
}

/// The windows are multiples of each other, from five minutes to thirty days.
pub proof fn windows_nest(secs: u64)
    ensures
        SLIWindow::FiveMinutes.seconds() == 5 * 60,
        SLIWindow::FifteenMinutes.seconds() == 3 * SLIWindow::FiveMinutes.seconds(),
        SLIWindow::OneHour.seconds() == 4 * SLIWindow::FifteenMinutes.seconds(),
        SLIWindow::SixHours.seconds() == 6 * SLIWindow::OneHour.seconds(),
        SLIWindow::TwentyFourHours.seconds() == 4 * SLIWindow::SixHours.seconds(),
        SLIWindow::SevenDays.seconds() == 7 * SLIWindow::TwentyFourHours.seconds(),
        SLIWindow::ThirtyDays.seconds() == 30 * SLIWindow::TwentyFourHours.seconds(),
        SLIWindow::Custom(secs).seconds() == secs,
{
}

/// A baseline that was set for a deployment goes before the one that its marker brings, and where
/// there is neither nothing can be compared.
pub proof fn set_baselines_come_first(
    set: Map<Seq<char>, StrMap<Reading>>,
    name: Seq<char>,
    marker: DeployMarker,
)
    ensures
        set.contains_key(name) && set[name]@.contains_key(marker.id@) ==> baseline_of(set, name, marker) == Some(
            set[name]@[marker.id@],
        ),
        !(set.contains_key(name) && set[name]@.contains_key(marker.id@)) ==> baseline_of(set, name, marker)
            == if marker.pre_deploy_baselines@.contains_key(name) {
            Some(marker.pre_deploy_baselines@[name])
        } else {
            None
        },
{
}

/// Setting a baseline changes that of the one indicator and deployment, and no other.
pub proof fn baselines_are_set_one_by_one(
    m: Map<Seq<char>, Map<Seq<char>, Reading>>,
    sli: Seq<char>,
    deploy_id: Seq<char>,
    value: Reading,
    other: Seq<char>,
    other_id: Seq<char>,
)
    ensures
        with_baseline(m, sli, deploy_id, value).contains_key(sli),
        with_baseline(m, sli, deploy_id, value)[sli].contains_key(deploy_id),
        with_baseline(m, sli, deploy_id, value)[sli][deploy_id] == value,
        other != sli ==> (with_baseline(m, sli, deploy_id, value).contains_key(other) <==> m.contains_key(other)),
        other != sli && m.contains_key(other) ==> with_baseline(m, sli, deploy_id, value)[other] == m[other],
        other_id != deploy_id && m.contains_key(sli) && m[sli].contains_key(other_id) ==> with_baseline(
            m,
            sli,
            deploy_id,
            value,
        )[sli].contains_key(other_id) && with_baseline(m, sli, deploy_id, value)[sli][other_id] == m[sli][other_id],
{
}

/// A deployment regresses an indicator where it falls by more than the threshold, and one that falls
/// by no more, or rises, does not.
pub proof fn regressions_exceed_the_threshold(
    t: LatencySLITracker,
    d: SLIDelta,
    name: Seq<char>,
    marker: DeployMarker,
    figures: DeltaFigures,
    threshold: Reading,
    now: i64,
)
    requires
        t.is_delta(d, name, marker, figures, threshold, now),
        threshold.bits <= 0x7FF0_0000_0000_0000,
    ensures
        d.is_regression <==> threshold.less(d.delta.minus()),
        d.delta.bits <= 0x7FF0_0000_0000_0000 ==> !d.is_regression,
        d.delta == threshold.minus() ==> !d.is_regression,
        d.post_deploy_value == figures.current_value && d.delta == figures.delta,
        d.regression_threshold == threshold && d.calculated_at == now,
        Some(d.pre_deploy_value) == baseline_of(t.baselines@, name, marker),
        d.sli_name@ == name && d.deploy_marker_id@ == marker.id@,
        d.service@ == t.configs@[name].service@ && d.window == t.configs@[name].window,
        d.delta_percentage == figures.delta_percentage,
{
    the_sign_turns_the_order(d.delta, threshold.minus());
    the_sign_turns_the_order(threshold, threshold);
}

/// An indicator is measured against a deployment where it is registered, has samples and has a
/// baseline; the measured ones keep their order.
pub proof fn measured_indicators_have_a_baseline(
    t: LatencySLITracker,
    names: Seq<Seq<char>>,
    marker: DeployMarker,
    n: Seq<char>,
)
    ensures
        t.measured(names, marker).contains(n) <==> names.contains(n) && t.configs@.contains_key(n)
            && t.samples@.contains_key(n) && t.samples@[n]@.len() > 0 && baseline_of(t.baselines@, n, marker) is Some,
        t.valued(names).contains(n) <==> names.contains(n) && t.configs@.contains_key(n) && t.samples@.contains_key(n),
{
    let f = |x: Seq<char>| t.configs@.contains_key(x) && t.comparable(x, marker);
    let g = |x: Seq<char>| t.has_value(x);
    filter_holds(names, f, n);
    filter_holds(names, g, n);
}

/// The figures behind a delta are counted over the samples of the indicator itself.
pub proof fn bases_count_their_own_samples(t: LatencySLITracker, b: DeltaBasis, name: Seq<char>, marker: DeployMarker)
    requires
        t.is_basis(b, name, marker),
        t.samples@.contains_key(name),
    ensures
        b.total == t.samples@[name]@.len(),
        b.under == t.samples@[name]@.filter(
            |x: LatencySample| x.latency_ms.at_most(t.configs@[name].threshold_ms),
        ).len(),
        Some(b.baseline) == baseline_of(t.baselines@, name, marker),
        b.sli_name@ == name && b.deploy_marker_id@ == marker.id@ && b.service@ == t.configs@[name].service@,
{
    let limit = t.configs@[name].threshold_ms;
    assert((|x: LatencySample| x.latency_ms.at_most(limit)) =~= (|x: LatencySample|
        x.latency_ms.at_most(t.configs@[name].threshold_ms)));
}

/// Two configurations that are the same cannot be told apart by anything that is read off them.
pub proof fn same_configurations_agree(a: SLIConfig, b: SLIConfig, s: Seq<LatencySample>)
    requires
        same_config(a, b),
    ensures
        same_config(b, a) && same_config(a, a),
        value_of(s, a) == value_of(s, b),
        a.name@ == b.name@ && a.service@ == b.service@ && a.window.seconds() == b.window.seconds(),
        a.target_percentage == b.target_percentage && a.threshold_ms == b.threshold_ms,
        texts(a.labels@) == texts(b.labels@),
{
}

} // verus!
