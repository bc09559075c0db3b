//! Tracking metric series as samples come in.

use vstd::prelude::*;
#[allow(unused_imports)]
use vstd::string::*;
#[allow(unused_imports)]
use crate::cardinality::budget::{BudgetSpec, EnforcementAction, MetricSelector};
#[allow(unused_imports)]
use crate::cardinality::quarantine::{is_quarantine, QuarantineManager};
#[allow(unused_imports)]
use crate::cardinality::reporter::{all_counts, sum_counts, team_counts, team_total, MetricCount};
#[allow(unused_imports)]
use crate::cardinality::series_map::{key_of, record_keys, SeriesKey, SeriesMap, SeriesRecord};
#[allow(unused_imports)]
use crate::duration_text::{parse_duration, seconds_of};
#[allow(unused_imports)]
use crate::name_pattern::{describes, name_matches};
use crate::reading::Reading;
#[allow(unused_imports)]
use crate::strmap::{keys_of, map_of, same_texts, texts, StrMap};
#[allow(unused_imports)]
use crate::text::{copy_opt, dec, decimal, opt_view, same, views};

verus! {

/// Configuration for the cardinality collector.
pub struct CollectorConfig {
    /// Cardinality budgets to enforce.
    pub budgets: Vec<BudgetSpec>,
    /// Sample rate for cardinality tracking (0 to 1).
    pub sample_rate: Reading,
    /// Maximum series to track in memory per metric.
    pub max_series_per_metric: usize,
    /// Flush interval for metrics, in seconds.
    pub flush_interval: i64,
    /// Enable quarantine enforcement.
    pub enable_quarantine: bool,
}

/// The series limit where none is given.
pub fn default_max_series() -> (n: usize)
    ensures
        n == 100000,
{
    100000
}

impl Default for CollectorConfig {
    fn default() -> (c: Self)
        ensures
            c.budgets@.len() == 0,
            c.sample_rate.bits == 0x3FF0_0000_0000_0000,
            c.max_series_per_metric == 100000,
            c.flush_interval == 30,
            c.enable_quarantine,
    {
        CollectorConfig {
            budgets: Vec::new(),
            sample_rate: Reading { bits: 0x3FF0_0000_0000_0000 },
            max_series_per_metric: default_max_series(),
            flush_interval: 30,
            enable_quarantine: true,
        }
    }
}

/// A unique metric series identified by its label set. Instants are in microseconds since
/// the epoch.
#[derive(Debug)]
pub struct MetricSeries {
    pub metric_name: String,
    pub labels: StrMap<String>,
    pub team: String,
    pub first_seen: i64,
    pub last_seen: i64,
    pub sample_count: u64,
    pub is_quarantined: bool,
    pub quarantine_reason: Option<String>,
}

impl SeriesRecord for MetricSeries {
    open spec fn key(&self) -> SeriesKey {
        key_of(self.metric_name@, self.labels@)
    }

    fn is_of(&self, metric: &str, labels: &StrMap<String>) -> (r: bool) {
        same(self.metric_name.as_str(), metric) && same_texts(&self.labels, labels)
    }
}

/// Labels of per-metric counters.
#[derive(Debug, Clone, Hash, PartialEq, Eq)]
pub struct MetricLabels {
    pub metric_name: String,
}

/// Labels of per-team gauges.
#[derive(Debug, Clone, Hash, PartialEq, Eq)]
pub struct TeamLabels {
    pub team: String,
}

/// Team identifier extractor from labels.
#[derive(Debug)]
pub struct TeamExtractor {
    /// Label keys to try in order for team identification.
    pub team_label_keys: Vec<String>,
    /// Default team if no label found.
    pub default_team: String,
}

/// The value of the first of `keys` that the labels have, else `fallback`.
pub open spec fn first_label(
    keys: Seq<Seq<char>>,
    labels: Map<Seq<char>, Seq<char>>,
    fallback: Seq<char>,
) -> Seq<char>
    decreases keys.len(),
{
    if keys.len() == 0 {
        fallback
    } else if labels.contains_key(keys[0]) {
        labels[keys[0]]
    } else {
        first_label(keys.drop_first(), labels, fallback)
    }
}

impl Default for TeamExtractor {
    fn default() -> (e: Self)
        ensures
            views(e.team_label_keys@) == Seq::<Seq<char>>::empty().push("team"@).push("owner"@).push("namespace"@),
            e.default_team@ == "unknown"@,
    {
        let mut keys: Vec<String> = Vec::new();
        keys.push("team".to_owned());
        keys.push("owner".to_owned());
        keys.push("namespace".to_owned());
        proof {
            assert(views(keys@) =~= Seq::<Seq<char>>::empty().push("team"@).push("owner"@).push("namespace"@));
        }
        TeamExtractor { team_label_keys: keys, default_team: "unknown".to_owned() }
    }
}

impl TeamExtractor {
    /// The team that these labels name.
    pub open spec fn team_of(self, labels: Map<Seq<char>, Seq<char>>) -> Seq<char> {
        first_label(views(self.team_label_keys@), labels, self.default_team@)
    }

    /// An extractor that tries these label keys in order.
    pub fn new(team_label_keys: Vec<String>, default_team: String) -> (e: Self)
        ensures
            e.team_label_keys == team_label_keys,
            e.default_team == default_team,
    {
        TeamExtractor { team_label_keys, default_team }
    }

    /// Extract team from metric labels.
    pub fn extract_team(&self, labels: &StrMap<String>) -> (team: String)
        ensures
            team@ == self.team_of(texts(labels@)),
    {
        let ghost keys = views(self.team_label_keys@);
        let ghost m = texts(labels@);
        let mut i: usize = 0;
        proof {
            assert(keys.skip(0) =~= keys);
        }
        while i < self.team_label_keys.len()
            invariant
                i <= self.team_label_keys@.len(),
                keys == views(self.team_label_keys@),
                m == texts(labels@),
                self.team_of(m) == first_label(keys.skip(i as int), m, self.default_team@),
            decreases self.team_label_keys@.len() - i,
        {
            proof {
                assert(keys.skip(i as int)[0] == self.team_label_keys@[i as int]@);
                assert(keys.skip(i as int).drop_first() =~= keys.skip(i as int + 1));
            }
            if let Some(team) = labels.get(self.team_label_keys[i].as_str()) {
                return team.clone();
            }
            i = i + 1;
        }
        self.default_team.clone()
    }
}

/// Result of processing a metric sample.
#[derive(Debug, Clone, PartialEq, Eq)]
pub enum ProcessResult {
    Accepted,
    Quarantined { reason: String },
    Dropped { reason: String },
}

/// Counts per team and metric.
pub open spec fn count_in(m: Map<Seq<char>, StrMap<u64>>, team: Seq<char>, metric: Seq<char>) -> u64 {
    if m.contains_key(team) && m[team]@.contains_key(metric) {
        m[team]@[metric]
    } else {
        0
    }
}

/// Counts per team and metric, as mathematical maps.
pub open spec fn count_map(m: Map<Seq<char>, StrMap<u64>>) -> Map<Seq<char>, Map<Seq<char>, u64>> {
    m.map_values(|own: StrMap<u64>| own@)
}

/// The counts with one more for this team and metric.
pub open spec fn with_one_more(
    m: Map<Seq<char>, Map<Seq<char>, u64>>,
    team: Seq<char>,
    metric: Seq<char>,
) -> Map<Seq<char>, Map<Seq<char>, u64>> {
    let own = if m.contains_key(team) {
        m[team]
    } else {
        Map::empty()
    };
    let n = if own.contains_key(metric) {
        own[metric]
    } else {
        0
    };
    m.insert(team, own.insert(metric, (n + 1) as u64))
}

/// How many of the series are of this team and metric.
pub open spec fn series_count(items: Seq<MetricSeries>, team: Seq<char>, metric: Seq<char>) -> nat
    decreases items.len(),
{
    if items.len() == 0 {
        0
    } else {
        series_count(items.drop_last(), team, metric) + (if items.last().team@ == team && items.last().metric_name@
            == metric {
            1nat
        } else {
            0nat
        })
    }
}

/// How many of the series are of this metric.
pub open spec fn metric_count(items: Seq<MetricSeries>, metric: Seq<char>) -> nat
    decreases items.len(),
{
    if items.len() == 0 {
        0
    } else {
        metric_count(items.drop_last(), metric) + (if items.last().metric_name@ == metric {
            1nat
        } else {
            0nat
        })
    }
}

/// The labels have each of the values asked for.
pub open spec fn labels_match(asked: Map<Seq<char>, Seq<char>>, labels: Map<Seq<char>, Seq<char>>) -> bool {
    forall|k: Seq<char>| #[trigger] asked.contains_key(k) ==> labels.contains_key(k) && labels[k] == asked[k]
}

/// The selector selects the series: its pattern describes the metric, and the labels match.
pub open spec fn selects(s: MetricSelector, k: SeriesKey) -> bool {
    describes(s.metric_pattern@, k.metric) && labels_match(texts(s.label_matchers@), k.labels)
}

/// One of the selectors selects the series.
pub open spec fn any_selects(selectors: Seq<MetricSelector>, k: SeriesKey) -> bool {
    exists|i: int| 0 <= i < selectors.len() && selects(#[trigger] selectors[i], k)
}

/// The budget is for this team and series; one without selectors is for all series.
pub open spec fn budget_applies(b: BudgetSpec, team: Seq<char>, k: SeriesKey) -> bool {
    b.team@ == team && (b.metric_selectors@.len() == 0 || any_selects(b.metric_selectors@, k))
}

/// The first budget for this team and series.
pub open spec fn budget_for(budgets: Seq<BudgetSpec>, team: Seq<char>, k: SeriesKey) -> Option<BudgetSpec>
    decreases budgets.len(),
{
    if budgets.len() == 0 {
        None
    } else if budget_applies(budgets[0], team, k) {
        Some(budgets[0])
    } else {
        budget_for(budgets.drop_first(), team, k)
    }
}

/// How long a series is quarantined that the budget has no room for, in microseconds: as long
/// as the budget says, or by `default` where that cannot be read or would end beyond what can
/// be represented.
pub open spec fn quarantined_for(b: Option<BudgetSpec>, default: i64, now: i64) -> i64 {
    match b {
        Some(b) => match seconds_of(b.quarantine_duration@) {
            Ok(n) => if i64::MIN <= n * 1_000_000 <= i64::MAX && i64::MIN <= now + n * 1_000_000 <= i64::MAX {
                (n * 1_000_000) as i64
            } else {
                default
            },
            Err(_) => default,
        },
        None => default,
    }
}

/// How long a series is quarantined that the budget has no room for.
fn quarantine_length(b: Option<&BudgetSpec>, default: i64, now: i64) -> (d: i64)
    ensures
        d == quarantined_for(
            match b {
                Some(b) => Some(*b),
                None => None,
            },
            default,
            now,
        ),
{
    match b {
        Some(b) => match parse_duration(b.quarantine_duration.as_str()) {
            Ok(n) => {
                if n < -9_223_372_036_855 || n > 9_223_372_036_855 {
                    return default;
                }
                let micros: i128 = n * 1_000_000;
                let end: i128 = now as i128 + micros;
                if micros >= i64::MIN as i128 && micros <= i64::MAX as i128 && end >= i64::MIN as i128 && end
                    <= i64::MAX as i128 {
                    micros as i64
                } else {
                    default
                }
            },
            Err(_) => default,
        },
        None => default,
    }
}

/// The labels that count: those with the given keys, or all where none is given.
pub open spec fn counted_labels(labels: Map<Seq<char>, Seq<char>>, keys: Seq<Seq<char>>) -> Map<Seq<char>, Seq<char>> {
    if keys.len() == 0 {
        labels
    } else {
        labels.restrict(keys.to_set())
    }
}

/// The series is one of the metric that the budget is for.
pub open spec fn in_scope(s: MetricSeries, metric: Seq<char>, b: BudgetSpec) -> bool {
    s.metric_name@ == metric && budget_applies(b, s.team@, s.key())
}

/// The combinations of the labels that count for the budget, among its series of a metric.
pub open spec fn combinations(items: Seq<MetricSeries>, metric: Seq<char>, b: BudgetSpec) -> Set<
    Map<Seq<char>, Seq<char>>,
>
    decreases items.len(),
{
    if items.len() == 0 {
        Set::empty()
    } else {
        let rest = combinations(items.drop_last(), metric, b);
        if in_scope(items.last(), metric, b) {
            rest.insert(counted_labels(texts(items.last().labels@), views(b.cardinality_labels@)))
        } else {
            rest
        }
    }
}

/// Whether two label sets agree on the labels that count.
fn counts_alike(a: &StrMap<String>, b: &StrMap<String>, keys: &Vec<String>) -> (r: bool)
    ensures
        r == (counted_labels(texts(a@), views(keys@)) == counted_labels(texts(b@), views(keys@))),
{
    if keys.len() == 0 {
        return same_texts(a, b);
    }
    let ghost named = views(keys@);
    let ghost x = counted_labels(texts(a@), named);
    let ghost y = counted_labels(texts(b@), named);
    let mut i: usize = 0;
    while i < keys.len()
        invariant
            i <= keys@.len(),
            named == views(keys@),
            named.len() > 0,
            x == counted_labels(texts(a@), named),
            y == counted_labels(texts(b@), named),
            forall|k: int|
                0 <= k < i ==> {
                    let key = #[trigger] named[k];
                    &&& texts(a@).contains_key(key) == texts(b@).contains_key(key)
                    &&& texts(a@).contains_key(key) ==> texts(a@)[key] == texts(b@)[key]
                },
        decreases keys@.len() - i,
    {
        let key = keys[i].as_str();
        let same_here = match (a.get(key), b.get(key)) {
            (Some(v), Some(w)) => same(v.as_str(), w.as_str()),
            (None, None) => true,
            _ => false,
        };
        proof {
            assert(named[i as int] == key@);
            assert(named.to_set().contains(key@));
        }
        if !same_here {
            proof {
                assert(x.contains_key(key@) == texts(a@).contains_key(key@));
                assert(y.contains_key(key@) == texts(b@).contains_key(key@));
                assert(x.contains_key(key@) ==> x[key@] == texts(a@)[key@]);
                assert(y.contains_key(key@) ==> y[key@] == texts(b@)[key@]);
            }
            return false;
        }
        i = i + 1;
    }
    proof {
        assert forall|key: Seq<char>| named.to_set().contains(key) implies {
            &&& texts(a@).contains_key(key) == texts(b@).contains_key(key)
            &&& texts(a@).contains_key(key) ==> texts(a@)[key] == texts(b@)[key]
        } by {
            let k = named.index_of(key);
            assert(named[k] == key);
        }
        assert(x =~= y);
    }
    true
}

/// Whether the labels have each of the values asked for.
fn matches_labels(asked: &StrMap<String>, labels: &StrMap<String>) -> (r: bool)
    ensures
        r == labels_match(texts(asked@), texts(labels@)),
{
    let n: usize = asked.len();
    let mut i: usize = 0;
    while i < n
        invariant
            i <= n == asked.pairs().len(),
            asked@ == map_of(asked.pairs()),
            forall|k: int|
                0 <= k < i ==> {
                    let key = #[trigger] keys_of(asked.pairs())[k];
                    texts(labels@).contains_key(key) && texts(labels@)[key] == texts(asked@)[key]
                },
        decreases n - i,
    {
        let key = asked.key_at(i);
        let value = asked.value_at(i);
        let there = match labels.get(key.as_str()) {
            Some(v) => same(v.as_str(), value.as_str()),
            None => false,
        };
        proof {
            assert(keys_of(asked.pairs())[i as int] == key@);
            assert(texts(asked@).contains_key(key@));
        }
        if !there {
            return false;
        }
        i = i + 1;
    }
    proof {
        assert forall|k: Seq<char>| #[trigger] texts(asked@).contains_key(k) implies texts(labels@).contains_key(k)
            && texts(labels@)[k] == texts(asked@)[k] by {
            assert(asked@.contains_key(k));
            let j = keys_of(asked.pairs()).index_of(k);
            assert(keys_of(asked.pairs())[j] == k);
        }
    }
    true
}

/// Budget check result.
#[derive(Debug, Clone, Copy)]
pub struct BudgetCheckResult {
    pub exceeded: bool,
    pub current: u64,
    pub limit: u64,
    pub enforcement_action: EnforcementAction,
}

/// The published series count of one team's metric.
#[derive(Debug)]
pub struct CountGauge {
    pub team: String,
    pub metric_name: String,
    pub count: u64,
}

/// The published use of one budget: its share is that of `total` in `limit`, and none where
/// the limit is zero.
#[derive(Debug)]
pub struct UsageGauge {
    pub team: String,
    pub total: u64,
    pub limit: u64,
}

/// The use of one budget.
pub struct BudgetUse {
    pub team: Seq<char>,
    pub total: int,
    pub limit: u64,
}

/// What count gauges say.
pub open spec fn gauges_of(s: Seq<CountGauge>) -> Seq<MetricCount> {
    s.map_values(|g: CountGauge| MetricCount { team: g.team@, metric: g.metric_name@, count: g.count })
}

/// What usage gauges say.
pub open spec fn uses_of(s: Seq<UsageGauge>) -> Seq<BudgetUse> {
    s.map_values(|g: UsageGauge| BudgetUse { team: g.team@, total: g.total as int, limit: g.limit })
}

/// The use of a team's budgets, in order.
pub open spec fn team_uses(team: Seq<char>, total: int, budgets: Seq<BudgetSpec>) -> Seq<BudgetUse>
    decreases budgets.len(),
{
    if budgets.len() == 0 {
        Seq::empty()
    } else if budgets.last().team@ == team {
        team_uses(team, total, budgets.drop_last()).push(BudgetUse { team, total, limit: budgets.last().limit })
    } else {
        team_uses(team, total, budgets.drop_last())
    }
}

/// The use of all teams' budgets, in team order.
pub open spec fn all_uses(pairs: Seq<(String, StrMap<u64>)>, budgets: Seq<BudgetSpec>) -> Seq<BudgetUse>
    decreases pairs.len(),
{
    if pairs.len() == 0 {
        Seq::empty()
    } else {
        all_uses(pairs.drop_last(), budgets) + team_uses(
            pairs.last().0@,
            sum_counts(pairs.last().1.pairs()),
            budgets,
        )
    }
}

fn push_counts(out: &mut Vec<CountGauge>, team: &String, own: &StrMap<u64>)
    ensures
        gauges_of(final(out)@) == gauges_of(old(out)@) + team_counts(team@, own.pairs()),
{
    let n: usize = own.len();
    let ghost start = gauges_of(out@);
    let ghost all = team_counts(team@, own.pairs());
    let mut i: usize = 0;
    proof {
        assert(start + all.take(0) =~= start);
    }
    while i < n
        invariant
            i <= n == own.pairs().len(),
            all == team_counts(team@, own.pairs()),
            gauges_of(out@) == start + all.take(i as int),
        decreases n - i,
    {
        let ghost was = out@;
        out.push(CountGauge { team: team.clone(), metric_name: own.key_at(i).clone(), count: *own.value_at(i) });
        proof {
            assert(gauges_of(out@) =~= gauges_of(was).push(all[i as int]));
            assert(start + all.take(i as int + 1) =~= (start + all.take(i as int)).push(all[i as int]));
        }
        i = i + 1;
    }
    proof {
        assert(all.take(n as int) =~= all);
    }
}

fn push_uses(out: &mut Vec<UsageGauge>, team: &String, total: u64, budgets: &Vec<BudgetSpec>)
    ensures
        uses_of(final(out)@) == uses_of(old(out)@) + team_uses(team@, total as int, budgets@),
{
    let ghost start = uses_of(out@);
    let mut i: usize = 0;
    proof {
        assert(start + team_uses(team@, total as int, budgets@.take(0)) =~= start);
    }
    while i < budgets.len()
        invariant
            i <= budgets@.len(),
            uses_of(out@) == start + team_uses(team@, total as int, budgets@.take(i as int)),
        decreases budgets@.len() - i,
    {
        let ghost was = out@;
        proof {
            assert(budgets@.take(i as int + 1).drop_last() =~= budgets@.take(i as int));
        }
        if same(budgets[i].team.as_str(), team.as_str()) {
            out.push(UsageGauge { team: team.clone(), total, limit: budgets[i].limit });
            proof {
                let u = BudgetUse { team: team@, total: total as int, limit: budgets@[i as int].limit };
                let before = team_uses(team@, total as int, budgets@.take(i as int));
                assert(uses_of(out@) =~= uses_of(was).push(u));
                assert((start + before).push(u) =~= start + before.push(u));
            }
        }
        i = i + 1;
    }
    proof {
        assert(budgets@.take(budgets@.len() as int) =~= budgets@);
    }
}

/// Cardinality collector: tracks unique metric series at ingestion.
pub struct CardinalityCollector {
    pub config: CollectorConfig,
    pub team_extractor: TeamExtractor,
    /// The active series.
    pub series: SeriesMap<MetricSeries>,
    /// Series counts per team and metric.
    pub cardinality_counts: StrMap<StrMap<u64>>,
    /// Where offending series are put, if anywhere.
    pub quarantine_manager: Option<QuarantineManager>,
}

/// What happens to a sample.
pub enum Fate {
    /// Its series is quarantined.
    AlreadyQuarantined,
    /// The budget is spent, and its series is put in quarantine.
    Quarantine,
    /// The budget is spent, and it is dropped.
    OverBudget,
    /// The metric has as many series as can be held.
    NoRoom,
    /// It is the first of its series.
    NewSeries,
    /// Its series is known.
    KnownSeries,
}

/// The reason given where a budget is spent.
pub open spec fn budget_reason(current: u64, limit: u64) -> Seq<char> {
    "Budget exceeded: "@ + dec(current as nat) + "/"@ + dec(limit as nat)
}

impl CardinalityCollector {
    /// The counts are those of the series held.
    pub open spec fn consistent(self) -> bool {
        forall|team: Seq<char>, metric: Seq<char>| #[trigger]
            count_in(self.cardinality_counts@, team, metric) == series_count(self.series.records(), team, metric)
    }

    /// How the budget for the series' team stands: the combinations of the labels that count,
    /// among the series of the metric that the budget is for, are held against its limit. Without a budget nothing is exceeded.
    pub open spec fn budget_state(self, team: Seq<char>, k: SeriesKey) -> BudgetCheckResult {
        match budget_for(self.config.budgets@, team, k) {
            Some(b) => {
                let current = combinations(self.series.records(), k.metric, b).len();
                BudgetCheckResult {
                    exceeded: current >= b.limit,
                    current: current as u64,
                    limit: b.limit,
                    enforcement_action: b.enforcement_action,
                }
            },
            None => BudgetCheckResult {
                exceeded: false,
                current: count_in(self.cardinality_counts@, team, k.metric),
                limit: u64::MAX,
                enforcement_action: EnforcementAction::Warn,
            },
        }
    }

    /// What happens to a sample of this series.
    pub open spec fn fate(self, k: SeriesKey) -> Fate {
        let b = self.budget_state(self.team_extractor.team_of(k.labels), k);
        if self.series@.contains_key(k) && self.series@[k].is_quarantined {
            Fate::AlreadyQuarantined
        } else if b.exceeded && b.enforcement_action is Quarantine && self.config.enable_quarantine {
            Fate::Quarantine
        } else if b.exceeded && b.enforcement_action is Drop {
            Fate::OverBudget
        } else if self.series@.contains_key(k) {
            Fate::KnownSeries
        } else if metric_count(self.series.records(), k.metric) >= self.config.max_series_per_metric {
            Fate::NoRoom
        } else {
            Fate::NewSeries
        }
    }

    /// Create a new cardinality collector.
    pub fn new(config: CollectorConfig) -> (c: Self)
        ensures
            c.config == config,
            c.consistent(),
            c.series@ == Map::<SeriesKey, MetricSeries>::empty(),
            c.quarantine_manager is None,
            views(c.team_extractor.team_label_keys@) == Seq::<Seq<char>>::empty().push("team"@).push("owner"@).push(
                "namespace"@,
            ),
            c.team_extractor.default_team@ == "unknown"@,
    {
        CardinalityCollector {
            config,
            team_extractor: TeamExtractor::default(),
            series: SeriesMap::new(),
            cardinality_counts: StrMap::new(),
            quarantine_manager: None,
        }
    }

    /// Set quarantine manager.
    pub fn with_quarantine_manager(self, manager: QuarantineManager) -> (c: Self)
        ensures
            c == (CardinalityCollector { quarantine_manager: Some(manager), ..self }),
            self.consistent() ==> c.consistent(),
    {
        let c = CardinalityCollector { quarantine_manager: Some(manager), ..self };
        proof {
            if self.consistent() {
                assert forall|team: Seq<char>, metric: Seq<char>| #[trigger]
                    count_in(c.cardinality_counts@, team, metric) == series_count(c.series.records(), team, metric) by {
                    assert(count_in(self.cardinality_counts@, team, metric) == series_count(
                        self.series.records(),
                        team,
                        metric,
                    ));
                }
            }
        }
        c
    }

    /// Set custom team extractor.
    pub fn with_team_extractor(self, extractor: TeamExtractor) -> (c: Self)
        ensures
            c == (CardinalityCollector { team_extractor: extractor, ..self }),
            self.consistent() ==> c.consistent(),
    {
        let c = CardinalityCollector { team_extractor: extractor, ..self };
        proof {
            if self.consistent() {
                assert forall|team: Seq<char>, metric: Seq<char>| #[trigger]
                    count_in(c.cardinality_counts@, team, metric) == series_count(c.series.records(), team, metric) by {
                    assert(count_in(self.cardinality_counts@, team, metric) == series_count(
                        self.series.records(),
                        team,
                        metric,
                    ));
                }
            }
        }
        c
    }

    /// Get current cardinality for a team/metric.
    pub fn get_cardinality(&self, team: &str, metric_name: &str) -> (n: u64)
        ensures
            n == count_in(self.cardinality_counts@, team@, metric_name@),
    {
        match self.cardinality_counts.get(team) {
            Some(m) => match m.get(metric_name) {
                Some(n) => *n,
                None => 0,
            },
            None => 0,
        }
    }

    /// Get all cardinality counts.
    pub fn get_all_counts(&self) -> (counts: &StrMap<StrMap<u64>>)
        ensures
            *counts == self.cardinality_counts,
    {
        &self.cardinality_counts
    }

    /// The gauge values to publish: the series count of each team and metric, and the use of
    /// each team's budgets.
    pub fn flush_metrics(&self) -> (r: (Vec<CountGauge>, Vec<UsageGauge>))
        requires
            forall|i: int|
                0 <= i < self.cardinality_counts.pairs().len() ==> sum_counts(
                    #[trigger] self.cardinality_counts.pairs()[i].1.pairs(),
                ) <= u64::MAX,
        ensures
            gauges_of(r.0@) == all_counts(self.cardinality_counts.pairs()),
            uses_of(r.1@) == all_uses(self.cardinality_counts.pairs(), self.config.budgets@),
    {
        let n: usize = self.cardinality_counts.len();
        let ghost pairs = self.cardinality_counts.pairs();
        let mut counts: Vec<CountGauge> = Vec::new();
        let mut uses: Vec<UsageGauge> = Vec::new();
        let mut i: usize = 0;
        proof {
            assert(gauges_of(counts@) =~= all_counts(pairs.take(0)));
            assert(uses_of(uses@) =~= all_uses(pairs.take(0), self.config.budgets@));
        }
        while i < n
            invariant
                i <= n == pairs.len(),
                pairs == self.cardinality_counts.pairs(),
                forall|k: int| 0 <= k < pairs.len() ==> sum_counts(#[trigger] pairs[k].1.pairs()) <= u64::MAX,
                gauges_of(counts@) == all_counts(pairs.take(i as int)),
                uses_of(uses@) == all_uses(pairs.take(i as int), self.config.budgets@),
            decreases n - i,
        {
            proof {
                assert(pairs.take(i as int + 1).drop_last() =~= pairs.take(i as int));
                assert(pairs.take(i as int + 1).last() == pairs[i as int]);
            }
            let team = self.cardinality_counts.key_at(i);
            let own = self.cardinality_counts.value_at(i);
            push_counts(&mut counts, team, own);
            push_uses(&mut uses, team, team_total(own), &self.config.budgets);
            i = i + 1;
        }
        proof {
            assert(pairs.take(n as int) =~= pairs);
        }
        (counts, uses)
    }

    /// Check if metric matches selector.
    pub fn metric_matches_selector(&self, metric_name: &str, selector: &MetricSelector) -> (r: bool)
        ensures
            r == describes(selector.metric_pattern@, metric_name@),
    {
        name_matches(selector.metric_pattern.as_str(), metric_name)
    }

    /// Whether the budget is for this team and series.
    fn applies(&self, b: &BudgetSpec, team: &str, metric_name: &str, labels: &StrMap<String>) -> (r: bool)
        ensures
            r == budget_applies(*b, team@, key_of(metric_name@, labels@)),
    {
        let ghost k = key_of(metric_name@, labels@);
        if !same(b.team.as_str(), team) {
            return false;
        }
        if b.metric_selectors.len() == 0 {
            return true;
        }
        let mut i: usize = 0;
        while i < b.metric_selectors.len()
            invariant
                i <= b.metric_selectors@.len(),
                k == key_of(metric_name@, labels@),
                b.team@ == team@,
                forall|j: int| 0 <= j < i ==> !selects(#[trigger] b.metric_selectors@[j], k),
            decreases b.metric_selectors@.len() - i,
        {
            let s = &b.metric_selectors[i];
            if self.metric_matches_selector(metric_name, s) && matches_labels(&s.label_matchers, labels) {
                proof {
                    assert(selects(b.metric_selectors@[i as int], k));
                }
                return true;
            }
            i = i + 1;
        }
        false
    }

    /// How many combinations of the labels that count the budget's series of a metric have.
    fn count_combinations(&self, metric_name: &str, b: &BudgetSpec) -> (n: u64)
        ensures
            n == combinations(self.series.records(), metric_name@, *b).len(),
    {
        let keys = &b.cardinality_labels;
        let total: usize = self.series.len();
        let ghost all = self.series.records();
        let ghost named = views(keys@);
        // One series of each combination.
        let mut seen: Vec<usize> = Vec::new();
        let mut i: usize = 0;
        while i < total
            invariant
                i <= total == all.len(),
                all == self.series.records(),
                named == views(b.cardinality_labels@),
                *keys == b.cardinality_labels,
                seen@.len() <= i,
                forall|j: int| 0 <= j < seen@.len() ==> #[trigger] seen@[j] < total,
                ({
                    let found = combinations(all.take(i as int), metric_name@, *b);
                    &&& found.finite()
                    &&& found.len() == seen@.len()
                    &&& forall|c: Map<Seq<char>, Seq<char>>| #[trigger]
                        found.contains(c) <==> exists|j: int|
                            0 <= j < seen@.len() && counted_labels(
                                texts(all[#[trigger] seen@[j] as int].labels@),
                                named,
                            ) == c
                }),
            decreases total - i,
        {
            let s = self.series.at(i);
            let ghost found = combinations(all.take(i as int), metric_name@, *b);
            let ghost was = seen@;
            let ghost c = counted_labels(texts(all[i as int].labels@), named);
            proof {
                assert(all.take(i as int + 1).drop_last() =~= all.take(i as int));
                assert(all.take(i as int + 1).last() == all[i as int]);
            }
            if same(s.metric_name.as_str(), metric_name) && self.applies(b, s.team.as_str(), metric_name, &s.labels) {
                let mut known = false;
                let mut j: usize = 0;
                while j < seen.len()
                    invariant
                        j <= seen@.len(),
                        all == self.series.records(),
                        named == views(keys@),
                        *s == all[i as int],
                        total == all.len(),
                        c == counted_labels(texts(all[i as int].labels@), named),
                        forall|j: int| 0 <= j < seen@.len() ==> #[trigger] seen@[j] < total,
                        known <==> exists|k: int|
                            0 <= k < j && counted_labels(texts(all[#[trigger] seen@[k] as int].labels@), named) == c,
                    decreases seen@.len() - j,
                {
                    let at: usize = seen[j];
                    if counts_alike(&self.series.at(at).labels, &s.labels, keys) {
                        known = true;
                        proof {
                            assert(counted_labels(texts(all[seen@[j as int] as int].labels@), named) == c);
                        }
                    }
                    j = j + 1;
                }
                if !known {
                    proof {
                        assert(!found.contains(c));
                    }
                    seen.push(i);
                    proof {
                        let now_ = found.insert(c);
                        assert forall|d: Map<Seq<char>, Seq<char>>| #[trigger] now_.contains(d) implies exists|j: int|
                            0 <= j < seen@.len() && counted_labels(
                                texts(all[#[trigger] seen@[j] as int].labels@),
                                named,
                            ) == d by {
                            if d == c {
                                assert(seen@[was.len() as int] == i);
                            } else {
                                assert(found.contains(d));
                                let j = choose|j: int|
                                    0 <= j < was.len() && counted_labels(
                                        texts(all[#[trigger] was[j] as int].labels@),
                                        named,
                                    ) == d;
                                assert(seen@[j] == was[j]);
                            }
                        }
                        assert forall|d: Map<Seq<char>, Seq<char>>|
                            (exists|j: int|
                                0 <= j < seen@.len() && counted_labels(
                                    texts(all[#[trigger] seen@[j] as int].labels@),
                                    named,
                                ) == d) implies #[trigger] now_.contains(d) by {
                            let j = choose|j: int|
                                0 <= j < seen@.len() && counted_labels(
                                    texts(all[#[trigger] seen@[j] as int].labels@),
                                    named,
                                ) == d;
                            if j < was.len() {
                                assert(seen@[j] == was[j]);
                                assert(found.contains(d));
                            }
                        }
                    }
                } else {
                    proof {
                        assert(found.contains(c));
                        assert(found.insert(c) =~= found);
                    }
                }
            }
            i = i + 1;
        }
        proof {
            assert(all.take(total as int) =~= all);
        }
        seen.len() as u64
    }

    /// The budget for a team and a series: the first that is for them.
    fn budget_of(&self, team: &str, metric_name: &str, labels: &StrMap<String>) -> (r: Option<&BudgetSpec>)
        ensures
            match r {
                Some(b) => budget_for(self.config.budgets@, team@, key_of(metric_name@, labels@)) == Some(*b),
                None => budget_for(self.config.budgets@, team@, key_of(metric_name@, labels@)) is None,
            },
    {
        let ghost k = key_of(metric_name@, labels@);
        let budgets = &self.config.budgets;
        let mut i: usize = 0;
        proof {
            assert(budgets@.skip(0) =~= budgets@);
        }
        while i < budgets.len()
            invariant
                i <= budgets@.len(),
                *budgets == self.config.budgets,
                k == key_of(metric_name@, labels@),
                budget_for(budgets@, team@, k) == budget_for(budgets@.skip(i as int), team@, k),
            decreases budgets@.len() - i,
        {
            proof {
                assert(budgets@.skip(i as int)[0] == budgets@[i as int]);
                assert(budgets@.skip(i as int).drop_first() =~= budgets@.skip(i as int + 1));
            }
            if self.applies(&budgets[i], team, metric_name, labels) {
                return Some(&budgets[i]);
            }
            i = i + 1;
        }
        None
    }

    /// Check budget for a team and a series: the first budget that is for them decides.
    pub fn check_budget(&self, team: &str, metric_name: &str, labels: &StrMap<String>) -> (r: BudgetCheckResult)
        ensures
            r == self.budget_state(team@, key_of(metric_name@, labels@)),
    {
        match self.budget_of(team, metric_name, labels) {
            Some(b) => {
                let current: u64 = self.count_combinations(metric_name, b);
                BudgetCheckResult {
                    exceeded: current >= b.limit,
                    current,
                    limit: b.limit,
                    enforcement_action: b.enforcement_action,
                }
            },
            None => BudgetCheckResult {
                exceeded: false,
                current: self.get_cardinality(team, metric_name),
                limit: u64::MAX,
                enforcement_action: EnforcementAction::Warn,
            },
        }
    }

    /// How many series of the metric are held.
    fn series_of_metric(&self, metric_name: &str) -> (n: usize)
        ensures
            n == metric_count(self.series.records(), metric_name@),
    {
        let total: usize = self.series.len();
        let ghost all = self.series.records();
        let mut n: usize = 0;
        let mut i: usize = 0;
        while i < total
            invariant
                i <= total == all.len(),
                all == self.series.records(),
                n <= i,
                n == metric_count(all.take(i as int), metric_name@),
            decreases total - i,
        {
            proof {
                assert(all.take(i as int + 1).drop_last() =~= all.take(i as int));
                assert(all.take(i as int + 1).last() == all[i as int]);
            }
            if same(self.series.at(i).metric_name.as_str(), metric_name) {
                n = n + 1;
            }
            i = i + 1;
        }
        proof {
            assert(all.take(total as int) =~= all);
        }
        n
    }

    /// Counts one more series for the team and metric.
    fn count_one(&mut self, team: &str, metric_name: &str)
        requires
            count_in(old(self).cardinality_counts@, team@, metric_name@) < u64::MAX,
        ensures
            final(self).config == old(self).config,
            final(self).team_extractor == old(self).team_extractor,
            final(self).series == old(self).series,
            final(self).quarantine_manager == old(self).quarantine_manager,
            forall|t: Seq<char>, m: Seq<char>| #[trigger]
                count_in(final(self).cardinality_counts@, t, m) == if t == team@ && m == metric_name@ {
                    (count_in(old(self).cardinality_counts@, t, m) + 1) as u64
                } else {
                    count_in(old(self).cardinality_counts@, t, m)
                },
            count_map(final(self).cardinality_counts@) == with_one_more(
                count_map(old(self).cardinality_counts@),
                team@,
                metric_name@,
            ),
    {
        let ghost was = self.cardinality_counts@;
        let n: u64 = self.get_cardinality(team, metric_name);
        let mut inner: StrMap<u64> = match self.cardinality_counts.remove(team) {
            Some(m) => m,
            None => StrMap::new(),
        };
        let ghost inner0 = inner@;
        inner.insert(metric_name.to_owned(), n + 1);
        self.cardinality_counts.insert(team.to_owned(), inner);
        proof {
            let now = self.cardinality_counts@;
            assert(now.contains_key(team@) && now[team@]@ == inner0.insert(metric_name@, (n + 1) as u64));
            assert(count_map(now) =~= with_one_more(count_map(was), team@, metric_name@));
            assert forall|t: Seq<char>, m: Seq<char>| #[trigger] count_in(now, t, m) == (if t == team@ && m
                == metric_name@ {
                (count_in(was, t, m) + 1) as u64
            } else {
                count_in(was, t, m)
            }) by {
                if t != team@ {
                    assert(now.contains_key(t) == was.contains_key(t));
                    if was.contains_key(t) {
                        assert(now[t] == was[t]);
                    }
                }
            }
        }
    }

    /// Process a metric sample and track cardinality.
    pub fn process_sample(&mut self, metric_name: &str, labels: &StrMap<String>, now: i64) -> (r: ProcessResult)
        requires
            old(self).consistent(),
            ({
                let k = key_of(metric_name@, labels@);
                old(self).fate(k) is Quarantine ==> (old(self).quarantine_manager matches Some(m) ==> i64::MIN <= now
                    + m.duration() <= i64::MAX)
            }),
            ({
                let k = key_of(metric_name@, labels@);
                old(self).fate(k) is KnownSeries ==> old(self).series@[k].sample_count < u64::MAX
            }),
        ensures
            final(self).consistent(),
            final(self).config == old(self).config,
            final(self).team_extractor == old(self).team_extractor,
            ({
                let k = key_of(metric_name@, labels@);
                let team = old(self).team_extractor.team_of(k.labels);
                let b = old(self).budget_state(team, k);
                let fate = old(self).fate(k);
                &&& match fate {
                    Fate::AlreadyQuarantined => r matches ProcessResult::Dropped { reason } && reason@
                        == "Series is quarantined"@,
                    Fate::Quarantine => r matches ProcessResult::Quarantined { reason } && reason@ == budget_reason(
                        b.current,
                        b.limit,
                    ),
                    Fate::OverBudget => r matches ProcessResult::Dropped { reason } && reason@ == budget_reason(
                        b.current,
                        b.limit,
                    ),
                    Fate::NoRoom => r matches ProcessResult::Dropped { reason } && reason@
                        == "Max series per metric reached"@,
                    Fate::NewSeries => r is Accepted,
                    Fate::KnownSeries => r is Accepted,
                }
                &&& !(fate is NewSeries) && !(fate is KnownSeries) ==> final(self).series == old(self).series
                    && final(self).cardinality_counts == old(self).cardinality_counts
                &&& fate is NewSeries ==> {
                    let s = final(self).series@[k];
                    &&& final(self).series@ == old(self).series@.insert(k, s)
                    &&& s.metric_name@ == metric_name@ && texts(s.labels@) == texts(labels@) && s.team@ == team
                    &&& s.first_seen == now && s.last_seen == now && s.sample_count == 1
                    &&& !s.is_quarantined && s.quarantine_reason is None
                    &&& count_map(final(self).cardinality_counts@) == with_one_more(
                        count_map(old(self).cardinality_counts@),
                        team,
                        k.metric,
                    )
                }
                &&& fate is KnownSeries ==> {
                    let s = old(self).series@[k];
                    &&& final(self).cardinality_counts == old(self).cardinality_counts
                    &&& final(self).series@.remove(k) == old(self).series@.remove(k)
                    &&& final(self).series@.contains_key(k)
                    &&& same_but_sample(s, final(self).series@[k], now)
                }
                &&& fate is Quarantine && old(self).quarantine_manager is Some ==> {
                    let m0 = old(self).quarantine_manager->0;
                    &&& final(self).quarantine_manager matches Some(m1)
                    &&& m1@.contains_key(k)
                    &&& is_quarantine(
                        m1@[k],
                        metric_name@,
                        labels@,
                        team,
                        budget_reason(b.current, b.limit),
                        now,
                        quarantined_for(budget_for(old(self).config.budgets@, team, k), m0.duration(), now),
                    )
                    &&& m1@.remove(k) == m0@.remove(k)
                    &&& m1.duration() == m0.duration()
                }
                &&& !(fate is Quarantine && old(self).quarantine_manager is Some) ==> final(self).quarantine_manager
                    == old(self).quarantine_manager
            }),
    {
        let ghost k = key_of(metric_name@, labels@);
        let team = self.team_extractor.extract_team(labels);
        if let Some(s) = self.series.get(metric_name, labels) {
            if s.is_quarantined {
                return ProcessResult::Dropped { reason: "Series is quarantined".to_owned() };
            }
        }
        let check = self.check_budget(team.as_str(), metric_name, labels);
        if check.exceeded {
            let mut reason = "Budget exceeded: ".to_owned();
            reason.append(decimal(check.current).as_str());
            reason.append("/");
            reason.append(decimal(check.limit).as_str());
            match check.enforcement_action {
                EnforcementAction::Warn => {},
                EnforcementAction::Quarantine => {
                    if self.config.enable_quarantine {
                        let default: i64 = match &self.quarantine_manager {
                            Some(m) => m.quarantine_duration(),
                            None => 0,
                        };
                        let length: i64 = quarantine_length(
                            self.budget_of(team.as_str(), metric_name, labels),
                            default,
                            now,
                        );
                        let manager = self.quarantine_manager.take();
                        if let Some(mut m) = manager {
                            m.quarantine_series_for(
                                metric_name,
                                labels,
                                team.as_str(),
                                reason.as_str(),
                                length,
                                now,
                            );
                            self.quarantine_manager = Some(m);
                        }
                        proof {
                            assert(self.consistent()) by {
                                unchanged_counts(*old(self), *self);
                            }
                        }
                        return ProcessResult::Quarantined { reason };
                    }
                },
                EnforcementAction::Drop => {
                    return ProcessResult::Dropped { reason };
                },
            }
        }
        match self.series.position(metric_name, labels) {
            Some(i) => {
                let s = self.series.at(i);
                let next: u64 = s.sample_count + 1;
                let updated = MetricSeries {
                    metric_name: s.metric_name.clone(),
                    labels: s.labels.copy(),
                    team: s.team.clone(),
                    first_seen: s.first_seen,
                    last_seen: now,
                    sample_count: next,
                    is_quarantined: s.is_quarantined,
                    quarantine_reason: copy_opt(&s.quarantine_reason),
                };
                self.series.replace_at(i, updated);
                proof {
                    let a = old(self).series.records();
                    let b = self.series.records();
                    assert(self.series@.remove(k) =~= old(self).series@.remove(k));
                    assert forall|t: Seq<char>, m: Seq<char>| #[trigger]
                        count_in(self.cardinality_counts@, t, m) == series_count(b, t, m) by {
                        assert(count_in(old(self).cardinality_counts@, t, m) == series_count(a, t, m));
                        series_count_same(a, b, t, m);
                    }
                }
                ProcessResult::Accepted
            },
            None => {
                if self.series_of_metric(metric_name) >= self.config.max_series_per_metric {
                    return ProcessResult::Dropped { reason: "Max series per metric reached".to_owned() };
                }
                let series = MetricSeries {
                    metric_name: metric_name.to_owned(),
                    labels: labels.copy(),
                    team: team.clone(),
                    first_seen: now,
                    last_seen: now,
                    sample_count: 1,
                    is_quarantined: false,
                    quarantine_reason: None,
                };
                let total: usize = self.series.len();
                proof {
                    assert(count_in(self.cardinality_counts@, team@, metric_name@) == series_count(
                        self.series.records(),
                        team@,
                        metric_name@,
                    ));
                    series_count_bound(self.series.records(), team@, metric_name@);
                }
                let ghost a = self.series.records();
                self.series.add_new(series);
                let grown: usize = self.series.len();
                let ghost mid = *self;
                self.count_one(team.as_str(), metric_name);
                proof {
                    let b = self.series.records();
                    assert forall|t: Seq<char>, m: Seq<char>| #[trigger]
                        count_in(self.cardinality_counts@, t, m) == series_count(b, t, m) by {
                        assert(count_in(old(self).cardinality_counts@, t, m) == series_count(a, t, m));
                        assert(b.drop_last() =~= a);
                        assert(b.last() == series);
                    }
                }
                ProcessResult::Accepted
            },
        }
    }
}

/// The series after one more sample: seen at `now`, and one sample more.
pub open spec fn same_but_sample(was: MetricSeries, now_: MetricSeries, now: i64) -> bool {
    &&& now_.metric_name@ == was.metric_name@
    &&& texts(now_.labels@) == texts(was.labels@)
    &&& now_.team@ == was.team@
    &&& now_.first_seen == was.first_seen
    &&& now_.last_seen == now
    &&& now_.sample_count == was.sample_count + 1
    &&& now_.is_quarantined == was.is_quarantined
    &&& opt_view(now_.quarantine_reason) == opt_view(was.quarantine_reason)
}

/// There are no more series of a team and metric than series.
proof fn series_count_bound(items: Seq<MetricSeries>, team: Seq<char>, metric: Seq<char>)
    ensures
        series_count(items, team, metric) <= items.len(),
    decreases items.len(),
{
    if items.len() > 0 {
        series_count_bound(items.drop_last(), team, metric);
    }
}

/// Records that agree on team and metric are counted alike.
proof fn series_count_same(a: Seq<MetricSeries>, b: Seq<MetricSeries>, team: Seq<char>, metric: Seq<char>)
    requires
        a.len() == b.len(),
        forall|i: int|
            0 <= i < a.len() ==> #[trigger] a[i].team@ == b[i].team@ && a[i].metric_name@ == b[i].metric_name@,
    ensures
        series_count(a, team, metric) == series_count(b, team, metric),
    decreases a.len(),
{
    if a.len() > 0 {
        assert forall|i: int| 0 <= i < a.drop_last().len() implies #[trigger] a.drop_last()[i].team@
            == b.drop_last()[i].team@ && a.drop_last()[i].metric_name@ == b.drop_last()[i].metric_name@ by {
            assert(a[i].team@ == b[i].team@);
        }
        series_count_same(a.drop_last(), b.drop_last(), team, metric);
        assert(a[a.len() - 1].team@ == b[a.len() - 1].team@);
    }
}

/// Where series and counts are unchanged, they stay consistent.
proof fn unchanged_counts(a: CardinalityCollector, b: CardinalityCollector)
    requires
        a.consistent(),
        a.series == b.series,
        a.cardinality_counts == b.cardinality_counts,
    ensures
        b.consistent(),
{
    assert forall|team: Seq<char>, metric: Seq<char>| #[trigger]
        count_in(b.cardinality_counts@, team, metric) == series_count(b.series.records(), team, metric) by {
        assert(count_in(a.cardinality_counts@, team, metric) == series_count(a.series.records(), team, metric));
    }
}

/// Where a budget is enforced, by dropping or by a quarantine that is switched on, a series is
/// taken in only while the combinations of the labels that count are under the limit; and in
/// any case only while its metric has room.
pub proof fn enforced_budgets_cap_cardinality(c: CardinalityCollector, k: SeriesKey)
    requires
        c.fate(k) is NewSeries,
    ensures
        metric_count(c.series.records(), k.metric) < c.config.max_series_per_metric,
        ({
            let team = c.team_extractor.team_of(k.labels);
            budget_for(c.config.budgets@, team, k) matches Some(b) ==> (b.enforcement_action is Drop
                || b.enforcement_action is Quarantine && c.config.enable_quarantine) ==> combinations(
                c.series.records(),
                k.metric,
                b,
            ).len() < b.limit
        }),
{
}

/// A budget without selectors that names no labels counts every series of its team and the
/// metric.
pub proof fn plain_budgets_count_every_series(items: Seq<MetricSeries>, metric: Seq<char>, b: BudgetSpec)
    requires
        record_keys(items).no_duplicates(),
        b.metric_selectors@.len() == 0,
        b.cardinality_labels@.len() == 0,
    ensures
        combinations(items, metric, b).finite(),
        combinations(items, metric, b).len() == series_count(items, b.team@, metric),
    decreases items.len(),
{
    if items.len() > 0 {
        let rest = items.drop_last();
        let n = rest.len() as int;
        assert(record_keys(rest) =~= record_keys(items).take(n));
        assert(record_keys(rest).no_duplicates());
        plain_budgets_count_every_series(rest, metric, b);
        let last = texts(items.last().labels@);
        if in_scope(items.last(), metric, b) && combinations(rest, metric, b).contains(last) {
            let i = combination_source(rest, metric, b, last);
            assert(record_keys(items)[i] == record_keys(items)[n]);
        }
    }
}

/// A series that a combination comes from.
proof fn combination_source(items: Seq<MetricSeries>, metric: Seq<char>, b: BudgetSpec, c: Map<
    Seq<char>,
    Seq<char>,
>) -> (i: int)
    requires
        b.cardinality_labels@.len() == 0,
        combinations(items, metric, b).contains(c),
    ensures
        0 <= i < items.len(),
        items[i].metric_name@ == metric,
        texts(items[i].labels@) == c,
    decreases items.len(),
{
    let last = items.last();
    if in_scope(last, metric, b) && texts(last.labels@) == c {
        items.len() - 1
    } else {
        combination_source(items.drop_last(), metric, b, c)
    }
}

proof fn budgets_are_tried_in_order(budgets: Seq<BudgetSpec>, team: Seq<char>, k: SeriesKey)
    ensures
        budget_for(budgets, team, k) is None <==> forall|i: int|
            0 <= i < budgets.len() ==> !budget_applies(#[trigger] budgets[i], team, k),
        forall|i: int|
            0 <= i < budgets.len() && budget_applies(#[trigger] budgets[i], team, k) && (forall|j: int|
                0 <= j < i ==> !budget_applies(#[trigger] budgets[j], team, k)) ==> budget_for(budgets, team, k) == Some(
                budgets[i],
            ),
    decreases budgets.len(),
{
    if budgets.len() > 0 {
        let rest = budgets.drop_first();
        budgets_are_tried_in_order(rest, team, k);
        if !budget_applies(budgets[0], team, k) {
            if budget_for(rest, team, k) is None {
                assert forall|i: int| 0 <= i < budgets.len() implies !budget_applies(#[trigger] budgets[i], team, k) by {
                    if i > 0 {
                        assert(rest[i - 1] == budgets[i]);
                    }
                }
            }
            if forall|i: int| 0 <= i < budgets.len() ==> !budget_applies(#[trigger] budgets[i], team, k) {
                assert forall|i: int| 0 <= i < rest.len() implies !budget_applies(#[trigger] rest[i], team, k) by {
                    assert(rest[i] == budgets[i + 1]);
                }
            }
        }
        assert forall|i: int|
            0 <= i < budgets.len() && budget_applies(#[trigger] budgets[i], team, k) && (forall|j: int|
                0 <= j < i ==> !budget_applies(#[trigger] budgets[j], team, k)) implies budget_for(budgets, team, k)
            == Some(budgets[i]) by {
            if i > 0 {
                assert(!budget_applies(budgets[0], team, k));
                assert(rest[i - 1] == budgets[i]);
                assert forall|j: int| 0 <= j < i - 1 implies !budget_applies(#[trigger] rest[j], team, k) by {
                    assert(rest[j] == budgets[j + 1]);
                }
            }
        }
    }
}

/// A budget is for the series of its own team, and where it has selectors, for those of them that
/// one selector describes: by the pattern of the metric's name and by every label that it asks for.
pub proof fn budgets_are_for_their_team(b: BudgetSpec, team: Seq<char>, k: SeriesKey)
    ensures
        budget_applies(b, team, k) ==> b.team@ == team,
        b.team@ == team && b.metric_selectors@.len() == 0 ==> budget_applies(b, team, k),
        b.team@ == team && b.metric_selectors@.len() > 0 ==> (budget_applies(b, team, k) <==> exists|i: int|
            0 <= i < b.metric_selectors@.len() && describes(
                (#[trigger] b.metric_selectors@[i]).metric_pattern@,
                k.metric,
            ) && forall|l: Seq<char>| #[trigger]
                texts(b.metric_selectors@[i].label_matchers@).contains_key(l) ==> k.labels.contains_key(l) && k.labels[l]
                    == texts(b.metric_selectors@[i].label_matchers@)[l]),
{
    let s = b.metric_selectors@;
    if exists|i: int|
        0 <= i < s.len() && describes((#[trigger] s[i]).metric_pattern@, k.metric) && forall|l: Seq<char>| #[trigger]
            texts(s[i].label_matchers@).contains_key(l) ==> k.labels.contains_key(l) && k.labels[l] == texts(
                s[i].label_matchers@,
            )[l] {
        let i = choose|i: int|
            0 <= i < s.len() && describes((#[trigger] s[i]).metric_pattern@, k.metric) && forall|l: Seq<char>| #[trigger]
                texts(s[i].label_matchers@).contains_key(l) ==> k.labels.contains_key(l) && k.labels[l] == texts(
                    s[i].label_matchers@,
                )[l];
        assert(selects(s[i], k));
    }
    if any_selects(s, k) {
        let i = choose|i: int| 0 <= i < s.len() && selects(#[trigger] s[i], k);
        assert(describes(s[i].metric_pattern@, k.metric));
    }
}

/// A sample under a budget that has no room left is quarantined or dropped, as the budget says; a
/// budget that only warns, or has room, keeps no sample out. The first budget that is for the
/// series decides, and a series that is under quarantine already is dropped before all that.
pub proof fn full_budgets_keep_samples_out(c: CardinalityCollector, k: SeriesKey, i: int)
    requires
        0 <= i < c.config.budgets@.len(),
        budget_applies(c.config.budgets@[i], c.team_extractor.team_of(k.labels), k),
        forall|j: int|
            0 <= j < i ==> !budget_applies(#[trigger] c.config.budgets@[j], c.team_extractor.team_of(k.labels), k),
    ensures
        ({
            let b = c.config.budgets@[i];
            let full = combinations(c.series.records(), k.metric, b).len() >= b.limit;
            let known = c.series@.contains_key(k);
            let held = known && c.series@[k].is_quarantined;
            &&& held ==> c.fate(k) is AlreadyQuarantined
            &&& !held && full && b.enforcement_action is Drop ==> c.fate(k) is OverBudget
            &&& !held && full && b.enforcement_action is Quarantine && c.config.enable_quarantine
                ==> c.fate(k) is Quarantine
            &&& !held && known && (!full || b.enforcement_action is Warn) ==> c.fate(k) is KnownSeries
            &&& !known && (!full || b.enforcement_action is Warn) && metric_count(c.series.records(), k.metric)
                < c.config.max_series_per_metric ==> c.fate(k) is NewSeries
            &&& !known && (!full || b.enforcement_action is Warn) && metric_count(c.series.records(), k.metric)
                >= c.config.max_series_per_metric ==> c.fate(k) is NoRoom
        }),
{
    budgets_are_tried_in_order(c.config.budgets@, c.team_extractor.team_of(k.labels), k);
}

/// A series that no budget is for is only bounded by the room for its metric.
pub proof fn series_without_a_budget_are_taken(c: CardinalityCollector, k: SeriesKey)
    requires
        forall|j: int|
            0 <= j < c.config.budgets@.len() ==> !budget_applies(
                #[trigger] c.config.budgets@[j],
                c.team_extractor.team_of(k.labels),
                k,
            ),
    ensures
        ({
            let known = c.series@.contains_key(k);
            let n = c.series.records().filter(|s: MetricSeries| s.metric_name@ == k.metric).len();
            &&& known && c.series@[k].is_quarantined ==> c.fate(k) is AlreadyQuarantined
            &&& known && !c.series@[k].is_quarantined ==> c.fate(k) is KnownSeries
            &&& !known && n < c.config.max_series_per_metric ==> c.fate(k) is NewSeries
            &&& !known && n >= c.config.max_series_per_metric ==> c.fate(k) is NoRoom
        }),
{
    budgets_are_tried_in_order(c.config.budgets@, c.team_extractor.team_of(k.labels), k);
    metric_counts_its_series(c.series.records(), k.metric);
}

proof fn metric_counts_its_series(items: Seq<MetricSeries>, metric: Seq<char>)
    ensures
        metric_count(items, metric) == items.filter(|s: MetricSeries| s.metric_name@ == metric).len(),
    decreases items.len(),
{
    reveal(Seq::filter);
    if items.len() > 0 {
        metric_counts_its_series(items.drop_last(), metric);
    }
}

/// The cardinality of a team's metric is the number of its series.
pub proof fn cardinality_counts_series(items: Seq<MetricSeries>, team: Seq<char>, metric: Seq<char>)
    ensures
        series_count(items, team, metric) == items.filter(
            |s: MetricSeries| s.team@ == team && s.metric_name@ == metric,
        ).len(),
    decreases items.len(),
{
    reveal(Seq::filter);
    if items.len() > 0 {
        cardinality_counts_series(items.drop_last(), team, metric);
    }
}

/// Two series count as one for a budget exactly where they agree on the labels that count; where the
/// budget names none, all labels count.
pub proof fn counted_labels_tell_series_apart(
    a: Map<Seq<char>, Seq<char>>,
    b: Map<Seq<char>, Seq<char>>,
    keys: Seq<Seq<char>>,
)
    ensures
        keys.len() == 0 ==> (counted_labels(a, keys) == counted_labels(b, keys) <==> a == b),
        keys.len() > 0 ==> (counted_labels(a, keys) == counted_labels(b, keys) <==> forall|i: int|
            0 <= i < keys.len() ==> {
                let key = #[trigger] keys[i];
                &&& a.contains_key(key) == b.contains_key(key)
                &&& a.contains_key(key) ==> a[key] == b[key]
            }),
{
    let x = counted_labels(a, keys);
    let y = counted_labels(b, keys);
    if keys.len() > 0 {
        if x == y {
            assert forall|i: int| 0 <= i < keys.len() implies {
                let key = #[trigger] keys[i];
                &&& a.contains_key(key) == b.contains_key(key)
                &&& a.contains_key(key) ==> a[key] == b[key]
            } by {
                let key = keys[i];
                assert(keys.to_set().contains(key));
                assert(x.contains_key(key) == a.contains_key(key));
                assert(y.contains_key(key) == b.contains_key(key));
                if a.contains_key(key) {
                    assert(x[key] == a[key]);
                    assert(y[key] == b[key]);
                }
            }
        }
        if forall|i: int|
            0 <= i < keys.len() ==> {
                let key = #[trigger] keys[i];
                &&& a.contains_key(key) == b.contains_key(key)
                &&& a.contains_key(key) ==> a[key] == b[key]
            } {
            assert forall|key: Seq<char>| x.contains_key(key) implies y.contains_key(key) && x[key] == y[key] by {
                let i = keys.index_of(key);
                assert(keys[i] == key);
            }
            assert forall|key: Seq<char>| y.contains_key(key) implies x.contains_key(key) by {
                let i = keys.index_of(key);
                assert(keys[i] == key);
            }
            assert(x =~= y);
        }
    }
}

/// What counts for a budget are the label combinations of its own series of the metric.
pub proof fn combinations_are_those_in_scope(
    items: Seq<MetricSeries>,
    metric: Seq<char>,
    b: BudgetSpec,
    m: Map<Seq<char>, Seq<char>>,
)
    ensures
        combinations(items, metric, b).contains(m) <==> exists|i: int|
            0 <= i < items.len() && (#[trigger] items[i]).metric_name@ == metric && budget_applies(
                b,
                items[i].team@,
                items[i].key(),
            ) && m == counted_labels(texts(items[i].labels@), views(b.cardinality_labels@)),
    decreases items.len(),
{
    if items.len() > 0 {
        let front = items.drop_last();
        combinations_are_those_in_scope(front, metric, b, m);
        if exists|i: int|
            0 <= i < items.len() && (#[trigger] items[i]).metric_name@ == metric && budget_applies(
                b,
                items[i].team@,
                items[i].key(),
            ) && m == counted_labels(texts(items[i].labels@), views(b.cardinality_labels@)) {
            let i = choose|i: int|
                0 <= i < items.len() && (#[trigger] items[i]).metric_name@ == metric && budget_applies(
                    b,
                    items[i].team@,
                    items[i].key(),
                ) && m == counted_labels(texts(items[i].labels@), views(b.cardinality_labels@));
            if i < front.len() {
                assert(front[i] == items[i]);
            }
        }
        if combinations(front, metric, b).contains(m) {
            let i = choose|i: int|
                0 <= i < front.len() && (#[trigger] front[i]).metric_name@ == metric && budget_applies(
                    b,
                    front[i].team@,
                    front[i].key(),
                ) && m == counted_labels(texts(front[i].labels@), views(b.cardinality_labels@));
            assert(items[i] == front[i]);
        }
        if combinations(items, metric, b).contains(m) && !combinations(front, metric, b).contains(m) {
            assert(items[items.len() - 1].metric_name@ == metric);
        }
    }
}

/// A series belongs to the team that the first of the team labels names, and to the default team
/// where it has none of them.
pub proof fn the_first_team_label_counts(
    keys: Seq<Seq<char>>,
    labels: Map<Seq<char>, Seq<char>>,
    fallback: Seq<char>,
    i: int,
)
    ensures
        0 <= i < keys.len() && labels.contains_key(keys[i]) && (forall|j: int|
            0 <= j < i ==> !labels.contains_key(#[trigger] keys[j])) ==> first_label(keys, labels, fallback)
            == labels[keys[i]],
        (forall|j: int| 0 <= j < keys.len() ==> !labels.contains_key(#[trigger] keys[j])) ==> first_label(
            keys,
            labels,
            fallback,
        ) == fallback,
    decreases keys.len(),
{
    if keys.len() > 0 {
        let rest = keys.drop_first();
        the_first_team_label_counts(rest, labels, fallback, i - 1);
        assert forall|j: int| 0 <= j < rest.len() implies #[trigger] rest[j] == keys[j + 1] by {}
        if i > 0 && i < keys.len() && forall|j: int| 0 <= j < i ==> !labels.contains_key(#[trigger] keys[j]) {
            assert(!labels.contains_key(keys[0]));
            assert forall|j: int| 0 <= j < i - 1 implies !labels.contains_key(#[trigger] rest[j]) by {
                assert(rest[j] == keys[j + 1]);
            }
            assert(rest[i - 1] == keys[i]);
        }
        if forall|j: int| 0 <= j < keys.len() ==> !labels.contains_key(#[trigger] keys[j]) {
            assert(!labels.contains_key(keys[0]));
            assert forall|j: int| 0 <= j < rest.len() implies !labels.contains_key(#[trigger] rest[j]) by {
                assert(rest[j] == keys[j + 1]);
            }
        }
    }
}

/// A series is held in quarantine for as long as its budget says, in seconds, and for the default
/// time where no budget says so.
pub proof fn budgets_say_how_long_to_quarantine(b: BudgetSpec, default: i64, now: i64, n: int)
    requires
        seconds_of(b.quarantine_duration@) is Ok,
        seconds_of(b.quarantine_duration@)->Ok_0 == n,
        0 <= n * 1_000_000,
        now + n * 1_000_000 <= i64::MAX,
        n * 1_000_000 <= i64::MAX,
    ensures
        quarantined_for(Some(b), default, now) == n * 1_000_000,
        quarantined_for(None, default, now) == default,
{
}

/// The published use of budgets has one line for each budget of each team, with the team's total.
pub proof fn every_budget_is_published(team: Seq<char>, total: int, budgets: Seq<BudgetSpec>, i: int)
    requires
        0 <= i < budgets.len(),
        budgets[i].team@ == team,
    ensures
        team_uses(team, total, budgets).contains(BudgetUse { team, total, limit: budgets[i].limit }),
        team_uses(team, total, budgets).len() == budgets.filter(|b: BudgetSpec| b.team@ == team).len(),
    decreases budgets.len(),
{
    let front = budgets.drop_last();
    uses_are_counted(team, total, budgets);
    let u = BudgetUse { team, total, limit: budgets[i].limit };
    if i < front.len() {
        assert(front[i] == budgets[i]);
        every_budget_is_published(team, total, front, i);
        let k = team_uses(team, total, front).index_of(u);
        assert(team_uses(team, total, budgets)[k] == u);
    } else {
        assert(team_uses(team, total, budgets).last() == u);
    }
}

proof fn uses_are_counted(team: Seq<char>, total: int, budgets: Seq<BudgetSpec>)
    ensures
        team_uses(team, total, budgets).len() == budgets.filter(|b: BudgetSpec| b.team@ == team).len(),
    decreases budgets.len(),
{
    reveal(Seq::filter);
    if budgets.len() > 0 {
        uses_are_counted(team, total, budgets.drop_last());
    }
}

/// A series more raises the count of its team and metric by one and leaves every other count.
pub proof fn one_series_counts_once(
    m: Map<Seq<char>, Map<Seq<char>, u64>>,
    team: Seq<char>,
    metric: Seq<char>,
    other: Seq<char>,
    other_metric: Seq<char>,
)
    ensures
        with_one_more(m, team, metric).contains_key(team),
        with_one_more(m, team, metric)[team].contains_key(metric),
        m.contains_key(team) && m[team].contains_key(metric) && m[team][metric] < u64::MAX ==> with_one_more(
            m,
            team,
            metric,
        )[team][metric] == m[team][metric] + 1,
        !(m.contains_key(team) && m[team].contains_key(metric)) ==> with_one_more(m, team, metric)[team][metric] == 1,
        other != team ==> (with_one_more(m, team, metric).contains_key(other) <==> m.contains_key(other)),
        other != team && m.contains_key(other) ==> with_one_more(m, team, metric)[other] == m[other],
        other_metric != metric && m.contains_key(team) && m[team].contains_key(other_metric) ==> with_one_more(
            m,
            team,
            metric,
        )[team].contains_key(other_metric) && with_one_more(m, team, metric)[team][other_metric]
            == m[team][other_metric],
{
}

/// A budget that is used up is told with what is used and what it allows.
pub proof fn reasons_tell_use_and_limit(current: u64, limit: u64)
    ensures
        budget_reason(current, limit) == "Budget exceeded: "@ + dec(current as nat) + "/"@ + dec(limit as nat),
{
}

/// A sample of a known series counts once and moves its last sight to now; nothing else of it
/// changes.
pub proof fn samples_are_counted_once(was: MetricSeries, after: MetricSeries, now: i64)
    requires
        same_but_sample(was, after, now),
    ensures
        after.sample_count - was.sample_count == 1,
        after.last_seen == now,
        after.first_seen == was.first_seen,
        after.metric_name@ == was.metric_name@ && after.team@ == was.team@,
        after.is_quarantined == was.is_quarantined && opt_view(after.quarantine_reason) == opt_view(
            was.quarantine_reason,
        ),
        texts(after.labels@) == texts(was.labels@),
{
}

/// The use of every budget of every team is published with the series that the team has.
pub proof fn every_team_is_published(
    pairs: Seq<(String, StrMap<u64>)>,
    budgets: Seq<BudgetSpec>,
    i: int,
    k: int,
)
    requires
        0 <= i < pairs.len(),
        0 <= k < budgets.len(),
        budgets[k].team@ == pairs[i].0@,
    ensures
        all_uses(pairs, budgets).contains(
            BudgetUse { team: pairs[i].0@, total: sum_counts(pairs[i].1.pairs()), limit: budgets[k].limit },
        ),
    decreases pairs.len(),
{
    let front = pairs.drop_last();
    let u = BudgetUse { team: pairs[i].0@, total: sum_counts(pairs[i].1.pairs()), limit: budgets[k].limit };
    let before = all_uses(front, budgets);
    let own = team_uses(pairs.last().0@, sum_counts(pairs.last().1.pairs()), budgets);
    let all = all_uses(pairs, budgets);
    assert(all == before + own);
    if i < front.len() {
        assert(front[i] == pairs[i]);
        every_team_is_published(front, budgets, i, k);
        let j = before.index_of(u);
        assert(all[j] == u);
    } else {
        every_budget_is_published(pairs[i].0@, sum_counts(pairs[i].1.pairs()), budgets, k);
        let j = own.index_of(u);
        assert(all[before.len() + j] == u);
    }
}

/// The count of a team's metric is the number of its series, and nothing is counted without one.
pub proof fn counts_are_of_series(c: CardinalityCollector, team: Seq<char>, metric: Seq<char>)
    requires
        c.consistent(),
    ensures
        ({
            let n = c.series.records().filter(|s: MetricSeries| s.team@ == team && s.metric_name@ == metric).len();
            &&& c.cardinality_counts@.contains_key(team) && c.cardinality_counts@[team]@.contains_key(metric)
                ==> c.cardinality_counts@[team]@[metric] == n
            &&& !(c.cardinality_counts@.contains_key(team) && c.cardinality_counts@[team]@.contains_key(metric)) ==> n
                == 0
        }),
{
    cardinality_counts_series(c.series.records(), team, metric);
    assert(count_in(c.cardinality_counts@, team, metric) == series_count(c.series.records(), team, metric));
}

} // verus!
