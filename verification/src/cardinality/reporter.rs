//! Reports on budgets, and alerts about them.

use vstd::prelude::*;
#[allow(unused_imports)]
use vstd::string::*;
use crate::cardinality::budget::BudgetPhase;
#[allow(unused_imports)]
use crate::strmap::StrMap;
#[allow(unused_imports)]
use crate::text::{ascii_lower, is_ascii_text, to_lowercase};

verus! {

/// Reporter configuration.
pub struct ReporterConfig {
    /// Report interval, in seconds.
    pub report_interval: i64,
    /// Enable cost allocation reporting.
    pub enable_cost_reporting: bool,
    /// Enable quarantine reporting.
    pub enable_quarantine_reporting: bool,
    /// Alert on budget exceeded.
    pub alert_on_exceeded: bool,
    /// Webhook URL for alerts.
    pub alert_webhook_url: Option<String>,
}

impl Default for ReporterConfig {
    fn default() -> (c: Self)
        ensures
            c.report_interval == 300,
            c.enable_cost_reporting,
            c.enable_quarantine_reporting,
            c.alert_on_exceeded,
            c.alert_webhook_url is None,
    {
        ReporterConfig {
            report_interval: 300,
            enable_cost_reporting: true,
            enable_quarantine_reporting: true,
            alert_on_exceeded: true,
            alert_webhook_url: None,
        }
    }
}

/// Labels of the phase gauge.
#[derive(Debug, Clone, Hash, PartialEq, Eq)]
pub struct BudgetPhaseLabels {
    pub team: String,
    pub metric_name: String,
    pub phase: String,
}

/// Labels of per-team gauges.
#[derive(Debug, Clone, Hash, PartialEq, Eq)]
pub struct TeamLabels {
    pub team: String,
}

/// Labels of the alert counter.
#[derive(Debug, Clone, Hash, PartialEq, Eq)]
pub struct AlertLabels {
    pub team: String,
    pub alert_type: String,
    pub severity: String,
}

/// The record of an alert, by which repeats are held back. Instants are in microseconds
/// since the epoch.
#[derive(Debug, PartialEq, Eq)]
pub struct AlertState {
    pub alert_key: String,
    pub first_fired: i64,
    pub last_fired: i64,
    pub fire_count: u32,
    pub acknowledged: bool,
}

impl Clone for AlertState {
    fn clone(&self) -> (r: Self)
        ensures
            r == *self,
    {
        AlertState {
            alert_key: self.alert_key.clone(),
            first_fired: self.first_fired,
            last_fired: self.last_fired,
            fire_count: self.fire_count,
            acknowledged: self.acknowledged,
        }
    }
}

/// An alert that was fired, for the caller to count and send.
#[derive(Debug)]
pub struct FiredAlert {
    pub team: String,
    pub metric: String,
    pub phase: BudgetPhase,
    pub severity: String,
    pub alert_type: String,
}

/// What a reporting cycle found.
#[derive(Debug)]
pub struct ReportSummary {
    /// In microseconds since the epoch.
    pub timestamp: i64,
    pub teams_checked: u32,
    pub budgets_warning: u32,
    pub budgets_critical: u32,
    pub budgets_exceeded: u32,
    pub total_quarantined: u64,
    /// The number of alerts that fired.
    pub alerts_fired: u32,
}

/// The phase of a budget of which `count` of `limit` are used: exceeded from the limit on,
/// critical from nine tenths of it, warning from seven tenths.
pub open spec fn phase_of(count: int, limit: int) -> BudgetPhase {
    if count >= limit {
        BudgetPhase::Exceeded
    } else if count * 10 >= limit * 9 {
        BudgetPhase::Critical
    } else if count * 10 >= limit * 7 {
        BudgetPhase::Warning
    } else {
        BudgetPhase::Healthy
    }
}

/// The phase of a budget of which `count` of `limit` are used.
pub fn determine_phase(count: u64, limit: u64) -> (p: BudgetPhase)
    ensures
        p == phase_of(count as int, limit as int),
{
    if count >= limit {
        BudgetPhase::Exceeded
    } else if count as u128 * 10 >= limit as u128 * 9 {
        BudgetPhase::Critical
    } else if count as u128 * 10 >= limit as u128 * 7 {
        BudgetPhase::Warning
    } else {
        BudgetPhase::Healthy
    }
}

/// More use never makes a budget look better.
pub proof fn phases_escalate(a: int, b: int, limit: int)
    requires
        a <= b,
    ensures
        phase_of(a, limit) is Exceeded ==> phase_of(b, limit) is Exceeded,
        phase_of(a, limit) is Critical ==> phase_of(b, limit) is Critical || phase_of(b, limit) is Exceeded,
        phase_of(a, limit) is Warning ==> !(phase_of(b, limit) is Healthy),
{
}

/// The severity of an alert about a budget in this phase.
pub open spec fn severity_of(p: BudgetPhase) -> Seq<char> {
    match p {
        BudgetPhase::Exceeded => "critical"@,
        BudgetPhase::Critical => "high"@,
        BudgetPhase::Warning => "medium"@,
        BudgetPhase::Healthy => "low"@,
    }
}

/// The severity of an alert about a budget in this phase.
pub fn severity(p: BudgetPhase) -> (s: &'static str)
    ensures
        s@ == severity_of(p),
{
    match p {
        BudgetPhase::Exceeded => "critical",
        BudgetPhase::Critical => "high",
        BudgetPhase::Warning => "medium",
        BudgetPhase::Healthy => "low",
    }
}

/// The key of an alert.
pub open spec fn alert_key_of(team: Seq<char>, metric: Seq<char>, p: BudgetPhase) -> Seq<char> {
    team + ":"@ + metric + ":"@ + p.label()
}

/// The key of an alert.
fn alert_key(team: &str, metric: &str, phase: BudgetPhase) -> (key: String)
    ensures
        key@ == alert_key_of(team@, metric@, phase),
{
    let mut key = team.to_owned();
    key.append(":");
    key.append(metric);
    key.append(":");
    key.append(phase.name());
    key
}

/// What is on record of an alert.
pub struct AlertRecord {
    pub alert_key: Seq<char>,
    pub first_fired: i64,
    pub last_fired: i64,
    pub fire_count: u32,
    pub acknowledged: bool,
}

/// What is on record of all alerts.
pub open spec fn records_of(m: Map<Seq<char>, AlertState>) -> Map<Seq<char>, AlertRecord> {
    m.map_values(
        |s: AlertState|
            AlertRecord {
                alert_key: s.alert_key@,
                first_fired: s.first_fired,
                last_fired: s.last_fired,
                fire_count: s.fire_count,
                acknowledged: s.acknowledged,
            },
    )
}

/// An alert that is on record fires again after a quarter of an hour, or at once where the
/// limit is passed; one that is not on record fires.
pub open spec fn fires(m: Map<Seq<char>, AlertRecord>, key: Seq<char>, passed: bool, now: i64) -> bool {
    m.contains_key(key) ==> now - m[key].last_fired > 900_000_000 || passed
}

/// The records after an alert with this key has fired.
pub open spec fn fire(m: Map<Seq<char>, AlertRecord>, key: Seq<char>, now: i64) -> Map<Seq<char>, AlertRecord> {
    m.insert(
        key,
        AlertRecord {
            alert_key: key,
            first_fired: if m.contains_key(key) {
                m[key].first_fired
            } else {
                now
            },
            last_fired: now,
            fire_count: if m.contains_key(key) {
                (m[key].fire_count + 1) as u32
            } else {
                1
            },
            acknowledged: false,
        },
    )
}

/// The alert was fired for this metric.
pub open spec fn is_fired(a: FiredAlert, team: Seq<char>, metric: Seq<char>, p: BudgetPhase) -> bool {
    &&& a.team@ == team
    &&& a.metric@ == metric
    &&& a.phase == p
    &&& a.severity@ == severity_of(p)
    &&& a.alert_type@ == alert_type_of(p)
}

/// The type of the alert about a phase.
pub open spec fn alert_type_of(p: BudgetPhase) -> Seq<char> {
    match p {
        BudgetPhase::Healthy => "budget_healthy"@,
        BudgetPhase::Warning => "budget_warning"@,
        BudgetPhase::Critical => "budget_critical"@,
        BudgetPhase::Exceeded => "budget_exceeded"@,
    }
}

/// In lower case the names of the phases are the types of their alerts.
proof fn lower_names(p: BudgetPhase, kind: Seq<char>)
    requires
        kind == "budget_"@ + p.label(),
    ensures
        is_ascii_text(kind),
        kind.map_values(|c: char| ascii_lower(c)) == alert_type_of(p),
{
    reveal_strlit("budget_");
    reveal_strlit("Healthy");
    reveal_strlit("Warning");
    reveal_strlit("Critical");
    reveal_strlit("Exceeded");
    reveal_strlit("budget_healthy");
    reveal_strlit("budget_warning");
    reveal_strlit("budget_critical");
    reveal_strlit("budget_exceeded");
    assert(kind.map_values(|c: char| ascii_lower(c)) =~= alert_type_of(p));
}

/// The limit of every team's budget.
pub const TEAM_LIMIT: u64 = 10000;

/// One series count of a team's metric.
pub struct MetricCount {
    pub team: Seq<char>,
    pub metric: Seq<char>,
    pub count: u64,
}

/// The series counts of one team, in metric order.
pub open spec fn team_counts(team: Seq<char>, pairs: Seq<(String, u64)>) -> Seq<MetricCount> {
    Seq::new(pairs.len(), |i: int| MetricCount { team, metric: pairs[i].0@, count: pairs[i].1 })
}

/// The series counts of all teams, in team and metric order.
pub open spec fn all_counts(pairs: Seq<(String, StrMap<u64>)>) -> Seq<MetricCount>
    decreases pairs.len(),
{
    if pairs.len() == 0 {
        Seq::empty()
    } else {
        all_counts(pairs.drop_last()) + team_counts(pairs.last().0@, pairs.last().1.pairs())
    }
}

/// The sum of the counts.
pub open spec fn sum_counts(pairs: Seq<(String, u64)>) -> int
    decreases pairs.len(),
{
    if pairs.len() == 0 {
        0
    } else {
        sum_counts(pairs.drop_last()) + pairs.last().1
    }
}

/// How many teams' budgets are in this phase.
pub open spec fn teams_in(pairs: Seq<(String, StrMap<u64>)>, p: BudgetPhase) -> nat
    decreases pairs.len(),
{
    if pairs.len() == 0 {
        0
    } else {
        teams_in(pairs.drop_last(), p) + (if phase_of(
            sum_counts(pairs.last().1.pairs()),
            TEAM_LIMIT as int,
        ) == p {
            1nat
        } else {
            0nat
        })
    }
}

/// The alert records after these counts have been gone through.
pub open spec fn records_after(
    m: Map<Seq<char>, AlertRecord>,
    counts: Seq<MetricCount>,
    now: i64,
) -> Map<Seq<char>, AlertRecord>
    decreases counts.len(),
{
    if counts.len() == 0 {
        m
    } else {
        let before = records_after(m, counts.drop_last(), now);
        let c = counts.last();
        let key = alert_key_of(c.team, c.metric, phase_of(c.count as int, TEAM_LIMIT as int));
        if fires(before, key, c.count > TEAM_LIMIT, now) {
            fire(before, key, now)
        } else {
            before
        }
    }
}

/// No alert that fires while these counts are gone through has fired as often as can be counted.
pub open spec fn countable(m: Map<Seq<char>, AlertRecord>, counts: Seq<MetricCount>, now: i64) -> bool
    decreases counts.len(),
{
    counts.len() > 0 ==> {
        let before = records_after(m, counts.drop_last(), now);
        let c = counts.last();
        let key = alert_key_of(c.team, c.metric, phase_of(c.count as int, TEAM_LIMIT as int));
        &&& countable(m, counts.drop_last(), now)
        &&& before.contains_key(key) && fires(before, key, c.count > TEAM_LIMIT, now) ==> before[key].fire_count
            < u32::MAX
    }
}

/// The counts about which an alert fires, in order.
pub open spec fn firing(m: Map<Seq<char>, AlertRecord>, counts: Seq<MetricCount>, now: i64) -> Seq<MetricCount>
    decreases counts.len(),
{
    if counts.len() == 0 {
        Seq::empty()
    } else {
        let before = records_after(m, counts.drop_last(), now);
        let c = counts.last();
        let key = alert_key_of(c.team, c.metric, phase_of(c.count as int, TEAM_LIMIT as int));
        if fires(before, key, c.count > TEAM_LIMIT, now) {
            firing(m, counts.drop_last(), now).push(c)
        } else {
            firing(m, counts.drop_last(), now)
        }
    }
}

/// The alerts are those about these counts, in order.
pub open spec fn alerts_for(alerts: Seq<FiredAlert>, counts: Seq<MetricCount>) -> bool {
    &&& alerts.len() == counts.len()
    &&& forall|i: int|
        0 <= i < alerts.len() ==> is_fired(
            #[trigger] alerts[i],
            counts[i].team,
            counts[i].metric,
            phase_of(counts[i].count as int, TEAM_LIMIT as int),
        )
}

/// Where all firings can be counted, the first ones can.
proof fn countable_start(m: Map<Seq<char>, AlertRecord>, counts: Seq<MetricCount>, now: i64, k: int)
    requires
        countable(m, counts, now),
        0 <= k <= counts.len(),
    ensures
        countable(m, counts.take(k), now),
    decreases counts.len(),
{
    if k < counts.len() {
        countable_start(m, counts.drop_last(), now, k);
        assert(counts.drop_last().take(k) =~= counts.take(k));
    } else {
        assert(counts.take(k) =~= counts);
    }
}

/// The counts of the first teams are the first counts.
proof fn all_counts_start(pairs: Seq<(String, StrMap<u64>)>, k: int)
    requires
        0 <= k <= pairs.len(),
    ensures
        all_counts(pairs.take(k)).len() <= all_counts(pairs).len(),
        all_counts(pairs).take(all_counts(pairs.take(k)).len() as int) == all_counts(pairs.take(k)),
    decreases pairs.len() - k,
{
    let own = all_counts(pairs.take(k));
    if k < pairs.len() {
        all_counts_start(pairs, k + 1);
        assert(pairs.take(k + 1).drop_last() =~= pairs.take(k));
        let next = all_counts(pairs.take(k + 1));
        assert(next.take(own.len() as int) =~= own);
        assert(all_counts(pairs).take(own.len() as int) =~= all_counts(pairs).take(next.len() as int).take(
            own.len() as int,
        ));
    } else {
        assert(pairs.take(k) =~= pairs);
        assert(own.take(own.len() as int) =~= own);
    }
}

/// Fewer counts have no larger sum.
pub proof fn sum_counts_grows(pairs: Seq<(String, u64)>, k: int)
    requires
        0 <= k <= pairs.len(),
    ensures
        0 <= sum_counts(pairs.take(k)) <= sum_counts(pairs),
    decreases pairs.len(),
{
    if k == pairs.len() {
        assert(pairs.take(k) =~= pairs);
        if k > 0 {
            sum_counts_grows(pairs.drop_last(), k - 1);
        }
    } else {
        assert(pairs.drop_last().take(k) =~= pairs.take(k));
        sum_counts_grows(pairs.drop_last(), k);
    }
}

/// The sum of a team's series counts.
pub fn team_total(counts: &StrMap<u64>) -> (total: u64)
    requires
        sum_counts(counts.pairs()) <= u64::MAX,
    ensures
        total == sum_counts(counts.pairs()),
{
    let n: usize = counts.len();
    let ghost pairs = counts.pairs();
    let mut total: u64 = 0;
    let mut i: usize = 0;
    while i < n
        invariant
            i <= n == pairs.len(),
            pairs == counts.pairs(),
            sum_counts(pairs) <= u64::MAX,
            total == sum_counts(pairs.take(i as int)),
        decreases n - i,
    {
        proof {
            assert(pairs.take(i as int + 1).drop_last() =~= pairs.take(i as int));
            assert(pairs.take(i as int + 1).last() == pairs[i as int]);
            sum_counts_grows(pairs, i as int + 1);
        }
        total = total + *counts.value_at(i);
        i = i + 1;
    }
    proof {
        assert(pairs.take(n as int) =~= pairs);
    }
    total
}

/// Cardinality reporter for budget monitoring and alerting.
pub struct CardinalityReporter {
    pub config: ReporterConfig,
    /// The alerts on record, by key.
    pub alert_states: StrMap<AlertState>,
}

impl CardinalityReporter {
    /// Create a new reporter.
    pub fn new(config: ReporterConfig) -> (r: Self)
        ensures
            r.config == config,
            r.alert_states@ == Map::<Seq<char>, AlertState>::empty(),
    {
        CardinalityReporter { config, alert_states: StrMap::new() }
    }

    /// The limit of a team's budget.
    pub fn get_budget_limit(&self, team: &str) -> (n: u64)
        ensures
            n == 10000,
    {
        TEAM_LIMIT
    }

    /// Fires the alert about a metric's budget unless it is held back. `passed` says that
    /// the metric has more series than the limit.
    pub fn check_and_fire_alert(
        &mut self,
        team: &str,
        metric: &str,
        phase: BudgetPhase,
        passed: bool,
        now: i64,
    ) -> (r: Option<FiredAlert>)
        requires
            ({
                let key = alert_key_of(team@, metric@, phase);
                let before = records_of(old(self).alert_states@);
                before.contains_key(key) && fires(before, key, passed, now) ==> before[key].fire_count < u32::MAX
            }),
        ensures
            final(self).config == old(self).config,
            ({
                let key = alert_key_of(team@, metric@, phase);
                let before = records_of(old(self).alert_states@);
                if fires(before, key, passed, now) {
                    &&& r matches Some(a) && is_fired(a, team@, metric@, phase)
                    &&& records_of(final(self).alert_states@) == fire(before, key, now)
                } else {
                    r is None && final(self).alert_states == old(self).alert_states
                }
            }),
    {
        let key = alert_key(team, metric, phase);
        let ghost before = records_of(self.alert_states@);
        let known: Option<(i64, u32)> = match self.alert_states.get(key.as_str()) {
            Some(s) => {
                proof {
                    assert(before.contains_key(key@));
                }
                if !(now as i128 - s.last_fired as i128 > 900_000_000 || passed) {
                    return None;
                }
                Some((s.first_fired, s.fire_count))
            },
            None => None,
        };
        let first_fired: i64 = match known {
            Some((t, _)) => t,
            None => now,
        };
        let fire_count: u32 = match known {
            Some((_, n)) => n + 1,
            None => 1,
        };
        self.alert_states.insert(
            key.clone(),
            AlertState { alert_key: key.clone(), first_fired, last_fired: now, fire_count, acknowledged: false },
        );
        proof {
            assert(records_of(self.alert_states@) =~= fire(before, key@, now));
        }
        let mut kind = "budget_".to_owned();
        kind.append(phase.name());
        proof {
            lower_names(phase, kind@);
        }
        Some(
            FiredAlert {
                team: team.to_owned(),
                metric: metric.to_owned(),
                phase,
                severity: severity(phase).to_owned(),
                alert_type: to_lowercase(kind.as_str()),
            },
        )
    }

    /// Goes through the metrics of one team.
    fn alert_team(&mut self, team: &str, counts: &StrMap<u64>, now: i64, alerts: &mut Vec<FiredAlert>, Ghost(m): Ghost<
        Map<Seq<char>, AlertRecord>,
    >, Ghost(done): Ghost<Seq<MetricCount>>)
        requires
            countable(m, done + team_counts(team@, counts.pairs()), now),
            records_of(old(self).alert_states@) == records_after(m, done, now),
            alerts_for(old(alerts)@, firing(m, done, now)),
        ensures
            final(self).config == old(self).config,
            records_of(final(self).alert_states@) == records_after(m, done + team_counts(team@, counts.pairs()), now),
            alerts_for(final(alerts)@, firing(m, done + team_counts(team@, counts.pairs()), now)),
    {
        let n: usize = counts.len();
        let ghost own = team_counts(team@, counts.pairs());
        let mut i: usize = 0;
        proof {
            assert(done + own.take(0) =~= done);
        }
        while i < n
            invariant
                i <= n == counts.pairs().len(),
                own == team_counts(team@, counts.pairs()),
                countable(m, done + own, now),
                self.config == old(self).config,
                records_of(self.alert_states@) == records_after(m, done + own.take(i as int), now),
                alerts_for(alerts@, firing(m, done + own.take(i as int), now)),
            decreases n - i,
        {
            let metric = counts.key_at(i);
            let count: u64 = *counts.value_at(i);
            let phase = determine_phase(count, TEAM_LIMIT);
            let ghost next = done + own.take(i as int + 1);
            let ghost before = firing(m, done + own.take(i as int), now);
            proof {
                assert(next.drop_last() =~= done + own.take(i as int));
                assert(next.last() == own[i as int]);
                countable_start(m, done + own, now, done.len() + i as int + 1);
                assert((done + own).take(done.len() + i as int + 1) =~= next);
            }
            if let Some(a) = self.check_and_fire_alert(team, metric.as_str(), phase, count > TEAM_LIMIT, now) {
                let ghost was = alerts@;
                alerts.push(a);
                proof {
                    assert(firing(m, next, now) == before.push(own[i as int]));
                    assert forall|j: int| 0 <= j < alerts@.len() implies is_fired(
                        #[trigger] alerts@[j],
                        firing(m, next, now)[j].team,
                        firing(m, next, now)[j].metric,
                        phase_of(firing(m, next, now)[j].count as int, TEAM_LIMIT as int),
                    ) by {
                        if j < was.len() {
                            assert(alerts@[j] == was[j]);
                        }
                    }
                }
            }
            i = i + 1;
        }
        proof {
            assert(own.take(n as int) =~= own);
        }
    }

    /// Run a single reporting cycle over the series counts per team. `quarantined` is the
    /// number of quarantined series where a quarantine manager is at hand. The alerts that
    /// fired are handed back for sending.
    pub fn report_cycle(&mut self, counts: &StrMap<StrMap<u64>>, quarantined: Option<u64>, now: i64) -> (r: (
        ReportSummary,
        Vec<FiredAlert>,
    ))
        requires
            counts.pairs().len() <= u32::MAX,
            forall|i: int|
                0 <= i < counts.pairs().len() ==> sum_counts(#[trigger] counts.pairs()[i].1.pairs()) <= u64::MAX,
            old(self).config.alert_on_exceeded ==> countable(
                records_of(old(self).alert_states@),
                all_counts(counts.pairs()),
                now,
            ),
        ensures
            final(self).config == old(self).config,
            r.0.timestamp == now,
            r.0.teams_checked == counts.pairs().len(),
            r.0.budgets_warning == teams_in(counts.pairs(), BudgetPhase::Warning),
            r.0.budgets_critical == teams_in(counts.pairs(), BudgetPhase::Critical),
            r.0.budgets_exceeded == teams_in(counts.pairs(), BudgetPhase::Exceeded),
            r.0.total_quarantined == if old(self).config.enable_quarantine_reporting && quarantined is Some {
                quarantined->0
            } else {
                0
            },
            r.0.alerts_fired == if r.1@.len() <= u32::MAX {
                r.1@.len() as int
            } else {
                u32::MAX as int
            },
            old(self).config.alert_on_exceeded ==> {
                let m = records_of(old(self).alert_states@);
                &&& records_of(final(self).alert_states@) == records_after(m, all_counts(counts.pairs()), now)
                &&& alerts_for(r.1@, firing(m, all_counts(counts.pairs()), now))
            },
            !old(self).config.alert_on_exceeded ==> final(self).alert_states == old(self).alert_states && r.1@.len() == 0,
    {
        let n: usize = counts.len();
        let ghost pairs = counts.pairs();
        let ghost m = records_of(self.alert_states@);
        let alerting = self.config.alert_on_exceeded;
        let mut alerts: Vec<FiredAlert> = Vec::new();
        let mut warning: u32 = 0;
        let mut critical: u32 = 0;
        let mut exceeded: u32 = 0;
        let mut i: usize = 0;
        proof {
            assert(pairs.take(0) =~= Seq::<(String, StrMap<u64>)>::empty());
        }
        while i < n
            invariant
                i <= n == pairs.len(),
                n <= u32::MAX,
                pairs == counts.pairs(),
                alerting ==> countable(m, all_counts(pairs), now),
                forall|i: int| 0 <= i < pairs.len() ==> sum_counts(#[trigger] pairs[i].1.pairs()) <= u64::MAX,
                self.config == old(self).config,
                alerting == old(self).config.alert_on_exceeded,
                warning == teams_in(pairs.take(i as int), BudgetPhase::Warning),
                critical == teams_in(pairs.take(i as int), BudgetPhase::Critical),
                exceeded == teams_in(pairs.take(i as int), BudgetPhase::Exceeded),
                warning + critical + exceeded <= i,
                alerting ==> records_of(self.alert_states@) == records_after(m, all_counts(pairs.take(i as int)), now),
                alerting ==> alerts_for(alerts@, firing(m, all_counts(pairs.take(i as int)), now)),
                !alerting ==> self.alert_states == old(self).alert_states && alerts@.len() == 0,
            decreases n - i,
        {
            proof {
                assert(pairs.take(i as int + 1).drop_last() =~= pairs.take(i as int));
                assert(pairs.take(i as int + 1).last() == pairs[i as int]);
            }
            let team = counts.key_at(i);
            let own = counts.value_at(i);
            let total: u64 = team_total(own);
            let phase = determine_phase(total, TEAM_LIMIT);
            if alerting {
                proof {
                    all_counts_start(pairs, i as int + 1);
                    countable_start(m, all_counts(pairs), now, all_counts(pairs.take(i as int + 1)).len() as int);
                }
                self.alert_team(
                    team.as_str(),
                    own,
                    now,
                    &mut alerts,
                    Ghost(m),
                    Ghost(all_counts(pairs.take(i as int))),
                );
            }
            match phase {
                BudgetPhase::Warning => {
                    warning = warning + 1;
                },
                BudgetPhase::Critical => {
                    critical = critical + 1;
                },
                BudgetPhase::Exceeded => {
                    exceeded = exceeded + 1;
                },
                BudgetPhase::Healthy => {},
            }
            i = i + 1;
        }
        proof {
            assert(pairs.take(n as int) =~= pairs);
        }
        let total_quarantined: u64 = match quarantined {
            Some(q) => if self.config.enable_quarantine_reporting {
                q
            } else {
                0
            },
            None => 0,
        };
        let fired: usize = alerts.len();
        let alerts_fired: u32 = if fired <= u32::MAX as usize {
            fired as u32
        } else {
            u32::MAX
        };
        let summary = ReportSummary {
            timestamp: now,
            teams_checked: n as u32,
            budgets_warning: warning,
            budgets_critical: critical,
            budgets_exceeded: exceeded,
            total_quarantined,
            alerts_fired,
        };
        (summary, alerts)
    }

    /// Get current alert states, in key order.
    pub fn get_alert_states(&self) -> (out: Vec<AlertState>)
        ensures
            out@.len() == self.alert_states.pairs().len(),
            forall|i: int| 0 <= i < out@.len() ==> #[trigger] out@[i] == self.alert_states.pairs()[i].1,
    {
        let n: usize = self.alert_states.len();
        let mut out: Vec<AlertState> = Vec::new();
        let mut i: usize = 0;
        while i < n
            invariant
                i <= n == self.alert_states.pairs().len(),
                out@.len() == i,
                forall|k: int| 0 <= k < i ==> #[trigger] out@[k] == self.alert_states.pairs()[k].1,
            decreases n - i,
        {
            out.push(self.alert_states.value_at(i).clone());
            i = i + 1;
        }
        out
    }

    /// Acknowledge an alert, if it is on record.
    pub fn acknowledge_alert(&mut self, team: &str, metric: &str, phase: BudgetPhase)
        ensures
            final(self).config == old(self).config,
            ({
                let key = alert_key_of(team@, metric@, phase);
                let before = records_of(old(self).alert_states@);
                records_of(final(self).alert_states@) == if before.contains_key(key) {
                    before.insert(key, AlertRecord { acknowledged: true, ..before[key] })
                } else {
                    before
                }
            }),
    {
        let key = alert_key(team, metric, phase);
        let ghost before = records_of(self.alert_states@);
        let known = match self.alert_states.get(key.as_str()) {
            Some(s) => Some(s.clone()),
            None => None,
        };
        if let Some(s) = known {
            let mut s = s;
            s.acknowledged = true;
            self.alert_states.insert(key.clone(), s);
            proof {
                assert(before.contains_key(key@));
                assert(records_of(self.alert_states@) =~= before.insert(
                    key@,
                    AlertRecord { acknowledged: true, ..before[key@] },
                ));
            }
        }
    }
}

/// A budget is exceeded from its limit on, critical from nine tenths of it and warned of from seven
/// tenths; below that it is healthy.
pub proof fn phases_go_by_tenths(count: int, limit: int)
    requires
        0 <= count,
        0 < limit,
    ensures
        phase_of(limit, limit) is Exceeded,
        phase_of(limit + count, limit) is Exceeded,
        10 * count < 7 * limit ==> phase_of(count, limit) is Healthy,
        7 * limit <= 10 * count && 10 * count < 9 * limit ==> phase_of(count, limit) is Warning,
        9 * limit <= 10 * count && count < limit ==> phase_of(count, limit) is Critical,
{
}

/// The graver the phase of a budget, the graver its alert.
pub proof fn graver_phases_alert_louder()
    ensures
        severity_of(BudgetPhase::Exceeded) == "critical"@ && severity_of(BudgetPhase::Critical) == "high"@
            && severity_of(BudgetPhase::Warning) == "medium"@ && severity_of(BudgetPhase::Healthy) == "low"@,
        alert_type_of(BudgetPhase::Exceeded) == "budget_exceeded"@ && alert_type_of(BudgetPhase::Critical)
            == "budget_critical"@ && alert_type_of(BudgetPhase::Warning) == "budget_warning"@,
{
}

/// An alert that has not fired fires at once. One that has fires again only where more than a
/// quarter of an hour has gone by, or the budget was passed.
pub proof fn alerts_rest_a_quarter_of_an_hour(
    m: Map<Seq<char>, AlertRecord>,
    key: Seq<char>,
    passed: bool,
    now: i64,
)
    ensures
        !m.contains_key(key) ==> fires(m, key, passed, now),
        passed ==> fires(m, key, passed, now),
        m.contains_key(key) && !passed && now <= m[key].last_fired + 15 * 60 * 1_000_000 ==> !fires(
            m,
            key,
            passed,
            now,
        ),
        m.contains_key(key) && now > m[key].last_fired + 15 * 60 * 1_000_000 ==> fires(m, key, passed, now),
{
}

/// Firing an alert counts it, keeps when it first fired, and asks for it to be acknowledged again;
/// other alerts stay as they are.
pub proof fn firing_counts_an_alert(m: Map<Seq<char>, AlertRecord>, key: Seq<char>, now: i64)
    ensures
        fire(m, key, now).contains_key(key),
        fire(m, key, now)[key].last_fired == now,
        !fire(m, key, now)[key].acknowledged,
        !m.contains_key(key) ==> fire(m, key, now)[key].fire_count == 1 && fire(m, key, now)[key].first_fired == now,
        m.contains_key(key) ==> fire(m, key, now)[key].first_fired == m[key].first_fired && (m[key].fire_count
            < u32::MAX ==> fire(m, key, now)[key].fire_count == m[key].fire_count + 1),
        fire(m, key, now).remove(key) == m.remove(key),
        !fires(fire(m, key, now), key, false, now),
{
    assert(fire(m, key, now).remove(key) =~= m.remove(key));
}

/// Teams are counted under the phase that the sum of their series puts them in, against the limit
/// of ten thousand for each team.
pub proof fn teams_are_counted_by_phase(pairs: Seq<(String, StrMap<u64>)>, p: BudgetPhase)
    ensures
        teams_in(pairs, p) == pairs.filter(
            |pair: (String, StrMap<u64>)| phase_of(sum_counts(pair.1.pairs()), 10000) == p,
        ).len(),
    decreases pairs.len(),
{
    reveal(Seq::filter);
    if pairs.len() > 0 {
        teams_are_counted_by_phase(pairs.drop_last(), p);
    }
}

/// Every metric of every team is looked at, under its team's name.
pub proof fn every_metric_is_looked_at(pairs: Seq<(String, StrMap<u64>)>, i: int, k: int)
    requires
        0 <= i < pairs.len(),
        0 <= k < pairs[i].1.pairs().len(),
    ensures
        all_counts(pairs).contains(
            MetricCount { team: pairs[i].0@, metric: pairs[i].1.pairs()[k].0@, count: pairs[i].1.pairs()[k].1 },
        ),
    decreases pairs.len(),
{
    let front = pairs.drop_last();
    let c = MetricCount { team: pairs[i].0@, metric: pairs[i].1.pairs()[k].0@, count: pairs[i].1.pairs()[k].1 };
    let before = all_counts(front);
    let own = team_counts(pairs.last().0@, pairs.last().1.pairs());
    let all = all_counts(pairs);
    assert(all == before + own);
    if i < front.len() {
        assert(front[i] == pairs[i]);
        every_metric_is_looked_at(front, i, k);
        let j = before.index_of(c);
        assert(all[j] == c);
    } else {
        assert(own[k] == c);
        assert(all[before.len() + k] == c);
    }
}

/// Of the counts that are looked at, one that is over the limit fires, and so does one whose alert
/// was not raised before; one whose alert was raised less than a quarter of an hour ago, and which
/// is within the limit, does not. What fires is recorded and nothing else is.
pub proof fn exceeding_counts_fire(
    m: Map<Seq<char>, AlertRecord>,
    counts: Seq<MetricCount>,
    c: MetricCount,
    now: i64,
)
    ensures
        ({
            let before = records_after(m, counts, now);
            let after = records_after(m, counts.push(c), now);
            let fired = firing(m, counts.push(c), now);
            let key = c.team + ":"@ + c.metric + ":"@ + phase_of(c.count as int, 10_000).label();
            let loud = !before.contains_key(key) || c.count > 10_000 || now > before[key].last_fired + 15 * 60
                * 1_000_000;
            &&& loud ==> fired == firing(m, counts, now).push(c) && after == fire(before, key, now)
            &&& !loud ==> fired == firing(m, counts, now) && after == before
        }),
        firing(m, Seq::empty(), now).len() == 0,
        records_after(m, Seq::empty(), now) == m,
{
    assert(counts.push(c).drop_last() =~= counts);
}

/// An alert tells which team's metric it is about and how grave it is.
pub proof fn alerts_tell_what_fired(a: FiredAlert, team: Seq<char>, metric: Seq<char>, p: BudgetPhase)
    requires
        is_fired(a, team, metric, p),
    ensures
        a.team@ == team && a.metric@ == metric && a.phase == p,
        p is Exceeded ==> a.severity@ == "critical"@ && a.alert_type@ == "budget_exceeded"@,
        p is Critical ==> a.severity@ == "high"@ && a.alert_type@ == "budget_critical"@,
        p is Warning ==> a.severity@ == "medium"@ && a.alert_type@ == "budget_warning"@,
        p is Healthy ==> a.severity@ == "low"@ && a.alert_type@ == "budget_healthy"@,
{
}

/// Every count that fires has its alert, in order.
pub proof fn every_firing_count_is_alerted(alerts: Seq<FiredAlert>, counts: Seq<MetricCount>, i: int)
    requires
        alerts_for(alerts, counts),
        0 <= i < counts.len(),
    ensures
        alerts.len() == counts.len(),
        alerts[i].team@ == counts[i].team && alerts[i].metric@ == counts[i].metric,
        counts[i].count >= 10_000 <==> alerts[i].phase is Exceeded,
{
    assert(is_fired(
        alerts[i],
        counts[i].team,
        counts[i].metric,
        phase_of(counts[i].count as int, TEAM_LIMIT as int),
    ));
}

} // verus!
