//! What metric cardinality costs, team by team.

use vstd::prelude::*;
#[allow(unused_imports)]
use vstd::string::*;
#[allow(unused_imports)]
use crate::bounded::{last_n, BoundedLog};
use crate::cardinality::budget::BudgetSpec;
#[allow(unused_imports)]
use crate::cardinality::reporter::{sum_counts, sum_counts_grows};
#[allow(unused_imports)]
use crate::ranking::{positions, rank, Ranking};
#[allow(unused_imports)]
use crate::reading::{is_nan, rank_of, Reading};
#[allow(unused_imports)]
use crate::strmap::StrMap;
#[allow(unused_imports)]
use crate::text::{dec, decimal, either_holds, occurs, same, written_text_occurs};

verus! {

/// Cost allocation configuration.
#[derive(Debug)]
pub struct CostAllocationConfig {
    /// Cost per metric series per month (USD).
    pub cost_per_series_per_month: Reading,
    /// Cost per sample ingested (USD).
    pub cost_per_sample: Reading,
    /// Currency.
    pub currency: String,
    /// Allocation method.
    pub allocation_method: AllocationMethod,
}

/// The currency where none is given.
pub fn default_currency() -> (s: String)
    ensures
        s@ == "USD"@,
{
    "USD".to_owned()
}

/// Cost allocation method.
#[derive(Debug, Clone, Copy, PartialEq, Eq, Structural)]
pub enum AllocationMethod {
    /// Proportional to cardinality usage.
    Proportional,
    /// Equal share per team.
    EqualShare,
    /// Based on budget limits.
    BudgetBased,
}

impl Default for AllocationMethod {
    fn default() -> (m: Self)
        ensures
            m == AllocationMethod::Proportional,
    {
        AllocationMethod::Proportional
    }
}

impl Default for CostAllocationConfig {
    fn default() -> (c: Self)
        ensures
            c.cost_per_series_per_month.bits == 0x3FB9_9999_9999_999A,
            c.cost_per_sample.bits == 0x3EB0_C6F7_A0B5_ED8D,
            c.currency@ == "USD"@,
            c.allocation_method == AllocationMethod::Proportional,
    {
        CostAllocationConfig {
            cost_per_series_per_month: Reading { bits: 0x3FB9_9999_9999_999A },
            cost_per_sample: Reading { bits: 0x3EB0_C6F7_A0B5_ED8D },
            currency: default_currency(),
            allocation_method: AllocationMethod::default(),
        }
    }
}

/// The series and estimated samples of one metric.
#[derive(Debug)]
pub struct MetricUsage {
    pub metric_name: String,
    pub series_count: u64,
    pub sample_count: u64,
}

/// The series and estimated samples of one team.
#[derive(Debug)]
pub struct TeamUsage {
    pub team: String,
    pub series_count: u64,
    pub sample_count: u64,
    pub metrics: Vec<MetricUsage>,
}

/// What all teams use.
#[derive(Debug)]
pub struct Usage {
    pub teams: Vec<TeamUsage>,
    pub total_series: u64,
    pub total_samples: u64,
}

/// The sum over all teams.
pub open spec fn sum_teams(pairs: Seq<(String, StrMap<u64>)>) -> int
    decreases pairs.len(),
{
    if pairs.len() == 0 {
        0
    } else {
        sum_teams(pairs.drop_last()) + sum_counts(pairs.last().1.pairs())
    }
}

/// Fewer teams have no larger sum.
proof fn sum_teams_grows(pairs: Seq<(String, StrMap<u64>)>, k: int)
    requires
        0 <= k <= pairs.len(),
    ensures
        0 <= sum_teams(pairs.take(k)) <= sum_teams(pairs),
    decreases pairs.len(),
{
    if k == pairs.len() {
        assert(pairs.take(k) =~= pairs);
        if k > 0 {
            sum_teams_grows(pairs.drop_last(), k - 1);
            sum_counts_grows(pairs.last().1.pairs(), 0);
        }
    } else {
        assert(pairs.drop_last().take(k) =~= pairs.take(k));
        sum_teams_grows(pairs.drop_last(), k);
        sum_counts_grows(pairs.last().1.pairs(), 0);
    }
}

/// `u` is the usage of a team with these series counts: a thousand samples are estimated
/// for each series.
pub open spec fn is_team_usage(u: TeamUsage, team: Seq<char>, pairs: Seq<(String, u64)>) -> bool {
    &&& u.team@ == team
    &&& u.series_count == sum_counts(pairs)
    &&& u.sample_count == sum_counts(pairs) * 1000
    &&& u.metrics@.len() == pairs.len()
    &&& forall|i: int|
        0 <= i < pairs.len() ==> (#[trigger] u.metrics@[i]).metric_name@ == pairs[i].0@ && u.metrics@[i].series_count
            == pairs[i].1 && u.metrics@[i].sample_count == pairs[i].1 * 1000
}

/// The usage of one team.
fn team_usage(team: &str, counts: &StrMap<u64>) -> (u: TeamUsage)
    requires
        sum_counts(counts.pairs()) * 1000 <= u64::MAX,
    ensures
        is_team_usage(u, team@, counts.pairs()),
{
    let n: usize = counts.len();
    let ghost pairs = counts.pairs();
    let mut series: u64 = 0;
    let mut samples: u64 = 0;
    let mut metrics: Vec<MetricUsage> = Vec::new();
    let mut i: usize = 0;
    while i < n
        invariant
            i <= n == pairs.len(),
            pairs == counts.pairs(),
            sum_counts(pairs) * 1000 <= u64::MAX,
            series == sum_counts(pairs.take(i as int)),
            samples == series * 1000,
            metrics@.len() == i,
            forall|k: int|
                0 <= k < i ==> (#[trigger] metrics@[k]).metric_name@ == pairs[k].0@ && metrics@[k].series_count
                    == pairs[k].1 && metrics@[k].sample_count == pairs[k].1 * 1000,
        decreases n - i,
    {
        let count: u64 = *counts.value_at(i);
        proof {
            assert(pairs.take(i as int + 1).drop_last() =~= pairs.take(i as int));
            assert(pairs.take(i as int + 1).last() == pairs[i as int]);
            sum_counts_grows(pairs, i as int + 1);
            sum_counts_grows(pairs, i as int);
        }
        let estimated: u64 = count * 1000;
        series = series + count;
        samples = samples + estimated;
        metrics.push(
            MetricUsage {
                metric_name: counts.key_at(i).clone(),
                series_count: count,
                sample_count: estimated,
            },
        );
        i = i + 1;
    }
    proof {
        assert(pairs.take(n as int) =~= pairs);
    }
    TeamUsage { team: team.to_owned(), series_count: series, sample_count: samples, metrics }
}

/// What the teams with these series counts use.
pub fn usage(counts: &StrMap<StrMap<u64>>) -> (u: Usage)
    requires
        sum_teams(counts.pairs()) * 1000 <= u64::MAX,
    ensures
        u.total_series == sum_teams(counts.pairs()),
        u.total_samples == sum_teams(counts.pairs()) * 1000,
        u.teams@.len() == counts.pairs().len(),
        forall|i: int|
            0 <= i < u.teams@.len() ==> is_team_usage(
                #[trigger] u.teams@[i],
                counts.pairs()[i].0@,
                counts.pairs()[i].1.pairs(),
            ),
{
    let n: usize = counts.len();
    let ghost pairs = counts.pairs();
    let mut teams: Vec<TeamUsage> = Vec::new();
    let mut total_series: u64 = 0;
    let mut total_samples: u64 = 0;
    let mut i: usize = 0;
    while i < n
        invariant
            i <= n == pairs.len(),
            pairs == counts.pairs(),
            sum_teams(pairs) * 1000 <= u64::MAX,
            total_series == sum_teams(pairs.take(i as int)),
            total_samples == total_series * 1000,
            teams@.len() == i,
            forall|k: int|
                0 <= k < i ==> is_team_usage(#[trigger] teams@[k], pairs[k].0@, pairs[k].1.pairs()),
        decreases n - i,
    {
        proof {
            assert(pairs.take(i as int + 1).drop_last() =~= pairs.take(i as int));
            assert(pairs.take(i as int + 1).last() == pairs[i as int]);
            sum_teams_grows(pairs, i as int + 1);
            sum_teams_grows(pairs, i as int);
        }
        let t = team_usage(counts.key_at(i).as_str(), counts.value_at(i));
        total_series = total_series + t.series_count;
        total_samples = total_samples + t.sample_count;
        teams.push(t);
        i = i + 1;
    }
    proof {
        assert(pairs.take(n as int) =~= pairs);
    }
    Usage { teams, total_series, total_samples }
}

/// Per-metric cost breakdown.
#[derive(Debug)]
pub struct MetricCostBreakdown {
    pub metric_name: String,
    pub series_count: u64,
    pub sample_count: u64,
    pub series_cost: Reading,
    pub ingestion_cost: Reading,
    pub total_cost: Reading,
}

/// Team cost breakdown.
#[derive(Debug)]
pub struct TeamCostBreakdown {
    pub team: String,
    pub series_cost: Reading,
    pub ingestion_cost: Reading,
    pub total_cost: Reading,
    pub series_count: u64,
    pub sample_count: u64,
    pub budget_limit: u64,
    pub budget_utilization: Reading,
    /// What each metric costs, in the order of the metrics' names.
    pub metric_breakdown: Vec<MetricCostBreakdown>,
}

/// What something costs.
#[derive(Debug, Clone, Copy)]
pub struct Amounts {
    pub series_cost: Reading,
    pub ingestion_cost: Reading,
    pub total_cost: Reading,
}

/// What a team costs, and each of its metrics.
#[derive(Debug)]
pub struct TeamAmounts {
    /// What its usage costs.
    pub own: Amounts,
    /// Its part of what all teams cost, in proportion to the budget limits.
    pub by_limit: Amounts,
    /// Its series in percent of its budget limit.
    pub utilization: Reading,
    pub metrics: Vec<Amounts>,
}

/// A team's budget limit: that of the first budget for it, and 0 where there is none.
pub open spec fn limit_of(budgets: Seq<BudgetSpec>, team: Seq<char>) -> u64
    decreases budgets.len(),
{
    if budgets.len() == 0 {
        0
    } else if budgets[0].team@ == team {
        budgets[0].limit
    } else {
        limit_of(budgets.drop_first(), team)
    }
}

/// A team's budget limit.
fn team_limit(budgets: &Vec<BudgetSpec>, team: &str) -> (n: u64)
    ensures
        n == limit_of(budgets@, team@),
{
    let mut i: usize = 0;
    proof {
        assert(budgets@.skip(0) =~= budgets@);
    }
    while i < budgets.len()
        invariant
            i <= budgets@.len(),
            limit_of(budgets@, team@) == limit_of(budgets@.skip(i as int), team@),
        decreases budgets@.len() - i,
    {
        if same(budgets[i].team.as_str(), team) {
            return budgets[i].limit;
        }
        proof {
            assert(budgets@.skip(i as int).drop_first() =~= budgets@.skip(i as int + 1));
        }
        i = i + 1;
    }
    0
}

/// The budget limits of the teams.
pub open spec fn limits_of(pairs: Seq<(String, StrMap<u64>)>, budgets: Seq<BudgetSpec>) -> Seq<u64> {
    pairs.map_values(|p: (String, StrMap<u64>)| limit_of(budgets, p.0@))
}

/// The budget limits of the teams with these series counts.
pub fn team_limits(counts: &StrMap<StrMap<u64>>, budgets: &Vec<BudgetSpec>) -> (limits: Vec<u64>)
    ensures
        limits@ == limits_of(counts.pairs(), budgets@),
{
    let n: usize = counts.len();
    let ghost all = limits_of(counts.pairs(), budgets@);
    let mut limits: Vec<u64> = Vec::new();
    let mut i: usize = 0;
    while i < n
        invariant
            i <= n == counts.pairs().len(),
            all == limits_of(counts.pairs(), budgets@),
            limits@ == all.take(i as int),
        decreases n - i,
    {
        limits.push(team_limit(budgets, counts.key_at(i).as_str()));
        proof {
            assert(all.take(i as int + 1) =~= all.take(i as int).push(all[i as int]));
        }
        i = i + 1;
    }
    proof {
        assert(all.take(n as int) =~= all);
    }
    limits
}

/// Some team has a budget limit.
pub open spec fn any_limit(limits: Seq<u64>) -> bool {
    exists|i: int| 0 <= i < limits.len() && #[trigger] limits[i] > 0
}

/// Whether some team has a budget limit.
pub fn has_limit(limits: &Vec<u64>) -> (r: bool)
    ensures
        r == any_limit(limits@),
{
    let mut i: usize = 0;
    while i < limits.len()
        invariant
            i <= limits@.len(),
            forall|k: int| 0 <= k < i ==> #[trigger] limits@[k] == 0,
        decreases limits@.len() - i,
    {
        if limits[i] > 0 {
            return true;
        }
        i = i + 1;
    }
    false
}

/// What stands at `a` is listed before what stands at `b`: the dearer first, then as given.
pub open spec fn dearer(costs: Seq<Reading>, a: int, b: int) -> bool {
    ||| rank_of(costs[b].bits) < rank_of(costs[a].bits)
    ||| rank_of(costs[b].bits) == rank_of(costs[a].bits) && a < b
}

/// `at` lists the costs from the dearest on.
pub open spec fn is_cost_order(costs: Seq<Reading>, at: Seq<int>) -> bool {
    &&& forall|k: int| 0 <= k < at.len() ==> 0 <= #[trigger] at[k] < costs.len()
    &&& forall|i: int| 0 <= i < costs.len() ==> #[trigger] at.contains(i)
    &&& forall|k: int, l: int| 0 <= k < l < at.len() ==> dearer(costs, #[trigger] at[k], #[trigger] at[l])
}

/// Positions by cost.
struct CostRanking<'a> {
    costs: &'a Vec<Reading>,
}

impl<'a> Ranking for CostRanking<'a> {
    closed spec fn size(&self) -> int {
        self.costs@.len() as int
    }

    closed spec fn picked(&self, i: int) -> bool {
        true
    }

    closed spec fn precedes(&self, a: int, b: int) -> bool {
        dearer(self.costs@, a, b)
    }

    proof fn strict(&self, a: int, b: int, c: int) {
    }

    fn count(&self) -> (n: usize) {
        self.costs.len()
    }

    fn takes_part(&self, i: usize) -> (r: bool) {
        true
    }

    fn first(&self, a: usize, b: usize) -> (r: bool) {
        let x: i128 = self.costs[a].rank();
        let y: i128 = self.costs[b].rank();
        if x == y {
            a < b
        } else {
            y < x
        }
    }
}

/// The order in which these costs are listed: from the dearest on. Costs that are compared
/// are numbers.
pub fn order_by_cost(costs: &Vec<Reading>) -> (at: Vec<usize>)
    requires
        costs@.len() > 1 ==> forall|i: int| 0 <= i < costs@.len() ==> !is_nan((#[trigger] costs@[i]).bits),
    ensures
        is_cost_order(costs@, positions(at@)),
        at@.len() == costs@.len(),
{
    let r = CostRanking { costs };
    let at = rank(&r);
    proof {
        let p = positions(at@);
        assert forall|i: int| 0 <= i < costs@.len() implies #[trigger] p.contains(i) by {
            assert(r.picked(i));
        }
        assert forall|k: int, l: int| 0 <= k < l < p.len() implies dearer(costs@, #[trigger] p[k], #[trigger] p[l]) by {
            assert(r.precedes(p[k], p[l]));
        }
        assert forall|k: int| 0 <= k < p.len() implies 0 <= #[trigger] p[k] < costs@.len() by {}
        let all = Seq::new(costs@.len(), |i: int| i);
        assert forall|i: int| 0 <= i < all.len() implies p.contains(#[trigger] all[i]) by {
            assert(p.contains(i));
        }
        crate::seqs::pigeonhole(all, p);
        assert(p.no_duplicates()) by {
            assert forall|k: int, l: int| 0 <= k < p.len() && 0 <= l < p.len() && k != l implies p[k] != p[l] by {
                if k < l {
                    assert(dearer(costs@, p[k], p[l]));
                } else {
                    assert(dearer(costs@, p[l], p[k]));
                }
            }
        }
        assert forall|k: int| 0 <= k < p.len() implies all.contains(#[trigger] p[k]) by {
            assert(all[p[k]] == p[k]);
        }
        crate::seqs::pigeonhole(p, all);
    }
    at
}

/// There are amounts for each team and each of its metrics.
pub open spec fn fits(pairs: Seq<(String, StrMap<u64>)>, amounts: Seq<TeamAmounts>) -> bool {
    &&& amounts.len() == pairs.len()
    &&& forall|i: int| 0 <= i < amounts.len() ==> (#[trigger] amounts[i]).metrics@.len() == pairs[i].1.pairs().len()
}

/// What a team is charged, besides what each of its metrics costs: the `share` that is the same
/// for all where costs are shared equally, its part by the budget limits where they go by those
/// and some limit is known, else what its usage costs.
pub open spec fn charge_of(method: AllocationMethod, share: Amounts, limited: bool, a: TeamAmounts) -> Amounts {
    match method {
        AllocationMethod::Proportional => a.own,
        AllocationMethod::EqualShare => share,
        AllocationMethod::BudgetBased => if limited {
            a.by_limit
        } else {
            a.own
        },
    }
}

/// What the teams are charged.
pub open spec fn charged(
    method: AllocationMethod,
    share: Amounts,
    limited: bool,
    amounts: Seq<TeamAmounts>,
) -> Seq<TeamAmounts> {
    amounts.map_values(|a: TeamAmounts| TeamAmounts { own: charge_of(method, share, limited, a), ..a })
}

/// What one team is charged, besides what each of its metrics costs.
pub fn charge(method: AllocationMethod, share: Amounts, limited: bool, a: &TeamAmounts) -> (own: Amounts)
    ensures
        own == charge_of(method, share, limited, *a),
{
    match method {
        AllocationMethod::Proportional => a.own,
        AllocationMethod::EqualShare => share,
        AllocationMethod::BudgetBased => if limited {
            a.by_limit
        } else {
            a.own
        },
    }
}

/// What the teams cost in all.
pub open spec fn totals(amounts: Seq<TeamAmounts>) -> Seq<Reading> {
    amounts.map_values(|a: TeamAmounts| a.own.total_cost)
}

/// `b` breaks down what a team with these series counts and this budget limit costs. Where the
/// limit is 0, nothing of it is used.
pub open spec fn is_breakdown(b: TeamCostBreakdown, pair: (String, StrMap<u64>), limit: u64, a: TeamAmounts) -> bool {
    let pairs = pair.1.pairs();
    &&& b.team@ == pair.0@
    &&& b.series_cost == a.own.series_cost
    &&& b.ingestion_cost == a.own.ingestion_cost
    &&& b.total_cost == a.own.total_cost
    &&& b.series_count == sum_counts(pairs)
    &&& b.sample_count == sum_counts(pairs) * 1000
    &&& b.budget_limit == limit
    &&& limit > 0 ==> b.budget_utilization == a.utilization
    &&& limit == 0 ==> b.budget_utilization.bits == 0
    &&& b.metric_breakdown@.len() == pairs.len()
    &&& forall|i: int|
        0 <= i < pairs.len() ==> {
            let m = #[trigger] b.metric_breakdown@[i];
            &&& m.metric_name@ == pairs[i].0@
            &&& m.series_count == pairs[i].1
            &&& m.sample_count == pairs[i].1 * 1000
            &&& m.series_cost == a.metrics@[i].series_cost
            &&& m.ingestion_cost == a.metrics@[i].ingestion_cost
            &&& m.total_cost == a.metrics@[i].total_cost
        }
}

/// The breakdowns are those of the teams, in the order `at`, from the dearest on.
pub open spec fn are_breakdowns(
    list: Seq<TeamCostBreakdown>,
    pairs: Seq<(String, StrMap<u64>)>,
    limits: Seq<u64>,
    amounts: Seq<TeamAmounts>,
    at: Seq<int>,
) -> bool {
    &&& is_cost_order(totals(amounts), at)
    &&& list.len() == at.len() == pairs.len()
    &&& forall|k: int|
        0 <= k < list.len() ==> is_breakdown(#[trigger] list[k], pairs[at[k]], limits[at[k]], amounts[at[k]])
}

fn total_costs(method: AllocationMethod, share: Amounts, limited: bool, amounts: &Vec<TeamAmounts>) -> (v: Vec<
    Reading,
>)
    ensures
        v@ == totals(charged(method, share, limited, amounts@)),
{
    let ghost all = totals(charged(method, share, limited, amounts@));
    let mut v: Vec<Reading> = Vec::new();
    let mut i: usize = 0;
    while i < amounts.len()
        invariant
            i <= amounts@.len(),
            all == totals(charged(method, share, limited, amounts@)),
            v@ == all.take(i as int),
        decreases amounts@.len() - i,
    {
        v.push(charge(method, share, limited, &amounts[i]).total_cost);
        proof {
            assert(all.take(i as int + 1) =~= all.take(i as int).push(all[i as int]));
        }
        i = i + 1;
    }
    proof {
        assert(all.take(amounts@.len() as int) =~= all);
    }
    v
}

fn break_down(
    u: &TeamUsage,
    limit: u64,
    own: Amounts,
    a: &TeamAmounts,
    Ghost(pair): Ghost<(String, StrMap<u64>)>,
) -> (b: TeamCostBreakdown)
    requires
        is_team_usage(*u, pair.0@, pair.1.pairs()),
        a.metrics@.len() == pair.1.pairs().len(),
    ensures
        is_breakdown(b, pair, limit, (TeamAmounts { own, ..*a })),
{
    let mut metric_breakdown: Vec<MetricCostBreakdown> = Vec::new();
    let mut i: usize = 0;
    while i < u.metrics.len()
        invariant
            i <= u.metrics@.len() == a.metrics@.len(),
            metric_breakdown@.len() == i,
            forall|k: int|
                0 <= k < i ==> {
                    let m = #[trigger] metric_breakdown@[k];
                    &&& m.metric_name@ == u.metrics@[k].metric_name@
                    &&& m.series_count == u.metrics@[k].series_count
                    &&& m.sample_count == u.metrics@[k].sample_count
                    &&& m.series_cost == a.metrics@[k].series_cost
                    &&& m.ingestion_cost == a.metrics@[k].ingestion_cost
                    &&& m.total_cost == a.metrics@[k].total_cost
                },
        decreases u.metrics@.len() - i,
    {
        metric_breakdown.push(
            MetricCostBreakdown {
                metric_name: u.metrics[i].metric_name.clone(),
                series_count: u.metrics[i].series_count,
                sample_count: u.metrics[i].sample_count,
                series_cost: a.metrics[i].series_cost,
                ingestion_cost: a.metrics[i].ingestion_cost,
                total_cost: a.metrics[i].total_cost,
            },
        );
        i = i + 1;
    }
    let b = TeamCostBreakdown {
        team: u.team.clone(),
        series_cost: own.series_cost,
        ingestion_cost: own.ingestion_cost,
        total_cost: own.total_cost,
        series_count: u.series_count,
        sample_count: u.sample_count,
        budget_limit: limit,
        budget_utilization: if limit > 0 {
            a.utilization
        } else {
            Reading::zero()
        },
        metric_breakdown,
    };
    proof {
        let pairs = pair.1.pairs();
        assert forall|i: int| 0 <= i < pairs.len() implies (#[trigger] b.metric_breakdown@[i]).metric_name@
            == pairs[i].0@ && b.metric_breakdown@[i].series_count == pairs[i].1 && b.metric_breakdown@[i].sample_count
            == pairs[i].1 * 1000 by {
            assert(u.metrics@[i].metric_name@ == pairs[i].0@);
        }
    }
    b
}

/// Cost allocation report. Instants are in microseconds since the epoch.
#[derive(Debug)]
pub struct CostAllocationReport {
    pub generated_at: i64,
    pub period_start: i64,
    pub period_end: i64,
    pub currency: String,
    pub total_cost: Reading,
    pub total_series: u64,
    pub total_samples: u64,
    pub team_breakdowns: Vec<TeamCostBreakdown>,
    pub unallocated_cost: Reading,
}

/// The amounts of one team as they are shown: costs with four decimals, utilization with two.
#[derive(Debug)]
pub struct ShownAmounts {
    pub series_cost: String,
    pub ingestion_cost: String,
    pub total_cost: String,
    pub budget_utilization: String,
}

/// The exported line of one team.
pub open spec fn cost_line(t: TeamCostBreakdown, s: ShownAmounts) -> Seq<char> {
    t.team@ + ","@ + dec(t.series_count as nat) + ","@ + dec(t.sample_count as nat) + ","@ + s.series_cost@ + ","@
        + s.ingestion_cost@ + ","@ + s.total_cost@ + ","@ + dec(t.budget_limit as nat) + ","@ + s.budget_utilization@
        + "\n"@
}

/// The exported report.
pub open spec fn cost_csv(teams: Seq<TeamCostBreakdown>, shown: Seq<ShownAmounts>) -> Seq<char>
    decreases teams.len(),
{
    if teams.len() == 0 {
        "team,series_count,sample_count,series_cost,ingestion_cost,total_cost,budget_limit,budget_utilization_percent\n"@
    } else {
        cost_csv(teams.drop_last(), shown.drop_last()) + cost_line(teams.last(), shown.last())
    }
}

/// The exported line of one team.
fn render_line(t: &TeamCostBreakdown, s: &ShownAmounts) -> (out: String)
    ensures
        out@ == cost_line(*t, *s),
{
    let mut out = t.team.clone();
    out.append(",");
    out.append(decimal(t.series_count).as_str());
    out.append(",");
    out.append(decimal(t.sample_count).as_str());
    out.append(",");
    out.append(s.series_cost.as_str());
    out.append(",");
    out.append(s.ingestion_cost.as_str());
    out.append(",");
    out.append(s.total_cost.as_str());
    out.append(",");
    out.append(decimal(t.budget_limit).as_str());
    out.append(",");
    out.append(s.budget_utilization.as_str());
    out.append("\n");
    out
}

/// Export report as CSV; `shown` holds each team's amounts as they are shown.
pub fn export_csv(report: &CostAllocationReport, shown: &Vec<ShownAmounts>) -> (csv: String)
    requires
        shown@.len() == report.team_breakdowns@.len(),
    ensures
        csv@ == cost_csv(report.team_breakdowns@, shown@),
{
    let teams = &report.team_breakdowns;
    let mut csv =
        "team,series_count,sample_count,series_cost,ingestion_cost,total_cost,budget_limit,budget_utilization_percent\n".to_owned();
    let mut i: usize = 0;
    while i < teams.len()
        invariant
            i <= teams@.len() == shown@.len(),
            csv@ == cost_csv(teams@.take(i as int), shown@.take(i as int)),
        decreases teams@.len() - i,
    {
        proof {
            assert(teams@.take(i as int + 1).drop_last() =~= teams@.take(i as int));
            assert(shown@.take(i as int + 1).drop_last() =~= shown@.take(i as int));
        }
        csv.append(render_line(&teams[i], &shown[i]).as_str());
        i = i + 1;
    }
    proof {
        assert(teams@.take(teams@.len() as int) =~= teams@);
        assert(shown@.take(shown@.len() as int) =~= shown@);
    }
    csv
}

/// The newest cost reports.
pub struct CardinalityCostAllocator {
    pub config: CostAllocationConfig,
    pub reports: BoundedLog<CostAllocationReport>,
}

impl View for CardinalityCostAllocator {
    type V = Seq<CostAllocationReport>;

    open spec fn view(&self) -> Seq<CostAllocationReport> {
        self.reports@
    }
}

impl CardinalityCostAllocator {
    /// How many reports are kept.
    pub open spec fn capacity(self) -> usize {
        self.reports.capacity()
    }

    /// Create a new cost allocator, which keeps a hundred reports.
    pub fn new(config: CostAllocationConfig) -> (a: Self)
        ensures
            a.config == config,
            a@ == Seq::<CostAllocationReport>::empty(),
            a.capacity() == 100,
    {
        CardinalityCostAllocator { config, reports: BoundedLog::new(100) }
    }

    /// Generate the cost allocation report of a period from the series counts and what they
    /// cost, and keep it. `share` is what each team pays where costs are shared equally, and
    /// `budgets` hold the teams' limits.
    pub fn generate_report(
        &mut self,
        counts: &StrMap<StrMap<u64>>,
        budgets: &Vec<BudgetSpec>,
        amounts: &Vec<TeamAmounts>,
        share: Amounts,
        total_cost: Reading,
        period_start: i64,
        period_end: i64,
        now: i64,
    ) -> (r: &CostAllocationReport)
        requires
            old(self).capacity() > 0,
            sum_teams(counts.pairs()) * 1000 <= u64::MAX,
            fits(counts.pairs(), amounts@),
            amounts@.len() > 1 ==> forall|i: int|
                0 <= i < amounts@.len() ==> !is_nan(
                    charge_of(
                        old(self).config.allocation_method,
                        share,
                        any_limit(limits_of(counts.pairs(), budgets@)),
                        #[trigger] amounts@[i],
                    ).total_cost.bits,
                ),
        ensures
            r.generated_at == now,
            r.period_start == period_start,
            r.period_end == period_end,
            r.currency@ == old(self).config.currency@,
            r.total_cost == total_cost,
            r.total_series == sum_teams(counts.pairs()),
            r.total_samples == sum_teams(counts.pairs()) * 1000,
            r.unallocated_cost.bits == 0,
            exists|at: Seq<int>| #[trigger]
                are_breakdowns(
                    r.team_breakdowns@,
                    counts.pairs(),
                    limits_of(counts.pairs(), budgets@),
                    charged(
                        old(self).config.allocation_method,
                        share,
                        any_limit(limits_of(counts.pairs(), budgets@)),
                        amounts@,
                    ),
                    at,
                ),
            old(self).config.allocation_method == AllocationMethod::EqualShare ==> forall|k: int|
                0 <= k < r.team_breakdowns@.len() ==> (#[trigger] r.team_breakdowns@[k]).total_cost == share.total_cost,
            final(self)@ == last_n(old(self)@.push(*r), old(self).capacity() as int),
            final(self).capacity() == old(self).capacity(),
            final(self).config == old(self).config,
    {
        let used = usage(counts);
        let ghost pairs = counts.pairs();
        let method = self.config.allocation_method;
        let limits = team_limits(counts, budgets);
        let limited = has_limit(&limits);
        let ghost due = charged(method, share, limited, amounts@);
        let listed = total_costs(method, share, limited, amounts);
        proof {
            assert forall|i: int| 0 <= i < listed@.len() && listed@.len() > 1 implies !is_nan(
                (#[trigger] listed@[i]).bits,
            ) by {
                assert(listed@[i] == charge_of(method, share, limited, amounts@[i]).total_cost);
            }
        }
        let at = order_by_cost(&listed);
        proof {
            assert forall|i: int| 0 <= i < at@.len() implies 0 <= #[trigger] at@[i] < pairs.len() by {
                assert(positions(at@)[i] == at@[i]);
            }
        }
        let mut team_breakdowns: Vec<TeamCostBreakdown> = Vec::new();
        let mut k: usize = 0;
        while k < at.len()
            invariant
                k <= at@.len() == pairs.len(),
                pairs == counts.pairs(),
                fits(pairs, amounts@),
                due == charged(method, share, limited, amounts@),
                limits@.len() == pairs.len(),
                used.teams@.len() == pairs.len(),
                forall|i: int|
                    0 <= i < used.teams@.len() ==> is_team_usage(
                        #[trigger] used.teams@[i],
                        pairs[i].0@,
                        pairs[i].1.pairs(),
                    ),
                forall|i: int| 0 <= i < at@.len() ==> 0 <= #[trigger] at@[i] < pairs.len(),
                team_breakdowns@.len() == k,
                forall|i: int|
                    0 <= i < k ==> is_breakdown(
                        #[trigger] team_breakdowns@[i],
                        pairs[at@[i] as int],
                        limits@[at@[i] as int],
                        due[at@[i] as int],
                    ),
            decreases at@.len() - k,
        {
            let i: usize = at[k];
            proof {
                assert(amounts@[i as int].metrics@.len() == pairs[i as int].1.pairs().len());
            }
            let own = charge(method, share, limited, &amounts[i]);
            team_breakdowns.push(break_down(&used.teams[i], limits[i], own, &amounts[i], Ghost(pairs[i as int])));
            k = k + 1;
        }
        let report = CostAllocationReport {
            generated_at: now,
            period_start,
            period_end,
            currency: self.config.currency.clone(),
            total_cost,
            total_series: used.total_series,
            total_samples: used.total_samples,
            team_breakdowns,
            unallocated_cost: Reading::zero(),
        };
        proof {
            let p = positions(at@);
            assert(are_breakdowns(report.team_breakdowns@, pairs, limits@, due, p));
        }
        self.store_report(report);
        let n: usize = self.reports.len();
        self.reports.at(n - 1)
    }

    /// Keeps a report; the oldest is dropped where there is no room.
    pub fn store_report(&mut self, report: CostAllocationReport)
        ensures
            final(self)@ == last_n(old(self)@.push(report), old(self).capacity() as int),
            final(self).capacity() == old(self).capacity(),
            final(self).config == old(self).config,
    {
        self.reports.push(report);
    }

    /// Get historical reports, oldest first.
    pub fn get_reports(&self) -> (out: Vec<&CostAllocationReport>)
        ensures
            out@.len() == self@.len(),
            forall|i: int| 0 <= i < out@.len() ==> *(#[trigger] out@[i]) == self@[i],
    {
        let n: usize = self.reports.len();
        let mut out: Vec<&CostAllocationReport> = Vec::new();
        let mut i: usize = 0;
        while i < n
            invariant
                i <= n == self.reports@.len(),
                out@.len() == i,
                forall|k: int| 0 <= k < i ==> *(#[trigger] out@[k]) == self.reports@[k],
            decreases n - i,
        {
            out.push(self.reports.at(i));
            i = i + 1;
        }
        out
    }

    /// Get latest report.
    pub fn get_latest_report(&self) -> (r: Option<&CostAllocationReport>)
        ensures
            r is Some <==> self@.len() > 0,
            r matches Some(x) ==> *x == self@.last(),
    {
        let n: usize = self.reports.len();
        if n == 0 {
            None
        } else {
            Some(self.reports.at(n - 1))
        }
    }
}

/// Where costs go by usage, each team is charged what its usage costs; where they are shared, all
/// are charged the same; where they go by the budget limits, each its part by these, as long as
/// some team has a limit.
pub proof fn methods_charge_what_they_say(share: Amounts, limits: Seq<u64>, amounts: Seq<TeamAmounts>, i: int)
    requires
        0 <= i < amounts.len(),
    ensures
        charged(AllocationMethod::Proportional, share, any_limit(limits), amounts)[i].own == amounts[i].own,
        charged(AllocationMethod::EqualShare, share, any_limit(limits), amounts)[i].own == share,
        (exists|k: int| 0 <= k < limits.len() && #[trigger] limits[k] > 0) ==> charged(
            AllocationMethod::BudgetBased,
            share,
            any_limit(limits),
            amounts,
        )[i].own == amounts[i].by_limit,
        (forall|k: int| 0 <= k < limits.len() ==> #[trigger] limits[k] == 0) ==> charged(
            AllocationMethod::BudgetBased,
            share,
            any_limit(limits),
            amounts,
        )[i].own == amounts[i].own,
        charged(AllocationMethod::EqualShare, share, any_limit(limits), amounts)[i].metrics == amounts[i].metrics,
{
}

/// A team's limit is that of the first budget for it, and it has none where no budget is for it.
pub proof fn the_first_budget_sets_the_limit(budgets: Seq<BudgetSpec>, team: Seq<char>, i: int)
    ensures
        0 <= i < budgets.len() && budgets[i].team@ == team && (forall|j: int|
            0 <= j < i ==> (#[trigger] budgets[j]).team@ != team) ==> limit_of(budgets, team) == budgets[i].limit,
        (forall|j: int| 0 <= j < budgets.len() ==> (#[trigger] budgets[j]).team@ != team) ==> limit_of(budgets, team)
            == 0,
    decreases budgets.len(),
{
    if budgets.len() > 0 {
        let rest = budgets.drop_first();
        the_first_budget_sets_the_limit(rest, team, i - 1);
        if 0 < i < budgets.len() && forall|j: int| 0 <= j < i ==> (#[trigger] budgets[j]).team@ != team {
            assert(budgets[0].team@ != team);
            assert(rest[i - 1] == budgets[i]);
            assert forall|j: int| 0 <= j < i - 1 implies (#[trigger] rest[j]).team@ != team by {
                assert(rest[j] == budgets[j + 1]);
            }
        }
        if forall|j: int| 0 <= j < budgets.len() ==> (#[trigger] budgets[j]).team@ != team {
            assert(budgets[0].team@ != team);
            assert forall|j: int| 0 <= j < rest.len() implies (#[trigger] rest[j]).team@ != team by {
                assert(rest[j] == budgets[j + 1]);
            }
        }
    }
}

/// The dearest team is listed first: no team behind another costs more.
pub proof fn dearer_teams_are_listed_first(
    list: Seq<TeamCostBreakdown>,
    pairs: Seq<(String, StrMap<u64>)>,
    limits: Seq<u64>,
    amounts: Seq<TeamAmounts>,
    at: Seq<int>,
    k: int,
    l: int,
)
    requires
        are_breakdowns(list, pairs, limits, amounts, at),
        amounts.len() == pairs.len(),
        0 <= k < l < list.len(),
    ensures
        rank_of(list[l].total_cost.bits) <= rank_of(list[k].total_cost.bits),
        list[k].total_cost == amounts[at[k]].own.total_cost,
        list[k].team@ == pairs[at[k]].0@,
        list[k].sample_count == 1000 * list[k].series_count,
        list[k].budget_limit == limits[at[k]],
{
    assert(dearer(totals(amounts), at[k], at[l]));
    assert(is_breakdown(list[k], pairs[at[k]], limits[at[k]], amounts[at[k]]));
    assert(is_breakdown(list[l], pairs[at[l]], limits[at[l]], amounts[at[l]]));
}

/// What a team uses is the sum over its metrics, at a thousand samples for each series.
pub proof fn usage_adds_up(u: TeamUsage, team: Seq<char>, pairs: Seq<(String, u64)>, k: int)
    requires
        is_team_usage(u, team, pairs),
        0 <= k < pairs.len(),
    ensures
        u.team@ == team,
        u.sample_count == u.series_count * 1000,
        u.series_count == sum_counts(pairs),
        u.metrics@.len() == pairs.len(),
        u.metrics@[k].metric_name@ == pairs[k].0@,
        u.metrics@[k].series_count == pairs[k].1,
        u.metrics@[k].sample_count == u.metrics@[k].series_count * 1000,
{
    assert(u.metrics@[k].metric_name@ == pairs[k].0@);
}

/// A team's costs are its own, and its use of its budget is measured only where it has one.
pub proof fn breakdowns_are_the_teams_own(
    b: TeamCostBreakdown,
    pair: (String, StrMap<u64>),
    limit: u64,
    a: TeamAmounts,
)
    requires
        is_breakdown(b, pair, limit, a),
    ensures
        b.team@ == pair.0@,
        b.series_cost == a.own.series_cost && b.ingestion_cost == a.own.ingestion_cost && b.total_cost
            == a.own.total_cost,
        b.sample_count == b.series_count * 1000 && b.series_count == sum_counts(pair.1.pairs()),
        b.budget_limit == limit,
        limit == 0 ==> b.budget_utilization.bits == 0,
        limit > 0 ==> b.budget_utilization == a.utilization,
        b.metric_breakdown@.len() == pair.1.pairs().len(),
        forall|i: int|
            0 <= i < pair.1.pairs().len() ==> (#[trigger] b.metric_breakdown@[i]).metric_name@ == pair.1.pairs()[i].0@
                && b.metric_breakdown@[i].series_count == pair.1.pairs()[i].1 && b.metric_breakdown@[i].total_cost
                == a.metrics@[i].total_cost,
{
}

/// The series of all teams are those of each, added up.
pub proof fn all_series_are_counted(pairs: Seq<(String, StrMap<u64>)>, p: (String, StrMap<u64>))
    ensures
        sum_teams(Seq::empty()) == 0,
        sum_teams(pairs.push(p)) == sum_teams(pairs) + sum_counts(p.1.pairs()),
{
    assert(pairs.push(p).drop_last() =~= pairs);
}

/// Every team has a line in the exported table, with what it uses and what that costs.
pub proof fn every_team_has_a_line(teams: Seq<TeamCostBreakdown>, shown: Seq<ShownAmounts>, i: int)
    requires
        shown.len() == teams.len(),
        0 <= i < teams.len(),
    ensures
        occurs(
            cost_csv(teams, shown),
            teams[i].team@ + ","@ + dec(teams[i].series_count as nat) + ","@ + dec(teams[i].sample_count as nat) + ","@
                + shown[i].series_cost@ + ","@ + shown[i].ingestion_cost@ + ","@ + shown[i].total_cost@ + ","@ + dec(
                teams[i].budget_limit as nat,
            ) + ","@ + shown[i].budget_utilization@ + "\n"@,
        ),
        occurs(
            cost_csv(teams, shown),
            "team,series_count,sample_count,series_cost,ingestion_cost,total_cost,budget_limit,budget_utilization_percent\n"@,
        ),
    decreases teams.len(),
{
    let front = teams.drop_last();
    let before = cost_csv(front, shown.drop_last());
    let line = cost_line(teams.last(), shown.last());
    let own = cost_line(teams[i], shown[i]);
    let head = "team,series_count,sample_count,series_cost,ingestion_cost,total_cost,budget_limit,budget_utilization_percent\n"@;
    let none = Seq::<char>::empty();
    if front.len() == 0 {
        assert(before == head);
        assert(none + head + none =~= head);
        written_text_occurs(none, head, none);
    } else {
        every_team_has_a_line(front, shown.drop_last(), if i < front.len() { i } else { 0 });
    }
    if i < front.len() {
        assert(front[i] == teams[i] && shown.drop_last()[i] == shown[i]);
    } else {
        assert(none + own + none =~= own);
        written_text_occurs(none, own, none);
    }
    either_holds(before, line, own);
    either_holds(before, line, head);
}

} // verus!
