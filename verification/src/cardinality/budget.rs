//! Cardinality budgets.

use vstd::prelude::*;
#[allow(unused_imports)]
use vstd::string::*;
use crate::strmap::StrMap;
#[allow(unused_imports)]
use crate::text::views;

verus! {

/// A team's budget for metric series.
#[derive(Debug)]
pub struct BudgetSpec {
    /// Team identifier.
    pub team: String,
    /// Maximum allowed cardinality (unique label combinations).
    pub limit: u64,
    /// Warning threshold percentage (0-100).
    pub warning_threshold: u8,
    /// Critical threshold percentage (0-100).
    pub critical_threshold: u8,
    /// Metric selectors this budget applies to.
    pub metric_selectors: Vec<MetricSelector>,
    /// Label keys that count towards cardinality; all where none is named.
    pub cardinality_labels: Vec<String>,
    /// Action when budget exceeded.
    pub enforcement_action: EnforcementAction,
    /// Quarantine duration for offending series, in words.
    pub quarantine_duration: String,
}

/// The warning threshold where none is given.
pub fn default_warning_threshold() -> (n: u8)
    ensures
        n == 70,
{
    70
}

/// The critical threshold where none is given.
pub fn default_critical_threshold() -> (n: u8)
    ensures
        n == 90,
{
    90
}

/// The label keys that count where none are given.
pub fn default_cardinality_labels() -> (v: Vec<String>)
    ensures
        views(v@) == Seq::<Seq<char>>::empty().push("team"@).push("service"@).push("environment"@),
{
    let mut v: Vec<String> = Vec::new();
    v.push("team".to_owned());
    v.push("service".to_owned());
    v.push("environment".to_owned());
    proof {
        assert(views(v@) =~= Seq::<Seq<char>>::empty().push("team"@).push("service"@).push("environment"@));
    }
    v
}

/// The quarantine duration where none is given.
pub fn default_quarantine_duration() -> (s: String)
    ensures
        s@ == "1h"@,
{
    "1h".to_owned()
}

/// Metric selector for budget scope.
#[derive(Debug)]
pub struct MetricSelector {
    /// Metric name pattern (glob).
    pub metric_pattern: String,
    /// Label matchers.
    pub label_matchers: StrMap<String>,
}

/// Enforcement action when budget exceeded.
#[derive(Debug, Clone, Copy, PartialEq, Eq, Structural)]
pub enum EnforcementAction {
    Warn,
    Quarantine,
    Drop,
}

impl Default for EnforcementAction {
    fn default() -> (a: Self)
        ensures
            a == EnforcementAction::Warn,
    {
        EnforcementAction::Warn
    }
}

/// Budget phase.
#[derive(Debug, Clone, Copy, PartialEq, Eq, Structural)]
pub enum BudgetPhase {
    Healthy,
    Warning,
    Critical,
    Exceeded,
}

impl Default for BudgetPhase {
    fn default() -> (p: Self)
        ensures
            p == BudgetPhase::Healthy,
    {
        BudgetPhase::Healthy
    }
}

impl BudgetPhase {
    /// The name of the phase.
    pub open spec fn label(self) -> Seq<char> {
        match self {
            BudgetPhase::Healthy => "Healthy"@,
            BudgetPhase::Warning => "Warning"@,
            BudgetPhase::Critical => "Critical"@,
            BudgetPhase::Exceeded => "Exceeded"@,
        }
    }

    /// The name of the phase.
    pub fn name(&self) -> (s: &'static str)
        ensures
            s@ == self.label(),
    {
        match self {
            BudgetPhase::Healthy => "Healthy",
            BudgetPhase::Warning => "Warning",
            BudgetPhase::Critical => "Critical",
            BudgetPhase::Exceeded => "Exceeded",
        }
    }
}

/// How a budget stands.
#[derive(Debug)]
pub struct BudgetStatus {
    /// Current cardinality count.
    pub current_cardinality: u64,
    /// Utilization percentage.
    pub utilization_percent: String,
    /// Current phase.
    pub phase: BudgetPhase,
    /// Number of quarantined series.
    pub quarantined_series: u64,
    /// Number of dropped series.
    pub dropped_series: u64,
    /// Last update, in microseconds since the epoch.
    pub last_updated: i64,
    /// Per-metric breakdown.
    pub metric_breakdown: StrMap<MetricCardinalityStatus>,
    /// Conditions.
    pub conditions: Vec<BudgetCondition>,
}

/// Per-metric cardinality status.
#[derive(Debug)]
pub struct MetricCardinalityStatus {
    pub metric_name: String,
    pub current_cardinality: u64,
    pub limit: u64,
    pub quarantined_series: u64,
    pub dropped_series: u64,
}

/// Budget condition.
#[derive(Debug)]
pub struct BudgetCondition {
    pub type_: String,
    pub status: String,
    pub reason: String,
    pub message: String,
    pub last_transition_time: Option<i64>,
}

/// Team budget aggregate.
#[derive(Debug)]
pub struct TeamBudget {
    pub team: String,
    pub total_limit: u64,
    pub total_current: u64,
    pub budgets: Vec<BudgetSummary>,
}

/// Budget summary for reporting.
#[derive(Debug)]
pub struct BudgetSummary {
    pub name: String,
    pub namespace: String,
    pub limit: u64,
    pub current: u64,
    pub phase: BudgetPhase,
}

/// Cardinality budget aggregate for team-level tracking.
#[derive(Debug)]
pub struct CardinalityBudgetAggregate {
    pub team: String,
    pub budgets: StrMap<BudgetSpec>,
    pub aggregate_limit: u64,
    pub aggregate_current: u64,
}

impl CardinalityBudgetAggregate {
    /// An aggregate without budgets and without use.
    pub fn new(team: String, aggregate_limit: u64) -> (a: Self)
        ensures
            a.team == team,
            a.budgets@ == Map::<Seq<char>, BudgetSpec>::empty(),
            a.aggregate_limit == aggregate_limit,
            a.aggregate_current == 0,
    {
        CardinalityBudgetAggregate { team, budgets: StrMap::new(), aggregate_limit, aggregate_current: 0 }
    }

    /// Enters a budget under `name`; one that had the name before is replaced.
    pub fn add_budget(&mut self, name: String, budget: BudgetSpec)
        ensures
            final(self).budgets@ == old(self).budgets@.insert(name@, budget),
            final(self).team == old(self).team,
            final(self).aggregate_limit == old(self).aggregate_limit,
            final(self).aggregate_current == old(self).aggregate_current,
    {
        self.budgets.insert(name, budget);
    }
}

} // verus!
