use stellar_k8s::cardinality::budget::{
    default_cardinality_labels, default_critical_threshold, default_quarantine_duration, default_warning_threshold,
    BudgetPhase, BudgetSpec, CardinalityBudgetAggregate, EnforcementAction, MetricSelector,
};
use stellar_k8s::cardinality::collector::{CardinalityCollector, CollectorConfig, ProcessResult, TeamExtractor};
use stellar_k8s::cardinality::cost_allocation::{
    export_csv, has_limit, order_by_cost, team_limits, usage, AllocationMethod, Amounts, CardinalityCostAllocator,
    CostAllocationConfig, CostAllocationReport, ShownAmounts, TeamAmounts, TeamCostBreakdown,
};
use stellar_k8s::cardinality::quarantine::QuarantineManager;
use stellar_k8s::cardinality::reporter::{determine_phase, severity, CardinalityReporter, ReporterConfig};
use stellar_k8s::reading::Reading;
use stellar_k8s::name_pattern::name_matches;
use stellar_k8s::strmap::StrMap;

const MINUTE: i64 = 60_000_000;

fn reading(x: f64) -> Reading {
    Reading { bits: x.to_bits() }
}

fn labels(pairs: &[(&str, &str)]) -> StrMap<String> {
    let mut m = StrMap::new();
    for (k, v) in pairs {
        m.insert(k.to_string(), v.to_string());
    }
    m
}

fn budget(team: &str, limit: u64, enforcement_action: EnforcementAction, pattern: Option<&str>) -> BudgetSpec {
    BudgetSpec {
        team: team.to_string(),
        limit,
        warning_threshold: default_warning_threshold(),
        critical_threshold: default_critical_threshold(),
        metric_selectors: pattern
            .map(|p| vec![MetricSelector { metric_pattern: p.to_string(), label_matchers: StrMap::new() }])
            .unwrap_or_default(),
        cardinality_labels: vec![],
        enforcement_action,
        quarantine_duration: default_quarantine_duration(),
    }
}

fn collector(budgets: Vec<BudgetSpec>) -> CardinalityCollector {
    let mut config = CollectorConfig::default();
    config.budgets = budgets;
    config.enable_quarantine = true;
    CardinalityCollector::new(config)
}

fn breakdown(team: &str, total: f64) -> TeamCostBreakdown {
    TeamCostBreakdown {
        team: team.to_string(),
        series_cost: reading(total),
        ingestion_cost: reading(0.0),
        total_cost: reading(total),
        series_count: 100,
        sample_count: 100000,
        budget_limit: 1000,
        budget_utilization: reading(10.0),
        metric_breakdown: vec![],
    }
}

fn amounts(total: f64) -> Amounts {
    Amounts { series_cost: reading(total), ingestion_cost: reading(0.0), total_cost: reading(total) }
}

fn priced_team(own: f64, by_limit: f64, utilization: f64) -> TeamAmounts {
    TeamAmounts {
        own: amounts(own),
        by_limit: amounts(by_limit),
        utilization: reading(utilization),
        metrics: vec![amounts(own)],
    }
}

fn report(at: i64) -> CostAllocationReport {
    CostAllocationReport {
        generated_at: at,
        period_start: 0,
        period_end: at,
        currency: "USD".to_string(),
        total_cost: reading(15.0),
        total_series: 100,
        total_samples: 100000,
        team_breakdowns: vec![breakdown("test-team", 15.0)],
        unallocated_cost: reading(0.0),
    }
}

#[test]
fn test_budget_spec_defaults() {
    let spec = BudgetSpec {
        team: "test-team".to_string(),
        limit: 10000,
        warning_threshold: default_warning_threshold(),
        critical_threshold: default_critical_threshold(),
        metric_selectors: vec![],
        cardinality_labels: default_cardinality_labels(),
        enforcement_action: EnforcementAction::default(),
        quarantine_duration: default_quarantine_duration(),
    };
    assert_eq!(spec.warning_threshold, 70);
    assert_eq!(spec.critical_threshold, 90);
    assert_eq!(spec.enforcement_action, EnforcementAction::Warn);
}

#[test]
fn aggregate_collects_budgets() {
    let mut aggregate = CardinalityBudgetAggregate::new("test-team".to_string(), 10000);
    assert_eq!(aggregate.aggregate_limit, 10000);
    assert_eq!(aggregate.aggregate_current, 0);
    aggregate.add_budget("api".to_string(), budget("test-team", 5, EnforcementAction::Warn, None));
    assert_eq!(aggregate.budgets.get("api").unwrap().limit, 5);
}

#[test]
fn test_collector_new_series() {
    let mut c = CardinalityCollector::new(CollectorConfig::default());
    let labels = labels(&[("team", "test-team"), ("service", "test-service")]);
    let result = c.process_sample("test_metric", &labels, 0);
    assert_eq!(result, ProcessResult::Accepted);
    assert_eq!(c.get_cardinality("test-team", "test_metric"), 1);
    assert_eq!(c.process_sample("test_metric", &labels, 5), ProcessResult::Accepted);
    assert_eq!(c.get_cardinality("test-team", "test_metric"), 1);
}

#[test]
fn test_team_extractor() {
    let extractor = TeamExtractor::default();
    assert_eq!(extractor.extract_team(&labels(&[("team", "my-team")])), "my-team");
    assert_eq!(extractor.extract_team(&labels(&[("owner", "other-team")])), "other-team");
    assert_eq!(extractor.extract_team(&StrMap::new()), "unknown");
}

#[test]
fn spent_budgets_are_enforced() {
    let mut c = collector(vec![budget("a", 1, EnforcementAction::Drop, Some("http_*"))]);
    assert_eq!(c.process_sample("http_total", &labels(&[("team", "a"), ("pod", "1")]), 0), ProcessResult::Accepted);
    assert_eq!(
        c.process_sample("http_total", &labels(&[("team", "a"), ("pod", "2")]), 0),
        ProcessResult::Dropped { reason: "Budget exceeded: 1/1".to_string() }
    );
    assert_eq!(c.process_sample("cpu", &labels(&[("team", "a"), ("pod", "2")]), 0), ProcessResult::Accepted);

    let mut c = collector(vec![budget("a", 1, EnforcementAction::Warn, None)]);
    for pod in ["1", "2", "3"] {
        assert_eq!(c.process_sample("m", &labels(&[("team", "a"), ("pod", pod)]), 0), ProcessResult::Accepted);
    }
    assert_eq!(c.check_budget("a", "m", &StrMap::new()).current, 3);
    assert!(c.check_budget("a", "m", &StrMap::new()).exceeded);
    assert!(!c.check_budget("b", "m", &StrMap::new()).exceeded);
    assert_eq!(c.check_budget("b", "m", &StrMap::new()).limit, u64::MAX);
}

#[test]
fn metric_patterns_are_globs() {
    assert!(name_matches("*_total", "http_requests_total"));
    assert!(!name_matches("*_total", "http_requests_total_created"));
    assert!(name_matches("http_*_total", "http_requests_total"));
    assert!(name_matches("http_*", "http_"));
    assert!(name_matches("cpu?", "cpu0"));
    assert!(!name_matches("cpu?", "cpu"));
    assert!(name_matches("*", ""));
    assert!(name_matches("up", "up"));
    assert!(!name_matches("up", "upper"));
    assert!(!name_matches("", "up"));
    let mut c = collector(vec![budget("a", 0, EnforcementAction::Drop, Some("*_total"))]);
    assert_eq!(
        c.process_sample("http_total", &labels(&[("team", "a")]), 0),
        ProcessResult::Dropped { reason: "Budget exceeded: 0/0".to_string() }
    );
    assert_eq!(c.process_sample("http_count", &labels(&[("team", "a")]), 0), ProcessResult::Accepted);
}

#[test]
fn label_matchers_narrow_a_budget() {
    let mut narrow = budget("a", 0, EnforcementAction::Drop, Some("*"));
    narrow.metric_selectors[0].label_matchers = labels(&[("environment", "prod")]);
    let mut c = collector(vec![narrow]);
    assert_eq!(c.process_sample("m", &labels(&[("team", "a")]), 0), ProcessResult::Accepted);
    assert_eq!(
        c.process_sample("m", &labels(&[("team", "a"), ("environment", "dev")]), 0),
        ProcessResult::Accepted
    );
    assert_eq!(
        c.process_sample("m", &labels(&[("team", "a"), ("environment", "prod")]), 0),
        ProcessResult::Dropped { reason: "Budget exceeded: 0/0".to_string() }
    );
}

#[test]
fn only_the_named_labels_count() {
    let mut counted = budget("a", 2, EnforcementAction::Drop, None);
    counted.cardinality_labels = default_cardinality_labels();
    let mut c = collector(vec![counted]);
    for pod in ["1", "2", "3"] {
        let series = labels(&[("team", "a"), ("service", "x"), ("pod", pod)]);
        assert_eq!(c.process_sample("m", &series, 0), ProcessResult::Accepted);
    }
    assert_eq!(c.get_cardinality("a", "m"), 3);
    assert_eq!(c.check_budget("a", "m", &StrMap::new()).current, 1);
    let other = labels(&[("team", "a"), ("service", "y"), ("pod", "1")]);
    assert_eq!(c.process_sample("m", &other, 0), ProcessResult::Accepted);
    let third = labels(&[("team", "a"), ("service", "z"), ("pod", "1")]);
    assert_eq!(
        c.process_sample("m", &third, 0),
        ProcessResult::Dropped { reason: "Budget exceeded: 2/2".to_string() }
    );
}

#[test]
fn spent_budgets_quarantine_series() {
    let mut c = collector(vec![budget("a", 1, EnforcementAction::Quarantine, None)])
        .with_quarantine_manager(QuarantineManager::new(60 * MINUTE));
    assert_eq!(c.process_sample("m", &labels(&[("team", "a"), ("pod", "1")]), 0), ProcessResult::Accepted);
    let second = labels(&[("team", "a"), ("pod", "2")]);
    assert_eq!(
        c.process_sample("m", &second, 0),
        ProcessResult::Quarantined { reason: "Budget exceeded: 1/1".to_string() }
    );
    assert!(c.quarantine_manager.as_ref().unwrap().is_quarantined("m", &second));
}

#[test]
fn budgets_say_how_long_a_quarantine_lasts() {
    for (words, expected) in [("2h", 120 * MINUTE), ("whenever", 30 * MINUTE), ("9999999999999d", 30 * MINUTE)] {
        let mut strict = budget("a", 0, EnforcementAction::Quarantine, None);
        strict.quarantine_duration = words.to_string();
        let mut c = collector(vec![strict]).with_quarantine_manager(QuarantineManager::new(30 * MINUTE));
        c.process_sample("m", &labels(&[("team", "a")]), MINUTE);
        let manager = c.quarantine_manager.as_ref().unwrap();
        assert_eq!(manager.get_quarantined_for_team("a")[0].expires_at, Some(MINUTE + expected));
    }
}

#[test]
fn metrics_are_capped() {
    let mut c = collector(vec![]);
    c.config.max_series_per_metric = 1;
    assert_eq!(c.process_sample("m", &labels(&[("pod", "1")]), 0), ProcessResult::Accepted);
    assert_eq!(
        c.process_sample("m", &labels(&[("pod", "2")]), 0),
        ProcessResult::Dropped { reason: "Max series per metric reached".to_string() }
    );
    assert_eq!(c.get_cardinality("unknown", "m"), 1);
}

#[test]
fn gauges_show_counts_and_budget_use() {
    let mut c = collector(vec![
        budget("a", 10, EnforcementAction::Warn, Some("x")),
        budget("a", 20, EnforcementAction::Warn, None),
    ]);
    c.process_sample("m", &labels(&[("team", "a"), ("pod", "1")]), 0);
    c.process_sample("m", &labels(&[("team", "a"), ("pod", "2")]), 0);
    c.process_sample("n", &labels(&[("team", "a")]), 0);
    c.process_sample("n", &labels(&[("team", "b")]), 0);
    let (counts, uses) = c.flush_metrics();
    assert_eq!(counts.len(), 3);
    assert_eq!((counts[0].team.as_str(), counts[0].metric_name.as_str(), counts[0].count), ("a", "m", 2));
    assert_eq!((counts[2].team.as_str(), counts[2].count), ("b", 1));
    assert_eq!(uses.len(), 2);
    assert_eq!((uses[0].total, uses[0].limit), (3, 10));
    assert_eq!((uses[1].total, uses[1].limit), (3, 20));
    assert_eq!(c.get_all_counts().len(), 2);
}

#[test]
fn test_quarantine_and_release() {
    let mut manager = QuarantineManager::new(60 * MINUTE);
    let labels = labels(&[("team", "test-team"), ("service", "test-service")]);
    manager.quarantine_series("test_metric", &labels, "test-team", "Budget exceeded", 0);
    assert!(manager.is_quarantined("test_metric", &labels));
    let released = manager.release_series("test_metric", &labels);
    assert!(released);
    assert!(!manager.is_quarantined("test_metric", &labels));
    assert!(!manager.release_series("test_metric", &labels));
}

#[test]
fn test_quarantine_drop() {
    let mut manager = QuarantineManager::new(60 * MINUTE);
    let labels = labels(&[("team", "test-team")]);
    manager.quarantine_series("test_metric", &labels, "test-team", "Budget exceeded", 0);
    let dropped = manager.drop_series("test_metric", &labels);
    assert!(dropped);
    assert!(!manager.is_quarantined("test_metric", &labels));
}

#[test]
fn quarantine_expires() {
    let mut manager = QuarantineManager::new(60 * MINUTE);
    manager.quarantine_series("m", &labels(&[("pod", "1")]), "a", "r", 0);
    manager.quarantine_series("m", &labels(&[("pod", "2")]), "b", "r", 30 * MINUTE);
    assert_eq!(manager.get_all_quarantined().len(), 2);
    assert_eq!(manager.get_quarantined_for_team("a").len(), 1);
    assert_eq!(manager.get_quarantined_for_team("a")[0].expires_at, Some(60 * MINUTE));
    assert_eq!(manager.cleanup_expired(70 * MINUTE), 1);
    assert!(!manager.is_quarantined("m", &labels(&[("pod", "1")])));
    assert!(manager.is_quarantined("m", &labels(&[("pod", "2")])));
}

#[test]
fn test_reporter_config_defaults() {
    let config = ReporterConfig::default();
    assert_eq!(config.report_interval, 5 * 60);
    assert!(config.enable_cost_reporting);
    assert!(config.enable_quarantine_reporting);
    assert!(config.alert_on_exceeded);
}

#[test]
fn test_budget_phase_determination() {
    let at = |utilization: f64| determine_phase((utilization * 100.0) as u64, 10000);
    assert_eq!(at(50.0), BudgetPhase::Healthy);
    assert_eq!(at(75.0), BudgetPhase::Warning);
    assert_eq!(at(95.0), BudgetPhase::Critical);
    assert_eq!(at(100.0), BudgetPhase::Exceeded);
    assert_eq!(at(150.0), BudgetPhase::Exceeded);
}

#[test]
fn phases_turn_at_their_thresholds() {
    assert_eq!(determine_phase(69, 100), BudgetPhase::Healthy);
    assert_eq!(determine_phase(70, 100), BudgetPhase::Warning);
    assert_eq!(determine_phase(89, 100), BudgetPhase::Warning);
    assert_eq!(determine_phase(90, 100), BudgetPhase::Critical);
    assert_eq!(determine_phase(99, 100), BudgetPhase::Critical);
    assert_eq!(severity(BudgetPhase::Exceeded), "critical");
}

#[test]
fn reports_count_phases_and_fire_alerts() {
    let mut counts: StrMap<StrMap<u64>> = StrMap::new();
    let mut hot = StrMap::new();
    hot.insert("m".to_string(), 12000u64);
    counts.insert("a".to_string(), hot);
    let mut warm = StrMap::new();
    warm.insert("m".to_string(), 7500u64);
    counts.insert("b".to_string(), warm);
    let mut reporter = CardinalityReporter::new(ReporterConfig::default());
    let (summary, alerts) = reporter.report_cycle(&counts, Some(4), 0);
    assert_eq!(summary.teams_checked, 2);
    assert_eq!(summary.budgets_exceeded, 1);
    assert_eq!(summary.budgets_warning, 1);
    assert_eq!(summary.budgets_critical, 0);
    assert_eq!(summary.total_quarantined, 4);
    assert_eq!(alerts.len(), 2);
    assert_eq!(summary.alerts_fired, 2);
    assert_eq!(alerts[0].team, "a");
    assert_eq!(alerts[0].phase, BudgetPhase::Exceeded);
    assert_eq!(alerts[0].alert_type, "budget_exceeded");
    let (_, again) = reporter.report_cycle(&counts, None, MINUTE);
    assert_eq!(again.len(), 1);
    assert_eq!(again[0].team, "a");
    reporter.acknowledge_alert("a", "m", BudgetPhase::Exceeded);
    let states = reporter.get_alert_states();
    assert_eq!(states.len(), 2);
    assert!(states[0].acknowledged);
    assert_eq!(states[0].fire_count, 2);
    assert_eq!(states[0].alert_key, "a:m:Exceeded");
    assert!(!states[1].acknowledged);
}

#[test]
fn test_cost_allocation_config_defaults() {
    let config = CostAllocationConfig::default();
    assert_eq!(f64::from_bits(config.cost_per_series_per_month.bits), 0.10);
    assert_eq!(f64::from_bits(config.cost_per_sample.bits), 0.000001);
    assert_eq!(config.currency, "USD");
    assert_eq!(config.allocation_method, AllocationMethod::Proportional);
}

#[test]
fn usage_sums_up() {
    let mut counts: StrMap<StrMap<u64>> = StrMap::new();
    let mut own = StrMap::new();
    own.insert("m".to_string(), 3u64);
    own.insert("n".to_string(), 4u64);
    counts.insert("a".to_string(), own);
    let u = usage(&counts);
    assert_eq!(u.total_series, 7);
    assert_eq!(u.total_samples, 7000);
    assert_eq!(u.teams[0].metrics[1].sample_count, 4000);
}

#[test]
fn costs_are_listed_dearest_first() {
    let costs = vec![reading(1.0), reading(30.5), reading(1.0), reading(-2.0)];
    assert_eq!(order_by_cost(&costs), vec![1, 0, 2, 3]);
}

#[test]
fn generated_reports_list_the_dearest_team_first() {
    let mut counts: StrMap<StrMap<u64>> = StrMap::new();
    for (team, n) in [("a", 2u64), ("b", 5u64)] {
        let mut own = StrMap::new();
        own.insert("m".to_string(), n);
        counts.insert(team.to_string(), own);
    }
    let priced = vec![priced_team(0.2, 0.6, 20.0), priced_team(0.5, 0.1, 250.0)];
    let budgets = vec![];
    let mut allocator = CardinalityCostAllocator::new(CostAllocationConfig::default());
    let r = allocator.generate_report(&counts, &budgets, &priced, amounts(0.35), reading(0.7), 1, 2, 3);
    assert_eq!(r.team_breakdowns[0].team, "b");
    assert_eq!(r.team_breakdowns[1].team, "a");
    assert_eq!(r.team_breakdowns[0].sample_count, 5000);
    assert_eq!(r.team_breakdowns[0].metric_breakdown[0].series_count, 5);
    assert_eq!((r.total_series, r.total_samples), (7, 7000));
    assert_eq!((r.period_start, r.period_end, r.generated_at), (1, 2, 3));
    assert_eq!((r.team_breakdowns[0].budget_limit, r.team_breakdowns[0].budget_utilization.bits), (0, 0));
    assert_eq!(allocator.get_reports().len(), 1);
    let mut config = CostAllocationConfig::default();
    config.allocation_method = AllocationMethod::EqualShare;
    let mut allocator = CardinalityCostAllocator::new(config);
    let r = allocator.generate_report(&counts, &budgets, &priced, amounts(0.35), reading(0.7), 1, 2, 3);
    for team in &r.team_breakdowns {
        assert_eq!(team.total_cost.bits, 0.35f64.to_bits());
    }
    assert_eq!(r.team_breakdowns[0].team, "a");
    assert_eq!(r.team_breakdowns[0].metric_breakdown[0].total_cost.bits, 0.2f64.to_bits());
}

#[test]
fn costs_go_by_budget_limits_where_there_are_any() {
    let mut counts: StrMap<StrMap<u64>> = StrMap::new();
    for (team, n) in [("a", 2u64), ("b", 5u64), ("c", 1u64)] {
        let mut own = StrMap::new();
        own.insert("m".to_string(), n);
        counts.insert(team.to_string(), own);
    }
    let budgets = vec![
        budget("b", 2, EnforcementAction::Warn, None),
        budget("a", 6, EnforcementAction::Warn, None),
        budget("b", 9, EnforcementAction::Warn, None),
    ];
    let limits = team_limits(&counts, &budgets);
    assert_eq!(limits, vec![6, 2, 0]);
    assert!(has_limit(&limits));
    assert!(!has_limit(&team_limits(&counts, &vec![])));
    let priced = vec![priced_team(0.2, 0.6, 33.0), priced_team(0.5, 0.2, 250.0), priced_team(0.1, 0.0, 1.0)];
    let mut config = CostAllocationConfig::default();
    config.allocation_method = AllocationMethod::BudgetBased;
    let mut allocator = CardinalityCostAllocator::new(config);
    let r = allocator.generate_report(&counts, &budgets, &priced, amounts(0.3), reading(0.8), 1, 2, 3);
    let listed: Vec<_> = r
        .team_breakdowns
        .iter()
        .map(|t| (t.team.as_str(), f64::from_bits(t.total_cost.bits), t.budget_limit, t.budget_utilization.bits))
        .collect();
    assert_eq!(
        listed,
        vec![("a", 0.6, 6, 33f64.to_bits()), ("b", 0.2, 2, 250f64.to_bits()), ("c", 0.0, 0, 0)],
    );
    let r = allocator.generate_report(&counts, &vec![], &priced, amounts(0.3), reading(0.8), 1, 2, 3);
    assert_eq!(r.team_breakdowns[0].team, "b");
    assert_eq!(r.team_breakdowns[0].total_cost.bits, 0.5f64.to_bits());
}

#[test]
fn cost_reports_are_kept_and_exported() {
    let mut allocator = CardinalityCostAllocator::new(CostAllocationConfig::default());
    assert!(allocator.get_latest_report().is_none());
    for i in 0..102 {
        allocator.store_report(report(i));
    }
    assert_eq!(allocator.get_reports().len(), 100);
    assert_eq!(allocator.get_reports()[0].generated_at, 2);
    assert_eq!(allocator.get_latest_report().unwrap().generated_at, 101);
    let shown = vec![ShownAmounts {
        series_cost: "10.0000".to_string(),
        ingestion_cost: "5.0000".to_string(),
        total_cost: "15.0000".to_string(),
        budget_utilization: "10.00".to_string(),
    }];
    assert_eq!(
        export_csv(&report(0), &shown),
        "team,series_count,sample_count,series_cost,ingestion_cost,total_cost,budget_limit,budget_utilization_percent\n\
         test-team,100,100000,10.0000,5.0000,15.0000,1000,10.00\n"
    );
}
