use std::collections::HashMap;

use stellar_k8s::api_gateway::deprecation_timeline::{
    build_report, due_reminders, render_csv, render_html, timeline_row, AdoptionStatus, DeprecationReport, DeprecationState,
    ReminderPolicy, RequestEvent, VersioningConfig, ANONYMOUS_CONSUMER,
};
use stellar_k8s::calendar::day_of;
use stellar_k8s::strmap::StrMap;

fn cfg() -> VersioningConfig {
    let mut sunset_dates = StrMap::new();
    sunset_dates.insert("v2".to_string(), "2026-12-31".to_string());
    VersioningConfig {
        current_version: "v3".into(),
        deprecated_versions: vec!["v2".into()],
        sunset_versions: vec!["v1".into()],
        sunset_dates,
    }
}

fn ev(version: &str, key: Option<&str>) -> RequestEvent {
    RequestEvent {
        timestamp: "2026-09-24T00:00:00Z".into(),
        route_id: "r".into(),
        method: "GET".into(),
        path: "/".into(),
        status: 200,
        latency_ms: 1,
        api_key_id: key.map(|k| k.to_string()),
        version: version.into(),
    }
}

fn day(s: &str) -> i32 {
    day_of(s).unwrap()
}

fn adoption_pct(migrated: usize, consumers: usize) -> f64 {
    if consumers == 0 {
        100.0
    } else {
        migrated as f64 / consumers as f64 * 100.0
    }
}

fn pcts(r: &DeprecationReport) -> Vec<String> {
    r.entries.iter().map(|e| format!("{:.2}", adoption_pct(e.migrated, e.consumers.len()))).collect()
}

#[test]
fn timeline_covers_every_deprecated_and_sunset_api() {
    let r = build_report(&cfg(), &vec![], day("2026-09-24"));
    let apis: Vec<_> = r.entries.iter().map(|e| e.api_version.as_str()).collect();
    assert_eq!(apis, vec!["v1", "v2"]);
    assert_eq!(r.entries[0].state, DeprecationState::Sunset);
    assert_eq!(r.entries[1].days_remaining, Some(98));
    assert_eq!(adoption_pct(r.entries[1].migrated, r.entries[1].consumers.len()), 100.0);
}

#[test]
fn adoption_matches_raw_usage_exactly() {
    let mut events = Vec::new();
    events.extend((0..5).map(|_| ev("v2", Some("a")))); // not started
    events.extend((0..3).map(|_| ev("v2", Some("b")))); // in progress
    events.extend((0..4).map(|_| ev("v3", Some("b"))));
    events.extend((0..2).map(|_| ev("v3", Some("c")))); // migrated
    events.push(ev("v2", None)); // anonymous, not started

    let r = build_report(&cfg(), &events, day("2026-09-24"));
    let v2 = r.entries.iter().find(|e| e.api_version == "v2").unwrap();

    let raw_dep = events.iter().filter(|e| e.version == "v2").count() as u64;
    let raw_succ = events.iter().filter(|e| e.version == "v3").count() as u64;
    assert_eq!(v2.deprecated_requests, raw_dep);
    assert_eq!(v2.successor_requests, raw_succ);

    let status: HashMap<_, _> = v2.consumers.iter().map(|c| (c.consumer.as_str(), c.status)).collect();
    assert_eq!(status["a"], AdoptionStatus::NotStarted);
    assert_eq!(status["b"], AdoptionStatus::InProgress);
    assert_eq!(status["c"], AdoptionStatus::Migrated);
    assert_eq!(status[ANONYMOUS_CONSUMER], AdoptionStatus::NotStarted);
    assert!((adoption_pct(v2.migrated, v2.consumers.len()) - 25.0).abs() < f64::EPSILON);
}

#[test]
fn reminders_fire_once_per_interval() {
    let events = vec![ev("v2", Some("a")), ev("v3", Some("c"))];
    let policy = ReminderPolicy::default();
    let mut sent: Vec<(String, i64)> = Vec::new();
    let mut fired = Vec::new();

    let mut d = day("2026-09-01");
    while d <= day("2026-12-31") {
        let r = build_report(&cfg(), &events, d);
        for rem in due_reminders(&r, &policy, &sent) {
            assert_eq!(rem.pending_consumers, vec!["a".to_string()]);
            sent.push((rem.api_version.clone(), rem.interval_days));
            fired.push(rem.interval_days);
        }
        d += 1;
    }
    assert_eq!(fired, vec![90, 60, 30, 14, 7, 1]);
}

#[test]
fn missed_run_catches_up_with_tightest_interval() {
    let r = build_report(&cfg(), &vec![], day("2026-12-26"));
    let due = due_reminders(&r, &ReminderPolicy::default(), &vec![]);
    assert_eq!(due.len(), 1);
    assert_eq!(due[0].interval_days, 7);
    assert!(due[0].message().contains("sunsets in 5 day(s)"));
}

#[test]
fn exports_contain_every_consumer() {
    let events = vec![ev("v2", Some("a,b")), ev("v3", Some("<c>"))];
    let r = build_report(&cfg(), &events, day("2026-09-24"));
    let csv = render_csv(&r, &pcts(&r));
    assert!(csv.contains("v2,Deprecated,2026-12-31,98,50.00,\"a,b\",NotStarted,1,0"));
    let html = render_html(&r, &pcts(&r));
    assert!(html.contains("&lt;c&gt;"));
}

#[test]
fn full_estate_report_is_fast() {
    let events: Vec<_> = (0..500_000)
        .map(|i| ev(if i % 3 == 0 { "v2" } else { "v3" }, Some(&format!("k{}", i % 1000))))
        .collect();
    let start = std::time::Instant::now();
    let r = build_report(&cfg(), &events, day("2026-09-24"));
    let _ = render_html(&r, &pcts(&r));
    assert!(start.elapsed() < std::time::Duration::from_secs(120));
}

#[test]
fn days_are_counted_from_dates() {
    assert_eq!(day("2026-09-25") - day("2026-09-24"), 1);
    assert_eq!(day("0001-01-01"), 1);
    assert_eq!(day_of("2026-02-30"), None);
    assert_eq!(day_of("soon"), None);
}

#[test]
fn rows_count_the_days_to_their_sunset() {
    let row = timeline_row(&cfg(), "v2", Some(day("2026-12-31")), &vec![ev("v2", Some("k"))], day("2026-12-26"));
    assert_eq!(row.days_remaining, Some(5));
    assert_eq!(row.state, DeprecationState::Deprecated);
    assert_eq!(row.deprecated_requests, 1);
    assert_eq!(row.successor_version, "v3");
    assert_eq!(timeline_row(&cfg(), "v1", None, &vec![], day("2026-12-26")).days_remaining, None);
}
