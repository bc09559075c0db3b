use stellar_k8s::controller::ownership_registry::{
    alertmanager_routes, alerts_url, attribute_alert, codeowners_for, codeowners_match, derive_status, glob,
    history_for, ownership_alerts, WorkloadMeta,
};
use stellar_k8s::crd::service_ownership::{
    OwnershipSource, ServiceOwnershipRegistrySpec, ServiceOwnershipRegistryStatus, TeamRotation, WorkloadRef,
};
use stellar_k8s::json::Json;
use stellar_k8s::strmap::StrMap;

const CODEOWNERS: &str = "\
*                   @maintainers
/charts/            @devops-team
/src/controller/    @kubernetes-experts
*.sql               @db-team # trailing comment
";

fn spec() -> ServiceOwnershipRegistrySpec {
    let team = |name: &str, handle: &str, live: bool| TeamRotation {
        team: name.into(),
        handles: vec![handle.into()],
        rotation: format!("{name}-primary"),
        receiver: format!("{name}-pager"),
        live,
    };
    ServiceOwnershipRegistrySpec {
        owner_label: "stellar.org/owner".into(),
        deploy_annotation: "stellar.org/deployed-by-team".into(),
        source_path_annotation: "stellar.org/source-path".into(),
        codeowners: Some(CODEOWNERS.into()),
        teams: vec![
            team("platform", "@maintainers", true),
            team("devops", "@devops-team", true),
            team("k8s", "@kubernetes-experts", true),
            team("db", "@db-team", false),
        ],
        excluded_namespaces: vec!["kube-system".into()],
        alertmanager_url: None,
        history_limit: 100,
    }
}

fn map(kv: &[(&str, &str)]) -> StrMap<String> {
    let mut m = StrMap::new();
    for (k, v) in kv {
        m.insert(k.to_string(), v.to_string());
    }
    m
}

fn wl(name: &str, labels: &[(&str, &str)], ann: &[(&str, &str)]) -> WorkloadMeta {
    WorkloadMeta {
        workload: WorkloadRef { kind: "Deployment".into(), namespace: "stellar".into(), name: name.into() },
        labels: map(labels),
        annotations: map(ann),
    }
}

fn none() -> ServiceOwnershipRegistryStatus {
    ServiceOwnershipRegistryStatus::default()
}

fn item(j: &Json, i: usize) -> &Json {
    match j {
        Json::Arr(items) => &items[i],
        _ => panic!("not a list"),
    }
}

#[test]
fn codeowners_semantics() {
    assert!(codeowners_match("*", "src/main.rs"));
    assert!(codeowners_match("/charts/", "charts/stellar-operator/values.yaml"));
    assert!(!codeowners_match("/charts/", "docs/charts/x.md"));
    assert!(codeowners_match("*.sql", "db/migrations/001.sql"));
    assert!(codeowners_match("/src/controller/mtls.rs", "src/controller/mtls.rs"));
    assert_eq!(codeowners_for(CODEOWNERS, "src/controller/foo.rs"), vec!["@kubernetes-experts"]);
    assert_eq!(codeowners_for(CODEOWNERS, "README.md"), vec!["@maintainers"]);
}

#[test]
fn globs_match_within_a_text() {
    assert!(glob("a*c", "abbc"));
    assert!(glob("*", ""));
    assert!(!glob("a*c", "abbd"));
    assert!(!glob("", "x"));
}

#[test]
fn precedence_label_then_deploy_then_codeowners() {
    let s = spec();
    let ws = vec![
        wl("a", &[("stellar.org/owner", "devops")], &[("stellar.org/deployed-by-team", "k8s")]),
        wl("b", &[], &[("stellar.org/deployed-by-team", "k8s")]),
        wl("c", &[], &[("stellar.org/source-path", "charts/foo")]),
    ];
    let st = derive_status(&s, &ws, &none(), 0);
    let got: Vec<_> =
        st.entries.iter().map(|e| (e.workload.name.as_str(), e.team.as_str(), e.source)).collect();
    assert_eq!(
        got,
        vec![
            ("a", "devops", OwnershipSource::Label),
            ("b", "k8s", OwnershipSource::DeployMetadata),
            ("c", "devops", OwnershipSource::Codeowners),
        ]
    );
    assert_eq!(st.conditions[0].status, "True");
}

#[test]
fn unowned_and_stale_are_alerted_in_one_cycle() {
    let s = spec();
    let ws = vec![
        wl("orphan", &[], &[]),
        wl("ghost", &[("stellar.org/owner", "nobody")], &[]),
        wl("db", &[], &[("stellar.org/source-path", "db/schema.sql")]),
        WorkloadMeta {
            workload: WorkloadRef {
                kind: "DaemonSet".into(),
                namespace: "kube-system".into(),
                name: "kube-proxy".into(),
            },
            ..Default::default()
        },
    ];
    let st = derive_status(&s, &ws, &none(), 0);
    assert_eq!(st.unowned.len(), 1);
    assert_eq!(st.stale.len(), 2);
    assert_eq!(st.unowned_count, 3);
    assert_eq!(st.conditions[0].status, "False");
    let alerts = ownership_alerts(&st);
    assert_eq!(alerts.len(), 3);
    let labels = alerts[0].get("labels").unwrap();
    assert_eq!(labels.get("alertname").unwrap().as_str(), Some("WorkloadUnowned"));
    assert_eq!(labels.get("workload").unwrap().as_str(), Some("orphan"));
}

#[test]
fn history_tracks_changes_and_is_bounded() {
    let mut s = spec();
    let t0: i64 = 7;
    let st1 = derive_status(&s, &[wl("a", &[("stellar.org/owner", "devops")], &[])], &none(), t0);
    assert_eq!(st1.history.len(), 1);
    let st2 = derive_status(&s, &[wl("a", &[("stellar.org/owner", "devops")], &[])], &st1, t0);
    assert_eq!(st2.history.len(), 1, "no change, no record");
    let st3 = derive_status(&s, &[wl("a", &[("stellar.org/owner", "k8s")], &[])], &st2, t0);
    let h = history_for(&st3, &st3.entries[0].workload);
    assert_eq!(h.len(), 2);
    assert_eq!(h[1].previous_team.as_deref(), Some("devops"));
    assert_eq!(h[1].team.as_deref(), Some("k8s"));
    assert_eq!(h[1].changed_at, t0);

    s.history_limit = 1;
    let st4 = derive_status(&s, &[wl("a", &[("stellar.org/owner", "platform")], &[])], &st3, t0);
    assert_eq!(st4.history.len(), 1);
    assert_eq!(st4.history[0].team.as_deref(), Some("platform"));
}

#[test]
fn alert_attribution_matches_registry() {
    let s = spec();
    let ws: Vec<_> = (0..100)
        .map(|i| {
            let team = ["platform", "devops", "k8s"][i % 3];
            wl(&format!("w{i}"), &[("stellar.org/owner", team)], &[])
        })
        .collect();
    let st = derive_status(&s, &ws, &none(), 0);
    assert_eq!(st.entries.len(), 100);
    for e in &st.entries {
        let labels = map(&[("namespace", &e.workload.namespace), ("deployment", &e.workload.name)]);
        let got = attribute_alert(&st, &labels).unwrap();
        assert_eq!(got, e);
        assert!(s.teams.iter().any(|t| t.team == got.team && t.live));
    }
    let routes = alertmanager_routes(&s);
    assert_eq!(item(&routes, 1).get("receiver").unwrap().as_str(), Some("devops-pager"));
    let matchers = item(&routes, 1).get("matchers").unwrap();
    assert_eq!(item(matchers, 0).as_str(), Some("team=\"devops\""));
}

#[test]
fn alerts_go_to_the_v2_endpoint() {
    assert_eq!(alerts_url("http://am:9093/"), "http://am:9093/api/v2/alerts");
}
