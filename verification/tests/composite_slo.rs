use stellar_k8s::composite_slo::{
    composite_terms, fmt_num, render_rules, validate, CompositeConfig, CompositeSlo, RuleNumbers, SloFigures,
    WeightReview, WeightedSli, WINDOWS,
};
use stellar_k8s::reading::Reading;
use stellar_k8s::strmap::StrMap;

fn reading(x: f64) -> Reading {
    Reading { bits: x.to_bits() }
}

fn sli(name: &str, weight: f64) -> WeightedSli {
    WeightedSli { name: name.into(), record: format!("stellar:slo:api_{name}:ratio"), weight: reading(weight) }
}

fn config() -> CompositeConfig {
    let mut weights = StrMap::new();
    weights.insert("availability".to_string(), reading(0.5));
    weights.insert("latency".to_string(), reading(0.3));
    weights.insert("freshness".to_string(), reading(0.2));
    CompositeConfig {
        tier1_services: vec!["stellar-api".into()],
        composites: vec![CompositeSlo {
            service: "stellar-api".into(),
            target: reading(0.998),
            version: 1,
            slis: vec![sli("availability", 0.5), sli("latency", 0.3), sli("freshness", 0.2)],
            reviews: vec![WeightReview {
                version: 1,
                date: "2026-01-01".into(),
                reviewed_by: "sre".into(),
                reason: "initial".into(),
                weights,
            }],
        }],
    }
}

fn figures(cfg: &CompositeConfig) -> Vec<SloFigures> {
    cfg.composites
        .iter()
        .map(|c| {
            let sum: f64 = c.slis.iter().map(|s| f64::from_bits(s.weight.bits)).sum();
            let review = c.reviews.iter().find(|r| r.version == c.version);
            SloFigures {
                target: format!("{}", f64::from_bits(c.target.bits)),
                sum: format!("{sum}"),
                sum_is_one: (sum - 1.0).abs() <= 1e-9,
                close: c
                    .slis
                    .iter()
                    .map(|s| {
                        review.and_then(|r| r.weights.get(&s.name)).map_or(false, |w| {
                            (f64::from_bits(w.bits) - f64::from_bits(s.weight.bits)).abs() <= 1e-9
                        })
                    })
                    .collect(),
            }
        })
        .collect()
}

fn known() -> Vec<String> {
    ["availability", "latency", "freshness"].iter().map(|n| format!("stellar:slo:api_{n}:ratio")).collect()
}

fn check(cfg: &CompositeConfig) -> Result<(), String> {
    validate(cfg, &known(), &figures(cfg))
}

fn render(cfg: &CompositeConfig) -> String {
    let numbers = cfg
        .composites
        .iter()
        .map(|c| RuleNumbers {
            weights: c.slis.iter().map(|s| format!("{:.6}", f64::from_bits(s.weight.bits))).collect(),
            budget: format!("{:.6}", 1.0 - f64::from_bits(c.target.bits)),
        })
        .collect();
    render_rules(cfg, &numbers)
}

#[test]
fn repository_config_is_valid() {
    check(&config()).unwrap();
}

#[test]
fn rules_publish_composite_and_budget() {
    let r = render(&config());
    assert!(r.contains(
        "sum by (service) (0.5 * stellar:slo:api_availability:ratio{service=\"stellar-api\"})\n          + sum by (service) (0.3 * stellar:slo:api_latency:ratio{service=\"stellar-api\"})"
    ));
    assert!(r.contains("expr: (1 - stellar:slo:composite:ratio_rate30d{service=\"stellar-api\"}) / 0.002"));
    assert!(r.contains("record: stellar:slo:composite:error_budget_remaining"));
    assert_eq!(r.matches("- record: ").count(), 13);
    assert_eq!(WINDOWS.len(), 5);
}

#[test]
fn numbers_are_shortened_once() {
    let mut cfg = config();
    cfg.composites[0].slis[0].weight = reading(10.0);
    cfg.composites[0].target = reading(1.0);
    let r = render(&cfg);
    assert!(r.contains("sum by (service) (10 * "), "{r}");
    assert!(r.contains(") / 0\n"), "{r}");
    assert_eq!(fmt_num("10.000000"), "10");
}

#[test]
fn weight_changes_require_versioned_review() {
    let mut cfg = config();
    cfg.composites[0].slis[0].weight = reading(0.4);
    cfg.composites[0].slis[1].weight = reading(0.4);
    let err = check(&cfg).unwrap_err();
    assert!(err.contains("weights differ from review v1"), "{err}");

    cfg.composites[0].version = 2;
    assert!(check(&cfg).unwrap_err().contains("version 2 has no review"));

    let mut weights = StrMap::new();
    weights.insert("availability".to_string(), reading(0.4));
    weights.insert("latency".to_string(), reading(0.4));
    weights.insert("freshness".to_string(), reading(0.2));
    cfg.composites[0].reviews.push(WeightReview {
        version: 2,
        date: "2026-01-01".into(),
        reviewed_by: "sre".into(),
        reason: "initial".into(),
        weights,
    });
    check(&cfg).unwrap();

    cfg.composites[0].slis[2].weight = reading(0.3);
    assert!(check(&cfg).unwrap_err().contains("weights sum to"));
}

#[test]
fn every_tier1_service_needs_a_composite() {
    let mut cfg = config();
    cfg.tier1_services.push("horizon".into());
    assert!(check(&cfg).unwrap_err().contains("tier-1 service 'horizon'"));
}

#[test]
fn terms_need_every_value() {
    let cfg = config();
    let mut values = StrMap::new();
    values.insert("availability".to_string(), reading(1.0));
    values.insert("latency".to_string(), reading(0.9));
    assert!(composite_terms(&cfg.composites[0], &values).is_none());
    values.insert("freshness".to_string(), reading(0.8));
    let terms = composite_terms(&cfg.composites[0], &values).unwrap();
    let ratio: f64 = terms.iter().map(|(w, v)| f64::from_bits(w.bits) * f64::from_bits(v.bits)).sum();
    assert!((ratio - 0.93).abs() < 1e-9);
}

#[test]
fn numbers_lose_trailing_zeros() {
    assert_eq!(fmt_num("0.500000"), "0.5");
    assert_eq!(fmt_num("1.000000"), "1");
    assert_eq!(fmt_num("0.002000"), "0.002");
}
