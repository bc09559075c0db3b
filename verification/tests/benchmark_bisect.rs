use stellar_k8s::benchmark_bisect::{
    compare_figures, middle, twice_rank_sum, BisectConfig, BisectError, Bisection, Commit, Comparison, Evidence, Middle,
    ShownFigures,
};
use stellar_k8s::reading::Reading;

fn reading(x: f64) -> Reading {
    Reading { bits: x.to_bits() }
}

fn commits(n: usize) -> Vec<Commit> {
    (0..n)
        .map(|i| Commit { sha: format!("c{i}"), author: format!("dev{}", i % 7) })
        .collect()
}

fn slow() -> Comparison {
    compare_figures(reading(10.0), reading(0.001), reading(0.999), &BisectConfig::default())
}

fn ceil_log2(n: usize) -> usize {
    (usize::BITS - (n - 1).leading_zeros()) as usize
}

#[test]
fn finds_seeded_commit_within_log2_runs() {
    let range = commits(64);
    let mut b = Bisection::start(range, vec![], vec![], true, &BisectConfig::default())
        .unwrap_or_else(|_| panic!("refused"));
    while let Some(at) = b.next() {
        b.observe(vec![reading(at as f64)]);
        let bad = at >= 37;
        assert_eq!(b.decide(bad, !bad, false), Some(bad));
    }
    let ev = b.finish(slow());
    assert_eq!(ev.commit.sha, "c37");
    assert_eq!(ev.last_good.sha, "c36");
    assert_eq!(ev.commit.author, "dev2");
    assert!(ev.benchmark_runs <= ceil_log2(64), "{ev:?}");
    assert_eq!(ev.benchmark_runs, ceil_log2(63));
    assert_eq!(ev.noisy_midpoints, 0);
    assert!(ev.comparison.regressed);
    let shown = ShownFigures { effect: "10.0".into(), p: "0.001".into(), confidence: "99.9".into() };
    assert!(ev.to_markdown(&shown).contains("c37"));
}

/// Bisects with clean verdicts where the commits from `culprit` on are slow.
fn clean_search(n: usize, culprit: usize) -> Evidence {
    let mut b = Bisection::start(commits(n), vec![], vec![], true, &BisectConfig::default())
        .unwrap_or_else(|_| panic!("refused"));
    while let Some(at) = b.next() {
        b.observe(vec![reading(at as f64)]);
        let bad = at >= culprit;
        assert_eq!(b.decide(bad, !bad, false), Some(bad));
    }
    b.finish(slow())
}

#[test]
fn clean_searches_take_exactly_the_logarithm() {
    let ev = clean_search(4, 1);
    assert_eq!((ev.commit.sha.as_str(), ev.last_good.sha.as_str()), ("c1", "c0"));
    assert_eq!((ev.benchmark_runs, ev.noisy_midpoints), (2, 0));
    for n in 2..40 {
        for culprit in 1..n {
            let ev = clean_search(n, culprit);
            assert_eq!(ev.commit.sha, format!("c{culprit}"));
            let candidates = n - 1;
            let expected = if candidates == 1 { 0 } else { ceil_log2(candidates) };
            assert_eq!(ev.benchmark_runs, expected, "{n} commits, culprit {culprit}");
        }
    }
}

#[test]
fn the_commit_found_is_confirmed() {
    let mut b = Bisection::start(commits(4), vec![], vec![], true, &BisectConfig::default())
        .unwrap_or_else(|_| panic!("refused"));
    assert_eq!(b.next(), Some(1));
    b.observe(vec![reading(1.0)]);
    assert_eq!(b.decide(true, false, true), Some(true));
    assert_eq!(b.next(), Some(1));
    b.observe(vec![reading(2.0)]);
    assert_eq!(b.decide(false, true, false), Some(false));
    assert_eq!(b.next(), None);
    assert_eq!(b.hi_samples.len(), 2);
    let ev = b.finish(slow());
    assert_eq!(ev.commit.sha, "c1");
    assert_eq!((ev.benchmark_runs, ev.noisy_midpoints), (2, 0));
}

#[test]
fn noisy_searches_end_where_their_range_closes() {
    let mut b = Bisection::start(commits(4), vec![], vec![], true, &BisectConfig::default())
        .unwrap_or_else(|_| panic!("refused"));
    b.observe(vec![reading(1.0)]);
    assert_eq!(b.decide(true, true, false), None);
    assert_eq!(b.next(), Some(1));
    b.observe(vec![reading(1.0)]);
    assert_eq!(b.decide(true, false, true), Some(true));
    assert_eq!(b.next(), None);
    assert_eq!(b.hi_samples.len(), 2);
    let ev = b.finish(slow());
    assert_eq!(ev.commit.sha, "c1");
    assert_eq!((ev.benchmark_runs, ev.noisy_midpoints), (2, 1));
}

#[test]
fn an_unclear_confirmation_is_not_repeated() {
    let mut b = Bisection::start(commits(4), vec![], vec![], true, &BisectConfig::default())
        .unwrap_or_else(|_| panic!("refused"));
    b.observe(vec![reading(1.0)]);
    assert_eq!(b.decide(true, false, true), Some(true));
    b.observe(vec![reading(1.0)]);
    assert_eq!(b.decide(true, true, true), Some(true));
    assert_eq!(b.next(), None);
    let ev = b.finish(slow());
    assert_eq!((ev.benchmark_runs, ev.noisy_midpoints), (2, 0));
}

#[test]
fn unclear_midpoints_are_run_again() {
    let mut cfg = BisectConfig::default();
    cfg.max_attempts = 2;
    let mut b = Bisection::start(commits(3), vec![], vec![], true, &cfg).unwrap_or_else(|_| panic!("refused"));
    assert_eq!(b.next(), Some(1));
    b.observe(vec![reading(1.0)]);
    assert_eq!(b.decide(true, true, false), None);
    b.observe(vec![reading(2.0)]);
    assert_eq!(b.decide(false, false, true), Some(true));
    assert_eq!(b.next(), None);
    let ev = b.finish(slow());
    assert_eq!(ev.commit.sha, "c1");
    assert_eq!(ev.benchmark_runs, 2);
    assert_eq!(ev.noisy_midpoints, 1);
}

#[test]
fn rejects_range_without_regression() {
    let r = Bisection::start(commits(8), vec![], vec![], false, &BisectConfig::default());
    assert!(matches!(r, Err(BisectError::NoRegression)));
    let r = Bisection::start(commits(1), vec![], vec![], true, &BisectConfig::default());
    assert!(matches!(r, Err(BisectError::RangeTooSmall)));
}

#[test]
fn runner_failures_name_the_commit() {
    let b = Bisection::start(commits(5), vec![], vec![], true, &BisectConfig::default())
        .unwrap_or_else(|_| panic!("refused"));
    match b.failed("no build".into()) {
        BisectError::Runner { sha, reason } => {
            assert_eq!(sha, "c2");
            assert_eq!(reason, "no build");
        }
        _ => panic!("expected a runner failure"),
    }
    let e = BisectError::Runner { sha: "c2".into(), reason: "no build".into() };
    assert!(e.message().contains("c2") && e.message().contains("no build"));
}

#[test]
fn comparisons_need_effect_and_significance() {
    let cfg = BisectConfig::default();
    assert!(slow().regressed);
    assert!(!compare_figures(reading(10.0), reading(0.5), reading(0.5), &cfg).regressed);
    assert!(!compare_figures(reading(0.1), reading(0.001), reading(0.999), &cfg).regressed);
}

#[test]
fn medians_come_from_the_middle() {
    assert!(matches!(middle(&vec![]), Middle::Nothing));
    match middle(&vec![reading(3.0), reading(-1.0), reading(2.0)]) {
        Middle::One(x) => assert_eq!(f64::from_bits(x.bits), 2.0),
        _ => panic!("expected one"),
    }
    match middle(&vec![reading(4.0), reading(1.0), reading(3.0), reading(2.0)]) {
        Middle::Two(a, b) => {
            assert_eq!(f64::from_bits(a.bits), 2.0);
            assert_eq!(f64::from_bits(b.bits), 3.0);
        }
        _ => panic!("expected two"),
    }
}

#[test]
fn rank_sums_share_ties() {
    let base = vec![reading(1.0), reading(2.0)];
    let cand = vec![reading(2.0), reading(3.0)];
    // Ranks: 1, 2.5, 2.5, 4; the candidate's are 2.5 and 4.
    assert_eq!(twice_rank_sum(&base, &cand), 13);
}
