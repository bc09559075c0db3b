//! Automated performance regression bisection.
//!
//! When the samples of a change regress against a baseline, a binary search over the commits
//! between the last good and the first bad one finds the offending change. A midpoint is
//! classified by comparing it with both the known-good and the known-bad samples; where the
//! two comparisons disagree, it is sampled again before the nearest median decides. With clean
//! classifications a search over `n` candidates takes exactly the binary logarithm of `n` runs,
//! rounded up: where the range closes in one run less, the commit found is run again to confirm
//! it. A search with a noisy midpoint ends where its range closes.
//!
//! Samples are "lower is better". Medians, effect sizes and p-values are worked out by the
//! caller from the exact parts given here.

use vstd::prelude::*;
#[allow(unused_imports)]
use vstd::string::*;
#[allow(unused_imports)]
use crate::ranking::{positions, rank, Ranking};
#[allow(unused_imports)]
use crate::reading::{is_nan, is_negative, magnitude, rank_of, Reading};
#[allow(unused_imports)]
use crate::text::{dec, decimal, either_holds, four_more, occurs, text2, three_end, two_end};

verus! {

/// Statistical thresholds for regression detection and bisection.
#[derive(Debug, Clone, Copy)]
pub struct BisectConfig {
    /// One-sided significance level.
    pub alpha: Reading,
    /// Minimum relative median slowdown, in percent, to count as a regression.
    pub min_effect_pct: Reading,
    /// Benchmark runs allowed per midpoint before falling back to the nearest-median rule.
    pub max_attempts: usize,
}

impl Default for BisectConfig {
    fn default() -> (c: Self)
        ensures
            c.alpha.bits == 0x3F84_7AE1_47AE_147B,
            c.min_effect_pct.bits == 0x4000_0000_0000_0000,
            c.max_attempts == 3,
    {
        BisectConfig {
            alpha: Reading { bits: 0x3F84_7AE1_47AE_147B },
            min_effect_pct: Reading { bits: 0x4000_0000_0000_0000 },
            max_attempts: 3,
        }
    }
}

/// Result of comparing a candidate distribution against a baseline.
#[derive(Debug, Clone, Copy)]
pub struct Comparison {
    /// Relative median change of candidate vs baseline, in percent.
    pub effect_size_pct: Reading,
    /// One-sided p-value for "candidate is slower than baseline".
    pub p_value: Reading,
    /// One less the p-value.
    pub confidence: Reading,
    pub regressed: bool,
}

/// The comparison with these figures: a regression where the p-value is below the
/// significance level and the effect is large enough.
pub fn compare_figures(
    effect_size_pct: Reading,
    p_value: Reading,
    confidence: Reading,
    cfg: &BisectConfig,
) -> (c: Comparison)
    ensures
        c.effect_size_pct == effect_size_pct,
        c.p_value == p_value,
        c.confidence == confidence,
        c.regressed == (p_value.less(cfg.alpha) && cfg.min_effect_pct.at_most(effect_size_pct)),
{
    let regressed = p_value.lt(&cfg.alpha) && cfg.min_effect_pct.le(&effect_size_pct);
    Comparison { effect_size_pct, p_value, confidence, regressed }
}

/// The place of a sample in the total order of doubles, in which minus zero comes before
/// zero and what is not a number lies outside the numbers.
pub open spec fn total_rank(r: Reading) -> int {
    if is_negative(r.bits) {
        -magnitude(r.bits) - 1
    } else {
        magnitude(r.bits)
    }
}

/// The sample at `a` is sorted before the sample at `b`.
pub open spec fn sorts_before(s: Seq<Reading>, a: int, b: int) -> bool {
    total_rank(s[a]) < total_rank(s[b]) || total_rank(s[a]) == total_rank(s[b]) && a < b
}

/// `at` lists the samples in order.
pub open spec fn is_sorted_order(s: Seq<Reading>, at: Seq<int>) -> bool {
    &&& at.len() == s.len()
    &&& forall|k: int| 0 <= k < at.len() ==> 0 <= #[trigger] at[k] < s.len()
    &&& forall|k: int, l: int| 0 <= k < l < at.len() ==> sorts_before(s, #[trigger] at[k], #[trigger] at[l])
}

/// The middle of some samples: one, or the two whose mean is the median.
#[derive(Debug, Clone, Copy)]
pub enum Middle {
    Nothing,
    One(Reading),
    Two(Reading, Reading),
}

/// `m` is the middle of the samples in this order.
pub open spec fn is_middle(m: Middle, s: Seq<Reading>, at: Seq<int>) -> bool {
    let n = s.len() as int;
    if n == 0 {
        m is Nothing
    } else if n % 2 == 1 {
        m == Middle::One(s[at[n / 2]])
    } else {
        m == Middle::Two(s[at[n / 2 - 1]], s[at[n / 2]])
    }
}

fn place(r: &Reading) -> (x: i128)
    ensures
        x == total_rank(*r),
{
    if r.bits >= 0x8000_0000_0000_0000 {
        -((r.bits - 0x8000_0000_0000_0000) as i128) - 1
    } else {
        r.bits as i128
    }
}

struct SampleRanking<'a> {
    samples: &'a Vec<Reading>,
}

impl<'a> Ranking for SampleRanking<'a> {
    closed spec fn size(&self) -> int {
        self.samples@.len() as int
    }

    closed spec fn picked(&self, i: int) -> bool {
        true
    }

    closed spec fn precedes(&self, a: int, b: int) -> bool {
        sorts_before(self.samples@, a, b)
    }

    proof fn strict(&self, a: int, b: int, c: int) {
    }

    fn count(&self) -> (n: usize) {
        self.samples.len()
    }

    fn takes_part(&self, i: usize) -> (r: bool) {
        true
    }

    fn first(&self, a: usize, b: usize) -> (r: bool) {
        let x: i128 = place(&self.samples[a]);
        let y: i128 = place(&self.samples[b]);
        if x == y {
            a < b
        } else {
            x < y
        }
    }
}

/// The middle of the samples.
pub fn middle(samples: &Vec<Reading>) -> (m: Middle)
    ensures
        exists|at: Seq<int>| #[trigger] is_sorted_order(samples@, at) && is_middle(m, samples@, at),
{
    let r = SampleRanking { samples };
    let at = rank(&r);
    let n: usize = samples.len();
    let ghost p = positions(at@);
    proof {
        let all = Seq::new(samples@.len(), |i: int| i);
        assert forall|i: int| 0 <= i < all.len() implies p.contains(#[trigger] all[i]) by {
            assert(r.picked(i));
        }
        crate::seqs::pigeonhole(all, p);
        assert(p.no_duplicates()) by {
            assert forall|k: int, l: int| 0 <= k < p.len() && 0 <= l < p.len() && k != l implies p[k] != p[l] by {
                if k < l {
                    assert(r.precedes(p[k], p[l]));
                } else {
                    assert(r.precedes(p[l], p[k]));
                }
            }
        }
        assert forall|k: int| 0 <= k < p.len() implies all.contains(#[trigger] p[k]) by {
            assert(all[p[k]] == p[k]);
        }
        crate::seqs::pigeonhole(p, all);
        assert forall|k: int, l: int| 0 <= k < l < p.len() implies sorts_before(
            samples@,
            #[trigger] p[k],
            #[trigger] p[l],
        ) by {
            assert(r.precedes(p[k], p[l]));
        }
        assert(is_sorted_order(samples@, p));
    }
    if n == 0 {
        return Middle::Nothing;
    }
    proof {
        assert(p[n as int / 2] == at@[n as int / 2]);
    }
    let upper = samples[at[n / 2]];
    if n % 2 == 1 {
        Middle::One(upper)
    } else {
        proof {
            assert(p[n as int / 2 - 1] == at@[n as int / 2 - 1]);
        }
        Middle::Two(samples[at[n / 2 - 1]], upper)
    }
}

/// The samples at `a` and `b` share their rank: they are the same sample, or equal numbers.
pub open spec fn tied(s: Seq<Reading>, a: int, b: int) -> bool {
    a == b || !is_nan(s[a].bits) && !is_nan(s[b].bits) && rank_of(s[a].bits) == rank_of(s[b].bits)
}

/// What the sample at `j` adds to twice the rank of the sample at `k`.
pub open spec fn twice_share(s: Seq<Reading>, j: int, k: int) -> nat {
    if tied(s, j, k) {
        1
    } else if sorts_before(s, j, k) {
        2
    } else {
        0
    }
}

/// What the first `n` samples add to twice the rank of the sample at `k`.
pub open spec fn twice_rank_from(s: Seq<Reading>, k: int, n: int) -> nat
    decreases n,
{
    if n <= 0 {
        0
    } else {
        twice_rank_from(s, k, n - 1) + twice_share(s, n - 1, k)
    }
}

/// Twice the rank of the sample at `k`, counted from one, where tied samples share the mean
/// of their ranks.
pub open spec fn twice_rank(s: Seq<Reading>, k: int) -> nat {
    twice_rank_from(s, k, s.len() as int) + 1
}

/// The sum of twice the ranks of the samples from `from` up to `to`.
pub open spec fn twice_ranks(s: Seq<Reading>, from: int, to: int) -> nat
    decreases to - from,
{
    if to <= from {
        0
    } else {
        twice_ranks(s, from, to - 1) + twice_rank(s, to - 1)
    }
}

/// Twice the sum of the ranks of the candidate's samples among all samples, where tied
/// samples share the mean of their ranks.
pub fn twice_rank_sum(baseline: &Vec<Reading>, candidate: &Vec<Reading>) -> (total: u128)
    requires
        baseline@.len() + candidate@.len() <= 0x7FFF_FFFF_FFFF_FFFF,
    ensures
        total == twice_ranks(
            baseline@ + candidate@,
            baseline@.len() as int,
            (baseline@.len() + candidate@.len()) as int,
        ),
{
    let mut all: Vec<Reading> = Vec::new();
    let mut i: usize = 0;
    while i < baseline.len()
        invariant
            i <= baseline@.len(),
            all@ == baseline@.take(i as int),
        decreases baseline@.len() - i,
    {
        all.push(baseline[i]);
        proof {
            assert(all@ =~= baseline@.take(i as int + 1));
        }
        i = i + 1;
    }
    proof {
        assert(baseline@.take(baseline@.len() as int) =~= baseline@);
    }
    let mut j: usize = 0;
    while j < candidate.len()
        invariant
            j <= candidate@.len(),
            all@ == baseline@ + candidate@.take(j as int),
        decreases candidate@.len() - j,
    {
        all.push(candidate[j]);
        proof {
            assert(all@ =~= baseline@ + candidate@.take(j as int + 1));
        }
        j = j + 1;
    }
    proof {
        assert(candidate@.take(candidate@.len() as int) =~= candidate@);
    }
    let n: usize = all.len();
    let from: usize = baseline.len();
    let mut total: u128 = 0;
    let mut k: usize = from;
    while k < n
        invariant
            from <= k <= n == all@.len(),
            n <= 0x7FFF_FFFF_FFFF_FFFF,
            total == twice_ranks(all@, from as int, k as int),
            total <= (k - from) * 0x1_0000_0000_0000_0000,
        decreases n - k,
    {
        let mut own: u64 = 0;
        let mut m: usize = 0;
        while m < n
            invariant
                k < n == all@.len(),
                m <= n <= 0x7FFF_FFFF_FFFF_FFFF,
                own == twice_rank_from(all@, k as int, m as int),
                own <= 2 * m,
            decreases n - m,
        {
            let tie = m == k || !all[m].is_nan() && !all[k].is_nan() && all[m].rank() == all[k].rank();
            if tie {
                own = own + 1;
            } else {
                let x: i128 = place(&all[m]);
                let y: i128 = place(&all[k]);
                if x < y || x == y && m < k {
                    own = own + 2;
                }
            }
            m = m + 1;
        }
        proof {
            assert((k - from) * 0x1_0000_0000_0000_0000 + 0x1_0000_0000_0000_0000 == (k + 1 - from) * 0x1_0000_0000_0000_0000) by (nonlinear_arith);
            assert((k - from) * 0x1_0000_0000_0000_0000 <= 0x8000_0000_0000_0000 * 0x1_0000_0000_0000_0000) by (nonlinear_arith)
                requires
                    k - from <= 0x8000_0000_0000_0000,
            ;
        }
        total = total + own as u128 + 1;
        k = k + 1;
    }
    total
}

/// A commit in the bisection range.
#[derive(Debug, PartialEq, Eq)]
pub struct Commit {
    pub sha: String,
    pub author: String,
}

impl Clone for Commit {
    fn clone(&self) -> (r: Self)
        ensures
            r == *self,
    {
        Commit { sha: self.sha.clone(), author: self.author.clone() }
    }
}

/// Evidence attached to the notification sent to the offending author.
#[derive(Debug)]
pub struct Evidence {
    pub commit: Commit,
    /// Last commit classified good (parent of the offending commit in range).
    pub last_good: Commit,
    pub comparison: Comparison,
    /// Benchmark runs spent on midpoints, including re-samples, and on confirming the commit.
    pub benchmark_runs: usize,
    /// Midpoints that needed re-sampling or the fallback rule.
    pub noisy_midpoints: usize,
}

/// The figures of some evidence as they are shown: the effect with its sign and two
/// decimals, the p-value in scientific notation, the confidence in percent.
#[derive(Debug)]
pub struct ShownFigures {
    pub effect: String,
    pub p: String,
    pub confidence: String,
}

impl Evidence {
    /// The text of the evidence.
    pub open spec fn text(self, f: ShownFigures) -> Seq<char> {
        "### Performance regression bisected to `"@ + self.commit.sha@ + "`\n\n@"@ + self.commit.author@
            + ", this commit slowed the benchmark by **"@ + f.effect@ + "%** (one-sided Mann-Whitney p = "@ + f.p@
            + ", confidence "@ + f.confidence@ + "%).\n\n| | |\n|---|---|\n| Offending commit | `"@ + self.commit.sha@
            + "` |\n| Last good commit | `"@ + self.last_good.sha@ + "` |\n| Benchmark runs | "@ + dec(
            self.benchmark_runs as nat,
        ) + " |\n| Noisy midpoints re-sampled | "@ + dec(self.noisy_midpoints as nat) + " |\n"@
    }

    /// Markdown body for the PR comment / issue assigned to the author.
    pub fn to_markdown(&self, f: &ShownFigures) -> (s: String)
        ensures
            s@ == self.text(*f),
    {
        let mut s = text2("### Performance regression bisected to `", self.commit.sha.as_str());
        s.append("`\n\n@");
        s.append(self.commit.author.as_str());
        s.append(", this commit slowed the benchmark by **");
        s.append(f.effect.as_str());
        s.append("%** (one-sided Mann-Whitney p = ");
        s.append(f.p.as_str());
        s.append(", confidence ");
        s.append(f.confidence.as_str());
        s.append("%).\n\n| | |\n|---|---|\n| Offending commit | `");
        s.append(self.commit.sha.as_str());
        s.append("` |\n| Last good commit | `");
        s.append(self.last_good.sha.as_str());
        s.append("` |\n| Benchmark runs | ");
        s.append(decimal(self.benchmark_runs as u64).as_str());
        s.append(" |\n| Noisy midpoints re-sampled | ");
        s.append(decimal(self.noisy_midpoints as u64).as_str());
        s.append(" |\n");
        s
    }
}

/// Why a bisection found nothing.
#[derive(Debug, PartialEq, Eq)]
pub enum BisectError {
    RangeTooSmall,
    NoRegression,
    Runner { sha: String, reason: String },
}

impl BisectError {
    /// The text of the error.
    pub open spec fn text(self) -> Seq<char> {
        match self {
            BisectError::RangeTooSmall => "range needs a good and a bad commit"@,
            BisectError::NoRegression => "known-bad samples do not regress against known-good samples"@,
            BisectError::Runner { sha, reason } => "benchmark failed at "@ + sha@ + ": "@ + reason@,
        }
    }

    /// The text of the error.
    pub fn message(&self) -> (s: String)
        ensures
            s@ == self.text(),
    {
        match self {
            BisectError::RangeTooSmall => "range needs a good and a bad commit".to_owned(),
            BisectError::NoRegression =>
                "known-bad samples do not regress against known-good samples".to_owned(),
            BisectError::Runner { sha, reason } => {
                let mut s = text2("benchmark failed at ", sha.as_str());
                s.append(": ");
                s.append(reason.as_str());
                s
            },
        }
    }
}

/// The logarithm of `n` to the base two, rounded up.
pub open spec fn ceil_log2(n: int) -> nat
    decreases n,
{
    if n <= 1 {
        0
    } else {
        ceil_log2((n + 1) / 2) + 1
    }
}

proof fn log_grows(a: int, b: int)
    requires
        a <= b,
    ensures
        ceil_log2(a) <= ceil_log2(b),
    decreases b,
{
    if a > 1 {
        log_grows((a + 1) / 2, (b + 1) / 2);
    }
}

proof fn log_is_small(n: int)
    requires
        n >= 0,
    ensures
        ceil_log2(n) <= n,
    decreases n,
{
    if n > 1 {
        log_is_small((n + 1) / 2);
    }
}

/// The logarithm of `n` to the base two, rounded up.
fn logarithm(n: usize) -> (k: usize)
    ensures
        k == ceil_log2(n as int),
        k <= n,
{
    let mut k: usize = 0;
    let mut left: usize = n;
    while left > 1
        invariant
            k + left <= n,
            k + ceil_log2(left as int) == ceil_log2(n as int),
        decreases left,
    {
        left = left / 2 + left % 2;
        k = k + 1;
    }
    k
}

/// The state of a bisection: the commit at `lo` is good, the one at `hi` is bad.
pub struct Bisection {
    pub commits: Vec<Commit>,
    pub lo: usize,
    pub hi: usize,
    pub lo_samples: Vec<Reading>,
    pub hi_samples: Vec<Reading>,
    /// The samples of the commit at hand so far.
    pub samples: Vec<Reading>,
    /// The benchmark runs of the commit at hand so far.
    pub attempts: usize,
    /// The rounds that were settled: the midpoints, and the run that confirms the commit found.
    pub rounds: usize,
    pub runs: usize,
    pub noisy: usize,
    /// The runs allowed per midpoint.
    pub max_attempts: usize,
}

/// What the two comparisons say of a midpoint: bad where it is slower than good and not
/// faster than bad, good the other way round, and nothing where they disagree.
pub open spec fn verdict_of(slower_than_good: bool, faster_than_bad: bool) -> Option<bool> {
    if slower_than_good && !faster_than_bad {
        Some(true)
    } else if !slower_than_good && faster_than_bad {
        Some(false)
    } else {
        None
    }
}

impl Bisection {
    /// The runs that a midpoint may take; at least one.
    pub open spec fn tries(self) -> int {
        if self.max_attempts == 0 {
            1
        } else {
            self.max_attempts as int
        }
    }

    /// The runs that the commit at hand may take: one where it is only confirmed.
    pub open spec fn tries_left(self) -> int {
        (if self.is_closed() {
            1
        } else {
            self.tries()
        }) - self.attempts
    }

    /// The rounds that a clean search takes: the candidates are all commits but the first,
    /// which is known to be good.
    pub open spec fn all_rounds(self) -> int {
        ceil_log2(self.commits@.len() - 1) as int
    }

    /// The search is over: its range is closed, and where it was clean, it took all its rounds.
    pub open spec fn is_finished(self) -> bool {
        self.is_closed() && (self.noisy > 0 || self.rounds >= self.all_rounds())
    }

    /// The range is closed: the commit at `hi` is the one found.
    pub open spec fn is_closed(self) -> bool {
        self.hi - self.lo <= 1
    }

    /// The commit at hand: the middle of what is left, or the commit found, which is run to
    /// confirm it.
    pub open spec fn mid(self) -> int {
        if self.is_closed() {
            self.hi as int
        } else {
            self.lo + (self.hi - self.lo) / 2
        }
    }

    /// The range lies within the commits, the rounds to come close it and leave at most one to
    /// confirm it, and the runs are those of the rounds so far.
    pub open spec fn valid(self) -> bool {
        &&& self.lo < self.hi < self.commits@.len()
        &&& self.rounds + ceil_log2(self.hi - self.lo) <= self.all_rounds() <= self.rounds + ceil_log2(
            self.hi - self.lo + 1,
        )
        &&& self.tries_left() >= 0
        &&& self.is_finished() ==> self.attempts == 0
        &&& self.rounds + self.attempts <= self.runs <= self.tries() * self.rounds + self.attempts
        &&& self.noisy <= self.rounds
        &&& self.noisy == 0 ==> self.runs == self.rounds + self.attempts
    }

    /// The state after the commit at hand was found to be bad or good. Confirming the commit
    /// found adds to its samples and leaves the range.
    pub open spec fn settled(self, after: Self, bad: bool) -> bool {
        &&& after.commits == self.commits
        &&& after.max_attempts == self.max_attempts
        &&& after.attempts == 0
        &&& after.samples@.len() == 0
        &&& after.rounds == self.rounds + 1
        &&& after.runs == self.runs
        &&& if self.is_closed() {
            &&& after.lo == self.lo && after.hi == self.hi
            &&& after.lo_samples == self.lo_samples
            &&& after.hi_samples@ == self.hi_samples@ + self.samples@
        } else if bad {
            &&& after.lo == self.lo && after.hi == self.mid()
            &&& after.lo_samples == self.lo_samples
            &&& after.hi_samples == self.samples
        } else {
            &&& after.lo == self.mid() && after.hi == self.hi
            &&& after.lo_samples == self.samples
            &&& after.hi_samples == self.hi_samples
        }
    }

    /// Starts to bisect `commits`, oldest first. The first is known good and the last known
    /// bad, with their samples; `regressed` says whether the bad samples regress against the
    /// good ones.
    pub fn start(
        commits: Vec<Commit>,
        good_samples: Vec<Reading>,
        bad_samples: Vec<Reading>,
        regressed: bool,
        cfg: &BisectConfig,
    ) -> (r: Result<Bisection, BisectError>)
        ensures
            r is Ok <==> commits@.len() >= 2 && regressed,
            commits@.len() < 2 ==> r == Err::<Bisection, BisectError>(BisectError::RangeTooSmall),
            commits@.len() >= 2 && !regressed ==> r == Err::<Bisection, BisectError>(BisectError::NoRegression),
            r matches Ok(b) ==> {
                &&& b.valid()
                &&& b.commits == commits
                &&& b.lo == 0
                &&& b.hi == commits@.len() - 1
                &&& b.lo_samples == good_samples
                &&& b.hi_samples == bad_samples
                &&& b.samples@.len() == 0
                &&& b.attempts == 0
                &&& b.rounds == 0
                &&& b.runs == 0
                &&& b.noisy == 0
                &&& b.max_attempts == cfg.max_attempts
            },
    {
        let n: usize = commits.len();
        if n < 2 {
            return Err(BisectError::RangeTooSmall);
        }
        if !regressed {
            return Err(BisectError::NoRegression);
        }
        let b = Bisection {
            commits,
            lo: 0,
            hi: n - 1,
            lo_samples: good_samples,
            hi_samples: bad_samples,
            samples: Vec::new(),
            attempts: 0,
            rounds: 0,
            runs: 0,
            noisy: 0,
            max_attempts: cfg.max_attempts,
        };
        proof {
            assert(b.tries() * 0 == 0) by (nonlinear_arith);
            log_grows(n - 1, n as int);
        }
        Ok(b)
    }

    /// The commit at hand.
    fn target(&self) -> (i: usize)
        requires
            self.valid(),
        ensures
            i == self.mid(),
            self.lo < i <= self.hi,
    {
        if self.hi - self.lo > 1 {
            self.lo + (self.hi - self.lo) / 2
        } else {
            self.hi
        }
    }

    /// The commit to run the benchmark at next; `None` where the search is over. It is the
    /// middle of what is left, and once the range of a clean search is closed the commit found.
    pub fn next(&self) -> (r: Option<usize>)
        requires
            self.valid(),
        ensures
            r is Some <==> !self.is_finished(),
            r matches Some(i) ==> i == self.mid() && self.lo < i <= self.hi,
            r is None ==> self.hi - self.lo == 1,
    {
        if self.hi - self.lo > 1 || self.noisy == 0 && self.rounds < logarithm(self.commits.len() - 1) {
            Some(self.target())
        } else {
            None
        }
    }

    /// Takes in the samples of a run at the commit at hand.
    pub fn observe(&mut self, samples: Vec<Reading>)
        requires
            old(self).valid(),
            !old(self).is_finished(),
            old(self).tries_left() > 0,
            old(self).runs < usize::MAX,
        ensures
            final(self).valid(),
            final(self).samples@ == old(self).samples@ + samples@,
            final(self).attempts == old(self).attempts + 1,
            final(self).runs == old(self).runs + 1,
            final(self).commits == old(self).commits,
            final(self).lo == old(self).lo,
            final(self).hi == old(self).hi,
            final(self).lo_samples == old(self).lo_samples,
            final(self).hi_samples == old(self).hi_samples,
            final(self).rounds == old(self).rounds,
            final(self).noisy == old(self).noisy,
            final(self).max_attempts == old(self).max_attempts,
    {
        let mut samples = samples;
        self.samples.append(&mut samples);
        self.attempts = self.attempts + 1;
        self.runs = self.runs + 1;
    }

    /// Decides on the commit at hand from what its samples showed: whether they are slower
    /// than the good ones, whether the bad ones are slower than they are, and whether their
    /// median is nearer to the bad one. Where the comparisons disagree and there are runs left,
    /// nothing is decided; where there are none, the nearest median decides. A midpoint is noisy
    /// that took more than one run or fell back to the medians. The commit found is no midpoint
    /// where it is confirmed: it takes one run and is never noisy.
    pub fn decide(&mut self, slower_than_good: bool, faster_than_bad: bool, nearer_bad: bool) -> (r: Option<bool>)
        requires
            old(self).valid(),
            !old(self).is_finished(),
            old(self).attempts > 0,
        ensures
            final(self).valid(),
            ({
                let v = verdict_of(slower_than_good, faster_than_bad);
                if v is None && old(self).tries_left() > 0 {
                    r is None && *final(self) == *old(self)
                } else {
                    let bad = if v is Some {
                        v->0
                    } else {
                        nearer_bad
                    };
                    &&& r == Some(bad)
                    &&& old(self).settled(*final(self), bad)
                    &&& final(self).noisy == old(self).noisy + (if !old(self).is_closed() && (old(self).attempts > 1
                        || v is None) {
                        1int
                    } else {
                        0int
                    })
                }
            }),
    {
        let verdict: Option<bool> = if slower_than_good && !faster_than_bad {
            Some(true)
        } else if !slower_than_good && faster_than_bad {
            Some(false)
        } else {
            None
        };
        let tries: usize = if self.max_attempts == 0 {
            1
        } else {
            self.max_attempts
        };
        let closed = self.hi - self.lo <= 1;
        if verdict.is_none() && !closed && self.attempts < tries {
            return None;
        }
        let bad = match verdict {
            Some(b) => b,
            None => nearer_bad,
        };
        let at: usize = self.target();
        let mut samples: Vec<Reading> = Vec::new();
        std::mem::swap(&mut samples, &mut self.samples);
        let ghost d = self.hi - self.lo;
        proof {
            let t = self.tries();
            let rounds = self.rounds as int;
            assert(t * rounds + t == t * (rounds + 1)) by (nonlinear_arith);
            log_is_small(self.commits@.len() - 1);
        }
        if !closed && (self.attempts > 1 || verdict.is_none()) {
            self.noisy = self.noisy + 1;
        }
        self.attempts = 0;
        self.rounds = self.rounds + 1;
        if closed {
            self.hi_samples.append(&mut samples);
        } else if bad {
            self.hi = at;
            self.hi_samples = samples;
        } else {
            self.lo = at;
            self.lo_samples = samples;
        }
        proof {
            if !closed {
                log_grows(self.hi - self.lo, (d + 1) / 2);
                log_grows(d / 2 + 1, self.hi - self.lo + 1);
                assert(ceil_log2(d) == ceil_log2((d + 1) / 2) + 1);
                assert(ceil_log2(d + 1) == ceil_log2(d / 2 + 1) + 1);
            }
        }
        Some(bad)
    }

    /// The evidence of a finished bisection, with the comparison of the samples on both
    /// sides.
    pub fn finish(&self, comparison: Comparison) -> (e: Evidence)
        requires
            self.valid(),
            self.is_finished(),
        ensures
            e.commit == self.commits@[self.hi as int],
            e.last_good == self.commits@[self.hi - 1],
            e.comparison == comparison,
            e.benchmark_runs == self.runs,
            e.noisy_midpoints == self.noisy,
    {
        Evidence {
            commit: self.commits[self.hi].clone(),
            last_good: self.commits[self.lo].clone(),
            comparison,
            benchmark_runs: self.runs,
            noisy_midpoints: self.noisy,
        }
    }

    /// The error of a run that failed.
    pub fn failed(&self, reason: String) -> (e: BisectError)
        requires
            self.valid(),
            !self.is_finished(),
        ensures
            e == (BisectError::Runner { sha: self.commits@[self.mid()].sha, reason }),
    {
        BisectError::Runner { sha: self.commits[self.target()].sha.clone(), reason }
    }
}

/// A search that is over in which every midpoint was classified cleanly, by its first run, took
/// exactly as many runs as the binary logarithm of the number of its candidates, rounded up.
pub proof fn clean_searches_take_the_logarithm(b: Bisection)
    requires
        b.valid(),
        b.is_finished(),
        b.noisy == 0,
    ensures
        b.runs == ceil_log2(b.commits@.len() - 1),
{
}

/// Noise or not, a search that is over took no fewer runs than that but one, and no more than
/// that many times the runs allowed per midpoint.
pub proof fn runs_are_logarithmic(b: Bisection)
    requires
        b.valid(),
        b.is_finished(),
    ensures
        ceil_log2(b.commits@.len() - 1) - 1 <= b.runs <= b.tries() * ceil_log2(b.commits@.len() - 1),
{
    let t = b.tries();
    let rounds = b.rounds as int;
    let all = b.all_rounds();
    assert(t * rounds <= t * all) by (nonlinear_arith)
        requires
            0 <= t,
            rounds <= all,
    ;
    reveal_with_fuel(ceil_log2, 3);
}

/// Only a clean search is run on once its range is closed, and for one run at most: the commit
/// found is then confirmed.
pub proof fn the_commit_found_is_confirmed_once(b: Bisection)
    requires
        b.valid(),
        b.is_closed(),
        !b.is_finished(),
    ensures
        b.noisy == 0,
        b.rounds == b.all_rounds() - 1,
{
    reveal_with_fuel(ceil_log2, 3);
}

/// Every verdict on a midpoint halves what is left.
pub proof fn verdicts_halve(before: Bisection, after: Bisection, bad: bool)
    requires
        before.valid(),
        !before.is_closed(),
        before.settled(after, bad),
    ensures
        ceil_log2(after.hi - after.lo) + 1 <= ceil_log2(before.hi - before.lo),
{
    let d = before.hi - before.lo;
    log_grows(after.hi - after.lo, (d + 1) / 2);
}

/// Right verdicts close in on the offending commit: where the commits from `culprit` on are
/// bad and the others good, a right verdict keeps it in the range, and a finished search
/// points at it.
pub proof fn right_verdicts_close_in(before: Bisection, after: Bisection, bad: bool, culprit: int)
    requires
        before.valid(),
        before.lo < culprit <= before.hi,
        before.settled(after, bad),
        bad == (before.mid() >= culprit),
    ensures
        after.lo < culprit <= after.hi,
        after.hi - after.lo == 1 ==> after.hi == culprit,
{
}

/// A commit counts as bad where its samples are slower than the good ones and not faster than the bad
/// ones, as good the other way round, and as neither where both tests agree or both fail.
pub proof fn verdicts_need_both_tests(slower: bool, faster: bool)
    ensures
        slower && !faster ==> verdict_of(slower, faster) == Some(true),
        !slower && faster ==> verdict_of(slower, faster) == Some(false),
        slower == faster ==> verdict_of(slower, faster) is None,
{
}

/// The logarithm is the number of halvings: twice as long a range takes one more, and a single commit
/// none.
pub proof fn logarithms_count_halvings(n: int)
    requires
        n >= 1,
    ensures
        ceil_log2(1) == 0,
        ceil_log2(2 * n) == ceil_log2(n) + 1,
        n >= 2 ==> ceil_log2(2 * n - 1) == ceil_log2(n) + 1,
{
    assert((2 * n + 1) / 2 == n);
    assert((2 * n - 1 + 1) / 2 == n);
}

/// The commit that is tested next lies in the middle of the range that is left, inside it.
pub proof fn midpoints_split_the_range(b: Bisection)
    requires
        b.valid(),
        b.hi - b.lo >= 2,
    ensures
        b.lo < b.mid() < b.hi,
        -1 <= (b.hi - b.mid()) - (b.mid() - b.lo) <= 1,
        !b.is_finished(),
{
}

/// A verdict moves one end of the range to the commit that was tested, with the samples that were
/// taken of it, and leaves the other end alone.
pub proof fn verdicts_move_one_end(before: Bisection, after: Bisection, bad: bool)
    requires
        before.valid(),
        before.hi - before.lo >= 2,
        before.settled(after, bad),
    ensures
        bad ==> after.lo == before.lo && after.hi == before.lo + (before.hi - before.lo) / 2 && after.hi_samples@
            == before.samples@ && after.lo_samples@ == before.lo_samples@,
        !bad ==> after.hi == before.hi && after.lo == before.lo + (before.hi - before.lo) / 2 && after.lo_samples@
            == before.samples@ && after.hi_samples@ == before.hi_samples@,
        after.hi - after.lo < before.hi - before.lo,
        after.samples@.len() == 0 && after.attempts == 0 && after.runs == before.runs,
{
}

/// Of two samples one comes first, or they tie: what they add to each other's ranks is always one
/// place in all.
pub proof fn samples_share_a_place(s: Seq<Reading>, j: int, k: int)
    requires
        0 <= j < s.len(),
        0 <= k < s.len(),
        j != k,
    ensures
        twice_share(s, j, k) + twice_share(s, k, j) == 2,
        s[j].less(s[k]) ==> twice_share(s, j, k) == 2,
        s[k].less(s[j]) ==> twice_share(s, j, k) == 0,
        s[j].at_most(s[k]) && s[k].at_most(s[j]) ==> twice_share(s, j, k) == 1,
{
}

/// The ranks of all samples add up to the sum of the first numbers.
pub proof fn ranks_add_up(s: Seq<Reading>)
    ensures
        twice_ranks(s, 0, s.len() as int) == s.len() * (s.len() + 1),
{
    shares_add_up(s, s.len() as int);
    ranks_are_shares(s, s.len() as int);
    let n = s.len() as int;
    assert(n * (n + 1) == n * n + n) by (nonlinear_arith);
}

/// What the first `m` samples get from the first `n`.
spec fn shares(s: Seq<Reading>, m: int, n: int) -> nat
    decreases m,
{
    if m <= 0 {
        0
    } else {
        shares(s, m - 1, n) + twice_rank_from(s, m - 1, n)
    }
}

/// What the first `m` samples give to sample `k`.
proof fn ranks_are_shares(s: Seq<Reading>, m: int)
    requires
        0 <= m <= s.len(),
    ensures
        twice_ranks(s, 0, m) == shares(s, m, s.len() as int) + m,
    decreases m,
{
    if m > 0 {
        ranks_are_shares(s, m - 1);
    }
}

/// One more sample to take from gives each of the first `m` its share.
proof fn one_more_giver(s: Seq<Reading>, m: int, n: int)
    requires
        0 <= m <= n < s.len(),
    ensures
        shares(s, m, n + 1) + twice_rank_from(s, n, m) == shares(s, m, n) + 2 * m,
    decreases m,
{
    if m > 0 {
        one_more_giver(s, m - 1, n);
        samples_share_a_place(s, n, m - 1);
        assert(twice_rank_from(s, m - 1, n + 1) == twice_rank_from(s, m - 1, n) + twice_share(s, n, m - 1));
    }
}

/// Among the first `n` samples, the shares are the square of their number.
proof fn shares_add_up(s: Seq<Reading>, n: int)
    requires
        0 <= n <= s.len(),
    ensures
        shares(s, n, n) == n * n,
    decreases n,
{
    if n > 0 {
        shares_add_up(s, n - 1);
        one_more_giver(s, n - 1, n - 1);
        assert(twice_rank_from(s, n - 1, n) == twice_rank_from(s, n - 1, n - 1) + 1);
        assert(n * n == (n - 1) * (n - 1) + 2 * (n - 1) + 1) by (nonlinear_arith);
    } else {
        assert(n * n == 0) by (nonlinear_arith)
            requires
                n == 0,
        ;
    }
}

/// The middle of the samples is a sample with as many before it as after it, or two neighbours that
/// split them so.
pub proof fn the_middle_splits_the_samples(m: Middle, s: Seq<Reading>, at: Seq<int>)
    requires
        is_sorted_order(s, at),
        is_middle(m, s, at),
    ensures
        s.len() == 0 <==> m is Nothing,
        m matches Middle::One(x) ==> exists|p: int|
            0 <= p < s.len() && x == s[#[trigger] at[p]] && p == s.len() - 1 - p,
        m matches Middle::Two(x, y) ==> exists|p: int|
            0 <= p < s.len() - 1 && x == s[#[trigger] at[p]] && y == s[at[p + 1]] && p + 1 == s.len() - 1 - p,
{
    let n = s.len() as int;
    if n % 2 == 1 {
        assert(m == Middle::One(s[at[n / 2]]));
        assert(n / 2 == n - 1 - n / 2);
    } else if n > 0 {
        assert(at[n / 2 - 1] == at[n / 2 - 1]);
        assert(n / 2 == n - 1 - (n / 2 - 1));
    }
}

/// The report on a commit mentions its author, and names it, the last good one, and the runs taken.
#[verifier::rlimit(40)]
pub proof fn reports_name_the_commit(e: Evidence, f: ShownFigures)
    ensures
        occurs(e.text(f), "### Performance regression bisected to `"@ + e.commit.sha@),
        occurs(e.text(f), "` |\n| Last good commit | `"@ + e.last_good.sha@ + "` |\n| Benchmark runs | "@),
        occurs(e.text(f), "` |\n| Benchmark runs | "@ + dec(e.benchmark_runs as nat)),
        occurs(e.text(f), " |\n| Noisy midpoints re-sampled | "@ + dec(e.noisy_midpoints as nat) + " |\n"@),
        occurs(e.text(f), "`\n\n@"@ + e.commit.author@),
        occurs(e.text(f), ", this commit slowed the benchmark by **"@ + f.effect@),
        occurs(e.text(f), "%** (one-sided Mann-Whitney p = "@ + f.p@),
        occurs(e.text(f), ", confidence "@ + f.confidence@),
{
    let none = Seq::<char>::empty();
    let p0 = "### Performance regression bisected to `"@;
    let p1 = e.commit.sha@;
    let p2 = "`\n\n@"@;
    let p3 = e.commit.author@;
    let p4 = ", this commit slowed the benchmark by **"@;
    let p5 = f.effect@;
    let p6 = "%** (one-sided Mann-Whitney p = "@;
    let p7 = f.p@;
    let p8 = ", confidence "@;
    let p9 = f.confidence@;
    let p10 = "%).\n\n| | |\n|---|---|\n| Offending commit | `"@;
    let p11 = e.commit.sha@;
    let p12 = "` |\n| Last good commit | `"@;
    let p13 = e.last_good.sha@;
    let p14 = "` |\n| Benchmark runs | "@;
    let p15 = dec(e.benchmark_runs as nat);
    let p16 = " |\n| Noisy midpoints re-sampled | "@;
    let p17 = dec(e.noisy_midpoints as nat);
    let p18 = " |\n"@;
    let u0 = p0;
    let u1 = u0 + p1;
    let u2 = u1 + p2;
    let u3 = u2 + p3;
    let u4 = u3 + p4;
    let u5 = u4 + p5;
    let u6 = u5 + p6;
    let u7 = u6 + p7;
    let u8 = u7 + p8;
    let u9 = u8 + p9;
    let u10 = u9 + p10;
    let u11 = u10 + p11;
    let u12 = u11 + p12;
    let u13 = u12 + p13;
    let u14 = u13 + p14;
    let u15 = u14 + p15;
    let u16 = u15 + p16;
    let u17 = u16 + p17;
    let u18 = u17 + p18;
    assert(e.text(f) == u18);
    let q0 = p0 + p1;
    two_end(none, p0, p1);
    assert(none + p0 =~= p0);
    four_more(u1, p2, p3, p4, p5, q0);
    four_more(u5, p6, p7, p8, p9, q0);
    four_more(u9, p10, p11, p12, p13, q0);
    four_more(u13, p14, p15, p16, p17, q0);
    either_holds(u17, p18, q0);
    let q2 = p2 + p3;
    two_end(u1, p2, p3);
    four_more(u3, p4, p5, p6, p7, q2);
    four_more(u7, p8, p9, p10, p11, q2);
    four_more(u11, p12, p13, p14, p15, q2);
    either_holds(u15, p16, q2);
    either_holds(u16, p17, q2);
    either_holds(u17, p18, q2);
    let q4 = p4 + p5;
    two_end(u3, p4, p5);
    four_more(u5, p6, p7, p8, p9, q4);
    four_more(u9, p10, p11, p12, p13, q4);
    four_more(u13, p14, p15, p16, p17, q4);
    either_holds(u17, p18, q4);
    let q6 = p6 + p7;
    two_end(u5, p6, p7);
    four_more(u7, p8, p9, p10, p11, q6);
    four_more(u11, p12, p13, p14, p15, q6);
    either_holds(u15, p16, q6);
    either_holds(u16, p17, q6);
    either_holds(u17, p18, q6);
    let q8 = p8 + p9;
    two_end(u7, p8, p9);
    four_more(u9, p10, p11, p12, p13, q8);
    four_more(u13, p14, p15, p16, p17, q8);
    either_holds(u17, p18, q8);
    let q12 = p12 + p13 + p14;
    three_end(u11, p12, p13, p14);
    four_more(u14, p15, p16, p17, p18, q12);
    let q14 = p14 + p15;
    two_end(u13, p14, p15);
    either_holds(u15, p16, q14);
    either_holds(u16, p17, q14);
    either_holds(u17, p18, q14);
    let q16 = p16 + p17 + p18;
    three_end(u15, p16, p17, p18);
}

/// A midpoint is run as often as the configuration allows, at least once, and the commit that is
/// found once more.
pub proof fn midpoints_are_run_as_allowed(b: Bisection)
    requires
        b.attempts == 0,
    ensures
        b.hi - b.lo > 1 && b.max_attempts >= 1 ==> b.tries_left() == b.max_attempts,
        b.hi - b.lo > 1 && b.max_attempts == 0 ==> b.tries_left() == 1,
        b.hi - b.lo <= 1 ==> b.tries_left() == 1,
{
}

} // verus!
