//! Composite service health signal.
//!
//! Combines several SLI ratio series of a service into one weighted objective, published
//! through Prometheus recording rules:
//!
//! | Series | Meaning |
//! |--------|---------|
//! | `stellar:slo:composite:ratio` | weighted sum of the SLIs per service |
//! | `stellar:slo:composite:ratio_rate<w>` | composite averaged over a window |
//! | `stellar:slo:composite:burn_rate<w>` | `(1 - ratio_rate<w>) / (1 - target)` |
//! | `stellar:slo:composite:error_budget_remaining` | `1 - burn_rate30d` |
//! | `stellar:slo:composite:weights_version` | reviewed weighting version in effect |
//!
//! Weights must sum to one, and every change of weights must carry a matching versioned
//! review record. Sums and differences of weights are worked out by the caller.

use vstd::prelude::*;
#[allow(unused_imports)]
use vstd::string::*;
use crate::reading::Reading;
#[allow(unused_imports)]
use crate::strmap::{keys_of, map_of, StrMap};
#[allow(unused_imports)]
use crate::text::{
    blank, dec, decimal, either_holds, find, join, joined, joined_holds, occurs, parts_hold_what_occurs,
    replace, replaced, same, strip_end, text2, trim_end_matches, trimmed, views, written_text_occurs,
};

verus! {

/// Averaging windows published for burn-rate alerting.
pub const WINDOWS: [&'static str; 5] = ["1h", "6h", "1d", "3d", "30d"];

/// The services and their composite objectives.
#[derive(Debug)]
pub struct CompositeConfig {
    /// Services that must have a composite objective.
    pub tier1_services: Vec<String>,
    pub composites: Vec<CompositeSlo>,
}

/// The composite objective of a service.
#[derive(Debug)]
pub struct CompositeSlo {
    pub service: String,
    /// Objective for the composite ratio.
    pub target: Reading,
    /// Weighting version; bumped on every weight change.
    pub version: u32,
    pub slis: Vec<WeightedSli>,
    pub reviews: Vec<WeightReview>,
}

/// An SLI and its weight.
#[derive(Debug)]
pub struct WeightedSli {
    pub name: String,
    /// Existing recording rule producing the SLI ratio (0..1).
    pub record: String,
    pub weight: Reading,
}

/// Review record for one weighting version.
#[derive(Debug)]
pub struct WeightReview {
    pub version: u32,
    pub date: String,
    pub reviewed_by: String,
    pub reason: String,
    pub weights: StrMap<Reading>,
}

/// What is worked out of the numbers of one composite.
#[derive(Debug)]
pub struct SloFigures {
    /// The target as it is shown.
    pub target: String,
    /// The sum of the weights as it is shown.
    pub sum: String,
    /// Whether the sum of the weights is one, within a billionth.
    pub sum_is_one: bool,
    /// For each SLI, whether its weight is the reviewed one, within a billionth, where the
    /// latest review has a weight for it.
    pub close: Vec<bool>,
}

/// The composites that are named are for these services.
pub open spec fn services_of(v: Seq<CompositeSlo>) -> Seq<Seq<char>> {
    v.map_values(|c: CompositeSlo| c.service@)
}

/// The error about the first service without a composite objective.
pub open spec fn tier1_error(services: Seq<Seq<char>>, covered: Seq<Seq<char>>) -> Option<Seq<char>>
    decreases services.len(),
{
    if services.len() == 0 {
        None
    } else {
        match tier1_error(services.drop_last(), covered) {
            Some(e) => Some(e),
            None => if covered.contains(services.last()) {
                None
            } else {
                Some("tier-1 service '"@ + services.last() + "' has no composite SLO"@)
            },
        }
    }
}

/// The error about one SLI.
pub open spec fn sli_error(s: WeightedSli, known: Seq<Seq<char>>) -> Option<Seq<char>> {
    if s.weight.at_most(Reading { bits: 0 }) {
        Some("SLI '"@ + s.name@ + "' weight must be positive"@)
    } else if !known.contains(s.record@) {
        Some("SLI '"@ + s.name@ + "' references unknown recording rule '"@ + s.record@ + "'"@)
    } else {
        None
    }
}

/// The error about the first SLI that has one.
pub open spec fn slis_error(slis: Seq<WeightedSli>, known: Seq<Seq<char>>) -> Option<Seq<char>>
    decreases slis.len(),
{
    if slis.len() == 0 {
        None
    } else {
        match slis_error(slis.drop_last(), known) {
            Some(e) => Some(e),
            None => sli_error(slis.last(), known),
        }
    }
}

/// The error about the review in place `number`, counted from one.
pub open spec fn review_error(r: WeightReview, number: nat) -> Option<Seq<char>> {
    if r.version != number {
        Some("review #"@ + dec(number) + " has version "@ + dec(r.version as nat) + ", expected "@ + dec(number))
    } else if trimmed(r.reviewed_by@).len() == 0 || trimmed(r.reason@).len() == 0 {
        Some("review v"@ + dec(r.version as nat) + " needs reviewedBy and reason"@)
    } else {
        None
    }
}

/// The error about the first review that has one.
pub open spec fn reviews_error(reviews: Seq<WeightReview>) -> Option<Seq<char>>
    decreases reviews.len(),
{
    if reviews.len() == 0 {
        None
    } else {
        match reviews_error(reviews.drop_last()) {
            Some(e) => Some(e),
            None => review_error(reviews.last(), reviews.len()),
        }
    }
}

/// The names of the SLIs.
pub open spec fn names_of(slis: Seq<WeightedSli>) -> Seq<Seq<char>> {
    slis.map_values(|s: WeightedSli| s.name@)
}

/// For each SLI name, the last place where it stands.
pub open spec fn last_places(names: Seq<Seq<char>>) -> Map<Seq<char>, int>
    decreases names.len(),
{
    if names.len() == 0 {
        Map::empty()
    } else {
        last_places(names.drop_last()).insert(names.last(), names.len() - 1)
    }
}

/// The weights are the reviewed ones: there are as many names on both sides, and each SLI
/// has a reviewed weight that is its own.
pub open spec fn weights_reviewed(
    names: Seq<Seq<char>>,
    reviewed: Map<Seq<char>, Reading>,
    close: Seq<bool>,
) -> bool {
    let places = last_places(names);
    &&& places.dom().len() == reviewed.dom().len()
    &&& forall|n: Seq<char>| #[trigger] places.contains_key(n) ==> reviewed.contains_key(n) && close[places[n]]
}

/// The error about one composite, without its service.
pub open spec fn slo_error(c: CompositeSlo, known: Seq<Seq<char>>, f: SloFigures) -> Option<Seq<char>> {
    let zero = Reading { bits: 0 };
    let one = Reading { bits: 0x3FF0_0000_0000_0000 };
    if !(zero.less(c.target) && c.target.less(one)) {
        Some("target "@ + f.target@ + " must be in (0, 1)"@)
    } else if c.slis@.len() == 0 {
        Some("no SLIs"@)
    } else if !f.sum_is_one {
        Some("weights sum to "@ + f.sum@ + ", expected 1"@)
    } else if slis_error(c.slis@, known) is Some {
        slis_error(c.slis@, known)
    } else if reviews_error(c.reviews@) is Some {
        reviews_error(c.reviews@)
    } else if c.reviews@.len() == 0 {
        Some("weights have no review record"@)
    } else if c.reviews@.last().version != c.version {
        Some(
            "version "@ + dec(c.version as nat) + " has no review record (latest review is v"@ + dec(
                c.reviews@.last().version as nat,
            ) + ")"@,
        )
    } else if !weights_reviewed(names_of(c.slis@), c.reviews@.last().weights@, f.close@) {
        Some(
            "weights differ from review v"@ + dec(c.reviews@.last().version as nat)
                + "; bump version and add a review"@,
        )
    } else {
        None
    }
}

/// The error about the first composite that has one.
pub open spec fn slos_error(v: Seq<CompositeSlo>, known: Seq<Seq<char>>, figures: Seq<SloFigures>) -> Option<Seq<char>>
    decreases v.len(),
{
    if v.len() == 0 {
        None
    } else {
        match slos_error(v.drop_last(), known, figures.drop_last()) {
            Some(e) => Some(e),
            None => match slo_error(v.last(), known, figures.last()) {
                Some(m) => Some("composite '"@ + v.last().service@ + "': "@ + m),
                None => None,
            },
        }
    }
}

/// The error about a configuration: that of its services, or else that of its composites.
pub open spec fn config_error(cfg: CompositeConfig, known: Seq<Seq<char>>, figures: Seq<SloFigures>) -> Option<Seq<char>> {
    match tier1_error(views(cfg.tier1_services@), services_of(cfg.composites@)) {
        Some(e) => Some(e),
        None => slos_error(cfg.composites@, known, figures),
    }
}

/// The text and nothing, as options.
pub open spec fn shown(o: Option<String>) -> Option<Seq<char>> {
    match o {
        Some(s) => Some(s@),
        None => None,
    }
}

fn has_composite(v: &Vec<CompositeSlo>, service: &str) -> (r: bool)
    ensures
        r == services_of(v@).contains(service@),
{
    let ghost all = services_of(v@);
    let mut i: usize = 0;
    while i < v.len()
        invariant
            i <= v@.len(),
            all == services_of(v@),
            forall|k: int| 0 <= k < i ==> #[trigger] all[k] != service@,
        decreases v@.len() - i,
    {
        if same(v[i].service.as_str(), service) {
            proof {
                assert(all[i as int] == service@);
            }
            return true;
        }
        i = i + 1;
    }
    false
}

fn check_tier1(cfg: &CompositeConfig) -> (r: Option<String>)
    ensures
        shown(r) == tier1_error(views(cfg.tier1_services@), services_of(cfg.composites@)),
{
    let ghost all = views(cfg.tier1_services@);
    let ghost covered = services_of(cfg.composites@);
    let mut i: usize = 0;
    while i < cfg.tier1_services.len()
        invariant
            i <= cfg.tier1_services@.len(),
            all == views(cfg.tier1_services@),
            covered == services_of(cfg.composites@),
            tier1_error(all.take(i as int), covered) is None,
        decreases cfg.tier1_services@.len() - i,
    {
        let ghost t = all.take(i as int + 1);
        proof {
            assert(t.drop_last() =~= all.take(i as int));
            assert(t.last() == all[i as int]);
        }
        let svc = cfg.tier1_services[i].as_str();
        if !has_composite(&cfg.composites, svc) {
            let mut e = text2("tier-1 service '", svc);
            e.append("' has no composite SLO");
            proof {
                tier1_error_stays(all, covered, i as int + 1);
            }
            return Some(e);
        }
        i = i + 1;
    }
    proof {
        assert(all.take(all.len() as int) =~= all);
    }
    None
}

proof fn tier1_error_stays(all: Seq<Seq<char>>, covered: Seq<Seq<char>>, k: int)
    requires
        0 <= k <= all.len(),
        tier1_error(all.take(k), covered) is Some,
    ensures
        tier1_error(all, covered) == tier1_error(all.take(k), covered),
    decreases all.len(),
{
    if k == all.len() {
        assert(all.take(k) =~= all);
    } else {
        assert(all.drop_last().take(k) =~= all.take(k));
        tier1_error_stays(all.drop_last(), covered, k);
    }
}

fn check_sli(s: &WeightedSli, known: &Vec<String>) -> (r: Option<String>)
    ensures
        shown(r) == sli_error(*s, views(known@)),
{
    if s.weight.le(&Reading { bits: 0 }) {
        let mut e = text2("SLI '", s.name.as_str());
        e.append("' weight must be positive");
        Some(e)
    } else if find(known, s.record.as_str()).is_none() {
        let mut e = text2("SLI '", s.name.as_str());
        e.append("' references unknown recording rule '");
        e.append(s.record.as_str());
        e.append("'");
        Some(e)
    } else {
        None
    }
}

proof fn slis_error_stays(all: Seq<WeightedSli>, known: Seq<Seq<char>>, k: int)
    requires
        0 <= k <= all.len(),
        slis_error(all.take(k), known) is Some,
    ensures
        slis_error(all, known) == slis_error(all.take(k), known),
    decreases all.len(),
{
    if k == all.len() {
        assert(all.take(k) =~= all);
    } else {
        assert(all.drop_last().take(k) =~= all.take(k));
        slis_error_stays(all.drop_last(), known, k);
    }
}

fn check_slis(slis: &Vec<WeightedSli>, known: &Vec<String>) -> (r: Option<String>)
    ensures
        shown(r) == slis_error(slis@, views(known@)),
{
    let mut i: usize = 0;
    while i < slis.len()
        invariant
            i <= slis@.len(),
            slis_error(slis@.take(i as int), views(known@)) is None,
        decreases slis@.len() - i,
    {
        let ghost t = slis@.take(i as int + 1);
        proof {
            assert(t.drop_last() =~= slis@.take(i as int));
            assert(t.last() == slis@[i as int]);
        }
        if let Some(e) = check_sli(&slis[i], known) {
            proof {
                slis_error_stays(slis@, views(known@), i as int + 1);
            }
            return Some(e);
        }
        i = i + 1;
    }
    proof {
        assert(slis@.take(slis@.len() as int) =~= slis@);
    }
    None
}

fn check_review(r: &WeightReview, number: usize) -> (e: Option<String>)
    ensures
        shown(e) == review_error(*r, number as nat),
{
    if r.version as u64 != number as u64 {
        let mut e = text2("review #", decimal(number as u64).as_str());
        e.append(" has version ");
        e.append(decimal(r.version as u64).as_str());
        e.append(", expected ");
        e.append(decimal(number as u64).as_str());
        Some(e)
    } else if blank(r.reviewed_by.as_str()) || blank(r.reason.as_str()) {
        let mut e = text2("review v", decimal(r.version as u64).as_str());
        e.append(" needs reviewedBy and reason");
        Some(e)
    } else {
        None
    }
}

proof fn reviews_error_stays(all: Seq<WeightReview>, k: int)
    requires
        0 <= k <= all.len(),
        reviews_error(all.take(k)) is Some,
    ensures
        reviews_error(all) == reviews_error(all.take(k)),
    decreases all.len(),
{
    if k == all.len() {
        assert(all.take(k) =~= all);
    } else {
        assert(all.drop_last().take(k) =~= all.take(k));
        reviews_error_stays(all.drop_last(), k);
    }
}

fn check_reviews(reviews: &Vec<WeightReview>) -> (r: Option<String>)
    ensures
        shown(r) == reviews_error(reviews@),
{
    let mut i: usize = 0;
    while i < reviews.len()
        invariant
            i <= reviews@.len(),
            reviews_error(reviews@.take(i as int)) is None,
        decreases reviews@.len() - i,
    {
        let ghost t = reviews@.take(i as int + 1);
        proof {
            assert(t.drop_last() =~= reviews@.take(i as int));
            assert(t.last() == reviews@[i as int]);
        }
        if let Some(e) = check_review(&reviews[i], i + 1) {
            proof {
                reviews_error_stays(reviews@, i as int + 1);
            }
            return Some(e);
        }
        i = i + 1;
    }
    proof {
        assert(reviews@.take(reviews@.len() as int) =~= reviews@);
    }
    None
}

/// The last place of each SLI name.
fn places(slis: &Vec<WeightedSli>) -> (m: StrMap<usize>)
    ensures
        m@.dom() == last_places(names_of(slis@)).dom(),
        forall|n: Seq<char>| #[trigger]
            m@.contains_key(n) ==> m@[n] == last_places(names_of(slis@))[n] && m@[n] < slis@.len(),
{
    let ghost names = names_of(slis@);
    let mut m: StrMap<usize> = StrMap::new();
    let mut i: usize = 0;
    proof {
        assert(m@.dom() =~= last_places(names.take(0)).dom());
    }
    while i < slis.len()
        invariant
            i <= slis@.len(),
            names == names_of(slis@),
            m@.dom() == last_places(names.take(i as int)).dom(),
            forall|n: Seq<char>| #[trigger]
                m@.contains_key(n) ==> m@[n] == last_places(names.take(i as int))[n] && m@[n] < slis@.len(),
        decreases slis@.len() - i,
    {
        let ghost t = names.take(i as int + 1);
        let ghost before = m@;
        proof {
            assert(t.drop_last() =~= names.take(i as int));
            assert(t.last() == names[i as int]);
        }
        m.insert(slis[i].name.clone(), i);
        proof {
            let now = last_places(t);
            assert(m@.dom() =~= now.dom());
            assert forall|n: Seq<char>| #[trigger] m@.contains_key(n) implies m@[n] == now[n] && m@[n] < slis@.len() by {
                if n != names[i as int] {
                    assert(before.contains_key(n));
                }
            }
        }
        i = i + 1;
    }
    proof {
        assert(names.take(slis@.len() as int) =~= names);
    }
    m
}

fn reviewed(slis: &Vec<WeightedSli>, weights: &StrMap<Reading>, close: &Vec<bool>) -> (r: bool)
    requires
        close@.len() == slis@.len(),
    ensures
        r == weights_reviewed(names_of(slis@), weights@, close@),
{
    let at = places(slis);
    let n: usize = at.len();
    if n != weights.len() {
        return false;
    }
    let ghost pairs = at.pairs();
    let ghost want = last_places(names_of(slis@));
    let mut i: usize = 0;
    while i < n
        invariant
            i <= n == pairs.len(),
            pairs == at.pairs(),
            at@ == map_of(pairs),
            close@.len() == slis@.len(),
            at@.dom() == want.dom(),
            forall|x: Seq<char>| #[trigger] at@.contains_key(x) ==> at@[x] == want[x] && at@[x] < slis@.len(),
            want == last_places(names_of(slis@)),
            forall|k: int|
                0 <= k < i ==> weights@.contains_key((#[trigger] pairs[k]).0@) && close@[pairs[k].1 as int],
        decreases n - i,
    {
        let name = at.key_at(i);
        let place: usize = *at.value_at(i);
        proof {
            assert(at@.contains_key(name@));
            assert(place == want[name@]);
            assert(want.contains_key(name@));
        }
        if !weights.contains_key(name.as_str()) || !close[place] {
            return false;
        }
        i = i + 1;
    }
    proof {
        assert forall|x: Seq<char>| #[trigger] want.contains_key(x) implies weights@.contains_key(x)
            && close@[want[x]] by {
            assert(at@.contains_key(x));
            let k = keys_of(pairs).index_of(x);
            assert(pairs[k].0@ == x);
            assert(at@[x] == pairs[k].1);
        }
    }
    true
}

fn check_slo(c: &CompositeSlo, known: &Vec<String>, f: &SloFigures) -> (r: Option<String>)
    requires
        f.close@.len() == c.slis@.len(),
    ensures
        shown(r) == slo_error(*c, views(known@), *f),
{
    let zero = Reading { bits: 0 };
    let one = Reading { bits: 0x3FF0_0000_0000_0000 };
    if !(zero.lt(&c.target) && c.target.lt(&one)) {
        let mut e = text2("target ", f.target.as_str());
        e.append(" must be in (0, 1)");
        return Some(e);
    }
    if c.slis.len() == 0 {
        return Some("no SLIs".to_owned());
    }
    if !f.sum_is_one {
        let mut e = text2("weights sum to ", f.sum.as_str());
        e.append(", expected 1");
        return Some(e);
    }
    if let Some(e) = check_slis(&c.slis, known) {
        return Some(e);
    }
    if let Some(e) = check_reviews(&c.reviews) {
        return Some(e);
    }
    let n: usize = c.reviews.len();
    if n == 0 {
        return Some("weights have no review record".to_owned());
    }
    let latest = &c.reviews[n - 1];
    if latest.version != c.version {
        let mut e = text2("version ", decimal(c.version as u64).as_str());
        e.append(" has no review record (latest review is v");
        e.append(decimal(latest.version as u64).as_str());
        e.append(")");
        return Some(e);
    }
    if !reviewed(&c.slis, &latest.weights, &f.close) {
        let mut e = text2("weights differ from review v", decimal(latest.version as u64).as_str());
        e.append("; bump version and add a review");
        return Some(e);
    }
    None
}

proof fn slos_error_stays(all: Seq<CompositeSlo>, known: Seq<Seq<char>>, figures: Seq<SloFigures>, k: int)
    requires
        0 <= k <= all.len() == figures.len(),
        slos_error(all.take(k), known, figures.take(k)) is Some,
    ensures
        slos_error(all, known, figures) == slos_error(all.take(k), known, figures.take(k)),
    decreases all.len(),
{
    if k == all.len() {
        assert(all.take(k) =~= all);
        assert(figures.take(k) =~= figures);
    } else {
        assert(all.drop_last().take(k) =~= all.take(k));
        assert(figures.drop_last().take(k) =~= figures.take(k));
        slos_error_stays(all.drop_last(), known, figures.drop_last(), k);
    }
}

/// Validate the configuration. `known_records` are the recording rules that exist, and
/// `figures` what is worked out of the numbers of each composite.
pub fn validate(
    cfg: &CompositeConfig,
    known_records: &Vec<String>,
    figures: &Vec<SloFigures>,
) -> (r: Result<(), String>)
    requires
        figures@.len() == cfg.composites@.len(),
        forall|i: int|
            0 <= i < figures@.len() ==> (#[trigger] figures@[i]).close@.len() == cfg.composites@[i].slis@.len(),
    ensures
        r is Ok <==> config_error(*cfg, views(known_records@), figures@) is None,
        r matches Err(e) ==> config_error(*cfg, views(known_records@), figures@) == Some(e@),
{
    if let Some(e) = check_tier1(cfg) {
        return Err(e);
    }
    let all = &cfg.composites;
    let ghost known = views(known_records@);
    let mut i: usize = 0;
    while i < all.len()
        invariant
            i <= all@.len() == figures@.len(),
            *all == cfg.composites,
            known == views(known_records@),
            forall|i: int|
                0 <= i < figures@.len() ==> (#[trigger] figures@[i]).close@.len() == cfg.composites@[i].slis@.len(),
            tier1_error(views(cfg.tier1_services@), services_of(cfg.composites@)) is None,
            slos_error(all@.take(i as int), known, figures@.take(i as int)) is None,
        decreases all@.len() - i,
    {
        let ghost t = all@.take(i as int + 1);
        let ghost u = figures@.take(i as int + 1);
        proof {
            assert(t.drop_last() =~= all@.take(i as int));
            assert(u.drop_last() =~= figures@.take(i as int));
            assert(t.last() == all@[i as int]);
            assert(u.last() == figures@[i as int]);
            assert(figures@[i as int].close@.len() == cfg.composites@[i as int].slis@.len());
        }
        if let Some(m) = check_slo(&all[i], known_records, &figures[i]) {
            let mut e = text2("composite '", all[i].service.as_str());
            e.append("': ");
            e.append(m.as_str());
            proof {
                slos_error_stays(all@, known, figures@, i as int + 1);
            }
            return Err(e);
        }
        i = i + 1;
    }
    proof {
        assert(all@.take(all@.len() as int) =~= all@);
        assert(figures@.take(all@.len() as int) =~= figures@);
    }
    Ok(())
}

/// The weight of each SLI and its value, in order; `None` where a value is missing. The
/// composite ratio is the sum of their products.
pub fn composite_terms(slo: &CompositeSlo, values: &StrMap<Reading>) -> (r: Option<Vec<(Reading, Reading)>>)
    ensures
        r is Some <==> forall|i: int|
            0 <= i < slo.slis@.len() ==> values@.contains_key((#[trigger] slo.slis@[i]).name@),
        r matches Some(v) ==> v@.len() == slo.slis@.len() && forall|i: int|
            0 <= i < v@.len() ==> #[trigger] v@[i] == (slo.slis@[i].weight, values@[slo.slis@[i].name@]),
{
    let mut v: Vec<(Reading, Reading)> = Vec::new();
    let mut i: usize = 0;
    while i < slo.slis.len()
        invariant
            i <= slo.slis@.len(),
            v@.len() == i,
            forall|k: int| 0 <= k < i ==> values@.contains_key((#[trigger] slo.slis@[k]).name@),
            forall|k: int|
                0 <= k < i ==> #[trigger] v@[k] == (slo.slis@[k].weight, values@[slo.slis@[k].name@]),
        decreases slo.slis@.len() - i,
    {
        match values.get(slo.slis[i].name.as_str()) {
            Some(x) => {
                v.push((slo.slis[i].weight, *x));
            },
            None => {
                return None;
            },
        }
        i = i + 1;
    }
    Some(v)
}

/// A number with six decimals without its trailing zeros, and without its point where
/// nothing follows it.
pub open spec fn short_number(s: Seq<char>) -> Seq<char> {
    strip_end(strip_end(s, '0'), '.')
}

/// A number with six decimals without its trailing zeros.
pub fn fmt_num(six_decimals: &str) -> (s: String)
    ensures
        s@ == short_number(six_decimals@),
{
    let a = trim_end_matches(six_decimals, '0');
    trim_end_matches(a.as_str(), '.')
}

/// The numbers of one composite with six decimals.
#[derive(Debug)]
pub struct RuleNumbers {
    /// The weight of each SLI.
    pub weights: Vec<String>,
    /// What is left of one above the target.
    pub budget: String,
}

/// The label selector of a service.
pub open spec fn selector(svc: Seq<char>) -> Seq<char> {
    "{service=\""@ + svc + "\"}"@
}

/// The labels of every rule of a service.
pub open spec fn labels(svc: Seq<char>) -> Seq<char> {
    "        labels:\n          service: "@ + svc + "\n          slo: "@ + svc + "-composite\n"@
}

/// A recording rule.
pub open spec fn rule(record: Seq<char>, expr: Seq<char>, svc: Seq<char>) -> Seq<char> {
    "      - record: "@ + record + "\n        expr: "@ + expr + "\n"@ + labels(svc)
}

/// One weighted term of the composite.
pub open spec fn term(s: WeightedSli, weight: Seq<char>, svc: Seq<char>) -> Seq<char> {
    "sum by (service) ("@ + short_number(weight) + " * "@ + s.record@ + selector(svc) + ")"@
}

/// The weighted terms of the composite.
pub open spec fn terms(slis: Seq<WeightedSli>, weights: Seq<Seq<char>>, svc: Seq<char>) -> Seq<Seq<char>> {
    Seq::new(slis.len(), |i: int| term(slis[i], weights[i], svc))
}

/// The two rules of a window.
pub open spec fn window_rules(w: Seq<char>, svc: Seq<char>, budget: Seq<char>) -> Seq<char> {
    rule(
        "stellar:slo:composite:ratio_rate"@ + w,
        "avg_over_time(stellar:slo:composite:ratio"@ + selector(svc) + "["@ + w + "])"@,
        svc,
    ) + rule(
        "stellar:slo:composite:burn_rate"@ + w,
        "(1 - stellar:slo:composite:ratio_rate"@ + w + selector(svc) + ") / "@ + short_number(budget),
        svc,
    )
}

/// The rule group of a composite.
#[verifier::opaque]
pub open spec fn group(c: CompositeSlo, n: RuleNumbers) -> Seq<char> {
    let svc = c.service@;
    "  - name: stellar_composite_slo_"@ + replaced(svc, '-', "_"@) + "\n    interval: 1m\n    rules:\n"@ + rule(
        "stellar:slo:composite:ratio"@,
        "|\n          "@ + joined(terms(c.slis@, views(n.weights@), svc), "\n          + "@),
        svc,
    ) + window_rules(WINDOWS[0]@, svc, n.budget@) + window_rules(WINDOWS[1]@, svc, n.budget@) + window_rules(
        WINDOWS[2]@,
        svc,
        n.budget@,
    ) + window_rules(WINDOWS[3]@, svc, n.budget@) + window_rules(WINDOWS[4]@, svc, n.budget@) + rule(
        "stellar:slo:composite:error_budget_remaining"@,
        "1 - stellar:slo:composite:burn_rate30d"@ + selector(svc),
        svc,
    ) + rule("stellar:slo:composite:weights_version"@, "vector("@ + dec(c.version as nat) + ")"@, svc)
}

/// What stands before the first group.
pub open spec fn preamble() -> Seq<char> {
    "# Copyright 2024 Stellar-K8s Contributors\n# Licensed under the Apache License, Version 2.0 (the \"License\");\n# you may not use this file except in compliance with the License.\n# You may obtain a copy of the License at\n#\n#     http://www.apache.org/licenses/LICENSE-2.0\n#\n# Unless required by applicable law or agreed to in writing, software\n# distributed under the License is distributed on an \"AS IS\" BASIS,\n# WITHOUT WARRANTIES OR CONDITIONS OF ANY KIND, either express or implied.\n# See the License for the specific language governing permissions and\n# limitations under the License.\n#\n# GENERATED from config/slo/composite-slos.yaml by src/composite_slo.rs.\n# Do not edit by hand. Regenerate with:\n#   STELLAR_REGENERATE_SLO_RULES=1 cargo test --lib composite_slo\ngroups:\n"@
}

/// The rule file.
pub open spec fn rules(v: Seq<CompositeSlo>, numbers: Seq<RuleNumbers>) -> Seq<char>
    decreases v.len(),
{
    if v.len() == 0 {
        preamble()
    } else {
        rules(v.drop_last(), numbers.drop_last()) + group(v.last(), numbers.last())
    }
}

fn write_selector(svc: &str) -> (s: String)
    ensures
        s@ == selector(svc@),
{
    let mut s = text2("{service=\"", svc);
    s.append("\"}");
    s
}

fn write_rule(record: &str, expr: &str, svc: &str) -> (s: String)
    ensures
        s@ == rule(record@, expr@, svc@),
{
    let mut labels = text2("        labels:\n          service: ", svc);
    labels.append("\n          slo: ");
    labels.append(svc);
    labels.append("-composite\n");
    let mut s = text2("      - record: ", record);
    s.append("\n        expr: ");
    s.append(expr);
    s.append("\n");
    s.append(labels.as_str());
    s
}

fn write_term(s: &WeightedSli, weight: &str, svc: &str) -> (t: String)
    ensures
        t@ == term(*s, weight@, svc@),
{
    let mut t = text2("sum by (service) (", fmt_num(weight).as_str());
    t.append(" * ");
    t.append(s.record.as_str());
    t.append(write_selector(svc).as_str());
    t.append(")");
    t
}

fn write_terms(slis: &Vec<WeightedSli>, weights: &Vec<String>, svc: &str) -> (out: Vec<String>)
    requires
        weights@.len() == slis@.len(),
    ensures
        views(out@) == terms(slis@, views(weights@), svc@),
{
    let ghost all = terms(slis@, views(weights@), svc@);
    let mut out: Vec<String> = Vec::new();
    let mut i: usize = 0;
    while i < slis.len()
        invariant
            i <= slis@.len() == weights@.len(),
            all == terms(slis@, views(weights@), svc@),
            views(out@) == all.take(i as int),
        decreases slis@.len() - i,
    {
        let ghost was = out@;
        out.push(write_term(&slis[i], weights[i].as_str(), svc));
        proof {
            assert(views(out@) =~= views(was).push(all[i as int]));
            assert(all.take(i as int + 1) =~= all.take(i as int).push(all[i as int]));
        }
        i = i + 1;
    }
    proof {
        assert(all.take(slis@.len() as int) =~= all);
    }
    out
}

fn write_window(w: &str, svc: &str, budget: &str) -> (s: String)
    ensures
        s@ == window_rules(w@, svc@, budget@),
{
    let sel = write_selector(svc);
    let rate = text2("stellar:slo:composite:ratio_rate", w);
    let mut average = text2("avg_over_time(stellar:slo:composite:ratio", sel.as_str());
    average.append("[");
    average.append(w);
    average.append("])");
    let burn = text2("stellar:slo:composite:burn_rate", w);
    let mut share = text2("(1 - stellar:slo:composite:ratio_rate", w);
    share.append(sel.as_str());
    share.append(") / ");
    share.append(fmt_num(budget).as_str());
    let mut s = write_rule(rate.as_str(), average.as_str(), svc);
    s.append(write_rule(burn.as_str(), share.as_str(), svc).as_str());
    s
}

fn write_group(c: &CompositeSlo, n: &RuleNumbers) -> (s: String)
    requires
        n.weights@.len() == c.slis@.len(),
    ensures
        s@ == group(*c, *n),
{
    proof {
        reveal(group);
    }
    let svc = c.service.as_str();
    let budget = n.budget.as_str();
    let mut s = text2("  - name: stellar_composite_slo_", replace(svc, '-', "_").as_str());
    s.append("\n    interval: 1m\n    rules:\n");
    let list = write_terms(&c.slis, &n.weights, svc);
    let sum = text2("|\n          ", join(&list, "\n          + ").as_str());
    s.append(write_rule("stellar:slo:composite:ratio", sum.as_str(), svc).as_str());
    s.append(write_window(WINDOWS[0], svc, budget).as_str());
    s.append(write_window(WINDOWS[1], svc, budget).as_str());
    s.append(write_window(WINDOWS[2], svc, budget).as_str());
    s.append(write_window(WINDOWS[3], svc, budget).as_str());
    s.append(write_window(WINDOWS[4], svc, budget).as_str());
    let left = text2("1 - stellar:slo:composite:burn_rate30d", write_selector(svc).as_str());
    s.append(write_rule("stellar:slo:composite:error_budget_remaining", left.as_str(), svc).as_str());
    let mut version = text2("vector(", decimal(c.version as u64).as_str());
    version.append(")");
    s.append(write_rule("stellar:slo:composite:weights_version", version.as_str(), svc).as_str());
    s
}

/// Render the Prometheus rule file for all composites, with their numbers.
pub fn render_rules(cfg: &CompositeConfig, numbers: &Vec<RuleNumbers>) -> (out: String)
    requires
        numbers@.len() == cfg.composites@.len(),
        forall|i: int|
            0 <= i < numbers@.len() ==> (#[trigger] numbers@[i]).weights@.len() == cfg.composites@[i].slis@.len(),
    ensures
        out@ == rules(cfg.composites@, numbers@),
{
    let mut out =
        "# Copyright 2024 Stellar-K8s Contributors\n# Licensed under the Apache License, Version 2.0 (the \"License\");\n# you may not use this file except in compliance with the License.\n# You may obtain a copy of the License at\n#\n#     http://www.apache.org/licenses/LICENSE-2.0\n#\n# Unless required by applicable law or agreed to in writing, software\n# distributed under the License is distributed on an \"AS IS\" BASIS,\n# WITHOUT WARRANTIES OR CONDITIONS OF ANY KIND, either express or implied.\n# See the License for the specific language governing permissions and\n# limitations under the License.\n#\n# GENERATED from config/slo/composite-slos.yaml by src/composite_slo.rs.\n# Do not edit by hand. Regenerate with:\n#   STELLAR_REGENERATE_SLO_RULES=1 cargo test --lib composite_slo\ngroups:\n".to_owned();
    let all = &cfg.composites;
    let mut i: usize = 0;
    while i < all.len()
        invariant
            i <= all@.len() == numbers@.len(),
            *all == cfg.composites,
            forall|i: int|
                0 <= i < numbers@.len() ==> (#[trigger] numbers@[i]).weights@.len() == cfg.composites@[i].slis@.len(),
            out@ == rules(all@.take(i as int), numbers@.take(i as int)),
        decreases all@.len() - i,
    {
        proof {
            assert(all@.take(i as int + 1).drop_last() =~= all@.take(i as int));
            assert(numbers@.take(i as int + 1).drop_last() =~= numbers@.take(i as int));
            assert(numbers@[i as int].weights@.len() == cfg.composites@[i as int].slis@.len());
        }
        out.append(write_group(&all[i], &numbers[i]).as_str());
        i = i + 1;
    }
    proof {
        assert(all@.take(all@.len() as int) =~= all@);
        assert(numbers@.take(all@.len() as int) =~= numbers@);
    }
    out
}

/// A valid configuration covers every service that must be covered, and the latest review of
/// each of its composites is for the version in effect and for the weights in effect.
pub proof fn valid_configurations_are_reviewed(
    cfg: CompositeConfig,
    known: Seq<Seq<char>>,
    figures: Seq<SloFigures>,
)
    requires
        figures.len() == cfg.composites@.len(),
        config_error(cfg, known, figures) is None,
    ensures
        forall|i: int|
            0 <= i < cfg.tier1_services@.len() ==> services_of(cfg.composites@).contains(
                #[trigger] views(cfg.tier1_services@)[i],
            ),
        forall|i: int|
            0 <= i < cfg.composites@.len() ==> {
                let c = #[trigger] cfg.composites@[i];
                &&& c.reviews@.len() > 0
                &&& c.reviews@.last().version == c.version
                &&& weights_reviewed(names_of(c.slis@), c.reviews@.last().weights@, figures[i].close@)
            },
{
    covered_services(views(cfg.tier1_services@), services_of(cfg.composites@));
    sound_composites(cfg.composites@, known, figures);
    assert forall|i: int| 0 <= i < cfg.composites@.len() implies {
        let c = #[trigger] cfg.composites@[i];
        &&& c.reviews@.len() > 0
        &&& c.reviews@.last().version == c.version
        &&& weights_reviewed(names_of(c.slis@), c.reviews@.last().weights@, figures[i].close@)
    } by {
        assert(slo_error(cfg.composites@[i], known, figures[i]) is None);
    }
}

proof fn covered_services(services: Seq<Seq<char>>, covered: Seq<Seq<char>>)
    requires
        tier1_error(services, covered) is None,
    ensures
        forall|i: int| 0 <= i < services.len() ==> covered.contains(#[trigger] services[i]),
    decreases services.len(),
{
    if services.len() > 0 {
        covered_services(services.drop_last(), covered);
        assert forall|i: int| 0 <= i < services.len() implies covered.contains(#[trigger] services[i]) by {
            if i < services.len() - 1 {
                assert(services.drop_last()[i] == services[i]);
            }
        }
    }
}

proof fn sound_composites(v: Seq<CompositeSlo>, known: Seq<Seq<char>>, figures: Seq<SloFigures>)
    requires
        figures.len() == v.len(),
        slos_error(v, known, figures) is None,
    ensures
        forall|i: int| 0 <= i < v.len() ==> slo_error(#[trigger] v[i], known, figures[i]) is None,
    decreases v.len(),
{
    if v.len() > 0 {
        sound_composites(v.drop_last(), known, figures.drop_last());
        assert forall|i: int| 0 <= i < v.len() implies slo_error(#[trigger] v[i], known, figures[i]) is None by {
            if i < v.len() - 1 {
                assert(v.drop_last()[i] == v[i]);
                assert(figures.drop_last()[i] == figures[i]);
            }
        }
    }
}

/// A group is part of the file that its composite is rendered into.
proof fn groups_are_rendered(v: Seq<CompositeSlo>, numbers: Seq<RuleNumbers>, i: int, pat: Seq<char>)
    requires
        0 <= i < v.len() == numbers.len(),
        occurs(group(v[i], numbers[i]), pat),
    ensures
        occurs(rules(v, numbers), pat),
    decreases v.len(),
{
    let front = rules(v.drop_last(), numbers.drop_last());
    let own = group(v.last(), numbers.last());
    if i < v.len() - 1 {
        groups_are_rendered(v.drop_last(), numbers.drop_last(), i, pat);
    }
    either_holds(front, own, pat);
}

/// The parts of a group: its head, and the rules in order.
spec fn group_parts(c: CompositeSlo, n: RuleNumbers) -> Seq<Seq<char>> {
    let svc = c.service@;
    seq![
        "  - name: stellar_composite_slo_"@ + replaced(svc, '-', "_"@) + "\n    interval: 1m\n    rules:\n"@,
        rule(
            "stellar:slo:composite:ratio"@,
            "|\n          "@ + joined(terms(c.slis@, views(n.weights@), svc), "\n          + "@),
            svc,
        ),
        window_rules(WINDOWS[0]@, svc, n.budget@),
        window_rules(WINDOWS[1]@, svc, n.budget@),
        window_rules(WINDOWS[2]@, svc, n.budget@),
        window_rules(WINDOWS[3]@, svc, n.budget@),
        window_rules(WINDOWS[4]@, svc, n.budget@),
        recorded(
            "stellar:slo:composite:error_budget_remaining"@,
            "1 - stellar:slo:composite:burn_rate30d"@ + ("{service=\""@ + svc + "\"}"@),
            svc,
        ),
        recorded("stellar:slo:composite:weights_version"@, "vector("@ + dec(c.version as nat) + ")"@, svc),
    ]
}

spec fn all_of(parts: Seq<Seq<char>>) -> Seq<char>
    decreases parts.len(),
{
    if parts.len() == 0 {
        Seq::empty()
    } else {
        all_of(parts.drop_last()) + parts.last()
    }
}

proof fn parts_occur(parts: Seq<Seq<char>>, k: int, pat: Seq<char>)
    requires
        0 <= k < parts.len(),
        occurs(parts[k], pat),
    ensures
        occurs(all_of(parts), pat),
    decreases parts.len(),
{
    let front = all_of(parts.drop_last());
    if k < parts.len() - 1 {
        parts_occur(parts.drop_last(), k, pat);
    }
    either_holds(front, parts.last(), pat);
}

proof fn one_more_part(parts: Seq<Seq<char>>, p: Seq<char>)
    ensures
        all_of(parts.push(p)) == all_of(parts) + p,
{
    assert(parts.push(p).drop_last() =~= parts);
}

proof fn nine_parts(
    a: Seq<char>,
    b: Seq<char>,
    c: Seq<char>,
    d: Seq<char>,
    e: Seq<char>,
    f: Seq<char>,
    g: Seq<char>,
    h: Seq<char>,
    k: Seq<char>,
)
    ensures
        all_of(seq![a, b, c, d, e, f, g, h, k]) == a + b + c + d + e + f + g + h + k,
{
    let none = Seq::<Seq<char>>::empty();
    one_more_part(none, a);
    assert(all_of(none) == Seq::<char>::empty());
    assert(Seq::<char>::empty() + a =~= a);
    one_more_part(none.push(a), b);
    one_more_part(none.push(a).push(b), c);
    one_more_part(none.push(a).push(b).push(c), d);
    one_more_part(none.push(a).push(b).push(c).push(d), e);
    one_more_part(none.push(a).push(b).push(c).push(d).push(e), f);
    one_more_part(none.push(a).push(b).push(c).push(d).push(e).push(f), g);
    one_more_part(none.push(a).push(b).push(c).push(d).push(e).push(f).push(g), h);
    one_more_part(none.push(a).push(b).push(c).push(d).push(e).push(f).push(g).push(h), k);
    assert(seq![a, b, c, d, e, f, g, h, k] =~= none.push(a).push(b).push(c).push(d).push(e).push(f).push(g).push(
        h,
    ).push(k));
}

proof fn rules_are_recorded(record: Seq<char>, expr: Seq<char>, svc: Seq<char>)
    ensures
        rule(record, expr, svc) == recorded(record, expr, svc),
        selector(svc) == "{service=\""@ + svc + "\"}"@,
{
}

#[verifier::rlimit(40)]
proof fn groups_have_their_parts(c: CompositeSlo, n: RuleNumbers)
    ensures
        group(c, n) == all_of(group_parts(c, n)),
{
    reveal(group);
    let p = group_parts(c, n);
    let svc = c.service@;
    let left = "1 - stellar:slo:composite:burn_rate30d"@ + selector(svc);
    let version = "vector("@ + dec(c.version as nat) + ")"@;
    nine_parts(p[0], p[1], p[2], p[3], p[4], p[5], p[6], p[7], p[8]);
    assert(p =~= seq![p[0], p[1], p[2], p[3], p[4], p[5], p[6], p[7], p[8]]);
    rules_are_recorded("stellar:slo:composite:error_budget_remaining"@, left, svc);
    rules_are_recorded("stellar:slo:composite:weights_version"@, version, svc);
    assert(p[7] == rule("stellar:slo:composite:error_budget_remaining"@, left, svc));
    assert(p[8] == rule("stellar:slo:composite:weights_version"@, version, svc));
}

/// The text of a recording rule for a service, with the labels that point to its objective.
spec fn recorded(record: Seq<char>, expr: Seq<char>, svc: Seq<char>) -> Seq<char> {
    "      - record: "@ + record + "\n        expr: "@ + expr + "\n"@ + ("        labels:\n          service: "@ + svc
        + "\n          slo: "@ + svc + "-composite\n"@)
}

/// For every composite, what remains of the error budget is published as one less the burn rate
/// over thirty days of the same service.
pub proof fn the_remaining_budget_is_published(cfg: CompositeConfig, numbers: Seq<RuleNumbers>, i: int)
    requires
        0 <= i < cfg.composites@.len() == numbers.len(),
    ensures
        ({
            let svc = cfg.composites@[i].service@;
            occurs(
                rules(cfg.composites@, numbers),
                "      - record: "@ + "stellar:slo:composite:error_budget_remaining"@ + "\n        expr: "@ + (
                "1 - stellar:slo:composite:burn_rate30d"@ + ("{service=\""@ + svc + "\"}"@)) + "\n"@ + (
                "        labels:\n          service: "@ + svc + "\n          slo: "@ + svc + "-composite\n"@),
            )
        }),
{
    let c = cfg.composites@[i];
    let n = numbers[i];
    let parts = group_parts(c, n);
    let pat = recorded(
        "stellar:slo:composite:error_budget_remaining"@,
        "1 - stellar:slo:composite:burn_rate30d"@ + ("{service=\""@ + c.service@ + "\"}"@),
        c.service@,
    );
    groups_have_their_parts(c, n);
    written_text_occurs(Seq::empty(), pat, Seq::empty());
    assert(Seq::<char>::empty() + pat + Seq::<char>::empty() =~= pat);
    assert(parts[7] == pat);
    parts_occur(parts, 7, pat);
    groups_are_rendered(cfg.composites@, numbers, i, pat);
}

/// For every composite, the version of the weights in effect is published.
pub proof fn the_weights_version_is_published(cfg: CompositeConfig, numbers: Seq<RuleNumbers>, i: int)
    requires
        0 <= i < cfg.composites@.len() == numbers.len(),
    ensures
        ({
            let c = cfg.composites@[i];
            occurs(
                rules(cfg.composites@, numbers),
                "      - record: "@ + "stellar:slo:composite:weights_version"@ + "\n        expr: "@ + ("vector("@
                    + dec(c.version as nat) + ")"@) + "\n"@ + ("        labels:\n          service: "@ + c.service@
                    + "\n          slo: "@ + c.service@ + "-composite\n"@),
            )
        }),
{
    let c = cfg.composites@[i];
    let n = numbers[i];
    let parts = group_parts(c, n);
    let pat = recorded(
        "stellar:slo:composite:weights_version"@,
        "vector("@ + dec(c.version as nat) + ")"@,
        c.service@,
    );
    groups_have_their_parts(c, n);
    written_text_occurs(Seq::empty(), pat, Seq::empty());
    assert(Seq::<char>::empty() + pat + Seq::<char>::empty() =~= pat);
    assert(parts[8] == pat);
    parts_occur(parts, 8, pat);
    groups_are_rendered(cfg.composites@, numbers, i, pat);
}

/// For every composite and each of the windows, the composite is averaged over the window, and
/// its burn rate is what the average lacks of one, measured against what the target leaves.
pub proof fn every_window_is_published(cfg: CompositeConfig, numbers: Seq<RuleNumbers>, i: int, w: Seq<char>)
    requires
        0 <= i < cfg.composites@.len() == numbers.len(),
        w == "1h"@ || w == "6h"@ || w == "1d"@ || w == "3d"@ || w == "30d"@,
    ensures
        ({
            let svc = cfg.composites@[i].service@;
            let labels = "        labels:\n          service: "@ + svc + "\n          slo: "@ + svc
                + "-composite\n"@;
            &&& occurs(
                rules(cfg.composites@, numbers),
                "      - record: "@ + ("stellar:slo:composite:ratio_rate"@ + w) + "\n        expr: "@ + (
                "avg_over_time(stellar:slo:composite:ratio"@ + ("{service=\""@ + svc + "\"}"@) + "["@ + w + "])"@)
                    + "\n"@ + labels,
            )
            &&& occurs(
                rules(cfg.composites@, numbers),
                "      - record: "@ + ("stellar:slo:composite:burn_rate"@ + w) + "\n        expr: "@ + (
                "(1 - stellar:slo:composite:ratio_rate"@ + w + ("{service=\""@ + svc + "\"}"@) + ") / "@
                    + short_number(numbers[i].budget@)) + "\n"@ + labels,
            )
        }),
{
    let c = cfg.composites@[i];
    let svc = c.service@;
    let n = numbers[i];
    let parts = group_parts(c, n);
    let sel = "{service=\""@ + svc + "\"}"@;
    let average = recorded(
        "stellar:slo:composite:ratio_rate"@ + w,
        "avg_over_time(stellar:slo:composite:ratio"@ + sel + "["@ + w + "])"@,
        svc,
    );
    let burn = recorded(
        "stellar:slo:composite:burn_rate"@ + w,
        "(1 - stellar:slo:composite:ratio_rate"@ + w + sel + ") / "@ + short_number(n.budget@),
        svc,
    );
    groups_have_their_parts(c, n);
    let k: int = if w == "1h"@ {
        2
    } else if w == "6h"@ {
        3
    } else if w == "1d"@ {
        4
    } else if w == "3d"@ {
        5
    } else {
        6
    };
    assert(parts[k] == average + burn);
    written_text_occurs(Seq::empty(), average, burn);
    assert(Seq::<char>::empty() + average + burn =~= parts[k]);
    written_text_occurs(average, burn, Seq::empty());
    assert(average + burn + Seq::<char>::empty() =~= parts[k]);
    parts_occur(parts, k, average);
    parts_occur(parts, k, burn);
    groups_are_rendered(cfg.composites@, numbers, i, average);
    groups_are_rendered(cfg.composites@, numbers, i, burn);
}

/// Every SLI of a composite is a term of its ratio, with its own weight and record and for the
/// service of the composite.
pub proof fn every_sli_is_weighed(cfg: CompositeConfig, numbers: Seq<RuleNumbers>, i: int, k: int)
    requires
        0 <= i < cfg.composites@.len() == numbers.len(),
        0 <= k < cfg.composites@[i].slis@.len() == numbers[i].weights@.len(),
    ensures
        ({
            let c = cfg.composites@[i];
            occurs(
                rules(cfg.composites@, numbers),
                "sum by (service) ("@ + short_number(numbers[i].weights@[k]@) + " * "@ + c.slis@[k].record@ + (
                "{service=\""@ + c.service@ + "\"}"@) + ")"@,
            )
        }),
{
    let c = cfg.composites@[i];
    let n = numbers[i];
    let svc = c.service@;
    let parts = group_parts(c, n);
    let pat = "sum by (service) ("@ + short_number(n.weights@[k]@) + " * "@ + c.slis@[k].record@ + ("{service=\""@
        + svc + "\"}"@) + ")"@;
    let list = terms(c.slis@, views(n.weights@), svc);
    let sep = "\n          + "@;
    assert(list[k] == pat);
    joined_holds(list, sep, k);
    let front = "      - record: "@ + "stellar:slo:composite:ratio"@ + "\n        expr: "@ + "|\n          "@;
    let back = "\n"@ + labels(svc);
    parts_hold_what_occurs(front, joined(list, sep), back, pat);
    assert(parts[1] =~= front + joined(list, sep) + back);
    groups_have_their_parts(c, n);
    parts_occur(parts, 1, pat);
    groups_are_rendered(cfg.composites@, numbers, i, pat);
}

/// A shortened number does not end in a zero behind its point, nor in the point, and only zeros
/// and the point were taken off.
pub proof fn shortened_numbers_keep_their_value(s: Seq<char>)
    ensures
        short_number(s).len() <= s.len(),
        short_number(s) == s.take(short_number(s).len() as int),
        short_number(s).len() > 0 ==> short_number(s).last() != '.',
        forall|i: int| short_number(s).len() <= i < s.len() ==> #[trigger] s[i] == '0' || s[i] == '.',
        forall|i: int, j: int|
            short_number(s).len() <= i < j < s.len() && #[trigger] s[i] == '0' ==> #[trigger] s[j] == '0',
        s.len() > 0 && s.last() != '0' && s.last() != '.' ==> short_number(s) == s,
{
    let a = strip_end(s, '0');
    stripping_takes_the_end(s, '0');
    stripping_takes_the_end(a, '.');
    assert(a.take(short_number(s).len() as int) =~= s.take(short_number(s).len() as int));
    assert forall|i: int| short_number(s).len() <= i < s.len() implies #[trigger] s[i] == '0' || s[i] == '.' by {
        if i < a.len() {
            assert(a[i] == s[i]);
        }
    }
    assert forall|i: int, j: int|
        short_number(s).len() <= i < j < s.len() && #[trigger] s[i] == '0' implies #[trigger] s[j] == '0' by {
        if i < a.len() {
            assert(a[i] == s[i]);
        }
    }
}

proof fn stripping_takes_the_end(s: Seq<char>, c: char)
    ensures
        strip_end(s, c).len() <= s.len(),
        strip_end(s, c) == s.take(strip_end(s, c).len() as int),
        strip_end(s, c).len() > 0 ==> strip_end(s, c).last() != c,
        forall|i: int| strip_end(s, c).len() <= i < s.len() ==> #[trigger] s[i] == c,
    decreases s.len(),
{
    if s.len() > 0 && s.last() == c {
        let rest = s.drop_last();
        stripping_takes_the_end(rest, c);
        assert(s.take(strip_end(s, c).len() as int) =~= rest.take(strip_end(rest, c).len() as int));
        assert forall|i: int| strip_end(s, c).len() <= i < s.len() implies #[trigger] s[i] == c by {
            if i < s.len() - 1 {
                assert(rest[i] == s[i]);
            }
        }
    } else {
        assert(s.take(s.len() as int) =~= s);
    }
}

proof fn last_places_are_last(names: Seq<Seq<char>>)
    ensures
        last_places(names).dom().finite(),
        forall|n: Seq<char>| #[trigger] last_places(names).contains_key(n) <==> names.contains(n),
        forall|n: Seq<char>| #[trigger]
            last_places(names).contains_key(n) ==> {
                let p = last_places(names)[n];
                0 <= p < names.len() && names[p] == n && forall|j: int| p < j < names.len() ==> #[trigger] names[j] != n
            },
    decreases names.len(),
{
    if names.len() > 0 {
        let front = names.drop_last();
        last_places_are_last(front);
        let was = last_places(front);
        let all = last_places(names);
        assert forall|n: Seq<char>| #[trigger] all.contains_key(n) <==> names.contains(n) by {
            if names.contains(n) {
                let i = names.index_of(n);
                if i < names.len() - 1 {
                    assert(front[i] == n);
                    assert(was.contains_key(n));
                }
            }
            if all.contains_key(n) {
                if n == names.last() {
                    assert(names[names.len() - 1] == n);
                } else {
                    assert(was.contains_key(n));
                    let i = front.index_of(n);
                    assert(names[i] == n);
                }
            }
        }
        assert forall|n: Seq<char>| #[trigger] all.contains_key(n) implies {
            let p = all[n];
            0 <= p < names.len() && names[p] == n && forall|j: int| p < j < names.len() ==> #[trigger] names[j] != n
        } by {
            if n != names.last() {
                assert(was.contains_key(n));
                let p = was[n];
                assert(front[p] == n);
                assert forall|j: int| p < j < names.len() implies #[trigger] names[j] != n by {
                    if j < names.len() - 1 {
                        assert(front[j] == names[j]);
                    }
                }
            }
        }
    }
}

/// The weights are the reviewed ones exactly where the review has a weight for each SLI and for
/// nothing else, and each SLI's weight, by its last mention, is the reviewed one.
pub proof fn reviewed_weights_agree(names: Seq<Seq<char>>, reviewed: Map<Seq<char>, Reading>, close: Seq<bool>)
    requires
        reviewed.dom().finite(),
    ensures
        weights_reviewed(names, reviewed, close) <==> {
            &&& forall|n: Seq<char>| #[trigger] names.contains(n) <==> reviewed.contains_key(n)
            &&& forall|i: int|
                0 <= i < names.len() && (forall|j: int| i < j < names.len() ==> names[j] != #[trigger] names[i])
                    ==> close[i]
        },
{
    last_places_are_last(names);
    let places = last_places(names);
    if weights_reviewed(names, reviewed, close) {
        assert forall|n: Seq<char>| places.dom().contains(n) implies reviewed.dom().contains(n) by {
            assert(places.contains_key(n));
        }
        vstd::set_lib::lemma_subset_equality(places.dom(), reviewed.dom());
        assert forall|n: Seq<char>| #[trigger] names.contains(n) <==> reviewed.contains_key(n) by {
            assert(places.contains_key(n) <==> names.contains(n));
            assert(places.dom().contains(n) <==> reviewed.dom().contains(n));
        }
        assert forall|i: int|
            0 <= i < names.len() && (forall|j: int| i < j < names.len() ==> names[j] != #[trigger] names[i]) implies close[i] by {
            assert(names.contains(names[i]));
            assert(places.contains_key(names[i]));
            let p = places[names[i]];
            assert(names[p] == names[i]);
            if p < i {
                assert(names[i] != names[i]);
            }
        }
    }
    if (forall|n: Seq<char>| #[trigger] names.contains(n) <==> reviewed.contains_key(n)) && forall|i: int|
        0 <= i < names.len() && (forall|j: int| i < j < names.len() ==> names[j] != #[trigger] names[i]) ==> close[i] {
        assert forall|n: Seq<char>| places.dom().contains(n) <==> reviewed.dom().contains(n) by {
            assert(places.contains_key(n) <==> names.contains(n));
        }
        assert(places.dom() =~= reviewed.dom());
        assert forall|n: Seq<char>| #[trigger] places.contains_key(n) implies reviewed.contains_key(n)
            && close[places[n]] by {
            assert(names.contains(n));
            let p = places[n];
            assert(names[p] == n);
        }
    }
}

proof fn faultless_slis(slis: Seq<WeightedSli>, known: Seq<Seq<char>>)
    ensures
        slis_error(slis, known) is None <==> forall|i: int|
            0 <= i < slis.len() ==> sli_error(#[trigger] slis[i], known) is None,
    decreases slis.len(),
{
    if slis.len() > 0 {
        let front = slis.drop_last();
        faultless_slis(front, known);
        assert forall|i: int| 0 <= i < front.len() implies #[trigger] front[i] == slis[i] by {}
        if forall|i: int| 0 <= i < slis.len() ==> sli_error(#[trigger] slis[i], known) is None {
            assert(sli_error(slis[slis.len() - 1], known) is None);
        }
        if slis_error(slis, known) is None {
            assert forall|i: int| 0 <= i < slis.len() implies sli_error(#[trigger] slis[i], known) is None by {
                if i < slis.len() - 1 {
                    assert(front[i] == slis[i]);
                }
            }
        }
    }
}

proof fn faultless_reviews(reviews: Seq<WeightReview>)
    ensures
        reviews_error(reviews) is None <==> forall|i: int|
            0 <= i < reviews.len() ==> review_error(#[trigger] reviews[i], (i + 1) as nat) is None,
    decreases reviews.len(),
{
    if reviews.len() > 0 {
        let front = reviews.drop_last();
        faultless_reviews(front);
        assert forall|i: int| 0 <= i < front.len() implies #[trigger] front[i] == reviews[i] by {}
        if forall|i: int| 0 <= i < reviews.len() ==> review_error(#[trigger] reviews[i], (i + 1) as nat) is None {
            assert(review_error(reviews[reviews.len() - 1], reviews.len()) is None);
        }
        if reviews_error(reviews) is None {
            assert forall|i: int| 0 <= i < reviews.len() implies review_error(#[trigger] reviews[i], (i + 1) as nat) is None by {
                if i < reviews.len() - 1 {
                    assert(front[i] == reviews[i]);
                }
            }
        }
    }
}

proof fn faultless_slos(v: Seq<CompositeSlo>, known: Seq<Seq<char>>, figures: Seq<SloFigures>)
    requires
        figures.len() == v.len(),
        forall|i: int| 0 <= i < v.len() ==> slo_error(#[trigger] v[i], known, figures[i]) is None,
    ensures
        slos_error(v, known, figures) is None,
    decreases v.len(),
{
    if v.len() > 0 {
        assert forall|i: int| 0 <= i < v.drop_last().len() implies slo_error(
            #[trigger] v.drop_last()[i],
            known,
            figures.drop_last()[i],
        ) is None by {
            assert(v.drop_last()[i] == v[i]);
        }
        faultless_slos(v.drop_last(), known, figures.drop_last());
        assert(slo_error(v[v.len() - 1], known, figures[v.len() - 1]) is None);
    }
}

proof fn faultless_tiers(services: Seq<Seq<char>>, covered: Seq<Seq<char>>)
    requires
        forall|i: int| 0 <= i < services.len() ==> covered.contains(#[trigger] services[i]),
    ensures
        tier1_error(services, covered) is None,
    decreases services.len(),
{
    if services.len() > 0 {
        assert forall|i: int| 0 <= i < services.drop_last().len() implies covered.contains(
            #[trigger] services.drop_last()[i],
        ) by {
            assert(services.drop_last()[i] == services[i]);
        }
        faultless_tiers(services.drop_last(), covered);
        assert(covered.contains(services[services.len() - 1]));
    }
}

/// One composite is sound exactly where its target lies strictly between zero and one, it has
/// SLIs whose weights sum to one, each of them positive and of a known record, and its reviews
/// are numbered from one, each by someone and for a reason, the last of them for the version and
/// the weights in effect.
pub open spec fn is_sound(c: CompositeSlo, known: Seq<Seq<char>>, f: SloFigures) -> bool {
    &&& (Reading { bits: 0 }).less(c.target)
    &&& c.target.less(Reading { bits: 0x3FF0_0000_0000_0000 })
    &&& c.slis@.len() > 0
    &&& f.sum_is_one
    &&& forall|k: int|
        0 <= k < c.slis@.len() ==> !(#[trigger] c.slis@[k]).weight.at_most(Reading { bits: 0 }) && known.contains(
            c.slis@[k].record@,
        )
    &&& forall|k: int|
        0 <= k < c.reviews@.len() ==> (#[trigger] c.reviews@[k]).version == k + 1 && trimmed(
            c.reviews@[k].reviewed_by@,
        ).len() > 0 && trimmed(c.reviews@[k].reason@).len() > 0
    &&& c.reviews@.len() > 0
    &&& c.version == c.reviews@.len()
    &&& weights_reviewed(names_of(c.slis@), c.reviews@.last().weights@, f.close@)
}

/// A configuration is valid exactly where every service that must be covered has a composite and
/// every composite is sound.
pub proof fn valid_configurations_are_sound(
    cfg: CompositeConfig,
    known: Seq<Seq<char>>,
    figures: Seq<SloFigures>,
)
    requires
        figures.len() == cfg.composites@.len(),
    ensures
        config_error(cfg, known, figures) is None <==> {
            &&& forall|i: int|
                0 <= i < cfg.tier1_services@.len() ==> exists|k: int|
                    0 <= k < cfg.composites@.len() && (#[trigger] cfg.composites@[k]).service@ == (
                    #[trigger] cfg.tier1_services@[i])@
            &&& forall|i: int|
                0 <= i < cfg.composites@.len() ==> is_sound(#[trigger] cfg.composites@[i], known, figures[i])
        },
{
    let services = views(cfg.tier1_services@);
    let covered = services_of(cfg.composites@);
    assert forall|i: int| 0 <= i < cfg.composites@.len() implies (slo_error(
        #[trigger] cfg.composites@[i],
        known,
        figures[i],
    ) is None <==> is_sound(cfg.composites@[i], known, figures[i])) by {
        sound_is_faultless(cfg.composites@[i], known, figures[i]);
    }
    if config_error(cfg, known, figures) is None {
        covered_services(services, covered);
        sound_composites(cfg.composites@, known, figures);
        assert forall|i: int| 0 <= i < cfg.tier1_services@.len() implies exists|k: int|
            0 <= k < cfg.composites@.len() && (#[trigger] cfg.composites@[k]).service@ == (
            #[trigger] cfg.tier1_services@[i])@ by {
            assert(covered.contains(services[i]));
            let k = covered.index_of(services[i]);
            assert(cfg.composites@[k].service@ == services[i]);
        }
    }
    if (forall|i: int|
        0 <= i < cfg.tier1_services@.len() ==> exists|k: int|
            0 <= k < cfg.composites@.len() && (#[trigger] cfg.composites@[k]).service@ == (
            #[trigger] cfg.tier1_services@[i])@) && forall|i: int|
        0 <= i < cfg.composites@.len() ==> is_sound(#[trigger] cfg.composites@[i], known, figures[i]) {
        assert forall|i: int| 0 <= i < services.len() implies covered.contains(#[trigger] services[i]) by {
            assert(services[i] == cfg.tier1_services@[i]@);
            let k = choose|k: int|
                0 <= k < cfg.composites@.len() && (#[trigger] cfg.composites@[k]).service@ == cfg.tier1_services@[i]@;
            assert(covered[k] == services[i]);
        }
        faultless_tiers(services, covered);
        faultless_slos(cfg.composites@, known, figures);
    }
}

proof fn sound_is_faultless(c: CompositeSlo, known: Seq<Seq<char>>, f: SloFigures)
    ensures
        slo_error(c, known, f) is None <==> is_sound(c, known, f),
{
    faultless_slis(c.slis@, known);
    faultless_reviews(c.reviews@);
    if slo_error(c, known, f) is None {
        assert forall|k: int| 0 <= k < c.slis@.len() implies !(#[trigger] c.slis@[k]).weight.at_most(
            Reading { bits: 0 },
        ) && known.contains(c.slis@[k].record@) by {
            assert(sli_error(c.slis@[k], known) is None);
        }
        assert forall|k: int| 0 <= k < c.reviews@.len() implies (#[trigger] c.reviews@[k]).version == k + 1 && trimmed(
            c.reviews@[k].reviewed_by@,
        ).len() > 0 && trimmed(c.reviews@[k].reason@).len() > 0 by {
            assert(review_error(c.reviews@[k], (k + 1) as nat) is None);
        }
        assert(c.reviews@[c.reviews@.len() - 1].version == c.reviews@.len());
    }
    if is_sound(c, known, f) {
        assert forall|k: int| 0 <= k < c.slis@.len() implies sli_error(#[trigger] c.slis@[k], known) is None by {}
        assert forall|k: int| 0 <= k < c.reviews@.len() implies review_error(
            #[trigger] c.reviews@[k],
            (k + 1) as nat,
        ) is None by {}
        assert(c.reviews@[c.reviews@.len() - 1].version == c.reviews@.len());
    }
}

} // verus!
