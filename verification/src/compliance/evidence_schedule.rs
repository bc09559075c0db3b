//! Compliance evidence collector for continuous control verification.
//!
//! Each in-scope control is described by a small declarative probe. A collector runs the
//! probes that are due, packages their results into a signed package for auditors, and
//! reports coverage gaps as findings. Collection state is bounded: the last result of each
//! control and a capped log of findings.

use vstd::prelude::*;
#[allow(unused_imports)]
use vstd::string::*;
#[allow(unused_imports)]
use vstd::utf8::encode_utf8;
#[allow(unused_imports)]
use crate::bounded::{last_n, BoundedLog};
use crate::clock;
#[allow(unused_imports)]
use crate::digest::{equal_in_full, hex_of, hmac_sha256, sha256, sha256_of, to_hex};
#[allow(unused_imports)]
use crate::flag_bundle::{bool_text, signature_of};
#[allow(unused_imports)]
use crate::json::{json_text, quote};
#[allow(unused_imports)]
use crate::seqs::{filter_none, filter_step};
#[allow(unused_imports)]
use crate::strmap::{ascending, StrMap};
#[allow(unused_imports)]
use crate::text::{
    dec, decimal, join, joined, joined_holds, occurs, occurs_at, parts_hold_what_occurs, same, text2, views, written_text_occurs,
};

verus! {

/// A declarative check for one framework control.
#[derive(Debug, PartialEq, Eq)]
pub struct ControlProbe {
    /// Framework the control belongs to.
    pub framework: String,
    /// Control identifier.
    pub control_id: String,
    /// Human-readable description of what is checked.
    pub description: String,
    /// Declarative check expression, evaluated by the runner.
    pub expression: String,
    /// Collection interval in seconds.
    pub interval_secs: u64,
    /// Evidence retention in days (policy requirement).
    pub retention_days: u32,
}

impl Clone for ControlProbe {
    fn clone(&self) -> (r: Self)
        ensures
            r == *self,
    {
        ControlProbe {
            framework: self.framework.clone(),
            control_id: self.control_id.clone(),
            description: self.description.clone(),
            expression: self.expression.clone(),
            interval_secs: self.interval_secs,
            retention_days: self.retention_days,
        }
    }
}

impl ControlProbe {
    /// The key of the control within its framework.
    pub open spec fn key_text(self) -> Seq<char> {
        self.framework@ + ":"@ + self.control_id@
    }

    /// Create a probe with an equality-style default expression.
    pub fn new(
        framework: &str,
        control_id: &str,
        description: &str,
        interval_secs: u64,
        retention_days: u32,
    ) -> (p: Self)
        ensures
            p.framework@ == framework@,
            p.control_id@ == control_id@,
            p.description@ == description@,
            p.expression@ == "control("@ + control_id@ + ") == compliant"@,
            p.interval_secs == interval_secs,
            p.retention_days == retention_days,
    {
        let mut expression = text2("control(", control_id);
        expression.append(") == compliant");
        ControlProbe {
            framework: framework.to_owned(),
            control_id: control_id.to_owned(),
            description: description.to_owned(),
            expression,
            interval_secs,
            retention_days,
        }
    }

    /// Override the check expression (builder style).
    pub fn with_expression(self, expression: &str) -> (p: Self)
        ensures
            p.expression@ == expression@,
            p.framework == self.framework,
            p.control_id == self.control_id,
            p.description == self.description,
            p.interval_secs == self.interval_secs,
            p.retention_days == self.retention_days,
    {
        let mut p = self;
        p.expression = expression.to_owned();
        p
    }

    /// Unique key for this control within its framework.
    pub fn key(&self) -> (s: String)
        ensures
            s@ == self.key_text(),
    {
        let mut s = text2(self.framework.as_str(), ":");
        s.append(self.control_id.as_str());
        s
    }
}

/// The hash of some evidence.
pub open spec fn hash_of(evidence: Seq<char>) -> Seq<char> {
    hex_of(sha256_of(encode_utf8(evidence)))
}

fn hash(evidence: &str) -> (s: String)
    ensures
        s@ == hash_of(evidence@),
{
    to_hex(&sha256(evidence.as_bytes()))
}

/// Outcome of running one probe once.
#[derive(Debug, PartialEq, Eq)]
pub struct ProbeResult {
    /// Control key.
    pub control_key: String,
    /// Collection time (Unix seconds).
    pub collected_at: u64,
    /// Whether the control was satisfied.
    pub satisfied: bool,
    /// Observed evidence payload.
    pub evidence: String,
    /// SHA-256 of the evidence payload.
    pub evidence_hash: String,
}

/// What a result says.
pub struct Evidence {
    pub control_key: Seq<char>,
    pub collected_at: u64,
    pub satisfied: bool,
    pub evidence: Seq<char>,
    pub evidence_hash: Seq<char>,
}

impl View for ProbeResult {
    type V = Evidence;

    open spec fn view(&self) -> Evidence {
        Evidence {
            control_key: self.control_key@,
            collected_at: self.collected_at,
            satisfied: self.satisfied,
            evidence: self.evidence@,
            evidence_hash: self.evidence_hash@,
        }
    }
}

impl Clone for ProbeResult {
    fn clone(&self) -> (r: Self)
        ensures
            r == *self,
    {
        ProbeResult {
            control_key: self.control_key.clone(),
            collected_at: self.collected_at,
            satisfied: self.satisfied,
            evidence: self.evidence.clone(),
            evidence_hash: self.evidence_hash.clone(),
        }
    }
}

impl Evidence {
    /// The hash is that of the payload.
    pub open spec fn is_intact(self) -> bool {
        self.evidence_hash == hash_of(self.evidence)
    }
}

impl ProbeResult {
    /// Build a result, hashing the evidence payload.
    pub fn new(control_key: String, collected_at: u64, satisfied: bool, evidence: &str) -> (r: Self)
        ensures
            r@ == (Evidence {
                control_key: control_key@,
                collected_at,
                satisfied,
                evidence: evidence@,
                evidence_hash: hash_of(evidence@),
            }),
    {
        ProbeResult {
            control_key,
            collected_at,
            satisfied,
            evidence: evidence.to_owned(),
            evidence_hash: hash(evidence),
        }
    }

    /// Whether the stored hash matches the payload.
    pub fn integrity_ok(&self) -> (r: bool)
        ensures
            r == self@.is_intact(),
    {
        let h = hash(self.evidence.as_str());
        same(h.as_str(), self.evidence_hash.as_str())
    }
}

/// A coverage gap or collection failure raised as a first-class finding.
#[derive(Debug, PartialEq, Eq)]
pub struct CoverageFinding {
    /// Control key affected, or `collector` for collector-level findings.
    pub control_key: String,
    /// Machine-readable kind: `missing-evidence`, `collection-failed`, `stale-evidence`.
    pub kind: String,
    /// Human-readable detail.
    pub detail: String,
    /// When the finding was raised (Unix seconds).
    pub raised_at: u64,
}

/// What a finding says.
pub struct Finding {
    pub control_key: Seq<char>,
    pub kind: Seq<char>,
    pub detail: Seq<char>,
    pub raised_at: u64,
}

impl View for CoverageFinding {
    type V = Finding;

    open spec fn view(&self) -> Finding {
        Finding {
            control_key: self.control_key@,
            kind: self.kind@,
            detail: self.detail@,
            raised_at: self.raised_at,
        }
    }
}

impl Clone for CoverageFinding {
    fn clone(&self) -> (r: Self)
        ensures
            r == *self,
    {
        CoverageFinding {
            control_key: self.control_key.clone(),
            kind: self.kind.clone(),
            detail: self.detail.clone(),
            raised_at: self.raised_at,
        }
    }
}

/// What findings say.
pub open spec fn findings_of(s: Seq<CoverageFinding>) -> Seq<Finding> {
    s.map_values(|f: CoverageFinding| f@)
}

/// What results say.
pub open spec fn evidence_of(m: Map<Seq<char>, ProbeResult>) -> Map<Seq<char>, Evidence> {
    m.map_values(|r: ProbeResult| r@)
}

/// Coverage across all in-scope controls. The ratio is that of `covered` to `total`, and full
/// where nothing is in scope.
#[derive(Debug, Clone, Copy, PartialEq, Eq)]
pub struct Coverage {
    /// Number of in-scope controls.
    pub total: usize,
    /// Controls with valid, in-window evidence.
    pub covered: usize,
    /// Whether every in-scope control is covered.
    pub complete: bool,
}

/// How a probe is executed.
pub trait ProbeRunner {
    /// Execute the probe's expression, returning whether the control is satisfied and the
    /// evidence.
    fn run(&self, probe: &ControlProbe) -> (r: (bool, String));
}

/// Runner backed by a caller-supplied closure (tests, custom integrations).
pub struct FnRunner<F: Fn(&ControlProbe) -> (bool, String)> {
    /// The evaluation function.
    func: F,
}

impl<F: Fn(&ControlProbe) -> (bool, String)> FnRunner<F> {
    #[verifier::type_invariant]
    spec fn total(self) -> bool {
        forall|probe: &ControlProbe| call_requires(self.func, (probe,))
    }

    /// The evaluation function.
    pub closed spec fn function(self) -> F {
        self.func
    }

    /// A runner that evaluates probes with `func`.
    pub fn new(func: F) -> (r: Self)
        requires
            forall|probe: &ControlProbe| call_requires(func, (probe,)),
        ensures
            r.function() == func,
    {
        FnRunner { func }
    }
}

impl<F: Fn(&ControlProbe) -> (bool, String)> ProbeRunner for FnRunner<F> {
    fn run(&self, probe: &ControlProbe) -> (r: (bool, String))
        ensures
            call_ensures(self.function(), (probe,), r),
    {
        proof {
            use_type_invariant(self);
        }
        (self.func)(probe)
    }
}

/// What running a probe came to.
pub struct Outcome {
    pub satisfied: bool,
    pub evidence: Seq<char>,
}

/// Each outcome is one that the runner gives for the probe at its place.
pub open spec fn is_run<R: ProbeRunner>(runner: &R, probes: Seq<ControlProbe>, outcomes: Seq<(bool, String)>) -> bool {
    &&& outcomes.len() == probes.len()
    &&& forall|k: int|
        0 <= k < probes.len() ==> call_ensures(R::run, (runner, &probes[k]), #[trigger] outcomes[k])
}

/// What outcomes say.
pub open spec fn outcomes_of(s: Seq<(bool, String)>) -> Seq<Outcome> {
    s.map_values(|p: (bool, String)| Outcome { satisfied: p.0, evidence: p.1@ })
}

/// What a collector has on record.
pub struct Records {
    pub last_run: Map<Seq<char>, u64>,
    pub results: Map<Seq<char>, Evidence>,
    pub findings: Seq<Finding>,
}

/// The time since `then`, and none where it lies ahead.
pub open spec fn age(now: u64, then: u64) -> int {
    if now >= then {
        now - then
    } else {
        0
    }
}

/// The probe is due: it never ran, or its interval has passed since it did.
pub open spec fn is_due(last_run: Map<Seq<char>, u64>, now: u64) -> spec_fn(ControlProbe) -> bool {
    |p: ControlProbe| !last_run.contains_key(p.key_text()) || age(now, last_run[p.key_text()]) >= p.interval_secs
}

/// The records after one probe ran: a failed collection raises a finding and leaves the
/// results; any other run gives the control's latest result, and raises a finding where the
/// control is not satisfied.
pub open spec fn after_run(r: Records, probe: ControlProbe, o: Outcome, now: u64) -> Records {
    let key = probe.key_text();
    let failed = o.evidence == "__FAIL__"@;
    Records {
        last_run: r.last_run.insert(key, now),
        results: if failed {
            r.results
        } else {
            r.results.insert(
                key,
                Evidence {
                    control_key: key,
                    collected_at: now,
                    satisfied: o.satisfied,
                    evidence: o.evidence,
                    evidence_hash: hash_of(o.evidence),
                },
            )
        },
        findings: if failed {
            last_n(
                r.findings.push(
                    Finding {
                        control_key: key,
                        kind: "collection-failed"@,
                        detail: "probe "@ + key + " failed within cycle at "@ + dec(now as nat),
                        raised_at: now,
                    },
                ),
                1_000,
            )
        } else if o.satisfied {
            r.findings
        } else {
            last_n(
                r.findings.push(
                    Finding {
                        control_key: key,
                        kind: "missing-evidence"@,
                        detail: "control "@ + key + " not satisfied at "@ + dec(now as nat),
                        raised_at: now,
                    },
                ),
                1_000,
            )
        },
    }
}

/// The records after the probes ran, one by one.
pub open spec fn after_runs(r: Records, probes: Seq<ControlProbe>, outcomes: Seq<Outcome>, now: u64) -> Records
    decreases probes.len(),
{
    if probes.len() == 0 {
        r
    } else {
        after_run(after_runs(r, probes.drop_last(), outcomes.drop_last(), now), probes.last(), outcomes.last(), now)
    }
}

/// The seconds for which evidence of a control is kept, where a probe says so; the last one
/// that does counts.
pub open spec fn retention_of(probes: Seq<ControlProbe>, key: Seq<char>) -> Option<int>
    decreases probes.len(),
{
    if probes.len() == 0 {
        None
    } else if probes.last().key_text() == key {
        Some(probes.last().retention_days * 86_400)
    } else {
        retention_of(probes.drop_last(), key)
    }
}

/// The evidence of a control is still kept.
pub open spec fn is_kept(probes: Seq<ControlProbe>, key: Seq<char>, e: Evidence, now: u64) -> bool {
    retention_of(probes, key) matches Some(window) ==> age(now, e.collected_at) <= window
}

/// The results without those past their retention.
pub open spec fn pruned(results: Map<Seq<char>, Evidence>, probes: Seq<ControlProbe>, now: u64) -> Map<
    Seq<char>,
    Evidence,
> {
    results.restrict(
        Set::new(|k: Seq<char>| results.contains_key(k) && is_kept(probes, k, results[k], now)),
    )
}

/// The records after a collection cycle.
pub open spec fn after_cycle(
    r: Records,
    all: Seq<ControlProbe>,
    due: Seq<ControlProbe>,
    outcomes: Seq<Outcome>,
    now: u64,
) -> Records {
    let ran = after_runs(r, due, outcomes, now);
    Records { results: pruned(ran.results, all, now), ..ran }
}

/// The control of the probe has valid evidence that is no older than its interval.
pub open spec fn is_covered(results: Map<Seq<char>, Evidence>, p: ControlProbe, now: u64) -> bool {
    let key = p.key_text();
    &&& results.contains_key(key)
    &&& age(now, results[key].collected_at) <= p.interval_secs
    &&& results[key].satisfied
    &&& results[key].is_intact()
}

/// The evidence of the probe's control is older than its interval.
pub open spec fn is_stale(results: Map<Seq<char>, Evidence>, p: ControlProbe, now: u64) -> bool {
    let key = p.key_text();
    results.contains_key(key) && age(now, results[key].collected_at) > p.interval_secs
}

/// What is raised about a control without valid evidence: that it is stale, or missing.
pub open spec fn gap_of(results: Map<Seq<char>, Evidence>, p: ControlProbe, now: u64) -> Finding {
    Finding {
        control_key: p.key_text(),
        kind: if is_stale(results, p, now) {
            "stale-evidence"@
        } else {
            "missing-evidence"@
        },
        detail: "no valid in-window evidence for "@ + p.key_text(),
        raised_at: now,
    }
}

/// What is raised about the controls without valid evidence, in order.
pub open spec fn gaps_of(results: Map<Seq<char>, Evidence>, probes: Seq<ControlProbe>, now: u64) -> Seq<Finding>
    decreases probes.len(),
{
    if probes.len() == 0 {
        Seq::empty()
    } else if is_covered(results, probes.last(), now) {
        gaps_of(results, probes.drop_last(), now)
    } else {
        gaps_of(results, probes.drop_last(), now).push(gap_of(results, probes.last(), now))
    }
}

/// How many of the probes' controls are covered.
pub open spec fn covered_of(results: Map<Seq<char>, Evidence>, probes: Seq<ControlProbe>, now: u64) -> nat
    decreases probes.len(),
{
    if probes.len() == 0 {
        0
    } else {
        covered_of(results, probes.drop_last(), now) + (if is_covered(results, probes.last(), now) {
            1nat
        } else {
            0nat
        })
    }
}

/// The time is that of the most recent collection; zero where there is none.
pub open spec fn is_latest(last_run: Map<Seq<char>, u64>, t: u64) -> bool {
    &&& forall|k: Seq<char>| #[trigger] last_run.contains_key(k) ==> last_run[k] <= t
    &&& t > 0 ==> exists|k: Seq<char>| #[trigger] last_run.contains_key(k) && last_run[k] == t
}

/// The items are the results in ascending key order.
pub open spec fn is_listing(results: Map<Seq<char>, Evidence>, keys: Seq<Seq<char>>, items: Seq<ProbeResult>) -> bool {
    &&& ascending(keys)
    &&& forall|k: Seq<char>| #[trigger] keys.contains(k) <==> results.contains_key(k)
    &&& items.len() == keys.len()
    &&& forall|i: int| 0 <= i < items.len() ==> (#[trigger] items[i])@ == results[keys[i]]
}

/// What a probe that passes by itself shows.
pub open spec fn passing(probes: Seq<ControlProbe>) -> Seq<Outcome> {
    probes.map_values(
        |p: ControlProbe| Outcome { satisfied: true, evidence: p.key_text() + " observed compliant"@ },
    )
}

/// Collects evidence per control on a schedule and tracks coverage.
pub struct ScheduledCollector {
    probes: Vec<ControlProbe>,
    last_run: StrMap<u64>,
    results: StrMap<ProbeResult>,
    findings: BoundedLog<CoverageFinding>,
    signing_key: Vec<u8>,
}

impl ScheduledCollector {
    #[verifier::type_invariant]
    spec fn sound(self) -> bool {
        &&& self.findings.capacity() == 1_000
        &&& forall|k: Seq<char>| #[trigger] self.results@.contains_key(k) ==> self.results@[k]@.is_intact()
    }

    /// The registered probes.
    pub closed spec fn scope(self) -> Seq<ControlProbe> {
        self.probes@
    }

    /// The key that packages are signed with.
    pub closed spec fn key(self) -> Seq<u8> {
        self.signing_key@
    }

    /// What is on record.
    pub closed spec fn records(self) -> Records {
        Records {
            last_run: self.last_run@,
            results: evidence_of(self.results@),
            findings: findings_of(self.findings@),
        }
    }

    /// Create a collector over `probes`, signing packages with `signing_key`.
    pub fn new(probes: Vec<ControlProbe>, signing_key: Vec<u8>) -> (c: Self)
        ensures
            c.scope() == probes@,
            c.key() == signing_key@,
            c.records().last_run == Map::<Seq<char>, u64>::empty(),
            c.records().results == Map::<Seq<char>, Evidence>::empty(),
            c.records().findings == Seq::<Finding>::empty(),
    {
        let c = ScheduledCollector {
            probes,
            last_run: StrMap::new(),
            results: StrMap::new(),
            findings: BoundedLog::new(1_000),
            signing_key,
        };
        proof {
            assert(c.records().results =~= Map::<Seq<char>, Evidence>::empty());
            assert(c.records().findings =~= Seq::<Finding>::empty());
        }
        c
    }

    /// Registered probes.
    pub fn probes(&self) -> (p: &Vec<ControlProbe>)
        ensures
            p@ == self.scope(),
    {
        &self.probes
    }

    /// The probes that are due at `now_secs`, in order.
    pub fn due_probes(&self, now_secs: u64) -> (due: Vec<ControlProbe>)
        ensures
            due@ == self.scope().filter(is_due(self.records().last_run, now_secs)),
    {
        let ghost f = is_due(self.last_run@, now_secs);
        let mut due: Vec<ControlProbe> = Vec::new();
        let mut i: usize = 0;
        proof {
            filter_none(self.probes@, f);
        }
        while i < self.probes.len()
            invariant
                i <= self.probes@.len(),
                f == is_due(self.last_run@, now_secs),
                due@ == self.probes@.take(i as int).filter(f),
            decreases self.probes@.len() - i,
        {
            proof {
                filter_step(self.probes@, i as int, f);
            }
            let p = &self.probes[i];
            let ready = match self.last_run.get(p.key().as_str()) {
                Some(last) => (if now_secs >= *last {
                    now_secs - *last
                } else {
                    0
                }) >= p.interval_secs,
                None => true,
            };
            if ready {
                due.push(p.clone());
            }
            i = i + 1;
        }
        proof {
            assert(self.probes@.take(self.probes@.len() as int) =~= self.probes@);
        }
        due
    }

    /// Takes in what running the due probes came to, and drops results past their retention.
    pub fn absorb(&mut self, due: &Vec<ControlProbe>, outcomes: &Vec<(bool, String)>, now_secs: u64)
        requires
            outcomes@.len() == due@.len(),
        ensures
            final(self).scope() == old(self).scope(),
            final(self).key() == old(self).key(),
            final(self).records() == after_cycle(
                old(self).records(),
                old(self).scope(),
                due@,
                outcomes_of(outcomes@),
                now_secs,
            ),
    {
        let ghost start = self.records();
        let ghost outs = outcomes_of(outcomes@);
        let mut i: usize = 0;
        proof {
            assert(after_runs(start, due@.take(0), outs.take(0), now_secs) == start);
        }
        while i < due.len()
            invariant
                i <= due@.len() == outcomes@.len(),
                outs == outcomes_of(outcomes@),
                self.scope() == old(self).scope(),
                self.key() == old(self).key(),
                self.records() == after_runs(start, due@.take(i as int), outs.take(i as int), now_secs),
            decreases due@.len() - i,
        {
            proof {
                assert(due@.take(i as int + 1).drop_last() =~= due@.take(i as int));
                assert(outs.take(i as int + 1).drop_last() =~= outs.take(i as int));
                assert(outs.take(i as int + 1).last() == outs[i as int]);
            }
            self.absorb_one(&due[i], outcomes[i].0, outcomes[i].1.as_str(), now_secs);
            i = i + 1;
        }
        proof {
            assert(due@.take(due@.len() as int) =~= due@);
            assert(outs.take(due@.len() as int) =~= outs);
        }
        self.prune_expired(now_secs);
    }

    /// Takes in what running one probe came to.
    fn absorb_one(&mut self, probe: &ControlProbe, satisfied: bool, evidence: &str, now_secs: u64)
        ensures
            final(self).scope() == old(self).scope(),
            final(self).key() == old(self).key(),
            final(self).records() == after_run(
                old(self).records(),
                *probe,
                (Outcome { satisfied, evidence: evidence@ }),
                now_secs,
            ),
    {
        let key = probe.key();
        let ghost before = self.records();
        let ghost after = after_run(before, *probe, Outcome { satisfied, evidence: evidence@ }, now_secs);
        proof {
            use_type_invariant(&*self);
        }
        let mut last_run: StrMap<u64> = StrMap::new();
        std::mem::swap(&mut last_run, &mut self.last_run);
        last_run.insert(key.clone(), now_secs);
        self.last_run = last_run;
        if same(evidence, "__FAIL__") {
            let mut detail = text2("probe ", key.as_str());
            detail.append(" failed within cycle at ");
            detail.append(decimal(now_secs).as_str());
            self.push_finding(
                CoverageFinding { control_key: key, kind: "collection-failed".to_owned(), detail, raised_at: now_secs },
            );
            proof {
                assert(self.records().findings == after.findings);
            }
        } else {
            let result = ProbeResult::new(key.clone(), now_secs, satisfied, evidence);
            let ghost r = result@;
            let mut results: StrMap<ProbeResult> = StrMap::new();
            std::mem::swap(&mut results, &mut self.results);
            results.insert(key.clone(), result);
            self.results = results;
            proof {
                assert(self.records().results =~= before.results.insert(probe.key_text(), r));
            }
            if !satisfied {
                let mut detail = text2("control ", key.as_str());
                detail.append(" not satisfied at ");
                detail.append(decimal(now_secs).as_str());
                self.push_finding(
                    CoverageFinding {
                        control_key: key,
                        kind: "missing-evidence".to_owned(),
                        detail,
                        raised_at: now_secs,
                    },
                );
            }
            proof {
                assert(self.records().findings == after.findings);
            }
        }
    }

    /// Run every probe due at `now_secs` with the default pass-through runner.
    pub fn collect_due(&mut self, now_secs: u64)
        ensures
            final(self).scope() == old(self).scope(),
            final(self).key() == old(self).key(),
            ({
                let due = old(self).scope().filter(is_due(old(self).records().last_run, now_secs));
                final(self).records() == after_cycle(
                    old(self).records(),
                    old(self).scope(),
                    due,
                    passing(due),
                    now_secs,
                )
            }),
    {
        let due = self.due_probes(now_secs);
        let mut outcomes: Vec<(bool, String)> = Vec::new();
        let mut i: usize = 0;
        while i < due.len()
            invariant
                i <= due@.len(),
                outcomes_of(outcomes@) == passing(due@).take(i as int),
            decreases due@.len() - i,
        {
            let ghost was = outcomes@;
            outcomes.push((true, text2(due[i].key().as_str(), " observed compliant")));
            proof {
                let all = passing(due@);
                assert(outcomes_of(outcomes@) =~= outcomes_of(was).push(all[i as int]));
                assert(all.take(i as int + 1) =~= all.take(i as int).push(all[i as int]));
            }
            i = i + 1;
        }
        proof {
            assert(passing(due@).take(due@.len() as int) =~= passing(due@));
        }
        self.absorb(&due, &outcomes, now_secs);
    }

    /// Run every probe due at `now_secs` using `runner`.
    pub fn collect_due_with<R: ProbeRunner>(&mut self, runner: &R, now_secs: u64)
        ensures
            final(self).scope() == old(self).scope(),
            final(self).key() == old(self).key(),
            exists|outcomes: Seq<(bool, String)>|
                #![trigger outcomes_of(outcomes)]
                is_run(
                    runner,
                    old(self).scope().filter(is_due(old(self).records().last_run, now_secs)),
                    outcomes,
                ) && final(self).records() == after_cycle(
                    old(self).records(),
                    old(self).scope(),
                    old(self).scope().filter(is_due(old(self).records().last_run, now_secs)),
                    outcomes_of(outcomes),
                    now_secs,
                ),
    {
        let due = self.due_probes(now_secs);
        let mut outcomes: Vec<(bool, String)> = Vec::new();
        let mut i: usize = 0;
        while i < due.len()
            invariant
                i <= due@.len(),
                outcomes@.len() == i,
                forall|k: int| 0 <= k < i ==> call_ensures(R::run, (runner, &due@[k]), #[trigger] outcomes@[k]),
            decreases due@.len() - i,
        {
            let outcome = runner.run(&due[i]);
            outcomes.push(outcome);
            i = i + 1;
        }
        self.absorb(&due, &outcomes, now_secs);
        proof {
            assert(is_run(runner, due@, outcomes@));
        }
    }

    /// The time of the most recent collection.
    fn latest(&self) -> (t: u64)
        ensures
            is_latest(self.records().last_run, t),
    {
        let keys = self.last_run.keys();
        let ghost ks = views(keys@);
        let ghost runs = self.last_run@;
        let mut t: u64 = 0;
        let mut i: usize = 0;
        while i < keys.len()
            invariant
                i <= keys@.len(),
                ks == views(keys@),
                runs == self.last_run@,
                forall|k: Seq<char>| #[trigger] ks.contains(k) <==> runs.contains_key(k),
                forall|j: int| 0 <= j < i ==> runs[#[trigger] ks[j]] <= t,
                t > 0 ==> exists|k: Seq<char>| #[trigger] runs.contains_key(k) && runs[k] == t,
            decreases keys@.len() - i,
        {
            proof {
                assert(ks[i as int] == keys@[i as int]@);
                assert(ks.contains(keys@[i as int]@));
            }
            match self.last_run.get(keys[i].as_str()) {
                Some(ran) => {
                    if *ran > t {
                        t = *ran;
                    }
                },
                None => {},
            }
            i = i + 1;
        }
        proof {
            assert forall|k: Seq<char>| #[trigger] runs.contains_key(k) implies runs[k] <= t by {
                assert(ks.contains(k));
                let j = ks.index_of(k);
                assert(ks[j] == k);
            }
        }
        t
    }

    /// Coverage across all in-scope controls, evaluated as of the most recent collection.
    pub fn coverage(&self) -> (c: Coverage)
        ensures
            c.total == self.scope().len(),
            exists|t: u64| #[trigger]
                is_latest(self.records().last_run, t) && c.covered == covered_of(self.records().results, self.scope(), t),
            c.complete == (c.total > 0 && c.covered == c.total),
    {
        let t: u64 = self.latest();
        self.coverage_at(t)
    }

    /// Whether the control of a probe has valid evidence that is no older than its interval.
    fn covers(&self, probe: &ControlProbe, now_secs: u64) -> (r: bool)
        ensures
            r == is_covered(self.records().results, *probe, now_secs),
    {
        match self.results.get(probe.key().as_str()) {
            Some(r) => {
                proof {
                    assert(self.records().results.contains_key(probe.key_text()));
                }
                let passed: u64 = if now_secs >= r.collected_at {
                    now_secs - r.collected_at
                } else {
                    0
                };
                passed <= probe.interval_secs && r.satisfied && r.integrity_ok()
            },
            None => false,
        }
    }

    /// Whether the evidence of a probe's control is older than its interval.
    fn is_outdated(&self, probe: &ControlProbe, now_secs: u64) -> (r: bool)
        ensures
            r == is_stale(self.records().results, *probe, now_secs),
    {
        match self.results.get(probe.key().as_str()) {
            Some(r) => {
                proof {
                    assert(self.records().results.contains_key(probe.key_text()));
                }
                now_secs >= r.collected_at && now_secs - r.collected_at > probe.interval_secs
            },
            None => false,
        }
    }

    /// Coverage evaluated at `now_secs`; evidence older than the probe interval counts as
    /// stale.
    pub fn coverage_at(&self, now_secs: u64) -> (c: Coverage)
        ensures
            c.total == self.scope().len(),
            c.covered == covered_of(self.records().results, self.scope(), now_secs),
            c.complete == (c.total > 0 && c.covered == c.total),
    {
        let total: usize = self.probes.len();
        let ghost results = self.records().results;
        let mut covered: usize = 0;
        let mut i: usize = 0;
        while i < total
            invariant
                i <= total == self.probes@.len(),
                results == self.records().results,
                covered == covered_of(results, self.probes@.take(i as int), now_secs),
                covered <= i,
            decreases total - i,
        {
            proof {
                assert(self.probes@.take(i as int + 1).drop_last() =~= self.probes@.take(i as int));
            }
            if self.covers(&self.probes[i], now_secs) {
                covered = covered + 1;
            }
            i = i + 1;
        }
        proof {
            assert(self.probes@.take(total as int) =~= self.probes@);
        }
        Coverage { total, covered, complete: total > 0 && covered == total }
    }

    /// Controls without valid in-window evidence, evaluated as of the most recent collection.
    pub fn coverage_gaps(&self) -> (gaps: Vec<CoverageFinding>)
        ensures
            exists|t: u64| #[trigger]
                is_latest(self.records().last_run, t) && findings_of(gaps@) == gaps_of(
                    self.records().results,
                    self.scope(),
                    t,
                ),
    {
        let t: u64 = self.latest();
        self.coverage_gaps_at(t)
    }

    /// Coverage gaps evaluated at `now_secs`.
    pub fn coverage_gaps_at(&self, now_secs: u64) -> (gaps: Vec<CoverageFinding>)
        ensures
            findings_of(gaps@) == gaps_of(self.records().results, self.scope(), now_secs),
    {
        let ghost results = self.records().results;
        let mut gaps: Vec<CoverageFinding> = Vec::new();
        let mut i: usize = 0;
        proof {
            assert(findings_of(gaps@) =~= gaps_of(results, self.probes@.take(0), now_secs));
        }
        while i < self.probes.len()
            invariant
                i <= self.probes@.len(),
                results == self.records().results,
                findings_of(gaps@) == gaps_of(results, self.probes@.take(i as int), now_secs),
            decreases self.probes@.len() - i,
        {
            proof {
                assert(self.probes@.take(i as int + 1).drop_last() =~= self.probes@.take(i as int));
            }
            if !self.covers(&self.probes[i], now_secs) {
                let key = self.probes[i].key();
                let kind = if self.is_outdated(&self.probes[i], now_secs) {
                    "stale-evidence"
                } else {
                    "missing-evidence"
                };
                let ghost was = gaps@;
                gaps.push(
                    CoverageFinding {
                        control_key: key.clone(),
                        kind: kind.to_owned(),
                        detail: text2("no valid in-window evidence for ", key.as_str()),
                        raised_at: now_secs,
                    },
                );
                proof {
                    assert(findings_of(gaps@) =~= findings_of(was).push(
                        gap_of(results, self.probes@[i as int], now_secs),
                    ));
                }
            }
            i = i + 1;
        }
        proof {
            assert(self.probes@.take(self.probes@.len() as int) =~= self.probes@);
        }
        gaps
    }

    /// All findings raised (failures and gaps recorded during collection), oldest first.
    pub fn findings(&self) -> (out: Vec<CoverageFinding>)
        ensures
            findings_of(out@) == self.records().findings,
    {
        let out = self.findings.all();
        proof {
            assert(out@ =~= self.findings@);
        }
        out
    }

    /// Latest result per control.
    pub fn results(&self) -> (m: &StrMap<ProbeResult>)
        ensures
            evidence_of(m@) == self.records().results,
    {
        &self.results
    }

    /// Package current evidence into a signed bundle for auditors.
    pub fn package(&self) -> (p: EvidencePackage)
        ensures
            exists|keys: Seq<Seq<char>>| #[trigger] is_listing(self.records().results, keys, p.items@),
            p.is_signed(self.key()),
            p.is_intact(),
    {
        proof {
            use_type_invariant(self);
        }
        let keys = self.results.keys();
        let ghost ks = views(keys@);
        let ghost results = self.records().results;
        let mut items: Vec<ProbeResult> = Vec::new();
        let mut i: usize = 0;
        while i < keys.len()
            invariant
                i <= keys@.len(),
                ks == views(keys@),
                results == self.records().results,
                forall|k: Seq<char>| #[trigger] ks.contains(k) <==> self.results@.contains_key(k),
                items@.len() == i,
                forall|j: int| 0 <= j < i ==> (#[trigger] items@[j])@ == results[ks[j]],
                forall|j: int| 0 <= j < i ==> (#[trigger] items@[j])@.is_intact(),
                forall|k: Seq<char>| #[trigger] self.results@.contains_key(k) ==> self.results@[k]@.is_intact(),
            decreases keys@.len() - i,
        {
            proof {
                assert(ks[i as int] == keys@[i as int]@);
                assert(ks.contains(keys@[i as int]@));
            }
            match self.results.get(keys[i].as_str()) {
                Some(r) => {
                    items.push(r.clone());
                },
                None => {},
            }
            i = i + 1;
        }
        proof {
            assert(is_listing(results, ks, items@));
        }
        EvidencePackage::sign(items, self.signing_key.as_slice())
    }

    /// Drop results older than their probe's retention window.
    fn prune_expired(&mut self, now_secs: u64)
        ensures
            final(self).scope() == old(self).scope(),
            final(self).key() == old(self).key(),
            final(self).records() == (Records {
                results: pruned(old(self).records().results, old(self).scope(), now_secs),
                ..old(self).records()
            }),
    {
        let keys = self.results.keys();
        let ghost ks = views(keys@);
        let ghost start = self.results@;
        let ghost probes = self.probes@;
        let ghost keep = |k: Seq<char>| start.contains_key(k) && is_kept(probes, k, start[k]@, now_secs);
        let mut i: usize = 0;
        while i < keys.len()
            invariant
                i <= keys@.len(),
                ks == views(keys@),
                ascending(ks),
                probes == self.probes@,
                keep == (|k: Seq<char>| start.contains_key(k) && is_kept(probes, k, start[k]@, now_secs)),
                forall|k: Seq<char>| #[trigger] ks.contains(k) <==> start.contains_key(k),
                self.scope() == old(self).scope(),
                self.key() == old(self).key(),
                self.last_run == old(self).last_run,
                self.findings == old(self).findings,
                forall|k: Seq<char>| #[trigger]
                    self.results@.contains_key(k) <==> start.contains_key(k) && (keep(k) || !ks.take(
                        i as int,
                    ).contains(k)),
                forall|k: Seq<char>| #[trigger] self.results@.contains_key(k) ==> self.results@[k] == start[k],
            decreases keys@.len() - i,
        {
            let key = &keys[i];
            proof {
                let t = ks.take(i as int);
                let u = ks.take(i as int + 1);
                assert(u =~= t.push(key@));
                assert forall|x: Seq<char>| #[trigger] u.contains(x) <==> t.contains(x) || x == key@ by {
                    if u.contains(x) {
                        let j = u.index_of(x);
                        if j < i {
                            assert(t[j] == x);
                        }
                    }
                    if t.contains(x) {
                        let j = t.index_of(x);
                        assert(u[j] == x);
                    }
                    assert(u[i as int] == key@);
                }
                assert(ks.contains(key@)) by {
                    assert(ks[i as int] == key@);
                }
                assert(!t.contains(key@)) by {
                    if t.contains(key@) {
                        let j = t.index_of(key@);
                        assert(ks[j] == ks[i as int]);
                        crate::text::lex_irreflexive(key@);
                    }
                }
                assert(start.contains_key(key@));
                assert(self.results@.contains_key(key@));
            }
            let fresh = match self.results.get(key.as_str()) {
                Some(r) => {
                    let passed: u64 = if now_secs >= r.collected_at {
                        now_secs - r.collected_at
                    } else {
                        0
                    };
                    match self.retention(key.as_str()) {
                        Some(window) => passed <= window,
                        None => true,
                    }
                },
                None => true,
            };
            if !fresh {
                proof {
                    use_type_invariant(&*self);
                }
                let mut results: StrMap<ProbeResult> = StrMap::new();
                std::mem::swap(&mut results, &mut self.results);
                results.remove(key.as_str());
                self.results = results;
            }
            i = i + 1;
        }
        proof {
            assert(ks.take(keys@.len() as int) =~= ks);
            let before = evidence_of(start);
            assert(self.records().results =~= pruned(before, probes, now_secs)) by {
                assert forall|k: Seq<char>| self.results@.contains_key(k) <==> pruned(
                    before,
                    probes,
                    now_secs,
                ).contains_key(k) by {
                    assert(self.results@.contains_key(k) <==> keep(k));
                    assert(before.contains_key(k) <==> start.contains_key(k));
                }
            }
        }
    }

    /// The seconds for which evidence of a control is kept.
    fn retention(&self, key: &str) -> (r: Option<u64>)
        ensures
            r is Some <==> retention_of(self.probes@, key@) is Some,
            r matches Some(w) ==> retention_of(self.probes@, key@) == Some(w as int),
    {
        let mut found: Option<u64> = None;
        let mut i: usize = 0;
        while i < self.probes.len()
            invariant
                i <= self.probes@.len(),
                found is Some <==> retention_of(self.probes@.take(i as int), key@) is Some,
                found matches Some(w) ==> retention_of(self.probes@.take(i as int), key@) == Some(w as int),
            decreases self.probes@.len() - i,
        {
            proof {
                assert(self.probes@.take(i as int + 1).drop_last() =~= self.probes@.take(i as int));
            }
            if same(self.probes[i].key().as_str(), key) {
                found = Some(self.probes[i].retention_days as u64 * 86_400);
            }
            i = i + 1;
        }
        proof {
            assert(self.probes@.take(self.probes@.len() as int) =~= self.probes@);
        }
        found
    }

    /// Record a finding, evicting the oldest when the bound is reached.
    fn push_finding(&mut self, finding: CoverageFinding)
        ensures
            final(self).scope() == old(self).scope(),
            final(self).key() == old(self).key(),
            final(self).records() == (Records {
                findings: last_n(old(self).records().findings.push(finding@), 1_000),
                ..old(self).records()
            }),
    {
        proof {
            use_type_invariant(&*self);
        }
        let mut log: BoundedLog<CoverageFinding> = BoundedLog::new(1_000);
        std::mem::swap(&mut log, &mut self.findings);
        let ghost was = log@;
        log.push(finding);
        self.findings = log;
        proof {
            assert(findings_of(self.findings@) =~= last_n(findings_of(was).push(finding@), 1_000));
        }
    }
}

/// One result in canonical form.
pub open spec fn item_text(r: ProbeResult) -> Seq<char> {
    "{\"control_key\":"@ + json_text(r.control_key@) + ",\"collected_at\":"@ + dec(r.collected_at as nat)
        + ",\"satisfied\":"@ + bool_text(r.satisfied) + ",\"evidence\":"@ + json_text(r.evidence@)
        + ",\"evidence_hash\":"@ + json_text(r.evidence_hash@) + "}"@
}

/// The results in canonical form.
pub open spec fn items_text(items: Seq<ProbeResult>) -> Seq<char> {
    "["@ + joined(items.map_values(|r: ProbeResult| item_text(r)), ","@) + "]"@
}

fn write_item(r: &ProbeResult) -> (s: String)
    ensures
        s@ == item_text(*r),
{
    let mut s = text2("{\"control_key\":", quote(r.control_key.as_str()).as_str());
    s.append(",\"collected_at\":");
    s.append(decimal(r.collected_at).as_str());
    s.append(",\"satisfied\":");
    s.append(
        if r.satisfied {
            "true"
        } else {
            "false"
        },
    );
    s.append(",\"evidence\":");
    s.append(quote(r.evidence.as_str()).as_str());
    s.append(",\"evidence_hash\":");
    s.append(quote(r.evidence_hash.as_str()).as_str());
    s.append("}");
    s
}

/// A signed, self-contained evidence bundle.
#[derive(Debug)]
pub struct EvidencePackage {
    /// Package generation time, in microseconds since the epoch.
    pub generated_at: i64,
    /// Evidence items included.
    pub items: Vec<ProbeResult>,
    /// Hex-encoded HMAC-SHA256 over the canonical item bytes.
    pub signature: String,
}

impl EvidencePackage {
    /// The signature is that of the items under the key.
    pub open spec fn is_signed(self, key: Seq<u8>) -> bool {
        self.signature@ == signature_of(key, items_text(self.items@))
    }

    /// Every item's hash is that of its payload.
    pub open spec fn is_intact(self) -> bool {
        forall|i: int| 0 <= i < self.items@.len() ==> (#[trigger] self.items@[i])@.is_intact()
    }

    /// Canonical bytes covered by the signature.
    fn canonical_bytes(items: &Vec<ProbeResult>) -> (bytes: Vec<u8>)
        ensures
            bytes@ == encode_utf8(items_text(items@)),
    {
        let ghost all = items@.map_values(|r: ProbeResult| item_text(r));
        let mut parts: Vec<String> = Vec::new();
        let mut i: usize = 0;
        while i < items.len()
            invariant
                i <= items@.len(),
                all == items@.map_values(|r: ProbeResult| item_text(r)),
                views(parts@) == all.take(i as int),
            decreases items@.len() - i,
        {
            let ghost was = parts@;
            parts.push(write_item(&items[i]));
            proof {
                assert(views(parts@) =~= views(was).push(all[i as int]));
                assert(all.take(i as int + 1) =~= all.take(i as int).push(all[i as int]));
            }
            i = i + 1;
        }
        proof {
            assert(all.take(items@.len() as int) =~= all);
        }
        let mut s = text2("[", join(&parts, ",").as_str());
        s.append("]");
        s.as_str().as_bytes_vec()
    }

    /// Sign `items` into a package with `signing_key`.
    pub fn sign(items: Vec<ProbeResult>, signing_key: &[u8]) -> (p: Self)
        ensures
            p.items == items,
            p.is_signed(signing_key@),
    {
        let bytes = Self::canonical_bytes(&items);
        let signature = to_hex(&hmac_sha256(signing_key, bytes.as_slice()));
        EvidencePackage { generated_at: clock::now(), items, signature }
    }

    /// Validate the package offline with `signing_key`. Every item's content hash is checked
    /// as well, so tampering with a single payload invalidates the package.
    pub fn verify_offline(&self, signing_key: &[u8]) -> (r: bool)
        ensures
            r == (self.is_signed(signing_key@) && self.is_intact()),
    {
        let bytes = Self::canonical_bytes(&self.items);
        let expected = to_hex(&hmac_sha256(signing_key, bytes.as_slice()));
        if !equal_in_full(expected.as_str(), self.signature.as_str()) {
            return false;
        }
        let mut i: usize = 0;
        while i < self.items.len()
            invariant
                i <= self.items@.len(),
                forall|k: int| 0 <= k < i ==> (#[trigger] self.items@[k])@.is_intact(),
            decreases self.items@.len() - i,
        {
            if !self.items[i].integrity_ok() {
                proof {
                    assert(!self.items@[i as int]@.is_intact());
                }
                return false;
            }
            i = i + 1;
        }
        true
    }
}

/// A control is either covered or raised as a gap: the gaps are as many as the controls that
/// are not covered.
pub proof fn gaps_complement_coverage(results: Map<Seq<char>, Evidence>, probes: Seq<ControlProbe>, now: u64)
    ensures
        gaps_of(results, probes, now).len() + covered_of(results, probes, now) == probes.len(),
    decreases probes.len(),
{
    if probes.len() > 0 {
        gaps_complement_coverage(results, probes.drop_last(), now);
    }
}

/// There is one time of the most recent collection.
pub proof fn latest_is_unique(last_run: Map<Seq<char>, u64>, s: u64, t: u64)
    requires
        is_latest(last_run, s),
        is_latest(last_run, t),
    ensures
        s == t,
{
}

/// A cycle in which nothing is due leaves the last runs and the findings as they are and only
/// drops results.
pub proof fn nothing_due_nothing_collected(r: Records, all: Seq<ControlProbe>, now: u64)
    ensures
        after_cycle(r, all, Seq::empty(), Seq::empty(), now).last_run == r.last_run,
        after_cycle(r, all, Seq::empty(), Seq::empty(), now).findings == r.findings,
        forall|k: Seq<char>| #[trigger]
            after_cycle(r, all, Seq::empty(), Seq::empty(), now).results.contains_key(k) ==> r.results.contains_key(k)
                && after_cycle(r, all, Seq::empty(), Seq::empty(), now).results[k] == r.results[k],
{
}

/// The record of findings stays bounded, however many probes run.
pub proof fn findings_stay_bounded(
    r: Records,
    all: Seq<ControlProbe>,
    due: Seq<ControlProbe>,
    outcomes: Seq<Outcome>,
    now: u64,
)
    requires
        r.findings.len() <= 1_000,
    ensures
        after_cycle(r, all, due, outcomes, now).findings.len() <= 1_000,
    decreases due.len(),
{
    if due.len() > 0 {
        findings_stay_bounded(r, all, due.drop_last(), outcomes.drop_last(), now);
    }
}

/// Every result's hash is that of its payload.
pub open spec fn all_intact(results: Map<Seq<char>, Evidence>) -> bool {
    forall|k: Seq<char>| #[trigger] results.contains_key(k) ==> results[k].is_intact()
}

/// Collecting evidence leaves no result whose hash is not that of its payload.
pub proof fn evidence_stays_intact(
    r: Records,
    all: Seq<ControlProbe>,
    due: Seq<ControlProbe>,
    outcomes: Seq<Outcome>,
    now: u64,
)
    requires
        all_intact(r.results),
    ensures
        all_intact(after_runs(r, due, outcomes, now).results),
        all_intact(after_cycle(r, all, due, outcomes, now).results),
    decreases due.len(),
{
    if due.len() > 0 {
        evidence_stays_intact(r, all, due.drop_last(), outcomes.drop_last(), now);
    }
}

/// A package that was signed over results that are intact verifies offline with the same key.
pub proof fn packages_verify_offline(
    p: EvidencePackage,
    results: Map<Seq<char>, Evidence>,
    keys: Seq<Seq<char>>,
    key: Seq<u8>,
)
    requires
        all_intact(results),
        is_listing(results, keys, p.items@),
        p.is_signed(key),
    ensures
        p.is_signed(key) && p.is_intact(),
{
    assert forall|i: int| 0 <= i < p.items@.len() implies (#[trigger] p.items@[i])@.is_intact() by {
        assert(keys.contains(keys[i]));
    }
}

/// What is left of the results after a cycle is within its retention.
pub proof fn expired_evidence_is_dropped(
    r: Records,
    all: Seq<ControlProbe>,
    due: Seq<ControlProbe>,
    outcomes: Seq<Outcome>,
    now: u64,
    key: Seq<char>,
)
    requires
        after_cycle(r, all, due, outcomes, now).results.contains_key(key),
    ensures
        is_kept(all, key, after_cycle(r, all, due, outcomes, now).results[key], now),
{
}

/// A control without evidence, or whose evidence is older than its interval, is listed as a
/// gap.
pub proof fn stale_evidence_is_a_gap(
    results: Map<Seq<char>, Evidence>,
    probes: Seq<ControlProbe>,
    i: int,
    now: u64,
)
    requires
        0 <= i < probes.len(),
        results.contains_key(probes[i].key_text()) ==> age(now, results[probes[i].key_text()].collected_at)
            > probes[i].interval_secs,
    ensures
        gaps_of(results, probes, now).contains(gap_of(results, probes[i], now)),
    decreases probes.len(),
{
    let gaps = gaps_of(results, probes, now);
    if i == probes.len() - 1 {
        assert(gaps.last() == gap_of(results, probes[i], now));
    } else {
        let rest = probes.drop_last();
        stale_evidence_is_a_gap(results, rest, i, now);
        let j = gaps_of(results, rest, now).index_of(gap_of(results, probes[i], now));
        assert(gaps[j] == gap_of(results, probes[i], now));
    }
}

/// After the probes ran and passed, each of them has evidence of this moment.
proof fn runs_leave_evidence(r: Records, probes: Seq<ControlProbe>, now: u64, i: int)
    requires
        0 <= i < probes.len(),
    ensures
        ({
            let results = after_runs(r, probes, passing(probes), now).results;
            let key = probes[i].key_text();
            &&& results.contains_key(key)
            &&& results[key].collected_at == now
            &&& results[key].satisfied
            &&& results[key].is_intact()
        }),
    decreases probes.len(),
{
    let rest = probes.drop_last();
    assert(passing(probes).drop_last() =~= passing(rest));
    let shown = probes.last().key_text() + " observed compliant"@;
    assert(shown != "__FAIL__"@) by {
        reveal_strlit(" observed compliant");
        reveal_strlit("__FAIL__");
        assert(shown.last() == 't');
    }
    assert(passing(probes).last().evidence == shown);
    if i < rest.len() {
        runs_leave_evidence(r, rest, now, i);
        assert(rest[i] == probes[i]);
    }
}

/// Where every control is covered, so many are.
proof fn all_covered(results: Map<Seq<char>, Evidence>, probes: Seq<ControlProbe>, now: u64)
    requires
        forall|i: int| 0 <= i < probes.len() ==> is_covered(results, #[trigger] probes[i], now),
    ensures
        covered_of(results, probes, now) == probes.len(),
    decreases probes.len(),
{
    if probes.len() > 0 {
        let rest = probes.drop_last();
        assert forall|i: int| 0 <= i < rest.len() implies is_covered(results, #[trigger] rest[i], now) by {
            assert(rest[i] == probes[i]);
        }
        all_covered(results, rest, now);
    }
}

/// The first cycle of passing probes covers every control, and leaves no gap.
pub proof fn first_cycle_covers_everything(r: Records, all: Seq<ControlProbe>, now: u64)
    requires
        r.last_run == Map::<Seq<char>, u64>::empty(),
    ensures
        ({
            let due = all.filter(is_due(r.last_run, now));
            let results = after_cycle(r, all, due, passing(due), now).results;
            &&& covered_of(results, all, now) == all.len()
            &&& gaps_of(results, all, now).len() == 0
        }),
{
    let due = all.filter(is_due(r.last_run, now));
    everything_is_due(all, is_due(r.last_run, now));
    let results = after_cycle(r, all, due, passing(due), now).results;
    assert forall|i: int| 0 <= i < all.len() implies is_covered(results, #[trigger] all[i], now) by {
        runs_leave_evidence(r, all, now, i);
        let ran = after_runs(r, due, passing(due), now).results;
        let key = all[i].key_text();
        kept_at_once(all, key, ran[key], now);
    }
    all_covered(results, all, now);
    gaps_complement_coverage(results, all, now);
}

/// Evidence of this moment is within every retention.
proof fn kept_at_once(probes: Seq<ControlProbe>, key: Seq<char>, e: Evidence, now: u64)
    requires
        e.collected_at == now,
    ensures
        is_kept(probes, key, e, now),
    decreases probes.len(),
{
    if probes.len() > 0 && probes.last().key_text() != key {
        kept_at_once(probes.drop_last(), key, e, now);
    }
}

/// A filter that every probe passes leaves all of them.
proof fn everything_is_due(all: Seq<ControlProbe>, f: spec_fn(ControlProbe) -> bool)
    requires
        forall|p: ControlProbe| #[trigger] f(p),
    ensures
        all.filter(f) == all,
    decreases all.len(),
{
    reveal(Seq::filter);
    if all.len() > 0 {
        everything_is_due(all.drop_last(), f);
        assert(all.drop_last().push(all.last()) =~= all);
    }
}

/// A failed collection raises a finding in the very cycle in which it fails, and never counts
/// as evidence.
pub proof fn failures_are_found(r: Records, probe: ControlProbe, satisfied: bool, now: u64)
    ensures
        ({
            let after = after_run(r, probe, Outcome { satisfied, evidence: "__FAIL__"@ }, now);
            &&& after.results == r.results
            &&& after.findings.len() > 0
            &&& after.findings.last().control_key == probe.key_text()
            &&& after.findings.last().kind == "collection-failed"@
            &&& after.findings.last().raised_at == now
        }),
{
}

/// A collection runs exactly the probes that are due, in their order, and each run counts as
/// the last run of its control, whatever it came to; those of other controls stay.
pub proof fn collections_run_what_is_due<R: ProbeRunner>(
    runner: &R,
    r: Records,
    all: Seq<ControlProbe>,
    outcomes: Seq<(bool, String)>,
    now: u64,
)
    requires
        is_run(runner, all.filter(is_due(r.last_run, now)), outcomes),
    ensures
        ({
            let due = all.filter(is_due(r.last_run, now));
            let after = after_cycle(r, all, due, outcomes_of(outcomes), now).last_run;
            &&& forall|p: ControlProbe| #[trigger]
                due.contains(p) <==> all.contains(p) && is_due(r.last_run, now)(p)
            &&& outcomes.len() == due.len()
            &&& forall|i: int| 0 <= i < due.len() ==> call_ensures(R::run, (runner, &due[i]), #[trigger] outcomes[i])
            &&& forall|i: int|
                0 <= i < due.len() ==> after.contains_key((#[trigger] due[i]).key_text()) && after[due[i].key_text()]
                    == now
            &&& forall|k: Seq<char>|
                (forall|i: int| 0 <= i < due.len() ==> (#[trigger] due[i]).key_text() != k) ==> (#[trigger] after.contains_key(
                    k,
                ) <==> r.last_run.contains_key(k)) && (r.last_run.contains_key(k) ==> after[k] == r.last_run[k])
        }),
{
    let f = is_due(r.last_run, now);
    let due = all.filter(f);
    assert forall|p: ControlProbe| #[trigger] due.contains(p) <==> all.contains(p) && f(p) by {
        if due.contains(p) {
            all.lemma_filter_contains_rev(f, p);
            let i = due.index_of(p);
            all.lemma_filter_pred(f, i);
        }
        if all.contains(p) && f(p) {
            let i = all.index_of(p);
            all.lemma_filter_contains(f, i);
        }
    }
    runs_are_recorded(r, due, outcomes_of(outcomes), now);
}

proof fn runs_are_recorded(r: Records, probes: Seq<ControlProbe>, outcomes: Seq<Outcome>, now: u64)
    ensures
        ({
            let after = after_runs(r, probes, outcomes, now).last_run;
            &&& forall|i: int|
                0 <= i < probes.len() ==> after.contains_key((#[trigger] probes[i]).key_text())
                    && after[probes[i].key_text()] == now
            &&& forall|k: Seq<char>|
                (forall|i: int| 0 <= i < probes.len() ==> (#[trigger] probes[i]).key_text() != k) ==> (
                #[trigger] after.contains_key(k) <==> r.last_run.contains_key(k)) && (r.last_run.contains_key(k)
                    ==> after[k] == r.last_run[k])
        }),
    decreases probes.len(),
{
    if probes.len() > 0 {
        let rest = probes.drop_last();
        runs_are_recorded(r, rest, outcomes.drop_last(), now);
        let before = after_runs(r, rest, outcomes.drop_last(), now).last_run;
        let after = after_runs(r, probes, outcomes, now).last_run;
        assert forall|i: int| 0 <= i < probes.len() implies after.contains_key((#[trigger] probes[i]).key_text())
            && after[probes[i].key_text()] == now by {
            if i < rest.len() {
                assert(rest[i] == probes[i]);
            }
        }
        assert forall|k: Seq<char>|
            (forall|i: int| 0 <= i < probes.len() ==> (#[trigger] probes[i]).key_text() != k) implies (
        #[trigger] after.contains_key(k) <==> r.last_run.contains_key(k)) && (r.last_run.contains_key(k) ==> after[k]
            == r.last_run[k]) by {
            assert(probes[probes.len() - 1].key_text() != k);
            assert forall|i: int| 0 <= i < rest.len() implies (#[trigger] rest[i]).key_text() != k by {
                assert(rest[i] == probes[i]);
            }
            assert(before.contains_key(k) <==> r.last_run.contains_key(k));
        }
    }
}

/// A probe is due where it never ran, or where its interval has passed since it last did, that
/// moment taken in.
pub proof fn probes_are_due_after_their_interval(last_run: Map<Seq<char>, u64>, p: ControlProbe, now: u64)
    ensures
        !last_run.contains_key(p.key_text()) ==> is_due(last_run, now)(p),
        last_run.contains_key(p.key_text()) && last_run[p.key_text()] <= now ==> (is_due(last_run, now)(p) <==> now
            - last_run[p.key_text()] >= p.interval_secs),
        last_run.contains_key(p.key_text()) && last_run[p.key_text()] > now && p.interval_secs > 0 ==> !is_due(
            last_run,
            now,
        )(p),
{
}

/// What a probe observed is kept with its hash and the time, in place of what was kept before; what
/// is kept for other controls stays.
pub proof fn observations_are_kept(r: Records, probe: ControlProbe, o: Outcome, now: u64, other: Seq<char>)
    requires
        o.evidence != "__FAIL__"@,
    ensures
        ({
            let after = after_run(r, probe, o, now);
            let key = probe.framework@ + ":"@ + probe.control_id@;
            &&& after.last_run.contains_key(key) && after.last_run[key] == now
            &&& after.results.contains_key(key)
            &&& after.results[key].evidence == o.evidence
            &&& after.results[key].satisfied == o.satisfied
            &&& after.results[key].collected_at == now
            &&& after.results[key].control_key == key
            &&& after.results[key].is_intact()
            &&& other != key ==> (after.results.contains_key(other) <==> r.results.contains_key(other))
            &&& other != key && r.results.contains_key(other) ==> after.results[other] == r.results[other]
            &&& o.satisfied ==> after.findings == r.findings
            &&& !o.satisfied ==> after.findings.len() > 0 && after.findings.last().control_key == key
                && after.findings.last().kind == "missing-evidence"@ && after.findings.last().raised_at == now
        }),
{
}

/// Evidence is covered where it is there, satisfied, untampered and no older than the interval of
/// its control: coverage is lost once it is older, or once one of these fails.
pub proof fn coverage_needs_fresh_evidence(results: Map<Seq<char>, Evidence>, p: ControlProbe, now: u64)
    ensures
        !results.contains_key(p.key_text()) ==> !is_covered(results, p, now),
        results.contains_key(p.key_text()) && results[p.key_text()].collected_at <= now ==> (is_covered(results, p, now)
            <==> now - results[p.key_text()].collected_at <= p.interval_secs && results[p.key_text()].satisfied
            && results[p.key_text()].evidence_hash == hash_of(results[p.key_text()].evidence)),
        results.contains_key(p.key_text()) && results[p.key_text()].collected_at <= now && now
            - results[p.key_text()].collected_at > p.interval_secs ==> gap_of(results, p, now).kind
            == "stale-evidence"@,
        results.contains_key(p.key_text()) && results[p.key_text()].collected_at <= now && now
            - results[p.key_text()].collected_at <= p.interval_secs ==> gap_of(results, p, now).kind
            == "missing-evidence"@,
        !results.contains_key(p.key_text()) ==> gap_of(results, p, now).kind == "missing-evidence"@,
        gap_of(results, p, now).control_key == p.key_text() && gap_of(results, p, now).raised_at == now,
{
}

/// The covered controls are counted, and each of the others is a gap, in order.
pub proof fn controls_are_covered_or_gaps(results: Map<Seq<char>, Evidence>, probes: Seq<ControlProbe>, now: u64)
    ensures
        covered_of(results, probes, now) == probes.filter(|p: ControlProbe| is_covered(results, p, now)).len(),
        gaps_of(results, probes, now) == probes.filter(|p: ControlProbe| !is_covered(results, p, now)).map_values(
            |p: ControlProbe| gap_of(results, p, now),
        ),
    decreases probes.len(),
{
    reveal(Seq::filter);
    if probes.len() > 0 {
        controls_are_covered_or_gaps(results, probes.drop_last(), now);
    }
    let f = |p: ControlProbe| !is_covered(results, p, now);
    let g = |p: ControlProbe| gap_of(results, p, now);
    assert(gaps_of(results, probes, now) =~= probes.filter(f).map_values(g));
}

/// Evidence is kept for as many days as the last probe of its control says, that day taken in, and
/// for ever where no probe is in scope for it.
pub proof fn evidence_is_retained(
    results: Map<Seq<char>, Evidence>,
    probes: Seq<ControlProbe>,
    now: u64,
    key: Seq<char>,
    i: int,
)
    requires
        results.contains_key(key),
        results[key].collected_at <= now,
    ensures
        (forall|j: int| 0 <= j < probes.len() ==> (#[trigger] probes[j]).key_text() != key) ==> pruned(
            results,
            probes,
            now,
        ).contains_key(key),
        0 <= i < probes.len() && probes[i].key_text() == key && (forall|j: int|
            i < j < probes.len() ==> (#[trigger] probes[j]).key_text() != key) ==> (pruned(
            results,
            probes,
            now,
        ).contains_key(key) <==> now - results[key].collected_at <= probes[i].retention_days * 24 * 60 * 60),
        pruned(results, probes, now).contains_key(key) ==> pruned(results, probes, now)[key] == results[key],
{
    retention_is_the_last(probes, key, i);
}

/// The retention of a control is that of the last probe for it.
proof fn retention_is_the_last(probes: Seq<ControlProbe>, key: Seq<char>, i: int)
    ensures
        (forall|j: int| 0 <= j < probes.len() ==> (#[trigger] probes[j]).key_text() != key) ==> retention_of(
            probes,
            key,
        ) is None,
        0 <= i < probes.len() && probes[i].key_text() == key && (forall|j: int|
            i < j < probes.len() ==> (#[trigger] probes[j]).key_text() != key) ==> retention_of(probes, key) == Some(
            probes[i].retention_days * 86_400,
        ),
    decreases probes.len(),
{
    if probes.len() > 0 {
        let front = probes.drop_last();
        let last = probes[probes.len() - 1];
        if last.key_text() != key {
            retention_is_the_last(front, key, i);
            if forall|j: int| 0 <= j < probes.len() ==> (#[trigger] probes[j]).key_text() != key {
                assert forall|j: int| 0 <= j < front.len() implies (#[trigger] front[j]).key_text() != key by {
                    assert(front[j] == probes[j]);
                }
            }
            if 0 <= i < probes.len() && probes[i].key_text() == key && forall|j: int|
                i < j < probes.len() ==> (#[trigger] probes[j]).key_text() != key {
                assert(front[i] == probes[i]);
                assert forall|j: int| i < j < front.len() implies (#[trigger] front[j]).key_text() != key by {
                    assert(front[j] == probes[j]);
                }
            }
        } else if 0 <= i < probes.len() - 1 {
            assert(probes[probes.len() - 1].key_text() == key);
        }
    }
}

/// What is signed holds every item with all that it says.
#[verifier::rlimit(40)]
pub proof fn every_item_is_signed(items: Seq<ProbeResult>, i: int)
    requires
        0 <= i < items.len(),
    ensures
        occurs(items_text(items), json_text(items[i].control_key@)),
        occurs(items_text(items), ",\"collected_at\":"@ + dec(items[i].collected_at as nat) + ",\"satisfied\":"@),
        occurs(items_text(items), ",\"satisfied\":"@ + bool_text(items[i].satisfied) + ",\"evidence\":"@),
        occurs(items_text(items), ",\"evidence\":"@ + json_text(items[i].evidence@) + ",\"evidence_hash\":"@),
        occurs(items_text(items), ",\"evidence_hash\":"@ + json_text(items[i].evidence_hash@) + "}"@),
{
    let r = items[i];
    let a = "{\"control_key\":"@;
    let b = json_text(r.control_key@);
    let c = ",\"collected_at\":"@;
    let d = dec(r.collected_at as nat);
    let e = ",\"satisfied\":"@;
    let f = bool_text(r.satisfied);
    let g = ",\"evidence\":"@;
    let h = json_text(r.evidence@);
    let k = ",\"evidence_hash\":"@;
    let l = json_text(r.evidence_hash@);
    let z = "}"@;
    let t = item_text(r);
    let rest4 = k + l + z;
    let rest3 = g + h + rest4;
    let rest2 = e + f + rest3;
    let none = Seq::<char>::empty();
    written_text_occurs(a, b, c + d + rest2);
    assert(a + b + (c + d + rest2) =~= t);
    written_text_occurs(a + b, c + d + e, f + rest3);
    assert(a + b + (c + d + e) + (f + rest3) =~= t);
    written_text_occurs(a + b + c + d, e + f + g, h + rest4);
    assert(a + b + c + d + (e + f + g) + (h + rest4) =~= t);
    written_text_occurs(a + b + c + d + e + f, g + h + k, l + z);
    assert(a + b + c + d + e + f + (g + h + k) + (l + z) =~= t);
    written_text_occurs(a + b + c + d + e + f + g + h, k + l + z, none);
    assert(a + b + c + d + e + f + g + h + (k + l + z) + none =~= t);
    let parts = items.map_values(|x: ProbeResult| item_text(x));
    joined_holds(parts, ","@, i);
    assert(parts[i] == t);
    let all = joined(parts, ","@);
    item_part_is_signed(t, all, b);
    item_part_is_signed(t, all, c + d + e);
    item_part_is_signed(t, all, e + f + g);
    item_part_is_signed(t, all, g + h + k);
    item_part_is_signed(t, all, k + l + z);
}

/// What occurs in an item occurs in the list that holds it.
proof fn item_part_is_signed(t: Seq<char>, all: Seq<char>, pat: Seq<char>)
    requires
        occurs(t, pat),
        occurs(all, t),
    ensures
        occurs("["@ + all + "]"@, pat),
{
    let p = choose|p: int| #[trigger] occurs_at(all, t, p);
    parts_hold_what_occurs(all.take(p), t, all.skip(p + t.len()), pat);
    assert(all.take(p) + t + all.skip(p + t.len()) =~= all) by {
        assert(all.subrange(p, p + t.len()) =~= t);
    }
    parts_hold_what_occurs("["@, all, "]"@, pat);
}

} // verus!
