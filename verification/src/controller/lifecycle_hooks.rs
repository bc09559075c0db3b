//! Lifecycle hooks for workload startup and shutdown.
//!
//! Within a phase hooks run one after the other, sorted by `(order, name)`. A failing
//! `Block` hook stops the phase; `Warn` failures are recorded and the phase goes on.
//! Setup and readiness hooks can re-run, so they must be declared idempotent.
//! Teardown hooks share the pod's termination grace period: each hook's timeout is
//! clipped to what is left of it, and hooks that no longer fit are skipped.

use vstd::prelude::*;
#[allow(unused_imports)]
use vstd::string::*;
#[allow(unused_imports)]
use crate::ranking::{is_ranked, positions, rank, ranking_is_unique, Ranking};
use crate::span::Duration;
#[allow(unused_imports)]
use crate::text::{
    before, dec, decimal, decimal_wide, lex_irreflexive, lex_lt, lex_total, lex_transitive, replace, replaced, same,
    views,
};

verus! {

/// Env var carrying the JSON-encoded hook list to the runner.
pub const HOOKS_ENV: &'static str = "STELLAR_HOOKS";

/// Env var carrying the teardown budget (seconds) to the runner.
pub const GRACE_ENV: &'static str = "STELLAR_HOOKS_GRACE_SECONDS";

/// Mount path of the shared volume holding the runner binary and metrics.
pub const HOOKS_DIR: &'static str = "/stellar-hooks";

/// Name of the shared volume.
pub const HOOKS_VOLUME: &'static str = "stellar-hooks";

/// Path of the installed runner.
pub const RUNNER_PATH: &'static str = "/stellar-hooks/stellar-hooks";

/// Lifecycle phase a hook belongs to, in execution order.
#[derive(Debug, Clone, Copy, PartialEq, Eq, Structural, Hash, PartialOrd, Ord)]
pub enum HookPhase {
    Setup,
    Readiness,
    Teardown,
}

/// What a hook failure does to its phase.
#[derive(Debug, Clone, Copy, PartialEq, Eq, Structural)]
pub enum FailurePolicy {
    /// Stop the phase; setup fails the pod, readiness keeps it NotReady.
    Block,
    /// Record the failure and continue.
    Warn,
}

impl HookPhase {
    /// The name of the phase.
    pub open spec fn label(self) -> Seq<char> {
        match self {
            HookPhase::Setup => "setup"@,
            HookPhase::Readiness => "readiness"@,
            HookPhase::Teardown => "teardown"@,
        }
    }

    /// The name of the phase.
    pub fn as_str(self) -> (s: &'static str)
        ensures
            s@ == self.label(),
    {
        match self {
            HookPhase::Setup => "setup",
            HookPhase::Readiness => "readiness",
            HookPhase::Teardown => "teardown",
        }
    }

    /// The phase called `s`.
    pub fn parse(s: &str) -> (r: Option<Self>)
        ensures
            match r {
                Some(p) => s@ == p.label(),
                None => forall|p: HookPhase| s@ != #[trigger] p.label(),
            },
    {
        if same(s, "setup") {
            Some(HookPhase::Setup)
        } else if same(s, "readiness") {
            Some(HookPhase::Readiness)
        } else if same(s, "teardown") {
            Some(HookPhase::Teardown)
        } else {
            None
        }
    }

    /// The policy of a hook of this phase that declares none.
    pub open spec fn usual_policy(self) -> FailurePolicy {
        match self {
            HookPhase::Teardown => FailurePolicy::Warn,
            _ => FailurePolicy::Block,
        }
    }

    /// Failure policy used when a hook does not declare one.
    pub fn default_policy(self) -> (p: FailurePolicy)
        ensures
            p == self.usual_policy(),
    {
        match self {
            HookPhase::Setup | HookPhase::Readiness => FailurePolicy::Block,
            HookPhase::Teardown => FailurePolicy::Warn,
        }
    }
}

/// Phase names are all different, so a name gives back its phase.
pub proof fn phase_labels_differ(a: HookPhase, b: HookPhase)
    requires
        a.label() == b.label(),
    ensures
        a == b,
{
    reveal_strlit("setup");
    reveal_strlit("readiness");
    reveal_strlit("teardown");
    assert("setup"@.len() == 5);
    assert("readiness"@.len() == 9);
    assert("teardown"@.len() == 8);
}

/// A declared lifecycle hook.
#[derive(Debug, Clone, PartialEq, Eq)]
pub struct LifecycleHook {
    pub name: String,
    pub phase: HookPhase,
    /// Lower runs first; ties are broken by name.
    pub order: i32,
    pub command: Vec<String>,
    pub timeout_seconds: u64,
    pub failure_policy: Option<FailurePolicy>,
    /// The hook is safe to run more than once.
    pub idempotent: bool,
}

impl LifecycleHook {
    /// The declared policy, else that of the phase.
    pub open spec fn effective_policy(self) -> FailurePolicy {
        match self.failure_policy {
            Some(p) => p,
            None => self.phase.usual_policy(),
        }
    }

    /// The declared policy, else that of the phase.
    pub fn policy(&self) -> (p: FailurePolicy)
        ensures
            p == self.effective_policy(),
    {
        match self.failure_policy {
            Some(p) => p,
            None => self.phase.default_policy(),
        }
    }
}

/// Why a set of hooks is refused.
#[derive(Debug, Clone, PartialEq, Eq)]
pub enum HookValidationError {
    DuplicateName(String),
    EmptyCommand(String),
    ZeroTimeout(String),
    NotIdempotent(String),
    TeardownExceedsGrace { needed: u64, grace: u64 },
}

/// The words of each error.
pub open spec fn validation_text(e: HookValidationError) -> Seq<char> {
    match e {
        HookValidationError::DuplicateName(n) => "duplicate hook name '"@ + n@ + "'"@,
        HookValidationError::EmptyCommand(n) => "hook '"@ + n@ + "' has an empty command"@,
        HookValidationError::ZeroTimeout(n) => "hook '"@ + n@ + "' must have a timeout greater than zero"@,
        HookValidationError::NotIdempotent(n) => "hook '"@ + n@
            + "' runs in a re-entrant phase and must be idempotent"@,
        HookValidationError::TeardownExceedsGrace { needed, grace } => "teardown hooks need "@ + dec(
            needed as nat,
        ) + "s but the grace period is "@ + dec(grace as nat) + "s"@,
    }
}

impl HookValidationError {
    /// The error in words.
    pub fn message(&self) -> (out: String)
        ensures
            out@ == validation_text(*self),
    {
        match self {
            HookValidationError::DuplicateName(n) => {
                let mut out = "duplicate hook name '".to_owned();
                out.append(n.as_str());
                out.append("'");
                out
            },
            HookValidationError::EmptyCommand(n) => {
                let mut out = "hook '".to_owned();
                out.append(n.as_str());
                out.append("' has an empty command");
                out
            },
            HookValidationError::ZeroTimeout(n) => {
                let mut out = "hook '".to_owned();
                out.append(n.as_str());
                out.append("' must have a timeout greater than zero");
                out
            },
            HookValidationError::NotIdempotent(n) => {
                let mut out = "hook '".to_owned();
                out.append(n.as_str());
                out.append("' runs in a re-entrant phase and must be idempotent");
                out
            },
            HookValidationError::TeardownExceedsGrace { needed, grace } => {
                let mut out = "teardown hooks need ".to_owned();
                out.append(decimal(*needed).as_str());
                out.append("s but the grace period is ");
                out.append(decimal(*grace).as_str());
                out.append("s");
                out
            },
        }
    }
}

/// What can be wrong with one hook, in the order in which it is looked for.
pub enum Fault {
    Duplicate,
    EmptyCommand,
    ZeroTimeout,
    NotIdempotent,
}

/// An earlier hook has the name of hook `i`.
pub open spec fn repeats_name(hooks: Seq<LifecycleHook>, i: int) -> bool {
    exists|j: int| 0 <= j < i && #[trigger] hooks[j].name@ == hooks[i].name@
}

/// The first thing wrong with hook `i`.
pub open spec fn fault(hooks: Seq<LifecycleHook>, i: int) -> Option<Fault> {
    if repeats_name(hooks, i) {
        Some(Fault::Duplicate)
    } else if hooks[i].command@.len() == 0 {
        Some(Fault::EmptyCommand)
    } else if hooks[i].timeout_seconds == 0 {
        Some(Fault::ZeroTimeout)
    } else if hooks[i].phase != HookPhase::Teardown && !hooks[i].idempotent {
        Some(Fault::NotIdempotent)
    } else {
        None
    }
}

/// Hook `i` is the first with something wrong, and that is `f`.
pub open spec fn first_fault(hooks: Seq<LifecycleHook>, i: int, f: Fault) -> bool {
    &&& 0 <= i < hooks.len()
    &&& fault(hooks, i) == Some(f)
    &&& forall|j: int| 0 <= j < i ==> #[trigger] fault(hooks, j) is None
}

/// No hook has anything wrong.
pub open spec fn faultless(hooks: Seq<LifecycleHook>) -> bool {
    forall|j: int| 0 <= j < hooks.len() ==> #[trigger] fault(hooks, j) is None
}

/// The timeouts of the hooks of `phase` together.
pub open spec fn total_timeout(hooks: Seq<LifecycleHook>, phase: HookPhase) -> int
    decreases hooks.len(),
{
    if hooks.len() == 0 {
        0
    } else {
        total_timeout(hooks.drop_last(), phase) + if hooks.last().phase == phase {
            hooks.last().timeout_seconds as int
        } else {
            0
        }
    }
}

/// Fewer hooks need no more time.
pub proof fn total_timeout_grows(hooks: Seq<LifecycleHook>, phase: HookPhase, k: int)
    requires
        0 <= k <= hooks.len(),
    ensures
        0 <= total_timeout(hooks.take(k), phase) <= total_timeout(hooks, phase),
    decreases hooks.len(),
{
    if hooks.len() == 0 {
        assert(hooks.take(k) =~= hooks);
    } else if k == hooks.len() {
        assert(hooks.take(k) =~= hooks);
        total_timeout_grows(hooks.drop_last(), phase, k - 1);
    } else {
        assert(hooks.drop_last().take(k) =~= hooks.take(k));
        total_timeout_grows(hooks.drop_last(), phase, k);
    }
}

/// The timeouts of the hooks of `phase` together.
fn sum_timeouts(hooks: &[LifecycleHook], phase: HookPhase) -> (total: u64)
    requires
        total_timeout(hooks@, phase) <= u64::MAX,
    ensures
        total == total_timeout(hooks@, phase),
{
    let mut total: u64 = 0;
    let mut i: usize = 0;
    while i < hooks.len()
        invariant
            i <= hooks@.len(),
            total == total_timeout(hooks@.take(i as int), phase),
            total_timeout(hooks@, phase) <= u64::MAX,
        decreases hooks@.len() - i,
    {
        proof {
            assert(hooks@.take(i as int + 1).drop_last() =~= hooks@.take(i as int));
            total_timeout_grows(hooks@, phase, i as int + 1);
        }
        if hooks[i].phase == phase {
            total = total + hooks[i].timeout_seconds;
        }
        i = i + 1;
    }
    proof {
        assert(hooks@.take(hooks@.len() as int) =~= hooks@);
    }
    total
}

/// What each validation error says of the hooks.
pub open spec fn refused_for(hooks: Seq<LifecycleHook>, grace_seconds: u64, e: HookValidationError) -> bool {
    match e {
        HookValidationError::DuplicateName(n) => exists|i: int| #[trigger]
            first_fault(hooks, i, Fault::Duplicate) && n@ == hooks[i].name@,
        HookValidationError::EmptyCommand(n) => exists|i: int| #[trigger]
            first_fault(hooks, i, Fault::EmptyCommand) && n@ == hooks[i].name@,
        HookValidationError::ZeroTimeout(n) => exists|i: int| #[trigger]
            first_fault(hooks, i, Fault::ZeroTimeout) && n@ == hooks[i].name@,
        HookValidationError::NotIdempotent(n) => exists|i: int| #[trigger]
            first_fault(hooks, i, Fault::NotIdempotent) && n@ == hooks[i].name@,
        HookValidationError::TeardownExceedsGrace { needed, grace } => {
            &&& faultless(hooks)
            &&& needed == total_timeout(hooks, HookPhase::Teardown)
            &&& grace == grace_seconds
            &&& needed > grace
        },
    }
}

/// The hooks are accepted: nothing is wrong with any, and teardown fits the grace period.
pub open spec fn acceptable(hooks: Seq<LifecycleHook>, grace_seconds: u64) -> bool {
    faultless(hooks) && total_timeout(hooks, HookPhase::Teardown) <= grace_seconds
}

/// Validate hooks against the pod's termination grace period.
pub fn validate(hooks: &[LifecycleHook], grace_period_seconds: u64) -> (r: Result<(), HookValidationError>)
    requires
        faultless(hooks@) ==> total_timeout(hooks@, HookPhase::Teardown) <= u64::MAX,
    ensures
        r is Ok <==> acceptable(hooks@, grace_period_seconds),
        r matches Err(e) ==> refused_for(hooks@, grace_period_seconds, e),
{
    let mut i: usize = 0;
    while i < hooks.len()
        invariant
            i <= hooks@.len(),
            forall|j: int| 0 <= j < i ==> #[trigger] fault(hooks@, j) is None,
        decreases hooks@.len() - i,
    {
        let h = &hooks[i];
        let mut j: usize = 0;
        while j < i
            invariant
                j <= i < hooks@.len(),
                *h == hooks@[i as int],
                forall|k: int| 0 <= k < i ==> #[trigger] fault(hooks@, k) is None,
                forall|k: int| 0 <= k < j ==> #[trigger] hooks@[k].name@ != h.name@,
            decreases i - j,
        {
            if same(hooks[j].name.as_str(), h.name.as_str()) {
                proof {
                    assert(repeats_name(hooks@, i as int));
                    assert(first_fault(hooks@, i as int, Fault::Duplicate));
                }
                return Err(HookValidationError::DuplicateName(h.name.clone()));
            }
            j = j + 1;
        }
        if h.command.len() == 0 {
            proof {
                assert(first_fault(hooks@, i as int, Fault::EmptyCommand));
            }
            return Err(HookValidationError::EmptyCommand(h.name.clone()));
        }
        if h.timeout_seconds == 0 {
            proof {
                assert(first_fault(hooks@, i as int, Fault::ZeroTimeout));
            }
            return Err(HookValidationError::ZeroTimeout(h.name.clone()));
        }
        if h.phase != HookPhase::Teardown && !h.idempotent {
            proof {
                assert(first_fault(hooks@, i as int, Fault::NotIdempotent));
            }
            return Err(HookValidationError::NotIdempotent(h.name.clone()));
        }
        i = i + 1;
    }
    let needed: u64 = sum_timeouts(hooks, HookPhase::Teardown);
    if needed > grace_period_seconds {
        return Err(HookValidationError::TeardownExceedsGrace { needed, grace: grace_period_seconds });
    }
    Ok(())
}

/// Hook `a` runs before hook `b`: by order, then by name, then as declared.
pub open spec fn runs_before(hooks: Seq<LifecycleHook>, a: int, b: int) -> bool {
    let x = hooks[a];
    let y = hooks[b];
    ||| x.order < y.order
    ||| x.order == y.order && lex_lt(x.name@, y.name@)
    ||| x.order == y.order && x.name@ == y.name@ && a < b
}

/// `at` lists the positions of the hooks of `phase`, in the order they run.
pub open spec fn is_run_order(hooks: Seq<LifecycleHook>, phase: HookPhase, at: Seq<int>) -> bool {
    &&& forall|k: int| 0 <= k < at.len() ==> 0 <= #[trigger] at[k] < hooks.len() && hooks[at[k]].phase == phase
    &&& forall|i: int| 0 <= i < hooks.len() && #[trigger] hooks[i].phase == phase ==> at.contains(i)
    &&& forall|k: int, l: int| 0 <= k < l < at.len() ==> runs_before(hooks, #[trigger] at[k], #[trigger] at[l])
}

/// The hooks at the positions `at`.
pub open spec fn pick(hooks: Seq<LifecycleHook>, at: Seq<int>) -> Seq<LifecycleHook> {
    at.map_values(|i: int| hooks[i])
}

/// The hooks of one phase as a ranking.
struct PhaseRanking<'a> {
    hooks: &'a [LifecycleHook],
    phase: HookPhase,
}

impl<'a> Ranking for PhaseRanking<'a> {
    closed spec fn size(&self) -> int {
        self.hooks@.len() as int
    }

    closed spec fn picked(&self, i: int) -> bool {
        self.hooks@[i].phase == self.phase
    }

    closed spec fn precedes(&self, a: int, b: int) -> bool {
        runs_before(self.hooks@, a, b)
    }

    proof fn strict(&self, a: int, b: int, c: int) {
        runs_before_strict(self.hooks@, a, b, c);
    }

    fn count(&self) -> (n: usize) {
        self.hooks.len()
    }

    fn takes_part(&self, i: usize) -> (r: bool) {
        self.hooks[i].phase == self.phase
    }

    fn first(&self, a: usize, b: usize) -> (r: bool) {
        comes_first(self.hooks, a, b)
    }
}

/// The run order of a phase is unique.
pub proof fn run_order_is_unique(hooks: &[LifecycleHook], phase: HookPhase, a: Seq<int>, b: Seq<int>)
    requires
        is_run_order(hooks@, phase, a),
        is_run_order(hooks@, phase, b),
    ensures
        a == b,
{
    let r = PhaseRanking { hooks, phase };
    assert(is_ranked(&r, a));
    assert(is_ranked(&r, b));
    ranking_is_unique(&r, a, b);
}

/// Running before is a strict order.
proof fn runs_before_strict(hooks: Seq<LifecycleHook>, a: int, b: int, c: int)
    ensures
        !runs_before(hooks, a, a),
        !(runs_before(hooks, a, b) && runs_before(hooks, b, a)),
        runs_before(hooks, a, b) && runs_before(hooks, b, c) ==> runs_before(hooks, a, c),
        a != b ==> runs_before(hooks, a, b) || runs_before(hooks, b, a),
{
    lex_irreflexive(hooks[a].name@);
    lex_total(hooks[a].name@, hooks[b].name@);
    if lex_lt(hooks[a].name@, hooks[b].name@) && lex_lt(hooks[b].name@, hooks[c].name@) {
        lex_transitive(hooks[a].name@, hooks[b].name@, hooks[c].name@);
    }
}

/// Whether hook `a` runs before hook `b`.
fn comes_first(hooks: &[LifecycleHook], a: usize, b: usize) -> (r: bool)
    requires
        a < hooks@.len(),
        b < hooks@.len(),
    ensures
        r == runs_before(hooks@, a as int, b as int),
{
    let x = &hooks[a];
    let y = &hooks[b];
    if x.order != y.order {
        x.order < y.order
    } else if same(x.name.as_str(), y.name.as_str()) {
        proof {
            lex_irreflexive(x.name@);
        }
        a < b
    } else {
        before(x.name.as_str(), y.name.as_str())
    }
}

/// The positions of the hooks of `phase`, in the order they run.
fn run_order(hooks: &[LifecycleHook], phase: HookPhase) -> (at: Vec<usize>)
    ensures
        is_run_order(hooks@, phase, positions(at@)),
{
    let r = PhaseRanking { hooks, phase };
    let at = rank(&r);
    proof {
        let p = positions(at@);
        assert forall|i: int| 0 <= i < hooks@.len() && #[trigger] hooks@[i].phase == phase implies p.contains(i) by {
            assert(r.picked(i));
        }
        assert forall|k: int, l: int| 0 <= k < l < p.len() implies runs_before(
            hooks@,
            #[trigger] p[k],
            #[trigger] p[l],
        ) by {
            assert(r.precedes(p[k], p[l]));
        }
        assert forall|k: int| 0 <= k < p.len() implies 0 <= #[trigger] p[k] < hooks@.len() && hooks@[p[k]].phase
            == phase by {
            assert(r.picked(p[k]));
        }
    }
    at
}

/// Hooks of `phase` in execution order.
pub fn ordered(hooks: &[LifecycleHook], phase: HookPhase) -> (out: Vec<&LifecycleHook>)
    ensures
        exists|at: Seq<int>| #[trigger]
            is_run_order(hooks@, phase, at) && out@.map_values(|h: &LifecycleHook| *h) == pick(hooks@, at),
{
    let at = run_order(hooks, phase);
    let mut out: Vec<&LifecycleHook> = Vec::new();
    let mut k: usize = 0;
    while k < at.len()
        invariant
            k <= at@.len(),
            is_run_order(hooks@, phase, positions(at@)),
            out@.len() == k,
            forall|j: int| 0 <= j < k ==> *#[trigger] out@[j] == hooks@[at@[j] as int],
        decreases at@.len() - k,
    {
        proof {
            assert(0 <= positions(at@)[k as int] < hooks@.len());
        }
        out.push(&hooks[at[k]]);
        k = k + 1;
    }
    proof {
        assert(out@.map_values(|h: &LifecycleHook| *h) =~= pick(hooks@, positions(at@)));
    }
    out
}

/// Outcome of a single hook execution.
#[derive(Debug, Clone, Copy, PartialEq, Eq, Structural)]
pub enum HookOutcome {
    Succeeded,
    Failed,
    TimedOut,
    /// Not run: an earlier blocking hook failed or the grace budget ran out.
    Skipped,
}

impl HookOutcome {
    /// The name of the outcome.
    pub open spec fn label(self) -> Seq<char> {
        match self {
            HookOutcome::Succeeded => "succeeded"@,
            HookOutcome::Failed => "failed"@,
            HookOutcome::TimedOut => "timed_out"@,
            HookOutcome::Skipped => "skipped"@,
        }
    }

    /// The name of the outcome.
    pub fn as_str(self) -> (s: &'static str)
        ensures
            s@ == self.label(),
    {
        match self {
            HookOutcome::Succeeded => "succeeded",
            HookOutcome::Failed => "failed",
            HookOutcome::TimedOut => "timed_out",
            HookOutcome::Skipped => "skipped",
        }
    }
}

/// What an executor reports for one hook run.
#[derive(Debug, Clone, Copy, PartialEq, Eq, Structural)]
pub struct ExecReport {
    pub outcome: HookOutcome,
    pub elapsed: Duration,
}

/// Runs a hook command with a hard timeout.
pub trait HookExecutor {
    fn exec(&mut self, hook: &LifecycleHook, timeout: Duration) -> ExecReport;
}

/// Timing and outcome of one hook in a phase run.
#[derive(Debug, Clone, PartialEq, Eq)]
pub struct HookResult {
    pub name: String,
    pub phase: HookPhase,
    pub outcome: HookOutcome,
    pub policy: FailurePolicy,
    pub duration_ms: u128,
}

/// Result of running one phase.
#[derive(Debug, Clone, PartialEq, Eq)]
pub struct PhaseResult {
    pub phase: HookPhase,
    /// A `Block` hook failed or timed out.
    pub blocked: bool,
    pub results: Vec<HookResult>,
}

/// The time hook `h` is given where `spent` nanoseconds of `budget` are gone: its own
/// timeout, clipped to what is left.
pub open spec fn time_for(h: LifecycleHook, budget: Option<Duration>, spent: int) -> int {
    let own = h.timeout_seconds * 1_000_000_000;
    match budget {
        None => own,
        Some(b) => {
            let left = if b.nanos >= spent {
                b.nanos - spent
            } else {
                0
            };
            if own <= left {
                own
            } else {
                left
            }
        },
    }
}

/// A phase so far: the nanoseconds spent, and whether a blocking hook failed.
pub struct Progress {
    pub spent: int,
    pub blocked: bool,
}

/// Hook `h` is not run at this point.
pub open spec fn is_skipped(h: LifecycleHook, budget: Option<Duration>, at: Progress) -> bool {
    at.blocked || time_for(h, budget, at.spent) == 0
}

/// The outcome is a failure.
pub open spec fn is_failure(o: HookOutcome) -> bool {
    o is Failed || o is TimedOut
}

/// How the phase stands after the first `k` hooks of `run`, where hook `i` reported
/// `reports[i]` if it was run.
pub open spec fn progress(
    run: Seq<LifecycleHook>,
    budget: Option<Duration>,
    reports: Seq<ExecReport>,
    k: int,
) -> Progress
    decreases k,
{
    if k <= 0 {
        Progress { spent: 0, blocked: false }
    } else {
        let at = progress(run, budget, reports, k - 1);
        if is_skipped(run[k - 1], budget, at) {
            at
        } else {
            Progress {
                spent: at.spent + reports[k - 1].elapsed.nanos,
                blocked: at.blocked || (is_failure(reports[k - 1].outcome) && run[k - 1].effective_policy()
                    == FailurePolicy::Block),
            }
        }
    }
}

/// `r` records hook `k` of the run.
pub open spec fn records_hook(
    run: Seq<LifecycleHook>,
    phase: HookPhase,
    budget: Option<Duration>,
    reports: Seq<ExecReport>,
    k: int,
    r: HookResult,
) -> bool {
    let skipped = is_skipped(run[k], budget, progress(run, budget, reports, k));
    &&& r.name@ == run[k].name@
    &&& r.phase == phase
    &&& r.policy == run[k].effective_policy()
    &&& r.outcome == if skipped {
        HookOutcome::Skipped
    } else {
        reports[k].outcome
    }
    &&& r.duration_ms == if skipped {
        0
    } else {
        reports[k].elapsed.nanos as int / 1_000_000
    }
}

/// `result` is the outcome of running the hooks of `run` in order, where hook `k`
/// reported `reports[k]` if it was run.
pub open spec fn is_phase_result(
    run: Seq<LifecycleHook>,
    phase: HookPhase,
    budget: Option<Duration>,
    reports: Seq<ExecReport>,
    result: PhaseResult,
) -> bool {
    &&& reports.len() == run.len()
    &&& result.phase == phase
    &&& result.results@.len() == run.len()
    &&& forall|k: int|
        0 <= k < run.len() ==> records_hook(run, phase, budget, reports, k, #[trigger] result.results@[k])
    &&& result.blocked == progress(run, budget, reports, run.len() as int).blocked
}

/// The time that hook `k` of the run is given.
pub open spec fn given(run: Seq<LifecycleHook>, budget: Option<Duration>, reports: Seq<ExecReport>, k: int) -> Duration {
    Duration { nanos: time_for(run[k], budget, progress(run, budget, reports, k).spent) as u128 }
}

/// The executor goes through these states as the hooks are taken in order: a hook that is
/// skipped leaves it as it is.
pub open spec fn are_states<E: HookExecutor>(
    run: Seq<LifecycleHook>,
    budget: Option<Duration>,
    reports: Seq<ExecReport>,
    states: Seq<E>,
) -> bool {
    &&& states.len() == reports.len() + 1
    &&& forall|k: int|
        0 <= k < reports.len() && is_skipped(run[k], budget, #[trigger] progress(run, budget, reports, k))
            ==> states[k + 1] == states[k]
}

/// The time a hook is given.
pub fn timeout_for(hook: &LifecycleHook, budget: Option<Duration>, spent: Duration) -> (t: Duration)
    ensures
        t.nanos == time_for(*hook, budget, spent.nanos as int),
{
    let own = Duration::from_secs(hook.timeout_seconds);
    match budget {
        Some(b) => own.min(b.saturating_sub(spent)),
        None => own,
    }
}

/// Time spent beyond what can be represented counts the same as what can.
proof fn saturated_spending(h: LifecycleHook, budget: Option<Duration>, spent: int, shown: int)
    requires
        shown == if spent <= u128::MAX {
            spent
        } else {
            u128::MAX as int
        },
    ensures
        time_for(h, budget, spent) == time_for(h, budget, shown),
{
}

/// Takes in what a hook reported; `None` where it was not run.
pub fn record_report(so_far: &mut PhaseResult, hook: &LifecycleHook, report: Option<ExecReport>)
    ensures
        final(so_far).phase == old(so_far).phase,
        final(so_far).blocked == (old(so_far).blocked || (report matches Some(r) && is_failure(r.outcome)
            && hook.effective_policy() == FailurePolicy::Block)),
        final(so_far).results@.len() == old(so_far).results@.len() + 1,
        final(so_far).results@.drop_last() == old(so_far).results@,
        final(so_far).results@.last().name@ == hook.name@,
        final(so_far).results@.last().phase == old(so_far).phase,
        final(so_far).results@.last().policy == hook.effective_policy(),
        final(so_far).results@.last().outcome == match report {
            Some(r) => r.outcome,
            None => HookOutcome::Skipped,
        },
        final(so_far).results@.last().duration_ms == match report {
            Some(r) => r.elapsed.nanos as int / 1_000_000,
            None => 0,
        },
{
    let policy = hook.policy();
    let (outcome, duration_ms): (HookOutcome, u128) = match report {
        Some(r) => (r.outcome, r.elapsed.as_millis()),
        None => (HookOutcome::Skipped, 0),
    };
    if (outcome == HookOutcome::Failed || outcome == HookOutcome::TimedOut) && policy == FailurePolicy::Block {
        so_far.blocked = true;
    }
    so_far.results.push(HookResult { name: hook.name.clone(), phase: so_far.phase, outcome, policy, duration_ms });
    proof {
        assert(so_far.results@.drop_last() =~= old(so_far).results@);
    }
}

/// Run every hook of `phase` in order. `budget` bounds the whole phase (the
/// termination grace period for teardown). The executor is called once for each hook that is
/// run, with the time that it is given, and not for a hook that is skipped.
pub fn run_phase<E: HookExecutor>(
    hooks: &[LifecycleHook],
    phase: HookPhase,
    budget: Option<Duration>,
    exec: &mut E,
) -> (result: PhaseResult)
    ensures
        exists|at: Seq<int>, reports: Seq<ExecReport>, states: Seq<E>|
            #![trigger is_run_order(hooks@, phase, at), are_states(pick(hooks@, at), budget, reports, states)]
            is_run_order(hooks@, phase, at) && is_phase_result(
                pick(hooks@, at),
                phase,
                budget,
                reports,
                result,
            ) && are_states(pick(hooks@, at), budget, reports, states) && states[0] == *old(exec) && states.last()
                == *final(exec) && (forall|k: int|
                0 <= k < reports.len() && !is_skipped(
                    pick(hooks@, at)[k],
                    budget,
                    #[trigger] progress(pick(hooks@, at), budget, reports, k),
                ) ==> (exists|m: &mut E|
                    *m == states[k] && *final(m) == states[k + 1] && #[trigger] call_ensures(
                        E::exec,
                        (m, &pick(hooks@, at)[k], given(pick(hooks@, at), budget, reports, k)),
                        reports[k],
                    ))),
{
    let at = run_order(hooks, phase);
    let ghost run = pick(hooks@, positions(at@));
    let ghost mut reports: Seq<ExecReport> = Seq::empty();
    let ghost mut states: Seq<E> = seq![*exec];
    let mut result = PhaseResult { phase, blocked: false, results: Vec::new() };
    let mut spent = Duration::zero();
    let mut k: usize = 0;
    while k < at.len()
        invariant
            k <= at@.len(),
            is_run_order(hooks@, phase, positions(at@)),
            run == pick(hooks@, positions(at@)),
            run.len() == at@.len(),
            reports.len() == k,
            result.phase == phase,
            result.results@.len() == k,
            result.blocked == progress(run, budget, reports, k as int).blocked,
            spent.nanos == if progress(run, budget, reports, k as int).spent <= u128::MAX {
                progress(run, budget, reports, k as int).spent
            } else {
                u128::MAX as int
            },
            0 <= progress(run, budget, reports, k as int).spent,
            forall|j: int|
                0 <= j < k ==> records_hook(run, phase, budget, reports, j, #[trigger] result.results@[j]),
            are_states(run, budget, reports, states),
            forall|j: int|
                0 <= j < k && !is_skipped(run[j], budget, #[trigger] progress(run, budget, reports, j)) ==> (exists|
                    m: &mut E,
                |
                    *m == states[j] && *final(m) == states[j + 1] && #[trigger] call_ensures(
                        E::exec,
                        (m, &run[j], given(run, budget, reports, j)),
                        reports[j],
                    )),
            states[0] == *old(exec),
            states.last() == *exec,
        decreases at@.len() - k,
    {
        let ghost was = reports;
        let ghost past = states;
        let ghost before = result.results@;
        proof {
            assert(0 <= positions(at@)[k as int] < hooks@.len());
            assert(run[k as int] == hooks@[at@[k as int] as int]);
            saturated_spending(
                run[k as int],
                budget,
                progress(run, budget, reports, k as int).spent,
                spent.nanos as int,
            );
        }
        let hook = &hooks[at[k]];
        let timeout = timeout_for(hook, budget, spent);
        let report: Option<ExecReport> = if result.blocked || timeout.is_zero() {
            None
        } else {
            Some(exec.exec(hook, timeout))
        };
        proof {
            let r = match report {
                Some(r) => r,
                None => ExecReport { outcome: HookOutcome::Skipped, elapsed: Duration { nanos: 0 } },
            };
            reports = reports.push(r);
            states = states.push(*exec);
            assert forall|j: int| 0 <= j <= k implies progress(run, budget, reports, j) == #[trigger] progress(
                run,
                budget,
                was,
                j,
            ) by {
                progress_prefix(run, budget, was, r, j);
            }
            assert(states[k as int] == past[k as int] && states[k + 1] == *exec);
            assert forall|j: int|
                0 <= j < reports.len() && is_skipped(
                    run[j],
                    budget,
                    #[trigger] progress(run, budget, reports, j),
                ) implies states[j + 1] == states[j] by {
                assert(progress(run, budget, reports, j) == progress(run, budget, was, j));
                if j < k {
                    assert(states[j + 1] == past[j + 1] && states[j] == past[j]);
                }
            }
            assert forall|j: int|
                0 <= j < reports.len() && !is_skipped(
                    run[j],
                    budget,
                    #[trigger] progress(run, budget, reports, j),
                ) implies (exists|m: &mut E|
                *m == states[j] && *final(m) == states[j + 1] && #[trigger] call_ensures(
                    E::exec,
                    (m, &run[j], given(run, budget, reports, j)),
                    reports[j],
                )) by {
                assert(progress(run, budget, reports, j) == progress(run, budget, was, j));
                assert(given(run, budget, reports, j) == given(run, budget, was, j));
                if j < k {
                    assert(states[j + 1] == past[j + 1] && states[j] == past[j]);
                    assert(reports[j] == was[j]);
                    assert(exists|m: &mut E|
                        *m == past[j] && *final(m) == past[j + 1] && #[trigger] call_ensures(
                            E::exec,
                            (m, &run[j], given(run, budget, was, j)),
                            was[j],
                        ));
                } else {
                    assert(timeout == given(run, budget, reports, j));
                    assert(report is Some && reports[j] == report->0 && *hook == run[j]);
                    assert(exists|m: &mut E|
                        *m == past[j] && *final(m) == *exec && #[trigger] call_ensures(
                            E::exec,
                            (m, hook, timeout),
                            report->0,
                        ));
                }
            }
        }
        record_report(&mut result, hook, report);
        if let Some(r) = report {
            spent = spent.saturating_add(r.elapsed);
        }
        proof {
            assert forall|j: int| 0 <= j < k + 1 implies records_hook(
                run,
                phase,
                budget,
                reports,
                j,
                #[trigger] result.results@[j],
            ) by {
                assert(progress(run, budget, reports, j) == progress(run, budget, was, j));
                if j < k {
                    assert(result.results@[j] == before[j]);
                    assert(reports[j] == was[j]);
                }
            }
        }
        k = k + 1;
    }
    proof {
        assert(is_phase_result(run, phase, budget, reports, result));
    }
    result
}

/// Later reports do not change how a phase stood earlier.
proof fn progress_prefix(
    run: Seq<LifecycleHook>,
    budget: Option<Duration>,
    reports: Seq<ExecReport>,
    more: ExecReport,
    k: int,
)
    requires
        k <= reports.len(),
    ensures
        progress(run, budget, reports, k) == progress(run, budget, reports.push(more), k),
    decreases k,
{
    if k > 0 {
        progress_prefix(run, budget, reports, more, k - 1);
        assert(reports.push(more)[k - 1] == reports[k - 1]);
    }
}

/// A phase that has been blocked stays blocked, and every later hook is skipped.
pub proof fn blocked_phase_skips_the_rest(
    run: Seq<LifecycleHook>,
    phase: HookPhase,
    budget: Option<Duration>,
    reports: Seq<ExecReport>,
    result: PhaseResult,
    k: int,
    l: int,
)
    requires
        is_phase_result(run, phase, budget, reports, result),
        0 <= k < l < run.len(),
        is_failure(result.results@[k].outcome),
        result.results@[k].policy == FailurePolicy::Block,
    ensures
        result.results@[l].outcome == HookOutcome::Skipped,
        result.blocked,
{
    assert(records_hook(run, phase, budget, reports, k, result.results@[k]));
    assert(progress(run, budget, reports, k + 1).blocked);
    blocked_stays(run, budget, reports, k + 1, l);
    blocked_stays(run, budget, reports, k + 1, run.len() as int);
    assert(records_hook(run, phase, budget, reports, l, result.results@[l]));
}

/// Once a phase is blocked, or its budget is spent, the executor is not called any more.
pub proof fn stopped_phase_leaves_the_executor<E: HookExecutor>(
    run: Seq<LifecycleHook>,
    budget: Option<Duration>,
    reports: Seq<ExecReport>,
    states: Seq<E>,
    k: int,
)
    requires
        are_states(run, budget, reports, states),
        0 <= k <= reports.len(),
        progress(run, budget, reports, k).blocked || (budget matches Some(b) && progress(run, budget, reports, k).spent
            >= b.nanos),
    ensures
        states.last() == states[k],
    decreases reports.len() - k,
{
    if k < reports.len() {
        let at = progress(run, budget, reports, k);
        assert(is_skipped(run[k], budget, at));
        assert(progress(run, budget, reports, k + 1) == at);
        stopped_phase_leaves_the_executor(run, budget, reports, states, k + 1);
    }
}

/// Once blocked, always blocked.
proof fn blocked_stays(run: Seq<LifecycleHook>, budget: Option<Duration>, reports: Seq<ExecReport>, k: int, l: int)
    requires
        0 <= k <= l,
        progress(run, budget, reports, k).blocked,
    ensures
        progress(run, budget, reports, l).blocked,
    decreases l,
{
    if k < l {
        blocked_stays(run, budget, reports, k, l - 1);
    }
}

/// A phase is blocked only if a hook with the `Block` policy failed or timed out.
pub proof fn only_blocking_hooks_block(
    run: Seq<LifecycleHook>,
    phase: HookPhase,
    budget: Option<Duration>,
    reports: Seq<ExecReport>,
    result: PhaseResult,
)
    requires
        is_phase_result(run, phase, budget, reports, result),
        result.blocked,
    ensures
        exists|k: int|
            0 <= k < run.len() && is_failure(#[trigger] result.results@[k].outcome) && result.results@[k].policy
                == FailurePolicy::Block,
{
    blocking_hook(run, phase, budget, reports, result, run.len() as int);
}

proof fn blocking_hook(
    run: Seq<LifecycleHook>,
    phase: HookPhase,
    budget: Option<Duration>,
    reports: Seq<ExecReport>,
    result: PhaseResult,
    n: int,
)
    requires
        is_phase_result(run, phase, budget, reports, result),
        0 <= n <= run.len(),
        progress(run, budget, reports, n).blocked,
    ensures
        exists|k: int|
            0 <= k < n && is_failure(#[trigger] result.results@[k].outcome) && result.results@[k].policy
                == FailurePolicy::Block,
    decreases n,
{
    if n > 0 {
        assert(records_hook(run, phase, budget, reports, n - 1, result.results@[n - 1]));
        if progress(run, budget, reports, n - 1).blocked {
            blocking_hook(run, phase, budget, reports, result, n - 1);
            let k = choose|k: int|
                0 <= k < n - 1 && is_failure(#[trigger] result.results@[k].outcome) && result.results@[k].policy
                    == FailurePolicy::Block;
            assert(is_failure(result.results@[k].outcome));
        } else {
            assert(is_failure(result.results@[n - 1].outcome));
        }
    }
}

/// Where every hook that was run kept to the time it was given, the whole phase kept
/// to its budget.
pub proof fn phase_keeps_its_budget(
    run: Seq<LifecycleHook>,
    budget: Duration,
    reports: Seq<ExecReport>,
    n: int,
)
    requires
        0 <= n <= run.len(),
        n <= reports.len(),
        forall|k: int|
            0 <= k < n && !is_skipped(run[k], Some(budget), progress(run, Some(budget), reports, k))
                ==> #[trigger] reports[k].elapsed.nanos <= time_for(
                run[k],
                Some(budget),
                progress(run, Some(budget), reports, k).spent,
            ),
    ensures
        progress(run, Some(budget), reports, n).spent <= budget.nanos,
    decreases n,
{
    if n > 0 {
        phase_keeps_its_budget(run, budget, reports, n - 1);
        let at = progress(run, Some(budget), reports, n - 1);
        if !is_skipped(run[n - 1], Some(budget), at) {
            assert(reports[n - 1].elapsed.nanos <= time_for(run[n - 1], Some(budget), at.spent));
        }
    }
}

/// `n` with at least three digits.
pub open spec fn three_digits(n: nat) -> Seq<char> {
    if n < 10 {
        "00"@ + dec(n)
    } else if n < 100 {
        "0"@ + dec(n)
    } else {
        dec(n)
    }
}

/// Milliseconds as seconds with three decimals.
pub open spec fn seconds_text(ms: nat) -> Seq<char> {
    dec(ms / 1000) + "."@ + three_digits(ms % 1000)
}

/// A name as it stands in a quoted label: backslashes and quotes are escaped.
pub open spec fn label_escaped(s: Seq<char>) -> Seq<char> {
    replaced(replaced(s, '\\', "\\\\"@), '"', "\\\""@)
}

/// The exposition line of one hook.
pub open spec fn hook_line(r: HookResult) -> Seq<char> {
    "stellar_lifecycle_hook_duration_seconds{hook=\""@ + label_escaped(r.name@) + "\",phase=\""@ + r.phase.label()
        + "\",outcome=\""@ + r.outcome.label() + "\"} "@ + seconds_text(r.duration_ms as nat) + "\n"@
}

/// The exposition lines of several hooks.
pub open spec fn hook_lines(results: Seq<HookResult>) -> Seq<char>
    decreases results.len(),
{
    if results.len() == 0 {
        "# HELP stellar_lifecycle_hook_duration_seconds Duration of the last lifecycle hook run.\n# TYPE stellar_lifecycle_hook_duration_seconds gauge\n"@
    } else {
        hook_lines(results.drop_last()) + hook_line(results.last())
    }
}

/// The exposition of a phase run.
pub open spec fn metrics_text(result: PhaseResult) -> Seq<char> {
    hook_lines(result.results@)
        + "# HELP stellar_lifecycle_phase_blocked Whether a blocking hook failed in the phase.\n# TYPE stellar_lifecycle_phase_blocked gauge\nstellar_lifecycle_phase_blocked{phase=\""@
        + result.phase.label() + "\"} "@ + (if result.blocked {
        "1"@
    } else {
        "0"@
    }) + "\n"@
}

/// Milliseconds as seconds with three decimals.
fn seconds(ms: u128) -> (out: String)
    ensures
        out@ == seconds_text(ms as nat),
{
    let mut out = decimal_wide(ms / 1000);
    out.append(".");
    let rest: u64 = (ms % 1000) as u64;
    let ghost start = out@;
    if rest < 10 {
        out.append("00");
    } else if rest < 100 {
        out.append("0");
    }
    out.append(decimal(rest).as_str());
    proof {
        assert(out@ =~= start + three_digits(rest as nat));
    }
    out
}

/// Prometheus text exposition for a phase run.
pub fn render_metrics(result: &PhaseResult) -> (out: String)
    ensures
        out@ == metrics_text(*result),
{
    let mut out =
        "# HELP stellar_lifecycle_hook_duration_seconds Duration of the last lifecycle hook run.\n# TYPE stellar_lifecycle_hook_duration_seconds gauge\n".to_owned();
    let mut i: usize = 0;
    while i < result.results.len()
        invariant
            i <= result.results@.len(),
            out@ == hook_lines(result.results@.take(i as int)),
        decreases result.results@.len() - i,
    {
        let r = &result.results[i];
        let ghost start = out@;
        proof {
            assert(result.results@.take(i as int + 1).drop_last() =~= result.results@.take(i as int));
        }
        let name = replace(replace(r.name.as_str(), '\\', "\\\\").as_str(), '"', "\\\"");
        out.append("stellar_lifecycle_hook_duration_seconds{hook=\"");
        out.append(name.as_str());
        out.append("\",phase=\"");
        out.append(r.phase.as_str());
        out.append("\",outcome=\"");
        out.append(r.outcome.as_str());
        out.append("\"} ");
        out.append(seconds(r.duration_ms).as_str());
        out.append("\n");
        proof {
            assert(out@ =~= start + hook_line(*r));
        }
        i = i + 1;
    }
    proof {
        assert(result.results@.take(result.results@.len() as int) =~= result.results@);
    }
    out.append(
        "# HELP stellar_lifecycle_phase_blocked Whether a blocking hook failed in the phase.\n# TYPE stellar_lifecycle_phase_blocked gauge\nstellar_lifecycle_phase_blocked{phase=\"",
    );
    out.append(result.phase.as_str());
    out.append("\"} ");
    if result.blocked {
        out.append("1");
    } else {
        out.append("0");
    }
    out.append("\n");
    out
}

/// An environment variable of a container.
#[derive(Debug, Clone, PartialEq, Eq)]
pub struct EnvVar {
    pub name: String,
    pub value: Option<String>,
}

/// A volume as a container sees it.
#[derive(Debug, Clone, PartialEq, Eq)]
pub struct VolumeMount {
    pub name: String,
    pub mount_path: String,
}

/// A command that the kubelet runs in a container.
#[derive(Debug, Clone, PartialEq, Eq)]
pub struct ExecAction {
    pub command: Vec<String>,
}

/// A readiness probe. `action` is `None` where the probe is of another kind.
#[derive(Debug, Clone, PartialEq, Eq)]
pub struct Probe {
    pub action: Option<ExecAction>,
    pub timeout_seconds: Option<i32>,
}

/// A `preStop` handler. `action` is `None` where the handler is of another kind.
#[derive(Debug, Clone, PartialEq, Eq)]
pub struct Handler {
    pub action: Option<ExecAction>,
}

/// What the wiring reads and writes of a container.
#[derive(Debug, Clone, PartialEq, Eq)]
pub struct Container {
    pub name: String,
    pub image: Option<String>,
    pub command: Vec<String>,
    pub env: Vec<EnvVar>,
    pub volume_mounts: Vec<VolumeMount>,
    pub readiness_probe: Option<Probe>,
    pub pre_stop: Option<Handler>,
}

/// An `emptyDir` volume of a pod.
#[derive(Debug, Clone, PartialEq, Eq)]
pub struct Volume {
    pub name: String,
}

/// What the wiring reads and writes of a pod.
#[derive(Debug, Clone, PartialEq, Eq)]
pub struct PodSpec {
    pub termination_grace_period_seconds: Option<i64>,
    pub containers: Vec<Container>,
    pub init_containers: Vec<Container>,
    pub volumes: Vec<Volume>,
}

/// The teardown budget of a pod: its grace period, 30 seconds where it gives none, and
/// none where it is negative.
pub open spec fn grace_of(pod: PodSpec) -> int {
    let g = match pod.termination_grace_period_seconds {
        Some(g) => g as int,
        None => 30,
    };
    if g < 0 {
        0
    } else {
        g
    }
}

/// Some hook belongs to `phase`.
pub open spec fn has_phase(hooks: Seq<LifecycleHook>, phase: HookPhase) -> bool {
    exists|i: int| 0 <= i < hooks.len() && #[trigger] hooks[i].phase == phase
}

/// The command by which the kubelet runs the hooks of `phase`.
pub open spec fn runner_command(phase: HookPhase) -> Seq<Seq<char>> {
    Seq::<Seq<char>>::empty().push(RUNNER_PATH@).push("run"@).push(phase.label())
}

/// The mount of the shared volume.
pub open spec fn is_hooks_mount(m: VolumeMount) -> bool {
    m.name@ == HOOKS_VOLUME@ && m.mount_path@ == HOOKS_DIR@
}

/// The two variables that tell the runner what to run, and how long teardown may take.
pub open spec fn is_hooks_env(env: Seq<EnvVar>, json: Seq<char>, grace: int) -> bool {
    &&& env.len() == 2
    &&& env[0].name@ == HOOKS_ENV@ && (env[0].value matches Some(v) && v@ == json)
    &&& env[1].name@ == GRACE_ENV@ && (env[1].value matches Some(v) && v@ == dec(grace as nat))
}

/// The main container with the hooks wired in.
pub open spec fn is_wired(was: Container, now: Container, hooks: Seq<LifecycleHook>, json: Seq<char>, grace: int) -> bool {
    &&& now.name == was.name
    &&& now.image == was.image
    &&& now.command == was.command
    &&& now.volume_mounts@.len() == was.volume_mounts@.len() + 1
    &&& now.volume_mounts@.drop_last() == was.volume_mounts@
    &&& is_hooks_mount(now.volume_mounts@.last())
    &&& now.env@.len() == was.env@.len() + 2
    &&& now.env@.take(was.env@.len() as int) == was.env@
    &&& is_hooks_env(now.env@.skip(was.env@.len() as int), json, grace)
    &&& if has_phase(hooks, HookPhase::Readiness) {
        is_runner_probe(now.readiness_probe, hooks)
    } else {
        now.readiness_probe == was.readiness_probe
    }
    &&& if has_phase(hooks, HookPhase::Teardown) {
        now.pre_stop matches Some(h) && h.action matches Some(e) && views(e.command@) == runner_command(
            HookPhase::Teardown,
        )
    } else {
        now.pre_stop == was.pre_stop
    }
}

/// The probe that runs the readiness hooks; it has a second more than they need.
pub open spec fn is_runner_probe(p: Option<Probe>, hooks: Seq<LifecycleHook>) -> bool {
    &&& p matches Some(probe) && probe.action matches Some(e) && views(e.command@) == runner_command(
        HookPhase::Readiness,
    )
    &&& p->0.timeout_seconds == Some(
        ((total_timeout(hooks, HookPhase::Readiness) as u64) as i32 + 1) as i32,
    )
}

/// The init container that installs the runner.
pub open spec fn is_installer(c: Container, runner_image: Seq<char>) -> bool {
    &&& c.name@ == "stellar-hooks-install"@
    &&& c.image matches Some(image) && image@ == runner_image
    &&& views(c.command@) == Seq::<Seq<char>>::empty().push("/stellar-hooks"@).push("install"@).push(RUNNER_PATH@)
    &&& c.env@.len() == 0
    &&& c.volume_mounts@.len() == 1 && is_hooks_mount(c.volume_mounts@[0])
    &&& c.readiness_probe is None && c.pre_stop is None
}

/// The init container that runs the setup hooks in the application's image.
pub open spec fn is_setup(c: Container, image: Option<String>, json: Seq<char>, grace: int) -> bool {
    &&& c.name@ == "stellar-hooks-setup"@
    &&& c.image == image
    &&& views(c.command@) == runner_command(HookPhase::Setup)
    &&& is_hooks_env(c.env@, json, grace)
    &&& c.volume_mounts@.len() == 1 && is_hooks_mount(c.volume_mounts@[0])
    &&& c.readiness_probe is None && c.pre_stop is None
}

/// Container `c` is the first called `name`.
pub open spec fn first_called(containers: Seq<Container>, name: Seq<char>, c: int) -> bool {
    &&& 0 <= c < containers.len()
    &&& containers[c].name@ == name
    &&& forall|j: int| 0 <= j < c ==> #[trigger] containers[j].name@ != name
}

/// The pod with the hooks wired into container `c`.
pub open spec fn is_wired_pod(
    was: PodSpec,
    now: PodSpec,
    c: int,
    runner_image: Seq<char>,
    hooks: Seq<LifecycleHook>,
    json: Seq<char>,
) -> bool {
    let n = was.init_containers@.len() as int;
    &&& now.termination_grace_period_seconds == was.termination_grace_period_seconds
    &&& now.containers@.len() == was.containers@.len()
    &&& forall|i: int|
        0 <= i < was.containers@.len() && i != c ==> #[trigger] now.containers@[i] == was.containers@[i]
    &&& is_wired(was.containers@[c], now.containers@[c], hooks, json, grace_of(was))
    &&& now.init_containers@.len() == n + (if has_phase(hooks, HookPhase::Setup) {
        2int
    } else {
        1int
    })
    &&& now.init_containers@.take(n) == was.init_containers@
    &&& is_installer(now.init_containers@[n], runner_image)
    &&& has_phase(hooks, HookPhase::Setup) ==> is_setup(
        now.init_containers@[n + 1],
        was.containers@[c].image,
        json,
        grace_of(was),
    )
    &&& now.volumes@.len() == was.volumes@.len() + 1
    &&& now.volumes@.drop_last() == was.volumes@
    &&& now.volumes@.last().name@ == HOOKS_VOLUME@
}

/// Two lists of containers differ at most in the readiness probe of container `c`.
pub open spec fn only_probe_differs(was: PodSpec, now: PodSpec, c: int) -> bool {
    &&& now.termination_grace_period_seconds == was.termination_grace_period_seconds
    &&& now.init_containers == was.init_containers
    &&& now.volumes == was.volumes
    &&& now.containers@ == was.containers@.update(
        c,
        Container { readiness_probe: now.containers@[c].readiness_probe, ..was.containers@[c] },
    )
}

/// The container is there and is given a readiness probe: it has none, and readiness hooks are
/// declared.
pub open spec fn takes_probe(pod: PodSpec, container: Seq<char>, hooks: Seq<LifecycleHook>) -> bool {
    has_phase(hooks, HookPhase::Readiness) && exists|c: int| #[trigger]
        first_called(pod.containers@, container, c) && pod.containers@[c].readiness_probe is None
}

/// A refused pod is left as it was, but for this: where the container is there and had no
/// readiness probe, and readiness hooks are declared, it has been given theirs.
pub open spec fn left_by_refusal(was: PodSpec, now: PodSpec, container: Seq<char>, hooks: Seq<LifecycleHook>) -> bool {
    if takes_probe(was, container, hooks) {
        exists|c: int| #[trigger]
            first_called(was.containers@, container, c) && only_probe_differs(was, now, c) && is_runner_probe(
                now.containers@[c].readiness_probe,
                hooks,
            )
    } else {
        now == was
    }
}

/// Why a pod is refused.
pub open spec fn container_refusal(pod: PodSpec, container: Seq<char>, hooks: Seq<LifecycleHook>) -> Option<Seq<char>> {
    if !exists|c: int| first_called(pod.containers@, container, c) {
        Some("container '"@ + container + "' not found"@)
    } else {
        let c = choose|c: int| first_called(pod.containers@, container, c);
        if has_phase(hooks, HookPhase::Readiness) && pod.containers@[c].readiness_probe is Some {
            Some("container '"@ + container + "' already has a readinessProbe"@)
        } else if has_phase(hooks, HookPhase::Teardown) && pod.containers@[c].pre_stop is Some {
            Some("container '"@ + container + "' already has a preStop hook"@)
        } else {
            None
        }
    }
}

/// Whether some hook belongs to `phase`.
fn any_of_phase(hooks: &[LifecycleHook], phase: HookPhase) -> (r: bool)
    ensures
        r == has_phase(hooks@, phase),
{
    let mut i: usize = 0;
    while i < hooks.len()
        invariant
            i <= hooks@.len(),
            forall|j: int| 0 <= j < i ==> #[trigger] hooks@[j].phase != phase,
        decreases hooks@.len() - i,
    {
        if hooks[i].phase == phase {
            return true;
        }
        i = i + 1;
    }
    false
}

/// The command by which the kubelet runs the hooks of `phase`.
fn runner_exec(phase: HookPhase) -> (e: ExecAction)
    ensures
        views(e.command@) == runner_command(phase),
{
    let mut command: Vec<String> = Vec::new();
    command.push(RUNNER_PATH.to_owned());
    command.push("run".to_owned());
    command.push(phase.as_str().to_owned());
    proof {
        assert(views(command@) =~= runner_command(phase));
    }
    ExecAction { command }
}

/// The mount of the shared volume.
fn hooks_mount() -> (m: VolumeMount)
    ensures
        is_hooks_mount(m),
{
    VolumeMount { name: HOOKS_VOLUME.to_owned(), mount_path: HOOKS_DIR.to_owned() }
}

/// Adds the two variables of the runner to `env`.
fn push_hooks_env(env: &mut Vec<EnvVar>, json: &str, grace: u64)
    ensures
        final(env)@.len() == old(env)@.len() + 2,
        final(env)@.take(old(env)@.len() as int) == old(env)@,
        is_hooks_env(final(env)@.skip(old(env)@.len() as int), json@, grace as int),
{
    env.push(EnvVar { name: HOOKS_ENV.to_owned(), value: Some(json.to_owned()) });
    env.push(EnvVar { name: GRACE_ENV.to_owned(), value: Some(decimal(grace)) });
    proof {
        assert(env@.take(old(env)@.len() as int) =~= old(env)@);
    }
}

/// The text "container '<name>'" and what follows.
fn about_container(container: &str, rest: &str) -> (out: String)
    ensures
        out@ == "container '"@ + container@ + rest@,
{
    let mut out = "container '".to_owned();
    out.append(container);
    out.append(rest);
    out
}

/// The first container called `name` is the only one that is first.
proof fn first_called_is_one(containers: Seq<Container>, name: Seq<char>, a: int, b: int)
    requires
        first_called(containers, name, a),
        first_called(containers, name, b),
    ensures
        a == b,
{
    if a < b {
        assert(containers[a].name@ != name);
    } else if b < a {
        assert(containers[b].name@ != name);
    }
}

/// Wire the hooks runner into `pod` for the container named `container`.
///
/// Adds a shared `emptyDir`, an init container (from `runner_image`) that installs the
/// runner into it, a setup init container using the app image, an exec readiness probe
/// and a `preStop` handler. The main container must not already define a readiness
/// probe or `preStop` when hooks for those phases are declared. `hooks_json` is the
/// encoded hook list, or why it could not be encoded.
pub fn apply_to_pod(
    pod: &mut PodSpec,
    container: &str,
    runner_image: &str,
    hooks: &[LifecycleHook],
    hooks_json: Result<String, String>,
) -> (r: Result<(), String>)
    requires
        faultless(hooks@) ==> total_timeout(hooks@, HookPhase::Teardown) <= u64::MAX,
        acceptable(hooks@, grace_of(*old(pod)) as u64) && hooks_json is Ok && takes_probe(
            *old(pod),
            container@,
            hooks@,
        ) ==> {
            &&& total_timeout(hooks@, HookPhase::Readiness) <= u64::MAX
            &&& (total_timeout(hooks@, HookPhase::Readiness) as u64) as i32 != i32::MAX
        },
    ensures
        hooks@.len() == 0 ==> r is Ok && *final(pod) == *old(pod),
        hooks@.len() > 0 && !acceptable(hooks@, grace_of(*old(pod)) as u64) ==> {
            &&& *final(pod) == *old(pod)
            &&& r matches Err(why) && exists|e: HookValidationError| #[trigger]
                refused_for(hooks@, grace_of(*old(pod)) as u64, e) && why@ == validation_text(e)
        },
        hooks@.len() > 0 && acceptable(hooks@, grace_of(*old(pod)) as u64) ==> match hooks_json {
            Err(e) => r == Err::<(), String>(e) && *final(pod) == *old(pod),
            Ok(json) => match container_refusal(*old(pod), container@, hooks@) {
                Some(why) => {
                    &&& r matches Err(e) && e@ == why
                    &&& left_by_refusal(*old(pod), *final(pod), container@, hooks@)
                },
                None => r is Ok && exists|c: int| #[trigger]
                    first_called(old(pod).containers@, container@, c) && is_wired_pod(
                        *old(pod),
                        *final(pod),
                        c,
                        runner_image@,
                        hooks@,
                        json@,
                    ),
            },
        },
{
    if hooks.len() == 0 {
        return Ok(());
    }
    let declared: i64 = match pod.termination_grace_period_seconds {
        Some(g) => g,
        None => 30,
    };
    let grace: u64 = if declared < 0 {
        0
    } else {
        declared as u64
    };
    if let Err(e) = validate(hooks, grace) {
        return Err(e.message());
    }
    let json = match hooks_json {
        Ok(json) => json,
        Err(e) => {
            return Err(e);
        },
    };
    let mut c: usize = 0;
    while c < pod.containers.len() && !same(pod.containers[c].name.as_str(), container)
        invariant
            c <= pod.containers@.len(),
            *pod == *old(pod),
            forall|j: int| 0 <= j < c ==> #[trigger] pod.containers@[j].name@ != container@,
        decreases pod.containers@.len() - c,
    {
        c = c + 1;
    }
    if c == pod.containers.len() {
        return Err(about_container(container, "' not found"));
    }
    proof {
        assert(first_called(pod.containers@, container@, c as int));
        let d = choose|d: int| first_called(pod.containers@, container@, d);
        first_called_is_one(pod.containers@, container@, c as int, d);
    }
    let ghost was = *pod;
    let readiness = any_of_phase(hooks, HookPhase::Readiness);
    let teardown = any_of_phase(hooks, HookPhase::Teardown);
    if readiness && pod.containers[c].readiness_probe.is_some() {
        proof {
            if exists|d: int| #[trigger]
                first_called(was.containers@, container@, d) && was.containers@[d].readiness_probe is None {
                let d = choose|d: int| #[trigger]
                    first_called(was.containers@, container@, d) && was.containers@[d].readiness_probe is None;
                first_called_is_one(was.containers@, container@, c as int, d);
            }
        }
        return Err(about_container(container, "' already has a readinessProbe"));
    }
    let refused = teardown && pod.containers[c].pre_stop.is_some();
    if refused && !readiness {
        return Err(about_container(container, "' already has a preStop hook"));
    }
    let mut main = pod.containers.remove(c);
    if readiness {
        proof {
            assert(first_called(was.containers@, container@, c as int) && was.containers@[c as int].readiness_probe is None);
            assert(takes_probe(was, container@, hooks@));
        }
        let total: u64 = sum_timeouts(hooks, HookPhase::Readiness);
        main.readiness_probe = Some(
            Probe { action: Some(runner_exec(HookPhase::Readiness)), timeout_seconds: Some(total as i32 + 1) },
        );
    }
    if refused {
        pod.containers.insert(c, main);
        proof {
            assert(pod.containers@ =~= was.containers@.update(
                c as int,
                Container { readiness_probe: pod.containers@[c as int].readiness_probe, ..was.containers@[c as int] },
            ));
            assert(first_called(was.containers@, container@, c as int) && was.containers@[c as int].readiness_probe is None);
            assert(only_probe_differs(was, *pod, c as int));
        }
        return Err(about_container(container, "' already has a preStop hook"));
    }
    if teardown {
        main.pre_stop = Some(Handler { action: Some(runner_exec(HookPhase::Teardown)) });
    }
    main.volume_mounts.push(hooks_mount());
    push_hooks_env(&mut main.env, json.as_str(), grace);
    let app_image = match &main.image {
        Some(image) => Some(image.clone()),
        None => None,
    };
    pod.containers.insert(c, main);
    let mut install: Vec<String> = Vec::new();
    install.push("/stellar-hooks".to_owned());
    install.push("install".to_owned());
    install.push(RUNNER_PATH.to_owned());
    proof {
        assert(views(install@) =~= Seq::<Seq<char>>::empty().push("/stellar-hooks"@).push("install"@).push(RUNNER_PATH@));
    }
    let mut mounts: Vec<VolumeMount> = Vec::new();
    mounts.push(hooks_mount());
    pod.init_containers.push(
        Container {
            name: "stellar-hooks-install".to_owned(),
            image: Some(runner_image.to_owned()),
            command: install,
            env: Vec::new(),
            volume_mounts: mounts,
            readiness_probe: None,
            pre_stop: None,
        },
    );
    if any_of_phase(hooks, HookPhase::Setup) {
        let mut env: Vec<EnvVar> = Vec::new();
        push_hooks_env(&mut env, json.as_str(), grace);
        proof {
            assert(env@.skip(0) =~= env@);
        }
        let mut mounts: Vec<VolumeMount> = Vec::new();
        mounts.push(hooks_mount());
        pod.init_containers.push(
            Container {
                name: "stellar-hooks-setup".to_owned(),
                image: app_image,
                command: runner_exec(HookPhase::Setup).command,
                env,
                volume_mounts: mounts,
                readiness_probe: None,
                pre_stop: None,
            },
        );
    }
    pod.volumes.push(Volume { name: HOOKS_VOLUME.to_owned() });
    proof {
        assert(pod.init_containers@.take(was.init_containers@.len() as int) =~= was.init_containers@);
        assert(pod.volumes@.drop_last() =~= was.volumes@);
        assert(pod.containers@[c as int].volume_mounts@.drop_last() =~= was.containers@[c as int].volume_mounts@);
        assert(is_wired_pod(was, *pod, c as int, runner_image@, hooks@, json@));
    }
    Ok(())
}

/// Hooks are acceptable exactly where no two have the same name, each has a command and a timeout,
/// each that may run again is idempotent, and those of the teardown fit into the grace period.
pub proof fn acceptable_hooks_are_sound(hooks: Seq<LifecycleHook>, grace_seconds: u64)
    ensures
        acceptable(hooks, grace_seconds) <==> {
            &&& forall|i: int, j: int|
                0 <= i < j < hooks.len() ==> (#[trigger] hooks[i]).name@ != (#[trigger] hooks[j]).name@
            &&& forall|i: int|
                0 <= i < hooks.len() ==> (#[trigger] hooks[i]).command@.len() > 0 && hooks[i].timeout_seconds >= 1 && (
                hooks[i].idempotent || hooks[i].phase is Teardown)
            &&& total_timeout(hooks, HookPhase::Teardown) <= grace_seconds
        },
{
    if faultless(hooks) {
        assert forall|i: int, j: int| 0 <= i < j < hooks.len() implies (#[trigger] hooks[i]).name@ != (
        #[trigger] hooks[j]).name@ by {
            assert(fault(hooks, j) is None);
            assert(!repeats_name(hooks, j));
        }
        assert forall|i: int| 0 <= i < hooks.len() implies (#[trigger] hooks[i]).command@.len() > 0
            && hooks[i].timeout_seconds >= 1 && (hooks[i].idempotent || hooks[i].phase is Teardown) by {
            assert(fault(hooks, i) is None);
        }
    }
    if (forall|i: int, j: int|
        0 <= i < j < hooks.len() ==> (#[trigger] hooks[i]).name@ != (#[trigger] hooks[j]).name@) && (forall|i: int|
        0 <= i < hooks.len() ==> (#[trigger] hooks[i]).command@.len() > 0 && hooks[i].timeout_seconds >= 1 && (
        hooks[i].idempotent || hooks[i].phase is Teardown)) {
        assert forall|j: int| 0 <= j < hooks.len() implies #[trigger] fault(hooks, j) is None by {
            assert(hooks[j].timeout_seconds >= 1);
        }
    }
}

/// The timeouts of a phase add up: one more hook of the phase adds its own, one of another phase
/// adds nothing.
pub proof fn timeouts_add_up(hooks: Seq<LifecycleHook>, h: LifecycleHook, phase: HookPhase)
    ensures
        total_timeout(hooks.push(h), phase) == total_timeout(hooks, phase) + (if h.phase == phase {
            h.timeout_seconds as int
        } else {
            0
        }),
        total_timeout(Seq::empty(), phase) == 0,
{
    assert(hooks.push(h).drop_last() =~= hooks);
}

/// Hooks of a phase run by ascending order number, and those of the same number by name; every hook
/// of the phase runs, and none of another.
pub proof fn hooks_run_by_number_and_name(hooks: Seq<LifecycleHook>, phase: HookPhase, at: Seq<int>, k: int, l: int)
    requires
        is_run_order(hooks, phase, at),
        0 <= k < l < at.len(),
    ensures
        hooks[at[k]].order <= hooks[at[l]].order,
        hooks[at[k]].order == hooks[at[l]].order ==> !lex_lt(hooks[at[l]].name@, hooks[at[k]].name@),
        hooks[at[k]].phase == phase,
        forall|i: int| 0 <= i < hooks.len() ==> ((#[trigger] hooks[i]).phase == phase <==> at.contains(i)),
{
    assert(runs_before(hooks, at[k], at[l]));
    let a = hooks[at[k]].name@;
    let b = hooks[at[l]].name@;
    lex_irreflexive(a);
    if lex_lt(a, b) && lex_lt(b, a) {
        lex_transitive(a, b, a);
    }
    assert forall|i: int| 0 <= i < hooks.len() implies ((#[trigger] hooks[i]).phase == phase <==> at.contains(i)) by {
        if at.contains(i) {
            let m = at.index_of(i);
            assert(hooks[at[m]].phase == phase);
        }
    }
}

/// A failure of a hook blocks where its policy says so, and where it says nothing, in every phase
/// but the teardown.
pub proof fn failures_block_but_in_teardown(h: LifecycleHook)
    ensures
        h.failure_policy is Some ==> h.effective_policy() == h.failure_policy->0,
        h.failure_policy is None && h.phase is Teardown ==> h.effective_policy() is Warn,
        h.failure_policy is None && !(h.phase is Teardown) ==> h.effective_policy() is Block,
{
}

/// A hook is given its own timeout, but no more than the budget has left: nothing once it is spent.
pub proof fn hooks_are_given_what_is_left(h: LifecycleHook, budget: Duration, spent: int)
    requires
        0 <= spent,
    ensures
        time_for(h, None, spent) == h.timeout_seconds * 1_000_000_000,
        time_for(h, Some(budget), spent) <= h.timeout_seconds * 1_000_000_000,
        spent <= budget.nanos ==> spent + time_for(h, Some(budget), spent) <= budget.nanos,
        spent >= budget.nanos ==> time_for(h, Some(budget), spent) == 0,
        spent + h.timeout_seconds * 1_000_000_000 <= budget.nanos ==> time_for(h, Some(budget), spent)
            == h.timeout_seconds * 1_000_000_000,
        spent < budget.nanos && h.timeout_seconds > 0 ==> time_for(h, Some(budget), spent) > 0,
        spent <= budget.nanos && spent + h.timeout_seconds * 1_000_000_000 >= budget.nanos ==> time_for(
            h,
            Some(budget),
            spent,
        ) == budget.nanos - spent,
{
}

/// A hook that failed or timed out with the policy to block is what blocks a phase; one that
/// succeeded, or only warns, does not. What a hook took counts towards the budget.
pub proof fn only_failures_with_block_stop(
    run: Seq<LifecycleHook>,
    budget: Option<Duration>,
    reports: Seq<ExecReport>,
    k: int,
)
    requires
        0 <= k < run.len(),
        !progress(run, budget, reports, k).blocked,
        time_for(run[k], budget, progress(run, budget, reports, k).spent) > 0,
    ensures
        progress(run, budget, reports, k + 1).spent == progress(run, budget, reports, k).spent
            + reports[k].elapsed.nanos,
        progress(run, budget, reports, k + 1).blocked <==> (reports[k].outcome is Failed
            || reports[k].outcome is TimedOut) && run[k].effective_policy() is Block,
{
}

/// The metrics of a phase hold a line for each hook, with its name, phase, outcome and duration, and
/// say whether the phase is blocked.
#[verifier::rlimit(40)]
pub proof fn every_hook_is_measured(result: PhaseResult, k: int)
    requires
        0 <= k < result.results@.len(),
    ensures
        ({
            let r = result.results@[k];
            crate::text::occurs(
                metrics_text(result),
                "stellar_lifecycle_hook_duration_seconds{hook=\""@ + label_escaped(r.name@) + "\",phase=\""@
                    + r.phase.label() + "\",outcome=\""@ + r.outcome.label() + "\"} "@ + (dec(
                    r.duration_ms as nat / 1000,
                ) + "."@ + three_digits(r.duration_ms as nat % 1000)) + "\n"@,
            )
        }),
        ({
            let end = result.phase.label() + "\"} "@ + (if result.blocked {
                "1"@
            } else {
                "0"@
            }) + "\n"@;
            let all = metrics_text(result);
            all.len() >= end.len() && all.skip(all.len() - end.len()) == end
        }),
{
    let lines = hook_lines(result.results@);
    lines_are_written(result.results@, k);
    let mark = if result.blocked {
        "1"@
    } else {
        "0"@
    };
    let end = result.phase.label() + "\"} "@ + mark + "\n"@;
    let all = metrics_text(result);
    let head = all.take(all.len() - end.len());
    assert(all =~= head + end);
    let tail = all.skip(lines.len() as int);
    assert(all =~= lines + tail);
    crate::text::either_holds(lines, tail, hook_line(result.results@[k]));
}

proof fn lines_are_written(results: Seq<HookResult>, k: int)
    requires
        0 <= k < results.len(),
    ensures
        crate::text::occurs(hook_lines(results), hook_line(results[k])),
    decreases results.len(),
{
    let front = hook_lines(results.drop_last());
    let own = hook_line(results.last());
    if k < results.len() - 1 {
        lines_are_written(results.drop_last(), k);
    } else {
        crate::text::written_text_occurs(Seq::empty(), own, Seq::empty());
        assert(Seq::<char>::empty() + own + Seq::<char>::empty() =~= own);
    }
    crate::text::either_holds(front, own, hook_line(results[k]));
}

/// A container is refused exactly where it is missing, or has the probe or the handler that the
/// hooks would be run by.
pub proof fn containers_keep_their_own_handlers(
    pod: PodSpec,
    container: Seq<char>,
    hooks: Seq<LifecycleHook>,
    c: int,
    i: int,
)
    requires
        first_called(pod.containers@, container, c),
    ensures
        0 <= i < hooks.len() && hooks[i].phase is Readiness && pod.containers@[c].readiness_probe is Some
            ==> container_refusal(pod, container, hooks) is Some,
        0 <= i < hooks.len() && hooks[i].phase is Teardown && pod.containers@[c].pre_stop is Some
            ==> container_refusal(pod, container, hooks) is Some,
        pod.containers@[c].readiness_probe is None && pod.containers@[c].pre_stop is None ==> container_refusal(
            pod,
            container,
            hooks,
        ) is None,
        (forall|j: int| 0 <= j < hooks.len() ==> (#[trigger] hooks[j]).phase is Setup) ==> container_refusal(
            pod,
            container,
            hooks,
        ) is None,
{
    let d = choose|d: int| first_called(pod.containers@, container, d);
    first_called_is_one(pod.containers@, container, c, d);
    if 0 <= i < hooks.len() {
        assert(hooks[i].phase == HookPhase::Readiness ==> has_phase(hooks, HookPhase::Readiness));
        assert(hooks[i].phase == HookPhase::Teardown ==> has_phase(hooks, HookPhase::Teardown));
    }
}

/// In a wired pod the container runs the readiness hooks as its probe and the teardown hooks before
/// it stops, and the setup hooks run before it starts, with the image of the container itself.
#[verifier::rlimit(40)]
pub proof fn wired_pods_run_their_hooks(
    was: PodSpec,
    now: PodSpec,
    c: int,
    runner_image: Seq<char>,
    hooks: Seq<LifecycleHook>,
    json: Seq<char>,
    i: int,
)
    requires
        is_wired_pod(was, now, c, runner_image, hooks, json),
        0 <= c < was.containers@.len(),
        0 <= i < hooks.len(),
    ensures
        hooks[i].phase is Readiness ==> {
            let p = now.containers@[c].readiness_probe;
            &&& p is Some && (p->0).action is Some
            &&& views(((p->0).action->0).command@) == seq!["/stellar-hooks/stellar-hooks"@, "run"@, "readiness"@]
        },
        hooks[i].phase is Teardown ==> {
            let h = now.containers@[c].pre_stop;
            &&& h is Some && (h->0).action is Some
            &&& views(((h->0).action->0).command@) == seq!["/stellar-hooks/stellar-hooks"@, "run"@, "teardown"@]
        },
        hooks[i].phase is Setup ==> {
            let s = now.init_containers@[was.init_containers@.len() as int + 1];
            &&& now.init_containers@.len() == was.init_containers@.len() + 2
            &&& views(s.command@) == seq!["/stellar-hooks/stellar-hooks"@, "run"@, "setup"@]
            &&& s.image == was.containers@[c].image
        },
        now.containers@[c].env@.len() == was.containers@[c].env@.len() + 2,
        now.volumes@.last().name@ == "stellar-hooks"@,
        now.containers@[c].volume_mounts@.last().mount_path@ == "/stellar-hooks"@,
{
    assert(has_phase(hooks, hooks[i].phase));
    assert(runner_command(HookPhase::Readiness) =~= seq!["/stellar-hooks/stellar-hooks"@, "run"@, "readiness"@]);
    assert(runner_command(HookPhase::Teardown) =~= seq!["/stellar-hooks/stellar-hooks"@, "run"@, "teardown"@]);
    assert(runner_command(HookPhase::Setup) =~= seq!["/stellar-hooks/stellar-hooks"@, "run"@, "setup"@]);
}

/// A refusal names a hook that has the fault it tells of, and no hook before it has any; hooks that
/// take longer than the grace period are refused with both times.
pub proof fn refusals_name_the_hook(hooks: Seq<LifecycleHook>, grace_seconds: u64, e: HookValidationError)
    requires
        refused_for(hooks, grace_seconds, e),
    ensures
        e matches HookValidationError::EmptyCommand(n) ==> exists|i: int|
            0 <= i < hooks.len() && (#[trigger] hooks[i]).name@ == n@ && hooks[i].command@.len() == 0,
        e matches HookValidationError::ZeroTimeout(n) ==> exists|i: int|
            0 <= i < hooks.len() && (#[trigger] hooks[i]).name@ == n@ && hooks[i].timeout_seconds == 0,
        e matches HookValidationError::NotIdempotent(n) ==> exists|i: int|
            0 <= i < hooks.len() && (#[trigger] hooks[i]).name@ == n@ && !hooks[i].idempotent
                && !(hooks[i].phase is Teardown),
        e matches HookValidationError::DuplicateName(n) ==> exists|i: int, j: int|
            0 <= j < i < hooks.len() && (#[trigger] hooks[i]).name@ == n@ && (#[trigger] hooks[j]).name@ == n@,
        e matches HookValidationError::TeardownExceedsGrace { needed, grace } ==> grace == grace_seconds && needed
            == total_timeout(hooks, HookPhase::Teardown) && needed > grace,
        !acceptable(hooks, grace_seconds),
{
    match e {
        HookValidationError::DuplicateName(n) => {
            let i = choose|i: int| #[trigger] first_fault(hooks, i, Fault::Duplicate) && n@ == hooks[i].name@;
            assert(fault(hooks, i) is Some);
            let j = choose|j: int| 0 <= j < i && #[trigger] hooks[j].name@ == hooks[i].name@;
            assert(hooks[j].name@ == n@ && hooks[i].name@ == n@);
        },
        HookValidationError::EmptyCommand(n) => {
            let i = choose|i: int| #[trigger] first_fault(hooks, i, Fault::EmptyCommand) && n@ == hooks[i].name@;
            assert(fault(hooks, i) is Some);
        },
        HookValidationError::ZeroTimeout(n) => {
            let i = choose|i: int| #[trigger] first_fault(hooks, i, Fault::ZeroTimeout) && n@ == hooks[i].name@;
            assert(fault(hooks, i) is Some);
        },
        HookValidationError::NotIdempotent(n) => {
            let i = choose|i: int| #[trigger] first_fault(hooks, i, Fault::NotIdempotent) && n@ == hooks[i].name@;
            assert(fault(hooks, i) is Some);
        },
        HookValidationError::TeardownExceedsGrace { needed, grace } => {},
    }
}

/// Each fault is told of the hook that has it.
pub proof fn faults_are_told_by_name(n: String, needed: u64, grace: u64)
    ensures
        validation_text(HookValidationError::DuplicateName(n)) == "duplicate hook name '"@ + n@ + "'"@,
        validation_text(HookValidationError::EmptyCommand(n)) == "hook '"@ + n@ + "' has an empty command"@,
        validation_text(HookValidationError::ZeroTimeout(n)) == "hook '"@ + n@
            + "' must have a timeout greater than zero"@,
        validation_text(HookValidationError::NotIdempotent(n)) == "hook '"@ + n@
            + "' runs in a re-entrant phase and must be idempotent"@,
        validation_text(HookValidationError::TeardownExceedsGrace { needed, grace }) == "teardown hooks need "@ + dec(
            needed as nat,
        ) + "s but the grace period is "@ + dec(grace as nat) + "s"@,
{
}

/// A pod whose hooks are refused keeps all that it has; at most the probe of the named container,
/// where it had none and there are hooks for readiness, was set before.
pub proof fn refused_pods_keep_what_they_have(
    was: PodSpec,
    after: PodSpec,
    container: Seq<char>,
    hooks: Seq<LifecycleHook>,
    c: int,
)
    requires
        left_by_refusal(was, after, container, hooks),
        0 <= c < was.containers@.len(),
    ensures
        after.containers@.len() == was.containers@.len(),
        after.termination_grace_period_seconds == was.termination_grace_period_seconds,
        after.init_containers == was.init_containers,
        after.volumes == was.volumes,
        was.containers@[c].readiness_probe is Some ==> after.containers@[c] == was.containers@[c],
        was.containers@[c].name@ != container ==> after.containers@[c] == was.containers@[c],
        (forall|i: int| 0 <= i < hooks.len() ==> !((#[trigger] hooks[i]).phase is Readiness)) ==> after == was,
{
    if takes_probe(was, container, hooks) {
        let k = choose|k: int| #[trigger]
            first_called(was.containers@, container, k) && only_probe_differs(was, after, k) && is_runner_probe(
                after.containers@[k].readiness_probe,
                hooks,
            );
        let d = choose|d: int| #[trigger]
            first_called(was.containers@, container, d) && was.containers@[d].readiness_probe is None;
        assert(was.containers@[k].name@ == was.containers@[d].name@);
        if k < d {
            assert(was.containers@[k].name@ != container);
        }
        if d < k {
            assert(was.containers@[d].name@ != container);
        }
        assert(k == d);
    }
}

/// A pod is given half a minute to end where it does not say, and none where it says less than none.
pub proof fn pods_end_in_their_grace_period(pod: PodSpec)
    ensures
        pod.termination_grace_period_seconds is None ==> grace_of(pod) == 30,
        pod.termination_grace_period_seconds matches Some(g) ==> (g >= 0 ==> grace_of(pod) == g) && (g < 0 ==> grace_of(
            pod,
        ) == 0),
{
}

/// The probe of a pod waits a second longer than its hooks may take.
pub proof fn probes_outlast_their_hooks(p: Option<Probe>, hooks: Seq<LifecycleHook>)
    requires
        is_runner_probe(p, hooks),
        total_timeout(hooks, HookPhase::Readiness) < i32::MAX,
    ensures
        p is Some && (p->0).timeout_seconds is Some,
        (p->0).timeout_seconds->0 - total_timeout(hooks, HookPhase::Readiness) == 1,
{
    total_timeout_grows(hooks, HookPhase::Readiness, 0);
}

/// A wired container knows the hooks and the time it has; what runs before it installs the runner
/// where the container finds it.
pub proof fn runners_are_installed_where_they_run(
    was: Container,
    after: Container,
    hooks: Seq<LifecycleHook>,
    json: Seq<char>,
    grace: int,
    installer: Container,
    runner_image: Seq<char>,
    setup: Container,
    image: Option<String>,
)
    requires
        is_wired(was, after, hooks, json, grace),
        is_installer(installer, runner_image),
        is_setup(setup, image, json, grace),
    ensures
        installer.image is Some && (installer.image->0)@ == runner_image,
        views(installer.command@) == seq!["/stellar-hooks"@, "install"@, "/stellar-hooks/stellar-hooks"@],
        installer.volume_mounts@.len() == 1 && installer.volume_mounts@[0].mount_path@
            == after.volume_mounts@.last().mount_path@ && installer.volume_mounts@[0].name@
            == after.volume_mounts@.last().name@,
        setup.image == image && setup.volume_mounts@.len() == 1 && setup.volume_mounts@[0].mount_path@
            == installer.volume_mounts@[0].mount_path@,
        after.env@[was.env@.len() as int].value is Some && (after.env@[was.env@.len() as int].value->0)@ == json,
        after.env@[was.env@.len() as int + 1].value is Some && (after.env@[was.env@.len() as int + 1].value->0)@ == dec(
            grace as nat,
        ),
        setup.env@[0].value is Some && (setup.env@[0].value->0)@ == json,
        after.name == was.name && after.image == was.image && after.command == was.command,
        forall|i: int| 0 <= i < was.env@.len() ==> after.env@[i] == #[trigger] was.env@[i],
        forall|i: int| 0 <= i < was.volume_mounts@.len() ==> after.volume_mounts@[i] == #[trigger] was.volume_mounts@[i],
        (forall|i: int| 0 <= i < hooks.len() ==> !((#[trigger] hooks[i]).phase is Readiness)) ==> after.readiness_probe
            == was.readiness_probe,
        (forall|i: int| 0 <= i < hooks.len() ==> !((#[trigger] hooks[i]).phase is Teardown)) ==> after.pre_stop
            == was.pre_stop,
{
    assert(views(installer.command@) =~= seq!["/stellar-hooks"@, "install"@, "/stellar-hooks/stellar-hooks"@]);
    let n = was.env@.len() as int;
    let own = after.env@.skip(n);
    assert(own[0] == after.env@[n] && own[1] == after.env@[n + 1]);
    assert forall|i: int| 0 <= i < was.env@.len() implies after.env@[i] == #[trigger] was.env@[i] by {
        assert(after.env@.take(n)[i] == after.env@[i]);
    }
    assert forall|i: int| 0 <= i < was.volume_mounts@.len() implies after.volume_mounts@[i]
        == #[trigger] was.volume_mounts@[i] by {
        assert(after.volume_mounts@.drop_last()[i] == after.volume_mounts@[i]);
    }
}

/// What a hook did is recorded under its name and phase: its outcome and the milliseconds it took, or
/// that it was passed over.
pub proof fn hooks_are_recorded_as_they_went(
    run: Seq<LifecycleHook>,
    phase: HookPhase,
    budget: Option<Duration>,
    reports: Seq<ExecReport>,
    k: int,
    r: HookResult,
)
    requires
        records_hook(run, phase, budget, reports, k, r),
    ensures
        r.name@ == run[k].name@ && r.phase == phase && r.policy == run[k].effective_policy(),
        is_skipped(run[k], budget, progress(run, budget, reports, k)) ==> r.outcome is Skipped && r.duration_ms == 0,
        !is_skipped(run[k], budget, progress(run, budget, reports, k)) ==> r.outcome == reports[k].outcome
            && r.duration_ms * 1_000_000 <= reports[k].elapsed.nanos && reports[k].elapsed.nanos < (r.duration_ms + 1)
            * 1_000_000,
{
}

/// What is added to a pod goes by fixed names.
pub proof fn additions_go_by_fixed_names(
    installer: Container,
    runner_image: Seq<char>,
    setup: Container,
    image: Option<String>,
    json: Seq<char>,
    grace: int,
)
    requires
        is_installer(installer, runner_image),
        is_setup(setup, image, json, grace),
    ensures
        installer.name@ == "stellar-hooks-install"@ && setup.name@ == "stellar-hooks-setup"@,
        installer.env@.len() == 0 && setup.env@.len() == 2,
        setup.env@[0].name@ == HOOKS_ENV@ && setup.env@[1].name@ == GRACE_ENV@,
        setup.env@[1].value is Some && (setup.env@[1].value->0)@ == dec(grace as nat),
        installer.readiness_probe is None && installer.pre_stop is None,
        setup.readiness_probe is None && setup.pre_stop is None,
        setup.volume_mounts@[0].name@ == installer.volume_mounts@[0].name@,
{
}

} // verus!
