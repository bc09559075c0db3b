//! The lifecycle of change requests.

use vstd::prelude::*;
#[allow(unused_imports)]
use vstd::string::*;
use crate::approval::audit::ApprovalAuditEntry;
#[allow(unused_imports)]
use crate::approval::crd::{
    Approval, ApprovalDecision, ApprovalState, Approver, ChangeRequest, ChangeRequestCondition, ChangeRequestPhase,
    ChangeRequestSpec, ChangeRequestStatus,
};
use crate::error::Error;
#[allow(unused_imports)]
use crate::seqs::{filter_holds, filter_none, filter_step};
#[allow(unused_imports)]
use crate::text::{dec, decimal, same};

verus! {

/// How many of the votes approve.
pub open spec fn approving(votes: Seq<Approval>) -> nat
    decreases votes.len(),
{
    if votes.len() == 0 {
        0
    } else {
        approving(votes.drop_last()) + (if votes.last().decision == ApprovalDecision::Approve {
            1nat
        } else {
            0nat
        })
    }
}

/// How many of the votes approve and were cast by `end`.
pub open spec fn approving_by(votes: Seq<Approval>, end: i64) -> nat
    decreases votes.len(),
{
    if votes.len() == 0 {
        0
    } else {
        approving_by(votes.drop_last(), end) + (if votes.last().decision == ApprovalDecision::Approve
            && votes.last().timestamp <= end {
            1nat
        } else {
            0nat
        })
    }
}

/// `identity` is a required approver.
pub open spec fn is_required(approvers: Seq<Approver>, identity: Seq<char>) -> bool {
    exists|i: int| 0 <= i < approvers.len() && #[trigger] approvers[i].identity@ == identity && approvers[i].required
}

/// A required approver voted against the change.
pub open spec fn required_rejection(spec_: ChangeRequestSpec, votes: Seq<Approval>) -> bool {
    exists|i: int|
        0 <= i < votes.len() && #[trigger] votes[i].decision == ApprovalDecision::Reject && is_required(
            spec_.required_approvers@,
            votes[i].approver.identity@,
        )
}

/// What reconciling a change request comes to.
#[derive(Debug, Clone, Copy, PartialEq, Eq, Structural)]
pub enum Verdict {
    /// It expired without reaching quorum.
    Expire,
    /// It is taken up for review.
    StartReview,
    /// A required approver rejected it.
    Reject,
    /// It has enough approvals.
    Approve,
    /// It waits for more approvals.
    Wait,
    /// It is approved and is to be executed.
    BeginExecution,
    /// It is to be executed now.
    Execute,
    /// Nothing changes.
    Keep,
}

/// The approvals suffice.
pub open spec fn quorum(spec_: ChangeRequestSpec, status: ChangeRequestStatus) -> bool {
    approving(status.approvals@) as u32 >= spec_.min_approvals
}

/// The request expired without reaching quorum: its time is over, nothing was decided, and the
/// approvals that came in time do not suffice.
pub open spec fn has_expired(spec_: ChangeRequestSpec, status: ChangeRequestStatus, now: i64) -> bool {
    &&& status.expires_at matches Some(e) && now > e && (approving_by(status.approvals@, e) as u32)
        < spec_.min_approvals
    &&& status.approval_state == ApprovalState::Pending
}

/// What reconciling a change request comes to.
pub open spec fn verdict(spec_: ChangeRequestSpec, status: ChangeRequestStatus, now: i64) -> Verdict {
    if has_expired(spec_, status, now) {
        Verdict::Expire
    } else {
        match status.phase {
            ChangeRequestPhase::Pending => Verdict::StartReview,
            ChangeRequestPhase::UnderReview => if required_rejection(spec_, status.approvals@) {
                Verdict::Reject
            } else if quorum(spec_, status) {
                Verdict::Approve
            } else {
                Verdict::Wait
            },
            ChangeRequestPhase::Approved => if spec_.auto_execute {
                Verdict::BeginExecution
            } else {
                Verdict::Keep
            },
            ChangeRequestPhase::Executing => Verdict::Execute,
            _ => Verdict::Keep,
        }
    }
}

/// The status after a review in which votes were counted.
pub open spec fn counted(spec_: ChangeRequestSpec, s: ChangeRequestStatus) -> ChangeRequestStatus {
    ChangeRequestStatus {
        approvals_received: approving(s.approvals@) as u32,
        approvals_required: spec_.min_approvals,
        quorum_reached: quorum(spec_, s),
        ..s
    }
}

/// The status that reconciling gives, but for the condition that an expiry adds.
pub open spec fn reviewed(spec_: ChangeRequestSpec, s: ChangeRequestStatus, now: i64) -> ChangeRequestStatus {
    match verdict(spec_, s, now) {
        Verdict::Expire => ChangeRequestStatus {
            approval_state: ApprovalState::Expired,
            phase: ChangeRequestPhase::Expired,
            last_updated: now,
            ..s
        },
        Verdict::StartReview => ChangeRequestStatus {
            phase: ChangeRequestPhase::UnderReview,
            last_updated: now,
            ..s
        },
        Verdict::Reject => ChangeRequestStatus {
            approval_state: ApprovalState::Rejected,
            phase: ChangeRequestPhase::Rejected,
            last_updated: now,
            ..counted(spec_, s)
        },
        Verdict::Approve => ChangeRequestStatus {
            approval_state: ApprovalState::Approved,
            phase: if spec_.auto_execute {
                ChangeRequestPhase::Executing
            } else {
                ChangeRequestPhase::Approved
            },
            last_updated: now,
            ..counted(spec_, s)
        },
        Verdict::Wait => counted(spec_, s),
        Verdict::BeginExecution => ChangeRequestStatus {
            phase: ChangeRequestPhase::Executing,
            last_updated: now,
            ..s
        },
        Verdict::Execute => s,
        Verdict::Keep => s,
    }
}

/// The condition that an expiry adds.
pub open spec fn is_expiry(c: ChangeRequestCondition, now: i64, generation: Option<i64>) -> bool {
    &&& c.type_@ == "Expired"@
    &&& c.status@ == "True"@
    &&& c.reason@ == "TTLExpired"@
    &&& c.message@ == "ChangeRequest expired without reaching quorum"@
    &&& c.last_transition_time == Some(now)
    &&& c.observed_generation == generation
}

/// An audit entry of the controller about this change request.
pub open spec fn is_entry(
    e: ApprovalAuditEntry,
    name: Seq<char>,
    namespace: Seq<char>,
    action: Seq<char>,
    details: Seq<char>,
    now: i64,
) -> bool {
    &&& e.change_request@ == name
    &&& e.namespace@ == namespace
    &&& e.action@ == action
    &&& e.actor@ == "system"@
    &&& e.details@ == details
    &&& e.timestamp == now
}

/// The audit entry that a verdict leaves: action and details.
pub open spec fn trail(spec_: ChangeRequestSpec, s: ChangeRequestStatus, v: Verdict) -> Option<(Seq<char>, Seq<char>)> {
    match v {
        Verdict::StartReview => Some(
            (
                "ReviewStarted"@,
                "ChangeRequest entered review phase for operation: "@ + spec_.operation.class.label(),
            ),
        ),
        Verdict::Reject => Some(("Rejected"@, "Required approver rejected the change"@)),
        Verdict::Approve => Some(
            (
                "Approved"@,
                "Quorum reached with "@ + dec((approving(s.approvals@) as u32) as nat) + "/"@ + dec(
                    spec_.min_approvals as nat,
                ) + " approvals"@,
            ),
        ),
        _ => None,
    }
}

/// The outcome of one reconciliation. The caller records `audit`, then carries out the
/// change where `verdict` is `Execute`, then publishes `status`. After an expiry it waits
/// for the next change of the request; else it looks again after its interval.
pub struct Reconciled {
    pub verdict: Verdict,
    pub status: ChangeRequestStatus,
    pub audit: Option<ApprovalAuditEntry>,
}

/// How many of the votes approve.
fn count_approving(votes: &Vec<Approval>) -> (n: usize)
    ensures
        n == approving(votes@),
{
    let mut n: usize = 0;
    let mut i: usize = 0;
    while i < votes.len()
        invariant
            i <= votes@.len(),
            n <= i,
            n == approving(votes@.take(i as int)),
        decreases votes@.len() - i,
    {
        proof {
            assert(votes@.take(i as int + 1).drop_last() =~= votes@.take(i as int));
        }
        if votes[i].decision == ApprovalDecision::Approve {
            n = n + 1;
        }
        i = i + 1;
    }
    proof {
        assert(votes@.take(votes@.len() as int) =~= votes@);
    }
    n
}

/// How many of the votes approve and were cast by `end`.
fn count_approving_by(votes: &Vec<Approval>, end: i64) -> (n: usize)
    ensures
        n == approving_by(votes@, end),
{
    let mut n: usize = 0;
    let mut i: usize = 0;
    while i < votes.len()
        invariant
            i <= votes@.len(),
            n <= i,
            n == approving_by(votes@.take(i as int), end),
        decreases votes@.len() - i,
    {
        proof {
            assert(votes@.take(i as int + 1).drop_last() =~= votes@.take(i as int));
        }
        if votes[i].decision == ApprovalDecision::Approve && votes[i].timestamp <= end {
            n = n + 1;
        }
        i = i + 1;
    }
    proof {
        assert(votes@.take(votes@.len() as int) =~= votes@);
    }
    n
}

/// Whether `identity` is a required approver.
fn required(approvers: &Vec<Approver>, identity: &str) -> (r: bool)
    ensures
        r == is_required(approvers@, identity@),
{
    let mut i: usize = 0;
    while i < approvers.len()
        invariant
            i <= approvers@.len(),
            forall|k: int|
                0 <= k < i ==> !(#[trigger] approvers@[k].identity@ == identity@ && approvers@[k].required),
        decreases approvers@.len() - i,
    {
        if same(approvers[i].identity.as_str(), identity) && approvers[i].required {
            return true;
        }
        i = i + 1;
    }
    false
}

/// Whether a required approver voted against the change.
fn rejected_by_required(spec_: &ChangeRequestSpec, votes: &Vec<Approval>) -> (r: bool)
    ensures
        r == required_rejection(*spec_, votes@),
{
    let mut i: usize = 0;
    while i < votes.len()
        invariant
            i <= votes@.len(),
            forall|k: int|
                0 <= k < i ==> !(#[trigger] votes@[k].decision == ApprovalDecision::Reject && is_required(
                    spec_.required_approvers@,
                    votes@[k].approver.identity@,
                )),
        decreases votes@.len() - i,
    {
        if votes[i].decision == ApprovalDecision::Reject && required(
            &spec_.required_approvers,
            votes[i].approver.identity.as_str(),
        ) {
            return true;
        }
        i = i + 1;
    }
    false
}

/// An audit entry of the controller.
fn system_entry(name: &str, namespace: &str, action: &str, details: String, now: i64) -> (e: ApprovalAuditEntry)
    ensures
        is_entry(e, name@, namespace@, action@, details@, now),
{
    ApprovalAuditEntry {
        change_request: name.to_owned(),
        namespace: namespace.to_owned(),
        action: action.to_owned(),
        actor: "system".to_owned(),
        details,
        timestamp: now,
    }
}

/// Reconciles a change request that has this status.
pub fn reconcile(
    name: &str,
    namespace: &str,
    generation: Option<i64>,
    spec_: &ChangeRequestSpec,
    status: ChangeRequestStatus,
    now: i64,
) -> (r: Reconciled)
    ensures
        r.verdict == verdict(*spec_, status, now),
        r.verdict != Verdict::Expire ==> r.status == reviewed(*spec_, status, now),
        r.verdict == Verdict::Expire ==> {
            &&& (ChangeRequestStatus { conditions: status.conditions, ..r.status }) == reviewed(*spec_, status, now)
            &&& r.status.conditions@.len() == status.conditions@.len() + 1
            &&& r.status.conditions@.drop_last() == status.conditions@
            &&& is_expiry(r.status.conditions@.last(), now, generation)
        },
        match trail(*spec_, status, r.verdict) {
            Some((action, details)) => r.audit matches Some(e) && is_entry(
                e,
                name@,
                namespace@,
                action,
                details,
                now,
            ),
            None => r.audit is None,
        },
{
    let ghost was = status;
    let mut status = status;
    if let Some(expires_at) = status.expires_at {
        if now > expires_at && status.approval_state == ApprovalState::Pending && (count_approving_by(
            &status.approvals,
            expires_at,
        ) as u32) < spec_.min_approvals {
            status.approval_state = ApprovalState::Expired;
            status.phase = ChangeRequestPhase::Expired;
            status.last_updated = now;
            status.conditions.push(
                ChangeRequestCondition {
                    type_: "Expired".to_owned(),
                    status: "True".to_owned(),
                    reason: "TTLExpired".to_owned(),
                    message: "ChangeRequest expired without reaching quorum".to_owned(),
                    last_transition_time: Some(now),
                    observed_generation: generation,
                },
            );
            proof {
                assert(status.conditions@.drop_last() =~= was.conditions@);
            }
            return Reconciled { verdict: Verdict::Expire, status, audit: None };
        }
    }
    match status.phase {
        ChangeRequestPhase::Pending => {
            status.phase = ChangeRequestPhase::UnderReview;
            status.last_updated = now;
            let mut details = "ChangeRequest entered review phase for operation: ".to_owned();
            details.append(spec_.operation.class.name().as_str());
            let audit = Some(system_entry(name, namespace, "ReviewStarted", details, now));
            Reconciled { verdict: Verdict::StartReview, status, audit }
        },
        ChangeRequestPhase::UnderReview => {
            let received: u32 = count_approving(&status.approvals) as u32;
            status.approvals_received = received;
            status.approvals_required = spec_.min_approvals;
            status.quorum_reached = received >= spec_.min_approvals;
            if rejected_by_required(spec_, &status.approvals) {
                status.approval_state = ApprovalState::Rejected;
                status.phase = ChangeRequestPhase::Rejected;
                status.last_updated = now;
                let audit = Some(
                    system_entry(
                        name,
                        namespace,
                        "Rejected",
                        "Required approver rejected the change".to_owned(),
                        now,
                    ),
                );
                Reconciled { verdict: Verdict::Reject, status, audit }
            } else if status.quorum_reached {
                status.approval_state = ApprovalState::Approved;
                status.phase = ChangeRequestPhase::Approved;
                status.last_updated = now;
                let mut details = "Quorum reached with ".to_owned();
                details.append(decimal(received as u64).as_str());
                details.append("/");
                details.append(decimal(spec_.min_approvals as u64).as_str());
                details.append(" approvals");
                let audit = Some(system_entry(name, namespace, "Approved", details, now));
                if spec_.auto_execute {
                    status.phase = ChangeRequestPhase::Executing;
                    status.last_updated = now;
                }
                Reconciled { verdict: Verdict::Approve, status, audit }
            } else {
                Reconciled { verdict: Verdict::Wait, status, audit: None }
            }
        },
        ChangeRequestPhase::Approved => {
            if spec_.auto_execute {
                status.phase = ChangeRequestPhase::Executing;
                status.last_updated = now;
                Reconciled { verdict: Verdict::BeginExecution, status, audit: None }
            } else {
                Reconciled { verdict: Verdict::Keep, status, audit: None }
            }
        },
        ChangeRequestPhase::Executing => Reconciled { verdict: Verdict::Execute, status, audit: None },
        _ => Reconciled { verdict: Verdict::Keep, status, audit: None },
    }
}

/// Enters the outcome of carrying out the change into the status; gives the audit entry.
pub fn record_execution(
    name: &str,
    namespace: &str,
    status: ChangeRequestStatus,
    outcome: Result<String, String>,
    now: i64,
) -> (r: (ChangeRequestStatus, ApprovalAuditEntry))
    ensures
        (ChangeRequestStatus { execution_result: status.execution_result, ..r.0 }) == (ChangeRequestStatus {
            phase: if outcome is Ok {
                ChangeRequestPhase::Executed
            } else {
                ChangeRequestPhase::Failed
            },
            approval_state: if outcome is Ok {
                ApprovalState::Executed
            } else {
                ApprovalState::Failed
            },
            executed_at: Some(now),
            last_updated: now,
            ..status
        }),
        match outcome {
            Ok(result) => r.0.execution_result == Some(result) && is_entry(
                r.1,
                name@,
                namespace@,
                "Executed"@,
                "ChangeRequest executed successfully"@,
                now,
            ),
            Err(e) => (r.0.execution_result matches Some(t) && t@ == "Execution failed: "@ + e@) && is_entry(
                r.1,
                name@,
                namespace@,
                "ExecutionFailed"@,
                "ChangeRequest execution failed: "@ + e@,
                now,
            ),
        },
{
    let mut status = status;
    status.executed_at = Some(now);
    status.last_updated = now;
    match outcome {
        Ok(result) => {
            status.phase = ChangeRequestPhase::Executed;
            status.approval_state = ApprovalState::Executed;
            status.execution_result = Some(result);
            let entry = system_entry(
                name,
                namespace,
                "Executed",
                "ChangeRequest executed successfully".to_owned(),
                now,
            );
            (status, entry)
        },
        Err(e) => {
            status.phase = ChangeRequestPhase::Failed;
            status.approval_state = ApprovalState::Failed;
            let mut text = "Execution failed: ".to_owned();
            text.append(e.as_str());
            status.execution_result = Some(text);
            let mut details = "ChangeRequest execution failed: ".to_owned();
            details.append(e.as_str());
            let entry = system_entry(name, namespace, "ExecutionFailed", details, now);
            (status, entry)
        },
    }
}

/// A request that has been decided stays as it is: reconciling neither changes it nor
/// leaves a trace.
pub proof fn decided_requests_stay(spec_: ChangeRequestSpec, status: ChangeRequestStatus, now: i64)
    requires
        status.phase is Rejected || status.phase is Expired || status.phase is Executed || status.phase is Failed,
        status.approval_state != ApprovalState::Pending,
    ensures
        verdict(spec_, status, now) == Verdict::Keep,
        reviewed(spec_, status, now) == status,
        trail(spec_, status, verdict(spec_, status, now)) is None,
{
}

/// A change that a required approver rejected is never approved, however many approve.
pub proof fn required_rejection_prevails(spec_: ChangeRequestSpec, status: ChangeRequestStatus, now: i64)
    requires
        status.phase is UnderReview,
        required_rejection(spec_, status.approvals@),
    ensures
        verdict(spec_, status, now) is Reject || verdict(spec_, status, now) is Expire,
        !(reviewed(spec_, status, now).approval_state is Approved) || status.approval_state is Approved,
{
}

/// A change under review is approved only with a quorum, and a pending one is executed
/// only after that.
pub proof fn approval_needs_quorum(spec_: ChangeRequestSpec, status: ChangeRequestStatus, now: i64)
    requires
        verdict(spec_, status, now) is Approve,
    ensures
        quorum(spec_, status),
        !required_rejection(spec_, status.approvals@),
        status.phase is UnderReview,
{
}

/// One more approving vote raises the count by one.
pub proof fn votes_count(votes: Seq<Approval>, vote: Approval)
    ensures
        approving(votes.push(vote)) == approving(votes) + (if vote.decision == ApprovalDecision::Approve {
            1nat
        } else {
            0nat
        }),
{
    assert(votes.push(vote).drop_last() =~= votes);
}

/// What carrying out the change reports.
pub fn execute_change(spec_: &ChangeRequestSpec) -> (out: String)
    ensures
        out@ == "Successfully applied change to "@ + spec_.operation.target_ref.kind@ + "/"@
            + spec_.operation.target_ref.name@ + " (simulated)"@,
{
    let mut out = "Successfully applied change to ".to_owned();
    out.append(spec_.operation.target_ref.kind.as_str());
    out.append("/");
    out.append(spec_.operation.target_ref.name.as_str());
    out.append(" (simulated)");
    out
}

/// `identity` is among the approvers.
pub open spec fn is_listed(approvers: Seq<Approver>, identity: Seq<char>) -> bool {
    exists|i: int| 0 <= i < approvers.len() && #[trigger] approvers[i].identity@ == identity
}

/// `identity` has voted.
pub open spec fn has_voted(votes: Seq<Approval>, identity: Seq<char>) -> bool {
    exists|i: int| 0 <= i < votes.len() && #[trigger] votes[i].approver.identity@ == identity
}

/// Why a vote is refused.
pub open spec fn vote_refusal(
    spec_: ChangeRequestSpec,
    status: ChangeRequestStatus,
    identity: Seq<char>,
) -> Option<Seq<char>> {
    if status.approval_state != ApprovalState::Pending {
        Some("ChangeRequest is no longer pending"@)
    } else if !is_listed(spec_.required_approvers@, identity) && !is_listed(spec_.optional_approvers@, identity) {
        Some("Approver "@ + identity + " is not authorized for this change"@)
    } else if has_voted(status.approvals@, identity) {
        Some("Approver has already voted"@)
    } else {
        None
    }
}

/// Whether `identity` is among the approvers.
fn listed(approvers: &Vec<Approver>, identity: &str) -> (r: bool)
    ensures
        r == is_listed(approvers@, identity@),
{
    let mut i: usize = 0;
    while i < approvers.len()
        invariant
            i <= approvers@.len(),
            forall|k: int| 0 <= k < i ==> #[trigger] approvers@[k].identity@ != identity@,
        decreases approvers@.len() - i,
    {
        if same(approvers[i].identity.as_str(), identity) {
            return true;
        }
        i = i + 1;
    }
    false
}

/// Whether `identity` has voted.
fn voted(votes: &Vec<Approval>, identity: &str) -> (r: bool)
    ensures
        r == has_voted(votes@, identity@),
{
    let mut i: usize = 0;
    while i < votes.len()
        invariant
            i <= votes@.len(),
            forall|k: int| 0 <= k < i ==> #[trigger] votes@[k].approver.identity@ != identity@,
        decreases votes@.len() - i,
    {
        if same(votes[i].approver.identity.as_str(), identity) {
            return true;
        }
        i = i + 1;
    }
    false
}

/// Adds a vote to a change request: only while it is pending, only by an approver of it,
/// and only once.
pub fn add_approval(
    spec_: &ChangeRequestSpec,
    status: ChangeRequestStatus,
    approval: Approval,
    now: i64,
) -> (r: Result<ChangeRequestStatus, Error>)
    ensures
        match vote_refusal(*spec_, status, approval.approver.identity@) {
            Some(why) => r matches Err(Error::ValidationError(text)) && text@ == why,
            None => r matches Ok(s) && (ChangeRequestStatus {
                approvals: status.approvals,
                last_updated: status.last_updated,
                ..s
            }) == status && s.approvals@ == status.approvals@.push(approval) && s.last_updated == now,
        },
{
    let identity = approval.approver.identity.clone();
    if status.approval_state != ApprovalState::Pending {
        return Err(Error::ValidationError("ChangeRequest is no longer pending".to_owned()));
    }
    if !listed(&spec_.required_approvers, identity.as_str()) && !listed(
        &spec_.optional_approvers,
        identity.as_str(),
    ) {
        let mut text = "Approver ".to_owned();
        text.append(identity.as_str());
        text.append(" is not authorized for this change");
        return Err(Error::ValidationError(text));
    }
    if voted(&status.approvals, identity.as_str()) {
        return Err(Error::ValidationError("Approver has already voted".to_owned()));
    }
    let mut status = status;
    status.approvals.push(approval);
    status.last_updated = now;
    Ok(status)
}

/// No approver has more than one vote.
pub open spec fn one_vote_each(votes: Seq<Approval>) -> bool {
    forall|i: int, j: int|
        0 <= i < j < votes.len() ==> #[trigger] votes[i].approver.identity@ != #[trigger] votes[j].approver.identity@
}

/// Where no approver has more than one vote, none has after one more vote was accepted;
/// so a quorum stands for that many different approvers.
pub proof fn votes_stay_single(spec_: ChangeRequestSpec, status: ChangeRequestStatus, approval: Approval)
    requires
        one_vote_each(status.approvals@),
        vote_refusal(spec_, status, approval.approver.identity@) is None,
    ensures
        one_vote_each(status.approvals@.push(approval)),
{
    let more = status.approvals@.push(approval);
    assert forall|i: int, j: int| 0 <= i < j < more.len() implies #[trigger] more[i].approver.identity@
        != #[trigger] more[j].approver.identity@ by {
        assert(more[i] == status.approvals@[i]);
        if j < status.approvals@.len() {
            assert(more[j] == status.approvals@[j]);
        }
    }
}

/// The request waits for approvals.
pub open spec fn is_pending(cr: ChangeRequest) -> bool {
    cr.status matches Some(s) && s.approval_state == ApprovalState::Pending
}

/// The change requests that wait for approvals.
pub fn list_pending<'a>(items: &'a Vec<ChangeRequest>) -> (out: Vec<&'a ChangeRequest>)
    ensures
        out@.map_values(|c: &ChangeRequest| *c) == items@.filter(|c: ChangeRequest| is_pending(c)),
{
    let ghost wanted = |c: ChangeRequest| is_pending(c);
    let ghost plain = |c: &ChangeRequest| *c;
    let mut out: Vec<&'a ChangeRequest> = Vec::new();
    let mut i: usize = 0;
    proof {
        filter_none(items@, wanted);
        assert(out@.map_values(plain) =~= Seq::<ChangeRequest>::empty());
    }
    while i < items.len()
        invariant
            i <= items@.len(),
            wanted == (|c: ChangeRequest| is_pending(c)),
            plain == (|c: &ChangeRequest| *c),
            out@.map_values(plain) == items@.take(i as int).filter(wanted),
        decreases items@.len() - i,
    {
        proof {
            filter_step(items@, i as int, wanted);
        }
        let ghost was = out@;
        if let Some(s) = &items[i].status {
            if s.approval_state == ApprovalState::Pending {
                out.push(&items[i]);
                proof {
                    assert(out@.map_values(plain) =~= was.map_values(plain).push(items@[i as int]));
                }
            }
        }
        i = i + 1;
    }
    proof {
        assert(items@.take(items@.len() as int) =~= items@);
    }
    out
}

/// The approving votes are those whose decision is to approve.
proof fn approving_votes(votes: Seq<Approval>)
    ensures
        approving(votes) == votes.filter(|v: Approval| v.decision is Approve).len(),
    decreases votes.len(),
{
    let wanted = |v: Approval| v.decision is Approve;
    if votes.len() > 0 {
        approving_votes(votes.drop_last());
        filter_step(votes, votes.len() - 1, wanted);
        assert(votes.take(votes.len() as int) =~= votes);
        assert(votes.take(votes.len() - 1) =~= votes.drop_last());
    } else {
        filter_none(votes, wanted);
        assert(votes.take(0) =~= votes);
    }
}

/// The approving votes that came in time are those that approve and were cast by the end.
proof fn approving_votes_in_time(votes: Seq<Approval>, end: i64)
    ensures
        approving_by(votes, end) == votes.filter(|v: Approval| v.decision is Approve && v.timestamp <= end).len(),
    decreases votes.len(),
{
    let wanted = |v: Approval| v.decision is Approve && v.timestamp <= end;
    if votes.len() > 0 {
        approving_votes_in_time(votes.drop_last(), end);
        filter_step(votes, votes.len() - 1, wanted);
        assert(votes.take(votes.len() as int) =~= votes);
        assert(votes.take(votes.len() - 1) =~= votes.drop_last());
    } else {
        filter_none(votes, wanted);
        assert(votes.take(0) =~= votes);
    }
}

/// A change is approved only where at least as many votes approve as its request asks for, and
/// a review says that the quorum is reached exactly then.
pub proof fn enough_votes_approve(spec_: ChangeRequestSpec, status: ChangeRequestStatus, now: i64)
    requires
        status.approvals@.len() <= u32::MAX,
    ensures
        verdict(spec_, status, now) is Approve ==> status.phase is UnderReview && status.approvals@.filter(
            |v: Approval| v.decision is Approve,
        ).len() >= spec_.min_approvals,
        status.phase is UnderReview && !(verdict(spec_, status, now) is Expire) ==> {
            let after = reviewed(spec_, status, now);
            let n = status.approvals@.filter(|v: Approval| v.decision is Approve).len();
            &&& after.quorum_reached <==> n >= spec_.min_approvals
            &&& after.approvals_received == n
            &&& after.approvals_required == spec_.min_approvals
        },
        reviewed(spec_, status, now).approval_state is Approved && !(status.approval_state is Approved)
            ==> status.approvals@.filter(|v: Approval| v.decision is Approve).len() >= spec_.min_approvals,
{
    approving_votes(status.approvals@);
    status.approvals@.filter_lemma(|v: Approval| v.decision is Approve);
    approving_is_bounded(status.approvals@);
}

proof fn approving_is_bounded(votes: Seq<Approval>)
    ensures
        approving(votes) <= votes.len(),
    decreases votes.len(),
{
    if votes.len() > 0 {
        approving_is_bounded(votes.drop_last());
    }
}

proof fn approving_in_time_is_bounded(votes: Seq<Approval>, end: i64)
    ensures
        approving_by(votes, end) <= approving(votes),
        approving_by(votes, end) <= votes.len(),
    decreases votes.len(),
{
    if votes.len() > 0 {
        approving_in_time_is_bounded(votes.drop_last(), end);
    }
}

/// A change under review whose time is not over, that no required approver rejected, is
/// approved as soon as enough votes approve, and waits until then.
pub proof fn reviews_wait_for_enough_votes(spec_: ChangeRequestSpec, status: ChangeRequestStatus, now: i64)
    requires
        status.approvals@.len() <= u32::MAX,
        status.phase is UnderReview,
        status.expires_at matches Some(e) ==> now <= e,
        forall|i: int, j: int|
            0 <= i < status.approvals@.len() && 0 <= j < spec_.required_approvers@.len() && (
            #[trigger] status.approvals@[i]).decision is Reject && status.approvals@[i].approver.identity@ == (
            #[trigger] spec_.required_approvers@[j]).identity@ ==> !spec_.required_approvers@[j].required,
    ensures
        status.approvals@.filter(|v: Approval| v.decision is Approve).len() >= spec_.min_approvals ==> {
            &&& verdict(spec_, status, now) is Approve
            &&& reviewed(spec_, status, now).approval_state is Approved
            &&& reviewed(spec_, status, now).phase is Executing <==> spec_.auto_execute
            &&& reviewed(spec_, status, now).phase is Approved <==> !spec_.auto_execute
        },
        status.approvals@.filter(|v: Approval| v.decision is Approve).len() < spec_.min_approvals ==> {
            &&& verdict(spec_, status, now) is Wait
            &&& reviewed(spec_, status, now).approval_state == status.approval_state
            &&& reviewed(spec_, status, now).phase is UnderReview
        },
{
    approving_votes(status.approvals@);
    approving_is_bounded(status.approvals@);
    if required_rejection(spec_, status.approvals@) {
        let i = choose|i: int|
            0 <= i < status.approvals@.len() && #[trigger] status.approvals@[i].decision == ApprovalDecision::Reject
                && is_required(spec_.required_approvers@, status.approvals@[i].approver.identity@);
        let id = status.approvals@[i].approver.identity@;
        let j = choose|j: int|
            0 <= j < spec_.required_approvers@.len() && #[trigger] spec_.required_approvers@[j].identity@ == id
                && spec_.required_approvers@[j].required;
        assert(status.approvals@[i].decision is Reject);
        assert(!spec_.required_approvers@[j].required);
    }
}

/// A required approver's vote against a change under review rejects it unless it has expired,
/// however many approve; the vote of an approver who is not required does not.
pub proof fn one_required_vote_rejects(
    spec_: ChangeRequestSpec,
    status: ChangeRequestStatus,
    now: i64,
    i: int,
    j: int,
)
    requires
        status.phase is UnderReview,
        0 <= i < status.approvals@.len(),
        0 <= j < spec_.required_approvers@.len(),
        status.approvals@[i].decision is Reject,
        spec_.required_approvers@[j].required,
        spec_.required_approvers@[j].identity@ == status.approvals@[i].approver.identity@,
        status.expires_at matches Some(e) ==> now <= e,
    ensures
        verdict(spec_, status, now) is Reject,
        reviewed(spec_, status, now).approval_state is Rejected,
        reviewed(spec_, status, now).phase is Rejected,
{
    assert(is_required(spec_.required_approvers@, status.approvals@[i].approver.identity@));
    assert(status.approvals@[i].decision == ApprovalDecision::Reject);
}

/// A request expires exactly where it is undecided after its time with fewer approving votes
/// cast in time than it asks for; one without an end never does, and before its end none does.
pub proof fn requests_expire_after_their_time(spec_: ChangeRequestSpec, status: ChangeRequestStatus, now: i64)
    requires
        status.approvals@.len() <= u32::MAX,
    ensures
        verdict(spec_, status, now) is Expire ==> {
            &&& status.approval_state is Pending
            &&& status.expires_at is Some
            &&& status.expires_at->0 < now
            &&& reviewed(spec_, status, now).phase is Expired
            &&& reviewed(spec_, status, now).approval_state is Expired
        },
        status.approval_state is Pending && status.expires_at is Some && status.expires_at->0 < now ==> (verdict(
            spec_,
            status,
            now,
        ) is Expire <==> status.approvals@.filter(
            |v: Approval| v.decision is Approve && v.timestamp <= status.expires_at->0,
        ).len() < spec_.min_approvals),
{
    if status.expires_at is Some {
        approving_votes_in_time(status.approvals@, status.expires_at->0);
        approving_in_time_is_bounded(status.approvals@, status.expires_at->0);
    }
}

/// Only an approved change is carried out: execution begins where a change is approved and is
/// to run by itself, and a change is executed only in its executing phase.
pub proof fn only_approved_changes_run(spec_: ChangeRequestSpec, status: ChangeRequestStatus, now: i64)
    ensures
        verdict(spec_, status, now) is BeginExecution ==> status.phase is Approved && spec_.auto_execute && reviewed(
            spec_,
            status,
            now,
        ).phase is Executing,
        verdict(spec_, status, now) is Execute ==> status.phase is Executing,
        reviewed(spec_, status, now).phase is Executing && !(status.phase is Executing) ==> spec_.auto_execute && (
        status.phase is Approved || verdict(spec_, status, now) is Approve),
        !spec_.auto_execute && status.phase is Approved && !(status.approval_state is Pending) ==> verdict(
            spec_,
            status,
            now,
        ) is Keep,
        status.phase is Pending && !(verdict(spec_, status, now) is Expire) ==> reviewed(
            spec_,
            status,
            now,
        ).phase is UnderReview,
{
}

/// A vote counts only while the request is pending, by an approver of it, and once: the votes of
/// others, later votes and second votes are refused, and every other vote is taken.
pub proof fn approvers_vote_once(spec_: ChangeRequestSpec, status: ChangeRequestStatus, identity: Seq<char>)
    ensures
        vote_refusal(spec_, status, identity) is None <==> {
            &&& status.approval_state is Pending
            &&& (exists|i: int|
                0 <= i < spec_.required_approvers@.len() && (#[trigger] spec_.required_approvers@[i]).identity@
                    == identity) || (exists|i: int|
                0 <= i < spec_.optional_approvers@.len() && (#[trigger] spec_.optional_approvers@[i]).identity@
                    == identity)
            &&& forall|i: int|
                0 <= i < status.approvals@.len() ==> (#[trigger] status.approvals@[i]).approver.identity@ != identity
        },
{
    if is_listed(spec_.required_approvers@, identity) {
        let i = choose|i: int|
            0 <= i < spec_.required_approvers@.len() && #[trigger] spec_.required_approvers@[i].identity@ == identity;
        assert(spec_.required_approvers@[i].identity@ == identity);
    }
    if is_listed(spec_.optional_approvers@, identity) {
        let i = choose|i: int|
            0 <= i < spec_.optional_approvers@.len() && #[trigger] spec_.optional_approvers@[i].identity@ == identity;
        assert(spec_.optional_approvers@[i].identity@ == identity);
    }
    if forall|i: int|
        0 <= i < status.approvals@.len() ==> (#[trigger] status.approvals@[i]).approver.identity@ != identity {
        assert(!has_voted(status.approvals@, identity));
    }
}

/// What is written down of a change request is dated now and names the request, by the system; an
/// expiry is dated now as well and belongs to the generation that expired.
pub proof fn records_are_dated_now(
    e: ApprovalAuditEntry,
    name: Seq<char>,
    namespace: Seq<char>,
    action: Seq<char>,
    details: Seq<char>,
    c: ChangeRequestCondition,
    generation: Option<i64>,
    now: i64,
)
    requires
        is_entry(e, name, namespace, action, details, now),
        is_expiry(c, now, generation),
    ensures
        e.timestamp == now && c.last_transition_time == Some(e.timestamp),
        e.change_request@ == name && e.namespace@ == namespace && e.action@ == action && e.details@ == details,
        e.actor@ == "system"@,
        c.type_@ == "Expired"@ && c.status@ == "True"@ && c.reason@ == "TTLExpired"@ && c.observed_generation
            == generation,
{
}

/// The change requests that wait are those whose approval is pending; one without a status, or one
/// that was decided, does not wait.
pub proof fn undecided_requests_wait(items: Seq<ChangeRequest>, cr: ChangeRequest)
    ensures
        items.filter(|c: ChangeRequest| is_pending(c)).contains(cr) <==> items.contains(cr) && cr.status is Some && (
        cr.status->0).approval_state is Pending,
{
    filter_holds(items, |c: ChangeRequest| is_pending(c), cr);
}

} // verus!
