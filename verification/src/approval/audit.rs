//! The audit trail of the approval workflow.

use vstd::prelude::*;
#[allow(unused_imports)]
use vstd::string::*;
#[allow(unused_imports)]
use crate::bounded::{last_n, BoundedLog};
#[allow(unused_imports)]
use crate::clock::{compact_stamp, is_dated, rfc3339, to_compact_stamp, to_rfc3339};
#[allow(unused_imports)]
use crate::seqs::{filter_holds, filter_none, filter_step};
#[allow(unused_imports)]
use crate::text::{either_holds, occurs, replace, replaced, same, written_text_occurs};

verus! {

/// Audit entry for approval workflow events.
#[derive(Debug, PartialEq, Eq)]
pub struct ApprovalAuditEntry {
    /// Name of the change request.
    pub change_request: String,
    /// Namespace of the change request.
    pub namespace: String,
    /// Action performed.
    pub action: String,
    /// Actor who performed the action.
    pub actor: String,
    /// Additional details.
    pub details: String,
    /// When it happened, in microseconds since the epoch.
    pub timestamp: i64,
}

impl Clone for ApprovalAuditEntry {
    fn clone(&self) -> (r: Self)
        ensures
            r == *self,
    {
        ApprovalAuditEntry {
            change_request: self.change_request.clone(),
            namespace: self.namespace.clone(),
            action: self.action.clone(),
            actor: self.actor.clone(),
            details: self.details.clone(),
            timestamp: self.timestamp,
        }
    }
}

/// The newest entries of the approval workflow.
pub struct ApprovalAuditLog {
    entries: BoundedLog<ApprovalAuditEntry>,
}

impl View for ApprovalAuditLog {
    type V = Seq<ApprovalAuditEntry>;

    closed spec fn view(&self) -> Seq<ApprovalAuditEntry> {
        self.entries@
    }
}

/// One line of the exported log.
pub open spec fn csv_line(e: ApprovalAuditEntry) -> Seq<char> {
    rfc3339(e.timestamp) + ","@ + e.change_request@ + ","@ + e.namespace@ + ","@ + e.action@ + ","@ + e.actor@ + ","@
        + replaced(e.details@, ',', ";"@) + "\n"@
}

/// The exported log.
pub open spec fn csv_text(entries: Seq<ApprovalAuditEntry>) -> Seq<char>
    decreases entries.len(),
{
    if entries.len() == 0 {
        "timestamp,change_request,namespace,action,actor,details\n"@
    } else {
        csv_text(entries.drop_last()) + csv_line(entries.last())
    }
}

/// `entries` without those from before `cutoff`.
pub open spec fn pruned(entries: Seq<ApprovalAuditEntry>, cutoff: i64) -> Seq<ApprovalAuditEntry> {
    entries.filter(|e: ApprovalAuditEntry| e.timestamp >= cutoff)
}

impl ApprovalAuditLog {
    /// How many entries are kept.
    pub closed spec fn capacity(self) -> usize {
        self.entries.capacity()
    }

    /// Create a new audit log.
    pub fn new(max_entries: usize) -> (log: Self)
        ensures
            log@ == Seq::<ApprovalAuditEntry>::empty(),
            log.capacity() == max_entries,
    {
        ApprovalAuditLog { entries: BoundedLog::new(max_entries) }
    }

    /// Record an audit entry; the oldest is dropped where there is no room.
    pub fn record(&mut self, entry: ApprovalAuditEntry)
        ensures
            final(self)@ == last_n(old(self)@.push(entry), old(self).capacity() as int),
            final(self).capacity() == old(self).capacity(),
    {
        self.entries.push(entry);
    }

    /// The newest `limit` entries, newest first.
    pub fn get_recent(&self, limit: usize) -> (out: Vec<ApprovalAuditEntry>)
        ensures
            out@ == last_n(self@, limit as int).reverse(),
    {
        let out = self.entries.newest(limit);
        proof {
            assert(out@ =~= last_n(self@, limit as int).reverse());
        }
        out
    }

    /// The entries of one change request, oldest first.
    pub fn get_for_change_request(&self, change_request: &str) -> (out: Vec<ApprovalAuditEntry>)
        ensures
            out@ == self@.filter(|e: ApprovalAuditEntry| e.change_request@ == change_request@),
    {
        let ghost wanted = |e: ApprovalAuditEntry| e.change_request@ == change_request@;
        let n: usize = self.entries.len();
        let mut out: Vec<ApprovalAuditEntry> = Vec::new();
        let mut i: usize = 0;
        proof {
            filter_none(self@, wanted);
        }
        while i < n
            invariant
                i <= n == self.entries@.len(),
                self@ == self.entries@,
                wanted == (|e: ApprovalAuditEntry| e.change_request@ == change_request@),
                out@ == self@.take(i as int).filter(wanted),
            decreases n - i,
        {
            proof {
                filter_step(self@, i as int, wanted);
            }
            let e = self.entries.at(i);
            if same(e.change_request.as_str(), change_request) {
                out.push(e.clone());
            }
            i = i + 1;
        }
        proof {
            assert(self@.take(n as int) =~= self@);
        }
        out
    }

    /// The entries of one namespace, oldest first.
    pub fn get_for_namespace(&self, namespace: &str) -> (out: Vec<ApprovalAuditEntry>)
        ensures
            out@ == self@.filter(|e: ApprovalAuditEntry| e.namespace@ == namespace@),
    {
        let ghost wanted = |e: ApprovalAuditEntry| e.namespace@ == namespace@;
        let n: usize = self.entries.len();
        let mut out: Vec<ApprovalAuditEntry> = Vec::new();
        let mut i: usize = 0;
        proof {
            filter_none(self@, wanted);
        }
        while i < n
            invariant
                i <= n == self.entries@.len(),
                self@ == self.entries@,
                wanted == (|e: ApprovalAuditEntry| e.namespace@ == namespace@),
                out@ == self@.take(i as int).filter(wanted),
            decreases n - i,
        {
            proof {
                filter_step(self@, i as int, wanted);
            }
            let e = self.entries.at(i);
            if same(e.namespace.as_str(), namespace) {
                out.push(e.clone());
            }
            i = i + 1;
        }
        proof {
            assert(self@.take(n as int) =~= self@);
        }
        out
    }

    /// A copy of all entries, oldest first.
    pub fn entries(&self) -> (out: Vec<ApprovalAuditEntry>)
        ensures
            out@ == self@,
    {
        let out = self.entries.all();
        proof {
            assert(out@ =~= self@);
        }
        out
    }

    /// Export audit log as CSV.
    pub fn export_csv(&self) -> (csv: String)
        requires
            forall|i: int| 0 <= i < self@.len() ==> is_dated(#[trigger] self@[i].timestamp),
        ensures
            csv@ == csv_text(self@),
    {
        let mut csv = "timestamp,change_request,namespace,action,actor,details\n".to_owned();
        let n: usize = self.entries.len();
        let mut i: usize = 0;
        while i < n
            invariant
                i <= n == self.entries@.len(),
                self@ == self.entries@,
                forall|i: int| 0 <= i < self@.len() ==> is_dated(#[trigger] self@[i].timestamp),
                csv@ == csv_text(self@.take(i as int)),
            decreases n - i,
        {
            proof {
                assert(self@.take(i as int + 1).drop_last() =~= self@.take(i as int));
            }
            let e = self.entries.at(i);
            let ghost start = csv@;
            csv.append(to_rfc3339(e.timestamp).as_str());
            csv.append(",");
            csv.append(e.change_request.as_str());
            csv.append(",");
            csv.append(e.namespace.as_str());
            csv.append(",");
            csv.append(e.action.as_str());
            csv.append(",");
            csv.append(e.actor.as_str());
            csv.append(",");
            csv.append(replace(e.details.as_str(), ',', ";").as_str());
            csv.append("\n");
            proof {
                assert(csv@ =~= start + csv_line(*e));
            }
            i = i + 1;
        }
        proof {
            assert(self@.take(n as int) =~= self@);
        }
        csv
    }

    /// Drops every entry from before `cutoff`.
    pub fn remove_older_than(&mut self, cutoff: i64)
        ensures
            final(self)@ == pruned(old(self)@, cutoff),
            final(self).capacity() == old(self).capacity(),
    {
        let ghost keeps = |e: ApprovalAuditEntry| e.timestamp >= cutoff;
        let ghost all = self@;
        let capacity: usize = self.entries.limit();
        let n: usize = self.entries.len();
        let mut kept: BoundedLog<ApprovalAuditEntry> = BoundedLog::new(capacity);
        let mut i: usize = 0;
        while i < n
            invariant
                i <= n == all.len(),
                n <= capacity == self.capacity() == kept.capacity(),
                self.capacity() == old(self).capacity(),
                self@ == all,
                self@ == self.entries@,
                keeps == (|e: ApprovalAuditEntry| e.timestamp >= cutoff),
                kept@ == all.take(i as int).filter(keeps),
                kept@.len() <= i,
            decreases n - i,
        {
            proof {
                filter_step(all, i as int, keeps);
            }
            if self.entries.at(i).timestamp >= cutoff {
                kept.push(self.entries.at(i).clone());
            }
            i = i + 1;
        }
        proof {
            assert(all.take(n as int) =~= all);
        }
        self.entries = kept;
    }
}

/// The key under which an entry is kept.
pub open spec fn entry_key(e: ApprovalAuditEntry) -> Seq<char> {
    compact_stamp(e.timestamp) + "-"@ + e.change_request@
}

/// The key under which an entry is kept in a map of records.
pub fn record_key(e: &ApprovalAuditEntry) -> (key: String)
    requires
        is_dated(e.timestamp),
    ensures
        key@ == entry_key(*e),
{
    let mut key = to_compact_stamp(e.timestamp);
    key.append("-");
    key.append(e.change_request.as_str());
    key
}

/// Forgetting old entries keeps the others, and only those, in their order.
pub proof fn old_entries_are_forgotten(entries: Seq<ApprovalAuditEntry>, cutoff: i64, e: ApprovalAuditEntry)
    ensures
        pruned(entries, cutoff).contains(e) <==> entries.contains(e) && e.timestamp >= cutoff,
        pruned(pruned(entries, cutoff), cutoff) == pruned(entries, cutoff),
        pruned(entries.push(e), cutoff) == if e.timestamp >= cutoff {
            pruned(entries, cutoff).push(e)
        } else {
            pruned(entries, cutoff)
        },
{
    reveal(Seq::filter);
    let f = |x: ApprovalAuditEntry| x.timestamp >= cutoff;
    assert(entries.push(e).drop_last() =~= entries);
    entries.filter_lemma(f);
    let kept = entries.filter(f);
    filter_holds(entries, f, e);
    assert forall|i: int| 0 <= i < kept.len() implies f(#[trigger] kept[i]) by {}
    all_pass(kept, f);
}

/// Where every element passes, nothing is filtered out.
proof fn all_pass(s: Seq<ApprovalAuditEntry>, f: spec_fn(ApprovalAuditEntry) -> bool)
    requires
        forall|i: int| 0 <= i < s.len() ==> f(#[trigger] s[i]),
    ensures
        s.filter(f) == s,
    decreases s.len(),
{
    reveal(Seq::filter);
    if s.len() > 0 {
        assert(f(s[s.len() - 1]));
        assert forall|i: int| 0 <= i < s.drop_last().len() implies f(#[trigger] s.drop_last()[i]) by {
            assert(s.drop_last()[i] == s[i]);
        }
        all_pass(s.drop_last(), f);
        assert(s.drop_last().push(s.last()) =~= s);
    }
}

/// Every entry stands in the exported table under a heading, with its change request, namespace,
/// action and actor side by side.
#[verifier::rlimit(40)]
pub proof fn every_entry_is_exported(entries: Seq<ApprovalAuditEntry>, i: int)
    requires
        0 <= i < entries.len(),
    ensures
        occurs(
            csv_text(entries),
            ","@ + entries[i].change_request@ + ","@ + entries[i].namespace@ + ","@ + entries[i].action@ + ","@
                + entries[i].actor@ + ","@,
        ),
        occurs(csv_text(entries), "timestamp,change_request,namespace,action,actor,details\n"@),
    decreases entries.len(),
{
    let e = entries.last();
    let front = entries.drop_last();
    let row = ","@ + entries[i].change_request@ + ","@ + entries[i].namespace@ + ","@ + entries[i].action@ + ","@
        + entries[i].actor@ + ","@;
    let head = "timestamp,change_request,namespace,action,actor,details\n"@;
    let none = Seq::<char>::empty();
    if front.len() == 0 {
        written_text_occurs(none, head, csv_line(e));
        assert(csv_text(front) == head);
        assert(none + head + csv_line(e) =~= csv_text(entries));
    } else {
        every_entry_is_exported(front, if i < front.len() { i } else { 0 });
        either_holds(csv_text(front), csv_line(e), head);
    }
    if i < front.len() {
        assert(front[i] == entries[i]);
        either_holds(csv_text(front), csv_line(e), row);
    } else {
        let tail = replaced(e.details@, ',', ";"@) + "\n"@;
        written_text_occurs(rfc3339(e.timestamp), row, tail);
        assert(rfc3339(e.timestamp) + row + tail =~= csv_line(e));
        either_holds(csv_text(front), csv_line(e), row);
    }
}

} // verus!
