//! The audit trail of the security baseline.

use vstd::prelude::*;
#[allow(unused_imports)]
use vstd::string::*;
#[allow(unused_imports)]
use crate::bounded::{last_n, BoundedLog};
#[allow(unused_imports)]
use crate::clock::{compact_stamp, is_dated, rfc3339, to_compact_stamp, to_rfc3339};
#[allow(unused_imports)]
use crate::seqs::{filter_none, filter_step};
#[allow(unused_imports)]
use crate::strmap::StrMap;
#[allow(unused_imports)]
use crate::text::{replace, replaced, same};

verus! {

/// Audit entry for baseline events.
#[derive(Debug, PartialEq, Eq)]
pub struct AuditEntry {
    pub namespace: String,
    pub action: String,
    pub resource_type: String,
    pub resource_name: String,
    pub success: bool,
    pub message: String,
    /// In microseconds since the epoch.
    pub timestamp: i64,
    pub dry_run: bool,
}

impl Clone for AuditEntry {
    fn clone(&self) -> (r: Self)
        ensures
            r == *self,
    {
        AuditEntry {
            namespace: self.namespace.clone(),
            action: self.action.clone(),
            resource_type: self.resource_type.clone(),
            resource_name: self.resource_name.clone(),
            success: self.success,
            message: self.message.clone(),
            timestamp: self.timestamp,
            dry_run: self.dry_run,
        }
    }
}

/// Audit configuration.
#[derive(Debug)]
pub struct AuditConfig {
    /// Maximum entries to keep in memory.
    pub max_entries: usize,
    /// Enable Kubernetes ConfigMap persistence.
    pub persist_to_configmap: bool,
    /// ConfigMap name.
    pub configmap_name: String,
    /// ConfigMap namespace.
    pub namespace: String,
    /// Enable webhook notifications.
    pub enable_webhook: bool,
    /// Webhook URL.
    pub webhook_url: Option<String>,
}

impl Default for AuditConfig {
    fn default() -> (c: Self)
        ensures
            c.max_entries == 10000,
            c.persist_to_configmap,
            c.configmap_name@ == "security-baseline-audit"@,
            c.namespace@ == "observability"@,
            !c.enable_webhook,
            c.webhook_url is None,
    {
        AuditConfig {
            max_entries: 10000,
            persist_to_configmap: true,
            configmap_name: "security-baseline-audit".to_owned(),
            namespace: "observability".to_owned(),
            enable_webhook: false,
            webhook_url: None,
        }
    }
}

/// Labels of the entry counter.
#[derive(Debug, Clone, Hash, PartialEq, Eq)]
pub struct AuditLabels {
    pub namespace: String,
}

/// Labels of the counter by action.
#[derive(Debug, Clone, Hash, PartialEq, Eq)]
pub struct AuditActionLabels {
    pub action: String,
}

/// Labels of the counter by result.
#[derive(Debug, Clone, Hash, PartialEq, Eq)]
pub struct AuditResultLabels {
    pub result: String,
}

/// The result under which an entry is counted.
pub fn result_label(success: bool) -> (s: &'static str)
    ensures
        s@ == if success {
            "success"@
        } else {
            "failure"@
        },
{
    if success {
        "success"
    } else {
        "failure"
    }
}

/// Audit statistics.
#[derive(Debug)]
pub struct AuditStats {
    pub total_entries: usize,
    pub success_count: usize,
    pub failure_count: usize,
    pub dry_run_count: usize,
    pub actions: StrMap<usize>,
    pub namespaces: StrMap<usize>,
}

impl Default for AuditStats {
    fn default() -> (s: Self)
        ensures
            s.total_entries == 0,
            s.success_count == 0,
            s.failure_count == 0,
            s.dry_run_count == 0,
            s.actions@ == Map::<Seq<char>, usize>::empty(),
            s.namespaces@ == Map::<Seq<char>, usize>::empty(),
    {
        AuditStats {
            total_entries: 0,
            success_count: 0,
            failure_count: 0,
            dry_run_count: 0,
            actions: StrMap::new(),
            namespaces: StrMap::new(),
        }
    }
}

/// `true` or `false`.
pub open spec fn bool_text(b: bool) -> Seq<char> {
    if b {
        "true"@
    } else {
        "false"@
    }
}

/// One line of the exported log.
pub open spec fn csv_line(e: AuditEntry) -> Seq<char> {
    rfc3339(e.timestamp) + ","@ + e.namespace@ + ","@ + e.action@ + ","@ + e.resource_type@ + ","@ + e.resource_name@
        + ","@ + bool_text(e.success) + ","@ + replaced(e.message@, ',', ";"@) + ","@ + bool_text(e.dry_run) + "\n"@
}

/// The exported log.
pub open spec fn csv_text(entries: Seq<AuditEntry>) -> Seq<char>
    decreases entries.len(),
{
    if entries.len() == 0 {
        "timestamp,namespace,action,resource_type,resource_name,success,message,dry_run\n"@
    } else {
        csv_text(entries.drop_last()) + csv_line(entries.last())
    }
}

fn show(b: bool) -> (s: &'static str)
    ensures
        s@ == bool_text(b),
{
    if b {
        "true"
    } else {
        "false"
    }
}

fn render_line(e: &AuditEntry) -> (line: String)
    requires
        is_dated(e.timestamp),
    ensures
        line@ == csv_line(*e),
{
    let mut line = to_rfc3339(e.timestamp);
    line.append(",");
    line.append(e.namespace.as_str());
    line.append(",");
    line.append(e.action.as_str());
    line.append(",");
    line.append(e.resource_type.as_str());
    line.append(",");
    line.append(e.resource_name.as_str());
    line.append(",");
    line.append(show(e.success));
    line.append(",");
    line.append(replace(e.message.as_str(), ',', ";").as_str());
    line.append(",");
    line.append(show(e.dry_run));
    line.append("\n");
    line
}

/// How often each text occurs among `names`.
pub open spec fn tally(names: Seq<Seq<char>>) -> Map<Seq<char>, int>
    decreases names.len(),
{
    if names.len() == 0 {
        Map::empty()
    } else {
        let before = tally(names.drop_last());
        let k = names.last();
        before.insert(
            k,
            if before.contains_key(k) {
                before[k] + 1
            } else {
                1
            },
        )
    }
}

/// The counts as mathematical integers.
pub open spec fn counts(m: Map<Seq<char>, usize>) -> Map<Seq<char>, int> {
    m.map_values(|n: usize| n as int)
}

/// No count is larger than the number of names.
proof fn tally_bound(names: Seq<Seq<char>>)
    ensures
        forall|k: Seq<char>| #[trigger] tally(names).contains_key(k) ==> 0 < tally(names)[k] <= names.len(),
    decreases names.len(),
{
    if names.len() > 0 {
        tally_bound(names.drop_last());
        let before = tally(names.drop_last());
        assert forall|k: Seq<char>| #[trigger] tally(names).contains_key(k) implies 0 < tally(names)[k]
            <= names.len() by {
            if k != names.last() {
                assert(before.contains_key(k));
            } else if before.contains_key(k) {
                assert(before[k] <= names.len() - 1);
            }
        }
    }
}

/// Counts one more.
fn count_one(m: &mut StrMap<usize>, key: &String, Ghost(names): Ghost<Seq<Seq<char>>>)
    requires
        counts(old(m)@) == tally(names),
        names.len() < usize::MAX,
    ensures
        counts(final(m)@) == tally(names.push(key@)),
{
    proof {
        tally_bound(names);
        assert(names.push(key@).drop_last() =~= names);
    }
    let n: usize = match m.get(key.as_str()) {
        Some(n) => {
            proof {
                assert(counts(m@).contains_key(key@));
            }
            *n + 1
        },
        None => 1,
    };
    m.insert(key.clone(), n);
    proof {
        assert(counts(m@) =~= tally(names.push(key@)));
    }
}

/// The actions of the entries.
pub open spec fn actions_of(s: Seq<AuditEntry>) -> Seq<Seq<char>> {
    s.map_values(|e: AuditEntry| e.action@)
}

/// The namespaces of the entries.
pub open spec fn namespaces_of(s: Seq<AuditEntry>) -> Seq<Seq<char>> {
    s.map_values(|e: AuditEntry| e.namespace@)
}

/// The key under which an entry is kept.
pub open spec fn entry_key(e: AuditEntry) -> Seq<char> {
    compact_stamp(e.timestamp) + "-"@ + e.resource_name@
}

/// The key under which an entry is kept in a map of records.
pub fn record_key(e: &AuditEntry) -> (key: String)
    requires
        is_dated(e.timestamp),
    ensures
        key@ == entry_key(*e),
{
    let mut key = to_compact_stamp(e.timestamp);
    key.append("-");
    key.append(e.resource_name.as_str());
    key
}

/// Baseline audit log.
pub struct BaselineAuditLog {
    pub config: AuditConfig,
    /// Recent entries, oldest first.
    pub entries: BoundedLog<AuditEntry>,
}

impl BaselineAuditLog {
    /// Create a new audit log.
    pub fn new(config: AuditConfig) -> (log: Self)
        ensures
            log.config == config,
            log.entries@ == Seq::<AuditEntry>::empty(),
            log.entries.capacity() == config.max_entries,
    {
        let limit: usize = config.max_entries;
        BaselineAuditLog { config, entries: BoundedLog::new(limit) }
    }

    /// Record an audit entry; the oldest is dropped where there is no room.
    pub fn record(&mut self, entry: AuditEntry)
        ensures
            final(self).config == old(self).config,
            final(self).entries@ == last_n(old(self).entries@.push(entry), old(self).entries.capacity() as int),
            final(self).entries.capacity() == old(self).entries.capacity(),
    {
        self.entries.push(entry);
    }

    /// Get recent audit entries, newest first.
    pub fn get_recent(&self, limit: usize) -> (out: Vec<AuditEntry>)
        ensures
            out@ == last_n(self.entries@, limit as int).reverse(),
    {
        let out = self.entries.newest(limit);
        proof {
            assert(out@ =~= last_n(self.entries@, limit as int).reverse());
        }
        out
    }

    /// Get audit entries for a namespace, oldest first.
    pub fn get_for_namespace(&self, namespace: &str) -> (out: Vec<AuditEntry>)
        ensures
            out@ == self.entries@.filter(|e: AuditEntry| e.namespace@ == namespace@),
    {
        let ghost wanted = |e: AuditEntry| e.namespace@ == namespace@;
        let n: usize = self.entries.len();
        let mut out: Vec<AuditEntry> = Vec::new();
        let mut i: usize = 0;
        proof {
            filter_none(self.entries@, wanted);
        }
        while i < n
            invariant
                i <= n == self.entries@.len(),
                wanted == (|e: AuditEntry| e.namespace@ == namespace@),
                out@ == self.entries@.take(i as int).filter(wanted),
            decreases n - i,
        {
            proof {
                filter_step(self.entries@, i as int, wanted);
            }
            let e = self.entries.at(i);
            if same(e.namespace.as_str(), namespace) {
                out.push(e.clone());
            }
            i = i + 1;
        }
        proof {
            assert(self.entries@.take(n as int) =~= self.entries@);
        }
        out
    }

    /// Get audit entries for an action type, oldest first.
    pub fn get_for_action(&self, action: &str) -> (out: Vec<AuditEntry>)
        ensures
            out@ == self.entries@.filter(|e: AuditEntry| e.action@ == action@),
    {
        let ghost wanted = |e: AuditEntry| e.action@ == action@;
        let n: usize = self.entries.len();
        let mut out: Vec<AuditEntry> = Vec::new();
        let mut i: usize = 0;
        proof {
            filter_none(self.entries@, wanted);
        }
        while i < n
            invariant
                i <= n == self.entries@.len(),
                wanted == (|e: AuditEntry| e.action@ == action@),
                out@ == self.entries@.take(i as int).filter(wanted),
            decreases n - i,
        {
            proof {
                filter_step(self.entries@, i as int, wanted);
            }
            let e = self.entries.at(i);
            if same(e.action.as_str(), action) {
                out.push(e.clone());
            }
            i = i + 1;
        }
        proof {
            assert(self.entries@.take(n as int) =~= self.entries@);
        }
        out
    }

    /// Export audit log as CSV.
    pub fn export_csv(&self) -> (csv: String)
        requires
            forall|i: int| 0 <= i < self.entries@.len() ==> is_dated(#[trigger] self.entries@[i].timestamp),
        ensures
            csv@ == csv_text(self.entries@),
    {
        let mut csv =
            "timestamp,namespace,action,resource_type,resource_name,success,message,dry_run\n".to_owned();
        let n: usize = self.entries.len();
        let ghost all = self.entries@;
        let mut i: usize = 0;
        while i < n
            invariant
                i <= n == all.len(),
                all == self.entries@,
                forall|i: int| 0 <= i < all.len() ==> is_dated(#[trigger] all[i].timestamp),
                csv@ == csv_text(all.take(i as int)),
            decreases n - i,
        {
            proof {
                assert(all.take(i as int + 1).drop_last() =~= all.take(i as int));
            }
            let e = self.entries.at(i);
            proof {
                assert(is_dated(all[i as int].timestamp));
            }
            csv.append(render_line(e).as_str());
            i = i + 1;
        }
        proof {
            assert(all.take(n as int) =~= all);
        }
        csv
    }

    /// Get audit statistics.
    pub fn get_stats(&self) -> (stats: AuditStats)
        ensures
            stats.total_entries == self.entries@.len(),
            stats.success_count == self.entries@.filter(|e: AuditEntry| e.success).len(),
            stats.failure_count == self.entries@.filter(|e: AuditEntry| !e.success).len(),
            stats.dry_run_count == self.entries@.filter(|e: AuditEntry| e.dry_run).len(),
            counts(stats.actions@) == tally(actions_of(self.entries@)),
            counts(stats.namespaces@) == tally(namespaces_of(self.entries@)),
    {
        let n: usize = self.entries.len();
        let ghost all = self.entries@;
        let ghost won = |e: AuditEntry| e.success;
        let ghost lost = |e: AuditEntry| !e.success;
        let ghost dry = |e: AuditEntry| e.dry_run;
        let mut success_count: usize = 0;
        let mut failure_count: usize = 0;
        let mut dry_run_count: usize = 0;
        let mut actions: StrMap<usize> = StrMap::new();
        let mut namespaces: StrMap<usize> = StrMap::new();
        let mut i: usize = 0;
        proof {
            filter_none(all, won);
            filter_none(all, lost);
            filter_none(all, dry);
            assert(counts(actions@) =~= tally(actions_of(all.take(0))));
            assert(counts(namespaces@) =~= tally(namespaces_of(all.take(0))));
        }
        while i < n
            invariant
                i <= n == all.len(),
                all == self.entries@,
                won == (|e: AuditEntry| e.success),
                lost == (|e: AuditEntry| !e.success),
                dry == (|e: AuditEntry| e.dry_run),
                success_count == all.take(i as int).filter(won).len(),
                failure_count == all.take(i as int).filter(lost).len(),
                dry_run_count == all.take(i as int).filter(dry).len(),
                success_count <= i,
                failure_count <= i,
                dry_run_count <= i,
                counts(actions@) == tally(actions_of(all.take(i as int))),
                counts(namespaces@) == tally(namespaces_of(all.take(i as int))),
            decreases n - i,
        {
            let e = self.entries.at(i);
            proof {
                filter_step(all, i as int, won);
                filter_step(all, i as int, lost);
                filter_step(all, i as int, dry);
                let t = all.take(i as int);
                assert(actions_of(all.take(i as int + 1)) =~= actions_of(t).push(e.action@));
                assert(namespaces_of(all.take(i as int + 1)) =~= namespaces_of(t).push(e.namespace@));
            }
            if e.success {
                success_count = success_count + 1;
            } else {
                failure_count = failure_count + 1;
            }
            if e.dry_run {
                dry_run_count = dry_run_count + 1;
            }
            count_one(&mut actions, &e.action, Ghost(actions_of(all.take(i as int))));
            count_one(&mut namespaces, &e.namespace, Ghost(namespaces_of(all.take(i as int))));
            i = i + 1;
        }
        proof {
            assert(all.take(n as int) =~= all);
        }
        AuditStats { total_entries: n, success_count, failure_count, dry_run_count, actions, namespaces }
    }
}

/// Every entry is counted as a success or as a failure, and as neither twice.
pub proof fn results_add_up(s: Seq<AuditEntry>)
    ensures
        s.filter(|e: AuditEntry| e.success).len() + s.filter(|e: AuditEntry| !e.success).len() == s.len(),
    decreases s.len(),
{
    reveal(Seq::filter);
    if s.len() > 0 {
        results_add_up(s.drop_last());
    }
}

/// A name is counted once for each time that it occurs, and a name that does not occur is not
/// counted.
pub proof fn tallies_count_occurrences(names: Seq<Seq<char>>, k: Seq<char>)
    ensures
        names.contains(k) <==> tally(names).contains_key(k),
        tally(names).contains_key(k) ==> tally(names)[k] == names.filter(|n: Seq<char>| n == k).len(),
        !tally(names).contains_key(k) ==> names.filter(|n: Seq<char>| n == k).len() == 0,
    decreases names.len(),
{
    reveal(Seq::filter);
    if names.len() > 0 {
        let front = names.drop_last();
        tallies_count_occurrences(front, k);
        assert(names =~= front.push(names.last()));
        if names.contains(k) {
            let i = names.index_of(k);
            if i < front.len() {
                assert(front[i] == k);
            }
        }
        if front.contains(k) {
            let i = front.index_of(k);
            assert(names[i] == k);
        }
        if names.last() == k {
            assert(names[names.len() - 1] == k);
        }
    }
}

/// No comma of a message reaches the exported line, so that the columns stay apart.
pub proof fn messages_hold_no_comma(message: Seq<char>)
    ensures
        !replaced(message, ',', ";"@).contains(','),
        replaced(message, ',', ";"@).len() == message.len(),
    decreases message.len(),
{
    reveal_strlit(";");
    if message.len() > 0 {
        let front = replaced(message.drop_last(), ',', ";"@);
        messages_hold_no_comma(message.drop_last());
        let all = replaced(message, ',', ";"@);
        if all.contains(',') {
            let i = all.index_of(',');
            if i < front.len() {
                assert(front[i] == ',');
            }
        }
    }
}

} // verus!
