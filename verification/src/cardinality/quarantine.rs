//! Quarantine of metric series that break a budget.

use vstd::prelude::*;
#[allow(unused_imports)]
use vstd::string::*;
use crate::cardinality::collector::MetricSeries;
#[allow(unused_imports)]
use crate::cardinality::series_map::{key_of, record_found, record_keys, record_map, SeriesKey, SeriesMap, SeriesRecord};
#[allow(unused_imports)]
use crate::seqs::{filter_none, filter_step};
#[allow(unused_imports)]
use crate::strmap::{same_texts, texts, StrMap};
#[allow(unused_imports)]
use crate::text::same;

verus! {

/// Quarantine action type.
#[derive(Debug, Clone, Copy, PartialEq, Eq, Structural)]
pub enum QuarantineAction {
    Quarantine,
    Release,
    Drop,
}

/// Labels of per-team and per-metric gauges.
#[derive(Debug, Clone, Hash, PartialEq, Eq)]
pub struct TeamMetricLabels {
    pub team: String,
    pub metric_name: String,
}

/// Quarantined series record. Instants are in microseconds since the epoch.
#[derive(Debug)]
pub struct QuarantinedSeries {
    pub metric_name: String,
    pub labels: StrMap<String>,
    pub team: String,
    pub quarantined_at: i64,
    pub reason: String,
    pub expires_at: Option<i64>,
    pub original_series: MetricSeries,
}

impl SeriesRecord for QuarantinedSeries {
    open spec fn key(&self) -> SeriesKey {
        key_of(self.metric_name@, self.labels@)
    }

    fn is_of(&self, metric: &str, labels: &StrMap<String>) -> (r: bool) {
        same(self.metric_name.as_str(), metric) && same_texts(&self.labels, labels)
    }
}

/// `q` is the record of quarantining the series at `now`.
pub open spec fn is_quarantine(
    q: QuarantinedSeries,
    metric: Seq<char>,
    labels: Map<Seq<char>, String>,
    team: Seq<char>,
    reason: Seq<char>,
    now: i64,
    duration: i64,
) -> bool {
    let o = q.original_series;
    &&& q.metric_name@ == metric
    &&& texts(q.labels@) == texts(labels)
    &&& q.team@ == team
    &&& q.quarantined_at == now
    &&& q.reason@ == reason
    &&& q.expires_at == Some((now + duration) as i64)
    &&& o.metric_name@ == metric
    &&& texts(o.labels@) == texts(labels)
    &&& o.team@ == team
    &&& o.first_seen == now
    &&& o.last_seen == now
    &&& o.sample_count == 0
    &&& o.is_quarantined
    &&& o.quarantine_reason matches Some(r) && r@ == reason
}

/// The quarantine of the series is over at `now`.
pub open spec fn is_over(q: QuarantinedSeries, now: i64) -> bool {
    q.expires_at matches Some(e) && e <= now
}

/// How many of the records are over at `now`.
pub open spec fn count_over(items: Seq<QuarantinedSeries>, now: i64) -> nat
    decreases items.len(),
{
    if items.len() == 0 {
        0
    } else {
        count_over(items.drop_last(), now) + (if is_over(items.last(), now) {
            1nat
        } else {
            0nat
        })
    }
}

/// Quarantine manager for handling offending series.
pub struct QuarantineManager {
    quarantined: SeriesMap<QuarantinedSeries>,
    /// Default quarantine duration, in microseconds.
    default_duration: i64,
}

impl View for QuarantineManager {
    type V = Map<SeriesKey, QuarantinedSeries>;

    closed spec fn view(&self) -> Map<SeriesKey, QuarantinedSeries> {
        self.quarantined@
    }
}

impl QuarantineManager {
    /// How long a quarantine lasts unless said otherwise, in microseconds.
    pub closed spec fn duration(self) -> i64 {
        self.default_duration
    }

    /// The records, in the order in which their series were first quarantined.
    pub closed spec fn records(self) -> Seq<QuarantinedSeries> {
        self.quarantined.records()
    }

    /// Create a new quarantine manager; `default_duration` is in microseconds.
    pub fn new(default_duration: i64) -> (m: Self)
        ensures
            m@ == Map::<SeriesKey, QuarantinedSeries>::empty(),
            m.records() == Seq::<QuarantinedSeries>::empty(),
            m.duration() == default_duration,
    {
        QuarantineManager { quarantined: SeriesMap::new(), default_duration }
    }

    /// How long a quarantine lasts unless said otherwise, in microseconds.
    pub fn quarantine_duration(&self) -> (d: i64)
        ensures
            d == self.duration(),
    {
        self.default_duration
    }

    /// Quarantine a metric series for the default duration. A quarantine that the series is
    /// already in starts anew.
    pub fn quarantine_series(
        &mut self,
        metric_name: &str,
        labels: &StrMap<String>,
        team: &str,
        reason: &str,
        now: i64,
    )
        requires
            i64::MIN <= now + old(self).duration() <= i64::MAX,
        ensures
            final(self).duration() == old(self).duration(),
            final(self)@.contains_key(key_of(metric_name@, labels@)),
            is_quarantine(
                final(self)@[key_of(metric_name@, labels@)],
                metric_name@,
                labels@,
                team@,
                reason@,
                now,
                old(self).duration(),
            ),
            final(self)@.remove(key_of(metric_name@, labels@)) == old(self)@.remove(
                key_of(metric_name@, labels@),
            ),
    {
        self.quarantine_series_for(metric_name, labels, team, reason, self.default_duration, now);
    }

    /// Quarantine a metric series for `duration`, in microseconds. A quarantine that the series
    /// is already in starts anew.
    pub fn quarantine_series_for(
        &mut self,
        metric_name: &str,
        labels: &StrMap<String>,
        team: &str,
        reason: &str,
        duration: i64,
        now: i64,
    )
        requires
            i64::MIN <= now + duration <= i64::MAX,
        ensures
            final(self).duration() == old(self).duration(),
            final(self)@.contains_key(key_of(metric_name@, labels@)),
            is_quarantine(
                final(self)@[key_of(metric_name@, labels@)],
                metric_name@,
                labels@,
                team@,
                reason@,
                now,
                duration,
            ),
            final(self)@.remove(key_of(metric_name@, labels@)) == old(self)@.remove(
                key_of(metric_name@, labels@),
            ),
    {
        let ghost k = key_of(metric_name@, labels@);
        let expires_at: i64 = now + duration;
        let original_series = MetricSeries {
            metric_name: metric_name.to_owned(),
            labels: labels.copy(),
            team: team.to_owned(),
            first_seen: now,
            last_seen: now,
            sample_count: 0,
            is_quarantined: true,
            quarantine_reason: Some(reason.to_owned()),
        };
        let q = QuarantinedSeries {
            metric_name: metric_name.to_owned(),
            labels: labels.copy(),
            team: team.to_owned(),
            quarantined_at: now,
            reason: reason.to_owned(),
            expires_at: Some(expires_at),
            original_series,
        };
        match self.quarantined.position(metric_name, labels) {
            Some(i) => {
                self.quarantined.replace_at(i, q);
            },
            None => {
                self.quarantined.add_new(q);
            },
        }
        proof {
            assert(self@.remove(k) =~= old(self)@.remove(k));
        }
    }

    /// Takes the series out of quarantine; whether it was in.
    fn take_out(&mut self, metric_name: &str, labels: &StrMap<String>) -> (r: bool)
        ensures
            final(self).duration() == old(self).duration(),
            r == old(self)@.contains_key(key_of(metric_name@, labels@)),
            final(self)@ == old(self)@.remove(key_of(metric_name@, labels@)),
    {
        match self.quarantined.position(metric_name, labels) {
            Some(i) => {
                let _ = self.quarantined.remove_at(i);
                true
            },
            None => {
                proof {
                    assert(self@ =~= old(self)@.remove(key_of(metric_name@, labels@)));
                }
                false
            },
        }
    }

    /// Release a series from quarantine; whether it was in.
    pub fn release_series(&mut self, metric_name: &str, labels: &StrMap<String>) -> (r: bool)
        ensures
            final(self).duration() == old(self).duration(),
            r == old(self)@.contains_key(key_of(metric_name@, labels@)),
            final(self)@ == old(self)@.remove(key_of(metric_name@, labels@)),
    {
        self.take_out(metric_name, labels)
    }

    /// Drop (permanently remove) a quarantined series; whether it was in.
    pub fn drop_series(&mut self, metric_name: &str, labels: &StrMap<String>) -> (r: bool)
        ensures
            final(self).duration() == old(self).duration(),
            r == old(self)@.contains_key(key_of(metric_name@, labels@)),
            final(self)@ == old(self)@.remove(key_of(metric_name@, labels@)),
    {
        self.take_out(metric_name, labels)
    }

    /// Check if a series is quarantined.
    pub fn is_quarantined(&self, metric_name: &str, labels: &StrMap<String>) -> (r: bool)
        ensures
            r == self@.contains_key(key_of(metric_name@, labels@)),
    {
        self.quarantined.get(metric_name, labels).is_some()
    }

    /// Get all quarantined series for a team.
    pub fn get_quarantined_for_team(&self, team: &str) -> (out: Vec<&QuarantinedSeries>)
        ensures
            out@.map_values(|q: &QuarantinedSeries| *q) == self.records().filter(
                |q: QuarantinedSeries| q.team@ == team@,
            ),
    {
        let ghost wanted = |q: QuarantinedSeries| q.team@ == team@;
        let ghost plain = |q: &QuarantinedSeries| *q;
        let n: usize = self.quarantined.len();
        let mut out: Vec<&QuarantinedSeries> = Vec::new();
        let mut i: usize = 0;
        proof {
            filter_none(self.records(), wanted);
            assert(out@.map_values(plain) =~= Seq::<QuarantinedSeries>::empty());
        }
        while i < n
            invariant
                i <= n == self.quarantined.records().len(),
                self.records() == self.quarantined.records(),
                wanted == (|q: QuarantinedSeries| q.team@ == team@),
                plain == (|q: &QuarantinedSeries| *q),
                out@.map_values(plain) == self.records().take(i as int).filter(wanted),
            decreases n - i,
        {
            proof {
                filter_step(self.records(), i as int, wanted);
            }
            let ghost was = out@;
            let q = self.quarantined.at(i);
            if same(q.team.as_str(), team) {
                out.push(q);
                proof {
                    assert(out@.map_values(plain) =~= was.map_values(plain).push(*q));
                }
            }
            i = i + 1;
        }
        proof {
            assert(self.records().take(n as int) =~= self.records());
        }
        out
    }

    /// Get all quarantined series.
    pub fn get_all_quarantined(&self) -> (out: Vec<&QuarantinedSeries>)
        ensures
            out@.map_values(|q: &QuarantinedSeries| *q) == self.records(),
            self@ == record_map(self.records()),
            record_keys(self.records()).no_duplicates(),
    {
        let ghost plain = |q: &QuarantinedSeries| *q;
        let n: usize = self.quarantined.len();
        let mut out: Vec<&QuarantinedSeries> = Vec::new();
        let mut i: usize = 0;
        while i < n
            invariant
                i <= n == self.quarantined.records().len(),
                self.records() == self.quarantined.records(),
                plain == (|q: &QuarantinedSeries| *q),
                out@.map_values(plain) == self.records().take(i as int),
            decreases n - i,
        {
            let ghost was = out@;
            let q = self.quarantined.at(i);
            out.push(q);
            proof {
                assert(out@.map_values(plain) =~= was.map_values(plain).push(*q));
                assert(self.records().take(i as int + 1) =~= self.records().take(i as int).push(*q));
            }
            i = i + 1;
        }
        proof {
            assert(self.records().take(n as int) =~= self.records());
        }
        out
    }

    /// Clean up expired quarantines; how many there were.
    pub fn cleanup_expired(&mut self, now: i64) -> (cleaned: usize)
        ensures
            final(self).duration() == old(self).duration(),
            cleaned == count_over(old(self).records(), now),
            forall|k: SeriesKey| #[trigger]
                final(self)@.contains_key(k) <==> old(self)@.contains_key(k) && !is_over(old(self)@[k], now),
            forall|k: SeriesKey| #[trigger] final(self)@.contains_key(k) ==> final(self)@[k] == old(self)@[k],
    {
        let ghost all = self.records();
        let ghost m = self@;
        let n: usize = self.quarantined.len();
        let mut i: usize = n;
        let mut cleaned: usize = 0;
        proof {
            assert(all.take(all.len() as int) =~= all);
            assert(all.skip(all.len() as int) =~= Seq::<QuarantinedSeries>::empty());
        }
        while i > 0
            invariant
                i <= n == all.len(),
                record_keys(all).no_duplicates(),
                m == record_map(all),
                self.duration() == old(self).duration(),
                self.quarantined.records().len() >= i,
                self.quarantined.records().take(i as int) == all.take(i as int),
                cleaned + count_over(all.take(i as int), now) == count_over(all, now),
                cleaned <= all.len() - i,
                forall|k: SeriesKey| #[trigger]
                    self@.contains_key(k) <==> m.contains_key(k) && (!is_over(m[k], now) || record_keys(
                        all.take(i as int),
                    ).contains(k)),
                forall|k: SeriesKey| #[trigger] self@.contains_key(k) ==> self@[k] == m[k],
                self@ == self.quarantined@,
            decreases i,
        {
            let ghost j = i - 1;
            let ghost cur = self.quarantined.records();
            proof {
                assert(cur[j] == cur.take(i as int)[j]);
                assert(all.take(i as int)[j] == all[j]);
                assert(all.take(i as int).drop_last() =~= all.take(j));
                record_found(all, j);
                assert(record_keys(all)[j] == all[j].key());
            }
            let over = match self.quarantined.at(i - 1).expires_at {
                Some(e) => e <= now,
                None => false,
            };
            let ghost before = self@;
            if over {
                let _ = self.quarantined.remove_at(i - 1);
                cleaned = cleaned + 1;
            }
            proof {
                assert(self.quarantined.records().take(j) =~= all.take(j)) by {
                    assert(cur.take(j) =~= all.take(i as int).take(j));
                    assert(all.take(i as int).take(j) =~= all.take(j));
                }
                assert forall|k: SeriesKey| #[trigger] self@.contains_key(k) <==> m.contains_key(k) && (!is_over(
                    m[k],
                    now,
                ) || record_keys(all.take(j)).contains(k)) by {
                    let big = record_keys(all.take(i as int));
                    let small = record_keys(all.take(j));
                    assert(before.contains_key(k) <==> m.contains_key(k) && (!is_over(m[k], now) || big.contains(k)));
                    if small.contains(k) {
                        let a = choose|a: int| 0 <= a < small.len() && small[a] == k;
                        assert(big[a] == k);
                        assert(record_keys(all)[a] == k);
                        assert(record_keys(all)[a] != record_keys(all)[j]);
                    }
                    if big.contains(k) && k != all[j].key() {
                        let a = choose|a: int| 0 <= a < big.len() && big[a] == k;
                        assert(a < j);
                        assert(small[a] == k);
                    }
                    assert(big[j] == all[j].key());
                }
            }
            i = i - 1;
        }
        proof {
            assert(record_keys(all.take(0)) =~= Seq::<SeriesKey>::empty());
            assert(count_over(all.take(0), now) == 0);
        }
        cleaned
    }
}

/// A series that was quarantined and then released is not quarantined, and the other
/// series are as they were.
pub proof fn release_undoes_quarantine(
    before: Map<SeriesKey, QuarantinedSeries>,
    during: Map<SeriesKey, QuarantinedSeries>,
    after: Map<SeriesKey, QuarantinedSeries>,
    k: SeriesKey,
)
    requires
        during.contains_key(k),
        during.remove(k) == before.remove(k),
        after == during.remove(k),
    ensures
        !after.contains_key(k),
        after == before.remove(k),
        !before.contains_key(k) ==> after == before,
{
    if !before.contains_key(k) {
        assert(before.remove(k) =~= before);
    }
}

/// A quarantine is over from the instant on at which it expires, which is as long after its start
/// as it was to last.
pub proof fn quarantines_end_in_time(
    q: QuarantinedSeries,
    metric: Seq<char>,
    labels: Map<Seq<char>, String>,
    team: Seq<char>,
    reason: Seq<char>,
    start: i64,
    duration: i64,
    now: i64,
)
    requires
        is_quarantine(q, metric, labels, team, reason, start, duration),
        i64::MIN <= start + duration <= i64::MAX,
    ensures
        is_over(q, now) <==> now >= start + duration,
        q.original_series.is_quarantined,
        q.team@ == team && q.metric_name@ == metric && q.reason@ == reason,
{
}

/// Cleaning up takes out as many series as are over.
pub proof fn cleaning_counts_what_is_over(items: Seq<QuarantinedSeries>, now: i64)
    ensures
        count_over(items, now) == items.filter(
            |q: QuarantinedSeries| q.expires_at is Some && q.expires_at->0 <= now,
        ).len(),
    decreases items.len(),
{
    reveal(Seq::filter);
    if items.len() > 0 {
        cleaning_counts_what_is_over(items.drop_last(), now);
    }
}

/// A series is put in quarantine now, for as long as is said, with the reason, and is marked so.
pub proof fn quarantined_series_are_marked(
    q: QuarantinedSeries,
    metric: Seq<char>,
    labels: Map<Seq<char>, String>,
    team: Seq<char>,
    reason: Seq<char>,
    now: i64,
    duration: i64,
)
    requires
        is_quarantine(q, metric, labels, team, reason, now, duration),
        i64::MIN <= now + duration <= i64::MAX,
    ensures
        q.quarantined_at == now,
        q.expires_at is Some && q.expires_at->0 - now == duration,
        q.metric_name@ == metric && q.team@ == team && q.reason@ == reason && texts(q.labels@) == texts(labels),
        q.original_series.metric_name@ == metric && q.original_series.team@ == team,
        q.original_series.is_quarantined,
        q.original_series.quarantine_reason is Some && (q.original_series.quarantine_reason->0)@ == reason,
        q.original_series.first_seen == now && q.original_series.last_seen == now,
        q.original_series.sample_count == 0,
        duration > 0 ==> !is_over(q, now) && is_over(q, (now + duration) as i64),
{
}

} // verus!
