//! API deprecation timeline and stakeholder reporting.
//!
//! The timeline is built from the gateway's own deprecation metadata, so every deprecated or
//! sunset version is covered. Consumer adoption is derived from the requests that the gateway
//! saw: a consumer counts as migrated only where it sent no request to the deprecated version.

use vstd::prelude::*;
#[allow(unused_imports)]
use vstd::string::*;
#[allow(unused_imports)]
use crate::calendar::{day_of, day_text, is_day, parsed_day, show_day};
#[allow(unused_imports)]
use crate::strmap::{ascending, keys_of, map_of, StrMap};
#[allow(unused_imports)]
use crate::text::{
    contains, dec, dec_int, decimal, decimal_signed, either_holds, find, join, joined, lex_irreflexive, lex_lt, occurs,
    parts_hold_what_occurs, replace, replaced, replacing_adds_none, replacing_leaves_none, replacing_nothing, same,
    views, written_text_occurs,
};

verus! {

/// The consumer of requests without an API key.
pub open spec fn anonymous() -> Seq<char> {
    "anonymous"@
}

/// The consumer of requests without an API key.
pub const ANONYMOUS_CONSUMER: &'static str = "anonymous";

/// A request that the gateway saw.
#[derive(Debug)]
pub struct RequestEvent {
    pub timestamp: String,
    pub route_id: String,
    pub method: String,
    pub path: String,
    pub status: u16,
    pub latency_ms: u64,
    pub api_key_id: Option<String>,
    pub version: String,
}

/// Which versions of the API there are.
#[derive(Debug)]
pub struct VersioningConfig {
    pub current_version: String,
    pub deprecated_versions: Vec<String>,
    pub sunset_versions: Vec<String>,
    pub sunset_dates: StrMap<String>,
}

/// Lifecycle state of a deprecated API version.
#[derive(Debug, Clone, Copy, PartialEq, Eq, Structural)]
pub enum DeprecationState {
    Deprecated,
    Sunset,
}

impl DeprecationState {
    /// The state's label.
    pub open spec fn label(self) -> Seq<char> {
        match self {
            DeprecationState::Deprecated => "Deprecated"@,
            DeprecationState::Sunset => "Sunset"@,
        }
    }

    /// The state's label.
    pub fn name(&self) -> (s: &'static str)
        ensures
            s@ == self.label(),
    {
        match self {
            DeprecationState::Deprecated => "Deprecated",
            DeprecationState::Sunset => "Sunset",
        }
    }
}

/// Migration status of one consumer of a deprecated API.
#[derive(Debug, Clone, Copy, PartialEq, Eq, PartialOrd, Ord, Structural)]
pub enum AdoptionStatus {
    /// Only the successor version was called.
    Migrated,
    /// Both the deprecated and successor versions were called.
    InProgress,
    /// Only the deprecated version was called.
    NotStarted,
}

impl AdoptionStatus {
    /// The status's label.
    pub open spec fn label(self) -> Seq<char> {
        match self {
            AdoptionStatus::Migrated => "Migrated"@,
            AdoptionStatus::InProgress => "InProgress"@,
            AdoptionStatus::NotStarted => "NotStarted"@,
        }
    }

    /// The status's label.
    pub fn name(&self) -> (s: &'static str)
        ensures
            s@ == self.label(),
    {
        match self {
            AdoptionStatus::Migrated => "Migrated",
            AdoptionStatus::InProgress => "InProgress",
            AdoptionStatus::NotStarted => "NotStarted",
        }
    }
}

/// Usage of one consumer, taken directly from the requests.
#[derive(Debug, PartialEq, Eq)]
pub struct ConsumerUsage {
    pub consumer: String,
    pub deprecated_requests: u64,
    pub successor_requests: u64,
    pub status: AdoptionStatus,
}

/// One row of the timeline.
#[derive(Debug)]
pub struct TimelineEntry {
    pub api_version: String,
    pub successor_version: String,
    pub state: DeprecationState,
    /// The number of the day.
    pub sunset_date: Option<i32>,
    /// Days until sunset relative to the report date (negative once past).
    pub days_remaining: Option<i64>,
    pub deprecated_requests: u64,
    pub successor_requests: u64,
    pub consumers: Vec<ConsumerUsage>,
    /// How many of the consumers are migrated. The adoption is their share, and full where
    /// there is no consumer.
    pub migrated: usize,
}

/// The full stakeholder report.
#[derive(Debug)]
pub struct DeprecationReport {
    /// The number of the day.
    pub generated_on: i32,
    pub entries: Vec<TimelineEntry>,
}

/// The consumer that sent a request.
pub open spec fn consumer_of(e: RequestEvent) -> Seq<char> {
    match e.api_key_id {
        Some(k) => k@,
        None => anonymous(),
    }
}

/// How many of the requests went to a version.
pub open spec fn requests(events: Seq<RequestEvent>, version: Seq<char>) -> nat
    decreases events.len(),
{
    if events.len() == 0 {
        0
    } else {
        requests(events.drop_last(), version) + (if events.last().version@ == version {
            1nat
        } else {
            0nat
        })
    }
}

/// How many of the requests a consumer sent to a version.
pub open spec fn requests_by(events: Seq<RequestEvent>, version: Seq<char>, consumer: Seq<char>) -> nat
    decreases events.len(),
{
    if events.len() == 0 {
        0
    } else {
        requests_by(events.drop_last(), version, consumer) + (if events.last().version@ == version && consumer_of(
            events.last(),
        ) == consumer {
            1nat
        } else {
            0nat
        })
    }
}

/// A consumer that sent nothing to the deprecated version has migrated, and one that sent
/// nothing to the successor has not started.
pub open spec fn status_of(deprecated: nat, successor: nat) -> AdoptionStatus {
    if deprecated == 0 {
        AdoptionStatus::Migrated
    } else if successor == 0 {
        AdoptionStatus::NotStarted
    } else {
        AdoptionStatus::InProgress
    }
}

/// The names of the consumers.
pub open spec fn consumer_names(v: Seq<ConsumerUsage>) -> Seq<Seq<char>> {
    v.map_values(|u: ConsumerUsage| u.consumer@)
}

/// The consumers are those that called the version or its successor, in name order, with
/// their requests.
pub open spec fn are_consumers(
    v: Seq<ConsumerUsage>,
    events: Seq<RequestEvent>,
    version: Seq<char>,
    successor: Seq<char>,
) -> bool {
    &&& ascending(consumer_names(v))
    &&& forall|c: Seq<char>| #[trigger]
        consumer_names(v).contains(c) <==> requests_by(events, version, c) > 0 || requests_by(events, successor, c) > 0
    &&& forall|i: int|
        0 <= i < v.len() ==> {
            let u = #[trigger] v[i];
            &&& u.deprecated_requests == requests_by(events, version, u.consumer@)
            &&& u.successor_requests == requests_by(events, successor, u.consumer@)
            &&& u.status == status_of(u.deprecated_requests as nat, u.successor_requests as nat)
        }
}

/// How many of the consumers are migrated.
pub open spec fn migrated_of(v: Seq<ConsumerUsage>) -> nat
    decreases v.len(),
{
    if v.len() == 0 {
        0
    } else {
        migrated_of(v.drop_last()) + (if v.last().status == AdoptionStatus::Migrated {
            1nat
        } else {
            0nat
        })
    }
}

/// The day on which a version is sunset, where the configuration names a readable one.
pub open spec fn sunset_day(cfg: VersioningConfig, version: Seq<char>) -> Option<i32> {
    if cfg.sunset_dates@.contains_key(version) {
        parsed_day(cfg.sunset_dates@[version]@)
    } else {
        None
    }
}

/// `e` is the row of a version that is sunset on the given day, if any.
pub open spec fn is_row(
    e: TimelineEntry,
    version: Seq<char>,
    sunset: Option<i32>,
    cfg: VersioningConfig,
    events: Seq<RequestEvent>,
    today: i32,
) -> bool {
    &&& e.api_version@ == version
    &&& e.successor_version@ == cfg.current_version@
    &&& e.state == if views(cfg.sunset_versions@).contains(version) {
        DeprecationState::Sunset
    } else {
        DeprecationState::Deprecated
    }
    &&& e.sunset_date == sunset
    &&& e.days_remaining == match sunset {
        Some(d) => Some((d - today) as i64),
        None => None,
    }
    &&& e.deprecated_requests == requests(events, version)
    &&& e.successor_requests == requests(events, cfg.current_version@)
    &&& are_consumers(e.consumers@, events, version, cfg.current_version@)
    &&& e.migrated == migrated_of(e.consumers@)
}

/// `e` is the row of a version.
pub open spec fn is_entry(
    e: TimelineEntry,
    version: Seq<char>,
    cfg: VersioningConfig,
    events: Seq<RequestEvent>,
    today: i32,
) -> bool {
    is_row(e, version, sunset_day(cfg, version), cfg, events, today)
}

/// The versions of the rows.
pub open spec fn versions_of(v: Seq<TimelineEntry>) -> Seq<Seq<char>> {
    v.map_values(|e: TimelineEntry| e.api_version@)
}

fn consumer<'a>(e: &'a RequestEvent) -> (c: &'a str)
    ensures
        c@ == consumer_of(*e),
{
    match &e.api_key_id {
        Some(k) => k.as_str(),
        None => "anonymous",
    }
}

/// A consumer sent no more requests than there are.
proof fn requests_bound(events: Seq<RequestEvent>, version: Seq<char>, c: Seq<char>)
    ensures
        requests_by(events, version, c) <= events.len(),
    decreases events.len(),
{
    if events.len() > 0 {
        requests_bound(events.drop_last(), version, c);
    }
}

/// The requests to a version, consumer by consumer.
fn usage_of(events: &Vec<RequestEvent>, version: &str) -> (m: StrMap<u64>)
    ensures
        forall|c: Seq<char>| #[trigger] m@.contains_key(c) <==> requests_by(events@, version@, c) > 0,
        forall|c: Seq<char>| m@.contains_key(c) ==> #[trigger] m@[c] == requests_by(events@, version@, c),
{
    let mut m: StrMap<u64> = StrMap::new();
    let n: usize = events.len();
    let mut i: usize = 0;
    while i < n
        invariant
            i <= n == events@.len(),
            forall|c: Seq<char>| #[trigger]
                m@.contains_key(c) <==> requests_by(events@.take(i as int), version@, c) > 0,
            forall|c: Seq<char>|
                m@.contains_key(c) ==> #[trigger] m@[c] == requests_by(events@.take(i as int), version@, c),
        decreases n - i,
    {
        let ghost t = events@.take(i as int);
        let ghost u = events@.take(i as int + 1);
        proof {
            assert(u.drop_last() =~= t);
            assert(u.last() == events@[i as int]);
        }
        let e = &events[i];
        if same(e.version.as_str(), version) {
            let c = consumer(e);
            proof {
                requests_bound(t, version@, c@);
            }
            let count: u64 = match m.get(c) {
                Some(k) => *k + 1,
                None => 1,
            };
            proof {
                assert(requests_by(u, version@, c@) == requests_by(t, version@, c@) + 1);
            }
            m.insert(c.to_owned(), count);
        }
        i = i + 1;
    }
    proof {
        assert(events@.take(n as int) =~= events@);
    }
    m
}

/// How many of the requests went to a version.
fn count_requests(events: &Vec<RequestEvent>, version: &str) -> (k: u64)
    ensures
        k == requests(events@, version@),
{
    let n: usize = events.len();
    let mut k: u64 = 0;
    let mut i: usize = 0;
    while i < n
        invariant
            i <= n == events@.len(),
            k == requests(events@.take(i as int), version@),
            k <= i,
        decreases n - i,
    {
        proof {
            assert(events@.take(i as int + 1).drop_last() =~= events@.take(i as int));
        }
        if same(events[i].version.as_str(), version) {
            k = k + 1;
        }
        i = i + 1;
    }
    proof {
        assert(events@.take(n as int) =~= events@);
    }
    k
}

fn requests_in(m: &StrMap<u64>, consumer: &str) -> (k: u64)
    ensures
        k == if m@.contains_key(consumer@) {
            m@[consumer@]
        } else {
            0
        },
{
    match m.get(consumer) {
        Some(k) => *k,
        None => 0,
    }
}

/// All keys of the two maps.
fn merged_keys(a: &StrMap<u64>, b: &StrMap<u64>) -> (m: StrMap<u64>)
    ensures
        m@.dom() == a@.dom().union(b@.dom()),
{
    let mut m = a.copied();
    let n: usize = b.len();
    let ghost keys = keys_of(b.pairs());
    let mut i: usize = 0;
    while i < n
        invariant
            i <= n == b.pairs().len(),
            keys == keys_of(b.pairs()),
            b@ == map_of(b.pairs()),
            forall|k: Seq<char>| #[trigger]
                m@.contains_key(k) <==> a@.contains_key(k) || keys.take(i as int).contains(k),
        decreases n - i,
    {
        let k = b.key_at(i);
        proof {
            let t = keys.take(i as int);
            let u = keys.take(i as int + 1);
            assert(u =~= t.push(k@));
            assert forall|x: Seq<char>| #[trigger] u.contains(x) <==> t.contains(x) || x == k@ by {
                if u.contains(x) {
                    let j = u.index_of(x);
                    if j < i {
                        assert(t[j] == x);
                    }
                }
                if t.contains(x) {
                    let j = t.index_of(x);
                    assert(u[j] == x);
                }
                assert(u[i as int] == k@);
            }
        }
        m.insert(k.clone(), 0);
        i = i + 1;
    }
    proof {
        assert(keys.take(n as int) =~= keys);
        assert forall|k: Seq<char>| keys.contains(k) <==> b@.contains_key(k) by {}
        assert(m@.dom() =~= a@.dom().union(b@.dom()));
    }
    m
}

/// The consumers of a version or its successor, whose requests are given.
fn consumers_of(
    events: &Vec<RequestEvent>,
    version: &str,
    successor: &str,
    deprecated: &StrMap<u64>,
    current: &StrMap<u64>,
) -> (v: Vec<ConsumerUsage>)
    requires
        forall|c: Seq<char>| #[trigger] deprecated@.contains_key(c) <==> requests_by(events@, version@, c) > 0,
        forall|c: Seq<char>|
            deprecated@.contains_key(c) ==> #[trigger] deprecated@[c] == requests_by(events@, version@, c),
        forall|c: Seq<char>| #[trigger] current@.contains_key(c) <==> requests_by(events@, successor@, c) > 0,
        forall|c: Seq<char>|
            current@.contains_key(c) ==> #[trigger] current@[c] == requests_by(events@, successor@, c),
    ensures
        are_consumers(v@, events@, version@, successor@),
{
    let all = merged_keys(deprecated, current);
    let names = all.keys();
    let ghost ns = views(names@);
    let mut v: Vec<ConsumerUsage> = Vec::new();
    let mut i: usize = 0;
    while i < names.len()
        invariant
            i <= names@.len(),
            ns == views(names@),
            v@.len() == i,
            consumer_names(v@) == ns.take(i as int),
            forall|c: Seq<char>| #[trigger] deprecated@.contains_key(c) <==> requests_by(events@, version@, c) > 0,
            forall|c: Seq<char>|
                deprecated@.contains_key(c) ==> #[trigger] deprecated@[c] == requests_by(events@, version@, c),
            forall|c: Seq<char>| #[trigger] current@.contains_key(c) <==> requests_by(events@, successor@, c) > 0,
            forall|c: Seq<char>|
                current@.contains_key(c) ==> #[trigger] current@[c] == requests_by(events@, successor@, c),
            forall|k: int|
                0 <= k < i ==> {
                    let u = #[trigger] v@[k];
                    &&& u.deprecated_requests == requests_by(events@, version@, u.consumer@)
                    &&& u.successor_requests == requests_by(events@, successor@, u.consumer@)
                    &&& u.status == status_of(u.deprecated_requests as nat, u.successor_requests as nat)
                },
        decreases names@.len() - i,
    {
        let name = &names[i];
        let dep: u64 = requests_in(deprecated, name.as_str());
        let succ: u64 = requests_in(current, name.as_str());
        let status = if dep == 0 {
            AdoptionStatus::Migrated
        } else if succ == 0 {
            AdoptionStatus::NotStarted
        } else {
            AdoptionStatus::InProgress
        };
        proof {
            assert(!deprecated@.contains_key(name@) ==> requests_by(events@, version@, name@) == 0);
            assert(!current@.contains_key(name@) ==> requests_by(events@, successor@, name@) == 0);
        }
        let ghost was = v@;
        v.push(
            ConsumerUsage { consumer: name.clone(), deprecated_requests: dep, successor_requests: succ, status },
        );
        proof {
            assert(consumer_names(v@) =~= consumer_names(was).push(ns[i as int]));
            assert(ns.take(i as int + 1) =~= ns.take(i as int).push(ns[i as int]));
        }
        i = i + 1;
    }
    proof {
        assert(ns.take(names@.len() as int) =~= ns);
        assert forall|c: Seq<char>| #[trigger] consumer_names(v@).contains(c) <==> requests_by(events@, version@, c) > 0
            || requests_by(events@, successor@, c) > 0 by {
            assert(ns.contains(c) <==> all@.contains_key(c));
            assert(all@.dom().contains(c) <==> deprecated@.dom().contains(c) || current@.dom().contains(c));
        }
    }
    v
}

/// How many of the consumers are migrated.
fn count_migrated(v: &Vec<ConsumerUsage>) -> (k: usize)
    ensures
        k == migrated_of(v@),
{
    let mut k: usize = 0;
    let mut i: usize = 0;
    while i < v.len()
        invariant
            i <= v@.len(),
            k == migrated_of(v@.take(i as int)),
            k <= i,
        decreases v@.len() - i,
    {
        proof {
            assert(v@.take(i as int + 1).drop_last() =~= v@.take(i as int));
        }
        if v[i].status == AdoptionStatus::Migrated {
            k = k + 1;
        }
        i = i + 1;
    }
    proof {
        assert(v@.take(v@.len() as int) =~= v@);
    }
    k
}

/// Enters the versions among those listed.
fn enter(m: &mut StrMap<()>, versions: &Vec<String>)
    ensures
        forall|k: Seq<char>| #[trigger]
            final(m)@.contains_key(k) <==> old(m)@.contains_key(k) || views(versions@).contains(k),
{
    let ghost all = views(versions@);
    let mut i: usize = 0;
    while i < versions.len()
        invariant
            i <= versions@.len(),
            all == views(versions@),
            forall|k: Seq<char>| #[trigger]
                m@.contains_key(k) <==> old(m)@.contains_key(k) || all.take(i as int).contains(k),
        decreases versions@.len() - i,
    {
        let v = &versions[i];
        proof {
            let t = all.take(i as int);
            let u = all.take(i as int + 1);
            assert(u =~= t.push(v@));
            assert forall|x: Seq<char>| #[trigger] u.contains(x) <==> t.contains(x) || x == v@ by {
                if u.contains(x) {
                    let j = u.index_of(x);
                    if j < i {
                        assert(t[j] == x);
                    }
                }
                if t.contains(x) {
                    let j = t.index_of(x);
                    assert(u[j] == x);
                }
                assert(u[i as int] == v@);
            }
        }
        m.insert(v.clone(), ());
        i = i + 1;
    }
    proof {
        assert(all.take(versions@.len() as int) =~= all);
    }
}

/// The row of a version that is sunset on the given day, if any.
pub fn timeline_row(
    cfg: &VersioningConfig,
    version: &str,
    sunset: Option<i32>,
    events: &Vec<RequestEvent>,
    today: i32,
) -> (e: TimelineEntry)
    ensures
        is_row(e, version@, sunset, *cfg, events@, today),
{
    let successor = cfg.current_version.as_str();
    let current = usage_of(events, successor);
    let deprecated = usage_of(events, version);
    let consumers = consumers_of(events, version, successor, &deprecated, &current);
    let migrated: usize = count_migrated(&consumers);
    TimelineEntry {
        api_version: version.to_owned(),
        successor_version: successor.to_owned(),
        state: if find(&cfg.sunset_versions, version).is_some() {
            DeprecationState::Sunset
        } else {
            DeprecationState::Deprecated
        },
        sunset_date: sunset,
        days_remaining: match sunset {
            Some(d) => Some(d as i64 - today as i64),
            None => None,
        },
        deprecated_requests: count_requests(events, version),
        successor_requests: count_requests(events, successor),
        consumers,
        migrated,
    }
}

/// Build the timeline for every deprecated and sunset version in `cfg`, with the adoption
/// that the requests show. A version that is listed as both is sunset.
pub fn build_report(cfg: &VersioningConfig, events: &Vec<RequestEvent>, today: i32) -> (r: DeprecationReport)
    requires
        is_day(today as int),
    ensures
        r.generated_on == today,
        ascending(versions_of(r.entries@)),
        forall|v: Seq<char>| #[trigger]
            versions_of(r.entries@).contains(v) <==> views(cfg.deprecated_versions@).contains(v) || views(
                cfg.sunset_versions@,
            ).contains(v),
        forall|i: int|
            0 <= i < r.entries@.len() ==> is_entry(
                #[trigger] r.entries@[i],
                r.entries@[i].api_version@,
                *cfg,
                events@,
                today,
            ),
        dates_are_days(r),
{
    let mut listed: StrMap<()> = StrMap::new();
    enter(&mut listed, &cfg.deprecated_versions);
    enter(&mut listed, &cfg.sunset_versions);
    let n: usize = listed.len();
    let ghost pairs = listed.pairs();
    let ghost keys = keys_of(pairs);
    let mut entries: Vec<TimelineEntry> = Vec::new();
    let mut i: usize = 0;
    while i < n
        invariant
            i <= n == pairs.len(),
            pairs == listed.pairs(),
            keys == keys_of(pairs),
            versions_of(entries@) == keys.take(i as int),
            forall|k: int|
                0 <= k < entries@.len() ==> is_entry(
                    #[trigger] entries@[k],
                    entries@[k].api_version@,
                    *cfg,
                    events@,
                    today,
                ),
            forall|k: int|
                0 <= k < entries@.len() ==> ((#[trigger] entries@[k]).sunset_date matches Some(d) ==> is_day(d as int)),
        decreases n - i,
    {
        let version = listed.key_at(i);
        let sunset: Option<i32> = match cfg.sunset_dates.get(version.as_str()) {
            Some(s) => day_of(s.as_str()),
            None => None,
        };
        let ghost was = entries@;
        entries.push(timeline_row(cfg, version.as_str(), sunset, events, today));
        proof {
            assert(versions_of(entries@) =~= versions_of(was).push(keys[i as int]));
            assert(keys.take(i as int + 1) =~= keys.take(i as int).push(keys[i as int]));
        }
        i = i + 1;
    }
    proof {
        assert(keys.take(n as int) =~= keys);
        assert forall|v: Seq<char>| #[trigger] versions_of(entries@).contains(v) <==> views(
            cfg.deprecated_versions@,
        ).contains(v) || views(cfg.sunset_versions@).contains(v) by {
            assert(keys.contains(v) <==> listed@.contains_key(v));
        }
    }
    DeprecationReport { generated_on: today, entries }
}

/// All dates in the report are days that can be shown.
pub open spec fn dates_are_days(r: DeprecationReport) -> bool {
    &&& is_day(r.generated_on as int)
    &&& forall|i: int|
        0 <= i < r.entries@.len() ==> ((#[trigger] r.entries@[i]).sunset_date matches Some(d) ==> is_day(d as int))
}

/// Days-before-sunset at which reminders fire.
#[derive(Debug)]
pub struct ReminderPolicy {
    pub intervals_days: Vec<i64>,
}

impl Default for ReminderPolicy {
    fn default() -> (p: Self)
        ensures
            p.intervals_days@ == Seq::<i64>::empty().push(90).push(60).push(30).push(14).push(7).push(1),
    {
        let mut v: Vec<i64> = Vec::new();
        v.push(90);
        v.push(60);
        v.push(30);
        v.push(14);
        v.push(7);
        v.push(1);
        ReminderPolicy { intervals_days: v }
    }
}

/// A stakeholder reminder for one API at one interval.
#[derive(Debug)]
pub struct Reminder {
    pub api_version: String,
    pub interval_days: i64,
    pub days_remaining: i64,
    /// Consumers that still send traffic to the deprecated version.
    pub pending_consumers: Vec<String>,
}

impl Reminder {
    /// The text of a reminder.
    pub open spec fn text(self) -> Seq<char> {
        "API "@ + self.api_version@ + " sunsets in "@ + dec_int(self.days_remaining as int) + " day(s). "@ + dec(
            self.pending_consumers@.len(),
        ) + " consumer(s) still on it: "@ + if self.pending_consumers@.len() == 0 {
            "none"@
        } else {
            joined(views(self.pending_consumers@), ", "@)
        }
    }

    /// Plain-text body suitable for Slack/email notification channels.
    pub fn message(&self) -> (s: String)
        ensures
            s@ == self.text(),
    {
        let mut s = "API ".to_owned();
        s.append(self.api_version.as_str());
        s.append(" sunsets in ");
        s.append(decimal_signed(self.days_remaining).as_str());
        s.append(" day(s). ");
        s.append(decimal(self.pending_consumers.len() as u64).as_str());
        s.append(" consumer(s) still on it: ");
        if self.pending_consumers.len() == 0 {
            s.append("none");
        } else {
            s.append(join(&self.pending_consumers, ", ").as_str());
        }
        s
    }
}

/// The names of the consumers that are not migrated.
pub open spec fn pending(v: Seq<ConsumerUsage>) -> Seq<Seq<char>>
    decreases v.len(),
{
    if v.len() == 0 {
        Seq::empty()
    } else if v.last().status == AdoptionStatus::Migrated {
        pending(v.drop_last())
    } else {
        pending(v.drop_last()).push(v.last().consumer@)
    }
}

/// The smallest interval that is no smaller than the days that are left.
pub open spec fn tightest(intervals: Seq<i64>, days: i64) -> Option<i64>
    decreases intervals.len(),
{
    if intervals.len() == 0 {
        None
    } else {
        let rest = tightest(intervals.drop_last(), days);
        let x = intervals.last();
        if days <= x && (rest is None || x < rest->0) {
            Some(x)
        } else {
            rest
        }
    }
}

/// The pairs of version and interval that were sent.
pub open spec fn sent_pairs(sent: Seq<(String, i64)>) -> Set<(Seq<char>, i64)> {
    Set::new(|p: (Seq<char>, i64)| exists|i: int| 0 <= i < sent.len() && (#[trigger] sent[i]).0@ == p.0 && sent[i].1 == p.1)
}

/// The interval for which a reminder about a row is due, if one is: the version is not
/// sunset, its day is not past, and the tightest interval was not sent yet.
pub open spec fn due_interval(e: TimelineEntry, intervals: Seq<i64>, sent: Set<(Seq<char>, i64)>) -> Option<i64> {
    match e.days_remaining {
        Some(days) => if e.state == DeprecationState::Sunset || days < 0 {
            None
        } else {
            match tightest(intervals, days) {
                Some(i) => if sent.contains((e.api_version@, i)) {
                    None
                } else {
                    Some(i)
                },
                None => None,
            }
        },
        None => None,
    }
}

/// `r` is the reminder about a row.
pub open spec fn is_reminder(r: Reminder, e: TimelineEntry, interval: i64) -> bool {
    &&& r.api_version@ == e.api_version@
    &&& r.interval_days == interval
    &&& Some(r.days_remaining) == e.days_remaining
    &&& views(r.pending_consumers@) == pending(e.consumers@)
}

/// The reminders are those that are due, row by row.
pub open spec fn are_reminders(
    out: Seq<Reminder>,
    entries: Seq<TimelineEntry>,
    intervals: Seq<i64>,
    sent: Set<(Seq<char>, i64)>,
) -> bool
    decreases entries.len(),
{
    if entries.len() == 0 {
        out.len() == 0
    } else {
        match due_interval(entries.last(), intervals, sent) {
            Some(i) => out.len() > 0 && is_reminder(out.last(), entries.last(), i) && are_reminders(
                out.drop_last(),
                entries.drop_last(),
                intervals,
                sent,
            ),
            None => are_reminders(out, entries.drop_last(), intervals, sent),
        }
    }
}

fn tightest_interval(intervals: &Vec<i64>, days: i64) -> (r: Option<i64>)
    ensures
        r == tightest(intervals@, days),
{
    let mut best: Option<i64> = None;
    let mut i: usize = 0;
    while i < intervals.len()
        invariant
            i <= intervals@.len(),
            best == tightest(intervals@.take(i as int), days),
        decreases intervals@.len() - i,
    {
        proof {
            assert(intervals@.take(i as int + 1).drop_last() =~= intervals@.take(i as int));
        }
        let x: i64 = intervals[i];
        if days <= x {
            best = match best {
                Some(b) => if x < b {
                    Some(x)
                } else {
                    Some(b)
                },
                None => Some(x),
            };
        }
        i = i + 1;
    }
    proof {
        assert(intervals@.take(intervals@.len() as int) =~= intervals@);
    }
    best
}

fn was_sent(sent: &Vec<(String, i64)>, version: &str, interval: i64) -> (r: bool)
    ensures
        r == sent_pairs(sent@).contains((version@, interval)),
{
    let mut i: usize = 0;
    while i < sent.len()
        invariant
            i <= sent@.len(),
            forall|k: int| 0 <= k < i ==> !((#[trigger] sent@[k]).0@ == version@ && sent@[k].1 == interval),
        decreases sent@.len() - i,
    {
        if sent[i].1 == interval && same(sent[i].0.as_str(), version) {
            proof {
                assert(sent@[i as int].0@ == version@);
            }
            return true;
        }
        i = i + 1;
    }
    false
}

fn pending_names(v: &Vec<ConsumerUsage>) -> (out: Vec<String>)
    ensures
        views(out@) == pending(v@),
{
    let mut out: Vec<String> = Vec::new();
    let mut i: usize = 0;
    proof {
        assert(views(out@) =~= pending(v@.take(0)));
    }
    while i < v.len()
        invariant
            i <= v@.len(),
            views(out@) == pending(v@.take(i as int)),
        decreases v@.len() - i,
    {
        proof {
            assert(v@.take(i as int + 1).drop_last() =~= v@.take(i as int));
        }
        if v[i].status != AdoptionStatus::Migrated {
            let ghost was = out@;
            out.push(v[i].consumer.clone());
            proof {
                assert(views(out@) =~= views(was).push(v@[i as int].consumer@));
            }
        }
        i = i + 1;
    }
    proof {
        assert(v@.take(v@.len() as int) =~= v@);
    }
    out
}

/// Reminders due as of the report date. Each pair of version and interval fires once:
/// callers pass the pairs already sent and record the returned ones. An interval is due once
/// no more days are left than it has, so a missed run catches up on the next one, where only
/// the tightest unsent interval fires.
pub fn due_reminders(
    report: &DeprecationReport,
    policy: &ReminderPolicy,
    sent: &Vec<(String, i64)>,
) -> (out: Vec<Reminder>)
    ensures
        are_reminders(out@, report.entries@, policy.intervals_days@, sent_pairs(sent@)),
{
    let mut out: Vec<Reminder> = Vec::new();
    let entries = &report.entries;
    let ghost iv = policy.intervals_days@;
    let ghost done = sent_pairs(sent@);
    let mut i: usize = 0;
    while i < entries.len()
        invariant
            i <= entries@.len(),
            iv == policy.intervals_days@,
            done == sent_pairs(sent@),
            are_reminders(out@, entries@.take(i as int), iv, done),
        decreases entries@.len() - i,
    {
        let ghost t = entries@.take(i as int + 1);
        proof {
            assert(t.drop_last() =~= entries@.take(i as int));
            assert(t.last() == entries@[i as int]);
        }
        let e = &entries[i];
        if let Some(days) = e.days_remaining {
            if e.state != DeprecationState::Sunset && days >= 0 {
                if let Some(interval) = tightest_interval(&policy.intervals_days, days) {
                    if !was_sent(sent, e.api_version.as_str(), interval) {
                        let ghost was = out@;
                        out.push(
                            Reminder {
                                api_version: e.api_version.clone(),
                                interval_days: interval,
                                days_remaining: days,
                                pending_consumers: pending_names(&e.consumers),
                            },
                        );
                        proof {
                            assert(out@.drop_last() =~= was);
                        }
                    }
                }
            }
        }
        i = i + 1;
    }
    proof {
        assert(entries@.take(entries@.len() as int) =~= entries@);
    }
    out
}

/// A field of a CSV row: in quotes, with its own doubled, where it holds a comma, a quote or
/// a line break.
pub open spec fn csv_field_of(s: Seq<char>) -> Seq<char> {
    if s.contains(',') || s.contains('"') || s.contains('\n') {
        "\""@ + replaced(s, '"', "\"\""@) + "\""@
    } else {
        s
    }
}

/// The text with the characters that mean something in HTML escaped.
pub open spec fn html_escaped(s: Seq<char>) -> Seq<char> {
    replaced(replaced(replaced(replaced(s, '&', "&amp;"@), '<', "&lt;"@), '>', "&gt;"@), '"', "&quot;"@)
}

/// A day as it is shown; `absent` where there is none.
pub open spec fn day_shown(d: Option<i32>, absent: Seq<char>) -> Seq<char> {
    match d {
        Some(d) => day_text(d),
        None => absent,
    }
}

/// A number of days as it is shown; `absent` where there is none.
pub open spec fn days_shown(d: Option<i64>, absent: Seq<char>) -> Seq<char> {
    match d {
        Some(d) => dec_int(d as int),
        None => absent,
    }
}

/// One row of the CSV export.
pub open spec fn csv_row(e: TimelineEntry, pct: Seq<char>, c: ConsumerUsage) -> Seq<char> {
    e.api_version@ + ","@ + e.state.label() + ","@ + day_shown(e.sunset_date, ""@) + ","@ + days_shown(
        e.days_remaining,
        ""@,
    ) + ","@ + pct + ","@ + csv_field_of(c.consumer@) + ","@ + c.status.label() + ","@ + dec(
        c.deprecated_requests as nat,
    ) + ","@ + dec(c.successor_requests as nat) + "\n"@
}

/// The rows of one API.
pub open spec fn csv_rows(e: TimelineEntry, pct: Seq<char>, consumers: Seq<ConsumerUsage>) -> Seq<char>
    decreases consumers.len(),
{
    if consumers.len() == 0 {
        Seq::empty()
    } else {
        csv_rows(e, pct, consumers.drop_last()) + csv_row(e, pct, consumers.last())
    }
}

/// The CSV export.
pub open spec fn csv_of(entries: Seq<TimelineEntry>, pcts: Seq<Seq<char>>) -> Seq<char>
    decreases entries.len(),
{
    if entries.len() == 0 {
        "api_version,state,sunset_date,days_remaining,adoption_pct,consumer,status,deprecated_requests,successor_requests\n"@
    } else {
        csv_of(entries.drop_last(), pcts.drop_last()) + csv_rows(
            entries.last(),
            pcts.last(),
            entries.last().consumers@,
        )
    }
}

fn quoted(s: &str) -> (q: bool)
    ensures
        q == (s@.contains(',') || s@.contains('"') || s@.contains('\n')),
{
    let v = crate::text::chars(s);
    let mut i: usize = 0;
    while i < v.len()
        invariant
            v@ == s@,
            i <= v@.len(),
            forall|k: int| 0 <= k < i ==> #[trigger] v@[k] != ',' && v@[k] != '"' && v@[k] != '\n',
        decreases v@.len() - i,
    {
        let c: char = v[i];
        if c == ',' || c == '"' || c == '\n' {
            proof {
                assert(s@[i as int] == c);
            }
            return true;
        }
        i = i + 1;
    }
    false
}

fn csv_field(s: &str) -> (f: String)
    ensures
        f@ == csv_field_of(s@),
{
    if quoted(s) {
        let mut f = "\"".to_owned();
        f.append(replace(s, '"', "\"\"").as_str());
        f.append("\"");
        f
    } else {
        s.to_owned()
    }
}

fn html_escape(s: &str) -> (f: String)
    ensures
        f@ == html_escaped(s@),
{
    let a = replace(s, '&', "&amp;");
    let b = replace(a.as_str(), '<', "&lt;");
    let c = replace(b.as_str(), '>', "&gt;");
    replace(c.as_str(), '"', "&quot;")
}

fn shown_day(d: &Option<i32>, absent: &str) -> (s: String)
    requires
        *d matches Some(x) ==> is_day(x as int),
    ensures
        s@ == day_shown(*d, absent@),
{
    match d {
        Some(d) => show_day(*d),
        None => absent.to_owned(),
    }
}

fn shown_days(d: &Option<i64>, absent: &str) -> (s: String)
    ensures
        s@ == days_shown(*d, absent@),
{
    match d {
        Some(d) => decimal_signed(*d),
        None => absent.to_owned(),
    }
}

fn render_row(e: &TimelineEntry, sunset: &str, days: &str, pct: &str, c: &ConsumerUsage) -> (row: String)
    requires
        sunset@ == day_shown(e.sunset_date, ""@),
        days@ == days_shown(e.days_remaining, ""@),
    ensures
        row@ == csv_row(*e, pct@, *c),
{
    let mut row = e.api_version.clone();
    row.append(",");
    row.append(e.state.name());
    row.append(",");
    row.append(sunset);
    row.append(",");
    row.append(days);
    row.append(",");
    row.append(pct);
    row.append(",");
    row.append(csv_field(c.consumer.as_str()).as_str());
    row.append(",");
    row.append(c.status.name());
    row.append(",");
    row.append(decimal(c.deprecated_requests).as_str());
    row.append(",");
    row.append(decimal(c.successor_requests).as_str());
    row.append("\n");
    row
}

fn render_rows(e: &TimelineEntry, pct: &str) -> (rows: String)
    requires
        e.sunset_date matches Some(d) ==> is_day(d as int),
    ensures
        rows@ == csv_rows(*e, pct@, e.consumers@),
{
    let sunset = shown_day(&e.sunset_date, "");
    let days = shown_days(&e.days_remaining, "");
    let consumers = &e.consumers;
    let mut rows = String::new();
    let mut i: usize = 0;
    while i < consumers.len()
        invariant
            i <= consumers@.len(),
            sunset@ == day_shown(e.sunset_date, ""@),
            days@ == days_shown(e.days_remaining, ""@),
            rows@ == csv_rows(*e, pct@, consumers@.take(i as int)),
        decreases consumers@.len() - i,
    {
        proof {
            assert(consumers@.take(i as int + 1).drop_last() =~= consumers@.take(i as int));
        }
        rows.append(render_row(e, sunset.as_str(), days.as_str(), pct, &consumers[i]).as_str());
        i = i + 1;
    }
    proof {
        assert(consumers@.take(consumers@.len() as int) =~= consumers@);
    }
    rows
}

/// CSV export: one row per API and consumer. `pcts` holds the adoption of each API as it is
/// shown, in percent with two decimals.
pub fn render_csv(report: &DeprecationReport, pcts: &Vec<String>) -> (csv: String)
    requires
        dates_are_days(*report),
        pcts@.len() == report.entries@.len(),
    ensures
        csv@ == csv_of(report.entries@, views(pcts@)),
{
    let mut csv =
        "api_version,state,sunset_date,days_remaining,adoption_pct,consumer,status,deprecated_requests,successor_requests\n".to_owned();
    let entries = &report.entries;
    let ghost ps = views(pcts@);
    let mut i: usize = 0;
    while i < entries.len()
        invariant
            i <= entries@.len() == pcts@.len(),
            ps == views(pcts@),
            *entries == report.entries,
            dates_are_days(*report),
            csv@ == csv_of(entries@.take(i as int), ps.take(i as int)),
        decreases entries@.len() - i,
    {
        proof {
            assert(entries@.take(i as int + 1).drop_last() =~= entries@.take(i as int));
            assert(ps.take(i as int + 1).drop_last() =~= ps.take(i as int));
            assert(report.entries@[i as int].sunset_date matches Some(d) ==> is_day(d as int));
        }
        csv.append(render_rows(&entries[i], pcts[i].as_str()).as_str());
        i = i + 1;
    }
    proof {
        assert(entries@.take(entries@.len() as int) =~= entries@);
        assert(ps.take(ps.len() as int) =~= ps);
    }
    csv
}

/// The list items of the consumers.
pub open spec fn html_items(consumers: Seq<ConsumerUsage>) -> Seq<char>
    decreases consumers.len(),
{
    if consumers.len() == 0 {
        Seq::empty()
    } else {
        html_items(consumers.drop_last()) + html_item(consumers.last())
    }
}

/// The list item of one consumer.
pub open spec fn html_item(c: ConsumerUsage) -> Seq<char> {
    "<li>"@ + html_escaped(c.consumer@) + " — "@ + c.status.label() + " ("@ + dec(c.deprecated_requests as nat)
        + " deprecated / "@ + dec(c.successor_requests as nat) + " successor requests)</li>"@
}

/// The table row of one API.
pub open spec fn html_row(e: TimelineEntry, pct: Seq<char>) -> Seq<char> {
    "<tr><td>"@ + html_escaped(e.api_version@) + "</td><td>"@ + e.state.label() + "</td><td>"@ + day_shown(
        e.sunset_date,
        "—"@,
    ) + "</td><td>"@ + days_shown(e.days_remaining, "—"@)
        + "</td><td><div class=\"bar\"><span style=\"width:"@ + pct + "%\"></span></div>"@ + pct
        + "%</td><td><details><summary>"@ + dec(e.consumers@.len()) + " consumer(s)</summary><ul>"@ + html_items(
        e.consumers@,
    ) + "</ul></details></td></tr>"@
}

/// The table rows.
pub open spec fn html_rows(entries: Seq<TimelineEntry>, pcts: Seq<Seq<char>>) -> Seq<char>
    decreases entries.len(),
{
    if entries.len() == 0 {
        Seq::empty()
    } else {
        html_rows(entries.drop_last(), pcts.drop_last()) + html_row(entries.last(), pcts.last())
    }
}

/// The HTML page.
pub open spec fn html_of(report: DeprecationReport, pcts: Seq<Seq<char>>) -> Seq<char> {
    "<!DOCTYPE html><html><head><meta charset=\"utf-8\"><title>API Deprecation Timeline</title><style>body{font-family:sans-serif;margin:2rem}table{border-collapse:collapse;width:100%}td,th{border:1px solid #ccc;padding:.4rem;text-align:left;vertical-align:top}.bar{display:inline-block;width:120px;height:10px;background:#eee;margin-right:.5rem}.bar span{display:block;height:100%;background:#2e7d32}</style></head><body><h1>API Deprecation Timeline</h1><p>Generated "@
        + day_text(report.generated_on)
        + ". Adoption is derived from gateway request telemetry.</p><table><tr><th>API</th><th>State</th><th>Sunset</th><th>Days left</th><th>Adoption</th><th>Consumers</th></tr>"@
        + html_rows(report.entries@, pcts) + "</table></body></html>"@
}

fn render_item(c: &ConsumerUsage) -> (s: String)
    ensures
        s@ == html_item(*c),
{
    let mut s = "<li>".to_owned();
    s.append(html_escape(c.consumer.as_str()).as_str());
    s.append(" — ");
    s.append(c.status.name());
    s.append(" (");
    s.append(decimal(c.deprecated_requests).as_str());
    s.append(" deprecated / ");
    s.append(decimal(c.successor_requests).as_str());
    s.append(" successor requests)</li>");
    s
}

fn render_items(consumers: &Vec<ConsumerUsage>) -> (s: String)
    ensures
        s@ == html_items(consumers@),
{
    let mut s = String::new();
    let mut i: usize = 0;
    while i < consumers.len()
        invariant
            i <= consumers@.len(),
            s@ == html_items(consumers@.take(i as int)),
        decreases consumers@.len() - i,
    {
        proof {
            assert(consumers@.take(i as int + 1).drop_last() =~= consumers@.take(i as int));
        }
        s.append(render_item(&consumers[i]).as_str());
        i = i + 1;
    }
    proof {
        assert(consumers@.take(consumers@.len() as int) =~= consumers@);
    }
    s
}

fn render_table_row(e: &TimelineEntry, pct: &str) -> (s: String)
    requires
        e.sunset_date matches Some(d) ==> is_day(d as int),
    ensures
        s@ == html_row(*e, pct@),
{
    let mut s = "<tr><td>".to_owned();
    s.append(html_escape(e.api_version.as_str()).as_str());
    s.append("</td><td>");
    s.append(e.state.name());
    s.append("</td><td>");
    s.append(shown_day(&e.sunset_date, "—").as_str());
    s.append("</td><td>");
    s.append(shown_days(&e.days_remaining, "—").as_str());
    s.append("</td><td><div class=\"bar\"><span style=\"width:");
    s.append(pct);
    s.append("%\"></span></div>");
    s.append(pct);
    s.append("%</td><td><details><summary>");
    s.append(decimal(e.consumers.len() as u64).as_str());
    s.append(" consumer(s)</summary><ul>");
    s.append(render_items(&e.consumers).as_str());
    s.append("</ul></details></td></tr>");
    s
}

/// Self-contained HTML timeline for leadership review. Each API is a row with an adoption
/// bar; consumers are listed in an expandable section. `pcts` holds the adoption of each API
/// as it is shown, in percent with one decimal.
pub fn render_html(report: &DeprecationReport, pcts: &Vec<String>) -> (html: String)
    requires
        dates_are_days(*report),
        pcts@.len() == report.entries@.len(),
    ensures
        html@ == html_of(*report, views(pcts@)),
{
    let entries = &report.entries;
    let ghost ps = views(pcts@);
    let mut rows = String::new();
    let mut i: usize = 0;
    while i < entries.len()
        invariant
            i <= entries@.len() == pcts@.len(),
            ps == views(pcts@),
            *entries == report.entries,
            dates_are_days(*report),
            rows@ == html_rows(entries@.take(i as int), ps.take(i as int)),
        decreases entries@.len() - i,
    {
        proof {
            assert(entries@.take(i as int + 1).drop_last() =~= entries@.take(i as int));
            assert(ps.take(i as int + 1).drop_last() =~= ps.take(i as int));
            assert(report.entries@[i as int].sunset_date matches Some(d) ==> is_day(d as int));
        }
        rows.append(render_table_row(&entries[i], pcts[i].as_str()).as_str());
        i = i + 1;
    }
    proof {
        assert(entries@.take(entries@.len() as int) =~= entries@);
        assert(ps.take(ps.len() as int) =~= ps);
    }
    let mut html =
        "<!DOCTYPE html><html><head><meta charset=\"utf-8\"><title>API Deprecation Timeline</title><style>body{font-family:sans-serif;margin:2rem}table{border-collapse:collapse;width:100%}td,th{border:1px solid #ccc;padding:.4rem;text-align:left;vertical-align:top}.bar{display:inline-block;width:120px;height:10px;background:#eee;margin-right:.5rem}.bar span{display:block;height:100%;background:#2e7d32}</style></head><body><h1>API Deprecation Timeline</h1><p>Generated ".to_owned();
    html.append(show_day(report.generated_on).as_str());
    html.append(
        ". Adoption is derived from gateway request telemetry.</p><table><tr><th>API</th><th>State</th><th>Sunset</th><th>Days left</th><th>Adoption</th><th>Consumers</th></tr>",
    );
    html.append(rows.as_str());
    html.append("</table></body></html>");
    html
}

/// The sum of the deprecated requests of the consumers.
pub open spec fn sum_deprecated(v: Seq<ConsumerUsage>) -> nat
    decreases v.len(),
{
    if v.len() == 0 {
        0
    } else {
        sum_deprecated(v.drop_last()) + v.last().deprecated_requests as nat
    }
}

/// The sum of the requests that the named consumers sent to a version.
spec fn sum_by(names: Seq<Seq<char>>, events: Seq<RequestEvent>, version: Seq<char>) -> nat
    decreases names.len(),
{
    if names.len() == 0 {
        0
    } else {
        sum_by(names.drop_last(), events, version) + requests_by(events, version, names.last())
    }
}

proof fn sum_by_step(names: Seq<Seq<char>>, events: Seq<RequestEvent>, version: Seq<char>)
    requires
        events.len() > 0,
        names.no_duplicates(),
    ensures
        sum_by(names, events, version) == sum_by(names, events.drop_last(), version) + (if events.last().version@
            == version && names.contains(consumer_of(events.last())) {
            1nat
        } else {
            0nat
        }),
    decreases names.len(),
{
    if names.len() > 0 {
        let rest = names.drop_last();
        let c = consumer_of(events.last());
        sum_by_step(rest, events, version);
        if names.contains(c) {
            let j = names.index_of(c);
            if j < rest.len() {
                assert(rest[j] == c);
                assert(names.last() != c);
            }
        }
        if rest.contains(c) {
            let j = rest.index_of(c);
            assert(names[j] == c);
        }
    }
}

proof fn sum_by_all(names: Seq<Seq<char>>, events: Seq<RequestEvent>, version: Seq<char>)
    requires
        names.no_duplicates(),
        forall|i: int|
            0 <= i < events.len() && (#[trigger] events[i]).version@ == version ==> names.contains(
                consumer_of(events[i]),
            ),
    ensures
        sum_by(names, events, version) == requests(events, version),
    decreases events.len(),
{
    if events.len() == 0 {
        sum_by_none(names, events, version);
    } else {
        sum_by_step(names, events, version);
        sum_by_all(names, events.drop_last(), version);
        assert(events[events.len() - 1] == events.last());
    }
}

proof fn sum_by_none(names: Seq<Seq<char>>, events: Seq<RequestEvent>, version: Seq<char>)
    requires
        events.len() == 0,
    ensures
        sum_by(names, events, version) == 0,
    decreases names.len(),
{
    if names.len() > 0 {
        sum_by_none(names.drop_last(), events, version);
    }
}

proof fn sum_matches(v: Seq<ConsumerUsage>, events: Seq<RequestEvent>, version: Seq<char>)
    requires
        forall|i: int|
            0 <= i < v.len() ==> (#[trigger] v[i]).deprecated_requests == requests_by(events, version, v[i].consumer@),
    ensures
        sum_deprecated(v) == sum_by(consumer_names(v), events, version),
    decreases v.len(),
{
    if v.len() > 0 {
        sum_matches(v.drop_last(), events, version);
        assert(consumer_names(v).drop_last() =~= consumer_names(v.drop_last()));
        assert(v[v.len() - 1] == v.last());
    }
}

proof fn sent_by(events: Seq<RequestEvent>, version: Seq<char>, i: int)
    requires
        0 <= i < events.len(),
        events[i].version@ == version,
    ensures
        requests_by(events, version, consumer_of(events[i])) > 0,
    decreases events.len(),
{
    if i < events.len() - 1 {
        sent_by(events.drop_last(), version, i);
    }
}

/// The consumers' requests to the deprecated version add up to all requests to it: the
/// adoption leaves no request out and counts none twice.
pub proof fn consumer_requests_add_up(
    v: Seq<ConsumerUsage>,
    events: Seq<RequestEvent>,
    version: Seq<char>,
    successor: Seq<char>,
)
    requires
        are_consumers(v, events, version, successor),
    ensures
        sum_deprecated(v) == requests(events, version),
{
    let names = consumer_names(v);
    assert(names.no_duplicates()) by {
        assert forall|i: int, j: int| 0 <= i < names.len() && 0 <= j < names.len() && i != j implies names[i]
            != names[j] by {
            lex_irreflexive(names[i]);
            if i < j {
                assert(lex_lt(names[i], names[j]));
            } else {
                assert(lex_lt(names[j], names[i]));
            }
        }
    }
    assert forall|i: int| 0 <= i < events.len() && (#[trigger] events[i]).version@ == version implies names.contains(
        consumer_of(events[i]),
    ) by {
        sent_by(events, version, i);
    }
    sum_by_all(names, events, version);
    sum_matches(v, events, version);
}

/// A consumer is migrated only where it sent no request to the deprecated version.
pub proof fn migrated_consumers_are_silent(
    v: Seq<ConsumerUsage>,
    events: Seq<RequestEvent>,
    version: Seq<char>,
    successor: Seq<char>,
    i: int,
)
    requires
        are_consumers(v, events, version, successor),
        0 <= i < v.len(),
    ensures
        v[i].status == AdoptionStatus::Migrated <==> requests_by(events, version, v[i].consumer@) == 0,
{
    let u = v[i];
    assert(u.status == status_of(u.deprecated_requests as nat, u.successor_requests as nat));
}

/// The tightest interval is one of the policy's that is due, and none that is due is
/// smaller; there is one exactly where some interval is due.
pub proof fn tightest_is_least(intervals: Seq<i64>, days: i64)
    ensures
        tightest(intervals, days) matches Some(x) ==> intervals.contains(x) && days <= x,
        forall|i: int|
            0 <= i < intervals.len() && days <= #[trigger] intervals[i] ==> tightest(intervals, days) is Some && tightest(
                intervals,
                days,
            )->0 <= intervals[i],
    decreases intervals.len(),
{
    if intervals.len() > 0 {
        let rest = intervals.drop_last();
        tightest_is_least(rest, days);
        if let Some(x) = tightest(rest, days) {
            let j = rest.index_of(x);
            assert(intervals[j] == x);
        }
        assert(intervals[intervals.len() - 1] == intervals.last());
        assert forall|i: int| 0 <= i < intervals.len() && days <= #[trigger] intervals[i] implies tightest(
            intervals,
            days,
        ) is Some && tightest(intervals, days)->0 <= intervals[i] by {
            if i < rest.len() {
                assert(rest[i] == intervals[i]);
            }
        }
    }
}

/// Once the reminders of a report are recorded as sent, the same report gives none again.
pub proof fn reminders_fire_once(
    out: Seq<Reminder>,
    entries: Seq<TimelineEntry>,
    intervals: Seq<i64>,
    sent: Set<(Seq<char>, i64)>,
    later: Set<(Seq<char>, i64)>,
)
    requires
        are_reminders(out, entries, intervals, sent),
        sent.subset_of(later),
        forall|i: int|
            0 <= i < out.len() ==> later.contains(((#[trigger] out[i]).api_version@, out[i].interval_days)),
    ensures
        are_reminders(Seq::empty(), entries, intervals, later),
    decreases entries.len(),
{
    if entries.len() > 0 {
        let e = entries.last();
        match due_interval(e, intervals, sent) {
            Some(i) => {
                assert(out[out.len() - 1] == out.last());
                reminders_fire_once(out.drop_last(), entries.drop_last(), intervals, sent, later);
            },
            None => {
                reminders_fire_once(out, entries.drop_last(), intervals, sent, later);
            },
        }
    }
}

/// The requests of a version are the events of that version, and those of a consumer the ones
/// among them that it sent; an event without a key is the anonymous consumer's.
pub proof fn requests_are_counted(events: Seq<RequestEvent>, version: Seq<char>, consumer: Seq<char>)
    ensures
        requests(events, version) == events.filter(|e: RequestEvent| e.version@ == version).len(),
        requests_by(events, version, consumer) == events.filter(
            |e: RequestEvent|
                e.version@ == version && (if e.api_key_id is Some {
                    (e.api_key_id->0)@ == consumer
                } else {
                    consumer == "anonymous"@
                }),
        ).len(),
    decreases events.len(),
{
    reveal(Seq::filter);
    if events.len() > 0 {
        requests_are_counted(events.drop_last(), version, consumer);
    }
}

/// A consumer has migrated where it no longer calls the deprecated version, has not started where it
/// calls nothing else, and is in between where it calls both.
pub proof fn adoption_goes_by_requests(
    v: Seq<ConsumerUsage>,
    events: Seq<RequestEvent>,
    version: Seq<char>,
    successor: Seq<char>,
    i: int,
)
    requires
        are_consumers(v, events, version, successor),
        0 <= i < v.len(),
    ensures
        v[i].deprecated_requests == 0 ==> v[i].status is Migrated,
        v[i].deprecated_requests > 0 && v[i].successor_requests == 0 ==> v[i].status is NotStarted,
        v[i].deprecated_requests > 0 && v[i].successor_requests > 0 ==> v[i].status is InProgress,
        v[i].deprecated_requests + v[i].successor_requests > 0,
        v[i].deprecated_requests == requests_by(events, version, v[i].consumer@),
        v[i].successor_requests == requests_by(events, successor, v[i].consumer@),
{
    assert(consumer_names(v)[i] == v[i].consumer@);
    assert(consumer_names(v).contains(v[i].consumer@));
}

/// The migrated consumers of an entry are counted, and its pending ones are all others, in order.
pub proof fn consumers_are_migrated_or_pending(v: Seq<ConsumerUsage>)
    ensures
        migrated_of(v) == v.filter(|u: ConsumerUsage| u.status is Migrated).len(),
        pending(v) == v.filter(|u: ConsumerUsage| !(u.status is Migrated)).map_values(|u: ConsumerUsage| u.consumer@),
        migrated_of(v) + pending(v).len() == v.len(),
    decreases v.len(),
{
    reveal(Seq::filter);
    let f = |u: ConsumerUsage| !(u.status is Migrated);
    let g = |u: ConsumerUsage| u.consumer@;
    if v.len() > 0 {
        consumers_are_migrated_or_pending(v.drop_last());
    }
    assert(pending(v) =~= v.filter(f).map_values(g));
}

/// The days that remain are those from today to the day of the sunset: none on the day itself, and
/// fewer than none after it. A version that is listed as sunset is told so, whatever its day.
pub proof fn days_count_down(
    e: TimelineEntry,
    version: Seq<char>,
    sunset: Option<i32>,
    cfg: VersioningConfig,
    events: Seq<RequestEvent>,
    today: i32,
)
    requires
        is_row(e, version, sunset, cfg, events, today),
    ensures
        sunset is None ==> e.days_remaining is None,
        sunset is Some ==> e.days_remaining is Some && e.days_remaining->0 + today == sunset->0,
        e.state is Sunset <==> exists|i: int|
            0 <= i < cfg.sunset_versions@.len() && (#[trigger] cfg.sunset_versions@[i])@ == version,
        e.successor_version@ == cfg.current_version@,
        e.deprecated_requests == events.filter(|x: RequestEvent| x.version@ == version).len(),
        e.successor_requests == events.filter(|x: RequestEvent| x.version@ == cfg.current_version@).len(),
{
    requests_are_counted(events, version, version);
    let successor = cfg.current_version@;
    requests_are_counted(events, successor, version);
    assert((|x: RequestEvent| x.version@ == successor) =~= (|x: RequestEvent| x.version@ == cfg.current_version@));
    let all = views(cfg.sunset_versions@);
    if all.contains(version) {
        let i = all.index_of(version);
        assert(cfg.sunset_versions@[i]@ == version);
    }
    if exists|i: int| 0 <= i < cfg.sunset_versions@.len() && (#[trigger] cfg.sunset_versions@[i])@ == version {
        let i = choose|i: int| 0 <= i < cfg.sunset_versions@.len() && (#[trigger] cfg.sunset_versions@[i])@ == version;
        assert(all[i] == version);
    }
}

/// A reminder is due for a version that has days left, or its last day, and is not sunset yet, by
/// the smallest interval that is not below the days that remain, unless that one was sent.
pub proof fn reminders_are_due_before_the_sunset(
    e: TimelineEntry,
    intervals: Seq<i64>,
    sent: Set<(Seq<char>, i64)>,
    k: int,
)
    ensures
        e.state is Sunset || e.days_remaining is None || e.days_remaining->0 < 0 ==> due_interval(e, intervals, sent) is None,
        !(e.state is Sunset) && e.days_remaining is Some && e.days_remaining->0 >= 0 && 0 <= k < intervals.len()
            && e.days_remaining->0 <= intervals[k] && (forall|j: int|
            0 <= j < intervals.len() && e.days_remaining->0 <= #[trigger] intervals[j] ==> intervals[k] <= intervals[j]) ==> (
        if sent.contains((e.api_version@, intervals[k])) {
            due_interval(e, intervals, sent) is None
        } else {
            due_interval(e, intervals, sent) == Some(intervals[k])
        }),
        due_interval(e, intervals, sent) matches Some(i) ==> !sent.contains((e.api_version@, i)) && e.days_remaining->0
            <= i,
{
    if e.days_remaining is Some {
        tightest_is_least(intervals, e.days_remaining->0);
        if 0 <= k < intervals.len() && e.days_remaining->0 <= intervals[k] {
            let x = tightest(intervals, e.days_remaining->0)->0;
            let j = intervals.index_of(x);
            assert(intervals[j] == x);
        }
    }
}

/// A field of the exported table that holds a comma, a quote or a line end stands in quotes, and
/// any other as it is.
pub proof fn fields_with_commas_are_quoted(s: Seq<char>)
    ensures
        !s.contains(',') && !s.contains('"') && !s.contains('\n') ==> csv_field_of(s) == s,
        s.contains(',') || s.contains('"') || s.contains('\n') ==> csv_field_of(s).len() >= 2 && csv_field_of(s)[0]
            == '"' && csv_field_of(s).last() == '"',
{
    reveal_strlit("\"");
}

/// The day of a sunset is the one that the configuration gives for the version, and none without
/// one.
pub proof fn sunsets_come_from_the_configuration(
    e: TimelineEntry,
    version: Seq<char>,
    cfg: VersioningConfig,
    events: Seq<RequestEvent>,
    today: i32,
)
    requires
        is_entry(e, version, cfg, events, today),
    ensures
        e.api_version@ == version,
        !cfg.sunset_dates@.contains_key(version) ==> e.sunset_date is None && e.days_remaining is None,
        cfg.sunset_dates@.contains_key(version) ==> e.sunset_date == parsed_day(cfg.sunset_dates@[version]@),
        cfg.sunset_dates@.contains_key(version) && parsed_day(cfg.sunset_dates@[version]@) is Some
            ==> e.days_remaining == Some((parsed_day(cfg.sunset_dates@[version]@)->0 - today) as i64),
{
}

/// A reminder was sent where the version and the interval are listed together.
pub proof fn sent_reminders_are_listed(sent: Seq<(String, i64)>, i: int, version: Seq<char>, interval: i64)
    ensures
        0 <= i < sent.len() ==> sent_pairs(sent).contains((sent[i].0@, sent[i].1)),
        (forall|k: int| 0 <= k < sent.len() ==> (#[trigger] sent[k]).0@ != version || sent[k].1 != interval)
            ==> !sent_pairs(sent).contains((version, interval)),
{
}

/// A reminder names the version, the interval it is sent by, the days that remain and every consumer
/// that has not migrated.
pub proof fn reminders_name_who_is_left(r: Reminder, e: TimelineEntry, interval: i64)
    requires
        is_reminder(r, e, interval),
    ensures
        r.api_version@ == e.api_version@ && r.interval_days == interval && Some(r.days_remaining) == e.days_remaining,
        views(r.pending_consumers@) == e.consumers@.filter(|u: ConsumerUsage| !(u.status is Migrated)).map_values(
            |u: ConsumerUsage| u.consumer@,
        ),
{
    consumers_are_migrated_or_pending(e.consumers@);
}

/// What is written into the page brings in no markup of its own.
pub proof fn pages_escape_markup(s: Seq<char>)
    ensures
        !html_escaped(s).contains('<'),
        !html_escaped(s).contains('>'),
        !html_escaped(s).contains('"'),
        !s.contains('&') && !s.contains('<') && !s.contains('>') && !s.contains('"') ==> html_escaped(s) == s,
{
    reveal_strlit("&amp;");
    reveal_strlit("&lt;");
    reveal_strlit("&gt;");
    reveal_strlit("&quot;");
    let a = replaced(s, '&', "&amp;"@);
    let b = replaced(a, '<', "&lt;"@);
    let c = replaced(b, '>', "&gt;"@);
    replacing_leaves_none(a, '<', "&lt;"@, '<');
    replacing_leaves_none(b, '>', "&gt;"@, '>');
    replacing_adds_none(b, '>', "&gt;"@, '<');
    replacing_leaves_none(c, '"', "&quot;"@, '"');
    replacing_adds_none(c, '"', "&quot;"@, '<');
    replacing_adds_none(c, '"', "&quot;"@, '>');
    if !s.contains('&') && !s.contains('<') && !s.contains('>') && !s.contains('"') {
        replacing_nothing(s, '&', "&amp;"@);
        replacing_nothing(s, '<', "&lt;"@);
        replacing_nothing(s, '>', "&gt;"@);
        replacing_nothing(s, '"', "&quot;"@);
    }
}

/// The table has a line for every consumer of every version: with the version and its state at the
/// start, and the consumer with its status and its requests at the end.
#[verifier::rlimit(40)]
pub proof fn every_consumer_has_a_line(entries: Seq<TimelineEntry>, pcts: Seq<Seq<char>>, i: int, k: int)
    requires
        pcts.len() == entries.len(),
        0 <= i < entries.len(),
        0 <= k < entries[i].consumers@.len(),
    ensures
        occurs(csv_of(entries, pcts), entries[i].api_version@ + ","@ + entries[i].state.label() + ","@),
        occurs(
            csv_of(entries, pcts),
            ","@ + pcts[i] + ","@ + csv_field_of(entries[i].consumers@[k].consumer@) + ","@
                + entries[i].consumers@[k].status.label() + ","@ + dec(
                entries[i].consumers@[k].deprecated_requests as nat,
            ) + ","@ + dec(entries[i].consumers@[k].successor_requests as nat) + "\n"@,
        ),
    decreases entries.len(),
{
    let e = entries[i];
    let c = e.consumers@[k];
    let front = entries.drop_last();
    let start = e.api_version@ + ","@ + e.state.label() + ","@;
    let end = ","@ + pcts[i] + ","@ + csv_field_of(c.consumer@) + ","@ + c.status.label() + ","@ + dec(
        c.deprecated_requests as nat,
    ) + ","@ + dec(c.successor_requests as nat) + "\n"@;
    let before = csv_of(front, pcts.drop_last());
    let rows = csv_rows(entries.last(), pcts.last(), entries.last().consumers@);
    if i < front.len() {
        assert(front[i] == e && pcts.drop_last()[i] == pcts[i]);
        every_consumer_has_a_line(front, pcts.drop_last(), i, k);
    } else {
        rows_have_their_consumer(e, pcts[i], e.consumers@, k);
    }
    either_holds(before, rows, start);
    either_holds(before, rows, end);
}

/// The lines of a version have one for each of its consumers.
proof fn rows_have_their_consumer(e: TimelineEntry, pct: Seq<char>, consumers: Seq<ConsumerUsage>, k: int)
    requires
        0 <= k < consumers.len(),
    ensures
        occurs(csv_rows(e, pct, consumers), e.api_version@ + ","@ + e.state.label() + ","@),
        occurs(
            csv_rows(e, pct, consumers),
            ","@ + pct + ","@ + csv_field_of(consumers[k].consumer@) + ","@ + consumers[k].status.label() + ","@ + dec(
                consumers[k].deprecated_requests as nat,
            ) + ","@ + dec(consumers[k].successor_requests as nat) + "\n"@,
        ),
    decreases consumers.len(),
{
    let c = consumers[k];
    let front = consumers.drop_last();
    let start = e.api_version@ + ","@ + e.state.label() + ","@;
    let end = ","@ + pct + ","@ + csv_field_of(c.consumer@) + ","@ + c.status.label() + ","@ + dec(
        c.deprecated_requests as nat,
    ) + ","@ + dec(c.successor_requests as nat) + "\n"@;
    if k < front.len() {
        assert(front[k] == c);
        rows_have_their_consumer(e, pct, front, k);
    } else {
        row_has_both_ends(e, pct, c);
    }
    either_holds(csv_rows(e, pct, front), csv_row(e, pct, consumers.last()), start);
    either_holds(csv_rows(e, pct, front), csv_row(e, pct, consumers.last()), end);
}

/// The start and the end of a line.
#[verifier::rlimit(40)]
proof fn row_has_both_ends(e: TimelineEntry, pct: Seq<char>, c: ConsumerUsage)
    ensures
        occurs(csv_row(e, pct, c), e.api_version@ + ","@ + e.state.label() + ","@),
        occurs(
            csv_row(e, pct, c),
            ","@ + pct + ","@ + csv_field_of(c.consumer@) + ","@ + c.status.label() + ","@ + dec(
                c.deprecated_requests as nat,
            ) + ","@ + dec(c.successor_requests as nat) + "\n"@,
        ),
{
    let start = e.api_version@ + ","@ + e.state.label() + ","@;
    let middle = day_shown(e.sunset_date, ""@) + ","@ + days_shown(e.days_remaining, ""@);
    let end = ","@ + pct + ","@ + csv_field_of(c.consumer@) + ","@ + c.status.label() + ","@ + dec(
        c.deprecated_requests as nat,
    ) + ","@ + dec(c.successor_requests as nat) + "\n"@;
    let none = Seq::<char>::empty();
    assert(csv_row(e, pct, c) =~= none + start + (middle + end));
    assert(csv_row(e, pct, c) =~= start + middle + end + none);
    written_text_occurs(none, start, middle + end);
    written_text_occurs(start + middle, end, none);
}

/// The page lists every consumer of every version, with its status.
#[verifier::rlimit(40)]
pub proof fn every_consumer_is_listed(report: DeprecationReport, pcts: Seq<Seq<char>>, i: int, k: int)
    requires
        pcts.len() == report.entries@.len(),
        0 <= i < report.entries@.len(),
        0 <= k < report.entries@[i].consumers@.len(),
    ensures
        ({
            let c = report.entries@[i].consumers@[k];
            &&& occurs(
                html_of(report, pcts),
                "<li>"@ + html_escaped(c.consumer@) + " — "@ + c.status.label() + " ("@ + dec(
                    c.deprecated_requests as nat,
                ) + " deprecated / "@ + dec(c.successor_requests as nat) + " successor requests)</li>"@,
            )
            &&& occurs(
                html_of(report, pcts),
                "<tr><td>"@ + html_escaped(report.entries@[i].api_version@) + "</td><td>"@
                    + report.entries@[i].state.label() + "</td><td>"@,
            )
        }),
{
    let c = report.entries@[i].consumers@[k];
    let e = report.entries@[i];
    let item = html_item(c);
    let head = "<tr><td>"@ + html_escaped(e.api_version@) + "</td><td>"@ + e.state.label() + "</td><td>"@;
    items_have_their_consumer(e.consumers@, k);
    rows_have_their_entry(report.entries@, pcts, i, item);
    let rows = html_rows(report.entries@, pcts);
    let end = "</table></body></html>"@;
    let front = html_of(report, pcts).take(html_of(report, pcts).len() - end.len() - rows.len());
    assert(html_of(report, pcts) =~= front + rows + end);
    parts_hold_what_occurs(front, rows, end, item);
    parts_hold_what_occurs(front, rows, end, head);
}

/// The items have one for each consumer.
proof fn items_have_their_consumer(consumers: Seq<ConsumerUsage>, k: int)
    requires
        0 <= k < consumers.len(),
    ensures
        occurs(html_items(consumers), html_item(consumers[k])),
    decreases consumers.len(),
{
    let front = consumers.drop_last();
    let none = Seq::<char>::empty();
    let item = html_item(consumers[k]);
    if k < front.len() {
        assert(front[k] == consumers[k]);
        items_have_their_consumer(front, k);
    } else {
        assert(none + item + none =~= item);
        written_text_occurs(none, item, none);
    }
    either_holds(html_items(front), html_item(consumers.last()), item);
}

/// The rows have one for each version, which holds what its items hold.
#[verifier::rlimit(40)]
proof fn rows_have_their_entry(entries: Seq<TimelineEntry>, pcts: Seq<Seq<char>>, i: int, item: Seq<char>)
    requires
        pcts.len() == entries.len(),
        0 <= i < entries.len(),
        occurs(html_items(entries[i].consumers@), item),
    ensures
        occurs(html_rows(entries, pcts), item),
        occurs(
            html_rows(entries, pcts),
            "<tr><td>"@ + html_escaped(entries[i].api_version@) + "</td><td>"@ + entries[i].state.label()
                + "</td><td>"@,
        ),
    decreases entries.len(),
{
    let e = entries[i];
    let front = entries.drop_last();
    let head = "<tr><td>"@ + html_escaped(e.api_version@) + "</td><td>"@ + e.state.label() + "</td><td>"@;
    let row = html_row(entries.last(), pcts.last());
    if i < front.len() {
        assert(front[i] == e);
        rows_have_their_entry(front, pcts.drop_last(), i, item);
    } else {
        let items = html_items(e.consumers@);
        let end = "</ul></details></td></tr>"@;
        let before = row.take(row.len() - end.len() - items.len());
        assert(row =~= before + items + end);
        parts_hold_what_occurs(before, items, end, item);
        let none = Seq::<char>::empty();
        assert(row =~= none + head + row.skip(head.len() as int));
        written_text_occurs(none, head, row.skip(head.len() as int));
    }
    either_holds(html_rows(front, pcts.drop_last()), row, item);
    either_holds(html_rows(front, pcts.drop_last()), row, head);
}

/// A date and days that are not known are shown as nothing in the table and as a dash on the page.
pub proof fn days_are_shown_as_numbers(d: i32, n: i64, absent: Seq<char>)
    ensures
        day_shown(Some(d), absent) == day_text(d),
        day_shown(None, absent) == absent,
        days_shown(Some(n), absent) == dec_int(n as int),
        days_shown(None, absent) == absent,
{
}

/// The consumers of a version are those that called it or its successor, each once, by name.
pub proof fn every_caller_is_a_consumer(
    v: Seq<ConsumerUsage>,
    events: Seq<RequestEvent>,
    version: Seq<char>,
    successor: Seq<char>,
    i: int,
)
    requires
        are_consumers(v, events, version, successor),
        0 <= i < events.len(),
        events[i].version@ == version || events[i].version@ == successor,
    ensures
        ({
            let caller = if events[i].api_key_id is Some {
                (events[i].api_key_id->0)@
            } else {
                "anonymous"@
            };
            exists|k: int| 0 <= k < v.len() && (#[trigger] v[k]).consumer@ == caller
        }),
        forall|a: int, b: int| 0 <= a < b < v.len() ==> (#[trigger] v[a]).consumer@ != (#[trigger] v[b]).consumer@,
{
    let caller = if events[i].api_key_id is Some {
        (events[i].api_key_id->0)@
    } else {
        "anonymous"@
    };
    calls_are_counted(events, events[i].version@, caller, i);
    let all = consumer_names(v);
    assert(all.contains(caller));
    let k = all.index_of(caller);
    assert(v[k].consumer@ == caller);
    assert forall|a: int, b: int| 0 <= a < b < v.len() implies (#[trigger] v[a]).consumer@ != (
    #[trigger] v[b]).consumer@ by {
        assert(lex_lt(all[a], all[b]));
        lex_irreflexive(all[a]);
    }
}

/// A call is among the requests of its consumer.
proof fn calls_are_counted(events: Seq<RequestEvent>, version: Seq<char>, consumer: Seq<char>, i: int)
    requires
        0 <= i < events.len(),
        events[i].version@ == version,
        (events[i].api_key_id is Some ==> (events[i].api_key_id->0)@ == consumer),
        (events[i].api_key_id is None ==> consumer == "anonymous"@),
    ensures
        requests_by(events, version, consumer) > 0,
    decreases events.len(),
{
    if i < events.len() - 1 {
        assert(events.drop_last()[i] == events[i]);
        calls_are_counted(events.drop_last(), version, consumer, i);
    }
}

} // verus!
