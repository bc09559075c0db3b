//! Feature flags in signed, versioned bundles, with an audit trail of every decision.
//!
//! A forged or corrupted bundle, or a stale one, is rejected before it can change behavior.
//! Kill switches are looked at before the bundle and do not depend on its delivery. The rule
//! of a flag is evaluated by the caller, who passes on its decision.

use vstd::prelude::*;
#[allow(unused_imports)]
use vstd::string::*;
#[allow(unused_imports)]
use vstd::utf8::encode_utf8;
#[allow(unused_imports)]
use crate::bounded::{last_n, BoundedLog};
use crate::clock;
#[allow(unused_imports)]
use crate::clock::{is_moment, rfc3339_z, to_rfc3339_z, Moment};
#[allow(unused_imports)]
use crate::digest::{equal_in_full, hex_of, hmac_of, hmac_sha256, to_hex};
#[allow(unused_imports)]
use crate::json::{json_text, quote};
#[allow(unused_imports)]
use crate::seqs::{filter_none, filter_step};
#[allow(unused_imports)]
use crate::strmap::{ascending, ascending_index, keys_of, map_of, texts, StrMap};
#[allow(unused_imports)]
use crate::text::{
    dec, decimal, join, joined, joined_holds, occurs, parts_hold_what_occurs, same, text2, views,
};

verus! {

/// A single flag variant inside a bundle.
#[derive(Debug, PartialEq, Eq)]
pub struct FlagVariant {
    /// Flag name.
    pub name: String,
    /// Variant selected when the rule matches.
    pub variant: String,
    /// The rule guarding the variant, in JSON.
    pub rule_json: String,
    /// Whether this variant is user-visible (audited on every evaluation).
    pub user_affecting: bool,
}

impl Clone for FlagVariant {
    fn clone(&self) -> (r: Self)
        ensures
            r == *self,
    {
        FlagVariant {
            name: self.name.clone(),
            variant: self.variant.clone(),
            rule_json: self.rule_json.clone(),
            user_affecting: self.user_affecting,
        }
    }
}

impl FlagVariant {
    /// Create a user-affecting variant with the given rule JSON.
    pub fn user_affecting(name: &str, variant: &str, rule_json: &str) -> (v: Self)
        ensures
            v.name@ == name@,
            v.variant@ == variant@,
            v.rule_json@ == rule_json@,
            v.user_affecting,
    {
        FlagVariant {
            name: name.to_owned(),
            variant: variant.to_owned(),
            rule_json: rule_json.to_owned(),
            user_affecting: true,
        }
    }
}

/// A versioned set of flag variants distributed to every operator replica.
#[derive(Debug)]
pub struct FlagBundle {
    /// Monotonic bundle version; receivers reject older versions.
    pub version: u64,
    /// When the bundle was published.
    pub published_at: Moment,
    /// Flag variants keyed by flag name.
    pub flags: StrMap<FlagVariant>,
}

/// `true` or `false`.
pub open spec fn bool_text(b: bool) -> Seq<char> {
    if b {
        "true"@
    } else {
        "false"@
    }
}

/// One variant in canonical form, behind its key.
pub open spec fn variant_text(key: Seq<char>, v: FlagVariant) -> Seq<char> {
    json_text(key) + ":{\"name\":"@ + json_text(v.name@) + ",\"variant\":"@ + json_text(v.variant@) + ",\"rule_json\":"@
        + json_text(v.rule_json@) + ",\"user_affecting\":"@ + bool_text(v.user_affecting) + "}"@
}

/// The variants in canonical form, in name order.
pub open spec fn variant_texts(pairs: Seq<(String, FlagVariant)>) -> Seq<Seq<char>> {
    Seq::new(pairs.len(), |i: int| variant_text(pairs[i].0@, pairs[i].1))
}

impl FlagBundle {
    /// The canonical form of the bundle.
    pub open spec fn canonical_text(self) -> Seq<char> {
        "{\"version\":"@ + dec(self.version as nat) + ",\"published_at\":"@ + json_text(rfc3339_z(self.published_at))
            + ",\"flags\":{"@ + joined(variant_texts(self.flags.pairs()), ","@) + "}}"@
    }

    /// Create an empty bundle at `version`, published now.
    pub fn new(version: u64) -> (b: Self)
        ensures
            b.version == version,
            b.flags@ == Map::<Seq<char>, FlagVariant>::empty(),
            is_moment(b.published_at),
    {
        FlagBundle { version, published_at: clock::now_exactly(), flags: StrMap::new() }
    }

    /// Insert or replace a variant.
    pub fn insert(&mut self, variant: FlagVariant)
        ensures
            final(self).version == old(self).version,
            final(self).published_at == old(self).published_at,
            final(self).flags@ == old(self).flags@.insert(variant.name@, variant),
    {
        self.flags.insert(variant.name.clone(), variant);
    }

    /// Canonical bytes covered by the signature.
    pub fn canonical_bytes(&self) -> (bytes: Vec<u8>)
        requires
            is_moment(self.published_at),
        ensures
            bytes@ == encode_utf8(self.canonical_text()),
    {
        let n: usize = self.flags.len();
        let ghost all = variant_texts(self.flags.pairs());
        let mut parts: Vec<String> = Vec::new();
        let mut i: usize = 0;
        while i < n
            invariant
                i <= n == self.flags.pairs().len(),
                all == variant_texts(self.flags.pairs()),
                views(parts@) == all.take(i as int),
            decreases n - i,
        {
            let ghost was = parts@;
            parts.push(write_variant(self.flags.key_at(i).as_str(), self.flags.value_at(i)));
            proof {
                assert(views(parts@) =~= views(was).push(all[i as int]));
                assert(all.take(i as int + 1) =~= all.take(i as int).push(all[i as int]));
            }
            i = i + 1;
        }
        proof {
            assert(all.take(n as int) =~= all);
        }
        let mut s = text2("{\"version\":", decimal(self.version).as_str());
        s.append(",\"published_at\":");
        s.append(quote(to_rfc3339_z(self.published_at).as_str()).as_str());
        s.append(",\"flags\":{");
        s.append(join(&parts, ",").as_str());
        s.append("}}");
        s.as_str().as_bytes_vec()
    }

    /// A copy of the bundle.
    pub fn copy(&self) -> (b: Self)
        ensures
            b.version == self.version,
            b.published_at == self.published_at,
            b.flags@ == self.flags@,
    {
        let mut flags: StrMap<FlagVariant> = StrMap::new();
        let n: usize = self.flags.len();
        let ghost pairs = self.flags.pairs();
        let mut i: usize = 0;
        while i < n
            invariant
                i <= n == pairs.len(),
                pairs == self.flags.pairs(),
                self.flags@ == map_of(pairs),
                forall|k: Seq<char>| #[trigger]
                    flags@.contains_key(k) <==> keys_of(pairs).take(i as int).contains(k),
                forall|k: Seq<char>| #[trigger]
                    flags@.contains_key(k) ==> self.flags@.contains_key(k) && flags@[k] == self.flags@[k],
            decreases n - i,
        {
            let k = self.flags.key_at(i);
            proof {
                let t = keys_of(pairs).take(i as int);
                let u = keys_of(pairs).take(i as int + 1);
                assert(u =~= t.push(k@));
                assert forall|x: Seq<char>| #[trigger] u.contains(x) <==> t.contains(x) || x == k@ by {
                    if u.contains(x) {
                        let j = u.index_of(x);
                        if j < i {
                            assert(t[j] == x);
                        }
                    }
                    if t.contains(x) {
                        let j = t.index_of(x);
                        assert(u[j] == x);
                    }
                    assert(u[i as int] == k@);
                }
            }
            flags.insert(k.clone(), self.flags.value_at(i).clone());
            i = i + 1;
        }
        proof {
            assert(keys_of(pairs).take(n as int) =~= keys_of(pairs));
            assert(flags@ =~= self.flags@);
        }
        FlagBundle { version: self.version, published_at: self.published_at, flags }
    }
}

fn write_variant(key: &str, v: &FlagVariant) -> (s: String)
    ensures
        s@ == variant_text(key@, *v),
{
    let mut s = quote(key);
    s.append(":{\"name\":");
    s.append(quote(v.name.as_str()).as_str());
    s.append(",\"variant\":");
    s.append(quote(v.variant.as_str()).as_str());
    s.append(",\"rule_json\":");
    s.append(quote(v.rule_json.as_str()).as_str());
    s.append(",\"user_affecting\":");
    s.append(
        if v.user_affecting {
            "true"
        } else {
            "false"
        },
    );
    s.append("}");
    s
}

/// The signature of a text under a key.
pub open spec fn signature_of(key: Seq<u8>, text: Seq<char>) -> Seq<char> {
    hex_of(hmac_of(key, encode_utf8(text)))
}

/// A bundle paired with its HMAC-SHA256 signature.
#[derive(Debug)]
pub struct SignedBundle {
    /// The payload being distributed.
    pub bundle: FlagBundle,
    /// Hex-encoded HMAC-SHA256 over the canonical bytes of the bundle.
    pub signature: String,
}

impl SignedBundle {
    /// The signature is that of the bundle under the key.
    pub open spec fn is_genuine(self, key: Seq<u8>) -> bool {
        self.signature@ == signature_of(key, self.bundle.canonical_text())
    }

    /// Sign `bundle` with `signing_key`.
    pub fn sign(bundle: FlagBundle, signing_key: &[u8]) -> (s: Self)
        requires
            is_moment(bundle.published_at),
        ensures
            s.bundle == bundle,
            s.is_genuine(signing_key@),
    {
        let bytes = bundle.canonical_bytes();
        let signature = to_hex(&hmac_sha256(signing_key, bytes.as_slice()));
        SignedBundle { bundle, signature }
    }

    /// Verify the signature against `signing_key`.
    pub fn verify(&self, signing_key: &[u8]) -> (r: bool)
        requires
            is_moment(self.bundle.published_at),
        ensures
            r == self.is_genuine(signing_key@),
    {
        let bytes = self.bundle.canonical_bytes();
        let expected = to_hex(&hmac_sha256(signing_key, bytes.as_slice()));
        equal_in_full(expected.as_str(), self.signature.as_str())
    }
}

/// Kill switches bypass the bundle pipeline entirely: they are looked at before any bundle,
/// and keep working while bundle delivery is down.
#[derive(Debug)]
pub struct KillSwitch {
    /// The reasons of the flags that are forced off.
    pub killed: StrMap<String>,
}

impl Default for KillSwitch {
    fn default() -> (k: Self)
        ensures
            texts(k.killed@) == Map::<Seq<char>, Seq<char>>::empty(),
    {
        KillSwitch::new()
    }
}

impl KillSwitch {
    /// An empty kill-switch set (nothing force-disabled).
    pub fn new() -> (k: Self)
        ensures
            texts(k.killed@) == Map::<Seq<char>, Seq<char>>::empty(),
    {
        let k = KillSwitch { killed: StrMap::new() };
        proof {
            assert(texts(k.killed@) =~= Map::<Seq<char>, Seq<char>>::empty());
        }
        k
    }

    /// Force `flag` off with a human-readable `reason`.
    pub fn kill(&mut self, flag: &str, reason: &str)
        ensures
            texts(final(self).killed@) == texts(old(self).killed@).insert(flag@, reason@),
    {
        self.killed.set(flag, reason);
    }

    /// Lift the kill on `flag`; returns true when one was present.
    pub fn revive(&mut self, flag: &str) -> (r: bool)
        ensures
            texts(final(self).killed@) == texts(old(self).killed@).remove(flag@),
            r == texts(old(self).killed@).contains_key(flag@),
    {
        let gone = self.killed.remove(flag);
        proof {
            assert(texts(self.killed@) =~= texts(old(self).killed@).remove(flag@));
        }
        gone.is_some()
    }

    /// Whether `flag` is currently force-disabled.
    pub fn is_killed(&self, flag: &str) -> (r: bool)
        ensures
            r == texts(self.killed@).contains_key(flag@),
    {
        self.killed.contains_key(flag)
    }

    /// The recorded reason for killing `flag`, if any.
    pub fn reason(&self, flag: &str) -> (r: Option<&str>)
        ensures
            r is Some <==> texts(self.killed@).contains_key(flag@),
            r matches Some(s) ==> s@ == texts(self.killed@)[flag@],
    {
        match self.killed.get(flag) {
            Some(s) => Some(s.as_str()),
            None => None,
        }
    }
}

/// One recorded evaluation decision affecting (or potentially affecting) user-visible
/// behavior.
#[derive(Debug, PartialEq, Eq)]
pub struct AuditEntry {
    /// When the decision was made, in microseconds since the epoch.
    pub at: i64,
    /// Flag that was evaluated.
    pub flag: String,
    /// Resolved variant (`off` when disabled).
    pub variant: String,
    /// Subject the flag was evaluated for.
    pub subject: String,
    /// Whether the feature resolved on.
    pub enabled: bool,
    /// Machine-readable reason for the decision.
    pub reason: String,
    /// Bundle version backing the decision (`None` when no bundle loaded).
    pub bundle_version: Option<u64>,
}

/// Bounded, append-only trail of evaluation decisions.
#[derive(Debug)]
pub struct EvaluationAudit {
    log: BoundedLog<AuditEntry>,
}

impl View for EvaluationAudit {
    type V = Seq<AuditEntry>;

    closed spec fn view(&self) -> Seq<AuditEntry> {
        self.log@
    }
}

impl Default for EvaluationAudit {
    fn default() -> (a: Self)
        ensures
            a@ == Seq::<AuditEntry>::empty(),
    {
        EvaluationAudit::new()
    }
}

impl EvaluationAudit {
    #[verifier::type_invariant]
    spec fn bounded(self) -> bool {
        self.log.capacity() == 10_000
    }

    /// An empty audit trail.
    pub fn new() -> (a: Self)
        ensures
            a@ == Seq::<AuditEntry>::empty(),
    {
        EvaluationAudit { log: BoundedLog::new(10_000) }
    }

    /// Record one entry, evicting the oldest when ten thousand are kept.
    pub fn record(&mut self, entry: AuditEntry)
        ensures
            final(self)@ == last_n(old(self)@.push(entry), 10_000),
    {
        proof {
            use_type_invariant(&*self);
        }
        let mut log: BoundedLog<AuditEntry> = BoundedLog::new(10_000);
        std::mem::swap(&mut log, &mut self.log);
        log.push(entry);
        self.log = log;
    }

    /// Number of recorded entries.
    pub fn len(&self) -> (n: usize)
        ensures
            n == self@.len(),
            n <= 10_000,
    {
        proof {
            use_type_invariant(self);
        }
        self.log.len()
    }

    /// Whether no entries have been recorded.
    pub fn is_empty(&self) -> (r: bool)
        ensures
            r == (self@.len() == 0),
    {
        self.log.is_empty()
    }

    /// Entry `i`, oldest first.
    pub fn entry(&self, i: usize) -> (e: &AuditEntry)
        requires
            i < self@.len(),
        ensures
            *e == self@[i as int],
    {
        self.log.at(i)
    }

    /// All recorded entries, oldest first.
    pub fn entries(&self) -> (out: Vec<&AuditEntry>)
        ensures
            out@.map_values(|e: &AuditEntry| *e) == self@,
    {
        let n: usize = self.log.len();
        let mut out: Vec<&AuditEntry> = Vec::new();
        let mut i: usize = 0;
        while i < n
            invariant
                i <= n == self.log@.len(),
                self@ == self.log@,
                out@.map_values(|e: &AuditEntry| *e) == self@.take(i as int),
            decreases n - i,
        {
            let e = self.log.at(i);
            let ghost was = out@;
            out.push(e);
            proof {
                assert(out@.map_values(|e: &AuditEntry| *e) =~= was.map_values(|e: &AuditEntry| *e).push(*e));
                assert(self@.take(i as int + 1) =~= self@.take(i as int).push(*e));
            }
            i = i + 1;
        }
        proof {
            assert(self@.take(n as int) =~= self@);
        }
        out
    }

    /// Entries for one flag, oldest first.
    pub fn for_flag(&self, flag: &str) -> (out: Vec<&AuditEntry>)
        ensures
            out@.map_values(|e: &AuditEntry| *e) == self@.filter(|e: AuditEntry| e.flag@ == flag@),
    {
        let n: usize = self.log.len();
        let ghost f = |e: AuditEntry| e.flag@ == flag@;
        let mut out: Vec<&AuditEntry> = Vec::new();
        let mut i: usize = 0;
        proof {
            filter_none(self@, f);
        }
        while i < n
            invariant
                i <= n == self.log@.len(),
                self@ == self.log@,
                f == (|e: AuditEntry| e.flag@ == flag@),
                out@.map_values(|e: &AuditEntry| *e) == self@.take(i as int).filter(f),
            decreases n - i,
        {
            let e = self.log.at(i);
            proof {
                filter_step(self@, i as int, f);
            }
            if same(e.flag.as_str(), flag) {
                let ghost was = out@;
                out.push(e);
                proof {
                    assert(out@.map_values(|e: &AuditEntry| *e) =~= was.map_values(|e: &AuditEntry| *e).push(*e));
                }
            }
            i = i + 1;
        }
        proof {
            assert(self@.take(n as int) =~= self@);
        }
        out
    }
}

/// What the rule of a flag decides for a subject.
#[derive(Debug)]
pub struct Decision {
    pub enabled: bool,
    pub reason: String,
}

/// The outcome of one audited evaluation.
#[derive(Debug, PartialEq, Eq)]
pub struct AuditedDecision {
    /// Whether the feature is on for this subject.
    pub enabled: bool,
    /// Resolved variant name.
    pub variant: String,
    /// Why this outcome was chosen.
    pub reason: String,
}

/// In-process flag evaluation over a cached bundle.
///
/// Bundle delivery failures leave the last-known-good bundle in place, and a newer bundle
/// takes its place without a restart.
#[derive(Debug)]
pub struct BundleStore {
    pub bundle: Option<FlagBundle>,
    pub kill_switch: KillSwitch,
    pub audit: EvaluationAudit,
    /// When the bundle was applied, in microseconds on a clock that does not run back.
    pub applied_at: Option<i64>,
    pub last_version: Option<u64>,
}

/// The bundle has the flag.
pub open spec fn has_flag(bundle: Option<FlagBundle>, flag: Seq<char>) -> bool {
    bundle matches Some(b) && b.flags@.contains_key(flag)
}

/// A variant of the bundle has this name, and so a rule for the flag.
pub open spec fn has_rule(bundle: Option<FlagBundle>, flag: Seq<char>) -> bool {
    bundle matches Some(b) && exists|k: Seq<char>| #[trigger]
        b.flags@.contains_key(k) && b.flags@[k].name@ == flag
}

/// The rule of a flag: that of the last variant which has the flag's name.
pub open spec fn rule_in(pairs: Seq<(String, FlagVariant)>, flag: Seq<char>) -> Option<Seq<char>>
    decreases pairs.len(),
{
    if pairs.len() == 0 {
        None
    } else if pairs.last().1.name@ == flag {
        Some(pairs.last().1.rule_json@)
    } else {
        rule_in(pairs.drop_last(), flag)
    }
}

/// The variant that a flag resolves to: that under its name in the bundle, `on` where there is
/// none, and `off` where it is not enabled.
pub open spec fn resolved(bundle: Option<FlagBundle>, flag: Seq<char>, enabled: bool) -> Seq<char> {
    if !enabled {
        "off"@
    } else if has_flag(bundle, flag) {
        bundle->0.flags@[flag].variant@
    } else {
        "on"@
    }
}

/// What is recorded and what is answered for a flag: a killed flag is off whatever its rule
/// says, and so is one that the bundle has no rule for.
pub open spec fn is_evaluation(
    store: BundleStore,
    entry: AuditEntry,
    answer: AuditedDecision,
    flag: Seq<char>,
    subject: Seq<char>,
    decision: Decision,
    now: i64,
) -> bool {
    let killed = texts(store.kill_switch.killed@);
    &&& entry.at == now
    &&& entry.flag@ == flag
    &&& entry.subject@ == subject
    &&& entry.bundle_version == store.last_version
    &&& answer.enabled == entry.enabled
    &&& answer.variant@ == entry.variant@
    &&& if killed.contains_key(flag) {
        &&& !answer.enabled
        &&& answer.variant@ == "off"@
        &&& answer.reason@ == "kill-switch"@
        &&& entry.reason@ == "kill-switch: "@ + killed[flag]
    } else {
        &&& answer.enabled == (decision.enabled && has_rule(store.bundle, flag))
        &&& answer.variant@ == resolved(store.bundle, flag, answer.enabled)
        &&& answer.reason@ == decision.reason@
        &&& entry.reason@ == decision.reason@
    }
}

/// Whether a variant of the bundle has this name.
fn names_flag(bundle: &Option<FlagBundle>, flag: &str) -> (r: bool)
    ensures
        r == has_rule(*bundle, flag@),
{
    match bundle {
        Some(b) => {
            let n: usize = b.flags.len();
            let ghost pairs = b.flags.pairs();
            let mut i: usize = 0;
            while i < n
                invariant
                    i <= n == pairs.len(),
                    pairs == b.flags.pairs(),
                    ascending(keys_of(pairs)),
                    b.flags@ == map_of(pairs),
                    *bundle == Some(*b),
                    forall|j: int| 0 <= j < i ==> (#[trigger] pairs[j]).1.name@ != flag@,
                decreases n - i,
            {
                if same(b.flags.value_at(i).name.as_str(), flag) {
                    proof {
                        ascending_index(pairs, i as int);
                        let k = pairs[i as int].0@;
                        assert(b.flags@.contains_key(k) && b.flags@[k].name@ == flag@);
                        assert(bundle->0.flags@.contains_key(k));
                    }
                    return true;
                }
                i = i + 1;
            }
            proof {
                assert forall|k: Seq<char>| #[trigger] b.flags@.contains_key(k) implies b.flags@[k].name@ != flag@ by {
                    let j = keys_of(pairs).index_of(k);
                    assert(keys_of(pairs)[j] == k);
                    assert(pairs[j].1.name@ != flag@);
                }
            }
            false
        },
        None => false,
    }
}

/// The variant under this name in the bundle, `on` where there is none.
fn variant_in(bundle: &Option<FlagBundle>, flag: &str) -> (v: String)
    ensures
        v@ == resolved(*bundle, flag@, true),
{
    match bundle {
        Some(b) => match b.flags.get(flag) {
            Some(v) => v.variant.clone(),
            None => "on".to_owned(),
        },
        None => "on".to_owned(),
    }
}

/// The error of a bundle that is not newer than the current one.
pub open spec fn stale_text(version: u64, current: u64) -> Seq<char> {
    "stale bundle version "@ + dec(version as nat) + " (current "@ + dec(current as nat) + ")"@
}

/// What installing a bundle does: a forged or stale one changes nothing, and any other takes
/// the place of the current one.
pub open spec fn is_install(
    before: BundleStore,
    after: BundleStore,
    signed: SignedBundle,
    key: Seq<u8>,
    now: i64,
    r: Result<u64, String>,
) -> bool {
    let version = signed.bundle.version;
    let stale = before.last_version matches Some(current) && version <= current;
    &&& after.kill_switch == before.kill_switch
    &&& after.audit == before.audit
    &&& if !signed.is_genuine(key) {
        &&& r matches Err(e) && e@ == "bundle signature verification failed"@
        &&& after == before
    } else if stale {
        &&& r matches Err(e) && e@ == stale_text(version, before.last_version->0)
        &&& after == before
    } else {
        &&& r == Ok::<u64, String>(version)
        &&& after.last_version == Some(version)
        &&& after.applied_at == Some(now)
        &&& after.bundle matches Some(b) && b.version == version && b.published_at == signed.bundle.published_at
            && b.flags@ == signed.bundle.flags@
    }
}

impl Default for BundleStore {
    fn default() -> (s: Self)
        ensures
            s.bundle is None,
            s.last_version is None,
            s.applied_at is None,
            s.audit@.len() == 0,
            texts(s.kill_switch.killed@) == Map::<Seq<char>, Seq<char>>::empty(),
    {
        BundleStore::new()
    }
}

impl BundleStore {
    /// Create a store with no bundle loaded (all flags off).
    pub fn new() -> (s: Self)
        ensures
            s.bundle is None,
            s.last_version is None,
            s.applied_at is None,
            s.audit@.len() == 0,
            texts(s.kill_switch.killed@) == Map::<Seq<char>, Seq<char>>::empty(),
    {
        BundleStore {
            bundle: None,
            kill_switch: KillSwitch::new(),
            audit: EvaluationAudit::new(),
            applied_at: None,
            last_version: None,
        }
    }

    /// Install a signed bundle after verifying its signature and version. Stale versions and
    /// bad signatures are rejected without touching the cached bundle.
    pub fn install(&mut self, signed: &SignedBundle, signing_key: &[u8], now: i64) -> (r: Result<u64, String>)
        requires
            is_moment(signed.bundle.published_at),
        ensures
            is_install(*old(self), *final(self), *signed, signing_key@, now, r),
    {
        if !signed.verify(signing_key) {
            return Err("bundle signature verification failed".to_owned());
        }
        let version: u64 = signed.bundle.version;
        if let Some(current) = self.last_version {
            if version <= current {
                let mut e = text2("stale bundle version ", decimal(version).as_str());
                e.append(" (current ");
                e.append(decimal(current).as_str());
                e.append(")");
                return Err(e);
            }
        }
        self.bundle = Some(signed.bundle.copy());
        self.last_version = Some(version);
        self.applied_at = Some(now);
        Ok(version)
    }

    /// Force-disable `flag` independently of bundle delivery.
    pub fn kill(&mut self, flag: &str, reason: &str)
        ensures
            texts(final(self).kill_switch.killed@) == texts(old(self).kill_switch.killed@).insert(flag@, reason@),
            final(self).bundle == old(self).bundle,
            final(self).audit == old(self).audit,
            final(self).applied_at == old(self).applied_at,
            final(self).last_version == old(self).last_version,
    {
        self.kill_switch.kill(flag, reason);
    }

    /// Lift a kill-switch on `flag`; returns true when one was present.
    pub fn revive(&mut self, flag: &str) -> (r: bool)
        ensures
            texts(final(self).kill_switch.killed@) == texts(old(self).kill_switch.killed@).remove(flag@),
            r == texts(old(self).kill_switch.killed@).contains_key(flag@),
            final(self).bundle == old(self).bundle,
            final(self).audit == old(self).audit,
            final(self).applied_at == old(self).applied_at,
            final(self).last_version == old(self).last_version,
    {
        self.kill_switch.revive(flag)
    }

    /// The rule of `flag`, as JSON: that of the variant which has the flag's name, of the last
    /// where several have; `None` where no variant of the bundle has it.
    pub fn rule_of(&self, flag: &str) -> (r: Option<&str>)
        ensures
            match r {
                Some(s) => self.bundle matches Some(b) && rule_in(b.flags.pairs(), flag@) == Some(s@),
                None => self.bundle matches Some(b) ==> rule_in(b.flags.pairs(), flag@) is None,
            },
    {
        match &self.bundle {
            Some(b) => {
                let flags = &b.flags;
                let mut i: usize = flags.len();
                let ghost pairs = flags.pairs();
                proof {
                    assert(pairs.take(pairs.len() as int) =~= pairs);
                }
                while i > 0
                    invariant
                        i <= pairs.len(),
                        pairs == flags.pairs(),
                        self.bundle == Some(*b),
                        *flags == b.flags,
                        rule_in(pairs, flag@) == rule_in(pairs.take(i as int), flag@),
                    decreases i,
                {
                    proof {
                        assert(pairs.take(i as int).drop_last() =~= pairs.take(i - 1));
                        assert(pairs.take(i as int).last() == pairs[i - 1]);
                    }
                    i = i - 1;
                    let v = flags.value_at(i);
                    if same(v.name.as_str(), flag) {
                        return Some(v.rule_json.as_str());
                    }
                }
                None
            },
            None => None,
        }
    }

    /// Evaluate `flag` for `subject`, recording the decision in the audit trail. `decision` is
    /// what the flag's rule says. The kill switch comes first, then the rule; a flag that the
    /// bundle does not have is off. Every path records an entry.
    pub fn evaluate_audited(&mut self, flag: &str, subject: &str, decision: &Decision, now: i64) -> (r: AuditedDecision)
        ensures
            final(self).bundle == old(self).bundle,
            final(self).kill_switch == old(self).kill_switch,
            final(self).applied_at == old(self).applied_at,
            final(self).last_version == old(self).last_version,
            exists|entry: AuditEntry| #[trigger]
                is_evaluation(*old(self), entry, r, flag@, subject@, *decision, now) && final(self).audit@ == last_n(
                    old(self).audit@.push(entry),
                    10_000,
                ),
    {
        let (enabled, variant, reason, answered): (bool, String, String, String) = match self.kill_switch.reason(flag) {
            Some(why) => (false, "off".to_owned(), text2("kill-switch: ", why), "kill-switch".to_owned()),
            None => {
                let enabled = decision.enabled && names_flag(&self.bundle, flag);
                let variant = if !enabled {
                    "off".to_owned()
                } else {
                    variant_in(&self.bundle, flag)
                };
                (enabled, variant, decision.reason.clone(), decision.reason.clone())
            },
        };
        let entry = AuditEntry {
            at: now,
            flag: flag.to_owned(),
            variant: variant.clone(),
            subject: subject.to_owned(),
            enabled,
            reason,
            bundle_version: self.last_version,
        };
        let r = AuditedDecision { enabled, variant, reason: answered };
        proof {
            assert(is_evaluation(*self, entry, r, flag@, subject@, *decision, now));
        }
        self.audit.record(entry);
        r
    }

    /// Number of recorded audit entries.
    pub fn audit_len(&self) -> (n: usize)
        ensures
            n == self.audit@.len(),
    {
        self.audit.len()
    }

    /// The audit trail.
    pub fn audit(&self) -> (a: &EvaluationAudit)
        ensures
            *a == self.audit,
    {
        &self.audit
    }

    /// Currently installed bundle version, if any.
    pub fn version(&self) -> (v: Option<u64>)
        ensures
            v == self.last_version,
    {
        self.last_version
    }

    /// How long ago the current bundle was applied, in microseconds.
    pub fn bundle_age(&self, now: i64) -> (age: Option<i128>)
        ensures
            age is Some <==> self.applied_at is Some,
            age matches Some(a) ==> a == now - self.applied_at->0,
    {
        match self.applied_at {
            Some(t) => Some(now as i128 - t as i128),
            None => None,
        }
    }
}

/// Versions only grow: whatever is offered, the installed version never gets smaller, and a
/// bundle that is refused leaves the store as it was.
pub proof fn versions_only_grow(
    before: BundleStore,
    after: BundleStore,
    signed: SignedBundle,
    key: Seq<u8>,
    now: i64,
    r: Result<u64, String>,
)
    requires
        is_install(before, after, signed, key, now, r),
    ensures
        before.last_version matches Some(v) ==> (after.last_version matches Some(w) && v <= w),
        r is Err ==> after == before,
        r is Ok ==> signed.is_genuine(key) && (before.last_version matches Some(v) ==> v < signed.bundle.version),
{
}

/// A killed flag is off and its decision is audited, whatever the bundle and the rule say.
pub proof fn kill_switches_prevail(
    store: BundleStore,
    entry: AuditEntry,
    answer: AuditedDecision,
    flag: Seq<char>,
    subject: Seq<char>,
    decision: Decision,
    now: i64,
)
    requires
        is_evaluation(store, entry, answer, flag, subject, decision, now),
        texts(store.kill_switch.killed@).contains_key(flag),
    ensures
        !answer.enabled,
        !entry.enabled,
        entry.variant@ == "off"@,
        entry.flag@ == flag,
        entry.subject@ == subject,
{
}

/// A flag that the bundle has no rule for is off, and its evaluation is recorded all the same.
pub proof fn unknown_flags_are_off(
    store: BundleStore,
    entry: AuditEntry,
    answer: AuditedDecision,
    flag: Seq<char>,
    subject: Seq<char>,
    decision: Decision,
    now: i64,
)
    requires
        is_evaluation(store, entry, answer, flag, subject, decision, now),
        !has_rule(store.bundle, flag),
    ensures
        !answer.enabled,
        !entry.enabled,
        entry.variant@ == "off"@,
        entry.flag@ == flag,
        entry.subject@ == subject,
{
}

/// Lifting a kill that was just set leaves the switches as they were, where the flag had none.
pub proof fn revive_undoes_kill(killed: Map<Seq<char>, Seq<char>>, flag: Seq<char>, reason: Seq<char>)
    requires
        !killed.contains_key(flag),
    ensures
        killed.insert(flag, reason).remove(flag) == killed,
{
    assert(killed.insert(flag, reason).remove(flag) =~= killed);
}

/// What is signed holds the version, the instant of publication and, for each variant, its key,
/// its name, its value, its rule and whether it affects users: none of them can be changed without
/// changing what the signature is of.
#[verifier::rlimit(40)]
pub proof fn everything_is_signed(b: FlagBundle, i: int)
    requires
        0 <= i < b.flags.pairs().len(),
    ensures
        ({
            let v = b.flags.pairs()[i].1;
            occurs(
                b.canonical_text(),
                json_text(b.flags.pairs()[i].0@) + ":{\"name\":"@ + json_text(v.name@) + ",\"variant\":"@ + json_text(
                    v.variant@,
                ) + ",\"rule_json\":"@ + json_text(v.rule_json@) + ",\"user_affecting\":"@ + (if v.user_affecting {
                    "true"@
                } else {
                    "false"@
                }) + "}"@,
            )
        }),
        ({
            let front = "{\"version\":"@ + dec(b.version as nat) + ",\"published_at\":"@ + json_text(
                rfc3339_z(b.published_at),
            ) + ",\"flags\":{"@;
            b.canonical_text().len() >= front.len() && b.canonical_text().take(front.len() as int) == front
        }),
{
    let pairs = b.flags.pairs();
    let front = "{\"version\":"@ + dec(b.version as nat) + ",\"published_at\":"@ + json_text(rfc3339_z(b.published_at))
        + ",\"flags\":{"@;
    let list = variant_texts(pairs);
    joined_holds(list, ","@, i);
    let inner = joined(list, ","@);
    parts_hold_what_occurs(front, inner, "}}"@, list[i]);
    assert(b.canonical_text() == front + inner + "}}"@);
    assert(b.canonical_text().take(front.len() as int) =~= front);
}

/// A bundle is installed exactly where its signature is right and its version is above the one that
/// was installed last; where it is refused, nothing changes.
pub proof fn newer_genuine_bundles_are_installed(
    before: BundleStore,
    after: BundleStore,
    signed: SignedBundle,
    key: Seq<u8>,
    now: i64,
    r: Result<u64, String>,
)
    requires
        is_install(before, after, signed, key, now, r),
    ensures
        r is Ok <==> signed.signature@ == hex_of(hmac_of(key, encode_utf8(signed.bundle.canonical_text()))) && (
        before.last_version is None || before.last_version->0 < signed.bundle.version),
        r is Err ==> after.bundle == before.bundle && after.last_version == before.last_version && after.applied_at
            == before.applied_at,
        r is Ok ==> r->Ok_0 == signed.bundle.version && after.last_version == Some(signed.bundle.version)
            && after.applied_at == Some(now) && after.bundle is Some && (after.bundle->0).flags@ == signed.bundle.flags@,
        after.kill_switch == before.kill_switch,
{
}

/// A flag is on for a subject exactly where it is not killed, some variant of the bundle has its
/// name, and its rule says so. What is on shows its variant, what is off shows that it is off, and
/// every answer is on record.
pub proof fn flags_are_on_by_their_rule(
    store: BundleStore,
    entry: AuditEntry,
    answer: AuditedDecision,
    flag: Seq<char>,
    subject: Seq<char>,
    decision: Decision,
    now: i64,
)
    requires
        is_evaluation(store, entry, answer, flag, subject, decision, now),
    ensures
        answer.enabled <==> decision.enabled && !texts(store.kill_switch.killed@).contains_key(flag)
            && store.bundle is Some && exists|k: Seq<char>| #[trigger]
            (store.bundle->0).flags@.contains_key(k) && (store.bundle->0).flags@[k].name@ == flag,
        !answer.enabled ==> answer.variant@ == "off"@,
        answer.enabled && (store.bundle->0).flags@.contains_key(flag) ==> answer.variant@ == (
        store.bundle->0).flags@[flag].variant@,
        answer.enabled && !(store.bundle->0).flags@.contains_key(flag) ==> answer.variant@ == "on"@,
        entry.enabled == answer.enabled && entry.variant@ == answer.variant@ && entry.flag@ == flag && entry.subject@
            == subject && entry.at == now && entry.bundle_version == store.last_version,
        texts(store.kill_switch.killed@).contains_key(flag) ==> answer.reason@ == "kill-switch"@ && entry.reason@
            == "kill-switch: "@ + texts(store.kill_switch.killed@)[flag],
        !texts(store.kill_switch.killed@).contains_key(flag) ==> answer.reason@ == decision.reason@ && entry.reason@
            == decision.reason@,
{
}

/// The rule of a flag is that of the last variant with its name.
pub proof fn the_last_variant_rules(pairs: Seq<(String, FlagVariant)>, flag: Seq<char>, i: int)
    ensures
        0 <= i < pairs.len() && pairs[i].1.name@ == flag && (forall|j: int|
            i < j < pairs.len() ==> (#[trigger] pairs[j]).1.name@ != flag) ==> rule_in(pairs, flag) == Some(
            pairs[i].1.rule_json@,
        ),
        (forall|j: int| 0 <= j < pairs.len() ==> (#[trigger] pairs[j]).1.name@ != flag) ==> rule_in(pairs, flag) is None,
    decreases pairs.len(),
{
    if pairs.len() > 0 {
        let front = pairs.drop_last();
        the_last_variant_rules(front, flag, i);
        if 0 <= i < pairs.len() - 1 && forall|j: int| i < j < pairs.len() ==> (#[trigger] pairs[j]).1.name@ != flag {
            assert(pairs[pairs.len() - 1].1.name@ != flag);
            assert(front[i] == pairs[i]);
            assert forall|j: int| i < j < front.len() implies (#[trigger] front[j]).1.name@ != flag by {
                assert(front[j] == pairs[j]);
            }
        }
        if forall|j: int| 0 <= j < pairs.len() ==> (#[trigger] pairs[j]).1.name@ != flag {
            assert(pairs[pairs.len() - 1].1.name@ != flag);
            assert forall|j: int| 0 <= j < front.len() implies (#[trigger] front[j]).1.name@ != flag by {
                assert(front[j] == pairs[j]);
            }
        }
    }
}

} // verus!
