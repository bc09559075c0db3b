//! Scan on push, gate on pull: images are scanned before a push is acknowledged, and pulls of
//! images with too many critical vulnerabilities are denied.

use vstd::prelude::*;
#[allow(unused_imports)]
use vstd::string::*;
#[allow(unused_imports)]
use crate::json::{add_item, list, no_fields, no_items, object, put, put_text, Doc, Fields, Json};
use crate::strmap::StrMap;
#[allow(unused_imports)]
use crate::text::{
    at_position, begins, chars, copy_strings, dec, decimal, join, joined, occurs, occurs_at, opt_view, position_bounds,
    same, starts_with, strip_end, text2, text_of, trim_end_matches, up_to, views,
};

verus! {

/// How a pull that breaks the rule is treated.
#[derive(Debug, Clone, Copy, PartialEq, Eq, Structural)]
pub enum PullGateMode {
    Off,
    Audit,
    Enforce,
}

/// Severity of a vulnerability.
#[derive(Debug, Clone, Copy, PartialEq, Eq, Structural)]
pub enum VulnerabilitySeverity {
    Critical,
    High,
    Medium,
    Low,
    Unknown,
}

/// How many vulnerabilities there are of each severity.
#[derive(Debug, Clone, Copy, PartialEq, Eq, Structural)]
pub struct CVECount {
    pub critical: u32,
    pub high: u32,
    pub medium: u32,
    pub low: u32,
    pub unknown: u32,
}

impl Default for CVECount {
    fn default() -> (c: Self)
        ensures
            c == (CVECount { critical: 0, high: 0, medium: 0, low: 0, unknown: 0 }),
    {
        CVECount { critical: 0, high: 0, medium: 0, low: 0, unknown: 0 }
    }
}

/// A vulnerability that a scan found.
#[derive(Debug)]
pub struct Vulnerability {
    pub cve_id: String,
    pub severity: VulnerabilitySeverity,
}

/// What a scan found.
#[derive(Debug)]
pub struct CVEDetectionResult {
    pub vulnerabilities: Vec<Vulnerability>,
    pub cve_count: CVECount,
    /// In microseconds since the epoch.
    pub scan_timestamp: i64,
}

/// Stored scan result for one digest.
#[derive(Debug, PartialEq, Eq)]
pub struct ScanReport {
    pub digest: String,
    pub image: String,
    /// In microseconds since the epoch.
    pub scanned_at: i64,
    pub cve_count: CVECount,
    pub critical_cves: Vec<String>,
    pub report_url: String,
}

/// The two reports say the same.
pub open spec fn same_report(a: ScanReport, b: ScanReport) -> bool {
    &&& a.digest@ == b.digest@
    &&& a.image@ == b.image@
    &&& a.scanned_at == b.scanned_at
    &&& a.cve_count == b.cve_count
    &&& views(a.critical_cves@) == views(b.critical_cves@)
    &&& a.report_url@ == b.report_url@
}

impl Clone for ScanReport {
    fn clone(&self) -> (r: Self)
        ensures
            same_report(r, *self),
    {
        ScanReport {
            digest: self.digest.clone(),
            image: self.image.clone(),
            scanned_at: self.scanned_at,
            cve_count: self.cve_count,
            critical_cves: copy_strings(&self.critical_cves),
            report_url: self.report_url.clone(),
        }
    }
}

/// Outcome of a pull request.
#[derive(Debug, PartialEq, Eq)]
pub enum PullDecision {
    Allow,
    /// Audit mode: the pull would have been denied.
    AllowAudited { reason: String },
    Deny { reason: String, report_url: Option<String> },
}

/// The body of the response to a denied pull.
pub open spec fn denial(reason: Seq<char>, digest: Seq<char>, report_url: Option<Seq<char>>) -> Doc {
    let detail = Fields::empty().push(("digest"@, Doc::Str(digest))).push(
        (
            "reportUrl"@,
            match report_url {
                Some(u) => Doc::Str(u),
                None => Doc::Null,
            },
        ),
    );
    let error = Fields::empty().push(("code"@, Doc::Str("DENIED"@))).push(("message"@, Doc::Str(reason))).push(
        ("detail"@, Doc::Obj(detail)),
    );
    Doc::Obj(Fields::empty().push(("errors"@, Doc::Arr(Seq::<Doc>::empty().push(Doc::Obj(error))))))
}

impl PullDecision {
    /// Whether the pull is denied.
    pub fn is_denied(&self) -> (r: bool)
        ensures
            r == (self is Deny),
    {
        match self {
            PullDecision::Deny { .. } => true,
            _ => false,
        }
    }

    /// HTTP status and OCI distribution error body for the registry response. `None` means
    /// the request should be proxied as normal.
    pub fn oci_response(&self, digest: &str) -> (r: Option<(u16, Json)>)
        ensures
            r is Some <==> self is Deny,
            r matches Some(x) ==> x.0 == 403 && x.1@ == denial(
                self->Deny_reason@,
                digest@,
                opt_view(self->Deny_report_url),
            ),
    {
        match self {
            PullDecision::Deny { reason, report_url } => {
                let mut detail = no_fields();
                put_text(&mut detail, "digest", digest);
                match report_url {
                    Some(u) => {
                        put_text(&mut detail, "reportUrl", u.as_str());
                    },
                    None => {
                        put(&mut detail, "reportUrl", Json::Null);
                    },
                }
                let mut error = no_fields();
                put_text(&mut error, "code", "DENIED");
                put_text(&mut error, "message", reason.as_str());
                put(&mut error, "detail", object(detail));
                let mut errors = no_items();
                add_item(&mut errors, object(error));
                let mut fields = no_fields();
                put(&mut fields, "errors", list(errors));
                Some((403, object(fields)))
            },
            _ => None,
        }
    }
}

/// The identifiers of the critical vulnerabilities, in order.
pub open spec fn critical_ids(v: Seq<Vulnerability>) -> Seq<Seq<char>>
    decreases v.len(),
{
    if v.len() == 0 {
        Seq::empty()
    } else if v.last().severity == VulnerabilitySeverity::Critical {
        critical_ids(v.drop_last()).push(v.last().cve_id@)
    } else {
        critical_ids(v.drop_last())
    }
}

fn criticals(v: &Vec<Vulnerability>) -> (out: Vec<String>)
    ensures
        views(out@) == critical_ids(v@),
{
    let mut out: Vec<String> = Vec::new();
    let mut i: usize = 0;
    proof {
        assert(views(out@) =~= critical_ids(v@.take(0)));
    }
    while i < v.len()
        invariant
            i <= v@.len(),
            views(out@) == critical_ids(v@.take(i as int)),
        decreases v@.len() - i,
    {
        proof {
            assert(v@.take(i as int + 1).drop_last() =~= v@.take(i as int));
        }
        if v[i].severity == VulnerabilitySeverity::Critical {
            let ghost was = out@;
            out.push(v[i].cve_id.clone());
            proof {
                assert(views(out@) =~= views(was).push(v@[i as int].cve_id@));
            }
        }
        i = i + 1;
    }
    proof {
        assert(v@.take(v@.len() as int) =~= v@);
    }
    out
}

/// What a registry resource says of its gate.
#[derive(Debug)]
pub struct StellarRegistry {
    pub endpoint: String,
    pub pull_gate: PullGateMode,
    pub max_critical_cves: u32,
}

/// Digest-addressed pull gate.
pub struct PullGate {
    pub mode: PullGateMode,
    pub max_critical_cves: u32,
    /// Base URL that scan reports are served from.
    pub report_base_url: String,
    pub registry_endpoint: String,
    /// Reports by digest.
    pub reports: StrMap<ScanReport>,
}

/// Why a pull breaks the rule, and where the report is: the digest was not scanned, or has
/// more critical vulnerabilities than are let through.
pub open spec fn violation(
    reports: Map<Seq<char>, ScanReport>,
    max: u32,
    digest: Seq<char>,
) -> Option<(Seq<char>, Option<Seq<char>>)> {
    if !reports.contains_key(digest) {
        Some((digest + " has not been scanned"@, None))
    } else {
        let r = reports[digest];
        if r.cve_count.critical > max {
            Some(
                (
                    digest + " has "@ + dec(r.cve_count.critical as nat) + " critical CVE(s) (max "@ + dec(max as nat)
                        + "): "@ + joined(views(r.critical_cves@), ", "@),
                    Some(r.report_url@),
                ),
            )
        } else {
            None
        }
    }
}

/// `d` is the decision on a pull with this violation, if any.
pub open spec fn is_decision(d: PullDecision, mode: PullGateMode, v: Option<(Seq<char>, Option<Seq<char>>)>) -> bool {
    &&& d is Allow <==> mode == PullGateMode::Off || v is None
    &&& d is AllowAudited <==> mode == PullGateMode::Audit && v is Some
    &&& d is Deny <==> mode == PullGateMode::Enforce && v is Some
    &&& d matches PullDecision::AllowAudited { reason } ==> reason@ == (v->0).0
    &&& d matches PullDecision::Deny { reason, report_url } ==> reason@ == (v->0).0 && opt_view(report_url) == (v->0).1
}

impl PullGate {
    /// The two have all but their reports in common.
    pub open spec fn same_policy(self, other: PullGate) -> bool {
        &&& other.mode == self.mode
        &&& other.max_critical_cves == self.max_critical_cves
        &&& other.report_base_url == self.report_base_url
        &&& other.registry_endpoint == self.registry_endpoint
    }

    /// What becomes of the reports when a digest is pushed and this was found in it.
    pub open spec fn takes_push(
        self,
        after: PullGate,
        repository: Seq<char>,
        digest: Seq<char>,
        found: CVEDetectionResult,
    ) -> bool {
        let report = after.reports@[digest];
        &&& after.reports@.contains_key(digest)
        &&& after.reports@ == self.reports@.insert(digest, report)
        &&& report.digest@ == digest
        &&& report.image@ == self.registry_endpoint@ + "/"@ + repository + "@"@ + digest
        &&& report.scanned_at == found.scan_timestamp
        &&& report.cve_count == found.cve_count
        &&& views(report.critical_cves@) == critical_ids(found.vulnerabilities@)
        &&& report.report_url@ == self.report_base_url@ + "/"@ + digest
    }

    /// A gate without reports.
    pub fn new(mode: PullGateMode, max_critical_cves: u32, registry_endpoint: &str, report_base_url: &str) -> (g: Self)
        ensures
            g.mode == mode,
            g.max_critical_cves == max_critical_cves,
            g.report_base_url@ == strip_end(report_base_url@, '/'),
            g.registry_endpoint@ == registry_endpoint@,
            g.reports@ == Map::<Seq<char>, ScanReport>::empty(),
    {
        PullGate {
            mode,
            max_critical_cves,
            report_base_url: trim_end_matches(report_base_url, '/'),
            registry_endpoint: registry_endpoint.to_owned(),
            reports: StrMap::new(),
        }
    }

    /// The pull gate of a registry resource.
    pub fn from_registry(registry: &StellarRegistry, report_base_url: &str) -> (g: Self)
        ensures
            g.mode == registry.pull_gate,
            g.max_critical_cves == registry.max_critical_cves,
            g.report_base_url@ == strip_end(report_base_url@, '/'),
            g.registry_endpoint@ == registry.endpoint@,
            g.reports@ == Map::<Seq<char>, ScanReport>::empty(),
    {
        PullGate::new(
            registry.pull_gate,
            registry.max_critical_cves,
            registry.endpoint.as_str(),
            report_base_url,
        )
    }

    /// The image that is scanned for a pushed manifest.
    pub fn image_ref(&self, repository: &str, digest: &str) -> (s: String)
        ensures
            s@ == self.registry_endpoint@ + "/"@ + repository@ + "@"@ + digest@,
    {
        let mut s = text2(self.registry_endpoint.as_str(), "/");
        s.append(repository);
        s.append("@");
        s.append(digest);
        s
    }

    /// Takes in the scan of a pushed manifest before the push is acknowledged. Where the scan
    /// failed, no report is stored, so that the digest stays as it was, and the error is
    /// returned to the pusher.
    pub fn handle_push(
        &mut self,
        repository: &str,
        digest: &str,
        scan: Result<CVEDetectionResult, String>,
    ) -> (r: Result<ScanReport, String>)
        ensures
            old(self).same_policy(*final(self)),
            r is Ok <==> scan is Ok,
            scan matches Err(e) ==> r == Err::<ScanReport, String>(e) && final(self).reports == old(self).reports,
            scan matches Ok(found) ==> {
                &&& old(self).takes_push(*final(self), repository@, digest@, found)
                &&& r matches Ok(report) && same_report(report, final(self).reports@[digest@])
            },
    {
        match scan {
            Err(e) => Err(e),
            Ok(found) => {
                let mut report_url = text2(self.report_base_url.as_str(), "/");
                report_url.append(digest);
                let report = ScanReport {
                    digest: digest.to_owned(),
                    image: self.image_ref(repository, digest),
                    scanned_at: found.scan_timestamp,
                    cve_count: found.cve_count,
                    critical_cves: criticals(&found.vulnerabilities),
                    report_url,
                };
                let copy = report.clone();
                self.reports.insert(digest.to_owned(), report);
                Ok(copy)
            },
        }
    }

    /// Scan report for a digest.
    pub fn report(&self, digest: &str) -> (r: Option<ScanReport>)
        ensures
            r is Some <==> self.reports@.contains_key(digest@),
            r matches Some(x) ==> same_report(x, self.reports@[digest@]),
    {
        match self.reports.get(digest) {
            Some(r) => Some(r.clone()),
            None => None,
        }
    }

    /// Decide whether a manifest pull by digest may proceed. Tag pulls must be resolved to a
    /// digest by the caller first.
    pub fn authorize_pull(&self, digest: &str) -> (d: PullDecision)
        ensures
            is_decision(d, self.mode, violation(self.reports@, self.max_critical_cves, digest@)),
    {
        if self.mode == PullGateMode::Off {
            return PullDecision::Allow;
        }
        let found: Option<(String, Option<String>)> = match self.reports.get(digest) {
            None => Some((text2(digest, " has not been scanned"), None)),
            Some(r) => if r.cve_count.critical > self.max_critical_cves {
                let mut reason = text2(digest, " has ");
                reason.append(decimal(r.cve_count.critical as u64).as_str());
                reason.append(" critical CVE(s) (max ");
                reason.append(decimal(self.max_critical_cves as u64).as_str());
                reason.append("): ");
                reason.append(join(&r.critical_cves, ", ").as_str());
                Some((reason, Some(r.report_url.clone())))
            } else {
                None
            },
        };
        match found {
            None => PullDecision::Allow,
            Some((reason, report_url)) => if self.mode == PullGateMode::Audit {
                PullDecision::AllowAudited { reason }
            } else {
                PullDecision::Deny { reason, report_url }
            },
        }
    }
}

/// `i` is the last place where `pat` occurs in `s`.
pub open spec fn is_last_occurrence(s: Seq<char>, pat: Seq<char>, i: int) -> bool {
    &&& occurs_at(s, pat, i)
    &&& forall|j: int| i < j ==> !#[trigger] occurs_at(s, pat, j)
}

/// The path is that of the manifest `reference` of the repository `name`: between the prefix
/// and the last `/manifests/` stands the name, behind it the reference, and neither is empty.
pub open spec fn is_manifest_path(path: Seq<char>, name: Seq<char>, reference: Seq<char>) -> bool {
    let rest = name + "/manifests/"@ + reference;
    &&& path == "/v2/"@ + rest
    &&& is_last_occurrence(rest, "/manifests/"@, name.len() as int)
    &&& name.len() > 0
    &&& reference.len() > 0
}

/// The last place from which `pat` occurs in `v`, at or after `from`.
fn last_occurrence(v: &Vec<char>, pat: &Vec<char>, from: usize) -> (r: Option<usize>)
    requires
        from <= v@.len(),
        pat@.len() > 0,
    ensures
        r matches Some(i) ==> is_last_occurrence(v@, pat@, i as int) && from <= i < v@.len(),
        r is None ==> forall|j: int| from <= j ==> !#[trigger] occurs_at(v@, pat@, j),
{
    let mut i: usize = v.len();
    while i > from
        invariant
            from <= i <= v@.len(),
            pat@.len() > 0,
            forall|j: int| i <= j ==> !#[trigger] occurs_at(v@, pat@, j),
        decreases i,
    {
        i = i - 1;
        if at_position(v, pat, i) {
            return Some(i);
        }
    }
    None
}

/// Repository and reference of a manifest path; `None` where it is none.
pub fn parse_manifest_path(path: &str) -> (r: Option<(String, String)>)
    ensures
        r is Some <==> exists|name: Seq<char>, reference: Seq<char>| #[trigger]
            is_manifest_path(path@, name, reference),
        r matches Some(x) ==> is_manifest_path(path@, x.0@, x.1@),
{
    let v = chars(path);
    let pat = chars("/manifests/");
    proof {
        reveal_strlit("/v2/");
        reveal_strlit("/manifests/");
    }
    let ghost prefix = "/v2/"@;
    let ghost mid = "/manifests/"@;
    if !starts_with(path, "/v2/") {
        proof {
            assert forall|name: Seq<char>, reference: Seq<char>| !#[trigger] is_manifest_path(
                path@,
                name,
                reference,
            ) by {
                let rest = name + mid + reference;
                if path@ == prefix + rest {
                    assert((prefix + rest).subrange(0, 4) =~= prefix);
                }
            }
        }
        return None;
    }
    let n: usize = v.len();
    let ghost rest = path@.skip(4);
    proof {
        assert(path@ =~= prefix + rest);
        shifted(path@, mid, 4);
    }
    match last_occurrence(&v, &pat, 4) {
        None => {
            proof {
                assert forall|name: Seq<char>, reference: Seq<char>| !#[trigger] is_manifest_path(
                    path@,
                    name,
                    reference,
                ) by {
                    let other = name + mid + reference;
                    if path@ == prefix + other && occurs_at(other, mid, name.len() as int) {
                        assert(other =~= rest);
                        assert(occurs_at(path@, mid, name.len() as int + 4));
                    }
                }
            }
            None
        },
        Some(i) => {
            let end: usize = i + 11;
            let name = text_of(&v, 4, i);
            let reference = text_of(&v, end, n);
            proof {
                assert(rest =~= name@ + mid + reference@) by {
                    assert(path@.subrange(i as int, i + 11) =~= mid);
                    assert forall|k: int| 0 <= k < rest.len() implies rest[k] == (name@ + mid + reference@)[k] by {
                        if name@.len() <= k < name@.len() + 11 {
                            assert(path@.subrange(i as int, i + 11)[k - name@.len()] == rest[k]);
                        }
                    }
                }
                assert(is_last_occurrence(rest, mid, name@.len() as int)) by {
                    assert(occurs_at(rest, mid, i - 4));
                    assert forall|j: int| i - 4 < j implies !#[trigger] occurs_at(rest, mid, j) by {
                        assert(!occurs_at(path@, mid, j + 4));
                    }
                }
                assert forall|other: Seq<char>, re: Seq<char>| #[trigger] is_manifest_path(path@, other, re) implies other
                    == name@ && re == reference@ by {
                    let whole = other + mid + re;
                    assert(prefix + whole == prefix + rest);
                    assert(whole =~= rest) by {
                        assert((prefix + whole).skip(4) =~= whole);
                        assert((prefix + rest).skip(4) =~= rest);
                    }
                    if other.len() < name@.len() {
                        assert(occurs_at(whole, mid, name@.len() as int));
                    } else if other.len() > name@.len() {
                        assert(occurs_at(rest, mid, other.len() as int));
                    }
                    assert(whole.subrange(0, other.len() as int) =~= other);
                    assert((name@ + mid + reference@).subrange(0, name@.len() as int) =~= name@);
                    assert(whole.skip(other.len() as int + 11) =~= re);
                    assert((name@ + mid + reference@).skip(name@.len() as int + 11) =~= reference@);
                }
            }
            if name.as_str().is_empty() || reference.as_str().is_empty() {
                None
            } else {
                proof {
                    assert(is_manifest_path(path@, name@, reference@));
                }
                Some((name, reference))
            }
        },
    }
}

/// What occurs behind a prefix of `k` characters occurs `k` places further in the whole.
proof fn shifted(s: Seq<char>, pat: Seq<char>, k: int)
    requires
        0 <= k <= s.len(),
    ensures
        forall|i: int| 0 <= i ==> (#[trigger] occurs_at(s.skip(k), pat, i) <==> occurs_at(s, pat, i + k)),
        forall|i: int| k <= i ==> (#[trigger] occurs_at(s, pat, i) <==> occurs_at(s.skip(k), pat, i - k)),
{
    assert forall|i: int| 0 <= i implies (#[trigger] occurs_at(s.skip(k), pat, i) <==> occurs_at(s, pat, i + k)) by {
        if i + pat.len() <= s.skip(k).len() {
            assert(s.skip(k).subrange(i, i + pat.len()) =~= s.subrange(i + k, i + k + pat.len()));
        }
    }
    assert forall|i: int| k <= i implies (#[trigger] occurs_at(s, pat, i) <==> occurs_at(s.skip(k), pat, i - k)) by {
        assert(occurs_at(s.skip(k), pat, i - k) <==> occurs_at(s, pat, i - k + k));
    }
}

/// The first part of the image names a host: it holds a dot or a colon, or is `localhost`.
pub open spec fn names_host(first: Seq<char>) -> bool {
    first.contains('.') || first.contains(':') || first == "localhost"@
}

/// The image in the local registry: one that is there already stays, one with a host keeps
/// it, and one without is from `docker.io`, where a bare name is from its library.
pub open spec fn local_image(image: Seq<char>, local: Seq<char>) -> Seq<char> {
    let first = up_to(image, '/');
    if begins(image, local + "/"@) {
        image
    } else if !image.contains('/') {
        local + "/docker.io/library/"@ + image
    } else if names_host(first) {
        local + "/"@ + first + "/"@ + image.skip(first.len() as int + 1)
    } else {
        local + "/"@ + "docker.io"@ + "/"@ + image
    }
}

fn holds(v: &Vec<char>, to: usize, c: char) -> (r: bool)
    requires
        to <= v@.len(),
    ensures
        r == v@.take(to as int).contains(c),
{
    let ghost t = v@.take(to as int);
    let mut i: usize = 0;
    while i < to
        invariant
            i <= to <= v@.len(),
            t == v@.take(to as int),
            forall|k: int| 0 <= k < i ==> #[trigger] t[k] != c,
        decreases to - i,
    {
        let x: char = v[i];
        if x == c {
            proof {
                assert(t[i as int] == c);
            }
            return true;
        }
        i = i + 1;
    }
    false
}

/// Rewrite an image reference to the local registry.
pub fn rewrite_to_local(image: &str, local_registry: &str) -> (s: String)
    ensures
        s@ == local_image(image@, local_registry@),
{
    let own = text2(local_registry, "/");
    if starts_with(image, own.as_str()) {
        return image.to_owned();
    }
    let v = chars(image);
    let n: usize = v.len();
    let cut: usize = crate::text::find_char(&v, '/');
    proof {
        position_bounds(image@, '/');
        assert(v@.take(n as int) =~= v@);
    }
    if !holds(&v, n, '/') {
        return text2(text2(local_registry, "/docker.io/library/").as_str(), image);
    }
    let first = text_of(&v, 0, cut);
    proof {
        assert(first@ =~= up_to(image@, '/'));
        assert(v@.take(cut as int) =~= first@);
    }
    let mut s = own;
    if holds(&v, cut, '.') || holds(&v, cut, ':') || same(first.as_str(), "localhost") {
        let path = text_of(&v, cut + 1, n);
        proof {
            assert(path@ =~= image@.skip(first@.len() as int + 1));
        }
        s.append(first.as_str());
        s.append("/");
        s.append(path.as_str());
    } else {
        s.append("docker.io");
        s.append("/");
        s.append(image);
    }
    s
}

/// Pull-through cache hit counters.
#[derive(Debug)]
pub struct CacheStats {
    pub hits: u64,
    pub misses: u64,
}

impl Default for CacheStats {
    fn default() -> (s: Self)
        ensures
            s.hits == 0,
            s.misses == 0,
    {
        CacheStats { hits: 0, misses: 0 }
    }
}

/// What a counter stands at after one more.
pub open spec fn next_count(n: u64) -> u64 {
    if n == u64::MAX {
        0
    } else {
        (n + 1) as u64
    }
}

impl CacheStats {
    /// Counts one pull. A counter that is full starts again at zero.
    pub fn record(&mut self, hit: bool)
        ensures
            final(self).hits == if hit {
                next_count(old(self).hits)
            } else {
                old(self).hits
            },
            final(self).misses == if hit {
                old(self).misses
            } else {
                next_count(old(self).misses)
            },
    {
        if hit {
            self.hits = self.hits.wrapping_add(1);
        } else {
            self.misses = self.misses.wrapping_add(1);
        }
    }

    /// How many pulls were served from cache, of how many; `None` before any pull, when the
    /// hit rate counts as full.
    pub fn hit_rate(&self) -> (r: Option<(u64, u64)>)
        requires
            self.hits + self.misses <= u64::MAX,
        ensures
            r is None <==> self.hits == 0 && self.misses == 0,
            r matches Some(x) ==> x.0 == self.hits && x.1 == self.hits + self.misses,
    {
        let total: u64 = self.hits + self.misses;
        if total == 0 {
            None
        } else {
            Some((self.hits, total))
        }
    }
}

/// In enforce mode a pull is denied exactly where the digest was not scanned or has more
/// critical vulnerabilities than are let through; in the other modes none is.
pub proof fn unscanned_pulls_are_denied(g: PullGate, digest: Seq<char>, d: PullDecision)
    requires
        is_decision(d, g.mode, violation(g.reports@, g.max_critical_cves, digest)),
    ensures
        d is Deny <==> g.mode == PullGateMode::Enforce && (!g.reports@.contains_key(digest)
            || g.reports@[digest].cve_count.critical > g.max_critical_cves),
{
}

/// A denial of a digest that was scanned carries the link to its report.
pub proof fn denials_link_their_report(g: PullGate, digest: Seq<char>, d: PullDecision)
    requires
        is_decision(d, g.mode, violation(g.reports@, g.max_critical_cves, digest)),
        d is Deny,
        g.reports@.contains_key(digest),
    ensures
        opt_view(d->Deny_report_url) == Some(g.reports@[digest].report_url@),
{
}

/// A push that was scanned decides about its digest, by what was found in it, and about no
/// other.
pub proof fn pushes_decide_their_digest(
    before: PullGate,
    after: PullGate,
    repository: Seq<char>,
    digest: Seq<char>,
    other: Seq<char>,
    found: CVEDetectionResult,
)
    requires
        before.takes_push(after, repository, digest, found),
    ensures
        violation(after.reports@, after.max_critical_cves, digest) is Some <==> found.cve_count.critical
            > after.max_critical_cves,
        other != digest ==> violation(after.reports@, after.max_critical_cves, other) == violation(
            before.reports@,
            after.max_critical_cves,
            other,
        ),
{
}

/// Every rewritten reference points at the local registry, and rewriting it again leaves it as
/// it is.
pub proof fn images_are_pulled_locally(image: Seq<char>, local: Seq<char>)
    ensures
        begins(local_image(image, local), local + "/"@),
        local_image(local_image(image, local), local) == local_image(image, local),
{
    reveal_strlit("/");
    reveal_strlit("/docker.io/library/");
    let out = local_image(image, local);
    let pat = local + "/"@;
    if !begins(image, pat) {
        assert(out.subrange(0, pat.len() as int) =~= pat);
    }
}

/// With the rule switched off every pull is allowed; with auditing it is allowed and the breach is
/// told; with enforcement an image that was not scanned, or has more critical findings than are
/// allowed, is denied, and every other image is allowed.
pub proof fn modes_differ_in_what_they_let_pass(g: PullGate, digest: Seq<char>, d: PullDecision)
    requires
        is_decision(d, g.mode, violation(g.reports@, g.max_critical_cves, digest)),
    ensures
        g.mode is Off ==> d is Allow,
        g.reports@.contains_key(digest) && g.reports@[digest].cve_count.critical <= g.max_critical_cves ==> d is Allow,
        !g.reports@.contains_key(digest) && g.mode is Audit ==> d is AllowAudited && d->AllowAudited_reason@ == digest
            + " has not been scanned"@,
        !g.reports@.contains_key(digest) && g.mode is Enforce ==> d is Deny && d->Deny_reason@ == digest
            + " has not been scanned"@ && d->Deny_report_url is None,
        g.reports@.contains_key(digest) && g.reports@[digest].cve_count.critical > g.max_critical_cves ==> {
            let r = g.reports@[digest];
            let reason = digest + " has "@ + dec(r.cve_count.critical as nat) + " critical CVE(s) (max "@ + dec(
                g.max_critical_cves as nat,
            ) + "): "@ + joined(views(r.critical_cves@), ", "@);
            &&& g.mode is Audit ==> d is AllowAudited && d->AllowAudited_reason@ == reason
            &&& g.mode is Enforce ==> d is Deny && d->Deny_reason@ == reason && opt_view(d->Deny_report_url) == Some(
                r.report_url@,
            )
        },
{
}

/// The critical findings of a report are the identifiers of the critical ones among all that were
/// found, in order.
pub proof fn critical_findings_are_named(v: Seq<Vulnerability>)
    ensures
        critical_ids(v) == v.filter(|x: Vulnerability| x.severity is Critical).map_values(|x: Vulnerability| x.cve_id@),
    decreases v.len(),
{
    reveal(Seq::filter);
    let f = |x: Vulnerability| x.severity is Critical;
    let g = |x: Vulnerability| x.cve_id@;
    if v.len() > 0 {
        critical_findings_are_named(v.drop_last());
        assert(critical_ids(v) =~= v.filter(f).map_values(g));
    } else {
        assert(critical_ids(v) =~= v.filter(f).map_values(g));
    }
}

/// A denial is told by the code of the registry protocol, with the reason, the digest and the place
/// of the report.
pub proof fn denials_are_told(reason: Seq<char>, digest: Seq<char>, url: Seq<char>)
    ensures
        denial(reason, digest, Some(url)) == Doc::Obj(
            seq![
                (
                    "errors"@,
                    Doc::Arr(
                        seq![
                            Doc::Obj(
                                seq![
                                    ("code"@, Doc::Str("DENIED"@)),
                                    ("message"@, Doc::Str(reason)),
                                    (
                                        "detail"@,
                                        Doc::Obj(seq![("digest"@, Doc::Str(digest)), ("reportUrl"@, Doc::Str(url))]),
                                    ),
                                ],
                            ),
                        ],
                    ),
                ),
            ],
        ),
{
    let detail = seq![("digest"@, Doc::Str(digest)), ("reportUrl"@, Doc::Str(url))];
    assert(Fields::empty().push(("digest"@, Doc::Str(digest))).push(("reportUrl"@, Doc::Str(url))) =~= detail);
    let error = seq![("code"@, Doc::Str("DENIED"@)), ("message"@, Doc::Str(reason)), ("detail"@, Doc::Obj(detail))];
    assert(Fields::empty().push(("code"@, Doc::Str("DENIED"@))).push(("message"@, Doc::Str(reason))).push(
        ("detail"@, Doc::Obj(detail)),
    ) =~= error);
    let items = seq![Doc::Obj(error)];
    assert(Seq::<Doc>::empty().push(Doc::Obj(error)) =~= items);
    assert(Fields::empty().push(("errors"@, Doc::Arr(items))) =~= seq![("errors"@, Doc::Arr(items))]);
}

/// A path of the registry protocol is taken apart into the name of the image and what is asked for
/// of it, which holds no slash.
pub proof fn manifest_paths_name_their_image(name: Seq<char>, reference: Seq<char>)
    requires
        name.len() > 0,
        reference.len() > 0,
        !reference.contains('/'),
    ensures
        is_manifest_path("/v2/"@ + name + "/manifests/"@ + reference, name, reference),
{
    reveal_strlit("/manifests/");
    let pat = "/manifests/"@;
    let rest = name + pat + reference;
    assert("/v2/"@ + name + pat + reference =~= "/v2/"@ + rest);
    assert(rest.subrange(name.len() as int, name.len() + pat.len() as int) =~= pat);
    assert forall|j: int| name.len() < j implies !#[trigger] occurs_at(rest, pat, j) by {
        if occurs_at(rest, pat, j) {
            let e = j + pat.len() - 1;
            assert(rest.subrange(j, j + pat.len())[pat.len() - 1] == pat[pat.len() - 1]);
            assert(pat[pat.len() - 1] == '/');
            assert(rest[e] == '/');
            assert(reference[e - name.len() - pat.len()] == '/');
        }
    }
}

/// An image is pulled through the local registry under the host that it names. One that names no
/// host is that of the public hub, and one without a slash is from its library.
pub proof fn images_keep_their_host(image: Seq<char>, local: Seq<char>, host: Seq<char>, rest: Seq<char>)
    ensures
        !image.contains('/') && !begins(image, local + "/"@) ==> local_image(image, local) == local
            + "/docker.io/library/"@ + image,
        image == host + "/"@ + rest && !host.contains('/') && !begins(image, local + "/"@) ==> {
            &&& host.contains('.') || host.contains(':') || host == "localhost"@ ==> local_image(image, local) == local
                + "/"@ + host + "/"@ + rest
            &&& !host.contains('.') && !host.contains(':') && host != "localhost"@ ==> local_image(image, local) == local
                + "/"@ + "docker.io"@ + "/"@ + image
        },
        begins(image, local + "/"@) ==> local_image(image, local) == image,
{
    reveal_strlit("/");
    if image == host + "/"@ + rest && !host.contains('/') {
        position_bounds(image, '/');
        let p = crate::text::position_of(image, '/') as int;
        assert(image[host.len() as int] == '/');
        assert(image.contains('/'));
        if p < host.len() {
            assert(image[p] == host[p]);
            assert(host.contains('/'));
        }
        if p > host.len() {
            assert(image[host.len() as int] != '/');
        }
        assert(up_to(image, '/') =~= host);
        assert(image.skip(host.len() as int + 1) =~= rest);
    }
}

/// A count goes up by one, and starts over only where it cannot.
pub proof fn counts_go_up(n: u64)
    ensures
        n < u64::MAX ==> next_count(n) - n == 1,
        next_count(u64::MAX) == 0,
{
}

/// A path to a manifest names an image and a reference, neither of them empty, and the reference holds
/// no further manifest part.
pub proof fn manifest_paths_are_complete(path: Seq<char>, name: Seq<char>, reference: Seq<char>)
    requires
        is_manifest_path(path, name, reference),
    ensures
        name.len() > 0 && reference.len() > 0,
        path == "/v2/"@ + (name + "/manifests/"@ + reference),
        !occurs(reference, "/manifests/"@),
{
    let pat = "/manifests/"@;
    let rest = name + pat + reference;
    if occurs(reference, pat) {
        let i = choose|i: int| #[trigger] occurs_at(reference, pat, i);
        let j = name.len() + pat.len() + i;
        reveal_strlit("/manifests/");
        assert(rest.subrange(j, j + pat.len()) =~= reference.subrange(i, i + pat.len()));
        assert(occurs_at(rest, pat, j));
    }
}

/// Two reports that are the same agree in all that they report.
pub proof fn same_reports_agree(a: ScanReport, b: ScanReport)
    requires
        same_report(a, b),
    ensures
        same_report(b, a) && same_report(a, a),
        a.digest@ == b.digest@ && a.image@ == b.image@ && a.report_url@ == b.report_url@,
        a.scanned_at == b.scanned_at && a.cve_count == b.cve_count,
        views(a.critical_cves@) == views(b.critical_cves@),
{
}

/// What comes in leaves the policy as it is: it decides as before wherever the reports are as before.
pub proof fn policies_stay(before: PullGate, after: PullGate, digest: Seq<char>, d: PullDecision)
    requires
        before.same_policy(after),
        after.reports@ == before.reports@,
    ensures
        after.mode == before.mode && after.max_critical_cves == before.max_critical_cves,
        after.report_base_url == before.report_base_url && after.registry_endpoint == before.registry_endpoint,
        is_decision(d, after.mode, violation(after.reports@, after.max_critical_cves, digest)) <==> is_decision(
            d,
            before.mode,
            violation(before.reports@, before.max_critical_cves, digest),
        ),
{
}

} // verus!
