//! Deriving the ownership registry from live workload metadata.
//!
//! Ownership is resolved per workload in precedence order: the owner label, the
//! deploy-pipeline annotation, then CODEOWNERS matched on the source path (the last
//! matching rule wins). Workloads without an owner are listed as unowned; owners that
//! are unknown teams or whose rotation is not live are listed as stale. Changes are
//! appended to a bounded history.

use vstd::multiset::Multiset;
use vstd::prelude::*;
#[allow(unused_imports)]
use vstd::string::*;
#[allow(unused_imports)]
use crate::crd::service_ownership::{
    ref_lt, ref_order, ChangeView, Condition, EntryView, OwnershipChange, OwnershipEntry, OwnershipSource, RefView,
    ServiceOwnershipRegistrySpec, ServiceOwnershipRegistryStatus, StaleOwnership, StaleView, TeamRotation, WorkloadRef,
};
#[allow(unused_imports)]
use crate::json::{add_item, items_of, list, no_fields, no_items, object, put, put_text, text_value, Doc, Fields, Json};
#[allow(unused_imports)]
use crate::ranking::{positions, rank, Ranking};
#[allow(unused_imports)]
use crate::seqs::{filter_none, filter_step};
use crate::strmap::StrMap;
#[allow(unused_imports)]
use crate::text::{
    before_char, chars, dec, decimal, find, opt_view, same, same_opt, split, split_on, split_words, strip_end,
    strip_start, trim_end_matches, trim_start_matches, up_to, views, words,
};

verus! {

/// Metadata of a running workload used for attribution.
#[derive(Debug)]
pub struct WorkloadMeta {
    pub workload: WorkloadRef,
    pub labels: StrMap<String>,
    pub annotations: StrMap<String>,
}

/// What follows a leading `**` in a pattern: a slash right after it is taken with it.
pub open spec fn after_stars(p: Seq<char>) -> Seq<char> {
    if p.len() > 2 && p[2] == '/' {
        p.skip(3)
    } else {
        p.skip(2)
    }
}

/// Text `t` matches pattern `p`: `**` stands for any text, `*` for any text without a
/// slash, every other character for itself.
pub open spec fn glob_matches(p: Seq<char>, t: Seq<char>) -> bool
    decreases p.len(),
{
    if p.len() == 0 {
        t.len() == 0
    } else if p.len() > 1 && p[0] == '*' && p[1] == '*' {
        exists|i: int| 0 <= i <= t.len() && glob_matches(after_stars(p), #[trigger] t.skip(i))
    } else if p[0] == '*' {
        exists|i: int|
            0 <= i <= t.len() && !t.take(i).contains('/') && glob_matches(p.skip(1), #[trigger] t.skip(i))
    } else {
        t.len() > 0 && t[0] == p[0] && glob_matches(p.skip(1), t.skip(1))
    }
}

/// Whether `t[ti..]` matches the pattern `p[pi..]`.
fn glob_at(p: &Vec<char>, pi: usize, t: &Vec<char>, ti: usize) -> (r: bool)
    requires
        pi <= p@.len(),
        ti <= t@.len(),
    ensures
        r == glob_matches(p@.skip(pi as int), t@.skip(ti as int)),
    decreases p@.len() - pi,
{
    let ghost rest = p@.skip(pi as int);
    let ghost text = t@.skip(ti as int);
    let plen: usize = p.len();
    if pi == plen {
        return ti == t.len();
    }
    if p[pi] == '*' {
        if p.len() - pi > 1 && p[pi + 1] == '*' {
            let next: usize = if p.len() - pi > 2 && p[pi + 2] == '/' {
                pi + 3
            } else {
                pi + 2
            };
            proof {
                assert(after_stars(rest) =~= p@.skip(next as int));
            }
            let mut i: usize = ti;
            loop
                invariant
                    ti <= i <= t@.len(),
                    pi < next <= p@.len(),
                    rest == p@.skip(pi as int),
                    text == t@.skip(ti as int),
                    rest.len() > 1 && rest[0] == '*' && rest[1] == '*',
                    after_stars(rest) == p@.skip(next as int),
                    forall|k: int| 0 <= k < i - ti ==> !glob_matches(after_stars(rest), #[trigger] text.skip(k)),
                decreases t@.len() - i,
            {
                proof {
                    assert(text.skip(i - ti) =~= t@.skip(i as int));
                }
                if glob_at(p, next, t, i) {
                    proof {
                        assert(glob_matches(after_stars(rest), text.skip(i - ti)));
                    }
                    return true;
                }
                if i == t.len() {
                    return false;
                }
                i = i + 1;
            }
        }
        proof {
            assert(rest.skip(1) =~= p@.skip(pi as int + 1));
        }
        let mut i: usize = ti;
        loop
            invariant
                ti <= i <= t@.len(),
                pi < plen == p@.len(),
                rest == p@.skip(pi as int),
                text == t@.skip(ti as int),
                rest.len() > 0 && rest[0] == '*' && !(rest.len() > 1 && rest[1] == '*'),
                rest.skip(1) == p@.skip(pi as int + 1),
                forall|k: int| ti <= k < i ==> #[trigger] t@[k] != '/',
                forall|k: int| 0 <= k < i - ti ==> !glob_matches(rest.skip(1), #[trigger] text.skip(k)),
            decreases t@.len() - i,
        {
            proof {
                assert(text.skip(i - ti) =~= t@.skip(i as int));
                let head = text.take(i - ti);
                assert forall|k: int| 0 <= k < head.len() implies head[k] != '/' by {
                    assert(head[k] == t@[ti + k]);
                }
            }
            if glob_at(p, pi + 1, t, i) {
                proof {
                    assert(glob_matches(rest.skip(1), text.skip(i - ti)));
                    assert(!text.take(i - ti).contains('/'));
                }
                return true;
            }
            if i == t.len() || t[i] == '/' {
                proof {
                    assert forall|k: int|
                        0 <= k <= text.len() && !text.take(k).contains('/') implies !glob_matches(
                        rest.skip(1),
                        #[trigger] text.skip(k),
                    ) by {
                        if k > i - ti {
                            assert(text.take(k)[i - ti] == t@[i as int]);
                            assert(text.take(k).contains('/'));
                        }
                    }
                }
                return false;
            }
            i = i + 1;
        }
    }
    proof {
        assert(rest.skip(1) =~= p@.skip(pi as int + 1));
    }
    if ti < t.len() && t[ti] == p[pi] {
        proof {
            assert(text.skip(1) =~= t@.skip(ti as int + 1));
        }
        glob_at(p, pi + 1, t, ti + 1)
    } else {
        false
    }
}

/// Whether `text` matches `pattern`.
pub fn glob(pattern: &str, text: &str) -> (r: bool)
    ensures
        r == glob_matches(pattern@, text@),
{
    let p = chars(pattern);
    let t = chars(text);
    proof {
        assert(p@.skip(0) =~= p@);
        assert(t@.skip(0) =~= t@);
    }
    glob_at(&p, 0, &t, 0)
}

/// The path matches the pattern, or lies below what matches it.
pub open spec fn covers(pat: Seq<char>, path: Seq<char>) -> bool {
    glob_matches(pat, path) || glob_matches(pat + "/**"@, path)
}

/// The pattern is tied to the repository root: it has a slash other than at its end.
pub open spec fn anchored(pattern: Seq<char>) -> bool {
    (pattern.len() > 0 && pattern[0] == '/') || strip_end(pattern, '/').contains('/')
}

/// The pattern that is matched: no leading slash, and a trailing one stands for all below.
pub open spec fn effective(pattern: Seq<char>) -> Seq<char> {
    let bare = strip_start(pattern, '/');
    if bare.len() > 0 && bare.last() == '/' {
        bare + "**"@
    } else {
        bare
    }
}

/// A path segment starts at `k`.
pub open spec fn segment_start(path: Seq<char>, k: int) -> bool {
    0 <= k <= path.len() && (k == 0 || path[k - 1] == '/')
}

/// The CODEOWNERS pattern matches the path: at the root where it is anchored, else at
/// any depth.
pub open spec fn codeowners_matches(pattern: Seq<char>, path: Seq<char>) -> bool {
    let p = strip_start(path, '/');
    if anchored(pattern) {
        covers(effective(pattern), p)
    } else {
        exists|k: int| #[trigger] segment_start(p, k) && covers(effective(pattern), p.skip(k))
    }
}

/// Whether `c` occurs in `v`.
fn has_char(v: &Vec<char>, c: char) -> (r: bool)
    ensures
        r == v@.contains(c),
{
    let mut i: usize = 0;
    while i < v.len()
        invariant
            i <= v@.len(),
            forall|k: int| 0 <= k < i ==> v@[k] != c,
        decreases v@.len() - i,
    {
        if v[i] == c {
            return true;
        }
        i = i + 1;
    }
    false
}

/// Does a CODEOWNERS `pattern` match repository `path`? Supports `*`, `**`, anchored
/// (`/x`) and directory (`x/`) patterns.
pub fn codeowners_match(pattern: &str, path: &str) -> (r: bool)
    ensures
        r == codeowners_matches(pattern@, path@),
{
    let trimmed_path = trim_start_matches(path, '/');
    let pattern_chars = chars(pattern);
    let is_anchored = (pattern_chars.len() > 0 && pattern_chars[0] == '/') || has_char(
        &chars(trim_end_matches(pattern, '/').as_str()),
        '/',
    );
    let mut pat = trim_start_matches(pattern, '/');
    let bare = chars(pat.as_str());
    if bare.len() > 0 && bare[bare.len() - 1] == '/' {
        pat.append("**");
    }
    let mut below = pat.clone();
    below.append("/**");
    if is_anchored {
        return glob(pat.as_str(), trimmed_path.as_str()) || glob(below.as_str(), trimmed_path.as_str());
    }
    let t = chars(trimmed_path.as_str());
    let p = chars(pat.as_str());
    let b = chars(below.as_str());
    proof {
        assert(p@.skip(0) =~= p@);
        assert(b@.skip(0) =~= b@);
    }
    let mut k: usize = 0;
    loop
        invariant
            k <= t@.len(),
            t@ == strip_start(path@, '/'),
            p@ == effective(pattern@),
            b@ == p@ + "/**"@,
            p@.skip(0) == p@,
            b@.skip(0) == b@,
            !anchored(pattern@),
            forall|j: int| 0 <= j < k && #[trigger] segment_start(t@, j) ==> !covers(p@, t@.skip(j)),
        decreases t@.len() - k,
    {
        if k == 0 || t[k - 1] == '/' {
            proof {
                assert(segment_start(t@, k as int));
            }
            if glob_at(&p, 0, &t, k) || glob_at(&b, 0, &t, k) {
                return true;
            }
        }
        if k == t.len() {
            return false;
        }
        k = k + 1;
    }
}

/// The rule of one CODEOWNERS line: pattern and owners, without the comment.
pub open spec fn rule_of(line: Seq<char>) -> Seq<Seq<char>> {
    words(up_to(line, '#'))
}

/// The owners of `path` by the last rule among `lines` that matches it.
pub open spec fn owners_by(lines: Seq<Seq<char>>, path: Seq<char>) -> Seq<Seq<char>>
    decreases lines.len(),
{
    if lines.len() == 0 {
        Seq::empty()
    } else {
        let rule = rule_of(lines.last());
        if rule.len() > 0 && codeowners_matches(rule[0], path) {
            rule.skip(1)
        } else {
            owners_by(lines.drop_last(), path)
        }
    }
}

/// The line is a rule whose pattern matches the path.
pub open spec fn is_rule_for(line: Seq<char>, path: Seq<char>) -> bool {
    rule_of(line).len() > 0 && codeowners_matches(rule_of(line)[0], path)
}

/// The last rule that matches wins: whatever stands before it, its owners are the owners.
pub proof fn last_rule_wins(lines: Seq<Seq<char>>, path: Seq<char>, i: int)
    requires
        0 <= i < lines.len(),
        is_rule_for(lines[i], path),
        forall|j: int| i < j < lines.len() ==> !is_rule_for(#[trigger] lines[j], path),
    ensures
        owners_by(lines, path) == rule_of(lines[i]).skip(1),
    decreases lines.len(),
{
    if i < lines.len() - 1 {
        assert(!is_rule_for(lines[lines.len() - 1], path));
        let rest = lines.drop_last();
        assert forall|j: int| i < j < rest.len() implies !is_rule_for(#[trigger] rest[j], path) by {
            assert(rest[j] == lines[j]);
        }
        last_rule_wins(rest, path, i);
    }
}

/// The owners of `path` by the CODEOWNERS contents.
pub open spec fn owners_of(codeowners: Seq<char>, path: Seq<char>) -> Seq<Seq<char>> {
    owners_by(split(codeowners, '\n'), path)
}

/// Owners of `path` per CODEOWNERS contents (last matching rule wins).
pub fn codeowners_for(codeowners: &str, path: &str) -> (owners: Vec<String>)
    ensures
        views(owners@) == owners_of(codeowners@, path@),
{
    let lines = split_on(codeowners, '\n');
    let mut owners: Vec<String> = Vec::new();
    let mut i: usize = 0;
    proof {
        assert(views(owners@) =~= Seq::<Seq<char>>::empty());
        assert(views(lines@).take(0) =~= Seq::<Seq<char>>::empty());
    }
    while i < lines.len()
        invariant
            i <= lines@.len(),
            views(lines@) == split(codeowners@, '\n'),
            views(owners@) == owners_by(views(lines@).take(i as int), path@),
        decreases lines@.len() - i,
    {
        let mut rule = split_words(before_char(lines[i].as_str(), '#').as_str());
        proof {
            assert(views(lines@).take(i as int + 1).drop_last() =~= views(lines@).take(i as int));
            assert(views(lines@).take(i as int + 1).last() == lines@[i as int]@);
        }
        if rule.len() > 0 {
            let ghost whole = rule@;
            if codeowners_match(rule[0].as_str(), path) {
                rule.remove(0);
                owners = rule;
                proof {
                    assert(views(owners@) =~= views(whole).skip(1));
                }
            }
        }
        i = i + 1;
    }
    proof {
        assert(views(lines@).take(lines@.len() as int) =~= views(lines@));
    }
    owners
}

/// The first team that has the handle `h`.
pub open spec fn team_by_handle(teams: Seq<TeamRotation>, h: Seq<char>) -> Option<Seq<char>>
    decreases teams.len(),
{
    if teams.len() == 0 {
        None
    } else if views(teams[0].handles@).contains(h) {
        Some(teams[0].team@)
    } else {
        team_by_handle(teams.drop_first(), h)
    }
}

/// The team of the first handle that a team has.
pub open spec fn first_known(teams: Seq<TeamRotation>, handles: Seq<Seq<char>>) -> Option<Seq<char>>
    decreases handles.len(),
{
    if handles.len() == 0 {
        None
    } else if team_by_handle(teams, handles[0]) is Some {
        team_by_handle(teams, handles[0])
    } else {
        first_known(teams, handles.drop_first())
    }
}

/// The value of `key`, where there is one and it is not empty.
pub open spec fn filled(m: Map<Seq<char>, String>, key: Seq<char>) -> Option<Seq<char>> {
    if m.contains_key(key) && m[key]@.len() > 0 {
        Some(m[key]@)
    } else {
        None
    }
}

/// The owner that CODEOWNERS gives: the first handle that is a team's, else the first
/// handle as it stands.
pub open spec fn codeowner(spec_: ServiceOwnershipRegistrySpec, w: WorkloadMeta) -> Option<Seq<char>> {
    if w.annotations@.contains_key(spec_.source_path_annotation@) && spec_.codeowners is Some {
        let owners = owners_of(spec_.codeowners->0@, w.annotations@[spec_.source_path_annotation@]@);
        if first_known(spec_.teams@, owners) is Some {
            first_known(spec_.teams@, owners)
        } else if owners.len() > 0 {
            Some(owners[0])
        } else {
            None
        }
    } else {
        None
    }
}

/// The owner of a workload and where it came from.
pub open spec fn owner(spec_: ServiceOwnershipRegistrySpec, w: WorkloadMeta) -> Option<(Seq<char>, OwnershipSource)> {
    if filled(w.labels@, spec_.owner_label@) is Some {
        Some((filled(w.labels@, spec_.owner_label@)->0, OwnershipSource::Label))
    } else if filled(w.annotations@, spec_.deploy_annotation@) is Some {
        Some((filled(w.annotations@, spec_.deploy_annotation@)->0, OwnershipSource::DeployMetadata))
    } else if codeowner(spec_, w) is Some {
        Some((codeowner(spec_, w)->0, OwnershipSource::Codeowners))
    } else {
        None
    }
}

/// The first team that has the handle `h`.
fn find_by_handle<'a>(teams: &'a Vec<TeamRotation>, h: &str) -> (r: Option<&'a TeamRotation>)
    ensures
        match team_by_handle(teams@, h@) {
            Some(t) => r matches Some(x) && x.team@ == t,
            None => r is None,
        },
{
    let mut i: usize = 0;
    proof {
        assert(teams@.skip(0) =~= teams@);
    }
    while i < teams.len()
        invariant
            i <= teams@.len(),
            team_by_handle(teams@, h@) == team_by_handle(teams@.skip(i as int), h@),
        decreases teams@.len() - i,
    {
        proof {
            assert(teams@.skip(i as int)[0] == teams@[i as int]);
            assert(teams@.skip(i as int).drop_first() =~= teams@.skip(i as int + 1));
        }
        if find(&teams[i].handles, h).is_some() {
            return Some(&teams[i]);
        }
        i = i + 1;
    }
    None
}

/// The owner of a workload and where it came from.
pub fn resolve(spec_: &ServiceOwnershipRegistrySpec, w: &WorkloadMeta) -> (r: Option<(String, OwnershipSource)>)
    ensures
        match owner(*spec_, *w) {
            Some((team, source)) => r matches Some((t, s)) && t@ == team && s == source,
            None => r is None,
        },
{
    if let Some(t) = w.labels.get(spec_.owner_label.as_str()) {
        if !t.as_str().is_empty() {
            return Some((t.clone(), OwnershipSource::Label));
        }
    }
    if let Some(t) = w.annotations.get(spec_.deploy_annotation.as_str()) {
        if !t.as_str().is_empty() {
            return Some((t.clone(), OwnershipSource::DeployMetadata));
        }
    }
    let path = match w.annotations.get(spec_.source_path_annotation.as_str()) {
        Some(path) => path,
        None => {
            return None;
        },
    };
    let text = match &spec_.codeowners {
        Some(text) => text,
        None => {
            return None;
        },
    };
    let owners = codeowners_for(text.as_str(), path.as_str());
    let ghost all = views(owners@);
    let mut i: usize = 0;
    proof {
        assert(all.skip(0) =~= all);
    }
    while i < owners.len()
        invariant
            i <= owners@.len(),
            all == views(owners@),
            first_known(spec_.teams@, all) == first_known(spec_.teams@, all.skip(i as int)),
            filled(w.labels@, spec_.owner_label@) is None,
            filled(w.annotations@, spec_.deploy_annotation@) is None,
            w.annotations@.contains_key(spec_.source_path_annotation@),
            spec_.codeowners == Some(*text),
            *path == w.annotations@[spec_.source_path_annotation@],
            all == owners_of(text@, path@),
        decreases owners@.len() - i,
    {
        proof {
            assert(all.skip(i as int)[0] == owners@[i as int]@);
            assert(all.skip(i as int).drop_first() =~= all.skip(i as int + 1));
        }
        if let Some(t) = find_by_handle(&spec_.teams, owners[i].as_str()) {
            return Some((t.team.clone(), OwnershipSource::Codeowners));
        }
        i = i + 1;
    }
    if owners.len() > 0 {
        Some((owners[0].clone(), OwnershipSource::Codeowners))
    } else {
        None
    }
}

/// The label decides where it names an owner, then the deploy annotation; CODEOWNERS is
/// asked only where neither does.
pub proof fn precedence(spec_: ServiceOwnershipRegistrySpec, w: WorkloadMeta)
    ensures
        filled(w.labels@, spec_.owner_label@) matches Some(t) ==> owner(spec_, w) == Some(
            (t, OwnershipSource::Label),
        ),
        filled(w.labels@, spec_.owner_label@) is None ==> (filled(w.annotations@, spec_.deploy_annotation@) matches Some(
            t,
        ) ==> owner(spec_, w) == Some((t, OwnershipSource::DeployMetadata))),
        owner(spec_, w) matches Some((t, OwnershipSource::Codeowners)) ==> filled(w.labels@, spec_.owner_label@) is None
            && filled(w.annotations@, spec_.deploy_annotation@) is None,
{
}

/// The last team called `name`.
pub open spec fn team_called(teams: Seq<TeamRotation>, name: Seq<char>) -> Option<TeamRotation>
    decreases teams.len(),
{
    if teams.len() == 0 {
        None
    } else if teams.last().team@ == name {
        Some(teams.last())
    } else {
        team_called(teams.drop_last(), name)
    }
}

/// The team of the last entry for `w`.
pub open spec fn entry_team(entries: Seq<EntryView>, w: RefView) -> Option<Seq<char>>
    decreases entries.len(),
{
    if entries.len() == 0 {
        None
    } else if entries.last().workload == w {
        Some(entries.last().team)
    } else {
        entry_team(entries.drop_last(), w)
    }
}

/// The team of the last stale record for `w`.
pub open spec fn stale_team(stale: Seq<StaleView>, w: RefView) -> Option<Seq<char>>
    decreases stale.len(),
{
    if stale.len() == 0 {
        None
    } else if stale.last().workload == w {
        Some(stale.last().team)
    } else {
        stale_team(stale.drop_last(), w)
    }
}

/// The team on record for `w`; a stale record counts before an entry.
pub open spec fn recorded_team(entries: Seq<EntryView>, stale: Seq<StaleView>, w: RefView) -> Option<Seq<char>> {
    if stale_team(stale, w) is Some {
        stale_team(stale, w)
    } else {
        entry_team(entries, w)
    }
}

/// What entries say.
pub open spec fn entry_views(v: Seq<OwnershipEntry>) -> Seq<EntryView> {
    v.map_values(|e: OwnershipEntry| e@)
}

/// What stale records say.
pub open spec fn stale_views(v: Seq<StaleOwnership>) -> Seq<StaleView> {
    v.map_values(|e: StaleOwnership| e@)
}

/// What changes say.
pub open spec fn change_views(v: Seq<OwnershipChange>) -> Seq<ChangeView> {
    v.map_values(|e: OwnershipChange| e@)
}

/// Which workloads references identify.
pub open spec fn ref_views(v: Seq<WorkloadRef>) -> Seq<RefView> {
    v.map_values(|e: WorkloadRef| e@)
}

/// The registry's lists while workloads are settled one by one.
pub struct Ledger {
    pub entries: Seq<EntryView>,
    pub unowned: Seq<RefView>,
    pub stale: Seq<StaleView>,
    pub history: Seq<ChangeView>,
}

/// The reason why the attribution to a team that is not on call is stale.
pub open spec fn off_call_reason(rotation: Seq<char>) -> Seq<char> {
    "rotation '"@ + rotation + "' has no one on call"@
}

/// The history after `w` has been settled: one more record where its team changed.
pub open spec fn with_change(
    spec_: ServiceOwnershipRegistrySpec,
    old_team: Option<Seq<char>>,
    now: i64,
    w: WorkloadMeta,
    history: Seq<ChangeView>,
) -> Seq<ChangeView> {
    let team = match owner(spec_, w) {
        Some((t, _)) => Some(t),
        None => None,
    };
    if team != old_team {
        history.push(
            ChangeView {
                workload: w.workload@,
                previous_team: old_team,
                team,
                source: match owner(spec_, w) {
                    Some((_, s)) => Some(s),
                    None => None,
                },
                changed_at: now,
            },
        )
    } else {
        history
    }
}

/// The lists after `w` has been settled.
pub open spec fn settle(
    spec_: ServiceOwnershipRegistrySpec,
    old_team: Option<Seq<char>>,
    now: i64,
    w: WorkloadMeta,
    l: Ledger,
) -> Ledger {
    let history = with_change(spec_, old_team, now, w, l.history);
    match owner(spec_, w) {
        None => Ledger { unowned: l.unowned.push(w.workload@), history, ..l },
        Some((team, source)) => match team_called(spec_.teams@, team) {
            None => Ledger {
                stale: l.stale.push(
                    StaleView { workload: w.workload@, team, reason: "owner is not a registered team"@ },
                ),
                history,
                ..l
            },
            Some(t) => if t.live {
                Ledger {
                    entries: l.entries.push(
                        EntryView {
                            workload: w.workload@,
                            team,
                            rotation: t.rotation@,
                            receiver: t.receiver@,
                            source,
                        },
                    ),
                    history,
                    ..l
                }
            } else {
                Ledger {
                    stale: l.stale.push(
                        StaleView { workload: w.workload@, team, reason: off_call_reason(t.rotation@) },
                    ),
                    history,
                    ..l
                }
            },
        },
    }
}

/// The team that the previous status has on record for `w`.
pub open spec fn previous_team(previous: ServiceOwnershipRegistryStatus, w: RefView) -> Option<Seq<char>> {
    recorded_team(entry_views(previous.entries@), stale_views(previous.stale@), w)
}

/// The lists after the workloads `ws` have been settled in order.
pub open spec fn ledger(
    spec_: ServiceOwnershipRegistrySpec,
    previous: ServiceOwnershipRegistryStatus,
    now: i64,
    ws: Seq<WorkloadMeta>,
) -> Ledger
    decreases ws.len(),
{
    if ws.len() == 0 {
        Ledger {
            entries: Seq::empty(),
            unowned: Seq::empty(),
            stale: Seq::empty(),
            history: change_views(previous.history@),
        }
    } else {
        settle(
            spec_,
            previous_team(previous, ws.last().workload@),
            now,
            ws.last(),
            ledger(spec_, previous, now, ws.drop_last()),
        )
    }
}

/// Workload `i` takes part: its namespace is not excluded.
pub open spec fn included(spec_: ServiceOwnershipRegistrySpec, w: WorkloadMeta) -> bool {
    !views(spec_.excluded_namespaces@).contains(w.workload.namespace@)
}

/// Workload `a` is settled before workload `b`: by reference, then as listed.
pub open spec fn settled_before(ws: Seq<WorkloadMeta>, a: int, b: int) -> bool {
    ||| ref_lt(ws[a].workload@, ws[b].workload@)
    ||| ws[a].workload@ == ws[b].workload@ && a < b
}

/// `at` lists the positions of the workloads that take part, in the order in which they
/// are settled.
pub open spec fn is_settling_order(
    spec_: ServiceOwnershipRegistrySpec,
    ws: Seq<WorkloadMeta>,
    at: Seq<int>,
) -> bool {
    &&& forall|k: int| 0 <= k < at.len() ==> 0 <= #[trigger] at[k] < ws.len() && included(spec_, ws[at[k]])
    &&& forall|i: int| 0 <= i < ws.len() && included(spec_, #[trigger] ws[i]) ==> at.contains(i)
    &&& forall|k: int, l: int| 0 <= k < l < at.len() ==> settled_before(ws, #[trigger] at[k], #[trigger] at[l])
}

/// The workloads at the positions `at`.
pub open spec fn chosen(ws: Seq<WorkloadMeta>, at: Seq<int>) -> Seq<WorkloadMeta> {
    at.map_values(|i: int| ws[i])
}

/// The last `limit` records.
pub open spec fn latest(history: Seq<ChangeView>, limit: int) -> Seq<ChangeView> {
    if history.len() > limit {
        history.skip(history.len() - limit)
    } else {
        history
    }
}

/// The text of the status condition.
pub open spec fn condition_text(owned: nat, unowned: nat, stale: nat) -> Seq<char> {
    dec(owned) + " owned, "@ + dec(unowned) + " unowned, "@ + dec(stale) + " stale"@
}

/// `status` is what the lists `l` amount to.
pub open spec fn is_status(
    spec_: ServiceOwnershipRegistrySpec,
    now: i64,
    l: Ledger,
    status: ServiceOwnershipRegistryStatus,
) -> bool {
    let complete = (l.unowned.len() + l.stale.len()) as u32 == 0;
    &&& entry_views(status.entries@) == l.entries
    &&& ref_views(status.unowned@) == l.unowned
    &&& stale_views(status.stale@) == l.stale
    &&& change_views(status.history@) == latest(l.history, spec_.history_limit as int)
    &&& status.owned_count == l.entries.len() as u32
    &&& status.unowned_count == (l.unowned.len() + l.stale.len()) as u32
    &&& status.last_reconciled == Some(now)
    &&& status.conditions@.len() == 1
    &&& status.conditions@[0].type_@ == "Ready"@
    &&& status.conditions@[0].status@ == if complete {
        "True"@
    } else {
        "False"@
    }
    &&& status.conditions@[0].reason@ == if complete {
        "AllOwned"@
    } else {
        "OwnershipGaps"@
    }
    &&& status.conditions@[0].message@ == condition_text(l.entries.len(), l.unowned.len(), l.stale.len())
}

/// Workloads as a ranking.
struct Settling<'a> {
    spec_: &'a ServiceOwnershipRegistrySpec,
    ws: &'a [WorkloadMeta],
}

impl<'a> Ranking for Settling<'a> {
    closed spec fn size(&self) -> int {
        self.ws@.len() as int
    }

    closed spec fn picked(&self, i: int) -> bool {
        included(*self.spec_, self.ws@[i])
    }

    closed spec fn precedes(&self, a: int, b: int) -> bool {
        settled_before(self.ws@, a, b)
    }

    proof fn strict(&self, a: int, b: int, c: int) {
        ref_order(self.ws@[a].workload@, self.ws@[b].workload@, self.ws@[c].workload@);
    }

    fn count(&self) -> (n: usize) {
        self.ws.len()
    }

    fn takes_part(&self, i: usize) -> (r: bool) {
        find(&self.spec_.excluded_namespaces, self.ws[i].workload.namespace.as_str()).is_none()
    }

    fn first(&self, a: usize, b: usize) -> (r: bool) {
        let x = &self.ws[a].workload;
        let y = &self.ws[b].workload;
        if x.is(y) {
            proof {
                ref_order(x@, y@, y@);
            }
            a < b
        } else {
            x.before(y)
        }
    }
}

/// The last team called `name`.
fn find_team<'a>(teams: &'a Vec<TeamRotation>, name: &str) -> (r: Option<&'a TeamRotation>)
    ensures
        match team_called(teams@, name@) {
            Some(t) => r matches Some(x) && *x == t,
            None => r is None,
        },
{
    let mut i: usize = teams.len();
    proof {
        assert(teams@.take(teams@.len() as int) =~= teams@);
    }
    while i > 0
        invariant
            i <= teams@.len(),
            team_called(teams@, name@) == team_called(teams@.take(i as int), name@),
        decreases i,
    {
        proof {
            assert(teams@.take(i as int).last() == teams@[i - 1]);
            assert(teams@.take(i as int).drop_last() =~= teams@.take(i - 1));
        }
        if same(teams[i - 1].team.as_str(), name) {
            return Some(&teams[i - 1]);
        }
        i = i - 1;
    }
    None
}

/// The team that the previous status has on record for `w`.
fn find_previous(previous: &ServiceOwnershipRegistryStatus, w: &WorkloadRef) -> (r: Option<String>)
    ensures
        opt_view(r) == previous_team(*previous, w@),
{
    let ghost stale = stale_views(previous.stale@);
    let ghost entries = entry_views(previous.entries@);
    let mut i: usize = previous.stale.len();
    proof {
        assert(stale.take(stale.len() as int) =~= stale);
    }
    while i > 0
        invariant
            i <= previous.stale@.len(),
            stale == stale_views(previous.stale@),
            stale_team(stale, w@) == stale_team(stale.take(i as int), w@),
        decreases i,
    {
        proof {
            assert(stale.take(i as int).last() == previous.stale@[i - 1]@);
            assert(stale.take(i as int).drop_last() =~= stale.take(i - 1));
        }
        if previous.stale[i - 1].workload.is(w) {
            return Some(previous.stale[i - 1].team.clone());
        }
        i = i - 1;
    }
    let mut j: usize = previous.entries.len();
    proof {
        assert(entries.take(entries.len() as int) =~= entries);
    }
    while j > 0
        invariant
            j <= previous.entries@.len(),
            entries == entry_views(previous.entries@),
            stale == stale_views(previous.stale@),
            stale_team(stale, w@) is None,
            entry_team(entries, w@) == entry_team(entries.take(j as int), w@),
        decreases j,
    {
        proof {
            assert(entries.take(j as int).last() == previous.entries@[j - 1]@);
            assert(entries.take(j as int).drop_last() =~= entries.take(j - 1));
        }
        if previous.entries[j - 1].workload.is(w) {
            return Some(previous.entries[j - 1].team.clone());
        }
        j = j - 1;
    }
    None
}

/// Copies a history.
fn copy_history(h: &Vec<OwnershipChange>) -> (out: Vec<OwnershipChange>)
    ensures
        out@ == h@,
{
    let mut out: Vec<OwnershipChange> = Vec::new();
    let mut i: usize = 0;
    while i < h.len()
        invariant
            i <= h@.len(),
            out@ == h@.take(i as int),
        decreases h@.len() - i,
    {
        out.push(h[i].clone());
        proof {
            assert(h@.take(i as int + 1) =~= h@.take(i as int).push(h@[i as int]));
        }
        i = i + 1;
    }
    proof {
        assert(h@.take(h@.len() as int) =~= h@);
    }
    out
}

/// The lists as they are held.
pub open spec fn ledger_of(status: ServiceOwnershipRegistryStatus) -> Ledger {
    Ledger {
        entries: entry_views(status.entries@),
        unowned: ref_views(status.unowned@),
        stale: stale_views(status.stale@),
        history: change_views(status.history@),
    }
}

/// Settles one workload.
fn settle_one(
    spec_: &ServiceOwnershipRegistrySpec,
    previous: &ServiceOwnershipRegistryStatus,
    now: i64,
    w: &WorkloadMeta,
    status: &mut ServiceOwnershipRegistryStatus,
)
    ensures
        ledger_of(*final(status)) == settle(
            *spec_,
            previous_team(*previous, w.workload@),
            now,
            *w,
            ledger_of(*old(status)),
        ),
        final(status).unowned@.len() + final(status).stale@.len() <= old(status).unowned@.len()
            + old(status).stale@.len() + 1,
        final(status).last_reconciled == old(status).last_reconciled,
{
    let resolved = resolve(spec_, w);
    let old_team = find_previous(previous, &w.workload);
    let team: Option<String> = match &resolved {
        Some((t, _)) => Some(t.clone()),
        None => None,
    };
    let source: Option<OwnershipSource> = match &resolved {
        Some((_, s)) => Some(*s),
        None => None,
    };
    let ghost before = ledger_of(*status);
    let ghost want = with_change(*spec_, previous_team(*previous, w.workload@), now, *w, before.history);
    if !same_opt(&team, &old_team) {
        status.history.push(
            OwnershipChange { workload: w.workload.clone(), previous_team: old_team, team, source, changed_at: now },
        );
    }
    proof {
        assert(change_views(status.history@) =~= want);
    }
    match resolved {
        None => {
            status.unowned.push(w.workload.clone());
            proof {
                assert(ref_views(status.unowned@) =~= before.unowned.push(w.workload@));
            }
        },
        Some((team, source)) => {
            match find_team(&spec_.teams, team.as_str()) {
                None => {
                    status.stale.push(
                        StaleOwnership {
                            workload: w.workload.clone(),
                            team,
                            reason: "owner is not a registered team".to_owned(),
                        },
                    );
                    proof {
                        assert(stale_views(status.stale@) =~= before.stale.push(status.stale@.last()@));
                    }
                },
                Some(t) => {
                    if !t.live {
                        let mut reason = "rotation '".to_owned();
                        reason.append(t.rotation.as_str());
                        reason.append("' has no one on call");
                        status.stale.push(StaleOwnership { workload: w.workload.clone(), team, reason });
                        proof {
                            assert(stale_views(status.stale@) =~= before.stale.push(status.stale@.last()@));
                        }
                    } else {
                        status.entries.push(
                            OwnershipEntry {
                                workload: w.workload.clone(),
                                team,
                                rotation: t.rotation.clone(),
                                receiver: t.receiver.clone(),
                                source,
                            },
                        );
                        proof {
                            assert(entry_views(status.entries@) =~= before.entries.push(status.entries@.last()@));
                        }
                    }
                },
            }
        },
    }
}

/// Derive the registry status from live workloads.
pub fn derive_status(
    spec_: &ServiceOwnershipRegistrySpec,
    workloads: &[WorkloadMeta],
    previous: &ServiceOwnershipRegistryStatus,
    now: i64,
) -> (status: ServiceOwnershipRegistryStatus)
    ensures
        exists|at: Seq<int>| #[trigger]
            is_settling_order(*spec_, workloads@, at) && is_status(
                *spec_,
                now,
                ledger(*spec_, *previous, now, chosen(workloads@, at)),
                status,
            ),
{
    let r = Settling { spec_, ws: workloads };
    let at = rank(&r);
    let ghost p = positions(at@);
    let ghost ws = chosen(workloads@, p);
    proof {
        assert forall|i: int| 0 <= i < workloads@.len() && included(*spec_, #[trigger] workloads@[i]) implies p.contains(
            i,
        ) by {
            assert(r.picked(i));
        }
        assert forall|k: int| 0 <= k < p.len() implies 0 <= #[trigger] p[k] < workloads@.len() && included(
            *spec_,
            workloads@[p[k]],
        ) by {
            assert(r.picked(p[k]));
        }
        assert forall|k: int, l: int| 0 <= k < l < p.len() implies settled_before(
            workloads@,
            #[trigger] p[k],
            #[trigger] p[l],
        ) by {
            assert(r.precedes(p[k], p[l]));
        }
        assert(is_settling_order(*spec_, workloads@, p));
    }
    let mut status = ServiceOwnershipRegistryStatus::default();
    status.history = copy_history(&previous.history);
    status.last_reconciled = Some(now);
    let n: usize = at.len();
    let mut k: usize = 0;
    proof {
        let l = ledger_of(status);
        assert(l.entries =~= Seq::empty());
        assert(l.unowned =~= Seq::empty());
        assert(l.stale =~= Seq::empty());
        assert(ws.take(0) =~= Seq::<WorkloadMeta>::empty());
    }
    while k < n
        invariant
            k <= n == at@.len(),
            p == positions(at@),
            ws == chosen(workloads@, p),
            is_settling_order(*spec_, workloads@, p),
            ledger_of(status) == ledger(*spec_, *previous, now, ws.take(k as int)),
            status.last_reconciled == Some(now),
            status.unowned@.len() + status.stale@.len() <= k,
        decreases n - k,
    {
        proof {
            assert(0 <= p[k as int] < workloads@.len());
            assert(ws.take(k as int + 1).last() == workloads@[at@[k as int] as int]);
            assert(ws.take(k as int + 1).drop_last() =~= ws.take(k as int));
        }
        settle_one(spec_, previous, now, &workloads[at[k]], &mut status);
        k = k + 1;
    }
    proof {
        assert(ws.take(ws.len() as int) =~= ws);
    }
    let ghost l = ledger_of(status);
    let limit: usize = spec_.history_limit;
    if status.history.len() > limit {
        let cut: usize = status.history.len() - limit;
        let ghost all = status.history@;
        let kept = status.history.split_off(cut);
        status.history = kept;
        proof {
            assert(change_views(status.history@) =~= change_views(all).skip(cut as int));
        }
    }
    let gaps: usize = status.unowned.len() + status.stale.len();
    status.owned_count = status.entries.len() as u32;
    status.unowned_count = gaps as u32;
    let complete = status.unowned_count == 0;
    let mut message = decimal(status.entries.len() as u64);
    message.append(" owned, ");
    message.append(decimal(status.unowned.len() as u64).as_str());
    message.append(" unowned, ");
    message.append(decimal(status.stale.len() as u64).as_str());
    message.append(" stale");
    let mut conditions: Vec<Condition> = Vec::new();
    conditions.push(
        Condition::ready(
            complete,
            if complete {
                "AllOwned"
            } else {
                "OwnershipGaps"
            },
            message.as_str(),
        ),
    );
    status.conditions = conditions;
    proof {
        assert(l.entries.len() == status.entries@.len());
        assert(is_status(*spec_, now, ledger(*spec_, *previous, now, ws), status));
    }
    status
}

/// The workloads that the lists name, each as often as it is named.
pub open spec fn listed(l: Ledger) -> Multiset<RefView> {
    l.entries.map_values(|e: EntryView| e.workload).to_multiset().add(
        l.stale.map_values(|e: StaleView| e.workload).to_multiset(),
    ).add(l.unowned.to_multiset())
}

/// The workloads that take part.
pub open spec fn workloads_of(ws: Seq<WorkloadMeta>) -> Seq<RefView> {
    ws.map_values(|w: WorkloadMeta| w.workload@)
}

/// Every workload that takes part stands exactly once among the entries, the stale and the
/// unowned ones, and nothing else stands there.
pub proof fn every_workload_is_listed(
    spec_: ServiceOwnershipRegistrySpec,
    previous: ServiceOwnershipRegistryStatus,
    now: i64,
    ws: Seq<WorkloadMeta>,
)
    ensures
        listed(ledger(spec_, previous, now, ws)) == workloads_of(ws).to_multiset(),
        all_different(ws) ==> forall|i: int|
            0 <= i < ws.len() ==> #[trigger] listed(ledger(spec_, previous, now, ws)).count(ws[i].workload@) == 1,
        ledger(spec_, previous, now, ws).entries.len() + ledger(spec_, previous, now, ws).stale.len() + ledger(
            spec_,
            previous,
            now,
            ws,
        ).unowned.len() == ws.len(),
    decreases ws.len(),
{
    broadcast use vstd::multiset::group_multiset_axioms;

    let l1 = ledger(spec_, previous, now, ws);
    let of_entry = |e: EntryView| e.workload;
    let of_stale = |e: StaleView| e.workload;
    if ws.len() > 0 {
        let front = ws.drop_last();
        every_workload_is_listed(spec_, previous, now, front);
        let l0 = ledger(spec_, previous, now, front);
        let w = ws.last().workload@;
        assert(workloads_of(ws) =~= workloads_of(front).push(w));
        vstd::seq_lib::to_multiset_build(workloads_of(front), w);
        vstd::seq_lib::to_multiset_build(l0.unowned, w);
        vstd::seq_lib::to_multiset_build(l0.entries.map_values(of_entry), w);
        vstd::seq_lib::to_multiset_build(l0.stale.map_values(of_stale), w);
        assert(l1.entries == l0.entries || l1.entries.map_values(of_entry) =~= l0.entries.map_values(of_entry).push(w));
        assert(l1.stale == l0.stale || l1.stale.map_values(of_stale) =~= l0.stale.map_values(of_stale).push(w));
        assert(listed(l1) =~= listed(l0).insert(w));
    } else {
        assert(workloads_of(ws) =~= Seq::<RefView>::empty());
        assert(l1.entries.map_values(of_entry) =~= Seq::<RefView>::empty());
        assert(l1.stale.map_values(of_stale) =~= Seq::<RefView>::empty());
        assert(Seq::<RefView>::empty().to_multiset() =~= Multiset::empty()) by {
            Seq::<RefView>::empty().to_multiset_ensures();
        }
        assert(listed(l1) =~= Multiset::empty());
    }
    if all_different(ws) {
        let all = workloads_of(ws);
        assert forall|i: int, j: int| 0 <= i < j < all.len() implies all[i] != all[j] by {
            assert(ws[i].workload@ != ws[j].workload@);
        }
        all.lemma_multiset_has_no_duplicates();
        all.to_multiset_ensures();
        assert forall|i: int| 0 <= i < ws.len() implies #[trigger] listed(l1).count(ws[i].workload@) == 1 by {
            assert(all[i] == ws[i].workload@);
            assert(all.contains(all[i]));
        }
    }
}

/// No two of the workloads are the same.
pub open spec fn all_different(ws: Seq<WorkloadMeta>) -> bool {
    forall|i: int, j: int| 0 <= i < j < ws.len() ==> #[trigger] ws[i].workload@ != #[trigger] ws[j].workload@
}

/// The team of a workload, where it has an owner.
pub open spec fn owner_team(spec_: ServiceOwnershipRegistrySpec, w: WorkloadMeta) -> Option<Seq<char>> {
    match owner(spec_, w) {
        Some((t, _)) => Some(t),
        None => None,
    }
}

/// What the lists record of a workload that has been settled is its owner.
pub proof fn recorded_is_owner(
    spec_: ServiceOwnershipRegistrySpec,
    previous: ServiceOwnershipRegistryStatus,
    now: i64,
    ws: Seq<WorkloadMeta>,
    w: RefView,
)
    requires
        all_different(ws),
    ensures
        forall|i: int|
            0 <= i < ws.len() && #[trigger] ws[i].workload@ == w ==> recorded_team(
                ledger(spec_, previous, now, ws).entries,
                ledger(spec_, previous, now, ws).stale,
                w,
            ) == owner_team(spec_, ws[i]),
        (forall|i: int| 0 <= i < ws.len() ==> #[trigger] ws[i].workload@ != w) ==> {
            &&& stale_team(ledger(spec_, previous, now, ws).stale, w) is None
            &&& entry_team(ledger(spec_, previous, now, ws).entries, w) is None
        },
    decreases ws.len(),
{
    if ws.len() > 0 {
        let front = ws.drop_last();
        assert forall|i: int, j: int| 0 <= i < j < front.len() implies #[trigger] front[i].workload@
            != #[trigger] front[j].workload@ by {
            assert(front[i] == ws[i] && front[j] == ws[j]);
        }
        recorded_is_owner(spec_, previous, now, front, w);
        let l0 = ledger(spec_, previous, now, front);
        let l1 = ledger(spec_, previous, now, ws);
        let last = ws.last();
        assert(l1.stale == l0.stale || l1.stale.drop_last() =~= l0.stale);
        assert(l1.entries == l0.entries || l1.entries.drop_last() =~= l0.entries);
        if last.workload@ == w {
            assert forall|i: int| 0 <= i < front.len() implies #[trigger] front[i].workload@ != w by {
                assert(front[i] == ws[i]);
                assert(ws[i].workload@ != ws[ws.len() - 1].workload@);
            }
            assert forall|i: int| 0 <= i < ws.len() && #[trigger] ws[i].workload@ == w implies i == ws.len() - 1 by {
                if i < ws.len() - 1 {
                    assert(front[i] == ws[i]);
                }
            }
        } else {
            assert(stale_team(l1.stale, w) == stale_team(l0.stale, w));
            assert(entry_team(l1.entries, w) == entry_team(l0.entries, w));
            assert forall|i: int| 0 <= i < ws.len() && #[trigger] ws[i].workload@ == w implies recorded_team(
                l1.entries,
                l1.stale,
                w,
            ) == owner_team(spec_, ws[i]) by {
                assert(i < ws.len() - 1);
                assert(front[i] == ws[i]);
                assert(front[i].workload@ == w);
                assert(recorded_team(l0.entries, l0.stale, w) == owner_team(spec_, front[i]));
                assert(recorded_team(l1.entries, l1.stale, w) == recorded_team(l0.entries, l0.stale, w));
            }
            if forall|i: int| 0 <= i < ws.len() ==> #[trigger] ws[i].workload@ != w {
                assert forall|i: int| 0 <= i < front.len() implies #[trigger] front[i].workload@ != w by {
                    assert(front[i] == ws[i]);
                }
            }
        }
    }
}

/// Deriving again from workloads whose owners have not changed records no change.
pub proof fn no_change_no_record(
    spec_: ServiceOwnershipRegistrySpec,
    earlier: ServiceOwnershipRegistryStatus,
    then: i64,
    previous: ServiceOwnershipRegistryStatus,
    now: i64,
    ws: Seq<WorkloadMeta>,
)
    requires
        all_different(ws),
        is_status(spec_, then, ledger(spec_, earlier, then, ws), previous),
    ensures
        ledger(spec_, previous, now, ws).history == change_views(previous.history@),
{
    assert forall|i: int| 0 <= i < ws.len() implies previous_team(previous, #[trigger] ws[i].workload@) == owner_team(
        spec_,
        ws[i],
    ) by {
        recorded_is_owner(spec_, earlier, then, ws, ws[i].workload@);
    }
    unchanged_history(spec_, previous, now, ws);
}

/// Where every workload's team is the one on record, the history stays as it was.
proof fn unchanged_history(
    spec_: ServiceOwnershipRegistrySpec,
    previous: ServiceOwnershipRegistryStatus,
    now: i64,
    ws: Seq<WorkloadMeta>,
)
    requires
        forall|i: int|
            0 <= i < ws.len() ==> previous_team(previous, #[trigger] ws[i].workload@) == owner_team(spec_, ws[i]),
    ensures
        ledger(spec_, previous, now, ws).history == change_views(previous.history@),
    decreases ws.len(),
{
    if ws.len() > 0 {
        assert forall|i: int| 0 <= i < ws.drop_last().len() implies previous_team(
            previous,
            #[trigger] ws.drop_last()[i].workload@,
        ) == owner_team(spec_, ws.drop_last()[i]) by {
            assert(ws.drop_last()[i] == ws[i]);
        }
        unchanged_history(spec_, previous, now, ws.drop_last());
        assert(previous_team(previous, ws[ws.len() - 1].workload@) == owner_team(spec_, ws[ws.len() - 1]));
    }
}

/// The history stays within its limit.
pub proof fn history_stays_bounded(
    spec_: ServiceOwnershipRegistrySpec,
    now: i64,
    l: Ledger,
    status: ServiceOwnershipRegistryStatus,
)
    requires
        is_status(spec_, now, l, status),
    ensures
        status.history@.len() <= spec_.history_limit,
{
    assert(change_views(status.history@).len() == status.history@.len());
}

/// Ownership history of one workload, oldest first.
pub fn history_for<'a>(status: &'a ServiceOwnershipRegistryStatus, workload: &WorkloadRef) -> (out: Vec<
    &'a OwnershipChange,
>)
    ensures
        out@.map_values(|c: &OwnershipChange| *c) == status.history@.filter(
            |c: OwnershipChange| c.workload@ == workload@,
        ),
{
    let ghost wanted = |c: OwnershipChange| c.workload@ == workload@;
    let ghost plain = |c: &OwnershipChange| *c;
    let mut out: Vec<&'a OwnershipChange> = Vec::new();
    let mut i: usize = 0;
    proof {
        filter_none(status.history@, wanted);
        assert(out@.map_values(plain) =~= Seq::<OwnershipChange>::empty());
    }
    while i < status.history.len()
        invariant
            i <= status.history@.len(),
            wanted == (|c: OwnershipChange| c.workload@ == workload@),
            plain == (|c: &OwnershipChange| *c),
            out@.map_values(plain) == status.history@.take(i as int).filter(wanted),
        decreases status.history@.len() - i,
    {
        proof {
            filter_step(status.history@, i as int, wanted);
        }
        let ghost was = out@;
        if status.history[i].workload.is(workload) {
            out.push(&status.history[i]);
            proof {
                assert(out@.map_values(plain) =~= was.map_values(plain).push(status.history@[i as int]));
            }
        }
        i = i + 1;
    }
    proof {
        assert(status.history@.take(status.history@.len() as int) =~= status.history@);
    }
    out
}

/// The position of the first entry for this workload.
pub open spec fn entry_for(entries: Seq<OwnershipEntry>, w: RefView) -> Option<int>
    decreases entries.len(),
{
    if entries.len() == 0 {
        None
    } else if entry_for(entries.drop_last(), w) is Some {
        entry_for(entries.drop_last(), w)
    } else if entries.last().workload@ == w {
        Some(entries.len() - 1)
    } else {
        None
    }
}

/// The entry of the workload of `kind` that an alert names under `label`.
pub open spec fn alerted_entry(
    entries: Seq<OwnershipEntry>,
    labels: Map<Seq<char>, String>,
    label: Seq<char>,
    kind: Seq<char>,
) -> Option<int> {
    if labels.contains_key("namespace"@) && labels.contains_key(label) {
        entry_for(entries, RefView { kind, namespace: labels["namespace"@]@, name: labels[label]@ })
    } else {
        None
    }
}

/// The entry of the workload that an alert is about.
pub open spec fn attributed(entries: Seq<OwnershipEntry>, labels: Map<Seq<char>, String>) -> Option<int> {
    if alerted_entry(entries, labels, "deployment"@, "Deployment"@) is Some {
        alerted_entry(entries, labels, "deployment"@, "Deployment"@)
    } else if alerted_entry(entries, labels, "statefulset"@, "StatefulSet"@) is Some {
        alerted_entry(entries, labels, "statefulset"@, "StatefulSet"@)
    } else {
        alerted_entry(entries, labels, "daemonset"@, "DaemonSet"@)
    }
}

/// The first entry of the workload of `kind` that an alert names under `label`.
fn find_alerted<'a>(
    entries: &'a Vec<OwnershipEntry>,
    labels: &StrMap<String>,
    label: &str,
    kind: &str,
) -> (r: Option<&'a OwnershipEntry>)
    ensures
        match alerted_entry(entries@, labels@, label@, kind@) {
            Some(i) => 0 <= i < entries@.len() && (r matches Some(e) && *e == entries@[i]),
            None => r is None,
        },
{
    let ns = match labels.get("namespace") {
        Some(ns) => ns,
        None => {
            return None;
        },
    };
    let name = match labels.get(label) {
        Some(name) => name,
        None => {
            return None;
        },
    };
    let ghost w = RefView { kind: kind@, namespace: ns@, name: name@ };
    let mut i: usize = 0;
    proof {
        assert(entries@.take(0) =~= Seq::<OwnershipEntry>::empty());
    }
    while i < entries.len()
        invariant
            i <= entries@.len(),
            w == (RefView { kind: kind@, namespace: ns@, name: name@ }),
            entry_for(entries@.take(i as int), w) is None,
            alerted_entry(entries@, labels@, label@, kind@) == entry_for(entries@, w),
        decreases entries@.len() - i,
    {
        proof {
            assert(entries@.take(i as int + 1).drop_last() =~= entries@.take(i as int));
            assert(entries@.take(i as int + 1).last() == entries@[i as int]);
        }
        let e = &entries[i].workload;
        if same(e.namespace.as_str(), ns.as_str()) && same(e.name.as_str(), name.as_str()) && same(
            e.kind.as_str(),
            kind,
        ) {
            proof {
                entry_for_prefix(entries@, w, i as int + 1);
            }
            return Some(&entries[i]);
        }
        i = i + 1;
    }
    proof {
        assert(entries@.take(entries@.len() as int) =~= entries@);
    }
    None
}

/// An entry found in the first `k` entries is found in all of them.
proof fn entry_for_prefix(entries: Seq<OwnershipEntry>, w: RefView, k: int)
    requires
        0 <= k <= entries.len(),
        entry_for(entries.take(k), w) is Some,
    ensures
        entry_for(entries, w) == entry_for(entries.take(k), w),
    decreases entries.len(),
{
    if k < entries.len() {
        assert(entries.drop_last().take(k) =~= entries.take(k));
        entry_for_prefix(entries.drop_last(), w, k);
    } else {
        assert(entries.take(k) =~= entries);
    }
}

/// Resolve an alert's owner from the registry using its `namespace` and `deployment` /
/// `statefulset` / `daemonset` labels.
pub fn attribute_alert<'a>(status: &'a ServiceOwnershipRegistryStatus, labels: &StrMap<String>) -> (r: Option<
    &'a OwnershipEntry,
>)
    ensures
        match attributed(status.entries@, labels@) {
            Some(i) => 0 <= i < status.entries@.len() && (r matches Some(e) && *e == status.entries@[i]),
            None => r is None,
        },
{
    if let Some(e) = find_alerted(&status.entries, labels, "deployment", "Deployment") {
        return Some(e);
    }
    if let Some(e) = find_alerted(&status.entries, labels, "statefulset", "StatefulSet") {
        return Some(e);
    }
    find_alerted(&status.entries, labels, "daemonset", "DaemonSet")
}

/// The route of one team: alerts with its `team` label go to its receiver.
pub open spec fn team_route(t: TeamRotation) -> Doc {
    Doc::Obj(
        Fields::empty().push(("receiver"@, Doc::Str(t.receiver@))).push(
            ("matchers"@, Doc::Arr(Seq::<Doc>::empty().push(Doc::Str("team=\""@ + t.team@ + "\""@)))),
        ).push(("continue"@, Doc::Bool(false))),
    )
}

/// Alertmanager child routes, one per team, matching the `team` label the registry
/// attaches to alerts. Unattributed alerts fall through to the parent route's default
/// receiver.
pub fn alertmanager_routes(spec_: &ServiceOwnershipRegistrySpec) -> (j: Json)
    ensures
        j@ == Doc::Arr(spec_.teams@.map_values(|t: TeamRotation| team_route(t))),
{
    let ghost routes = spec_.teams@.map_values(|t: TeamRotation| team_route(t));
    let mut items = no_items();
    let mut i: usize = 0;
    proof {
        assert(routes.take(0) =~= Seq::<Doc>::empty());
    }
    while i < spec_.teams.len()
        invariant
            i <= spec_.teams@.len(),
            routes == spec_.teams@.map_values(|t: TeamRotation| team_route(t)),
            items_of(items@) == routes.take(i as int),
        decreases spec_.teams@.len() - i,
    {
        let t = &spec_.teams[i];
        let mut matcher = "team=\"".to_owned();
        matcher.append(t.team.as_str());
        matcher.append("\"");
        let mut matchers = no_items();
        add_item(&mut matchers, text_value(matcher.as_str()));
        let mut fields = no_fields();
        put_text(&mut fields, "receiver", t.receiver.as_str());
        put(&mut fields, "matchers", list(matchers));
        put(&mut fields, "continue", Json::Bool(false));
        add_item(&mut items, object(fields));
        proof {
            assert(routes.take(i as int + 1) =~= routes.take(i as int).push(team_route(*t)));
        }
        i = i + 1;
    }
    proof {
        assert(routes.take(routes.len() as int) =~= routes);
    }
    list(items)
}

/// An alert about a workload.
pub open spec fn workload_alert(name: Seq<char>, w: RefView, summary: Seq<char>) -> Doc {
    Doc::Obj(
        Fields::empty().push(
            (
                "labels"@,
                Doc::Obj(
                    Fields::empty().push(("alertname"@, Doc::Str(name))).push(("severity"@, Doc::Str("warning"@))).push(
                        ("namespace"@, Doc::Str(w.namespace)),
                    ).push(("kind"@, Doc::Str(w.kind))).push(("workload"@, Doc::Str(w.name))),
                ),
            ),
        ).push(("annotations"@, Doc::Obj(Fields::empty().push(("summary"@, Doc::Str(summary)))))),
    )
}

/// The alert about a workload without an owner.
pub open spec fn unowned_alert(w: WorkloadRef) -> Doc {
    workload_alert(
        "WorkloadUnowned"@,
        w@,
        w.namespace@ + "/"@ + w.name@ + " "@ + w.kind@ + " has no resolvable owner"@,
    )
}

/// The alert about a workload with a stale owner.
pub open spec fn stale_alert(s: StaleOwnership) -> Doc {
    workload_alert("WorkloadOwnershipStale"@, s.workload@, "owner '"@ + s.team@ + "': "@ + s.reason@)
}

/// An alert about a workload.
fn make_alert(name: &str, w: &WorkloadRef, summary: &str) -> (j: Json)
    ensures
        j@ == workload_alert(name@, w@, summary@),
{
    let mut labels = no_fields();
    put_text(&mut labels, "alertname", name);
    put_text(&mut labels, "severity", "warning");
    put_text(&mut labels, "namespace", w.namespace.as_str());
    put_text(&mut labels, "kind", w.kind.as_str());
    put_text(&mut labels, "workload", w.name.as_str());
    let mut annotations = no_fields();
    put_text(&mut annotations, "summary", summary);
    let mut fields = no_fields();
    put(&mut fields, "labels", object(labels));
    put(&mut fields, "annotations", object(annotations));
    object(fields)
}

/// Alertmanager v2 alerts for unowned and stale workloads.
pub fn ownership_alerts(status: &ServiceOwnershipRegistryStatus) -> (out: Vec<Json>)
    ensures
        items_of(out@) == status.unowned@.map_values(|w: WorkloadRef| unowned_alert(w))
            + status.stale@.map_values(|s: StaleOwnership| stale_alert(s)),
        out@.len() == status.unowned@.len() + status.stale@.len(),
{
    let ghost first = status.unowned@.map_values(|w: WorkloadRef| unowned_alert(w));
    let ghost second = status.stale@.map_values(|s: StaleOwnership| stale_alert(s));
    let mut out = no_items();
    let mut i: usize = 0;
    proof {
        assert(first.take(0) =~= Seq::<Doc>::empty());
    }
    while i < status.unowned.len()
        invariant
            i <= status.unowned@.len(),
            first == status.unowned@.map_values(|w: WorkloadRef| unowned_alert(w)),
            items_of(out@) == first.take(i as int),
            out@.len() == i,
        decreases status.unowned@.len() - i,
    {
        let w = &status.unowned[i];
        let mut summary = w.namespace.clone();
        summary.append("/");
        summary.append(w.name.as_str());
        summary.append(" ");
        summary.append(w.kind.as_str());
        summary.append(" has no resolvable owner");
        add_item(&mut out, make_alert("WorkloadUnowned", w, summary.as_str()));
        proof {
            assert(first.take(i as int + 1) =~= first.take(i as int).push(unowned_alert(*w)));
        }
        i = i + 1;
    }
    let mut j: usize = 0;
    proof {
        assert(first.take(first.len() as int) =~= first);
        assert(first + second.take(0) =~= first);
    }
    while j < status.stale.len()
        invariant
            j <= status.stale@.len(),
            second == status.stale@.map_values(|s: StaleOwnership| stale_alert(s)),
            items_of(out@) == first + second.take(j as int),
            out@.len() == status.unowned@.len() + j,
        decreases status.stale@.len() - j,
    {
        let s = &status.stale[j];
        let mut summary = "owner '".to_owned();
        summary.append(s.team.as_str());
        summary.append("': ");
        summary.append(s.reason.as_str());
        add_item(&mut out, make_alert("WorkloadOwnershipStale", &s.workload, summary.as_str()));
        proof {
            assert(first + second.take(j as int + 1) =~= (first + second.take(j as int)).push(stale_alert(*s)));
        }
        j = j + 1;
    }
    proof {
        assert(second.take(second.len() as int) =~= second);
    }
    out
}

/// Where alerts are posted below the Alertmanager's base address.
pub fn alerts_url(base: &str) -> (url: String)
    ensures
        url@ == strip_end(base@, '/') + "/api/v2/alerts"@,
{
    let mut url = trim_end_matches(base, '/');
    url.append("/api/v2/alerts");
    url
}

impl Default for WorkloadMeta {
    fn default() -> (w: Self)
        ensures
            w.workload@ == (RefView { kind: Seq::empty(), namespace: Seq::empty(), name: Seq::empty() }),
            w.labels@ == Map::<Seq<char>, String>::empty(),
            w.annotations@ == Map::<Seq<char>, String>::empty(),
    {
        WorkloadMeta {
            workload: WorkloadRef { kind: String::new(), namespace: String::new(), name: String::new() },
            labels: StrMap::new(),
            annotations: StrMap::new(),
        }
    }
}

/// How many slashes a text holds.
pub open spec fn slashes(s: Seq<char>) -> nat {
    s.filter(|c: char| c == '/').len()
}

/// The slashes of two texts add up.
proof fn slashes_add_up(a: Seq<char>, b: Seq<char>)
    ensures
        slashes(a + b) == slashes(a) + slashes(b),
{
    let f = |c: char| c == '/';
    Seq::filter_distributes_over_add(a, b, f);
}

proof fn no_slashes(a: Seq<char>)
    ensures
        slashes(a) == 0 <==> !a.contains('/'),
    decreases a.len(),
{
    reveal(Seq::filter);
    if a.len() > 0 {
        no_slashes(a.drop_last());
        assert(a =~= a.drop_last().push(a.last()));
        if a.contains('/') {
            let i = a.index_of('/');
            assert(i < a.len() - 1 ==> a.drop_last()[i] == '/');
        }
        if a.drop_last().contains('/') {
            let i = a.drop_last().index_of('/');
            assert(a[i] == '/');
        }
        if a.last() == '/' {
            assert(a[a.len() - 1] == '/');
        }
    }
}

/// A single star stands for any text within one path segment, and for nothing else.
pub proof fn a_star_stays_in_its_segment(t: Seq<char>)
    ensures
        glob_matches(seq!['*'], t) <==> !t.contains('/'),
{
    let p = seq!['*'];
    assert(p.skip(1) =~= Seq::<char>::empty());
    if !t.contains('/') {
        assert(t.take(t.len() as int) =~= t);
        assert(t.skip(t.len() as int).len() == 0);
        assert(glob_matches(p.skip(1), t.skip(t.len() as int)));
    }
    if glob_matches(p, t) {
        let i = choose|i: int|
            0 <= i <= t.len() && !t.take(i).contains('/') && glob_matches(p.skip(1), #[trigger] t.skip(i));
        assert(t.skip(i).len() == 0);
        assert(t.take(i) =~= t);
    }
}

/// Two stars stand for any text, slashes or not.
pub proof fn two_stars_stand_for_anything(t: Seq<char>)
    ensures
        glob_matches(seq!['*', '*'], t),
{
    let p = seq!['*', '*'];
    assert(after_stars(p) =~= Seq::<char>::empty());
    assert(t.skip(t.len() as int).len() == 0);
    assert(glob_matches(after_stars(p), t.skip(t.len() as int)));
}

/// A pattern without two stars in a row matches only texts with as many slashes as it has: no
/// single star reaches beyond its path segment.
pub proof fn single_stars_keep_the_depth(p: Seq<char>, t: Seq<char>)
    requires
        forall|i: int| 0 <= i < p.len() - 1 ==> !(#[trigger] p[i] == '*' && p[i + 1] == '*'),
        glob_matches(p, t),
    ensures
        slashes(t) == slashes(p),
    decreases p.len(),
{
    if p.len() == 0 {
        assert(p =~= t);
    } else {
        let rest = p.skip(1);
        assert forall|i: int| 0 <= i < rest.len() - 1 implies !(#[trigger] rest[i] == '*' && rest[i + 1] == '*') by {
            assert(rest[i] == p[i + 1] && rest[i + 1] == p[i + 2]);
        }
        assert(p =~= p.take(1) + rest);
        slashes_add_up(p.take(1), rest);
        if p[0] == '*' {
            let i = choose|i: int|
                0 <= i <= t.len() && !t.take(i).contains('/') && glob_matches(p.skip(1), #[trigger] t.skip(i));
            single_stars_keep_the_depth(rest, t.skip(i));
            assert(t =~= t.take(i) + t.skip(i));
            slashes_add_up(t.take(i), t.skip(i));
            no_slashes(t.take(i));
            no_slashes(p.take(1));
            assert(!p.take(1).contains('/'));
        } else {
            single_stars_keep_the_depth(rest, t.skip(1));
            assert(t =~= t.take(1) + t.skip(1));
            slashes_add_up(t.take(1), t.skip(1));
            assert(t.take(1) =~= p.take(1));
        }
    }
}

/// A pattern without stars matches itself and nothing else.
pub proof fn plain_patterns_match_themselves(p: Seq<char>, t: Seq<char>)
    requires
        !p.contains('*'),
    ensures
        glob_matches(p, t) <==> t == p,
    decreases p.len(),
{
    if p.len() > 0 {
        assert(p[0] != '*');
        let rest = p.skip(1);
        assert forall|i: int| 0 <= i < rest.len() implies rest[i] != '*' by {
            assert(rest[i] == p[i + 1]);
        }
        if t.len() > 0 {
            plain_patterns_match_themselves(rest, t.skip(1));
            assert(p =~= seq![p[0]] + rest);
            assert(t =~= seq![t[0]] + t.skip(1));
        }
    } else if t.len() == 0 {
        assert(t =~= p);
    }
}

/// A pattern that begins with a text without stars matches what begins with that text, where
/// the rest of the pattern matches the rest.
pub proof fn plain_text_matches_itself_first(a: Seq<char>, q: Seq<char>, t: Seq<char>)
    requires
        !a.contains('*'),
    ensures
        glob_matches(a + q, t) <==> a.len() <= t.len() && t.take(a.len() as int) == a && glob_matches(
            q,
            t.skip(a.len() as int),
        ),
    decreases a.len(),
{
    if a.len() == 0 {
        assert(a + q =~= q);
        assert(t.skip(0) =~= t);
        assert(t.take(0) =~= a);
    } else {
        let rest = a.skip(1);
        assert(a.contains(a[0]));
        assert forall|i: int| 0 <= i < rest.len() implies rest[i] != '*' by {
            assert(rest[i] == a[i + 1]);
        }
        assert((a + q).skip(1) =~= rest + q);
        assert((a + q)[0] == a[0]);
        if t.len() > 0 {
            plain_text_matches_itself_first(rest, q, t.skip(1));
            if a.len() <= t.len() {
                assert(t.skip(1).skip(rest.len() as int) =~= t.skip(a.len() as int));
                assert(t.skip(1).take(rest.len() as int) =~= t.take(a.len() as int).skip(1));
                if t.take(a.len() as int) == a {
                    assert(t[0] == t.take(a.len() as int)[0]);
                    assert(t.skip(1).take(rest.len() as int) =~= rest);
                }
                if t[0] == a[0] && t.skip(1).take(rest.len() as int) == rest {
                    assert(t.take(a.len() as int) =~= a) by {
                        assert forall|i: int| 0 <= i < a.len() implies t[i] == a[i] by {
                            if i > 0 {
                                assert(t.skip(1).take(rest.len() as int)[i - 1] == rest[i - 1]);
                            }
                        }
                    }
                }
            }
        }
    }
}

/// `t` is the place called `p`, or lies below it.
pub open spec fn is_or_lies_below(t: Seq<char>, p: Seq<char>) -> bool {
    t == p || (t.len() > p.len() && t.take(p.len() as int) == p && t[p.len() as int] == '/')
}

proof fn plain_patterns_cover(p: Seq<char>, t: Seq<char>)
    requires
        !p.contains('*'),
    ensures
        covers(p, t) <==> is_or_lies_below(t, p),
{
    reveal_strlit("/**");
    plain_patterns_match_themselves(p, t);
    let stars = "/**"@;
    let a = p.push('/');
    assert(p + stars =~= a + seq!['*', '*']);
    assert forall|i: int| 0 <= i < a.len() implies a[i] != '*' by {
        if i < p.len() {
            assert(p.contains(p[i]));
        }
    }
    plain_text_matches_itself_first(a, seq!['*', '*'], t);
    two_stars_stand_for_anything(t.skip(a.len() as int));
    if t.len() >= a.len() {
        if t.take(a.len() as int) == a {
            assert(t.take(p.len() as int) =~= p) by {
                assert(t.take(a.len() as int).take(p.len() as int) =~= t.take(p.len() as int));
                assert(a.take(p.len() as int) =~= p);
            }
            assert(t[p.len() as int] == t.take(a.len() as int)[p.len() as int]);
        }
        if t.take(p.len() as int) == p && t[p.len() as int] == '/' {
            assert(t.take(a.len() as int) =~= a) by {
                assert forall|i: int| 0 <= i < a.len() implies t[i] == a[i] by {
                    if i < p.len() {
                        assert(t.take(p.len() as int)[i] == p[i]);
                    }
                }
            }
        }
    }
}

/// A plain pattern that starts with a slash names one place of the repository and all below it,
/// and nothing that is called so elsewhere.
pub proof fn anchored_patterns_match_at_the_root(p: Seq<char>, path: Seq<char>)
    requires
        p.len() > 0,
        p[0] != '/',
        p.last() != '/',
        !p.contains('*'),
    ensures
        codeowners_matches(seq!['/'] + p, path) <==> is_or_lies_below(strip_start(path, '/'), p),
{
    let pattern = seq!['/'] + p;
    assert(pattern.drop_first() =~= p);
    assert(strip_start(pattern, '/') =~= p) by {
        assert(pattern[0] == '/');
        assert(strip_start(p, '/') == p);
    }
    assert(anchored(pattern));
    plain_patterns_cover(p, strip_start(path, '/'));
}

/// A plain pattern without a slash matches whatever is called so, and all below it, at any depth.
pub proof fn bare_names_match_at_any_depth(p: Seq<char>, path: Seq<char>)
    requires
        p.len() > 0,
        !p.contains('/'),
        !p.contains('*'),
    ensures
        codeowners_matches(p, path) <==> exists|k: int|
            0 <= k <= strip_start(path, '/').len() && (k == 0 || strip_start(path, '/')[k - 1] == '/')
                && is_or_lies_below(#[trigger] strip_start(path, '/').skip(k), p),
{
    let t = strip_start(path, '/');
    assert(p.contains(p[0]) && p.contains(p.last()));
    assert(strip_start(p, '/') == p);
    assert(strip_end(p, '/') == p);
    assert(!anchored(p));
    assert(effective(p) == p);
    if codeowners_matches(p, path) {
        let k = choose|k: int| #[trigger] segment_start(t, k) && covers(effective(p), t.skip(k));
        plain_patterns_cover(p, t.skip(k));
        assert(is_or_lies_below(t.skip(k), p));
    }
    if exists|k: int|
        0 <= k <= t.len() && (k == 0 || t[k - 1] == '/') && is_or_lies_below(#[trigger] t.skip(k), p) {
        let k = choose|k: int|
            0 <= k <= t.len() && (k == 0 || t[k - 1] == '/') && is_or_lies_below(#[trigger] t.skip(k), p);
        plain_patterns_cover(p, t.skip(k));
        assert(segment_start(t, k));
    }
}

/// A plain pattern that ends in a slash matches what lies below what is called so, at any depth,
/// and not the place itself.
pub proof fn directory_patterns_match_what_is_below(p: Seq<char>, path: Seq<char>)
    requires
        p.len() > 0,
        !p.contains('/'),
        !p.contains('*'),
    ensures
        codeowners_matches(p.push('/'), path) <==> exists|k: int|
            0 <= k && k + p.len() < strip_start(path, '/').len() && (k == 0 || strip_start(path, '/')[k - 1] == '/')
                && (#[trigger] strip_start(path, '/').skip(k)).take(p.len() as int) == p && strip_start(path, '/')[k
                + p.len()] == '/',
{
    reveal_strlit("**");
    reveal_strlit("/**");
    let t = strip_start(path, '/');
    let pattern = p.push('/');
    assert(p.contains(p[0]) && p.contains(p.last()));
    assert(strip_start(pattern, '/') == pattern);
    assert(pattern.drop_last() =~= p);
    assert(strip_end(p, '/') == p);
    assert(strip_end(pattern, '/') == p);
    assert(!anchored(pattern));
    let e = effective(pattern);
    assert(e =~= pattern + seq!['*', '*']);
    assert forall|i: int| 0 <= i < pattern.len() implies pattern[i] != '*' by {
        if i < p.len() {
            assert(p.contains(p[i]));
        }
    }
    assert forall|k: int| 0 <= k <= t.len() implies (covers(e, #[trigger] t.skip(k)) <==> t.skip(k).len() > p.len() && t.skip(
        k,
    ).take(p.len() as int) == p && t.skip(k)[p.len() as int] == '/') by {
        let u = t.skip(k);
        plain_text_matches_itself_first(pattern, seq!['*', '*'], u);
        if u.len() >= pattern.len() {
            two_stars_stand_for_anything(u.skip(pattern.len() as int));
            assert(u.take(pattern.len() as int).take(p.len() as int) =~= u.take(p.len() as int));
            assert(u.take(pattern.len() as int)[p.len() as int] == u[p.len() as int]);
            if u.take(p.len() as int) == p && u[p.len() as int] == '/' {
                assert(u.take(pattern.len() as int) =~= pattern) by {
                    assert forall|i: int| 0 <= i < pattern.len() implies u[i] == pattern[i] by {
                        if i < p.len() {
                            assert(u.take(p.len() as int)[i] == p[i]);
                        }
                    }
                }
            }
            if u.take(pattern.len() as int) == pattern {
                assert(pattern.take(p.len() as int) =~= p);
            }
        }
        let below = e + "/**"@;
        assert(below =~= pattern + (seq!['*', '*'] + "/**"@));
        plain_text_matches_itself_first(pattern, seq!['*', '*'] + "/**"@, u);
    }
    if codeowners_matches(pattern, path) {
        let k = choose|k: int| #[trigger] segment_start(t, k) && covers(effective(pattern), t.skip(k));
        assert(t.skip(k)[p.len() as int] == t[k + p.len()]);
    }
    if exists|k: int|
        0 <= k && k + p.len() < t.len() && (k == 0 || t[k - 1] == '/') && (#[trigger] t.skip(k)).take(p.len() as int)
            == p && t[k + p.len()] == '/' {
        let k = choose|k: int|
            0 <= k && k + p.len() < t.len() && (k == 0 || t[k - 1] == '/') && (#[trigger] t.skip(k)).take(
                p.len() as int,
            ) == p && t[k + p.len()] == '/';
        assert(t.skip(k)[p.len() as int] == t[k + p.len()]);
        assert(segment_start(t, k));
    }
}

/// An owner label that is not empty names the owner whatever else there is. Without one, the
/// deploy annotation does, where it is not empty.
pub proof fn labels_go_before_annotations(spec_: ServiceOwnershipRegistrySpec, w: WorkloadMeta)
    ensures
        w.labels@.contains_key(spec_.owner_label@) && w.labels@[spec_.owner_label@]@.len() > 0 ==> owner(spec_, w)
            == Some((w.labels@[spec_.owner_label@]@, OwnershipSource::Label)),
        !(w.labels@.contains_key(spec_.owner_label@) && w.labels@[spec_.owner_label@]@.len() > 0)
            && w.annotations@.contains_key(spec_.deploy_annotation@) && w.annotations@[spec_.deploy_annotation@]@.len()
            > 0 ==> owner(spec_, w) == Some(
            (w.annotations@[spec_.deploy_annotation@]@, OwnershipSource::DeployMetadata),
        ),
        !(w.labels@.contains_key(spec_.owner_label@) && w.labels@[spec_.owner_label@]@.len() > 0) && !(
        w.annotations@.contains_key(spec_.deploy_annotation@) && w.annotations@[spec_.deploy_annotation@]@.len() > 0)
            && (spec_.codeowners is None || !w.annotations@.contains_key(spec_.source_path_annotation@)) ==> owner(
            spec_,
            w,
        ) is None,
{
}

proof fn handles_find_their_team(teams: Seq<TeamRotation>, h: Seq<char>)
    ensures
        team_by_handle(teams, h) is None <==> forall|i: int|
            0 <= i < teams.len() ==> !views((#[trigger] teams[i]).handles@).contains(h),
        team_by_handle(teams, h) matches Some(t) ==> exists|i: int|
            0 <= i < teams.len() && views((#[trigger] teams[i]).handles@).contains(h) && teams[i].team@ == t && forall|
                j: int,
            | 0 <= j < i ==> !views((#[trigger] teams[j]).handles@).contains(h),
    decreases teams.len(),
{
    if teams.len() > 0 {
        let rest = teams.drop_first();
        handles_find_their_team(rest, h);
        if views(teams[0].handles@).contains(h) {
            assert(views(teams[0].handles@).contains(h));
        } else {
            if team_by_handle(rest, h) is None {
                assert forall|i: int| 0 <= i < teams.len() implies !views((#[trigger] teams[i]).handles@).contains(h) by {
                    if i > 0 {
                        assert(rest[i - 1] == teams[i]);
                    }
                }
            } else {
                let t = team_by_handle(rest, h)->0;
                let i = choose|i: int|
                    0 <= i < rest.len() && views((#[trigger] rest[i]).handles@).contains(h) && rest[i].team@ == t
                        && forall|j: int| 0 <= j < i ==> !views((#[trigger] rest[j]).handles@).contains(h);
                assert(teams[i + 1] == rest[i]);
                assert forall|j: int| 0 <= j < i + 1 implies !views((#[trigger] teams[j]).handles@).contains(h) by {
                    if j > 0 {
                        assert(rest[j - 1] == teams[j]);
                    }
                }
            }
        }
    }
}

proof fn known_handles_are_found(teams: Seq<TeamRotation>, handles: Seq<Seq<char>>, k: int)
    requires
        0 <= k < handles.len(),
        forall|j: int| 0 <= j < k ==> team_by_handle(teams, #[trigger] handles[j]) is None,
        team_by_handle(teams, handles[k]) is Some,
    ensures
        first_known(teams, handles) == team_by_handle(teams, handles[k]),
    decreases handles.len(),
{
    if k > 0 {
        assert(team_by_handle(teams, handles[0]) is None);
        let rest = handles.drop_first();
        assert forall|j: int| 0 <= j < k - 1 implies team_by_handle(teams, #[trigger] rest[j]) is None by {
            assert(rest[j] == handles[j + 1]);
        }
        known_handles_are_found(teams, rest, k - 1);
    }
}

proof fn unknown_handles_are_not_found(teams: Seq<TeamRotation>, handles: Seq<Seq<char>>)
    requires
        forall|j: int| 0 <= j < handles.len() ==> team_by_handle(teams, #[trigger] handles[j]) is None,
    ensures
        first_known(teams, handles) is None,
    decreases handles.len(),
{
    if handles.len() > 0 {
        let rest = handles.drop_first();
        assert forall|j: int| 0 <= j < rest.len() implies team_by_handle(teams, #[trigger] rest[j]) is None by {
            assert(rest[j] == handles[j + 1]);
        }
        unknown_handles_are_not_found(teams, rest);
        assert(team_by_handle(teams, handles[0]) is None);
    }
}

/// Where neither label nor annotation names an owner, the owners of the source path are asked in
/// order: the first of them that is a handle of some team stands for the first such team, and
/// where none is, the first of them is the owner as it stands.
pub proof fn code_owners_stand_for_their_team(
    spec_: ServiceOwnershipRegistrySpec,
    w: WorkloadMeta,
    k: int,
    i: int,
)
    requires
        !(w.labels@.contains_key(spec_.owner_label@) && w.labels@[spec_.owner_label@]@.len() > 0),
        !(w.annotations@.contains_key(spec_.deploy_annotation@) && w.annotations@[spec_.deploy_annotation@]@.len() > 0),
        w.annotations@.contains_key(spec_.source_path_annotation@),
        spec_.codeowners is Some,
    ensures
        ({
            let owners = owners_of(spec_.codeowners->0@, w.annotations@[spec_.source_path_annotation@]@);
            let teams = spec_.teams@;
            &&& owners.len() == 0 ==> owner(spec_, w) is None
            &&& owners.len() > 0 && (forall|j: int, l: int|
                0 <= j < owners.len() && 0 <= l < teams.len() ==> !views((#[trigger] teams[l]).handles@).contains(
                    #[trigger] owners[j],
                )) ==> owner(spec_, w) == Some((owners[0], OwnershipSource::Codeowners))
            &&& 0 <= k < owners.len() && 0 <= i < teams.len() && views(teams[i].handles@).contains(owners[k]) && (
            forall|l: int| 0 <= l < i ==> !views((#[trigger] teams[l]).handles@).contains(owners[k])) && (forall|
                j: int,
                l: int,
            |
                0 <= j < k && 0 <= l < teams.len() ==> !views((#[trigger] teams[l]).handles@).contains(
                    #[trigger] owners[j],
                )) ==> owner(spec_, w) == Some((teams[i].team@, OwnershipSource::Codeowners))
        }),
{
    let owners = owners_of(spec_.codeowners->0@, w.annotations@[spec_.source_path_annotation@]@);
    let teams = spec_.teams@;
    if forall|j: int, l: int|
        0 <= j < owners.len() && 0 <= l < teams.len() ==> !views((#[trigger] teams[l]).handles@).contains(
            #[trigger] owners[j],
        ) {
        assert forall|j: int| 0 <= j < owners.len() implies team_by_handle(teams, #[trigger] owners[j]) is None by {
            handles_find_their_team(teams, owners[j]);
        }
        unknown_handles_are_not_found(teams, owners);
    }
    if 0 <= k < owners.len() && 0 <= i < teams.len() && views(teams[i].handles@).contains(owners[k]) && (forall|l: int|
        0 <= l < i ==> !views((#[trigger] teams[l]).handles@).contains(owners[k])) && (forall|j: int, l: int|
        0 <= j < k && 0 <= l < teams.len() ==> !views((#[trigger] teams[l]).handles@).contains(
            #[trigger] owners[j],
        )) {
        assert forall|j: int| 0 <= j < k implies team_by_handle(teams, #[trigger] owners[j]) is None by {
            handles_find_their_team(teams, owners[j]);
        }
        handles_find_their_team(teams, owners[k]);
        known_handles_are_found(teams, owners, k);
        let t = team_by_handle(teams, owners[k])->0;
        let m = choose|m: int|
            0 <= m < teams.len() && views((#[trigger] teams[m]).handles@).contains(owners[k]) && teams[m].team@ == t
                && forall|j: int| 0 <= j < m ==> !views((#[trigger] teams[j]).handles@).contains(owners[k]);
        assert(m == i) by {
            if m < i {
                assert(!views(teams[m].handles@).contains(owners[k]));
            } else if i < m {
                assert(!views(teams[i].handles@).contains(owners[k]));
            }
        }
    }
}

proof fn teams_are_found_by_name(teams: Seq<TeamRotation>, name: Seq<char>)
    ensures
        team_called(teams, name) is None <==> forall|i: int|
            0 <= i < teams.len() ==> (#[trigger] teams[i]).team@ != name,
        forall|i: int|
            0 <= i < teams.len() && (#[trigger] teams[i]).team@ == name && (forall|j: int|
                i < j < teams.len() ==> (#[trigger] teams[j]).team@ != name) ==> team_called(teams, name) == Some(
                teams[i],
            ),
    decreases teams.len(),
{
    if teams.len() > 0 {
        let front = teams.drop_last();
        teams_are_found_by_name(front, name);
        if teams.last().team@ == name {
            assert(teams[teams.len() - 1].team@ == name);
        } else {
            assert forall|i: int| 0 <= i < front.len() implies #[trigger] front[i] == teams[i] by {}
            if team_called(front, name) is None {
                assert forall|i: int| 0 <= i < teams.len() implies (#[trigger] teams[i]).team@ != name by {
                    if i < front.len() {
                        assert(front[i] == teams[i]);
                    }
                }
            }
            if forall|i: int| 0 <= i < teams.len() ==> (#[trigger] teams[i]).team@ != name {
                assert forall|i: int| 0 <= i < front.len() implies (#[trigger] front[i]).team@ != name by {
                    assert(front[i] == teams[i]);
                }
            }
            assert forall|i: int|
                0 <= i < teams.len() && (#[trigger] teams[i]).team@ == name && (forall|j: int|
                    i < j < teams.len() ==> (#[trigger] teams[j]).team@ != name) implies team_called(teams, name) == Some(
                teams[i],
            ) by {
                assert(i < front.len());
                assert(front[i] == teams[i]);
                assert forall|j: int| i < j < front.len() implies (#[trigger] front[j]).team@ != name by {
                    assert(front[j] == teams[j]);
                }
            }
        }
    }
}

/// A workload without an owner is listed as unowned. One whose owner is no team's name, or the
/// name of a team with no one on call, is listed as stale with the reason. Any other is listed
/// with the rotation and the receiver of its team.
pub proof fn workloads_are_listed_by_their_owner(
    spec_: ServiceOwnershipRegistrySpec,
    previous: ServiceOwnershipRegistryStatus,
    now: i64,
    ws: Seq<WorkloadMeta>,
    i: int,
    t: int,
)
    requires
        0 <= i < ws.len(),
    ensures
        owner(spec_, ws[i]) is None ==> ledger(spec_, previous, now, ws).unowned.contains(ws[i].workload@),
        owner(spec_, ws[i]) is Some && (forall|k: int|
            0 <= k < spec_.teams@.len() ==> (#[trigger] spec_.teams@[k]).team@ != (owner(spec_, ws[i])->0).0) ==> ledger(
            spec_,
            previous,
            now,
            ws,
        ).stale.contains(
            StaleView {
                workload: ws[i].workload@,
                team: (owner(spec_, ws[i])->0).0,
                reason: "owner is not a registered team"@,
            },
        ),
        owner(spec_, ws[i]) is Some && 0 <= t < spec_.teams@.len() && spec_.teams@[t].team@ == (owner(spec_, ws[i])->0).0 && (
        forall|k: int| t < k < spec_.teams@.len() ==> (#[trigger] spec_.teams@[k]).team@ != (owner(spec_, ws[i])->0).0)
            ==> {
            &&& spec_.teams@[t].live ==> ledger(spec_, previous, now, ws).entries.contains(
                EntryView {
                    workload: ws[i].workload@,
                    team: (owner(spec_, ws[i])->0).0,
                    rotation: spec_.teams@[t].rotation@,
                    receiver: spec_.teams@[t].receiver@,
                    source: (owner(spec_, ws[i])->0).1,
                },
            )
            &&& !spec_.teams@[t].live ==> ledger(spec_, previous, now, ws).stale.contains(
                StaleView {
                    workload: ws[i].workload@,
                    team: (owner(spec_, ws[i])->0).0,
                    reason: "rotation '"@ + spec_.teams@[t].rotation@ + "' has no one on call"@,
                },
            )
        },
    decreases ws.len(),
{
    let front = ws.drop_last();
    let l0 = ledger(spec_, previous, now, front);
    let l1 = ledger(spec_, previous, now, ws);
    if i < ws.len() - 1 {
        workloads_are_listed_by_their_owner(spec_, previous, now, front, i, t);
        assert(front[i] == ws[i]);
        assert(l1.unowned == l0.unowned || l1.unowned.drop_last() =~= l0.unowned);
        assert(l1.stale == l0.stale || l1.stale.drop_last() =~= l0.stale);
        assert(l1.entries == l0.entries || l1.entries.drop_last() =~= l0.entries);
        assert forall|x: RefView| l0.unowned.contains(x) implies l1.unowned.contains(x) by {
            let at = l0.unowned.index_of(x);
            assert(l1.unowned[at] == x);
        }
        assert forall|x: StaleView| l0.stale.contains(x) implies l1.stale.contains(x) by {
            let at = l0.stale.index_of(x);
            assert(l1.stale[at] == x);
        }
        assert forall|x: EntryView| l0.entries.contains(x) implies l1.entries.contains(x) by {
            let at = l0.entries.index_of(x);
            assert(l1.entries[at] == x);
        }
    } else {
        assert(ws.last() == ws[i]);
        if owner(spec_, ws[i]) is None {
            assert(l1.unowned.last() == ws[i].workload@);
        } else {
            teams_are_found_by_name(spec_.teams@, (owner(spec_, ws[i])->0).0);
            if team_called(spec_.teams@, (owner(spec_, ws[i])->0).0) is Some && team_called(
                spec_.teams@,
                (owner(spec_, ws[i])->0).0,
            )->0.live {
                assert(l1.entries.last().workload == ws[i].workload@);
                assert(l1.entries.contains(l1.entries.last()));
            } else {
                assert(l1.stale.last().workload == ws[i].workload@);
                assert(l1.stale.contains(l1.stale.last()));
            }
        }
    }
}

/// Workloads of excluded namespaces are left out, and all others are taken, each once, in the
/// order of kind, namespace and name.
pub proof fn excluded_namespaces_are_left_out(
    spec_: ServiceOwnershipRegistrySpec,
    ws: Seq<WorkloadMeta>,
    at: Seq<int>,
)
    requires
        is_settling_order(spec_, ws, at),
    ensures
        forall|i: int|
            0 <= i < ws.len() ==> (#[trigger] at.contains(i) <==> forall|n: int|
                0 <= n < spec_.excluded_namespaces@.len() ==> (#[trigger] spec_.excluded_namespaces@[n])@
                    != ws[i].workload.namespace@),
        at.no_duplicates(),
        forall|k: int, l: int|
            0 <= k < l < at.len() ==> !crate::text::lex_lt(
                ws[#[trigger] at[l]].workload.kind@,
                ws[#[trigger] at[k]].workload.kind@,
            ),
        forall|k: int, l: int|
            0 <= k < l < at.len() && ws[#[trigger] at[k]].workload.kind@ == ws[#[trigger] at[l]].workload.kind@
                ==> !crate::text::lex_lt(ws[at[l]].workload.namespace@, ws[at[k]].workload.namespace@),
{
    let out = views(spec_.excluded_namespaces@);
    assert forall|i: int| 0 <= i < ws.len() implies (#[trigger] at.contains(i) <==> forall|n: int|
        0 <= n < spec_.excluded_namespaces@.len() ==> (#[trigger] spec_.excluded_namespaces@[n])@
            != ws[i].workload.namespace@) by {
        let ns = ws[i].workload.namespace@;
        if at.contains(i) {
            let k = at.index_of(i);
            assert(included(spec_, ws[at[k]]));
            assert forall|n: int| 0 <= n < spec_.excluded_namespaces@.len() implies (
            #[trigger] spec_.excluded_namespaces@[n])@ != ns by {
                assert(out[n] == spec_.excluded_namespaces@[n]@);
                assert(out.contains(out[n]));
            }
        }
        if forall|n: int|
            0 <= n < spec_.excluded_namespaces@.len() ==> (#[trigger] spec_.excluded_namespaces@[n])@ != ns {
            if out.contains(ns) {
                let n = out.index_of(ns);
                assert(spec_.excluded_namespaces@[n]@ == ns);
            }
            assert(included(spec_, ws[i]));
        }
    }
    assert forall|k: int, l: int| 0 <= k < at.len() && 0 <= l < at.len() && k != l implies at[k] != at[l] by {
        if k < l {
            assert(settled_before(ws, at[k], at[l]));
            ref_order(ws[at[k]].workload@, ws[at[l]].workload@, ws[at[l]].workload@);
        } else {
            assert(settled_before(ws, at[l], at[k]));
            ref_order(ws[at[l]].workload@, ws[at[k]].workload@, ws[at[k]].workload@);
        }
    }
    assert forall|k: int, l: int| 0 <= k < l < at.len() implies !crate::text::lex_lt(
        ws[#[trigger] at[l]].workload.kind@,
        ws[#[trigger] at[k]].workload.kind@,
    ) by {
        assert(settled_before(ws, at[k], at[l]));
        crate::text::lex_total(ws[at[k]].workload.kind@, ws[at[l]].workload.kind@);
        crate::text::lex_irreflexive(ws[at[k]].workload.kind@);
        if crate::text::lex_lt(ws[at[l]].workload.kind@, ws[at[k]].workload.kind@) {
            if crate::text::lex_lt(ws[at[k]].workload.kind@, ws[at[l]].workload.kind@) {
                crate::text::lex_transitive(
                    ws[at[k]].workload.kind@,
                    ws[at[l]].workload.kind@,
                    ws[at[k]].workload.kind@,
                );
            }
        }
    }
    assert forall|k: int, l: int|
        0 <= k < l < at.len() && ws[#[trigger] at[k]].workload.kind@ == ws[#[trigger] at[l]].workload.kind@ implies !crate::text::lex_lt(
        ws[at[l]].workload.namespace@,
        ws[at[k]].workload.namespace@,
    ) by {
        let a = ws[at[k]].workload;
        let b = ws[at[l]].workload;
        assert(settled_before(ws, at[k], at[l]));
        crate::text::lex_irreflexive(a.kind@);
        crate::text::lex_irreflexive(a.namespace@);
        if crate::text::lex_lt(b.namespace@, a.namespace@) {
            if crate::text::lex_lt(a.namespace@, b.namespace@) {
                crate::text::lex_transitive(a.namespace@, b.namespace@, a.namespace@);
            }
        }
    }
}

/// The registry is ready exactly where every workload has an owner who is on call; it counts
/// those that have and those that have not, and keeps the newest changes.
pub proof fn readiness_needs_owners(
    spec_: ServiceOwnershipRegistrySpec,
    now: i64,
    l: Ledger,
    status: ServiceOwnershipRegistryStatus,
)
    requires
        is_status(spec_, now, l, status),
        l.entries.len() + l.unowned.len() + l.stale.len() <= u32::MAX,
    ensures
        status.owned_count == status.entries@.len(),
        status.unowned_count == status.unowned@.len() + status.stale@.len(),
        status.unowned@.len() == 0 && status.stale@.len() == 0 ==> status.conditions@[0].status@ == "True"@
            && status.conditions@[0].reason@ == "AllOwned"@,
        status.unowned@.len() > 0 || status.stale@.len() > 0 ==> status.conditions@[0].status@ == "False"@
            && status.conditions@[0].reason@ == "OwnershipGaps"@,
        status.last_reconciled == Some(now),
        forall|k: int|
            0 <= k < status.history@.len() ==> (#[trigger] status.history@[k])@ == l.history[l.history.len()
                - status.history@.len() + k],
        status.history@.len() == l.history.len() || status.history@.len() == spec_.history_limit,
{
    assert(entry_views(status.entries@).len() == status.entries@.len());
    assert(ref_views(status.unowned@).len() == status.unowned@.len());
    assert(stale_views(status.stale@).len() == status.stale@.len());
    assert(change_views(status.history@).len() == status.history@.len());
    assert forall|k: int| 0 <= k < status.history@.len() implies (#[trigger] status.history@[k])@
        == l.history[l.history.len() - status.history@.len() + k] by {
        assert(change_views(status.history@)[k] == status.history@[k]@);
    }
}

/// A workload whose owner is another than the one on record leaves one record of the change, with
/// both teams; one whose owner is the same leaves none.
pub proof fn changes_of_owner_are_recorded(
    spec_: ServiceOwnershipRegistrySpec,
    old_team: Option<Seq<char>>,
    now: i64,
    w: WorkloadMeta,
    l: Ledger,
)
    ensures
        ({
            let team = if owner(spec_, w) is Some {
                Some((owner(spec_, w)->0).0)
            } else {
                None
            };
            let after = settle(spec_, old_team, now, w, l).history;
            &&& team == old_team ==> after == l.history
            &&& team != old_team ==> {
                &&& after.len() == l.history.len() + 1
                &&& after.drop_last() == l.history
                &&& after.last().workload == w.workload@
                &&& after.last().previous_team == old_team
                &&& after.last().team == team
                &&& after.last().changed_at == now
                &&& after.last().source is Some <==> owner(spec_, w) is Some
                &&& owner(spec_, w) is Some ==> after.last().source == Some((owner(spec_, w)->0).1)
            }
        }),
{
    let after = settle(spec_, old_team, now, w, l).history;
    if after.len() > l.history.len() {
        assert(after.drop_last() =~= l.history);
    }
}

/// A workload that no earlier record mentions had no owner before.
pub proof fn unrecorded_workloads_had_no_owner(previous: ServiceOwnershipRegistryStatus, w: RefView)
    ensures
        (forall|i: int| 0 <= i < previous.entries@.len() ==> (#[trigger] previous.entries@[i]).workload@ != w) && (forall|
            i: int,
        | 0 <= i < previous.stale@.len() ==> (#[trigger] previous.stale@[i]).workload@ != w) ==> previous_team(previous, w) is None,
        previous_team(previous, w) matches Some(t) ==> (exists|i: int|
            0 <= i < previous.entries@.len() && (#[trigger] previous.entries@[i]).workload@ == w
                && previous.entries@[i].team@ == t) || (exists|i: int|
            0 <= i < previous.stale@.len() && (#[trigger] previous.stale@[i]).workload@ == w && previous.stale@[i].team@
                == t),
{
    let e = entry_views(previous.entries@);
    let s = stale_views(previous.stale@);
    entries_on_record(e, w);
    stale_on_record(s, w);
    if entry_team(e, w) is Some {
        let i = choose|i: int| 0 <= i < e.len() && (#[trigger] e[i]).workload == w && e[i].team == entry_team(e, w)->0;
        assert(previous.entries@[i]@ == e[i]);
    }
    if stale_team(s, w) is Some {
        let i = choose|i: int| 0 <= i < s.len() && (#[trigger] s[i]).workload == w && s[i].team == stale_team(s, w)->0;
        assert(previous.stale@[i]@ == s[i]);
    }
}

proof fn entries_on_record(e: Seq<EntryView>, w: RefView)
    ensures
        entry_team(e, w) matches Some(t) ==> exists|i: int|
            0 <= i < e.len() && (#[trigger] e[i]).workload == w && e[i].team == t,
        (exists|i: int| 0 <= i < e.len() && (#[trigger] e[i]).workload == w) ==> entry_team(e, w) is Some,
    decreases e.len(),
{
    if e.len() > 0 {
        let front = e.drop_last();
        entries_on_record(front, w);
        if e.last().workload == w {
            assert(e[e.len() - 1].workload == w);
        } else {
            if entry_team(front, w) is Some {
                let i = choose|i: int|
                    0 <= i < front.len() && (#[trigger] front[i]).workload == w && front[i].team == entry_team(front, w)->0;
                assert(e[i] == front[i]);
            }
            if exists|i: int| 0 <= i < e.len() && (#[trigger] e[i]).workload == w {
                let i = choose|i: int| 0 <= i < e.len() && (#[trigger] e[i]).workload == w;
                assert(front[i] == e[i]);
            }
        }
    }
}

proof fn stale_on_record(s: Seq<StaleView>, w: RefView)
    ensures
        stale_team(s, w) matches Some(t) ==> exists|i: int|
            0 <= i < s.len() && (#[trigger] s[i]).workload == w && s[i].team == t,
        (exists|i: int| 0 <= i < s.len() && (#[trigger] s[i]).workload == w) ==> stale_team(s, w) is Some,
    decreases s.len(),
{
    if s.len() > 0 {
        let front = s.drop_last();
        stale_on_record(front, w);
        if s.last().workload == w {
            assert(s[s.len() - 1].workload == w);
        } else {
            if stale_team(front, w) is Some {
                let i = choose|i: int|
                    0 <= i < front.len() && (#[trigger] front[i]).workload == w && front[i].team == stale_team(front, w)->0;
                assert(s[i] == front[i]);
            }
            if exists|i: int| 0 <= i < s.len() && (#[trigger] s[i]).workload == w {
                let i = choose|i: int| 0 <= i < s.len() && (#[trigger] s[i]).workload == w;
                assert(front[i] == s[i]);
            }
        }
    }
}

proof fn entries_are_found(entries: Seq<OwnershipEntry>, w: RefView)
    ensures
        entry_for(entries, w) is Some <==> exists|i: int|
            0 <= i < entries.len() && (#[trigger] entries[i]).workload@ == w,
        entry_for(entries, w) matches Some(k) ==> 0 <= k < entries.len() && entries[k].workload@ == w,
    decreases entries.len(),
{
    if entries.len() > 0 {
        let front = entries.drop_last();
        entries_are_found(front, w);
        if exists|i: int| 0 <= i < entries.len() && (#[trigger] entries[i]).workload@ == w {
            let i = choose|i: int| 0 <= i < entries.len() && (#[trigger] entries[i]).workload@ == w;
            if i < entries.len() - 1 {
                assert(front[i] == entries[i]);
            }
        }
        if entry_for(front, w) is Some {
            let k = entry_for(front, w)->0;
            assert(entries[k] == front[k]);
        } else if entries.last().workload@ == w {
            assert(entries[entries.len() - 1].workload@ == w);
        }
    }
}

/// An alert is attributed to a workload that its labels name: a deployment before a stateful set,
/// and that before a daemon set, each in the namespace of the alert. Where no entry is for a
/// workload that they name, it is attributed to none.
pub proof fn alerts_go_to_the_workload_they_name(entries: Seq<OwnershipEntry>, labels: Map<Seq<char>, String>)
    ensures
        !labels.contains_key("namespace"@) ==> attributed(entries, labels) is None,
        attributed(entries, labels) matches Some(k) ==> {
            let w = entries[k].workload;
            &&& 0 <= k < entries.len()
            &&& w.namespace@ == labels["namespace"@]@
            &&& (w.kind@ == "Deployment"@ && labels.contains_key("deployment"@) && w.name@ == labels["deployment"@]@)
                || (w.kind@ == "StatefulSet"@ && labels.contains_key("statefulset"@) && w.name@
                == labels["statefulset"@]@) || (w.kind@ == "DaemonSet"@ && labels.contains_key("daemonset"@) && w.name@
                == labels["daemonset"@]@)
        },
        labels.contains_key("namespace"@) && labels.contains_key("deployment"@) && (exists|i: int|
            0 <= i < entries.len() && (#[trigger] entries[i]).workload.kind@ == "Deployment"@
                && entries[i].workload.namespace@ == labels["namespace"@]@ && entries[i].workload.name@
                == labels["deployment"@]@) ==> attributed(entries, labels) is Some && entries[attributed(
            entries,
            labels,
        )->0].workload.kind@ == "Deployment"@,
        labels.contains_key("namespace"@) && labels.contains_key("statefulset"@) && (exists|i: int|
            0 <= i < entries.len() && (#[trigger] entries[i]).workload.kind@ == "StatefulSet"@
                && entries[i].workload.namespace@ == labels["namespace"@]@ && entries[i].workload.name@
                == labels["statefulset"@]@) ==> attributed(entries, labels) is Some,
        labels.contains_key("namespace"@) && labels.contains_key("daemonset"@) && (exists|i: int|
            0 <= i < entries.len() && (#[trigger] entries[i]).workload.kind@ == "DaemonSet"@
                && entries[i].workload.namespace@ == labels["namespace"@]@ && entries[i].workload.name@
                == labels["daemonset"@]@) ==> attributed(entries, labels) is Some,
{
    let ns = labels["namespace"@]@;
    let d = RefView { kind: "Deployment"@, namespace: ns, name: labels["deployment"@]@ };
    let s = RefView { kind: "StatefulSet"@, namespace: ns, name: labels["statefulset"@]@ };
    let m = RefView { kind: "DaemonSet"@, namespace: ns, name: labels["daemonset"@]@ };
    entries_are_found(entries, d);
    entries_are_found(entries, s);
    entries_are_found(entries, m);
    if exists|i: int|
        0 <= i < entries.len() && (#[trigger] entries[i]).workload.kind@ == "Deployment"@
            && entries[i].workload.namespace@ == ns && entries[i].workload.name@ == labels["deployment"@]@ {
        let i = choose|i: int|
            0 <= i < entries.len() && (#[trigger] entries[i]).workload.kind@ == "Deployment"@
                && entries[i].workload.namespace@ == ns && entries[i].workload.name@ == labels["deployment"@]@;
        assert(entries[i].workload@ == d);
    }
    if exists|i: int|
        0 <= i < entries.len() && (#[trigger] entries[i]).workload.kind@ == "StatefulSet"@
            && entries[i].workload.namespace@ == ns && entries[i].workload.name@ == labels["statefulset"@]@ {
        let i = choose|i: int|
            0 <= i < entries.len() && (#[trigger] entries[i]).workload.kind@ == "StatefulSet"@
                && entries[i].workload.namespace@ == ns && entries[i].workload.name@ == labels["statefulset"@]@;
        assert(entries[i].workload@ == s);
    }
    if exists|i: int|
        0 <= i < entries.len() && (#[trigger] entries[i]).workload.kind@ == "DaemonSet"@
            && entries[i].workload.namespace@ == ns && entries[i].workload.name@ == labels["daemonset"@]@ {
        let i = choose|i: int|
            0 <= i < entries.len() && (#[trigger] entries[i]).workload.kind@ == "DaemonSet"@
                && entries[i].workload.namespace@ == ns && entries[i].workload.name@ == labels["daemonset"@]@;
        assert(entries[i].workload@ == m);
    }
}

/// The alerts of a team are routed to its receiver, and to no other after it.
pub proof fn teams_get_their_alerts(t: TeamRotation)
    ensures
        team_route(t) matches Doc::Obj(f) && f.len() == 3 && f[0] == ("receiver"@, Doc::Str(t.receiver@)) && f[1].0
            == "matchers"@ && f[1].1 == Doc::Arr(
            Seq::<Doc>::empty().push(Doc::Str("team=\""@ + t.team@ + "\""@)),
        ) && f[2] == ("continue"@, Doc::Bool(false)),
{
}

/// A workload without an owner, or with one that is stale, is alerted under its own name, with what
/// is wrong.
#[verifier::rlimit(40)]
pub proof fn ownership_alerts_name_the_workload(w: WorkloadRef, s: StaleOwnership)
    ensures
        unowned_alert(w) matches Doc::Obj(top) && top[0].0 == "labels"@ && (top[0].1 matches Doc::Obj(l) && l[0] == (
            "alertname"@,
            Doc::Str("WorkloadUnowned"@),
        ) && l[1] == ("severity"@, Doc::Str("warning"@)) && l[2] == ("namespace"@, Doc::Str(w.namespace@)) && l[3] == (
            "kind"@,
            Doc::Str(w.kind@),
        ) && l[4] == ("workload"@, Doc::Str(w.name@))) && top[1].0 == "annotations"@ && (top[1].1 matches Doc::Obj(a)
            && a[0] == (
            "summary"@,
            Doc::Str(w.namespace@ + "/"@ + w.name@ + " "@ + w.kind@ + " has no resolvable owner"@),
        )),
        stale_alert(s) matches Doc::Obj(top) && (top[0].1 matches Doc::Obj(l) && l[0] == (
            "alertname"@,
            Doc::Str("WorkloadOwnershipStale"@),
        ) && l[2] == ("namespace"@, Doc::Str(s.workload.namespace@)) && l[3] == ("kind"@, Doc::Str(s.workload.kind@))
            && l[4] == ("workload"@, Doc::Str(s.workload.name@))) && (top[1].1 matches Doc::Obj(a) && a[0] == (
            "summary"@,
            Doc::Str("owner '"@ + s.team@ + "': "@ + s.reason@),
        )),
{
}

/// Workloads are settled by kind, namespace and name, whatever order they were found in.
pub proof fn workloads_are_settled_by_name(ws: Seq<WorkloadMeta>, a: int, b: int)
    requires
        a != b,
    ensures
        settled_before(ws, a, b) <==> !settled_before(ws, b, a),
        ws[a].workload@ != ws[b].workload@ ==> (settled_before(ws, a, b) <==> ref_lt(ws[a].workload@, ws[b].workload@)),
        ws[a].workload@ == ws[b].workload@ ==> (settled_before(ws, a, b) <==> a < b),
{
    ref_order(ws[a].workload@, ws[b].workload@, ws[a].workload@);
    ref_order(ws[b].workload@, ws[a].workload@, ws[b].workload@);
}

/// The last entry of a workload tells its team, and without one it has none.
pub proof fn the_last_entry_tells_the_team(entries: Seq<EntryView>, w: RefView, i: int)
    ensures
        0 <= i < entries.len() && entries[i].workload == w && (forall|j: int|
            i < j < entries.len() ==> (#[trigger] entries[j]).workload != w) ==> entry_team(entries, w) == Some(
            entries[i].team,
        ),
        (forall|j: int| 0 <= j < entries.len() ==> (#[trigger] entries[j]).workload != w) ==> entry_team(entries, w)
            is None,
    decreases entries.len(),
{
    if entries.len() > 0 {
        let front = entries.drop_last();
        let last = entries[entries.len() - 1];
        if last.workload != w {
            the_last_entry_tells_the_team(front, w, i);
            if 0 <= i < entries.len() && entries[i].workload == w && forall|j: int|
                i < j < entries.len() ==> (#[trigger] entries[j]).workload != w {
                assert(front[i] == entries[i]);
                assert forall|j: int| i < j < front.len() implies (#[trigger] front[j]).workload != w by {
                    assert(front[j] == entries[j]);
                }
            }
            if forall|j: int| 0 <= j < entries.len() ==> (#[trigger] entries[j]).workload != w {
                assert forall|j: int| 0 <= j < front.len() implies (#[trigger] front[j]).workload != w by {
                    assert(front[j] == entries[j]);
                }
            }
        } else if 0 <= i < entries.len() - 1 {
            assert(entries[entries.len() - 1].workload == w);
        }
    }
}

/// The state of ownership is told in numbers.
pub proof fn conditions_tell_the_numbers(
    spec_: ServiceOwnershipRegistrySpec,
    now: i64,
    l: Ledger,
    status: ServiceOwnershipRegistryStatus,
)
    requires
        is_status(spec_, now, l, status),
    ensures
        status.conditions@.len() == 1,
        status.conditions@[0].type_@ == "Ready"@,
        status.conditions@[0].message@ == dec(status.entries@.len()) + " owned, "@ + dec(status.unowned@.len())
            + " unowned, "@ + dec(status.stale@.len()) + " stale"@,
{
    assert(entry_views(status.entries@).len() == status.entries@.len());
    assert(ref_views(status.unowned@).len() == status.unowned@.len());
    assert(stale_views(status.stale@).len() == status.stale@.len());
}

} // verus!
