//! Namespace-scoped backup consistency groups.
//!
//! A group describes interdependent stateful workloads that are captured as one
//! unit: members are quiesced consumers first, all volumes are snapshotted in one
//! step, and members are unquiesced dependencies first. A restore goes through
//! the members dependencies first and checks each one.

use vstd::prelude::*;
#[allow(unused_imports)]
use vstd::string::*;
#[allow(unused_imports)]
use crate::json::{no_fields, object, put, put_text, Doc, Fields, Json};
#[allow(unused_imports)]
use crate::seqs::{first_index, first_index_found, first_index_is, pigeonhole};
#[allow(unused_imports)]
use crate::strmap::{ascending, StrMap};
#[allow(unused_imports)]
use crate::text::{before, copy_strings, find, lex_le, lex_total, lex_transitive, same, views, debug_list, list_debug};

verus! {

/// Application-native backup hook commands executed inside the member pod.
#[derive(Debug, Clone, PartialEq, Eq)]
pub struct AppHook {
    /// Command that flushes and blocks writes (e.g. `pg_backup_start`).
    pub quiesce: Vec<String>,
    /// Command that resumes writes.
    pub unquiesce: Vec<String>,
}

/// One stateful workload in the group.
#[derive(Debug, Clone, PartialEq, Eq)]
pub struct GroupMember {
    /// Workload name (StatefulSet / StellarNode).
    pub name: String,
    /// PVCs owned by this member.
    pub pvcs: Vec<String>,
    /// Members this one depends on (must be restored before it).
    pub depends_on: Vec<String>,
    /// Application-native hook; `None` falls back to a filesystem freeze.
    pub hook: Option<AppHook>,
    /// Command run after restore; must exit 0 for the member to be consistent.
    pub verify: Option<Vec<String>>,
}

/// A namespace-scoped set of members captured atomically.
#[derive(Debug, Clone, PartialEq, Eq)]
pub struct ConsistencyGroup {
    pub name: String,
    pub namespace: String,
    pub members: Vec<GroupMember>,
    /// Recovery point objective for the whole group, in seconds.
    pub rpo_seconds: i64,
}

/// How a member is quiesced.
#[derive(Debug, Clone, PartialEq, Eq)]
pub enum QuiesceMethod {
    /// Application-native hook.
    AppNative(AppHook),
    /// `fsfreeze` on the member's mounted volumes.
    FilesystemFreeze,
}

/// A single step of a group backup.
#[derive(Debug, Clone, PartialEq, Eq)]
pub enum BackupStep {
    Quiesce { member: String, method: QuiesceMethod },
    /// Snapshot every `(member, pvc)` in the group under one capture.
    SnapshotGroup { volumes: Vec<(String, String)> },
    Unquiesce { member: String, method: QuiesceMethod },
}

/// A single step of a group restore.
#[derive(Debug, Clone, PartialEq, Eq)]
pub enum RestoreStep {
    RestoreVolumes { member: String, pvcs: Vec<String> },
    StartAndAwaitReady { member: String },
    Verify { member: String },
}

/// Why a group cannot be planned or a step of it failed.
#[derive(Debug, PartialEq, Eq)]
pub enum GroupError {
    Empty,
    DuplicateMember(String),
    UnknownDependency { member: String, dependency: String },
    Cycle(Vec<String>),
    StepFailed { member: String, reason: String },
}

/// The names of the members, in the order they are listed.
pub open spec fn names(members: Seq<GroupMember>) -> Seq<Seq<char>> {
    Seq::new(members.len(), |i: int| members[i].name@)
}

/// Member `m` lists `d` among its dependencies.
pub open spec fn depends(m: GroupMember, d: Seq<char>) -> bool {
    views(m.depends_on@).contains(d)
}

/// Member `k` is the first whose name an earlier member has.
pub open spec fn first_duplicate(members: Seq<GroupMember>, k: int) -> bool {
    &&& 0 <= k < members.len()
    &&& names(members).take(k).contains(names(members)[k])
    &&& names(members).take(k).no_duplicates()
}

/// Dependency `j` of member `i` names no member.
pub open spec fn unknown_at(members: Seq<GroupMember>, i: int, j: int) -> bool {
    &&& 0 <= i < members.len()
    &&& 0 <= j < members[i].depends_on@.len()
    &&& !names(members).contains(members[i].depends_on@[j]@)
}

/// Dependency `j` of member `i` is the first that names no member.
pub open spec fn first_unknown(members: Seq<GroupMember>, i: int, j: int) -> bool {
    &&& unknown_at(members, i, j)
    &&& forall|a: int, b: int| #[trigger] unknown_at(members, a, b) ==> a > i || (a == i && b >= j)
}

/// The group can be ordered unless its dependencies run in a circle: it has
/// members, their names differ, and every dependency names one of them.
pub open spec fn sound(members: Seq<GroupMember>) -> bool {
    &&& members.len() > 0
    &&& names(members).no_duplicates()
    &&& forall|a: int, b: int| !#[trigger] unknown_at(members, a, b)
}

/// Member `i` is not among `done`, and all it depends on is.
pub open spec fn ready(members: Seq<GroupMember>, done: Seq<Seq<char>>, i: int) -> bool {
    &&& 0 <= i < members.len()
    &&& !done.contains(names(members)[i])
    &&& forall|d: Seq<char>| #[trigger] depends(members[i], d) ==> done.contains(d)
}

/// `n` is the first by name of the members that are ready after `done`.
pub open spec fn next_name(members: Seq<GroupMember>, done: Seq<Seq<char>>, n: Seq<char>) -> bool {
    &&& exists|i: int| #[trigger] ready(members, done, i) && names(members)[i] == n
    &&& forall|j: int| #[trigger] ready(members, done, j) ==> lex_le(n, names(members)[j])
}

/// Each name of `order` is the first of those ready after the names before it.
pub open spec fn greedy(members: Seq<GroupMember>, order: Seq<Seq<char>>) -> bool {
    forall|k: int| 0 <= k < order.len() ==> #[trigger] next_name(members, order.take(k), order[k])
}

/// `order` is the dependency order of the group: dependencies first, ties by name.
pub open spec fn is_order(members: Seq<GroupMember>, order: Seq<Seq<char>>) -> bool {
    &&& sound(members)
    &&& greedy(members, order)
    &&& order.len() == members.len()
}

/// After `order` no member is ready, and some are left: those of `stuck`, by name.
pub open spec fn stuck_after(members: Seq<GroupMember>, order: Seq<Seq<char>>, stuck: Seq<Seq<char>>) -> bool {
    &&& greedy(members, order)
    &&& order.len() < members.len()
    &&& forall|i: int| !#[trigger] ready(members, order, i)
    &&& ascending(stuck)
    &&& forall|n: Seq<char>| #[trigger]
        stuck.contains(n) <==> names(members).contains(n) && !order.contains(n)
}

/// The greedy order ends before all members are in it, and leaves `stuck`.
pub open spec fn cyclic(members: Seq<GroupMember>, stuck: Seq<Seq<char>>) -> bool {
    exists|order: Seq<Seq<char>>| #[trigger] stuck_after(members, order, stuck)
}

/// What each planning error says of the group.
pub open spec fn planning_error(members: Seq<GroupMember>, e: GroupError) -> bool {
    match e {
        GroupError::Empty => members.len() == 0,
        GroupError::DuplicateMember(n) => exists|k: int| #[trigger]
            first_duplicate(members, k) && n@ == names(members)[k],
        GroupError::UnknownDependency { member, dependency } => {
            &&& names(members).no_duplicates()
            &&& exists|i: int, j: int| #[trigger]
                first_unknown(members, i, j) && member@ == names(members)[i] && dependency@
                    == members[i].depends_on@[j]@
        },
        GroupError::Cycle(stuck) => sound(members) && cyclic(members, views(stuck@)),
        GroupError::StepFailed { .. } => false,
    }
}

/// The first member called `n`.
pub open spec fn member_called(members: Seq<GroupMember>, n: Seq<char>) -> GroupMember {
    members[first_index(names(members), n)]
}

/// `q` is how member `m` is quiesced: by its own hook, else by a freeze.
pub open spec fn method_fits(m: GroupMember, q: QuiesceMethod) -> bool {
    match m.hook {
        Some(h) => q matches QuiesceMethod::AppNative(a) && a.quiesce@ == h.quiesce@ && a.unquiesce@
            == h.unquiesce@,
        None => q is FilesystemFreeze,
    }
}

/// A pair of strings as a pair of character sequences.
pub open spec fn pair_views(v: Seq<(String, String)>) -> Seq<(Seq<char>, Seq<char>)> {
    v.map_values(|p: (String, String)| (p.0@, p.1@))
}

/// The volumes of one member, each with the member's name.
pub open spec fn own_volumes(members: Seq<GroupMember>, n: Seq<char>) -> Seq<(Seq<char>, Seq<char>)> {
    member_called(members, n).pvcs@.map_values(|p: String| (n, p@))
}

/// The volumes of the members of `order`, member by member.
pub open spec fn volumes_of(members: Seq<GroupMember>, order: Seq<Seq<char>>) -> Seq<(Seq<char>, Seq<char>)>
    decreases order.len(),
{
    if order.len() == 0 {
        Seq::empty()
    } else {
        volumes_of(members, order.drop_last()) + own_volumes(members, order.last())
    }
}

/// `s` quiesces the member called `n`.
pub open spec fn quiesces(members: Seq<GroupMember>, s: BackupStep, n: Seq<char>) -> bool {
    s matches BackupStep::Quiesce { member, method } && member@ == n && method_fits(
        member_called(members, n),
        method,
    )
}

/// `s` unquiesces the member called `n`.
pub open spec fn unquiesces(members: Seq<GroupMember>, s: BackupStep, n: Seq<char>) -> bool {
    s matches BackupStep::Unquiesce { member, method } && member@ == n && method_fits(
        member_called(members, n),
        method,
    )
}

/// `steps` backs up the members of `order`: quiesce from the last to the first,
/// one snapshot of all volumes, unquiesce from the first to the last.
pub open spec fn is_backup_plan(members: Seq<GroupMember>, order: Seq<Seq<char>>, steps: Seq<BackupStep>) -> bool {
    let n = order.len() as int;
    &&& steps.len() == 2 * n + 1
    &&& forall|i: int| 0 <= i < n ==> quiesces(members, #[trigger] steps[i], order[n - 1 - i])
    &&& steps[n] matches BackupStep::SnapshotGroup { volumes } && pair_views(volumes@) == volumes_of(
        members,
        order,
    )
    &&& forall|i: int| n < i <= 2 * n ==> unquiesces(members, #[trigger] steps[i], order[i - n - 1])
}

/// `steps` restores the members of `order`, each one restored, started and
/// verified before the next.
pub open spec fn is_restore_plan(members: Seq<GroupMember>, order: Seq<Seq<char>>, steps: Seq<RestoreStep>) -> bool {
    &&& steps.len() == 3 * order.len()
    &&& forall|i: int|
        0 <= i < order.len() ==> {
            &&& steps[3 * i] matches RestoreStep::RestoreVolumes { member, pvcs } && member@ == #[trigger] order[i]
                && pvcs@ == member_called(members, order[i]).pvcs@
            &&& steps[3 * i + 1] matches RestoreStep::StartAndAwaitReady { member } && member@ == order[i]
            &&& steps[3 * i + 2] matches RestoreStep::Verify { member } && member@ == order[i]
        }
}

impl AppHook {
    /// A copy of the hook.
    pub fn copy(&self) -> (h: AppHook)
        ensures
            h.quiesce@ == self.quiesce@,
            h.unquiesce@ == self.unquiesce@,
    {
        AppHook { quiesce: copy_strings(&self.quiesce), unquiesce: copy_strings(&self.unquiesce) }
    }
}

/// Where `order` is greedy, it names members of the group, each once.
pub proof fn greedy_names(members: Seq<GroupMember>, order: Seq<Seq<char>>)
    requires
        greedy(members, order),
    ensures
        order.no_duplicates(),
        forall|k: int| 0 <= k < order.len() ==> names(members).contains(#[trigger] order[k]),
{
    assert forall|k: int| 0 <= k < order.len() implies names(members).contains(#[trigger] order[k])
        && !order.take(k).contains(order[k]) by {
        assert(next_name(members, order.take(k), order[k]));
        let i = choose|i: int| #[trigger] ready(members, order.take(k), i) && names(members)[i] == order[k];
        assert(names(members)[i] == order[k]);
    }
    assert forall|a: int, b: int| 0 <= a < order.len() && 0 <= b < order.len() && a != b implies order[a]
        != order[b] by {
        let (lo, hi) = if a < b { (a, b) } else { (b, a) };
        assert(!order.take(hi).contains(order[hi]));
        assert(order.take(hi)[lo] == order[lo]);
    }
}

/// A greedy order stays greedy when the next ready name is added.
proof fn greedy_push(members: Seq<GroupMember>, order: Seq<Seq<char>>, n: Seq<char>)
    requires
        greedy(members, order),
        next_name(members, order, n),
    ensures
        greedy(members, order.push(n)),
{
    let more = order.push(n);
    assert forall|k: int| 0 <= k < more.len() implies #[trigger] next_name(members, more.take(k), more[k]) by {
        assert(more.take(k) =~= order.take(k));
        if k == order.len() {
            assert(order.take(k) =~= order);
        }
    }
}

impl ConsistencyGroup {
    /// The first member called `name`.
    pub fn member(&self, name: &str) -> (r: Option<&GroupMember>)
        ensures
            r is Some <==> names(self.members@).contains(name@),
            r matches Some(m) ==> *m == member_called(self.members@, name@),
    {
        let mut i: usize = 0;
        while i < self.members.len()
            invariant
                i <= self.members@.len(),
                forall|j: int| 0 <= j < i ==> names(self.members@)[j] != name@,
            decreases self.members@.len() - i,
        {
            if same(self.members[i].name.as_str(), name) {
                proof {
                    assert(names(self.members@)[i as int] == name@);
                    first_index_is(names(self.members@), name@, i as int);
                }
                return Some(&self.members[i]);
            }
            i = i + 1;
        }
        None
    }
}

/// The dependency order of a group is unique.
pub proof fn order_is_unique(members: Seq<GroupMember>, a: Seq<Seq<char>>, b: Seq<Seq<char>>)
    requires
        is_order(members, a),
        is_order(members, b),
    ensures
        a == b,
{
    greedy_agrees(members, a, b, a.len() as int);
    assert(a.take(a.len() as int) =~= a);
    assert(b.take(a.len() as int) =~= b);
}

/// Two greedy orders agree as far as both go.
proof fn greedy_agrees(members: Seq<GroupMember>, a: Seq<Seq<char>>, b: Seq<Seq<char>>, k: int)
    requires
        greedy(members, a),
        greedy(members, b),
        0 <= k <= a.len(),
        k <= b.len(),
    ensures
        a.take(k) == b.take(k),
    decreases k,
{
    if k > 0 {
        greedy_agrees(members, a, b, k - 1);
        assert(next_name(members, a.take(k - 1), a[k - 1]));
        assert(next_name(members, b.take(k - 1), b[k - 1]));
        let i = choose|i: int| #[trigger] ready(members, a.take(k - 1), i) && names(members)[i] == a[k - 1];
        let j = choose|j: int| #[trigger] ready(members, b.take(k - 1), j) && names(members)[j] == b[k - 1];
        assert(lex_le(a[k - 1], b[k - 1]));
        assert(lex_le(b[k - 1], a[k - 1]));
        lex_total(a[k - 1], b[k - 1]);
        assert(a.take(k) =~= a.take(k - 1).push(a[k - 1]));
        assert(b.take(k) =~= b.take(k - 1).push(b[k - 1]));
    } else {
        assert(a.take(0) =~= b.take(0));
    }
}

/// The dependency order holds every member exactly once, and each member comes
/// after all that it depends on.
pub proof fn dependencies_come_first(members: Seq<GroupMember>, order: Seq<Seq<char>>)
    requires
        is_order(members, order),
    ensures
        order.no_duplicates(),
        forall|n: Seq<char>| #[trigger] order.contains(n) <==> names(members).contains(n),
        forall|k: int, d: Seq<char>|
            0 <= k < order.len() && #[trigger] depends(member_called(members, order[k]), d) ==> order.take(
                k,
            ).contains(d),
{
    greedy_names(members, order);
    pigeonhole(order, names(members));
    assert forall|n: Seq<char>| #[trigger] order.contains(n) implies names(members).contains(n) by {
        let k = choose|k: int| 0 <= k < order.len() && order[k] == n;
        assert(names(members).contains(order[k]));
    }
    assert forall|k: int, d: Seq<char>|
        0 <= k < order.len() && #[trigger] depends(member_called(members, order[k]), d) implies order.take(
        k,
    ).contains(d) by {
        assert(next_name(members, order.take(k), order[k]));
        let i = choose|i: int| #[trigger] ready(members, order.take(k), i) && names(members)[i] == order[k];
        first_index_found(names(members), order[k]);
        assert(first_index(names(members), order[k]) == i);
    }
}

/// A group that is refused for a cycle has a member in it, and each member named depends on
/// a member named: no order of the group puts dependencies first.
pub proof fn cycle_is_real(members: Seq<GroupMember>, stuck: Vec<String>)
    requires
        planning_error(members, GroupError::Cycle(stuck)),
    ensures
        stuck@.len() > 0,
        forall|n: Seq<char>|
            views(stuck@).contains(n) ==> names(members).contains(n) && exists|d: Seq<char>|
                #[trigger] depends(member_called(members, n), d) && views(stuck@).contains(d),
{
    let named = views(stuck@);
    let order = choose|order: Seq<Seq<char>>| #[trigger] stuck_after(members, order, named);
    greedy_names(members, order);
    if named.len() == 0 {
        assert forall|i: int| 0 <= i < names(members).len() implies order.contains(#[trigger] names(members)[i]) by {
            assert(names(members).contains(names(members)[i]));
            assert(!named.contains(names(members)[i]));
        }
        pigeonhole(names(members), order);
    }
    assert forall|n: Seq<char>| named.contains(n) implies names(members).contains(n) && exists|d: Seq<char>|
        #[trigger] depends(member_called(members, n), d) && named.contains(d) by {
        first_index_found(names(members), n);
        let i = first_index(names(members), n);
        assert(!ready(members, order, i));
        let d = choose|d: Seq<char>| #[trigger] depends(members[i], d) && !order.contains(d);
        assert(depends(member_called(members, n), d));
        let j = choose|j: int| 0 <= j < views(members[i].depends_on@).len() && views(members[i].depends_on@)[j] == d;
        assert(!unknown_at(members, i, j));
        assert(named.contains(d));
    }
}

impl ConsistencyGroup {
    /// The position of the first member whose name an earlier one has.
    fn duplicate_member(&self) -> (r: Option<usize>)
        ensures
            r matches Some(k) ==> first_duplicate(self.members@, k as int),
            r is None ==> names(self.members@).no_duplicates(),
    {
        let ghost all = names(self.members@);
        let mut k: usize = 0;
        while k < self.members.len()
            invariant
                k <= self.members@.len(),
                all == names(self.members@),
                all.take(k as int).no_duplicates(),
            decreases self.members@.len() - k,
        {
            let mut j: usize = 0;
            while j < k
                invariant
                    j <= k < self.members@.len(),
                    all == names(self.members@),
                    all.take(k as int).no_duplicates(),
                    forall|a: int| 0 <= a < j ==> all[a] != all[k as int],
                decreases k - j,
            {
                if same(self.members[j].name.as_str(), self.members[k].name.as_str()) {
                    proof {
                        assert(all.take(k as int)[j as int] == all[k as int]);
                    }
                    return Some(k);
                }
                j = j + 1;
            }
            proof {
                let t = all.take(k as int + 1);
                assert forall|a: int, b: int| 0 <= a < t.len() && 0 <= b < t.len() && a != b implies t[a] != t[b] by {
                    if a < k && b < k {
                        assert(all.take(k as int)[a] == t[a] && all.take(k as int)[b] == t[b]);
                    }
                }
            }
            k = k + 1;
        }
        proof {
            assert(all.take(all.len() as int) =~= all);
        }
        None
    }

    /// The first dependency that names no member: the member's position and the
    /// dependency's within it.
    fn unknown_dependency(&self) -> (r: Option<(usize, usize)>)
        ensures
            r matches Some(p) ==> first_unknown(self.members@, p.0 as int, p.1 as int),
            r is None ==> forall|a: int, b: int| !#[trigger] unknown_at(self.members@, a, b),
    {
        let mut i: usize = 0;
        while i < self.members.len()
            invariant
                i <= self.members@.len(),
                forall|a: int, b: int| #[trigger] unknown_at(self.members@, a, b) ==> a >= i,
            decreases self.members@.len() - i,
        {
            let deps = &self.members[i].depends_on;
            let mut j: usize = 0;
            while j < deps.len()
                invariant
                    i < self.members@.len(),
                    *deps == self.members@[i as int].depends_on,
                    j <= deps@.len(),
                    forall|a: int, b: int| #[trigger]
                        unknown_at(self.members@, a, b) ==> a > i || (a == i && b >= j),
                decreases deps@.len() - j,
            {
                if self.member(deps[j].as_str()).is_none() {
                    proof {
                        assert(unknown_at(self.members@, i as int, j as int));
                    }
                    return Some((i, j));
                }
                j = j + 1;
            }
            i = i + 1;
        }
        None
    }

    /// Whether member `i` is ready after `done`.
    fn is_ready(&self, done: &Vec<String>, i: usize) -> (r: bool)
        requires
            i < self.members@.len(),
        ensures
            r == ready(self.members@, views(done@), i as int),
    {
        if find(done, self.members[i].name.as_str()).is_some() {
            return false;
        }
        let deps = &self.members[i].depends_on;
        let mut j: usize = 0;
        while j < deps.len()
            invariant
                i < self.members@.len(),
                *deps == self.members@[i as int].depends_on,
                j <= deps@.len(),
                forall|a: int| 0 <= a < j ==> views(done@).contains(#[trigger] deps@[a]@),
            decreases deps@.len() - j,
        {
            if find(done, deps[j].as_str()).is_none() {
                proof {
                    assert(views(deps@)[j as int] == deps@[j as int]@);
                    assert(depends(self.members@[i as int], deps@[j as int]@));
                }
                return false;
            }
            j = j + 1;
        }
        proof {
            assert forall|d: Seq<char>| #[trigger] depends(self.members@[i as int], d) implies views(done@).contains(d) by {
                let a = choose|a: int| 0 <= a < views(deps@).len() && views(deps@)[a] == d;
                assert(deps@[a]@ == d);
            }
        }
        true
    }

    /// The position of the first by name of the members ready after `done`.
    fn next_ready(&self, done: &Vec<String>) -> (r: Option<usize>)
        ensures
            r matches Some(i) ==> i < self.members@.len() && next_name(
                self.members@,
                views(done@),
                names(self.members@)[i as int],
            ),
            r is None ==> forall|i: int| !#[trigger] ready(self.members@, views(done@), i),
    {
        let mut best: Option<usize> = None;
        let mut i: usize = 0;
        while i < self.members.len()
            invariant
                i <= self.members@.len(),
                best is None ==> forall|a: int| 0 <= a < i ==> !#[trigger] ready(self.members@, views(done@), a),
                best matches Some(b) ==> b < i && ready(self.members@, views(done@), b as int) && forall|a: int|
                    0 <= a < i && #[trigger] ready(self.members@, views(done@), a) ==> lex_le(
                        names(self.members@)[b as int],
                        names(self.members@)[a],
                    ),
            decreases self.members@.len() - i,
        {
            if self.is_ready(done, i) {
                match best {
                    None => {
                        best = Some(i);
                    },
                    Some(b) => {
                        proof {
                            lex_total(names(self.members@)[i as int], names(self.members@)[b as int]);
                        }
                        if before(self.members[i].name.as_str(), self.members[b].name.as_str()) {
                            proof {
                                assert forall|a: int|
                                    0 <= a < i + 1 && #[trigger] ready(self.members@, views(done@), a) implies lex_le(
                                    names(self.members@)[i as int],
                                    names(self.members@)[a],
                                ) by {
                                    if a < i && names(self.members@)[b as int] != names(self.members@)[a] {
                                        lex_transitive(
                                            names(self.members@)[i as int],
                                            names(self.members@)[b as int],
                                            names(self.members@)[a],
                                        );
                                    }
                                }
                            }
                            best = Some(i);
                        }
                    },
                }
            }
            i = i + 1;
        }
        best
    }

    /// The member names outside `done`, in ascending order.
    fn left_over(&self, done: &Vec<String>) -> (out: Vec<String>)
        ensures
            ascending(views(out@)),
            forall|n: Seq<char>| #[trigger]
                views(out@).contains(n) <==> names(self.members@).contains(n) && !views(done@).contains(n),
    {
        let mut left: StrMap<bool> = StrMap::new();
        let mut i: usize = 0;
        while i < self.members.len()
            invariant
                i <= self.members@.len(),
                forall|n: Seq<char>| #[trigger]
                    left@.contains_key(n) <==> names(self.members@).take(i as int).contains(n) && !views(
                        done@,
                    ).contains(n),
            decreases self.members@.len() - i,
        {
            let ghost was = left@;
            let ghost all = names(self.members@);
            proof {
                assert(all.take(i as int + 1) =~= all.take(i as int).push(all[i as int]));
            }
            if find(done, self.members[i].name.as_str()).is_none() {
                left.insert(self.members[i].name.clone(), true);
            }
            proof {
                assert forall|n: Seq<char>| #[trigger] left@.contains_key(n) <==> all.take(i as int + 1).contains(n)
                    && !views(done@).contains(n) by {
                    if all.take(i as int + 1).contains(n) && n != all[i as int] {
                        let more = all.take(i as int + 1);
                        let a = choose|a: int| 0 <= a < more.len() && more[a] == n;
                        assert(all.take(i as int)[a] == n);
                    }
                    if all.take(i as int).contains(n) {
                        let fewer = all.take(i as int);
                        let a = choose|a: int| 0 <= a < fewer.len() && fewer[a] == n;
                        assert(all.take(i as int + 1)[a] == n);
                    }
                    assert(all.take(i as int + 1)[i as int] == all[i as int]);
                    assert(was.contains_key(n) <==> all.take(i as int).contains(n) && !views(done@).contains(n));
                }
            }
            i = i + 1;
        }
        proof {
            assert(names(self.members@).take(self.members@.len() as int) =~= names(self.members@));
        }
        left.keys()
    }

    /// Topological order of members, dependencies first. Ties are broken by name
    /// so the order is deterministic.
    pub fn dependency_order(&self) -> (r: Result<Vec<String>, GroupError>)
        ensures
            match r {
                Ok(order) => is_order(self.members@, views(order@)),
                Err(e) => planning_error(self.members@, e),
            },
    {
        if self.members.len() == 0 {
            return Err(GroupError::Empty);
        }
        if let Some(k) = self.duplicate_member() {
            return Err(GroupError::DuplicateMember(self.members[k].name.clone()));
        }
        if let Some((i, j)) = self.unknown_dependency() {
            return Err(
                GroupError::UnknownDependency {
                    member: self.members[i].name.clone(),
                    dependency: self.members[i].depends_on[j].clone(),
                },
            );
        }
        let mut order: Vec<String> = Vec::new();
        let mut round: usize = 0;
        while round < self.members.len()
            invariant
                round <= self.members@.len(),
                sound(self.members@),
                order@.len() == round,
                greedy(self.members@, views(order@)),
            decreases self.members@.len() - round,
        {
            match self.next_ready(&order) {
                Some(i) => {
                    proof {
                        greedy_push(self.members@, views(order@), names(self.members@)[i as int]);
                    }
                    let ghost was = views(order@);
                    order.push(self.members[i].name.clone());
                    proof {
                        assert(views(order@) =~= was.push(names(self.members@)[i as int]));
                    }
                },
                None => {
                    let stuck = self.left_over(&order);
                    proof {
                        assert(stuck_after(self.members@, views(order@), views(stuck@)));
                    }
                    return Err(GroupError::Cycle(stuck));
                },
            }
            round = round + 1;
        }
        Ok(order)
    }

    /// How `member` is quiesced: by its own hook, else by a filesystem freeze.
    pub fn quiesce_method(member: &GroupMember) -> (q: QuiesceMethod)
        ensures
            method_fits(*member, q),
    {
        match &member.hook {
            Some(h) => QuiesceMethod::AppNative(h.copy()),
            None => QuiesceMethod::FilesystemFreeze,
        }
    }

    /// The volumes of the members of `order`, member by member.
    fn group_volumes(&self, order: &Vec<String>) -> (volumes: Vec<(String, String)>)
        requires
            forall|k: int| 0 <= k < order@.len() ==> names(self.members@).contains(#[trigger] views(order@)[k]),
        ensures
            pair_views(volumes@) == volumes_of(self.members@, views(order@)),
    {
        let mut volumes: Vec<(String, String)> = Vec::new();
        let mut i: usize = 0;
        while i < order.len()
            invariant
                i <= order@.len(),
                forall|k: int| 0 <= k < order@.len() ==> names(self.members@).contains(#[trigger] views(order@)[k]),
                pair_views(volumes@) == volumes_of(self.members@, views(order@).take(i as int)),
            decreases order@.len() - i,
        {
            proof {
                assert(names(self.members@).contains(views(order@)[i as int]));
            }
            let name = &order[i];
            let m = self.member(name.as_str()).unwrap();
            let ghost start = pair_views(volumes@);
            let ghost own = own_volumes(self.members@, name@);
            let mut j: usize = 0;
            proof {
                assert(own.take(0) =~= Seq::<(Seq<char>, Seq<char>)>::empty());
                assert(start + own.take(0) =~= start);
            }
            while j < m.pvcs.len()
                invariant
                    j <= m.pvcs@.len(),
                    *m == member_called(self.members@, name@),
                    own == own_volumes(self.members@, name@),
                    pair_views(volumes@) == start + own.take(j as int),
                decreases m.pvcs@.len() - j,
            {
                let ghost was = volumes@;
                volumes.push((name.clone(), m.pvcs[j].clone()));
                proof {
                    assert(own.take(j as int + 1) =~= own.take(j as int).push(own[j as int]));
                    assert(pair_views(volumes@) =~= pair_views(was).push((name@, m.pvcs@[j as int]@)));
                    assert(pair_views(volumes@) =~= start + own.take(j as int + 1));
                }
                j = j + 1;
            }
            proof {
                assert(own.take(own.len() as int) =~= own);
                assert(views(order@).take(i as int + 1).drop_last() =~= views(order@).take(i as int));
            }
            i = i + 1;
        }
        proof {
            assert(views(order@).take(order@.len() as int) =~= views(order@));
        }
        volumes
    }

    /// Ordered backup plan: quiesce consumers-first, one group snapshot,
    /// unquiesce dependencies-first.
    pub fn backup_plan(&self) -> (r: Result<Vec<BackupStep>, GroupError>)
        ensures
            match r {
                Ok(steps) => exists|order: Seq<Seq<char>>| #[trigger]
                    is_order(self.members@, order) && is_backup_plan(self.members@, order, steps@),
                Err(e) => planning_error(self.members@, e),
            },
    {
        let order = match self.dependency_order() {
            Ok(order) => order,
            Err(e) => {
                return Err(e);
            },
        };
        let ghost o = views(order@);
        proof {
            greedy_names(self.members@, o);
        }
        let n: usize = order.len();
        let mut steps: Vec<BackupStep> = Vec::new();
        let mut i: usize = 0;
        while i < n
            invariant
                i <= n == order@.len(),
                o == views(order@),
                forall|k: int| 0 <= k < o.len() ==> names(self.members@).contains(#[trigger] o[k]),
                steps@.len() == i,
                forall|k: int| 0 <= k < i ==> quiesces(self.members@, #[trigger] steps@[k], o[n - 1 - k]),
            decreases n - i,
        {
            let name = &order[n - 1 - i];
            proof {
                assert(o[n - 1 - i] == name@);
            }
            let m = self.member(name.as_str()).unwrap();
            steps.push(BackupStep::Quiesce { member: name.clone(), method: Self::quiesce_method(m) });
            i = i + 1;
        }
        let volumes = self.group_volumes(&order);
        let ghost vols = volumes@;
        steps.push(BackupStep::SnapshotGroup { volumes });
        let mut j: usize = 0;
        while j < n
            invariant
                j <= n == order@.len(),
                o == views(order@),
                forall|k: int| 0 <= k < o.len() ==> names(self.members@).contains(#[trigger] o[k]),
                steps@.len() == n + 1 + j,
                forall|k: int| 0 <= k < n ==> quiesces(self.members@, #[trigger] steps@[k], o[n - 1 - k]),
                steps@[n as int] matches BackupStep::SnapshotGroup { volumes } && volumes@ == vols,
                forall|k: int| n < k <= n + j ==> unquiesces(self.members@, #[trigger] steps@[k], o[k - n - 1]),
            decreases n - j,
        {
            let name = &order[j];
            proof {
                assert(o[j as int] == name@);
            }
            let m = self.member(name.as_str()).unwrap();
            steps.push(BackupStep::Unquiesce { member: name.clone(), method: Self::quiesce_method(m) });
            j = j + 1;
        }
        proof {
            assert(is_backup_plan(self.members@, o, steps@));
        }
        Ok(steps)
    }

    /// Ordered restore plan: each member is restored, started and verified before
    /// any member that depends on it.
    pub fn restore_plan(&self) -> (r: Result<Vec<RestoreStep>, GroupError>)
        ensures
            match r {
                Ok(steps) => exists|order: Seq<Seq<char>>| #[trigger]
                    is_order(self.members@, order) && is_restore_plan(self.members@, order, steps@),
                Err(e) => planning_error(self.members@, e),
            },
    {
        let order = match self.dependency_order() {
            Ok(order) => order,
            Err(e) => {
                return Err(e);
            },
        };
        let ghost o = views(order@);
        proof {
            greedy_names(self.members@, o);
        }
        let mut steps: Vec<RestoreStep> = Vec::new();
        let mut i: usize = 0;
        while i < order.len()
            invariant
                i <= order@.len(),
                o == views(order@),
                forall|k: int| 0 <= k < o.len() ==> names(self.members@).contains(#[trigger] o[k]),
                is_restore_plan(self.members@, o.take(i as int), steps@),
            decreases order@.len() - i,
        {
            let name = &order[i];
            proof {
                assert(o[i as int] == name@);
            }
            let m = self.member(name.as_str()).unwrap();
            let ghost was = steps@;
            steps.push(RestoreStep::RestoreVolumes { member: name.clone(), pvcs: copy_strings(&m.pvcs) });
            steps.push(RestoreStep::StartAndAwaitReady { member: name.clone() });
            steps.push(RestoreStep::Verify { member: name.clone() });
            proof {
                let t = o.take(i as int);
                let u = o.take(i as int + 1);
                assert forall|k: int| 0 <= k < u.len() implies {
                    &&& steps@[3 * k] matches RestoreStep::RestoreVolumes { member, pvcs } && member@
                        == #[trigger] u[k] && pvcs@ == member_called(self.members@, u[k]).pvcs@
                    &&& steps@[3 * k + 1] matches RestoreStep::StartAndAwaitReady { member } && member@ == u[k]
                    &&& steps@[3 * k + 2] matches RestoreStep::Verify { member } && member@ == u[k]
                } by {
                    if k < i {
                        assert(t[k] == u[k]);
                        assert(steps@[3 * k] == was[3 * k]);
                        assert(steps@[3 * k + 1] == was[3 * k + 1]);
                        assert(steps@[3 * k + 2] == was[3 * k + 2]);
                    }
                }
            }
            i = i + 1;
        }
        proof {
            assert(o.take(order@.len() as int) =~= o);
        }
        Ok(steps)
    }
}


impl GroupError {
    /// The error in words.
    pub fn message(&self) -> (out: String)
        ensures
            out@ == error_text(*self),
    {
        match self {
            GroupError::Empty => "consistency group has no members".to_owned(),
            GroupError::DuplicateMember(name) => {
                let mut out = "duplicate member '".to_owned();
                out.append(name.as_str());
                out.append("'");
                out
            },
            GroupError::UnknownDependency { member, dependency } => {
                let mut out = "member '".to_owned();
                out.append(member.as_str());
                out.append("' depends on unknown member '");
                out.append(dependency.as_str());
                out.append("'");
                out
            },
            GroupError::Cycle(stuck) => {
                let mut out = "dependency cycle involving: ".to_owned();
                out.append(debug_list(stuck).as_str());
                out
            },
            GroupError::StepFailed { member, reason } => {
                let mut out = "step failed for '".to_owned();
                out.append(member.as_str());
                out.append("': ");
                out.append(reason.as_str());
                out
            },
        }
    }
}

/// The words of each error.
pub open spec fn error_text(e: GroupError) -> Seq<char> {
    match e {
        GroupError::Empty => "consistency group has no members"@,
        GroupError::DuplicateMember(name) => "duplicate member '"@ + name@ + "'"@,
        GroupError::UnknownDependency { member, dependency } => "member '"@ + member@
            + "' depends on unknown member '"@ + dependency@ + "'"@,
        GroupError::Cycle(stuck) => "dependency cycle involving: "@ + list_debug(views(stuck@)),
        GroupError::StepFailed { member, reason } => "step failed for '"@ + member@ + "': "@ + reason@,
    }
}

/// One snapshotted volume within a group capture.
#[derive(Debug, Clone, PartialEq, Eq)]
pub struct VolumeSnapshotRecord {
    pub member: String,
    pub pvc: String,
    pub snapshot_name: String,
    /// When the snapshot became ready, in microseconds since the epoch.
    pub ready_at: i64,
}

/// The result of a group capture.
#[derive(Debug, Clone, PartialEq, Eq)]
pub struct GroupSnapshot {
    pub group: String,
    pub capture_id: String,
    /// Moment all members were quiesced, in microseconds since the epoch; the
    /// group's recovery point.
    pub captured_at: i64,
    pub volumes: Vec<VolumeSnapshotRecord>,
}

/// Label placed on every `VolumeSnapshot` belonging to a group capture.
pub const GROUP_LABEL: &'static str = "stellar.org/consistency-group";

/// Label carrying the group capture identifier shared by all volumes.
pub const CAPTURE_LABEL: &'static str = "stellar.org/consistency-capture";

/// The `snapshot.storage.k8s.io/v1` manifest of one volume of a capture.
pub open spec fn snapshot_manifest(
    group: ConsistencyGroup,
    capture_id: Seq<char>,
    member: Seq<char>,
    pvc: Seq<char>,
    snapshot_class: Seq<char>,
) -> Doc {
    let labels = Doc::Obj(
        Fields::empty().push((GROUP_LABEL@, Doc::Str(group.name@))).push((CAPTURE_LABEL@, Doc::Str(capture_id))).push(
            ("stellar.org/consistency-member"@, Doc::Str(member)),
        ),
    );
    let metadata = Doc::Obj(
        Fields::empty().push(("name"@, Doc::Str(capture_id + "-"@ + pvc))).push(
            ("namespace"@, Doc::Str(group.namespace@)),
        ).push(("labels"@, labels)),
    );
    let source = Doc::Obj(Fields::empty().push(("persistentVolumeClaimName"@, Doc::Str(pvc))));
    let spec_part = Doc::Obj(
        Fields::empty().push(("volumeSnapshotClassName"@, Doc::Str(snapshot_class))).push(("source"@, source)),
    );
    Doc::Obj(
        Fields::empty().push(("apiVersion"@, Doc::Str("snapshot.storage.k8s.io/v1"@))).push(
            ("kind"@, Doc::Str("VolumeSnapshot"@)),
        ).push(("metadata"@, metadata)).push(("spec"@, spec_part)),
    )
}

/// Build a `snapshot.storage.k8s.io/v1` `VolumeSnapshot` for one volume of a
/// group capture. All volumes of one capture share [`CAPTURE_LABEL`].
pub fn volume_snapshot_manifest(
    group: &ConsistencyGroup,
    capture_id: &str,
    member: &str,
    pvc: &str,
    snapshot_class: &str,
) -> (j: Json)
    ensures
        j@ == snapshot_manifest(*group, capture_id@, member@, pvc@, snapshot_class@),
{
    let mut labels = no_fields();
    put_text(&mut labels, GROUP_LABEL, group.name.as_str());
    put_text(&mut labels, CAPTURE_LABEL, capture_id);
    put_text(&mut labels, "stellar.org/consistency-member", member);
    let mut name = capture_id.to_owned();
    name.append("-");
    name.append(pvc);
    let mut metadata = no_fields();
    put_text(&mut metadata, "name", name.as_str());
    put_text(&mut metadata, "namespace", group.namespace.as_str());
    put(&mut metadata, "labels", object(labels));
    let mut source = no_fields();
    put_text(&mut source, "persistentVolumeClaimName", pvc);
    let mut spec_part = no_fields();
    put_text(&mut spec_part, "volumeSnapshotClassName", snapshot_class);
    put(&mut spec_part, "source", object(source));
    let mut fields = no_fields();
    put_text(&mut fields, "apiVersion", "snapshot.storage.k8s.io/v1");
    put_text(&mut fields, "kind", "VolumeSnapshot");
    put(&mut fields, "metadata", object(metadata));
    put(&mut fields, "spec", object(spec_part));
    object(fields)
}

/// The snapshot has the volume `pvc` of `member`.
pub open spec fn has_volume(volumes: Seq<VolumeSnapshotRecord>, member: Seq<char>, pvc: Seq<char>) -> bool {
    exists|i: int|
        0 <= i < volumes.len() && #[trigger] volumes[i].member@ == member && volumes[i].pvc@ == pvc
}

/// The snapshot has every volume of every member.
pub open spec fn covers(members: Seq<GroupMember>, volumes: Seq<VolumeSnapshotRecord>) -> bool {
    forall|i: int, j: int|
        0 <= i < members.len() && 0 <= j < members[i].pvcs@.len() ==> has_volume(
            volumes,
            members[i].name@,
            #[trigger] members[i].pvcs@[j]@,
        )
}

/// Whether the snapshot has the volume `pvc` of `member`.
fn volume_taken(volumes: &Vec<VolumeSnapshotRecord>, member: &str, pvc: &str) -> (r: bool)
    ensures
        r == has_volume(volumes@, member@, pvc@),
{
    let mut i: usize = 0;
    while i < volumes.len()
        invariant
            i <= volumes@.len(),
            forall|k: int| 0 <= k < i ==> !(#[trigger] volumes@[k].member@ == member@ && volumes@[k].pvc@ == pvc@),
        decreases volumes@.len() - i,
    {
        if same(volumes[i].member.as_str(), member) && same(volumes[i].pvc.as_str(), pvc) {
            return true;
        }
        i = i + 1;
    }
    false
}

/// Group-level RPO check: the recovery point is the capture timestamp, and the
/// group only meets RPO when the capture covers every member volume. Instants are
/// in microseconds since the epoch.
pub fn meets_rpo(group: &ConsistencyGroup, snapshot: &GroupSnapshot, now: i64) -> (r: bool)
    ensures
        r == (covers(group.members@, snapshot.volumes@) && now - snapshot.captured_at <= group.rpo_seconds
            * 1_000_000),
{
    let mut i: usize = 0;
    while i < group.members.len()
        invariant
            i <= group.members@.len(),
            forall|a: int, b: int|
                0 <= a < i && 0 <= b < group.members@[a].pvcs@.len() ==> has_volume(
                    snapshot.volumes@,
                    group.members@[a].name@,
                    #[trigger] group.members@[a].pvcs@[b]@,
                ),
        decreases group.members@.len() - i,
    {
        let m = &group.members[i];
        let mut j: usize = 0;
        while j < m.pvcs.len()
            invariant
                i < group.members@.len(),
                *m == group.members@[i as int],
                j <= m.pvcs@.len(),
                forall|b: int|
                    0 <= b < j ==> has_volume(snapshot.volumes@, m.name@, #[trigger] m.pvcs@[b]@),
            decreases m.pvcs@.len() - j,
        {
            if !volume_taken(&snapshot.volumes, m.name.as_str(), m.pvcs[j].as_str()) {
                proof {
                    assert(!has_volume(
                        snapshot.volumes@,
                        group.members@[i as int].name@,
                        group.members@[i as int].pvcs@[j as int]@,
                    ));
                }
                return false;
            }
            j = j + 1;
        }
        i = i + 1;
    }
    now as i128 - snapshot.captured_at as i128 <= group.rpo_seconds as i128 * 1_000_000
}

/// A consistency problem found by the post-restore check.
#[derive(Debug, Clone, PartialEq, Eq)]
pub struct ConsistencyError {
    pub member: String,
    pub reason: String,
}

/// Outcome of a group restore.
#[derive(Debug, Clone, PartialEq, Eq)]
pub struct RestoreReport {
    /// Members in the order they were restored.
    pub restored: Vec<String>,
    pub errors: Vec<ConsistencyError>,
}

impl RestoreReport {
    /// Whether no member failed.
    pub fn is_consistent(&self) -> (r: bool)
        ensures
            r == (self.errors@.len() == 0),
    {
        self.errors.is_empty()
    }
}

/// A group backup under way. The steps of `plan` are carried out one at a time: the
/// caller performs the pending step and reports how it went.
pub struct BackupRun {
    pub group: String,
    pub plan: Vec<BackupStep>,
    /// How many of the leading quiesce steps have succeeded.
    pub quiesced: usize,
    /// Once the forward part is over: how many members are still to be unquiesced.
    pub unwinding: Option<usize>,
    pub result: Result<Vec<VolumeSnapshotRecord>, GroupError>,
}

impl BackupRun {
    /// The number of members in the plan.
    pub open spec fn size(self) -> int {
        (self.plan@.len() - 1) / 2
    }

    /// The plan is a backup plan, and the counters stay inside it.
    pub open spec fn valid(self) -> bool {
        &&& self.plan@.len() == 2 * self.size() + 1
        &&& self.plan@.len() <= usize::MAX
        &&& forall|i: int| 0 <= i < self.size() ==> #[trigger] self.plan@[i] is Quiesce
        &&& self.plan@[self.size()] is SnapshotGroup
        &&& forall|i: int| self.size() < i < self.plan@.len() ==> #[trigger] self.plan@[i] is Unquiesce
        &&& self.quiesced <= self.size()
        &&& self.unwinding matches Some(left) ==> left <= self.quiesced
    }

    /// The step that is to be performed now.
    pub open spec fn due(self) -> Option<BackupStep> {
        match self.unwinding {
            None => Some(self.plan@[self.quiesced as int]),
            Some(left) => if left == 0 {
                None
            } else {
                Some(self.plan@[self.plan@.len() - left])
            },
        }
    }

    /// Plans the backup of `group`.
    pub fn start(group: &ConsistencyGroup) -> (r: Result<BackupRun, GroupError>)
        ensures
            match r {
                Ok(run) => {
                    &&& run.valid()
                    &&& exists|order: Seq<Seq<char>>| #[trigger]
                        is_order(group.members@, order) && is_backup_plan(group.members@, order, run.plan@)
                    &&& run.group@ == group.name@
                    &&& run.quiesced == 0
                    &&& run.unwinding is None
                },
                Err(e) => planning_error(group.members@, e),
            },
    {
        match group.backup_plan() {
            Ok(plan) => {
                let n: usize = plan.len();
                let run = BackupRun {
                    group: group.name.clone(),
                    plan,
                    quiesced: 0,
                    unwinding: None,
                    result: Err(GroupError::Empty),
                };
                proof {
                    let order = choose|order: Seq<Seq<char>>| #[trigger]
                        is_order(group.members@, order) && is_backup_plan(group.members@, order, run.plan@);
                    assert(run.size() == order.len());
                }
                Ok(run)
            },
            Err(e) => Err(e),
        }
    }

    /// The step that is to be performed now; `None` when the run is over.
    pub fn pending(&self) -> (r: Option<&BackupStep>)
        requires
            self.valid(),
        ensures
            match self.due() {
                Some(step) => r matches Some(s) && *s == step,
                None => r is None,
            },
            self.unwinding is None ==> (r matches Some(s) && (*s is Quiesce || *s is SnapshotGroup)),
            self.unwinding is Some && r is Some ==> (r matches Some(s) && *s is Unquiesce),
    {
        match self.unwinding {
            None => Some(&self.plan[self.quiesced]),
            Some(left) => if left == 0 {
                None
            } else {
                Some(&self.plan[self.plan.len() - left])
            },
        }
    }

    /// Reports how the pending quiesce step went. A failure ends the forward part:
    /// what has been quiesced so far is then unquiesced.
    pub fn quiesce_result(&mut self, outcome: Result<(), String>)
        requires
            old(self).valid(),
            old(self).unwinding is None,
            old(self).due() matches Some(s) && s is Quiesce,
        ensures
            final(self).valid(),
            final(self).plan == old(self).plan,
            final(self).group == old(self).group,
            outcome is Ok ==> {
                &&& final(self).quiesced == old(self).quiesced + 1
                &&& final(self).unwinding is None
                &&& final(self).result == old(self).result
            },
            outcome matches Err(reason) ==> {
                &&& final(self).quiesced == old(self).quiesced
                &&& final(self).unwinding == Some(old(self).quiesced)
                &&& final(self).result matches Err(GroupError::StepFailed { member, reason: why }) && why == reason
                    && member@ == old(self).plan@[old(self).quiesced as int]->Quiesce_member@
            },
    {
        match outcome {
            Ok(()) => {
                self.quiesced = self.quiesced + 1;
            },
            Err(reason) => {
                match &self.plan[self.quiesced] {
                    BackupStep::Quiesce { member, .. } => {
                        self.result = Err(GroupError::StepFailed { member: member.clone(), reason });
                    },
                    _ => {},
                }
                self.unwinding = Some(self.quiesced);
            },
        }
    }

    /// Reports how the pending snapshot step went; then every member is unquiesced.
    pub fn snapshot_result(&mut self, outcome: Result<Vec<VolumeSnapshotRecord>, String>)
        requires
            old(self).valid(),
            old(self).unwinding is None,
            old(self).due() matches Some(s) && s is SnapshotGroup,
        ensures
            final(self).valid(),
            final(self).plan == old(self).plan,
            final(self).group == old(self).group,
            final(self).quiesced == old(self).quiesced,
            final(self).quiesced == final(self).size(),
            final(self).unwinding == Some(old(self).quiesced),
            match outcome {
                Ok(records) => final(self).result == Ok::<Vec<VolumeSnapshotRecord>, GroupError>(records),
                Err(reason) => final(self).result matches Err(GroupError::StepFailed { member, reason: why })
                    && member@ == old(self).group@ && why == reason,
            },
    {
        match outcome {
            Ok(records) => {
                self.result = Ok(records);
            },
            Err(reason) => {
                self.result = Err(GroupError::StepFailed { member: self.group.clone(), reason });
            },
        }
        self.unwinding = Some(self.quiesced);
    }

    /// Reports how the pending unquiesce step went. A failure spoils a result that
    /// was good so far; the remaining members are unquiesced all the same.
    pub fn unquiesce_result(&mut self, outcome: Result<(), String>)
        requires
            old(self).valid(),
            old(self).unwinding matches Some(left) && left > 0,
        ensures
            final(self).valid(),
            final(self).plan == old(self).plan,
            final(self).group == old(self).group,
            final(self).quiesced == old(self).quiesced,
            final(self).unwinding == Some((old(self).unwinding->0 - 1) as usize),
            outcome is Ok || old(self).result is Err ==> final(self).result == old(self).result,
            outcome matches Err(reason) ==> old(self).result is Ok ==> {
                final(self).result matches Err(GroupError::StepFailed { member, reason: why }) && why == reason
                    && member@ == old(self).due()->0->Unquiesce_member@
            },
    {
        if let Some(left) = self.unwinding {
            if let Err(reason) = outcome {
                if self.result.is_ok() {
                    match &self.plan[self.plan.len() - left] {
                        BackupStep::Unquiesce { member, .. } => {
                            self.result = Err(GroupError::StepFailed { member: member.clone(), reason });
                        },
                        _ => {},
                    }
                }
            }
            self.unwinding = Some(left - 1);
        }
    }

    /// The result of a run that is over: the capture, or the first failure.
    pub fn finish(self, capture_id: &str, now: i64) -> (r: Result<GroupSnapshot, GroupError>)
        requires
            self.valid(),
            self.due() is None,
        ensures
            match self.result {
                Ok(records) => r matches Ok(s) && s.group@ == self.group@ && s.capture_id@ == capture_id@
                    && s.captured_at == now && s.volumes == records,
                Err(e) => r == Err::<GroupSnapshot, GroupError>(e),
            },
    {
        match self.result {
            Ok(volumes) => Ok(
                GroupSnapshot {
                    group: self.group,
                    capture_id: capture_id.to_owned(),
                    captured_at: now,
                    volumes,
                },
            ),
            Err(e) => Err(e),
        }
    }
}

/// A run that unwinds unquiesces exactly the members that it quiesced: with `left`
/// members to go, the step that is due is for the member of quiesce step `left - 1`,
/// and uses the method that this member is quiesced by.
pub proof fn unwinding_mirrors_quiescing(group: ConsistencyGroup, order: Seq<Seq<char>>, run: BackupRun)
    requires
        is_order(group.members@, order),
        is_backup_plan(group.members@, order, run.plan@),
        run.valid(),
        run.unwinding matches Some(left) && left > 0,
    ensures
        run.plan@[run.unwinding->0 - 1] matches BackupStep::Quiesce { member: a, method: m } && run.due() matches Some(
            BackupStep::Unquiesce { member: b, method: n },
        ) && a@ == b@ && method_fits(member_called(group.members@, a@), m) && method_fits(
            member_called(group.members@, a@),
            n,
        ),
{
    let n = order.len() as int;
    let left = run.unwinding->0 as int;
    assert(run.size() == n);
    assert(quiesces(group.members@, run.plan@[left - 1], order[n - left]));
    let at = run.plan@.len() - left;
    assert(unquiesces(group.members@, run.plan@[at], order[at - n - 1]));
}

/// What is done with a member to restore it, step by step.
#[derive(Debug, Clone, Copy, PartialEq, Eq, Structural)]
pub enum Stage {
    RestoreVolumes,
    StartAndAwaitReady,
    Verify,
}

impl Stage {
    /// The step after this one; `None` after the last.
    pub open spec fn following(self) -> Option<Stage> {
        match self {
            Stage::RestoreVolumes => Some(Stage::StartAndAwaitReady),
            Stage::StartAndAwaitReady => Some(Stage::Verify),
            Stage::Verify => None,
        }
    }

    /// The step after this one; `None` after the last.
    pub fn then_comes(self) -> (r: Option<Stage>)
        ensures
            r == self.following(),
    {
        match self {
            Stage::RestoreVolumes => Some(Stage::StartAndAwaitReady),
            Stage::StartAndAwaitReady => Some(Stage::Verify),
            Stage::Verify => None,
        }
    }
}

/// What a restore does next.
pub enum RestoreAction {
    /// Take this step for the member at this position of the group.
    Run { member: usize, stage: Stage },
    /// The member at this position is not started: its dependency failed.
    Blocked { member: usize, dependency: usize },
    Finished,
}

/// A group restore under way: members of `order` up to `done` are settled, and the next one
/// is at `stage`.
pub struct RestoreRun {
    pub order: Vec<String>,
    pub done: usize,
    pub stage: Stage,
    pub report: RestoreReport,
    /// The members that failed or were not started.
    pub failed: Vec<String>,
}

/// The words for a member whose dependency failed.
pub open spec fn blocked_reason(dependency: Seq<char>) -> Seq<char> {
    "dependency '"@ + dependency + "' failed"@
}

/// The members of the errors of a report.
pub open spec fn error_members(errors: Seq<ConsistencyError>) -> Seq<Seq<char>> {
    errors.map_values(|e: ConsistencyError| e.member@)
}

/// `now` is the run `was` after the step that was due came out like this.
pub open spec fn recorded(was: RestoreRun, now: RestoreRun, outcome: Result<(), String>) -> bool {
    let name = was.order@[was.done as int]@;
    &&& now.order == was.order
    &&& match outcome {
        Ok(()) => {
            &&& now.report.errors == was.report.errors
            &&& now.failed == was.failed
            &&& match was.stage.following() {
                Some(stage) => now.stage == stage && now.done == was.done && now.report.restored
                    == was.report.restored,
                None => now.stage == Stage::RestoreVolumes && now.done == was.done + 1 && views(now.report.restored@)
                    == views(was.report.restored@).push(name),
            }
        },
        Err(reason) => {
            &&& now.stage == Stage::RestoreVolumes
            &&& now.done == was.done + 1
            &&& now.report.restored == was.report.restored
            &&& now.report.errors@.len() == was.report.errors@.len() + 1
            &&& now.report.errors@.drop_last() == was.report.errors@
            &&& now.report.errors@.last().member@ == name
            &&& now.report.errors@.last().reason == reason
            &&& views(now.failed@) == views(was.failed@).push(name)
        },
    }
}

/// A member is restored by three steps that come out well: its volumes are restored, it is
/// started and becomes ready, and it is verified. None is left out, and until the last is
/// taken the report stays as it is.
pub proof fn members_take_every_step(
    s0: RestoreRun,
    s1: RestoreRun,
    s2: RestoreRun,
    s3: RestoreRun,
)
    requires
        s0.stage == Stage::RestoreVolumes,
        recorded(s0, s1, Ok(())),
        recorded(s1, s2, Ok(())),
        recorded(s2, s3, Ok(())),
    ensures
        s1.stage == Stage::StartAndAwaitReady,
        s2.stage == Stage::Verify,
        s1.report == s0.report,
        s2.report == s0.report,
        s3.done == s0.done + 1,
        views(s3.report.restored@) == views(s0.report.restored@).push(s0.order@[s0.done as int]@),
        s3.report.errors == s0.report.errors,
{
}

/// The first step of a member that fails settles it: nothing more is done with the member,
/// and it is not reported as restored.
pub proof fn failed_steps_settle_a_member(was: RestoreRun, now: RestoreRun, reason: String)
    requires
        recorded(was, now, Err(reason)),
    ensures
        now.done == was.done + 1,
        now.stage == Stage::RestoreVolumes,
        now.report.restored == was.report.restored,
        views(now.failed@).contains(was.order@[was.done as int]@),
{
    assert(views(now.failed@).last() == was.order@[was.done as int]@);
}

impl RestoreRun {
    /// Every settled member is restored or has an error, and those with an error are
    /// the failed ones.
    pub open spec fn valid(self, group: ConsistencyGroup) -> bool {
        &&& is_order(group.members@, views(self.order@))
        &&& self.done <= self.order@.len()
        &&& error_members(self.report.errors@) == views(self.failed@)
        &&& self.report.restored@.len() + self.report.errors@.len() == self.done
        &&& forall|k: int|
            0 <= k < self.done ==> (views(self.report.restored@).contains(#[trigger] views(self.order@)[k])
                || views(self.failed@).contains(views(self.order@)[k]))
    }

    /// Orders the members of `group`.
    pub fn start(group: &ConsistencyGroup) -> (r: Result<RestoreRun, GroupError>)
        ensures
            match r {
                Ok(run) => run.valid(*group) && run.done == 0 && run.stage == Stage::RestoreVolumes
                    && run.report.restored@.len() == 0 && run.report.errors@.len() == 0,
                Err(e) => planning_error(group.members@, e),
            },
    {
        match group.dependency_order() {
            Ok(order) => {
                let run = RestoreRun {
                    order,
                    done: 0,
                    stage: Stage::RestoreVolumes,
                    report: RestoreReport { restored: Vec::new(), errors: Vec::new() },
                    failed: Vec::new(),
                };
                proof {
                    assert(error_members(run.report.errors@) =~= views(run.failed@));
                }
                Ok(run)
            },
            Err(e) => Err(e),
        }
    }

    /// What comes next: a member with a failed dependency is blocked by the first such
    /// dependency it lists; for any other member the step that it is at is taken.
    pub fn next(&self, group: &ConsistencyGroup) -> (a: RestoreAction)
        requires
            self.valid(*group),
        ensures
            match a {
                RestoreAction::Finished => self.done == self.order@.len(),
                RestoreAction::Run { member, stage } => {
                    &&& stage == self.stage
                    &&& self.done < self.order@.len()
                    &&& member < group.members@.len()
                    &&& group.members@[member as int].name@ == self.order@[self.done as int]@
                    &&& forall|d: Seq<char>| #[trigger]
                        depends(group.members@[member as int], d) ==> !views(self.failed@).contains(d)
                },
                RestoreAction::Blocked { member, dependency } => {
                    &&& self.done < self.order@.len()
                    &&& member < group.members@.len()
                    &&& group.members@[member as int].name@ == self.order@[self.done as int]@
                    &&& dependency < group.members@[member as int].depends_on@.len()
                    &&& views(self.failed@).contains(
                        group.members@[member as int].depends_on@[dependency as int]@,
                    )
                    &&& forall|j: int|
                        0 <= j < dependency ==> !views(self.failed@).contains(
                            #[trigger] group.members@[member as int].depends_on@[j]@,
                        )
                },
            },
    {
        if self.done == self.order.len() {
            return RestoreAction::Finished;
        }
        let mut i: usize = 0;
        proof {
            greedy_names(group.members@, views(self.order@));
            assert(names(group.members@).contains(views(self.order@)[self.done as int]));
        }
        while i < group.members.len()
            invariant
                i <= group.members@.len(),
                self.done < self.order@.len(),
                names(group.members@).contains(self.order@[self.done as int]@),
                forall|k: int| 0 <= k < i ==> names(group.members@)[k] != self.order@[self.done as int]@,
            decreases group.members@.len() - i,
        {
            if same(group.members[i].name.as_str(), self.order[self.done].as_str()) {
                let deps = &group.members[i].depends_on;
                let mut j: usize = 0;
                while j < deps.len()
                    invariant
                        i < group.members@.len(),
                        *deps == group.members@[i as int].depends_on,
                        j <= deps@.len(),
                        self.done < self.order@.len(),
                        group.members@[i as int].name@ == self.order@[self.done as int]@,
                        forall|k: int| 0 <= k < j ==> !views(self.failed@).contains(#[trigger] deps@[k]@),
                    decreases deps@.len() - j,
                {
                    if find(&self.failed, deps[j].as_str()).is_some() {
                        return RestoreAction::Blocked { member: i, dependency: j };
                    }
                    j = j + 1;
                }
                proof {
                    assert forall|d: Seq<char>| #[trigger] depends(group.members@[i as int], d) implies !views(
                        self.failed@,
                    ).contains(d) by {
                        let k = choose|k: int| 0 <= k < views(deps@).len() && views(deps@)[k] == d;
                        assert(deps@[k]@ == d);
                    }
                }
                return RestoreAction::Run { member: i, stage: self.stage };
            }
            i = i + 1;
        }
        RestoreAction::Finished
    }

    /// Records how the step that is due came out. The next step follows one that came out
    /// well; after the last one the member is restored. A step that failed settles the member
    /// as failed, with its reason.
    pub fn record(&mut self, outcome: Result<(), String>)
        requires
            old(self).done < old(self).order@.len(),
        ensures
            recorded(*old(self), *final(self), outcome),
            forall|group: ConsistencyGroup| #[trigger] old(self).valid(group) ==> final(self).valid(group),
    {
        let total: usize = self.order.len();
        let name = self.order[self.done].clone();
        let ghost was = *self;
        match outcome {
            Ok(()) => {
                if let Some(stage) = self.stage.then_comes() {
                    self.stage = stage;
                    proof {
                        assert forall|group: ConsistencyGroup| #[trigger] was.valid(group) implies self.valid(
                            group,
                        ) by {
                            let o = views(self.order@);
                            assert forall|k: int| 0 <= k < self.done implies (views(
                                self.report.restored@,
                            ).contains(#[trigger] o[k]) || views(self.failed@).contains(o[k])) by {
                                assert(views(was.order@)[k] == o[k]);
                            }
                        }
                    }
                    return ;
                }
                self.report.restored.push(name);
                proof {
                    assert(views(self.report.restored@) =~= views(was.report.restored@).push(name@));
                }
            },
            Err(reason) => {
                self.report.errors.push(ConsistencyError { member: name.clone(), reason });
                self.failed.push(name);
                proof {
                    assert(self.report.errors@.drop_last() =~= was.report.errors@);
                    assert(views(self.failed@) =~= views(was.failed@).push(name@));
                    assert(error_members(self.report.errors@) =~= error_members(was.report.errors@).push(name@));
                }
            },
        }
        assert(self.done < total);
        self.done = self.done + 1;
        self.stage = Stage::RestoreVolumes;
        proof {
            assert forall|group: ConsistencyGroup| #[trigger] was.valid(group) implies self.valid(group) by {
                let o = views(self.order@);
                assert forall|k: int| 0 <= k < self.done implies (views(self.report.restored@).contains(
                    #[trigger] o[k],
                ) || views(self.failed@).contains(o[k])) by {
                    if k < was.done {
                        if views(was.report.restored@).contains(o[k]) {
                            kept(views(was.report.restored@), name@, o[k]);
                        } else {
                            kept(views(was.failed@), name@, o[k]);
                        }
                    } else {
                        assert(views(was.report.restored@).push(name@).last() == o[k]);
                        assert(views(was.failed@).push(name@).last() == o[k]);
                    }
                }
            }
        }
    }

    /// Settles the member that is due as not started because `dependency` failed.
    pub fn skip(&mut self, dependency: &str)
        requires
            old(self).done < old(self).order@.len(),
        ensures
            final(self).order == old(self).order,
            final(self).done == old(self).done + 1,
            final(self).stage == Stage::RestoreVolumes,
            final(self).report.restored == old(self).report.restored,
            final(self).report.errors@.len() == old(self).report.errors@.len() + 1,
            final(self).report.errors@.drop_last() == old(self).report.errors@,
            final(self).report.errors@.last().member@ == old(self).order@[old(self).done as int]@,
            final(self).report.errors@.last().reason@ == blocked_reason(dependency@),
            views(final(self).failed@) == views(old(self).failed@).push(old(self).order@[old(self).done as int]@),
            forall|group: ConsistencyGroup| #[trigger] old(self).valid(group) ==> final(self).valid(group),
    {
        let mut reason = "dependency '".to_owned();
        reason.append(dependency);
        reason.append("' failed");
        self.record(Err(reason));
    }
}

/// A group is reported healthy only when every member was restored and verified: a restore
/// that is over and has no error restored each member of the group.
pub proof fn healthy_groups_are_restored(group: ConsistencyGroup, run: RestoreRun, member: int)
    requires
        run.valid(group),
        run.done == run.order@.len(),
        run.report.errors@.len() == 0,
        0 <= member < group.members@.len(),
    ensures
        views(run.report.restored@).contains(group.members@[member].name@),
{
    let name = group.members@[member].name@;
    let order = views(run.order@);
    assert(names(group.members@)[member] == name);
    dependencies_come_first(group.members@, order);
    assert(order.contains(name));
    let k = choose|k: int| 0 <= k < order.len() && order[k] == name;
    assert(error_members(run.report.errors@).len() == 0);
    assert(!views(run.failed@).contains(name));
    assert(views(run.report.restored@).contains(order[k]) || views(run.failed@).contains(order[k]));
}

/// What a sequence holds it still holds with one more element.
proof fn kept(s: Seq<Seq<char>>, x: Seq<char>, y: Seq<char>)
    requires
        s.contains(y),
    ensures
        s.push(x).contains(y),
{
    let i = choose|i: int| 0 <= i < s.len() && s[i] == y;
    assert(s.push(x)[i] == y);
}

/// Every member is quiesced before the group is captured and released after it, in the opposite
/// order: what depends on another stops first and starts last.
pub proof fn members_stop_before_the_capture(
    members: Seq<GroupMember>,
    order: Seq<Seq<char>>,
    steps: Seq<BackupStep>,
    k: int,
)
    requires
        is_order(members, order),
        is_backup_plan(members, order, steps),
        0 <= k < members.len(),
    ensures
        steps.len() == 2 * members.len() + 1,
        steps[members.len() as int] is SnapshotGroup,
        exists|i: int|
            0 <= i < members.len() && (#[trigger] steps[i] matches BackupStep::Quiesce { member, method } && member@
                == members[k].name@ && (members[k].hook is None <==> method is FilesystemFreeze)),
        exists|i: int|
            members.len() < i < steps.len() && (#[trigger] steps[i] matches BackupStep::Unquiesce { member, method }
                && member@ == members[k].name@ && (members[k].hook is None <==> method is FilesystemFreeze)),
{
    dependencies_come_first(members, order);
    let name = members[k].name@;
    let n = order.len() as int;
    assert(names(members)[k] == name);
    assert(order.contains(name));
    let p = order.index_of(name);
    assert(order[p] == name);
    first_index_found(names(members), name);
    assert(names(members)[first_index(names(members), name)] == names(members)[k]);
    assert(member_called(members, name) == members[k]);
    assert(quiesces(members, steps[n - 1 - p], order[n - 1 - (n - 1 - p)]));
    assert(unquiesces(members, steps[n + 1 + p], order[n + 1 + p - n - 1]));
}

/// Every volume of every member is captured, under its member's name.
pub proof fn every_volume_is_captured(
    members: Seq<GroupMember>,
    order: Seq<Seq<char>>,
    steps: Seq<BackupStep>,
    k: int,
    j: int,
)
    requires
        is_order(members, order),
        is_backup_plan(members, order, steps),
        0 <= k < members.len(),
        0 <= j < members[k].pvcs@.len(),
    ensures
        steps[members.len() as int] matches BackupStep::SnapshotGroup { volumes } && exists|v: int|
            0 <= v < volumes@.len() && (#[trigger] volumes@[v]).0@ == members[k].name@ && volumes@[v].1@
                == members[k].pvcs@[j]@,
{
    dependencies_come_first(members, order);
    let name = members[k].name@;
    assert(names(members)[k] == name);
    assert(order.contains(name));
    first_index_found(names(members), name);
    assert(names(members)[first_index(names(members), name)] == names(members)[k]);
    assert(member_called(members, name) == members[k]);
    let p = order.index_of(name);
    volumes_are_taken_in(members, order, p, j);
    let volumes = steps[members.len() as int]->volumes;
    let pairs = pair_views(volumes@);
    let v = choose|v: int| 0 <= v < pairs.len() && #[trigger] pairs[v] == (name, members[k].pvcs@[j]@);
    assert(pairs[v] == (volumes@[v].0@, volumes@[v].1@));
}

/// The volumes of a member in the order are among those of the order.
proof fn volumes_are_taken_in(members: Seq<GroupMember>, order: Seq<Seq<char>>, p: int, j: int)
    requires
        0 <= p < order.len(),
        0 <= j < member_called(members, order[p]).pvcs@.len(),
    ensures
        exists|v: int|
            0 <= v < volumes_of(members, order).len() && #[trigger] volumes_of(members, order)[v] == (
                order[p],
                member_called(members, order[p]).pvcs@[j]@,
            ),
    decreases order.len(),
{
    let front = order.drop_last();
    let before = volumes_of(members, front);
    let own = own_volumes(members, order.last());
    let all = volumes_of(members, order);
    assert(all == before + own);
    if p < front.len() {
        assert(front[p] == order[p]);
        volumes_are_taken_in(members, front, p, j);
        let v = choose|v: int|
            0 <= v < before.len() && #[trigger] before[v] == (
                order[p],
                member_called(members, order[p]).pvcs@[j]@,
            );
        assert(all[v] == before[v]);
    } else {
        assert(order.last() == order[p]);
        assert(own[j] == (order[p], member_called(members, order[p]).pvcs@[j]@));
        assert(all[before.len() + j] == own[j]);
    }
}

/// A restore takes each member up whole: its volumes, then its start, then its check, and what a
/// member depends on is checked before its own volumes are touched.
pub proof fn dependencies_are_restored_first(
    members: Seq<GroupMember>,
    order: Seq<Seq<char>>,
    steps: Seq<RestoreStep>,
    k: int,
    d: Seq<char>,
)
    requires
        is_order(members, order),
        is_restore_plan(members, order, steps),
        0 <= k < order.len(),
        depends(member_called(members, order[k]), d),
    ensures
        steps.len() == 3 * members.len(),
        steps[3 * k] matches RestoreStep::RestoreVolumes { member, pvcs } && member@ == order[k],
        steps[3 * k + 1] matches RestoreStep::StartAndAwaitReady { member } && member@ == order[k],
        steps[3 * k + 2] matches RestoreStep::Verify { member } && member@ == order[k],
        exists|i: int|
            0 <= i < 3 * k && (#[trigger] steps[i] matches RestoreStep::Verify { member } && member@ == d),
{
    dependencies_come_first(members, order);
    let before = order.take(k);
    assert(before.contains(d));
    let p = before.index_of(d);
    assert(order[p] == d);
    assert(steps[3 * p + 2] matches RestoreStep::Verify { member } && member@ == order[p]);
}

/// A hook of its own is used where a member has one, both to stop and to release it; else its file
/// system is frozen.
pub proof fn hooks_are_used_where_given(m: GroupMember, q: QuiesceMethod)
    requires
        method_fits(m, q),
    ensures
        m.hook is None <==> q is FilesystemFreeze,
        m.hook is Some ==> q->AppNative_0.quiesce@ == (m.hook->0).quiesce@ && q->AppNative_0.unquiesce@ == (
        m.hook->0).unquiesce@,
{
}

/// A group can be planned for where it has members, no two of the same name, and no dependency on
/// anything outside it.
pub proof fn sound_groups_are_closed(members: Seq<GroupMember>)
    ensures
        sound(members) <==> members.len() > 0 && (forall|a: int, b: int|
            0 <= a < b < members.len() ==> (#[trigger] members[a]).name@ != (#[trigger] members[b]).name@) && (
        forall|i: int, j: int|
            0 <= i < members.len() && 0 <= j < members[i].depends_on@.len() ==> exists|k: int|
                0 <= k < members.len() && (#[trigger] members[k]).name@ == (
                #[trigger] members[i].depends_on@[j])@),
{
    let all = names(members);
    let apart = forall|a: int, b: int|
        0 <= a < b < members.len() ==> (#[trigger] members[a]).name@ != (#[trigger] members[b]).name@;
    let known = forall|i: int, j: int|
        0 <= i < members.len() && 0 <= j < members[i].depends_on@.len() ==> exists|k: int|
            0 <= k < members.len() && (#[trigger] members[k]).name@ == (#[trigger] members[i].depends_on@[j])@;
    if apart {
        assert forall|a: int, b: int| 0 <= a < all.len() && 0 <= b < all.len() && a != b implies all[a] != all[b] by {
            if a < b {
                assert(members[a].name@ != members[b].name@);
            } else {
                assert(members[b].name@ != members[a].name@);
            }
        }
    }
    if all.no_duplicates() {
        assert forall|a: int, b: int| 0 <= a < b < members.len() implies (#[trigger] members[a]).name@ != (
        #[trigger] members[b]).name@ by {
            assert(all[a] != all[b]);
        }
    }
    if known {
        assert forall|i: int, j: int| !#[trigger] unknown_at(members, i, j) by {
            if 0 <= i < members.len() && 0 <= j < members[i].depends_on@.len() {
                let d = members[i].depends_on@[j];
                let k = choose|k: int| 0 <= k < members.len() && (#[trigger] members[k]).name@ == d@;
                assert(all[k] == d@);
            }
        }
    }
    if forall|a: int, b: int| !#[trigger] unknown_at(members, a, b) {
        assert forall|i: int, j: int|
            0 <= i < members.len() && 0 <= j < members[i].depends_on@.len() implies exists|k: int|
            0 <= k < members.len() && (#[trigger] members[k]).name@ == (#[trigger] members[i].depends_on@[j])@ by {
            assert(!unknown_at(members, i, j));
            let d = members[i].depends_on@[j]@;
            assert(all.contains(d));
            let k = all.index_of(d);
            assert(members[k].name@ == d);
        }
    }
}

/// A snapshot covers a group where every volume of every member is among its records.
pub proof fn coverage_misses_no_volume(members: Seq<GroupMember>, volumes: Seq<VolumeSnapshotRecord>, k: int, j: int)
    requires
        0 <= k < members.len(),
        0 <= j < members[k].pvcs@.len(),
        forall|v: int|
            0 <= v < volumes.len() ==> (#[trigger] volumes[v]).member@ != members[k].name@ || volumes[v].pvc@
                != members[k].pvcs@[j]@,
    ensures
        !covers(members, volumes),
{
    assert(!has_volume(volumes, members[k].name@, members[k].pvcs@[j]@));
}

/// A snapshot that has a record of every volume of every member covers the group.
pub proof fn full_snapshots_cover(members: Seq<GroupMember>, volumes: Seq<VolumeSnapshotRecord>)
    requires
        forall|k: int, j: int|
            0 <= k < members.len() && 0 <= j < members[k].pvcs@.len() ==> exists|v: int|
                0 <= v < volumes.len() && (#[trigger] volumes[v]).member@ == members[k].name@ && volumes[v].pvc@ == (
                #[trigger] members[k].pvcs@[j])@,
    ensures
        covers(members, volumes),
{
    assert forall|i: int, j: int| 0 <= i < members.len() && 0 <= j < members[i].pvcs@.len() implies has_volume(
        volumes,
        members[i].name@,
        #[trigger] members[i].pvcs@[j]@,
    ) by {
        let p = members[i].pvcs@[j];
        let v = choose|v: int|
            0 <= v < volumes.len() && (#[trigger] volumes[v]).member@ == members[i].name@ && volumes[v].pvc@ == p@;
        assert(volumes[v].member@ == members[i].name@);
    }
}

/// The manifest of a snapshot names the volume it is taken of, the class it is taken with, and the
/// group, capture and member that it belongs to.
#[verifier::rlimit(40)]
pub proof fn manifests_name_their_volume(
    group: ConsistencyGroup,
    capture_id: Seq<char>,
    member: Seq<char>,
    pvc: Seq<char>,
    class: Seq<char>,
)
    ensures
        snapshot_manifest(group, capture_id, member, pvc, class) matches Doc::Obj(top) && top.len() == 4 && top[0] == (
            "apiVersion"@,
            Doc::Str("snapshot.storage.k8s.io/v1"@),
        ) && top[1] == ("kind"@, Doc::Str("VolumeSnapshot"@)) && top[2].0 == "metadata"@ && top[3].0 == "spec"@ && (
        top[2].1 matches Doc::Obj(meta) && meta[0] == ("name"@, Doc::Str(capture_id + "-"@ + pvc)) && meta[1] == (
            "namespace"@,
            Doc::Str(group.namespace@),
        ) && meta[2].0 == "labels"@ && (meta[2].1 matches Doc::Obj(labels) && labels[0] == (
            "stellar.org/consistency-group"@,
            Doc::Str(group.name@),
        ) && labels[1] == ("stellar.org/consistency-capture"@, Doc::Str(capture_id)) && labels[2] == (
            "stellar.org/consistency-member"@,
            Doc::Str(member),
        ))) && (top[3].1 matches Doc::Obj(body) && body[0] == ("volumeSnapshotClassName"@, Doc::Str(class)) && body[1]
            == ("source"@, Doc::Obj(Fields::empty().push(("persistentVolumeClaimName"@, Doc::Str(pvc)))))),
{
}

/// A run of a backup has as many steps due as it still has to take: while it goes forward the next
/// one of its plan, then a release for each member that was stopped, latest first.
pub proof fn stopped_members_are_released(run: BackupRun)
    requires
        run.valid(),
    ensures
        run.unwinding is None && run.quiesced < run.size() ==> run.due() is Some && run.due()->0 is Quiesce,
        run.unwinding is None && run.quiesced == run.size() ==> run.due() is Some && run.due()->0 is SnapshotGroup,
        run.unwinding is Some && run.unwinding->0 > 0 ==> run.due() is Some && run.due()->0 is Unquiesce,
        run.unwinding == Some(0usize) ==> run.due() is None,
        run.unwinding is Some && run.unwinding->0 > 0 ==> run.due() == Some(
            run.plan@[run.plan@.len() - run.unwinding->0],
        ),
{
}

/// What went wrong is told by the member it concerns.
pub proof fn errors_name_their_member(name: String, dependency: String, reason: String)
    ensures
        error_text(GroupError::DuplicateMember(name)) == "duplicate member '"@ + name@ + "'"@,
        error_text(GroupError::UnknownDependency { member: name, dependency }) == "member '"@ + name@
            + "' depends on unknown member '"@ + dependency@ + "'"@,
        error_text(GroupError::StepFailed { member: name, reason }) == "step failed for '"@ + name@ + "': "@ + reason@,
        error_text(GroupError::Empty) == "consistency group has no members"@,
        blocked_reason(dependency@) == "dependency '"@ + dependency@ + "' failed"@,
{
}

/// A group that cannot be planned for is told why: the name that comes twice, or the dependency that
/// is not in the group.
pub proof fn planning_errors_are_true(members: Seq<GroupMember>, e: GroupError)
    requires
        planning_error(members, e),
    ensures
        e is Empty <==> members.len() == 0,
        e matches GroupError::DuplicateMember(n) ==> exists|a: int, b: int|
            0 <= a < b < members.len() && (#[trigger] members[a]).name@ == n@ && (#[trigger] members[b]).name@ == n@,
        e matches GroupError::UnknownDependency { member, dependency } ==> exists|i: int, j: int|
            0 <= i < members.len() && 0 <= j < members[i].depends_on@.len() && members[i].name@ == member@ && (
            #[trigger] members[i].depends_on@[j])@ == dependency@ && forall|k: int|
                0 <= k < members.len() ==> (#[trigger] members[k]).name@ != dependency@,
        !(e is StepFailed),
{
    let all = names(members);
    match e {
        GroupError::DuplicateMember(n) => {
            let b = choose|b: int| #[trigger] first_duplicate(members, b) && n@ == all[b];
            let front = all.take(b);
            let a = front.index_of(all[b]);
            assert(front[a] == all[a]);
            assert(members[a].name@ == n@ && members[b].name@ == n@);
        },
        GroupError::UnknownDependency { member, dependency } => {
            let (i, j) = choose|i: int, j: int| #[trigger]
                first_unknown(members, i, j) && member@ == all[i] && dependency@ == members[i].depends_on@[j]@;
            assert forall|k: int| 0 <= k < members.len() implies (#[trigger] members[k]).name@ != dependency@ by {
                assert(all[k] == members[k].name@);
            }
            assert(members[i].depends_on@[j]@ == dependency@);
        },
        GroupError::Cycle(stuck) => {},
        _ => {},
    }
}

} // verus!
