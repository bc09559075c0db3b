//! A map from strings to values, kept sorted by key.

use vstd::prelude::*;
#[allow(unused_imports)]
use vstd::string::*;
#[allow(unused_imports)]
use crate::text::{before, lex_irreflexive, lex_lt, lex_total, lex_transitive, same, views};

verus! {

/// The keys of a sequence of entries.
pub open spec fn keys_of<V>(entries: Seq<(String, V)>) -> Seq<Seq<char>> {
    Seq::new(entries.len(), |i: int| entries[i].0@)
}

/// The keys ascend strictly.
pub open spec fn ascending(keys: Seq<Seq<char>>) -> bool {
    forall|i: int, j: int| 0 <= i < j < keys.len() ==> lex_lt(#[trigger] keys[i], #[trigger] keys[j])
}

/// The map that a sequence of entries stands for.
pub open spec fn map_of<V>(entries: Seq<(String, V)>) -> Map<Seq<char>, V> {
    Map::new(
        |k: Seq<char>| keys_of(entries).contains(k),
        |k: Seq<char>| entries[keys_of(entries).index_of(k)].1,
    )
}

/// A map with string keys whose entries are held in ascending key order.
#[derive(Debug)]
pub struct StrMap<V> {
    entries: Vec<(String, V)>,
}

impl<V> View for StrMap<V> {
    type V = Map<Seq<char>, V>;

    closed spec fn view(&self) -> Map<Seq<char>, V> {
        map_of(self.entries@)
    }
}

/// Ascending keys are pairwise different, so each names one entry.
pub proof fn ascending_index<V>(entries: Seq<(String, V)>, i: int)
    requires
        ascending(keys_of(entries)),
        0 <= i < entries.len(),
    ensures
        keys_of(entries).index_of(entries[i].0@) == i,
        map_of(entries).contains_key(entries[i].0@),
        map_of(entries)[entries[i].0@] == entries[i].1,
{
    let keys = keys_of(entries);
    let k = entries[i].0@;
    assert(keys[i] == k);
    let j = keys.index_of(k);
    assert(0 <= j < keys.len() && keys[j] == k);
    lex_irreflexive(k);
    assert(i == j);
}

/// The keys of ascending entries are as many as the entries.
pub proof fn ascending_len<V>(entries: Seq<(String, V)>)
    requires
        ascending(keys_of(entries)),
    ensures
        map_of(entries).dom().finite(),
        map_of(entries).dom().len() == entries.len(),
{
    let keys = keys_of(entries);
    assert forall|i: int, j: int| 0 <= i < j < keys.len() implies keys[i] != keys[j] by {
        lex_irreflexive(keys[i]);
    }
    keys.unique_seq_to_set();
    assert(map_of(entries).dom() =~= keys.to_set());
}

impl<V> StrMap<V> {
    #[verifier::type_invariant]
    spec fn well_formed(self) -> bool {
        ascending(keys_of(self.entries@))
    }

    /// The entries in ascending key order.
    pub closed spec fn pairs(self) -> Seq<(String, V)> {
        self.entries@
    }

    /// The empty map.
    pub fn new() -> (m: Self)
        ensures
            m@ == Map::<Seq<char>, V>::empty(),
            m.pairs() == Seq::<(String, V)>::empty(),
    {
        let m = StrMap { entries: Vec::new() };
        proof {
            assert(m@ =~= Map::<Seq<char>, V>::empty());
        }
        m
    }

    /// What holds of every map: its entries ascend and its view is theirs.
    pub fn inspect(&self)
        ensures
            ascending(keys_of(self.pairs())),
            self@ == map_of(self.pairs()),
            self@.dom().finite(),
            self@.dom().len() == self.pairs().len(),
    {
        proof {
            use_type_invariant(self);
            ascending_len(self.entries@);
        }
    }

    /// The number of entries.
    pub fn len(&self) -> (n: usize)
        ensures
            n == self.pairs().len(),
            self@.dom().finite(),
            n == self@.dom().len(),
            ascending(keys_of(self.pairs())),
            self@ == map_of(self.pairs()),
    {
        self.inspect();
        self.entries.len()
    }

    /// Whether there is no entry.
    pub fn is_empty(&self) -> (r: bool)
        ensures
            r == (self@ == Map::<Seq<char>, V>::empty()),
            r == (self.pairs().len() == 0),
    {
        proof {
            use_type_invariant(self);
            if self.entries@.len() > 0 {
                ascending_index(self.entries@, 0);
            } else {
                assert(self@ =~= Map::<Seq<char>, V>::empty());
            }
        }
        self.entries.len() == 0
    }

    /// The key of entry `i`, in ascending order.
    pub fn key_at(&self, i: usize) -> (k: &String)
        requires
            i < self.pairs().len(),
        ensures
            *k == self.pairs()[i as int].0,
            self@.contains_key(k@),
            self@[k@] == self.pairs()[i as int].1,
    {
        proof {
            use_type_invariant(self);
            ascending_index(self.entries@, i as int);
        }
        &self.entries[i].0
    }

    /// The value of entry `i`, in ascending key order.
    pub fn value_at(&self, i: usize) -> (v: &V)
        requires
            i < self.pairs().len(),
        ensures
            *v == self.pairs()[i as int].1,
    {
        &self.entries[i].1
    }

    /// The keys in ascending order.
    pub fn keys(&self) -> (out: Vec<String>)
        ensures
            views(out@) == keys_of(self.pairs()),
            ascending(views(out@)),
            forall|k: Seq<char>| #[trigger] views(out@).contains(k) <==> self@.contains_key(k),
    {
        let n: usize = self.len();
        let mut out: Vec<String> = Vec::new();
        let mut k: usize = 0;
        while k < n
            invariant
                k <= n == self.pairs().len(),
                views(out@) == keys_of(self.pairs()).take(k as int),
            decreases n - k,
        {
            let ghost was = out@;
            out.push(self.key_at(k).clone());
            proof {
                let all = keys_of(self.pairs());
                assert(views(out@) =~= views(was).push(all[k as int]));
                assert(all.take(k as int + 1) =~= all.take(k as int).push(all[k as int]));
            }
            k = k + 1;
        }
        proof {
            assert(keys_of(self.pairs()).take(n as int) =~= keys_of(self.pairs()));
        }
        out
    }

    /// The first position whose key is not before `key`.
    fn slot(&self, key: &str) -> (i: usize)
        ensures
            i <= self.entries@.len(),
            forall|j: int| 0 <= j < i ==> lex_lt(#[trigger] keys_of(self.entries@)[j], key@),
            forall|j: int| i <= j < self.entries@.len() ==> !lex_lt(#[trigger] keys_of(self.entries@)[j], key@),
            i < self.entries@.len() && self.entries@[i as int].0@ == key@ <==> self@.contains_key(key@),
    {
        proof {
            use_type_invariant(self);
        }
        let ghost all = keys_of(self.entries@);
        let mut i: usize = 0;
        let mut end: usize = self.entries.len();
        while i < end
            invariant
                i <= end <= self.entries@.len(),
                all == keys_of(self.entries@),
                ascending(all),
                forall|j: int| 0 <= j < i ==> lex_lt(#[trigger] all[j], key@),
                forall|j: int| end <= j < all.len() ==> !lex_lt(#[trigger] all[j], key@),
            decreases end - i,
        {
            let mid: usize = i + (end - i) / 2;
            if before(self.entries[mid].0.as_str(), key) {
                proof {
                    assert forall|j: int| 0 <= j < mid + 1 implies lex_lt(#[trigger] all[j], key@) by {
                        if j < mid {
                            lex_transitive(all[j], all[mid as int], key@);
                        }
                    }
                }
                i = mid + 1;
            } else {
                proof {
                    assert forall|j: int| mid <= j < all.len() implies !lex_lt(#[trigger] all[j], key@) by {
                        if mid < j && lex_lt(all[j], key@) {
                            lex_transitive(all[mid as int], all[j], key@);
                        }
                    }
                }
                end = mid;
            }
        }
        proof {
            let keys = keys_of(self.entries@);
            if i < keys.len() && keys[i as int] == key@ {
                assert(keys.contains(key@));
            }
            if self@.contains_key(key@) {
                let j = choose|j: int| 0 <= j < keys.len() && keys[j] == key@;
                lex_irreflexive(key@);
                assert(j >= i);
                if j > i {
                    assert(lex_lt(keys[i as int], keys[j]));
                }
                assert(j == i);
            }
        }
        i
    }

    /// The value of `key`.
    pub fn get(&self, key: &str) -> (r: Option<&V>)
        ensures
            r is Some <==> self@.contains_key(key@),
            r matches Some(v) ==> *v == self@[key@],
    {
        let i: usize = self.slot(key);
        if i < self.entries.len() && same(self.entries[i].0.as_str(), key) {
            proof {
                use_type_invariant(self);
                ascending_index(self.entries@, i as int);
            }
            Some(&self.entries[i].1)
        } else {
            None
        }
    }

    /// Whether `key` has a value.
    pub fn contains_key(&self, key: &str) -> (r: bool)
        ensures
            r == self@.contains_key(key@),
    {
        self.get(key).is_some()
    }

    /// Gives `key` the value `value`; hands back the value it had.
    pub fn insert(&mut self, key: String, value: V) -> (r: Option<V>)
        ensures
            final(self)@ == old(self)@.insert(key@, value),
            r is Some <==> old(self)@.contains_key(key@),
            r matches Some(v) ==> v == old(self)@[key@],
    {
        let i: usize = self.slot(key.as_str());
        proof {
            use_type_invariant(&*self);
        }
        let ghost e0 = self.entries@;
        let ghost keys = keys_of(e0);
        let mut entries: Vec<(String, V)> = Vec::new();
        std::mem::swap(&mut entries, &mut self.entries);
        let found = i < entries.len() && same(entries[i].0.as_str(), key.as_str());
        let r: Option<V>;
        if found {
            proof {
                ascending_index(e0, i as int);
            }
            let mut entry = (key, value);
            std::mem::swap(&mut entries[i], &mut entry);
            r = Some(entry.1);
            proof {
                assert(keys_of(entries@) =~= keys);
                assert(entries@ =~= e0.update(i as int, entries@[i as int]));
            }
        } else {
            entries.insert(i, (key, value));
            r = None;
            proof {
                let nk = keys_of(entries@);
                assert(nk =~= keys.insert(i as int, key@));
                assert forall|a: int, b: int| 0 <= a < b < nk.len() implies lex_lt(#[trigger] nk[a], #[trigger] nk[b]) by {
                    if a == i {
                        lex_total(key@, keys[b - 1]);
                        if keys[b - 1] == key@ {
                            assert(keys.contains(key@));
                        }
                    } else if b == i {
                        assert(lex_lt(keys[a], key@));
                    } else {
                        let a0 = if a < i { a } else { a - 1 };
                        let b0 = if b < i { b } else { b - 1 };
                        assert(lex_lt(keys[a0], keys[b0]));
                    }
                }
            }
        }
        self.entries = entries;
        proof {
            lemma_insert(e0, self.entries@, i as int, found);
        }
        r
    }

    /// Takes out the entry of `key`; hands back its value.
    pub fn remove(&mut self, key: &str) -> (r: Option<V>)
        ensures
            final(self)@ == old(self)@.remove(key@),
            r is Some <==> old(self)@.contains_key(key@),
            r matches Some(v) ==> v == old(self)@[key@],
    {
        let i: usize = self.slot(key);
        proof {
            use_type_invariant(&*self);
        }
        let ghost e0 = self.entries@;
        if i < self.entries.len() && same(self.entries[i].0.as_str(), key) {
            let mut entries: Vec<(String, V)> = Vec::new();
            std::mem::swap(&mut entries, &mut self.entries);
            let gone = entries.remove(i);
            proof {
                ascending_index(e0, i as int);
                assert(keys_of(entries@) =~= keys_of(e0).remove(i as int));
            }
            self.entries = entries;
            proof {
                lemma_remove(e0, self.entries@, i as int);
            }
            Some(gone.1)
        } else {
            proof {
                assert(self@ =~= old(self)@.remove(key@));
            }
            None
        }
    }
}

/// A map of strings as a map of character sequences.
pub open spec fn texts(m: Map<Seq<char>, String>) -> Map<Seq<char>, Seq<char>> {
    m.map_values(|s: String| s@)
}

impl<V: Copy> StrMap<V> {
    /// A copy of the map.
    pub fn copied(&self) -> (m: Self)
        ensures
            m@ == self@,
            m.pairs() == self.pairs(),
    {
        proof {
            use_type_invariant(self);
        }
        let mut entries: Vec<(String, V)> = Vec::new();
        let mut i: usize = 0;
        while i < self.entries.len()
            invariant
                0 <= i <= self.entries@.len(),
                entries@ == self.entries@.take(i as int),
            decreases self.entries@.len() - i,
        {
            let ghost was = entries@;
            entries.push((self.entries[i].0.clone(), self.entries[i].1));
            proof {
                assert(entries@ =~= self.entries@.take(i as int + 1));
            }
            i = i + 1;
        }
        proof {
            assert(entries@ =~= self.entries@);
        }
        StrMap { entries }
    }
}

impl StrMap<String> {
    /// Gives `key` the text `value`.
    pub fn set(&mut self, key: &str, value: &str)
        ensures
            texts(final(self)@) == texts(old(self)@).insert(key@, value@),
    {
        self.insert(key.to_owned(), value.to_owned());
        proof {
            assert(texts(self@) =~= texts(old(self)@).insert(key@, value@));
        }
    }

    /// A copy of the map.
    pub fn copy(&self) -> (m: Self)
        ensures
            m@ == self@,
            m.pairs() == self.pairs(),
    {
        proof {
            use_type_invariant(self);
        }
        let mut entries: Vec<(String, String)> = Vec::new();
        let mut i: usize = 0;
        while i < self.entries.len()
            invariant
                0 <= i <= self.entries@.len(),
                entries@ == self.entries@.take(i as int),
            decreases self.entries@.len() - i,
        {
            entries.push((self.entries[i].0.clone(), self.entries[i].1.clone()));
            proof {
                assert(self.entries@.take(i as int + 1) =~= self.entries@.take(i as int).push(self.entries@[i as int]));
            }
            i = i + 1;
        }
        proof {
            assert(self.entries@.take(self.entries@.len() as int) =~= self.entries@);
        }
        StrMap { entries }
    }
}

/// Whether two maps hold the same texts under the same keys.
pub fn same_texts(a: &StrMap<String>, b: &StrMap<String>) -> (r: bool)
    ensures
        r == (texts(a@) == texts(b@)),
{
    let n: usize = a.len();
    let m: usize = b.len();
    if n != m {
        proof {
            if texts(a@) == texts(b@) {
                assert(texts(a@).dom() == a@.dom());
                assert(texts(b@).dom() == b@.dom());
            }
        }
        return false;
    }
    let mut i: usize = 0;
    while i < n
        invariant
            i <= n == a.pairs().len(),
            forall|k: int|
                0 <= k < i ==> b@.contains_key(#[trigger] a.pairs()[k].0@) && b@[a.pairs()[k].0@]@
                    == a.pairs()[k].1@,
        decreases n - i,
    {
        let key = a.key_at(i);
        let value = a.value_at(i);
        match b.get(key.as_str()) {
            Some(other) => {
                if !same(other.as_str(), value.as_str()) {
                    proof {
                        assert(texts(a@)[key@] == value@);
                        assert(texts(b@)[key@] == other@);
                    }
                    return false;
                }
            },
            None => {
                proof {
                    assert(texts(a@).contains_key(key@));
                    assert(!texts(b@).contains_key(key@));
                }
                return false;
            },
        }
        i = i + 1;
    }
    a.inspect();
    b.inspect();
    proof {
        assert forall|k: Seq<char>| a@.contains_key(k) implies b@.contains_key(k) && b@[k]@ == a@[k]@ by {
            let j = choose|j: int| 0 <= j < keys_of(a.pairs()).len() && keys_of(a.pairs())[j] == k;
            assert(a.pairs()[j].0@ == k);
            ascending_index(a.pairs(), j);
        }
        vstd::set_lib::lemma_subset_equality(a@.dom(), b@.dom());
        assert(texts(a@) =~= texts(b@));
    }
    true
}

/// Writing an entry at its slot updates the map at its key.
proof fn lemma_insert<V>(e0: Seq<(String, V)>, e1: Seq<(String, V)>, i: int, found: bool)
    requires
        ascending(keys_of(e0)),
        ascending(keys_of(e1)),
        0 <= i < e1.len(),
        found ==> i < e0.len() && e0[i].0@ == e1[i].0@ && e1 == e0.update(i, e1[i]),
        !found ==> i <= e0.len() && e1 == e0.insert(i, e1[i]),
    ensures
        map_of(e1) == map_of(e0).insert(e1[i].0@, e1[i].1),
{
    let m1 = map_of(e1);
    let m2 = map_of(e0).insert(e1[i].0@, e1[i].1);
    ascending_index(e1, i);
    assert forall|k: Seq<char>| m1.contains_key(k) == m2.contains_key(k) by {
        if m1.contains_key(k) {
            let j = choose|j: int| 0 <= j < e1.len() && keys_of(e1)[j] == k;
            assert(e1[j].0@ == k);
            if j != i {
                let j0 = if found || j < i { j } else { j - 1 };
                assert(keys_of(e0)[j0] == k);
            }
        }
        if m2.contains_key(k) && k != e1[i].0@ {
            let j = choose|j: int| 0 <= j < e0.len() && keys_of(e0)[j] == k;
            let j1 = if found || j < i { j } else { j + 1 };
            assert(keys_of(e1)[j1] == k);
        }
    }
    assert forall|k: Seq<char>| m1.contains_key(k) implies m1[k] == m2[k] by {
        let j = choose|j: int| 0 <= j < e1.len() && keys_of(e1)[j] == k;
        assert(e1[j].0@ == k);
        ascending_index(e1, j);
        if j != i {
            let j0 = if found || j < i { j } else { j - 1 };
            ascending_index(e0, j0);
            assert(e0[j0] == e1[j]);
            if k == e1[i].0@ {
                ascending_index(e1, i);
            }
        }
    }
    assert(m1 =~= m2);
}

/// Dropping an entry removes its key from the map.
proof fn lemma_remove<V>(e0: Seq<(String, V)>, e1: Seq<(String, V)>, i: int)
    requires
        ascending(keys_of(e0)),
        ascending(keys_of(e1)),
        0 <= i < e0.len(),
        e1 == e0.remove(i),
    ensures
        map_of(e1) == map_of(e0).remove(e0[i].0@),
{
    let m1 = map_of(e1);
    let m2 = map_of(e0).remove(e0[i].0@);
    ascending_index(e0, i);
    assert forall|k: Seq<char>| m1.contains_key(k) == m2.contains_key(k) by {
        if m1.contains_key(k) {
            let j = choose|j: int| 0 <= j < e1.len() && keys_of(e1)[j] == k;
            let j0 = if j < i { j } else { j + 1 };
            assert(keys_of(e0)[j0] == k);
            ascending_index(e0, j0);
        }
        if m2.contains_key(k) {
            let j = choose|j: int| 0 <= j < e0.len() && keys_of(e0)[j] == k;
            assert(j != i);
            let j1 = if j < i { j } else { j - 1 };
            assert(keys_of(e1)[j1] == k);
        }
    }
    assert forall|k: Seq<char>| m1.contains_key(k) implies m1[k] == m2[k] by {
        let j = choose|j: int| 0 <= j < e1.len() && keys_of(e1)[j] == k;
        assert(e1[j].0@ == k);
        ascending_index(e1, j);
        let j0 = if j < i { j } else { j + 1 };
        ascending_index(e0, j0);
        assert(e0[j0] == e1[j]);
    }
    assert(m1 =~= m2);
}

/// The entries of a map without the first `k` in key order.
pub open spec fn without_first(m: Map<Seq<char>, String>, keys: Seq<Seq<char>>, k: int) -> Map<Seq<char>, String> {
    Map::new(|x: Seq<char>| m.contains_key(x) && !keys.take(k).contains(x), |x: Seq<char>| m[x])
}

/// Drops the entries with the smallest keys until at most `max` are left.
pub fn keep_last_keys(data: &mut StrMap<String>, max: usize)
    ensures
        exists|keys: Seq<Seq<char>>|
            #![trigger ascending(keys)]
            {
                &&& ascending(keys)
                &&& forall|x: Seq<char>| #[trigger] keys.contains(x) <==> old(data)@.contains_key(x)
                &&& keys.len() == old(data)@.dom().len()
                &&& final(data)@ == without_first(
                    old(data)@,
                    keys,
                    if keys.len() > max {
                        keys.len() - max
                    } else {
                        0
                    },
                )
            },
{
    let n: usize = data.len();
    let keys = data.keys();
    let ghost all = views(keys@);
    let ghost m = data@;
    let cut: usize = if n > max {
        n - max
    } else {
        0
    };
    let mut i: usize = 0;
    proof {
        assert(without_first(m, all, 0) =~= m);
    }
    while i < cut
        invariant
            i <= cut <= n == keys@.len(),
            all == views(keys@),
            data@ == without_first(m, all, i as int),
        decreases cut - i,
    {
        data.remove(keys[i].as_str());
        proof {
            assert(all.take(i as int + 1) =~= all.take(i as int).push(all[i as int]));
            assert forall|x: Seq<char>| all.take(i as int + 1).contains(x) <==> all.take(i as int).contains(x) || x
                == all[i as int] by {
                if all.take(i as int).contains(x) {
                    let j = choose|j: int| 0 <= j < all.take(i as int).len() && all.take(i as int)[j] == x;
                    assert(all.take(i as int + 1)[j] == x);
                }
                assert(all.take(i as int + 1)[i as int] == all[i as int]);
            }
            assert(data@ =~= without_first(m, all, i as int + 1));
        }
        i = i + 1;
    }
}

} // verus!
