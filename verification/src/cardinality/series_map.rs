//! Records of metric series, found by metric name and label set.

use vstd::prelude::*;
#[allow(unused_imports)]
use vstd::string::*;
#[allow(unused_imports)]
use crate::strmap::{texts, StrMap};

verus! {

/// What identifies a series: its metric and its label set.
pub struct SeriesKey {
    pub metric: Seq<char>,
    pub labels: Map<Seq<char>, Seq<char>>,
}

/// A record of one series.
pub trait SeriesRecord: Sized {
    /// The series that this is a record of.
    spec fn key(&self) -> SeriesKey;

    /// Whether this is a record of the series with this metric and these labels.
    fn is_of(&self, metric: &str, labels: &StrMap<String>) -> (r: bool)
        ensures
            r == (self.key() == (SeriesKey { metric: metric@, labels: texts(labels@) })),
    ;
}

/// The keys of a sequence of records.
pub open spec fn record_keys<T: SeriesRecord>(items: Seq<T>) -> Seq<SeriesKey> {
    Seq::new(items.len(), |i: int| items[i].key())
}

/// The map that a sequence of records stands for.
pub open spec fn record_map<T: SeriesRecord>(items: Seq<T>) -> Map<SeriesKey, T> {
    Map::new(
        |k: SeriesKey| record_keys(items).contains(k),
        |k: SeriesKey| items[record_keys(items).index_of(k)],
    )
}

/// The key of a metric name and labels.
pub open spec fn key_of(metric: Seq<char>, labels: Map<Seq<char>, String>) -> SeriesKey {
    SeriesKey { metric, labels: texts(labels) }
}

/// Records with different keys, each found by its key.
pub struct SeriesMap<T: SeriesRecord> {
    items: Vec<T>,
}

impl<T: SeriesRecord> View for SeriesMap<T> {
    type V = Map<SeriesKey, T>;

    closed spec fn view(&self) -> Map<SeriesKey, T> {
        record_map(self.items@)
    }
}

/// Where the keys differ, each record is found by its key.
pub proof fn record_found<T: SeriesRecord>(items: Seq<T>, i: int)
    requires
        record_keys(items).no_duplicates(),
        0 <= i < items.len(),
    ensures
        record_map(items).contains_key(items[i].key()),
        record_map(items)[items[i].key()] == items[i],
{
    let keys = record_keys(items);
    assert(keys[i] == items[i].key());
    let j = keys.index_of(items[i].key());
    assert(0 <= j < keys.len() && keys[j] == keys[i]);
}

impl<T: SeriesRecord> SeriesMap<T> {
    #[verifier::type_invariant]
    spec fn well_formed(self) -> bool {
        record_keys(self.items@).no_duplicates()
    }

    /// The records, in the order they were first entered.
    pub closed spec fn records(self) -> Seq<T> {
        self.items@
    }

    /// No records.
    pub fn new() -> (m: Self)
        ensures
            m@ == Map::<SeriesKey, T>::empty(),
            m.records() == Seq::<T>::empty(),
    {
        let m = SeriesMap { items: Vec::new() };
        proof {
            assert(m@ =~= Map::<SeriesKey, T>::empty());
        }
        m
    }

    /// The number of records.
    pub fn len(&self) -> (n: usize)
        ensures
            n == self.records().len(),
            record_keys(self.records()).no_duplicates(),
            self@ == record_map(self.records()),
    {
        proof {
            use_type_invariant(self);
        }
        self.items.len()
    }

    /// Record `i`.
    pub fn at(&self, i: usize) -> (x: &T)
        requires
            i < self.records().len(),
        ensures
            *x == self.records()[i as int],
    {
        &self.items[i]
    }

    /// The position of the record of a series.
    pub fn position(&self, metric: &str, labels: &StrMap<String>) -> (r: Option<usize>)
        ensures
            match r {
                Some(i) => i < self.records().len() && self.records()[i as int].key() == key_of(metric@, labels@)
                    && self@.contains_key(key_of(metric@, labels@)) && self@[key_of(metric@, labels@)]
                    == self.records()[i as int],
                None => !self@.contains_key(key_of(metric@, labels@)),
            },
            record_keys(self.records()).no_duplicates(),
            self@ == record_map(self.records()),
    {
        proof {
            use_type_invariant(self);
        }
        let ghost k = key_of(metric@, labels@);
        let mut i: usize = 0;
        while i < self.items.len()
            invariant
                i <= self.items@.len(),
                k == key_of(metric@, labels@),
                record_keys(self.items@).no_duplicates(),
                forall|j: int| 0 <= j < i ==> record_keys(self.items@)[j] != k,
            decreases self.items@.len() - i,
        {
            if self.items[i].is_of(metric, labels) {
                proof {
                    record_found(self.items@, i as int);
                }
                return Some(i);
            }
            i = i + 1;
        }
        None
    }

    /// The record of a series.
    pub fn get(&self, metric: &str, labels: &StrMap<String>) -> (r: Option<&T>)
        ensures
            r is Some <==> self@.contains_key(key_of(metric@, labels@)),
            r matches Some(x) ==> *x == self@[key_of(metric@, labels@)],
    {
        match self.position(metric, labels) {
            Some(i) => Some(&self.items[i]),
            None => None,
        }
    }

    /// Enters a record at the end. There must be none of its series yet.
    pub fn add_new(&mut self, item: T)
        requires
            !old(self)@.contains_key(item.key()),
        ensures
            final(self)@ == old(self)@.insert(item.key(), item),
            final(self).records() == old(self).records().push(item),
    {
        proof {
            use_type_invariant(&*self);
        }
        let mut items: Vec<T> = Vec::new();
        std::mem::swap(&mut items, &mut self.items);
        let ghost was = items@;
        items.push(item);
        proof {
            let keys = record_keys(was);
            assert(record_keys(items@) =~= keys.push(item.key()));
            assert forall|i: int, j: int|
                0 <= i < record_keys(items@).len() && 0 <= j < record_keys(items@).len() && i != j implies record_keys(
                items@,
            )[i] != record_keys(items@)[j] by {
                if i < keys.len() && j < keys.len() {
                    assert(keys[i] != keys[j]);
                } else if i < keys.len() {
                    assert(keys.contains(keys[i]));
                } else {
                    assert(keys.contains(keys[j]));
                }
            }
        }
        self.items = items;
        proof {
            lemma_same_map(self.items@, record_map(was).insert(item.key(), item), was, item);
        }
    }

    /// Puts `item` in the place of record `i`, which is of the same series.
    pub fn replace_at(&mut self, i: usize, item: T)
        requires
            i < old(self).records().len(),
            item.key() == old(self).records()[i as int].key(),
        ensures
            final(self)@ == old(self)@.insert(item.key(), item),
            final(self).records() == old(self).records().update(i as int, item),
    {
        proof {
            use_type_invariant(&*self);
        }
        let mut items: Vec<T> = Vec::new();
        std::mem::swap(&mut items, &mut self.items);
        let ghost was = items@;
        let _ = items.remove(i);
        items.insert(i, item);
        proof {
            assert(items@ =~= was.update(i as int, item));
            assert(record_keys(items@) =~= record_keys(was));
        }
        self.items = items;
        proof {
            let m1 = record_map(self.items@);
            let m2 = record_map(was).insert(item.key(), item);
            record_found(was, i as int);
            record_found(self.items@, i as int);
            assert forall|k: SeriesKey| m1.contains_key(k) implies m1[k] == m2[k] by {
                let j = choose|j: int| 0 <= j < record_keys(self.items@).len() && record_keys(self.items@)[j] == k;
                record_found(self.items@, j);
                record_found(was, j);
            }
            assert(m1 =~= m2);
        }
    }

    /// Takes out record `i`.
    pub fn remove_at(&mut self, i: usize) -> (x: T)
        requires
            i < old(self).records().len(),
        ensures
            x == old(self).records()[i as int],
            final(self)@ == old(self)@.remove(x.key()),
            final(self).records() == old(self).records().remove(i as int),
    {
        proof {
            use_type_invariant(&*self);
        }
        let mut items: Vec<T> = Vec::new();
        std::mem::swap(&mut items, &mut self.items);
        let ghost was = items@;
        let x = items.remove(i);
        proof {
            let keys = record_keys(was);
            let nk = record_keys(items@);
            assert(nk =~= keys.remove(i as int));
            assert forall|a: int, b: int| 0 <= a < nk.len() && 0 <= b < nk.len() && a != b implies nk[a] != nk[b] by {
                let a0 = if a < i { a } else { a + 1 };
                let b0 = if b < i { b } else { b + 1 };
                assert(keys[a0] != keys[b0]);
            }
        }
        self.items = items;
        proof {
            let m1 = record_map(self.items@);
            let m2 = record_map(was).remove(x.key());
            record_found(was, i as int);
            assert forall|k: SeriesKey| m1.contains_key(k) == m2.contains_key(k) by {
                if m1.contains_key(k) {
                    let j = choose|j: int| 0 <= j < record_keys(self.items@).len() && record_keys(self.items@)[j] == k;
                    let j0 = if j < i { j } else { j + 1 };
                    assert(record_keys(was)[j0] == k);
                    assert(record_keys(was)[j0] != record_keys(was)[i as int]);
                }
                if m2.contains_key(k) {
                    let j = choose|j: int| 0 <= j < record_keys(was).len() && record_keys(was)[j] == k;
                    let j1 = if j < i { j } else { j - 1 };
                    assert(record_keys(self.items@)[j1] == k);
                }
            }
            assert forall|k: SeriesKey| m1.contains_key(k) implies m1[k] == m2[k] by {
                let j = choose|j: int| 0 <= j < record_keys(self.items@).len() && record_keys(self.items@)[j] == k;
                record_found(self.items@, j);
                let j0 = if j < i { j } else { j + 1 };
                record_found(was, j0);
            }
            assert(m1 =~= m2);
        }
        x
    }
}

/// A record at the end enters its key into the map.
proof fn lemma_same_map<T: SeriesRecord>(now: Seq<T>, want: Map<SeriesKey, T>, was: Seq<T>, item: T)
    requires
        now == was.push(item),
        record_keys(now).no_duplicates(),
        record_keys(was).no_duplicates(),
        want == record_map(was).insert(item.key(), item),
    ensures
        record_map(now) == want,
{
    let m1 = record_map(now);
    record_found(now, was.len() as int);
    assert forall|k: SeriesKey| m1.contains_key(k) == want.contains_key(k) by {
        if m1.contains_key(k) {
            let j = choose|j: int| 0 <= j < record_keys(now).len() && record_keys(now)[j] == k;
            if j < was.len() {
                assert(record_keys(was)[j] == k);
            }
        }
        if record_map(was).contains_key(k) {
            let j = choose|j: int| 0 <= j < record_keys(was).len() && record_keys(was)[j] == k;
            assert(record_keys(now)[j] == k);
        }
    }
    assert forall|k: SeriesKey| m1.contains_key(k) implies m1[k] == want[k] by {
        let j = choose|j: int| 0 <= j < record_keys(now).len() && record_keys(now)[j] == k;
        record_found(now, j);
        if j < was.len() {
            record_found(was, j);
            assert(record_keys(now)[j] != record_keys(now)[was.len() as int]);
        }
    }
    assert(m1 =~= want);
}

} // verus!
