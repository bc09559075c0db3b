//! A log that keeps its newest entries.

use std::collections::VecDeque;
use vstd::prelude::*;

verus! {

/// The last `n` elements of `s`, or all where there are no more.
pub open spec fn last_n<T>(s: Seq<T>, n: int) -> Seq<T> {
    if s.len() > n {
        s.skip(s.len() - n)
    } else {
        s
    }
}

/// A log of at most `limit` entries, oldest first. Where one more does not fit, the
/// oldest is dropped.
#[derive(Debug)]
pub struct BoundedLog<T> {
    items: VecDeque<T>,
    limit: usize,
}

impl<T> View for BoundedLog<T> {
    type V = Seq<T>;

    closed spec fn view(&self) -> Seq<T> {
        self.items@
    }
}

impl<T> BoundedLog<T> {
    #[verifier::type_invariant]
    spec fn well_formed(self) -> bool {
        self.items@.len() <= self.limit
    }

    /// How many entries are kept.
    pub closed spec fn capacity(self) -> usize {
        self.limit
    }

    /// An empty log.
    pub fn new(limit: usize) -> (log: Self)
        ensures
            log@ == Seq::<T>::empty(),
            log.capacity() == limit,
    {
        BoundedLog { items: VecDeque::new(), limit }
    }

    /// Adds an entry, dropping the oldest where there is no room.
    pub fn push(&mut self, item: T)
        ensures
            final(self)@ == last_n(old(self)@.push(item), old(self).capacity() as int),
            final(self).capacity() == old(self).capacity(),
    {
        proof {
            use_type_invariant(&*self);
        }
        let limit: usize = self.limit;
        let mut items: VecDeque<T> = VecDeque::new();
        std::mem::swap(&mut items, &mut self.items);
        let ghost was = items@;
        if items.len() >= limit {
            if limit > 0 {
                let _ = items.pop_front();
                items.push_back(item);
                proof {
                    assert(items@ =~= last_n(was.push(item), limit as int));
                }
            } else {
                proof {
                    assert(items@ =~= last_n(was.push(item), limit as int));
                }
            }
        } else {
            items.push_back(item);
        }
        self.items = items;
    }

    /// How many entries are kept.
    pub fn limit(&self) -> (n: usize)
        ensures
            n == self.capacity(),
    {
        self.limit
    }

    /// The number of entries.
    pub fn len(&self) -> (n: usize)
        ensures
            n == self@.len(),
            n <= self.capacity(),
    {
        proof {
            use_type_invariant(self);
        }
        self.items.len()
    }

    /// Whether there is no entry.
    pub fn is_empty(&self) -> (r: bool)
        ensures
            r == (self@.len() == 0),
    {
        self.items.len() == 0
    }

    /// Entry `i`, oldest first.
    pub fn at(&self, i: usize) -> (x: &T)
        requires
            i < self@.len(),
        ensures
            *x == self@[i as int],
    {
        &self.items[i]
    }

    /// Drops the oldest entry.
    pub fn drop_oldest(&mut self)
        requires
            old(self)@.len() > 0,
        ensures
            final(self)@ == old(self)@.skip(1),
            final(self).capacity() == old(self).capacity(),
    {
        proof {
            use_type_invariant(&*self);
        }
        let mut items: VecDeque<T> = VecDeque::new();
        std::mem::swap(&mut items, &mut self.items);
        let ghost was = items@;
        let _ = items.pop_front();
        proof {
            assert(items@ =~= was.skip(1));
        }
        self.items = items;
    }
}

impl<T: Clone> BoundedLog<T> {
    /// The newest `limit` entries, newest first.
    pub fn newest(&self, limit: usize) -> (out: Vec<T>)
        ensures
            out@.len() == if limit <= self@.len() {
                limit as int
            } else {
                self@.len() as int
            },
            forall|i: int| 0 <= i < out@.len() ==> cloned::<T>(self@[self@.len() - 1 - i], #[trigger] out@[i]),
    {
        let n: usize = self.items.len();
        let count: usize = if limit <= n {
            limit
        } else {
            n
        };
        let mut out: Vec<T> = Vec::new();
        let mut i: usize = 0;
        while i < count
            invariant
                i <= count <= n == self@.len(),
                n == self.items@.len(),
                self@ == self.items@,
                out@.len() == i,
                forall|k: int| 0 <= k < i ==> cloned::<T>(self@[n - 1 - k], #[trigger] out@[k]),
            decreases count - i,
        {
            out.push(self.items[n - 1 - i].clone());
            i = i + 1;
        }
        out
    }

    /// A copy of all entries, oldest first.
    pub fn all(&self) -> (out: Vec<T>)
        ensures
            out@.len() == self@.len(),
            forall|i: int| 0 <= i < out@.len() ==> cloned::<T>(self@[i], #[trigger] out@[i]),
    {
        let n: usize = self.items.len();
        let mut out: Vec<T> = Vec::new();
        let mut i: usize = 0;
        while i < n
            invariant
                i <= n == self@.len(),
                n == self.items@.len(),
                self@ == self.items@,
                out@.len() == i,
                forall|k: int| 0 <= k < i ==> cloned::<T>(self@[k], #[trigger] out@[k]),
            decreases n - i,
        {
            out.push(self.items[i].clone());
            i = i + 1;
        }
        out
    }
}

/// A full log drops exactly its oldest entry when one is added; the new entry is the
/// newest, and a log with room drops nothing.
pub proof fn newest_are_kept<T>(s: Seq<T>, x: T, n: int)
    requires
        0 < n,
        s.len() <= n,
    ensures
        last_n(s.push(x), n).len() <= n,
        last_n(s.push(x), n).last() == x,
        s.len() < n ==> last_n(s.push(x), n) == s.push(x),
        s.len() == n ==> last_n(s.push(x), n) == s.skip(1).push(x),
{
    if s.len() == n {
        assert(last_n(s.push(x), n) =~= s.skip(1).push(x));
    }
}

/// What is kept of a sequence is its end: as many elements as fit, and no other.
pub proof fn the_end_is_kept<T>(s: Seq<T>, n: int, i: int)
    requires
        0 <= n,
    ensures
        last_n(s, n).len() == if n <= s.len() {
            n
        } else {
            s.len() as int
        },
        0 <= i < last_n(s, n).len() ==> last_n(s, n)[last_n(s, n).len() - 1 - i] == s[s.len() - 1 - i],
{
}

} // verus!
