//! Putting the picked items of a list in a strict order.

use vstd::prelude::*;

verus! {

/// A list of items, some of them picked, with a strict total order on positions.
pub trait Ranking {
    /// The number of items.
    spec fn size(&self) -> int;

    /// The item at `i` takes part.
    spec fn picked(&self, i: int) -> bool;

    /// The item at `a` comes before the item at `b`.
    spec fn precedes(&self, a: int, b: int) -> bool;

    /// The order is strict and total.
    proof fn strict(&self, a: int, b: int, c: int)
        ensures
            !self.precedes(a, a),
            !(self.precedes(a, b) && self.precedes(b, a)),
            self.precedes(a, b) && self.precedes(b, c) ==> self.precedes(a, c),
            a != b ==> self.precedes(a, b) || self.precedes(b, a),
    ;

    fn count(&self) -> (n: usize)
        ensures
            n == self.size(),
    ;

    fn takes_part(&self, i: usize) -> (r: bool)
        requires
            i < self.size(),
        ensures
            r == self.picked(i as int),
    ;

    fn first(&self, a: usize, b: usize) -> (r: bool)
        requires
            a < self.size(),
            b < self.size(),
        ensures
            r == self.precedes(a as int, b as int),
    ;
}

/// `at` lists the positions of the picked items, in order.
pub open spec fn is_ranked<R: Ranking>(r: &R, at: Seq<int>) -> bool {
    &&& forall|k: int| 0 <= k < at.len() ==> 0 <= #[trigger] at[k] < r.size() && r.picked(at[k])
    &&& forall|i: int| 0 <= i < r.size() && #[trigger] r.picked(i) ==> at.contains(i)
    &&& forall|k: int, l: int| 0 <= k < l < at.len() ==> r.precedes(#[trigger] at[k], #[trigger] at[l])
}

/// Positions as mathematical integers.
pub open spec fn positions(v: Seq<usize>) -> Seq<int> {
    v.map_values(|i: usize| i as int)
}

/// There is only one ranking.
pub proof fn ranking_is_unique<R: Ranking>(r: &R, a: Seq<int>, b: Seq<int>)
    requires
        is_ranked(r, a),
        is_ranked(r, b),
    ensures
        a == b,
{
    rankings_agree(r, a, b, a.len() as int);
    rankings_agree(r, b, a, b.len() as int);
    assert(a =~= b);
}

/// Two rankings agree as far as the first goes.
proof fn rankings_agree<R: Ranking>(r: &R, a: Seq<int>, b: Seq<int>, n: int)
    requires
        is_ranked(r, a),
        is_ranked(r, b),
        0 <= n <= a.len(),
    ensures
        n <= b.len(),
        forall|k: int| 0 <= k < n ==> a[k] == b[k],
    decreases n,
{
    if n > 0 {
        rankings_agree(r, a, b, n - 1);
        let x = a[n - 1];
        assert(r.picked(x));
        let p = choose|p: int| 0 <= p < b.len() && b[p] == x;
        r.strict(x, x, x);
        if p < n - 1 {
            assert(a[p] == x);
            assert(r.precedes(a[p], a[n - 1]));
        }
        let y = b[n - 1];
        assert(r.picked(y));
        let q = choose|q: int| 0 <= q < a.len() && a[q] == y;
        r.strict(y, y, y);
        if q < n - 1 {
            assert(b[q] == y);
            assert(r.precedes(b[q], b[n - 1]));
        }
        if x != y {
            assert(r.precedes(b[n - 1], b[p]));
            assert(r.precedes(a[n - 1], a[q]));
            r.strict(x, y, x);
        }
    }
}

/// Ranks the picked items.
pub fn rank<R: Ranking>(r: &R) -> (at: Vec<usize>)
    ensures
        is_ranked(r, positions(at@)),
{
    let n: usize = r.count();
    let mut at: Vec<usize> = Vec::new();
    let mut i: usize = 0;
    while i < n
        invariant
            i <= n == r.size(),
            forall|k: int| 0 <= k < at@.len() ==> #[trigger] at@[k] < i && r.picked(at@[k] as int),
            forall|j: int| 0 <= j < i && #[trigger] r.picked(j) ==> positions(at@).contains(j),
            forall|k: int, l: int|
                0 <= k < l < at@.len() ==> r.precedes(#[trigger] at@[k] as int, #[trigger] at@[l] as int),
        decreases n - i,
    {
        if r.takes_part(i) {
            let mut slot: usize = 0;
            while slot < at.len() && r.first(at[slot], i)
                invariant
                    i < n == r.size(),
                    slot <= at@.len(),
                    forall|k: int| 0 <= k < at@.len() ==> #[trigger] at@[k] < i,
                    forall|k: int| 0 <= k < slot ==> r.precedes(#[trigger] at@[k] as int, i as int),
                decreases at@.len() - slot,
            {
                slot = slot + 1;
            }
            let ghost was = at@;
            at.insert(slot, i);
            proof {
                assert forall|j: int| 0 <= j < i + 1 && #[trigger] r.picked(j) implies positions(at@).contains(j) by {
                    if j < i {
                        let k = choose|k: int| 0 <= k < positions(was).len() && positions(was)[k] == j;
                        let k1 = if k < slot { k } else { k + 1 };
                        assert(positions(at@)[k1] == j);
                    } else {
                        assert(positions(at@)[slot as int] == j);
                    }
                }
                assert forall|k: int, l: int| 0 <= k < l < at@.len() implies r.precedes(
                    #[trigger] at@[k] as int,
                    #[trigger] at@[l] as int,
                ) by {
                    if k == slot {
                        let next = was[slot as int] as int;
                        let other = was[l - 1] as int;
                        r.strict(i as int, next, other);
                        if l - 1 > slot {
                            assert(r.precedes(was[slot as int] as int, was[l - 1] as int));
                        }
                    } else if l == slot {
                        assert(at@[k] == was[k]);
                    } else {
                        let k0 = if k < slot { k } else { k - 1 };
                        let l0 = if l < slot { l } else { l - 1 };
                        assert(r.precedes(was[k0] as int, was[l0] as int));
                    }
                }
            }
        }
        i = i + 1;
    }
    proof {
        let p = positions(at@);
        assert forall|k: int, l: int| 0 <= k < l < p.len() implies r.precedes(#[trigger] p[k], #[trigger] p[l]) by {
            assert(r.precedes(at@[k] as int, at@[l] as int));
        }
    }
    at
}

} // verus!
