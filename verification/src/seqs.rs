//! Facts about sequences that several modules use.

use vstd::prelude::*;

verus! {

/// The position of the first `x` in `s`, or the length of `s` where there is none.
pub open spec fn first_index<A>(s: Seq<A>, x: A) -> int
    decreases s.len(),
{
    if s.len() == 0 || s[0] == x {
        0
    } else {
        1 + first_index(s.drop_first(), x)
    }
}

/// The first position at which `s` holds `x` is its first index.
pub proof fn first_index_is<A>(s: Seq<A>, x: A, i: int)
    requires
        0 <= i < s.len(),
        s[i] == x,
        forall|j: int| 0 <= j < i ==> s[j] != x,
    ensures
        first_index(s, x) == i,
    decreases s.len(),
{
    if i > 0 {
        assert(s[0] != x);
        assert forall|j: int| 0 <= j < i - 1 implies s.drop_first()[j] != x by {
            assert(s.drop_first()[j] == s[j + 1]);
        }
        first_index_is(s.drop_first(), x, i - 1);
    }
}

/// What occurs in `s` is found at its first index.
pub proof fn first_index_found<A>(s: Seq<A>, x: A)
    requires
        s.contains(x),
    ensures
        0 <= first_index(s, x) < s.len(),
        s[first_index(s, x)] == x,
    decreases s.len(),
{
    if s[0] != x {
        let i = choose|i: int| 0 <= i < s.len() && s[i] == x;
        assert(s.drop_first()[i - 1] == x);
        first_index_found(s.drop_first(), x);
    }
}

/// Different elements, all found in another sequence, are at most as many as that
/// one has; where they are as many, nothing of the other is left out.
pub proof fn pigeonhole<A>(few: Seq<A>, many: Seq<A>)
    requires
        few.no_duplicates(),
        forall|i: int| 0 <= i < few.len() ==> many.contains(#[trigger] few[i]),
    ensures
        few.len() <= many.len(),
        few.len() == many.len() ==> forall|x: A| many.contains(x) ==> #[trigger] few.contains(x),
{
    few.unique_seq_to_set();
    many.lemma_cardinality_of_set();
    assert(few.to_set().subset_of(many.to_set())) by {
        assert forall|x: A| few.to_set().contains(x) implies many.to_set().contains(x) by {
            let i = choose|i: int| 0 <= i < few.len() && few[i] == x;
            assert(many.contains(few[i]));
        }
    }
    vstd::set_lib::lemma_len_subset(few.to_set(), many.to_set());
    if few.len() == many.len() {
        vstd::set_lib::lemma_subset_equality(few.to_set(), many.to_set());
        assert forall|x: A| many.contains(x) implies #[trigger] few.contains(x) by {
            assert(many.to_set().contains(x));
            assert(few.to_set().contains(x));
        }
    }
}

/// Filtering one more element adds it where the predicate holds of it.
pub proof fn filter_step<A>(s: Seq<A>, k: int, f: spec_fn(A) -> bool)
    requires
        0 <= k < s.len(),
    ensures
        s.take(k + 1).filter(f) == if f(s[k]) {
            s.take(k).filter(f).push(s[k])
        } else {
            s.take(k).filter(f)
        },
{
    reveal(Seq::filter);
    assert(s.take(k + 1).drop_last() =~= s.take(k));
}

/// What the start of a sequence keeps is the start of what the whole of it keeps.
pub proof fn filter_is_prefix<A>(s: Seq<A>, k: int, f: spec_fn(A) -> bool)
    requires
        0 <= k <= s.len(),
    ensures
        s.take(k).filter(f).len() <= s.filter(f).len(),
        s.filter(f).take(s.take(k).filter(f).len() as int) == s.take(k).filter(f),
    decreases s.len() - k,
{
    let own = s.take(k).filter(f);
    if k < s.len() {
        filter_is_prefix(s, k + 1, f);
        filter_step(s, k, f);
        let next = s.take(k + 1).filter(f);
        assert(s.filter(f).take(own.len() as int) =~= s.filter(f).take(next.len() as int).take(own.len() as int));
        assert(next.take(own.len() as int) =~= own);
    } else {
        assert(s.take(k) =~= s);
        assert(own.take(own.len() as int) =~= own);
    }
}

/// Filtering nothing gives nothing.
pub proof fn filter_none<A>(s: Seq<A>, f: spec_fn(A) -> bool)
    ensures
        s.take(0).filter(f) == Seq::<A>::empty(),
{
    reveal(Seq::filter);
    assert(s.take(0) =~= Seq::<A>::empty());
}

/// A filter leaves the elements that its predicate holds of, and no others.
pub proof fn filter_holds<A>(s: Seq<A>, f: spec_fn(A) -> bool, x: A)
    ensures
        s.filter(f).contains(x) <==> s.contains(x) && f(x),
        s.filter(f).len() <= s.len(),
    decreases s.len(),
{
    reveal(Seq::filter);
    if s.len() > 0 {
        let front = s.drop_last();
        let kept = front.filter(f);
        filter_holds(front, f, x);
        if s.contains(x) {
            let i = choose|i: int| 0 <= i < s.len() && s[i] == x;
            if i < front.len() {
                assert(front[i] == x);
            }
        }
        if front.contains(x) {
            let i = choose|i: int| 0 <= i < front.len() && front[i] == x;
            assert(s[i] == x);
        }
        assert(s[s.len() - 1] == s.last());
        if f(s.last()) {
            let all = kept.push(s.last());
            assert(s.filter(f) == all);
            assert(all[all.len() - 1] == s.last());
            if kept.contains(x) {
                let i = choose|i: int| 0 <= i < kept.len() && kept[i] == x;
                assert(all[i] == x);
            }
            if all.contains(x) {
                let i = choose|i: int| 0 <= i < all.len() && all[i] == x;
                if i < kept.len() {
                    assert(kept[i] == x);
                }
            }
        }
    }
}

} // verus!
