//! Facts about filtered sequences and enumerations of sets.
use vstd::prelude::*;
use vstd::relations::total_ordering;

verus! {

/// One element more: it joins the filtered ones if it passes.
pub proof fn lemma_filter_next<A>(s: Seq<A>, i: int, keep: spec_fn(A) -> bool)
    requires
        0 <= i < s.len(),
    ensures
        s.take(i + 1).filter(keep) == if keep(s[i]) {
            s.take(i).filter(keep).push(s[i])
        } else {
            s.take(i).filter(keep)
        },
{
    reveal(Seq::filter);
    assert(s.take(i + 1).drop_last() =~= s.take(i));
}

/// What passes among the first elements comes first among all that pass.
pub proof fn lemma_filter_front<A>(s: Seq<A>, i: int, keep: spec_fn(A) -> bool)
    requires
        0 <= i <= s.len(),
    ensures
        s.filter(keep) == s.take(i).filter(keep) + s.skip(i).filter(keep),
{
    assert(s =~= s.take(i) + s.skip(i));
    Seq::filter_distributes_over_add(s.take(i), s.skip(i), keep);
}

/// Nothing passes a filter of an empty sequence.
pub proof fn lemma_filter_empty<A>(s: Seq<A>, keep: spec_fn(A) -> bool)
    requires
        s.len() == 0,
    ensures
        s.filter(keep) == Seq::<A>::empty(),
{
    reveal(Seq::filter);
    assert(s.filter(keep) =~= Seq::<A>::empty());
}

/// A filter that every element passes changes nothing.
pub proof fn lemma_filter_all<A>(s: Seq<A>, keep: spec_fn(A) -> bool)
    requires
        forall|i: int| 0 <= i < s.len() ==> keep(#[trigger] s[i]),
    ensures
        s.filter(keep) == s,
    decreases s.len(),
{
    reveal(Seq::filter);
    if s.len() > 0 {
        assert forall|i: int| 0 <= i < s.drop_last().len() implies keep(
            #[trigger] s.drop_last()[i],
        ) by {
            assert(s.drop_last()[i] == s[i]);
        }
        lemma_filter_all(s.drop_last(), keep);
        assert(s.drop_last().push(s.last()) =~= s);
    }
}

/// Enumerating a set in any order gives the same multiset of images.
pub proof fn lemma_enumerations<A, B>(set: Set<A>, keys: Seq<A>, f: spec_fn(A) -> B)
    requires
        set.finite(),
        keys.no_duplicates(),
        keys.to_set() == set,
    ensures
        keys.map_values(f).to_multiset() == set.to_seq().map_values(f).to_multiset(),
    decreases set.len(),
{
    broadcast use vstd::seq_lib::group_to_multiset_ensures;

    if set.len() == 0 {
        assert(keys.len() == 0) by {
            if keys.len() > 0 {
                assert(keys.to_set().contains(keys[0]));
            }
        }
        assert(keys.map_values(f) =~= set.to_seq().map_values(f));
    } else {
        let x = set.choose();
        assert(keys.to_set().contains(x));
        let at = choose|i: int| 0 <= i < keys.len() && keys[i] == x;
        let rest = keys.remove(at);
        assert(rest.no_duplicates());
        assert forall|a: A| rest.to_set().contains(a) == set.remove(x).contains(a) by {
            if rest.to_set().contains(a) {
                let i = choose|i: int| 0 <= i < rest.len() && rest[i] == a;
                let p = if i < at {
                    i
                } else {
                    i + 1
                };
                assert(keys[p] == a);
                assert(keys.to_set().contains(a));
            }
            if set.remove(x).contains(a) {
                assert(keys.to_set().contains(a));
                let p = choose|p: int| 0 <= p < keys.len() && keys[p] == a;
                let i = if p < at {
                    p
                } else {
                    p - 1
                };
                assert(rest[i] == a);
            }
        }
        assert(rest.to_set() =~= set.remove(x));
        lemma_enumerations(set.remove(x), rest, f);
        assert(keys.map_values(f).remove(at) =~= rest.map_values(f));
        assert(keys.map_values(f)[at] == f(x));
        let tail = set.remove(x).to_seq();
        assert(set.to_seq() =~= seq![x] + tail);
        assert(set.to_seq().map_values(f).remove(0) =~= tail.map_values(f));
        assert(set.to_seq().map_values(f)[0] == f(x));
        let left = keys.map_values(f).to_multiset();
        let right = set.to_seq().map_values(f).to_multiset();
        assert(left.remove(f(x)) == right.remove(f(x)));
        assert(left.count(f(x)) > 0 && right.count(f(x)) > 0) by {
            assert(keys.map_values(f).contains(f(x)));
            assert(set.to_seq().map_values(f).contains(f(x)));
        }
        assert(left =~= left.remove(f(x)).insert(f(x)));
        assert(right =~= right.remove(f(x)).insert(f(x)));
    }
}

/// Sorting an enumeration of a set gives the set in order.
pub proof fn lemma_sorted_enumeration<A>(set: Set<A>, keys: Seq<A>, leq: spec_fn(A, A) -> bool)
    requires
        set.finite(),
        keys.no_duplicates(),
        keys.to_set() == set,
        total_ordering(leq),
    ensures
        keys.sort_by(leq) == set.to_sorted_seq(leq),
{
    let same = |a: A| a;
    lemma_enumerations(set, keys, same);
    assert(keys.map_values(same) =~= keys);
    assert(set.to_seq().map_values(same) =~= set.to_seq());
    keys.lemma_sort_by_ensures(leq);
    set.to_seq().lemma_sort_by_ensures(leq);
    vstd::seq_lib::lemma_sorted_unique(keys.sort_by(leq), set.to_sorted_seq(leq), leq);
}

/// Sequences with the same elements in another order: each element of one is in the
/// other, and keys that occur once in one occur once in the other.
pub proof fn lemma_permuted<A, B>(one: Seq<(A, B)>, other: Seq<(A, B)>)
    requires
        one.to_multiset() == other.to_multiset(),
        forall|i: int, j: int|
            0 <= i < j < one.len() ==> (#[trigger] one[i]).0 != (#[trigger] one[j]).0,
    ensures
        one.len() == other.len(),
        forall|i: int| 0 <= i < other.len() ==> one.contains(#[trigger] other[i]),
        forall|k: int| 0 <= k < one.len() ==> other.contains(#[trigger] one[k]),
        forall|i: int, j: int|
            0 <= i < j < other.len() ==> (#[trigger] other[i]).0 != (#[trigger] other[j]).0,
{
    one.to_multiset_ensures();
    other.to_multiset_ensures();
    assert forall|i: int| 0 <= i < other.len() implies one.contains(#[trigger] other[i]) by {
        assert(other.contains(other[i]));
        assert(one.to_multiset().count(other[i]) > 0);
    }
    assert forall|k: int| 0 <= k < one.len() implies other.contains(#[trigger] one[k]) by {
        assert(one.contains(one[k]));
        assert(other.to_multiset().count(one[k]) > 0);
    }
    assert(one.no_duplicates());
    one.lemma_multiset_has_no_duplicates();
    other.lemma_multiset_has_no_duplicates_conv();
    assert forall|i: int, j: int| 0 <= i < j < other.len() implies (#[trigger] other[i]).0 != (
    #[trigger] other[j]).0 by {
        let k = one.index_of(other[i]);
        let l = one.index_of(other[j]);
        assert(one.contains(other[i]) && one.contains(other[j]));
        assert(other[i] != other[j]);
        if k < l {
            assert(one[k].0 != one[l].0);
        } else if l < k {
            assert(one[l].0 != one[k].0);
        }
    }
}

} // verus!
