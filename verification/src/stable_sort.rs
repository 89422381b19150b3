//! Sorting by a key without reordering what has the same key.
use crate::sequence::{lemma_filter_empty, lemma_filter_next};
use vstd::prelude::*;

verus! {

/// A value that is ordered by a number.
pub trait Keyed: Sized {
    /// The number.
    spec fn key(self) -> int;

    /// Whether this value's number is at most the other's.
    fn at_most(&self, other: &Self) -> (le: bool)
        ensures
            le == (self.key() <= other.key()),
    ;
}

/// Whether a value has a given key.
pub open spec fn has_key<T: Keyed>(key: int) -> spec_fn(T) -> bool {
    |item: T| item.key() == key
}

/// The values with a given key, in order.
pub open spec fn with_key<T: Keyed>(items: Seq<T>, key: int) -> Seq<T> {
    items.filter(has_key(key))
}

/// The output is the input in the order of the keys, and values with the same key
/// are in the order they had.
pub open spec fn is_stable_sort<T: Keyed>(input: Seq<T>, output: Seq<T>) -> bool {
    &&& forall|i: int, j: int|
        0 <= i < j < output.len() ==> (#[trigger] output[i]).key() <= (#[trigger] output[j]).key()
    &&& forall|key: int| #[trigger] with_key(output, key) == with_key(input, key)
}

/// The place after all values whose keys are not greater.
fn place_for<T: Keyed>(sorted: &Vec<T>, item: &T) -> (at: usize)
    ensures
        at <= sorted@.len(),
        forall|i: int| 0 <= i < at ==> (#[trigger] sorted@[i]).key() <= item.key(),
        at < sorted@.len() ==> sorted@[at as int].key() > item.key(),
{
    let mut at: usize = 0;
    while at < sorted.len() && sorted[at].at_most(item)
        invariant
            at <= sorted@.len(),
            forall|i: int| 0 <= i < at ==> (#[trigger] sorted@[i]).key() <= item.key(),
        decreases sorted@.len() - at,
    {
        at = at + 1;
    }
    at
}

/// Inserting after all equal keys appends to the values with that key.
proof fn lemma_insert<T: Keyed>(sorted: Seq<T>, place: int, item: T, key: int)
    requires
        0 <= place <= sorted.len(),
        forall|i: int| place <= i < sorted.len() ==> (#[trigger] sorted[i]).key() > item.key(),
    ensures
        with_key(sorted.insert(place, item), key) == if item.key() == key {
            with_key(sorted, key).push(item)
        } else {
            with_key(sorted, key)
        },
{
    let keep = has_key::<T>(key);
    let front = sorted.take(place);
    let back = sorted.skip(place);
    let next = sorted.insert(place, item);
    assert(sorted =~= front + back);
    assert(next =~= front + (seq![item] + back));
    Seq::filter_distributes_over_add(front, back, keep);
    Seq::filter_distributes_over_add(front, seq![item] + back, keep);
    Seq::filter_distributes_over_add(seq![item], back, keep);
    reveal(Seq::filter);
    assert(seq![item].drop_last() =~= Seq::<T>::empty());
    lemma_filter_empty(seq![item].drop_last(), keep);
    assert(with_key(next, key) == front.filter(keep) + (seq![item].filter(keep) + back.filter(
        keep,
    )));
    assert(with_key(sorted, key) == front.filter(keep) + back.filter(keep));
    if item.key() == key {
        assert forall|i: int| 0 <= i < back.len() implies !keep(#[trigger] back[i]) by {
            assert(back[i] == sorted[place + i]);
        }
        back.lemma_all_neg_filter_empty(keep);
        assert(seq![item].filter(keep) =~= seq![item]);
        assert(back.filter(keep) =~= Seq::<T>::empty());
        assert(with_key(next, key) =~= with_key(sorted, key).push(item));
    } else {
        assert(seq![item].filter(keep) =~= Seq::<T>::empty());
        assert(with_key(next, key) =~= with_key(sorted, key));
    }
}

/// Sorts by key; values with the same key keep their order.
pub fn stable_sort<T: Keyed>(items: Vec<T>) -> (sorted: Vec<T>)
    ensures
        is_stable_sort(items@, sorted@),
        sorted@.len() == items@.len(),
{
    let ghost all = items@;
    let mut rest = items;
    let mut sorted: Vec<T> = Vec::new();
    let ghost mut done: int = 0;
    proof {
        assert(all.skip(0) =~= all);
        assert(sorted@ =~= all.take(0));
    }
    while rest.len() > 0
        invariant
            0 <= done <= all.len(),
            rest@ == all.skip(done),
            sorted@.len() == done,
            is_stable_sort(all.take(done), sorted@),
        decreases rest@.len(),
    {
        let item = rest.remove(0);
        assert(item == all[done]);
        let place = place_for(&sorted, &item);
        let ghost before = sorted@;
        sorted.insert(place, item);
        proof {
            let next = all.take(done + 1);
            assert forall|i: int| place <= i < before.len() implies (#[trigger] before[i]).key()
                > item.key() by {
                if i > place {
                    assert(before[place as int].key() <= before[i].key());
                }
            }
            assert forall|key: int| #[trigger] with_key(sorted@, key) == with_key(next, key) by {
                lemma_insert(before, place as int, item, key);
                lemma_filter_next(all, done, has_key::<T>(key));
                assert(with_key(before, key) == with_key(all.take(done), key));
            }
            assert forall|i: int, j: int| 0 <= i < j < sorted@.len() implies (
            #[trigger] sorted@[i]).key() <= (#[trigger] sorted@[j]).key() by {
                let p = if i < place {
                    i
                } else {
                    i - 1
                };
                let q = if j < place {
                    j
                } else {
                    j - 1
                };
                if i != place && j != place {
                    assert(before[p].key() <= before[q].key());
                } else if j == place {
                    assert(before[i].key() <= item.key());
                } else {
                    assert(before[j - 1].key() > item.key());
                }
            }
            assert(all.skip(done).remove(0) =~= all.skip(done + 1));
            done = done + 1;
        }
    }
    assert(all.take(done) =~= all);
    sorted
}

} // verus!
