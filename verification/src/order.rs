//! Orders on text and sorting.
use crate::text::{chars_of, same_text};
use vstd::prelude::*;
use vstd::relations::{sorted_by, total_ordering};

verus! {

/// Where a character stands when texts are compared. With `slash_first` the slash
/// stands before all others, which compares paths name by name.
pub open spec fn char_rank(c: char, slash_first: bool) -> int {
    if slash_first && c == '/' {
        -1
    } else {
        c as u32 as int
    }
}

/// The lexicographic order of texts by the rank of their characters.
pub open spec fn ranked_le(a: Seq<char>, b: Seq<char>, slash_first: bool) -> bool
    decreases a.len(),
{
    if a.len() == 0 {
        true
    } else if b.len() == 0 {
        false
    } else if a[0] == b[0] {
        ranked_le(a.skip(1), b.skip(1), slash_first)
    } else {
        char_rank(a[0], slash_first) < char_rank(b[0], slash_first)
    }
}

/// The lexicographic order of texts by code point.
pub open spec fn text_le() -> spec_fn(Seq<char>, Seq<char>) -> bool {
    |a: Seq<char>, b: Seq<char>| ranked_le(a, b, false)
}

/// The order of paths, which compares them name by name.
pub open spec fn path_le() -> spec_fn(Seq<char>, Seq<char>) -> bool {
    |a: Seq<char>, b: Seq<char>| ranked_le(a, b, true)
}

proof fn lemma_ranked_reflexive(a: Seq<char>, slash_first: bool)
    ensures
        ranked_le(a, a, slash_first),
    decreases a.len(),
{
    if a.len() > 0 {
        lemma_ranked_reflexive(a.skip(1), slash_first);
    }
}

proof fn lemma_rank_injective(x: char, y: char, slash_first: bool)
    requires
        x != y,
    ensures
        char_rank(x, slash_first) != char_rank(y, slash_first),
{
}

proof fn lemma_ranked_total(a: Seq<char>, b: Seq<char>, slash_first: bool)
    ensures
        ranked_le(a, b, slash_first) || ranked_le(b, a, slash_first),
    decreases a.len(),
{
    if a.len() > 0 && b.len() > 0 && a[0] == b[0] {
        lemma_ranked_total(a.skip(1), b.skip(1), slash_first);
    } else if a.len() > 0 && b.len() > 0 {
        lemma_rank_injective(a[0], b[0], slash_first);
    }
}

proof fn lemma_ranked_antisymmetric(a: Seq<char>, b: Seq<char>, slash_first: bool)
    requires
        ranked_le(a, b, slash_first),
        ranked_le(b, a, slash_first),
    ensures
        a == b,
    decreases a.len(),
{
    if a.len() > 0 && b.len() > 0 {
        lemma_ranked_antisymmetric(a.skip(1), b.skip(1), slash_first);
        assert(a =~= seq![a[0]] + a.skip(1));
        assert(b =~= seq![b[0]] + b.skip(1));
    } else {
        assert(a =~= b);
    }
}

proof fn lemma_ranked_transitive(a: Seq<char>, b: Seq<char>, c: Seq<char>, slash_first: bool)
    requires
        ranked_le(a, b, slash_first),
        ranked_le(b, c, slash_first),
    ensures
        ranked_le(a, c, slash_first),
    decreases a.len(),
{
    if a.len() > 0 && b.len() > 0 && c.len() > 0 {
        if a[0] == b[0] && b[0] == c[0] {
            lemma_ranked_transitive(a.skip(1), b.skip(1), c.skip(1), slash_first);
        }
    }
}

/// Both orders of text are total.
pub proof fn text_orders_are_total()
    ensures
        total_ordering(text_le()),
        total_ordering(path_le()),
{
    assert forall|slash_first: bool|
        #![trigger ranked_le(seq![], seq![], slash_first)]
        true implies {
        let le = |a: Seq<char>, b: Seq<char>| ranked_le(a, b, slash_first);
        total_ordering(le)
    } by {
        let le = |a: Seq<char>, b: Seq<char>| ranked_le(a, b, slash_first);
        assert forall|a: Seq<char>| #[trigger] le(a, a) by {
            lemma_ranked_reflexive(a, slash_first);
        }
        assert forall|a: Seq<char>, b: Seq<char>| #[trigger] le(a, b) || #[trigger] le(b, a) by {
            lemma_ranked_total(a, b, slash_first);
        }
        assert forall|a: Seq<char>, b: Seq<char>| #[trigger]
            le(a, b) && #[trigger] le(b, a) implies a == b by {
            lemma_ranked_antisymmetric(a, b, slash_first);
        }
        assert forall|a: Seq<char>, b: Seq<char>, c: Seq<char>| #[trigger]
            le(a, b) && #[trigger] le(b, c) implies le(a, c) by {
            lemma_ranked_transitive(a, b, c, slash_first);
        }
    }
    assert(ranked_le(seq![], seq![], false) && ranked_le(seq![], seq![], true));
}

/// Compares two texts by the rank of their characters.
pub fn is_ranked_le(left: &str, right: &str, slash_first: bool) -> (le: bool)
    ensures
        le == ranked_le(left@, right@, slash_first),
{
    let a = chars_of(left);
    let b = chars_of(right);
    let mut at: usize = 0;
    assert(left@.skip(0) =~= left@ && right@.skip(0) =~= right@);
    while at < a.len() && at < b.len() && a[at] == b[at]
        invariant
            a@ == left@,
            b@ == right@,
            at <= a@.len(),
            at <= b@.len(),
            ranked_le(left@, right@, slash_first) == ranked_le(
                left@.skip(at as int),
                right@.skip(at as int),
                slash_first,
            ),
        decreases a@.len() - at,
    {
        assert(left@.skip(at as int).skip(1) =~= left@.skip(at + 1));
        assert(right@.skip(at as int).skip(1) =~= right@.skip(at + 1));
        at = at + 1;
    }
    if at == a.len() {
        return true;
    }
    if at == b.len() {
        return false;
    }
    if slash_first && a[at] == '/' {
        true
    } else if slash_first && b[at] == '/' {
        false
    } else {
        (a[at] as u32) < (b[at] as u32)
    }
}

/// The place of `item` in a sorted list: after all that are not greater.
fn insertion_point(sorted: &Vec<String>, item: &str, slash_first: bool) -> (at: usize)
    ensures
        at <= sorted@.len(),
        at > 0 ==> ranked_le(sorted@[at - 1]@, item@, slash_first),
        at < sorted@.len() ==> !ranked_le(sorted@[at as int]@, item@, slash_first),
{
    let mut at: usize = 0;
    while at < sorted.len() && is_ranked_le(&sorted[at], item, slash_first)
        invariant
            at <= sorted@.len(),
            at > 0 ==> ranked_le(sorted@[at - 1]@, item@, slash_first),
        decreases sorted@.len() - at,
    {
        at = at + 1;
    }
    at
}

/// Sorts a list of texts.
fn sort_ranked(items: Vec<String>, slash_first: bool) -> (sorted: Vec<String>)
    ensures
        sorted_by(
            sorted.deep_view(),
            |a: Seq<char>, b: Seq<char>| ranked_le(a, b, slash_first),
        ),
        sorted.deep_view().to_multiset() == items.deep_view().to_multiset(),
{
    let mut sorted: Vec<String> = Vec::new();
    let mut at: usize = 0;
    let ghost le = |a: Seq<char>, b: Seq<char>| ranked_le(a, b, slash_first);
    assert(sorted.deep_view() =~= items.deep_view().take(0));
    while at < items.len()
        invariant
            at <= items@.len(),
            le == (|a: Seq<char>, b: Seq<char>| ranked_le(a, b, slash_first)),
            sorted_by(sorted.deep_view(), le),
            sorted.deep_view().to_multiset() == items.deep_view().take(at as int).to_multiset(),
        decreases items@.len() - at,
    {
        let item = items[at].clone();
        let place = insertion_point(&sorted, &item, slash_first);
        let ghost before = sorted.deep_view();
        proof {
            broadcast use vstd::seq_lib::group_to_multiset_ensures;

            assert(items.deep_view().take(at + 1) =~= items.deep_view().take(at as int).push(
                item@,
            ));
            assert(before.insert(place as int, item@).to_multiset()
                == before.to_multiset().insert(item@));
        }
        sorted.insert(place, item);
        proof {
            let after = sorted.deep_view();
            assert(after =~= before.insert(place as int, item@));
            assert forall|i: int, j: int| 0 <= i < j < after.len() implies #[trigger] le(
                after[i],
                after[j],
            ) by {
                if i < place && j == place {
                    if i < place - 1 {
                        assert(le(before[i], before[place - 1]));
                        lemma_ranked_transitive(
                            before[i],
                            before[place - 1],
                            item@,
                            slash_first,
                        );
                    }
                } else if i == place && j > place {
                    lemma_ranked_total(before[place as int], item@, slash_first);
                    if j - 1 > place {
                        assert(le(before[place as int], before[j - 1]));
                        lemma_ranked_transitive(
                            item@,
                            before[place as int],
                            before[j - 1],
                            slash_first,
                        );
                    }
                } else {
                    let p = if i < place {
                        i
                    } else {
                        i - 1
                    };
                    let q = if j < place {
                        j
                    } else {
                        j - 1
                    };
                    assert(le(before[p], before[q]));
                }
            }
        }
        at = at + 1;
    }
    assert(items.deep_view().take(at as int) =~= items.deep_view());
    sorted
}

/// Sorts a list of texts by code point.
pub fn sort_texts(items: Vec<String>) -> (sorted: Vec<String>)
    ensures
        sorted.deep_view() == items.deep_view().sort_by(text_le()),
{
    let sorted = sort_ranked(items, false);
    proof {
        text_orders_are_total();
        items.deep_view().lemma_sort_by_ensures(text_le());
        vstd::seq_lib::lemma_sorted_unique(
            sorted.deep_view(),
            items.deep_view().sort_by(text_le()),
            text_le(),
        );
    }
    sorted
}

/// Sorts a list of paths name by name.
pub fn sort_paths(items: Vec<String>) -> (sorted: Vec<String>)
    ensures
        sorted.deep_view() == items.deep_view().sort_by(path_le()),
{
    let sorted = sort_ranked(items, true);
    proof {
        text_orders_are_total();
        items.deep_view().lemma_sort_by_ensures(path_le());
        vstd::seq_lib::lemma_sorted_unique(
            sorted.deep_view(),
            items.deep_view().sort_by(path_le()),
            path_le(),
        );
    }
    sorted
}

// ---------------------------------------------------------------------------
// Pairs
// ---------------------------------------------------------------------------
/// The order of pairs of texts: by the first text, then by the second.
pub open spec fn pair_le() -> spec_fn((Seq<char>, Seq<char>), (Seq<char>, Seq<char>)) -> bool {
    |a: (Seq<char>, Seq<char>), b: (Seq<char>, Seq<char>)|
        if a.0 == b.0 {
            ranked_le(a.1, b.1, false)
        } else {
            ranked_le(a.0, b.0, false)
        }
}

/// The order of pairs is total.
pub proof fn pair_order_is_total()
    ensures
        total_ordering(pair_le()),
{
    text_orders_are_total();
    let le = pair_le();
    let by_text = text_le();
    assert forall|a: (Seq<char>, Seq<char>)| #[trigger] le(a, a) by {
        assert(by_text(a.1, a.1));
    }
    assert forall|a: (Seq<char>, Seq<char>), b: (Seq<char>, Seq<char>)| #[trigger]
        le(a, b) && #[trigger] le(b, a) implies a == b by {
        if a.0 == b.0 {
            assert(by_text(a.1, b.1) && by_text(b.1, a.1));
        } else {
            assert(by_text(a.0, b.0) && by_text(b.0, a.0));
        }
    }
    assert forall|
        a: (Seq<char>, Seq<char>),
        b: (Seq<char>, Seq<char>),
        c: (Seq<char>, Seq<char>),
    | #[trigger] le(a, b) && #[trigger] le(b, c) implies le(a, c) by {
        if a.0 == b.0 && b.0 == c.0 {
            assert(by_text(a.1, b.1) && by_text(b.1, c.1));
        } else if a.0 != b.0 && b.0 != c.0 {
            assert(by_text(a.0, b.0) && by_text(b.0, c.0));
            if a.0 == c.0 {
                assert(by_text(b.0, a.0));
            }
        }
    }
    assert forall|a: (Seq<char>, Seq<char>), b: (Seq<char>, Seq<char>)| #[trigger]
        le(a, b) || #[trigger] le(b, a) by {
        assert(by_text(a.0, b.0) || by_text(b.0, a.0));
        assert(by_text(a.1, b.1) || by_text(b.1, a.1));
    }
}

/// Whether one pair of texts comes before another or equals it.
fn is_pair_le(left: &(String, String), right: &(String, String)) -> (le: bool)
    ensures
        le == pair_le()((left.0@, left.1@), (right.0@, right.1@)),
{
    if same_text(&left.0, &right.0) {
        is_ranked_le(&left.1, &right.1, false)
    } else {
        is_ranked_le(&left.0, &right.0, false)
    }
}

/// The place of a pair in a sorted list: after all that are not greater.
fn pair_insertion_point(sorted: &Vec<(String, String)>, item: &(String, String)) -> (at: usize)
    ensures
        at <= sorted@.len(),
        at > 0 ==> pair_le()(sorted.deep_view()[at - 1], (item.0@, item.1@)),
        at < sorted@.len() ==> !pair_le()(sorted.deep_view()[at as int], (item.0@, item.1@)),
{
    let mut at: usize = 0;
    while at < sorted.len() && is_pair_le(&sorted[at], item)
        invariant
            at <= sorted@.len(),
            at > 0 ==> pair_le()(sorted.deep_view()[at - 1], (item.0@, item.1@)),
        decreases sorted@.len() - at,
    {
        at = at + 1;
    }
    at
}

/// Sorts a list of pairs of texts by the first text, then by the second.
pub fn sort_pairs(items: Vec<(String, String)>) -> (sorted: Vec<(String, String)>)
    ensures
        sorted.deep_view() == items.deep_view().sort_by(pair_le()),
{
    let ghost all = items.deep_view();
    let ghost le = pair_le();
    let mut sorted: Vec<(String, String)> = Vec::new();
    let mut at: usize = 0;
    proof {
        pair_order_is_total();
        assert(sorted.deep_view() =~= all.take(0));
    }
    while at < items.len()
        invariant
            at <= items@.len(),
            items.deep_view() == all,
            le == pair_le(),
            total_ordering(le),
            sorted_by(sorted.deep_view(), le),
            sorted.deep_view().to_multiset() == all.take(at as int).to_multiset(),
        decreases items@.len() - at,
    {
        let item = (items[at].0.clone(), items[at].1.clone());
        let ghost pair = (item.0@, item.1@);
        let place = pair_insertion_point(&sorted, &item);
        let ghost before = sorted.deep_view();
        proof {
            broadcast use vstd::seq_lib::group_to_multiset_ensures;

            assert(all[at as int] == pair);
            assert(all.take(at + 1) =~= all.take(at as int).push(pair));
            assert(before.insert(place as int, pair).to_multiset() == before.to_multiset().insert(
                pair,
            ));
        }
        sorted.insert(place, item);
        proof {
            let after = sorted.deep_view();
            assert(after =~= before.insert(place as int, pair));
            assert forall|i: int, j: int| 0 <= i < j < after.len() implies #[trigger] le(
                after[i],
                after[j],
            ) by {
                if i < place && j == place {
                    if i < place - 1 {
                        assert(le(before[i], before[place - 1]));
                        assert(le(before[place - 1], pair));
                    }
                } else if i == place && j > place {
                    assert(le(before[place as int], pair) || le(pair, before[place as int]));
                    if j - 1 > place {
                        assert(le(before[place as int], before[j - 1]));
                        assert(le(pair, before[place as int]));
                    }
                } else {
                    let p = if i < place {
                        i
                    } else {
                        i - 1
                    };
                    let q = if j < place {
                        j
                    } else {
                        j - 1
                    };
                    assert(le(before[p], before[q]));
                }
            }
        }
        at = at + 1;
    }
    proof {
        assert(all.take(at as int) =~= all);
        all.lemma_sort_by_ensures(le);
        vstd::seq_lib::lemma_sorted_unique(sorted.deep_view(), all.sort_by(le), le);
    }
    sorted
}

/// Texts are ordered by the first place at which they differ, and a text comes before all
/// that it begins. Paths are ordered in the same way, but that a slash comes before any other
/// character, so that what is in a directory comes right after it.
pub proof fn orders_go_by_the_first_difference(
    front: Seq<char>,
    one: char,
    other: char,
    rest: Seq<char>,
    more: Seq<char>,
)
    requires
        (one as u32) < (other as u32),
    ensures
        text_le()(front + seq![one] + rest, front + seq![other] + more),
        !text_le()(front + seq![other] + more, front + seq![one] + rest),
        text_le()(front, front + rest),
        rest.len() > 0 ==> !text_le()(front + rest, front),
        one == '/' || other != '/' ==> path_le()(
            front + seq![one] + rest,
            front + seq![other] + more,
        ),
        other == '/' ==> path_le()(front + seq![other] + more, front + seq![one] + rest)
            && !path_le()(front + seq![one] + rest, front + seq![other] + more),
        path_le()(front, front + rest),
    decreases front.len(),
{
    let left = front + seq![one] + rest;
    let right = front + seq![other] + more;
    if front.len() > 0 {
        let fewer = front.skip(1);
        orders_go_by_the_first_difference(fewer, one, other, rest, more);
        assert(left.skip(1) =~= fewer + seq![one] + rest);
        assert(right.skip(1) =~= fewer + seq![other] + more);
        assert((front + rest).skip(1) =~= fewer + rest);
        assert(left[0] == right[0]);
        assert((front + rest)[0] == front[0]);
    } else {
        assert(left[0] == one && right[0] == other);
    }
}

/// Pairs are ordered by their first text, and where that is the same by their second.
pub proof fn pairs_go_by_their_first_text(
    first: Seq<char>,
    other: Seq<char>,
    second: Seq<char>,
    another: Seq<char>,
)
    ensures
        first != other ==> pair_le()((first, second), (other, another)) == text_le()(first, other),
        pair_le()((first, second), (first, another)) == text_le()(second, another),
{
}

} // verus!
