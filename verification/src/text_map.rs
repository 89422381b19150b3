//! Maps keyed by text, kept as a list in which no key occurs twice.
use crate::order::{sort_texts, text_le, text_orders_are_total};
use crate::sequence::lemma_enumerations;
use crate::text::{glue3, same_text};
use vstd::prelude::*;

verus! {

/// A map from text to values. Entries stay in the order of their first insertion.
pub struct TextMap<T> {
    entries: Vec<(String, T)>,
}

/// A map from text to text.
pub type StringMap = TextMap<String>;

/// Entry `i` has the key `key`.
spec fn holds<T>(entries: Seq<(String, T)>, i: int, key: Seq<char>) -> bool {
    0 <= i < entries.len() && entries[i].0@ == key
}

/// The map that a list of entries stands for.
spec fn map_of<T>(entries: Seq<(String, T)>) -> Map<Seq<char>, T> {
    Map::new(
        |key: Seq<char>| exists|i: int| holds(entries, i, key),
        |key: Seq<char>| entries[choose|i: int| holds(entries, i, key)].1,
    )
}

/// No key occurs twice.
spec fn distinct<T>(entries: Seq<(String, T)>) -> bool {
    forall|i: int, j: int|
        0 <= i < j < entries.len() ==> #[trigger] entries[i].0@ != #[trigger] entries[j].0@
}

impl<T> View for TextMap<T> {
    type V = Map<Seq<char>, T>;

    closed spec fn view(&self) -> Map<Seq<char>, T> {
        map_of(self.entries@)
    }
}

impl<T: DeepView> DeepView for TextMap<T> {
    type V = Map<Seq<char>, T::V>;

    open spec fn deep_view(&self) -> Map<Seq<char>, T::V> {
        self@.map_values(|value: T| value.deep_view())
    }
}

impl<T> TextMap<T> {
    #[verifier::type_invariant]
    spec fn no_key_twice(self) -> bool {
        distinct(self.entries@)
    }

    /// The empty map.
    pub fn new() -> (map: Self)
        ensures
            map@ == Map::<Seq<char>, T>::empty(),
    {
        let map = TextMap { entries: Vec::new() };
        assert(map@ =~= Map::empty());
        map
    }

    /// The index of the entry with this key.
    fn position(&self, key: &str) -> (at: Option<usize>)
        ensures
            at matches Some(i) ==> holds(self.entries@, i as int, key@) && self@.contains_key(key@)
                && self@[key@] == self.entries@[i as int].1,
            at is None ==> !self@.contains_key(key@),
    {
        proof {
            use_type_invariant(self);
        }
        let mut at: usize = 0;
        while at < self.entries.len()
            invariant
                at <= self.entries@.len(),
                distinct(self.entries@),
                forall|i: int| 0 <= i < at ==> !holds(self.entries@, i, key@),
            decreases self.entries@.len() - at,
        {
            if same_text(&self.entries[at].0, key) {
                proof {
                    assert(holds(self.entries@, at as int, key@));
                    let found = choose|i: int| holds(self.entries@, i, key@);
                    assert(found == at) by {
                        if found < at {
                            assert(self.entries@[found].0@ != self.entries@[at as int].0@);
                        } else if found > at {
                            assert(self.entries@[at as int].0@ != self.entries@[found].0@);
                        }
                    }
                }
                return Some(at);
            }
            at = at + 1;
        }
        None
    }

    /// Whether the map has this key.
    pub fn contains_key(&self, key: &str) -> (found: bool)
        ensures
            found == self@.contains_key(key@),
    {
        self.position(key).is_some()
    }

    /// The value of this key.
    pub fn get(&self, key: &str) -> (value: Option<&T>)
        ensures
            value is Some == self@.contains_key(key@),
            value matches Some(v) ==> *v == self@[key@],
    {
        match self.position(key) {
            Some(at) => Some(&self.entries[at].1),
            None => None,
        }
    }

    /// Sets the value of a key.
    pub fn insert(&mut self, key: String, value: T)
        ensures
            final(self)@ == old(self)@.insert(key@, value),
    {
        proof {
            use_type_invariant(&*self);
        }
        let ghost before = self@;
        let place = self.position(&key);
        let mut entries: Vec<(String, T)> = Vec::new();
        std::mem::swap(&mut entries, &mut self.entries);
        let ghost old_entries = entries@;
        match place {
            Some(at) => {
                entries.set(at, (key, value));
                proof {
                    let new_entries = entries@;
                    lemma_distinct_update(old_entries, at as int, (key, value));
                    lemma_map_update(old_entries, at as int, (key, value));
                }
            },
            None => {
                entries.push((key, value));
                proof {
                    assert forall|i: int| !holds(old_entries, i, key@) by {
                        if holds(old_entries, i, key@) {
                            assert(before.contains_key(key@));
                        }
                    }
                    lemma_distinct_push(old_entries, (key, value));
                    lemma_map_push(old_entries, (key, value));
                }
            },
        }
        self.entries = entries;
    }

    /// Removes a key.
    pub fn remove(&mut self, key: &str)
        ensures
            final(self)@ == old(self)@.remove(key@),
    {
        proof {
            use_type_invariant(&*self);
        }
        let ghost before = self@;
        match self.position(key) {
            Some(at) => {
                let mut entries: Vec<(String, T)> = Vec::new();
                std::mem::swap(&mut entries, &mut self.entries);
                let ghost old_entries = entries@;
                entries.remove(at);
                proof {
                    lemma_map_remove(old_entries, at as int);
                }
                self.entries = entries;
            },
            None => {
                assert(before.remove(key@) =~= before);
            },
        }
    }

    /// The number of keys.
    pub fn len(&self) -> (len: usize)
        ensures
            self@.dom().finite(),
            len == self@.dom().len(),
    {
        proof {
            use_type_invariant(self);
            lemma_keys(self.entries@);
            keys_of(self.entries@).unique_seq_to_set();
        }
        self.entries.len()
    }

    /// The entries, in the order of their first insertion.
    pub fn entries(&self) -> (entries: &Vec<(String, T)>)
        ensures
            forall|i: int|
                0 <= i < entries@.len() ==> self@.contains_key(#[trigger] entries@[i].0@)
                    && self@[entries@[i].0@] == entries@[i].1,
            forall|key: Seq<char>|
                self@.contains_key(key) ==> exists|i: int|
                    0 <= i < entries@.len() && #[trigger] entries@[i].0@ == key,
            forall|i: int, j: int|
                0 <= i < j < entries@.len() ==> #[trigger] entries@[i].0@
                    != #[trigger] entries@[j].0@,
    {
        proof {
            use_type_invariant(self);
            assert forall|i: int| 0 <= i < self.entries@.len() implies self@.contains_key(
                #[trigger] self.entries@[i].0@,
            ) && self@[self.entries@[i].0@] == self.entries@[i].1 by {
                lemma_entry(self.entries@, i);
            }
            assert forall|key: Seq<char>| self@.contains_key(key) implies exists|i: int|
                0 <= i < self.entries@.len() && #[trigger] self.entries@[i].0@ == key by {
                let i = choose|i: int| holds(self.entries@, i, key);
                assert(self.entries@[i].0@ == key);
            }
        }
        &self.entries
    }
}

proof fn lemma_entry<T>(entries: Seq<(String, T)>, i: int)
    requires
        distinct(entries),
        0 <= i < entries.len(),
    ensures
        map_of(entries).contains_key(entries[i].0@),
        map_of(entries)[entries[i].0@] == entries[i].1,
{
    let key = entries[i].0@;
    assert(holds(entries, i, key));
    let found = choose|j: int| holds(entries, j, key);
    if found < i {
        assert(entries[found].0@ != entries[i].0@);
    } else if found > i {
        assert(entries[i].0@ != entries[found].0@);
    }
}

proof fn lemma_distinct_update<T>(entries: Seq<(String, T)>, at: int, entry: (String, T))
    requires
        distinct(entries),
        0 <= at < entries.len(),
        entries[at].0@ == entry.0@,
    ensures
        distinct(entries.update(at, entry)),
{
    let updated = entries.update(at, entry);
    assert forall|i: int, j: int| 0 <= i < j < updated.len() implies #[trigger] updated[i].0@
        != #[trigger] updated[j].0@ by {
        assert(entries[i].0@ != entries[j].0@);
    }
}

proof fn lemma_distinct_push<T>(entries: Seq<(String, T)>, entry: (String, T))
    requires
        distinct(entries),
        forall|i: int| !holds(entries, i, entry.0@),
    ensures
        distinct(entries.push(entry)),
{
    let pushed = entries.push(entry);
    assert forall|i: int, j: int| 0 <= i < j < pushed.len() implies #[trigger] pushed[i].0@
        != #[trigger] pushed[j].0@ by {
        if j < entries.len() {
            assert(entries[i].0@ != entries[j].0@);
        } else {
            assert(!holds(entries, i, entry.0@));
        }
    }
}

proof fn lemma_map_update<T>(entries: Seq<(String, T)>, at: int, entry: (String, T))
    requires
        distinct(entries),
        0 <= at < entries.len(),
        entries[at].0@ == entry.0@,
    ensures
        map_of(entries.update(at, entry)) == map_of(entries).insert(entry.0@, entry.1),
{
    let updated = entries.update(at, entry);
    lemma_distinct_update(entries, at, entry);
    let left = map_of(updated);
    let right = map_of(entries).insert(entry.0@, entry.1);
    assert forall|key: Seq<char>| left.contains_key(key) == right.contains_key(key) by {
        assert forall|i: int| holds(updated, i, key) == holds(entries, i, key) by {}
        if key == entry.0@ {
            assert(holds(updated, at, key));
        }
        if map_of(entries).contains_key(key) {
            let i = choose|i: int| holds(entries, i, key);
            assert(holds(updated, i, key));
        }
        if left.contains_key(key) {
            let i = choose|i: int| holds(updated, i, key);
            assert(holds(entries, i, key));
        }
    }
    assert forall|key: Seq<char>| left.contains_key(key) implies left[key] == right[key] by {
        let i = choose|i: int| holds(updated, i, key);
        lemma_entry(updated, i);
        lemma_entry(entries, i);
        if key == entry.0@ {
            lemma_entry(updated, at);
        } else {
            assert(i != at);
        }
    }
    assert(left =~= right);
}

proof fn lemma_map_push<T>(entries: Seq<(String, T)>, entry: (String, T))
    requires
        distinct(entries),
        forall|i: int| !holds(entries, i, entry.0@),
    ensures
        map_of(entries.push(entry)) == map_of(entries).insert(entry.0@, entry.1),
{
    let pushed = entries.push(entry);
    lemma_distinct_push(entries, entry);
    let left = map_of(pushed);
    let right = map_of(entries).insert(entry.0@, entry.1);
    assert forall|key: Seq<char>| left.contains_key(key) == right.contains_key(key) by {
        if key == entry.0@ {
            assert(holds(pushed, entries.len() as int, key));
        }
        if map_of(entries).contains_key(key) {
            let i = choose|i: int| holds(entries, i, key);
            assert(holds(pushed, i, key));
        }
        if left.contains_key(key) && key != entry.0@ {
            let i = choose|i: int| holds(pushed, i, key);
            assert(holds(entries, i, key));
        }
    }
    assert forall|key: Seq<char>| left.contains_key(key) implies left[key] == right[key] by {
        let i = choose|i: int| holds(pushed, i, key);
        lemma_entry(pushed, i);
        if i < entries.len() {
            lemma_entry(entries, i);
            assert(holds(entries, i, key));
        }
    }
    assert(left =~= right);
}

proof fn lemma_map_remove<T>(entries: Seq<(String, T)>, at: int)
    requires
        distinct(entries),
        0 <= at < entries.len(),
    ensures
        distinct(entries.remove(at)),
        map_of(entries.remove(at)) == map_of(entries).remove(entries[at].0@),
{
    let rest = entries.remove(at);
    assert forall|i: int, j: int| 0 <= i < j < rest.len() implies #[trigger] rest[i].0@
        != #[trigger] rest[j].0@ by {
        let p = if i < at {
            i
        } else {
            i + 1
        };
        let q = if j < at {
            j
        } else {
            j + 1
        };
        assert(entries[p].0@ != entries[q].0@);
    }
    let left = map_of(rest);
    let right = map_of(entries).remove(entries[at].0@);
    assert forall|key: Seq<char>| left.contains_key(key) == right.contains_key(key) by {
        if left.contains_key(key) {
            let i = choose|i: int| holds(rest, i, key);
            let p = if i < at {
                i
            } else {
                i + 1
            };
            assert(holds(entries, p, key));
            if p < at {
                assert(entries[p].0@ != entries[at].0@);
            } else {
                assert(entries[at].0@ != entries[p].0@);
            }
        }
        if right.contains_key(key) {
            let p = choose|p: int| holds(entries, p, key);
            let i = if p < at {
                p
            } else {
                p - 1
            };
            assert(holds(rest, i, key));
        }
    }
    assert forall|key: Seq<char>| left.contains_key(key) implies left[key] == right[key] by {
        let i = choose|i: int| holds(rest, i, key);
        lemma_entry(rest, i);
        let p = if i < at {
            i
        } else {
            i + 1
        };
        lemma_entry(entries, p);
    }
    assert(left =~= right);
}

/// The keys of a list of entries.
spec fn keys_of<T>(entries: Seq<(String, T)>) -> Seq<Seq<char>> {
    entries.map_values(|entry: (String, T)| entry.0@)
}

proof fn lemma_keys<T>(entries: Seq<(String, T)>)
    requires
        distinct(entries),
    ensures
        keys_of(entries).no_duplicates(),
        keys_of(entries).to_set() == map_of(entries).dom(),
        map_of(entries).dom().finite(),
{
    let keys = keys_of(entries);
    let dom = map_of(entries).dom();
    assert(keys.no_duplicates()) by {
        assert forall|i: int, j: int| 0 <= i < j < keys.len() implies keys[i] != keys[j] by {
            assert(entries[i].0@ != entries[j].0@);
        }
    }
    assert forall|key: Seq<char>| keys.to_set().contains(key) == dom.contains(key) by {
        if keys.to_set().contains(key) {
            let i = choose|i: int| 0 <= i < keys.len() && keys[i] == key;
            assert(holds(entries, i, key));
        }
        if dom.contains(key) {
            let i = choose|i: int| holds(entries, i, key);
            assert(keys[i] == key);
        }
    }
    assert(keys.to_set() =~= dom);
    vstd::seq_lib::seq_to_set_is_finite(keys);
}

// ---------------------------------------------------------------------------
// Maps from text to text
// ---------------------------------------------------------------------------
/// The line `key=value`.
pub open spec fn assignment(map: Map<Seq<char>, Seq<char>>, key: Seq<char>) -> Seq<char> {
    key + "="@ + map[key]
}

/// The lines `key=value` of a map, sorted.
pub open spec fn sorted_assignments(map: Map<Seq<char>, Seq<char>>) -> Seq<Seq<char>> {
    map.dom().to_seq().map_values(|key: Seq<char>| assignment(map, key)).sort_by(text_le())
}

impl Clone for TextMap<String> {
    fn clone(&self) -> (copy: Self)
        ensures
            copy@ == self@,
    {
        proof {
            use_type_invariant(self);
        }
        let mut entries: Vec<(String, String)> = Vec::new();
        let mut at: usize = 0;
        while at < self.entries.len()
            invariant
                at <= self.entries@.len(),
                entries@ == self.entries@.take(at as int),
            decreases self.entries@.len() - at,
        {
            entries.push((self.entries[at].0.clone(), self.entries[at].1.clone()));
            at = at + 1;
            assert(entries@ =~= self.entries@.take(at as int));
        }
        assert(entries@ =~= self.entries@);
        TextMap { entries }
    }
}

impl TextMap<String> {
    /// The lines `key=value`, sorted.
    pub fn assignments(&self) -> (lines: Vec<String>)
        ensures
            lines.deep_view() == sorted_assignments(self.deep_view()),
    {
        proof {
            use_type_invariant(self);
        }
        let ghost map = self.deep_view();
        let ghost line = |key: Seq<char>| assignment(map, key);
        let mut lines: Vec<String> = Vec::new();
        let mut at: usize = 0;
        while at < self.entries.len()
            invariant
                at <= self.entries@.len(),
                distinct(self.entries@),
                map == self.deep_view(),
                line == (|key: Seq<char>| assignment(map, key)),
                lines.deep_view() == keys_of(self.entries@).map_values(line).take(at as int),
            decreases self.entries@.len() - at,
        {
            proof {
                lemma_entry(self.entries@, at as int);
            }
            let ghost before = lines.deep_view();
            lines.push(glue3(&self.entries[at].0, "=", &self.entries[at].1));
            proof {
                let all = keys_of(self.entries@).map_values(line);
                assert(lines@.last()@ == all[at as int]);
                assert(lines.deep_view() =~= before.push(all[at as int]));
                assert(all.take(at as int + 1) =~= all.take(at as int).push(all[at as int]));
            }
            at = at + 1;
        }
        proof {
            assert(lines.deep_view() =~= keys_of(self.entries@).map_values(line));
            lemma_keys(self.entries@);
            assert(map.dom() =~= self@.dom());
            lemma_enumerations(map.dom(), keys_of(self.entries@), line);
            let unsorted = map.dom().to_seq().map_values(line);
            crate::order::text_orders_are_total();
            unsorted.lemma_sort_by_ensures(text_le());
            lines.deep_view().lemma_sort_by_ensures(text_le());
            vstd::seq_lib::lemma_sorted_unique(
                lines.deep_view().sort_by(text_le()),
                unsorted.sort_by(text_le()),
                text_le(),
            );
        }
        sort_texts(lines)
    }
}

/// The lines of a map are one for each key, with its value after an equals sign, in their
/// order.
pub proof fn lines_are_the_entries_in_order(map: Map<Seq<char>, Seq<char>>, line: Seq<char>)
    requires
        map.dom().finite(),
    ensures
        vstd::relations::sorted_by(sorted_assignments(map), text_le()),
        sorted_assignments(map).contains(line) <==> exists|key: Seq<char>| #[trigger]
            map.contains_key(key) && line == key + "="@ + map[key],
{
    let keys = map.dom().to_seq();
    let lines = keys.map_values(|key: Seq<char>| assignment(map, key));
    let sorted = lines.sort_by(text_le());
    text_orders_are_total();
    lines.lemma_sort_by_ensures(text_le());
    lines.to_multiset_ensures();
    sorted.to_multiset_ensures();
    assert(sorted.contains(line) <==> lines.contains(line)) by {
        assert(sorted.to_multiset().count(line) == lines.to_multiset().count(line));
    }
    map.dom().lemma_to_seq_to_set_id();
    if lines.contains(line) {
        let i = lines.index_of(line);
        assert(lines[i] == assignment(map, keys[i]));
        assert(keys.to_set().contains(keys[i]));
        assert(map.contains_key(keys[i]));
    }
    if exists|key: Seq<char>| #[trigger] map.contains_key(key) && line == key + "="@ + map[key] {
        let key = choose|key: Seq<char>| #[trigger]
            map.contains_key(key) && line == key + "="@ + map[key];
        assert(keys.to_set().contains(key));
        let i = keys.index_of(key);
        assert(lines[i] == line);
    }
}

} // verus!
