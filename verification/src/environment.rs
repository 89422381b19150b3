//! Environments as lists of `KEY=VALUE` and as maps.
use crate::order::text_le;
use crate::text::{cut, cut_texts_glue_back, lemma_index_from_unique, split_once};
use crate::text::texts_are_cut_at_the_first;
use crate::text_map::{assignment, sorted_assignments, StringMap};
use vstd::prelude::*;

verus! {

/// The search path of a process whose environment has none.
pub open spec fn default_path() -> Seq<char> {
    "/usr/local/sbin:/usr/local/bin:/usr/sbin:/usr/bin:/sbin:/bin"@
}

/// The environment with the default search path unless it has one.
pub open spec fn with_path(env: Map<Seq<char>, Seq<char>>) -> Map<Seq<char>, Seq<char>> {
    if env.contains_key("PATH"@) {
        env
    } else {
        env.insert("PATH"@, default_path())
    }
}

/// Adds the default search path unless the environment has one.
pub fn ensure_path(env: &mut StringMap)
    ensures
        final(env).deep_view() == with_path(old(env).deep_view()),
{
    if !env.contains_key("PATH") {
        let ghost before = env.deep_view();
        env.insert(
            "PATH".to_string(),
            "/usr/local/sbin:/usr/local/bin:/usr/sbin:/usr/bin:/sbin:/bin".to_string(),
        );
        assert(env.deep_view() =~= before.insert("PATH"@, default_path()));
    }
}

/// The map of `KEY=VALUE` entries: a later one counts, one without an equals sign
/// does not.
pub open spec fn env_of(entries: Seq<Seq<char>>) -> Map<Seq<char>, Seq<char>>
    decreases entries.len(),
{
    if entries.len() == 0 {
        Map::empty()
    } else {
        let before = env_of(entries.drop_last());
        match cut(entries.last(), '=') {
            Some((key, value)) => before.insert(key, value),
            None => before,
        }
    }
}

/// The map of `KEY=VALUE` entries.
pub fn env_vec_to_map(values: &Vec<String>) -> (map: StringMap)
    ensures
        map.deep_view() == env_of(values.deep_view()),
{
    let ghost all = values.deep_view();
    let mut map = StringMap::new();
    let mut at: usize = 0;
    assert(map.deep_view() =~= env_of(all.take(0)));
    while at < values.len()
        invariant
            at <= values@.len(),
            values.deep_view() == all,
            map.deep_view() == env_of(all.take(at as int)),
        decreases values@.len() - at,
    {
        let ghost before = map.deep_view();
        proof {
            assert(all[at as int] == values@[at as int]@);
            assert(all.take(at + 1).drop_last() =~= all.take(at as int));
        }
        if let Some((key, value)) = split_once(&values[at], '=') {
            map.insert(key, value);
            assert(map.deep_view() =~= before.insert(key@, value@));
        }
        at = at + 1;
    }
    assert(all.take(at as int) =~= all);
    map
}

/// The `KEY=VALUE` entries of a map, sorted.
pub fn env_map_to_vec(values: &StringMap) -> (items: Vec<String>)
    ensures
        items.deep_view() == sorted_assignments(values.deep_view()),
{
    values.assignments()
}

/// One of the first `count` entries has this key.
spec fn among_first(entries: Seq<(String, String)>, count: int, key: Seq<char>) -> bool {
    exists|i: int| 0 <= i < count && #[trigger] entries[i].0@ == key
}

/// The environment with `overrides` taking precedence.
pub fn override_env(env: &mut StringMap, overrides: &StringMap)
    ensures
        final(env).deep_view() == old(env).deep_view().union_prefer_right(overrides.deep_view()),
{
    let ghost base = env.deep_view();
    let ghost over = overrides.deep_view();
    let entries = overrides.entries();
    let mut at: usize = 0;
    while at < entries.len()
        invariant
            at <= entries@.len(),
            over == overrides.deep_view(),
            forall|i: int|
                0 <= i < entries@.len() ==> overrides@.contains_key(#[trigger] entries@[i].0@)
                    && overrides@[entries@[i].0@] == entries@[i].1,
            forall|key: Seq<char>| #[trigger]
                env.deep_view().contains_key(key) == (base.contains_key(key) || among_first(
                    entries@,
                    at as int,
                    key,
                )),
            forall|key: Seq<char>|
                env.deep_view().contains_key(key) ==> #[trigger] env.deep_view()[key]
                    == if among_first(entries@, at as int, key) {
                    over[key]
                } else {
                    base[key]
                },
        decreases entries@.len() - at,
    {
        let ghost before = env.deep_view();
        let entry = &entries[at];
        let ghost key = entry.0@;
        env.insert(entry.0.clone(), entry.1.clone());
        proof {
            assert(env.deep_view() =~= before.insert(key, entry.1@));
            assert(over[key] == entry.1@);
            assert forall|k: Seq<char>| #[trigger]
                among_first(entries@, at + 1, k) == (k == key || among_first(
                    entries@,
                    at as int,
                    k,
                )) by {
                if among_first(entries@, at as int, k) {
                    let i = choose|i: int| 0 <= i < at && #[trigger] entries@[i].0@ == k;
                    assert(entries@[i].0@ == k);
                }
                if k == key {
                    assert(entries@[at as int].0@ == k);
                }
            }
        }
        at = at + 1;
    }
    proof {
        assert forall|key: Seq<char>| #[trigger]
            over.contains_key(key) == among_first(entries@, at as int, key) by {
            if over.contains_key(key) {
                let i = choose|i: int| 0 <= i < entries@.len() && #[trigger] entries@[i].0@ == key;
                assert(entries@[i].0@ == key);
            }
        }
        assert(env.deep_view() =~= base.union_prefer_right(over));
    }
}

// ---------------------------------------------------------------------------
// Laws
// ---------------------------------------------------------------------------
/// The map has just the keys that entries give, each with a value that an entry
/// gives.
proof fn lemma_env_of(entries: Seq<Seq<char>>)
    ensures
        forall|key: Seq<char>| #[trigger]
            env_of(entries).contains_key(key) ==> exists|i: int|
                0 <= i < entries.len() && #[trigger] cut(entries[i], '=') == Some(
                    (key, env_of(entries)[key]),
                ),
        forall|i: int|
            0 <= i < entries.len() && (#[trigger] cut(entries[i], '=')) is Some ==> env_of(
                entries,
            ).contains_key((cut(entries[i], '=')->0).0),
    decreases entries.len(),
{
    if entries.len() > 0 {
        let front = entries.drop_last();
        lemma_env_of(front);
        assert forall|key: Seq<char>| #[trigger]
            env_of(entries).contains_key(key) implies exists|i: int|
            0 <= i < entries.len() && #[trigger] cut(entries[i], '=') == Some(
                (key, env_of(entries)[key]),
            ) by {
            let last = cut(entries.last(), '=');
            if last is Some && (last->0).0 == key {
                assert(cut(entries[entries.len() - 1], '=') == Some((key, env_of(entries)[key])));
            } else {
                assert(env_of(front).contains_key(key));
                let i = choose|i: int|
                    0 <= i < front.len() && #[trigger] cut(front[i], '=') == Some(
                        (key, env_of(front)[key]),
                    );
                assert(cut(entries[i], '=') == Some((key, env_of(entries)[key])));
            }
        }
        assert forall|i: int|
            0 <= i < entries.len() && (#[trigger] cut(entries[i], '=')) is Some implies env_of(
            entries,
        ).contains_key((cut(entries[i], '=')->0).0) by {
            if i < front.len() {
                assert(cut(front[i], '=') is Some);
            }
        }
    }
}

/// The text is the entry of one of the keys.
spec fn is_assignment(env: Map<Seq<char>, Seq<char>>, text: Seq<char>) -> bool {
    exists|key: Seq<char>| #[trigger] env.contains_key(key) && text == assignment(env, key)
}

/// Writing an environment down as sorted `KEY=VALUE` entries and reading them again
/// gives the environment back, provided no key holds an equals sign.
pub proof fn environment_reads_back(env: Map<Seq<char>, Seq<char>>)
    requires
        env.dom().finite(),
        forall|key: Seq<char>| #[trigger] env.contains_key(key) ==> !key.contains('='),
    ensures
        env_of(sorted_assignments(env)) == env,
{
    let line = |key: Seq<char>| assignment(env, key);
    let keys = env.dom().to_seq();
    let unsorted = keys.map_values(line);
    let entries = sorted_assignments(env);
    env.dom().lemma_to_seq_to_set_id();
    crate::order::text_orders_are_total();
    unsorted.lemma_sort_by_ensures(text_le());
    broadcast use vstd::seq_lib::group_to_multiset_ensures;

    lemma_env_of(entries);
    assert forall|key: Seq<char>| #[trigger] env.contains_key(key) implies cut(
        assignment(env, key),
        '=',
    ) == Some((key, env[key])) by {
        lemma_cut_assignment(env, key);
    }
    assert forall|i: int| 0 <= i < entries.len() implies is_assignment(
        env,
        #[trigger] entries[i],
    ) by {
        assert(entries.to_multiset().count(entries[i]) > 0) by {
            assert(entries.contains(entries[i]));
        }
        assert(unsorted.contains(entries[i]));
        let j = unsorted.index_of(entries[i]);
        assert(unsorted[j] == assignment(env, keys[j]));
        assert(keys.to_set().contains(keys[j]));
        assert(env.contains_key(keys[j]));
    }
    assert forall|key: Seq<char>| #[trigger] env.contains_key(key) implies exists|i: int|
        0 <= i < entries.len() && #[trigger] entries[i] == assignment(env, key) by {
        assert(keys.to_set().contains(key));
        let j = keys.index_of(key);
        assert(unsorted[j] == assignment(env, key));
        assert(unsorted.contains(assignment(env, key)));
        assert(entries.to_multiset().count(assignment(env, key)) > 0);
        assert(entries.contains(assignment(env, key)));
        let i = entries.index_of(assignment(env, key));
        assert(entries[i] == assignment(env, key));
    }
    assert forall|key: Seq<char>| #[trigger]
        env_of(entries).contains_key(key) == env.contains_key(key) by {
        if env_of(entries).contains_key(key) {
            let i = choose|i: int|
                0 <= i < entries.len() && #[trigger] cut(entries[i], '=') == Some(
                    (key, env_of(entries)[key]),
                );
            assert(is_assignment(env, entries[i]));
            let other = choose|other: Seq<char>| #[trigger]
                env.contains_key(other) && entries[i] == assignment(env, other);
            assert(cut(assignment(env, other), '=') == Some((other, env[other])));
        }
        if env.contains_key(key) {
            let i = choose|i: int|
                0 <= i < entries.len() && #[trigger] entries[i] == assignment(env, key);
            assert(cut(entries[i], '=') == Some((key, env[key])));
        }
    }
    assert forall|key: Seq<char>| env_of(entries).contains_key(key) implies #[trigger] env_of(
        entries,
    )[key] == env[key] by {
        let i = choose|i: int|
            0 <= i < entries.len() && #[trigger] cut(entries[i], '=') == Some(
                (key, env_of(entries)[key]),
            );
        assert(is_assignment(env, entries[i]));
        let other = choose|other: Seq<char>| #[trigger]
            env.contains_key(other) && entries[i] == assignment(env, other);
        assert(cut(assignment(env, other), '=') == Some((other, env[other])));
    }
    assert(env_of(entries) =~= env);
}

proof fn lemma_cut_assignment(env: Map<Seq<char>, Seq<char>>, key: Seq<char>)
    requires
        !key.contains('='),
    ensures
        cut(assignment(env, key), '=') == Some((key, env[key])),
{
    reveal_strlit("=");
    let s = assignment(env, key);
    assert forall|i: int| 0 <= i < key.len() implies s[i] != '=' by {
        assert(s[i] == key[i]);
        assert(key.contains(key[i]));
    }
    lemma_index_from_unique(s, '=', 0, key.len() as int);
    assert(s.take(key.len() as int) =~= key);
    assert(s.skip(key.len() as int + 1) =~= env[key]);
}

// ---------------------------------------------------------------------------
// Laws of entries
// ---------------------------------------------------------------------------
/// The entry gives a value to the key.
pub open spec fn gives(entry: Seq<char>, key: Seq<char>, value: Seq<char>) -> bool {
    entry == key + seq!['='] + value && !key.contains('=')
}

/// An entry gives one value to one key.
proof fn lemma_gives_one(entry: Seq<char>, key: Seq<char>, value: Seq<char>)
    ensures
        gives(entry, key, value) <==> cut(entry, '=') == Some((key, value)),
{
    cut_texts_glue_back(entry, '=');
    if gives(entry, key, value) {
        texts_are_cut_at_the_first(key, '=', value);
    }
}

/// The last entry for a key counts, with all that follows its first equals sign.
pub proof fn last_entries_count(
    entries: Seq<Seq<char>>,
    at: int,
    key: Seq<char>,
    value: Seq<char>,
)
    requires
        0 <= at < entries.len(),
        gives(entries[at], key, value),
        forall|later: int, other: Seq<char>|
            at < later < entries.len() ==> !#[trigger] gives(entries[later], key, other),
    ensures
        env_of(entries).contains_key(key),
        env_of(entries)[key] == value,
    decreases entries.len(),
{
    let end = entries.len() - 1;
    if at == end {
        lemma_gives_one(entries[at], key, value);
    } else {
        let fewer = entries.drop_last();
        assert forall|later: int, other: Seq<char>| at < later < fewer.len() implies !#[trigger] gives(
            fewer[later],
            key,
            other,
        ) by {
            assert(!gives(entries[later], key, other));
        }
        last_entries_count(fewer, at, key, value);
        if let Some((name, other)) = cut(entries[end], '=') {
            lemma_gives_one(entries[end], name, other);
            if name == key {
                assert(!gives(entries[end], key, other));
            }
        }
    }
}

/// A key has a value only where an entry gives it that value.
pub proof fn values_come_from_entries(entries: Seq<Seq<char>>, key: Seq<char>)
    ensures
        env_of(entries).contains_key(key) <==> exists|at: int, value: Seq<char>|
            0 <= at < entries.len() && #[trigger] gives(entries[at], key, value),
        env_of(entries).contains_key(key) ==> exists|at: int|
            0 <= at < entries.len() && #[trigger] gives(
                entries[at],
                key,
                env_of(entries)[key],
            ),
    decreases entries.len(),
{
    if entries.len() > 0 {
        let fewer = entries.drop_last();
        let end = entries.len() - 1;
        values_come_from_entries(fewer, key);
        if env_of(entries).contains_key(key) {
            let given = cut(entries[end], '=');
            if given is Some && (given->0).0 == key {
                lemma_gives_one(entries[end], key, (given->0).1);
                assert(gives(entries[end], key, env_of(entries)[key]));
            } else {
                let at = choose|at: int|
                    0 <= at < fewer.len() && #[trigger] gives(
                        fewer[at],
                        key,
                        env_of(fewer)[key],
                    );
                assert(gives(entries[at], key, env_of(entries)[key]));
            }
        }
        if exists|at: int, value: Seq<char>|
            0 <= at < entries.len() && #[trigger] gives(entries[at], key, value) {
            let (at, value) = choose|at: int, value: Seq<char>|
                0 <= at < entries.len() && #[trigger] gives(entries[at], key, value);
            lemma_gives_one(entries[at], key, value);
            if at < end {
                assert(gives(fewer[at], key, value));
            }
        }
    }
}

/// The search path is only added: one that is there stays, and so does every other
/// variable.
pub proof fn search_paths_are_only_added(env: Map<Seq<char>, Seq<char>>, key: Seq<char>)
    ensures
        with_path(env).contains_key(key) <==> env.contains_key(key) || key == "PATH"@,
        env.contains_key(key) ==> with_path(env)[key] == env[key],
        !env.contains_key("PATH"@) ==> with_path(env)["PATH"@]
            == "/usr/local/sbin:/usr/local/bin:/usr/sbin:/usr/bin:/sbin:/bin"@,
{
}

} // verus!
