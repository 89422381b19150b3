//! Variables in the operands of instructions.
use crate::text::{chars_of, find_from, index_from, lemma_index_from, text_of};
use crate::text_map::StringMap;
use vstd::prelude::*;

verus! {

/// A character of a variable name after a bare dollar sign.
pub open spec fn is_name_char(c: char) -> bool {
    'a' <= c <= 'z' || 'A' <= c <= 'Z' || '0' <= c <= '9' || c == '_'
}

/// The end of the variable name that starts at `from`.
pub open spec fn name_end(s: Seq<char>, from: int) -> int
    decreases s.len() - from,
{
    if from < s.len() && is_name_char(s[from]) {
        name_end(s, from + 1)
    } else {
        from
    }
}

/// The value of a variable: a build argument before the environment, and nothing
/// where neither has it.
pub open spec fn variable(
    key: Seq<char>,
    env: Map<Seq<char>, Seq<char>>,
    args: Map<Seq<char>, Seq<char>>,
) -> Seq<char> {
    if args.contains_key(key) {
        args[key]
    } else if env.contains_key(key) {
        env[key]
    } else {
        seq![]
    }
}

/// The text from `at` on with `$NAME` and `${NAME}` replaced by the variables'
/// values. A dollar sign that starts neither stands for itself.
pub open spec fn interpolated(
    s: Seq<char>,
    at: int,
    env: Map<Seq<char>, Seq<char>>,
    args: Map<Seq<char>, Seq<char>>,
) -> Seq<char>
    decreases s.len() - at,
{
    if at < 0 || at >= s.len() {
        seq![]
    } else if s[at] == '$' && at + 1 < s.len() && s[at + 1] == '{' {
        let end = index_from(s, '}', at + 2);
        proof {
            lemma_index_from(s, '}', at + 2);
        }
        if end < s.len() {
            variable(s.subrange(at + 2, end), env, args) + interpolated(s, end + 1, env, args)
        } else {
            seq![s[at]] + interpolated(s, at + 1, env, args)
        }
    } else if s[at] == '$' && name_end(s, at + 1) > at + 1 {
        proof {
            lemma_name_end(s, at + 1);
        }
        variable(s.subrange(at + 1, name_end(s, at + 1)), env, args) + interpolated(
            s,
            name_end(s, at + 1),
            env,
            args,
        )
    } else {
        seq![s[at]] + interpolated(s, at + 1, env, args)
    }
}

/// The text with its variables replaced.
pub open spec fn resolved(
    s: Seq<char>,
    env: Map<Seq<char>, Seq<char>>,
    args: Map<Seq<char>, Seq<char>>,
) -> Seq<char> {
    interpolated(s, 0, env, args)
}

/// A variable name ends at or after its start, within the text.
pub proof fn lemma_name_end(s: Seq<char>, from: int)
    requires
        0 <= from <= s.len(),
    ensures
        from <= name_end(s, from) <= s.len(),
    decreases s.len() - from,
{
    if from < s.len() && is_name_char(s[from]) {
        lemma_name_end(s, from + 1);
    }
}

/// Appends the value of a variable.
fn append_variable(out: &mut String, key: &str, env_map: &StringMap, build_args: &StringMap)
    ensures
        final(out)@ == old(out)@ + variable(key@, env_map.deep_view(), build_args.deep_view()),
{
    match build_args.get(key) {
        Some(value) => {
            out.append(value);
        },
        None => match env_map.get(key) {
            Some(value) => {
                out.append(value);
            },
            None => {
                assert(out@ + seq![] =~= out@);
            },
        },
    }
}

/// The text with `$NAME` and `${NAME}` replaced: by the build argument of that name,
/// else by the environment variable, else by nothing.
pub fn interpolate(input: &str, env_map: &StringMap, build_args: &StringMap) -> (out: String)
    ensures
        out@ == resolved(input@, env_map.deep_view(), build_args.deep_view()),
{
    let ghost env = env_map.deep_view();
    let ghost args = build_args.deep_view();
    let chars = chars_of(input);
    let mut out = String::new();
    let mut at: usize = 0;
    assert(out@ + interpolated(input@, 0, env, args) =~= interpolated(input@, 0, env, args));
    while at < chars.len()
        invariant
            chars@ == input@,
            at <= chars@.len(),
            env == env_map.deep_view(),
            args == build_args.deep_view(),
            out@ + interpolated(input@, at as int, env, args) == resolved(input@, env, args),
        decreases chars@.len() - at,
    {
        let ghost before = out@;
        if chars[at] == '$' && at + 1 < chars.len() && chars[at + 1] == '{' {
            let end = find_from(&chars, '}', at + 2);
            proof {
                lemma_index_from(input@, '}', at + 2);
            }
            if end < chars.len() {
                let key = text_of(&chars, at + 2, end);
                append_variable(&mut out, &key, env_map, build_args);
                proof {
                    let value = variable(key@, env, args);
                    let rest = interpolated(input@, end + 1, env, args);
                    assert(before + (value + rest) =~= (before + value) + rest);
                }
                at = end + 1;
            } else {
                out.push(chars[at]);
                proof {
                    let rest = interpolated(input@, at + 1, env, args);
                    assert(before + (seq![input@[at as int]] + rest) =~= before.push(
                        input@[at as int],
                    ) + rest);
                }
                at = at + 1;
            }
        } else {
            let mut end: usize = at + 1;
            if chars[at] == '$' {
                while end < chars.len() && (('a' <= chars[end] && chars[end] <= 'z') || ('A'
                    <= chars[end] && chars[end] <= 'Z') || ('0' <= chars[end] && chars[end] <= '9')
                    || chars[end] == '_')
                    invariant
                        chars@ == input@,
                        at + 1 <= end <= chars@.len(),
                        name_end(input@, at + 1) == name_end(input@, end as int),
                    decreases chars@.len() - end,
                {
                    end = end + 1;
                }
            }
            if end > at + 1 {
                let key = text_of(&chars, at + 1, end);
                append_variable(&mut out, &key, env_map, build_args);
                proof {
                    let value = variable(key@, env, args);
                    let rest = interpolated(input@, end as int, env, args);
                    assert(before + (value + rest) =~= (before + value) + rest);
                }
                at = end;
            } else {
                out.push(chars[at]);
                proof {
                    let rest = interpolated(input@, at + 1, env, args);
                    assert(before + (seq![input@[at as int]] + rest) =~= before.push(
                        input@[at as int],
                    ) + rest);
                }
                at = at + 1;
            }
        }
    }
    assert(out@ + seq![] =~= out@);
    out
}

// ---------------------------------------------------------------------------
// Laws
// ---------------------------------------------------------------------------
/// A text without a dollar sign stays as it is.
pub proof fn plain_text_is_kept(
    s: Seq<char>,
    env: Map<Seq<char>, Seq<char>>,
    args: Map<Seq<char>, Seq<char>>,
)
    requires
        !s.contains('$'),
    ensures
        resolved(s, env, args) == s,
{
    lemma_plain_from(s, 0, env, args);
    assert(s.skip(0) =~= s);
}

proof fn lemma_plain_from(
    s: Seq<char>,
    at: int,
    env: Map<Seq<char>, Seq<char>>,
    args: Map<Seq<char>, Seq<char>>,
)
    requires
        !s.contains('$'),
        0 <= at <= s.len(),
    ensures
        interpolated(s, at, env, args) == s.skip(at),
    decreases s.len() - at,
{
    if at < s.len() {
        assert(s.contains(s[at]));
        lemma_plain_from(s, at + 1, env, args);
    }
    assert(interpolated(s, at, env, args) =~= s.skip(at));
}

/// A lone `${NAME}` stands for the variable's value, a build argument before the
/// environment.
pub proof fn braced_variable_is_its_value(
    key: Seq<char>,
    env: Map<Seq<char>, Seq<char>>,
    args: Map<Seq<char>, Seq<char>>,
)
    requires
        !key.contains('}'),
    ensures
        resolved(seq!['$', '{'] + key + seq!['}'], env, args) == variable(key, env, args),
{
    let s = seq!['$', '{'] + key + seq!['}'];
    let end = key.len() as int + 2;
    assert forall|i: int| 2 <= i < end implies s[i] != '}' by {
        assert(s[i] == key[i - 2]);
        assert(key.contains(key[i - 2]));
    }
    crate::text::lemma_index_from_unique(s, '}', 2, end);
    assert(s.subrange(2, end) =~= key);
    assert(interpolated(s, end + 1, env, args) =~= seq![]);
    assert(variable(key, env, args) + seq![] =~= variable(key, env, args));
}

/// Which environment holds a variable makes no difference where a build argument
/// has the same name: the argument hides it everywhere.
pub proof fn build_arguments_hide_the_environment(
    s: Seq<char>,
    env: Map<Seq<char>, Seq<char>>,
    args: Map<Seq<char>, Seq<char>>,
    key: Seq<char>,
    value: Seq<char>,
)
    requires
        args.contains_key(key),
    ensures
        resolved(s, env.insert(key, value), args) == resolved(s, env, args),
{
    lemma_hidden_from(s, 0, env, args, key, value);
}

proof fn lemma_hidden_from(
    s: Seq<char>,
    at: int,
    env: Map<Seq<char>, Seq<char>>,
    args: Map<Seq<char>, Seq<char>>,
    key: Seq<char>,
    value: Seq<char>,
)
    requires
        args.contains_key(key),
        0 <= at,
    ensures
        interpolated(s, at, env.insert(key, value), args) == interpolated(s, at, env, args),
    decreases s.len() - at,
{
    if at < s.len() {
        lemma_hidden_from(s, at + 1, env, args, key, value);
        if s[at] == '$' && at + 1 < s.len() && s[at + 1] == '{' {
            lemma_index_from(s, '}', at + 2);
            let end = index_from(s, '}', at + 2);
            if end < s.len() {
                lemma_hidden_from(s, end + 1, env, args, key, value);
            }
        } else if s[at] == '$' && name_end(s, at + 1) > at + 1 {
            lemma_name_end(s, at + 1);
            lemma_hidden_from(s, name_end(s, at + 1), env, args, key, value);
        }
    }
}

/// A variable stands for the build argument of its name where there is one, else for the
/// environment's value, else for nothing, whether it is written with braces or without.
pub proof fn variables_stand_for_their_values(
    key: Seq<char>,
    env: Map<Seq<char>, Seq<char>>,
    args: Map<Seq<char>, Seq<char>>,
)
    requires
        key.len() > 0,
        forall|i: int|
            0 <= i < key.len() ==> {
                ||| 'a' <= #[trigger] key[i] <= 'z'
                ||| 'A' <= key[i] <= 'Z'
                ||| '0' <= key[i] <= '9'
                ||| key[i] == '_'
            },
    ensures
        ({
            let value = if args.contains_key(key) {
                args[key]
            } else if env.contains_key(key) {
                env[key]
            } else {
                seq![]
            };
            &&& resolved(seq!['$', '{'] + key + seq!['}'], env, args) == value
            &&& resolved(seq!['$'] + key, env, args) == value
        }),
{
    assert(!key.contains('}')) by {
        if key.contains('}') {
            let i = key.index_of('}');
            assert(key[i] == '}');
        }
    }
    braced_variable_is_its_value(key, env, args);
    let s = seq!['$'] + key;
    assert(s[1] == key[0]);
    lemma_name_ends_at(s, 1);
    assert(s.subrange(1, s.len() as int) =~= key);
    assert(interpolated(s, s.len() as int, env, args) =~= seq![]);
    assert(variable(key, env, args) + seq![] =~= variable(key, env, args));
}

/// A name goes on to the end of a text that has nothing else.
proof fn lemma_name_ends_at(s: Seq<char>, from: int)
    requires
        0 <= from <= s.len(),
        forall|i: int| from <= i < s.len() ==> is_name_char(#[trigger] s[i]),
    ensures
        name_end(s, from) == s.len(),
    decreases s.len() - from,
{
    if from < s.len() {
        lemma_name_ends_at(s, from + 1);
    }
}

/// What stands before the first dollar sign is kept, and what follows is resolved by
/// itself.
pub proof fn text_before_variables_is_kept(
    front: Seq<char>,
    rest: Seq<char>,
    env: Map<Seq<char>, Seq<char>>,
    args: Map<Seq<char>, Seq<char>>,
)
    requires
        !front.contains('$'),
    ensures
        resolved(front + rest, env, args) == front + resolved(rest, env, args),
    decreases front.len(),
{
    if front.len() == 0 {
        assert(front + rest =~= rest);
        assert(front + resolved(rest, env, args) =~= resolved(rest, env, args));
    } else {
        let whole = front + rest;
        let fewer = front.skip(1);
        assert(front.contains(front[0]));
        assert(!fewer.contains('$')) by {
            if fewer.contains('$') {
                let i = fewer.index_of('$');
                assert(front[i + 1] == '$');
            }
        }
        text_before_variables_is_kept(fewer, rest, env, args);
        lemma_shifted(whole, 1, env, args);
        assert(whole.skip(1) =~= fewer + rest);
        assert(seq![front[0]] + (fewer + resolved(rest, env, args)) =~= front + resolved(
            rest,
            env,
            args,
        ));
    }
}

/// Resolving from a place on is resolving what follows it.
proof fn lemma_shifted(
    s: Seq<char>,
    at: int,
    env: Map<Seq<char>, Seq<char>>,
    args: Map<Seq<char>, Seq<char>>,
)
    requires
        0 <= at <= s.len(),
    ensures
        interpolated(s, at, env, args) == resolved(s.skip(at), env, args),
{
    lemma_shifted_from(s, at, 0, env, args);
}

proof fn lemma_shifted_from(
    s: Seq<char>,
    by: int,
    at: int,
    env: Map<Seq<char>, Seq<char>>,
    args: Map<Seq<char>, Seq<char>>,
)
    requires
        0 <= by,
        0 <= at,
        by + at <= s.len(),
    ensures
        interpolated(s, by + at, env, args) == interpolated(s.skip(by), at, env, args),
    decreases s.len() - by - at,
{
    let rest = s.skip(by);
    let there = by + at;
    if there < s.len() {
        assert(s[there] == rest[at]);
        if s[there] == '$' && there + 1 < s.len() && s[there + 1] == '{' {
            assert(rest[at + 1] == '{');
            lemma_index_from(rest, '}', at + 2);
            let end = index_from(rest, '}', at + 2);
            assert forall|i: int| there + 2 <= i < by + end implies s[i] != '}' by {
                assert(rest[i - by] != '}');
            }
            crate::text::lemma_index_from_unique(s, '}', there + 2, by + end);
            if end < rest.len() {
                assert(s.subrange(there + 2, by + end) =~= rest.subrange(at + 2, end));
                lemma_shifted_from(s, by, end + 1, env, args);
            } else {
                lemma_shifted_from(s, by, at + 1, env, args);
            }
        } else if s[there] == '$' {
            lemma_shifted_name(s, by, at + 1);
            lemma_name_end(rest, at + 1);
            let end = name_end(rest, at + 1);
            if end > at + 1 {
                assert(s.subrange(there + 1, by + end) =~= rest.subrange(at + 1, end));
                lemma_shifted_from(s, by, end, env, args);
            } else {
                lemma_shifted_from(s, by, at + 1, env, args);
            }
        } else {
            lemma_shifted_from(s, by, at + 1, env, args);
        }
    }
}

proof fn lemma_shifted_name(s: Seq<char>, by: int, from: int)
    requires
        0 <= by,
        0 <= from,
        by + from <= s.len(),
    ensures
        name_end(s, by + from) == by + name_end(s.skip(by), from),
    decreases s.len() - by - from,
{
    if by + from < s.len() {
        assert(s[by + from] == s.skip(by)[from]);
        if is_name_char(s[by + from]) {
            lemma_shifted_name(s, by, from + 1);
        }
    }
}

} // verus!
