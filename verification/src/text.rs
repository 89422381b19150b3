//! Text as sequences of characters: searching, cutting, trimming, joining and
//! ASCII case.
use vstd::prelude::*;
use vstd::utf8::{encode_utf8, valid_utf8};

verus! {

/// Appends one character to a string: `String::push` of the standard library.
pub assume_specification[ String::push ](text: &mut String, c: char)
    ensures
        final(text)@ == old(text)@.push(c),
;

/// A fallible result with its value and its message as mathematical values.
pub open spec fn outcome<T: DeepView>(result: Result<T, String>) -> Result<T::V, Seq<char>> {
    match result {
        Ok(value) => Ok(value.deep_view()),
        Err(message) => Err(message@),
    }
}

/// `String::from_utf8`: the text that bytes are the UTF-8 encoding of, or nothing where
/// they are no such encoding.
#[verifier::external_body]
pub(crate) fn utf8_text(bytes: Vec<u8>) -> (text: Option<String>)
    ensures
        text is Some <==> valid_utf8(bytes@),
        text matches Some(found) ==> encode_utf8(found@) == bytes@,
{
    String::from_utf8(bytes).ok()
}

/// The characters of a string.
pub fn chars_of(text: &str) -> (chars: Vec<char>)
    ensures
        chars@ == text@,
{
    let mut chars: Vec<char> = Vec::new();
    for c in iter: text.chars()
        invariant
            chars@ == iter.seq().take(iter.index() as int),
            iter.seq() == text@,
    {
        chars.push(c);
    }
    chars
}

/// The string made of the characters from `from` up to, but without, `to`.
pub fn text_of(chars: &Vec<char>, from: usize, to: usize) -> (text: String)
    requires
        from <= to <= chars@.len(),
    ensures
        text@ == chars@.subrange(from as int, to as int),
{
    let mut text = String::new();
    let mut at: usize = from;
    while at < to
        invariant
            from <= at <= to <= chars@.len(),
            text@ == chars@.subrange(from as int, at as int),
        decreases to - at,
    {
        text.push(chars[at]);
        at = at + 1;
        assert(chars@.subrange(from as int, at as int) =~= chars@.subrange(
            from as int,
            at as int - 1,
        ).push(chars@[at as int - 1]));
    }
    text
}

/// Whether two strings hold the same characters.
pub fn same_text(left: &str, right: &str) -> (same: bool)
    ensures
        same == (left@ == right@),
{
    let left_text = left.to_owned();
    let right_text = right.to_owned();
    left_text == right_text
}

/// Whether the text has no character.
pub fn is_empty(text: &str) -> (empty: bool)
    ensures
        empty == (text@.len() == 0),
{
    proof {
        reveal_strlit("");
        if text@.len() == 0 {
            assert(text@ =~= ""@);
        }
    }
    same_text(text, "")
}

/// `a` followed by `b`.
pub fn glue(a: &str, b: &str) -> (text: String)
    ensures
        text@ == a@ + b@,
{
    let mut text = a.to_owned();
    text.append(b);
    text
}

/// `a` followed by `b` and `c`.
pub fn glue3(a: &str, b: &str, c: &str) -> (text: String)
    ensures
        text@ == a@ + b@ + c@,
{
    let mut text = glue(a, b);
    text.append(c);
    text
}

/// Five strings in a row.
pub fn glue5(a: &str, b: &str, c: &str, d: &str, e: &str) -> (text: String)
    ensures
        text@ == a@ + b@ + c@ + d@ + e@,
{
    let mut text = glue3(a, b, c);
    text.append(d);
    text.append(e);
    text
}

// ---------------------------------------------------------------------------
// Searching
// ---------------------------------------------------------------------------
/// The first index from `from` on that holds `c`, or the length.
pub open spec fn index_from(s: Seq<char>, c: char, from: int) -> int
    decreases s.len() - from,
{
    if from >= s.len() {
        s.len() as int
    } else if s[from] == c {
        from
    } else {
        index_from(s, c, from + 1)
    }
}

/// What `index_from` finds: nothing before it holds `c`, and it holds `c` unless
/// it is the length.
pub proof fn lemma_index_from(s: Seq<char>, c: char, from: int)
    requires
        0 <= from <= s.len(),
    ensures
        from <= index_from(s, c, from) <= s.len(),
        index_from(s, c, from) < s.len() ==> s[index_from(s, c, from)] == c,
        forall|i: int| from <= i < index_from(s, c, from) ==> s[i] != c,
    decreases s.len() - from,
{
    if from < s.len() && s[from] != c {
        lemma_index_from(s, c, from + 1);
    }
}

/// An index that holds `c` with no `c` before it is the one found.
pub proof fn lemma_index_from_unique(s: Seq<char>, c: char, from: int, at: int)
    requires
        0 <= from <= at <= s.len(),
        at < s.len() ==> s[at] == c,
        forall|i: int| from <= i < at ==> s[i] != c,
    ensures
        index_from(s, c, from) == at,
    decreases s.len() - from,
{
    if from < at {
        lemma_index_from_unique(s, c, from + 1, at);
    }
}

/// The first index from `from` on that holds `c`, or the length.
pub fn find_from(chars: &Vec<char>, c: char, from: usize) -> (at: usize)
    requires
        from <= chars@.len(),
    ensures
        at == index_from(chars@, c, from as int),
        from <= at <= chars@.len(),
        at < chars@.len() ==> chars@[at as int] == c,
{
    let mut at: usize = from;
    while at < chars.len() && chars[at] != c
        invariant
            from <= at <= chars@.len(),
            index_from(chars@, c, from as int) == index_from(chars@, c, at as int),
        decreases chars@.len() - at,
    {
        at = at + 1;
    }
    at
}

/// Whether some character of the text is `c`.
pub fn contains_char(text: &str, c: char) -> (found: bool)
    ensures
        found == text@.contains(c),
{
    let chars = chars_of(text);
    let at = find_from(&chars, c, 0);
    proof {
        lemma_index_from(text@, c, 0);
    }
    at < chars.len()
}

/// The text starts with `prefix`.
pub open spec fn begins(s: Seq<char>, prefix: Seq<char>) -> bool {
    prefix.len() <= s.len() && s.take(prefix.len() as int) == prefix
}

/// The text ends with `suffix`.
pub open spec fn ends(s: Seq<char>, suffix: Seq<char>) -> bool {
    suffix.len() <= s.len() && s.skip(s.len() - suffix.len()) == suffix
}

/// `needle` occurs in `s` at `at`.
pub open spec fn occurs_at(s: Seq<char>, needle: Seq<char>, at: int) -> bool {
    0 <= at && at + needle.len() <= s.len() && s.subrange(at, at + needle.len()) == needle
}

/// `needle` occurs somewhere in `s`.
pub open spec fn occurs(s: Seq<char>, needle: Seq<char>) -> bool {
    exists|at: int| occurs_at(s, needle, at)
}

/// Whether `needle` stands in `chars` at `at`.
fn matches_at(chars: &Vec<char>, needle: &Vec<char>, at: usize) -> (found: bool)
    requires
        at + needle@.len() <= chars@.len(),
    ensures
        found == occurs_at(chars@, needle@, at as int),
{
    let mut i: usize = 0;
    while i < needle.len()
        invariant
            i <= needle@.len(),
            at + needle@.len() <= chars.len(),
            forall|j: int| 0 <= j < i ==> chars@[at + j] == needle@[j],
        decreases needle@.len() - i,
    {
        if chars[at + i] != needle[i] {
            assert(chars@.subrange(at as int, at + needle@.len())[i as int] != needle@[i as int]);
            return false;
        }
        i = i + 1;
    }
    assert(chars@.subrange(at as int, at + needle@.len()) =~= needle@);
    true
}

/// Whether the text starts with `prefix`.
pub fn starts_with(text: &str, prefix: &str) -> (found: bool)
    ensures
        found == begins(text@, prefix@),
{
    let chars = chars_of(text);
    let wanted = chars_of(prefix);
    if wanted.len() > chars.len() {
        return false;
    }
    let found = matches_at(&chars, &wanted, 0);
    assert(text@.subrange(0, prefix@.len() as int) =~= text@.take(prefix@.len() as int));
    found
}

/// Whether the text ends with `suffix`.
pub fn ends_with(text: &str, suffix: &str) -> (found: bool)
    ensures
        found == ends(text@, suffix@),
{
    let chars = chars_of(text);
    let wanted = chars_of(suffix);
    if wanted.len() > chars.len() {
        return false;
    }
    let at = chars.len() - wanted.len();
    let found = matches_at(&chars, &wanted, at);
    assert(text@.subrange(at as int, at + suffix@.len()) =~= text@.skip(at as int));
    found
}

/// Where `needle` first occurs at or after `from`; the length where it does not.
pub open spec fn text_index(s: Seq<char>, needle: Seq<char>, from: int) -> int
    decreases s.len() - from,
{
    if from >= s.len() || from + needle.len() > s.len() {
        s.len() as int
    } else if occurs_at(s, needle, from) {
        from
    } else {
        text_index(s, needle, from + 1)
    }
}

/// Where `needle` first occurs; the length where it does not.
pub fn find_text(chars: &Vec<char>, needle: &Vec<char>) -> (at: usize)
    ensures
        at == text_index(chars@, needle@, 0),
        at < chars@.len() ==> at + needle@.len() <= chars@.len(),
{
    let mut at: usize = 0;
    while at < chars.len() && needle.len() <= chars.len() - at
        invariant
            at <= chars@.len(),
            text_index(chars@, needle@, 0) == text_index(chars@, needle@, at as int),
        decreases chars@.len() - at,
    {
        if matches_at(chars, needle, at) {
            return at;
        }
        at = at + 1;
    }
    chars.len()
}

/// Whether `needle` occurs in the text.
pub fn contains_text(text: &str, needle: &str) -> (found: bool)
    ensures
        found == occurs(text@, needle@),
{
    let chars = chars_of(text);
    let wanted = chars_of(needle);
    let mut at: usize = 0;
    if wanted.len() > chars.len() {
        return false;
    }
    while at <= chars.len() - wanted.len()
        invariant
            chars@ == text@,
            wanted@ == needle@,
            wanted@.len() <= chars@.len(),
            at <= chars@.len() - wanted@.len() + 1,
            forall|i: int| 0 <= i < at ==> !occurs_at(text@, needle@, i),
        decreases chars@.len() - wanted@.len() + 1 - at,
    {
        if matches_at(&chars, &wanted, at) {
            return true;
        }
        if at == chars.len() - wanted.len() {
            return false;
        }
        at = at + 1;
    }
    false
}

/// What follows `prefix`, where the text starts with it.
pub open spec fn after_prefix(s: Seq<char>, prefix: Seq<char>) -> Option<Seq<char>> {
    if begins(s, prefix) {
        Some(s.skip(prefix.len() as int))
    } else {
        None
    }
}

/// Whether a text is in a list.
pub fn has_text(list: &Vec<String>, text: &str) -> (found: bool)
    ensures
        found == list.deep_view().contains(text@),
{
    let mut at: usize = 0;
    while at < list.len()
        invariant
            at <= list@.len(),
            forall|i: int| 0 <= i < at ==> (#[trigger] list@[i])@ != text@,
        decreases list@.len() - at,
    {
        if same_text(&list[at], text) {
            assert(list.deep_view()[at as int] == text@);
            return true;
        }
        at = at + 1;
    }
    proof {
        if list.deep_view().contains(text@) {
            let i = list.deep_view().index_of(text@);
            assert(list@[i]@ == text@);
        }
    }
    false
}

/// What follows `prefix`, where the text starts with it.
pub fn strip_prefix(text: &str, prefix: &str) -> (rest: Option<String>)
    ensures
        rest.deep_view() == after_prefix(text@, prefix@),
{
    if starts_with(text, prefix) {
        let chars = chars_of(text);
        let wanted = chars_of(prefix);
        let rest = text_of(&chars, wanted.len(), chars.len());
        assert(rest@ =~= text@.skip(prefix@.len() as int));
        Some(rest)
    } else {
        None
    }
}

// ---------------------------------------------------------------------------
// Cutting
// ---------------------------------------------------------------------------
/// The text before and after the first `c`.
pub open spec fn cut(s: Seq<char>, c: char) -> Option<(Seq<char>, Seq<char>)> {
    let at = index_from(s, c, 0);
    if at < s.len() {
        Some((s.take(at), s.skip(at + 1)))
    } else {
        None
    }
}

/// The text before and after the first `c`.
pub fn split_once(text: &str, c: char) -> (parts: Option<(String, String)>)
    ensures
        parts.deep_view() == cut(text@, c),
{
    let chars = chars_of(text);
    let at = find_from(&chars, c, 0);
    if at < chars.len() {
        let head = text_of(&chars, 0, at);
        let tail = text_of(&chars, at + 1, chars.len());
        assert(head@ =~= text@.take(at as int));
        assert(tail@ =~= text@.skip(at + 1));
        Some((head, tail))
    } else {
        None
    }
}

/// The pieces of the text between the occurrences of `c`.
pub open spec fn pieces(s: Seq<char>, c: char) -> Seq<Seq<char>>
    decreases s.len(),
{
    let at = index_from(s, c, 0);
    if 0 <= at < s.len() {
        seq![s.take(at)] + pieces(s.skip(at + 1), c)
    } else {
        seq![s]
    }
}

/// The pieces of the text between the occurrences of `c`.
pub fn split(text: &str, c: char) -> (parts: Vec<String>)
    ensures
        parts.deep_view() == pieces(text@, c),
        parts@.len() > 0,
{
    let chars = chars_of(text);
    let mut parts: Vec<String> = Vec::new();
    let mut start: usize = 0;
    proof {
        assert(text@.skip(0) =~= text@);
        assert(parts.deep_view() + pieces(text@, c) =~= pieces(text@, c));
    }
    loop
        invariant
            chars@ == text@,
            start <= chars@.len(),
            parts.deep_view() + pieces(text@.skip(start as int), c) == pieces(text@, c),
        decreases chars@.len() - start,
    {
        let ghost rest = text@.skip(start as int);
        let at = find_from(&chars, c, start);
        proof {
            lemma_index_from(text@, c, start as int);
            lemma_index_from_unique(rest, c, 0, at - start);
        }
        let ghost before = parts.deep_view();
        let part = text_of(&chars, start, at);
        assert(part@ =~= rest.take(at - start));
        if at == chars.len() {
            assert(part@ =~= rest);
            parts.push(part);
            assert(parts.deep_view() =~= before.push(rest));
            assert(before.push(rest) =~= before + seq![rest]);
            return parts;
        }
        parts.push(part);
        start = at + 1;
        proof {
            let next = text@.skip(start as int);
            assert(next =~= rest.skip(rest.len() - next.len()));
            assert(parts.deep_view() =~= before.push(part@));
            assert(before + (seq![part@] + pieces(next, c)) =~= before.push(part@) + pieces(
                next,
                c,
            ));
        }
    }
}

/// The lines of a text: what stands between line feeds, each without a carriage
/// return before its line feed. An empty rest after the last line feed is no line.
pub open spec fn lines_of(s: Seq<char>) -> Seq<Seq<char>>
    decreases s.len(),
{
    let at = index_from(s, '\n', 0);
    if s.len() == 0 {
        seq![]
    } else if 0 <= at < s.len() {
        seq![without_return(s.take(at))] + lines_of(s.skip(at + 1))
    } else {
        seq![s]
    }
}

/// The text without one carriage return at its end.
pub open spec fn without_return(s: Seq<char>) -> Seq<char> {
    if s.len() > 0 && s.last() == '\r' {
        s.drop_last()
    } else {
        s
    }
}

/// The lines of a text, as `lines_of` defines them.
pub fn lines(text: &str) -> (result: Vec<String>)
    ensures
        result.deep_view() == lines_of(text@),
{
    let chars = chars_of(text);
    let mut result: Vec<String> = Vec::new();
    let mut start: usize = 0;
    proof {
        assert(text@.skip(0) =~= text@);
        assert(result.deep_view() + lines_of(text@) =~= lines_of(text@));
    }
    while start < chars.len()
        invariant
            chars@ == text@,
            start <= chars@.len(),
            result.deep_view() + lines_of(text@.skip(start as int)) == lines_of(text@),
        decreases chars@.len() - start,
    {
        let ghost rest = text@.skip(start as int);
        let ghost before = result.deep_view();
        let at = find_from(&chars, '\n', start);
        proof {
            lemma_index_from(text@, '\n', start as int);
            lemma_index_from_unique(rest, '\n', 0, at - start);
        }
        if at == chars.len() {
            let line = text_of(&chars, start, at);
            assert(line@ =~= rest);
            result.push(line);
            start = at;
            proof {
                assert(result.deep_view() =~= before.push(rest));
                assert(text@.skip(start as int).len() == 0);
                assert(before.push(rest) + lines_of(text@.skip(start as int)) =~= before + seq![
                    rest,
                ]);
            }
        } else {
            let end = if at > start && chars[at - 1] == '\r' {
                at - 1
            } else {
                at
            };
            let line = text_of(&chars, start, end);
            assert(line@ =~= without_return(rest.take(at - start)));
            result.push(line);
            proof {
                let next = text@.skip(at + 1);
                assert(next =~= rest.skip(at - start + 1));
                assert(result.deep_view() =~= before.push(line@));
                assert(before + (seq![line@] + lines_of(next)) =~= before.push(line@)
                    + lines_of(next));
            }
            start = at + 1;
        }
    }
    assert(result.deep_view() + lines_of(text@.skip(start as int)) =~= result.deep_view());
    result
}

// ---------------------------------------------------------------------------
// Trimming
// ---------------------------------------------------------------------------
/// The characters with the Unicode property White_Space.
pub open spec fn white_space(c: char) -> bool {
    ||| '\u{9}' <= c <= '\u{d}'
    ||| c == ' '
    ||| c == '\u{85}'
    ||| c == '\u{a0}'
    ||| c == '\u{1680}'
    ||| '\u{2000}' <= c <= '\u{200a}'
    ||| c == '\u{2028}'
    ||| c == '\u{2029}'
    ||| c == '\u{202f}'
    ||| c == '\u{205f}'
    ||| c == '\u{3000}'
}

/// Whether a character has the Unicode property White_Space.
pub fn is_white_space(c: char) -> (space: bool)
    ensures
        space == white_space(c),
{
    ('\u{9}' <= c && c <= '\u{d}') || c == ' ' || c == '\u{85}' || c == '\u{a0}' || c
        == '\u{1680}' || ('\u{2000}' <= c && c <= '\u{200a}') || c == '\u{2028}' || c
        == '\u{2029}' || c == '\u{202f}' || c == '\u{205f}' || c == '\u{3000}'
}

/// The text without the white space at its end.
pub open spec fn trimmed_end(s: Seq<char>) -> Seq<char>
    decreases s.len(),
{
    if s.len() > 0 && white_space(s.last()) {
        trimmed_end(s.drop_last())
    } else {
        s
    }
}

/// The text without the white space at its start.
pub open spec fn trimmed_start(s: Seq<char>) -> Seq<char>
    decreases s.len(),
{
    if s.len() > 0 && white_space(s[0]) {
        trimmed_start(s.skip(1))
    } else {
        s
    }
}

/// The text without the white space at either end.
pub open spec fn trimmed(s: Seq<char>) -> Seq<char> {
    trimmed_start(trimmed_end(s))
}

/// The text without the white space at its end.
pub fn trim_end(text: &str) -> (result: String)
    ensures
        result@ == trimmed_end(text@),
{
    let chars = chars_of(text);
    let mut end: usize = chars.len();
    assert(text@.take(end as int) =~= text@);
    while end > 0 && is_white_space(chars[end - 1])
        invariant
            chars@ == text@,
            end <= chars@.len(),
            trimmed_end(text@) == trimmed_end(text@.take(end as int)),
        decreases end,
    {
        assert(text@.take(end as int).drop_last() =~= text@.take(end - 1));
        end = end - 1;
    }
    assert(text@.subrange(0, end as int) =~= text@.take(end as int));
    text_of(&chars, 0, end)
}

/// The text without the white space at its start.
pub fn trim_start(text: &str) -> (result: String)
    ensures
        result@ == trimmed_start(text@),
{
    let chars = chars_of(text);
    let mut start: usize = 0;
    assert(text@.skip(0) =~= text@);
    while start < chars.len() && is_white_space(chars[start])
        invariant
            chars@ == text@,
            start <= chars@.len(),
            trimmed_start(text@) == trimmed_start(text@.skip(start as int)),
        decreases chars@.len() - start,
    {
        assert(text@.skip(start as int).skip(1) =~= text@.skip(start + 1));
        start = start + 1;
    }
    assert(text@.subrange(start as int, chars@.len() as int) =~= text@.skip(start as int));
    text_of(&chars, start, chars.len())
}

/// The text without the white space at either end.
pub fn trim(text: &str) -> (result: String)
    ensures
        result@ == trimmed(text@),
{
    let cut_end = trim_end(text);
    trim_start(&cut_end)
}

/// The text without the `c` at its end.
pub open spec fn without_trailing(s: Seq<char>, c: char) -> Seq<char>
    decreases s.len(),
{
    if s.len() > 0 && s.last() == c {
        without_trailing(s.drop_last(), c)
    } else {
        s
    }
}

/// The text without the `c` at its start.
pub open spec fn without_leading(s: Seq<char>, c: char) -> Seq<char>
    decreases s.len(),
{
    if s.len() > 0 && s[0] == c {
        without_leading(s.skip(1), c)
    } else {
        s
    }
}

/// The text without the `c` at its end.
pub fn trim_end_matches(text: &str, c: char) -> (result: String)
    ensures
        result@ == without_trailing(text@, c),
{
    let chars = chars_of(text);
    let mut end: usize = chars.len();
    assert(text@.take(end as int) =~= text@);
    while end > 0 && chars[end - 1] == c
        invariant
            chars@ == text@,
            end <= chars@.len(),
            without_trailing(text@, c) == without_trailing(text@.take(end as int), c),
        decreases end,
    {
        assert(text@.take(end as int).drop_last() =~= text@.take(end - 1));
        end = end - 1;
    }
    assert(text@.subrange(0, end as int) =~= text@.take(end as int));
    text_of(&chars, 0, end)
}

/// The text without the `c` at its start.
pub fn trim_start_matches(text: &str, c: char) -> (result: String)
    ensures
        result@ == without_leading(text@, c),
{
    let chars = chars_of(text);
    let mut start: usize = 0;
    assert(text@.skip(0) =~= text@);
    while start < chars.len() && chars[start] == c
        invariant
            chars@ == text@,
            start <= chars@.len(),
            without_leading(text@, c) == without_leading(text@.skip(start as int), c),
        decreases chars@.len() - start,
    {
        assert(text@.skip(start as int).skip(1) =~= text@.skip(start + 1));
        start = start + 1;
    }
    assert(text@.subrange(start as int, chars@.len() as int) =~= text@.skip(start as int));
    text_of(&chars, start, chars.len())
}

// ---------------------------------------------------------------------------
// Joining and replacing
// ---------------------------------------------------------------------------
/// The parts in a row with `separator` between each two.
pub open spec fn joined(parts: Seq<Seq<char>>, separator: Seq<char>) -> Seq<char>
    decreases parts.len(),
{
    if parts.len() == 0 {
        seq![]
    } else if parts.len() == 1 {
        parts[0]
    } else {
        joined(parts.drop_last(), separator) + separator + parts.last()
    }
}

/// The parts from `from` up to `to` in a row with `separator` between each two.
pub fn join(parts: &Vec<String>, from: usize, to: usize, separator: &str) -> (result: String)
    requires
        from <= to <= parts@.len(),
    ensures
        result@ == joined(parts.deep_view().subrange(from as int, to as int), separator@),
{
    let mut result = String::new();
    let mut at: usize = from;
    while at < to
        invariant
            from <= at <= to <= parts@.len(),
            result@ == joined(parts.deep_view().subrange(from as int, at as int), separator@),
        decreases to - at,
    {
        proof {
            let next = parts.deep_view().subrange(from as int, at + 1);
            assert(next.drop_last() =~= parts.deep_view().subrange(from as int, at as int));
            assert(next.last() == parts@[at as int]@);
        }
        if at > from {
            result.append(separator);
            result.append(&parts[at]);
        } else {
            result = parts[at].clone();
        }
        at = at + 1;
    }
    result
}

/// All parts in a row with `separator` between each two.
pub fn join_all(parts: &Vec<String>, separator: &str) -> (result: String)
    ensures
        result@ == joined(parts.deep_view(), separator@),
{
    assert(parts.deep_view().subrange(0, parts@.len() as int) =~= parts.deep_view());
    join(parts, 0, parts.len(), separator)
}

/// The text with each `from` replaced by `to`.
pub open spec fn replaced(s: Seq<char>, from: char, to: char) -> Seq<char> {
    s.map_values(
        |c: char|
            if c == from {
                to
            } else {
                c
            },
    )
}

/// The text with each `from` replaced by `to`.
pub fn replace_char(text: &str, from: char, to: char) -> (result: String)
    ensures
        result@ == replaced(text@, from, to),
{
    let chars = chars_of(text);
    let mut result = String::new();
    let mut at: usize = 0;
    while at < chars.len()
        invariant
            chars@ == text@,
            at <= chars@.len(),
            result@ == replaced(text@, from, to).take(at as int),
        decreases chars@.len() - at,
    {
        if chars[at] == from {
            result.push(to);
        } else {
            result.push(chars[at]);
        }
        at = at + 1;
        assert(result@ =~= replaced(text@, from, to).take(at as int));
    }
    assert(result@ =~= replaced(text@, from, to));
    result
}

// ---------------------------------------------------------------------------
// Splitting and joining
// ---------------------------------------------------------------------------
/// No piece of a split text holds the character that it was split at.
pub proof fn pieces_are_free(s: Seq<char>, c: char)
    ensures
        pieces(s, c).len() > 0,
        forall|i: int| 0 <= i < pieces(s, c).len() ==> !(#[trigger] pieces(s, c)[i]).contains(c),
    decreases s.len(),
{
    lemma_index_from(s, c, 0);
    let at = index_from(s, c, 0);
    if at < s.len() {
        let rest = pieces(s.skip(at + 1), c);
        pieces_are_free(s.skip(at + 1), c);
        assert forall|i: int| 0 <= i < pieces(s, c).len() implies !(#[trigger] pieces(
            s,
            c,
        )[i]).contains(c) by {
            if i > 0 {
                assert(pieces(s, c)[i] == rest[i - 1]);
            }
        }
    }
}

/// A text without the character is its own only piece.
pub proof fn lemma_pieces_of_free(s: Seq<char>, c: char)
    requires
        !s.contains(c),
    ensures
        pieces(s, c) == seq![s],
{
    lemma_index_from(s, c, 0);
    let at = index_from(s, c, 0);
    if at < s.len() {
        assert(s[at] == c);
        assert(s.contains(c));
    }
}

/// Splitting a text that was put together around the character splits both sides.
pub proof fn lemma_pieces_append(a: Seq<char>, c: char, b: Seq<char>)
    ensures
        pieces(a + seq![c] + b, c) == pieces(a, c) + pieces(b, c),
    decreases a.len(),
{
    let s = a + seq![c] + b;
    lemma_index_from(a, c, 0);
    let at = index_from(a, c, 0);
    if at < a.len() {
        lemma_index_from_unique(s, c, 0, at);
        assert(s.take(at) =~= a.take(at));
        assert(s.skip(at + 1) =~= a.skip(at + 1) + seq![c] + b);
        lemma_pieces_append(a.skip(at + 1), c, b);
        assert(pieces(s, c) =~= pieces(a, c) + pieces(b, c));
    } else {
        lemma_index_from_unique(s, c, 0, a.len() as int);
        assert(s.take(a.len() as int) =~= a);
        assert(s.skip(a.len() as int + 1) =~= b);
        assert(pieces(s, c) =~= pieces(a, c) + pieces(b, c));
    }
}

/// Splitting what was joined gives the parts back, provided no part holds the
/// separator.
pub proof fn joined_splits_back(parts: Seq<Seq<char>>, c: char)
    requires
        parts.len() > 0,
        forall|i: int| 0 <= i < parts.len() ==> !(#[trigger] parts[i]).contains(c),
    ensures
        pieces(joined(parts, seq![c]), c) == parts,
    decreases parts.len(),
{
    lemma_pieces_of_free(parts.last(), c);
    if parts.len() == 1 {
        assert(parts =~= seq![parts[0]]);
    } else {
        let front = parts.drop_last();
        assert forall|i: int| 0 <= i < front.len() implies !(#[trigger] front[i]).contains(c) by {
            assert(front[i] == parts[i]);
        }
        joined_splits_back(front, c);
        lemma_pieces_append(joined(front, seq![c]), c, parts.last());
        assert(parts =~= front + seq![parts.last()]);
    }
}

/// The pieces joined again are the text.
pub proof fn pieces_join_back(s: Seq<char>, c: char)
    ensures
        joined(pieces(s, c), seq![c]) == s,
    decreases s.len(),
{
    lemma_index_from(s, c, 0);
    let at = index_from(s, c, 0);
    if at < s.len() {
        let rest = s.skip(at + 1);
        pieces_join_back(rest, c);
        pieces_are_free(rest, c);
        lemma_joined_prepend(s.take(at), pieces(rest, c), seq![c]);
        assert(s =~= s.take(at) + seq![c] + rest);
    }
}

/// A part put in front of others.
pub proof fn lemma_joined_prepend(first: Seq<char>, parts: Seq<Seq<char>>, separator: Seq<char>)
    requires
        parts.len() > 0,
    ensures
        joined(seq![first] + parts, separator) == first + separator + joined(parts, separator),
    decreases parts.len(),
{
    let all = seq![first] + parts;
    if parts.len() == 1 {
        assert(all.drop_last() =~= seq![first]);
        assert(joined(all.drop_last(), separator) == first);
    } else {
        assert(all.drop_last() =~= seq![first] + parts.drop_last());
        lemma_joined_prepend(first, parts.drop_last(), separator);
        assert(joined(all, separator) =~= first + separator + joined(parts, separator));
    }
}

// ---------------------------------------------------------------------------
// Copies
// ---------------------------------------------------------------------------
/// A copy of a list of texts.
pub fn copy_texts(texts: &Vec<String>) -> (copy: Vec<String>)
    ensures
        copy@ == texts@,
        copy.deep_view() == texts.deep_view(),
{
    let mut copy: Vec<String> = Vec::new();
    let mut at: usize = 0;
    while at < texts.len()
        invariant
            at <= texts@.len(),
            copy@ == texts@.take(at as int),
        decreases texts@.len() - at,
    {
        copy.push(texts[at].clone());
        at = at + 1;
        assert(copy@ =~= texts@.take(at as int));
    }
    assert(copy@ =~= texts@);
    copy
}

/// A copy of a list of pairs of texts.
pub fn copy_pairs(pairs: &Vec<(String, String)>) -> (copy: Vec<(String, String)>)
    ensures
        copy@ == pairs@,
        copy.deep_view() == pairs.deep_view(),
{
    let mut copy: Vec<(String, String)> = Vec::new();
    let mut at: usize = 0;
    while at < pairs.len()
        invariant
            at <= pairs@.len(),
            copy@ == pairs@.take(at as int),
        decreases pairs@.len() - at,
    {
        copy.push((pairs[at].0.clone(), pairs[at].1.clone()));
        at = at + 1;
        assert(copy@ =~= pairs@.take(at as int));
    }
    assert(copy@ =~= pairs@);
    copy
}

/// A copy of an optional text.
pub fn copy_option(text: &Option<String>) -> (copy: Option<String>)
    ensures
        copy == *text,
        copy.deep_view() == text.deep_view(),
{
    match text {
        Some(value) => Some(value.clone()),
        None => None,
    }
}

// ---------------------------------------------------------------------------
// ASCII case
// ---------------------------------------------------------------------------
/// An ASCII letter in upper case; any other character as it is.
pub open spec fn upper(c: char) -> char {
    if 'a' <= c <= 'z' {
        ((c as u32 - 32) as u8) as char
    } else {
        c
    }
}

/// An ASCII letter in lower case; any other character as it is.
pub open spec fn lower(c: char) -> char {
    if 'A' <= c <= 'Z' {
        ((c as u32 + 32) as u8) as char
    } else {
        c
    }
}

/// The text with its ASCII letters in upper case.
pub open spec fn uppercase(s: Seq<char>) -> Seq<char> {
    s.map_values(|c: char| upper(c))
}

/// The text with its ASCII letters in lower case.
pub open spec fn lowercase(s: Seq<char>) -> Seq<char> {
    s.map_values(|c: char| lower(c))
}

/// The text with its ASCII letters in upper case.
pub fn to_ascii_uppercase(text: &str) -> (result: String)
    ensures
        result@ == uppercase(text@),
{
    let chars = chars_of(text);
    let mut result = String::new();
    let mut at: usize = 0;
    while at < chars.len()
        invariant
            chars@ == text@,
            at <= chars@.len(),
            result@ == uppercase(text@).take(at as int),
        decreases chars@.len() - at,
    {
        let c = chars[at];
        if 'a' <= c && c <= 'z' {
            result.push(((c as u32 - 32) as u8) as char);
        } else {
            result.push(c);
        }
        at = at + 1;
        assert(result@ =~= uppercase(text@).take(at as int));
    }
    assert(result@ =~= uppercase(text@));
    result
}

/// The text with its ASCII letters in lower case.
pub fn to_ascii_lowercase(text: &str) -> (result: String)
    ensures
        result@ == lowercase(text@),
{
    let chars = chars_of(text);
    let mut result = String::new();
    let mut at: usize = 0;
    while at < chars.len()
        invariant
            chars@ == text@,
            at <= chars@.len(),
            result@ == lowercase(text@).take(at as int),
        decreases chars@.len() - at,
    {
        let c = chars[at];
        if 'A' <= c && c <= 'Z' {
            result.push(((c as u32 + 32) as u8) as char);
        } else {
            result.push(c);
        }
        at = at + 1;
        assert(result@ =~= lowercase(text@).take(at as int));
    }
    assert(result@ =~= lowercase(text@));
    result
}

/// Whether two texts are equal up to the case of their ASCII letters.
pub fn eq_ignore_ascii_case(left: &str, right: &str) -> (same: bool)
    ensures
        same == (lowercase(left@) == lowercase(right@)),
{
    let left_lower = to_ascii_lowercase(left);
    let right_lower = to_ascii_lowercase(right);
    left_lower == right_lower
}

/// A text is cut at the first place of a character: what has none of it before that
/// character comes first, and all that follows second; a text without it is not cut.
pub proof fn texts_are_cut_at_the_first(head: Seq<char>, c: char, tail: Seq<char>)
    requires
        !head.contains(c),
    ensures
        cut(head + seq![c] + tail, c) == Some((head, tail)),
        cut(head, c) is None,
{
    let whole = head + seq![c] + tail;
    assert forall|i: int| 0 <= i < head.len() implies whole[i] != c by {
        assert(head.contains(head[i]));
    }
    lemma_index_from_unique(whole, c, 0, head.len() as int);
    assert(whole.take(head.len() as int) =~= head);
    assert(whole.skip(head.len() as int + 1) =~= tail);
    assert forall|i: int| 0 <= i < head.len() implies head[i] != c by {
        assert(head.contains(head[i]));
    }
    lemma_index_from_unique(head, c, 0, head.len() as int);
}

/// The two parts of a text with the character between them are the text, and the first
/// has none of it.
pub proof fn cut_texts_glue_back(s: Seq<char>, c: char)
    ensures
        cut(s, c) matches Some((head, tail)) ==> s == head + seq![c] + tail && !head.contains(c),
        cut(s, c) is None <==> !s.contains(c),
{
    lemma_index_from(s, c, 0);
    if let Some((head, tail)) = cut(s, c) {
        assert(s =~= head + seq![c] + tail);
        if head.contains(c) {
            let i = head.index_of(c);
            assert(s[i] == c);
        }
        assert(s[head.len() as int] == c);
        assert(s.contains(c));
    } else if s.contains(c) {
        let i = s.index_of(c);
        assert(s[i] == c);
    }
}

/// The text between two places is all of it but white space at either end, and has none
/// there itself.
pub open spec fn is_trim(s: Seq<char>, from: int, to: int) -> bool {
    &&& 0 <= from <= to <= s.len()
    &&& forall|i: int| 0 <= i < from ==> white_space(#[trigger] s[i])
    &&& forall|i: int| to <= i < s.len() ==> white_space(#[trigger] s[i])
    &&& from < to ==> !white_space(s[from]) && !white_space(s[to - 1])
}

proof fn lemma_trimmed_end(s: Seq<char>) -> (to: int)
    ensures
        0 <= to <= s.len(),
        trimmed_end(s) == s.take(to),
        forall|i: int| to <= i < s.len() ==> white_space(#[trigger] s[i]),
        to > 0 ==> !white_space(s[to - 1]),
    decreases s.len(),
{
    if s.len() > 0 && white_space(s.last()) {
        let to = lemma_trimmed_end(s.drop_last());
        assert forall|i: int| to <= i < s.len() implies white_space(#[trigger] s[i]) by {
            if i < s.len() - 1 {
                assert(s.drop_last()[i] == s[i]);
            }
        }
        assert(s.drop_last().take(to) =~= s.take(to));
        to
    } else {
        assert(s.take(s.len() as int) =~= s);
        s.len() as int
    }
}

proof fn lemma_trimmed_start(s: Seq<char>) -> (from: int)
    ensures
        0 <= from <= s.len(),
        trimmed_start(s) == s.skip(from),
        forall|i: int| 0 <= i < from ==> white_space(#[trigger] s[i]),
        from < s.len() ==> !white_space(s[from]),
    decreases s.len(),
{
    if s.len() > 0 && white_space(s[0]) {
        let from = lemma_trimmed_start(s.skip(1));
        assert forall|i: int| 0 <= i < from + 1 implies white_space(#[trigger] s[i]) by {
            if i > 0 {
                assert(s.skip(1)[i - 1] == s[i]);
            }
        }
        assert(s.skip(1).skip(from) =~= s.skip(from + 1));
        from + 1
    } else {
        assert(s.skip(0) =~= s);
        0
    }
}

/// Trimming takes away the white space at either end, all of it and nothing else.
pub proof fn trimming_takes_white_space_only(s: Seq<char>)
    ensures
        exists|from: int, to: int| #[trigger]
            is_trim(s, from, to) && trimmed(s) == s.subrange(from, to),
{
    let to = lemma_trimmed_end(s);
    let front = s.take(to);
    let from = lemma_trimmed_start(front);
    assert forall|i: int| 0 <= i < from implies white_space(#[trigger] s[i]) by {
        assert(front[i] == s[i]);
    }
    if from < to {
        assert(front[from] == s[from]);
    }
    assert(is_trim(s, from, to));
    assert(front.skip(from) =~= s.subrange(from, to));
}

/// A text without white space at either end stays as it is when it is trimmed.
pub proof fn trimmed_texts_stay(s: Seq<char>)
    requires
        s.len() > 0 ==> !white_space(s[0]) && !white_space(s.last()),
    ensures
        trimmed(s) == s,
        trimmed_end(s) == s,
{
}

/// A line ends at the first line feed, which is no part of it, nor is a carriage return
/// before it; what follows has its own lines. A text without a line feed is one line.
pub proof fn lines_end_at_line_feeds(line: Seq<char>, rest: Seq<char>)
    requires
        !line.contains('\n'),
    ensures
        line.len() == 0 || line.last() != '\r' ==> lines_of(line + seq!['\n'] + rest) == seq![line]
            + lines_of(rest),
        lines_of(line + seq!['\r', '\n'] + rest) == seq![line] + lines_of(rest),
        line.len() > 0 ==> lines_of(line) == seq![line],
        lines_of(Seq::<char>::empty()).len() == 0,
{
    let whole = line + seq!['\n'] + rest;
    assert forall|i: int| 0 <= i < line.len() implies whole[i] != '\n' && line[i] != '\n' by {
        assert(line.contains(line[i]));
    }
    lemma_index_from_unique(whole, '\n', 0, line.len() as int);
    assert(whole.take(line.len() as int) =~= line);
    assert(whole.skip(line.len() as int + 1) =~= rest);
    let returned = line + seq!['\r', '\n'] + rest;
    let longer = line.push('\r');
    assert forall|i: int| 0 <= i < longer.len() implies returned[i] != '\n' by {
        if i < line.len() {
            assert(line.contains(line[i]));
        }
    }
    lemma_index_from_unique(returned, '\n', 0, longer.len() as int);
    assert(returned.take(longer.len() as int) =~= longer);
    assert(returned.skip(longer.len() as int + 1) =~= rest);
    assert(longer.drop_last() =~= line);
    lemma_index_from_unique(line, '\n', 0, line.len() as int);
}

/// Parts in a row have the separator between each two of them, and nowhere else.
pub proof fn parts_are_put_in_a_row(
    parts: Seq<Seq<char>>,
    part: Seq<char>,
    separator: Seq<char>,
)
    ensures
        joined(Seq::<Seq<char>>::empty(), separator).len() == 0,
        joined(seq![part], separator) == part,
        parts.len() > 0 ==> joined(parts.push(part), separator) == joined(parts, separator)
            + separator + part,
{
    assert(parts.push(part).drop_last() =~= parts);
}

/// The case of letters is all that changes: each ASCII letter becomes the other one of its
/// pair, and every other character stays.
pub proof fn only_letters_change_case(s: Seq<char>, i: int)
    requires
        0 <= i < s.len(),
    ensures
        uppercase(s).len() == s.len(),
        lowercase(s).len() == s.len(),
        !('a' <= s[i] <= 'z') ==> uppercase(s)[i] == s[i],
        !('A' <= s[i] <= 'Z') ==> lowercase(s)[i] == s[i],
        'a' <= s[i] <= 'z' ==> uppercase(s)[i] as int == s[i] as int - 32,
        'A' <= s[i] <= 'Z' ==> lowercase(s)[i] as int == s[i] as int + 32,
{
}

/// What stands within a text occurs in it.
pub proof fn inner_texts_occur(front: Seq<char>, inner: Seq<char>, back: Seq<char>)
    ensures
        occurs(front + inner + back, inner),
{
    let whole = front + inner + back;
    let at = front.len() as int;
    assert(whole.subrange(at, at + inner.len()) =~= inner);
    assert(occurs_at(whole, inner, at));
}

} // verus!
