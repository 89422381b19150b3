//! Paths as text: components, joining, and paths inside a container.
use crate::sequence::lemma_filter_all;
use crate::text::{chars_of, glue, glue3, join_all, joined, joined_splits_back};
use crate::text::{lemma_pieces_append, lemma_pieces_of_free, pieces, pieces_are_free, same_text};
use crate::text::{split, starts_with, text_of, trim_end_matches, trim_start_matches};
use crate::text::{without_leading, without_trailing};
use vstd::prelude::*;

verus! {

// ---------------------------------------------------------------------------
// Components
// ---------------------------------------------------------------------------
/// A piece between slashes that names a file: neither empty, nor `.`, nor `..`.
pub open spec fn is_name(piece: Seq<char>) -> bool {
    piece.len() > 0 && piece != "."@ && piece != ".."@
}

/// The names of a path, in order.
pub open spec fn names(path: Seq<char>) -> Seq<Seq<char>> {
    pieces(path, '/').filter(|piece: Seq<char>| is_name(piece))
}

/// The path starts at the root.
pub open spec fn absolute(path: Seq<char>) -> bool {
    path.len() > 0 && path[0] == '/'
}

/// The path has a component `..`.
pub open spec fn climbs(path: Seq<char>) -> bool {
    pieces(path, '/').contains(".."@)
}

/// The names in a row with slashes between them.
pub open spec fn slashed(parts: Seq<Seq<char>>) -> Seq<char> {
    joined(parts, "/"@)
}

/// Whether the path starts at the root.
pub fn is_absolute(path: &str) -> (found: bool)
    ensures
        found == absolute(path@),
{
    proof {
        reveal_strlit("/");
        if path@.len() > 0 {
            assert(path@.take(1)[0] == path@[0]);
            assert("/"@ =~= seq!['/']);
            assert(path@[0] == '/' ==> path@.take(1) =~= "/"@);
        }
    }
    starts_with(path, "/")
}

/// The names of a path, and whether the path has a component `..`.
fn components(path: &str) -> (result: (Vec<String>, bool))
    ensures
        result.0.deep_view() == names(path@),
        result.1 == climbs(path@),
{
    let parts = split(path, '/');
    let mut kept: Vec<String> = Vec::new();
    let mut climbing = false;
    let mut at: usize = 0;
    let ghost all = pieces(path@, '/');
    let ghost named = |piece: Seq<char>| is_name(piece);
    proof {
        reveal(Seq::filter);
        assert(all.take(0) =~= seq![]);
        assert(kept.deep_view() =~= seq![]);
    }
    while at < parts.len()
        invariant
            at <= parts@.len(),
            parts.deep_view() == all,
            named == (|piece: Seq<char>| is_name(piece)),
            kept.deep_view() == all.take(at as int).filter(named),
            climbing == all.take(at as int).contains(".."@),
        decreases parts@.len() - at,
    {
        let ghost before = kept.deep_view();
        proof {
            assert(parts@[at as int]@ == all[at as int]);
            reveal_strlit("..");
            reveal_strlit(".");
            assert(all.take(at + 1) =~= all.take(at as int).push(all[at as int]));
            assert(all.take(at + 1).drop_last() =~= all.take(at as int));
            reveal(Seq::filter);
            assert(all.take(at + 1).contains(".."@) == (all.take(at as int).contains(".."@)
                || all[at as int] == ".."@)) by {
                if all.take(at as int).contains(".."@) {
                    let i = all.take(at as int).index_of(".."@);
                    assert(all.take(at + 1)[i] == ".."@);
                }
                if all[at as int] == ".."@ {
                    assert(all.take(at + 1)[at as int] == ".."@);
                }
                if all.take(at + 1).contains(".."@) {
                    let i = all.take(at + 1).index_of(".."@);
                    if i < at {
                        assert(all.take(at as int)[i] == ".."@);
                    }
                }
            }
        }
        let part = &parts[at];
        if same_text(part, "..") {
            climbing = true;
        } else if !same_text(part, "") && !same_text(part, ".") {
            proof {
                reveal_strlit("");
                if part@.len() == 0 {
                    assert(part@ =~= ""@);
                }
            }
            kept.push(part.clone());
            assert(kept.deep_view() =~= before.push(part@));
        } else {
            proof {
                reveal_strlit("");
            }
        }
        at = at + 1;
    }
    assert(all.take(at as int) =~= all);
    (kept, climbing)
}

/// The names of a path, in order.
pub fn name_list(path: &str) -> (parts: Vec<String>)
    ensures
        parts.deep_view() == names(path@),
{
    components(path).0
}

/// Whether the path has a component `..`.
pub fn has_parent_component(path: &str) -> (found: bool)
    ensures
        found == climbs(path@),
{
    components(path).1
}

// ---------------------------------------------------------------------------
// Joining
// ---------------------------------------------------------------------------
/// `child` taken from the directory `base`: an absolute child stands for itself.
pub open spec fn path_joined(base: Seq<char>, child: Seq<char>) -> Seq<char> {
    if absolute(child) {
        child
    } else if base.len() == 0 || base.last() == '/' {
        base + child
    } else {
        base + "/"@ + child
    }
}

/// `child` taken from the directory `base`: an absolute child stands for itself.
pub fn join_path(base: &str, child: &str) -> (path: String)
    ensures
        path@ == path_joined(base@, child@),
{
    if is_absolute(child) {
        child.to_owned()
    } else {
        let chars = chars_of(base);
        if chars.len() == 0 || chars[chars.len() - 1] == '/' {
            glue(base, child)
        } else {
            glue3(base, "/", child)
        }
    }
}

/// A path inside a directory, as a relative path of names only: none for an
/// absolute path or one with a component `..`.
pub open spec fn relative_path(path: Seq<char>) -> Option<Seq<char>> {
    if absolute(path) || climbs(path) {
        None
    } else {
        Some(slashed(names(path)))
    }
}

/// A path inside a directory, as a relative path of names only: none for an
/// absolute path or one with a component `..`.
pub fn normalize_relative_path(path: &str) -> (result: Option<String>)
    ensures
        result.deep_view() == relative_path(path@),
{
    if is_absolute(path) {
        return None;
    }
    let (parts, climbing) = components(path);
    if climbing {
        None
    } else {
        Some(join_all(&parts, "/"))
    }
}

// ---------------------------------------------------------------------------
// Paths inside a container
// ---------------------------------------------------------------------------
/// The path from the root with the names of `path`; `.` and `..` are dropped.
pub open spec fn clean(path: Seq<char>) -> Seq<char> {
    "/"@ + slashed(names(path))
}

/// The path from the root with the names of `path`; `.` and `..` are dropped.
pub fn clean_container_path(path: &str) -> (result: String)
    ensures
        result@ == clean(path@),
{
    let (parts, _climbing) = components(path);
    glue("/", &join_all(&parts, "/"))
}

/// A destination inside a container, taken from the working directory unless it is
/// absolute.
pub open spec fn destination_in(workdir: Seq<char>, destination: Seq<char>) -> Seq<char> {
    if absolute(destination) {
        clean(destination)
    } else {
        clean(without_trailing(workdir, '/') + "/"@ + destination)
    }
}

/// A destination inside a container, taken from the working directory unless it is
/// absolute.
pub fn resolve_container_destination(current_workdir: &str, destination: &str) -> (result: String)
    ensures
        result@ == destination_in(current_workdir@, destination@),
{
    if is_absolute(destination) {
        clean_container_path(destination)
    } else {
        clean_container_path(&glue3(&trim_end_matches(current_workdir, '/'), "/", destination))
    }
}

/// Where a path of the container lies under the directory of its root.
pub open spec fn host_path(rootfs: Seq<char>, container_path: Seq<char>) -> Option<Seq<char>> {
    match relative_path(without_leading(container_path, '/')) {
        Some(relative) => Some(path_joined(rootfs, relative)),
        None => None,
    }
}

/// The complaint about a path that is none inside a container.
pub open spec fn invalid_container_path(container_path: Seq<char>) -> Seq<char> {
    "Invalid container path '"@ + container_path + "'"@
}

/// Where a path of the container lies under the directory of its root.
pub fn host_path_for_container_path(rootfs: &str, container_path: &str) -> (result: Result<
    String,
    String,
>)
    ensures
        match host_path(rootfs@, container_path@) {
            Some(path) => result matches Ok(found) && found@ == path,
            None => result matches Err(message) && message@ == invalid_container_path(
                container_path@,
            ),
        },
{
    match normalize_relative_path(&trim_start_matches(container_path, '/')) {
        Some(relative) => Ok(join_path(rootfs, &relative)),
        None => Err(glue3("Invalid container path '", container_path, "'")),
    }
}

// ---------------------------------------------------------------------------
// The last component
// ---------------------------------------------------------------------------
/// The path without slashes and `/.` at its end; a lone slash stays.
pub open spec fn without_tail(path: Seq<char>) -> Seq<char>
    decreases path.len(),
{
    let len = path.len() as int;
    if len >= 2 && (path[len - 1] == '/' || (path[len - 1] == '.' && path[len - 2] == '/')) {
        without_tail(path.drop_last())
    } else {
        path
    }
}

/// The place of the last slash before `end`, or -1.
pub open spec fn last_slash(path: Seq<char>, end: int) -> int
    decreases end,
{
    if end <= 0 {
        -1
    } else if path[end - 1] == '/' {
        end - 1
    } else {
        last_slash(path, end - 1)
    }
}

/// The name that the path ends in, if its last component is a name.
pub open spec fn file_name_of(path: Seq<char>) -> Option<Seq<char>> {
    let whole = without_tail(path);
    let last = whole.skip(last_slash(whole, whole.len() as int) + 1);
    if is_name(last) {
        Some(last)
    } else {
        None
    }
}

/// The path without its last component; none for the empty path and the root.
pub open spec fn parent_of(path: Seq<char>) -> Option<Seq<char>> {
    let whole = without_tail(path);
    let slash = last_slash(whole, whole.len() as int);
    if whole.len() == 0 || whole == "/"@ {
        None
    } else {
        Some(without_tail(whole.take(slash + 1)))
    }
}

/// The length of the path without slashes and `/.` before `end`.
fn tail_start(chars: &Vec<char>, end: usize) -> (result: usize)
    requires
        end <= chars@.len(),
    ensures
        result <= end,
        chars@.take(result as int) == without_tail(chars@.take(end as int)),
{
    let mut at: usize = end;
    while at >= 2 && (chars[at - 1] == '/' || (chars[at - 1] == '.' && chars[at - 2] == '/'))
        invariant
            at <= end <= chars@.len(),
            without_tail(chars@.take(end as int)) == without_tail(chars@.take(at as int)),
        decreases at,
    {
        assert(chars@.take(at as int).drop_last() =~= chars@.take(at - 1));
        at = at - 1;
    }
    at
}

/// The place after the last slash before `end`.
fn after_last_slash(chars: &Vec<char>, end: usize) -> (start: usize)
    requires
        end <= chars@.len(),
    ensures
        start <= end,
        start == last_slash(chars@.take(end as int), end as int) + 1,
{
    let ghost whole = chars@.take(end as int);
    let mut at: usize = end;
    while at > 0 && chars[at - 1] != '/'
        invariant
            at <= end <= chars@.len(),
            whole == chars@.take(end as int),
            last_slash(whole, end as int) == last_slash(whole, at as int),
        decreases at,
    {
        at = at - 1;
    }
    at
}

/// The name that the path ends in, if its last component is a name.
pub fn file_name(path: &str) -> (name: Option<String>)
    ensures
        name.deep_view() == file_name_of(path@),
{
    let chars = chars_of(path);
    let end = tail_start(&chars, chars.len());
    let start = after_last_slash(&chars, end);
    let last = text_of(&chars, start, end);
    proof {
        assert(chars@.take(chars@.len() as int) =~= path@);
        assert(last@ =~= without_tail(path@).skip(start as int));
        reveal_strlit("");
        if last@.len() == 0 {
            assert(last@ =~= ""@);
        }
    }
    if same_text(&last, "") || same_text(&last, ".") || same_text(&last, "..") {
        None
    } else {
        Some(last)
    }
}

/// The path without its last component; none for the empty path and the root.
pub fn parent(path: &str) -> (result: Option<String>)
    ensures
        result.deep_view() == parent_of(path@),
{
    let chars = chars_of(path);
    let end = tail_start(&chars, chars.len());
    let start = after_last_slash(&chars, end);
    proof {
        assert(chars@.take(chars@.len() as int) =~= path@);
        reveal_strlit("/");
    }
    let ghost whole = without_tail(path@);
    if end == 0 || (end == 1 && chars[0] == '/') {
        assert(end == 1 ==> whole =~= "/"@);
        None
    } else {
        proof {
            if whole == "/"@ {
                assert(chars@[0] == whole[0]);
            }
        }
        let stop = tail_start(&chars, start);
        assert(whole.take(start as int) =~= chars@.take(start as int));
        assert(chars@.subrange(0, stop as int) =~= chars@.take(stop as int));
        Some(text_of(&chars, 0, stop))
    }
}

/// A parent is shorter than its child.
pub proof fn lemma_parent_shorter(path: Seq<char>)
    ensures
        parent_of(path) matches Some(up) ==> up.len() < path.len(),
{
    reveal_strlit("/");
    lemma_without_tail(path);
    let whole = without_tail(path);
    if parent_of(path) is Some {
        lemma_last_slash(whole, whole.len() as int);
        let slash = last_slash(whole, whole.len() as int);
        if slash == whole.len() - 1 {
            if whole.len() == 1 {
                assert(whole =~= "/"@);
            }
        }
        lemma_without_tail(whole.take(slash + 1));
    }
}

proof fn lemma_without_tail(path: Seq<char>)
    ensures
        without_tail(path).len() <= path.len(),
        without_tail(path).len() >= 2 ==> without_tail(path).last() != '/',
        forall|i: int|
            0 <= i < without_tail(path).len() ==> #[trigger] without_tail(path)[i] == path[i],
        without_tail(path).len() > 0 && last_slash(
            without_tail(path),
            without_tail(path).len() as int,
        ) == without_tail(path).len() - 1 ==> without_tail(path).last() == '/',
    decreases path.len(),
{
    let len = path.len() as int;
    if len >= 2 && (path[len - 1] == '/' || (path[len - 1] == '.' && path[len - 2] == '/')) {
        lemma_without_tail(path.drop_last());
    }
    let whole = without_tail(path);
    if whole.len() > 0 && whole.last() != '/' {
        lemma_last_slash(whole, whole.len() - 1);
    }
}

/// The path, its parent, the parent's parent, and so on.
pub open spec fn lineage(path: Seq<char>) -> Seq<Seq<char>>
    decreases path.len(),
{
    match parent_of(path) {
        Some(up) => {
            proof {
                lemma_parent_shorter(path);
            }
            seq![path] + lineage(up)
        },
        None => seq![path],
    }
}

/// The path, its parent, the parent's parent, and so on.
pub fn ancestors(path: &str) -> (result: Vec<String>)
    ensures
        result.deep_view() == lineage(path@),
{
    let mut result: Vec<String> = Vec::new();
    let mut current = path.to_string();
    assert(result.deep_view() + lineage(path@) =~= lineage(path@));
    loop
        invariant
            result.deep_view() + lineage(current@) == lineage(path@),
        decreases current@.len(),
    {
        let ghost before = result.deep_view();
        let ghost here = current@;
        proof {
            lemma_parent_shorter(current@);
        }
        let up = parent(&current);
        result.push(current.clone());
        assert(result.deep_view() =~= before.push(here));
        match up {
            Some(next) => {
                assert(before + (seq![here] + lineage(next@)) =~= before.push(here) + lineage(
                    next@,
                ));
                current = next;
            },
            None => {
                assert(before + seq![here] =~= before.push(here));
                return result;
            },
        }
    }
}

/// The place of the last dot of a name, or -1.
pub open spec fn last_dot(name: Seq<char>, end: int) -> int
    decreases end,
{
    if end <= 0 {
        -1
    } else if name[end - 1] == '.' {
        end - 1
    } else {
        last_dot(name, end - 1)
    }
}

/// What stands after the last dot of a file name, unless that dot starts the name.
pub open spec fn extension_of(path: Seq<char>) -> Option<Seq<char>> {
    match file_name_of(path) {
        Some(name) => {
            let dot = last_dot(name, name.len() as int);
            if dot > 0 {
                Some(name.skip(dot + 1))
            } else {
                None
            }
        },
        None => None,
    }
}

/// What stands after the last dot of a file name, unless that dot starts the name.
pub fn extension(path: &str) -> (result: Option<String>)
    ensures
        result.deep_view() == extension_of(path@),
{
    match file_name(path) {
        Some(name) => {
            let chars = chars_of(&name);
            let mut at: usize = chars.len();
            while at > 0 && chars[at - 1] != '.'
                invariant
                    chars@ == name@,
                    at <= chars@.len(),
                    last_dot(name@, name@.len() as int) == last_dot(name@, at as int),
                decreases at,
            {
                at = at - 1;
            }
            if at > 1 {
                let rest = text_of(&chars, at, chars.len());
                assert(rest@ =~= name@.skip(at as int));
                Some(rest)
            } else {
                None
            }
        },
        None => None,
    }
}

/// The path with the extension of its file name replaced, or with one added; a path
/// without a file name stays as it is.
pub open spec fn extension_replaced(path: Seq<char>, suffix: Seq<char>) -> Seq<char> {
    match file_name_of(path) {
        None => path,
        Some(name) => {
            let start = without_tail(path).len() - name.len();
            let dot = last_dot(name, name.len() as int);
            let stem = if dot > 0 {
                dot
            } else {
                name.len() as int
            };
            path.take(start + stem) + "."@ + suffix
        },
    }
}

/// The path with the extension of its file name replaced, or with one added; a path
/// without a file name stays as it is.
pub fn with_extension(path: &str, suffix: &str) -> (result: String)
    ensures
        result@ == extension_replaced(path@, suffix@),
{
    let name = match file_name(path) {
        Some(name) => name,
        None => {
            return path.to_string();
        },
    };
    let chars = chars_of(path);
    let end = tail_start(&chars, chars.len());
    let letters = chars_of(&name);
    proof {
        assert(chars@.take(chars@.len() as int) =~= path@);
        lemma_last_slash(without_tail(path@), end as int);
    }
    let start: usize = end - letters.len();
    let mut at: usize = letters.len();
    while at > 0 && letters[at - 1] != '.'
        invariant
            letters@ == name@,
            at <= letters@.len(),
            last_dot(name@, name@.len() as int) == last_dot(name@, at as int),
        decreases at,
    {
        at = at - 1;
    }
    let stem: usize = if at > 1 {
        at - 1
    } else {
        letters.len()
    };
    let head = text_of(&chars, 0, start + stem);
    assert(head@ =~= path@.take(start + stem));
    glue3(&head, ".", suffix)
}

proof fn lemma_last_slash(path: Seq<char>, end: int)
    requires
        0 <= end <= path.len(),
    ensures
        -1 <= last_slash(path, end) < end || (end == 0 && last_slash(path, end) == -1),
    decreases end,
{
    if end > 0 && path[end - 1] != '/' {
        lemma_last_slash(path, end - 1);
    }
}

// ---------------------------------------------------------------------------
// Laws
// ---------------------------------------------------------------------------
/// A directory's path as it stands before a slash: not the root, and nothing to cut
/// off at its end.
pub open spec fn is_prefix(directory: Seq<char>) -> bool {
    directory.len() == 0 || (directory.last() != '/' && without_tail(directory) == directory)
}

/// A name in a directory is the file name of their path, the directory is the path's
/// parent, and the path can stand before a slash again.
pub proof fn joined_paths_come_apart(directory: Seq<char>, name: Seq<char>)
    requires
        is_prefix(directory),
        is_name(name),
        !name.contains('/'),
    ensures
        file_name_of(path_joined(directory, name)) == Some(name),
        parent_of(path_joined(directory, name)) == Some(directory),
        is_prefix(path_joined(directory, name)),
{
    reveal_strlit("/");
    reveal_strlit(".");
    let path = path_joined(directory, name);
    let len = path.len() as int;
    let start = len - name.len();
    assert forall|i: int| 0 <= i < name.len() implies #[trigger] name[i] != '/' && path[start + i]
        == name[i] by {
        assert(name.contains(name[i]));
    }
    assert(path[len - 1] == name[name.len() - 1]);
    if name.len() == 1 {
        assert(name[0] != '.') by {
            if name[0] == '.' {
                assert(name =~= "."@);
            }
        }
    } else {
        assert(path[len - 2] == name[name.len() - 2]);
    }
    assert(without_tail(path) == path);
    lemma_last_slash_before(path, start, len);
    assert(path.skip(start) =~= name);
    if directory.len() == 0 {
        assert(path.take(0) =~= directory);
        assert(path != "/"@);
    } else {
        let above = path.take(start);
        assert(above =~= directory + "/"@);
        assert(above.drop_last() =~= directory);
        assert(without_tail(above) == directory);
    }
}

proof fn lemma_last_slash_before(path: Seq<char>, start: int, end: int)
    requires
        0 <= start <= end <= path.len(),
        start > 0 ==> path[start - 1] == '/',
        forall|i: int| start <= i < end ==> #[trigger] path[i] != '/',
    ensures
        last_slash(path, end) == start - 1,
    decreases end,
{
    if end > start {
        lemma_last_slash_before(path, start, end - 1);
    }
}

/// The names of a path are names and hold no slash.
pub proof fn names_are_names(path: Seq<char>)
    ensures
        forall|i: int|
            0 <= i < names(path).len() ==> is_name(#[trigger] names(path)[i])
                && !names(path)[i].contains('/'),
{
    let all = pieces(path, '/');
    let named = |piece: Seq<char>| is_name(piece);
    pieces_are_free(path, '/');
    assert forall|i: int| 0 <= i < names(path).len() implies is_name(#[trigger] names(path)[i])
        && !names(path)[i].contains('/') by {
        broadcast use vstd::seq_lib::group_filter_ensures;

        assert(names(path).contains(names(path)[i]));
        all.lemma_filter_contains_rev(named, names(path)[i]);
    }
}

/// A row of names is a relative path with just these names.
pub proof fn slashed_names(parts: Seq<Seq<char>>)
    requires
        forall|i: int|
            0 <= i < parts.len() ==> is_name(#[trigger] parts[i]) && !parts[i].contains('/'),
    ensures
        names(slashed(parts)) == parts,
        !absolute(slashed(parts)),
        !climbs(slashed(parts)),
{
    reveal_strlit("/");
    reveal_strlit(".");
    reveal_strlit("..");
    assert("/"@ =~= seq!['/']);
    let named = |piece: Seq<char>| is_name(piece);
    if parts.len() == 0 {
        let none: Seq<char> = seq![];
        lemma_pieces_of_free(none, '/');
        assert(pieces(none, '/') == seq![none]);
        reveal(Seq::filter);
        assert(seq![none].drop_last() =~= seq![]);
        assert(seq![none].filter(named) =~= seq![].filter(named));
        assert(names(none) =~= parts);
    } else {
        joined_splits_back(parts, '/');
        lemma_filter_all(parts, named);
        lemma_joined_first(parts);
        if climbs(slashed(parts)) {
            let i = parts.index_of(".."@);
            assert(is_name(parts[i]));
        }
    }
}

/// Names in a row begin and end with no slash.
pub proof fn lemma_joined_ends(parts: Seq<Seq<char>>)
    requires
        parts.len() > 0,
        forall|i: int|
            0 <= i < parts.len() ==> is_name(#[trigger] parts[i]) && !parts[i].contains('/'),
    ensures
        slashed(parts).len() > 0,
        slashed(parts)[0] != '/',
        slashed(parts).last() != '/',
{
    lemma_joined_first(parts);
    let last = parts.last();
    assert(is_name(parts[parts.len() - 1]));
    assert(last.contains(last[last.len() - 1]));
    assert(!parts[0].contains('/'));
    if parts.len() > 1 {
        assert(slashed(parts).last() == last.last());
    }
}

/// What names in a row start with is what the first of them starts with.
proof fn lemma_joined_first(parts: Seq<Seq<char>>)
    requires
        parts.len() > 0,
        parts[0].len() > 0,
    ensures
        slashed(parts).len() > 0,
        slashed(parts)[0] == parts[0][0],
        parts[0].contains(slashed(parts)[0]),
    decreases parts.len(),
{
    if parts.len() > 1 {
        lemma_joined_first(parts.drop_last());
    }
}

/// A normalised path has no component `..`, is not absolute, and normalising it
/// again changes nothing.
pub proof fn relative_path_is_inside(path: Seq<char>)
    ensures
        relative_path(path) matches Some(relative) ==> {
            &&& !absolute(relative)
            &&& !climbs(relative)
            &&& names(relative) == names(path)
            &&& relative_path(relative) == Some(relative)
        },
{
    names_are_names(path);
    slashed_names(names(path));
}

/// A cleaned path is absolute, has no component `..`, keeps the names, and cleaning
/// it again changes nothing.
pub proof fn clean_is_idempotent(path: Seq<char>)
    ensures
        absolute(clean(path)),
        !climbs(clean(path)),
        names(clean(path)) == names(path),
        clean(clean(path)) == clean(path),
{
    names_are_names(path);
    slashed_names(names(path));
    lemma_rooted(slashed(names(path)));
}

/// A slash in front of a path changes neither its names nor whether it climbs.
pub proof fn lemma_rooted(path: Seq<char>)
    ensures
        names("/"@ + path) == names(path),
        climbs("/"@ + path) == climbs(path),
        absolute("/"@ + path),
{
    reveal_strlit("/");
    reveal_strlit("..");
    let none: Seq<char> = seq![];
    let named = |piece: Seq<char>| is_name(piece);
    lemma_pieces_append(none, '/', path);
    lemma_pieces_of_free(none, '/');
    assert("/"@ + path =~= none + seq!['/'] + path);
    let all = pieces(path, '/');
    assert(pieces("/"@ + path, '/') == seq![none] + all);
    lemma_filter_first(none, all, named);
    if climbs(path) {
        let i = all.index_of(".."@);
        assert((seq![none] + all)[i + 1] == ".."@);
    }
    if climbs("/"@ + path) {
        let i = (seq![none] + all).index_of(".."@);
        assert(i > 0);
        assert(all[i - 1] == ".."@);
    }
}

/// A first element that does not pass a filter makes no difference to the result.
proof fn lemma_filter_first<A>(first: A, rest: Seq<A>, keep: spec_fn(A) -> bool)
    requires
        !keep(first),
    ensures
        (seq![first] + rest).filter(keep) == rest.filter(keep),
    decreases rest.len(),
{
    reveal(Seq::filter);
    let all = seq![first] + rest;
    if rest.len() == 0 {
        assert(all.drop_last() =~= rest);
    } else {
        assert(all.drop_last() =~= seq![first] + rest.drop_last());
        lemma_filter_first(first, rest.drop_last(), keep);
    }
}

/// Every destination inside a container has a place under the root directory, and
/// that place is the root directory with the destination's names below it.
pub proof fn destination_stays_inside(
    rootfs: Seq<char>,
    workdir: Seq<char>,
    destination: Seq<char>,
)
    ensures
        !climbs(destination_in(workdir, destination)),
        host_path(rootfs, destination_in(workdir, destination)) == Some(
            path_joined(rootfs, slashed(names(destination_in(workdir, destination)))),
        ),
{
    let whole = if absolute(destination) {
        destination
    } else {
        without_trailing(workdir, '/') + "/"@ + destination
    };
    names_are_names(whole);
    slashed_names(names(whole));
    clean_is_idempotent(whole);
    reveal_strlit("/");
    let relative = slashed(names(whole));
    assert(clean(whole).skip(1) =~= relative);
    assert(without_leading(clean(whole), '/') == without_leading(relative, '/'));
    assert(without_leading(relative, '/') == relative);
}

/// A path of the container that has a place lies below the root directory: that
/// place is the root directory with a relative path of names below it.
pub proof fn host_path_stays_inside(rootfs: Seq<char>, container_path: Seq<char>)
    ensures
        host_path(rootfs, container_path) matches Some(path) ==> exists|relative: Seq<char>|
            !absolute(relative) && !climbs(relative) && path == #[trigger] path_joined(
                rootfs,
                relative,
            ),
{
    let stripped = without_leading(container_path, '/');
    relative_path_is_inside(stripped);
}

/// An empty path has no names.
proof fn lemma_empty_path()
    ensures
        names(Seq::<char>::empty()) == Seq::<Seq<char>>::empty(),
{
    let none: Seq<char> = seq![];
    let named = |piece: Seq<char>| is_name(piece);
    lemma_pieces_of_free(none, '/');
    lemma_filter_first(none, Seq::<Seq<char>>::empty(), named);
    assert(seq![none] + Seq::<Seq<char>>::empty() =~= seq![none]);
    assert(Seq::<Seq<char>>::empty().filter(named) =~= Seq::<Seq<char>>::empty()) by {
        reveal(Seq::filter);
    }
}

/// A slash at the end of a path changes nothing of its names.
proof fn lemma_trailing_slashes(path: Seq<char>)
    ensures
        names(without_trailing(path, '/')) == names(path),
    decreases path.len(),
{
    if path.len() > 0 && path.last() == '/' {
        let shorter = path.drop_last();
        lemma_trailing_slashes(shorter);
        let none: Seq<char> = seq![];
        assert(path =~= shorter + seq!['/'] + none);
        lemma_names_append(shorter, none);
        lemma_empty_path();
        assert(names(shorter) + names(none) =~= names(shorter));
    }
}

/// The names of two paths with a slash between them are those of the one and then those of
/// the other.
proof fn lemma_names_append(front: Seq<char>, back: Seq<char>)
    ensures
        names(front + seq!['/'] + back) == names(front) + names(back),
{
    let named = |piece: Seq<char>| is_name(piece);
    lemma_pieces_append(front, '/', back);
    Seq::filter_distributes_over_add(pieces(front, '/'), pieces(back, '/'), named);
}

/// A destination is an absolute path: one that is written from the root has its own names,
/// and any other those of the working directory and then its own.
pub proof fn destinations_go_below_the_workdir(workdir: Seq<char>, destination: Seq<char>)
    ensures
        absolute(destination_in(workdir, destination)),
        destination.len() > 0 && destination[0] == '/' ==> names(
            destination_in(workdir, destination),
        ) == names(destination),
        !(destination.len() > 0 && destination[0] == '/') ==> names(
            destination_in(workdir, destination),
        ) == names(workdir) + names(destination),
{
    reveal_strlit("/");
    if absolute(destination) {
        clean_is_idempotent(destination);
    } else {
        let front = without_trailing(workdir, '/');
        let whole = front + "/"@ + destination;
        assert("/"@ =~= seq!['/']);
        clean_is_idempotent(whole);
        lemma_names_append(front, destination);
        lemma_trailing_slashes(workdir);
    }
}

/// A child of a directory has the names of the directory and then its own; an absolute one
/// stands for itself.
pub proof fn children_have_the_names_above(base: Seq<char>, child: Seq<char>)
    ensures
        child.len() > 0 && child[0] == '/' ==> path_joined(base, child) == child,
        !(child.len() > 0 && child[0] == '/') ==> names(path_joined(base, child)) == names(base)
            + names(child),
{
    reveal_strlit("/");
    assert("/"@ =~= seq!['/']);
    if !absolute(child) {
        if base.len() == 0 {
            assert(base + child =~= child);
            let none: Seq<char> = seq![];
            assert(base =~= none);
            lemma_empty_path();
            assert(names(base) + names(child) =~= names(child));
        } else if base.last() == '/' {
            let front = base.drop_last();
            assert(base + child =~= front + seq!['/'] + child);
            lemma_names_append(front, child);
            let none: Seq<char> = seq![];
            assert(base =~= front + seq!['/'] + none);
            lemma_names_append(front, none);
            lemma_empty_path();
            assert(names(front) + names(none) =~= names(front));
        } else {
            lemma_names_append(base, child);
        }
    }
}

/// Slashes in front of a path change neither its names nor whether it climbs.
pub proof fn lemma_leading_slashes(path: Seq<char>)
    ensures
        names(without_leading(path, '/')) == names(path),
        climbs(without_leading(path, '/')) == climbs(path),
        !absolute(without_leading(path, '/')),
    decreases path.len(),
{
    if path.len() > 0 && path[0] == '/' {
        reveal_strlit("/");
        lemma_leading_slashes(path.skip(1));
        assert(path =~= "/"@ + path.skip(1));
        lemma_rooted(path.skip(1));
    }
}

/// A path of the container has a place exactly where it does not climb, and that place has
/// the names of the root directory and then those of the path.
pub proof fn places_have_the_names_of_their_paths(rootfs: Seq<char>, path: Seq<char>)
    ensures
        host_path(rootfs, path) is Some <==> !climbs(path),
        host_path(rootfs, path) matches Some(place) ==> names(place) == names(rootfs) + names(path),
{
    let relative = without_leading(path, '/');
    lemma_leading_slashes(path);
    if !climbs(path) {
        names_are_names(relative);
        slashed_names(names(relative));
        children_have_the_names_above(rootfs, slashed(names(relative)));
    }
}

/// A path climbs exactly where one of its parts is two dots, and a part is a name where it is
/// neither empty nor one dot nor two.
pub proof fn two_dots_climb(front: Seq<char>, back: Seq<char>, part: Seq<char>)
    ensures
        climbs(front + seq!['/'] + ".."@ + seq!['/'] + back),
        climbs(".."@ + seq!['/'] + back),
        climbs(front + seq!['/'] + ".."@),
        climbs(front + seq!['/'] + back) <==> climbs(front) || climbs(back),
        is_name(part) <==> part.len() > 0 && part != "."@ && part != ".."@,
{
    reveal_strlit("..");
    let dots = ".."@;
    assert(!dots.contains('/')) by {
        if dots.contains('/') {
            let i = dots.index_of('/');
            assert(dots[i] == '/');
        }
    }
    lemma_pieces_of_free(dots, '/');
    assert(pieces(dots, '/')[0] == dots);
    assert(climbs(dots));
    lemma_climbs_append(front, dots);
    lemma_climbs_append(front + seq!['/'] + dots, back);
    lemma_climbs_append(dots, back);
    lemma_climbs_append(front, back);
}

proof fn lemma_climbs_append(front: Seq<char>, back: Seq<char>)
    ensures
        climbs(front + seq!['/'] + back) <==> climbs(front) || climbs(back),
{
    lemma_pieces_append(front, '/', back);
    let one = pieces(front, '/');
    let other = pieces(back, '/');
    let all = one + other;
    if climbs(front) {
        let i = one.index_of(".."@);
        assert(all[i] == ".."@);
    }
    if climbs(back) {
        let i = other.index_of(".."@);
        assert(all[one.len() + i] == ".."@);
    }
    if climbs(front + seq!['/'] + back) {
        let i = all.index_of(".."@);
        if i < one.len() {
            assert(one[i] == ".."@);
        } else {
            assert(other[i - one.len()] == ".."@);
        }
    }
}

/// A file without a dot in its name gets the extension after a dot, and stays where it is.
pub proof fn extensions_are_added(directory: Seq<char>, name: Seq<char>, suffix: Seq<char>)
    requires
        is_prefix(directory),
        is_name(name),
        !name.contains('/'),
        !name.contains('.'),
    ensures
        extension_replaced(path_joined(directory, name), suffix) == path_joined(directory, name)
            + seq!['.'] + suffix,
        extension_of(path_joined(directory, name)) is None,
{
    reveal_strlit(".");
    let path = path_joined(directory, name);
    joined_paths_come_apart(directory, name);
    lemma_no_dot(name, name.len() as int);
    assert("."@ =~= seq!['.']);
    assert(without_tail(path) == path) by {
        assert(path.last() == name.last());
        assert(name.contains(name.last()));
    }
    assert(path.take(path.len() as int) =~= path);
}

proof fn lemma_no_dot(name: Seq<char>, end: int)
    requires
        !name.contains('.'),
        0 <= end <= name.len(),
    ensures
        last_dot(name, end) <= 0,
    decreases end,
{
    if end > 0 {
        assert(name.contains(name[end - 1]));
        lemma_no_dot(name, end - 1);
    }
}

} // verus!
