//! What a build step changed: an index of a file tree before and after it.
use crate::order::{path_le, sort_paths, text_orders_are_total};
use crate::path::{file_name, file_name_of, is_name, is_prefix, join_path, joined_paths_come_apart};
use crate::path::{parent, parent_of, path_joined};
use crate::sequence::lemma_sorted_enumeration;
use crate::text::{begins, glue, glue3, outcome, same_text, strip_prefix};
use crate::text_map::TextMap;
use vstd::prelude::*;

verus! {

// ---------------------------------------------------------------------------
// Entries
// ---------------------------------------------------------------------------
/// What a path of a tree is.
#[derive(Debug, Clone, Copy, PartialEq, Eq, Structural)]
pub enum FileKind {
    Directory,
    Symlink,
    File,
    /// A device, a socket or a pipe.
    Other,
}

/// What is remembered of a path of a tree.
pub struct FsEntryMeta {
    pub kind: FileKind,
    pub mode: u32,
    pub size: u64,
    pub digest: Option<String>,
    pub symlink_target: Option<String>,
}

/// An [`FsEntryMeta`] as a mathematical value.
#[verifier::ext_equal]
pub struct FsEntryModel {
    pub kind: FileKind,
    pub mode: u32,
    pub size: u64,
    pub digest: Option<Seq<char>>,
    pub symlink_target: Option<Seq<char>>,
}

impl DeepView for FsEntryMeta {
    type V = FsEntryModel;

    open spec fn deep_view(&self) -> FsEntryModel {
        FsEntryModel {
            kind: self.kind,
            mode: self.mode,
            size: self.size,
            digest: self.digest.deep_view(),
            symlink_target: self.symlink_target.deep_view(),
        }
    }
}

/// Whether two optional texts are the same.
fn same_option(left: &Option<String>, right: &Option<String>) -> (same: bool)
    ensures
        same == (left.deep_view() == right.deep_view()),
{
    match (left, right) {
        (Some(a), Some(b)) => same_text(a, b),
        (None, None) => true,
        _ => false,
    }
}

impl FsEntryMeta {
    /// Whether two entries are the same.
    pub fn same(&self, other: &FsEntryMeta) -> (same: bool)
        ensures
            same == (self.deep_view() == other.deep_view()),
    {
        self.kind == other.kind && self.mode == other.mode && self.size == other.size
            && same_option(&self.digest, &other.digest) && same_option(
            &self.symlink_target,
            &other.symlink_target,
        )
    }
}

/// The path belongs to what a RUN needs around it and is no part of the image.
pub open spec fn is_support(relative: Seq<char>) -> bool {
    ||| relative == "proc"@
    ||| relative == "dev/null"@
    ||| relative == "dev/zero"@
    ||| relative == "dev/random"@
    ||| relative == "dev/urandom"@
    ||| relative == "dev/tty"@
    ||| relative == "dev/fd"@
    ||| relative == "dev/stdin"@
    ||| relative == "dev/stdout"@
    ||| relative == "dev/stderr"@
}

/// Whether the path belongs to what a RUN needs around it and is no part of the
/// image.
pub fn is_ephemeral_build_support_path(relative: &str) -> (found: bool)
    ensures
        found == is_support(relative@),
{
    same_text(relative, "proc") || same_text(relative, "dev/null") || same_text(
        relative,
        "dev/zero",
    ) || same_text(relative, "dev/random") || same_text(relative, "dev/urandom") || same_text(
        relative,
        "dev/tty",
    ) || same_text(relative, "dev/fd") || same_text(relative, "dev/stdin") || same_text(
        relative,
        "dev/stdout",
    ) || same_text(relative, "dev/stderr")
}

// ---------------------------------------------------------------------------
// Copying a tree
// ---------------------------------------------------------------------------
/// How a path of a tree is copied.
#[derive(Debug, Clone, Copy, PartialEq, Eq, Structural)]
pub enum CopyStep {
    /// Not at all.
    Skip,
    /// A directory with the same permissions.
    Directory,
    /// A link to the same target.
    Link,
    /// A file with the same content and permissions.
    File,
}

/// How a path of a tree is copied.
pub open spec fn step_for(relative: Seq<char>, kind: FileKind) -> CopyStep {
    if is_support(relative) {
        CopyStep::Skip
    } else {
        match kind {
            FileKind::Directory => CopyStep::Directory,
            FileKind::Symlink => CopyStep::Link,
            _ => CopyStep::File,
        }
    }
}

/// How a path of a tree is copied.
pub fn copy_step(relative: &str, kind: FileKind) -> (step: CopyStep)
    ensures
        step == step_for(relative@, kind),
{
    if is_ephemeral_build_support_path(relative) {
        return CopyStep::Skip;
    }
    match kind {
        FileKind::Directory => CopyStep::Directory,
        FileKind::Symlink => CopyStep::Link,
        _ => CopyStep::File,
    }
}

// ---------------------------------------------------------------------------
// Indexing a tree
// ---------------------------------------------------------------------------
/// A path of a tree as it was found.
pub struct TreeItem {
    /// The path below the tree's root.
    pub relative: String,
    pub kind: FileKind,
    pub mode: u32,
    pub size: u64,
    /// The hash of a file's content.
    pub digest: Option<String>,
    /// What a link points to.
    pub symlink_target: Option<String>,
}

/// A path that the index has an entry for.
pub open spec fn counts(relative: Seq<char>, kind: FileKind) -> bool {
    !is_support(relative) && !(kind is Other)
}

/// Whether the index has an entry for the path.
pub fn is_indexed(relative: &str, kind: FileKind) -> (indexed: bool)
    ensures
        indexed == counts(relative@, kind),
{
    !is_ephemeral_build_support_path(relative) && match kind {
        FileKind::Other => false,
        _ => true,
    }
}

/// What is remembered of a path: the size and hash of a file, the target of a link,
/// and the mode of each.
pub open spec fn entry_of(item: TreeItem) -> FsEntryModel {
    FsEntryModel {
        kind: item.kind,
        mode: item.mode,
        size: if item.kind is File {
            item.size
        } else {
            0
        },
        digest: if item.kind is File {
            item.digest.deep_view()
        } else {
            None
        },
        symlink_target: if item.kind is Symlink {
            item.symlink_target.deep_view()
        } else {
            None
        },
    }
}

/// The index of the paths of a tree.
pub open spec fn indexed(items: Seq<TreeItem>) -> Map<Seq<char>, FsEntryModel>
    decreases items.len(),
{
    if items.len() == 0 {
        Map::empty()
    } else {
        let before = indexed(items.drop_last());
        let item = items.last();
        if counts(item.relative@, item.kind) {
            before.insert(item.relative@, entry_of(item))
        } else {
            before
        }
    }
}

/// The index of the paths of a tree.
pub fn index_tree(items: &Vec<TreeItem>) -> (index: TextMap<FsEntryMeta>)
    ensures
        index.deep_view() == indexed(items@),
{
    let mut index: TextMap<FsEntryMeta> = TextMap::new();
    let mut at: usize = 0;
    assert(index.deep_view() =~= indexed(items@.take(0)));
    while at < items.len()
        invariant
            at <= items@.len(),
            index.deep_view() == indexed(items@.take(at as int)),
        decreases items@.len() - at,
    {
        let ghost before = index.deep_view();
        assert(items@.take(at + 1).drop_last() =~= items@.take(at as int));
        let item = &items[at];
        if is_indexed(&item.relative, item.kind) {
            let meta = FsEntryMeta {
                kind: item.kind,
                mode: item.mode,
                size: match item.kind {
                    FileKind::File => item.size,
                    _ => 0,
                },
                digest: match item.kind {
                    FileKind::File => crate::text::copy_option(&item.digest),
                    _ => None,
                },
                symlink_target: match item.kind {
                    FileKind::Symlink => crate::text::copy_option(&item.symlink_target),
                    _ => None,
                },
            };
            index.insert(item.relative.clone(), meta);
            assert(index.deep_view() =~= before.insert(item.relative@, entry_of(*item)));
        }
        at = at + 1;
    }
    assert(items@.take(at as int) =~= items@);
    index
}

// ---------------------------------------------------------------------------
// Comparing two indexes
// ---------------------------------------------------------------------------
/// The paths that a step added or modified, and those that it removed, each in the
/// order of paths.
#[derive(Debug)]
pub struct DiffEntries {
    pub added_or_modified: Vec<String>,
    pub removed: Vec<String>,
}

/// The paths that are new or differ.
pub open spec fn changed_paths(
    before: Map<Seq<char>, FsEntryModel>,
    after: Map<Seq<char>, FsEntryModel>,
) -> Set<Seq<char>> {
    after.dom().filter(
        |path: Seq<char>| !(before.contains_key(path) && before[path] == after[path]),
    )
}

/// The paths that are gone.
pub open spec fn removed_paths(
    before: Map<Seq<char>, FsEntryModel>,
    after: Map<Seq<char>, FsEntryModel>,
) -> Set<Seq<char>> {
    before.dom().difference(after.dom())
}

/// The texts that a list of strings holds.
proof fn lemma_push_text(list: Vec<String>, next: Vec<String>, text: String)
    requires
        next@ == list@.push(text),
    ensures
        next.deep_view() == list.deep_view().push(text@),
{
    assert(next.deep_view() =~= list.deep_view().push(text@));
}

/// The paths among the first `count` entries that a set has, each once.
spec fn gathered_from<T>(
    entries: Seq<(String, T)>,
    wanted: Set<Seq<char>>,
    count: int,
    gathered: Seq<Seq<char>>,
) -> bool {
    &&& gathered.no_duplicates()
    &&& forall|path: Seq<char>| #[trigger]
        gathered.contains(path) <==> wanted.contains(path) && has_path(entries, count, path)
}

/// One of the first `count` entries has this path.
spec fn has_path<T>(entries: Seq<(String, T)>, count: int, path: Seq<char>) -> bool {
    exists|i: int| 0 <= i < count && #[trigger] entries[i].0@ == path
}

/// No path is that of two entries.
spec fn paths_differ<T>(entries: Seq<(String, T)>) -> bool {
    forall|i: int, j: int|
        0 <= i < j < entries.len() ==> #[trigger] entries[i].0@ != #[trigger] entries[j].0@
}

/// The paths with one more entry: its path is added where the set has it.
proof fn lemma_gathered_step<T>(
    entries: Seq<(String, T)>,
    wanted: Set<Seq<char>>,
    count: int,
    gathered: Seq<Seq<char>>,
)
    requires
        0 <= count < entries.len(),
        paths_differ(entries),
        gathered_from(entries, wanted, count, gathered),
    ensures
        gathered_from(
            entries,
            wanted,
            count + 1,
            if wanted.contains(entries[count].0@) {
                gathered.push(entries[count].0@)
            } else {
                gathered
            },
        ),
{
    let path = entries[count].0@;
    let next = if wanted.contains(path) {
        gathered.push(path)
    } else {
        gathered
    };
    if gathered.contains(path) {
        let i = choose|i: int| 0 <= i < count && #[trigger] entries[i].0@ == path;
        assert(entries[i].0@ != entries[count].0@);
    }
    assert forall|p: Seq<char>| #[trigger] next.contains(p) <==> wanted.contains(p) && has_path(
        entries,
        count + 1,
        p,
    ) by {
        assert(has_path(entries, count + 1, p) <==> has_path(entries, count, p) || p == path) by {
            if has_path(entries, count, p) {
                let i = choose|i: int| 0 <= i < count && #[trigger] entries[i].0@ == p;
                assert(entries[i].0@ == p);
            }
            assert(entries[count].0@ == path);
        }
        if next.len() > gathered.len() {
            assert(next[gathered.len() as int] == path);
            if gathered.contains(p) {
                assert(next[gathered.index_of(p)] == p);
            }
            if next.contains(p) && p != path {
                assert(gathered[next.index_of(p)] == p);
            }
        }
        assert(next.contains(p) <==> gathered.contains(p) || (wanted.contains(path) && p == path));
    }
}

/// All paths that a set has are gathered: they are the set.
proof fn lemma_gathered<T>(
    entries: Seq<(String, T)>,
    wanted: Set<Seq<char>>,
    gathered: Seq<Seq<char>>,
)
    requires
        gathered_from(entries, wanted, entries.len() as int, gathered),
        forall|path: Seq<char>| #[trigger]
            wanted.contains(path) ==> has_path(entries, entries.len() as int, path),
    ensures
        gathered.sort_by(path_le()) == wanted.to_sorted_seq(path_le()),
{
    assert forall|path: Seq<char>| #[trigger]
        gathered.to_set().contains(path) == wanted.contains(path) by {
        assert(gathered.to_set().contains(path) == gathered.contains(path));
    }
    assert(gathered.to_set() =~= wanted);
    vstd::seq_lib::seq_to_set_is_finite(gathered);
    text_orders_are_total();
    lemma_sorted_enumeration(wanted, gathered, path_le());
}

/// The paths that are new or differ, and those that are gone.
pub fn compute_diff_entries(before: &TextMap<FsEntryMeta>, after: &TextMap<FsEntryMeta>) -> (diff:
    DiffEntries)
    ensures
        diff.added_or_modified.deep_view() == changed_paths(
            before.deep_view(),
            after.deep_view(),
        ).to_sorted_seq(path_le()),
        diff.removed.deep_view() == removed_paths(
            before.deep_view(),
            after.deep_view(),
        ).to_sorted_seq(path_le()),
{
    let ghost changed_set = changed_paths(before.deep_view(), after.deep_view());
    let ghost removed_set = removed_paths(before.deep_view(), after.deep_view());
    let mut changed: Vec<String> = Vec::new();
    let entries = after.entries();
    let mut at: usize = 0;
    assert(gathered_from(entries@, changed_set, 0, changed.deep_view()));
    while at < entries.len()
        invariant
            at <= entries@.len(),
            changed_set == changed_paths(before.deep_view(), after.deep_view()),
            forall|i: int|
                0 <= i < entries@.len() ==> after@.contains_key(#[trigger] entries@[i].0@)
                    && after@[entries@[i].0@] == entries@[i].1,
            paths_differ(entries@),
            gathered_from(entries@, changed_set, at as int, changed.deep_view()),
        decreases entries@.len() - at,
    {
        let entry = &entries[at];
        let unchanged = match before.get(&entry.0) {
            Some(meta) => meta.same(&entry.1),
            None => false,
        };
        proof {
            assert(after.deep_view()[entry.0@] == entry.1.deep_view());
            assert(changed_set.contains(entry.0@) == !unchanged);
            lemma_gathered_step(entries@, changed_set, at as int, changed.deep_view());
        }
        if !unchanged {
            let ghost list = changed;
            changed.push(entry.0.clone());
            proof {
                lemma_push_text(list, changed, entry.0);
            }
        }
        at = at + 1;
    }
    let mut removed: Vec<String> = Vec::new();
    let old_entries = before.entries();
    let mut next: usize = 0;
    assert(gathered_from(old_entries@, removed_set, 0, removed.deep_view()));
    while next < old_entries.len()
        invariant
            next <= old_entries@.len(),
            removed_set == removed_paths(before.deep_view(), after.deep_view()),
            forall|i: int|
                0 <= i < old_entries@.len() ==> before@.contains_key(#[trigger] old_entries@[i].0@),
            paths_differ(old_entries@),
            gathered_from(old_entries@, removed_set, next as int, removed.deep_view()),
        decreases old_entries@.len() - next,
    {
        let entry = &old_entries[next];
        let gone = !after.contains_key(&entry.0);
        proof {
            assert(before.deep_view().contains_key(entry.0@));
            assert(removed_set.contains(entry.0@) == gone);
            lemma_gathered_step(old_entries@, removed_set, next as int, removed.deep_view());
        }
        if gone {
            let ghost list = removed;
            removed.push(entry.0.clone());
            proof {
                lemma_push_text(list, removed, entry.0);
            }
        }
        next = next + 1;
    }
    proof {
        assert forall|path: Seq<char>| #[trigger] changed_set.contains(path) implies has_path(
            entries@,
            entries@.len() as int,
            path,
        ) by {
            assert(after@.contains_key(path));
        }
        assert forall|path: Seq<char>| #[trigger] removed_set.contains(path) implies has_path(
            old_entries@,
            old_entries@.len() as int,
            path,
        ) by {
            assert(before@.contains_key(path));
        }
        lemma_gathered(entries@, changed_set, changed.deep_view());
        lemma_gathered(old_entries@, removed_set, removed.deep_view());
    }
    DiffEntries { added_or_modified: sort_paths(changed), removed: sort_paths(removed) }
}

/// What a step that copies changed, told from the paths it wrote alone: each of them
/// that counts, and nothing gone.
pub fn touched_entries(items: &Vec<TreeItem>) -> (diff: DiffEntries)
    ensures
        diff.added_or_modified.deep_view() == indexed(items@).dom().to_sorted_seq(path_le()),
        diff.removed.deep_view() == Seq::<Seq<char>>::empty(),
{
    let nothing: TextMap<FsEntryMeta> = TextMap::new();
    let written = index_tree(items);
    let diff = compute_diff_entries(&nothing, &written);
    proof {
        let before = nothing.deep_view();
        let after = indexed(items@);
        assert(changed_paths(before, after) =~= after.dom());
        assert(removed_paths(before, after) =~= Set::<Seq<char>>::empty());
        let none = Set::<Seq<char>>::empty().to_seq();
        text_orders_are_total();
        none.lemma_sort_by_ensures(path_le());
        none.to_multiset_ensures();
        none.sort_by(path_le()).to_multiset_ensures();
        assert(none.sort_by(path_le()).len() == 0);
    }
    diff
}

/// A tree with some paths taken away and others set as in another tree.
pub open spec fn patched(
    before: Map<Seq<char>, FsEntryModel>,
    after: Map<Seq<char>, FsEntryModel>,
    changed: Set<Seq<char>>,
    removed: Set<Seq<char>>,
) -> Map<Seq<char>, FsEntryModel> {
    before.remove_keys(removed).union_prefer_right(after.restrict(changed))
}

/// The changed and the removed paths tell the trees apart completely: taking away
/// the removed paths and setting the changed ones turns the tree before the step
/// into the one after it.
pub proof fn diff_turns_before_into_after(
    before: Map<Seq<char>, FsEntryModel>,
    after: Map<Seq<char>, FsEntryModel>,
)
    ensures
        patched(before, after, changed_paths(before, after), removed_paths(before, after)) == after,
{
    assert(patched(before, after, changed_paths(before, after), removed_paths(before, after))
        =~= after);
}

/// The written paths alone tell the trees apart where a step writes nothing else:
/// setting them turns the tree before the step into the one after it.
pub proof fn touched_paths_bring_the_tree(
    before: Map<Seq<char>, FsEntryModel>,
    after: Map<Seq<char>, FsEntryModel>,
    touched: Set<Seq<char>>,
)
    requires
        touched.subset_of(after.dom()),
        forall|path: Seq<char>|
            !touched.contains(path) ==> #[trigger] before.contains_key(path) == after.contains_key(
                path,
            ) && (before.contains_key(path) ==> before[path] == after[path]),
    ensures
        patched(before, after, touched, Set::empty()) == after,
        changed_paths(before, after).subset_of(touched),
        removed_paths(before, after) == Set::<Seq<char>>::empty(),
{
    assert(patched(before, after, touched, Set::empty()) =~= after);
    assert(removed_paths(before, after) =~= Set::<Seq<char>>::empty());
}

/// A step that changes nothing has an empty difference, and no path is both changed
/// and removed.
pub proof fn no_change_no_diff(
    before: Map<Seq<char>, FsEntryModel>,
    after: Map<Seq<char>, FsEntryModel>,
)
    ensures
        changed_paths(before, before) == Set::<Seq<char>>::empty(),
        removed_paths(before, before) == Set::<Seq<char>>::empty(),
        changed_paths(before, after).disjoint(removed_paths(before, after)),
{
    assert(changed_paths(before, before) =~= Set::empty());
    assert(removed_paths(before, before) =~= Set::empty());
}

// ---------------------------------------------------------------------------
// Whiteouts
// ---------------------------------------------------------------------------
/// The path of the marker by which a layer removes a path of the layers below it.
pub open spec fn whiteout_of(relative: Seq<char>) -> Result<Seq<char>, Seq<char>> {
    match file_name_of(relative) {
        None => Err("Failed to create whiteout for '"@ + relative + "'"@),
        Some(name) => Ok(
            path_joined(
                match parent_of(relative) {
                    Some(directory) => directory,
                    None => seq![],
                },
                ".wh."@ + name,
            ),
        ),
    }
}

/// The path of the marker by which a layer removes a path of the layers below it.
pub fn whiteout_path(relative: &str) -> (result: Result<String, String>)
    ensures
        outcome(result) == whiteout_of(relative@),
{
    let name = match file_name(relative) {
        Some(name) => name,
        None => {
            return Err(glue3("Failed to create whiteout for '", relative, "'"));
        },
    };
    let directory = match parent(relative) {
        Some(directory) => directory,
        None => {
            let empty = String::new();
            assert(empty@ =~= seq![]);
            empty
        },
    };
    Ok(join_path(&directory, &glue(".wh.", &name)))
}

/// The path that a marker removes, where the path of an entry is one.
pub open spec fn removed_by(entry: Seq<char>) -> Option<Seq<char>> {
    match file_name_of(entry) {
        Some(name) => if begins(name, ".wh."@) {
            Some(
                path_joined(
                    match parent_of(entry) {
                        Some(directory) => directory,
                        None => seq![],
                    },
                    name.skip(".wh."@.len() as int),
                ),
            )
        } else {
            None
        },
        None => None,
    }
}

/// The path that a marker removes, where the path of an entry is one.
pub fn removed_path(entry: &str) -> (removed: Option<String>)
    ensures
        removed.deep_view() == removed_by(entry@),
{
    let name = match file_name(entry) {
        Some(name) => name,
        None => {
            return None;
        },
    };
    let rest = match strip_prefix(&name, ".wh.") {
        Some(rest) => rest,
        None => {
            return None;
        },
    };
    let directory = match parent(entry) {
        Some(directory) => directory,
        None => {
            let empty = String::new();
            assert(empty@ =~= seq![]);
            empty
        },
    };
    Some(join_path(&directory, &rest))
}

/// A layer removes what it marks: the marker of a path stands beside it, under its name
/// after `.wh.`, and stands for that path.
pub proof fn markers_stand_for_their_paths(directory: Seq<char>, name: Seq<char>)
    requires
        is_prefix(directory),
        is_name(name),
        !name.contains('/'),
    ensures
        whiteout_of(path_joined(directory, name)) matches Ok(marker) && removed_by(marker) == Some(
            path_joined(directory, name),
        ),
        whiteout_of(path_joined(directory, name)) == Ok::<Seq<char>, Seq<char>>(
            path_joined(directory, ".wh."@ + name),
        ),
{
    reveal_strlit(".wh.");
    reveal_strlit(".");
    reveal_strlit("..");
    joined_paths_come_apart(directory, name);
    let marked = ".wh."@ + name;
    assert(marked != "."@ && marked != ".."@);
    assert(!marked.contains('/')) by {
        if marked.contains('/') {
            let at = marked.index_of('/');
            assert(marked[at] == '/');
            assert(at >= 4);
            assert(name[at - 4] == '/');
        }
    }
    joined_paths_come_apart(directory, marked);
    assert(marked.take(4) =~= ".wh."@);
    assert(marked.skip(4) =~= name);
}

// ---------------------------------------------------------------------------
// Laws of indexes
// ---------------------------------------------------------------------------
/// The path of an item is part of the image: it is neither a device, a socket or a pipe
/// nor one of the paths around a RUN.
pub open spec fn kept_item(item: TreeItem) -> bool {
    &&& item.kind is Directory || item.kind is Symlink || item.kind is File
    &&& !is_support(item.relative@)
}

/// Two items tell of different things: of another kind or other permissions, of files of
/// another size or content, or of links to other targets.
pub open spec fn tells_apart(one: TreeItem, other: TreeItem) -> bool {
    ||| one.kind != other.kind
    ||| one.mode != other.mode
    ||| one.kind is File && (one.size != other.size || one.digest.deep_view()
        != other.digest.deep_view())
    ||| one.kind is Symlink && one.symlink_target.deep_view() != other.symlink_target.deep_view()
}

/// What is remembered of a path is what was found there last: the kind and the
/// permissions of the item itself, the size and the digest of a file, the target of a
/// link.
pub proof fn entries_are_what_was_found(items: Seq<TreeItem>, at: int)
    requires
        0 <= at < items.len(),
        kept_item(items[at]),
        forall|later: int|
            at < later < items.len() ==> #[trigger] items[later].relative@ != items[at].relative@,
    ensures
        indexed(items).contains_key(items[at].relative@),
        indexed(items)[items[at].relative@].kind == items[at].kind,
        indexed(items)[items[at].relative@].mode == items[at].mode,
        items[at].kind is File ==> indexed(items)[items[at].relative@].size == items[at].size
            && indexed(items)[items[at].relative@].digest == items[at].digest.deep_view(),
        items[at].kind is Symlink ==> indexed(items)[items[at].relative@].symlink_target
            == items[at].symlink_target.deep_view(),
    decreases items.len(),
{
    if at < items.len() - 1 {
        let fewer = items.drop_last();
        assert(items[items.len() - 1].relative@ != items[at].relative@);
        assert forall|later: int| at < later < fewer.len() implies #[trigger] fewer[later].relative@
            != fewer[at].relative@ by {
            assert(items[later].relative@ != items[at].relative@);
        }
        entries_are_what_was_found(fewer, at);
    }
}

/// The index has the paths of the items that are part of the image, and no others.
pub proof fn indexes_have_the_kept_paths(items: Seq<TreeItem>, path: Seq<char>)
    ensures
        indexed(items).contains_key(path) <==> exists|at: int|
            0 <= at < items.len() && #[trigger] items[at].relative@ == path && kept_item(items[at]),
    decreases items.len(),
{
    if items.len() > 0 {
        let fewer = items.drop_last();
        let end = items.len() - 1;
        indexes_have_the_kept_paths(fewer, path);
        if indexed(fewer).contains_key(path) {
            let at = choose|at: int|
                0 <= at < fewer.len() && #[trigger] fewer[at].relative@ == path && kept_item(
                    fewer[at],
                );
            assert(items[at].relative@ == path && kept_item(items[at]));
        }
        if items[end].relative@ == path && kept_item(items[end]) {
            assert(indexed(items).contains_key(path));
        }
        if exists|at: int|
            0 <= at < items.len() && #[trigger] items[at].relative@ == path && kept_item(
                items[at],
            ) {
            let at = choose|at: int|
                0 <= at < items.len() && #[trigger] items[at].relative@ == path && kept_item(
                    items[at],
                );
            if at < end {
                assert(fewer[at].relative@ == path && kept_item(fewer[at]));
            }
        }
    }
}

/// Items of one path alone make a difference at that path alone.
proof fn lemma_elsewhere_the_same(
    items: Seq<TreeItem>,
    others: Seq<TreeItem>,
    path: Seq<char>,
    elsewhere: Seq<char>,
)
    requires
        items.len() == others.len(),
        elsewhere != path,
        forall|i: int|
            0 <= i < items.len() ==> #[trigger] items[i] == others[i] || (items[i].relative@ == path
                && others[i].relative@ == path),
    ensures
        indexed(items).contains_key(elsewhere) == indexed(others).contains_key(elsewhere),
        indexed(items).contains_key(elsewhere) ==> indexed(items)[elsewhere] == indexed(
            others,
        )[elsewhere],
    decreases items.len(),
{
    if items.len() > 0 {
        let fewer = items.drop_last();
        let rest = others.drop_last();
        assert forall|i: int| 0 <= i < fewer.len() implies #[trigger] fewer[i] == rest[i] || (
        fewer[i].relative@ == path && rest[i].relative@ == path) by {
            assert(items[i] == others[i] || (items[i].relative@ == path && others[i].relative@
                == path));
        }
        lemma_elsewhere_the_same(fewer, rest, path, elsewhere);
        let end = items.len() - 1;
        assert(items[end] == others[end] || (items[end].relative@ == path && others[end].relative@
            == path));
    }
}

/// Two trees that differ at one path have exactly that path as their difference: other
/// permissions alone, another size or digest of a file, another target of a link or
/// another kind are enough, and where none of these differs there is no difference.
pub proof fn one_difference_is_one_change(items: Seq<TreeItem>, at: int, other: TreeItem)
    requires
        0 <= at < items.len(),
        kept_item(items[at]),
        kept_item(other),
        other.relative@ == items[at].relative@,
        forall|i: int|
            0 <= i < items.len() && i != at ==> #[trigger] items[i].relative@
                != items[at].relative@,
    ensures
        removed_paths(indexed(items), indexed(items.update(at, other))) == Set::<Seq<char>>::empty(),
        tells_apart(items[at], other) ==> changed_paths(
            indexed(items),
            indexed(items.update(at, other)),
        ) == set![items[at].relative@],
        !tells_apart(items[at], other) ==> changed_paths(
            indexed(items),
            indexed(items.update(at, other)),
        ) == Set::<Seq<char>>::empty(),
{
    let others = items.update(at, other);
    let path = items[at].relative@;
    let before = indexed(items);
    let after = indexed(others);
    entries_are_what_was_found(items, at);
    assert forall|later: int| at < later < others.len() implies #[trigger] others[later].relative@
        != others[at].relative@ by {
        assert(others[later] == items[later]);
    }
    entries_are_what_was_found(others, at);
    assert forall|elsewhere: Seq<char>| elsewhere != path implies #[trigger] before.contains_key(
        elsewhere,
    ) == after.contains_key(elsewhere) && (before.contains_key(elsewhere) ==> before[elsewhere]
        == after[elsewhere]) by {
        lemma_elsewhere_the_same(items, others, path, elsewhere);
    }
    lemma_unsaid_is_empty(items, at);
    lemma_unsaid_is_empty(others, at);
    assert(removed_paths(before, after) =~= Set::<Seq<char>>::empty());
    if tells_apart(items[at], other) {
        assert(before[path] != after[path]);
        assert(changed_paths(before, after) =~= set![path]);
    } else {
        assert(before[path] == after[path]);
        assert forall|any: Seq<char>| #[trigger]
            changed_paths(before, after).contains(any) implies false by {
            assert(before.contains_key(any) == after.contains_key(any));
        }
        assert(changed_paths(before, after) =~= Set::<Seq<char>>::empty());
    }
}

/// What an item does not tell of is remembered as nothing.
proof fn lemma_unsaid_is_empty(items: Seq<TreeItem>, at: int)
    requires
        0 <= at < items.len(),
        kept_item(items[at]),
        forall|later: int|
            at < later < items.len() ==> #[trigger] items[later].relative@ != items[at].relative@,
    ensures
        !(items[at].kind is File) ==> indexed(items)[items[at].relative@].size == 0 && indexed(
            items,
        )[items[at].relative@].digest is None,
        !(items[at].kind is Symlink) ==> indexed(
            items,
        )[items[at].relative@].symlink_target is None,
    decreases items.len(),
{
    if at < items.len() - 1 {
        let fewer = items.drop_last();
        assert(items[items.len() - 1].relative@ != items[at].relative@);
        assert forall|later: int| at < later < fewer.len() implies #[trigger] fewer[later].relative@
            != fewer[at].relative@ by {
            assert(items[later].relative@ != items[at].relative@);
        }
        lemma_unsaid_is_empty(fewer, at);
    }
}

/// A path that a step adds is its only change; a path that a step takes away is the only
/// one that it removed.
pub proof fn added_and_removed_paths_are_told(items: Seq<TreeItem>, item: TreeItem)
    requires
        kept_item(item),
        forall|i: int| 0 <= i < items.len() ==> #[trigger] items[i].relative@ != item.relative@,
    ensures
        changed_paths(indexed(items), indexed(items.push(item))) == set![item.relative@],
        removed_paths(indexed(items), indexed(items.push(item))) == Set::<Seq<char>>::empty(),
        changed_paths(indexed(items.push(item)), indexed(items)) == Set::<Seq<char>>::empty(),
        removed_paths(indexed(items.push(item)), indexed(items)) == set![item.relative@],
{
    let before = indexed(items);
    let after = indexed(items.push(item));
    assert(items.push(item).drop_last() =~= items);
    indexes_have_the_kept_paths(items, item.relative@);
    assert(!before.contains_key(item.relative@));
    assert(changed_paths(before, after) =~= set![item.relative@]);
    assert(removed_paths(before, after) =~= Set::<Seq<char>>::empty());
    assert(changed_paths(after, before) =~= Set::<Seq<char>>::empty());
    assert(removed_paths(after, before) =~= set![item.relative@]);
}

/// A tree is copied as it is: a directory as a directory, a link as a link and anything
/// else as a file, and only the paths around a RUN are left out.
pub proof fn trees_are_copied_as_they_are(item: TreeItem)
    ensures
        step_for(item.relative@, item.kind) is Skip <==> is_support(item.relative@),
        kept_item(item) && item.kind is Directory ==> step_for(
            item.relative@,
            item.kind,
        ) is Directory,
        kept_item(item) && item.kind is Symlink ==> step_for(item.relative@, item.kind) is Link,
        kept_item(item) && item.kind is File ==> step_for(item.relative@, item.kind) is File,
{
}

} // verus!
