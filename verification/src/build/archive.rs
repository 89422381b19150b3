//! The archive of a layer: one part for each entry, put together in order.
use crate::build::diff::{markers_stand_for_their_paths, whiteout_of, whiteout_path};
use crate::build::diff::{DiffEntries, FileKind};
use crate::path::{is_name, is_prefix, path_joined};
use crate::text::{glue5, outcome};
use std::io::Cursor;
use tar::{Builder, EntryType, Header};
use vstd::prelude::*;

verus! {

/// How many zero bytes end an archive.
pub const TRAILER: usize = 1024;

/// The bytes end as an archive does.
pub open spec fn ends_archive(bytes: Seq<u8>) -> bool {
    &&& bytes.len() >= TRAILER
    &&& forall|i: int| bytes.len() - TRAILER <= i < bytes.len() ==> #[trigger] bytes[i] == 0
}

/// What `Builder::append_link` writes for a symbolic link, as an archive of its own,
/// or the message of its error.
pub uninterp spec fn link_archive(path: Seq<char>, target: Seq<char>, mode: u32) -> Result<
    Seq<u8>,
    Seq<char>,
>;

/// What `Builder::append_data` writes for an empty file, as an archive of its own, or
/// the message of its error.
pub uninterp spec fn empty_file_archive(path: Seq<char>, mode: u32) -> Result<Seq<u8>, Seq<char>>;

/// `Builder::append_link` on a buffer in memory, with a GNU header of the given mode:
/// the archive, or the message of the error, is a function of the two paths and the
/// mode. `Builder::into_inner` ends the archive with two zero blocks.
#[verifier::external_body]
fn write_link(path: &str, target: &str, mode: u32) -> (result: Result<Vec<u8>, String>)
    ensures
        outcome(result) == link_archive(path@, target@, mode),
        result matches Ok(bytes) ==> ends_archive(bytes@),
{
    let mut header = Header::new_gnu();
    header.set_entry_type(EntryType::Symlink);
    header.set_mode(mode);
    header.set_size(0);
    header.set_cksum();
    let mut builder = Builder::new(Vec::new());
    match builder.append_link(&mut header, path, target) {
        Ok(()) => match builder.into_inner() {
            Ok(bytes) => Ok(bytes),
            Err(problem) => Err(problem.to_string()),
        },
        Err(problem) => Err(problem.to_string()),
    }
}

/// `Builder::append_data` on a buffer in memory, with no data and a GNU header of the
/// given mode: the archive, or the message of the error, is a function of the path
/// and the mode. `Builder::into_inner` ends the archive with two zero blocks.
#[verifier::external_body]
fn write_empty_file(path: &str, mode: u32) -> (result: Result<Vec<u8>, String>)
    ensures
        outcome(result) == empty_file_archive(path@, mode),
        result matches Ok(bytes) ==> ends_archive(bytes@),
{
    let mut header = Header::new_gnu();
    header.set_entry_type(EntryType::Regular);
    header.set_mode(mode);
    header.set_size(0);
    header.set_cksum();
    let mut builder = Builder::new(Vec::new());
    match builder.append_data(&mut header, path, Cursor::new(Vec::<u8>::new())) {
        Ok(()) => match builder.into_inner() {
            Ok(bytes) => Ok(bytes),
            Err(problem) => Err(problem.to_string()),
        },
        Err(problem) => Err(problem.to_string()),
    }
}

proof fn lemma_written_view(written: Result<Vec<u8>, String>)
    ensures
        written matches Ok(bytes) ==> outcome(written) == Ok::<Seq<u8>, Seq<char>>(bytes@),
{
    if let Ok(bytes) = written {
        assert(bytes.deep_view() =~= bytes@);
    }
}

// ---------------------------------------------------------------------------
// Entries
// ---------------------------------------------------------------------------
/// The part of a symbolic link, given what writing it gave.
pub open spec fn symlink_part(
    relative: Seq<char>,
    written: Result<Seq<u8>, Seq<char>>,
) -> Result<Seq<u8>, Seq<char>> {
    match written {
        Ok(bytes) => Ok(bytes),
        Err(problem) => Err("Failed to archive symlink '"@ + relative + "': "@ + problem),
    }
}

/// The part of a symbolic link, given what writing it gave.
pub fn archive_symlink(relative: &str, written: Result<Vec<u8>, String>) -> (result: Result<
    Vec<u8>,
    String,
>)
    ensures
        outcome(result) == symlink_part(relative@, outcome(written)),
{
    match written {
        Ok(bytes) => Ok(bytes),
        Err(problem) => {
            let message = glue5("Failed to archive symlink '", relative, "': ", &problem, "");
            assert(message@ =~= "Failed to archive symlink '"@ + relative@ + "': "@ + problem@) by {
                reveal_strlit("");
            }
            Err(message)
        },
    }
}

/// What to do with a path of the tree that goes into an archive.
#[derive(Debug)]
pub enum PathPart {
    /// It is a directory: its metadata is archived.
    Directory,
    /// It is anything else but a link: its metadata and content are archived.
    File,
    /// Its part is complete.
    Written(Vec<u8>),
}

/// A [`PathPart`] as a mathematical value.
#[verifier::ext_equal]
pub enum PathPartModel {
    Directory,
    File,
    Written(Seq<u8>),
}

impl DeepView for PathPart {
    type V = PathPartModel;

    open spec fn deep_view(&self) -> PathPartModel {
        match self {
            PathPart::Directory => PathPartModel::Directory,
            PathPart::File => PathPartModel::File,
            PathPart::Written(bytes) => PathPartModel::Written(bytes@),
        }
    }
}

/// What is done with a path of a tree. A link is archived as a link, whether or not
/// anything is at its target.
pub open spec fn path_part(
    relative: Seq<char>,
    kind: FileKind,
    target: Seq<char>,
    mode: u32,
) -> Result<PathPartModel, Seq<char>> {
    match kind {
        FileKind::Directory => Ok(PathPartModel::Directory),
        FileKind::Symlink => match symlink_part(relative, link_archive(relative, target, mode)) {
            Ok(bytes) => Ok(PathPartModel::Written(bytes)),
            Err(problem) => Err(problem),
        },
        _ => Ok(PathPartModel::File),
    }
}

/// What to do with a path of a tree; `target` is where a link leads.
pub fn append_path_to_tar(relative: &str, kind: FileKind, target: &str, mode: u32) -> (result:
    Result<PathPart, String>)
    ensures
        outcome(result) == path_part(relative@, kind, target@, mode),
        result matches Ok(PathPart::Written(bytes)) ==> ends_archive(bytes@),
{
    match kind {
        FileKind::Directory => Ok(PathPart::Directory),
        FileKind::Symlink => {
            let written = write_link(relative, target, mode);
            proof {
                lemma_written_view(written);
            }
            match archive_symlink(relative, written) {
                Ok(bytes) => {
                    assert(bytes.deep_view() =~= bytes@);
                    Ok(PathPart::Written(bytes))
                },
                Err(problem) => Err(problem),
            }
        },
        _ => Ok(PathPart::File),
    }
}

/// The part that removes a path, given what writing its marker gave.
pub open spec fn whiteout_part(
    relative: Seq<char>,
    written: Result<Seq<u8>, Seq<char>>,
) -> Result<Seq<u8>, Seq<char>> {
    match written {
        Ok(bytes) => Ok(bytes),
        Err(problem) => Err("Failed to append whiteout for '"@ + relative + "': "@ + problem),
    }
}

/// The part that removes a path, given what writing its marker gave.
pub fn archive_whiteout(relative: &str, written: Result<Vec<u8>, String>) -> (result: Result<
    Vec<u8>,
    String,
>)
    ensures
        outcome(result) == whiteout_part(relative@, outcome(written)),
{
    match written {
        Ok(bytes) => Ok(bytes),
        Err(problem) => {
            let message = glue5("Failed to append whiteout for '", relative, "': ", &problem, "");
            assert(message@ =~= "Failed to append whiteout for '"@ + relative@ + "': "@ + problem@)
                by {
                reveal_strlit("");
            }
            Err(message)
        },
    }
}

/// The part that removes a path: an empty file without any permission beside it.
pub open spec fn removal_part(relative: Seq<char>) -> Result<Seq<u8>, Seq<char>> {
    match whiteout_of(relative) {
        Ok(marker) => whiteout_part(relative, empty_file_archive(marker, 0)),
        Err(problem) => Err(problem),
    }
}

/// The part that removes a path.
pub fn append_whiteout(relative: &str) -> (result: Result<Vec<u8>, String>)
    ensures
        outcome(result) == removal_part(relative@),
        result matches Ok(bytes) ==> ends_archive(bytes@),
{
    match whiteout_path(relative) {
        Ok(marker) => {
            let written = write_empty_file(&marker, 0);
            proof {
                lemma_written_view(written);
            }
            let result = archive_whiteout(relative, written);
            proof {
                lemma_written_view(result);
            }
            result
        },
        Err(problem) => Err(problem),
    }
}

// ---------------------------------------------------------------------------
// Putting parts together
// ---------------------------------------------------------------------------
/// An entry of the archive of a layer.
#[derive(Debug)]
pub enum LayerEntry {
    /// What the tree holds at a path.
    Path(String),
    /// A path that is gone.
    Whiteout(String),
}

/// A [`LayerEntry`] as a mathematical value.
#[verifier::ext_equal]
pub enum LayerEntryModel {
    Path(Seq<char>),
    Whiteout(Seq<char>),
}

impl DeepView for LayerEntry {
    type V = LayerEntryModel;

    open spec fn deep_view(&self) -> LayerEntryModel {
        match self {
            LayerEntry::Path(path) => LayerEntryModel::Path(path@),
            LayerEntry::Whiteout(path) => LayerEntryModel::Whiteout(path@),
        }
    }
}

/// The entries of a layer: what was added or changed, then what was removed.
pub open spec fn entries_of(changed: Seq<Seq<char>>, removed: Seq<Seq<char>>) -> Seq<
    LayerEntryModel,
> {
    changed.map_values(|path: Seq<char>| LayerEntryModel::Path(path)) + removed.map_values(
        |path: Seq<char>| LayerEntryModel::Whiteout(path),
    )
}

/// The entries of a layer: what was added or changed, then what was removed.
pub fn layer_entries(diff: &DiffEntries) -> (entries: Vec<LayerEntry>)
    ensures
        entries.deep_view() == entries_of(
            diff.added_or_modified.deep_view(),
            diff.removed.deep_view(),
        ),
{
    let mut entries: Vec<LayerEntry> = Vec::new();
    let ghost whole = entries_of(diff.added_or_modified.deep_view(), diff.removed.deep_view());
    let changed = diff.added_or_modified.len();
    let mut at: usize = 0;
    while at < changed
        invariant
            changed == diff.added_or_modified@.len(),
            at <= changed,
            whole == entries_of(diff.added_or_modified.deep_view(), diff.removed.deep_view()),
            entries.deep_view() == whole.take(at as int),
        decreases changed - at,
    {
        let ghost before = entries.deep_view();
        let entry = LayerEntry::Path(diff.added_or_modified[at].clone());
        assert(whole[at as int] == entry.deep_view());
        entries.push(entry);
        assert(entries.deep_view() =~= before.push(entry.deep_view()));
        at = at + 1;
        assert(entries.deep_view() =~= whole.take(at as int));
    }
    let mut at: usize = 0;
    while at < diff.removed.len()
        invariant
            changed == diff.added_or_modified@.len(),
            at <= diff.removed@.len(),
            whole == entries_of(diff.added_or_modified.deep_view(), diff.removed.deep_view()),
            entries.deep_view() == whole.take(changed + at),
        decreases diff.removed@.len() - at,
    {
        let ghost before = entries.deep_view();
        let entry = LayerEntry::Whiteout(diff.removed[at].clone());
        assert(whole[changed + at] == entry.deep_view());
        entries.push(entry);
        assert(entries.deep_view() =~= before.push(entry.deep_view()));
        at = at + 1;
        assert(entries.deep_view() =~= whole.take(changed + at));
    }
    assert(whole.take(whole.len() as int) =~= whole);
    entries
}

/// The entries of the parts, without the end of each.
pub open spec fn bodies(parts: Seq<Seq<u8>>) -> Seq<u8>
    decreases parts.len(),
{
    if parts.len() == 0 {
        seq![]
    } else {
        bodies(parts.drop_last()) + parts.last().take(parts.last().len() - TRAILER)
    }
}

/// One archive with the entries of all parts.
pub open spec fn joined_archive(parts: Seq<Seq<u8>>) -> Seq<u8> {
    bodies(parts) + Seq::new(TRAILER as nat, |i: int| 0u8)
}

/// Every part is an archive.
pub open spec fn all_end(parts: Seq<Seq<u8>>) -> bool {
    forall|i: int| 0 <= i < parts.len() ==> ends_archive(#[trigger] parts[i])
}

/// Whether the bytes end as an archive does.
pub fn is_archive(bytes: &Vec<u8>) -> (found: bool)
    ensures
        found == ends_archive(bytes@),
{
    if bytes.len() < TRAILER {
        return false;
    }
    let mut at: usize = bytes.len() - TRAILER;
    while at < bytes.len()
        invariant
            TRAILER <= bytes@.len(),
            bytes@.len() - TRAILER <= at <= bytes@.len(),
            forall|i: int| bytes@.len() - TRAILER <= i < at ==> #[trigger] bytes@[i] == 0,
        decreases bytes@.len() - at,
    {
        if bytes[at] != 0 {
            return false;
        }
        at = at + 1;
    }
    true
}

/// One archive with the entries of all parts.
pub fn join_archives(parts: &Vec<Vec<u8>>) -> (archive: Vec<u8>)
    requires
        all_end(parts.deep_view()),
    ensures
        archive@ == joined_archive(parts.deep_view()),
{
    let mut archive: Vec<u8> = Vec::new();
    let ghost whole = parts.deep_view();
    assert(bodies(whole.take(0)) =~= seq![]);
    let mut at: usize = 0;
    while at < parts.len()
        invariant
            whole == parts.deep_view(),
            all_end(whole),
            at <= parts@.len(),
            archive@ == bodies(whole.take(at as int)),
        decreases parts@.len() - at,
    {
        let part = &parts[at];
        assert(whole[at as int] == part@);
        let end = part.len() - TRAILER;
        let ghost before = archive@;
        let mut next: usize = 0;
        while next < end
            invariant
                end == part@.len() - TRAILER,
                next <= end,
                archive@ == before + part@.take(next as int),
            decreases end - next,
        {
            archive.push(part[next]);
            next = next + 1;
            assert(archive@ =~= before + part@.take(next as int));
        }
        at = at + 1;
        assert(whole.take(at as int).drop_last() =~= whole.take(at - 1));
    }
    assert(whole.take(whole.len() as int) =~= whole);
    let ghost before = archive@;
    let mut next: usize = 0;
    while next < TRAILER
        invariant
            next <= TRAILER,
            archive@ == before + Seq::new(next as nat, |i: int| 0u8),
        decreases TRAILER - next,
    {
        archive.push(0);
        next = next + 1;
        assert(archive@ =~= before + Seq::new(next as nat, |i: int| 0u8));
    }
    archive
}

proof fn lemma_bodies_split(left: Seq<Seq<u8>>, right: Seq<Seq<u8>>)
    ensures
        bodies(left + right) == bodies(left) + bodies(right),
    decreases right.len(),
{
    if right.len() == 0 {
        assert(left + right =~= left);
        assert(bodies(left) + bodies(right) =~= bodies(left));
    } else {
        assert((left + right).drop_last() =~= left + right.drop_last());
        lemma_bodies_split(left, right.drop_last());
        assert(bodies(left + right) =~= bodies(left) + bodies(right));
    }
}

/// Archives may be put together in any grouping: joining two joined archives is
/// joining all their parts, and the result is an archive again.
pub proof fn archives_join_in_any_grouping(left: Seq<Seq<u8>>, right: Seq<Seq<u8>>)
    ensures
        ends_archive(joined_archive(left)),
        joined_archive(seq![joined_archive(left), joined_archive(right)]) == joined_archive(
            left + right,
        ),
{
    lemma_bodies_split(left, right);
    let pair = seq![joined_archive(left), joined_archive(right)];
    assert(pair.drop_last() =~= seq![joined_archive(left)]);
    assert(pair.drop_last().drop_last() =~= seq![]);
    assert(joined_archive(left).take(joined_archive(left).len() - TRAILER) =~= bodies(left));
    assert(joined_archive(right).take(joined_archive(right).len() - TRAILER) =~= bodies(right));
    assert(bodies(pair.drop_last()) =~= bodies(left)) by {
        reveal_with_fuel(bodies, 2);
    }
    assert(bodies(pair) =~= bodies(left) + bodies(right));
}

/// A single archive is joined to itself.
pub proof fn one_archive_stays(archive: Seq<u8>)
    requires
        ends_archive(archive),
    ensures
        joined_archive(seq![archive]) == archive,
{
    reveal_with_fuel(bodies, 2);
    assert(seq![archive].drop_last() =~= seq![]);
    assert(joined_archive(seq![archive]) =~= archive);
}

/// A layer has an entry for each path that was added or changed, and after them a marker
/// for each one that was removed, each in its order.
pub proof fn layers_have_an_entry_for_each_path(
    changed: Seq<Seq<char>>,
    removed: Seq<Seq<char>>,
    i: int,
)
    ensures
        entries_of(changed, removed).len() == changed.len() + removed.len(),
        0 <= i < changed.len() ==> entries_of(changed, removed)[i] == LayerEntryModel::Path(
            changed[i],
        ),
        0 <= i < removed.len() ==> entries_of(changed, removed)[changed.len() + i]
            == LayerEntryModel::Whiteout(removed[i]),
{
}

/// A path is archived as what it is: a link under its own path with its own target and
/// mode, a directory as a directory, and anything else as a file.
pub proof fn paths_are_archived_as_they_are(
    relative: Seq<char>,
    kind: FileKind,
    target: Seq<char>,
    mode: u32,
)
    ensures
        kind is Directory ==> path_part(relative, kind, target, mode) == Ok::<
            PathPartModel,
            Seq<char>,
        >(PathPartModel::Directory),
        kind is File || kind is Other ==> path_part(relative, kind, target, mode) == Ok::<
            PathPartModel,
            Seq<char>,
        >(PathPartModel::File),
        kind is Symlink ==> match link_archive(relative, target, mode) {
            Ok(bytes) => path_part(relative, kind, target, mode) == Ok::<PathPartModel, Seq<char>>(
                PathPartModel::Written(bytes),
            ),
            Err(_) => path_part(relative, kind, target, mode) is Err,
        },
{
}

/// A path is removed by an empty file beside it, without any permission and under its name
/// after `.wh.`.
pub proof fn removals_are_marked(directory: Seq<char>, name: Seq<char>)
    requires
        is_prefix(directory),
        is_name(name),
        !name.contains('/'),
    ensures
        match empty_file_archive(path_joined(directory, ".wh."@ + name), 0) {
            Ok(bytes) => removal_part(path_joined(directory, name)) == Ok::<Seq<u8>, Seq<char>>(
                bytes,
            ),
            Err(_) => removal_part(path_joined(directory, name)) is Err,
        },
{
    markers_stand_for_their_paths(directory, name);
}

} // verus!
