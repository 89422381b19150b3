//! Content-addressable storage for blobs, and the references that name them.
//!
//! All content is stored under its SHA-256 digest, so that equal content is stored
//! once and what is read can be verified. Files are read and written by the caller:
//! the store says where content belongs, what has to be written, and whether what
//! was read is what it should be.
use crate::digest::{content_digest, digest_of, is_content_digest, is_hex_digit};
use crate::image::reference::{reference_text, tag_or_digest, ImageReference, ReferenceModel};
use crate::order::{pair_le, pair_order_is_total, sort_pairs};
use crate::path::{absolute, extension_replaced, file_name_of, is_name, join_path, last_dot};
use crate::path::{last_slash, names, parent, parent_of, path_joined, slashed, with_extension};
use crate::path::without_tail;
use crate::text::{chars_of, cut, glue, glue3, joined, replace_char, replaced, same_text};
use crate::text::{lemma_joined_prepend, split_once, text_of, trim, trimmed};
use crate::text::{texts_are_cut_at_the_first, trimmed_end, trimmed_start, white_space};
use vstd::prelude::*;

verus! {

// ---------------------------------------------------------------------------
// Errors
// ---------------------------------------------------------------------------
/// What can go wrong with stored content.
#[derive(Debug)]
pub enum ImageError {
    /// There is no blob with this digest.
    BlobNotFound(String),
    /// A blob's content does not have the digest it is stored under.
    ContentVerificationError { expected: String, actual: String },
    /// A file could not be read or written, for this reason.
    Io(String),
}

/// An [`ImageError`] as a mathematical value.
#[verifier::ext_equal]
pub enum ImageErrorModel {
    BlobNotFound(Seq<char>),
    ContentVerificationError { expected: Seq<char>, actual: Seq<char> },
    Io(Seq<char>),
}

impl DeepView for ImageError {
    type V = ImageErrorModel;

    open spec fn deep_view(&self) -> ImageErrorModel {
        match self {
            ImageError::BlobNotFound(digest) => ImageErrorModel::BlobNotFound(digest@),
            ImageError::ContentVerificationError { expected, actual } => {
                ImageErrorModel::ContentVerificationError { expected: expected@, actual: actual@ }
            },
            ImageError::Io(problem) => ImageErrorModel::Io(problem@),
        }
    }
}

/// A result of the store as a mathematical value.
pub open spec fn store_outcome<T: DeepView>(result: Result<T, ImageError>) -> Result<
    T::V,
    ImageErrorModel,
> {
    match result {
        Ok(value) => Ok(value.deep_view()),
        Err(problem) => Err(problem.deep_view()),
    }
}

/// What reading a file gave.
#[derive(Debug)]
pub enum FileRead {
    /// There is no file.
    Missing,
    /// The file could not be read, for this reason.
    Unreadable(String),
    /// The content of the file.
    Content(Vec<u8>),
}

/// What writing or removing a file gave: the reason where it failed.
pub type FileChange = Result<(), String>;

// ---------------------------------------------------------------------------
// Where a blob belongs
// ---------------------------------------------------------------------------
/// How many bytes a character takes.
pub open spec fn utf8_len(c: char) -> int {
    if (c as u32) < 0x80 {
        1
    } else if (c as u32) < 0x800 {
        2
    } else if (c as u32) < 0x10000 {
        3
    } else {
        4
    }
}

/// How many characters the first two bytes of a hash hold; none where they end
/// within a character.
pub open spec fn prefix_len(hash: Seq<char>) -> Option<int> {
    if hash.len() == 0 {
        Some(0)
    } else if utf8_len(hash[0]) == 2 {
        Some(1)
    } else if utf8_len(hash[0]) == 1 {
        if hash.len() == 1 {
            Some(1)
        } else if utf8_len(hash[1]) == 1 {
            Some(2)
        } else {
            None
        }
    } else {
        None
    }
}

/// The algorithm and the hash of a digest.
pub open spec fn algorithm_and_hash(digest: Seq<char>) -> (Seq<char>, Seq<char>) {
    match cut(digest, ':') {
        Some(parts) => parts,
        None => ("sha256"@, digest),
    }
}

/// The digest has a place in a store: the first two bytes of its hash are whole
/// characters.
pub open spec fn has_place(digest: Seq<char>) -> bool {
    prefix_len(algorithm_and_hash(digest).1) is Some
}

/// The file of a blob: below a directory for its algorithm and one for the start of
/// its hash.
pub open spec fn blob_file(base: Seq<char>, digest: Seq<char>) -> Seq<char> {
    let (algorithm, hash) = algorithm_and_hash(digest);
    path_joined(
        path_joined(path_joined(base, algorithm), hash.take(prefix_len(hash)->0)),
        hash,
    )
}

/// How many characters the first two bytes of a hash hold.
fn hash_prefix(chars: &Vec<char>) -> (count: Option<usize>)
    ensures
        match prefix_len(chars@) {
            Some(n) => count matches Some(found) && found == n && found <= chars@.len(),
            None => count is None,
        },
{
    if chars.len() == 0 {
        return Some(0);
    }
    let first = chars[0] as u32;
    if first >= 0x80 {
        return if first < 0x800 {
            Some(1)
        } else {
            None
        };
    }
    if chars.len() == 1 {
        return Some(1);
    }
    if (chars[1] as u32) < 0x80 {
        Some(2)
    } else {
        None
    }
}

/// The algorithm and the hash of a digest.
fn split_digest(digest: &str) -> (parts: (String, String))
    ensures
        (parts.0@, parts.1@) == algorithm_and_hash(digest@),
{
    match split_once(digest, ':') {
        Some(parts) => parts,
        None => ("sha256".to_string(), digest.to_string()),
    }
}

/// Whether the digest has a place in a store.
pub fn can_be_stored(digest: &str) -> (found: bool)
    ensures
        found == has_place(digest@),
{
    let (_algorithm, hash) = split_digest(digest);
    hash_prefix(&chars_of(&hash)).is_some()
}

// ---------------------------------------------------------------------------
// What is done with a blob
// ---------------------------------------------------------------------------
/// The plan stores the content: under its digest, at the blob's file, and only where the
/// content is not there already.
pub open spec fn plans_blob(
    plan: BlobPlan,
    base: Seq<char>,
    data: Seq<u8>,
    existing: FileRead,
) -> bool {
    &&& plan.digest@ == digest_of(data)
    &&& plan.path@ == blob_file(base, digest_of(data))
    &&& plan.write is None <==> verifies(existing, digest_of(data))
    &&& plan.write matches Some(write) ==> {
        &&& write.remove_existing == !(existing is Missing)
        &&& write.directory.deep_view() == parent_of(plan.path@)
        &&& write.temporary@ == extension_replaced(plan.path@, "tmp"@)
    }
}

/// The write makes a reference name a manifest.
pub open spec fn names_manifest(
    write: ReferenceWrite,
    metadata: Seq<char>,
    reference: ReferenceModel,
    manifest_digest: Seq<char>,
) -> bool {
    &&& write.metadata@ == metadata
    &&& write.path@ == reference_file(metadata, reference)
    &&& write.directory.deep_view() == parent_of(write.path@)
    &&& write.content@ == manifest_digest
}

/// The content verifies against the digest.
pub open spec fn verifies(read: FileRead, digest: Seq<char>) -> bool {
    read matches FileRead::Content(data) && digest_of(data@) == digest
}

/// What getting a blob gives, given what reading its file gave.
pub open spec fn blob_read(read: FileRead, digest: Seq<char>) -> Result<Seq<u8>, ImageErrorModel> {
    match read {
        FileRead::Missing => Err(ImageErrorModel::BlobNotFound(digest)),
        FileRead::Unreadable(problem) => Err(ImageErrorModel::Io(problem@)),
        FileRead::Content(data) => if digest_of(data@) == digest {
            Ok(data@)
        } else {
            Err(
                ImageErrorModel::ContentVerificationError {
                    expected: digest,
                    actual: digest_of(data@),
                },
            )
        },
    }
}

/// What storing a blob gives, given what reading its file gave and what writing it
/// gave: the write matters only where the file did not verify.
pub open spec fn blob_stored(digest: Seq<char>, existing: FileRead, written: FileChange) -> Result<
    Seq<char>,
    ImageErrorModel,
> {
    match written {
        Err(problem) if !verifies(existing, digest) => Err(ImageErrorModel::Io(problem@)),
        _ => Ok(digest),
    }
}

/// What has to be written for a blob.
#[derive(Debug)]
pub struct BlobWrite {
    /// What is there has to go first.
    pub remove_existing: bool,
    /// The directory that has to exist.
    pub directory: Option<String>,
    /// The file that the content is written to before it is renamed.
    pub temporary: String,
}

/// Where a blob goes, and what has to be written: nothing where a file with the same
/// content is there already.
#[derive(Debug)]
pub struct BlobPlan {
    pub digest: String,
    pub path: String,
    pub write: Option<BlobWrite>,
}

/// A moment: whole seconds since the epoch, and the nanoseconds after them.
#[derive(Debug, Clone, Copy, PartialEq, Eq, Structural)]
pub struct FileTime {
    pub seconds: i64,
    pub nanoseconds: u32,
}

/// A stored blob with what the file system says of it.
#[derive(Debug)]
pub struct StoredBlob {
    pub digest: String,
    pub path: String,
    pub size_bytes: u64,
    pub modified_at: FileTime,
}

/// A [`StoredBlob`] as a mathematical value.
#[verifier::ext_equal]
pub struct StoredBlobModel {
    pub digest: Seq<char>,
    pub path: Seq<char>,
    pub size_bytes: u64,
    pub modified_at: FileTime,
}

impl DeepView for StoredBlob {
    type V = StoredBlobModel;

    open spec fn deep_view(&self) -> StoredBlobModel {
        StoredBlobModel {
            digest: self.digest@,
            path: self.path@,
            size_bytes: self.size_bytes,
            modified_at: self.modified_at,
        }
    }
}

/// A regular file that was found below a directory.
pub struct FoundFile {
    pub path: String,
    /// The path below the directory.
    pub relative: String,
    pub size_bytes: u64,
    pub modified_at: FileTime,
}

/// The digest that a file's place stands for: the first and the last of exactly
/// three names.
pub open spec fn listed_digest(relative: Seq<char>) -> Option<Seq<char>> {
    let parts = names(relative);
    if parts.len() == 3 {
        Some(parts[0] + ":"@ + parts[2])
    } else {
        None
    }
}

/// The blobs among files that were found.
pub open spec fn listed_blobs(files: Seq<FoundFile>) -> Seq<StoredBlobModel>
    decreases files.len(),
{
    if files.len() == 0 {
        seq![]
    } else {
        let before = listed_blobs(files.drop_last());
        let file = files.last();
        match listed_digest(file.relative@) {
            Some(digest) => before.push(
                StoredBlobModel {
                    digest,
                    path: file.path@,
                    size_bytes: file.size_bytes,
                    modified_at: file.modified_at,
                },
            ),
            None => before,
        }
    }
}

/// Content-addressable blob store.
pub struct ContentStore {
    base_path: String,
}

impl ContentStore {
    /// The directory of the store.
    pub closed spec fn base(self) -> Seq<char> {
        self.base_path@
    }

    /// A store at the given path.
    pub fn new(base_path: &str) -> (store: Self)
        ensures
            store.base() == base_path@,
    {
        ContentStore { base_path: base_path.to_string() }
    }

    /// The directory that has to exist before anything is stored.
    pub fn root_directory(&self) -> (path: String)
        ensures
            path@ == path_joined(self.base(), "sha256"@),
    {
        join_path(&self.base_path, "sha256")
    }

    /// The directory of the store.
    pub fn base_path(&self) -> (path: &str)
        ensures
            path@ == self.base(),
    {
        &self.base_path
    }

    /// The file of a blob.
    pub fn blob_path(&self, digest: &str) -> (path: String)
        requires
            has_place(digest@),
        ensures
            path@ == blob_file(self.base(), digest@),
    {
        let (algorithm, hash) = split_digest(digest);
        let chars = chars_of(&hash);
        let count = match hash_prefix(&chars) {
            Some(count) => count,
            None => 0,
        };
        let prefix = text_of(&chars, 0, count);
        assert(prefix@ =~= hash@.take(count as int));
        join_path(&join_path(&join_path(&self.base_path, &algorithm), &prefix), &hash)
    }

    /// The digest under which content is stored.
    pub fn compute_digest(&self, data: &[u8]) -> (digest: String)
        ensures
            digest@ == digest_of(data@),
            is_content_digest(digest@),
            has_place(digest@),
    {
        let digest = content_digest(data);
        proof {
            digests_have_a_place(digest@);
        }
        digest
    }

    /// Where content goes and what has to be written, given what is there already.
    pub fn plan_blob(&self, data: &[u8], existing: &FileRead) -> (plan: BlobPlan)
        ensures
            plan.digest@ == digest_of(data@),
            has_place(plan.digest@),
            plan.path@ == blob_file(self.base(), plan.digest@),
            plan.write is None <==> verifies(*existing, plan.digest@),
            plan.write matches Some(write) ==> {
                &&& write.remove_existing == !(existing is Missing)
                &&& write.directory.deep_view() == parent_of(plan.path@)
                &&& write.temporary@ == extension_replaced(plan.path@, "tmp"@)
            },
            plans_blob(plan, self.base(), data@, *existing),
    {
        let digest = self.compute_digest(data);
        let path = self.blob_path(&digest);
        let (kept, remove_existing) = match existing {
            FileRead::Missing => (false, false),
            FileRead::Unreadable(_) => (false, true),
            FileRead::Content(found) => (same_text(&content_digest(found), &digest), true),
        };
        if kept {
            return BlobPlan { digest, path, write: None };
        }
        let directory = parent(&path);
        let temporary = with_extension(&path, "tmp");
        BlobPlan { digest, path, write: Some(BlobWrite { remove_existing, directory, temporary }) }
    }

    /// Stores a blob and gives its digest: `existing` is what reading its file gave,
    /// and `written` what writing it gave where it had to be written.
    pub fn store_blob(&self, data: &[u8], existing: &FileRead, written: FileChange) -> (result:
        Result<String, ImageError>)
        ensures
            store_outcome(result) == blob_stored(digest_of(data@), *existing, written),
    {
        let digest = content_digest(data);
        let kept = match existing {
            FileRead::Content(found) => same_text(&content_digest(found), &digest),
            _ => false,
        };
        if kept {
            return Ok(digest);
        }
        match written {
            Ok(()) => Ok(digest),
            Err(problem) => Err(ImageError::Io(problem)),
        }
    }

    /// The content of a blob, given what reading its file gave.
    pub fn get_blob(&self, digest: &str, read: FileRead) -> (result: Result<Vec<u8>, ImageError>)
        ensures
            match blob_read(read, digest@) {
                Ok(data) => result matches Ok(found) && found@ == data,
                Err(problem) => result matches Err(error) && error.deep_view() == problem,
            },
    {
        match read {
            FileRead::Missing => Err(ImageError::BlobNotFound(digest.to_string())),
            FileRead::Unreadable(problem) => Err(ImageError::Io(problem)),
            FileRead::Content(data) => {
                let actual = content_digest(&data);
                if same_text(&actual, digest) {
                    Ok(data)
                } else {
                    Err(
                        ImageError::ContentVerificationError {
                            expected: digest.to_string(),
                            actual,
                        },
                    )
                }
            },
        }
    }

    /// Whether a blob exists, given what reading its file gave: where the file holds
    /// what the digest stands for.
    pub fn has_blob(&self, digest: &str, read: &FileRead) -> (found: bool)
        ensures
            found == verifies(*read, digest@),
    {
        match read {
            FileRead::Content(data) => same_text(&content_digest(data), digest),
            _ => false,
        }
    }

    /// Deletes a blob: `removed` is what removing its file gave, which is no failure
    /// where there was none.
    pub fn delete_blob(&self, _digest: &str, removed: FileChange) -> (result: Result<
        (),
        ImageError,
    >)
        ensures
            match removed {
                Ok(_) => result is Ok,
                Err(problem) => result matches Err(error) && error.deep_view()
                    == ImageErrorModel::Io(problem@),
            },
    {
        match removed {
            Ok(()) => Ok(()),
            Err(problem) => Err(ImageError::Io(problem)),
        }
    }

    /// The blobs among the regular files below the store's directory.
    pub fn list_blobs(&self, files: &Vec<FoundFile>) -> (blobs: Vec<StoredBlob>)
        ensures
            blobs.deep_view() == listed_blobs(files@),
    {
        let mut blobs: Vec<StoredBlob> = Vec::new();
        let mut at: usize = 0;
        assert(blobs.deep_view() =~= listed_blobs(files@.take(0)));
        while at < files.len()
            invariant
                at <= files@.len(),
                blobs.deep_view() == listed_blobs(files@.take(at as int)),
            decreases files@.len() - at,
        {
            let ghost before = blobs.deep_view();
            assert(files@.take(at + 1).drop_last() =~= files@.take(at as int));
            let file = &files[at];
            let parts = crate::path::name_list(&file.relative);
            if parts.len() == 3 {
                assert(names(file.relative@)[0] == parts@[0]@);
                assert(names(file.relative@)[2] == parts@[2]@);
                let blob = StoredBlob {
                    digest: glue3(&parts[0], ":", &parts[2]),
                    path: file.path.clone(),
                    size_bytes: file.size_bytes,
                    modified_at: file.modified_at,
                };
                blobs.push(blob);
                assert(blobs.deep_view() =~= before.push(blob.deep_view()));
            }
            at = at + 1;
        }
        assert(files@.take(at as int) =~= files@);
        blobs
    }
}

/// Every blob verifies.
pub open spec fn all_verify(blobs: Seq<(String, FileRead)>) -> bool {
    forall|i: int| 0 <= i < blobs.len() ==> verifies((#[trigger] blobs[i]).1, blobs[i].0@)
}

/// Whether every blob of an image is there and intact, so that the image need not be
/// pulled: each digest with what reading its file gave.
pub fn blobs_intact(blobs: &Vec<(String, FileRead)>) -> (intact: bool)
    ensures
        intact == all_verify(blobs@),
{
    let mut at: usize = 0;
    while at < blobs.len()
        invariant
            at <= blobs@.len(),
            forall|i: int| 0 <= i < at ==> verifies((#[trigger] blobs@[i]).1, blobs@[i].0@),
        decreases blobs@.len() - at,
    {
        let verified = match &blobs[at].1 {
            FileRead::Content(data) => same_text(&content_digest(data), &blobs[at].0),
            _ => false,
        };
        if !verified {
            assert(!verifies(blobs@[at as int].1, blobs@[at as int].0@));
            return false;
        }
        at = at + 1;
    }
    true
}

// ---------------------------------------------------------------------------
// References
// ---------------------------------------------------------------------------
/// The file that holds the digest of a reference's manifest.
pub open spec fn reference_file(metadata: Seq<char>, reference: ReferenceModel) -> Seq<char> {
    path_joined(
        path_joined(path_joined(metadata, reference.registry), reference.repository),
        replaced(tag_or_digest(reference), ':', '_'),
    )
}

/// What has to be written to store a reference.
#[derive(Debug)]
pub struct ReferenceWrite {
    /// The directories that have to exist.
    pub metadata: String,
    pub directory: Option<String>,
    pub path: String,
    pub content: String,
}

/// The manifest digest that a reference's file holds, or none where there is none.
pub open spec fn reference_digest(read: Result<Option<Seq<char>>, Seq<char>>) -> Result<
    Option<Seq<char>>,
    ImageErrorModel,
> {
    match read {
        Err(problem) => Err(ImageErrorModel::Io(problem)),
        Ok(None) => Ok(None),
        Ok(Some(text)) => Ok(Some(trimmed(text))),
    }
}

/// How many hexadecimal digits a hash of the algorithm has.
pub open spec fn hash_len(algorithm: Seq<char>) -> Option<nat> {
    if algorithm == "sha256"@ || algorithm == "blake3"@ {
        Some(64)
    } else if algorithm == "sha384"@ {
        Some(96)
    } else if algorithm == "sha512"@ {
        Some(128)
    } else {
        None
    }
}

/// The text is a hash of the algorithm: as many hexadecimal digits as it has.
pub open spec fn is_hash(algorithm: Seq<char>, hash: Seq<char>) -> bool {
    &&& hash_len(algorithm) == Some(hash.len())
    &&& forall|i: int| 0 <= i < hash.len() ==> is_hex_digit(#[trigger] hash[i])
}

/// The text is a digest: an algorithm, a colon and a hash of it.
pub open spec fn is_digest(text: Seq<char>) -> bool {
    cut(text, ':') matches Some((algorithm, hash)) && is_hash(algorithm, hash)
}

/// The name is that of a digest reference's file: an algorithm, an underscore for the
/// colon, and a hash of it.
pub open spec fn is_digest_name(name: Seq<char>) -> bool {
    cut(name, '_') matches Some((algorithm, hash)) && is_hash(algorithm, hash)
}

/// The tag or digest that the name of a reference's file stands for, after the sign
/// that a reference has before it.
pub open spec fn named_version(name: Seq<char>) -> Seq<char> {
    match cut(name, '_') {
        Some((algorithm, hash)) => if is_hash(algorithm, hash) {
            "@"@ + algorithm + ":"@ + hash
        } else {
            ":"@ + name
        },
        None => ":"@ + name,
    }
}

/// Whether a text is a hash of the algorithm.
fn check_hash(algorithm: &str, hash: &str) -> (found: bool)
    ensures
        found == is_hash(algorithm@, hash@),
{
    let chars = chars_of(hash);
    let wanted: usize = if same_text(algorithm, "sha256") || same_text(algorithm, "blake3") {
        64
    } else if same_text(algorithm, "sha384") {
        96
    } else if same_text(algorithm, "sha512") {
        128
    } else {
        return false;
    };
    if chars.len() != wanted {
        return false;
    }
    let mut at: usize = 0;
    while at < chars.len()
        invariant
            at <= chars@.len(),
            chars@ == hash@,
            forall|i: int| 0 <= i < at ==> is_hex_digit(#[trigger] chars@[i]),
        decreases chars@.len() - at,
    {
        let c = chars[at];
        if !(('0' <= c && c <= '9') || ('a' <= c && c <= 'f')) {
            assert(!is_hex_digit(hash@[at as int]));
            return false;
        }
        at = at + 1;
    }
    true
}

/// The tag or digest that the name of a reference's file stands for, after the sign
/// that a reference has before it.
fn version_named(name: &str) -> (version: String)
    ensures
        version@ == named_version(name@),
{
    match split_once(name, '_') {
        Some((algorithm, hash)) => if check_hash(&algorithm, &hash) {
            glue(&glue3("@", &algorithm, ":"), &hash)
        } else {
            glue(":", name)
        },
        None => glue(":", name),
    }
}

/// The reference that a file's place stands for: a registry, one or more names of a
/// repository, and a tag or digest.
pub open spec fn listed_reference(relative: Seq<char>) -> Option<Seq<char>> {
    let parts = names(relative);
    if parts.len() < 3 {
        None
    } else {
        Some(
            parts[0] + "/"@ + slashed(parts.subrange(1, parts.len() - 1)) + named_version(
                parts.last(),
            ),
        )
    }
}

/// The references among files that were found, each with the digest in its file.
pub open spec fn listed_references(files: Seq<(Seq<char>, Seq<char>)>) -> Seq<
    (Seq<char>, Seq<char>),
>
    decreases files.len(),
{
    if files.len() == 0 {
        seq![]
    } else {
        let before = listed_references(files.drop_last());
        let (relative, content) = files.last();
        match listed_reference(relative) {
            Some(reference) => before.push((reference, trimmed(content))),
            None => before,
        }
    }
}

/// High-level image store: blobs, and references to manifests among them.
pub struct ImageStore {
    content: ContentStore,
    metadata_path: String,
}

impl ImageStore {
    /// The directory of the references.
    pub closed spec fn metadata(self) -> Seq<char> {
        self.metadata_path@
    }

    /// The blobs.
    pub closed spec fn blobs(self) -> ContentStore {
        self.content
    }

    /// A store at the given path.
    pub fn new(base_path: &str) -> (store: Self)
        ensures
            store.blobs().base() == path_joined(base_path@, "blobs"@),
            store.metadata() == path_joined(base_path@, "metadata"@),
    {
        ImageStore {
            content: ContentStore::new(&join_path(base_path, "blobs")),
            metadata_path: join_path(base_path, "metadata"),
        }
    }

    /// The underlying content store.
    pub fn content(&self) -> (content: &ContentStore)
        ensures
            *content == self.blobs(),
    {
        &self.content
    }

    /// The directory of the references.
    pub fn metadata_path(&self) -> (path: &str)
        ensures
            path@ == self.metadata(),
    {
        &self.metadata_path
    }

    /// Stores a blob and gives its digest: `existing` is what reading its file gave,
    /// and `written` what writing it gave where it had to be written.
    pub fn store_blob(&self, data: &[u8], existing: &FileRead, written: FileChange) -> (result:
        Result<String, ImageError>)
        ensures
            store_outcome(result) == blob_stored(digest_of(data@), *existing, written),
    {
        self.content.store_blob(data, existing, written)
    }

    /// The content of a blob, given what reading its file gave.
    pub fn get_blob(&self, digest: &str, read: FileRead) -> (result: Result<Vec<u8>, ImageError>)
        ensures
            match blob_read(read, digest@) {
                Ok(data) => result matches Ok(found) && found@ == data,
                Err(problem) => result matches Err(error) && error.deep_view() == problem,
            },
    {
        self.content.get_blob(digest, read)
    }

    /// The file that holds the digest of a reference's manifest.
    pub fn ref_path(&self, reference: &ImageReference) -> (path: String)
        ensures
            path@ == reference_file(self.metadata(), reference.deep_view()),
    {
        let name = replace_char(&reference.api_reference(), ':', '_');
        join_path(
            &join_path(
                &join_path(&self.metadata_path, &reference.registry),
                &reference.repository,
            ),
            &name,
        )
    }

    /// What has to be written so that a reference names a manifest.
    pub fn store_image_ref(&self, reference: &ImageReference, manifest_digest: &str) -> (write:
        ReferenceWrite)
        ensures
            write.metadata@ == self.metadata(),
            write.path@ == reference_file(self.metadata(), reference.deep_view()),
            write.directory.deep_view() == parent_of(write.path@),
            write.content@ == manifest_digest@,
            names_manifest(
                write,
                self.metadata(),
                reference.deep_view(),
                manifest_digest@,
            ),
    {
        let path = self.ref_path(reference);
        let directory = parent(&path);
        ReferenceWrite {
            metadata: self.metadata_path.clone(),
            directory,
            path,
            content: manifest_digest.to_string(),
        }
    }

    /// The manifest digest of a reference, given what reading its file gave: none
    /// where there is no file.
    pub fn resolve_image_ref(&self, read: Result<Option<String>, String>) -> (result: Result<
        Option<String>,
        ImageError,
    >)
        ensures
            store_outcome(result) == reference_digest(crate::text::outcome(read)),
    {
        match read {
            Err(problem) => Err(ImageError::Io(problem)),
            Ok(None) => Ok(None),
            Ok(Some(text)) => Ok(Some(trim(&text))),
        }
    }

    /// The references and their manifest digests among the files below the directory
    /// of the references, each file by its path below that directory and its content.
    pub fn list_image_refs(&self, files: &Vec<(String, String)>) -> (refs: Vec<(String, String)>)
        ensures
            refs.deep_view() == listed_references(files.deep_view()).sort_by(pair_le()),
    {
        let ghost all = files.deep_view();
        let mut refs: Vec<(String, String)> = Vec::new();
        let mut at: usize = 0;
        assert(refs.deep_view() =~= listed_references(all.take(0)));
        while at < files.len()
            invariant
                at <= files@.len(),
                files.deep_view() == all,
                refs.deep_view() == listed_references(all.take(at as int)),
            decreases files@.len() - at,
        {
            let ghost before = refs.deep_view();
            proof {
                assert(all[at as int] == (files@[at as int].0@, files@[at as int].1@));
                assert(all.take(at + 1).drop_last() =~= all.take(at as int));
            }
            let parts = crate::path::name_list(&files[at].0);
            let ghost model = names(files@[at as int].0@);
            if parts.len() >= 3 {
                assert(model[0] == parts@[0]@);
                assert(model.last() == parts@[parts@.len() - 1]@);
                let version = version_named(&parts[parts.len() - 1]);
                let repository = crate::text::join(&parts, 1, parts.len() - 1, "/");
                let reference = glue(&glue3(&parts[0], "/", &repository), &version);
                let digest = trim(&files[at].1);
                refs.push((reference, digest));
                assert(refs.deep_view() =~= before.push((reference@, digest@)));
            }
            at = at + 1;
        }
        assert(all.take(at as int) =~= all);
        sort_pairs(refs)
    }
}

// ---------------------------------------------------------------------------
// Laws
// ---------------------------------------------------------------------------
/// The digest of content has a place in a store: below `sha256` and the first two
/// digits.
pub proof fn digests_have_a_place(digest: Seq<char>)
    requires
        is_content_digest(digest),
    ensures
        algorithm_and_hash(digest) == ("sha256"@, digest.skip(7)),
        has_place(digest),
        forall|base: Seq<char>| #[trigger]
            blob_file(base, digest) == path_joined(
                path_joined(path_joined(base, "sha256"@), digest.subrange(7, 9)),
                digest.skip(7),
            ),
{
    reveal_strlit("sha256:");
    reveal_strlit("sha256");
    assert forall|i: int| 0 <= i < 6 implies digest[i] != ':' by {
        assert(digest.take(7)[i] == digest[i]);
    }
    assert(digest.take(7)[6] == digest[6]);
    crate::text::lemma_index_from_unique(digest, ':', 0, 6);
    assert(digest.take(6) =~= "sha256"@) by {
        assert forall|i: int| 0 <= i < 6 implies digest[i] == "sha256"@[i] by {
            assert(digest.take(7)[i] == digest[i]);
        }
    }
    let hash = digest.skip(7);
    assert(hash[0] == digest[7] && hash[1] == digest[8]);
    assert(is_hex_digit(digest[7]) && is_hex_digit(digest[8]));
    assert(hash.take(2) =~= digest.subrange(7, 9));
}

/// The place of a blob below the store's directory.
pub open spec fn blob_relative(digest: Seq<char>) -> Seq<char> {
    slashed(seq!["sha256"@, digest.subrange(7, 9), digest.skip(7)])
}

/// The hash of a digest, its first two digits and the name of its algorithm are
/// names.
proof fn lemma_digest_names(digest: Seq<char>)
    requires
        is_content_digest(digest),
    ensures
        ({
            let parts = seq!["sha256"@, digest.subrange(7, 9), digest.skip(7)];
            forall|i: int|
                0 <= i < parts.len() ==> is_name(#[trigger] parts[i]) && !parts[i].contains('/')
        }),
{
    reveal_strlit("sha256");
    reveal_strlit(".");
    reveal_strlit("..");
    let parts = seq!["sha256"@, digest.subrange(7, 9), digest.skip(7)];
    assert(is_hex_digit(digest[7]));
    assert(parts[1][0] == digest[7] && parts[1].len() == 2);
    assert forall|i: int| 0 <= i < parts.len() implies is_name(#[trigger] parts[i])
        && !parts[i].contains('/') by {
        if i == 1 {
            assert forall|j: int| 0 <= j < 2 implies parts[1][j] != '/' && parts[1][j] != '.' by {
                assert(parts[1][j] == digest[7 + j]);
                assert(is_hex_digit(digest[7 + j]));
            }
            if parts[1] == ".."@ {
                assert(parts[1][0] == '.');
            }
        } else if i == 2 {
            assert(parts[2].len() == 64);
            assert forall|j: int| 0 <= j < 64 implies parts[2][j] != '/' by {
                assert(parts[2][j] == digest[7 + j]);
                assert(is_hex_digit(digest[7 + j]));
            }
        }
    }
}

/// A blob's file lies below the store's directory, and its place there lists as the
/// digest it is stored under.
pub proof fn blobs_list_as_their_digest(base: Seq<char>, digest: Seq<char>)
    requires
        is_content_digest(digest),
    ensures
        blob_file(base, digest) == path_joined(base, blob_relative(digest)),
        listed_digest(blob_relative(digest)) == Some(digest),
{
    reveal_strlit("sha256");
    reveal_strlit("sha256:");
    reveal_strlit(":");
    reveal_strlit("/");
    let parts = seq!["sha256"@, digest.subrange(7, 9), digest.skip(7)];
    lemma_digest_names(digest);
    crate::path::slashed_names(parts);
    assert(parts[0] + ":"@ + parts[2] =~= digest) by {
        assert forall|i: int| 0 <= i < 71 implies #[trigger] (parts[0] + ":"@ + parts[2])[i]
            == digest[i] by {
            if i < 7 {
                assert(digest.take(7)[i] == digest[i]);
            }
        }
    }
    digests_have_a_place(digest);
    assert(parts.drop_last() =~= seq![parts[0], parts[1]]);
    assert(parts.drop_last().drop_last() =~= seq![parts[0]]);
    reveal_with_fuel(joined, 4);
    assert(blob_relative(digest) == parts[0] + "/"@ + parts[1] + "/"@ + parts[2]);
    let first = path_joined(base, parts[0]);
    assert(!absolute(parts[0]));
    assert(first.last() == parts[0].last());
    assert(parts[1][0] == digest[7] && is_hex_digit(digest[7]));
    let second = path_joined(first, parts[1]);
    assert(second == first + "/"@ + parts[1]);
    assert(parts[1][1] == digest[8] && is_hex_digit(digest[8]));
    assert(second.last() == parts[1].last());
    assert(parts[2][0] == digest[7]);
    assert(blob_file(base, digest) == second + "/"@ + parts[2]);
    assert(blob_relative(digest)[0] == 's');
    assert(blob_file(base, digest) =~= path_joined(base, blob_relative(digest)));
}

/// Where a blob's file ends: a slash and the hash.
proof fn lemma_blob_file_end(base: Seq<char>, digest: Seq<char>)
    requires
        is_content_digest(digest),
    ensures
        ({
            let path = blob_file(base, digest);
            &&& path.len() > 65
            &&& path.skip(path.len() - 64) == digest.skip(7)
            &&& path[path.len() - 65] == '/'
            &&& file_name_of(path) == Some(digest.skip(7))
            &&& extension_replaced(path, "tmp"@) == path + "."@ + "tmp"@
        }),
{
    reveal_strlit("/");
    reveal_strlit("sha256");
    digests_have_a_place(digest);
    lemma_digest_names(digest);
    let parts = seq!["sha256"@, digest.subrange(7, 9), digest.skip(7)];
    let hash = parts[2];
    let first = path_joined(base, parts[0]);
    let second = path_joined(first, parts[1]);
    let path = blob_file(base, digest);
    assert(parts[1][0] == digest[7] && is_hex_digit(digest[7]));
    assert(parts[1][1] == digest[8] && is_hex_digit(digest[8]));
    assert(hash[0] == digest[7]);
    assert(first.last() == parts[0].last());
    assert(second == first + "/"@ + parts[1]);
    assert(second.last() == parts[1].last());
    assert(path == second + "/"@ + hash);
    assert(path.skip(path.len() - 64) =~= hash);
    assert(hash[63] == digest[70] && is_hex_digit(digest[70]));
    assert(path.last() == hash[63]);
    assert(without_tail(path) == path);
    assert(path[path.len() - 65] == '/');
    lemma_last_slash_at(path, path.len() as int, path.len() - 65);
    assert(is_name(parts[2]));
    lemma_no_dot(hash, hash.len() as int);
    assert(path.take(path.len() as int) =~= path);
}

proof fn lemma_last_slash_at(path: Seq<char>, end: int, at: int)
    requires
        0 <= at < end <= path.len(),
        path[at] == '/',
        forall|i: int| at < i < end ==> path[i] != '/',
    ensures
        last_slash(path, end) == at,
    decreases end,
{
    if end - 1 > at {
        lemma_last_slash_at(path, end - 1, at);
    }
}

proof fn lemma_no_dot(name: Seq<char>, end: int)
    requires
        0 <= end <= name.len(),
        forall|i: int| 0 <= i < end ==> name[i] != '.',
    ensures
        last_dot(name, end) == -1,
    decreases end,
{
    if end > 0 {
        lemma_no_dot(name, end - 1);
    }
}

/// Different content has different files, and no blob's file is the temporary file
/// of another.
pub proof fn blobs_do_not_share_files(base: Seq<char>, one: Seq<char>, other: Seq<char>)
    requires
        is_content_digest(one),
        is_content_digest(other),
    ensures
        one != other ==> blob_file(base, one) != blob_file(base, other),
        blob_file(base, one) != extension_replaced(blob_file(base, other), "tmp"@),
{
    lemma_blob_file_end(base, one);
    lemma_blob_file_end(base, other);
    reveal_strlit("tmp");
    let path = blob_file(base, one);
    assert(path.skip(path.len() - 64)[63] == path.last());
    assert(one.skip(7)[63] == one[70] && is_hex_digit(one[70]));
    assert(extension_replaced(blob_file(base, other), "tmp"@).last() == 'p');
    if one != other && path == blob_file(base, other) {
        assert(one.skip(7) == other.skip(7));
        assert(one =~= other) by {
            assert forall|i: int| 0 <= i < 71 implies one[i] == other[i] by {
                if i < 7 {
                    assert(one.take(7)[i] == other.take(7)[i]);
                } else {
                    assert(one.skip(7)[i - 7] == other.skip(7)[i - 7]);
                }
            }
        }
    }
}

/// A disk: the content of each file.
pub type Disk = Map<Seq<char>, Seq<u8>>;

/// What was read is what the disk holds.
pub open spec fn shows(disk: Disk, path: Seq<char>, read: FileRead) -> bool {
    match read {
        FileRead::Missing => !disk.contains_key(path),
        FileRead::Unreadable(_) => false,
        FileRead::Content(data) => disk.contains_key(path) && disk[path] == data@,
    }
}

/// The disk after content was stored: unchanged where the file verified already,
/// else with the content in its file and without the temporary one.
pub open spec fn disk_after_store(
    disk: Disk,
    base: Seq<char>,
    data: Seq<u8>,
    existing: FileRead,
) -> Disk {
    let path = blob_file(base, digest_of(data));
    if verifies(existing, digest_of(data)) {
        disk
    } else {
        disk.remove(extension_replaced(path, "tmp"@)).insert(path, data)
    }
}

/// What is stored reads back: after content was stored, whether its file was
/// missing, held the content already or held something else, reading the file under
/// the content's digest gives the content. Left out is only a file that held other
/// content of the same digest.
pub proof fn stored_blobs_read_back(
    disk: Disk,
    base: Seq<char>,
    data: Seq<u8>,
    existing: FileRead,
    read: FileRead,
)
    requires
        shows(disk, blob_file(base, digest_of(data)), existing),
        verifies(existing, digest_of(data)) ==> (existing->Content_0)@ == data,
        shows(
            disk_after_store(disk, base, data, existing),
            blob_file(base, digest_of(data)),
            read,
        ),
    ensures
        blob_read(read, digest_of(data)) == Ok::<Seq<u8>, ImageErrorModel>(data),
        verifies(read, digest_of(data)),
{
}

/// Whatever was there, a blob that was stored verifies afterwards.
pub proof fn stored_blobs_verify(
    disk: Disk,
    base: Seq<char>,
    data: Seq<u8>,
    existing: FileRead,
    read: FileRead,
)
    requires
        shows(disk, blob_file(base, digest_of(data)), existing),
        shows(
            disk_after_store(disk, base, data, existing),
            blob_file(base, digest_of(data)),
            read,
        ),
    ensures
        verifies(read, digest_of(data)),
        blob_read(read, digest_of(data)) is Ok,
{
}

/// Storing content a second time writes nothing: the disk stays as it is.
pub proof fn equal_content_is_stored_once(
    disk: Disk,
    base: Seq<char>,
    data: Seq<u8>,
    existing: FileRead,
    again: FileRead,
)
    requires
        shows(disk, blob_file(base, digest_of(data)), existing),
        shows(
            disk_after_store(disk, base, data, existing),
            blob_file(base, digest_of(data)),
            again,
        ),
    ensures
        disk_after_store(disk_after_store(disk, base, data, existing), base, data, again)
            == disk_after_store(disk, base, data, existing),
{
}

/// Storing content leaves every other blob as it was.
pub proof fn storing_leaves_other_blobs(
    disk: Disk,
    base: Seq<char>,
    data: Seq<u8>,
    existing: FileRead,
    other: Seq<char>,
)
    requires
        is_content_digest(digest_of(data)),
        is_content_digest(other),
        other != digest_of(data),
    ensures
        ({
            let path = blob_file(base, other);
            let after = disk_after_store(disk, base, data, existing);
            after.contains_key(path) == disk.contains_key(path) && (disk.contains_key(path)
                ==> after[path] == disk[path])
        }),
{
    blobs_do_not_share_files(base, other, digest_of(data));
}

/// The disk holds a blob: the file of the digest has the content that the digest
/// stands for.
pub open spec fn holds_blob(disk: Disk, base: Seq<char>, digest: Seq<char>) -> bool {
    &&& is_content_digest(digest)
    &&& disk.contains_key(blob_file(base, digest))
    &&& digest_of(disk[blob_file(base, digest)]) == digest
}

/// Every blob of a disk is on another as well, with the same content.
pub open spec fn keeps_blobs(before: Disk, after: Disk, base: Seq<char>) -> bool {
    forall|digest: Seq<char>| #[trigger]
        holds_blob(before, base, digest) ==> holds_blob(after, base, digest)
            && after[blob_file(base, digest)] == before[blob_file(base, digest)]
}

/// Storing content keeps every blob that was there and adds the content's own.
pub proof fn storing_keeps_blobs(disk: Disk, base: Seq<char>, data: Seq<u8>, existing: FileRead)
    requires
        is_content_digest(digest_of(data)),
        shows(disk, blob_file(base, digest_of(data)), existing),
    ensures
        keeps_blobs(disk, disk_after_store(disk, base, data, existing), base),
        holds_blob(disk_after_store(disk, base, data, existing), base, digest_of(data)),
{
    let after = disk_after_store(disk, base, data, existing);
    assert forall|digest: Seq<char>| #[trigger] holds_blob(disk, base, digest) implies holds_blob(
        after,
        base,
        digest,
    ) && after[blob_file(base, digest)] == disk[blob_file(base, digest)] by {
        if digest != digest_of(data) {
            storing_leaves_other_blobs(disk, base, data, existing, digest);
        }
    }
}

/// A blob that the disk holds reads back under its digest.
pub proof fn held_blobs_read_back(disk: Disk, base: Seq<char>, digest: Seq<char>, read: FileRead)
    requires
        holds_blob(disk, base, digest),
        shows(disk, blob_file(base, digest), read),
    ensures
        blob_read(read, digest) == Ok::<Seq<u8>, ImageErrorModel>(disk[blob_file(base, digest)]),
{
}

/// A blob whose file was removed is not found.
pub proof fn deleted_blobs_are_not_found(
    disk: Disk,
    base: Seq<char>,
    digest: Seq<char>,
    read: FileRead,
)
    requires
        shows(disk.remove(blob_file(base, digest)), blob_file(base, digest), read),
    ensures
        blob_read(read, digest) == Err::<Seq<u8>, ImageErrorModel>(
            ImageErrorModel::BlobNotFound(digest),
        ),
{
}

/// A blob that was read has the digest it was asked for.
pub proof fn read_blobs_verify(read: FileRead, digest: Seq<char>)
    ensures
        blob_read(read, digest) matches Ok(data) ==> digest_of(data) == digest,
        blob_read(read, digest) is Ok <==> verifies(read, digest),
{
}

/// A reference that was stored resolves to the digest it was stored with, provided
/// that does not begin or end with white space, which no digest does.
pub proof fn stored_references_resolve(
    files: Map<Seq<char>, Seq<char>>,
    metadata: Seq<char>,
    reference: ReferenceModel,
    digest: Seq<char>,
)
    requires
        digest.len() > 0 ==> !white_space(digest[0]) && !white_space(digest.last()),
    ensures
        ({
            let path = reference_file(metadata, reference);
            let after = files.insert(path, digest);
            reference_digest(Ok(Some(after[path]))) == Ok::<Option<Seq<char>>, ImageErrorModel>(
                Some(digest),
            )
        }),
{
    assert(trimmed_end(digest) == digest);
    assert(trimmed_start(digest) == digest);
}

/// A reference whose registry is one name, whose repository is a row of names without
/// an at sign, and whose version is a digest or a tag: a name without a colon that is
/// not taken for a digest.
pub open spec fn is_listable(reference: ReferenceModel) -> bool {
    &&& is_name(reference.registry) && !reference.registry.contains('/')
    &&& names(reference.repository).len() > 0
    &&& slashed(names(reference.repository)) == reference.repository
    &&& !reference.repository.contains('@')
    &&& match reference.digest {
        Some(digest) => is_digest(digest),
        None => is_name(reference.tag) && !reference.tag.contains('/') && !reference.tag.contains(
            ':',
        ) && !is_digest_name(reference.tag),
    }
}

/// The place of a reference below the directory of the references.
pub open spec fn reference_relative(reference: ReferenceModel) -> Seq<char> {
    reference.registry + "/"@ + reference.repository + "/"@ + replaced(
        tag_or_digest(reference),
        ':',
        '_',
    )
}

/// The name of a reference's file is a name, and it stands for the reference's tag or
/// digest.
proof fn lemma_version(reference: ReferenceModel)
    requires
        is_listable(reference),
    ensures
        ({
            let stored = replaced(tag_or_digest(reference), ':', '_');
            &&& is_name(stored) && !stored.contains('/')
            &&& named_version(stored) == match reference.digest {
                Some(digest) => "@"@ + digest,
                None => ":"@ + reference.tag,
            }
        }),
{
    let version = tag_or_digest(reference);
    let stored = replaced(version, ':', '_');
    match reference.digest {
        None => {
            assert(stored =~= version) by {
                assert forall|i: int| 0 <= i < version.len() implies stored[i] == version[i] by {
                    assert(version.contains(version[i]));
                }
            }
        },
        Some(digest) => {
            reveal_strlit(".");
            reveal_strlit("..");
            reveal_strlit(":");
            lemma_digest_parts(digest);
            let (algorithm, hash) = cut(digest, ':')->0;
            let at = algorithm.len() as int;
            assert forall|i: int| 0 <= i < digest.len() implies stored[i] == (if i == at {
                '_'
            } else {
                digest[i]
            }) && stored[i] != '/' && (i != at ==> stored[i] != '_') by {
                if i < at {
                    assert(digest[i] == algorithm[i]);
                } else if i > at {
                    assert(digest[i] == hash[i - at - 1]);
                }
            }
            crate::text::lemma_index_from_unique(stored, '_', 0, at);
            assert(stored.take(at) =~= algorithm);
            assert(stored.skip(at + 1) =~= hash);
            assert("@"@ + algorithm + ":"@ + hash =~= "@"@ + digest);
        },
    }
}

/// The parts of a digest: together they are the digest, and neither holds a sign that
/// separates.
proof fn lemma_digest_parts(digest: Seq<char>)
    requires
        is_digest(digest),
    ensures
        ({
            let (algorithm, hash) = cut(digest, ':')->0;
            &&& digest == algorithm + ":"@ + hash
            &&& algorithm.len() == 6
            &&& hash.len() >= 64
            &&& forall|i: int|
                0 <= i < algorithm.len() ==> (#[trigger] algorithm[i]) != ':' && algorithm[i]
                    != '@' && algorithm[i] != '_' && algorithm[i] != '/'
            &&& forall|i: int|
                0 <= i < hash.len() ==> (#[trigger] hash[i]) != ':' && hash[i] != '@' && hash[i]
                    != '_' && hash[i] != '/'
        }),
{
    reveal_strlit("sha256");
    reveal_strlit("blake3");
    reveal_strlit("sha384");
    reveal_strlit("sha512");
    reveal_strlit(":");
    let (algorithm, hash) = cut(digest, ':')->0;
    crate::text::lemma_index_from(digest, ':', 0);
    assert(digest =~= algorithm + ":"@ + hash);
    assert forall|i: int| 0 <= i < hash.len() implies (#[trigger] hash[i]) != ':' && hash[i]
        != '@' && hash[i] != '_' && hash[i] != '/' by {
        assert(is_hex_digit(hash[i]));
    }
}

/// A reference's file lies below the directory of the references, and its place there
/// lists as the reference's text.
pub proof fn references_list_as_their_text(metadata: Seq<char>, reference: ReferenceModel)
    requires
        is_listable(reference),
    ensures
        reference_file(metadata, reference) == path_joined(
            metadata,
            reference_relative(reference),
        ),
        !absolute(reference_relative(reference)),
        listed_reference(reference_relative(reference)) == Some(reference_text(reference)),
{
    reveal_strlit("/");
    let registry = reference.registry;
    let middle = names(reference.repository);
    let stored = replaced(tag_or_digest(reference), ':', '_');
    let parts = seq![registry] + middle + seq![stored];
    crate::path::names_are_names(reference.repository);
    lemma_version(reference);
    assert forall|i: int| 0 <= i < parts.len() implies is_name(#[trigger] parts[i])
        && !parts[i].contains('/') by {
        if 1 <= i < parts.len() - 1 {
            assert(parts[i] == middle[i - 1]);
        }
    }
    crate::path::slashed_names(parts);
    assert(parts.subrange(1, parts.len() - 1) =~= middle);
    assert(parts.last() == stored);
    assert(listed_reference(slashed(parts)) == Some(reference_text(reference))) by {
        assert(registry + "/"@ + reference.repository + named_version(stored) =~= reference_text(
            reference,
        ));
    }
    assert(slashed(parts) == reference_relative(reference)) by {
        assert(parts.drop_last() =~= seq![registry] + middle);
        lemma_joined_prepend(registry, middle, "/"@);
    }
    assert(reference_file(metadata, reference) == path_joined(
        metadata,
        reference_relative(reference),
    )) by {
        crate::path::lemma_joined_ends(middle);
        let repository = reference.repository;
        assert(registry.contains(registry[0]) && registry.contains(registry.last()));
        assert(stored.contains(stored[0]));
        let first = path_joined(metadata, registry);
        assert(first.last() == registry.last());
        let second = path_joined(first, repository);
        assert(second == first + "/"@ + repository);
        assert(second.last() == repository.last());
        assert(reference_relative(reference)[0] == registry[0]);
        assert(path_joined(second, stored) =~= path_joined(
            metadata,
            reference_relative(reference),
        ));
    }
}

/// References of different text have different files.
pub proof fn references_do_not_share_files(
    metadata: Seq<char>,
    one: ReferenceModel,
    other: ReferenceModel,
)
    requires
        is_listable(one),
        is_listable(other),
    ensures
        reference_text(one) != reference_text(other) <==> reference_file(metadata, one)
            != reference_file(metadata, other),
{
    reveal_strlit("/");
    references_list_as_their_text(metadata, one);
    references_list_as_their_text(metadata, other);
    let left = reference_relative(one);
    let right = reference_relative(other);
    assert(one.registry.contains(one.registry[0]) && left[0] == one.registry[0]);
    assert(other.registry.contains(other.registry[0]) && right[0] == other.registry[0]);
    if path_joined(metadata, left) == path_joined(metadata, right) {
        let whole = path_joined(metadata, left);
        let start = whole.len() - left.len();
        assert(whole.skip(start) =~= left);
        assert(left.len() == right.len());
        assert(path_joined(metadata, right).skip(start) =~= right);
    }
    if reference_text(one) == reference_text(other) {
        lemma_equal_texts(one, other);
    }
}

/// References of one text have one place.
proof fn lemma_equal_texts(one: ReferenceModel, other: ReferenceModel)
    requires
        is_listable(one),
        is_listable(other),
        reference_text(one) == reference_text(other),
    ensures
        reference_relative(one) == reference_relative(other),
{
    reveal_strlit("/");
    reveal_strlit(":");
    reveal_strlit("@");
    let text = reference_text(one);
    let left = one.registry + "/"@ + one.repository;
    let right = other.registry + "/"@ + other.repository;
    let first = tag_or_digest(one);
    let second = tag_or_digest(other);
    assert(text =~= left + (if one.digest is Some {
        "@"@
    } else {
        ":"@
    }) + first);
    assert(text =~= right + (if other.digest is Some {
        "@"@
    } else {
        ":"@
    }) + second);
    lemma_version_colon(one, left);
    lemma_version_colon(other, right);
    if one.digest is None && other.digest is None {
        assert(left.len() == right.len());
    }
    if one.digest is Some && other.digest is Some {
        assert(text[left.len() as int] == '@' && text[right.len() as int] == '@');
    }
    if one.digest is Some && other.digest is None {
        lemma_mixed(text, one, left, other, right);
    }
    if one.digest is None && other.digest is Some {
        lemma_mixed(text, other, right, one, left);
    }
    assert(left.len() == right.len());
    assert(left =~= text.take(left.len() as int));
    assert(right =~= text.take(right.len() as int));
    assert(first =~= text.skip(left.len() as int + 1));
    assert(second =~= text.skip(right.len() as int + 1));
}

/// The last colon of a reference's text: before a tag, or after the at sign and the
/// algorithm of a digest, which holds no further at sign.
proof fn lemma_version_colon(reference: ReferenceModel, name: Seq<char>)
    requires
        is_listable(reference),
        name == reference.registry + "/"@ + reference.repository,
    ensures
        ({
            let text = reference_text(reference);
            let at = if reference.digest is Some {
                name.len() as int + 7
            } else {
                name.len() as int
            };
            &&& at < text.len()
            &&& text[at] == ':'
            &&& reference.digest is Some ==> text[name.len() as int] == '@' && forall|i: int|
                name.len() < i < text.len() ==> text[i] != '@'
            &&& forall|i: int| at < i < text.len() ==> text[i] != ':'
        }),
{
    reveal_strlit("/");
    reveal_strlit(":");
    reveal_strlit("@");
    let text = reference_text(reference);
    let start = name.len() as int + 1;
    match reference.digest {
        Some(digest) => {
            lemma_digest_parts(digest);
            let (algorithm, hash) = cut(digest, ':')->0;
            assert(text =~= name + "@"@ + digest);
            assert forall|i: int| start <= i < text.len() implies text[i] != '@' && (i
                > name.len() + 7 ==> text[i] != ':') by {
                if i < start + 6 {
                    assert(text[i] == algorithm[i - start]);
                } else if i > start + 6 {
                    assert(text[i] == hash[i - start - 7]);
                }
            }
        },
        None => {
            assert(text =~= name + ":"@ + reference.tag);
            assert forall|i: int| name.len() < i < text.len() implies text[i] != ':' by {
                assert(reference.tag.contains(reference.tag[i - start]));
            }
        },
    }
}

/// No text is that of a reference by digest and of one by tag: the at sign would
/// stand in the other's repository.
proof fn lemma_mixed(
    text: Seq<char>,
    pinned: ReferenceModel,
    name: Seq<char>,
    tagged: ReferenceModel,
    other: Seq<char>,
)
    requires
        is_listable(pinned),
        is_listable(tagged),
        pinned.digest is Some,
        tagged.digest is None,
        name == pinned.registry + "/"@ + pinned.repository,
        other == tagged.registry + "/"@ + tagged.repository,
        text == reference_text(pinned),
    ensures
        text != reference_text(tagged),
{
    reveal_strlit("/");
    reveal_strlit(":");
    lemma_version_colon(pinned, name);
    lemma_version_colon(tagged, other);
    if text == reference_text(tagged) {
        assert(other.len() == name.len() + 7);
        assert(text =~= other + ":"@ + tagged.tag);
        let at = name.len() as int;
        assert(text[at] == other[at]);
        let slash = pinned.registry.len() as int;
        assert(name[slash] == '/');
        assert(text =~= name + "@"@ + (pinned.digest->0));
        assert(text[slash] == name[slash]);
        assert(text[slash] == '/' && other[slash] == '/');
        if slash < tagged.registry.len() {
            assert(tagged.registry[slash] == '/');
            assert(tagged.registry.contains('/'));
        }
        let place = at - tagged.registry.len() - 1;
        assert(tagged.repository[place] == '@');
        assert(tagged.repository.contains('@'));
    }
}

/// The files of the references that were stored, in this order, each with the digest
/// of its manifest.
pub open spec fn reference_files(
    metadata: Seq<char>,
    stored: Seq<(ReferenceModel, Seq<char>)>,
) -> Map<Seq<char>, Seq<char>>
    decreases stored.len(),
{
    if stored.len() == 0 {
        Map::empty()
    } else {
        let (reference, digest) = stored.last();
        reference_files(metadata, stored.drop_last()).insert(
            reference_file(metadata, reference),
            digest,
        )
    }
}

/// What a walk of the directory of the references finds: each file once, by its path
/// below the directory, with its content.
pub open spec fn is_walk(
    metadata: Seq<char>,
    disk: Map<Seq<char>, Seq<char>>,
    files: Seq<(Seq<char>, Seq<char>)>,
) -> bool {
    &&& forall|i: int|
        0 <= i < files.len() ==> !absolute((#[trigger] files[i]).0) && disk.contains_key(
            path_joined(metadata, files[i].0),
        ) && disk[path_joined(metadata, files[i].0)] == files[i].1
    &&& forall|i: int, j: int|
        0 <= i < j < files.len() ==> (#[trigger] files[i]).0 != (#[trigger] files[j]).0
    &&& forall|path: Seq<char>| #[trigger]
        disk.contains_key(path) ==> exists|i: int|
            0 <= i < files.len() && path_joined(metadata, (#[trigger] files[i]).0) == path
}

/// Every file is that of a stored reference.
proof fn lemma_stored_file(
    metadata: Seq<char>,
    stored: Seq<(ReferenceModel, Seq<char>)>,
    path: Seq<char>,
) -> (at: int)
    requires
        reference_files(metadata, stored).contains_key(path),
    ensures
        0 <= at < stored.len(),
        reference_file(metadata, stored[at].0) == path,
        reference_files(metadata, stored)[path] == stored[at].1,
    decreases stored.len(),
{
    if stored.len() == 0 {
        0
    } else if reference_file(metadata, stored.last().0) == path {
        stored.len() - 1
    } else {
        let before = stored.drop_last();
        let at = lemma_stored_file(metadata, before, path);
        assert(before[at] == stored[at]);
        at
    }
}

/// Every stored reference has its file.
proof fn lemma_file_stored(
    metadata: Seq<char>,
    stored: Seq<(ReferenceModel, Seq<char>)>,
    at: int,
)
    requires
        0 <= at < stored.len(),
    ensures
        reference_files(metadata, stored).contains_key(reference_file(metadata, stored[at].0)),
    decreases stored.len(),
{
    let before = stored.drop_last();
    if at < stored.len() - 1 {
        lemma_file_stored(metadata, before, at);
        assert(before[at] == stored[at]);
    }
}

/// A path below a directory is told by the joined path.
proof fn lemma_joined_apart(directory: Seq<char>, one: Seq<char>, other: Seq<char>)
    requires
        !absolute(one),
        !absolute(other),
        path_joined(directory, one) == path_joined(directory, other),
    ensures
        one == other,
{
    let whole = path_joined(directory, one);
    let start = whole.len() - one.len();
    assert(one.len() == other.len());
    assert(whole.skip(start) =~= one);
    assert(path_joined(directory, other).skip(start) =~= other);
}

/// Where every file lists, the list has an entry for each.
proof fn lemma_all_listed(files: Seq<(Seq<char>, Seq<char>)>)
    requires
        forall|i: int| 0 <= i < files.len() ==> listed_reference((#[trigger] files[i]).0) is Some,
    ensures
        listed_references(files).len() == files.len(),
        forall|i: int|
            0 <= i < files.len() ==> #[trigger] listed_references(files)[i] == (
                listed_reference(files[i].0)->0,
                trimmed(files[i].1),
            ),
    decreases files.len(),
{
    if files.len() > 0 {
        let before = files.drop_last();
        assert forall|i: int| 0 <= i < before.len() implies listed_reference(
            (#[trigger] before[i]).0,
        ) is Some by {
            assert(before[i] == files[i]);
        }
        lemma_all_listed(before);
        let last = files.last();
        assert(listed_reference(files[files.len() - 1].0) is Some);
        assert forall|i: int| 0 <= i < files.len() implies #[trigger] listed_references(files)[i]
            == (listed_reference(files[i].0)->0, trimmed(files[i].1)) by {
            if i < before.len() {
                assert(listed_references(before)[i] == (
                    listed_reference(before[i].0)->0,
                    trimmed(before[i].1),
                ));
            }
        }
    }
}

/// The text is that of a reference that was stored.
pub open spec fn is_stored_text(
    stored: Seq<(ReferenceModel, Seq<char>)>,
    text: Seq<char>,
) -> bool {
    exists|k: int| 0 <= k < stored.len() && reference_text((#[trigger] stored[k]).0) == text
}

/// The path below the directory of the references is that of stored reference `k`.
spec fn is_place_of(
    stored: Seq<(ReferenceModel, Seq<char>)>,
    k: int,
    relative: Seq<char>,
) -> bool {
    &&& 0 <= k < stored.len()
    &&& relative == reference_relative(stored[k].0)
    &&& listed_reference(relative) == Some(reference_text(stored[k].0))
}

/// The path below the directory of the references is that of a stored reference.
spec fn is_place(stored: Seq<(ReferenceModel, Seq<char>)>, relative: Seq<char>) -> bool {
    exists|k: int| #[trigger] is_place_of(stored, k, relative)
}

/// What a walk finds are the files of the stored references, each listed by its
/// reference's text and no text twice.
proof fn lemma_walk_lists(
    metadata: Seq<char>,
    stored: Seq<(ReferenceModel, Seq<char>)>,
    files: Seq<(Seq<char>, Seq<char>)>,
)
    requires
        forall|i: int| 0 <= i < stored.len() ==> is_listable((#[trigger] stored[i]).0),
        is_walk(metadata, reference_files(metadata, stored), files),
    ensures
        listed_references(files).len() == files.len(),
        forall|i: int|
            0 <= i < files.len() ==> is_place(stored, (#[trigger] files[i]).0),
        forall|i: int|
            0 <= i < files.len() ==> #[trigger] listed_references(files)[i] == (
                listed_reference(files[i].0)->0,
                trimmed(files[i].1),
            ),
        forall|i: int, j: int|
            0 <= i < j < files.len() ==> (#[trigger] listed_references(files)[i]).0 != (
            #[trigger] listed_references(files)[j]).0,
{
    let plain = listed_references(files);
    assert forall|i: int| 0 <= i < files.len() implies is_place(
        stored,
        (#[trigger] files[i]).0,
    ) by {
        let path = path_joined(metadata, files[i].0);
        let k = lemma_stored_file(metadata, stored, path);
        references_list_as_their_text(metadata, stored[k].0);
        lemma_joined_apart(metadata, files[i].0, reference_relative(stored[k].0));
        assert(is_place_of(stored, k, files[i].0));
    }
    lemma_all_listed(files);
    assert forall|i: int, j: int| 0 <= i < j < files.len() implies (#[trigger] plain[i]).0 != (
    #[trigger] plain[j]).0 by {
        let k = choose|k: int| #[trigger] is_place_of(stored, k, files[i].0);
        let l = choose|l: int| #[trigger] is_place_of(stored, l, files[j].0);
        assert(is_place(stored, files[i].0) && is_place(stored, files[j].0));
        if reference_text(stored[k].0) == reference_text(stored[l].0) {
            lemma_equal_texts(stored[k].0, stored[l].0);
        }
    }
}

/// Every stored reference is among what a walk lists, with what its file holds.
proof fn lemma_walk_has(
    metadata: Seq<char>,
    stored: Seq<(ReferenceModel, Seq<char>)>,
    files: Seq<(Seq<char>, Seq<char>)>,
    k: int,
) -> (at: int)
    requires
        forall|i: int| 0 <= i < stored.len() ==> is_listable((#[trigger] stored[i]).0),
        is_walk(metadata, reference_files(metadata, stored), files),
        0 <= k < stored.len(),
    ensures
        0 <= at < files.len(),
        listed_reference(files[at].0) == Some(reference_text(stored[k].0)),
        files[at].1 == reference_files(metadata, stored)[reference_file(metadata, stored[k].0)],
{
    let path = reference_file(metadata, stored[k].0);
    lemma_file_stored(metadata, stored, k);
    let at = choose|at: int|
        0 <= at < files.len() && path_joined(metadata, (#[trigger] files[at]).0) == path;
    references_list_as_their_text(metadata, stored[k].0);
    lemma_joined_apart(metadata, files[at].0, reference_relative(stored[k].0));
    at
}

/// The references that were stored are listed, and nothing else: the list is sorted,
/// has an entry for the text of each, names none twice, and each entry has the digest
/// that the reference resolves to.
pub proof fn stored_references_are_listed(
    metadata: Seq<char>,
    stored: Seq<(ReferenceModel, Seq<char>)>,
    files: Seq<(Seq<char>, Seq<char>)>,
)
    requires
        forall|i: int| 0 <= i < stored.len() ==> is_listable((#[trigger] stored[i]).0),
        is_walk(metadata, reference_files(metadata, stored), files),
    ensures
        ({
            let disk = reference_files(metadata, stored);
            let list = listed_references(files).sort_by(pair_le());
            &&& vstd::relations::sorted_by(list, pair_le())
            &&& forall|i: int, j: int|
                0 <= i < j < list.len() ==> (#[trigger] list[i]).0 != (#[trigger] list[j]).0
            &&& forall|i: int|
                0 <= i < list.len() ==> is_stored_text(stored, (#[trigger] list[i]).0)
            &&& forall|k: int|
                0 <= k < stored.len() ==> {
                    let file = reference_file(metadata, (#[trigger] stored[k]).0);
                    &&& disk.contains_key(file)
                    &&& reference_digest(Ok(Some(disk[file]))) matches Ok(Some(digest))
                    &&& list.contains((reference_text(stored[k].0), digest))
                }
            &&& stored.len() == 0 ==> list.len() == 0
        }),
{
    let disk = reference_files(metadata, stored);
    let plain = listed_references(files);
    let list = plain.sort_by(pair_le());
    lemma_walk_lists(metadata, stored, files);
    pair_order_is_total();
    plain.lemma_sort_by_ensures(pair_le());
    crate::sequence::lemma_permuted(plain, list);
    assert forall|i: int| 0 <= i < list.len() implies is_stored_text(
        stored,
        (#[trigger] list[i]).0,
    ) by {
        assert(plain.contains(list[i]));
        let f = plain.index_of(list[i]);
        assert(is_place(stored, files[f].0));
        let k = choose|k: int| #[trigger] is_place_of(stored, k, files[f].0);
        assert(reference_text(stored[k].0) == list[i].0);
    }
    assert forall|k: int| 0 <= k < stored.len() implies {
        let file = reference_file(metadata, (#[trigger] stored[k]).0);
        &&& disk.contains_key(file)
        &&& reference_digest(Ok(Some(disk[file]))) matches Ok(Some(digest))
        &&& list.contains((reference_text(stored[k].0), digest))
    } by {
        lemma_file_stored(metadata, stored, k);
        let f = lemma_walk_has(metadata, stored, files, k);
        assert(list.contains(plain[f]));
    }
    if list.len() > 0 {
        assert(is_stored_text(stored, list[0].0));
    }
}

/// Storing fails only with the write, and only where the content was not there already; the
/// digest is that of the content.
pub proof fn stores_fail_with_their_write(
    digest: Seq<char>,
    existing: FileRead,
    written: FileChange,
)
    ensures
        blob_stored(digest, existing, written) is Err <==> written is Err && !(existing matches
            FileRead::Content(data) && digest_of(data@) == digest),
        blob_stored(digest, existing, written) matches Ok(stored) ==> stored == digest,
        blob_stored(digest, existing, written) matches Err(problem) ==> (written matches Err(
            message,
        ) && problem == ImageErrorModel::Io(message@)),
{
}

/// What getting a blob gives is what its file holds, where that has the digest; and else it
/// is said that there is none, what went wrong, or what digest it has instead.
pub proof fn reads_give_the_content_or_say_why(read: FileRead, digest: Seq<char>)
    ensures
        match read {
            FileRead::Missing => blob_read(read, digest) == Err::<Seq<u8>, ImageErrorModel>(
                ImageErrorModel::BlobNotFound(digest),
            ),
            FileRead::Unreadable(problem) => blob_read(read, digest) == Err::<
                Seq<u8>,
                ImageErrorModel,
            >(ImageErrorModel::Io(problem@)),
            FileRead::Content(data) => {
                &&& digest_of(data@) == digest ==> blob_read(read, digest) == Ok::<
                    Seq<u8>,
                    ImageErrorModel,
                >(data@)
                &&& digest_of(data@) != digest ==> blob_read(read, digest) == Err::<
                    Seq<u8>,
                    ImageErrorModel,
                >(
                    ImageErrorModel::ContentVerificationError {
                        expected: digest,
                        actual: digest_of(data@),
                    },
                )
            },
        },
{
}

/// An image need not be pulled only where each of its blobs is there and has its digest.
pub proof fn images_are_intact_with_every_blob(blobs: Seq<(String, FileRead)>, i: int)
    requires
        0 <= i < blobs.len(),
    ensures
        all_verify(blobs) ==> (blobs[i].1 matches FileRead::Content(data) && digest_of(data@)
            == blobs[i].0@),
        !(blobs[i].1 is Content) ==> !all_verify(blobs),
{
}

/// A file that lies three names deep is listed as a blob, by the first and the last of the
/// names, with its own path, size and time; any other file is not.
pub proof fn files_are_listed_by_their_place(
    files: Seq<FoundFile>,
    file: FoundFile,
)
    ensures
        names(file.relative@).len() != 3 ==> listed_blobs(files.push(file)) == listed_blobs(files),
        names(file.relative@).len() == 3 ==> listed_blobs(files.push(file)) == listed_blobs(
            files,
        ).push(
            StoredBlobModel {
                digest: names(file.relative@)[0] + ":"@ + names(file.relative@)[2],
                path: file.path@,
                size_bytes: file.size_bytes,
                modified_at: file.modified_at,
            },
        ),
        listed_blobs(Seq::<FoundFile>::empty()).len() == 0,
{
    assert(files.push(file).drop_last() =~= files);
}

/// The file of a reference lies below the directory of the references, under its registry
/// and its repository, and is named by its digest where it has one and else by its tag, with
/// an underscore for a colon.
pub proof fn references_lie_below_their_repository(metadata: Seq<char>, reference: ReferenceModel)
    ensures
        reference.digest matches Some(digest) ==> reference_file(metadata, reference)
            == path_joined(
            path_joined(path_joined(metadata, reference.registry), reference.repository),
            replaced(digest, ':', '_'),
        ),
        reference.digest is None ==> reference_file(metadata, reference) == path_joined(
            path_joined(path_joined(metadata, reference.registry), reference.repository),
            replaced(reference.tag, ':', '_'),
        ),
{
}

/// A reference resolves to what its file holds, without the white space around it, and to
/// nothing where there is no file.
pub proof fn references_resolve_to_their_file(read: Result<Option<Seq<char>>, Seq<char>>)
    ensures
        match read {
            Ok(Some(text)) => reference_digest(read) == Ok::<Option<Seq<char>>, ImageErrorModel>(
                Some(trimmed(text)),
            ),
            Ok(None) => reference_digest(read) == Ok::<Option<Seq<char>>, ImageErrorModel>(None),
            Err(problem) => reference_digest(read) == Err::<Option<Seq<char>>, ImageErrorModel>(
                ImageErrorModel::Io(problem),
            ),
        },
{
}

/// A blob is planned to be where it is looked for: under the digest of its content, with the
/// content written exactly where the file does not hold it yet. What is there instead is
/// taken away first, and the content is written beside its file before it is put there.
pub proof fn blobs_are_planned_where_they_are_looked_for(
    plan: BlobPlan,
    base: Seq<char>,
    data: Seq<u8>,
    existing: FileRead,
)
    requires
        plans_blob(plan, base, data, existing),
        is_content_digest(digest_of(data)),
    ensures
        plan.digest@ == digest_of(data),
        plan.path@ == blob_file(base, plan.digest@),
        existing matches FileRead::Content(found) ==> (plan.write is None <==> digest_of(found@)
            == digest_of(data)),
        !(existing is Content) ==> plan.write is Some,
        plan.write matches Some(write) ==> {
            &&& write.remove_existing <==> !(existing is Missing)
            &&& write.directory.deep_view() == parent_of(plan.path@)
            &&& write.temporary@ != plan.path@
        },
{
    blobs_do_not_share_files(base, digest_of(data), digest_of(data));
}

/// A reference that is stored resolves to the manifest: what is written to its file is the
/// digest, and that is what is read there.
pub proof fn references_are_written_to_be_read(
    write: ReferenceWrite,
    metadata: Seq<char>,
    reference: ReferenceModel,
    manifest_digest: Seq<char>,
)
    requires
        names_manifest(write, metadata, reference, manifest_digest),
        manifest_digest.len() > 0 ==> !white_space(manifest_digest[0]) && !white_space(
            manifest_digest.last(),
        ),
    ensures
        write.metadata@ == metadata,
        write.path@ == reference_file(metadata, reference),
        write.directory.deep_view() == parent_of(reference_file(metadata, reference)),
        reference_digest(Ok(Some(write.content@))) == Ok::<Option<Seq<char>>, ImageErrorModel>(
            Some(manifest_digest),
        ),
{
    stored_references_resolve(Map::empty(), metadata, reference, manifest_digest);
}

/// A digest that does not say its algorithm is one of SHA-256: its blob is at the same place.
pub proof fn bare_hashes_are_of_sha256(base: Seq<char>, hash: Seq<char>)
    requires
        !hash.contains(':'),
    ensures
        blob_file(base, hash) == blob_file(base, "sha256"@ + seq![':'] + hash),
        has_place(hash) == has_place("sha256"@ + seq![':'] + hash),
{
    reveal_strlit("sha256");
    let algorithm = "sha256"@;
    assert(!algorithm.contains(':')) by {
        if algorithm.contains(':') {
            let i = algorithm.index_of(':');
            assert(algorithm[i] == ':');
        }
    }
    texts_are_cut_at_the_first(algorithm, ':', hash);
    texts_are_cut_at_the_first(hash, ':', hash);
}

/// The blob of a digest lies below a directory for its algorithm and one for the first two
/// signs of its hash, under the hash.
pub proof fn blobs_lie_below_their_algorithm(
    base: Seq<char>,
    algorithm: Seq<char>,
    hash: Seq<char>,
)
    requires
        !algorithm.contains(':'),
        hash.len() >= 2,
        (hash[0] as u32) < 0x80,
        (hash[1] as u32) < 0x80,
    ensures
        has_place(algorithm + seq![':'] + hash),
        blob_file(base, algorithm + seq![':'] + hash) == path_joined(
            path_joined(path_joined(base, algorithm), hash.take(2)),
            hash,
        ),
{
    texts_are_cut_at_the_first(algorithm, ':', hash);
}

} // verus!
