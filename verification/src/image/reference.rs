//! Image references: `[registry/]repository[:tag][@digest]`.
use crate::path::last_slash;
use crate::text::{chars_of, contains_char, copy_option, cut, find_from, glue, glue3, glue5};
use crate::text::{index_from, is_empty, lemma_index_from, lemma_index_from_unique, outcome};
use crate::text::{same_text, split_once, text_of, texts_are_cut_at_the_first};
use vstd::prelude::*;

verus! {

/// A reference to an image in a registry.
#[derive(Debug)]
pub struct ImageReference {
    pub registry: String,
    pub repository: String,
    pub tag: String,
    pub digest: Option<String>,
}

/// An [`ImageReference`] as a mathematical value.
#[verifier::ext_equal]
pub struct ReferenceModel {
    pub registry: Seq<char>,
    pub repository: Seq<char>,
    pub tag: Seq<char>,
    pub digest: Option<Seq<char>>,
}

impl DeepView for ImageReference {
    type V = ReferenceModel;

    open spec fn deep_view(&self) -> ReferenceModel {
        ReferenceModel {
            registry: self.registry@,
            repository: self.repository@,
            tag: self.tag@,
            digest: self.digest.deep_view(),
        }
    }
}

impl Clone for ImageReference {
    fn clone(&self) -> (copy: Self)
        ensures
            copy.deep_view() == self.deep_view(),
    {
        ImageReference {
            registry: self.registry.clone(),
            repository: self.repository.clone(),
            tag: self.tag.clone(),
            digest: copy_option(&self.digest),
        }
    }
}

/// The first component of a reference is a host.
pub open spec fn is_host(first: Seq<char>) -> bool {
    first.contains('.') || first.contains(':') || first == "localhost"@
}

/// The registry of a reference and the rest of it.
pub open spec fn registry_and_rest(name: Seq<char>) -> (Seq<char>, Seq<char>) {
    match cut(name, '/') {
        Some((first, rest)) => if is_host(first) {
            (first, rest)
        } else {
            ("docker.io"@, name)
        },
        None => ("docker.io"@, name),
    }
}

/// The path and the tag of a reference without its registry. A colon counts only
/// after the last slash.
pub open spec fn path_and_tag(rest: Seq<char>) -> (Seq<char>, Seq<char>) {
    let colon = index_from(rest, ':', last_slash(rest, rest.len() as int) + 1);
    if colon < rest.len() {
        (rest.take(colon), rest.skip(colon + 1))
    } else {
        (rest, "latest"@)
    }
}

/// The reference that a text stands for.
pub open spec fn parsed(text: Seq<char>) -> Result<ReferenceModel, Seq<char>> {
    let (name, digest) = match cut(text, '@') {
        Some((name, digest)) => (name, Some(digest)),
        None => (text, None),
    };
    let (registry, rest) = registry_and_rest(name);
    let (path, tag) = path_and_tag(rest);
    if path.len() == 0 {
        Err("Image reference '"@ + text + "' has no repository"@)
    } else if tag.contains(':') {
        Err("Image reference '"@ + text + "' has an invalid tag"@)
    } else {
        Ok(
            ReferenceModel {
                registry,
                repository: if registry == "docker.io"@ && !path.contains('/') {
                    "library/"@ + path
                } else {
                    path
                },
                tag,
                digest,
            },
        )
    }
}

/// The text of a reference.
pub open spec fn reference_text(reference: ReferenceModel) -> Seq<char> {
    match reference.digest {
        Some(digest) => reference.registry + "/"@ + reference.repository + "@"@ + digest,
        None => reference.registry + "/"@ + reference.repository + ":"@ + reference.tag,
    }
}

/// The tag or digest by which a registry knows the image.
pub open spec fn tag_or_digest(reference: ReferenceModel) -> Seq<char> {
    match reference.digest {
        Some(digest) => digest,
        None => reference.tag,
    }
}

/// Where the registry of a reference is reached.
pub open spec fn endpoint(registry: Seq<char>) -> Seq<char> {
    if registry == "docker.io"@ {
        "https://registry-1.docker.io"@
    } else {
        "https://"@ + registry
    }
}

/// The place after the last slash.
fn after_slash(chars: &Vec<char>) -> (start: usize)
    ensures
        start <= chars@.len(),
        start == last_slash(chars@, chars@.len() as int) + 1,
{
    let mut at: usize = chars.len();
    while at > 0 && chars[at - 1] != '/'
        invariant
            at <= chars@.len(),
            last_slash(chars@, chars@.len() as int) == last_slash(chars@, at as int),
        decreases at,
    {
        at = at - 1;
    }
    at
}

/// The same image at a given digest.
pub open spec fn at_digest(reference: ReferenceModel, digest: Seq<char>) -> ReferenceModel {
    ReferenceModel { digest: Some(digest), ..reference }
}

impl ImageReference {
    /// The reference that a text stands for.
    pub fn parse(text: &str) -> (result: Result<Self, String>)
        ensures
            outcome(result) == parsed(text@),
    {
        let (name, digest) = match split_once(text, '@') {
            Some((name, digest)) => (name, Some(digest)),
            None => (text.to_string(), None),
        };
        let (registry, rest) = match split_once(&name, '/') {
            Some((first, rest)) => {
                if contains_char(&first, '.') || contains_char(&first, ':') || same_text(
                    &first,
                    "localhost",
                ) {
                    (first, rest)
                } else {
                    ("docker.io".to_string(), name.clone())
                }
            },
            None => ("docker.io".to_string(), name.clone()),
        };
        let chars = chars_of(&rest);
        let start = after_slash(&chars);
        let colon = find_from(&chars, ':', start);
        let (path, tag) = if colon < chars.len() {
            let path = text_of(&chars, 0, colon);
            let tag = text_of(&chars, colon + 1, chars.len());
            assert(path@ =~= rest@.take(colon as int));
            assert(tag@ =~= rest@.skip(colon + 1));
            (path, tag)
        } else {
            (rest.clone(), "latest".to_string())
        };
        if is_empty(&path) {
            return Err(glue3("Image reference '", text, "' has no repository"));
        }
        if contains_char(&tag, ':') {
            return Err(glue3("Image reference '", text, "' has an invalid tag"));
        }
        let repository = if same_text(&registry, "docker.io") && !contains_char(&path, '/') {
            glue("library/", &path)
        } else {
            path
        };
        Ok(ImageReference { registry, repository, tag, digest })
    }

    /// The text of the reference.
    pub fn to_text(&self) -> (text: String)
        ensures
            text@ == reference_text(self.deep_view()),
    {
        match &self.digest {
            Some(digest) => glue5(&self.registry, "/", &self.repository, "@", digest),
            None => glue5(&self.registry, "/", &self.repository, ":", &self.tag),
        }
    }

    /// The tag or digest by which a registry knows the image.
    pub fn api_reference(&self) -> (text: String)
        ensures
            text@ == tag_or_digest(self.deep_view()),
    {
        match &self.digest {
            Some(digest) => digest.clone(),
            None => self.tag.clone(),
        }
    }

    /// Where the registry of the reference is reached.
    pub fn api_endpoint(&self) -> (text: String)
        ensures
            text@ == endpoint(self.registry@),
    {
        if same_text(&self.registry, "docker.io") {
            "https://registry-1.docker.io".to_string()
        } else {
            glue("https://", &self.registry)
        }
    }

    /// The same image at a given digest.
    pub fn with_digest(&self, digest: &str) -> (reference: Self)
        ensures
            reference.deep_view() == (ReferenceModel {
                digest: Some(digest@),
                ..self.deep_view()
            }),
            reference.deep_view() == at_digest(self.deep_view(), digest@),
    {
        ImageReference {
            registry: self.registry.clone(),
            repository: self.repository.clone(),
            tag: self.tag.clone(),
            digest: Some(digest.to_string()),
        }
    }
}

/// The slash that was found is the last.
proof fn lemma_last_slash(path: Seq<char>, end: int)
    requires
        0 <= end <= path.len(),
    ensures
        -1 <= last_slash(path, end) < end,
        last_slash(path, end) >= 0 ==> path[last_slash(path, end)] == '/',
        forall|i: int| last_slash(path, end) < i < end ==> path[i] != '/',
    decreases end,
{
    if end > 0 && path[end - 1] != '/' {
        lemma_last_slash(path, end - 1);
    }
}

/// The parts of a reference that was read are apart: the registry holds no slash, the
/// repository no at sign, and the tag neither a colon nor a slash nor an at sign.
pub proof fn parsed_parts_are_apart(text: Seq<char>)
    ensures
        parsed(text) matches Ok(reference) ==> {
            &&& !reference.registry.contains('/')
            &&& !reference.repository.contains('@')
            &&& !reference.tag.contains(':')
            &&& !reference.tag.contains('/')
            &&& !reference.tag.contains('@')
        },
{
    reveal_strlit("docker.io");
    reveal_strlit("library/");
    reveal_strlit("latest");
    lemma_index_from(text, '@', 0);
    let name = match cut(text, '@') {
        Some((name, _)) => name,
        None => text,
    };
    assert(!name.contains('@')) by {
        if name.contains('@') {
            let i = name.index_of('@');
            assert(text[i] == '@');
        }
    }
    lemma_index_from(name, '/', 0);
    let (registry, rest) = registry_and_rest(name);
    assert(!registry.contains('/')) by {
        if registry.contains('/') {
            let i = registry.index_of('/');
            assert(registry[i] == '/');
        }
    }
    assert(!rest.contains('@')) by {
        if rest.contains('@') {
            let i = rest.index_of('@');
            assert(name[name.len() - rest.len() + i] == '@');
        }
    }
    let slash = last_slash(rest, rest.len() as int);
    lemma_last_slash(rest, rest.len() as int);
    lemma_index_from(rest, ':', slash + 1);
    let (path, tag) = path_and_tag(rest);
    let colon = index_from(rest, ':', slash + 1);
    if colon < rest.len() {
        assert forall|i: int| 0 <= i < tag.len() implies tag[i] == rest[colon + 1 + i] by {}
        if tag.contains('/') {
            let i = tag.index_of('/');
            assert(rest[colon + 1 + i] == '/');
        }
        if tag.contains('@') {
            let i = tag.index_of('@');
            assert(rest.contains(rest[colon + 1 + i]));
        }
    }
    assert(!path.contains('@')) by {
        if path.contains('@') {
            let i = path.index_of('@');
            assert(rest.contains(rest[i]));
        }
    }
    let whole = "library/"@ + path;
    if whole.contains('@') {
        let i = whole.index_of('@');
        assert(path.contains(path[i - 8]));
    }
}

/// The path and the tag of what follows the registry.
proof fn lemma_path_and_tag(path: Seq<char>, tag: Seq<char>)
    requires
        !path.contains(':'),
        !tag.contains('/'),
    ensures
        path_and_tag(path + seq![':'] + tag) == (path, tag),
        path_and_tag(path) == (path, "latest"@),
{
    let whole = path + seq![':'] + tag;
    let slash = last_slash(whole, whole.len() as int);
    lemma_last_slash(whole, whole.len() as int);
    assert(slash < path.len()) by {
        if slash > path.len() {
            assert(whole[slash] == tag[slash - path.len() - 1]);
            assert(tag.contains('/'));
        }
    }
    assert forall|i: int| slash + 1 <= i < path.len() implies whole[i] != ':' by {
        assert(path.contains(path[i]));
    }
    lemma_index_from_unique(whole, ':', slash + 1, path.len() as int);
    assert(whole.take(path.len() as int) =~= path);
    assert(whole.skip(path.len() as int + 1) =~= tag);
    let own = last_slash(path, path.len() as int);
    lemma_last_slash(path, path.len() as int);
    assert forall|i: int| own + 1 <= i < path.len() implies path[i] != ':' by {
        assert(path.contains(path[i]));
    }
    lemma_index_from_unique(path, ':', own + 1, path.len() as int);
}

proof fn lemma_no_at(a: Seq<char>, c: char, b: Seq<char>)
    requires
        !a.contains('@'),
        !b.contains('@'),
        c != '@',
    ensures
        !(a + seq![c] + b).contains('@'),
{
    let whole = a + seq![c] + b;
    if whole.contains('@') {
        let i = whole.index_of('@');
        assert(whole[i] == '@');
        if i < a.len() {
            assert(a[i] == '@');
        } else if i > a.len() {
            assert(b[i - a.len() - 1] == '@');
        }
    }
}

/// A reference that says everything is read as it is: the registry before the first
/// slash, the repository, and the tag after the colon or the digest after the at sign.
/// Without a tag it is the latest one.
pub proof fn whole_references_are_read(
    registry: Seq<char>,
    path: Seq<char>,
    tag: Seq<char>,
    digest: Seq<char>,
)
    requires
        registry.contains('.') || registry.contains(':') || registry == "localhost"@,
        !registry.contains('/'),
        !registry.contains('@'),
        path.len() > 0,
        !path.contains(':'),
        !path.contains('@'),
        !tag.contains(':'),
        !tag.contains('/'),
        !tag.contains('@'),
    ensures
        ({
            let repository = if registry == "docker.io"@ && !path.contains('/') {
                "library/"@ + path
            } else {
                path
            };
            let name = registry + seq!['/'] + path;
            &&& parsed(name + seq![':'] + tag) == Ok::<ReferenceModel, Seq<char>>(
                ReferenceModel { registry, repository, tag, digest: None },
            )
            &&& parsed(name) == Ok::<ReferenceModel, Seq<char>>(
                ReferenceModel { registry, repository, tag: "latest"@, digest: None },
            )
            &&& parsed(name + seq!['@'] + digest) == Ok::<ReferenceModel, Seq<char>>(
                ReferenceModel { registry, repository, tag: "latest"@, digest: Some(digest) },
            )
            &&& parsed(name + seq![':'] + tag + seq!['@'] + digest) == Ok::<
                ReferenceModel,
                Seq<char>,
            >(ReferenceModel { registry, repository, tag, digest: Some(digest) })
        }),
{
    reveal_strlit("latest");
    let name = registry + seq!['/'] + path;
    let tagged = name + seq![':'] + tag;
    let rest = path + seq![':'] + tag;
    assert(tagged =~= registry + seq!['/'] + rest);
    lemma_no_at(registry, '/', path);
    lemma_no_at(name, ':', tag);
    texts_are_cut_at_the_first(name, '@', digest);
    texts_are_cut_at_the_first(tagged, '@', digest);
    texts_are_cut_at_the_first(registry, '/', path);
    texts_are_cut_at_the_first(registry, '/', rest);
    lemma_path_and_tag(path, tag);
}

/// A reference without a registry is one of Docker's: a single name is one of its library,
/// and a name with a slash is itself, where what stands before the slash is no host.
pub proof fn short_references_are_read(first: Seq<char>, path: Seq<char>, tag: Seq<char>)
    requires
        first.len() > 0,
        !first.contains('/'),
        !first.contains('@'),
        !first.contains(':'),
        !first.contains('.'),
        first != "localhost"@,
        !path.contains(':'),
        !path.contains('@'),
        !tag.contains(':'),
        !tag.contains('/'),
        !tag.contains('@'),
    ensures
        parsed(first) == Ok::<ReferenceModel, Seq<char>>(
            ReferenceModel {
                registry: "docker.io"@,
                repository: "library/"@ + first,
                tag: "latest"@,
                digest: None,
            },
        ),
        parsed(first + seq![':'] + tag) == Ok::<ReferenceModel, Seq<char>>(
            ReferenceModel {
                registry: "docker.io"@,
                repository: "library/"@ + first,
                tag,
                digest: None,
            },
        ),
        parsed(first + seq!['/'] + path + seq![':'] + tag) == Ok::<ReferenceModel, Seq<char>>(
            ReferenceModel {
                registry: "docker.io"@,
                repository: first + seq!['/'] + path,
                tag,
                digest: None,
            },
        ),
{
    reveal_strlit("latest");
    let tagged = first + seq![':'] + tag;
    let name = first + seq!['/'] + path;
    let whole = name + seq![':'] + tag;
    lemma_no_at(first, ':', tag);
    lemma_no_at(first, '/', path);
    lemma_no_at(name, ':', tag);
    texts_are_cut_at_the_first(first, '@', tag);
    texts_are_cut_at_the_first(tagged, '@', tag);
    texts_are_cut_at_the_first(whole, '@', tag);
    texts_are_cut_at_the_first(first, '/', tag);
    assert(!tagged.contains('/')) by {
        if tagged.contains('/') {
            let i = tagged.index_of('/');
            assert(tagged[i] == '/');
            if i < first.len() {
                assert(first[i] == '/');
            } else if i > first.len() {
                assert(tag[i - first.len() - 1] == '/');
            }
        }
    }
    texts_are_cut_at_the_first(tagged, '/', tag);
    assert(whole =~= first + seq!['/'] + (path + seq![':'] + tag));
    texts_are_cut_at_the_first(first, '/', path + seq![':'] + tag);
    assert(!name.contains(':')) by {
        if name.contains(':') {
            let i = name.index_of(':');
            assert(name[i] == ':');
            if i < first.len() {
                assert(first[i] == ':');
            } else if i > first.len() {
                assert(path[i - first.len() - 1] == ':');
            }
        }
    }
    lemma_path_and_tag(first, tag);
    lemma_path_and_tag(name, tag);
    assert(name[first.len() as int] == '/');
}

/// The text of a reference reads back as the reference, where it came from a text: by
/// its digest where it has one, and by its tag otherwise.
pub proof fn references_read_back(reference: ReferenceModel)
    requires
        reference.registry.contains('.') || reference.registry.contains(':')
            || reference.registry == "localhost"@,
        !reference.registry.contains('/'),
        !reference.registry.contains('@'),
        reference.repository.len() > 0,
        !reference.repository.contains(':'),
        !reference.repository.contains('@'),
        reference.registry == "docker.io"@ ==> reference.repository.contains('/'),
        !reference.tag.contains(':'),
        !reference.tag.contains('/'),
        !reference.tag.contains('@'),
    ensures
        parsed(reference_text(reference)) matches Ok(read) && {
            &&& read.registry == reference.registry
            &&& read.repository == reference.repository
            &&& read.digest == reference.digest
            &&& reference.digest is None ==> read.tag == reference.tag
        },
{
    reveal_strlit("/");
    reveal_strlit(":");
    reveal_strlit("@");
    assert("/"@ =~= seq!['/']);
    assert(":"@ =~= seq![':']);
    assert("@"@ =~= seq!['@']);
    let digest = match reference.digest {
        Some(digest) => digest,
        None => seq![],
    };
    whole_references_are_read(
        reference.registry,
        reference.repository,
        reference.tag,
        digest,
    );
}

/// A registry is asked by the digest of a reference where it has one, and by its tag
/// otherwise, at the registry's own host; Docker's is reached under another name.
pub proof fn registries_are_asked_by_version(reference: ReferenceModel)
    ensures
        reference.digest matches Some(digest) ==> tag_or_digest(reference) == digest,
        reference.digest is None ==> tag_or_digest(reference) == reference.tag,
        reference.registry == "docker.io"@ ==> endpoint(reference.registry)
            == "https://registry-1.docker.io"@,
        reference.registry != "docker.io"@ ==> endpoint(reference.registry) == "https://"@
            + reference.registry,
{
}

/// An image at a digest is asked for by that digest, at the same registry and in the same
/// repository, whatever version was asked for before.
pub proof fn images_at_a_digest_are_asked_for_by_it(reference: ReferenceModel, digest: Seq<char>)
    ensures
        at_digest(reference, digest).registry == reference.registry,
        at_digest(reference, digest).repository == reference.repository,
        at_digest(reference, digest).tag == reference.tag,
        at_digest(reference, digest).digest == Some(digest),
        tag_or_digest(at_digest(reference, digest)) == digest,
{
}

/// What a reference says is in its fields.
pub proof fn references_say_their_fields(reference: ImageReference)
    ensures
        reference.deep_view().registry == reference.registry@,
        reference.deep_view().repository == reference.repository@,
        reference.deep_view().tag == reference.tag@,
        reference.digest matches Some(digest) ==> reference.deep_view().digest == Some(digest@),
        reference.digest is None ==> reference.deep_view().digest is None,
{
}

} // verus!
