//! Pulling images: addresses, answers, and the verification of what was downloaded.
//!
//! - `GET /v2/<name>/manifests/<reference>` gets a manifest
//! - `GET /v2/<name>/blobs/<digest>` gets a blob
use crate::digest::{content_digest, digest_of};
use crate::error::registry_error_text;
use crate::image::reference::{endpoint, tag_or_digest, ImageReference, ReferenceModel};
use crate::image::store::{verifies, FileRead};
use crate::image::MediaType;
use crate::number::{parse_decimal, read_decimal};
use crate::registry::auth::{docker_credentials, DockerLogin, RegistryAuth};
use crate::text::{begins, ends, glue, glue3, glue5, join_all, joined, same_text};
use vstd::prelude::*;

verus! {

// ---------------------------------------------------------------------------
// Events, options and errors
// ---------------------------------------------------------------------------
/// Events during a pull.
#[derive(Debug)]
pub enum PullEvent {
    /// Starting to pull.
    Started { reference: String },
    /// Resolving the manifest.
    ResolvingManifest,
    /// The manifest is resolved.
    ManifestResolved { digest: String, layers: usize },
    /// A layer is being downloaded.
    DownloadingLayer { digest: String, current: usize, total: usize },
    /// A layer is there.
    LayerDownloaded { digest: String, size: u64, cached: bool },
    /// The pull is complete.
    Complete { digest: String, size: u64 },
    /// The pull failed.
    Error { message: String },
}

/// A [`PullEvent`] as a mathematical value.
#[verifier::ext_equal]
pub enum PullEventModel {
    Started { reference: Seq<char> },
    ResolvingManifest,
    ManifestResolved { digest: Seq<char>, layers: int },
    DownloadingLayer { digest: Seq<char>, current: int, total: int },
    LayerDownloaded { digest: Seq<char>, size: int, cached: bool },
    Complete { digest: Seq<char>, size: int },
    Error { message: Seq<char> },
}

impl DeepView for PullEvent {
    type V = PullEventModel;

    open spec fn deep_view(&self) -> PullEventModel {
        match self {
            PullEvent::Started { reference } => PullEventModel::Started { reference: reference@ },
            PullEvent::ResolvingManifest => PullEventModel::ResolvingManifest,
            PullEvent::ManifestResolved { digest, layers } => PullEventModel::ManifestResolved {
                digest: digest@,
                layers: *layers as int,
            },
            PullEvent::DownloadingLayer { digest, current, total } => {
                PullEventModel::DownloadingLayer {
                    digest: digest@,
                    current: *current as int,
                    total: *total as int,
                }
            },
            PullEvent::LayerDownloaded { digest, size, cached } => PullEventModel::LayerDownloaded {
                digest: digest@,
                size: *size as int,
                cached: *cached,
            },
            PullEvent::Complete { digest, size } => PullEventModel::Complete {
                digest: digest@,
                size: *size as int,
            },
            PullEvent::Error { message } => PullEventModel::Error { message: message@ },
        }
    }
}

/// Options for a pull.
#[derive(Debug, Clone, Copy)]
pub struct PullOptions {
    /// Download again what is there already.
    pub force: bool,
    /// How many layers are downloaded at a time.
    pub max_concurrent: usize,
}

impl Default for PullOptions {
    fn default() -> (options: Self)
        ensures
            !options.force,
            options.max_concurrent == 0,
    {
        PullOptions { force: false, max_concurrent: 0 }
    }
}

/// How many layers are downloaded at a time: at least one.
pub open spec fn permits_for(max_concurrent: usize) -> usize {
    if max_concurrent > 1 {
        max_concurrent
    } else {
        1
    }
}

impl PullOptions {
    /// How many layers are downloaded at a time: at least one.
    pub fn concurrency(&self) -> (permits: usize)
        ensures
            permits == if self.max_concurrent > 1 {
                self.max_concurrent
            } else {
                1
            },
            permits == permits_for(self.max_concurrent),
    {
        if self.max_concurrent > 1 {
            self.max_concurrent
        } else {
            1
        }
    }
}

/// What can go wrong with a registry.
#[derive(Debug)]
pub enum RegistryError {
    AuthError(String),
    ManifestNotFound(String),
    /// Too many requests: the seconds to wait.
    RateLimited(u64),
    InvalidResponse(String),
    /// A request, a file or a JSON text failed, with this message.
    Other(String),
}

/// A [`RegistryError`] as a mathematical value.
#[verifier::ext_equal]
pub enum RegistryErrorModel {
    AuthError(Seq<char>),
    ManifestNotFound(Seq<char>),
    RateLimited(nat),
    InvalidResponse(Seq<char>),
    Other(Seq<char>),
}

impl DeepView for RegistryError {
    type V = RegistryErrorModel;

    open spec fn deep_view(&self) -> RegistryErrorModel {
        match self {
            RegistryError::AuthError(message) => RegistryErrorModel::AuthError(message@),
            RegistryError::ManifestNotFound(what) => RegistryErrorModel::ManifestNotFound(what@),
            RegistryError::RateLimited(seconds) => RegistryErrorModel::RateLimited(
                *seconds as nat,
            ),
            RegistryError::InvalidResponse(message) => RegistryErrorModel::InvalidResponse(
                message@,
            ),
            RegistryError::Other(message) => RegistryErrorModel::Other(message@),
        }
    }
}

/// A check's verdict as a mathematical value.
pub open spec fn verdict(result: Result<(), RegistryError>) -> Option<RegistryErrorModel> {
    match result {
        Ok(_) => None,
        Err(problem) => Some(problem.deep_view()),
    }
}

// ---------------------------------------------------------------------------
// The client
// ---------------------------------------------------------------------------
/// What a client tells every registry, and what it knows to tell particular ones.
pub struct RegistryClient {
    auth: RegistryAuth,
    user_agent: String,
}

impl RegistryClient {
    /// How the client calls itself.
    pub closed spec fn agent(self) -> Seq<char> {
        self.user_agent@
    }

    /// The credentials it has.
    pub closed spec fn known_credentials(self) -> Map<Seq<char>, (Seq<char>, Seq<char>)> {
        self.auth@
    }

    /// A client of the given version, with the credentials that Docker keeps.
    pub fn new(version: &str, logins: &Vec<DockerLogin>) -> (client: Self)
        ensures
            client.agent() == "quilt/"@ + version@,
            client.known_credentials() == docker_credentials(
                logins.deep_view(),
                logins@.len() as int,
            ),
    {
        RegistryClient {
            auth: RegistryAuth::from_docker(logins),
            user_agent: glue("quilt/", version),
        }
    }

    /// Sets the credentials for a registry.
    pub fn set_registry_credentials(&mut self, registry: &str, username: &str, password: &str)
        ensures
            final(self).agent() == old(self).agent(),
            final(self).known_credentials() == old(self).known_credentials().insert(
                registry@,
                (username@, password@),
            ),
    {
        self.auth.set_credentials(registry, username, password);
    }

    /// How the client calls itself.
    pub fn user_agent(&self) -> (text: &str)
        ensures
            text@ == self.agent(),
    {
        &self.user_agent
    }

    /// The credentials it has.
    pub fn auth(&self) -> (auth: &RegistryAuth)
        ensures
            auth@ == self.known_credentials(),
    {
        &self.auth
    }
}

// ---------------------------------------------------------------------------
// Addresses
// ---------------------------------------------------------------------------
/// Where a manifest is found.
pub open spec fn manifest_address(reference: ReferenceModel) -> Seq<char> {
    endpoint(reference.registry) + "/v2/"@ + reference.repository + "/manifests/"@
        + tag_or_digest(reference)
}

/// Where a manifest is found.
pub fn manifest_url(reference: &ImageReference) -> (url: String)
    ensures
        url@ == manifest_address(reference.deep_view()),
{
    glue5(
        &reference.api_endpoint(),
        "/v2/",
        &reference.repository,
        "/manifests/",
        &reference.api_reference(),
    )
}

/// Where a blob is found.
pub open spec fn blob_address(reference: ReferenceModel, digest: Seq<char>) -> Seq<char> {
    endpoint(reference.registry) + "/v2/"@ + reference.repository + "/blobs/"@ + digest
}

/// Where a blob is found.
pub fn blob_url(reference: &ImageReference, digest: &str) -> (url: String)
    ensures
        url@ == blob_address(reference.deep_view(), digest@),
{
    glue5(&reference.api_endpoint(), "/v2/", &reference.repository, "/blobs/", digest)
}

/// The kinds of manifests that are understood.
pub open spec fn manifest_types() -> Seq<Seq<char>> {
    seq![
        MediaType::OciManifest.name(),
        MediaType::OciIndex.name(),
        MediaType::DockerManifestV2.name(),
        MediaType::DockerManifestList.name(),
    ]
}

/// The kinds of manifests that are understood, as a registry is told them.
pub fn accepted_manifests() -> (text: String)
    ensures
        text@ == joined(manifest_types(), ", "@),
{
    let mut types: Vec<String> = Vec::new();
    types.push(MediaType::OciManifest.to_text());
    types.push(MediaType::OciIndex.to_text());
    types.push(MediaType::DockerManifestV2.to_text());
    types.push(MediaType::DockerManifestList.to_text());
    assert(types.deep_view() =~= manifest_types());
    join_all(&types, ", ")
}

/// How a token is presented.
pub open spec fn presented(token: Seq<char>) -> Seq<char> {
    "Bearer "@ + token
}

/// How a token is presented.
pub fn bearer(token: &str) -> (text: String)
    ensures
        text@ == "Bearer "@ + token@,
        text@ == presented(token@),
{
    glue("Bearer ", token)
}

// ---------------------------------------------------------------------------
// Answers
// ---------------------------------------------------------------------------
/// A registry's answer. The body is only looked at where the answer is a failure
/// that has no meaning of its own.
#[derive(Debug)]
pub struct Reply {
    pub status: u16,
    /// The status with its reason, as it is shown.
    pub status_text: String,
    pub www_authenticate: Option<String>,
    pub retry_after: Option<String>,
    pub body: String,
}

/// What to do after the first answer.
#[derive(Debug)]
pub enum RequestStep {
    /// The answer is what was asked for.
    Done,
    /// Ask again with a token for this challenge.
    Authenticate(String),
}

/// A [`RequestStep`] as a mathematical value.
#[verifier::ext_equal]
pub enum RequestStepModel {
    Done,
    Authenticate(Seq<char>),
}

impl DeepView for RequestStep {
    type V = RequestStepModel;

    open spec fn deep_view(&self) -> RequestStepModel {
        match self {
            RequestStep::Done => RequestStepModel::Done,
            RequestStep::Authenticate(challenge) => RequestStepModel::Authenticate(challenge@),
        }
    }
}

/// A status that tells of success.
pub open spec fn is_success(status: u16) -> bool {
    200 <= status < 300
}

/// The complaint about an answer without a meaning of its own.
pub open spec fn bad_status(reply: Reply) -> RegistryErrorModel {
    RegistryErrorModel::InvalidResponse(reply.status_text@ + ": "@ + reply.body@)
}

/// What to do after the first answer, which was asked for without a token.
pub open spec fn after_first(url: Seq<char>, reply: Reply) -> Result<
    RequestStepModel,
    RegistryErrorModel,
> {
    if reply.status == 401 {
        match reply.www_authenticate {
            Some(challenge) => Ok(RequestStepModel::Authenticate(challenge@)),
            None => Err(RegistryErrorModel::AuthError("No WWW-Authenticate header"@)),
        }
    } else if is_success(reply.status) {
        Ok(RequestStepModel::Done)
    } else if reply.status == 404 {
        Err(RegistryErrorModel::ManifestNotFound(url))
    } else {
        Err(bad_status(reply))
    }
}

/// What to do after the first answer, which was asked for without a token.
pub fn check_first_reply(url: &str, reply: &Reply) -> (result: Result<RequestStep, RegistryError>)
    ensures
        match after_first(url@, *reply) {
            Ok(step) => result matches Ok(found) && found.deep_view() == step,
            Err(problem) => result matches Err(error) && error.deep_view() == problem,
        },
{
    if reply.status == 401 {
        match &reply.www_authenticate {
            Some(challenge) => Ok(RequestStep::Authenticate(challenge.clone())),
            None => Err(RegistryError::AuthError("No WWW-Authenticate header".to_string())),
        }
    } else if 200 <= reply.status && reply.status < 300 {
        Ok(RequestStep::Done)
    } else if reply.status == 404 {
        Err(RegistryError::ManifestNotFound(url.to_string()))
    } else {
        Err(RegistryError::InvalidResponse(glue3(&reply.status_text, ": ", &reply.body)))
    }
}

/// The seconds to wait that an answer asks for; a minute where it does not say.
pub open spec fn wait_seconds(reply: Reply) -> nat {
    match reply.retry_after {
        Some(text) => match read_decimal(text@, u64::MAX as nat) {
            Some(seconds) => seconds,
            None => 60,
        },
        None => 60,
    }
}

/// What is wrong with the second answer, which was asked for with a token.
pub open spec fn after_second(url: Seq<char>, reply: Reply) -> Option<RegistryErrorModel> {
    if is_success(reply.status) {
        None
    } else if reply.status == 404 {
        Some(RegistryErrorModel::ManifestNotFound(url))
    } else if reply.status == 429 {
        Some(RegistryErrorModel::RateLimited(wait_seconds(reply)))
    } else {
        Some(bad_status(reply))
    }
}

/// What is wrong with the second answer, which was asked for with a token.
pub fn check_second_reply(url: &str, reply: &Reply) -> (result: Result<(), RegistryError>)
    ensures
        verdict(result) == after_second(url@, *reply),
{
    if 200 <= reply.status && reply.status < 300 {
        Ok(())
    } else if reply.status == 404 {
        Err(RegistryError::ManifestNotFound(url.to_string()))
    } else if reply.status == 429 {
        let seconds: u64 = match &reply.retry_after {
            Some(text) => match parse_decimal(text, u64::MAX) {
                Some(seconds) => seconds,
                None => 60,
            },
            None => 60,
        };
        Err(RegistryError::RateLimited(seconds))
    } else {
        Err(RegistryError::InvalidResponse(glue3(&reply.status_text, ": ", &reply.body)))
    }
}

/// Whether the body of an answer will be looked at.
pub open spec fn body_needed(status: u16, with_token: bool) -> bool {
    &&& !is_success(status)
    &&& status != 404
    &&& status != if with_token {
        429u16
    } else {
        401u16
    }
}

/// Whether the body of an answer will be looked at.
pub fn needs_body(status: u16, with_token: bool) -> (needed: bool)
    ensures
        needed == body_needed(status, with_token),
{
    let meaningful: u16 = if with_token {
        429
    } else {
        401
    };
    !(200 <= status && status < 300) && status != 404 && status != meaningful
}

/// The body of an answer is looked at only where that is said.
pub proof fn bodies_matter_only_where_needed(url: Seq<char>, one: Reply, other: Reply)
    requires
        one.status == other.status,
        one.status_text@ == other.status_text@,
        one.www_authenticate.deep_view() == other.www_authenticate.deep_view(),
        one.retry_after.deep_view() == other.retry_after.deep_view(),
    ensures
        !body_needed(one.status, false) ==> after_first(url, one) == after_first(url, other),
        !body_needed(one.status, true) ==> after_second(url, one) == after_second(url, other),
{
}

// ---------------------------------------------------------------------------
// Verification
// ---------------------------------------------------------------------------
/// The complaint about content of another digest.
pub open spec fn mismatch(
    what: Seq<char>,
    expected: Seq<char>,
    verb: Seq<char>,
    actual: Seq<char>,
) -> RegistryErrorModel {
    RegistryErrorModel::InvalidResponse(
        what + " mismatch: expected "@ + expected + verb + actual,
    )
}

/// Compares a digest with the one that was asked for.
fn check_digest(what: &str, expected: &str, verb: &str, actual: &str) -> (result: Result<
    (),
    RegistryError,
>)
    ensures
        verdict(result) == if actual@ == expected@ {
            None
        } else {
            Some(mismatch(what@, expected@, verb@, actual@))
        },
{
    if same_text(actual, expected) {
        Ok(())
    } else {
        Err(
            RegistryError::InvalidResponse(
                glue5(what, " mismatch: expected ", expected, verb, actual),
            ),
        )
    }
}

/// The complaint about content whose digest is not the expected one.
pub open spec fn wrong_digest(
    what: Seq<char>,
    expected: Seq<char>,
    verb: Seq<char>,
    actual: Seq<char>,
) -> Option<RegistryErrorModel> {
    if expected == actual {
        None
    } else {
        Some(mismatch(what, expected, verb, actual))
    }
}

/// Whether a downloaded blob is the one that was asked for.
pub fn check_blob(digest: &str, data: &[u8]) -> (result: Result<(), RegistryError>)
    ensures
        verdict(result) == if digest_of(data@) == digest@ {
            None
        } else {
            Some(mismatch("Digest"@, digest@, ", got "@, digest_of(data@)))
        },
        verdict(result) == wrong_digest("Digest"@, digest@, ", got "@, digest_of(data@)),
{
    check_digest("Digest", digest, ", got ", &content_digest(data))
}

/// Whether a downloaded configuration is the one that the manifest names.
pub fn check_config(digest: &str, data: &[u8]) -> (result: Result<(), RegistryError>)
    ensures
        verdict(result) == if digest_of(data@) == digest@ {
            None
        } else {
            Some(mismatch("Config digest"@, digest@, ", got "@, digest_of(data@)))
        },
        verdict(result) == wrong_digest("Config digest"@, digest@, ", got "@, digest_of(data@)),
{
    check_digest("Config digest", digest, ", got ", &content_digest(data))
}

/// Whether a configuration was stored under the digest that the manifest names.
pub fn check_stored_config(digest: &str, stored: &str) -> (result: Result<(), RegistryError>)
    ensures
        verdict(result) == if stored@ == digest@ {
            None
        } else {
            Some(mismatch("Config stored digest"@, digest@, ", stored "@, stored@))
        },
        verdict(result) == wrong_digest("Config stored digest"@, digest@, ", stored "@, stored@),
{
    check_digest("Config stored digest", digest, ", stored ", stored)
}

/// Whether a downloaded layer is the one that the manifest names.
pub fn check_layer(digest: &str, data: &[u8]) -> (result: Result<(), RegistryError>)
    ensures
        verdict(result) == if digest_of(data@) == digest@ {
            None
        } else {
            Some(mismatch("Layer digest"@, digest@, ", got "@, digest_of(data@)))
        },
        verdict(result) == wrong_digest("Layer digest"@, digest@, ", got "@, digest_of(data@)),
{
    check_digest("Layer digest", digest, ", got ", &content_digest(data))
}

/// The warning about a manifest whose digest is not the one that the registry told.
pub open spec fn digest_warning(
    reference: Seq<char>,
    told: Option<Seq<char>>,
    computed: Seq<char>,
) -> Option<Seq<char>> {
    match told {
        Some(header) => if header == computed {
            None
        } else {
            Some(
                "warning: manifest digest header/body mismatch for "@ + reference + ": header="@
                    + header + ", computed="@ + computed,
            )
        },
        None => None,
    }
}

/// The digest of a manifest's exact bytes, and a warning where the registry told
/// another one.
pub fn manifest_digest(reference: &str, told: Option<&str>, body: &[u8]) -> (result: (
    String,
    Option<String>,
))
    ensures
        result.0@ == digest_of(body@),
        result.1.deep_view() == digest_warning(reference@, told.deep_view(), digest_of(body@)),
{
    let computed = content_digest(body);
    let warning = match told {
        Some(header) => if same_text(header, &computed) {
            None
        } else {
            let head = glue3(
                "warning: manifest digest header/body mismatch for ",
                reference,
                ": header=",
            );
            Some(glue3(&glue(&head, header), ", computed=", &computed))
        },
        None => None,
    };
    (computed, warning)
}

// ---------------------------------------------------------------------------
// Platforms
// ---------------------------------------------------------------------------
/// A manifest of a list, with the platform it is for.
#[derive(Debug)]
pub struct PlatformManifest {
    pub architecture: String,
    pub os: String,
    pub digest: String,
}

/// The place of the first manifest for a platform at or after `at`, or the length.
pub open spec fn platform_from(
    list: Seq<PlatformManifest>,
    architecture: Seq<char>,
    os: Seq<char>,
    at: int,
) -> int
    decreases list.len() - at,
{
    if at >= list.len() {
        list.len() as int
    } else if list[at].architecture@ == architecture && list[at].os@ == os {
        at
    } else {
        platform_from(list, architecture, os, at + 1)
    }
}

/// The manifest for a platform.
pub fn find_platform(list: &Vec<PlatformManifest>, architecture: &str, os: &str) -> (found: Option<
    usize,
>)
    ensures
        match found {
            Some(at) => at < list@.len() && at == platform_from(
                list@,
                architecture@,
                os@,
                0,
            ),
            None => platform_from(list@, architecture@, os@, 0) >= list@.len(),
        },
{
    let mut at: usize = 0;
    while at < list.len()
        invariant
            at <= list@.len(),
            platform_from(list@, architecture@, os@, 0) == platform_from(
                list@,
                architecture@,
                os@,
                at as int,
            ),
        decreases list@.len() - at,
    {
        if same_text(&list[at].architecture, architecture) && same_text(&list[at].os, os) {
            return Some(at);
        }
        at = at + 1;
    }
    None
}

/// The manifest of a list that is taken: the one for this platform, else the one for
/// Linux on amd64.
pub open spec fn chosen_manifest(
    list: Seq<PlatformManifest>,
    architecture: Seq<char>,
    os: Seq<char>,
) -> Result<Seq<char>, RegistryErrorModel> {
    let own = platform_from(list, architecture, os, 0);
    let common = platform_from(list, "amd64"@, "linux"@, 0);
    if own < list.len() {
        Ok(list[own].digest@)
    } else if common < list.len() {
        Ok(list[common].digest@)
    } else {
        Err(RegistryErrorModel::ManifestNotFound("No matching platform in manifest list"@))
    }
}

/// The manifest of a list that is taken: the one for this platform, else the one for
/// Linux on amd64.
pub fn choose_manifest(list: &Vec<PlatformManifest>, architecture: &str, os: &str) -> (result:
    Result<String, RegistryError>)
    ensures
        match chosen_manifest(list@, architecture@, os@) {
            Ok(digest) => result matches Ok(found) && found@ == digest,
            Err(problem) => result matches Err(error) && error.deep_view() == problem,
        },
{
    match find_platform(list, architecture, os) {
        Some(at) => Ok(list[at].digest.clone()),
        None => match find_platform(list, "amd64", "linux") {
            Some(at) => Ok(list[at].digest.clone()),
            None => Err(
                RegistryError::ManifestNotFound(
                    "No matching platform in manifest list".to_string(),
                ),
            ),
        },
    }
}

// ---------------------------------------------------------------------------
// Layers
// ---------------------------------------------------------------------------
/// How a layer is come by.
#[derive(Debug, Clone, Copy, PartialEq, Eq, Structural)]
pub enum LayerLookup {
    /// It is there, with this size.
    Cached(u64),
    /// It has to be downloaded.
    Download,
    /// What is there has to go, and the layer has to be downloaded.
    RemoveAndDownload,
}

/// How a layer is come by, given what reading its file gave.
pub open spec fn layer_lookup(force: bool, digest: Seq<char>, read: FileRead) -> LayerLookup {
    if force {
        LayerLookup::Download
    } else if verifies(read, digest) {
        LayerLookup::Cached((read->Content_0)@.len() as u64)
    } else {
        LayerLookup::RemoveAndDownload
    }
}

/// How a layer is come by, given what reading its file gave.
pub fn look_up_layer(force: bool, digest: &str, read: &FileRead) -> (lookup: LayerLookup)
    ensures
        lookup == layer_lookup(force, digest@, *read),
{
    if force {
        return LayerLookup::Download;
    }
    match read {
        FileRead::Content(data) => if same_text(&content_digest(data), digest) {
            LayerLookup::Cached(data.len() as u64)
        } else {
            LayerLookup::RemoveAndDownload
        },
        _ => LayerLookup::RemoveAndDownload,
    }
}

/// How the download of a layer ended.
#[derive(Debug)]
pub enum LayerOutcome {
    /// The layer is there.
    Present { digest: String, size: u64, cached: bool },
    /// It failed.
    Failed(RegistryError),
    /// The task did not end by itself, for this reason.
    Lost(String),
}

/// How far a pull has got with its layers.
#[derive(Debug)]
pub struct LayerTally {
    total: usize,
    done: usize,
    size: u64,
}

/// A [`LayerTally`] as a mathematical value.
#[verifier::ext_equal]
pub struct TallyModel {
    pub total: int,
    pub done: int,
    pub size: int,
}

/// What one more outcome tells: the events, and what is wrong.
pub open spec fn outcome_events(tally: TallyModel, outcome: LayerOutcome) -> Seq<PullEventModel> {
    match outcome {
        LayerOutcome::Present { digest, size, cached } => seq![
            PullEventModel::DownloadingLayer {
                digest: digest@,
                current: tally.done + 1,
                total: tally.total,
            },
            PullEventModel::LayerDownloaded { digest: digest@, size: size as int, cached },
        ],
        LayerOutcome::Failed(problem) => seq![
            PullEventModel::Error { message: registry_error_text(problem) },
        ],
        LayerOutcome::Lost(reason) => seq![
            PullEventModel::Error { message: "Download task failed: "@ + reason@ },
        ],
    }
}

/// The tally after one more outcome.
pub open spec fn tally_after(tally: TallyModel, outcome: LayerOutcome) -> TallyModel {
    match outcome {
        LayerOutcome::Present { digest, size, cached } => TallyModel {
            done: tally.done + 1,
            size: tally.size + size,
            ..tally
        },
        _ => tally,
    }
}

/// The tally after the first `count` outcomes.
pub open spec fn tally_of(total: int, outcomes: Seq<LayerOutcome>, count: int) -> TallyModel
    decreases count,
{
    if count <= 0 {
        TallyModel { total, done: 0, size: 0 }
    } else {
        tally_after(tally_of(total, outcomes, count - 1), outcomes[count - 1])
    }
}

impl View for LayerTally {
    type V = TallyModel;

    closed spec fn view(&self) -> TallyModel {
        TallyModel { total: self.total as int, done: self.done as int, size: self.size as int }
    }
}

impl LayerTally {
    /// No layer yet, of `total`.
    pub fn new(total: usize) -> (tally: Self)
        ensures
            tally@ == tally_of(total as int, seq![], 0),
    {
        LayerTally { total, done: 0, size: 0 }
    }

    /// Takes one more outcome into account and gives the events it causes.
    pub fn record(&mut self, outcome: &LayerOutcome) -> (events: Vec<PullEvent>)
        requires
            old(self)@.done < old(self)@.total,
            tally_after(old(self)@, *outcome).size <= u64::MAX,
        ensures
            final(self)@ == tally_after(old(self)@, *outcome),
            events.deep_view() == outcome_events(old(self)@, *outcome),
    {
        let ghost before = self@;
        let mut events: Vec<PullEvent> = Vec::new();
        match outcome {
            LayerOutcome::Present { digest, size, cached } => {
                events.push(
                    PullEvent::DownloadingLayer {
                        digest: digest.clone(),
                        current: self.done + 1,
                        total: self.total,
                    },
                );
                events.push(
                    PullEvent::LayerDownloaded {
                        digest: digest.clone(),
                        size: *size,
                        cached: *cached,
                    },
                );
                self.done = self.done + 1;
                self.size = self.size + *size;
            },
            LayerOutcome::Failed(problem) => {
                events.push(PullEvent::Error { message: problem.to_text() });
            },
            LayerOutcome::Lost(reason) => {
                events.push(
                    PullEvent::Error { message: glue("Download task failed: ", reason) },
                );
            },
        }
        assert(events.deep_view() =~= outcome_events(before, *outcome));
        events
    }

    /// Whether one more outcome can be taken into account.
    pub fn has_room(&self, outcome: &LayerOutcome) -> (room: bool)
        ensures
            room == (self@.done < self@.total && tally_after(self@, *outcome).size <= u64::MAX),
    {
        if self.done >= self.total {
            return false;
        }
        match outcome {
            LayerOutcome::Present { size, .. } => *size <= u64::MAX - self.size,
            _ => true,
        }
    }

    /// How many layers are there.
    pub fn done(&self) -> (done: usize)
        ensures
            done == self@.done,
    {
        self.done
    }

    /// Whether every layer is there.
    pub fn is_complete(&self) -> (complete: bool)
        ensures
            complete == (self@.done >= self@.total),
    {
        self.done >= self.total
    }

    /// The sizes of the layers so far added up.
    pub fn size(&self) -> (size: u64)
        ensures
            size == self@.size,
    {
        self.size
    }
}

/// What is told at the start of a pull.
pub open spec fn opening_events(reference: ReferenceModel) -> Seq<PullEventModel> {
    seq![
        PullEventModel::Started { reference: crate::image::reference::reference_text(reference) },
        PullEventModel::ResolvingManifest,
    ]
}

/// The events at the start of a pull.
pub fn start_events(reference: &ImageReference) -> (events: Vec<PullEvent>)
    ensures
        events.deep_view() == seq![
            PullEventModel::Started {
                reference: crate::image::reference::reference_text(reference.deep_view()),
            },
            PullEventModel::ResolvingManifest,
        ],
        events.deep_view() == opening_events(reference.deep_view()),
{
    let mut events: Vec<PullEvent> = Vec::new();
    events.push(PullEvent::Started { reference: reference.to_text() });
    events.push(PullEvent::ResolvingManifest);
    assert(events.deep_view() =~= seq![
        PullEventModel::Started {
            reference: crate::image::reference::reference_text(reference.deep_view()),
        },
        PullEventModel::ResolvingManifest,
    ]);
    events
}

// ---------------------------------------------------------------------------
// Laws
// ---------------------------------------------------------------------------
/// All layers present: their sizes.
pub open spec fn sizes_of(outcomes: Seq<LayerOutcome>) -> Seq<int> {
    outcomes.map_values(
        |outcome: LayerOutcome|
            match outcome {
                LayerOutcome::Present { digest, size, cached } => size as int,
                _ => 0,
            },
    )
}

/// The size of a pull is the sum of its layers' sizes, whether they were downloaded
/// or there already, and each layer counts once.
pub proof fn pull_size_is_the_sum(total: int, outcomes: Seq<LayerOutcome>, count: int)
    requires
        0 <= count <= outcomes.len(),
        forall|i: int| 0 <= i < outcomes.len() ==> #[trigger] outcomes[i] is Present,
    ensures
        tally_of(total, outcomes, count).done == count,
        tally_of(total, outcomes, count).size == sizes_of(outcomes).take(count).fold_left(
            0int,
            |sum: int, size: int| sum + size,
        ),
    decreases count,
{
    let plus = |sum: int, size: int| sum + size;
    let sizes = sizes_of(outcomes);
    if count > 0 {
        pull_size_is_the_sum(total, outcomes, count - 1);
        assert(outcomes[count - 1] is Present);
        assert(sizes.take(count).drop_last() =~= sizes.take(count - 1));
        assert(sizes.take(count).last() == sizes[count - 1]);
    }
}

/// A layer is taken from the store only where its content has the digest that the
/// manifest names, and never where a download is forced.
pub proof fn cached_layers_verify(force: bool, digest: Seq<char>, read: FileRead)
    ensures
        layer_lookup(force, digest, read) is Cached ==> !force && verifies(read, digest),
        !force && verifies(read, digest) ==> layer_lookup(force, digest, read) is Cached,
{
}

/// A list that has a manifest for this platform gives that one.
pub proof fn own_platform_comes_first(
    list: Seq<PlatformManifest>,
    architecture: Seq<char>,
    os: Seq<char>,
    i: int,
)
    requires
        0 <= i < list.len(),
        list[i].architecture@ == architecture,
        list[i].os@ == os,
    ensures
        chosen_manifest(list, architecture, os) matches Ok(digest) && exists|j: int|
            0 <= j <= i && #[trigger] list[j].digest@ == digest && list[j].architecture@
                == architecture && list[j].os@ == os,
{
    lemma_platform_from(list, architecture, os, 0, i);
    let j = platform_from(list, architecture, os, 0);
    assert(list[j].digest@ == chosen_manifest(list, architecture, os)->Ok_0);
}

proof fn lemma_platform_from(
    list: Seq<PlatformManifest>,
    architecture: Seq<char>,
    os: Seq<char>,
    at: int,
    i: int,
)
    requires
        0 <= at <= i < list.len(),
        list[i].architecture@ == architecture,
        list[i].os@ == os,
    ensures
        at <= platform_from(list, architecture, os, at) <= i,
        list[platform_from(list, architecture, os, at)].architecture@ == architecture,
        list[platform_from(list, architecture, os, at)].os@ == os,
    decreases i - at,
{
    if !(list[at].architecture@ == architecture && list[at].os@ == os) {
        lemma_platform_from(list, architecture, os, at + 1, i);
    }
}

// ---------------------------------------------------------------------------
// Laws of addresses and answers
// ---------------------------------------------------------------------------
/// An address that starts with a host, a repository and the kind of what is there, and
/// ends with the name of it.
proof fn lemma_address_ends(host: Seq<char>, repository: Seq<char>, place: Seq<char>, name: Seq<char>)
    ensures
        ends(host + "/v2/"@ + repository + place + name, place + name),
        begins(host + "/v2/"@ + repository + place + name, host + "/v2/"@ + repository + place),
{
    let address = host + "/v2/"@ + repository + place + name;
    let front = host + "/v2/"@ + repository + place;
    let tail = place + name;
    assert(address.skip(address.len() - tail.len()) =~= tail);
    assert(address.take(front.len() as int) =~= front);
}

/// The address of a manifest ends in the digest of the reference where it has one, and
/// in its tag otherwise; the address of a blob ends in the digest of the blob. Both begin
/// with the host of the registry and the repository.
pub proof fn addresses_name_what_they_lead_to(reference: ReferenceModel, blob: Seq<char>)
    ensures
        reference.digest matches Some(digest) ==> ends(
            manifest_address(reference),
            "/manifests/"@ + digest,
        ),
        reference.digest is None ==> ends(
            manifest_address(reference),
            "/manifests/"@ + reference.tag,
        ),
        ends(blob_address(reference, blob), "/blobs/"@ + blob),
        reference.registry == "docker.io"@ ==> begins(
            manifest_address(reference),
            "https://registry-1.docker.io"@ + "/v2/"@ + reference.repository + "/manifests/"@,
        ) && begins(
            blob_address(reference, blob),
            "https://registry-1.docker.io"@ + "/v2/"@ + reference.repository + "/blobs/"@,
        ),
        reference.registry != "docker.io"@ ==> begins(
            manifest_address(reference),
            "https://"@ + reference.registry + "/v2/"@ + reference.repository + "/manifests/"@,
        ) && begins(
            blob_address(reference, blob),
            "https://"@ + reference.registry + "/v2/"@ + reference.repository + "/blobs/"@,
        ),
{
    let host = endpoint(reference.registry);
    let version = match reference.digest {
        Some(digest) => digest,
        None => reference.tag,
    };
    lemma_address_ends(host, reference.repository, "/manifests/"@, version);
    lemma_address_ends(host, reference.repository, "/blobs/"@, blob);
}

/// Two manifests of one repository have the same address exactly where they have the
/// same digest, or no digest and the same tag; and two blobs of one repository have the
/// same address only where they are the same.
pub proof fn addresses_tell_versions_apart(
    one: ReferenceModel,
    other: ReferenceModel,
    blob: Seq<char>,
    another: Seq<char>,
)
    requires
        one.registry == other.registry,
        one.repository == other.repository,
    ensures
        one.digest is Some && other.digest is Some ==> (manifest_address(one) == manifest_address(
            other,
        ) <==> one.digest == other.digest),
        one.digest is None && other.digest is None ==> (manifest_address(one) == manifest_address(
            other,
        ) <==> one.tag == other.tag),
        one.digest is Some && other.digest is None ==> (manifest_address(one) == manifest_address(
            other,
        ) <==> one.digest->0 == other.tag),
        blob_address(one, blob) == blob_address(other, another) <==> blob == another,
{
    let front = endpoint(one.registry) + "/v2/"@ + one.repository + "/manifests/"@;
    let start = endpoint(one.registry) + "/v2/"@ + one.repository + "/blobs/"@;
    lemma_same_start(front, tag_or_digest(one), tag_or_digest(other));
    lemma_same_start(start, blob, another);
}

proof fn lemma_same_start(start: Seq<char>, one: Seq<char>, other: Seq<char>)
    ensures
        start + one == start + other <==> one == other,
{
    if start + one == start + other {
        assert((start + one).skip(start.len() as int) =~= one);
        assert((start + other).skip(start.len() as int) =~= other);
    }
}

/// What the first answer leads to goes by its status: success is taken, a request for a
/// token is met where it says where to get one, and anything else ends the download. An
/// address that leads nowhere is told.
pub proof fn first_answers_go_by_their_status(url: Seq<char>, reply: Reply)
    ensures
        after_first(url, reply) is Ok <==> 200 <= reply.status < 300 || (reply.status == 401
            && reply.www_authenticate is Some),
        200 <= reply.status < 300 ==> after_first(url, reply)->Ok_0 is Done,
        reply.status == 401 ==> match reply.www_authenticate {
            Some(challenge) => after_first(url, reply)->Ok_0 == RequestStepModel::Authenticate(
                challenge@,
            ),
            None => after_first(url, reply)->Err_0 is AuthError,
        },
        reply.status == 404 ==> after_first(url, reply)->Err_0
            == RegistryErrorModel::ManifestNotFound(url),
        !(200 <= reply.status < 300) && reply.status != 401 && reply.status != 404 ==> (after_first(
            url,
            reply,
        )->Err_0 matches RegistryErrorModel::InvalidResponse(message) && begins(
            message,
            reply.status_text@,
        ) && ends(message, reply.body@)),
{
    let message = reply.status_text@ + ": "@ + reply.body@;
    assert(message.take(reply.status_text@.len() as int) =~= reply.status_text@);
    assert(message.skip(message.len() - reply.body@.len()) =~= reply.body@);
}

/// What the second answer leads to goes by its status: only success is taken, an address
/// that leads nowhere is told, and a registry that asks for patience is given the seconds
/// that it names, or a minute.
pub proof fn second_answers_go_by_their_status(url: Seq<char>, reply: Reply)
    ensures
        after_second(url, reply) is None <==> 200 <= reply.status < 300,
        reply.status == 404 ==> after_second(url, reply) == Some(
            RegistryErrorModel::ManifestNotFound(url),
        ),
        reply.status == 429 ==> (after_second(url, reply) matches Some(
            RegistryErrorModel::RateLimited(seconds),
        ) && (reply.retry_after is None ==> seconds == 60) && (reply.retry_after matches Some(text)
            ==> match read_decimal(text@, u64::MAX as nat) {
            Some(told) => seconds == told,
            None => seconds == 60,
        })),
        !(200 <= reply.status < 300) && reply.status != 404 && reply.status != 429 ==> (
        after_second(url, reply) matches Some(RegistryErrorModel::InvalidResponse(message))
            && begins(message, reply.status_text@) && ends(message, reply.body@)),
{
    let message = reply.status_text@ + ": "@ + reply.body@;
    assert(message.take(reply.status_text@.len() as int) =~= reply.status_text@);
    assert(message.skip(message.len() - reply.body@.len()) =~= reply.body@);
}

/// Each manifest of a list is for one platform: a list gives a manifest exactly where it
/// has one for this platform or one for Linux on amd64, and what it gives is the first of
/// those for this platform, or, where there is none, the first for Linux on amd64.
pub proof fn lists_give_the_first_that_fits(
    list: Seq<PlatformManifest>,
    architecture: Seq<char>,
    os: Seq<char>,
    i: int,
)
    requires
        0 <= i < list.len(),
        list[i].architecture@ == architecture && list[i].os@ == os || (list[i].architecture@
            == "amd64"@ && list[i].os@ == "linux"@ && forall|j: int|
            0 <= j < list.len() ==> !((#[trigger] list[j]).architecture@ == architecture
                && list[j].os@ == os)),
        forall|j: int|
            0 <= j < i ==> !((#[trigger] list[j]).architecture@ == list[i].architecture@
                && list[j].os@ == list[i].os@),
    ensures
        chosen_manifest(list, architecture, os) == Ok::<Seq<char>, RegistryErrorModel>(
            list[i].digest@,
        ),
{
    lemma_first_for_platform(list, list[i].architecture@, list[i].os@, 0, i);
    if !(list[i].architecture@ == architecture && list[i].os@ == os) {
        lemma_none_for_platform(list, architecture, os, 0);
    }
}

proof fn lemma_first_for_platform(
    list: Seq<PlatformManifest>,
    architecture: Seq<char>,
    os: Seq<char>,
    from: int,
    i: int,
)
    requires
        0 <= from <= i < list.len(),
        list[i].architecture@ == architecture,
        list[i].os@ == os,
        forall|j: int|
            from <= j < i ==> !((#[trigger] list[j]).architecture@ == architecture && list[j].os@
                == os),
    ensures
        platform_from(list, architecture, os, from) == i,
    decreases i - from,
{
    if from < i {
        assert(!(list[from].architecture@ == architecture && list[from].os@ == os));
        lemma_first_for_platform(list, architecture, os, from + 1, i);
    }
}

proof fn lemma_none_for_platform(
    list: Seq<PlatformManifest>,
    architecture: Seq<char>,
    os: Seq<char>,
    from: int,
)
    requires
        0 <= from <= list.len(),
        forall|j: int|
            from <= j < list.len() ==> !((#[trigger] list[j]).architecture@ == architecture
                && list[j].os@ == os),
    ensures
        platform_from(list, architecture, os, from) == list.len(),
    decreases list.len() - from,
{
    if from < list.len() {
        assert(!(list[from].architecture@ == architecture && list[from].os@ == os));
        lemma_none_for_platform(list, architecture, os, from + 1);
    }
}

/// A list without a manifest for this platform or for Linux on amd64 gives none.
pub proof fn lists_without_a_platform_give_none(
    list: Seq<PlatformManifest>,
    architecture: Seq<char>,
    os: Seq<char>,
)
    requires
        forall|j: int|
            0 <= j < list.len() ==> !((#[trigger] list[j]).architecture@ == architecture
                && list[j].os@ == os) && !(list[j].architecture@ == "amd64"@ && list[j].os@
                == "linux"@),
    ensures
        chosen_manifest(list, architecture, os) matches Err(problem)
            && problem is ManifestNotFound,
{
    lemma_none_for_platform(list, architecture, os, 0);
    lemma_none_for_platform(list, "amd64"@, "linux"@, 0);
}

/// Content is accepted exactly where it has the digest that was asked for; the complaint
/// about other content tells both digests.
pub proof fn only_the_right_content_is_accepted(
    what: Seq<char>,
    digest: Seq<char>,
    verb: Seq<char>,
    actual: Seq<char>,
)
    ensures
        wrong_digest(what, digest, verb, actual) is None <==> digest == actual,
        wrong_digest(what, digest, verb, actual) matches Some(problem) ==> (problem matches
            RegistryErrorModel::InvalidResponse(message) && begins(
            message,
            what + " mismatch: expected "@ + digest,
        ) && ends(message, actual)),
{
    let message = what + " mismatch: expected "@ + digest + verb + actual;
    let front = what + " mismatch: expected "@ + digest;
    assert(message.take(front.len() as int) =~= front);
    assert(message.skip(message.len() - actual.len()) =~= actual);
}

/// A layer is downloaded anew exactly where that is forced or what is stored does not
/// have its digest, and then what is stored is taken away first, unless it is forced. A
/// layer that is there counts with the bytes that were read.
pub proof fn layers_are_looked_up_by_content(force: bool, digest: Seq<char>, read: FileRead)
    ensures
        force ==> layer_lookup(force, digest, read) is Download,
        !force ==> match read {
            FileRead::Content(data) => if digest_of(data@) == digest && data@.len() <= u64::MAX {
                layer_lookup(force, digest, read) == LayerLookup::Cached(data@.len() as u64)
            } else {
                digest_of(data@) != digest ==> layer_lookup(force, digest, read)
                    is RemoveAndDownload
            },
            _ => layer_lookup(force, digest, read) is RemoveAndDownload,
        },
{
}

/// A warning about a manifest is given exactly where the registry told a digest that is
/// not that of the body, and it names both.
pub proof fn other_digests_are_warned_of(
    reference: Seq<char>,
    told: Option<Seq<char>>,
    computed: Seq<char>,
)
    ensures
        digest_warning(reference, told, computed) is Some <==> told is Some && told != Some(
            computed,
        ),
        digest_warning(reference, told, computed) matches Some(warning) ==> ends(
            warning,
            "header="@ + told->0 + ", computed="@ + computed,
        ),
{
    if let Some(warning) = digest_warning(reference, told, computed) {
        reveal_strlit(": header=");
        reveal_strlit("header=");
        let tail = "header="@ + told->0 + ", computed="@ + computed;
        assert(warning.skip(warning.len() - tail.len()) =~= tail);
    }
}

/// Each layer that is there is told once, as the next of all of them and with its own
/// digest, size and origin, and makes the tally greater by one and by its size; one that
/// failed is told as an error and counts for nothing.
pub proof fn layers_are_tallied_one_by_one(tally: TallyModel, outcome: LayerOutcome)
    ensures
        tally_after(tally, outcome).total == tally.total,
        match outcome {
            LayerOutcome::Present { digest, size, cached } => {
                &&& tally_after(tally, outcome).done == tally.done + 1
                &&& tally_after(tally, outcome).size == tally.size + size
                &&& outcome_events(tally, outcome).len() == 2
                &&& outcome_events(tally, outcome)[0] == PullEventModel::DownloadingLayer {
                    digest: digest@,
                    current: tally.done + 1,
                    total: tally.total,
                }
                &&& outcome_events(tally, outcome)[1] == PullEventModel::LayerDownloaded {
                    digest: digest@,
                    size: size as int,
                    cached,
                }
            },
            _ => {
                &&& tally_after(tally, outcome) == tally
                &&& outcome_events(tally, outcome).len() == 1
                &&& outcome_events(tally, outcome)[0] is Error
            },
        },
{
}

/// As many layers are downloaded at a time as was asked for, and always one at least.
pub proof fn some_layer_is_always_downloaded(max_concurrent: usize)
    ensures
        permits_for(max_concurrent) >= 1,
        max_concurrent >= 1 ==> permits_for(max_concurrent) == max_concurrent,
{
}

/// A pull tells first what is pulled, by its digest where the reference has one and else by
/// its tag, and then that the manifest is looked for.
pub proof fn pulls_tell_what_is_pulled(reference: ReferenceModel)
    ensures
        opening_events(reference).len() == 2,
        opening_events(reference)[0] matches PullEventModel::Started { reference: text } && match
            reference.digest {
            Some(digest) => text == reference.registry + "/"@ + reference.repository + "@"@
                + digest,
            None => text == reference.registry + "/"@ + reference.repository + ":"@
                + reference.tag,
        },
        opening_events(reference)[1] is ResolvingManifest,
{
}

/// A token is presented as it is, after the word for it.
pub proof fn tokens_are_presented_as_they_are(token: Seq<char>)
    ensures
        begins(presented(token), "Bearer "@),
        ends(presented(token), token),
        presented(token).len() == "Bearer "@.len() + token.len(),
{
    let text = presented(token);
    assert(text.take("Bearer "@.len() as int) =~= "Bearer "@);
    assert(text.skip(text.len() - token.len()) =~= token);
}

/// Both kinds of manifests and both kinds of lists are asked for.
pub proof fn all_manifests_are_asked_for()
    ensures
        manifest_types().contains("application/vnd.oci.image.manifest.v1+json"@),
        manifest_types().contains("application/vnd.oci.image.index.v1+json"@),
        manifest_types().contains("application/vnd.docker.distribution.manifest.v2+json"@),
        manifest_types().contains("application/vnd.docker.distribution.manifest.list.v2+json"@),
        manifest_types().len() == 4,
{
    let types = manifest_types();
    assert(types.contains(types[0]) && types.contains(types[1]) && types.contains(types[2])
        && types.contains(types[3]));
}

} // verus!
