//! A push, step by step: what is done next, and what is told on the way.
use crate::image::reference::{reference_text, ImageReference, ReferenceModel};
use crate::image::{ManifestModel, OciManifest};
use crate::number::{decimal, decimal_text};
use crate::registry::client::{verdict, RegistryError, RegistryErrorModel};
use crate::registry::pull::{digests_of, layer_digests};
use crate::services::PushEvent;
use crate::text::{begins, contains_char, ends, glue, glue3, starts_with};
use vstd::prelude::*;

verus! {

// ---------------------------------------------------------------------------
// Addresses and answers
// ---------------------------------------------------------------------------
/// Where the content of a blob is sent: to the place that the registry told, below the
/// endpoint unless it is a whole address, with the digest as one more parameter.
pub open spec fn upload_address(
    endpoint: Seq<char>,
    location: Seq<char>,
    digest: Seq<char>,
) -> Seq<char> {
    let place = if begins(location, "/"@) {
        endpoint + location
    } else {
        location
    };
    place + (if place.contains('?') {
        "&"@
    } else {
        "?"@
    }) + "digest="@ + digest
}

/// Where the content of a blob is sent.
pub fn upload_url(endpoint: &str, location: &str, digest: &str) -> (url: String)
    ensures
        url@ == upload_address(endpoint@, location@, digest@),
{
    let place = if starts_with(location, "/") {
        glue(endpoint, location)
    } else {
        location.to_string()
    };
    let separator = if contains_char(&place, '?') {
        "&"
    } else {
        "?"
    };
    glue(&glue3(&place, separator, "digest="), digest)
}

/// The complaint about an answer to what was sent.
pub open spec fn refused(status: u16, body: Seq<char>) -> Option<RegistryErrorModel> {
    if 200 <= status < 300 {
        None
    } else {
        Some(RegistryErrorModel::InvalidResponse(decimal(status as nat) + ": "@ + body))
    }
}

/// Whether a registry took what was sent.
pub fn check_taken(status: u16, body: &str) -> (result: Result<(), RegistryError>)
    ensures
        verdict(result) == if 200 <= status < 300 {
            None
        } else {
            Some(
                RegistryErrorModel::InvalidResponse(decimal(status as nat) + ": "@ + body@),
            )
        },
        verdict(result) == refused(status, body@),
{
    if 200 <= status && status < 300 {
        Ok(())
    } else {
        Err(RegistryError::InvalidResponse(glue3(&decimal_text(status as u64), ": ", body)))
    }
}

// ---------------------------------------------------------------------------
// States, inputs and actions
// ---------------------------------------------------------------------------
/// What a push is at.
#[derive(Debug, Clone, Copy, PartialEq, Eq, Structural)]
pub enum PushPhase {
    /// The registry is asked whether it has the blob.
    Asking,
    /// The blob is being read.
    Reading,
    /// The blob, of this size, is being uploaded.
    Uploading(u64),
    /// The manifest is being uploaded.
    Manifest,
    /// The push is over.
    Ended,
}

/// How far a push has got: with which of the blobs, and what it is at.
pub struct PushState {
    pub reference: String,
    pub digest: String,
    pub blobs: Vec<String>,
    pub at: usize,
    pub phase: PushPhase,
}

/// A [`PushState`] as a mathematical value.
#[verifier::ext_equal]
pub struct PushModel {
    pub reference: Seq<char>,
    pub digest: Seq<char>,
    pub blobs: Seq<Seq<char>>,
    pub at: int,
    pub phase: PushPhase,
}

impl DeepView for PushState {
    type V = PushModel;

    open spec fn deep_view(&self) -> PushModel {
        PushModel {
            reference: self.reference@,
            digest: self.digest@,
            blobs: self.blobs.deep_view(),
            at: self.at as int,
            phase: self.phase,
        }
    }
}

/// A [`PushEvent`] as a mathematical value.
#[verifier::ext_equal]
pub enum PushEventModel {
    Started { reference: Seq<char> },
    UploadingBlob { digest: Seq<char>, size: u64 },
    BlobMounted { digest: Seq<char> },
    BlobUploaded { digest: Seq<char>, size: u64 },
    ManifestUploaded { digest: Seq<char> },
    Complete { reference: Seq<char>, digest: Seq<char> },
}

impl DeepView for PushEvent {
    type V = PushEventModel;

    open spec fn deep_view(&self) -> PushEventModel {
        match self {
            PushEvent::Started { reference } => PushEventModel::Started { reference: reference@ },
            PushEvent::UploadingBlob { digest, size } => PushEventModel::UploadingBlob {
                digest: digest@,
                size: *size,
            },
            PushEvent::BlobMounted { digest } => PushEventModel::BlobMounted { digest: digest@ },
            PushEvent::BlobUploaded { digest, size } => PushEventModel::BlobUploaded {
                digest: digest@,
                size: *size,
            },
            PushEvent::ManifestUploaded { digest } => PushEventModel::ManifestUploaded {
                digest: digest@,
            },
            PushEvent::Complete { reference, digest } => PushEventModel::Complete {
                reference: reference@,
                digest: digest@,
            },
        }
    }
}

/// What was done for a push.
#[derive(Debug, Clone, Copy, PartialEq, Eq, Structural)]
pub enum PushInput {
    /// The registry has the blob.
    Found,
    /// The registry does not have the blob.
    Absent,
    /// The blob was read, and has this size.
    Read(u64),
    /// The blob was uploaded.
    Uploaded,
    /// The manifest was uploaded.
    ManifestTaken,
}

/// What is to be done for a push.
#[derive(Debug)]
pub enum PushAction {
    /// Ask the registry for the blob of this digest.
    Ask(String),
    /// Read the blob of this digest.
    Read(String),
    /// Upload the blob of this digest.
    Upload(String),
    /// Upload the manifest.
    PutManifest,
    /// Nothing: the image is pushed.
    Done,
}

/// A [`PushAction`] as a mathematical value.
#[verifier::ext_equal]
pub enum PushActionModel {
    Ask(Seq<char>),
    Read(Seq<char>),
    Upload(Seq<char>),
    PutManifest,
    Done,
}

impl DeepView for PushAction {
    type V = PushActionModel;

    open spec fn deep_view(&self) -> PushActionModel {
        match self {
            PushAction::Ask(digest) => PushActionModel::Ask(digest@),
            PushAction::Read(digest) => PushActionModel::Read(digest@),
            PushAction::Upload(digest) => PushActionModel::Upload(digest@),
            PushAction::PutManifest => PushActionModel::PutManifest,
            PushAction::Done => PushActionModel::Done,
        }
    }
}

/// One step of a push: where it leads, what is told, and what is to be done.
pub struct PushStep {
    pub state: PushState,
    pub events: Vec<PushEvent>,
    pub action: PushAction,
}

/// A [`PushStep`] as a mathematical value.
#[verifier::ext_equal]
pub struct PushStepModel {
    pub state: PushModel,
    pub events: Seq<PushEventModel>,
    pub action: PushActionModel,
}

impl DeepView for PushStep {
    type V = PushStepModel;

    open spec fn deep_view(&self) -> PushStepModel {
        PushStepModel {
            state: self.state.deep_view(),
            events: self.events.deep_view(),
            action: self.action.deep_view(),
        }
    }
}

// ---------------------------------------------------------------------------
// Steps
// ---------------------------------------------------------------------------
/// While a push is at a blob, there is such a blob.
pub open spec fn is_push(state: PushModel) -> bool {
    &&& 0 <= state.at <= state.blobs.len()
    &&& state.phase is Asking || state.phase is Reading || state.phase is Uploading ==> state.at
        < state.blobs.len()
}

/// The input is the one that the push waits for.
pub open spec fn expects(state: PushModel, input: PushInput) -> bool {
    match state.phase {
        PushPhase::Asking => input is Found || input is Absent,
        PushPhase::Reading => input is Read,
        PushPhase::Uploading(_) => input is Uploaded,
        PushPhase::Manifest => input is ManifestTaken,
        PushPhase::Ended => false,
    }
}

/// The blobs of an image: its configuration, then its layers.
pub open spec fn blobs_of(manifest: ManifestModel) -> Seq<Seq<char>> {
    seq![manifest.config.digest] + layer_digests(manifest.layers)
}

/// The step to a blob, or to the manifest where there is none left.
pub open spec fn to_blob(state: PushModel, at: int, events: Seq<PushEventModel>) -> PushStepModel {
    if at < state.blobs.len() {
        PushStepModel {
            state: PushModel { at, phase: PushPhase::Asking, ..state },
            events,
            action: PushActionModel::Ask(state.blobs[at]),
        }
    } else {
        PushStepModel {
            state: PushModel { at, phase: PushPhase::Manifest, ..state },
            events,
            action: PushActionModel::PutManifest,
        }
    }
}

/// How a push begins.
pub open spec fn push_start(
    reference: ReferenceModel,
    manifest: ManifestModel,
    digest: Seq<char>,
) -> PushStepModel {
    let text = reference_text(reference);
    to_blob(
        PushModel {
            reference: text,
            digest,
            blobs: blobs_of(manifest),
            at: 0,
            phase: PushPhase::Asking,
        },
        0,
        seq![PushEventModel::Started { reference: text }],
    )
}

/// The step that an input leads to.
pub open spec fn push_step(state: PushModel, input: PushInput) -> PushStepModel {
    let blob = state.blobs[state.at];
    match (state.phase, input) {
        (PushPhase::Asking, PushInput::Found) => to_blob(
            state,
            state.at + 1,
            seq![PushEventModel::BlobMounted { digest: blob }],
        ),
        (PushPhase::Asking, PushInput::Absent) => PushStepModel {
            state: PushModel { phase: PushPhase::Reading, ..state },
            events: seq![],
            action: PushActionModel::Read(blob),
        },
        (PushPhase::Reading, PushInput::Read(size)) => PushStepModel {
            state: PushModel { phase: PushPhase::Uploading(size), ..state },
            events: seq![PushEventModel::UploadingBlob { digest: blob, size }],
            action: PushActionModel::Upload(blob),
        },
        (PushPhase::Uploading(size), PushInput::Uploaded) => to_blob(
            state,
            state.at + 1,
            seq![PushEventModel::BlobUploaded { digest: blob, size }],
        ),
        _ => PushStepModel {
            state: PushModel { phase: PushPhase::Ended, ..state },
            events: seq![
                PushEventModel::ManifestUploaded { digest: state.digest },
                PushEventModel::Complete { reference: state.reference, digest: state.digest },
            ],
            action: PushActionModel::Done,
        },
    }
}

/// Goes on to a blob, or to the manifest where there is none left.
fn go_to(state: PushState, at: usize, event: PushEvent) -> (step: PushStep)
    requires
        at <= state.blobs@.len(),
    ensures
        step.deep_view() == to_blob(state.deep_view(), at as int, seq![event.deep_view()]),
        is_push(step.state.deep_view()),
{
    let mut events: Vec<PushEvent> = Vec::new();
    events.push(event);
    assert(events.deep_view() =~= seq![event.deep_view()]);
    let mut state = state;
    state.at = at;
    if at < state.blobs.len() {
        state.phase = PushPhase::Asking;
        let action = PushAction::Ask(state.blobs[at].clone());
        PushStep { state, events, action }
    } else {
        state.phase = PushPhase::Manifest;
        PushStep { state, events, action: PushAction::PutManifest }
    }
}

impl PushState {
    /// How the push of an image with this manifest begins.
    pub fn start(reference: &ImageReference, manifest: &OciManifest, digest: &str) -> (step:
        PushStep)
        ensures
            step.deep_view() == push_start(
                reference.deep_view(),
                manifest.deep_view(),
                digest@,
            ),
            is_push(step.state.deep_view()),
    {
        let mut blobs: Vec<String> = Vec::new();
        blobs.push(manifest.config.digest.clone());
        let ghost first = blobs.deep_view();
        let mut layers = digests_of(manifest);
        let ghost rest = layers.deep_view();
        blobs.append(&mut layers);
        assert(blobs.deep_view() =~= first + rest);
        assert(blobs.deep_view() =~= blobs_of(manifest.deep_view()));
        let text = reference.to_text();
        let event = PushEvent::Started { reference: text.clone() };
        let state = PushState {
            reference: text,
            digest: digest.to_string(),
            blobs,
            at: 0,
            phase: PushPhase::Asking,
        };
        go_to(state, 0, event)
    }

    /// The step that an input leads to.
    pub fn step(self, input: PushInput) -> (step: PushStep)
        requires
            is_push(self.deep_view()),
            expects(self.deep_view(), input),
        ensures
            step.deep_view() == push_step(self.deep_view(), input),
            is_push(step.state.deep_view()),
    {
        let mut state = self;
        let mut events: Vec<PushEvent> = Vec::new();
        match (state.phase, input) {
            (PushPhase::Asking, PushInput::Found) => {
                let at = state.at;
                let event = PushEvent::BlobMounted { digest: state.blobs[at].clone() };
                assert(at < state.blobs.len());
                go_to(state, at + 1, event)
            },
            (PushPhase::Asking, PushInput::Absent) => {
                let action = PushAction::Read(state.blobs[state.at].clone());
                state.phase = PushPhase::Reading;
                assert(events.deep_view() =~= seq![]);
                PushStep { state, events, action }
            },
            (PushPhase::Reading, PushInput::Read(size)) => {
                let digest = state.blobs[state.at].clone();
                let event = PushEvent::UploadingBlob { digest: digest.clone(), size };
                events.push(event);
                assert(events.deep_view() =~= seq![event.deep_view()]);
                state.phase = PushPhase::Uploading(size);
                PushStep { state, events, action: PushAction::Upload(digest) }
            },
            (PushPhase::Uploading(size), PushInput::Uploaded) => {
                let at = state.at;
                let event = PushEvent::BlobUploaded { digest: state.blobs[at].clone(), size };
                assert(at < state.blobs.len());
                go_to(state, at + 1, event)
            },
            _ => {
                let first = PushEvent::ManifestUploaded { digest: state.digest.clone() };
                let second = PushEvent::Complete {
                    reference: state.reference.clone(),
                    digest: state.digest.clone(),
                };
                events.push(first);
                events.push(second);
                assert(events.deep_view() =~= seq![first.deep_view(), second.deep_view()]);
                state.phase = PushPhase::Ended;
                PushStep { state, events, action: PushAction::Done }
            },
        }
    }

    /// Whether a push waits for this.
    pub fn is_expected(&self, input: PushInput) -> (expected: bool)
        ensures
            expected == expects(self.deep_view(), input),
    {
        match (self.phase, input) {
            (PushPhase::Asking, PushInput::Found) => true,
            (PushPhase::Asking, PushInput::Absent) => true,
            (PushPhase::Reading, PushInput::Read(_)) => true,
            (PushPhase::Uploading(_), PushInput::Uploaded) => true,
            (PushPhase::Manifest, PushInput::ManifestTaken) => true,
            _ => false,
        }
    }
}

// ---------------------------------------------------------------------------
// Laws
// ---------------------------------------------------------------------------
/// The state after the first `count` inputs.
pub open spec fn push_after(start: PushModel, inputs: Seq<PushInput>, count: int) -> PushModel
    decreases count,
{
    if count <= 0 {
        start
    } else {
        push_step(push_after(start, inputs, count - 1), inputs[count - 1]).state
    }
}

/// How many blobs the registry has after the first `count` inputs.
pub open spec fn blobs_there(inputs: Seq<PushInput>, count: int) -> int
    decreases count,
{
    if count <= 0 {
        0
    } else {
        blobs_there(inputs, count - 1) + if inputs[count - 1] is Found || inputs[count - 1]
            is Uploaded {
            1int
        } else {
            0
        }
    }
}

/// Each of the first `count` inputs was expected.
pub open spec fn all_expected(start: PushModel, inputs: Seq<PushInput>, count: int) -> bool {
    forall|i: int| 0 <= i < count ==> expects(push_after(start, inputs, i), #[trigger] inputs[i])
}

proof fn lemma_blobs_counted(
    reference: ReferenceModel,
    manifest: ManifestModel,
    digest: Seq<char>,
    inputs: Seq<PushInput>,
    count: int,
)
    requires
        0 <= count <= inputs.len(),
        all_expected(push_start(reference, manifest, digest).state, inputs, count),
    ensures
        ({
            let state = push_after(
                push_start(reference, manifest, digest).state,
                inputs,
                count,
            );
            &&& is_push(state)
            &&& state.blobs == blobs_of(manifest)
            &&& state.digest == digest
            &&& state.at == blobs_there(inputs, count)
            &&& state.phase is Manifest || state.phase is Ended ==> state.at == state.blobs.len()
        }),
    decreases count,
{
    let start = push_start(reference, manifest, digest).state;
    if count > 0 {
        lemma_blobs_counted(reference, manifest, digest, inputs, count - 1);
        assert(expects(push_after(start, inputs, count - 1), inputs[count - 1]));
    }
}

/// The manifest goes last: it is uploaded only when the registry has the configuration
/// and every layer, found there or uploaded; and only blobs of the image are asked for,
/// read and uploaded.
pub proof fn manifests_are_pushed_last(
    reference: ReferenceModel,
    manifest: ManifestModel,
    digest: Seq<char>,
    inputs: Seq<PushInput>,
    count: int,
)
    requires
        0 <= count < inputs.len(),
        all_expected(push_start(reference, manifest, digest).state, inputs, count + 1),
    ensures
        ({
            let state = push_after(
                push_start(reference, manifest, digest).state,
                inputs,
                count,
            );
            let action = push_step(state, inputs[count]).action;
            &&& action is PutManifest ==> blobs_there(inputs, count + 1) == 1
                + manifest.layers.len()
            &&& action is Done ==> blobs_there(inputs, count + 1) == 1 + manifest.layers.len()
                && inputs[count] is ManifestTaken
            &&& action matches PushActionModel::Ask(blob) ==> blobs_of(manifest).contains(blob)
            &&& action matches PushActionModel::Read(blob) ==> blobs_of(manifest).contains(blob)
            &&& action matches PushActionModel::Upload(blob) ==> blobs_of(manifest).contains(blob)
        }),
{
    let start = push_start(reference, manifest, digest).state;
    lemma_blobs_counted(reference, manifest, digest, inputs, count);
    lemma_blobs_counted(reference, manifest, digest, inputs, count + 1);
    assert(expects(push_after(start, inputs, count), inputs[count]));
}

/// What a push does last before its input `count`.
pub open spec fn action_before(
    reference: ReferenceModel,
    manifest: ManifestModel,
    digest: Seq<char>,
    inputs: Seq<PushInput>,
    count: int,
) -> PushActionModel {
    let start = push_start(reference, manifest, digest);
    if count <= 0 {
        start.action
    } else {
        push_step(push_after(start.state, inputs, count - 1), inputs[count - 1]).action
    }
}

/// Input `at` tells that the registry has a blob: it was asked for and found, or its
/// content was uploaded.
pub open spec fn tells_of(
    reference: ReferenceModel,
    manifest: ManifestModel,
    digest: Seq<char>,
    inputs: Seq<PushInput>,
    at: int,
    blob: Seq<char>,
) -> bool {
    let action = action_before(reference, manifest, digest, inputs, at);
    ||| inputs[at] is Found && action == PushActionModel::Ask(blob)
    ||| inputs[at] is Uploaded && action == PushActionModel::Upload(blob)
}

/// The registry is known to have a blob after the first `count` inputs.
pub open spec fn registry_has(
    reference: ReferenceModel,
    manifest: ManifestModel,
    digest: Seq<char>,
    inputs: Seq<PushInput>,
    count: int,
    blob: Seq<char>,
) -> bool {
    exists|at: int|
        0 <= at < count && #[trigger] tells_of(reference, manifest, digest, inputs, at, blob)
}

/// What a push last did is about the blob that it is at.
spec fn is_about_its_blob(state: PushModel, action: PushActionModel) -> bool {
    &&& is_push(state)
    &&& match state.phase {
        PushPhase::Asking => action == PushActionModel::Ask(state.blobs[state.at]),
        PushPhase::Reading => action == PushActionModel::Read(state.blobs[state.at]),
        PushPhase::Uploading(_) => action == PushActionModel::Upload(state.blobs[state.at]),
        PushPhase::Manifest => action is PutManifest && state.at == state.blobs.len(),
        PushPhase::Ended => action is Done && state.at == state.blobs.len(),
    }
}

proof fn lemma_step_is_about_its_blob(state: PushModel, action: PushActionModel, input: PushInput)
    requires
        is_about_its_blob(state, action),
        expects(state, input),
    ensures
        is_about_its_blob(push_step(state, input).state, push_step(state, input).action),
        push_step(state, input).state.blobs == state.blobs,
        push_step(state, input).state.at == state.at + if input is Found || input is Uploaded {
            1int
        } else {
            0
        },
        input is Found ==> action == PushActionModel::Ask(state.blobs[state.at]),
        input is Uploaded ==> action == PushActionModel::Upload(state.blobs[state.at]),
{
}

proof fn lemma_push_is_at_its_blob(
    reference: ReferenceModel,
    manifest: ManifestModel,
    digest: Seq<char>,
    inputs: Seq<PushInput>,
    count: int,
)
    requires
        0 <= count <= inputs.len(),
        all_expected(push_start(reference, manifest, digest).state, inputs, count),
    ensures
        is_about_its_blob(
            push_after(push_start(reference, manifest, digest).state, inputs, count),
            action_before(reference, manifest, digest, inputs, count),
        ),
        push_after(push_start(reference, manifest, digest).state, inputs, count).blobs == blobs_of(
            manifest,
        ),
        push_after(push_start(reference, manifest, digest).state, inputs, count).at == blobs_there(
            inputs,
            count,
        ),
    decreases count,
{
    let start = push_start(reference, manifest, digest).state;
    if count > 0 {
        lemma_expected_before(start, inputs, count);
        lemma_push_is_at_its_blob(reference, manifest, digest, inputs, count - 1);
        lemma_step_is_about_its_blob(
            push_after(start, inputs, count - 1),
            action_before(reference, manifest, digest, inputs, count - 1),
            inputs[count - 1],
        );
    }
}

/// What was expected up to some input was expected before it.
proof fn lemma_expected_before(start: PushModel, inputs: Seq<PushInput>, count: int)
    requires
        0 < count <= inputs.len(),
        all_expected(start, inputs, count),
    ensures
        all_expected(start, inputs, count - 1),
        expects(push_after(start, inputs, count - 1), inputs[count - 1]),
{
    assert forall|i: int| 0 <= i < count - 1 implies expects(
        push_after(start, inputs, i),
        #[trigger] inputs[i],
    ) by {}
}

/// The registry has every blob before the one that a push is at.
proof fn lemma_blobs_before_are_there(
    reference: ReferenceModel,
    manifest: ManifestModel,
    digest: Seq<char>,
    inputs: Seq<PushInput>,
    count: int,
    i: int,
)
    requires
        0 <= count <= inputs.len(),
        all_expected(push_start(reference, manifest, digest).state, inputs, count),
        0 <= i < blobs_there(inputs, count),
    ensures
        registry_has(reference, manifest, digest, inputs, count, blobs_of(manifest)[i]),
    decreases count,
{
    let start = push_start(reference, manifest, digest).state;
    let blob = blobs_of(manifest)[i];
    if count > 0 {
        lemma_expected_before(start, inputs, count);
        lemma_push_is_at_its_blob(reference, manifest, digest, inputs, count - 1);
        if i < blobs_there(inputs, count - 1) {
            lemma_blobs_before_are_there(reference, manifest, digest, inputs, count - 1, i);
            let at = choose|at: int|
                0 <= at < count - 1 && #[trigger] tells_of(
                    reference,
                    manifest,
                    digest,
                    inputs,
                    at,
                    blob,
                );
            assert(tells_of(reference, manifest, digest, inputs, at, blob));
        } else {
            lemma_step_is_about_its_blob(
                push_after(start, inputs, count - 1),
                action_before(reference, manifest, digest, inputs, count - 1),
                inputs[count - 1],
            );
            assert(tells_of(reference, manifest, digest, inputs, count - 1, blob));
        }
    }
}

/// A push deals with one blob after the other, each from end to end: a blob that was
/// asked for and is absent is the one that is read, the one that was read is the one that
/// is uploaded, and what is told of it names it with the size that was read.
pub proof fn blobs_are_dealt_with_in_turn(
    reference: ReferenceModel,
    manifest: ManifestModel,
    digest: Seq<char>,
    inputs: Seq<PushInput>,
    count: int,
    blob: Seq<char>,
)
    requires
        0 <= count < inputs.len(),
        all_expected(push_start(reference, manifest, digest).state, inputs, count + 1),
    ensures
        ({
            let start = push_start(reference, manifest, digest);
            let state = push_after(start.state, inputs, count);
            let action = action_before(reference, manifest, digest, inputs, count);
            let step = push_step(state, inputs[count]);
            &&& inputs[count] is Absent ==> action is Ask && (action == PushActionModel::Ask(blob)
                ==> step.action == PushActionModel::Read(blob) && step.events.len() == 0)
            &&& inputs[count] matches PushInput::Read(size) ==> action is Read && (action
                == PushActionModel::Read(blob) ==> step.action == PushActionModel::Upload(blob)
                && step.events == seq![PushEventModel::UploadingBlob { digest: blob, size }])
            &&& inputs[count] is Found ==> action is Ask && (action == PushActionModel::Ask(blob)
                ==> step.events == seq![PushEventModel::BlobMounted { digest: blob }])
            &&& inputs[count] is Uploaded ==> action is Upload && (action
                == PushActionModel::Upload(blob) ==> count > 0 && (inputs[count - 1] matches
                PushInput::Read(size) && step.events == seq![
                PushEventModel::BlobUploaded { digest: blob, size },
            ]))
            &&& inputs[count] is ManifestTaken ==> action is PutManifest && step.action is Done
                && step.events == seq![
                PushEventModel::ManifestUploaded { digest },
                PushEventModel::Complete { reference: reference_text(reference), digest },
            ]
            &&& start.events == seq![
                PushEventModel::Started { reference: reference_text(reference) },
            ]
        }),
{
    let start = push_start(reference, manifest, digest).state;
    lemma_expected_before(start, inputs, count + 1);
    lemma_push_is_at_its_blob(reference, manifest, digest, inputs, count);
    lemma_push_is_told_as_it_is(reference, manifest, digest, inputs, count);
    lemma_step_tells_of_its_blob(
        push_after(start, inputs, count),
        action_before(reference, manifest, digest, inputs, count),
        inputs[count],
        blob,
    );
}

proof fn lemma_step_tells_of_its_blob(
    state: PushModel,
    action: PushActionModel,
    input: PushInput,
    blob: Seq<char>,
)
    requires
        is_about_its_blob(state, action),
        expects(state, input),
    ensures
        ({
            let step = push_step(state, input);
            &&& input is Absent ==> action is Ask && (action == PushActionModel::Ask(blob) ==> {
                &&& step.action == PushActionModel::Read(blob)
                &&& step.events.len() == 0
            })
            &&& input matches PushInput::Read(size) ==> action is Read && (action
                == PushActionModel::Read(blob) ==> {
                &&& step.action == PushActionModel::Upload(blob)
                &&& step.events == seq![PushEventModel::UploadingBlob { digest: blob, size }]
            })
            &&& input is Found ==> action is Ask && (action == PushActionModel::Ask(blob)
                ==> step.events == seq![PushEventModel::BlobMounted { digest: blob }])
            &&& input is Uploaded ==> action is Upload && (state.phase matches
                PushPhase::Uploading(size) && (action == PushActionModel::Upload(blob)
                ==> step.events == seq![PushEventModel::BlobUploaded { digest: blob, size }]))
            &&& input is ManifestTaken ==> action is PutManifest && step.action is Done
                && step.events == seq![
                PushEventModel::ManifestUploaded { digest: state.digest },
                PushEventModel::Complete { reference: state.reference, digest: state.digest },
            ]
        }),
{
}

/// A push tells of the reference and the digest that it began with, and of the size that
/// was read last.
proof fn lemma_push_is_told_as_it_is(
    reference: ReferenceModel,
    manifest: ManifestModel,
    digest: Seq<char>,
    inputs: Seq<PushInput>,
    count: int,
)
    requires
        0 <= count <= inputs.len(),
        all_expected(push_start(reference, manifest, digest).state, inputs, count),
    ensures
        ({
            let state = push_after(push_start(reference, manifest, digest).state, inputs, count);
            &&& state.reference == reference_text(reference)
            &&& state.digest == digest
            &&& state.phase matches PushPhase::Uploading(size) ==> count > 0 && inputs[count - 1]
                == PushInput::Read(size)
        }),
    decreases count,
{
    let start = push_start(reference, manifest, digest).state;
    if count > 0 {
        lemma_expected_before(start, inputs, count);
        lemma_push_is_told_as_it_is(reference, manifest, digest, inputs, count - 1);
    }
}

/// When the manifest goes up, and when the push is done, the registry has the
/// configuration and each layer of the image under its own digest: each was asked for and
/// found, or it was uploaded.
pub proof fn registries_have_every_blob(
    reference: ReferenceModel,
    manifest: ManifestModel,
    digest: Seq<char>,
    inputs: Seq<PushInput>,
    count: int,
)
    requires
        0 <= count <= inputs.len(),
        all_expected(push_start(reference, manifest, digest).state, inputs, count),
        action_before(reference, manifest, digest, inputs, count) is PutManifest || action_before(
            reference,
            manifest,
            digest,
            inputs,
            count,
        ) is Done,
    ensures
        registry_has(reference, manifest, digest, inputs, count, manifest.config.digest),
        forall|i: int|
            0 <= i < manifest.layers.len() ==> registry_has(
                reference,
                manifest,
                digest,
                inputs,
                count,
                (#[trigger] manifest.layers[i]).digest,
            ),
{
    lemma_push_is_at_its_blob(reference, manifest, digest, inputs, count);
    let blobs = blobs_of(manifest);
    assert(blobs[0] == manifest.config.digest);
    lemma_blobs_before_are_there(reference, manifest, digest, inputs, count, 0);
    assert forall|i: int| 0 <= i < manifest.layers.len() implies registry_has(
        reference,
        manifest,
        digest,
        inputs,
        count,
        (#[trigger] manifest.layers[i]).digest,
    ) by {
        assert(blobs[i + 1] == manifest.layers[i].digest);
        lemma_blobs_before_are_there(reference, manifest, digest, inputs, count, i + 1);
    }
}

/// A push begins with the configuration and goes through the layers in order: the blob
/// that is asked for is the configuration where no blob was dealt with yet, and the layer
/// of that number otherwise.
pub proof fn blobs_are_asked_for_in_order(
    reference: ReferenceModel,
    manifest: ManifestModel,
    digest: Seq<char>,
    inputs: Seq<PushInput>,
    count: int,
)
    requires
        0 <= count <= inputs.len(),
        all_expected(push_start(reference, manifest, digest).state, inputs, count),
    ensures
        action_before(reference, manifest, digest, inputs, count) matches PushActionModel::Ask(blob)
            ==> {
            let done = blobs_there(inputs, count);
            &&& 0 <= done <= manifest.layers.len()
            &&& done == 0 ==> blob == manifest.config.digest
            &&& done > 0 ==> blob == manifest.layers[done - 1].digest
        },
{
    lemma_push_is_at_its_blob(reference, manifest, digest, inputs, count);
}

/// The content of a blob goes where the registry said, with the digest at the end of the
/// address: a place that begins with a slash is one below the endpoint, and what the
/// place asks for already stays.
pub proof fn uploads_go_where_told(
    endpoint: Seq<char>,
    location: Seq<char>,
    digest: Seq<char>,
)
    ensures
        ends(upload_address(endpoint, location, digest), "digest="@ + digest),
        location.len() > 0 && location[0] == '/' ==> begins(
            upload_address(endpoint, location, digest),
            endpoint + location,
        ),
        location.len() > 0 && location[0] != '/' ==> begins(
            upload_address(endpoint, location, digest),
            location,
        ),
        !endpoint.contains('?') && !location.contains('?') ==> ends(
            upload_address(endpoint, location, digest),
            "?digest="@ + digest,
        ),
        location.contains('?') ==> ends(
            upload_address(endpoint, location, digest),
            "&digest="@ + digest,
        ),
{
    reveal_strlit("/");
    reveal_strlit("?");
    reveal_strlit("&");
    reveal_strlit("digest=");
    reveal_strlit("?digest=");
    reveal_strlit("&digest=");
    let address = upload_address(endpoint, location, digest);
    assert("?"@ + "digest="@ =~= "?digest="@);
    assert("&"@ + "digest="@ =~= "&digest="@);
    if location.len() > 0 {
        assert((location.take(1) == "/"@) == (location[0] == '/')) by {
            if location[0] == '/' {
                assert(location.take(1) =~= "/"@);
            } else {
                assert(location.take(1)[0] != "/"@[0]);
            }
        }
    }
    let place = if begins(location, "/"@) {
        endpoint + location
    } else {
        location
    };
    assert(address.take(place.len() as int) =~= place);
    let tail = "digest="@ + digest;
    assert(address.skip(address.len() - tail.len()) =~= tail);
    if location.contains('?') {
        let at = location.index_of('?');
        if begins(location, "/"@) {
            assert(place[endpoint.len() + at] == '?');
        }
        assert(place.contains('?'));
        let tail = "&digest="@ + digest;
        assert(address.skip(address.len() - tail.len()) =~= tail);
    } else if !endpoint.contains('?') {
        if place.contains('?') {
            let at = place.index_of('?');
            assert(place[at] == '?');
            if begins(location, "/"@) {
                if at < endpoint.len() {
                    assert(endpoint[at] == '?');
                } else {
                    assert(location[at - endpoint.len()] == '?');
                }
            }
        }
        let tail = "?digest="@ + digest;
        assert(address.skip(address.len() - tail.len()) =~= tail);
    }
}

/// A push waits for the answers to what it last did, and for nothing else: asked for, a
/// blob is found or absent; what is to be read or uploaded is read or uploaded, and the
/// manifest is taken.
pub proof fn pushes_wait_for_the_answer(
    reference: ReferenceModel,
    manifest: ManifestModel,
    digest: Seq<char>,
    inputs: Seq<PushInput>,
    count: int,
    input: PushInput,
)
    requires
        0 <= count <= inputs.len(),
        all_expected(push_start(reference, manifest, digest).state, inputs, count),
    ensures
        expects(push_after(push_start(reference, manifest, digest).state, inputs, count), input)
            == match action_before(reference, manifest, digest, inputs, count) {
            PushActionModel::Ask(_) => input is Found || input is Absent,
            PushActionModel::Read(_) => input is Read,
            PushActionModel::Upload(_) => input is Uploaded,
            PushActionModel::PutManifest => input is ManifestTaken,
            PushActionModel::Done => false,
        },
{
    lemma_push_is_at_its_blob(reference, manifest, digest, inputs, count);
}

/// What was sent was taken exactly where the answer tells of success; any other answer is
/// told by its status and what it says.
pub proof fn only_success_is_taken(status: u16, body: Seq<char>)
    ensures
        refused(status, body) is None <==> 200 <= status < 300,
        refused(status, body) matches Some(problem) ==> (problem matches
            RegistryErrorModel::InvalidResponse(message) && begins(message, decimal(status as nat))
            && ends(message, body)),
{
    let message = decimal(status as nat) + ": "@ + body;
    let front = decimal(status as nat);
    assert(message.take(front.len() as int) =~= front);
    assert(message.skip(message.len() - body.len()) =~= body);
}

} // verus!
