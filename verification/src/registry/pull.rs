//! A pull, step by step: what is done next, and what is told on the way.
use crate::digest::{content_digest, digest_of, is_content_digest, is_hex_digit};
use crate::image::reference::{ImageReference, ReferenceModel};
use crate::image::{ImageConfigModel, ImageModel, ManifestModel, OciImage, OciImageConfig};
use crate::image::store::{blob_file, holds_blob, keeps_blobs, reference_digest, reference_file};
use crate::image::store::{stored_references_resolve, Disk, ImageErrorModel};
use crate::image::{DescriptorModel, OciManifest};
use crate::registry::client::{addresses_name_what_they_lead_to, check_config};
use crate::registry::client::{check_stored_config, choose_manifest, chosen_manifest};
use crate::registry::client::{manifest_address, mismatch, outcome_events, platform_from};
use crate::registry::client::PlatformManifest;
use crate::registry::client::{tally_after, LayerOutcome, LayerTally, PullEvent, PullEventModel};
use crate::registry::client::{RegistryError, RegistryErrorModel, TallyModel};
use crate::text::{ends, glue, same_text, white_space};
use vstd::prelude::*;

verus! {

// ---------------------------------------------------------------------------
// States, inputs and actions
// ---------------------------------------------------------------------------
/// A manifest with the digest of its bytes.
pub struct Resolved {
    pub manifest: OciManifest,
    pub digest: String,
}

/// A [`Resolved`] as a mathematical value.
#[verifier::ext_equal]
pub struct ResolvedModel {
    pub manifest: ManifestModel,
    pub digest: Seq<char>,
}

impl DeepView for Resolved {
    type V = ResolvedModel;

    open spec fn deep_view(&self) -> ResolvedModel {
        ResolvedModel { manifest: self.manifest.deep_view(), digest: self.digest@ }
    }
}

/// What the body of a manifest holds.
pub enum ManifestBody {
    /// The manifest of an image.
    Single(OciManifest),
    /// Manifests for several platforms.
    List(Vec<PlatformManifest>),
}

/// What is done with a manifest.
pub enum ManifestStep {
    /// It is the one of the image.
    Resolved(Resolved),
    /// The manifest of this reference is got.
    Fetch(ImageReference),
}

/// A [`ManifestStep`] as a mathematical value.
#[verifier::ext_equal]
pub enum ManifestStepModel {
    Resolved(ResolvedModel),
    Fetch(ReferenceModel),
}

impl DeepView for ManifestStep {
    type V = ManifestStepModel;

    open spec fn deep_view(&self) -> ManifestStepModel {
        match self {
            ManifestStep::Resolved(resolved) => ManifestStepModel::Resolved(resolved.deep_view()),
            ManifestStep::Fetch(reference) => ManifestStepModel::Fetch(reference.deep_view()),
        }
    }
}

/// What is done with a manifest: that of an image is known by the digest of its body,
/// and of a list the manifest for this platform is got, by its digest.
pub open spec fn manifest_step(
    reference: ReferenceModel,
    body: Seq<u8>,
    parsed: ManifestBody,
    architecture: Seq<char>,
    os: Seq<char>,
) -> Result<ManifestStepModel, RegistryErrorModel> {
    match parsed {
        ManifestBody::Single(manifest) => Ok(
            ManifestStepModel::Resolved(
                ResolvedModel { manifest: manifest.deep_view(), digest: digest_of(body) },
            ),
        ),
        ManifestBody::List(list) => match chosen_manifest(list@, architecture, os) {
            Ok(digest) => Ok(
                ManifestStepModel::Fetch(ReferenceModel { digest: Some(digest), ..reference }),
            ),
            Err(problem) => Err(problem),
        },
    }
}

/// What is done with a manifest, given what its body holds.
pub fn after_manifest(
    reference: &ImageReference,
    body: &[u8],
    parsed: ManifestBody,
    architecture: &str,
    os: &str,
) -> (result: Result<ManifestStep, RegistryError>)
    ensures
        match manifest_step(reference.deep_view(), body@, parsed, architecture@, os@) {
            Ok(step) => result matches Ok(found) && found.deep_view() == step,
            Err(problem) => result matches Err(error) && error.deep_view() == problem,
        },
{
    match parsed {
        ManifestBody::Single(manifest) => Ok(
            ManifestStep::Resolved(Resolved { manifest, digest: content_digest(body) }),
        ),
        ManifestBody::List(list) => match choose_manifest(&list, architecture, os) {
            Ok(digest) => Ok(ManifestStep::Fetch(reference.with_digest(&digest))),
            Err(problem) => Err(problem),
        },
    }
}

/// How far a pull has got.
pub enum PullState {
    /// The manifest is being resolved.
    Resolving,
    /// The configuration is being downloaded.
    FetchingConfig { resolved: Resolved },
    /// The configuration is being read and stored.
    StoringConfig { resolved: Resolved },
    /// The layers are being downloaded.
    FetchingLayers { resolved: Resolved, config: OciImageConfig, tally: LayerTally },
    /// The manifest is being stored.
    StoringManifest { resolved: Resolved, config: OciImageConfig, size: u64 },
    /// The reference is being stored.
    StoringReference {
        resolved: Resolved,
        config: OciImageConfig,
        size: u64,
        stored: String,
    },
    /// The pull is over.
    Ended,
}

/// A [`PullState`] as a mathematical value.
#[verifier::ext_equal]
pub enum PullModel {
    Resolving,
    FetchingConfig { resolved: ResolvedModel },
    StoringConfig { resolved: ResolvedModel },
    FetchingLayers { resolved: ResolvedModel, config: ImageConfigModel, tally: TallyModel },
    StoringManifest { resolved: ResolvedModel, config: ImageConfigModel, size: int },
    StoringReference {
        resolved: ResolvedModel,
        config: ImageConfigModel,
        size: int,
        stored: Seq<char>,
    },
    Ended,
}

impl DeepView for PullState {
    type V = PullModel;

    open spec fn deep_view(&self) -> PullModel {
        match self {
            PullState::Resolving => PullModel::Resolving,
            PullState::FetchingConfig { resolved } => PullModel::FetchingConfig {
                resolved: resolved.deep_view(),
            },
            PullState::StoringConfig { resolved } => PullModel::StoringConfig {
                resolved: resolved.deep_view(),
            },
            PullState::FetchingLayers { resolved, config, tally } => PullModel::FetchingLayers {
                resolved: resolved.deep_view(),
                config: config.deep_view(),
                tally: tally@,
            },
            PullState::StoringManifest { resolved, config, size } => PullModel::StoringManifest {
                resolved: resolved.deep_view(),
                config: config.deep_view(),
                size: *size as int,
            },
            PullState::StoringReference { resolved, config, size, stored } => {
                PullModel::StoringReference {
                    resolved: resolved.deep_view(),
                    config: config.deep_view(),
                    size: *size as int,
                    stored: stored@,
                }
            },
            PullState::Ended => PullModel::Ended,
        }
    }
}

/// What was done for a pull.
pub enum PullInput {
    /// The manifest is resolved.
    ManifestResolved(Resolved),
    /// The configuration is downloaded.
    ConfigFetched(Vec<u8>),
    /// The configuration is read, and stored under a digest.
    ConfigStored { config: OciImageConfig, digest: String },
    /// The download of the next layer ended.
    Layer(LayerOutcome),
    /// The manifest is stored under a digest.
    ManifestStored(String),
    /// The reference is stored.
    ReferenceStored,
}

/// What is to be done for a pull.
pub enum PullAction {
    /// Download the configuration of this digest.
    FetchConfig(String),
    /// Read the configuration and store it.
    StoreConfig,
    /// Download the layers of these digests, and wait for the first.
    FetchLayers(Vec<String>),
    /// Wait for the next layer.
    AwaitLayer,
    /// Store the manifest.
    StoreManifest,
    /// Let the reference lead to the manifest of this digest.
    StoreReference(String),
    /// Nothing: this is the image.
    Done(OciImage),
    /// Nothing: the pull failed.
    Fail(RegistryError),
}

/// A [`PullAction`] as a mathematical value.
#[verifier::ext_equal]
pub enum PullActionModel {
    FetchConfig(Seq<char>),
    StoreConfig,
    FetchLayers(Seq<Seq<char>>),
    AwaitLayer,
    StoreManifest,
    StoreReference(Seq<char>),
    Done(ImageModel),
    Fail(RegistryErrorModel),
}

impl DeepView for PullAction {
    type V = PullActionModel;

    open spec fn deep_view(&self) -> PullActionModel {
        match self {
            PullAction::FetchConfig(digest) => PullActionModel::FetchConfig(digest@),
            PullAction::StoreConfig => PullActionModel::StoreConfig,
            PullAction::FetchLayers(digests) => PullActionModel::FetchLayers(digests.deep_view()),
            PullAction::AwaitLayer => PullActionModel::AwaitLayer,
            PullAction::StoreManifest => PullActionModel::StoreManifest,
            PullAction::StoreReference(digest) => PullActionModel::StoreReference(digest@),
            PullAction::Done(image) => PullActionModel::Done(image.deep_view()),
            PullAction::Fail(problem) => PullActionModel::Fail(problem.deep_view()),
        }
    }
}

/// One step of a pull: where it leads, what is told, and what is to be done.
pub struct PullStep {
    pub state: PullState,
    pub events: Vec<PullEvent>,
    pub action: PullAction,
}

/// A [`PullStep`] as a mathematical value.
#[verifier::ext_equal]
pub struct PullStepModel {
    pub state: PullModel,
    pub events: Seq<PullEventModel>,
    pub action: PullActionModel,
}

impl DeepView for PullStep {
    type V = PullStepModel;

    open spec fn deep_view(&self) -> PullStepModel {
        PullStepModel {
            state: self.state.deep_view(),
            events: self.events.deep_view(),
            action: self.action.deep_view(),
        }
    }
}

// ---------------------------------------------------------------------------
// Steps
// ---------------------------------------------------------------------------
/// While layers are downloaded, the tally is that of the manifest's layers, and some
/// are missing.
pub open spec fn is_state(state: PullModel) -> bool {
    state matches PullModel::FetchingLayers { resolved, tally, .. } ==> {
        &&& tally.total == resolved.manifest.layers.len()
        &&& 0 <= tally.done < tally.total
    }
}

/// The digests of the layers of a manifest, in order.
pub open spec fn layer_digests(layers: Seq<DescriptorModel>) -> Seq<Seq<char>> {
    layers.map_values(|layer: DescriptorModel| layer.digest)
}

/// The outcome is that of the next layer of the manifest, where it is there.
pub open spec fn is_next_layer(
    resolved: ResolvedModel,
    tally: TallyModel,
    outcome: LayerOutcome,
) -> bool {
    outcome matches LayerOutcome::Present { digest, .. } ==> digest@ == layer_digests(
        resolved.manifest.layers,
    )[tally.done]
}

/// The input is the one that the state waits for; of a layer it is the next one of the
/// manifest, and the sizes of the layers can be added up.
pub open spec fn awaits(state: PullModel, input: PullInput) -> bool {
    match (state, input) {
        (PullModel::Resolving, PullInput::ManifestResolved(_)) => true,
        (PullModel::FetchingConfig { .. }, PullInput::ConfigFetched(_)) => true,
        (PullModel::StoringConfig { .. }, PullInput::ConfigStored { .. }) => true,
        (PullModel::FetchingLayers { resolved, tally, .. }, PullInput::Layer(outcome)) => {
            is_next_layer(resolved, tally, outcome) && tally_after(tally, outcome).size <= u64::MAX
        },
        (PullModel::StoringManifest { .. }, PullInput::ManifestStored(_)) => true,
        (PullModel::StoringReference { .. }, PullInput::ReferenceStored) => true,
        _ => false,
    }
}

/// The pull fails.
pub open spec fn failed(problem: RegistryErrorModel, events: Seq<PullEventModel>) -> PullStepModel {
    PullStepModel { state: PullModel::Ended, events, action: PullActionModel::Fail(problem) }
}

/// The step after the configuration was stored.
pub open spec fn after_config(
    resolved: ResolvedModel,
    config: ImageConfigModel,
    digest: Seq<char>,
) -> PullStepModel {
    let layers = resolved.manifest.layers;
    if digest != resolved.manifest.config.digest {
        failed(
            mismatch(
                "Config stored digest"@,
                resolved.manifest.config.digest,
                ", stored "@,
                digest,
            ),
            seq![],
        )
    } else if layers.len() == 0 {
        PullStepModel {
            state: PullModel::StoringManifest { resolved, config, size: 0 },
            events: seq![],
            action: PullActionModel::StoreManifest,
        }
    } else {
        PullStepModel {
            state: PullModel::FetchingLayers {
                resolved,
                config,
                tally: TallyModel { total: layers.len() as int, done: 0, size: 0 },
            },
            events: seq![],
            action: PullActionModel::FetchLayers(layer_digests(layers)),
        }
    }
}

/// The step after the download of a layer ended.
pub open spec fn after_layer(
    resolved: ResolvedModel,
    config: ImageConfigModel,
    tally: TallyModel,
    outcome: LayerOutcome,
) -> PullStepModel {
    let events = outcome_events(tally, outcome);
    let next = tally_after(tally, outcome);
    match outcome {
        LayerOutcome::Failed(problem) => failed(problem.deep_view(), events),
        LayerOutcome::Lost(reason) => failed(
            RegistryErrorModel::InvalidResponse("Download task failed: "@ + reason@),
            events,
        ),
        LayerOutcome::Present { .. } => if next.done < next.total {
            PullStepModel {
                state: PullModel::FetchingLayers { resolved, config, tally: next },
                events,
                action: PullActionModel::AwaitLayer,
            }
        } else {
            PullStepModel {
                state: PullModel::StoringManifest { resolved, config, size: next.size },
                events,
                action: PullActionModel::StoreManifest,
            }
        },
    }
}

/// The step that an input leads to.
pub open spec fn pull_step(
    state: PullModel,
    reference: ReferenceModel,
    input: PullInput,
) -> PullStepModel {
    match (state, input) {
        (PullModel::Resolving, PullInput::ManifestResolved(resolved)) => PullStepModel {
            state: PullModel::FetchingConfig { resolved: resolved.deep_view() },
            events: seq![
                PullEventModel::ManifestResolved {
                    digest: resolved.digest@,
                    layers: resolved.manifest.layers@.len() as int,
                },
            ],
            action: PullActionModel::FetchConfig(resolved.manifest.config.digest@),
        },
        (PullModel::FetchingConfig { resolved }, PullInput::ConfigFetched(data)) => {
            if digest_of(data@) == resolved.manifest.config.digest {
                PullStepModel {
                    state: PullModel::StoringConfig { resolved },
                    events: seq![],
                    action: PullActionModel::StoreConfig,
                }
            } else {
                failed(
                    mismatch(
                        "Config digest"@,
                        resolved.manifest.config.digest,
                        ", got "@,
                        digest_of(data@),
                    ),
                    seq![],
                )
            }
        },
        (PullModel::StoringConfig { resolved }, PullInput::ConfigStored { config, digest }) => {
            after_config(resolved, config.deep_view(), digest@)
        },
        (
            PullModel::FetchingLayers { resolved, config, tally },
            PullInput::Layer(outcome),
        ) => after_layer(resolved, config, tally, outcome),
        (
            PullModel::StoringManifest { resolved, config, size },
            PullInput::ManifestStored(stored),
        ) => PullStepModel {
            state: PullModel::StoringReference { resolved, config, size, stored: stored@ },
            events: seq![],
            action: PullActionModel::StoreReference(stored@),
        },
        (
            PullModel::StoringReference { resolved, config, size, stored },
            PullInput::ReferenceStored,
        ) => PullStepModel {
            state: PullModel::Ended,
            events: seq![PullEventModel::Complete { digest: resolved.digest, size }],
            action: PullActionModel::Done(
                ImageModel {
                    reference,
                    manifest: resolved.manifest,
                    config,
                    digest: stored,
                    size: size as u64,
                },
            ),
        },
        _ => PullStepModel { state, events: seq![], action: PullActionModel::AwaitLayer },
    }
}

/// The digests of the layers of a manifest, in order.
pub(crate) fn digests_of(manifest: &OciManifest) -> (digests: Vec<String>)
    ensures
        digests.deep_view() == layer_digests(manifest.deep_view().layers),
{
    let mut digests: Vec<String> = Vec::new();
    let ghost whole = layer_digests(manifest.deep_view().layers);
    let mut at: usize = 0;
    while at < manifest.layers.len()
        invariant
            whole == layer_digests(manifest.deep_view().layers),
            at <= manifest.layers@.len(),
            digests.deep_view() == whole.take(at as int),
        decreases manifest.layers@.len() - at,
    {
        let ghost before = digests.deep_view();
        let digest = manifest.layers[at].digest.clone();
        assert(whole[at as int] == digest@);
        digests.push(digest);
        assert(digests.deep_view() =~= before.push(digest@));
        at = at + 1;
        assert(digests.deep_view() =~= whole.take(at as int));
    }
    assert(whole.take(whole.len() as int) =~= whole);
    digests
}

impl PullState {
    /// The step that an input leads to.
    pub fn step(self, reference: &ImageReference, input: PullInput) -> (step: PullStep)
        requires
            is_state(self.deep_view()),
            awaits(self.deep_view(), input),
        ensures
            step.deep_view() == pull_step(self.deep_view(), reference.deep_view(), input),
            is_state(step.state.deep_view()),
    {
        let ghost before = self.deep_view();
        let mut events: Vec<PullEvent> = Vec::new();
        assert(events.deep_view() =~= seq![]);
        match (self, input) {
            (PullState::Resolving, PullInput::ManifestResolved(resolved)) => {
                let digest = resolved.manifest.config.digest.clone();
                let event = PullEvent::ManifestResolved {
                    digest: resolved.digest.clone(),
                    layers: resolved.manifest.layers.len(),
                };
                events.push(event);
                assert(events.deep_view() =~= seq![event.deep_view()]);
                PullStep {
                    state: PullState::FetchingConfig { resolved },
                    events,
                    action: PullAction::FetchConfig(digest),
                }
            },
            (PullState::FetchingConfig { resolved }, PullInput::ConfigFetched(data)) => {
                match check_config(&resolved.manifest.config.digest, &data) {
                    Ok(()) => PullStep {
                        state: PullState::StoringConfig { resolved },
                        events,
                        action: PullAction::StoreConfig,
                    },
                    Err(problem) => PullStep {
                        state: PullState::Ended,
                        events,
                        action: PullAction::Fail(problem),
                    },
                }
            },
            (PullState::StoringConfig { resolved }, PullInput::ConfigStored { config, digest }) => {
                match check_stored_config(&resolved.manifest.config.digest, &digest) {
                    Ok(()) => if resolved.manifest.layers.len() == 0 {
                        PullStep {
                            state: PullState::StoringManifest { resolved, config, size: 0 },
                            events,
                            action: PullAction::StoreManifest,
                        }
                    } else {
                        let digests = digests_of(&resolved.manifest);
                        let tally = LayerTally::new(resolved.manifest.layers.len());
                        PullStep {
                            state: PullState::FetchingLayers { resolved, config, tally },
                            events,
                            action: PullAction::FetchLayers(digests),
                        }
                    },
                    Err(problem) => PullStep {
                        state: PullState::Ended,
                        events,
                        action: PullAction::Fail(problem),
                    },
                }
            },
            (
                PullState::FetchingLayers { resolved, config, mut tally },
                PullInput::Layer(outcome),
            ) => {
                let events = tally.record(&outcome);
                match outcome {
                    LayerOutcome::Failed(problem) => PullStep {
                        state: PullState::Ended,
                        events,
                        action: PullAction::Fail(problem),
                    },
                    LayerOutcome::Lost(reason) => PullStep {
                        state: PullState::Ended,
                        events,
                        action: PullAction::Fail(
                            RegistryError::InvalidResponse(
                                glue("Download task failed: ", &reason),
                            ),
                        ),
                    },
                    LayerOutcome::Present { .. } => if tally.is_complete() {
                        let size = tally.size();
                        PullStep {
                            state: PullState::StoringManifest { resolved, config, size },
                            events,
                            action: PullAction::StoreManifest,
                        }
                    } else {
                        PullStep {
                            state: PullState::FetchingLayers { resolved, config, tally },
                            events,
                            action: PullAction::AwaitLayer,
                        }
                    },
                }
            },
            (
                PullState::StoringManifest { resolved, config, size },
                PullInput::ManifestStored(stored),
            ) => {
                let action = PullAction::StoreReference(stored.clone());
                PullStep {
                    state: PullState::StoringReference { resolved, config, size, stored },
                    events,
                    action,
                }
            },
            (
                PullState::StoringReference { resolved, config, size, stored },
                PullInput::ReferenceStored,
            ) => {
                let event = PullEvent::Complete { digest: resolved.digest, size };
                events.push(event);
                assert(events.deep_view() =~= seq![event.deep_view()]);
                PullStep {
                    state: PullState::Ended,
                    events,
                    action: PullAction::Done(
                        OciImage {
                            reference: reference.clone(),
                            manifest: resolved.manifest,
                            config,
                            digest: stored,
                            size,
                        },
                    ),
                }
            },
            (state, _) => PullStep { state, events, action: PullAction::AwaitLayer },
        }
    }

    /// Whether this is what a pull waits for: the next layer of the manifest, with a
    /// size that can still be added up.
    pub fn has_room(&self, outcome: &LayerOutcome) -> (room: bool)
        requires
            is_state(self.deep_view()),
        ensures
            room == awaits(self.deep_view(), PullInput::Layer(*outcome)),
    {
        match self {
            PullState::FetchingLayers { resolved, tally, .. } => {
                let is_next = match outcome {
                    LayerOutcome::Present { digest, .. } => {
                        let layer = &resolved.manifest.layers[tally.done()];
                        assert(layer_digests(resolved.deep_view().manifest.layers)[tally@.done]
                            == layer.digest@);
                        same_text(digest, &layer.digest)
                    },
                    _ => true,
                };
                is_next && tally.has_room(outcome)
            },
            _ => false,
        }
    }
}

// ---------------------------------------------------------------------------
// Laws
// ---------------------------------------------------------------------------
/// The state after the first `count` inputs.
pub open spec fn pull_after(
    reference: ReferenceModel,
    inputs: Seq<PullInput>,
    count: int,
) -> PullModel
    decreases count,
{
    if count <= 0 {
        PullModel::Resolving
    } else {
        pull_step(pull_after(reference, inputs, count - 1), reference, inputs[count - 1]).state
    }
}

/// Each of the first `count` inputs was awaited.
pub open spec fn all_awaited(
    reference: ReferenceModel,
    inputs: Seq<PullInput>,
    count: int,
) -> bool {
    forall|i: int|
        0 <= i < count ==> awaits(pull_after(reference, inputs, i), #[trigger] inputs[i])
}

/// The sizes of the layers that are there after the first `count` inputs, in order.
pub open spec fn present_layers(inputs: Seq<PullInput>, count: int) -> Seq<int>
    decreases count,
{
    if count <= 0 {
        seq![]
    } else {
        let before = present_layers(inputs, count - 1);
        match inputs[count - 1] {
            PullInput::Layer(LayerOutcome::Present { size, .. }) => before.push(size as int),
            _ => before,
        }
    }
}

/// The sum of some sizes.
pub open spec fn total_of(sizes: Seq<int>) -> int
    decreases sizes.len(),
{
    if sizes.len() == 0 {
        0
    } else {
        total_of(sizes.drop_last()) + sizes.last()
    }
}

/// What a state says of the layers is what came in.
pub open spec fn layers_counted(state: PullModel, sizes: Seq<int>) -> bool {
    match state {
        PullModel::Resolving => sizes.len() == 0,
        PullModel::FetchingConfig { .. } => sizes.len() == 0,
        PullModel::StoringConfig { .. } => sizes.len() == 0,
        PullModel::FetchingLayers { tally, .. } => {
            tally.done == sizes.len() && tally.size == total_of(sizes)
        },
        PullModel::StoringManifest { resolved, size, .. } => {
            sizes.len() == resolved.manifest.layers.len() && size == total_of(sizes)
        },
        PullModel::StoringReference { resolved, size, .. } => {
            sizes.len() == resolved.manifest.layers.len() && size == total_of(sizes)
        },
        PullModel::Ended => true,
    }
}

proof fn lemma_layers_counted(reference: ReferenceModel, inputs: Seq<PullInput>, count: int)
    requires
        0 <= count <= inputs.len(),
        all_awaited(reference, inputs, count),
    ensures
        is_state(pull_after(reference, inputs, count)),
        layers_counted(pull_after(reference, inputs, count), present_layers(inputs, count)),
    decreases count,
{
    if count > 0 {
        lemma_layers_counted(reference, inputs, count - 1);
        assert(awaits(pull_after(reference, inputs, count - 1), inputs[count - 1]));
        let before = present_layers(inputs, count - 1);
        let sizes = present_layers(inputs, count);
        if let PullInput::Layer(LayerOutcome::Present { size, .. }) = inputs[count - 1] {
            assert(sizes.drop_last() =~= before);
        }
    }
}

/// A reference leads to a manifest only when every layer of it is there: a pull that
/// stores its reference has had each of the manifest's layers, none of them failed,
/// and the size it tells is the sum of theirs.
pub proof fn references_are_stored_last(
    reference: ReferenceModel,
    inputs: Seq<PullInput>,
    count: int,
)
    requires
        0 <= count < inputs.len(),
        all_awaited(reference, inputs, count + 1),
    ensures
        pull_step(pull_after(reference, inputs, count), reference, inputs[count]).action is
            StoreReference ==> {
            let state = pull_after(reference, inputs, count + 1);
            let sizes = present_layers(inputs, count + 1);
            &&& state matches PullModel::StoringReference { resolved, size, .. }
            &&& sizes.len() == resolved.manifest.layers.len()
            &&& size == total_of(sizes)
        },
{
    lemma_layers_counted(reference, inputs, count + 1);
    assert(awaits(pull_after(reference, inputs, count), inputs[count]));
}

/// A layer that failed ends the pull: nothing is stored after it.
pub proof fn failed_layers_end_the_pull(
    state: PullModel,
    reference: ReferenceModel,
    outcome: LayerOutcome,
)
    requires
        awaits(state, PullInput::Layer(outcome)),
        !(outcome is Present),
    ensures
        pull_step(state, reference, PullInput::Layer(outcome)).state is Ended,
        pull_step(state, reference, PullInput::Layer(outcome)).action is Fail,
{
}

/// A store on disk: the blobs, and the files of the references.
#[verifier::ext_equal]
pub struct StoreModel {
    pub blobs: Disk,
    pub references: Map<Seq<char>, Seq<char>>,
}

/// What a pull writes to, and what it pulls: the directories of the blobs and of the
/// references, the reference, and the bytes of its manifest.
pub struct PullSite {
    pub base: Seq<char>,
    pub metadata: Seq<char>,
    pub reference: ReferenceModel,
    pub body: Seq<u8>,
}

/// What an input tells was done to the store: a blob that was stored or found is there
/// and has its size, the reference leads to the stored manifest, and no blob is lost.
/// The manifest is stored, and its digest told, by the bytes of its body.
pub open spec fn performed(
    site: PullSite,
    state: PullModel,
    before: StoreModel,
    after: StoreModel,
    input: PullInput,
) -> bool {
    &&& keeps_blobs(before.blobs, after.blobs, site.base)
    &&& match input {
        PullInput::ManifestResolved(resolved) => resolved.digest@ == digest_of(site.body),
        PullInput::ConfigFetched(_) => true,
        PullInput::ConfigStored { digest, .. } => holds_blob(after.blobs, site.base, digest@),
        PullInput::Layer(LayerOutcome::Present { digest, size, .. }) => {
            &&& holds_blob(after.blobs, site.base, digest@)
            &&& after.blobs[blob_file(site.base, digest@)].len() == size
        },
        PullInput::Layer(_) => true,
        PullInput::ManifestStored(digest) => {
            digest@ == digest_of(site.body) && holds_blob(after.blobs, site.base, digest@)
        },
        PullInput::ReferenceStored => {
            &&& state matches PullModel::StoringReference { stored, .. }
            &&& after.references == before.references.insert(
                reference_file(site.metadata, site.reference),
                stored,
            )
        },
    }
}

/// The lengths of the first `count` layers on disk, added up.
pub open spec fn layer_bytes(
    disk: Disk,
    base: Seq<char>,
    layers: Seq<DescriptorModel>,
    count: int,
) -> int
    decreases count,
{
    if count <= 0 {
        0
    } else {
        layer_bytes(disk, base, layers, count - 1) + disk[blob_file(
            base,
            layers[count - 1].digest,
        )].len()
    }
}

/// The first `count` layers are on disk.
pub open spec fn holds_layers(
    disk: Disk,
    base: Seq<char>,
    layers: Seq<DescriptorModel>,
    count: int,
) -> bool {
    forall|i: int| 0 <= i < count ==> holds_blob(disk, base, (#[trigger] layers[i]).digest)
}

/// What a pull says it has is on disk.
spec fn pulled_so_far(site: PullSite, disk: Disk, state: PullModel) -> bool {
    match state {
        PullModel::Resolving => true,
        PullModel::FetchingConfig { resolved } => resolved.digest == digest_of(site.body),
        PullModel::StoringConfig { resolved } => resolved.digest == digest_of(site.body),
        PullModel::FetchingLayers { resolved, tally, .. } => {
            &&& resolved.digest == digest_of(site.body)
            &&& holds_blob(disk, site.base, resolved.manifest.config.digest)
            &&& holds_layers(disk, site.base, resolved.manifest.layers, tally.done)
            &&& tally.size == layer_bytes(disk, site.base, resolved.manifest.layers, tally.done)
        },
        PullModel::StoringManifest { resolved, size, .. } => {
            let layers = resolved.manifest.layers;
            &&& resolved.digest == digest_of(site.body)
            &&& holds_blob(disk, site.base, resolved.manifest.config.digest)
            &&& holds_layers(disk, site.base, layers, layers.len() as int)
            &&& size == layer_bytes(disk, site.base, layers, layers.len() as int)
        },
        PullModel::StoringReference { resolved, size, stored, .. } => {
            let layers = resolved.manifest.layers;
            &&& resolved.digest == digest_of(site.body)
            &&& stored == digest_of(site.body)
            &&& holds_blob(disk, site.base, stored)
            &&& holds_blob(disk, site.base, resolved.manifest.config.digest)
            &&& holds_layers(disk, site.base, layers, layers.len() as int)
            &&& size == layer_bytes(disk, site.base, layers, layers.len() as int)
        },
        PullModel::Ended => true,
    }
}

/// Layers that are on disk stay, with their lengths.
proof fn lemma_layers_stay(
    before: Disk,
    after: Disk,
    base: Seq<char>,
    layers: Seq<DescriptorModel>,
    count: int,
)
    requires
        keeps_blobs(before, after, base),
        holds_layers(before, base, layers, count),
        count <= layers.len(),
    ensures
        holds_layers(after, base, layers, count),
        layer_bytes(after, base, layers, count) == layer_bytes(before, base, layers, count),
    decreases count,
{
    if count > 0 {
        lemma_layers_stay(before, after, base, layers, count - 1);
        assert(holds_blob(before, base, layers[count - 1].digest));
    }
}

/// One step of a pull keeps what it says and what is on disk together.
proof fn lemma_pulled_step(
    site: PullSite,
    state: PullModel,
    before: StoreModel,
    after: StoreModel,
    input: PullInput,
)
    requires
        is_state(state),
        awaits(state, input),
        performed(site, state, before, after, input),
        pulled_so_far(site, before.blobs, state),
    ensures
        pulled_so_far(site, after.blobs, pull_step(state, site.reference, input).state),
{
    let next = pull_step(state, site.reference, input).state;
    match state {
        PullModel::FetchingLayers { resolved, tally, .. } => {
            let layers = resolved.manifest.layers;
            lemma_layers_stay(before.blobs, after.blobs, site.base, layers, tally.done);
            assert(holds_blob(before.blobs, site.base, resolved.manifest.config.digest));
            if let PullInput::Layer(LayerOutcome::Present { digest, .. }) = input {
                assert(layer_digests(layers)[tally.done] == layers[tally.done].digest);
                assert(holds_layers(after.blobs, site.base, layers, tally.done + 1));
            }
        },
        PullModel::StoringManifest { resolved, .. } => {
            let layers = resolved.manifest.layers;
            lemma_layers_stay(
                before.blobs,
                after.blobs,
                site.base,
                layers,
                layers.len() as int,
            );
            assert(holds_blob(before.blobs, site.base, resolved.manifest.config.digest));
        },
        _ => {},
    }
}

/// The inputs were awaited, and each tells what was done to the store in its turn.
pub open spec fn is_run(
    site: PullSite,
    inputs: Seq<PullInput>,
    stores: Seq<StoreModel>,
    count: int,
) -> bool {
    &&& 0 <= count <= inputs.len()
    &&& stores.len() > count
    &&& all_awaited(site.reference, inputs, count)
    &&& forall|i: int|
        0 <= i < count ==> performed(
            site,
            pull_after(site.reference, inputs, i),
            stores[i],
            stores[i + 1],
            #[trigger] inputs[i],
        )
}

proof fn lemma_pulled(
    site: PullSite,
    inputs: Seq<PullInput>,
    stores: Seq<StoreModel>,
    count: int,
)
    requires
        is_run(site, inputs, stores, count),
    ensures
        pulled_so_far(
            site,
            stores[count].blobs,
            pull_after(site.reference, inputs, count),
        ),
    decreases count,
{
    if count > 0 {
        let before = count - 1;
        assert(is_run(site, inputs, stores, before));
        lemma_pulled(site, inputs, stores, before);
        lemma_layers_counted(site.reference, inputs, before);
        assert(awaits(pull_after(site.reference, inputs, before), inputs[before]));
        lemma_pulled_step(
            site,
            pull_after(site.reference, inputs, before),
            stores[before],
            stores[count],
            inputs[before],
        );
    }
}

/// A pull that is done leaves the image behind: the reference resolves to the digest of
/// the image, its manifest, its configuration and every layer are on disk under their
/// digests, the size is that of the layers' files, and the last thing told is the
/// digest and the size.
pub proof fn pulled_images_are_there(
    site: PullSite,
    inputs: Seq<PullInput>,
    stores: Seq<StoreModel>,
    count: int,
)
    requires
        is_run(site, inputs, stores, count + 1),
        0 <= count,
    ensures
        pull_step(pull_after(site.reference, inputs, count), site.reference, inputs[count]).action
            matches PullActionModel::Done(image) ==> {
            let step = pull_step(
                pull_after(site.reference, inputs, count),
                site.reference,
                inputs[count],
            );
            let store = stores[count + 1];
            let file = reference_file(site.metadata, site.reference);
            let layers = image.manifest.layers;
            &&& image.reference == site.reference
            &&& image.digest == digest_of(site.body)
            &&& store.references.contains_key(file)
            &&& reference_digest(Ok(Some(store.references[file]))) == Ok::<
                Option<Seq<char>>,
                ImageErrorModel,
            >(Some(image.digest))
            &&& holds_blob(store.blobs, site.base, image.digest)
            &&& holds_blob(store.blobs, site.base, image.manifest.config.digest)
            &&& holds_layers(store.blobs, site.base, layers, layers.len() as int)
            &&& image.size == layer_bytes(store.blobs, site.base, layers, layers.len() as int)
            &&& step.events == seq![
                PullEventModel::Complete { digest: image.digest, size: image.size as int },
            ]
        },
{
    let state = pull_after(site.reference, inputs, count);
    let step = pull_step(state, site.reference, inputs[count]);
    if let PullActionModel::Done(image) = step.action {
        let before = stores[count];
        let after = stores[count + 1];
        assert(awaits(state, inputs[count]));
        assert(performed(site, state, before, after, inputs[count]));
        assert(is_run(site, inputs, stores, count));
        lemma_pulled(site, inputs, stores, count);
        lemma_sizes_fit(site.reference, inputs, count);
        let layers = image.manifest.layers;
        lemma_layers_stay(before.blobs, after.blobs, site.base, layers, layers.len() as int);
        assert(holds_blob(before.blobs, site.base, image.digest));
        assert(holds_blob(before.blobs, site.base, image.manifest.config.digest));
        lemma_digest_ends(image.digest);
        stored_references_resolve(
            before.references,
            site.metadata,
            site.reference,
            image.digest,
        );
    }
}

/// The digest of content neither begins nor ends with white space.
proof fn lemma_digest_ends(digest: Seq<char>)
    requires
        is_content_digest(digest),
    ensures
        !white_space(digest[0]),
        !white_space(digest.last()),
{
    reveal_strlit("sha256:");
    assert(digest.take(7)[0] == digest[0]);
    assert(is_hex_digit(digest[70]));
}

/// The size that a pull tells fits.
proof fn lemma_sizes_fit(reference: ReferenceModel, inputs: Seq<PullInput>, count: int)
    requires
        0 <= count <= inputs.len(),
        all_awaited(reference, inputs, count),
    ensures
        match pull_after(reference, inputs, count) {
            PullModel::FetchingLayers { tally, .. } => 0 <= tally.size <= u64::MAX,
            PullModel::StoringManifest { size, .. } => 0 <= size <= u64::MAX,
            PullModel::StoringReference { size, .. } => 0 <= size <= u64::MAX,
            _ => true,
        },
    decreases count,
{
    if count > 0 {
        lemma_sizes_fit(reference, inputs, count - 1);
        assert(awaits(pull_after(reference, inputs, count - 1), inputs[count - 1]));
    }
}

// ---------------------------------------------------------------------------
// Laws of manifests and steps
// ---------------------------------------------------------------------------
/// The manifest of an image is taken as it is and known by the digest of its body. A list
/// leads on to one of its own manifests: to the same repository of the same registry, at
/// the digest of a manifest for this platform or for Linux on amd64, and the address that
/// is asked next ends in that digest.
pub proof fn manifests_lead_to_an_image(
    reference: ReferenceModel,
    body: Seq<u8>,
    parsed: ManifestBody,
    architecture: Seq<char>,
    os: Seq<char>,
)
    ensures
        parsed matches ManifestBody::Single(manifest) ==> (manifest_step(
            reference,
            body,
            parsed,
            architecture,
            os,
        ) matches Ok(ManifestStepModel::Resolved(resolved)) && resolved.manifest
            == manifest.deep_view() && resolved.digest == digest_of(body)),
        parsed matches ManifestBody::List(list) ==> (manifest_step(
            reference,
            body,
            parsed,
            architecture,
            os,
        ) matches Ok(step) ==> (step matches ManifestStepModel::Fetch(next) && {
            &&& next.registry == reference.registry
            &&& next.repository == reference.repository
            &&& next.digest matches Some(digest) && ends(
                manifest_address(next),
                "/manifests/"@ + digest,
            ) && exists|i: int|
                0 <= i < list@.len() && #[trigger] list@[i].digest@ == digest && ((
                list@[i].architecture@ == architecture && list@[i].os@ == os) || (
                list@[i].architecture@ == "amd64"@ && list@[i].os@ == "linux"@))
        })),
        parsed matches ManifestBody::List(list) ==> (manifest_step(
            reference,
            body,
            parsed,
            architecture,
            os,
        ) is Err <==> forall|i: int|
            0 <= i < list@.len() ==> !((#[trigger] list@[i]).architecture@ == architecture
                && list@[i].os@ == os) && !(list@[i].architecture@ == "amd64"@ && list@[i].os@
                == "linux"@)),
{
    if let ManifestBody::List(list) = parsed {
        lemma_platform_from(list@, architecture, os, 0);
        lemma_platform_from(list@, "amd64"@, "linux"@, 0);
        if let Ok(ManifestStepModel::Fetch(next)) = manifest_step(
            reference,
            body,
            parsed,
            architecture,
            os,
        ) {
            addresses_name_what_they_lead_to(next, seq![]);
            let own = platform_from(list@, architecture, os, 0);
            let common = platform_from(list@, "amd64"@, "linux"@, 0);
            if own < list@.len() {
                assert(list@[own].digest@ == next.digest->0);
            } else {
                assert(list@[common].digest@ == next.digest->0);
            }
        }
    }
}

proof fn lemma_platform_from(
    list: Seq<PlatformManifest>,
    architecture: Seq<char>,
    os: Seq<char>,
    from: int,
)
    requires
        0 <= from <= list.len(),
    ensures
        from <= platform_from(list, architecture, os, from) <= list.len(),
        platform_from(list, architecture, os, from) < list.len() ==> {
            let at = platform_from(list, architecture, os, from);
            list[at].architecture@ == architecture && list[at].os@ == os
        },
        platform_from(list, architecture, os, from) == list.len() ==> forall|i: int|
            from <= i < list.len() ==> !((#[trigger] list[i]).architecture@ == architecture
                && list[i].os@ == os),
    decreases list.len() - from,
{
    if from < list.len() && !(list[from].architecture@ == architecture && list[from].os@ == os) {
        lemma_platform_from(list, architecture, os, from + 1);
    }
}

/// What is got and stored is what the manifest names: first its configuration, by its
/// digest, then each of its layers, by their digests and in their order, then the manifest
/// and the reference to where it was stored. A configuration that is not the one that the
/// manifest names ends the pull.
pub proof fn pulls_get_what_the_manifest_names(
    state: PullModel,
    reference: ReferenceModel,
    input: PullInput,
)
    requires
        is_state(state),
        awaits(state, input),
    ensures
        ({
            let step = pull_step(state, reference, input);
            match input {
                PullInput::ManifestResolved(resolved) => {
                    &&& step.action == PullActionModel::FetchConfig(resolved.manifest.config.digest@)
                    &&& step.events == seq![
                        PullEventModel::ManifestResolved {
                            digest: resolved.digest@,
                            layers: resolved.manifest.layers@.len() as int,
                        },
                    ]
                },
                PullInput::ConfigFetched(data) => state matches PullModel::FetchingConfig {
                    resolved,
                } && if digest_of(data@) == resolved.manifest.config.digest {
                    step.action is StoreConfig
                } else {
                    step.action is Fail && step.state is Ended
                },
                PullInput::ConfigStored { config, digest } => state matches
                    PullModel::StoringConfig { resolved } && {
                    let layers = resolved.manifest.layers;
                    &&& digest@ != resolved.manifest.config.digest ==> step.action is Fail
                        && step.state is Ended
                    &&& digest@ == resolved.manifest.config.digest && layers.len() == 0
                        ==> step.action is StoreManifest
                    &&& digest@ == resolved.manifest.config.digest && layers.len() > 0 ==> (
                    step.action matches PullActionModel::FetchLayers(digests) && digests.len()
                        == layers.len() && forall|i: int|
                        0 <= i < layers.len() ==> #[trigger] digests[i] == layers[i].digest)
                },
                PullInput::Layer(outcome) => state matches PullModel::FetchingLayers {
                    tally,
                    ..
                } && (outcome is Present ==> if tally.done + 1 == tally.total {
                    step.action is StoreManifest
                } else {
                    step.action is AwaitLayer
                }),
                PullInput::ManifestStored(digest) => step.action
                    == PullActionModel::StoreReference(digest@),
                PullInput::ReferenceStored => step.action is Done && step.state is Ended,
            }
        }),
{
}

/// What the state of a pull says of the image is what came in.
spec fn says_what_came_in(state: PullModel, inputs: Seq<PullInput>, count: int) -> bool {
    match state {
        PullModel::Resolving => count == 0,
        PullModel::FetchingConfig { resolved } => {
            &&& count == 1
            &&& inputs[0] matches PullInput::ManifestResolved(given) && given.deep_view()
                == resolved
        },
        PullModel::StoringConfig { resolved } => {
            &&& count == 2
            &&& inputs[0] matches PullInput::ManifestResolved(given) && given.deep_view()
                == resolved
        },
        PullModel::FetchingLayers { resolved, config, .. } => {
            &&& count >= 3
            &&& inputs[0] matches PullInput::ManifestResolved(given) && given.deep_view()
                == resolved
            &&& inputs[2] matches PullInput::ConfigStored { config: stored, .. }
                && stored.deep_view() == config
        },
        PullModel::StoringManifest { resolved, config, .. } => {
            &&& count >= 3
            &&& inputs[0] matches PullInput::ManifestResolved(given) && given.deep_view()
                == resolved
            &&& inputs[2] matches PullInput::ConfigStored { config: stored, .. }
                && stored.deep_view() == config
        },
        PullModel::StoringReference { resolved, config, stored, .. } => {
            &&& count >= 4
            &&& inputs[0] matches PullInput::ManifestResolved(given) && given.deep_view()
                == resolved
            &&& inputs[2] matches PullInput::ConfigStored { config: found, .. }
                && found.deep_view() == config
            &&& inputs[count - 1] matches PullInput::ManifestStored(digest) && digest@ == stored
        },
        PullModel::Ended => true,
    }
}

proof fn lemma_step_says_what_came_in(
    state: PullModel,
    reference: ReferenceModel,
    inputs: Seq<PullInput>,
    count: int,
)
    requires
        0 <= count < inputs.len(),
        says_what_came_in(state, inputs, count),
        awaits(state, inputs[count]),
    ensures
        says_what_came_in(pull_step(state, reference, inputs[count]).state, inputs, count + 1),
{
    match state {
        PullModel::Resolving => {},
        PullModel::FetchingConfig { .. } => {},
        PullModel::StoringConfig { .. } => {},
        PullModel::FetchingLayers { .. } => {},
        PullModel::StoringManifest { .. } => {},
        PullModel::StoringReference { .. } => {},
        PullModel::Ended => {},
    }
}

proof fn lemma_pulls_say_what_came_in(
    reference: ReferenceModel,
    inputs: Seq<PullInput>,
    count: int,
)
    requires
        0 <= count <= inputs.len(),
        all_awaited(reference, inputs, count),
    ensures
        says_what_came_in(pull_after(reference, inputs, count), inputs, count),
    decreases count,
{
    if count > 0 {
        assert(all_awaited(reference, inputs, count - 1)) by {
            assert forall|i: int| 0 <= i < count - 1 implies awaits(
                pull_after(reference, inputs, i),
                #[trigger] inputs[i],
            ) by {}
        }
        lemma_pulls_say_what_came_in(reference, inputs, count - 1);
        let before = pull_after(reference, inputs, count - 1);
        assert(awaits(before, inputs[count - 1]));
        lemma_step_says_what_came_in(before, reference, inputs, count - 1);
    }
}

/// The image that a pull ends with is the one that it was asked for: it has the reference
/// that was given, the manifest that was resolved, the configuration that was stored, and
/// the digest under which the manifest was stored.
pub proof fn pulled_images_are_what_was_resolved(
    reference: ReferenceModel,
    inputs: Seq<PullInput>,
    count: int,
)
    requires
        0 <= count < inputs.len(),
        all_awaited(reference, inputs, count + 1),
    ensures
        pull_step(pull_after(reference, inputs, count), reference, inputs[count]).action matches
            PullActionModel::Done(image) ==> {
            &&& image.reference == reference
            &&& inputs[0] matches PullInput::ManifestResolved(resolved) && image.manifest
                == resolved.manifest.deep_view()
            &&& inputs[2] matches PullInput::ConfigStored { config, .. } && image.config
                == config.deep_view()
            &&& inputs[count - 1] matches PullInput::ManifestStored(digest) && image.digest
                == digest@
        },
{
    assert(all_awaited(reference, inputs, count)) by {
        assert forall|i: int| 0 <= i < count implies awaits(
            pull_after(reference, inputs, i),
            #[trigger] inputs[i],
        ) by {}
    }
    lemma_pulls_say_what_came_in(reference, inputs, count);
    assert(awaits(pull_after(reference, inputs, count), inputs[count]));
}

/// While layers are got, a layer is awaited exactly where it is the next one of the
/// manifest and its size can still be added up; a failure is always awaited, and nothing
/// but layers is.
pub proof fn layers_are_awaited_in_order(
    resolved: ResolvedModel,
    config: ImageConfigModel,
    tally: TallyModel,
    input: PullInput,
)
    requires
        is_state(PullModel::FetchingLayers { resolved, config, tally }),
        0 <= tally.size <= u64::MAX,
    ensures
        awaits(PullModel::FetchingLayers { resolved, config, tally }, input) == match input {
            PullInput::Layer(LayerOutcome::Present { digest, size, .. }) => digest@
                == resolved.manifest.layers[tally.done].digest && tally.size + size <= u64::MAX,
            PullInput::Layer(_) => true,
            _ => false,
        },
{
}

} // verus!
