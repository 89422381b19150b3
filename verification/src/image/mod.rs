//! OCI images: references, descriptors, manifests and configurations.
use crate::image::reference::{ImageReference, ReferenceModel};
use crate::text::{copy_option, copy_texts};
use crate::text_map::{StringMap, TextMap};
use vstd::prelude::*;

pub mod reference;
pub mod store;

verus! {

// ---------------------------------------------------------------------------
// Media types
// ---------------------------------------------------------------------------
/// The media types that manifests, configurations and layers go by.
#[derive(Debug, Clone, Copy, PartialEq, Eq, Structural)]
pub enum MediaType {
    OciManifest,
    OciIndex,
    OciImageConfig,
    OciLayerGzip,
    DockerManifestV2,
    DockerManifestList,
}

impl MediaType {
    /// The name of the media type.
    pub open spec fn name(self) -> Seq<char> {
        match self {
            MediaType::OciManifest => "application/vnd.oci.image.manifest.v1+json"@,
            MediaType::OciIndex => "application/vnd.oci.image.index.v1+json"@,
            MediaType::OciImageConfig => "application/vnd.oci.image.config.v1+json"@,
            MediaType::OciLayerGzip => "application/vnd.oci.image.layer.v1.tar+gzip"@,
            MediaType::DockerManifestV2 => "application/vnd.docker.distribution.manifest.v2+json"@,
            MediaType::DockerManifestList => {
                "application/vnd.docker.distribution.manifest.list.v2+json"@
            },
        }
    }

    /// The name of the media type.
    pub fn to_text(self) -> (text: String)
        ensures
            text@ == self.name(),
    {
        match self {
            MediaType::OciManifest => "application/vnd.oci.image.manifest.v1+json".to_string(),
            MediaType::OciIndex => "application/vnd.oci.image.index.v1+json".to_string(),
            MediaType::OciImageConfig => "application/vnd.oci.image.config.v1+json".to_string(),
            MediaType::OciLayerGzip => "application/vnd.oci.image.layer.v1.tar+gzip".to_string(),
            MediaType::DockerManifestV2 => {
                "application/vnd.docker.distribution.manifest.v2+json".to_string()
            },
            MediaType::DockerManifestList => {
                "application/vnd.docker.distribution.manifest.list.v2+json".to_string()
            },
        }
    }
}

// ---------------------------------------------------------------------------
// Descriptors and manifests
// ---------------------------------------------------------------------------
/// A blob as a manifest refers to it.
pub struct Descriptor {
    pub media_type: String,
    pub digest: String,
    pub size: u64,
    pub urls: Option<Vec<String>>,
    pub annotations: Option<StringMap>,
}

/// A [`Descriptor`] as a mathematical value.
#[verifier::ext_equal]
pub struct DescriptorModel {
    pub media_type: Seq<char>,
    pub digest: Seq<char>,
    pub size: u64,
    pub urls: Option<Seq<Seq<char>>>,
    pub annotations: Option<Map<Seq<char>, Seq<char>>>,
}

impl DeepView for Descriptor {
    type V = DescriptorModel;

    open spec fn deep_view(&self) -> DescriptorModel {
        DescriptorModel {
            media_type: self.media_type@,
            digest: self.digest@,
            size: self.size,
            urls: self.urls.deep_view(),
            annotations: self.annotations.deep_view(),
        }
    }
}

impl Clone for Descriptor {
    fn clone(&self) -> (copy: Self)
        ensures
            copy.deep_view() == self.deep_view(),
    {
        Descriptor {
            media_type: self.media_type.clone(),
            digest: self.digest.clone(),
            size: self.size,
            urls: match &self.urls {
                Some(urls) => Some(copy_texts(urls)),
                None => None,
            },
            annotations: match &self.annotations {
                Some(annotations) => Some(annotations.clone()),
                None => None,
            },
        }
    }
}

/// The descriptor of a blob with nothing said but its type, digest and size.
pub open spec fn plain_descriptor(
    media_type: Seq<char>,
    digest: Seq<char>,
    size: u64,
) -> DescriptorModel {
    DescriptorModel { media_type, digest, size, urls: None, annotations: None }
}

impl Descriptor {
    /// The descriptor of a blob with nothing said but its type, digest and size.
    pub fn plain(media_type: MediaType, digest: String, size: u64) -> (descriptor: Self)
        ensures
            descriptor.deep_view() == plain_descriptor(media_type.name(), digest@, size),
    {
        Descriptor {
            media_type: media_type.to_text(),
            digest,
            size,
            urls: None,
            annotations: None,
        }
    }
}

/// An image manifest.
pub struct OciManifest {
    pub schema_version: u32,
    pub media_type: Option<String>,
    pub config: Descriptor,
    pub layers: Vec<Descriptor>,
    pub annotations: Option<StringMap>,
}

/// An [`OciManifest`] as a mathematical value.
#[verifier::ext_equal]
pub struct ManifestModel {
    pub schema_version: u32,
    pub media_type: Option<Seq<char>>,
    pub config: DescriptorModel,
    pub layers: Seq<DescriptorModel>,
    pub annotations: Option<Map<Seq<char>, Seq<char>>>,
}

impl DeepView for OciManifest {
    type V = ManifestModel;

    open spec fn deep_view(&self) -> ManifestModel {
        ManifestModel {
            schema_version: self.schema_version,
            media_type: self.media_type.deep_view(),
            config: self.config.deep_view(),
            layers: self.layers.deep_view(),
            annotations: self.annotations.deep_view(),
        }
    }
}

// ---------------------------------------------------------------------------
// Configurations
// ---------------------------------------------------------------------------
/// The value of a key that only has to be there.
#[derive(Debug, Clone, Copy, PartialEq, Eq, Structural)]
pub struct EmptyObject;

/// What a container of the image runs with.
pub struct OciContainerConfig {
    pub user: Option<String>,
    pub exposed_ports: Option<TextMap<EmptyObject>>,
    pub env: Option<Vec<String>>,
    pub entrypoint: Option<Vec<String>>,
    pub cmd: Option<Vec<String>>,
    pub volumes: Option<TextMap<EmptyObject>>,
    pub working_dir: Option<String>,
    pub labels: Option<StringMap>,
    pub shell: Option<Vec<String>>,
}

/// An [`OciContainerConfig`] as a mathematical value.
#[verifier::ext_equal]
pub struct ContainerConfigModel {
    pub user: Option<Seq<char>>,
    pub exposed_ports: Option<Set<Seq<char>>>,
    pub env: Option<Seq<Seq<char>>>,
    pub entrypoint: Option<Seq<Seq<char>>>,
    pub cmd: Option<Seq<Seq<char>>>,
    pub volumes: Option<Set<Seq<char>>>,
    pub working_dir: Option<Seq<char>>,
    pub labels: Option<Map<Seq<char>, Seq<char>>>,
    pub shell: Option<Seq<Seq<char>>>,
}

/// The keys of an optional map.
pub open spec fn keys_of_option(map: Option<TextMap<EmptyObject>>) -> Option<Set<Seq<char>>> {
    match map {
        Some(map) => Some(map@.dom()),
        None => None,
    }
}

impl DeepView for OciContainerConfig {
    type V = ContainerConfigModel;

    open spec fn deep_view(&self) -> ContainerConfigModel {
        ContainerConfigModel {
            user: self.user.deep_view(),
            exposed_ports: keys_of_option(self.exposed_ports),
            env: self.env.deep_view(),
            entrypoint: self.entrypoint.deep_view(),
            cmd: self.cmd.deep_view(),
            volumes: keys_of_option(self.volumes),
            working_dir: self.working_dir.deep_view(),
            labels: self.labels.deep_view(),
            shell: self.shell.deep_view(),
        }
    }
}

/// A configuration that says nothing.
pub open spec fn empty_config() -> ContainerConfigModel {
    ContainerConfigModel {
        user: None,
        exposed_ports: None,
        env: None,
        entrypoint: None,
        cmd: None,
        volumes: None,
        working_dir: None,
        labels: None,
        shell: None,
    }
}

impl Default for OciContainerConfig {
    fn default() -> (config: Self)
        ensures
            config.deep_view() == empty_config(),
    {
        OciContainerConfig {
            user: None,
            exposed_ports: None,
            env: None,
            entrypoint: None,
            cmd: None,
            volumes: None,
            working_dir: None,
            labels: None,
            shell: None,
        }
    }
}

/// How one step of a build is recorded.
pub struct History {
    pub created: Option<String>,
    pub author: Option<String>,
    pub created_by: Option<String>,
    pub comment: Option<String>,
    pub empty_layer: Option<bool>,
}

/// A [`History`] as a mathematical value.
#[verifier::ext_equal]
pub struct HistoryModel {
    pub created: Option<Seq<char>>,
    pub author: Option<Seq<char>>,
    pub created_by: Option<Seq<char>>,
    pub comment: Option<Seq<char>>,
    pub empty_layer: Option<bool>,
}

impl DeepView for History {
    type V = HistoryModel;

    open spec fn deep_view(&self) -> HistoryModel {
        HistoryModel {
            created: self.created.deep_view(),
            author: self.author.deep_view(),
            created_by: self.created_by.deep_view(),
            comment: self.comment.deep_view(),
            empty_layer: self.empty_layer,
        }
    }
}

/// The layers of an image by the digests of their uncompressed archives.
pub struct RootFs {
    pub fs_type: String,
    pub diff_ids: Vec<String>,
}

/// An image configuration.
pub struct OciImageConfig {
    pub architecture: String,
    pub os: String,
    pub os_version: Option<String>,
    pub config: Option<OciContainerConfig>,
    pub rootfs: RootFs,
    pub history: Option<Vec<History>>,
    pub created: Option<String>,
    pub author: Option<String>,
}

/// An [`OciImageConfig`] as a mathematical value.
#[verifier::ext_equal]
pub struct ImageConfigModel {
    pub architecture: Seq<char>,
    pub os: Seq<char>,
    pub os_version: Option<Seq<char>>,
    pub config: Option<ContainerConfigModel>,
    pub fs_type: Seq<char>,
    pub diff_ids: Seq<Seq<char>>,
    pub history: Option<Seq<HistoryModel>>,
    pub created: Option<Seq<char>>,
    pub author: Option<Seq<char>>,
}

impl DeepView for OciImageConfig {
    type V = ImageConfigModel;

    open spec fn deep_view(&self) -> ImageConfigModel {
        ImageConfigModel {
            architecture: self.architecture@,
            os: self.os@,
            os_version: self.os_version.deep_view(),
            config: self.config.deep_view(),
            fs_type: self.rootfs.fs_type@,
            diff_ids: self.rootfs.diff_ids.deep_view(),
            history: self.history.deep_view(),
            created: self.created.deep_view(),
            author: self.author.deep_view(),
        }
    }
}

// ---------------------------------------------------------------------------
// Images
// ---------------------------------------------------------------------------
/// An image of the local store.
pub struct OciImage {
    pub reference: ImageReference,
    pub manifest: OciManifest,
    pub config: OciImageConfig,
    pub digest: String,
    pub size: u64,
}

/// An [`OciImage`] as a mathematical value.
#[verifier::ext_equal]
pub struct ImageModel {
    pub reference: ReferenceModel,
    pub manifest: ManifestModel,
    pub config: ImageConfigModel,
    pub digest: Seq<char>,
    pub size: u64,
}

impl DeepView for OciImage {
    type V = ImageModel;

    open spec fn deep_view(&self) -> ImageModel {
        ImageModel {
            reference: self.reference.deep_view(),
            manifest: self.manifest.deep_view(),
            config: self.config.deep_view(),
            digest: self.digest@,
            size: self.size,
        }
    }
}

impl OciImage {
    /// What a container of the image runs with.
    pub open spec fn container(self) -> ContainerConfigModel {
        match self.config.config {
            Some(config) => config.deep_view(),
            None => empty_config(),
        }
    }

    /// The environment, as `KEY=VALUE` entries.
    pub fn env(&self) -> (entries: Vec<String>)
        ensures
            entries.deep_view() == match self.container().env {
                Some(entries) => entries,
                None => seq![],
            },
    {
        match &self.config.config {
            Some(config) => match &config.env {
                Some(entries) => copy_texts(entries),
                None => Vec::new(),
            },
            None => Vec::new(),
        }
    }

    /// The default command.
    pub fn default_cmd(&self) -> (words: Option<Vec<String>>)
        ensures
            words.deep_view() == self.container().cmd,
    {
        match &self.config.config {
            Some(config) => match &config.cmd {
                Some(words) => Some(copy_texts(words)),
                None => None,
            },
            None => None,
        }
    }

    /// The entry point.
    pub fn entrypoint(&self) -> (words: Option<Vec<String>>)
        ensures
            words.deep_view() == self.container().entrypoint,
    {
        match &self.config.config {
            Some(config) => match &config.entrypoint {
                Some(words) => Some(copy_texts(words)),
                None => None,
            },
            None => None,
        }
    }

    /// The working directory.
    pub fn working_dir(&self) -> (path: Option<String>)
        ensures
            path.deep_view() == self.container().working_dir,
    {
        match &self.config.config {
            Some(config) => copy_option(&config.working_dir),
            None => None,
        }
    }

    /// The user.
    pub fn user(&self) -> (user: Option<String>)
        ensures
            user.deep_view() == self.container().user,
    {
        match &self.config.config {
            Some(config) => copy_option(&config.user),
            None => None,
        }
    }
}

/// The media types go by the names that registries know them by, each by its own.
pub proof fn media_types_go_by_their_names()
    ensures
        MediaType::OciManifest.name() == "application/vnd.oci.image.manifest.v1+json"@,
        MediaType::OciIndex.name() == "application/vnd.oci.image.index.v1+json"@,
        MediaType::OciImageConfig.name() == "application/vnd.oci.image.config.v1+json"@,
        MediaType::OciLayerGzip.name() == "application/vnd.oci.image.layer.v1.tar+gzip"@,
        MediaType::DockerManifestV2.name()
            == "application/vnd.docker.distribution.manifest.v2+json"@,
        MediaType::DockerManifestList.name()
            == "application/vnd.docker.distribution.manifest.list.v2+json"@,
{
}

/// A descriptor says of a blob its type, its digest and its size, and nothing else.
pub proof fn plain_descriptors_say_no_more(media_type: Seq<char>, digest: Seq<char>, size: u64)
    ensures
        plain_descriptor(media_type, digest, size).media_type == media_type,
        plain_descriptor(media_type, digest, size).digest == digest,
        plain_descriptor(media_type, digest, size).size == size,
        plain_descriptor(media_type, digest, size).urls is None,
        plain_descriptor(media_type, digest, size).annotations is None,
{
}

/// What a container of an image runs with is what its configuration says, and nothing where
/// it has none.
pub proof fn containers_run_with_the_configuration(image: OciImage)
    ensures
        image.config.config matches Some(config) ==> {
            &&& image.container().env == config.env.deep_view()
            &&& image.container().cmd == config.cmd.deep_view()
            &&& image.container().entrypoint == config.entrypoint.deep_view()
            &&& image.container().working_dir == config.working_dir.deep_view()
            &&& image.container().user == config.user.deep_view()
            &&& image.container().labels == config.labels.deep_view()
            &&& image.container().shell == config.shell.deep_view()
        },
        image.config.config is None ==> {
            &&& image.container().env is None
            &&& image.container().cmd is None
            &&& image.container().entrypoint is None
            &&& image.container().working_dir is None
            &&& image.container().user is None
            &&& image.container().labels is None
            &&& image.container().shell is None
        },
{
}

} // verus!
