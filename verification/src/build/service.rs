//! Building an image: what is read, which stages are built, and what is stored.
use crate::build::run::{missing_privilege, verify_build_execution_requirements, RunCapabilities};
use crate::digest::{content_digest, digest_of};
use crate::image::{plain_descriptor, Descriptor, ManifestModel, MediaType, OciManifest};
use crate::instruction::{Instruction, InstructionModel};
use crate::number::{decimal, decimal_is_digits, decimal_is_injective, decimal_text};
use crate::path::{absolute, climbs, join_path, names, normalize_relative_path, path_joined};
use crate::path::{file_name_of, is_prefix, joined_paths_come_apart, parent_of};
use crate::path::relative_path;
use crate::random::{fresh_id, hyphenated, is_random_id};
use crate::stages::{group_stages, grouped, resolve_target_stage_index, target_index};
use crate::stages::{StageModel, StageSpec};
use crate::text::{begins, ends, glue, glue3, outcome};
use crate::text_map::StringMap;
use vstd::prelude::*;

verus! {

/// What is to be built.
pub struct BuildRequest {
    pub context_dir: String,
    pub dockerfile_path: String,
    pub image_reference: String,
    pub build_args: StringMap,
    pub target_stage: Option<String>,
}

/// What was built.
#[derive(Debug)]
pub struct BuildResult {
    pub image_reference: String,
    pub manifest_digest: String,
    pub config_digest: String,
    pub size_bytes: u64,
}

/// Builds images in a work directory and puts them into an image store.
pub struct BuildService {
    image_store_path: String,
    build_work_path: String,
}

/// A Dockerfile's place: below the build context, and from where the build runs.
#[derive(Debug)]
pub struct DockerfilePlace {
    pub relative: String,
    pub full: String,
}

impl DeepView for DockerfilePlace {
    type V = (Seq<char>, Seq<char>);

    open spec fn deep_view(&self) -> (Seq<char>, Seq<char>) {
        (self.relative@, self.full@)
    }
}

/// The place of a request's Dockerfile.
pub open spec fn dockerfile_place(request: BuildRequest, context_is_dir: bool) -> Result<
    (Seq<char>, Seq<char>),
    Seq<char>,
> {
    if !context_is_dir {
        Err("Build context '"@ + request.context_dir@ + "' is not a directory"@)
    } else {
        match relative_path(request.dockerfile_path@) {
            None => Err("dockerfile_path must be a relative path inside the build context"@),
            Some(relative) => Ok((relative, path_joined(request.context_dir@, relative))),
        }
    }
}

/// What reading a Dockerfile gave: none where it is no file.
pub open spec fn dockerfile_text(
    relative: Seq<char>,
    read: Option<Result<Seq<char>, Seq<char>>>,
) -> Result<Seq<char>, Seq<char>> {
    match read {
        None => Err("Dockerfile '"@ + relative + "' not found in build context"@),
        Some(Err(problem)) => Err("Failed to read Dockerfile '"@ + relative + "': "@ + problem),
        Some(Ok(text)) => Ok(text),
    }
}

/// The stages of a build and the one it ends with.
#[derive(Debug)]
pub struct BuildPlan {
    pub stages: Vec<StageSpec>,
    pub target: usize,
}

impl DeepView for BuildPlan {
    type V = (Seq<StageModel>, int);

    open spec fn deep_view(&self) -> (Seq<StageModel>, int) {
        (self.stages.deep_view(), self.target as int)
    }
}

/// What instructions amount to on a given machine: first privileges, then stages,
/// then the target may be missing.
pub open spec fn planned_build(
    instructions: Seq<InstructionModel>,
    host: RunCapabilities,
    target: Option<Seq<char>>,
) -> Result<(Seq<StageModel>, int), Seq<char>> {
    match missing_privilege(instructions, host) {
        Some(message) => Err(message),
        None => match grouped(instructions) {
            Err(message) => Err(message),
            Ok(stages) => match target_index(stages, target) {
                Err(message) => Err(message),
                Ok(at) => Ok((stages, at)),
            },
        },
    }
}

/// What instructions amount to on a given machine.
pub fn plan_build(
    instructions: &Vec<Instruction>,
    host: &RunCapabilities,
    target: Option<&str>,
) -> (result: Result<BuildPlan, String>)
    ensures
        outcome(result) == planned_build(instructions.deep_view(), *host, target.deep_view()),
        result matches Ok(plan) ==> plan.target < plan.stages@.len(),
{
    match verify_build_execution_requirements(instructions, host) {
        Ok(()) => {},
        Err(message) => {
            return Err(message);
        },
    }
    let stages = match group_stages(instructions) {
        Ok(stages) => stages,
        Err(message) => {
            return Err(message);
        },
    };
    proof {
        crate::stages::stages_hold_no_from(instructions.deep_view());
        crate::stages::target_is_a_stage(stages.deep_view(), target.deep_view());
    }
    match resolve_target_stage_index(&stages, target) {
        Ok(at) => Ok(BuildPlan { stages, target: at }),
        Err(message) => Err(message),
    }
}

/// A manifest that names the configuration.
pub open spec fn with_config(manifest: ManifestModel, config_json: Seq<u8>) -> ManifestModel {
    ManifestModel {
        config: plain_descriptor(
            MediaType::OciImageConfig.name(),
            digest_of(config_json),
            config_json.len() as u64,
        ),
        ..manifest
    }
}

/// Makes the manifest name the configuration, and gives the configuration's digest.
pub fn attach_config(manifest: &mut OciManifest, config_json: &Vec<u8>) -> (digest: String)
    ensures
        digest@ == digest_of(config_json@),
        final(manifest).deep_view() == with_config(old(manifest).deep_view(), config_json@),
{
    let digest = content_digest(config_json);
    let size = config_json.len() as u64;
    manifest.config = Descriptor::plain(MediaType::OciImageConfig, digest.clone(), size);
    digest
}

impl BuildService {
    /// Where images are stored.
    pub closed spec fn store(self) -> Seq<char> {
        self.image_store_path@
    }

    /// Where builds are done.
    pub closed spec fn work(self) -> Seq<char> {
        self.build_work_path@
    }

    /// A service for an image store and a work directory.
    pub fn new(image_store_path: String, build_work_path: String) -> (service: Self)
        ensures
            service.store() == image_store_path@,
            service.work() == build_work_path@,
    {
        BuildService { image_store_path, build_work_path }
    }

    /// Where images are stored.
    pub fn image_store_path(&self) -> (path: &str)
        ensures
            path@ == self.store(),
    {
        &self.image_store_path
    }

    /// The place of a request's Dockerfile.
    pub fn locate_dockerfile(&self, request: &BuildRequest, context_is_dir: bool) -> (result:
        Result<DockerfilePlace, String>)
        ensures
            outcome(result) == dockerfile_place(*request, context_is_dir),
    {
        if !context_is_dir {
            return Err(
                glue3("Build context '", &request.context_dir, "' is not a directory"),
            );
        }
        match normalize_relative_path(&request.dockerfile_path) {
            None => Err(
                "dockerfile_path must be a relative path inside the build context".to_string(),
            ),
            Some(relative) => {
                let full = join_path(&request.context_dir, &relative);
                Ok(DockerfilePlace { relative, full })
            },
        }
    }

    /// What reading a Dockerfile gave: none where it is no file.
    pub fn check_dockerfile(
        &self,
        place: &DockerfilePlace,
        read: Option<Result<String, String>>,
    ) -> (result: Result<String, String>)
        ensures
            outcome(result) == dockerfile_text(
                place.relative@,
                match read {
                    None => None,
                    Some(attempt) => Some(outcome(attempt)),
                },
            ),
    {
        match read {
            None => Err(
                glue3("Dockerfile '", &place.relative, "' not found in build context"),
            ),
            Some(attempt) => match attempt {
                Ok(text) => Ok(text),
                Err(problem) => Err(
                    glue(
                        &glue3("Failed to read Dockerfile '", &place.relative, "': "),
                        &problem,
                    ),
                ),
            },
        }
    }

    /// The work directory of the build with this name.
    pub fn workspace_named(&self, id: &str) -> (path: String)
        ensures
            path@ == path_joined(self.work(), id@),
    {
        join_path(&self.build_work_path, id)
    }

    /// A fresh work directory for one build.
    pub fn workspace(&self) -> (path: String)
        ensures
            exists|id: Seq<char>| #[trigger] is_random_id(id) && path@ == path_joined(
                self.work(),
                hyphenated(id),
            ),
    {
        self.workspace_named(&fresh_id())
    }
}

/// The directory of one stage.
pub open spec fn stage_place(work_root: Seq<char>, stage: nat) -> Seq<char> {
    path_joined(work_root, "stage-"@ + decimal(stage))
}

/// The name under which a stage's base image is unpacked.
pub open spec fn base_name(stage: nat, id: Seq<char>) -> Seq<char> {
    "build-"@ + decimal(stage) + "-"@ + id
}

/// The directory of one stage.
pub fn stage_directory(work_root: &str, stage: usize) -> (path: String)
    ensures
        path@ == path_joined(work_root@, "stage-"@ + decimal(stage as nat)),
        path@ == stage_place(work_root@, stage as nat),
{
    join_path(work_root, &glue("stage-", &decimal_text(stage as u64)))
}

/// The root file system of one stage.
pub fn stage_rootfs(stage_root: &str) -> (path: String)
    ensures
        path@ == path_joined(stage_root@, "rootfs"@),
{
    join_path(stage_root, "rootfs")
}

/// The directory for a snapshot of a stage's root file system with this name.
pub fn snapshot_directory_named(stage_root: &str, label: &str, id: &str) -> (path: String)
    ensures
        path@ == path_joined(stage_root@, label@ + "-"@ + id@),
{
    join_path(stage_root, &glue3(label, "-", id))
}

/// A fresh directory for a snapshot of a stage's root file system.
pub fn snapshot_directory(stage_root: &str, label: &str) -> (path: String)
    ensures
        exists|id: Seq<char>| #[trigger] is_random_id(id) && path@ == path_joined(
            stage_root@,
            label@ + "-"@ + hyphenated(id),
        ),
{
    snapshot_directory_named(stage_root, label, &fresh_id())
}

/// The name under which a stage's base image is unpacked, ending in this one.
pub fn base_container_named(stage: usize, id: &str) -> (name: String)
    ensures
        name@ == "build-"@ + decimal(stage as nat) + "-"@ + id@,
        name@ == base_name(stage as nat, id@),
{
    glue3(&glue("build-", &decimal_text(stage as u64)), "-", id)
}

/// A fresh name under which a stage's base image is unpacked.
pub fn base_container_id(stage: usize) -> (name: String)
    ensures
        exists|id: Seq<char>| #[trigger] is_random_id(id) && name@ == "build-"@ + decimal(
            stage as nat,
        ) + "-"@ + hyphenated(id),
{
    base_container_named(stage, &fresh_id())
}

/// The result names what was built.
pub open spec fn names_build(
    result: BuildResult,
    image_reference: Seq<char>,
    manifest_json: Seq<u8>,
    config_digest: Seq<char>,
    size_bytes: u64,
) -> bool {
    &&& result.image_reference@ == image_reference
    &&& result.manifest_digest@ == digest_of(manifest_json)
    &&& result.config_digest@ == config_digest
    &&& result.size_bytes == size_bytes
}

/// What was built, given the encoded manifest.
pub fn build_result(
    image_reference: String,
    manifest_json: &Vec<u8>,
    config_digest: String,
    size_bytes: u64,
) -> (result: BuildResult)
    ensures
        result.image_reference@ == image_reference@,
        result.manifest_digest@ == digest_of(manifest_json@),
        result.config_digest@ == config_digest@,
        result.size_bytes == size_bytes,
        names_build(
            result,
            image_reference@,
            manifest_json@,
            config_digest@,
            size_bytes,
        ),
{
    BuildResult {
        image_reference,
        manifest_digest: content_digest(manifest_json),
        config_digest,
        size_bytes,
    }
}

/// A build that is planned ends with one of its stages.
pub proof fn planned_target_is_a_stage(
    instructions: Seq<InstructionModel>,
    host: RunCapabilities,
    target: Option<Seq<char>>,
)
    ensures
        planned_build(instructions, host, target) matches Ok((stages, at)) ==> 0 <= at
            < stages.len(),
{
    crate::stages::stages_hold_no_from(instructions);
    if let Ok(stages) = grouped(instructions) {
        crate::stages::target_is_a_stage(stages, target);
    }
}

/// The manifest of a built image names its configuration by the digest and the size of the
/// stored bytes, and says of everything else what it said before.
pub proof fn manifests_name_their_configuration(manifest: ManifestModel, config_json: Seq<u8>)
    ensures
        ({
            let next = with_config(manifest, config_json);
            &&& next.config.digest == digest_of(config_json)
            &&& config_json.len() <= u64::MAX ==> next.config.size == config_json.len()
            &&& next.config.media_type == "application/vnd.oci.image.config.v1+json"@
            &&& next.config.urls is None
            &&& next.config.annotations is None
            &&& next.schema_version == manifest.schema_version
            &&& next.media_type == manifest.media_type
            &&& next.layers == manifest.layers
            &&& next.annotations == manifest.annotations
        }),
{
}

/// The Dockerfile lies inside the build context: below its directory, with the names that
/// were given. It is refused exactly where the context is no directory, or where its path
/// is absolute or climbs.
pub proof fn dockerfiles_lie_in_the_context(request: BuildRequest, context_is_dir: bool)
    ensures
        dockerfile_place(request, context_is_dir) is Ok <==> context_is_dir && !absolute(
            request.dockerfile_path@,
        ) && !climbs(request.dockerfile_path@),
        dockerfile_place(request, context_is_dir) matches Ok((relative, full)) ==> {
            &&& names(relative) == names(request.dockerfile_path@)
            &&& !absolute(relative)
            &&& names(full) == names(request.context_dir@) + names(request.dockerfile_path@)
        },
{
    crate::path::relative_path_is_inside(request.dockerfile_path@);
    if let Some(relative) = relative_path(request.dockerfile_path@) {
        crate::path::children_have_the_names_above(request.context_dir@, relative);
    }
}

/// A Dockerfile is what was read of it; one that is none or cannot be read is refused.
pub proof fn dockerfiles_are_read_as_they_are(
    relative: Seq<char>,
    read: Option<Result<Seq<char>, Seq<char>>>,
    text: Seq<char>,
)
    ensures
        dockerfile_text(relative, read) == Ok::<Seq<char>, Seq<char>>(text) <==> read == Some(
            Ok::<Seq<char>, Seq<char>>(text),
        ),
        read is None ==> dockerfile_text(relative, read) is Err,
        read matches Some(Err(_)) ==> dockerfile_text(relative, read) is Err,
{
}

/// A build is planned exactly where the machine may run its instructions, they begin with
/// a FROM, and the target is one of the stages. It has the stages of the instructions, and
/// ends with the target, or with the last of them.
pub proof fn builds_are_planned_by_their_stages(
    instructions: Seq<InstructionModel>,
    host: RunCapabilities,
    target: Option<Seq<char>>,
)
    ensures
        planned_build(instructions, host, target) is Ok <==> missing_privilege(
            instructions,
            host,
        ) is None && grouped(instructions) is Ok && target_index(
            grouped(instructions)->Ok_0,
            target,
        ) is Ok,
        planned_build(instructions, host, target) matches Ok((stages, at)) ==> {
            &&& grouped(instructions) == Ok::<Seq<StageModel>, Seq<char>>(stages)
            &&& target is None ==> at == stages.len() - 1
            &&& target matches Some(name) ==> 0 <= at < stages.len() && stages[at].name == Some(
                name,
            )
        },
{
    planned_target_is_a_stage(instructions, host, target);
    if let Ok((stages, at)) = planned_build(instructions, host, target) {
        crate::stages::target_is_a_stage(stages, target);
    }
}

/// The result of a build names what was stored: the image that was asked for, the manifest by
/// the digest of its bytes, the configuration by the digest that the manifest has for it, and
/// the size.
pub proof fn results_name_what_was_stored(
    result: BuildResult,
    image_reference: Seq<char>,
    manifest: ManifestModel,
    manifest_json: Seq<u8>,
    config_json: Seq<u8>,
    size_bytes: u64,
)
    requires
        names_build(result, image_reference, manifest_json, digest_of(config_json), size_bytes),
    ensures
        result.image_reference@ == image_reference,
        result.manifest_digest@ == digest_of(manifest_json),
        result.config_digest@ == with_config(manifest, config_json).config.digest,
        result.size_bytes == size_bytes,
{
}

/// Each stage of a build has a directory of its own, directly below the work directory, and
/// its base image is unpacked under a name of its own.
pub proof fn stages_have_their_own_places(
    work_root: Seq<char>,
    one: nat,
    other: nat,
    id: Seq<char>,
)
    requires
        is_prefix(work_root),
    ensures
        parent_of(stage_place(work_root, one)) == Some(work_root),
        file_name_of(stage_place(work_root, one)) == Some("stage-"@ + decimal(one)),
        stage_place(work_root, one) == stage_place(work_root, other) <==> one == other,
        begins(base_name(one, id), "build-"@ + decimal(one) + "-"@),
        ends(base_name(one, id), id),
{
    lemma_stage_name(work_root, one);
    lemma_stage_name(work_root, other);
    if stage_place(work_root, one) == stage_place(work_root, other) {
        let front = "stage-"@;
        assert((front + decimal(one)).skip(front.len() as int) =~= decimal(one));
        assert((front + decimal(other)).skip(front.len() as int) =~= decimal(other));
        decimal_is_injective(one, other);
    }
    let name = base_name(one, id);
    let front = "build-"@ + decimal(one) + "-"@;
    assert(name.take(front.len() as int) =~= front);
    assert(name.skip(name.len() - id.len()) =~= id);
}

proof fn lemma_stage_name(work_root: Seq<char>, stage: nat)
    requires
        is_prefix(work_root),
    ensures
        parent_of(stage_place(work_root, stage)) == Some(work_root),
        file_name_of(stage_place(work_root, stage)) == Some("stage-"@ + decimal(stage)),
{
    reveal_strlit("stage-");
    reveal_strlit(".");
    reveal_strlit("..");
    let name = "stage-"@ + decimal(stage);
    decimal_is_digits(stage);
    assert(name[0] == 's');
    assert(!name.contains('/')) by {
        if name.contains('/') {
            let i = name.index_of('/');
            assert(name[i] == '/');
            if i >= 6 {
                assert(name[i] == decimal(stage)[i - 6]);
            }
        }
    }
    joined_paths_come_apart(work_root, name);
}

} // verus!
