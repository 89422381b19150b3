//! The commands: what they ask for and what they answer.
use crate::build::service::BuildResult;
use crate::cli::{CreateCommand, RunCommand};
use crate::containers::{ContainerSummary, CreateContainerRequest, SummaryModel};
use crate::environment::{env_of, env_vec_to_map, gives, last_entries_count, override_env};
use crate::environment::values_come_from_entries;
use crate::gpu::{GpuRuntimeModel, GpuRuntimeSpec};
use crate::image::reference::{reference_text, ImageReference};
use crate::image::OciImage;
use crate::number::{decimal, decimal_text};
use crate::path::{children_have_the_names_above, file_name_of, is_name, join_path};
use crate::path::{joined_paths_come_apart, names, names_are_names, parent_of, path_joined};
use crate::path::{slashed, slashed_names};
use crate::raw_name::{name_of_bytes, raw_bytes, MARK};
use crate::protocol::{BindMountSpec, BuildOutput, ContainerSummaryOutput, ImageReferenceOutput};
use crate::protocol::{InspectOutput, ListOutput, MountModel, NamespaceConfig, PsOutput};
use crate::protocol::{PullOutput, PushOutput, ResourceLimits};
use crate::registry::client::{PullEvent, RegistryClient};
use crate::runtime::RunRequest;
use crate::sequence::{lemma_filter_empty, lemma_filter_front, lemma_filter_next};
use crate::text::{begins, cut, cut_texts_glue_back, ends, glue, glue3, glue5, is_empty};
use crate::text::{lowercase, outcome, pieces, pieces_are_free, same_text, split};
use crate::text::{lemma_pieces_append, lemma_pieces_of_free, to_ascii_lowercase};
use crate::text_map::StringMap;
use vstd::prelude::*;
use vstd::utf8::encode_utf8;

verus! {

// ---------------------------------------------------------------------------
// Flags
// ---------------------------------------------------------------------------
/// `KEY=VALUE` flags: a later one counts; the first that is none is refused.
pub open spec fn key_values(values: Seq<Seq<char>>, kind: Seq<char>) -> Result<
    Map<Seq<char>, Seq<char>>,
    Seq<char>,
> {
    let bad = values.filter(|value: Seq<char>| cut(value, '=') is None);
    if bad.len() > 0 {
        Err("Invalid "@ + kind + " '"@ + bad[0] + "', expected KEY=VALUE"@)
    } else {
        Ok(env_of(values))
    }
}

/// `KEY=VALUE` flags. `kind` says in a message what they are for.
pub fn parse_key_values(values: &Vec<String>, kind: &str) -> (result: Result<StringMap, String>)
    ensures
        outcome(result) == key_values(values.deep_view(), kind@),
{
    let ghost all = values.deep_view();
    let ghost is_bad = |value: Seq<char>| cut(value, '=') is None;
    let mut at: usize = 0;
    proof {
        lemma_filter_empty(all.take(0), is_bad);
    }
    while at < values.len()
        invariant
            at <= values@.len(),
            values.deep_view() == all,
            is_bad == (|value: Seq<char>| cut(value, '=') is None),
            all.take(at as int).filter(is_bad) == Seq::<Seq<char>>::empty(),
        decreases values@.len() - at,
    {
        proof {
            assert(all[at as int] == values@[at as int]@);
            lemma_filter_next(all, at as int, is_bad);
            lemma_filter_front(all, at + 1, is_bad);
        }
        if crate::text::split_once(&values[at], '=').is_none() {
            return Err(glue5("Invalid ", kind, " '", &values[at], "', expected KEY=VALUE"));
        }
        at = at + 1;
    }
    assert(all.take(at as int) =~= all);
    Ok(env_vec_to_map(values))
}

/// A mount flag: `SOURCE:TARGET`, with `:rw` or `:ro` after it.
pub open spec fn mount_flag(text: Seq<char>) -> Result<MountModel, Seq<char>> {
    let parts = pieces(text, ':');
    let well_formed = (parts.len() == 2 || (parts.len() == 3 && (parts[2] == "rw"@ || parts[2]
        == "ro"@))) && parts[0].len() > 0 && parts[1].len() > 0;
    if well_formed {
        Ok(
            MountModel {
                source: parts[0],
                target: parts[1],
                readonly: parts.len() == 3 && parts[2] == "ro"@,
            },
        )
    } else {
        Err("Invalid mount '"@ + text + "', expected SOURCE:TARGET[:rw|ro]"@)
    }
}

/// A mount flag: `SOURCE:TARGET`, with `:rw` or `:ro` after it.
pub fn parse_mount(text: &str) -> (result: Result<BindMountSpec, String>)
    ensures
        outcome(result) == mount_flag(text@),
{
    let parts = split(text, ':');
    let ghost model = pieces(text@, ':');
    assert(parts.deep_view().len() == parts@.len());
    if parts.len() == 2 || parts.len() == 3 {
        assert(model[0] == parts@[0]@ && model[1] == parts@[1]@);
        assert(parts@.len() == 3 ==> model[2] == parts@[2]@);
        let readonly = parts.len() == 3 && same_text(&parts[2], "ro");
        let known = parts.len() == 2 || readonly || same_text(&parts[2], "rw");
        if known && !is_empty(&parts[0]) && !is_empty(&parts[1]) {
            return Ok(
                BindMountSpec { source: parts[0].clone(), target: parts[1].clone(), readonly },
            );
        }
    }
    Err(glue3("Invalid mount '", text, "', expected SOURCE:TARGET[:rw|ro]"))
}

/// Mount flags: all of them, or the first complaint.
pub open spec fn mount_flags(values: Seq<Seq<char>>) -> Result<Seq<MountModel>, Seq<char>> {
    let bad = values.filter(|value: Seq<char>| mount_flag(value) is Err);
    if bad.len() > 0 {
        Err(mount_flag(bad[0])->Err_0)
    } else {
        Ok(values.map_values(|value: Seq<char>| mount_flag(value)->Ok_0))
    }
}

/// Mount flags: all of them, or the first complaint.
pub fn parse_mounts(values: &Vec<String>) -> (result: Result<Vec<BindMountSpec>, String>)
    ensures
        outcome(result) == mount_flags(values.deep_view()),
{
    let ghost all = values.deep_view();
    let ghost is_bad = |value: Seq<char>| mount_flag(value) is Err;
    let ghost parsed = all.map_values(|value: Seq<char>| mount_flag(value)->Ok_0);
    let mut mounts: Vec<BindMountSpec> = Vec::new();
    let mut at: usize = 0;
    proof {
        lemma_filter_empty(all.take(0), is_bad);
        assert(mounts.deep_view() =~= parsed.take(0));
    }
    while at < values.len()
        invariant
            at <= values@.len(),
            values.deep_view() == all,
            is_bad == (|value: Seq<char>| mount_flag(value) is Err),
            parsed == all.map_values(|value: Seq<char>| mount_flag(value)->Ok_0),
            all.take(at as int).filter(is_bad) == Seq::<Seq<char>>::empty(),
            mounts.deep_view() == parsed.take(at as int),
        decreases values@.len() - at,
    {
        let ghost before = mounts.deep_view();
        proof {
            assert(all[at as int] == values@[at as int]@);
            lemma_filter_next(all, at as int, is_bad);
            lemma_filter_front(all, at + 1, is_bad);
        }
        match parse_mount(&values[at]) {
            Err(message) => {
                return Err(message);
            },
            Ok(mount) => {
                mounts.push(mount);
                proof {
                    assert(mounts.deep_view() =~= before.push(mount.deep_view()));
                    assert(parsed.take(at + 1) =~= parsed.take(at as int).push(
                        parsed[at as int],
                    ));
                }
            },
        }
        at = at + 1;
    }
    assert(all.take(at as int) =~= all);
    assert(parsed.take(at as int) =~= parsed);
    Ok(mounts)
}

/// A mebibyte.
pub const MEBIBYTE: u64 = 1048576;

/// The period of a processor share, in microseconds.
pub const CPU_PERIOD: u64 = 100000;

/// The limits are those that flags ask for.
pub open spec fn limits_from(
    limits: Option<ResourceLimits>,
    memory_mb: Option<u64>,
    cpu_quota: Option<i64>,
    pids_limit: Option<u64>,
) -> bool {
    &&& limits is Some == (memory_mb is Some || cpu_quota is Some || pids_limit is Some)
    &&& limits matches Some(found) ==> {
        &&& match memory_mb {
            Some(mb) => found.memory_limit_bytes matches Some(bytes) && bytes == mb * MEBIBYTE,
            None => found.memory_limit_bytes is None,
        }
        &&& found.cpu_quota == cpu_quota
        &&& found.cpu_period == if cpu_quota is Some {
            Some(CPU_PERIOD)
        } else {
            None
        }
        &&& found.pids_limit == pids_limit
    }
}

/// The limits that flags ask for: none where no flag is given. `cpu_quota` is the
/// share of a processor in thousandths of a percent.
pub fn build_limits(
    memory_mb: Option<u64>,
    cpu_quota: Option<i64>,
    pids_limit: Option<u64>,
) -> (limits: Option<ResourceLimits>)
    requires
        memory_mb matches Some(mb) ==> mb * MEBIBYTE <= u64::MAX,
    ensures
        limits_from(limits, memory_mb, cpu_quota, pids_limit),
{
    if memory_mb.is_some() || cpu_quota.is_some() || pids_limit.is_some() {
        let memory_limit_bytes = match memory_mb {
            Some(mb) => Some(mb * MEBIBYTE),
            None => None,
        };
        let cpu_period = match cpu_quota {
            Some(_) => Some(CPU_PERIOD),
            None => None,
        };
        Some(ResourceLimits { memory_limit_bytes, cpu_quota, cpu_period, pids_limit })
    } else {
        None
    }
}

/// Whether the memory limit can be told in bytes.
pub fn memory_fits(memory_mb: Option<u64>) -> (fits: bool)
    ensures
        fits == (memory_mb matches Some(mb) ==> mb * MEBIBYTE <= u64::MAX),
{
    match memory_mb {
        Some(mb) => mb <= u64::MAX / MEBIBYTE,
        None => true,
    }
}

/// A signal that ends a container.
#[derive(Debug, Clone, Copy, PartialEq, Eq, Structural)]
pub enum StopSignal {
    Term,
    Kill,
    Int,
}

impl DeepView for StopSignal {
    type V = StopSignal;

    open spec fn deep_view(&self) -> StopSignal {
        *self
    }
}

/// The signal of a name, whatever the case of its letters.
pub open spec fn signal_named(value: Seq<char>) -> Result<StopSignal, Seq<char>> {
    let name = lowercase(value);
    if name == "term"@ || name == "sigterm"@ {
        Ok(StopSignal::Term)
    } else if name == "kill"@ || name == "sigkill"@ {
        Ok(StopSignal::Kill)
    } else if name == "int"@ || name == "sigint"@ {
        Ok(StopSignal::Int)
    } else {
        Err("Unsupported signal '"@ + name + "', expected term|kill|int"@)
    }
}

/// The signal of a name, whatever the case of its letters.
pub fn parse_signal(value: &str) -> (result: Result<StopSignal, String>)
    ensures
        outcome(result) == signal_named(value@),
{
    let name = to_ascii_lowercase(value);
    if same_text(&name, "term") || same_text(&name, "sigterm") {
        Ok(StopSignal::Term)
    } else if same_text(&name, "kill") || same_text(&name, "sigkill") {
        Ok(StopSignal::Kill)
    } else if same_text(&name, "int") || same_text(&name, "sigint") {
        Ok(StopSignal::Int)
    } else {
        Err(glue3("Unsupported signal '", &name, "', expected term|kill|int"))
    }
}

/// The credentials that are known after a user name and a password were given; none where
/// only one of them was.
pub open spec fn credentials_after(
    known: Map<Seq<char>, (Seq<char>, Seq<char>)>,
    registry: Seq<char>,
    username: Option<Seq<char>>,
    password: Option<Seq<char>>,
) -> Option<Map<Seq<char>, (Seq<char>, Seq<char>)>> {
    match (username, password) {
        (Some(name), Some(secret)) => Some(known.insert(registry, (name, secret))),
        (None, None) => Some(known),
        _ => None,
    }
}

/// Hands credentials to a client: both a user name and a password, or neither.
pub fn apply_registry_auth(
    client: &mut RegistryClient,
    registry: &str,
    username: Option<&str>,
    password: Option<&str>,
) -> (result: Result<(), String>)
    ensures
        final(client).agent() == old(client).agent(),
        username is Some && password is Some ==> result is Ok && final(client).known_credentials()
            == old(client).known_credentials().insert(
            registry@,
            ((username->0)@, (password->0)@),
        ),
        username is None && password is None ==> result is Ok && final(client).known_credentials()
            == old(client).known_credentials(),
        username is Some != password is Some ==> final(client).known_credentials() == old(
            client,
        ).known_credentials() && (result matches Err(message) && message@
            == "Both --username and --password are required together"@),
        match credentials_after(
            old(client).known_credentials(),
            registry@,
            username.deep_view(),
            password.deep_view(),
        ) {
            Some(known) => result is Ok && final(client).known_credentials() == known,
            None => result is Err && final(client).known_credentials() == old(
                client,
            ).known_credentials(),
        },
{
    match (username, password) {
        (Some(name), Some(secret)) => {
            client.set_registry_credentials(registry, name, secret);
            Ok(())
        },
        (None, None) => Ok(()),
        _ => Err("Both --username and --password are required together".to_string()),
    }
}

// ---------------------------------------------------------------------------
// Events
// ---------------------------------------------------------------------------
/// Events during a push.
#[derive(Debug)]
pub enum PushEvent {
    Started { reference: String },
    UploadingBlob { digest: String, size: u64 },
    BlobMounted { digest: String },
    BlobUploaded { digest: String, size: u64 },
    ManifestUploaded { digest: String },
    Complete { reference: String, digest: String },
}

/// How an event of a pull is told.
pub open spec fn pull_event_text(event: PullEvent) -> Seq<char> {
    match event {
        PullEvent::Started { reference } => "pulling "@ + reference@,
        PullEvent::ResolvingManifest => "resolving manifest"@,
        PullEvent::ManifestResolved { digest, layers } => "manifest "@ + digest@ + " with "@
            + decimal(layers as nat) + " layers"@,
        PullEvent::DownloadingLayer { digest, current, total } => "layer "@ + decimal(
            current as nat,
        ) + "/"@ + decimal(total as nat) + " "@ + digest@,
        PullEvent::LayerDownloaded { digest, size, cached } => "downloaded "@ + digest@ + " ("@
            + decimal(size as nat) + " bytes"@ + (if cached {
            ", cached"@
        } else {
            ""@
        }) + ")"@,
        PullEvent::Complete { digest, size } => "complete "@ + digest@ + " ("@ + decimal(
            size as nat,
        ) + " bytes)"@,
        PullEvent::Error { message } => "pull error: "@ + message@,
    }
}

/// How an event of a pull is told.
pub fn format_pull_event(event: &PullEvent) -> (text: String)
    ensures
        text@ == pull_event_text(*event),
{
    match event {
        PullEvent::Started { reference } => glue("pulling ", reference),
        PullEvent::ResolvingManifest => "resolving manifest".to_string(),
        PullEvent::ManifestResolved { digest, layers } => glue5(
            "manifest ",
            digest,
            " with ",
            &decimal_text(*layers as u64),
            " layers",
        ),
        PullEvent::DownloadingLayer { digest, current, total } => {
            let count = glue3("layer ", &decimal_text(*current as u64), "/");
            glue3(&glue(&count, &decimal_text(*total as u64)), " ", digest)
        },
        PullEvent::LayerDownloaded { digest, size, cached } => {
            let head = glue3("downloaded ", digest, " (");
            let sized = glue3(&head, &decimal_text(*size), " bytes");
            let note = if *cached {
                ", cached"
            } else {
                ""
            };
            glue3(&sized, note, ")")
        },
        PullEvent::Complete { digest, size } => glue5(
            "complete ",
            digest,
            " (",
            &decimal_text(*size),
            " bytes)",
        ),
        PullEvent::Error { message } => glue("pull error: ", message),
    }
}

/// How an event of a push is told.
pub open spec fn push_event_text(event: PushEvent) -> Seq<char> {
    match event {
        PushEvent::Started { reference } => "pushing "@ + reference@,
        PushEvent::UploadingBlob { digest, size } => "uploading "@ + digest@ + " ("@ + decimal(
            size as nat,
        ) + " bytes)"@,
        PushEvent::BlobMounted { digest } => "blob already present "@ + digest@,
        PushEvent::BlobUploaded { digest, size } => "uploaded "@ + digest@ + " ("@ + decimal(
            size as nat,
        ) + " bytes)"@,
        PushEvent::ManifestUploaded { digest } => "uploaded manifest "@ + digest@,
        PushEvent::Complete { reference, digest } => "push complete "@ + reference@ + " ("@
            + digest@ + ")"@,
    }
}

/// How an event of a push is told.
pub fn format_push_event(event: &PushEvent) -> (text: String)
    ensures
        text@ == push_event_text(*event),
{
    match event {
        PushEvent::Started { reference } => glue("pushing ", reference),
        PushEvent::UploadingBlob { digest, size } => glue5(
            "uploading ",
            digest,
            " (",
            &decimal_text(*size),
            " bytes)",
        ),
        PushEvent::BlobMounted { digest } => glue("blob already present ", digest),
        PushEvent::BlobUploaded { digest, size } => glue5(
            "uploaded ",
            digest,
            " (",
            &decimal_text(*size),
            " bytes)",
        ),
        PushEvent::ManifestUploaded { digest } => glue("uploaded manifest ", digest),
        PushEvent::Complete { reference, digest } => glue5(
            "push complete ",
            reference,
            " (",
            digest,
            ")",
        ),
    }
}

/// What is told when a build starts.
pub fn build_status(image: &str, context: &str) -> (text: String)
    ensures
        text@ == "building "@ + image@ + " from "@ + context@,
{
    glue(&glue3("building ", image, " from "), context)
}

// ---------------------------------------------------------------------------
// Requests
// ---------------------------------------------------------------------------
/// The mounts and variables that flags and graphics devices amount to.
#[verifier::ext_equal]
pub struct ContainerSetup {
    pub environment: Map<Seq<char>, Seq<char>>,
    pub mounts: Seq<MountModel>,
}

/// The mounts and variables that flags and graphics devices amount to: what the
/// devices need comes on top.
pub open spec fn setup_of(
    env: Seq<Seq<char>>,
    mounts: Seq<Seq<char>>,
    gpu: GpuRuntimeModel,
) -> Result<ContainerSetup, Seq<char>> {
    match key_values(env, "env override"@) {
        Err(message) => Err(message),
        Ok(environment) => match mount_flags(mounts) {
            Err(message) => Err(message),
            Ok(flags) => Ok(
                ContainerSetup {
                    environment: environment.union_prefer_right(gpu.env),
                    mounts: flags + gpu.mounts,
                },
            ),
        },
    }
}

/// The mounts and variables that flags and graphics devices amount to.
fn resolve_setup(env: &Vec<String>, mounts: &Vec<String>, gpu: GpuRuntimeSpec) -> (result: Result<
    (StringMap, Vec<BindMountSpec>),
    String,
>)
    ensures
        match setup_of(env.deep_view(), mounts.deep_view(), gpu.deep_view()) {
            Err(text) => result matches Err(message) && message@ == text,
            Ok(setup) => result matches Ok((environment, list)) && environment.deep_view()
                == setup.environment && list.deep_view() == setup.mounts,
        },
{
    let mut environment = match parse_key_values(env, "env override") {
        Ok(environment) => environment,
        Err(message) => {
            return Err(message);
        },
    };
    let mut list = match parse_mounts(mounts) {
        Ok(list) => list,
        Err(message) => {
            return Err(message);
        },
    };
    override_env(&mut environment, &gpu.env);
    let ghost first = list.deep_view();
    let mut extra = gpu.mounts;
    let ghost second = extra.deep_view();
    list.append(&mut extra);
    assert(list.deep_view() =~= first + second);
    Ok((environment, list))
}

/// The request asks for what the command does.
pub open spec fn asks_to_run(
    request: RunRequest,
    cmd: RunCommand,
    store_dir: Seq<char>,
    setup: ContainerSetup,
) -> bool {
    &&& request.image_reference@ == cmd.reference@
    &&& request.command.deep_view() == cmd.command.deep_view()
    &&& request.environment.deep_view() == setup.environment
    &&& request.working_directory.deep_view() == cmd.workdir.deep_view()
    &&& request.store_dir@ == store_dir
    &&& request.namespace_config.mount == !cmd.no_mount_namespace
    &&& request.namespace_config.uts == cmd.uts_namespace
    &&& request.namespace_config.ipc == cmd.ipc_namespace
    &&& request.namespace_config.network == cmd.network_namespace
    &&& limits_from(request.resource_limits, cmd.memory_mb, cmd.cpu_quota, cmd.pids_limit)
    &&& request.clear_image_env == cmd.clear_image_env
    &&& request.mounts.deep_view() == setup.mounts
    &&& request.container_id is None
    &&& request.status_file is None
    &&& request.started_at is None
}

/// The request asks for what the command does.
pub open spec fn asks_to_create(
    request: CreateContainerRequest,
    cmd: CreateCommand,
    setup: ContainerSetup,
) -> bool {
    &&& request.image_reference@ == cmd.reference@
    &&& request.command.deep_view() == cmd.command.deep_view()
    &&& request.environment.deep_view() == setup.environment
    &&& request.working_directory.deep_view() == cmd.workdir.deep_view()
    &&& request.namespace_config.mount == !cmd.no_mount_namespace
    &&& request.namespace_config.uts == cmd.uts_namespace
    &&& request.namespace_config.ipc == cmd.ipc_namespace
    &&& request.namespace_config.network == cmd.network_namespace
    &&& limits_from(request.resource_limits, cmd.memory_mb, cmd.cpu_quota, cmd.pids_limit)
    &&& request.clear_image_env == cmd.clear_image_env
    &&& request.mounts.deep_view() == setup.mounts
}

/// What a run command asks for. `gpu` is what its graphics devices need.
pub fn run_request(cmd: RunCommand, store_dir: String, gpu: GpuRuntimeSpec) -> (result: Result<
    RunRequest,
    String,
>)
    requires
        cmd.memory_mb matches Some(mb) ==> mb * MEBIBYTE <= u64::MAX,
    ensures
        match setup_of(cmd.env.deep_view(), cmd.mounts.deep_view(), gpu.deep_view()) {
            Err(text) => result matches Err(message) && message@ == text,
            Ok(setup) => result matches Ok(request) && {
                &&& request.image_reference@ == cmd.reference@
                &&& request.command.deep_view() == cmd.command.deep_view()
                &&& request.environment.deep_view() == setup.environment
                &&& request.working_directory.deep_view() == cmd.workdir.deep_view()
                &&& request.store_dir@ == store_dir@
                &&& request.namespace_config == (NamespaceConfig {
                    mount: !cmd.no_mount_namespace,
                    uts: cmd.uts_namespace,
                    ipc: cmd.ipc_namespace,
                    network: cmd.network_namespace,
                })
                &&& limits_from(
                    request.resource_limits,
                    cmd.memory_mb,
                    cmd.cpu_quota,
                    cmd.pids_limit,
                )
                &&& request.clear_image_env == cmd.clear_image_env
                &&& request.mounts.deep_view() == setup.mounts
                &&& request.container_id is None
                &&& request.status_file is None
                &&& request.started_at is None
            },
        },
        result matches Ok(request) ==> (setup_of(
            cmd.env.deep_view(),
            cmd.mounts.deep_view(),
            gpu.deep_view(),
        ) matches Ok(setup) && asks_to_run(request, cmd, store_dir@, setup)),
{
    let (environment, mounts) = match resolve_setup(&cmd.env, &cmd.mounts, gpu) {
        Ok(setup) => setup,
        Err(message) => {
            return Err(message);
        },
    };
    let resource_limits = build_limits(cmd.memory_mb, cmd.cpu_quota, cmd.pids_limit);
    Ok(
        RunRequest {
            image_reference: cmd.reference,
            command: cmd.command,
            environment,
            working_directory: cmd.workdir,
            store_dir,
            namespace_config: NamespaceConfig {
                mount: !cmd.no_mount_namespace,
                uts: cmd.uts_namespace,
                ipc: cmd.ipc_namespace,
                network: cmd.network_namespace,
            },
            resource_limits,
            clear_image_env: cmd.clear_image_env,
            mounts,
            container_id: None,
            status_file: None,
            started_at: None,
        },
    )
}

/// What a create command asks for. `gpu` is what its graphics devices need.
pub fn create_request(cmd: CreateCommand, gpu: GpuRuntimeSpec) -> (result: Result<
    CreateContainerRequest,
    String,
>)
    requires
        cmd.memory_mb matches Some(mb) ==> mb * MEBIBYTE <= u64::MAX,
    ensures
        match setup_of(cmd.env.deep_view(), cmd.mounts.deep_view(), gpu.deep_view()) {
            Err(text) => result matches Err(message) && message@ == text,
            Ok(setup) => result matches Ok(request) && {
                &&& request.image_reference@ == cmd.reference@
                &&& request.command.deep_view() == cmd.command.deep_view()
                &&& request.environment.deep_view() == setup.environment
                &&& request.working_directory.deep_view() == cmd.workdir.deep_view()
                &&& request.namespace_config == (NamespaceConfig {
                    mount: !cmd.no_mount_namespace,
                    uts: cmd.uts_namespace,
                    ipc: cmd.ipc_namespace,
                    network: cmd.network_namespace,
                })
                &&& limits_from(
                    request.resource_limits,
                    cmd.memory_mb,
                    cmd.cpu_quota,
                    cmd.pids_limit,
                )
                &&& request.clear_image_env == cmd.clear_image_env
                &&& request.mounts.deep_view() == setup.mounts
            },
        },
        result matches Ok(request) ==> (setup_of(
            cmd.env.deep_view(),
            cmd.mounts.deep_view(),
            gpu.deep_view(),
        ) matches Ok(setup) && asks_to_create(request, cmd, setup)),
{
    let (environment, mounts) = match resolve_setup(&cmd.env, &cmd.mounts, gpu) {
        Ok(setup) => setup,
        Err(message) => {
            return Err(message);
        },
    };
    let resource_limits = build_limits(cmd.memory_mb, cmd.cpu_quota, cmd.pids_limit);
    Ok(
        CreateContainerRequest {
            image_reference: cmd.reference,
            command: cmd.command,
            environment,
            working_directory: cmd.workdir,
            namespace_config: NamespaceConfig {
                mount: !cmd.no_mount_namespace,
                uts: cmd.uts_namespace,
                ipc: cmd.ipc_namespace,
                network: cmd.network_namespace,
            },
            resource_limits,
            clear_image_env: cmd.clear_image_env,
            mounts,
        },
    )
}

// ---------------------------------------------------------------------------
// Answers
// ---------------------------------------------------------------------------
/// The answer says what was built.
pub open spec fn tells_build(output: BuildOutput, result: BuildResult) -> bool {
    &&& output.image_reference@ == result.image_reference@
    &&& output.manifest_digest@ == result.manifest_digest@
    &&& output.config_digest@ == result.config_digest@
    &&& output.size_bytes == result.size_bytes
}

/// The answer says what was pulled.
pub open spec fn tells_pull(output: PullOutput, image: OciImage) -> bool {
    &&& output.reference@ == reference_text(image.reference.deep_view())
    &&& output.manifest_digest@ == image.digest@
    &&& output.config_digest@ == image.manifest.config.digest@
    &&& output.size_bytes == image.size
    &&& output.layers == image.manifest.layers@.len()
}

/// The answer says what was pushed.
pub open spec fn tells_push(
    output: PushOutput,
    reference: ImageReference,
    manifest_digest: Seq<char>,
) -> bool {
    &&& output.reference@ == reference_text(reference.deep_view())
    &&& output.manifest_digest@ == manifest_digest
    &&& output.registry@ == reference.registry@
    &&& output.repository@ == reference.repository@
}

/// The answer to a build.
pub fn build_output(result: BuildResult) -> (output: BuildOutput)
    ensures
        output.image_reference@ == result.image_reference@,
        output.manifest_digest@ == result.manifest_digest@,
        output.config_digest@ == result.config_digest@,
        output.size_bytes == result.size_bytes,
        tells_build(output, result),
{
    BuildOutput {
        image_reference: result.image_reference,
        manifest_digest: result.manifest_digest,
        config_digest: result.config_digest,
        size_bytes: result.size_bytes,
    }
}

/// The answer to a pull.
pub fn pull_output(image: &OciImage) -> (output: PullOutput)
    ensures
        output.reference@ == reference_text(image.reference.deep_view()),
        output.manifest_digest@ == image.digest@,
        output.config_digest@ == image.manifest.config.digest@,
        output.size_bytes == image.size,
        output.layers == image.manifest.layers@.len(),
        tells_pull(output, *image),
{
    PullOutput {
        reference: image.reference.to_text(),
        manifest_digest: image.digest.clone(),
        config_digest: image.manifest.config.digest.clone(),
        size_bytes: image.size,
        layers: image.manifest.layers.len(),
    }
}

/// The answer to a push.
pub fn push_output(reference: &ImageReference, manifest_digest: String) -> (output: PushOutput)
    ensures
        output.reference@ == reference_text(reference.deep_view()),
        output.manifest_digest@ == manifest_digest@,
        output.registry@ == reference.registry@,
        output.repository@ == reference.repository@,
        tells_push(output, *reference, manifest_digest@),
{
    PushOutput {
        reference: reference.to_text(),
        manifest_digest,
        registry: reference.registry.clone(),
        repository: reference.repository.clone(),
    }
}

/// The manifest digest of a reference that has to be in the local store.
pub open spec fn local_digest(reference: Seq<char>, resolved: Option<Seq<char>>) -> Result<
    Seq<char>,
    Seq<char>,
> {
    match resolved {
        Some(digest) => Ok(digest),
        None => Err("Reference '"@ + reference + "' not found locally"@),
    }
}

/// The manifest digest of a reference that has to be in the local store.
pub fn require_local(reference: &ImageReference, resolved: Option<String>) -> (result: Result<
    String,
    String,
>)
    ensures
        match resolved {
            Some(digest) => result matches Ok(found) && found@ == digest@,
            None => result matches Err(message) && message@ == "Reference '"@ + reference_text(
                reference.deep_view(),
            ) + "' not found locally"@,
        },
        outcome(result) == local_digest(
            reference_text(reference.deep_view()),
            resolved.deep_view(),
        ),
{
    match resolved {
        Some(digest) => Ok(digest),
        None => Err(glue3("Reference '", &reference.to_text(), "' not found locally")),
    }
}

/// What the answer to an inspection says.
pub open spec fn inspected(output: InspectOutput, image: OciImage, digest: Seq<char>) -> bool {
    let config = image.container();
    &&& output.reference@ == reference_text(image.reference.deep_view())
    &&& output.manifest_digest@ == digest
    &&& output.config_digest@ == image.manifest.config.digest@
    &&& output.architecture@ == image.config.architecture@
    &&& output.os@ == image.config.os@
    &&& output.size_bytes == image.size
    &&& output.layers == image.manifest.layers@.len()
    &&& output.env.deep_view() == crate::runtime::words_or_none(config.env)
    &&& output.cmd.deep_view() == crate::runtime::words_or_none(config.cmd)
    &&& output.entrypoint.deep_view() == crate::runtime::words_or_none(config.entrypoint)
    &&& output.working_dir.deep_view() == config.working_dir
    &&& output.user.deep_view() == config.user
}

/// The answer to an inspection.
pub fn inspect_output(image: &OciImage, manifest_digest: String) -> (output: InspectOutput)
    ensures
        inspected(output, *image, manifest_digest@),
{
    let env = image.env();
    assert(env.deep_view() =~= crate::runtime::words_or_none(image.container().env));
    InspectOutput {
        reference: image.reference.to_text(),
        manifest_digest,
        config_digest: image.manifest.config.digest.clone(),
        architecture: image.config.architecture.clone(),
        os: image.config.os.clone(),
        size_bytes: image.size,
        layers: image.manifest.layers.len(),
        env,
        cmd: crate::runtime::words_of(image.default_cmd()),
        entrypoint: crate::runtime::words_of(image.entrypoint()),
        working_dir: image.working_dir(),
        user: image.user(),
    }
}

impl DeepView for ContainerSummaryOutput {
    type V = SummaryModel;

    open spec fn deep_view(&self) -> SummaryModel {
        SummaryModel {
            id: self.id@,
            image_reference: self.image_reference@,
            state: self.state,
            pid: self.pid,
            exit_code: self.exit_code,
            created_at: self.created_at,
            started_at: self.started_at,
            finished_at: self.finished_at,
        }
    }
}

/// The answer to a listing of containers.
pub fn ps_output(containers: &Vec<ContainerSummary>) -> (output: PsOutput)
    ensures
        output.containers.deep_view() == containers.deep_view(),
{
    let ghost all = containers.deep_view();
    let mut items: Vec<ContainerSummaryOutput> = Vec::new();
    let mut at: usize = 0;
    while at < containers.len()
        invariant
            at <= containers@.len(),
            containers.deep_view() == all,
            items.deep_view() == all.take(at as int),
        decreases containers@.len() - at,
    {
        let ghost before = items.deep_view();
        let container = &containers[at];
        let item = ContainerSummaryOutput {
            id: container.id.clone(),
            image_reference: container.image_reference.clone(),
            state: container.state,
            pid: container.pid,
            exit_code: container.exit_code,
            created_at: container.created_at,
            started_at: container.started_at,
            finished_at: container.finished_at,
        };
        items.push(item);
        proof {
            assert(all[at as int] == container.deep_view());
            assert(items.deep_view() =~= before.push(item.deep_view()));
            assert(all.take(at + 1) =~= all.take(at as int).push(all[at as int]));
        }
        at = at + 1;
    }
    assert(all.take(at as int) =~= all);
    PsOutput { containers: items }
}

impl DeepView for ImageReferenceOutput {
    type V = (Seq<char>, Seq<char>);

    open spec fn deep_view(&self) -> (Seq<char>, Seq<char>) {
        (self.reference@, self.manifest_digest@)
    }
}

/// The answer to a listing of images.
pub fn list_output(refs: &Vec<(String, String)>) -> (output: ListOutput)
    ensures
        output.images.deep_view() == refs.deep_view(),
{
    let ghost all = refs.deep_view();
    let mut images: Vec<ImageReferenceOutput> = Vec::new();
    let mut at: usize = 0;
    while at < refs.len()
        invariant
            at <= refs@.len(),
            refs.deep_view() == all,
            images.deep_view() == all.take(at as int),
        decreases refs@.len() - at,
    {
        let ghost before = images.deep_view();
        let image = ImageReferenceOutput {
            reference: refs[at].0.clone(),
            manifest_digest: refs[at].1.clone(),
        };
        images.push(image);
        proof {
            assert(images.deep_view() =~= before.push(all[at as int]));
            assert(all.take(at + 1) =~= all.take(at as int).push(all[at as int]));
        }
        at = at + 1;
    }
    assert(all.take(at as int) =~= all);
    ListOutput { images }
}

// ---------------------------------------------------------------------------
// Directories
// ---------------------------------------------------------------------------
/// `dirs::home_dir`: the bytes of the user's home directory. The result depends on the
/// environment: nothing is claimed of it.
#[verifier::external_body]
fn home_bytes() -> (path: Option<Vec<u8>>) {
    match dirs::home_dir() {
        Some(path) => Some(path.into_os_string().into_encoded_bytes()),
        None => None,
    }
}

/// The name of the home directory with these bytes.
pub fn home_named(bytes: Option<Vec<u8>>) -> (home: Option<String>)
    ensures
        home is Some == bytes is Some,
        bytes matches Some(path) ==> raw_bytes((home->0)@) == path@ && forall|text: Seq<char>|
            !text.contains(MARK) && path@ == #[trigger] encode_utf8(text) ==> (home->0)@ == text,
{
    match bytes {
        Some(path) => Some(name_of_bytes(&path)),
        None => None,
    }
}

/// Where everything is kept: below the home directory, or below where the program
/// runs.
pub open spec fn data_root_under(home: Option<Seq<char>>) -> Seq<char> {
    path_joined(
        match home {
            Some(path) => path,
            None => "."@,
        },
        ".qbuild"@,
    )
}

/// Where everything is kept, given the home directory.
pub fn data_root_in(home: Option<String>) -> (path: String)
    ensures
        path@ == data_root_under(home.deep_view()),
{
    match home {
        Some(path) => join_path(&path, ".qbuild"),
        None => join_path(".", ".qbuild"),
    }
}

/// Where everything is kept by default.
pub fn default_data_root() -> (path: String)
    ensures
        exists|home: Option<Seq<char>>| path@ == #[trigger] data_root_under(home),
{
    let home = home_named(home_bytes());
    let path = data_root_in(home);
    assert(path@ == data_root_under(home.deep_view()));
    path
}

/// Where images are kept, given the home directory.
pub fn store_dir_in(home: Option<String>) -> (path: String)
    ensures
        path@ == path_joined(data_root_under(home.deep_view()), "images"@),
{
    join_path(&data_root_in(home), "images")
}

/// Where images are kept by default.
pub fn default_store_dir() -> (path: String)
    ensures
        exists|home: Option<Seq<char>>|
            path@ == path_joined(#[trigger] data_root_under(home), "images"@),
{
    let home = home_named(home_bytes());
    let ghost drawn = home.deep_view();
    let path = store_dir_in(home);
    assert(path@ == path_joined(data_root_under(drawn), "images"@));
    path
}

/// Where builds are done, given the home directory.
pub fn work_dir_in(home: Option<String>) -> (path: String)
    ensures
        path@ == path_joined(data_root_under(home.deep_view()), "builds"@),
{
    join_path(&data_root_in(home), "builds")
}

/// Where builds are done by default.
pub fn default_work_dir() -> (path: String)
    ensures
        exists|home: Option<Seq<char>>|
            path@ == path_joined(#[trigger] data_root_under(home), "builds"@),
{
    let home = home_named(home_bytes());
    let ghost drawn = home.deep_view();
    let path = work_dir_in(home);
    assert(path@ == path_joined(data_root_under(drawn), "builds"@));
    path
}

// ---------------------------------------------------------------------------
// Laws
// ---------------------------------------------------------------------------
/// Images and builds of one home are kept side by side: in different directories, both
/// directly below where everything is kept.
pub proof fn images_and_builds_are_apart(home: Option<Seq<char>>)
    ensures
        path_joined(data_root_under(home), "images"@) != path_joined(
            data_root_under(home),
            "builds"@,
        ),
        parent_of(path_joined(data_root_under(home), "images"@)) == Some(data_root_under(home)),
        parent_of(path_joined(data_root_under(home), "builds"@)) == Some(data_root_under(home)),
        file_name_of(path_joined(data_root_under(home), "images"@)) == Some("images"@),
        file_name_of(path_joined(data_root_under(home), "builds"@)) == Some("builds"@),
{
    reveal_strlit(".");
    reveal_strlit("..");
    reveal_strlit(".qbuild");
    reveal_strlit("images");
    reveal_strlit("builds");
    let root = data_root_under(home);
    assert(root.last() == 'd');
    assert("images"@[0] == 'i' && "builds"@[0] == 'b');
    joined_paths_come_apart(root, "images"@);
    joined_paths_come_apart(root, "builds"@);
}

/// A mount is writable unless it says otherwise, and its two paths are those before
/// and after the first colon.
pub proof fn mounts_are_writable_by_default(source: Seq<char>, target: Seq<char>)
    requires
        source.len() > 0,
        target.len() > 0,
        !source.contains(':'),
        !target.contains(':'),
    ensures
        mount_flag(source + seq![':'] + target) == Ok::<MountModel, Seq<char>>(
            MountModel { source, target, readonly: false },
        ),
        mount_flag(source + seq![':'] + target + seq![':'] + "ro"@) == Ok::<MountModel, Seq<char>>(
            MountModel { source, target, readonly: true },
        ),
        mount_flag(source + seq![':'] + target + seq![':'] + "rw"@) == Ok::<MountModel, Seq<char>>(
            MountModel { source, target, readonly: false },
        ),
{
    reveal_strlit("ro");
    reveal_strlit("rw");
    lemma_pieces_of_free(source, ':');
    lemma_pieces_of_free(target, ':');
    lemma_pieces_of_free("ro"@, ':');
    lemma_pieces_of_free("rw"@, ':');
    lemma_pieces_append(source, ':', target);
    let both = source + seq![':'] + target;
    lemma_pieces_append(both, ':', "ro"@);
    lemma_pieces_append(both, ':', "rw"@);
    assert(pieces(both, ':') =~= seq![source, target]);
    assert(pieces(both + seq![':'] + "ro"@, ':') =~= seq![source, target, "ro"@]);
    assert(pieces(both + seq![':'] + "rw"@, ':') =~= seq![source, target, "rw"@]);
    assert("ro"@[1] != "rw"@[1]);
}

// ---------------------------------------------------------------------------
// Laws of requests and answers
// ---------------------------------------------------------------------------
/// Flags are refused exactly where one of them has no equals sign. The last flag for a key
/// counts, with all that follows its first equals sign.
pub proof fn flags_are_assignments(
    values: Seq<Seq<char>>,
    kind: Seq<char>,
    at: int,
    key: Seq<char>,
    value: Seq<char>,
)
    ensures
        key_values(values, kind) is Err <==> exists|i: int|
            0 <= i < values.len() && !(#[trigger] values[i]).contains('='),
        key_values(values, kind) matches Ok(map) ==> (0 <= at < values.len() && gives(
            values[at],
            key,
            value,
        ) && (forall|later: int, other: Seq<char>|
            at < later < values.len() ==> !#[trigger] gives(values[later], key, other))
            ==> map.contains_key(key) && map[key] == value),
        key_values(values, kind) matches Ok(map) ==> (map.contains_key(key) ==> exists|i: int|
            0 <= i < values.len() && #[trigger] gives(values[i], key, map[key])),
{
    let lacking = |value: Seq<char>| cut(value, '=') is None;
    let bad = values.filter(lacking);
    if bad.len() > 0 {
        values.lemma_filter_pred(lacking, 0);
        assert(bad.contains(bad[0]));
        values.lemma_filter_contains_rev(lacking, bad[0]);
        let i = values.index_of(bad[0]);
        cut_texts_glue_back(values[i], '=');
        assert(!values[i].contains('='));
    } else {
        assert forall|i: int| 0 <= i < values.len() implies (#[trigger] values[i]).contains(
            '=',
        ) by {
            cut_texts_glue_back(values[i], '=');
            if !values[i].contains('=') {
                values.lemma_filter_contains(lacking, i);
            }
        }
        values_come_from_entries(values, key);
        if 0 <= at < values.len() && gives(values[at], key, value) && (forall|
            later: int,
            other: Seq<char>,
        |
            at < later < values.len() ==> !#[trigger] gives(values[later], key, other)) {
            last_entries_count(values, at, key, value);
        }
    }
}

/// A mount flag without a colon, with an empty path, with another word than `rw` or `ro`
/// after the paths, or with more than that, is refused.
pub proof fn other_mount_flags_are_refused(
    source: Seq<char>,
    target: Seq<char>,
    word: Seq<char>,
    more: Seq<char>,
)
    requires
        !source.contains(':'),
        !target.contains(':'),
        !word.contains(':'),
    ensures
        mount_flag(source) is Err,
        source.len() == 0 || target.len() == 0 ==> mount_flag(source + seq![':'] + target) is Err,
        word != "rw"@ && word != "ro"@ ==> mount_flag(
            source + seq![':'] + target + seq![':'] + word,
        ) is Err,
        mount_flag(source + seq![':'] + target + seq![':'] + word + seq![':'] + more) is Err,
{
    let two = source + seq![':'] + target;
    let three = two + seq![':'] + word;
    lemma_pieces_of_free(source, ':');
    lemma_pieces_of_free(target, ':');
    lemma_pieces_of_free(word, ':');
    lemma_pieces_append(source, ':', target);
    lemma_pieces_append(two, ':', word);
    lemma_pieces_append(three, ':', more);
    assert(pieces(two, ':') =~= seq![source, target]);
    assert(pieces(three, ':') =~= seq![source, target, word]);
    pieces_are_free(more, ':');
    assert(pieces(three + seq![':'] + more, ':').len() >= 4);
}

/// The mounts are those of the flags, one each and in their order, or the first of the
/// complaints.
pub proof fn mounts_are_those_of_the_flags(values: Seq<Seq<char>>)
    ensures
        mount_flags(values) matches Ok(mounts) ==> mounts.len() == values.len() && forall|i: int|
            0 <= i < values.len() ==> mount_flag(#[trigger] values[i]) == Ok::<
                MountModel,
                Seq<char>,
            >(mounts[i]),
        mount_flags(values) is Err <==> exists|i: int|
            0 <= i < values.len() && mount_flag(#[trigger] values[i]) is Err,
{
    let wrong = |value: Seq<char>| mount_flag(value) is Err;
    let bad = values.filter(wrong);
    if bad.len() > 0 {
        values.lemma_filter_pred(wrong, 0);
        assert(bad.contains(bad[0]));
        values.lemma_filter_contains_rev(wrong, bad[0]);
        let i = values.index_of(bad[0]);
        assert(mount_flag(values[i]) is Err);
    } else {
        assert forall|i: int| 0 <= i < values.len() implies mount_flag(#[trigger] values[i])
            is Ok by {
            if mount_flag(values[i]) is Err {
                values.lemma_filter_contains(wrong, i);
            }
        }
    }
}

/// Limits are those that were asked for, each of them: so many mebibytes of memory, the
/// quota with a period of a tenth of a second, and the number of processes. What was not
/// asked for is not limited.
pub proof fn limits_are_those_asked_for(
    limits: Option<ResourceLimits>,
    memory_mb: Option<u64>,
    cpu_quota: Option<i64>,
    pids_limit: Option<u64>,
)
    requires
        limits_from(limits, memory_mb, cpu_quota, pids_limit),
    ensures
        limits is None <==> memory_mb is None && cpu_quota is None && pids_limit is None,
        limits matches Some(found) ==> {
            &&& found.memory_limit_bytes is Some <==> memory_mb is Some
            &&& memory_mb matches Some(mb) ==> found.memory_limit_bytes->0 == mb * 1048576
            &&& found.cpu_quota == cpu_quota
            &&& cpu_quota is Some ==> found.cpu_period == Some(100000u64)
            &&& cpu_quota is None ==> found.cpu_period is None
            &&& found.pids_limit == pids_limit
        },
{
}

/// A signal goes by its name, with or without `sig` before it and in whatever case; there
/// are three of them.
pub proof fn signals_go_by_their_names(value: Seq<char>)
    ensures
        signal_named(value) == Ok::<StopSignal, Seq<char>>(StopSignal::Term) <==> lowercase(value)
            == "term"@ || lowercase(value) == "sigterm"@,
        signal_named(value) == Ok::<StopSignal, Seq<char>>(StopSignal::Kill) <==> lowercase(value)
            == "kill"@ || lowercase(value) == "sigkill"@,
        signal_named(value) == Ok::<StopSignal, Seq<char>>(StopSignal::Int) <==> lowercase(value)
            == "int"@ || lowercase(value) == "sigint"@,
{
    reveal_strlit("term");
    reveal_strlit("sigterm");
    reveal_strlit("kill");
    reveal_strlit("sigkill");
    reveal_strlit("int");
    reveal_strlit("sigint");
    assert("term"@.len() == 4 && "kill"@.len() == 4 && "int"@.len() == 3);
    assert("sigterm"@.len() == 7 && "sigkill"@.len() == 7 && "sigint"@.len() == 6);
    assert("term"@[0] != "kill"@[0]);
    assert("sigterm"@[3] != "sigkill"@[3]);
}

/// A container has the variables of the flags and those that its devices need, which come
/// first, and the mounts of the flags followed by those of its devices. It is refused
/// exactly where a flag is.
pub proof fn setups_have_flags_and_devices(
    env: Seq<Seq<char>>,
    mounts: Seq<Seq<char>>,
    gpu: GpuRuntimeModel,
    key: Seq<char>,
)
    ensures
        setup_of(env, mounts, gpu) is Ok <==> key_values(env, "env override"@) is Ok && mount_flags(
            mounts,
        ) is Ok,
        setup_of(env, mounts, gpu) matches Ok(setup) ==> {
            let flags = key_values(env, "env override"@)->Ok_0;
            &&& gpu.env.contains_key(key) ==> setup.environment.contains_key(key)
                && setup.environment[key] == gpu.env[key]
            &&& !gpu.env.contains_key(key) ==> setup.environment.contains_key(key)
                == flags.contains_key(key) && (flags.contains_key(key) ==> setup.environment[key]
                == flags[key])
            &&& setup.mounts == mount_flags(mounts)->Ok_0 + gpu.mounts
        },
{
}

/// A run is asked for as the command says, in every setting: the image, the command, the
/// directory, the store, each namespace, the limits and whether the image's variables are
/// cleared; and it belongs to no container.
pub proof fn runs_are_asked_for_as_commanded(
    request: RunRequest,
    cmd: RunCommand,
    store_dir: Seq<char>,
    setup: ContainerSetup,
)
    requires
        asks_to_run(request, cmd, store_dir, setup),
    ensures
        request.image_reference@ == cmd.reference@,
        request.command.deep_view() == cmd.command.deep_view(),
        request.environment.deep_view() == setup.environment,
        request.working_directory.deep_view() == cmd.workdir.deep_view(),
        request.store_dir@ == store_dir,
        request.namespace_config.mount != cmd.no_mount_namespace,
        request.namespace_config.uts == cmd.uts_namespace,
        request.namespace_config.ipc == cmd.ipc_namespace,
        request.namespace_config.network == cmd.network_namespace,
        limits_from(request.resource_limits, cmd.memory_mb, cmd.cpu_quota, cmd.pids_limit),
        request.clear_image_env == cmd.clear_image_env,
        request.mounts.deep_view() == setup.mounts,
        request.container_id is None,
        request.status_file is None,
        request.started_at is None,
{
}

/// A container is asked for as the command says, in every setting, just as a run is: where
/// the two commands say the same, the two requests ask for the same.
pub proof fn containers_are_asked_for_as_runs_are(
    run: RunRequest,
    run_cmd: RunCommand,
    store_dir: Seq<char>,
    create: CreateContainerRequest,
    create_cmd: CreateCommand,
    setup: ContainerSetup,
)
    requires
        asks_to_run(run, run_cmd, store_dir, setup),
        asks_to_create(create, create_cmd, setup),
    ensures
        create.image_reference@ == create_cmd.reference@,
        create.command.deep_view() == create_cmd.command.deep_view(),
        create.environment.deep_view() == run.environment.deep_view(),
        create.working_directory.deep_view() == create_cmd.workdir.deep_view(),
        create.namespace_config.mount != create_cmd.no_mount_namespace,
        create.namespace_config.uts == create_cmd.uts_namespace,
        create.namespace_config.ipc == create_cmd.ipc_namespace,
        create.namespace_config.network == create_cmd.network_namespace,
        limits_from(
            create.resource_limits,
            create_cmd.memory_mb,
            create_cmd.cpu_quota,
            create_cmd.pids_limit,
        ),
        create.clear_image_env == create_cmd.clear_image_env,
        create.mounts.deep_view() == run.mounts.deep_view(),
        run_cmd.no_mount_namespace == create_cmd.no_mount_namespace && run_cmd.uts_namespace
            == create_cmd.uts_namespace && run_cmd.ipc_namespace == create_cmd.ipc_namespace
            && run_cmd.network_namespace == create_cmd.network_namespace
            ==> run.namespace_config == create.namespace_config,
{
}

/// An answer says what was done: what was built, pulled or pushed, by its reference, the
/// digest of its manifest and, of an image, that of its configuration, its size and the
/// number of its layers.
pub proof fn answers_say_what_was_done(
    built: BuildOutput,
    result: BuildResult,
    pulled: PullOutput,
    image: OciImage,
    pushed: PushOutput,
    reference: ImageReference,
    manifest_digest: Seq<char>,
)
    requires
        tells_build(built, result),
        tells_pull(pulled, image),
        tells_push(pushed, reference, manifest_digest),
    ensures
        built.image_reference@ == result.image_reference@,
        built.manifest_digest@ == result.manifest_digest@,
        built.config_digest@ == result.config_digest@,
        built.size_bytes == result.size_bytes,
        pulled.reference@ == reference_text(image.reference.deep_view()),
        pulled.manifest_digest@ == image.digest@,
        pulled.config_digest@ == image.manifest.config.digest@,
        pulled.size_bytes == image.size,
        pulled.layers == image.manifest.layers@.len(),
        pushed.reference@ == reference_text(reference.deep_view()),
        pushed.manifest_digest@ == manifest_digest,
        pushed.registry@ == reference.registry@,
        pushed.repository@ == reference.repository@,
{
}

/// An inspection says what the image says: its reference, the digest that was asked for,
/// that of its configuration, its platform, its size and the number of its layers, and of
/// its configuration the environment, the two commands, the directory and the user.
pub proof fn inspections_say_what_the_image_says(
    output: InspectOutput,
    image: OciImage,
    digest: Seq<char>,
)
    requires
        inspected(output, image, digest),
    ensures
        output.reference@ == reference_text(image.reference.deep_view()),
        output.manifest_digest@ == digest,
        output.config_digest@ == image.manifest.config.digest@,
        output.architecture@ == image.config.architecture@,
        output.os@ == image.config.os@,
        output.size_bytes == image.size,
        output.layers == image.manifest.layers@.len(),
        image.config.config matches Some(config) ==> {
            &&& config.env matches Some(entries) ==> output.env.deep_view() == entries.deep_view()
            &&& config.env is None ==> output.env@.len() == 0
            &&& config.cmd matches Some(words) ==> output.cmd.deep_view() == words.deep_view()
            &&& config.cmd is None ==> output.cmd@.len() == 0
            &&& config.entrypoint matches Some(words) ==> output.entrypoint.deep_view()
                == words.deep_view()
            &&& config.entrypoint is None ==> output.entrypoint@.len() == 0
            &&& output.working_dir.deep_view() == config.working_dir.deep_view()
            &&& output.user.deep_view() == config.user.deep_view()
        },
        image.config.config is None ==> output.env@.len() == 0 && output.cmd@.len() == 0
            && output.entrypoint@.len() == 0 && output.working_dir is None && output.user is None,
{
    assert(output.env.deep_view().len() == output.env@.len());
    assert(output.cmd.deep_view().len() == output.cmd@.len());
    assert(output.entrypoint.deep_view().len() == output.entrypoint@.len());
}

/// What is told of a pull names what it is about: the reference, the digest, the place of a
/// layer among all of them, whether it was there already, or what went wrong.
pub proof fn pull_events_name_what_they_are_about(event: PullEvent)
    ensures
        match event {
            PullEvent::Started { reference } => ends(pull_event_text(event), reference@),
            PullEvent::ResolvingManifest => pull_event_text(event) == "resolving manifest"@,
            PullEvent::ManifestResolved { digest, layers } => begins(
                pull_event_text(event),
                "manifest "@ + digest@,
            ) && ends(pull_event_text(event), decimal(layers as nat) + " layers"@),
            PullEvent::DownloadingLayer { digest, current, total } => begins(
                pull_event_text(event),
                "layer "@ + decimal(current as nat) + "/"@ + decimal(total as nat),
            ) && ends(pull_event_text(event), digest@),
            PullEvent::LayerDownloaded { digest, size, cached } => begins(
                pull_event_text(event),
                "downloaded "@ + digest@ + " ("@ + decimal(size as nat) + " bytes"@,
            ) && (cached ==> ends(pull_event_text(event), ", cached)"@)) && (!cached ==> ends(
                pull_event_text(event),
                " bytes)"@,
            )),
            PullEvent::Complete { digest, size } => pull_event_text(event) == "complete "@ + digest@
                + " ("@ + decimal(size as nat) + " bytes)"@,
            PullEvent::Error { message } => ends(pull_event_text(event), message@),
        },
{
    let text = pull_event_text(event);
    match event {
        PullEvent::Started { reference } => {
            assert(text.skip(text.len() - reference@.len()) =~= reference@);
        },
        PullEvent::ManifestResolved { digest, layers } => {
            let front = "manifest "@ + digest@;
            let back = decimal(layers as nat) + " layers"@;
            assert(text.take(front.len() as int) =~= front);
            assert(text.skip(text.len() - back.len()) =~= back);
        },
        PullEvent::DownloadingLayer { digest, current, total } => {
            let front = "layer "@ + decimal(current as nat) + "/"@ + decimal(total as nat);
            assert(text.take(front.len() as int) =~= front);
            assert(text.skip(text.len() - digest@.len()) =~= digest@);
        },
        PullEvent::LayerDownloaded { digest, size, cached } => {
            reveal_strlit(", cached");
            reveal_strlit(", cached)");
            reveal_strlit(" bytes");
            reveal_strlit(" bytes)");
            reveal_strlit(")");
            reveal_strlit("");
            let front = "downloaded "@ + digest@ + " ("@ + decimal(size as nat) + " bytes"@;
            assert(text.take(front.len() as int) =~= front);
            if cached {
                assert(text.skip(text.len() - 9) =~= ", cached)"@);
            } else {
                assert(text.skip(text.len() - 7) =~= " bytes)"@);
            }
        },
        PullEvent::Error { message } => {
            assert(text.skip(text.len() - message@.len()) =~= message@);
        },
        _ => {},
    }
}

/// What is told of a push names what it is about: the reference, and the digest and the
/// size of the blob.
pub proof fn push_events_name_what_they_are_about(event: PushEvent)
    ensures
        match event {
            PushEvent::Started { reference } => push_event_text(event) == "pushing "@ + reference@,
            PushEvent::UploadingBlob { digest, size } => push_event_text(event) == "uploading "@
                + digest@ + " ("@ + decimal(size as nat) + " bytes)"@,
            PushEvent::BlobMounted { digest } => push_event_text(event) == "blob already present "@
                + digest@,
            PushEvent::BlobUploaded { digest, size } => push_event_text(event) == "uploaded "@
                + digest@ + " ("@ + decimal(size as nat) + " bytes)"@,
            PushEvent::ManifestUploaded { digest } => push_event_text(event) == "uploaded manifest "@
                + digest@,
            PushEvent::Complete { reference, digest } => push_event_text(event)
                == "push complete "@ + reference@ + " ("@ + digest@ + ")"@,
        },
{
}

/// Everything is kept in one directory, below the home directory where there is one, and
/// else below where the program runs.
pub proof fn data_is_kept_below_home(home: Option<Seq<char>>)
    ensures
        home matches Some(path) ==> names(data_root_under(home)) == names(path).push(".qbuild"@),
        home is None ==> names(data_root_under(home)) == seq![".qbuild"@],
{
    reveal_strlit(".qbuild");
    reveal_strlit(".");
    reveal_strlit("..");
    reveal_strlit("/");
    let base = match home {
        Some(path) => path,
        None => "."@,
    };
    let own = ".qbuild"@;
    assert(!own.contains('/')) by {
        if own.contains('/') {
            let i = own.index_of('/');
            assert(own[i] == '/');
        }
    }
    assert(own.len() == 7 && "."@.len() == 1 && ".."@.len() == 2);
    children_have_the_names_above(base, own);
    let one = seq![own];
    slashed_names(one);
    assert(slashed(one) =~= own);
    assert(names(own) =~= one);
    if home is None {
        let dot = "."@;
        assert(!dot.contains('/')) by {
            if dot.contains('/') {
                let i = dot.index_of('/');
                assert(dot[i] == '/');
            }
        }
        lemma_pieces_of_free(dot, '/');
        assert(names(dot) =~= Seq::<Seq<char>>::empty()) by {
            names_are_names(dot);
            let named = |piece: Seq<char>| is_name(piece);
            lemma_filter_next(seq![dot], 0, named);
            lemma_filter_empty(seq![dot].take(0), named);
            assert(seq![dot].take(1) =~= seq![dot]);
        }
        assert(names(dot) + names(own) =~= one);
    }
}

/// Credentials that are given are those of their registry, and those of every other registry
/// stay; without any nothing changes, and half of them is refused.
pub proof fn credentials_are_those_of_their_registry(
    known: Map<Seq<char>, (Seq<char>, Seq<char>)>,
    registry: Seq<char>,
    username: Option<Seq<char>>,
    password: Option<Seq<char>>,
    other: Seq<char>,
)
    ensures
        credentials_after(known, registry, username, password) is None <==> username is Some
            != password is Some,
        username is None && password is None ==> credentials_after(
            known,
            registry,
            username,
            password,
        ) == Some(known),
        credentials_after(known, registry, username, password) matches Some(after) ==> {
            &&& username is Some ==> after.contains_key(registry) && after[registry] == (
                username->0,
                password->0,
            )
            &&& other != registry ==> after.contains_key(other) == known.contains_key(other) && (
            known.contains_key(other) ==> after[other] == known[other])
        },
{
}

/// Only a reference that resolves is pushed or inspected, by the digest that it resolves to;
/// any other is named.
pub proof fn only_local_references_are_used(reference: Seq<char>, resolved: Option<Seq<char>>)
    ensures
        resolved matches Some(digest) ==> local_digest(reference, resolved) == Ok::<
            Seq<char>,
            Seq<char>,
        >(digest),
        resolved is None ==> (local_digest(reference, resolved) matches Err(message) && begins(
            message,
            "Reference '"@ + reference,
        )),
{
    let message = "Reference '"@ + reference + "' not found locally"@;
    let front = "Reference '"@ + reference;
    assert(message.take(front.len() as int) =~= front);
}

/// A listing of containers shows each as it is, in every field, and a listing of images each
/// reference with its manifest, in their order.
pub proof fn listings_show_each_as_it_is(
    output: PsOutput,
    containers: Vec<ContainerSummary>,
    listed: ListOutput,
    refs: Vec<(String, String)>,
    i: int,
)
    requires
        output.containers.deep_view() == containers.deep_view(),
        listed.images.deep_view() == refs.deep_view(),
    ensures
        output.containers@.len() == containers@.len(),
        listed.images@.len() == refs@.len(),
        0 <= i < containers@.len() ==> {
            let shown = output.containers@[i];
            let container = containers@[i];
            &&& shown.id@ == container.id@
            &&& shown.image_reference@ == container.image_reference@
            &&& shown.state == container.state
            &&& shown.pid == container.pid
            &&& shown.exit_code == container.exit_code
            &&& shown.created_at == container.created_at
            &&& shown.started_at == container.started_at
            &&& shown.finished_at == container.finished_at
        },
        0 <= i < refs@.len() ==> listed.images@[i].reference@ == refs@[i].0@
            && listed.images@[i].manifest_digest@ == refs@[i].1@,
{
    assert(output.containers.deep_view().len() == output.containers@.len());
    assert(containers.deep_view().len() == containers@.len());
    assert(listed.images.deep_view().len() == listed.images@.len());
    assert(refs.deep_view().len() == refs@.len());
    if 0 <= i < containers@.len() {
        assert(output.containers.deep_view()[i] == containers.deep_view()[i]);
    }
    if 0 <= i < refs@.len() {
        assert(listed.images.deep_view()[i] == refs.deep_view()[i]);
    }
}

} // verus!
