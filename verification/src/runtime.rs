//! Running an image: the process, its namespaces, mounts and limits.
use crate::environment::{ensure_path, env_of, env_vec_to_map, gives, last_entries_count};
use crate::environment::{override_env, values_come_from_entries, with_path};
use crate::image::{ContainerConfigModel, OciImage};
use crate::number::{decimal, decimal_is_injective, decimal_text, signed_decimal};
use crate::number::signed_decimal_text;
use crate::path::{absolute, clean, climbs, clean_container_path, file_name, file_name_of};
use crate::path::{has_parent_component, is_absolute, join_path, name_list, names, parent};
use crate::path::{parent_of, path_joined, slashed};
use crate::protocol::{copy_mounts, BindMountSpec, MountModel, NamespaceConfig, ResourceLimits};
use crate::random::{fresh_id, hyphenated, is_random_id};
use crate::text::{begins, copy_texts, ends, glue, glue3, join_all, outcome};
use crate::text_map::StringMap;
use vstd::prelude::*;

verus! {

// ---------------------------------------------------------------------------
// Requests
// ---------------------------------------------------------------------------
/// What is to be run.
pub struct RunRequest {
    pub image_reference: String,
    pub command: Vec<String>,
    pub environment: StringMap,
    pub working_directory: Option<String>,
    pub store_dir: String,
    pub namespace_config: NamespaceConfig,
    pub resource_limits: Option<ResourceLimits>,
    pub clear_image_env: bool,
    pub mounts: Vec<BindMountSpec>,
    pub container_id: Option<String>,
    pub status_file: Option<String>,
    pub started_at: Option<i64>,
}

/// How a process ended: its exit code, or none where a signal ended it.
#[derive(Debug, Clone, Copy)]
pub struct RunResult {
    pub exit_code: Option<i32>,
}

/// The exit code that is passed on: that of the process, and one where it has none.
pub open spec fn passed_code(exit_code: Option<i32>) -> i32 {
    match exit_code {
        Some(code) => code,
        None => 1,
    }
}

/// The process succeeded.
pub open spec fn succeeded(exit_code: Option<i32>) -> bool {
    exit_code == Some(0i32)
}

impl RunResult {
    /// The exit code that is passed on.
    pub fn code(&self) -> (code: i32)
        ensures
            code == match self.exit_code {
                Some(code) => code,
                None => 1,
            },
            code == passed_code(self.exit_code),
    {
        match self.exit_code {
            Some(code) => code,
            None => 1,
        }
    }

    /// Whether the process succeeded.
    pub fn success(&self) -> (success: bool)
        ensures
            success == (self.exit_code == Some(0i32)),
            success == succeeded(self.exit_code),
    {
        match self.exit_code {
            Some(code) => code == 0,
            None => false,
        }
    }
}

/// The name under which an image's root file system is unpacked.
pub open spec fn unpacked_name(given: Option<Seq<char>>, drawn: Seq<char>) -> Seq<char> {
    match given {
        Some(given) => given,
        None => "run-"@ + drawn,
    }
}

/// The digest of the manifest of an image that is to be run.
pub open spec fn stored_digest(reference: Seq<char>, resolved: Option<Seq<char>>) -> Result<
    Seq<char>,
    Seq<char>,
> {
    match resolved {
        Some(digest) => Ok(digest),
        None => Err("Image '"@ + reference + "' not found locally"@),
    }
}

/// Runs images.
#[derive(Debug)]
pub struct RunService;

/// Whether images can be run at all.
pub fn ensure_runtime_prerequisites(effective_root: bool) -> (result: Result<(), String>)
    ensures
        effective_root ==> result is Ok,
        !effective_root ==> (result matches Err(message) && message@
            == "Standalone container run currently requires root privileges in qbuild's runtime model"@),
{
    if effective_root {
        Ok(())
    } else {
        Err(
            "Standalone container run currently requires root privileges in qbuild's runtime model".to_string(),
        )
    }
}

// ---------------------------------------------------------------------------
// The process
// ---------------------------------------------------------------------------
/// The words of an optional command.
pub open spec fn words_or_none(words: Option<Seq<Seq<char>>>) -> Seq<Seq<char>> {
    match words {
        Some(words) => words,
        None => seq![],
    }
}

/// The words of an optional command.
pub fn words_of(words: Option<Vec<String>>) -> (result: Vec<String>)
    ensures
        result.deep_view() == words_or_none(words.deep_view()),
{
    match words {
        Some(words) => words,
        None => {
            let none: Vec<String> = Vec::new();
            assert(none.deep_view() =~= seq![]);
            none
        },
    }
}

/// The command that runs: the one given; else the entry point with the default
/// command; else the default command; else a shell, where the image has one.
pub open spec fn runtime_command(
    config: ContainerConfigModel,
    given: Seq<Seq<char>>,
    has_shell: bool,
) -> Result<Seq<Seq<char>>, Seq<char>> {
    let entrypoint = words_or_none(config.entrypoint);
    let cmd = words_or_none(config.cmd);
    if given.len() > 0 {
        Ok(given)
    } else if entrypoint.len() > 0 {
        Ok(entrypoint + cmd)
    } else if cmd.len() > 0 {
        Ok(cmd)
    } else if has_shell {
        Ok(seq!["/bin/sh"@])
    } else {
        Err("Image does not define Entrypoint/Cmd and /bin/sh is unavailable"@)
    }
}

/// The command that runs. `has_shell` tells whether the image has `bin/sh` or
/// `usr/bin/sh`.
pub fn resolve_runtime_command(
    image: &OciImage,
    override_command: &Vec<String>,
    has_shell: bool,
) -> (result: Result<Vec<String>, String>)
    ensures
        outcome(result) == runtime_command(
            image.container(),
            override_command.deep_view(),
            has_shell,
        ),
        result matches Ok(words) ==> words@.len() > 0,
{
    if override_command.len() > 0 {
        return Ok(copy_texts(override_command));
    }
    let entrypoint = words_of(image.entrypoint());
    let mut cmd = words_of(image.default_cmd());
    if entrypoint.len() > 0 {
        let ghost first = entrypoint.deep_view();
        let ghost second = cmd.deep_view();
        let mut full = entrypoint;
        full.append(&mut cmd);
        assert(full.deep_view() =~= first + second);
        return Ok(full);
    }
    if cmd.len() > 0 {
        return Ok(cmd);
    }
    if has_shell {
        let mut words: Vec<String> = Vec::new();
        words.push("/bin/sh".to_string());
        assert(words.deep_view() =~= seq!["/bin/sh"@]);
        return Ok(words);
    }
    Err("Image does not define Entrypoint/Cmd and /bin/sh is unavailable".to_string())
}

/// Where an image's shells are.
pub open spec fn shells_in(rootfs: Seq<char>) -> Seq<Seq<char>> {
    seq![path_joined(rootfs, "bin/sh"@), path_joined(rootfs, "usr/bin/sh"@)]
}

/// Where an image's shells are.
pub fn shell_paths(rootfs: &str) -> (paths: Vec<String>)
    ensures
        paths.deep_view() == seq![
            path_joined(rootfs@, "bin/sh"@),
            path_joined(rootfs@, "usr/bin/sh"@),
        ],
        paths.deep_view() == shells_in(rootfs@),
{
    let mut paths: Vec<String> = Vec::new();
    paths.push(join_path(rootfs, "bin/sh"));
    paths.push(join_path(rootfs, "usr/bin/sh"));
    assert(paths.deep_view() =~= seq![
        path_joined(rootfs@, "bin/sh"@),
        path_joined(rootfs@, "usr/bin/sh"@),
    ]);
    paths
}

/// The environment of the process: the image's unless it is cleared, what was given
/// on top, and a search path in any case.
pub open spec fn runtime_env(
    config: ContainerConfigModel,
    overrides: Map<Seq<char>, Seq<char>>,
    clear_image_env: bool,
) -> Map<Seq<char>, Seq<char>> {
    let base = if clear_image_env {
        Map::empty()
    } else {
        env_of(words_or_none(config.env))
    };
    with_path(base.union_prefer_right(overrides))
}

/// The environment of the process.
pub fn resolve_runtime_env(
    image: &OciImage,
    overrides: &StringMap,
    clear_image_env: bool,
) -> (env: StringMap)
    ensures
        env.deep_view() == runtime_env(image.container(), overrides.deep_view(), clear_image_env),
{
    let mut env = if clear_image_env {
        StringMap::new()
    } else {
        let entries = image.env();
        assert(entries.deep_view() =~= words_or_none(image.container().env));
        env_vec_to_map(&entries)
    };
    assert(clear_image_env ==> env.deep_view() =~= Map::empty());
    override_env(&mut env, overrides);
    ensure_path(&mut env);
    env
}

/// The flags of new namespaces, as Linux numbers them.
pub const CLONE_NEWNS: i32 = 0x20000;

pub const CLONE_NEWUTS: i32 = 0x4000000;

pub const CLONE_NEWIPC: i32 = 0x8000000;

pub const CLONE_NEWNET: i32 = 0x40000000;

/// One flag, if it is set.
pub open spec fn flag(set: bool, value: i32) -> int {
    if set {
        value as int
    } else {
        0
    }
}

/// The flags of the namespaces that a container gets. Each flag is a bit of its own,
/// so that they add up.
pub fn build_clone_flags(config: &NamespaceConfig) -> (flags: i32)
    ensures
        flags == flag(config.mount, CLONE_NEWNS) + flag(config.uts, CLONE_NEWUTS) + flag(
            config.ipc,
            CLONE_NEWIPC,
        ) + flag(config.network, CLONE_NEWNET),
        flags == 0 <==> !config.mount && !config.uts && !config.ipc && !config.network,
{
    let mut flags: i32 = 0;
    if config.mount {
        flags = flags + CLONE_NEWNS;
    }
    if config.uts {
        flags = flags + CLONE_NEWUTS;
    }
    if config.ipc {
        flags = flags + CLONE_NEWIPC;
    }
    if config.network {
        flags = flags + CLONE_NEWNET;
    }
    flags
}

/// The process that runs an image.
pub struct ProcessPlan {
    /// The program and its arguments.
    pub argv: Vec<String>,
    /// Its whole environment.
    pub environment: StringMap,
    /// Its working directory inside the container.
    pub workdir: String,
    /// The user it runs as, by the image's own files.
    pub user: Option<String>,
    /// The namespaces of its own.
    pub clone_flags: i32,
    /// One of them is for mounts.
    pub mount_namespace: bool,
    pub mounts: Vec<BindMountSpec>,
}

/// A [`ProcessPlan`] as a mathematical value.
#[verifier::ext_equal]
pub struct ProcessModel {
    pub argv: Seq<Seq<char>>,
    pub environment: Map<Seq<char>, Seq<char>>,
    pub workdir: Seq<char>,
    pub user: Option<Seq<char>>,
    pub clone_flags: int,
    pub mount_namespace: bool,
    pub mounts: Seq<MountModel>,
}

impl DeepView for ProcessPlan {
    type V = ProcessModel;

    open spec fn deep_view(&self) -> ProcessModel {
        ProcessModel {
            argv: self.argv.deep_view(),
            environment: self.environment.deep_view(),
            workdir: self.workdir@,
            user: self.user.deep_view(),
            clone_flags: self.clone_flags as int,
            mount_namespace: self.mount_namespace,
            mounts: self.mounts.deep_view(),
        }
    }
}

/// The process that runs an image: first the command, then the mounts may be wrong.
pub open spec fn planned_process(
    config: ContainerConfigModel,
    request: RunRequest,
    has_shell: bool,
) -> Result<ProcessModel, Seq<char>> {
    match runtime_command(config, request.command.deep_view(), has_shell) {
        Err(message) => Err(message),
        Ok(argv) => if request.mounts@.len() > 0 && !request.namespace_config.mount {
            Err("Bind mounts require qbuild's mount namespace; remove --no-mount-namespace"@)
        } else {
            let namespaces = request.namespace_config;
            Ok(
                ProcessModel {
                    argv,
                    environment: runtime_env(
                        config,
                        request.environment.deep_view(),
                        request.clear_image_env,
                    ),
                    workdir: match request.working_directory {
                        Some(path) => path@,
                        None => match config.working_dir {
                            Some(path) => path,
                            None => "/"@,
                        },
                    },
                    user: config.user,
                    clone_flags: flag(namespaces.mount, CLONE_NEWNS) + flag(
                        namespaces.uts,
                        CLONE_NEWUTS,
                    ) + flag(namespaces.ipc, CLONE_NEWIPC) + flag(
                        namespaces.network,
                        CLONE_NEWNET,
                    ),
                    mount_namespace: namespaces.mount,
                    mounts: request.mounts.deep_view(),
                },
            )
        },
    }
}

impl RunService {
    /// A service.
    pub fn new() -> (service: Self)
        ensures
            service == RunService,
    {
        RunService
    }

    /// The process that runs an image.
    pub fn plan_process(&self, image: &OciImage, request: &RunRequest, has_shell: bool) -> (result:
        Result<ProcessPlan, String>)
        ensures
            outcome(result) == planned_process(image.container(), *request, has_shell),
            result matches Ok(plan) ==> plan.argv@.len() > 0,
    {
        let argv = match resolve_runtime_command(image, &request.command, has_shell) {
            Ok(argv) => argv,
            Err(message) => {
                return Err(message);
            },
        };
        let environment = resolve_runtime_env(
            image,
            &request.environment,
            request.clear_image_env,
        );
        let workdir = match &request.working_directory {
            Some(path) => path.clone(),
            None => match image.working_dir() {
                Some(path) => path,
                None => "/".to_string(),
            },
        };
        let user = image.user();
        let clone_flags = build_clone_flags(&request.namespace_config);
        let mount_namespace = request.namespace_config.mount;
        if request.mounts.len() > 0 && !mount_namespace {
            return Err(
                "Bind mounts require qbuild's mount namespace; remove --no-mount-namespace".to_string(),
            );
        }
        let mounts = copy_mounts(&request.mounts);
        Ok(
            ProcessPlan {
                argv,
                environment,
                workdir,
                user,
                clone_flags,
                mount_namespace,
                mounts,
            },
        )
    }

    /// The name under which the image's root file system is unpacked: the one given,
    /// or one that ends in the drawn name.
    pub fn container_id_or(&self, request: &RunRequest, drawn: &str) -> (id: String)
        ensures
            id@ == match request.container_id {
                Some(given) => given@,
                None => "run-"@ + drawn@,
            },
            id@ == unpacked_name(request.container_id.deep_view(), drawn@),
    {
        match &request.container_id {
            Some(given) => given.clone(),
            None => glue("run-", drawn),
        }
    }

    /// The name under which the image's root file system is unpacked: the one given,
    /// or a fresh one.
    pub fn container_id(&self, request: &RunRequest) -> (id: String)
        ensures
            match request.container_id {
                Some(given) => id@ == given@,
                None => exists|random: Seq<char>| #[trigger]
                    is_random_id(random) && id@ == "run-"@ + hyphenated(random),
            },
    {
        self.container_id_or(request, &fresh_id())
    }

    /// The digest of the manifest of the image that is to be run.
    pub fn require_manifest(&self, request: &RunRequest, resolved: Option<String>) -> (result:
        Result<String, String>)
        ensures
            match resolved {
                Some(digest) => result matches Ok(found) && found@ == digest@,
                None => result matches Err(message) && message@ == "Image '"@
                    + request.image_reference@ + "' not found locally"@,
            },
            outcome(result) == stored_digest(
                request.image_reference@,
                resolved.deep_view(),
            ),
    {
        match resolved {
            Some(digest) => Ok(digest),
            None => Err(glue3("Image '", &request.image_reference, "' not found locally")),
        }
    }
}

// ---------------------------------------------------------------------------
// Mounts
// ---------------------------------------------------------------------------
/// Where a mount goes inside the container: an absolute path without `..` that is
/// not the root.
pub open spec fn mount_target(target: Seq<char>) -> Result<Seq<char>, Seq<char>> {
    if !absolute(target) {
        Err("Bind mount target '"@ + target + "' must be absolute"@)
    } else if climbs(target) {
        Err("Bind mount target '"@ + target + "' cannot contain parent traversal"@)
    } else if names(target).len() == 0 {
        Err("Bind mount target cannot be '/'"@)
    } else {
        Ok(clean(target))
    }
}

/// Where a mount goes inside the container.
pub fn normalize_container_mount_target(target: &str) -> (result: Result<String, String>)
    ensures
        outcome(result) == mount_target(target@),
{
    if !is_absolute(target) {
        return Err(glue3("Bind mount target '", target, "' must be absolute"));
    }
    if has_parent_component(target) {
        return Err(
            glue3("Bind mount target '", target, "' cannot contain parent traversal"),
        );
    }
    let parts = name_list(target);
    assert(parts.deep_view().len() == parts@.len());
    if parts.len() == 0 {
        return Err("Bind mount target cannot be '/'".to_string());
    }
    Ok(clean_container_path(target))
}

/// What a mount's source is.
#[derive(Debug, Clone, Copy, PartialEq, Eq, Structural)]
pub enum MountSource {
    Directory,
    File,
    Other,
}

/// What has to exist for a mount.
#[derive(Debug)]
pub struct MountPlan {
    /// The target inside the container.
    pub target: String,
    /// The target as the host sees it.
    pub host_target: String,
    /// The target has to be a directory; else it has to be a file.
    pub directory: bool,
    /// The directory that a file target needs.
    pub parent: Option<String>,
    pub readonly: bool,
}

/// A [`MountPlan`] as a mathematical value.
#[verifier::ext_equal]
pub struct MountPlanModel {
    pub target: Seq<char>,
    pub host_target: Seq<char>,
    pub directory: bool,
    pub parent: Option<Seq<char>>,
    pub readonly: bool,
}

impl DeepView for MountPlan {
    type V = MountPlanModel;

    open spec fn deep_view(&self) -> MountPlanModel {
        MountPlanModel {
            target: self.target@,
            host_target: self.host_target@,
            directory: self.directory,
            parent: self.parent.deep_view(),
            readonly: self.readonly,
        }
    }
}

/// What a mount needs, given its resolved source.
pub open spec fn planned_mount(
    rootfs: Seq<char>,
    mount: MountModel,
    source: Seq<char>,
    kind: MountSource,
) -> Result<MountPlanModel, Seq<char>> {
    match mount_target(mount.target) {
        Err(message) => Err(message),
        Ok(target) => if kind is Other {
            Err("Bind mount source '"@ + source + "' must be a regular file or directory"@)
        } else {
            let host_target = path_joined(rootfs, slashed(names(mount.target)));
            Ok(
                MountPlanModel {
                    target,
                    host_target,
                    directory: kind is Directory,
                    parent: if kind is File {
                        parent_of(host_target)
                    } else {
                        None
                    },
                    readonly: mount.readonly,
                },
            )
        },
    }
}

/// What a mount needs, given its resolved source and what that is.
pub fn plan_bind_mount(
    rootfs: &str,
    mount: &BindMountSpec,
    source: &str,
    kind: MountSource,
) -> (result: Result<MountPlan, String>)
    ensures
        outcome(result) == planned_mount(rootfs@, mount.deep_view(), source@, kind),
{
    let target = match normalize_container_mount_target(&mount.target) {
        Ok(target) => target,
        Err(message) => {
            return Err(message);
        },
    };
    let host_target = join_path(rootfs, &join_all(&name_list(&mount.target), "/"));
    let (directory, host_parent) = match kind {
        MountSource::Directory => (true, None),
        MountSource::File => (false, parent(&host_target)),
        MountSource::Other => {
            return Err(
                glue3("Bind mount source '", source, "' must be a regular file or directory"),
            );
        },
    };
    Ok(
        MountPlan {
            target,
            host_target,
            directory,
            parent: host_parent,
            readonly: mount.readonly,
        },
    )
}

/// A mount never leaves the root file system: its place on the host is the root's
/// directory with a relative path of names below it.
pub proof fn mounts_stay_inside(
    rootfs: Seq<char>,
    mount: MountModel,
    source: Seq<char>,
    kind: MountSource,
)
    ensures
        planned_mount(rootfs, mount, source, kind) matches Ok(plan) ==> {
            &&& plan.readonly == mount.readonly
            &&& !climbs(plan.target)
            &&& !absolute(slashed(names(plan.target)))
            &&& !climbs(slashed(names(plan.target)))
            &&& names(plan.target).len() > 0
            &&& plan.host_target == path_joined(rootfs, slashed(names(plan.target)))
        },
{
    crate::path::clean_is_idempotent(mount.target);
    crate::path::names_are_names(mount.target);
    crate::path::slashed_names(names(mount.target));
}

// ---------------------------------------------------------------------------
// Limits
// ---------------------------------------------------------------------------
/// The control group of a container.
pub struct CgroupManager {
    id: String,
    limits: ResourceLimits,
    root: String,
}

/// What hands the controllers on to the groups below a directory.
pub open spec fn delegating(parent: Seq<char>) -> (Seq<char>, Seq<char>) {
    (path_joined(parent, "cgroup.subtree_control"@), "+memory +cpu +pids"@)
}

/// What puts a process into the group of a directory.
pub open spec fn joining(directory: Seq<char>, pid: int) -> (Seq<char>, Seq<char>) {
    (path_joined(directory, "cgroup.procs"@), signed_decimal(pid))
}

/// What ends all processes of the group of a directory.
pub open spec fn ending(directory: Seq<char>) -> (Seq<char>, Seq<char>) {
    (path_joined(directory, "cgroup.kill"@), "1"@)
}

/// What is written to limit a container.
pub open spec fn limit_writes(directory: Seq<char>, limits: ResourceLimits) -> Seq<
    (Seq<char>, Seq<char>),
> {
    let memory = match limits.memory_limit_bytes {
        Some(bytes) => seq![(path_joined(directory, "memory.max"@), decimal(bytes as nat))],
        None => seq![],
    };
    let cpu = match limits.cpu_quota {
        Some(quota) => seq![
            (
                path_joined(directory, "cpu.max"@),
                signed_decimal(quota as int) + " "@ + decimal(
                    match limits.cpu_period {
                        Some(period) => period as nat,
                        None => 100000,
                    },
                ),
            ),
        ],
        None => seq![],
    };
    let pids = match limits.pids_limit {
        Some(count) => seq![(path_joined(directory, "pids.max"@), decimal(count as nat))],
        None => seq![],
    };
    memory + cpu + pids
}

impl CgroupManager {
    /// The directory of all control groups.
    pub closed spec fn parent_path(self) -> Seq<char> {
        path_joined(self.root@, "qbuild"@)
    }

    /// The directory of the container's control group.
    pub closed spec fn path(self) -> Seq<char> {
        path_joined(self.parent_path(), self.id@)
    }

    /// The limits.
    pub closed spec fn bounds(self) -> ResourceLimits {
        self.limits
    }

    /// The control group of a container.
    pub fn new(id: String, limits: ResourceLimits) -> (manager: Self)
        ensures
            manager.parent_path() == path_joined("/sys/fs/cgroup"@, "qbuild"@),
            manager.path() == path_joined(path_joined("/sys/fs/cgroup"@, "qbuild"@), id@),
            manager.bounds() == limits,
    {
        CgroupManager { id, limits, root: "/sys/fs/cgroup".to_string() }
    }

    /// The file that tells whether control groups can be used.
    pub fn probe(&self) -> (path: String)
        ensures
            path@ == self.probe_path(),
    {
        join_path(&self.root, "cgroup.controllers")
    }

    /// The file that tells whether control groups can be used.
    pub closed spec fn probe_path(self) -> Seq<char> {
        path_joined(self.root@, "cgroup.controllers"@)
    }

    /// The directory of all control groups.
    pub fn parent_directory(&self) -> (path: String)
        ensures
            path@ == self.parent_path(),
    {
        join_path(&self.root, "qbuild")
    }

    /// The directory of the container's control group.
    pub fn directory(&self) -> (path: String)
        ensures
            path@ == self.path(),
    {
        join_path(&self.parent_directory(), &self.id)
    }

    /// What hands the controllers on to the containers' groups.
    pub fn delegation(&self) -> (write: (String, String))
        ensures
            write.0@ == path_joined(self.parent_path(), "cgroup.subtree_control"@),
            write.1@ == "+memory +cpu +pids"@,
            write.deep_view() == delegating(self.parent_path()),
    {
        (
            join_path(&self.parent_directory(), "cgroup.subtree_control"),
            "+memory +cpu +pids".to_string(),
        )
    }

    /// What is written to limit the container.
    pub fn writes(&self) -> (writes: Vec<(String, String)>)
        ensures
            writes.deep_view() == limit_writes(self.path(), self.bounds()),
    {
        let directory = self.directory();
        let mut writes: Vec<(String, String)> = Vec::new();
        if let Some(bytes) = self.limits.memory_limit_bytes {
            writes.push((join_path(&directory, "memory.max"), decimal_text(bytes)));
        }
        if let Some(quota) = self.limits.cpu_quota {
            let period: u64 = match self.limits.cpu_period {
                Some(period) => period,
                None => 100000,
            };
            writes.push(
                (
                    join_path(&directory, "cpu.max"),
                    glue3(&signed_decimal_text(quota), " ", &decimal_text(period)),
                ),
            );
        }
        if let Some(count) = self.limits.pids_limit {
            writes.push((join_path(&directory, "pids.max"), decimal_text(count)));
        }
        assert(writes.deep_view() =~= limit_writes(self.path(), self.bounds()));
        writes
    }

    /// What puts a process into the control group.
    pub fn add_process(&self, pid: i32) -> (write: (String, String))
        ensures
            write.0@ == path_joined(self.path(), "cgroup.procs"@),
            write.1@ == signed_decimal(pid as int),
            write.deep_view() == joining(self.path(), pid as int),
    {
        (join_path(&self.directory(), "cgroup.procs"), signed_decimal_text(pid as i64))
    }

    /// What ends all processes of the control group.
    pub fn kill(&self) -> (write: (String, String))
        ensures
            write.0@ == path_joined(self.path(), "cgroup.kill"@),
            write.1@ == "1"@,
            write.deep_view() == ending(self.path()),
    {
        (join_path(&self.directory(), "cgroup.kill"), "1".to_string())
    }
}

// ---------------------------------------------------------------------------
// Status
// ---------------------------------------------------------------------------
/// The container that a status file belongs to: the directory it is in.
pub open spec fn status_owner(path: Seq<char>) -> Result<Seq<char>, Seq<char>> {
    let owner = match parent_of(path) {
        Some(directory) => file_name_of(directory),
        None => None,
    };
    match owner {
        Some(id) => Ok(id),
        None => Err("Invalid runtime status path '"@ + path + "'"@),
    }
}

/// The container that a status file belongs to: the directory it is in.
pub fn runtime_status_id(path: &str) -> (result: Result<String, String>)
    ensures
        outcome(result) == status_owner(path@),
{
    let owner = match parent(path) {
        Some(directory) => file_name(&directory),
        None => None,
    };
    match owner {
        Some(id) => Ok(id),
        None => Err(glue3("Invalid runtime status path '", path, "'")),
    }
}

// ---------------------------------------------------------------------------
// Laws
// ---------------------------------------------------------------------------
/// What is given on the command line wins: a command over the image's, a variable
/// over the image's, and a working directory over the image's.
pub proof fn given_settings_win(
    config: ContainerConfigModel,
    request: RunRequest,
    has_shell: bool,
    key: Seq<char>,
)
    ensures
        planned_process(config, request, has_shell) matches Ok(plan) ==> {
            &&& request.command@.len() > 0 ==> plan.argv == request.command.deep_view()
            &&& request.environment.deep_view().contains_key(key)
                ==> plan.environment.contains_key(key) && plan.environment[key]
                == request.environment.deep_view()[key]
            &&& request.working_directory matches Some(path) ==> plan.workdir == path@
        },
{
}

/// A process always has a command and a search path.
pub proof fn processes_have_a_command_and_a_path(
    config: ContainerConfigModel,
    request: RunRequest,
    has_shell: bool,
)
    ensures
        planned_process(config, request, has_shell) matches Ok(plan) ==> plan.argv.len() > 0
            && plan.environment.contains_key("PATH"@),
{
}

// ---------------------------------------------------------------------------
// Laws of processes
// ---------------------------------------------------------------------------
/// The image's variables come along unless they are cleared: each variable that an entry
/// of the image gives last and that the request does not set has the image's value. Where
/// they are cleared there are only the variables of the request and a search path.
pub proof fn image_variables_come_along(
    config: ContainerConfigModel,
    request: RunRequest,
    has_shell: bool,
    at: int,
    key: Seq<char>,
    value: Seq<char>,
)
    requires
        config.env matches Some(entries) ==> 0 <= at < entries.len() && gives(
            entries[at],
            key,
            value,
        ) && forall|later: int, other: Seq<char>|
            at < later < entries.len() ==> !#[trigger] gives(entries[later], key, other),
    ensures
        planned_process(config, request, has_shell) matches Ok(plan) ==> {
            let set = request.environment.deep_view();
            &&& config.env is Some && !request.clear_image_env && !set.contains_key(key)
                ==> plan.environment.contains_key(key) && plan.environment[key] == value
            &&& request.clear_image_env ==> forall|name: Seq<char>| #[trigger]
                plan.environment.contains_key(name) <==> set.contains_key(name) || name == "PATH"@
            &&& request.clear_image_env && !set.contains_key("PATH"@)
                ==> plan.environment["PATH"@]
                == "/usr/local/sbin:/usr/local/bin:/usr/sbin:/usr/bin:/sbin:/bin"@
        },
{
    if let Some(entries) = config.env {
        last_entries_count(entries, at, key, value);
    }
}

/// Every variable of a process is one of the request with its value, one that an entry of
/// the image gives, or the search path.
pub proof fn variables_come_from_somewhere(
    config: ContainerConfigModel,
    request: RunRequest,
    has_shell: bool,
    key: Seq<char>,
)
    ensures
        planned_process(config, request, has_shell) matches Ok(plan) ==> (
        plan.environment.contains_key(key) ==> {
            let set = request.environment.deep_view();
            ||| set.contains_key(key) && plan.environment[key] == set[key]
            ||| !request.clear_image_env && (config.env matches Some(entries) && exists|at: int|
                0 <= at < entries.len() && #[trigger] gives(
                    entries[at],
                    key,
                    plan.environment[key],
                ))
            ||| key == "PATH"@ && plan.environment[key]
                == "/usr/local/sbin:/usr/local/bin:/usr/sbin:/usr/bin:/sbin:/bin"@
        }),
{
    if let Some(entries) = config.env {
        values_come_from_entries(entries, key);
        if let Ok(plan) = planned_process(config, request, has_shell) {
            let set = request.environment.deep_view();
            if !request.clear_image_env && !set.contains_key(key) && env_of(entries).contains_key(
                key,
            ) {
                assert(plan.environment[key] == env_of(entries)[key]);
                let at = choose|at: int|
                    0 <= at < entries.len() && #[trigger] gives(
                        entries[at],
                        key,
                        env_of(entries)[key],
                    );
                assert(gives(entries[at], key, plan.environment[key]));
            }
        }
    }
}

/// The command of a process is what was given or what the image says: the given one as it
/// is; else the image's entry point followed by its default command; else a shell where
/// the image has one. Only an image that says neither and has no shell is refused, and
/// mounts where there is no mount namespace.
pub proof fn commands_are_given_or_the_images(
    config: ContainerConfigModel,
    request: RunRequest,
    has_shell: bool,
)
    ensures
        planned_process(config, request, has_shell) matches Ok(plan) ==> {
            let words = request.command.deep_view();
            &&& words.len() > 0 ==> plan.argv == words
            &&& words.len() == 0 ==> match (config.entrypoint, config.cmd) {
                (Some(entry), Some(cmd)) => entry.len() + cmd.len() > 0 ==> plan.argv == entry
                    + cmd,
                (Some(entry), None) => entry.len() > 0 ==> plan.argv == entry,
                (None, Some(cmd)) => cmd.len() > 0 ==> plan.argv == cmd,
                (None, None) => plan.argv == seq!["/bin/sh"@],
            }
        },
        planned_process(config, request, has_shell) is Err <==> {
            ||| request.mounts@.len() > 0 && !request.namespace_config.mount
            ||| request.command@.len() == 0 && !has_shell && (config.entrypoint matches Some(words)
                ==> words.len() == 0) && (config.cmd matches Some(words) ==> words.len() == 0)
        },
{
    if let (Some(entry), Some(cmd)) = (config.entrypoint, config.cmd) {
        if entry.len() == 0 {
            assert(entry + cmd =~= cmd);
        }
    }
    if let Some(entry) = config.entrypoint {
        assert(entry + Seq::<Seq<char>>::empty() =~= entry);
    }
}

/// A process runs where and as whom it was asked to: in the directory of the request, else
/// in that of the image, else at the root; as the user of the image; and with the mounts
/// of the request, in their order.
pub proof fn processes_run_where_asked(
    config: ContainerConfigModel,
    request: RunRequest,
    has_shell: bool,
)
    ensures
        planned_process(config, request, has_shell) matches Ok(plan) ==> {
            &&& request.working_directory matches Some(path) ==> plan.workdir == path@
            &&& request.working_directory is None ==> (config.working_dir matches Some(path)
                ==> plan.workdir == path)
            &&& request.working_directory is None && config.working_dir is None ==> plan.workdir
                == "/"@
            &&& plan.user == config.user
            &&& plan.mounts.len() == request.mounts@.len()
            &&& forall|i: int|
                0 <= i < plan.mounts.len() ==> {
                    &&& (#[trigger] plan.mounts[i]).source == request.mounts@[i].source@
                    &&& plan.mounts[i].target == request.mounts@[i].target@
                    &&& plan.mounts[i].readonly == request.mounts@[i].readonly
                }
        },
{
}

/// Each namespace has a flag of its own: the flags of a process tell exactly which
/// namespaces it gets, and it has a mount namespace where that was asked for.
pub proof fn namespaces_go_by_their_flags(
    config: ContainerConfigModel,
    request: RunRequest,
    has_shell: bool,
)
    ensures
        planned_process(config, request, has_shell) matches Ok(plan) ==> {
            let asked = request.namespace_config;
            let flags = plan.clone_flags;
            &&& plan.mount_namespace == asked.mount
            &&& 0 <= flags <= 0x7fff_ffff
            &&& (flags / 0x2_0000) % 2 == (if asked.mount { 1int } else { 0 })
            &&& (flags / 0x400_0000) % 2 == (if asked.uts { 1int } else { 0 })
            &&& (flags / 0x800_0000) % 2 == (if asked.ipc { 1int } else { 0 })
            &&& (flags / 0x4000_0000) % 2 == (if asked.network { 1int } else { 0 })
            &&& !asked.mount && !asked.uts && !asked.ipc && !asked.network ==> flags == 0
        },
{
}

/// Limits are written one file each: what was asked for is in its file below the
/// directory, and nothing is written for what was not.
pub proof fn limits_are_written(directory: Seq<char>, limits: ResourceLimits)
    ensures
        ({
            let writes = limit_writes(directory, limits);
            &&& limits.memory_limit_bytes matches Some(bytes) ==> writes.contains(
                (path_joined(directory, "memory.max"@), decimal(bytes as nat)),
            )
            &&& limits.cpu_quota matches Some(quota) ==> match limits.cpu_period {
                Some(period) => writes.contains(
                    (
                        path_joined(directory, "cpu.max"@),
                        signed_decimal(quota as int) + " "@ + decimal(period as nat),
                    ),
                ),
                None => writes.contains(
                    (
                        path_joined(directory, "cpu.max"@),
                        signed_decimal(quota as int) + " "@ + decimal(100000),
                    ),
                ),
            }
            &&& limits.pids_limit matches Some(count) ==> writes.contains(
                (path_joined(directory, "pids.max"@), decimal(count as nat)),
            )
            &&& writes.len() == (if limits.memory_limit_bytes is Some { 1int } else { 0 }) + (
            if limits.cpu_quota is Some { 1int } else { 0 }) + (if limits.pids_limit is Some {
                1int
            } else {
                0
            })
        }),
{
    let writes = limit_writes(directory, limits);
    let first: int = if limits.memory_limit_bytes is Some { 1 } else { 0 };
    let second: int = first + (if limits.cpu_quota is Some { 1int } else { 0 });
    if limits.memory_limit_bytes is Some {
        assert(writes.contains(writes[0]));
    }
    if limits.cpu_quota is Some {
        assert(writes.contains(writes[first]));
    }
    if limits.pids_limit is Some {
        assert(writes.contains(writes[second]));
    }
}

/// A mount is what it was asked to be: a directory where its source is one, with the
/// directory above it made where its source is a file, and it can be written to unless it
/// is read-only. It is refused exactly where its target is not absolute, climbs or is the
/// root, or where its source is neither a file nor a directory.
pub proof fn mounts_are_as_asked(
    rootfs: Seq<char>,
    mount: MountModel,
    source: Seq<char>,
    kind: MountSource,
)
    ensures
        planned_mount(rootfs, mount, source, kind) is Err <==> {
            ||| mount.target.len() == 0
            ||| mount.target[0] != '/'
            ||| climbs(mount.target)
            ||| names(mount.target).len() == 0
            ||| kind is Other
        },
        planned_mount(rootfs, mount, source, kind) matches Ok(plan) ==> {
            &&& plan.readonly == mount.readonly
            &&& plan.directory == (kind is Directory)
            &&& names(plan.target) == names(mount.target)
            &&& kind is File ==> plan.parent == parent_of(plan.host_target)
            &&& kind is Directory ==> plan.parent is None
        },
{
    mounts_stay_inside(rootfs, mount, source, kind);
    crate::path::clean_is_idempotent(mount.target);
}

/// A run succeeded exactly where the exit code that is passed on is zero, and the code of a
/// process is passed on as it is.
pub proof fn exit_codes_are_passed_on(exit_code: Option<i32>)
    ensures
        succeeded(exit_code) <==> passed_code(exit_code) == 0,
        exit_code matches Some(code) ==> passed_code(exit_code) == code,
        exit_code is None ==> passed_code(exit_code) != 0 && !succeeded(exit_code),
{
}

/// A container that has a name is unpacked under it, and one that has none under a name that
/// was drawn for it, so that different draws have different names.
pub proof fn containers_are_unpacked_under_their_name(
    given: Seq<char>,
    drawn: Seq<char>,
    other: Seq<char>,
)
    ensures
        unpacked_name(Some(given), drawn) == given,
        begins(unpacked_name(None, drawn), "run-"@),
        ends(unpacked_name(None, drawn), drawn),
        unpacked_name(None, drawn) == unpacked_name(None, other) <==> drawn == other,
{
    let front = "run-"@;
    let name = front + drawn;
    let another = front + other;
    assert(name.take(front.len() as int) =~= front);
    assert(name.skip(name.len() - drawn.len()) =~= drawn);
    assert(name.skip(front.len() as int) =~= drawn);
    assert(another.skip(front.len() as int) =~= other);
}

/// An image is run exactly where its reference resolves, and then by the digest that it
/// resolves to; otherwise the reference is named.
pub proof fn only_stored_images_are_run(reference: Seq<char>, resolved: Option<Seq<char>>)
    ensures
        resolved matches Some(digest) ==> stored_digest(reference, resolved) == Ok::<
            Seq<char>,
            Seq<char>,
        >(digest),
        resolved is None ==> (stored_digest(reference, resolved) matches Err(message) && begins(
            message,
            "Image '"@ + reference,
        )),
{
    let message = "Image '"@ + reference + "' not found locally"@;
    let front = "Image '"@ + reference;
    assert(message.take(front.len() as int) =~= front);
}

/// A control group is ruled by the files in its directory: a process joins it by its number,
/// a one ends it, and the directory above hands on the three controllers that limits are for.
pub proof fn groups_are_ruled_by_their_files(
    parent: Seq<char>,
    directory: Seq<char>,
    pid: int,
    other: int,
)
    requires
        pid > 0,
        other > 0,
    ensures
        joining(directory, pid).0 == path_joined(directory, "cgroup.procs"@),
        joining(directory, pid).1 == decimal(pid as nat),
        joining(directory, pid) == joining(directory, other) <==> pid == other,
        ending(directory).0 == path_joined(directory, "cgroup.kill"@),
        ending(directory).1 == "1"@,
        delegating(parent).0 == path_joined(parent, "cgroup.subtree_control"@),
        delegating(parent).1 == "+memory +cpu +pids"@,
{
    if joining(directory, pid) == joining(directory, other) {
        decimal_is_injective(pid as nat, other as nat);
    }
}

/// A shell is looked for below the root, in either of two directories.
pub proof fn shells_are_below_the_root(rootfs: Seq<char>)
    ensures
        shells_in(rootfs).len() == 2,
        shells_in(rootfs)[0] == path_joined(rootfs, "bin/sh"@),
        shells_in(rootfs)[1] == path_joined(rootfs, "usr/bin/sh"@),
{
}

} // verus!
