//! Persistent containers: their records, their states and what may be done with them.
use crate::clock::now_timestamp;
use crate::path::{absolute, is_name, is_prefix, join_path, parent, parent_of, path_joined};
use crate::path::{file_name_of, joined_paths_come_apart, without_tail};
use crate::protocol::{copy_mounts, BindMountSpec, ContainerState};
use crate::protocol::{MountModel, NamespaceConfig, ResourceLimits};
use crate::random::{is_random_id, random_id};
use crate::runtime::{status_owner, RunRequest};
use crate::stable_sort::{has_key, is_stable_sort, stable_sort, with_key, Keyed};
use crate::text::{begins, copy_option, copy_texts, glue, glue3, outcome};
use crate::text_map::StringMap;
use vstd::prelude::*;

verus! {

// ---------------------------------------------------------------------------
// Records
// ---------------------------------------------------------------------------
/// What is remembered of a container.
pub struct ContainerRecord {
    pub id: String,
    pub image_reference: String,
    pub command: Vec<String>,
    pub environment: StringMap,
    pub working_directory: Option<String>,
    pub namespace_config: NamespaceConfig,
    pub resource_limits: Option<ResourceLimits>,
    pub clear_image_env: bool,
    pub mounts: Vec<BindMountSpec>,
    pub state: ContainerState,
    pub pid: Option<u32>,
    pub exit_code: Option<i32>,
    pub created_at: i64,
    pub started_at: Option<i64>,
    pub finished_at: Option<i64>,
}

/// What a container was created with, as a mathematical value.
#[verifier::ext_equal]
pub struct SettingsModel {
    pub image_reference: Seq<char>,
    pub command: Seq<Seq<char>>,
    pub environment: Map<Seq<char>, Seq<char>>,
    pub working_directory: Option<Seq<char>>,
    pub namespace_config: NamespaceConfig,
    pub resource_limits: Option<ResourceLimits>,
    pub clear_image_env: bool,
    pub mounts: Seq<MountModel>,
}

/// A [`ContainerRecord`] as a mathematical value.
#[verifier::ext_equal]
pub struct ContainerModel {
    pub id: Seq<char>,
    pub settings: SettingsModel,
    pub state: ContainerState,
    pub pid: Option<u32>,
    pub exit_code: Option<i32>,
    pub created_at: i64,
    pub started_at: Option<i64>,
    pub finished_at: Option<i64>,
}

impl DeepView for ContainerRecord {
    type V = ContainerModel;

    open spec fn deep_view(&self) -> ContainerModel {
        ContainerModel {
            id: self.id@,
            settings: SettingsModel {
                image_reference: self.image_reference@,
                command: self.command.deep_view(),
                environment: self.environment.deep_view(),
                working_directory: self.working_directory.deep_view(),
                namespace_config: self.namespace_config,
                resource_limits: self.resource_limits,
                clear_image_env: self.clear_image_env,
                mounts: self.mounts.deep_view(),
            },
            state: self.state,
            pid: self.pid,
            exit_code: self.exit_code,
            created_at: self.created_at,
            started_at: self.started_at,
            finished_at: self.finished_at,
        }
    }
}

/// What a listing shows of a container.
#[derive(Debug)]
pub struct ContainerSummary {
    pub id: String,
    pub image_reference: String,
    pub state: ContainerState,
    pub pid: Option<u32>,
    pub exit_code: Option<i32>,
    pub created_at: i64,
    pub started_at: Option<i64>,
    pub finished_at: Option<i64>,
}

/// A [`ContainerSummary`] as a mathematical value.
#[verifier::ext_equal]
pub struct SummaryModel {
    pub id: Seq<char>,
    pub image_reference: Seq<char>,
    pub state: ContainerState,
    pub pid: Option<u32>,
    pub exit_code: Option<i32>,
    pub created_at: i64,
    pub started_at: Option<i64>,
    pub finished_at: Option<i64>,
}

impl DeepView for ContainerSummary {
    type V = SummaryModel;

    open spec fn deep_view(&self) -> SummaryModel {
        SummaryModel {
            id: self.id@,
            image_reference: self.image_reference@,
            state: self.state,
            pid: self.pid,
            exit_code: self.exit_code,
            created_at: self.created_at,
            started_at: self.started_at,
            finished_at: self.finished_at,
        }
    }
}

impl Keyed for ContainerSummary {
    open spec fn key(self) -> int {
        self.created_at as int
    }

    fn at_most(&self, other: &Self) -> (le: bool) {
        self.created_at <= other.created_at
    }
}

/// What a container is created with.
pub struct CreateContainerRequest {
    pub image_reference: String,
    pub command: Vec<String>,
    pub environment: StringMap,
    pub working_directory: Option<String>,
    pub namespace_config: NamespaceConfig,
    pub resource_limits: Option<ResourceLimits>,
    pub clear_image_env: bool,
    pub mounts: Vec<BindMountSpec>,
}

impl DeepView for CreateContainerRequest {
    type V = SettingsModel;

    open spec fn deep_view(&self) -> SettingsModel {
        SettingsModel {
            image_reference: self.image_reference@,
            command: self.command.deep_view(),
            environment: self.environment.deep_view(),
            working_directory: self.working_directory.deep_view(),
            namespace_config: self.namespace_config,
            resource_limits: self.resource_limits,
            clear_image_env: self.clear_image_env,
            mounts: self.mounts.deep_view(),
        }
    }
}

/// What the process of a container leaves behind about itself.
#[derive(Debug)]
pub struct ExecStatusFile {
    pub id: String,
    pub state: ContainerState,
    pub pid: Option<u32>,
    pub exit_code: Option<i32>,
    pub started_at: Option<i64>,
    pub finished_at: Option<i64>,
}

/// An [`ExecStatusFile`] as a mathematical value.
#[verifier::ext_equal]
pub struct StatusModel {
    pub id: Seq<char>,
    pub state: ContainerState,
    pub pid: Option<u32>,
    pub exit_code: Option<i32>,
    pub started_at: Option<i64>,
    pub finished_at: Option<i64>,
}

impl DeepView for ExecStatusFile {
    type V = StatusModel;

    open spec fn deep_view(&self) -> StatusModel {
        StatusModel {
            id: self.id@,
            state: self.state,
            pid: self.pid,
            exit_code: self.exit_code,
            started_at: self.started_at,
            finished_at: self.finished_at,
        }
    }
}

// ---------------------------------------------------------------------------
// Transitions
// ---------------------------------------------------------------------------
/// The name of a container for which this was drawn.
pub open spec fn drawn_name(random: Seq<char>) -> Seq<char> {
    "ctr-"@ + random
}

/// The directory of the containers below a data directory.
pub open spec fn containers_directory(data_root: Seq<char>) -> Seq<char> {
    path_joined(data_root, "containers"@)
}

/// A container that was just created.
pub open spec fn created(id: Seq<char>, settings: SettingsModel, now: i64) -> ContainerModel {
    ContainerModel {
        id,
        settings,
        state: ContainerState::Created,
        pid: None,
        exit_code: None,
        created_at: now,
        started_at: None,
        finished_at: None,
    }
}

/// The record of a container, brought up to date: what its process left behind
/// counts; without that, one whose process is gone has exited.
pub open spec fn refreshed(
    record: ContainerModel,
    status: Option<StatusModel>,
    process_alive: bool,
    now: i64,
) -> ContainerModel {
    match status {
        Some(found) => ContainerModel {
            state: found.state,
            exit_code: found.exit_code,
            pid: found.pid,
            started_at: found.started_at,
            finished_at: found.finished_at,
            ..record
        },
        None => if record.state.active() && record.pid is Some && !process_alive {
            ContainerModel {
                state: ContainerState::Exited,
                finished_at: Some(now),
                ..record
            }
        } else {
            record
        },
    }
}

/// Bringing a record up to date changed it, so that it has to be written.
pub open spec fn is_written(
    record: ContainerModel,
    status: Option<StatusModel>,
    process_alive: bool,
) -> bool {
    status is Some || (record.state.active() && record.pid is Some && !process_alive)
}

/// A container that is about to start.
pub open spec fn starting(record: ContainerModel) -> ContainerModel {
    ContainerModel {
        state: ContainerState::Starting,
        exit_code: None,
        finished_at: None,
        ..record
    }
}

/// A container whose process was started.
pub open spec fn launched(record: ContainerModel, pid: u32, now: i64) -> ContainerModel {
    ContainerModel { pid: Some(pid), started_at: Some(now), ..record }
}

/// A container whose process runs.
pub open spec fn running(record: ContainerModel, pid: u32, now: i64) -> ContainerModel {
    ContainerModel {
        state: ContainerState::Running,
        started_at: Some(now),
        pid: Some(pid),
        ..record
    }
}

/// What a process leaves behind while it runs.
pub open spec fn running_status(record: ContainerModel, pid: u32) -> StatusModel {
    StatusModel {
        id: record.id,
        state: ContainerState::Running,
        pid: Some(pid),
        exit_code: None,
        started_at: record.started_at,
        finished_at: None,
    }
}

/// What a process leaves behind when it has ended.
pub open spec fn exited_status(
    record: ContainerModel,
    pid: u32,
    exit_code: i32,
    now: i64,
) -> StatusModel {
    StatusModel {
        id: record.id,
        state: ContainerState::Exited,
        pid: Some(pid),
        exit_code: Some(exit_code),
        started_at: record.started_at,
        finished_at: Some(now),
    }
}

/// The complaint about a container that is in the way of what is wanted.
pub open spec fn busy(id: Seq<char>, verb: Seq<char>, state: ContainerState) -> Seq<char> {
    "Container '"@ + id + verb + state.name()
}

/// What removing an up-to-date container comes to: its directory goes, unless it is
/// active.
pub open spec fn removal(directory: Seq<char>, id: Seq<char>, state: ContainerState) -> Result<
    Seq<char>,
    Seq<char>,
> {
    if state.active() {
        Err(busy(id, "' is still "@, state))
    } else {
        Ok(path_joined(directory, id))
    }
}

/// What a listing shows of a container.
pub open spec fn summary_of(record: ContainerModel) -> SummaryModel {
    SummaryModel {
        id: record.id,
        image_reference: record.settings.image_reference,
        state: record.state,
        pid: record.pid,
        exit_code: record.exit_code,
        created_at: record.created_at,
        started_at: record.started_at,
        finished_at: record.finished_at,
    }
}

impl ExecStatusFile {
    /// What a process leaves behind while it runs.
    pub fn running_from(record: &ContainerRecord, pid: u32) -> (status: Self)
        ensures
            status.deep_view() == running_status(record.deep_view(), pid),
    {
        ExecStatusFile {
            id: record.id.clone(),
            state: ContainerState::Running,
            pid: Some(pid),
            exit_code: None,
            started_at: record.started_at,
            finished_at: None,
        }
    }

    /// What a process leaves behind when it has ended at a given time.
    pub fn exited_at(record: &ContainerRecord, pid: u32, exit_code: i32, now: i64) -> (status: Self)
        ensures
            status.deep_view() == exited_status(record.deep_view(), pid, exit_code, now),
    {
        ExecStatusFile {
            id: record.id.clone(),
            state: ContainerState::Exited,
            pid: Some(pid),
            exit_code: Some(exit_code),
            started_at: record.started_at,
            finished_at: Some(now),
        }
    }

    /// What a process leaves behind when it has ended.
    pub fn exited(record: &ContainerRecord, pid: u32, exit_code: i32) -> (status: Self)
        ensures
            exists|now: i64|
                status.deep_view() == #[trigger] exited_status(
                    record.deep_view(),
                    pid,
                    exit_code,
                    now,
                ),
    {
        let now = now_timestamp();
        let status = ExecStatusFile::exited_at(record, pid, exit_code, now);
        assert(status.deep_view() == exited_status(record.deep_view(), pid, exit_code, now));
        status
    }

    /// What a process leaves behind that could not be run.
    pub fn failed(record: &ContainerRecord, pid: u32, exit_code: i32) -> (status: Self)
        ensures
            exists|now: i64|
                status.deep_view() == #[trigger] exited_status(
                    record.deep_view(),
                    pid,
                    exit_code,
                    now,
                ),
    {
        ExecStatusFile::exited(record, pid, exit_code)
    }
}

// ---------------------------------------------------------------------------
// The store
// ---------------------------------------------------------------------------
/// The process numbers that a signal goes to: the container's group, or failing
/// that its process; and then the process is waited for.
#[derive(Debug, Clone, Copy)]
pub struct StopPlan {
    pub group: i32,
    pub process: i32,
}

/// How a stop goes on.
#[derive(Debug, Clone, Copy, PartialEq, Eq, Structural)]
pub enum StopStep {
    /// The container has ended.
    Done,
    /// The container is looked at again a little later.
    Wait,
}

/// How a stop goes on: it waits until the container is no longer active.
pub open spec fn stop_next(record: ContainerModel) -> StopStep {
    if record.state.active() {
        StopStep::Wait
    } else {
        StopStep::Done
    }
}

/// How a stop goes on, given the up-to-date record.
pub fn stop_step(record: &ContainerRecord) -> (step: StopStep)
    ensures
        step == stop_next(record.deep_view()),
{
    if record.state.is_active() {
        StopStep::Wait
    } else {
        StopStep::Done
    }
}

/// What is left behind for a process that ended, at a given time, without leaving it
/// itself: its exit code is not known.
pub open spec fn settled(record: ContainerModel, process_alive: bool, now: i64) -> Option<
    StatusModel,
> {
    if record.state.active() && record.pid is Some && !process_alive {
        Some(StatusModel { exit_code: None, ..exited_status(record, record.pid->0, 0, now) })
    } else {
        None
    }
}

/// What is left behind for a process that ended at a given time without leaving it
/// itself.
pub fn settle_at(record: &ContainerRecord, process_alive: bool, now: i64) -> (status: Option<
    ExecStatusFile,
>)
    ensures
        status.deep_view() == settled(record.deep_view(), process_alive, now),
{
    match record.pid {
        Some(pid) if record.state.is_active() && !process_alive => Some(
            ExecStatusFile {
                id: record.id.clone(),
                state: ContainerState::Exited,
                pid: Some(pid),
                exit_code: None,
                started_at: record.started_at,
                finished_at: Some(now),
            },
        ),
        _ => None,
    }
}

/// What is left behind for a process that has ended without leaving it itself.
/// `process_alive` tells whether the process existed before the record was read.
pub fn settle(record: &ContainerRecord, process_alive: bool) -> (status: Option<ExecStatusFile>)
    ensures
        exists|now: i64|
            status.deep_view() == #[trigger] settled(record.deep_view(), process_alive, now),
{
    let now = now_timestamp();
    settle_at(record, process_alive, now)
}

/// What reading the record of a container gave.
pub enum RecordRead {
    /// The file could not be read, for this reason.
    Unreadable(String),
    /// The file holds no record, for this reason.
    Undecodable(String),
    /// The record.
    Record(ContainerRecord),
}

/// What is run for a container: the record's settings, under its name, with the images of
/// the store and a status file in the container's directory.
pub open spec fn runs(
    request: RunRequest,
    record: ContainerRecord,
    directory: Seq<char>,
    images: Seq<char>,
) -> bool {
    &&& request.image_reference@ == record.image_reference@
    &&& request.command.deep_view() == record.command.deep_view()
    &&& request.environment.deep_view() == record.environment.deep_view()
    &&& request.working_directory.deep_view() == record.working_directory.deep_view()
    &&& request.store_dir@ == images
    &&& request.namespace_config == record.namespace_config
    &&& request.resource_limits == record.resource_limits
    &&& request.clear_image_env == record.clear_image_env
    &&& request.mounts.deep_view() == record.mounts.deep_view()
    &&& request.container_id.deep_view() == Some(record.id@)
    &&& request.status_file.deep_view() == Some(
        path_joined(path_joined(directory, record.id@), "status.json"@),
    )
    &&& request.started_at == record.started_at
}

/// The file that a container's record is in.
pub open spec fn record_file(directory: Seq<char>, id: Seq<char>) -> Seq<char> {
    path_joined(path_joined(directory, id), "container.json"@)
}

/// The file that a container's process leaves behind.
pub open spec fn status_file(directory: Seq<char>, id: Seq<char>) -> Seq<char> {
    path_joined(path_joined(directory, id), "status.json"@)
}

/// The file that a container's output goes to.
pub open spec fn log_file(directory: Seq<char>, id: Seq<char>, stderr: bool) -> Seq<char> {
    path_joined(
        path_joined(directory, id),
        if stderr {
            "stderr.log"@
        } else {
            "stdout.log"@
        },
    )
}

/// The arguments of the process that a container is started with.
pub open spec fn start_words(data_root: Seq<char>, images: Seq<char>, id: Seq<char>) -> Seq<
    Seq<char>,
> {
    seq![
        "internal-exec"@,
        "--data-root"@,
        data_root,
        "--store-dir"@,
        images,
        "--container-id"@,
        id,
    ]
}

/// Where a signal goes: to the process group, and where that fails to the process.
pub open spec fn signalled(plan: StopPlan, pid: u32) -> bool {
    &&& plan.process == signed_pid(pid)
    &&& plan.group == -signed_pid(pid)
}

/// What loading a container gives, given what reading its record gave.
pub open spec fn loaded(path: Seq<char>, read: RecordRead) -> Result<ContainerModel, Seq<char>> {
    match read {
        RecordRead::Unreadable(problem) => Err(
            "Failed to read container record '"@ + path + "': "@ + problem@,
        ),
        RecordRead::Undecodable(problem) => Err(
            "Failed to decode container record '"@ + path + "': "@ + problem@,
        ),
        RecordRead::Record(record) => Ok(record.deep_view()),
    }
}

/// A process number as the system takes it.
pub open spec fn signed_pid(pid: u32) -> int {
    if pid < 0x8000_0000 {
        pid as int
    } else {
        pid - 0x1_0000_0000
    }
}

/// Keeps the records of containers.
pub struct ContainerStore {
    root: String,
    store_dir: String,
}

impl ContainerStore {
    /// The directory of the containers.
    pub closed spec fn directory(self) -> Seq<char> {
        self.root@
    }

    /// The directory of the images.
    pub closed spec fn images(self) -> Seq<char> {
        self.store_dir@
    }

    #[verifier::type_invariant]
    spec fn root_has_a_parent(self) -> bool {
        parent_of(self.root@) is Some
    }

    /// A store below a data directory.
    pub fn new(data_root: &str, store_dir: &str) -> (store: Self)
        ensures
            store.directory() == path_joined(data_root@, "containers"@),
            store.directory() == containers_directory(data_root@),
            store.images() == store_dir@,
    {
        let root = join_path(data_root, "containers");
        proof {
            reveal_strlit("containers");
            reveal_strlit("/");
            assert(root@.last() == 's');
            assert(root@.len() >= 10);
            assert(without_tail(root@) == root@);
        }
        ContainerStore { root, store_dir: store_dir.to_string() }
    }

    /// The directory of the containers.
    pub fn root(&self) -> (path: &str)
        ensures
            path@ == self.directory(),
    {
        &self.root
    }

    /// The directory of the images.
    pub fn store_dir(&self) -> (path: &str)
        ensures
            path@ == self.images(),
    {
        &self.store_dir
    }

    /// The data directory.
    pub fn data_root(&self) -> (path: String)
        ensures
            parent_of(self.directory()) == Some(path@),
    {
        proof {
            use_type_invariant(self);
        }
        match parent(&self.root) {
            Some(path) => path,
            None => String::new(),
        }
    }

    /// The directory of a container.
    pub fn container_dir(&self, id: &str) -> (path: String)
        ensures
            path@ == path_joined(self.directory(), id@),
    {
        join_path(&self.root, id)
    }

    /// The file of a container's record.
    pub fn record_path(&self, id: &str) -> (path: String)
        ensures
            path@ == path_joined(path_joined(self.directory(), id@), "container.json"@),
            path@ == record_file(self.directory(), id@),
    {
        join_path(&self.container_dir(id), "container.json")
    }

    /// The file that a container's process leaves behind.
    pub fn status_path(&self, id: &str) -> (path: String)
        ensures
            path@ == path_joined(path_joined(self.directory(), id@), "status.json"@),
            path@ == status_file(self.directory(), id@),
    {
        join_path(&self.container_dir(id), "status.json")
    }

    /// The file that a container's output goes to.
    pub fn logs(&self, id: &str, stderr: bool) -> (path: String)
        ensures
            path@ == path_joined(
                path_joined(self.directory(), id@),
                if stderr {
                    "stderr.log"@
                } else {
                    "stdout.log"@
                },
            ),
            path@ == log_file(self.directory(), id@, stderr),
    {
        if stderr {
            join_path(&self.container_dir(id), "stderr.log")
        } else {
            join_path(&self.container_dir(id), "stdout.log")
        }
    }

    /// A container with a given name, created at a given time.
    pub fn create_at(&self, request: CreateContainerRequest, random: &str, now: i64) -> (record:
        ContainerRecord)
        ensures
            record.deep_view() == created("ctr-"@ + random@, request.deep_view(), now),
            record.id@ == drawn_name(random@),
    {
        ContainerRecord {
            id: glue("ctr-", random),
            image_reference: request.image_reference,
            command: request.command,
            environment: request.environment,
            working_directory: request.working_directory,
            namespace_config: request.namespace_config,
            resource_limits: request.resource_limits,
            clear_image_env: request.clear_image_env,
            mounts: request.mounts,
            state: ContainerState::Created,
            pid: None,
            exit_code: None,
            created_at: now,
            started_at: None,
            finished_at: None,
        }
    }

    /// A container with a fresh name, created now.
    pub fn create(&self, request: CreateContainerRequest) -> (record: ContainerRecord)
        ensures
            exists|random: Seq<char>, now: i64|
                is_random_id(random) && record.deep_view() == #[trigger] created(
                    "ctr-"@ + random,
                    request.deep_view(),
                    now,
                ),
    {
        let random = random_id();
        let now = now_timestamp();
        let record = self.create_at(request, &random, now);
        assert(is_random_id(random@) && record.deep_view() == created(
            "ctr-"@ + random@,
            request.deep_view(),
            now,
        ));
        record
    }

    /// The record of a container, given what reading it gave.
    pub fn load(&self, id: &str, read: RecordRead) -> (result: Result<ContainerRecord, String>)
        ensures
            outcome(result) == loaded(record_file(self.directory(), id@), read),
    {
        match read {
            RecordRead::Unreadable(problem) => Err(
                glue(
                    &glue3("Failed to read container record '", &self.record_path(id), "': "),
                    &problem,
                ),
            ),
            RecordRead::Undecodable(problem) => Err(
                glue(
                    &glue3("Failed to decode container record '", &self.record_path(id), "': "),
                    &problem,
                ),
            ),
            RecordRead::Record(record) => Ok(record),
        }
    }

    /// Brings a record up to date at a given time, and tells whether it has to be
    /// written. `process_alive` tells whether the record's process exists.
    pub fn refresh_state_at(
        &self,
        record: &mut ContainerRecord,
        status: Option<&ExecStatusFile>,
        process_alive: bool,
        now: i64,
    ) -> (write: bool)
        ensures
            final(record).deep_view() == refreshed(
                old(record).deep_view(),
                status.deep_view(),
                process_alive,
                now,
            ),
            write == (status is Some || (old(record).state.active() && old(record).pid is Some
                && !process_alive)),
            write == is_written(old(record).deep_view(), status.deep_view(), process_alive),
    {
        if let Some(found) = status {
            record.state = found.state;
            record.exit_code = found.exit_code;
            record.pid = found.pid;
            record.started_at = found.started_at;
            record.finished_at = found.finished_at;
            return true;
        }
        if record.state.is_active() && record.pid.is_some() && !process_alive {
            record.state = ContainerState::Exited;
            record.finished_at = Some(now);
            return true;
        }
        false
    }

    /// Brings a record up to date, and tells whether it has to be written.
    pub fn refresh_state(
        &self,
        record: &mut ContainerRecord,
        status: Option<&ExecStatusFile>,
        process_alive: bool,
    ) -> (write: bool)
        ensures
            exists|now: i64|
                final(record).deep_view() == #[trigger] refreshed(
                    old(record).deep_view(),
                    status.deep_view(),
                    process_alive,
                    now,
                ),
            write == (status is Some || (old(record).state.active() && old(record).pid is Some
                && !process_alive)),
            write == is_written(old(record).deep_view(), status.deep_view(), process_alive),
    {
        let now = now_timestamp();
        self.refresh_state_at(record, status, process_alive, now)
    }

    /// Gets an up-to-date record ready to start, unless the container is active.
    pub fn start(&self, id: &str, record: &mut ContainerRecord) -> (result: Result<(), String>)
        ensures
            old(record).state.active() ==> *final(record) == *old(record) && (
            result matches Err(message) && message@ == busy(
                id@,
                "' is already "@,
                old(record).state,
            )),
            !old(record).state.active() ==> result is Ok && final(record).deep_view() == starting(
                old(record).deep_view(),
            ),
    {
        if record.state.is_active() {
            return Err(
                glue(&glue3("Container '", id, "' is already "), &record.state.to_text()),
            );
        }
        record.state = ContainerState::Starting;
        record.exit_code = None;
        record.finished_at = None;
        Ok(())
    }

    /// The arguments of the process that a container is started with.
    pub fn start_arguments(&self, id: &str) -> (arguments: Vec<String>)
        ensures
            parent_of(self.directory()) matches Some(data_root) && arguments.deep_view() == seq![
                "internal-exec"@,
                "--data-root"@,
                data_root,
                "--store-dir"@,
                self.images(),
                "--container-id"@,
                id@,
            ],
            arguments.deep_view() == start_words(
                parent_of(self.directory())->0,
                self.images(),
                id@,
            ),
    {
        let data_root = self.data_root();
        let mut arguments: Vec<String> = Vec::new();
        arguments.push("internal-exec".to_string());
        arguments.push("--data-root".to_string());
        arguments.push(data_root);
        arguments.push("--store-dir".to_string());
        arguments.push(self.store_dir.clone());
        arguments.push("--container-id".to_string());
        arguments.push(id.to_string());
        assert(arguments.deep_view() =~= seq![
            "internal-exec"@,
            "--data-root"@,
            data_root@,
            "--store-dir"@,
            self.images(),
            "--container-id"@,
            id@,
        ]);
        arguments
    }

    /// Notes the process that was started at a given time.
    pub fn note_launch_at(&self, record: &mut ContainerRecord, pid: u32, now: i64)
        ensures
            final(record).deep_view() == launched(old(record).deep_view(), pid, now),
    {
        record.pid = Some(pid);
        record.started_at = Some(now);
    }

    /// Notes the process that was started.
    pub fn note_launch(&self, record: &mut ContainerRecord, pid: u32)
        ensures
            exists|now: i64|
                final(record).deep_view() == #[trigger] launched(
                    old(record).deep_view(),
                    pid,
                    now,
                ),
    {
        let now = now_timestamp();
        self.note_launch_at(record, pid, now);
    }

    /// Where a signal for an up-to-date record goes.
    pub fn stop(&self, id: &str, record: &ContainerRecord) -> (result: Result<StopPlan, String>)
        requires
            record.pid != Some(0x8000_0000u32),
        ensures
            match record.pid {
                Some(pid) => result matches Ok(plan) && plan.process == signed_pid(pid)
                    && plan.group == -signed_pid(pid),
                None => result matches Err(message) && message@ == "Container '"@ + id@
                    + "' does not have a running pid"@,
            },
            record.pid is Some <==> result is Ok,
            result matches Ok(plan) ==> signalled(plan, record.pid->0),
    {
        match record.pid {
            None => Err(glue3("Container '", id, "' does not have a running pid")),
            Some(pid) => {
                let wide: i64 = if pid < 0x8000_0000 {
                    pid as i64
                } else {
                    pid as i64 - 0x1_0000_0000
                };
                let process: i32 = wide as i32;
                Ok(StopPlan { group: -process, process })
            },
        }
    }

    /// The directory of an up-to-date container that may be removed.
    pub fn remove(&self, id: &str, record: &ContainerRecord) -> (result: Result<String, String>)
        ensures
            outcome(result) == removal(self.directory(), id@, record.state),
    {
        if record.state.is_active() {
            return Err(
                glue(&glue3("Container '", id, "' is still "), &record.state.to_text()),
            );
        }
        Ok(self.container_dir(id))
    }

    /// Notes that the container's process runs, at a given time, and gives what it
    /// leaves behind.
    pub fn begin_run_at(&self, record: &mut ContainerRecord, pid: u32, now: i64) -> (status:
        ExecStatusFile)
        ensures
            final(record).deep_view() == running(old(record).deep_view(), pid, now),
            status.deep_view() == running_status(final(record).deep_view(), pid),
    {
        record.state = ContainerState::Running;
        record.started_at = Some(now);
        record.pid = Some(pid);
        ExecStatusFile::running_from(record, pid)
    }

    /// Notes that the container's process runs, and gives what it leaves behind.
    pub fn begin_run(&self, record: &mut ContainerRecord, pid: u32) -> (status: ExecStatusFile)
        ensures
            exists|now: i64|
                final(record).deep_view() == #[trigger] running(old(record).deep_view(), pid, now),
            status.deep_view() == running_status(final(record).deep_view(), pid),
    {
        let now = now_timestamp();
        self.begin_run_at(record, pid, now)
    }

    /// What is run for a container.
    pub fn run_request(&self, record: &ContainerRecord) -> (request: RunRequest)
        ensures
            request.image_reference@ == record.image_reference@,
            request.command.deep_view() == record.command.deep_view(),
            request.environment.deep_view() == record.environment.deep_view(),
            request.working_directory.deep_view() == record.working_directory.deep_view(),
            request.store_dir@ == self.images(),
            request.namespace_config == record.namespace_config,
            request.resource_limits == record.resource_limits,
            request.clear_image_env == record.clear_image_env,
            request.mounts.deep_view() == record.mounts.deep_view(),
            request.container_id.deep_view() == Some(record.id@),
            request.status_file.deep_view() == Some(
                path_joined(path_joined(self.directory(), record.id@), "status.json"@),
            ),
            request.started_at == record.started_at,
            runs(request, *record, self.directory(), self.images()),
    {
        RunRequest {
            image_reference: record.image_reference.clone(),
            command: copy_texts(&record.command),
            environment: record.environment.clone(),
            working_directory: copy_option(&record.working_directory),
            store_dir: self.store_dir.clone(),
            namespace_config: record.namespace_config,
            resource_limits: record.resource_limits,
            clear_image_env: record.clear_image_env,
            mounts: copy_mounts(&record.mounts),
            container_id: Some(record.id.clone()),
            status_file: Some(self.status_path(&record.id)),
            started_at: record.started_at,
        }
    }

    /// What a listing shows of up-to-date containers, the oldest first.
    pub fn list(&self, records: &Vec<ContainerRecord>) -> (items: Vec<ContainerSummary>)
        ensures
            exists|unsorted: Seq<ContainerSummary>| #[trigger]
                is_stable_sort(unsorted, items@) && unsorted.map_values(
                    |item: ContainerSummary| item.deep_view(),
                ) == records.deep_view().map_values(|record: ContainerModel| summary_of(record)),
    {
        let ghost all = records.deep_view().map_values(
            |record: ContainerModel| summary_of(record),
        );
        let mut items: Vec<ContainerSummary> = Vec::new();
        let mut at: usize = 0;
        while at < records.len()
            invariant
                at <= records@.len(),
                all == records.deep_view().map_values(
                    |record: ContainerModel| summary_of(record),
                ),
                items.deep_view() == all.take(at as int),
            decreases records@.len() - at,
        {
            let ghost before = items.deep_view();
            let record = &records[at];
            let item = ContainerSummary {
                id: record.id.clone(),
                image_reference: record.image_reference.clone(),
                state: record.state,
                pid: record.pid,
                exit_code: record.exit_code,
                created_at: record.created_at,
                started_at: record.started_at,
                finished_at: record.finished_at,
            };
            items.push(item);
            proof {
                assert(records.deep_view()[at as int] == record.deep_view());
                assert(items.deep_view() =~= before.push(item.deep_view()));
                assert(all.take(at + 1) =~= all.take(at as int).push(all[at as int]));
            }
            at = at + 1;
        }
        assert(all.take(at as int) =~= all);
        let ghost unsorted = items@;
        let sorted = stable_sort(items);
        proof {
            assert(unsorted.map_values(|item: ContainerSummary| item.deep_view())
                =~= items.deep_view());
            assert(is_stable_sort(unsorted, sorted@));
        }
        sorted
    }
}

// ---------------------------------------------------------------------------
// Laws
// ---------------------------------------------------------------------------
/// No transition changes a container's name, what it was created with, or when.
pub proof fn transitions_keep_the_settings(
    record: ContainerModel,
    status: Option<StatusModel>,
    process_alive: bool,
    pid: u32,
    now: i64,
)
    ensures
        ({
            let kept = |next: ContainerModel|
                next.id == record.id && next.settings == record.settings && next.created_at
                    == record.created_at;
            &&& kept(refreshed(record, status, process_alive, now))
            &&& kept(starting(record))
            &&& kept(launched(record, pid, now))
            &&& kept(running(record, pid, now))
        }),
{
}

/// Bringing a record up to date twice is bringing it up to date once.
pub proof fn refreshing_is_idempotent(
    record: ContainerModel,
    status: Option<StatusModel>,
    process_alive: bool,
    now: i64,
    later: i64,
)
    ensures
        refreshed(refreshed(record, status, process_alive, now), status, process_alive, later)
            == refreshed(record, status, process_alive, now),
{
}

/// A container that is started is active until its process has ended: while it is
/// active it can be neither started again nor removed.
pub proof fn started_containers_are_active(record: ContainerModel, pid: u32, now: i64)
    ensures
        launched(starting(record), pid, now).state.active(),
        running(record, pid, now).state.active(),
        !created(record.id, record.settings, now).state.active(),
{
}

/// A container whose process is gone can be started again and removed: without a
/// status of its own it has exited at that time, and with one that says so it has
/// exited with the code there.
pub proof fn dead_containers_are_not_active(
    record: ContainerModel,
    pid: u32,
    exit_code: i32,
    ended: i64,
    now: i64,
)
    requires
        record.pid is Some,
    ensures
        !refreshed(record, None, false, now).state.active(),
        record.state.active() ==> refreshed(record, None, false, now).finished_at == Some(now),
        ({
            let status = exited_status(record, pid, exit_code, ended);
            let next = refreshed(record, Some(status), false, now);
            !next.state.active() && next.exit_code == Some(exit_code) && next.finished_at == Some(
                ended,
            )
        }),
{
}

/// A container's process that is alive stays: bringing the record up to date changes
/// nothing.
pub proof fn live_containers_stay(record: ContainerModel, now: i64)
    ensures
        refreshed(record, None, true, now) == record,
{
}

/// A stop ends only when the container can be removed, which it then can at once; and
/// it ends at the next look after the process has ended, whether the process left
/// something behind or was settled.
pub proof fn stopped_containers_can_be_removed(
    directory: Seq<char>,
    record: ContainerModel,
    process_alive: bool,
    now: i64,
    later: i64,
)
    ensures
        stop_next(record) is Done <==> removal(directory, record.id, record.state) == Ok::<
            Seq<char>,
            Seq<char>,
        >(path_joined(directory, record.id)),
        stop_next(record) is Wait <==> removal(directory, record.id, record.state) is Err,
        settled(record, process_alive, now) matches Some(status) ==> stop_next(
            refreshed(record, Some(status), process_alive, later),
        ) is Done,
        record.pid is Some && !process_alive ==> stop_next(
            refreshed(record, settled(record, process_alive, now), process_alive, later),
        ) is Done,
{
}

/// The records on disk, by the files that they are in.
pub type RecordFiles = Map<Seq<char>, ContainerModel>;

/// The path lies in a directory or below.
pub open spec fn lies_below(path: Seq<char>, directory: Seq<char>) -> bool {
    begins(path, directory + "/"@)
}

/// The records after one was written.
pub open spec fn with_record(
    files: RecordFiles,
    directory: Seq<char>,
    record: ContainerModel,
) -> RecordFiles {
    files.insert(record_file(directory, record.id), record)
}

/// The records after a directory went with all that was below it.
pub open spec fn without_directory(files: RecordFiles, gone: Seq<char>) -> RecordFiles {
    files.remove_keys(files.dom().filter(|path: Seq<char>| lies_below(path, gone)))
}

/// What was read of a record is what the disk holds.
pub open spec fn shows_record(files: RecordFiles, path: Seq<char>, read: RecordRead) -> bool {
    match read {
        RecordRead::Record(record) => files.contains_key(path) && files[path]
            == record.deep_view(),
        _ => !files.contains_key(path),
    }
}

/// The name of a container is one name.
pub open spec fn is_container_id(id: Seq<char>) -> bool {
    is_name(id) && !id.contains('/')
}

/// Where the record of a container is, in one piece.
proof fn lemma_record_file(directory: Seq<char>, id: Seq<char>)
    requires
        is_prefix(directory),
        directory.len() > 0,
        is_container_id(id),
    ensures
        path_joined(directory, id) == directory + "/"@ + id,
        record_file(directory, id) == directory + "/"@ + id + "/"@ + "container.json"@,
{
    reveal_strlit("/");
    reveal_strlit("container.json");
    assert(id.contains(id[0]) && id.contains(id.last()));
    let place = path_joined(directory, id);
    assert(place == directory + "/"@ + id);
    assert(place.last() == id.last());
}

/// The records of different containers do not get into each other's way: neither lies
/// below the directory of the other.
pub proof fn records_are_apart(directory: Seq<char>, one: Seq<char>, other: Seq<char>)
    requires
        is_prefix(directory),
        directory.len() > 0,
        is_container_id(one),
        is_container_id(other),
    ensures
        record_file(directory, one) == record_file(directory, other) <==> one == other,
        lies_below(record_file(directory, one), path_joined(directory, other)) <==> one == other,
{
    reveal_strlit("/");
    reveal_strlit("container.json");
    lemma_record_file(directory, one);
    lemma_record_file(directory, other);
    let path = record_file(directory, one);
    let gone = path_joined(directory, other) + "/"@;
    let start = directory.len() as int + 1;
    if one == other {
        assert(path.take(gone.len() as int) =~= gone);
    }
    if begins(path, gone) {
        assert forall|i: int| 0 <= i < gone.len() implies path[i] == gone[i] by {
            assert(path.take(gone.len() as int)[i] == path[i]);
        }
        assert(path[start + one.len()] == '/');
        assert(gone[start + other.len()] == '/');
        if one.len() < other.len() {
            assert(other[one.len() as int] == gone[start + one.len()]);
            assert(other.contains(other[one.len() as int]));
        } else if other.len() < one.len() {
            assert(one[other.len() as int] == path[start + other.len()]);
            assert(one.contains(one[other.len() as int]));
        }
        assert(one =~= other) by {
            assert forall|i: int| 0 <= i < one.len() implies one[i] == other[i] by {
                assert(path[start + i] == one[i]);
                assert(gone[start + i] == other[i]);
            }
        }
    }
    if path == record_file(directory, other) {
        assert(begins(path, gone)) by {
            assert(path.take(gone.len() as int) =~= gone);
        }
    }
}

/// The name that a new container gets is one name.
pub proof fn fresh_ids_are_names(random: Seq<char>)
    requires
        is_random_id(random),
    ensures
        is_container_id("ctr-"@ + random),
{
    reveal_strlit("ctr-");
    reveal_strlit(".");
    reveal_strlit("..");
    let id = "ctr-"@ + random;
    assert(id[0] == 'c');
    if id.contains('/') {
        let i = id.index_of('/');
        assert(i >= 4);
        assert(random[i - 4] == '/');
    }
}

/// A container that was created loads as it was created, in every field, and the
/// others load as before.
pub proof fn created_containers_load_back(
    files: RecordFiles,
    directory: Seq<char>,
    record: ContainerModel,
    read: RecordRead,
    other: Seq<char>,
)
    requires
        is_prefix(directory),
        directory.len() > 0,
        is_container_id(record.id),
        is_container_id(other),
        shows_record(
            with_record(files, directory, record),
            record_file(directory, record.id),
            read,
        ),
    ensures
        loaded(record_file(directory, record.id), read) == Ok::<ContainerModel, Seq<char>>(record),
        other != record.id ==> ({
            let path = record_file(directory, other);
            let after = with_record(files, directory, record);
            after.contains_key(path) == files.contains_key(path) && (files.contains_key(path)
                ==> after[path] == files[path])
        }),
{
    records_are_apart(directory, record.id, other);
}

/// The records of a listing: one for each container on disk, each under its own name.
pub open spec fn is_listing(
    files: RecordFiles,
    directory: Seq<char>,
    ids: Seq<Seq<char>>,
    records: Seq<ContainerModel>,
) -> bool {
    &&& ids.len() == records.len()
    &&& forall|i: int|
        0 <= i < ids.len() ==> is_container_id(#[trigger] ids[i]) && files.contains_key(
            record_file(directory, ids[i]),
        ) && records[i] == files[record_file(directory, ids[i])]
    &&& forall|id: Seq<char>|
        is_container_id(id) && files.contains_key(#[trigger] record_file(directory, id))
            ==> ids.contains(id)
}

/// Every record is kept under its own name.
pub open spec fn names_agree(files: RecordFiles, directory: Seq<char>) -> bool {
    forall|id: Seq<char>|
        is_container_id(id) && files.contains_key(#[trigger] record_file(directory, id))
            ==> files[record_file(directory, id)].id == id
}

/// A container that was removed is gone: it loads no more and no listing has it. The
/// others load as before. One that is active stays.
pub proof fn removed_containers_are_gone(
    files: RecordFiles,
    directory: Seq<char>,
    record: ContainerModel,
    read: RecordRead,
    ids: Seq<Seq<char>>,
    records: Seq<ContainerModel>,
    other: Seq<char>,
)
    requires
        is_prefix(directory),
        directory.len() > 0,
        names_agree(files, directory),
        is_container_id(record.id),
        is_container_id(other),
        removal(directory, record.id, record.state) matches Ok(gone) ==> {
            let after = without_directory(files, gone);
            shows_record(after, record_file(directory, record.id), read) && is_listing(
                after,
                directory,
                ids,
                records,
            )
        },
    ensures
        removal(directory, record.id, record.state) is Ok <==> !record.state.active(),
        removal(directory, record.id, record.state) matches Ok(gone) ==> {
            let after = without_directory(files, gone);
            let path = record_file(directory, other);
            &&& loaded(record_file(directory, record.id), read) is Err
            &&& !ids.contains(record.id)
            &&& forall|i: int|
                0 <= i < records.len() ==> summary_of(#[trigger] records[i]).id != record.id
            &&& other != record.id ==> after.contains_key(path) == files.contains_key(path) && (
            files.contains_key(path) ==> after[path] == files[path])
        },
{
    if let Ok(gone) = removal(directory, record.id, record.state) {
        let after = without_directory(files, gone);
        records_are_apart(directory, record.id, record.id);
        records_are_apart(directory, other, record.id);
        assert(!after.contains_key(record_file(directory, record.id)));
        if ids.contains(record.id) {
            let i = ids.index_of(record.id);
            assert(after.contains_key(record_file(directory, ids[i])));
        }
        assert forall|i: int| 0 <= i < records.len() implies summary_of(#[trigger] records[i]).id
            != record.id by {
            assert(is_container_id(ids[i]));
            assert(files.contains_key(record_file(directory, ids[i])));
            assert(ids.contains(ids[i]));
        }
    }
}

// ---------------------------------------------------------------------------
// Laws of records
// ---------------------------------------------------------------------------
/// The record of a new container has every setting of the request unchanged, the name and
/// the time that it was given, and nothing that comes with a process.
pub proof fn new_containers_are_as_asked(
    record: ContainerRecord,
    id: Seq<char>,
    request: CreateContainerRequest,
    now: i64,
)
    requires
        record.deep_view() == created(id, request.deep_view(), now),
    ensures
        record.id@ == id,
        record.image_reference@ == request.image_reference@,
        record.command.deep_view() == request.command.deep_view(),
        record.environment.deep_view() == request.environment.deep_view(),
        record.working_directory.deep_view() == request.working_directory.deep_view(),
        record.namespace_config == request.namespace_config,
        record.resource_limits == request.resource_limits,
        record.clear_image_env == request.clear_image_env,
        record.mounts.deep_view() == request.mounts.deep_view(),
        record.state is Created,
        record.pid is None,
        record.exit_code is None,
        record.created_at == now,
        record.started_at is None,
        record.finished_at is None,
{
}

/// A container runs as it was asked for when it was created, whatever happened to it since:
/// the run that is made from its record has every setting of the request, and the
/// container's own name, directory and time.
pub proof fn containers_run_as_asked(
    before: ContainerModel,
    record: ContainerRecord,
    run: RunRequest,
    directory: Seq<char>,
    images: Seq<char>,
    id: Seq<char>,
    request: CreateContainerRequest,
    status: Option<StatusModel>,
    process_alive: bool,
    pid: u32,
    now: i64,
    later: i64,
)
    requires
        before == created(id, request.deep_view(), now),
        record.deep_view() == before || record.deep_view() == starting(before)
            || record.deep_view() == launched(starting(before), pid, later) || record.deep_view()
            == running(launched(starting(before), pid, later), pid, later) || record.deep_view()
            == refreshed(before, status, process_alive, later),
        runs(run, record, directory, images),
    ensures
        run.image_reference@ == request.image_reference@,
        run.command.deep_view() == request.command.deep_view(),
        run.environment.deep_view() == request.environment.deep_view(),
        run.working_directory.deep_view() == request.working_directory.deep_view(),
        run.namespace_config == request.namespace_config,
        run.resource_limits == request.resource_limits,
        run.clear_image_env == request.clear_image_env,
        run.mounts.deep_view() == request.mounts.deep_view(),
        run.container_id.deep_view() == Some(id),
        run.store_dir@ == images,
        run.status_file.deep_view() == Some(
            path_joined(path_joined(directory, id), "status.json"@),
        ),
        run.started_at == record.started_at,
{
}

/// A container that starts forgets how it ended and keeps all else; the process that is
/// launched for it, and then runs, is noted with its time and changes nothing else but the
/// state.
pub proof fn starts_are_noted(record: ContainerModel, pid: u32, now: i64)
    ensures
        ({
            let next = starting(record);
            &&& next.state is Starting
            &&& next.exit_code is None
            &&& next.finished_at is None
            &&& next.pid == record.pid
            &&& next.started_at == record.started_at
        }),
        ({
            let next = launched(record, pid, now);
            &&& next.state == record.state
            &&& next.pid == Some(pid)
            &&& next.started_at == Some(now)
            &&& next.exit_code == record.exit_code
            &&& next.finished_at == record.finished_at
        }),
        ({
            let next = running(record, pid, now);
            &&& next.state is Running
            &&& next.pid == Some(pid)
            &&& next.started_at == Some(now)
            &&& next.exit_code == record.exit_code
            &&& next.finished_at == record.finished_at
        }),
{
}

/// What a process leaves behind reaches the record as it is: while it runs, the container
/// runs with this process since it was started; when it has ended, the container has
/// exited with its exit code and at its time; and where nobody saw it end, without a code.
pub proof fn statuses_reach_the_record(
    record: ContainerModel,
    pid: u32,
    exit_code: i32,
    ended: i64,
    process_alive: bool,
    now: i64,
)
    ensures
        ({
            let next = refreshed(record, Some(running_status(record, pid)), process_alive, now);
            &&& next.state is Running
            &&& next.pid == Some(pid)
            &&& next.exit_code is None
            &&& next.started_at == record.started_at
            &&& next.finished_at is None
        }),
        ({
            let status = exited_status(record, pid, exit_code, ended);
            let next = refreshed(record, Some(status), process_alive, now);
            &&& next.state is Exited
            &&& next.pid == Some(pid)
            &&& next.exit_code == Some(exit_code)
            &&& next.started_at == record.started_at
            &&& next.finished_at == Some(ended)
        }),
        settled(record, process_alive, ended) is Some <==> (record.state is Starting
            || record.state is Running) && record.pid is Some && !process_alive,
        settled(record, process_alive, ended) matches Some(status) ==> {
            let next = refreshed(record, Some(status), process_alive, now);
            &&& next.state is Exited
            &&& next.pid == record.pid
            &&& next.exit_code is None
            &&& next.started_at == record.started_at
            &&& next.finished_at == Some(ended)
        },
        running_status(record, pid).id == record.id,
        exited_status(record, pid, exit_code, ended).id == record.id,
{
}

/// A status counts in every field, whatever the record said.
pub proof fn statuses_count(
    record: ContainerModel,
    status: StatusModel,
    process_alive: bool,
    now: i64,
)
    ensures
        ({
            let next = refreshed(record, Some(status), process_alive, now);
            &&& next.state == status.state
            &&& next.pid == status.pid
            &&& next.exit_code == status.exit_code
            &&& next.started_at == status.started_at
            &&& next.finished_at == status.finished_at
        }),
        ({
            let next = refreshed(record, None, process_alive, now);
            &&& next.pid == record.pid
            &&& next.exit_code == record.exit_code
            &&& next.started_at == record.started_at
            &&& record.state is Created || record.state is Exited || record.pid is None
                || process_alive ==> next.state == record.state && next.finished_at
                == record.finished_at
        }),
{
}

/// A listing shows of a container what its record says.
pub proof fn summaries_show_the_record(summary: ContainerSummary, record: ContainerRecord)
    requires
        summary.deep_view() == summary_of(record.deep_view()),
    ensures
        summary.id@ == record.id@,
        summary.image_reference@ == record.image_reference@,
        summary.state == record.state,
        summary.pid == record.pid,
        summary.exit_code == record.exit_code,
        summary.created_at == record.created_at,
        summary.started_at == record.started_at,
        summary.finished_at == record.finished_at,
{
}

/// The summary is that of one of the records.
pub open spec fn is_of_one(summary: ContainerSummary, records: Seq<ContainerModel>) -> bool {
    exists|j: int| 0 <= j < records.len() && summary.deep_view() == summary_of(#[trigger] records[j])
}

/// One of the summaries is that of the record.
pub open spec fn is_shown(record: ContainerModel, items: Seq<ContainerSummary>) -> bool {
    exists|i: int| 0 <= i < items.len() && (#[trigger] items[i]).deep_view() == summary_of(record)
}

/// A listing shows the containers, all of them and nothing else, the oldest first.
pub proof fn listings_are_by_age(
    unsorted: Seq<ContainerSummary>,
    items: Seq<ContainerSummary>,
    records: Seq<ContainerModel>,
)
    requires
        is_stable_sort(unsorted, items),
        unsorted.map_values(|item: ContainerSummary| item.deep_view()) == records.map_values(
            |record: ContainerModel| summary_of(record),
        ),
    ensures
        forall|i: int, j: int|
            0 <= i < j < items.len() ==> (#[trigger] items[i]).created_at <= (
            #[trigger] items[j]).created_at,
        forall|i: int| 0 <= i < items.len() ==> is_of_one(#[trigger] items[i], records),
        forall|j: int| 0 <= j < records.len() ==> is_shown(#[trigger] records[j], items),
{
    let views = unsorted.map_values(|item: ContainerSummary| item.deep_view());
    let told = records.map_values(|record: ContainerModel| summary_of(record));
    assert(views.len() == unsorted.len());
    assert(told.len() == records.len());
    assert forall|i: int, j: int| 0 <= i < j < items.len() implies (#[trigger] items[i]).created_at
        <= (#[trigger] items[j]).created_at by {
        assert(items[i].key() <= items[j].key());
    }
    assert forall|i: int| 0 <= i < items.len() implies is_of_one(#[trigger] items[i], records) by {
        let of_age = has_key::<ContainerSummary>(items[i].key());
        assert(with_key(items, items[i].key()) == with_key(unsorted, items[i].key()));
        items.lemma_filter_contains(of_age, i);
        unsorted.lemma_filter_contains_rev(of_age, items[i]);
        let j = unsorted.index_of(items[i]);
        assert(views[j] == told[j]);
        assert(items[i].deep_view() == summary_of(records[j]));
    }
    assert forall|j: int| 0 <= j < records.len() implies is_shown(#[trigger] records[j], items) by {
        let item = unsorted[j];
        let of_age = has_key::<ContainerSummary>(item.key());
        assert(views[j] == told[j]);
        assert(with_key(items, item.key()) == with_key(unsorted, item.key()));
        unsorted.lemma_filter_contains(of_age, j);
        items.lemma_filter_contains_rev(of_age, item);
        let i = items.index_of(item);
        assert(items[i].deep_view() == summary_of(records[j]));
    }
}

/// A process number below half of all numbers is the one that the system takes; no number
/// is taken for another.
pub proof fn process_numbers_are_kept(one: u32, other: u32)
    ensures
        one <= i32::MAX ==> signed_pid(one) == one,
        signed_pid(one) == signed_pid(other) <==> one == other,
        i32::MIN <= signed_pid(one) <= i32::MAX,
{
}

/// A record is loaded as it was read, and only a record is.
pub proof fn records_load_as_read(path: Seq<char>, read: RecordRead)
    ensures
        loaded(path, read) is Ok <==> read is Record,
        read matches RecordRead::Record(record) ==> loaded(path, read) == Ok::<
            ContainerModel,
            Seq<char>,
        >(record.deep_view()),
        read matches RecordRead::Unreadable(problem) ==> (loaded(path, read) matches Err(message)
            && begins(message, "Failed to read container record '"@ + path + "'"@)),
        read matches RecordRead::Undecodable(problem) ==> (loaded(path, read) matches Err(message)
            && begins(message, "Failed to decode container record '"@ + path + "'"@)),
{
    reveal_strlit("'");
    reveal_strlit("': ");
    match read {
        RecordRead::Unreadable(problem) => {
            let front = "Failed to read container record '"@ + path + "'"@;
            assert((loaded(path, read)->Err_0).take(front.len() as int) =~= front);
        },
        RecordRead::Undecodable(problem) => {
            let front = "Failed to decode container record '"@ + path + "'"@;
            assert((loaded(path, read)->Err_0).take(front.len() as int) =~= front);
        },
        RecordRead::Record(_) => {},
    }
}

/// What is kept of a container is in its own directory: its record, its status and its two
/// logs are different files there.
pub proof fn files_of_a_container_are_apart(directory: Seq<char>, id: Seq<char>)
    ensures
        ({
            let own = path_joined(directory, id);
            &&& record_file(directory, id) == path_joined(own, "container.json"@)
            &&& status_file(directory, id) == path_joined(own, "status.json"@)
            &&& log_file(directory, id, false) == path_joined(own, "stdout.log"@)
            &&& log_file(directory, id, true) == path_joined(own, "stderr.log"@)
        }),
        record_file(directory, id) != status_file(directory, id),
        record_file(directory, id) != log_file(directory, id, false),
        record_file(directory, id) != log_file(directory, id, true),
        status_file(directory, id) != log_file(directory, id, false),
        status_file(directory, id) != log_file(directory, id, true),
        log_file(directory, id, false) != log_file(directory, id, true),
{
    reveal_strlit("container.json");
    reveal_strlit("status.json");
    reveal_strlit("stdout.log");
    reveal_strlit("stderr.log");
    assert("container.json"@.len() == 14 && "status.json"@.len() == 11 && "stdout.log"@.len() == 10
        && "stderr.log"@.len() == 10);
    assert(!absolute("container.json"@) && !absolute("status.json"@) && !absolute("stdout.log"@)
        && !absolute("stderr.log"@));
    assert(record_file(directory, id).len() == status_file(directory, id).len() + 3);
    let out = log_file(directory, id, false);
    let err = log_file(directory, id, true);
    assert(out[out.len() - 7] == "stdout.log"@[3]);
    assert(err[err.len() - 7] == "stderr.log"@[3]);
}

/// A container is started by its own name, with the data directory above the containers and
/// the images of the store.
pub proof fn containers_are_started_by_name(
    data_root: Seq<char>,
    images: Seq<char>,
    id: Seq<char>,
)
    ensures
        start_words(data_root, images, id).len() == 7,
        start_words(data_root, images, id)[0] == "internal-exec"@,
        start_words(data_root, images, id)[1] == "--data-root"@,
        start_words(data_root, images, id)[2] == data_root,
        start_words(data_root, images, id)[3] == "--store-dir"@,
        start_words(data_root, images, id)[4] == images,
        start_words(data_root, images, id)[5] == "--container-id"@,
        start_words(data_root, images, id)[6] == id,
{
}

/// A signal goes to the container's own process and to the group of that process.
pub proof fn signals_go_to_the_process(plan: StopPlan, pid: u32)
    requires
        signalled(plan, pid),
    ensures
        plan.group == -plan.process,
        pid <= i32::MAX ==> plan.process == pid,
{
}

/// What removing a container takes away is its own directory, and an active container is
/// refused with its name and state.
pub proof fn removals_take_the_own_directory(
    directory: Seq<char>,
    id: Seq<char>,
    state: ContainerState,
)
    ensures
        state is Created || state is Exited ==> removal(directory, id, state) == Ok::<
            Seq<char>,
            Seq<char>,
        >(path_joined(directory, id)),
        state is Starting ==> (removal(directory, id, state) matches Err(message) && message
            == "Container '"@ + id + "' is still "@ + "Starting"@),
        state is Running ==> (removal(directory, id, state) matches Err(message) && message
            == "Container '"@ + id + "' is still "@ + "Running"@),
{
}

/// A record that was brought up to date is written where there was a status, and where it
/// changed; one that is not written stays as it is, so that nothing is lost.
pub proof fn changed_records_are_written(
    record: ContainerModel,
    status: Option<StatusModel>,
    process_alive: bool,
    now: i64,
)
    ensures
        status is Some ==> is_written(record, status, process_alive),
        refreshed(record, status, process_alive, now) != record ==> is_written(
            record,
            status,
            process_alive,
        ),
        status is None && is_written(record, status, process_alive) ==> refreshed(
            record,
            status,
            process_alive,
            now,
        ).state != record.state,
{
}

/// Containers for which different names were drawn have different names, and each has the one
/// that was drawn for it.
pub proof fn drawn_names_are_kept_apart(one: Seq<char>, other: Seq<char>)
    ensures
        begins(drawn_name(one), "ctr-"@),
        drawn_name(one).skip("ctr-"@.len() as int) == one,
        drawn_name(one) == drawn_name(other) <==> one == other,
{
    let front = "ctr-"@;
    assert((front + one).take(front.len() as int) =~= front);
    assert((front + one).skip(front.len() as int) =~= one);
    assert((front + other).skip(front.len() as int) =~= other);
}

/// The containers are kept in a directory of their own directly below the data directory, so
/// that the one leads to the other.
pub proof fn containers_are_kept_below_the_data(data_root: Seq<char>)
    requires
        is_prefix(data_root),
    ensures
        parent_of(containers_directory(data_root)) == Some(data_root),
        file_name_of(containers_directory(data_root)) == Some("containers"@),
{
    reveal_strlit("containers");
    reveal_strlit(".");
    reveal_strlit("..");
    let name = "containers"@;
    assert(name.len() == 10 && "."@.len() == 1 && ".."@.len() == 2);
    assert(!name.contains('/')) by {
        if name.contains('/') {
            let i = name.index_of('/');
            assert(name[i] == '/');
        }
    }
    joined_paths_come_apart(data_root, name);
}

/// The status file of a container leads back to the container: the run that is asked to leave
/// its status there belongs to it.
pub proof fn status_files_lead_back(directory: Seq<char>, id: Seq<char>)
    requires
        is_prefix(directory),
        is_container_id(id),
    ensures
        status_owner(status_file(directory, id)) == Ok::<Seq<char>, Seq<char>>(id),
{
    reveal_strlit("status.json");
    reveal_strlit(".");
    reveal_strlit("..");
    let name = "status.json"@;
    assert(name.len() == 11 && "."@.len() == 1 && ".."@.len() == 2);
    assert(!name.contains('/')) by {
        if name.contains('/') {
            let i = name.index_of('/');
            assert(name[i] == '/');
        }
    }
    joined_paths_come_apart(directory, id);
    joined_paths_come_apart(path_joined(directory, id), name);
}

} // verus!
