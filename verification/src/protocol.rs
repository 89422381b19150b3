//! What the command line and the guest daemon tell each other.
use crate::cli::{BuildCommand, Commands, CreateCommand, InspectCommand, ListCommand, LogsCommand};
use crate::cli::{PsCommand, PullCommand, PushCommand, RemoveCommand, RunCommand, StartCommand};
use crate::cli::StopCommand;
use vstd::prelude::*;

verus! {

// ---------------------------------------------------------------------------
// Settings of a container
// ---------------------------------------------------------------------------
/// Which namespaces of its own a container gets.
#[derive(Debug, Clone, Copy, PartialEq, Eq, Structural)]
pub struct NamespaceConfig {
    pub mount: bool,
    pub uts: bool,
    pub ipc: bool,
    pub network: bool,
}

impl Default for NamespaceConfig {
    fn default() -> (config: Self)
        ensures
            config == (NamespaceConfig { mount: true, uts: false, ipc: false, network: false }),
    {
        NamespaceConfig { mount: true, uts: false, ipc: false, network: false }
    }
}

/// What a container may use.
#[derive(Debug, Clone, Copy)]
pub struct ResourceLimits {
    pub memory_limit_bytes: Option<u64>,
    pub cpu_quota: Option<i64>,
    pub cpu_period: Option<u64>,
    pub pids_limit: Option<u64>,
}

impl Default for ResourceLimits {
    fn default() -> (limits: Self)
        ensures
            limits == (ResourceLimits {
                memory_limit_bytes: None,
                cpu_quota: None,
                cpu_period: None,
                pids_limit: None,
            }),
    {
        ResourceLimits {
            memory_limit_bytes: None,
            cpu_quota: None,
            cpu_period: None,
            pids_limit: None,
        }
    }
}

/// A directory or file of the host that a container sees.
#[derive(Debug)]
pub struct BindMountSpec {
    pub source: String,
    pub target: String,
    pub readonly: bool,
}

/// A [`BindMountSpec`] as a mathematical value.
#[verifier::ext_equal]
pub struct MountModel {
    pub source: Seq<char>,
    pub target: Seq<char>,
    pub readonly: bool,
}

impl DeepView for BindMountSpec {
    type V = MountModel;

    open spec fn deep_view(&self) -> MountModel {
        MountModel { source: self.source@, target: self.target@, readonly: self.readonly }
    }
}

impl Clone for BindMountSpec {
    fn clone(&self) -> (copy: Self)
        ensures
            copy.deep_view() == self.deep_view(),
    {
        BindMountSpec {
            source: self.source.clone(),
            target: self.target.clone(),
            readonly: self.readonly,
        }
    }
}

/// A copy of a list of mounts.
pub fn copy_mounts(mounts: &Vec<BindMountSpec>) -> (copy: Vec<BindMountSpec>)
    ensures
        copy.deep_view() == mounts.deep_view(),
{
    let ghost all = mounts.deep_view();
    let mut copy: Vec<BindMountSpec> = Vec::new();
    let mut at: usize = 0;
    while at < mounts.len()
        invariant
            at <= mounts@.len(),
            mounts.deep_view() == all,
            copy.deep_view() == all.take(at as int),
        decreases mounts@.len() - at,
    {
        let ghost before = copy.deep_view();
        let mount = mounts[at].clone();
        copy.push(mount);
        proof {
            assert(copy.deep_view() =~= before.push(all[at as int]));
            assert(all.take(at + 1) =~= all.take(at as int).push(all[at as int]));
        }
        at = at + 1;
    }
    assert(all.take(at as int) =~= all);
    copy
}

/// The graphics devices that a container asks for: how many, or which.
#[derive(Debug)]
pub struct GpuRequest {
    pub count: u32,
    pub device_ids: Vec<String>,
}

/// The state of a container.
#[derive(Debug, Clone, Copy, PartialEq, Eq, Structural)]
pub enum ContainerState {
    Created,
    Starting,
    Running,
    Exited,
}

impl ContainerState {
    /// The name of the state.
    pub open spec fn name(self) -> Seq<char> {
        match self {
            ContainerState::Created => "Created"@,
            ContainerState::Starting => "Starting"@,
            ContainerState::Running => "Running"@,
            ContainerState::Exited => "Exited"@,
        }
    }

    /// The name of the state.
    pub fn to_text(self) -> (text: String)
        ensures
            text@ == self.name(),
    {
        match self {
            ContainerState::Created => "Created".to_string(),
            ContainerState::Starting => "Starting".to_string(),
            ContainerState::Running => "Running".to_string(),
            ContainerState::Exited => "Exited".to_string(),
        }
    }

    /// A process belongs to the container, or is about to.
    pub open spec fn active(self) -> bool {
        self is Starting || self is Running
    }

    /// Whether a process belongs to the container, or is about to.
    pub fn is_active(self) -> (found: bool)
        ensures
            found == self.active(),
    {
        match self {
            ContainerState::Starting => true,
            ContainerState::Running => true,
            _ => false,
        }
    }
}

// ---------------------------------------------------------------------------
// Requests
// ---------------------------------------------------------------------------
/// What the daemon is asked for.
#[derive(Debug)]
pub enum CommandRequest {
    Ping,
    Build(BuildCommand),
    Pull(PullCommand),
    Push(PushCommand),
    Run(RunCommand),
    Create(CreateCommand),
    Start(StartCommand),
    Stop(StopCommand),
    Rm(RemoveCommand),
    Ps(PsCommand),
    Logs(LogsCommand),
    Inspect(InspectCommand),
    List(ListCommand),
}

/// The request that a command stands for: none for those that only make sense where
/// they are given.
pub open spec fn request_of(command: Commands) -> Option<CommandRequest> {
    match command {
        Commands::Build(cmd) => Some(CommandRequest::Build(cmd)),
        Commands::Pull(cmd) => Some(CommandRequest::Pull(cmd)),
        Commands::Push(cmd) => Some(CommandRequest::Push(cmd)),
        Commands::Run(cmd) => Some(CommandRequest::Run(cmd)),
        Commands::Create(cmd) => Some(CommandRequest::Create(cmd)),
        Commands::Start(cmd) => Some(CommandRequest::Start(cmd)),
        Commands::Stop(cmd) => Some(CommandRequest::Stop(cmd)),
        Commands::Rm(cmd) => Some(CommandRequest::Rm(cmd)),
        Commands::Ps(cmd) => Some(CommandRequest::Ps(cmd)),
        Commands::Logs(cmd) => Some(CommandRequest::Logs(cmd)),
        Commands::Inspect(cmd) => Some(CommandRequest::Inspect(cmd)),
        Commands::List(cmd) => Some(CommandRequest::List(cmd)),
        Commands::Guestd(_) => None,
        Commands::InternalExec(_) => None,
    }
}

impl CommandRequest {
    /// The request that a command stands for.
    pub fn from_command(command: Commands) -> (result: Result<Self, String>)
        ensures
            match request_of(command) {
                Some(request) => result == Ok::<CommandRequest, String>(request),
                None => result matches Err(message) && message@
                    == "command is not part of the guest RPC surface"@,
            },
    {
        match command {
            Commands::Build(cmd) => Ok(CommandRequest::Build(cmd)),
            Commands::Pull(cmd) => Ok(CommandRequest::Pull(cmd)),
            Commands::Push(cmd) => Ok(CommandRequest::Push(cmd)),
            Commands::Run(cmd) => Ok(CommandRequest::Run(cmd)),
            Commands::Create(cmd) => Ok(CommandRequest::Create(cmd)),
            Commands::Start(cmd) => Ok(CommandRequest::Start(cmd)),
            Commands::Stop(cmd) => Ok(CommandRequest::Stop(cmd)),
            Commands::Rm(cmd) => Ok(CommandRequest::Rm(cmd)),
            Commands::Ps(cmd) => Ok(CommandRequest::Ps(cmd)),
            Commands::Logs(cmd) => Ok(CommandRequest::Logs(cmd)),
            Commands::Inspect(cmd) => Ok(CommandRequest::Inspect(cmd)),
            Commands::List(cmd) => Ok(CommandRequest::List(cmd)),
            Commands::Guestd(_) => {
                Err("command is not part of the guest RPC surface".to_string())
            },
            Commands::InternalExec(_) => {
                Err("command is not part of the guest RPC surface".to_string())
            },
        }
    }
}

// ---------------------------------------------------------------------------
// Answers
// ---------------------------------------------------------------------------
/// One message of the daemon.
#[derive(Debug)]
pub enum GuestFrame {
    Event(GuestEvent),
    Response(GuestResponse),
    Error(String),
}

/// What happens while a request is worked on.
#[derive(Debug)]
pub enum GuestEvent {
    Status(String),
}

/// What a request led to.
#[derive(Debug)]
pub enum GuestResponse {
    Pong,
    Build(BuildOutput),
    Pull(PullOutput),
    Push(PushOutput),
    Run(RunOutput),
    Create(CreateOutput),
    Start(StartOutput),
    Stop(StopOutput),
    Removed(RemoveOutput),
    Ps(PsOutput),
    Logs(LogsOutput),
    Inspect(InspectOutput),
    List(ListOutput),
}

#[derive(Debug)]
pub struct BuildOutput {
    pub image_reference: String,
    pub manifest_digest: String,
    pub config_digest: String,
    pub size_bytes: u64,
}

#[derive(Debug)]
pub struct PullOutput {
    pub reference: String,
    pub manifest_digest: String,
    pub config_digest: String,
    pub size_bytes: u64,
    pub layers: usize,
}

#[derive(Debug)]
pub struct PushOutput {
    pub reference: String,
    pub manifest_digest: String,
    pub registry: String,
    pub repository: String,
}

#[derive(Debug)]
pub struct RunOutput {
    pub exit_code: i32,
}

#[derive(Debug)]
pub struct CreateOutput {
    pub id: String,
}

#[derive(Debug)]
pub struct StartOutput {
    pub id: String,
    pub pid: u32,
}

#[derive(Debug)]
pub struct StopOutput {
    pub id: String,
}

#[derive(Debug)]
pub struct RemoveOutput {
    pub id: String,
}

#[derive(Debug)]
pub struct PsOutput {
    pub containers: Vec<ContainerSummaryOutput>,
}

#[derive(Debug)]
pub struct ContainerSummaryOutput {
    pub id: String,
    pub image_reference: String,
    pub state: ContainerState,
    pub pid: Option<u32>,
    pub exit_code: Option<i32>,
    pub created_at: i64,
    pub started_at: Option<i64>,
    pub finished_at: Option<i64>,
}

#[derive(Debug)]
pub struct LogsOutput {
    pub contents: String,
}

#[derive(Debug)]
pub struct InspectOutput {
    pub reference: String,
    pub manifest_digest: String,
    pub config_digest: String,
    pub architecture: String,
    pub os: String,
    pub size_bytes: u64,
    pub layers: usize,
    pub env: Vec<String>,
    pub cmd: Vec<String>,
    pub entrypoint: Vec<String>,
    pub working_dir: Option<String>,
    pub user: Option<String>,
}

#[derive(Debug)]
pub struct ListOutput {
    pub images: Vec<ImageReferenceOutput>,
}

#[derive(Debug)]
pub struct ImageReferenceOutput {
    pub reference: String,
    pub manifest_digest: String,
}

// ---------------------------------------------------------------------------
// Laws
// ---------------------------------------------------------------------------
/// A command goes to the daemon as it is, and as the request of its own kind; only those
/// that make sense where they are given do not go there.
pub proof fn commands_go_to_the_daemon_as_they_are(command: Commands)
    ensures
        match command {
            Commands::Build(cmd) => request_of(command) == Some(CommandRequest::Build(cmd)),
            Commands::Pull(cmd) => request_of(command) == Some(CommandRequest::Pull(cmd)),
            Commands::Push(cmd) => request_of(command) == Some(CommandRequest::Push(cmd)),
            Commands::Run(cmd) => request_of(command) == Some(CommandRequest::Run(cmd)),
            Commands::Create(cmd) => request_of(command) == Some(CommandRequest::Create(cmd)),
            Commands::Start(cmd) => request_of(command) == Some(CommandRequest::Start(cmd)),
            Commands::Stop(cmd) => request_of(command) == Some(CommandRequest::Stop(cmd)),
            Commands::Rm(cmd) => request_of(command) == Some(CommandRequest::Rm(cmd)),
            Commands::Ps(cmd) => request_of(command) == Some(CommandRequest::Ps(cmd)),
            Commands::Logs(cmd) => request_of(command) == Some(CommandRequest::Logs(cmd)),
            Commands::Inspect(cmd) => request_of(command) == Some(CommandRequest::Inspect(cmd)),
            Commands::List(cmd) => request_of(command) == Some(CommandRequest::List(cmd)),
            Commands::Guestd(_) => request_of(command) is None,
            Commands::InternalExec(_) => request_of(command) is None,
        },
{
}

/// Each state has a name of its own, and a container is active while it starts or runs and
/// at no other time.
pub proof fn states_are_told_apart(one: ContainerState, other: ContainerState)
    ensures
        one.name() == other.name() <==> one == other,
        one.active() <==> one == ContainerState::Starting || one == ContainerState::Running,
        one.active() <==> one != ContainerState::Created && one != ContainerState::Exited,
        ContainerState::Created.name() == "Created"@,
        ContainerState::Starting.name() == "Starting"@,
        ContainerState::Running.name() == "Running"@,
        ContainerState::Exited.name() == "Exited"@,
{
    reveal_strlit("Created");
    reveal_strlit("Starting");
    reveal_strlit("Running");
    reveal_strlit("Exited");
    assert("Created"@.len() == 7 && "Starting"@.len() == 8 && "Running"@.len() == 7
        && "Exited"@.len() == 6);
    assert("Created"@[0] != "Running"@[0]);
}

} // verus!
