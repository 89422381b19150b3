//! The commands of the command line.
use vstd::prelude::*;

verus! {

/// The command line.
#[derive(Debug)]
pub struct Cli {
    pub command: Commands,
}

/// A command.
#[derive(Debug)]
pub enum Commands {
    /// Build an OCI image from a local Docker build context.
    Build(BuildCommand),
    /// Pull an OCI image into the local store.
    Pull(PullCommand),
    /// Push a locally stored OCI image reference to a registry.
    Push(PushCommand),
    /// Run a locally stored OCI image standalone.
    Run(RunCommand),
    /// Create a persistent local container definition.
    Create(CreateCommand),
    /// Start a persistent local container.
    Start(StartCommand),
    /// Stop a running local container.
    Stop(StopCommand),
    /// Remove a stopped local container.
    Rm(RemoveCommand),
    /// List local containers.
    Ps(PsCommand),
    /// Print container logs.
    Logs(LogsCommand),
    /// Inspect a locally stored OCI image reference.
    Inspect(InspectCommand),
    /// List locally stored image references.
    List(ListCommand),
    /// Run the Linux guest daemon.
    Guestd(GuestdCommand),
    /// Run a container that was started.
    InternalExec(InternalExecCommand),
}

#[derive(Debug)]
pub struct BuildCommand {
    pub context: String,
    pub dockerfile: String,
    pub image: String,
    pub build_arg: Vec<String>,
    pub target: Option<String>,
    pub store_dir: Option<String>,
    pub work_dir: Option<String>,
    pub json: bool,
}

#[derive(Debug)]
pub struct PullCommand {
    pub reference: String,
    pub store_dir: Option<String>,
    pub username: Option<String>,
    pub password: Option<String>,
    pub force: bool,
    pub json: bool,
}

#[derive(Debug)]
pub struct PushCommand {
    pub reference: String,
    pub store_dir: Option<String>,
    pub username: Option<String>,
    pub password: Option<String>,
    pub json: bool,
}

/// Runs an image. `cpu_quota` is the share of a processor in thousandths of a percent.
#[derive(Debug)]
pub struct RunCommand {
    pub reference: String,
    pub store_dir: Option<String>,
    pub env: Vec<String>,
    pub workdir: Option<String>,
    pub memory_mb: Option<u64>,
    pub cpu_quota: Option<i64>,
    pub pids_limit: Option<u64>,
    pub clear_image_env: bool,
    pub no_mount_namespace: bool,
    pub uts_namespace: bool,
    pub mounts: Vec<String>,
    pub gpu_count: u32,
    pub gpu_id: Vec<String>,
    pub name: Option<String>,
    pub ipc_namespace: bool,
    pub network_namespace: bool,
    pub command: Vec<String>,
}

/// Creates a container. `cpu_quota` is the share of a processor in thousandths of a
/// percent.
#[derive(Debug)]
pub struct CreateCommand {
    pub reference: String,
    pub store_dir: Option<String>,
    pub data_root: Option<String>,
    pub env: Vec<String>,
    pub workdir: Option<String>,
    pub memory_mb: Option<u64>,
    pub cpu_quota: Option<i64>,
    pub pids_limit: Option<u64>,
    pub clear_image_env: bool,
    pub no_mount_namespace: bool,
    pub uts_namespace: bool,
    pub mounts: Vec<String>,
    pub gpu_count: u32,
    pub gpu_id: Vec<String>,
    pub name: Option<String>,
    pub ipc_namespace: bool,
    pub network_namespace: bool,
    pub command: Vec<String>,
}

#[derive(Debug)]
pub struct StartCommand {
    pub id: String,
    pub store_dir: Option<String>,
    pub data_root: Option<String>,
}

#[derive(Debug)]
pub struct StopCommand {
    pub id: String,
    pub store_dir: Option<String>,
    pub data_root: Option<String>,
    pub signal: String,
}

#[derive(Debug)]
pub struct RemoveCommand {
    pub id: String,
    pub store_dir: Option<String>,
    pub data_root: Option<String>,
}

#[derive(Debug)]
pub struct PsCommand {
    pub store_dir: Option<String>,
    pub data_root: Option<String>,
    pub json: bool,
}

#[derive(Debug)]
pub struct LogsCommand {
    pub id: String,
    pub data_root: Option<String>,
    pub store_dir: Option<String>,
    pub stderr: bool,
}

#[derive(Debug)]
pub struct InspectCommand {
    pub reference: String,
    pub store_dir: Option<String>,
    pub json: bool,
}

#[derive(Debug)]
pub struct ListCommand {
    pub store_dir: Option<String>,
    pub json: bool,
}

#[derive(Debug)]
pub struct GuestdCommand {
    pub listen: String,
    pub listen_unix: Option<String>,
}

#[derive(Debug)]
pub struct InternalExecCommand {
    pub data_root: String,
    pub store_dir: String,
    pub container_id: String,
}

} // verus!
