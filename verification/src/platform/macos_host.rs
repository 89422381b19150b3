//! The macOS host: where the guest's parts are, and whether the guest answers.
use crate::error::AppError;
use crate::path::{join_path, path_joined};
use crate::protocol::{GuestEvent, GuestFrame, GuestResponse};
use crate::text::{contains_text, ends, glue, occurs};
use vstd::prelude::*;

verus! {

// ---------------------------------------------------------------------------
// The installation
// ---------------------------------------------------------------------------
/// Where the parts of the guest are.
#[derive(Debug)]
pub struct MacosInstall {
    pub state_dir: String,
    pub socket_path: String,
    pub supervisor_bin: String,
    pub kernel: String,
    pub init_block: String,
    pub guest_rootfs: String,
}

/// The directory of the guest's files: in the source tree that the program was built
/// in, or beside the program.
pub open spec fn guest_files(exe_dir: Seq<char>, repo_root: Option<Seq<char>>) -> Seq<char> {
    match repo_root {
        Some(root) => path_joined(root, "packaging/macos-guest"@),
        None => path_joined(exe_dir, "../share/qbuild/macos-guest"@),
    }
}

/// The installation is where it belongs.
pub open spec fn is_install(
    install: MacosInstall,
    data_root: Seq<char>,
    exe_dir: Seq<char>,
    repo_root: Option<Seq<char>>,
    supervisor_bin: Seq<char>,
) -> bool {
    let files = guest_files(exe_dir, repo_root);
    &&& install.state_dir@ == path_joined(data_root, "macos"@)
    &&& install.socket_path@ == path_joined(install.state_dir@, "guestd.sock"@)
    &&& install.supervisor_bin@ == supervisor_bin
    &&& install.kernel@ == path_joined(files, "vmlinux"@)
    &&& install.init_block@ == path_joined(files, "init.block"@)
    &&& install.guest_rootfs@ == path_joined(files, "guest-rootfs.ext4"@)
}

/// The arguments of the supervisor.
pub open spec fn supervisor_words(install: MacosInstall, home: Seq<char>) -> Seq<Seq<char>> {
    seq![
        "daemon"@,
        "--state-dir"@,
        install.state_dir@,
        "--guest-socket-host"@,
        install.socket_path@,
        "--guest-rootfs"@,
        install.guest_rootfs@,
        "--init-block"@,
        install.init_block@,
        "--kernel"@,
        install.kernel@,
        "--home-share"@,
        home,
    ]
}

impl MacosInstall {
    /// Where the parts of the guest are, given the data directory, the program's
    /// directory, the source tree it was built in, and the supervisor.
    pub fn resolve(
        data_root: &str,
        exe_dir: &str,
        repo_root: Option<&str>,
        supervisor_bin: String,
    ) -> (install: Self)
        ensures
            is_install(
                install,
                data_root@,
                exe_dir@,
                repo_root.deep_view(),
                supervisor_bin@,
            ),
    {
        let files = match repo_root {
            Some(root) => join_path(root, "packaging/macos-guest"),
            None => join_path(exe_dir, "../share/qbuild/macos-guest"),
        };
        let state_dir = join_path(data_root, "macos");
        let socket_path = join_path(&state_dir, "guestd.sock");
        MacosInstall {
            state_dir,
            socket_path,
            supervisor_bin,
            kernel: join_path(&files, "vmlinux"),
            init_block: join_path(&files, "init.block"),
            guest_rootfs: join_path(&files, "guest-rootfs.ext4"),
        }
    }

    /// The arguments of the supervisor. `home` is the directory it shares.
    pub fn supervisor_arguments(&self, home: &str) -> (arguments: Vec<String>)
        ensures
            arguments.deep_view() == seq![
                "daemon"@,
                "--state-dir"@,
                self.state_dir@,
                "--guest-socket-host"@,
                self.socket_path@,
                "--guest-rootfs"@,
                self.guest_rootfs@,
                "--init-block"@,
                self.init_block@,
                "--kernel"@,
                self.kernel@,
                "--home-share"@,
                home@,
            ],
            arguments.deep_view() == supervisor_words(*self, home@),
    {
        let mut arguments: Vec<String> = Vec::new();
        arguments.push("daemon".to_string());
        arguments.push("--state-dir".to_string());
        arguments.push(self.state_dir.clone());
        arguments.push("--guest-socket-host".to_string());
        arguments.push(self.socket_path.clone());
        arguments.push("--guest-rootfs".to_string());
        arguments.push(self.guest_rootfs.clone());
        arguments.push("--init-block".to_string());
        arguments.push(self.init_block.clone());
        arguments.push("--kernel".to_string());
        arguments.push(self.kernel.clone());
        arguments.push("--home-share".to_string());
        arguments.push(home.to_string());
        assert(arguments.deep_view() =~= seq![
            "daemon"@,
            "--state-dir"@,
            self.state_dir@,
            "--guest-socket-host"@,
            self.socket_path@,
            "--guest-rootfs"@,
            self.guest_rootfs@,
            "--init-block"@,
            self.init_block@,
            "--kernel"@,
            self.kernel@,
            "--home-share"@,
            home@,
        ]);
        arguments
    }
}

/// A directory above the program, with what is known of it.
#[derive(Debug)]
pub struct RepoCandidate {
    pub path: String,
    /// It holds `MACOS.md`.
    pub has_guide: bool,
    /// It holds `Cargo.toml`.
    pub has_manifest: bool,
}

/// The source tree among directories: the first that holds both files.
pub open spec fn repo_root_of(candidates: Seq<RepoCandidate>, at: int) -> Option<Seq<char>>
    decreases candidates.len() - at,
{
    if at >= candidates.len() {
        None
    } else if candidates[at].has_guide && candidates[at].has_manifest {
        Some(candidates[at].path@)
    } else {
        repo_root_of(candidates, at + 1)
    }
}

/// The source tree among directories: the first that holds both files.
pub fn find_repo_root(candidates: &Vec<RepoCandidate>) -> (root: Option<String>)
    ensures
        root.deep_view() == repo_root_of(candidates@, 0),
{
    let mut at: usize = 0;
    while at < candidates.len()
        invariant
            at <= candidates@.len(),
            repo_root_of(candidates@, 0) == repo_root_of(candidates@, at as int),
        decreases candidates@.len() - at,
    {
        if candidates[at].has_guide && candidates[at].has_manifest {
            return Some(candidates[at].path.clone());
        }
        at = at + 1;
    }
    None
}

// ---------------------------------------------------------------------------
// The supervisor
// ---------------------------------------------------------------------------
/// Where the supervisor and what builds it may be.
#[derive(Debug)]
pub struct SupervisorPaths {
    /// Beside the program.
    pub release: String,
    /// In the source tree.
    pub source: Option<SupervisorSource>,
}

/// The supervisor in the source tree.
#[derive(Debug)]
pub struct SupervisorSource {
    pub binary: String,
    pub package_dir: String,
    /// What tells that the package is there.
    pub manifest: String,
    /// What builds the package.
    pub builder: String,
}

/// Where the supervisor and what builds it may be.
pub fn supervisor_paths(exe_dir: &str, repo_root: Option<&str>) -> (paths: SupervisorPaths)
    ensures
        paths.release@ == path_joined(exe_dir@, "qbuild-macos-supervisor"@),
        paths.source is Some == repo_root is Some,
        repo_root matches Some(root) ==> {
            let source = paths.source->0;
            &&& source.binary@ == path_joined(
                root@,
                "tools/macos-supervisor/.build/release/qbuild-macos-supervisor"@,
            )
            &&& source.package_dir@ == path_joined(root@, "tools/macos-supervisor"@)
            &&& source.manifest@ == path_joined(source.package_dir@, "Package.swift"@)
            &&& source.builder@ == path_joined(source.package_dir@, "build.sh"@)
        },
{
    let source = match repo_root {
        None => None,
        Some(root) => {
            let package_dir = join_path(root, "tools/macos-supervisor");
            Some(
                SupervisorSource {
                    binary: join_path(
                        root,
                        "tools/macos-supervisor/.build/release/qbuild-macos-supervisor",
                    ),
                    manifest: join_path(&package_dir, "Package.swift"),
                    builder: join_path(&package_dir, "build.sh"),
                    package_dir,
                },
            )
        },
    };
    SupervisorPaths { release: join_path(exe_dir, "qbuild-macos-supervisor"), source }
}

/// What is known of the files: a source's parts count only where there is a source.
#[derive(Debug, Clone, Copy)]
pub struct SupervisorFiles {
    pub release: bool,
    pub source_binary: bool,
    pub manifest: bool,
    pub builder: bool,
    /// How building the package ended, once it was tried.
    pub built: Option<bool>,
}

/// How the supervisor is come by.
#[derive(Debug, Clone, Copy, PartialEq, Eq, Structural)]
pub enum SupervisorStep {
    /// The one beside the program.
    Release,
    /// The one in the source tree.
    Source,
    /// The package is built by its own script first.
    RunBuilder,
    /// The package is built by the Swift tools first.
    RunSwift,
    /// Not at all.
    Unavailable,
}

/// How the supervisor is come by. After a build, the files are looked at again.
pub open spec fn supervisor_step(has_source: bool, files: SupervisorFiles) -> SupervisorStep {
    if files.release && files.built is None {
        SupervisorStep::Release
    } else if !has_source {
        SupervisorStep::Unavailable
    } else if files.source_binary && files.built != Some(false) {
        SupervisorStep::Source
    } else if files.built is Some || !files.manifest {
        SupervisorStep::Unavailable
    } else if files.builder {
        SupervisorStep::RunBuilder
    } else {
        SupervisorStep::RunSwift
    }
}

/// How the supervisor is come by. After a build, the files are looked at again.
pub fn resolve_supervisor_bin(has_source: bool, files: &SupervisorFiles) -> (step: SupervisorStep)
    ensures
        step == supervisor_step(has_source, *files),
{
    let (tried, failed) = match files.built {
        None => (false, false),
        Some(success) => (true, !success),
    };
    if files.release && !tried {
        SupervisorStep::Release
    } else if !has_source {
        SupervisorStep::Unavailable
    } else if files.source_binary && !failed {
        SupervisorStep::Source
    } else if tried || !files.manifest {
        SupervisorStep::Unavailable
    } else if files.builder {
        SupervisorStep::RunBuilder
    } else {
        SupervisorStep::RunSwift
    }
}

/// The complaint about a supervisor that cannot be come by.
pub fn supervisor_unavailable() -> (message: String)
    ensures
        message@
            == "qbuild macOS supervisor binary is unavailable. Build tools/macos-supervisor or install a release bundle with qbuild-macos-supervisor and guest assets."@,
{
    "qbuild macOS supervisor binary is unavailable. Build tools/macos-supervisor or install a release bundle with qbuild-macos-supervisor and guest assets.".to_string()
}

/// A package is built at most once.
pub proof fn packages_are_built_once(has_source: bool, files: SupervisorFiles)
    requires
        files.built is Some,
    ensures
        !(supervisor_step(has_source, files) is RunBuilder),
        !(supervisor_step(has_source, files) is RunSwift),
{
}

// ---------------------------------------------------------------------------
// The guest
// ---------------------------------------------------------------------------
/// A message that tells of a guest that is not there yet.
pub open spec fn is_not_ready(message: Seq<char>) -> bool {
    occurs(message, "failed to connect"@) || occurs(message, "closed the connection"@)
}

/// A failure that tells of a guest that is not there yet.
pub open spec fn is_starting(problem: AppError) -> bool {
    match problem {
        AppError::Io { not_found, message } => not_found,
        AppError::Message(message) => is_not_ready(message@),
        _ => false,
    }
}

/// Whether the guest answers; none where that cannot be said.
pub open spec fn guest_answers(reply: Option<Result<GuestResponse, AppError>>) -> Option<bool> {
    match reply {
        None => Some(false),
        Some(Ok(response)) => if response is Pong {
            Some(true)
        } else {
            None
        },
        Some(Err(problem)) => if is_starting(problem) {
            Some(false)
        } else {
            None
        },
    }
}

/// Whether the guest answers, given the answer to a ping, or none where there is no
/// socket. What is no answer and no sign of a guest that is starting is passed on.
pub fn ping_guest(reply: Option<Result<GuestResponse, AppError>>) -> (result: Result<
    bool,
    AppError,
>)
    ensures
        match reply {
            None => result == Ok::<bool, AppError>(false),
            Some(Ok(response)) => if response is Pong {
                result == Ok::<bool, AppError>(true)
            } else {
                result matches Err(AppError::Message(message)) && message@
                    == "guest daemon health check returned an unexpected response"@
            },
            Some(Err(problem)) => if is_starting(problem) {
                result == Ok::<bool, AppError>(false)
            } else {
                result == Err::<bool, AppError>(problem)
            },
        },
        match guest_answers(reply) {
            Some(ready) => result == Ok::<bool, AppError>(ready),
            None => result is Err,
        },
{
    match reply {
        None => Ok(false),
        Some(Ok(response)) => match response {
            GuestResponse::Pong => Ok(true),
            _ => Err(
                AppError::Message(
                    "guest daemon health check returned an unexpected response".to_string(),
                ),
            ),
        },
        Some(Err(problem)) => match problem {
            AppError::Io { not_found, message } => if not_found {
                Ok(false)
            } else {
                Err(AppError::Io { not_found, message })
            },
            AppError::Message(message) => if contains_text(&message, "failed to connect")
                || contains_text(&message, "closed the connection") {
                Ok(false)
            } else {
                Err(AppError::Message(message))
            },
            other => Err(other),
        },
    }
}

/// What is done with one message of the guest.
#[derive(Debug)]
pub enum FrameStep {
    /// The event is told, and the next message is read.
    Tell(GuestEvent),
    /// This is the answer.
    Done(GuestResponse),
    /// The request failed, with this message.
    Fail(String),
}

/// What is done with one message of the guest.
pub open spec fn frame_step(frame: GuestFrame) -> FrameStep {
    match frame {
        GuestFrame::Event(event) => FrameStep::Tell(event),
        GuestFrame::Response(response) => FrameStep::Done(response),
        GuestFrame::Error(message) => FrameStep::Fail(message),
    }
}

/// What is done with one message of the guest.
pub fn take_frame(frame: GuestFrame) -> (step: FrameStep)
    ensures
        step == frame_step(frame),
{
    match frame {
        GuestFrame::Event(event) => FrameStep::Tell(event),
        GuestFrame::Response(response) => FrameStep::Done(response),
        GuestFrame::Error(message) => FrameStep::Fail(message),
    }
}

/// How long the guest may take to get ready after it was started, in milliseconds.
pub const READY_LIMIT_MS: u64 = 20_000;

/// How getting to a running guest goes on.
#[derive(Debug)]
pub enum GuestStep {
    /// The guest answers.
    Use,
    /// The guest has to be started.
    Start,
    /// The guest is asked again a little later.
    Wait,
    /// The guest does not get ready, as this message says.
    Fail(String),
}

/// A [`GuestStep`] as a mathematical value.
#[verifier::ext_equal]
pub enum GuestStepModel {
    Use,
    Start,
    Wait,
    Fail(Seq<char>),
}

impl DeepView for GuestStep {
    type V = GuestStepModel;

    open spec fn deep_view(&self) -> GuestStepModel {
        match self {
            GuestStep::Use => GuestStepModel::Use,
            GuestStep::Start => GuestStepModel::Start,
            GuestStep::Wait => GuestStepModel::Wait,
            GuestStep::Fail(message) => GuestStepModel::Fail(message@),
        }
    }
}

/// The complaint about a guest that did not get ready.
pub open spec fn not_ready_text(socket_path: Seq<char>) -> Seq<char> {
    "qbuild macOS supervisor did not become ready. Expected guest socket at "@ + socket_path
}

/// How getting to a running guest goes on: a guest that answers is used, one that was
/// not started yet is started, and one that was is waited for up to the limit.
pub open spec fn guest_next(
    started: bool,
    waited_ms: u64,
    ready: bool,
    socket: Seq<char>,
) -> GuestStepModel {
    if ready {
        GuestStepModel::Use
    } else if !started {
        GuestStepModel::Start
    } else if waited_ms < READY_LIMIT_MS {
        GuestStepModel::Wait
    } else {
        GuestStepModel::Fail(not_ready_text(socket))
    }
}

/// How getting to a running guest goes on, given whether it was started and how long
/// ago, and whether it answers.
pub fn guest_step(started: bool, waited_ms: u64, ready: bool, socket: &str) -> (step: GuestStep)
    ensures
        step.deep_view() == guest_next(started, waited_ms, ready, socket@),
{
    if ready {
        GuestStep::Use
    } else if !started {
        GuestStep::Start
    } else if waited_ms < READY_LIMIT_MS {
        GuestStep::Wait
    } else {
        GuestStep::Fail(not_ready(socket))
    }
}

/// The complaint about a guest that did not get ready.
pub fn not_ready(socket_path: &str) -> (message: String)
    ensures
        message@ == not_ready_text(socket_path@),
{
    glue(
        "qbuild macOS supervisor did not become ready. Expected guest socket at ",
        socket_path,
    )
}

/// A guest that answers is reused and never started a second time: only one that does
/// not answer and was not started is started.
pub proof fn guests_are_started_once(started: bool, waited_ms: u64, ready: bool, socket: Seq<char>)
    ensures
        guest_next(started, waited_ms, ready, socket) is Start <==> !ready && !started,
        guest_next(started, waited_ms, ready, socket) is Use <==> ready,
        guest_next(started, waited_ms, ready, socket) is Fail ==> started && waited_ms
            >= READY_LIMIT_MS,
{
}

/// The parts of the guest are where they belong: its state below the data directory with
/// the socket in it, and its kernel, start block and root file system side by side, in the
/// source tree where there is one and else beside the program.
pub proof fn guests_are_where_they_belong(
    install: MacosInstall,
    data_root: Seq<char>,
    exe_dir: Seq<char>,
    repo_root: Option<Seq<char>>,
    supervisor_bin: Seq<char>,
)
    requires
        is_install(install, data_root, exe_dir, repo_root, supervisor_bin),
    ensures
        install.state_dir@ == path_joined(data_root, "macos"@),
        install.socket_path@ == path_joined(path_joined(data_root, "macos"@), "guestd.sock"@),
        install.supervisor_bin@ == supervisor_bin,
        repo_root matches Some(root) ==> {
            let files = path_joined(root, "packaging/macos-guest"@);
            &&& install.kernel@ == path_joined(files, "vmlinux"@)
            &&& install.init_block@ == path_joined(files, "init.block"@)
            &&& install.guest_rootfs@ == path_joined(files, "guest-rootfs.ext4"@)
        },
        repo_root is None ==> {
            let files = path_joined(exe_dir, "../share/qbuild/macos-guest"@);
            &&& install.kernel@ == path_joined(files, "vmlinux"@)
            &&& install.init_block@ == path_joined(files, "init.block"@)
            &&& install.guest_rootfs@ == path_joined(files, "guest-rootfs.ext4"@)
        },
{
}

/// The source tree is the first directory that holds both files, and there is none where no
/// directory does.
pub proof fn source_trees_hold_both_files(candidates: Seq<RepoCandidate>, from: int, at: int)
    requires
        0 <= from <= at <= candidates.len(),
        at < candidates.len() ==> candidates[at].has_guide && candidates[at].has_manifest,
        forall|i: int|
            from <= i < at ==> !((#[trigger] candidates[i]).has_guide
                && candidates[i].has_manifest),
    ensures
        at < candidates.len() ==> repo_root_of(candidates, from) == Some(candidates[at].path@),
        at == candidates.len() ==> repo_root_of(candidates, from) is None,
    decreases at - from,
{
    if from < at {
        assert(!(candidates[from].has_guide && candidates[from].has_manifest));
        source_trees_hold_both_files(candidates, from + 1, at);
    }
}

/// A supervisor that is there is used: the one beside the program before the one in the
/// source tree, where one is only built for want of both, by its own script where it has
/// one. After a build only what it left counts.
pub proof fn supervisors_that_are_there_are_used(has_source: bool, files: SupervisorFiles)
    ensures
        files.built is None && files.release ==> supervisor_step(has_source, files) is Release,
        files.built is None && !files.release && has_source && files.source_binary
            ==> supervisor_step(has_source, files) is Source,
        files.built is None && !files.release && has_source && !files.source_binary
            && files.manifest ==> if files.builder {
            supervisor_step(has_source, files) is RunBuilder
        } else {
            supervisor_step(has_source, files) is RunSwift
        },
        files.built is None && !files.release && (!has_source || (!files.source_binary
            && !files.manifest)) ==> supervisor_step(has_source, files) is Unavailable,
        files.built == Some(true) && has_source && files.source_binary ==> supervisor_step(
            has_source,
            files,
        ) is Source,
        files.built == Some(false) ==> supervisor_step(has_source, files) is Unavailable,
{
}

/// A guest that was started and does not answer yet is waited for up to twenty seconds, and
/// given up after them.
pub proof fn guests_are_waited_for(waited_ms: u64, socket: Seq<char>)
    ensures
        waited_ms < 20_000 ==> guest_next(true, waited_ms, false, socket) is Wait,
        waited_ms >= 20_000 ==> (guest_next(true, waited_ms, false, socket) matches
            GuestStepModel::Fail(message) && ends(message, socket)),
{
    let message = not_ready_text(socket);
    assert(message.skip(message.len() - socket.len()) =~= socket);
}

/// What the guest tells on the way is passed on, its answer ends the request, and what went
/// wrong fails it; each as it came.
pub proof fn frames_are_passed_on(event: GuestEvent, response: GuestResponse, message: String)
    ensures
        frame_step(GuestFrame::Event(event)) == FrameStep::Tell(event),
        frame_step(GuestFrame::Response(response)) == FrameStep::Done(response),
        frame_step(GuestFrame::Error(message)) == FrameStep::Fail(message),
{
}

/// A guest is taken to be starting where its socket is not there, or where it could not be
/// connected to or closed the connection, and nowhere else.
pub proof fn guests_that_start_are_known(problem: AppError)
    ensures
        is_starting(problem) <==> match problem {
            AppError::Io { not_found, .. } => not_found,
            AppError::Message(message) => occurs(message@, "failed to connect"@) || occurs(
                message@,
                "closed the connection"@,
            ),
            AppError::Image(_) => false,
            AppError::Registry(_) => false,
            AppError::Json(_) => false,
        },
{
}

/// The supervisor is told where each part of the guest is: every option is followed by its
/// own path.
pub proof fn supervisors_are_told_the_parts(install: MacosInstall, home: Seq<char>, i: int)
    requires
        0 <= i < supervisor_words(install, home).len() - 1,
    ensures
        ({
            let words = supervisor_words(install, home);
            &&& words[0] == "daemon"@
            &&& words.len() == 13
            &&& words.contains("--state-dir"@) && words.contains("--guest-socket-host"@)
                && words.contains("--guest-rootfs"@) && words.contains("--init-block"@)
                && words.contains("--kernel"@) && words.contains("--home-share"@)
            &&& i == 1 ==> words[i] == "--state-dir"@ && words[i + 1] == install.state_dir@
            &&& i == 3 ==> words[i] == "--guest-socket-host"@ && words[i + 1]
                == install.socket_path@
            &&& i == 5 ==> words[i] == "--guest-rootfs"@ && words[i + 1] == install.guest_rootfs@
            &&& i == 7 ==> words[i] == "--init-block"@ && words[i + 1] == install.init_block@
            &&& i == 9 ==> words[i] == "--kernel"@ && words[i + 1] == install.kernel@
            &&& i == 11 ==> words[i] == "--home-share"@ && words[i + 1] == home
        }),
{
    let words = supervisor_words(install, home);
    assert(words.contains(words[1]) && words.contains(words[3]) && words.contains(words[5])
        && words.contains(words[7]) && words.contains(words[9]) && words.contains(words[11]));
}

/// A guest is ready exactly where it answers a ping as one should; without a socket, or while
/// it starts, it is not; and any other answer or failure is no answer to that.
pub proof fn guests_are_ready_when_they_answer(reply: Option<Result<GuestResponse, AppError>>)
    ensures
        guest_answers(reply) == Some(true) <==> (reply matches Some(Ok(response)) && response
            is Pong),
        reply is None ==> guest_answers(reply) == Some(false),
        reply matches Some(Ok(response)) ==> (!(response is Pong) ==> guest_answers(reply)
            is None),
        reply matches Some(Err(problem)) ==> (guest_answers(reply) == Some(false) <==> is_starting(
            problem,
        )),
{
}

} // verus!
