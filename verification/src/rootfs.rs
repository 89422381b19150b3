//! What a root file system needs before a process can run in it.
use crate::build::diff::is_support;
use crate::number::decimal;
use crate::path::{join_path, path_joined};
use crate::text::{ends, glue, glue3, outcome};
use vstd::prelude::*;

verus! {

// ---------------------------------------------------------------------------
// Directories, devices and links
// ---------------------------------------------------------------------------
/// The devices that a process finds in `/dev`.
pub open spec fn device_names() -> Seq<Seq<char>> {
    seq!["null"@, "zero"@, "random"@, "urandom"@, "tty"@]
}

/// The links that a process finds in `/dev`, with their targets.
pub open spec fn device_links() -> Seq<(Seq<char>, Seq<char>)> {
    seq![
        ("dev/fd"@, "/proc/self/fd"@),
        ("dev/stdin"@, "/proc/self/fd/0"@),
        ("dev/stdout"@, "/proc/self/fd/1"@),
        ("dev/stderr"@, "/proc/self/fd/2"@),
    ]
}

/// The directories that have to exist.
pub fn support_directories(rootfs: &str) -> (paths: Vec<String>)
    ensures
        paths.deep_view() == seq![
            path_joined(rootfs@, "dev"@),
            path_joined(rootfs@, "proc"@),
        ],
{
    let mut paths: Vec<String> = Vec::new();
    paths.push(join_path(rootfs, "dev"));
    paths.push(join_path(rootfs, "proc"));
    assert(paths.deep_view() =~= seq![
        path_joined(rootfs@, "dev"@),
        path_joined(rootfs@, "proc"@),
    ]);
    paths
}

/// The device nodes, each with the node of the host that it is made after.
pub fn support_devices(rootfs: &str) -> (nodes: Vec<(String, String)>)
    ensures
        nodes.deep_view() == device_names().map_values(
            |name: Seq<char>|
                (path_joined(path_joined(rootfs@, "dev"@), name), path_joined("/dev"@, name)),
        ),
{
    let directory = join_path(rootfs, "dev");
    let mut nodes: Vec<(String, String)> = Vec::new();
    nodes.push((join_path(&directory, "null"), join_path("/dev", "null")));
    nodes.push((join_path(&directory, "zero"), join_path("/dev", "zero")));
    nodes.push((join_path(&directory, "random"), join_path("/dev", "random")));
    nodes.push((join_path(&directory, "urandom"), join_path("/dev", "urandom")));
    nodes.push((join_path(&directory, "tty"), join_path("/dev", "tty")));
    assert(nodes.deep_view() =~= device_names().map_values(
        |name: Seq<char>|
            (path_joined(path_joined(rootfs@, "dev"@), name), path_joined("/dev"@, name)),
    ));
    nodes
}

/// The links, each with its target.
pub fn support_links(rootfs: &str) -> (links: Vec<(String, String)>)
    ensures
        links.deep_view() == device_links().map_values(
            |link: (Seq<char>, Seq<char>)| (path_joined(rootfs@, link.0), link.1),
        ),
{
    let mut links: Vec<(String, String)> = Vec::new();
    links.push((join_path(rootfs, "dev/fd"), "/proc/self/fd".to_string()));
    links.push((join_path(rootfs, "dev/stdin"), "/proc/self/fd/0".to_string()));
    links.push((join_path(rootfs, "dev/stdout"), "/proc/self/fd/1".to_string()));
    links.push((join_path(rootfs, "dev/stderr"), "/proc/self/fd/2".to_string()));
    assert(links.deep_view() =~= device_links().map_values(
        |link: (Seq<char>, Seq<char>)| (path_joined(rootfs@, link.0), link.1),
    ));
    links
}

/// What stands where a link is wanted.
#[derive(Debug)]
pub enum PathState {
    Symlink,
    Directory,
    File,
    Missing,
    /// It could not be looked at, for this reason.
    Unreadable(String),
}

/// How a wanted link comes about.
#[derive(Debug, Clone, Copy, PartialEq, Eq, Structural)]
pub enum LinkAction {
    /// A link is there already.
    Keep,
    /// A directory has to go first.
    ReplaceDirectory,
    /// A file has to go first.
    ReplaceFile,
    /// Nothing is in the way.
    Create,
}

impl DeepView for LinkAction {
    type V = LinkAction;

    open spec fn deep_view(&self) -> LinkAction {
        *self
    }
}

/// How a wanted link comes about.
pub open spec fn link_action(path: Seq<char>, state: PathState) -> Result<LinkAction, Seq<char>> {
    match state {
        PathState::Symlink => Ok(LinkAction::Keep),
        PathState::Directory => Ok(LinkAction::ReplaceDirectory),
        PathState::File => Ok(LinkAction::ReplaceFile),
        PathState::Missing => Ok(LinkAction::Create),
        PathState::Unreadable(problem) => Err(
            "Failed to inspect symlink path '"@ + path + "': "@ + problem@,
        ),
    }
}

/// How a wanted link comes about.
pub fn ensure_symlink(path: &str, state: &PathState) -> (result: Result<LinkAction, String>)
    ensures
        outcome(result) == link_action(path@, *state),
{
    match state {
        PathState::Symlink => Ok(LinkAction::Keep),
        PathState::Directory => Ok(LinkAction::ReplaceDirectory),
        PathState::File => Ok(LinkAction::ReplaceFile),
        PathState::Missing => Ok(LinkAction::Create),
        PathState::Unreadable(problem) => Err(
            glue(&glue3("Failed to inspect symlink path '", path, "': "), problem),
        ),
    }
}

// ---------------------------------------------------------------------------
// Mounts
// ---------------------------------------------------------------------------
/// The numbers of the errors that a build tolerates when it mounts `/proc`: not
/// permitted, busy, and invalid.
pub open spec fn tolerated_errors() -> Set<i32> {
    set![1i32, 16, 22]
}

/// Whether `/proc` was mounted, given the number of the error and its message.
pub open spec fn proc_mounted(
    path: Seq<char>,
    problem: Option<(i32, Seq<char>)>,
) -> Result<bool, Seq<char>> {
    match problem {
        None => Ok(true),
        Some((number, message)) => if tolerated_errors().contains(number) {
            Ok(false)
        } else {
            Err("Failed to mount build /proc at '"@ + path + "': "@ + message)
        },
    }
}

/// Whether `/proc` was mounted, given the number of the error and its message.
pub fn check_proc_mount(path: &str, problem: Option<(i32, String)>) -> (result: Result<
    bool,
    String,
>)
    ensures
        outcome(result) == proc_mounted(path@, problem.deep_view()),
{
    match problem {
        None => Ok(true),
        Some((number, message)) => if number == 1 || number == 16 || number == 22 {
            Ok(false)
        } else {
            Err(glue(&glue3("Failed to mount build /proc at '", path, "': "), &message))
        },
    }
}

// ---------------------------------------------------------------------------
// Package indexes
// ---------------------------------------------------------------------------
/// The programs by which an image is known to use package indexes.
pub open spec fn package_tools() -> Seq<Seq<char>> {
    seq!["usr/bin/apt-get"@, "bin/apt-get"@, "usr/bin/apt"@, "bin/apt"@]
}

/// The programs by which an image is known to use package indexes.
pub fn apt_paths(rootfs: &str) -> (paths: Vec<String>)
    ensures
        paths.deep_view() == package_tools().map_values(
            |tool: Seq<char>| path_joined(rootfs@, tool),
        ),
{
    let mut paths: Vec<String> = Vec::new();
    paths.push(join_path(rootfs, "usr/bin/apt-get"));
    paths.push(join_path(rootfs, "bin/apt-get"));
    paths.push(join_path(rootfs, "usr/bin/apt"));
    paths.push(join_path(rootfs, "bin/apt"));
    assert(paths.deep_view() =~= package_tools().map_values(
        |tool: Seq<char>| path_joined(rootfs@, tool),
    ));
    paths
}

/// The directory of the package manager's settings.
pub fn apt_conf_dir(rootfs: &str) -> (path: String)
    ensures
        path@ == path_joined(rootfs@, "etc/apt/apt.conf.d"@),
{
    join_path(rootfs, "etc/apt/apt.conf.d")
}

/// The file that relaxes the package manager's clock checks.
pub fn apt_override_path(rootfs: &str) -> (path: String)
    ensures
        path@ == path_joined(
            path_joined(rootfs@, "etc/apt/apt.conf.d"@),
            "99qbuild-clock-skew.conf"@,
        ),
{
    join_path(&apt_conf_dir(rootfs), "99qbuild-clock-skew.conf")
}

/// What that file says.
pub fn apt_override_text() -> (text: String)
    ensures
        text@ == "Acquire::Check-Valid-Until \"false\";\nAcquire::Check-Date \"false\";\n"@,
{
    "Acquire::Check-Valid-Until \"false\";\nAcquire::Check-Date \"false\";\n".to_string()
}

/// The file is put there for a RUN and taken away after it.
pub open spec fn is_injected(has_tool: bool, has_conf_dir: bool, has_override: bool) -> bool {
    has_tool && has_conf_dir && !has_override
}

/// Whether the file is put there for a RUN and taken away after it: where the image
/// has a package manager, a directory for its settings, and no such file of its own.
pub fn injects_apt_override(
    has_tool: bool,
    has_conf_dir: bool,
    has_override: bool,
) -> (inject: bool)
    ensures
        inject == (has_tool && has_conf_dir && !has_override),
        inject == is_injected(has_tool, has_conf_dir, has_override),
{
    has_tool && has_conf_dir && !has_override
}

// ---------------------------------------------------------------------------
// Laws
// ---------------------------------------------------------------------------
/// The paths around a RUN that are no part of the image are `/proc` and the devices and
/// links that a process finds in `/dev`, all of them and nothing else.
pub proof fn support_paths_are_what_a_run_is_given(path: Seq<char>)
    ensures
        is_support(path) <==> {
            ||| path == "proc"@
            ||| exists|i: int|
                0 <= i < device_names().len() && path == "dev/"@ + #[trigger] device_names()[i]
            ||| exists|i: int| 0 <= i < device_links().len() && path == #[trigger] device_links()[i].0
        },
{
    reveal_strlit("dev/");
    reveal_strlit("null");
    reveal_strlit("zero");
    reveal_strlit("random");
    reveal_strlit("urandom");
    reveal_strlit("tty");
    reveal_strlit("dev/null");
    reveal_strlit("dev/zero");
    reveal_strlit("dev/random");
    reveal_strlit("dev/urandom");
    reveal_strlit("dev/tty");
    let devices = device_names();
    let links = device_links();
    assert("dev/"@ + devices[0] =~= "dev/null"@);
    assert("dev/"@ + devices[1] =~= "dev/zero"@);
    assert("dev/"@ + devices[2] =~= "dev/random"@);
    assert("dev/"@ + devices[3] =~= "dev/urandom"@);
    assert("dev/"@ + devices[4] =~= "dev/tty"@);
    assert(links[0].0 == "dev/fd"@);
    assert(links[1].0 == "dev/stdin"@);
    assert(links[2].0 == "dev/stdout"@);
    assert(links[3].0 == "dev/stderr"@);
}

/// The links in `/dev` lead to the file descriptors of the process: to all of them, and to
/// the first three under their own names.
pub proof fn links_lead_to_the_descriptors(i: int)
    requires
        0 <= i < device_links().len(),
    ensures
        ({
            let (path, target) = device_links()[i];
            &&& path == "dev/fd"@ ==> target == "/proc/self/fd"@
            &&& path == "dev/stdin"@ ==> target == "/proc/self/fd/"@ + decimal(0)
            &&& path == "dev/stdout"@ ==> target == "/proc/self/fd/"@ + decimal(1)
            &&& path == "dev/stderr"@ ==> target == "/proc/self/fd/"@ + decimal(2)
        }),
{
    reveal_strlit("dev/fd");
    reveal_strlit("dev/stdin");
    reveal_strlit("dev/stdout");
    reveal_strlit("dev/stderr");
    reveal_strlit("/proc/self/fd");
    reveal_strlit("/proc/self/fd/");
    reveal_strlit("/proc/self/fd/0");
    reveal_strlit("/proc/self/fd/1");
    reveal_strlit("/proc/self/fd/2");
    assert("dev/fd"@.len() == 6 && "dev/stdin"@.len() == 9 && "dev/stdout"@.len() == 10
        && "dev/stderr"@.len() == 10);
    assert("dev/stdout"@[7] != "dev/stderr"@[7]);
    assert("/proc/self/fd/0"@ =~= "/proc/self/fd/"@ + decimal(0));
    assert("/proc/self/fd/1"@ =~= "/proc/self/fd/"@ + decimal(1));
    assert("/proc/self/fd/2"@ =~= "/proc/self/fd/"@ + decimal(2));
}

/// A link that is there stays, and what is there instead goes first: a directory as a
/// directory, and a file as a file. Only a path that cannot be looked at stops it.
pub proof fn links_come_about(path: Seq<char>, state: PathState)
    ensures
        link_action(path, state) is Err <==> state is Unreadable,
        link_action(path, state) matches Ok(action) ==> {
            &&& action is Keep <==> state is Symlink
            &&& action is ReplaceDirectory <==> state is Directory
            &&& action is ReplaceFile <==> state is File
            &&& action is Create <==> state is Missing
        },
{
}

/// A mount of `/proc` counts exactly where there was no error, and only the errors that say
/// that it is not permitted, busy or invalid are put up with.
pub proof fn few_mount_errors_are_tolerated(path: Seq<char>, problem: Option<(i32, Seq<char>)>)
    ensures
        proc_mounted(path, problem) == Ok::<bool, Seq<char>>(true) <==> problem is None,
        proc_mounted(path, problem) == Ok::<bool, Seq<char>>(false) <==> problem is Some && {
            let number = (problem->0).0;
            number == 1 || number == 16 || number == 22
        },
        proc_mounted(path, problem) matches Err(message) ==> (problem matches Some((_, reason))
            && ends(message, reason)),
{
    if let Err(message) = proc_mounted(path, problem) {
        let reason = (problem->0).1;
        assert(message.skip(message.len() - reason.len()) =~= reason);
    }
}

/// An image that has no package manager, no directory for its settings, or a file of its own
/// there, is left as it is; any other gets the file.
pub proof fn own_files_are_left_alone(has_tool: bool, has_conf_dir: bool, has_override: bool)
    ensures
        has_override ==> !is_injected(has_tool, has_conf_dir, has_override),
        !has_tool || !has_conf_dir ==> !is_injected(has_tool, has_conf_dir, has_override),
        is_injected(true, true, false),
{
}

/// An image is known to use package indexes by either of two programs, in either of two
/// directories.
pub proof fn package_managers_are_known(i: int)
    ensures
        package_tools().len() == 4,
        package_tools().contains("usr/bin/apt-get"@),
        package_tools().contains("bin/apt-get"@),
        package_tools().contains("usr/bin/apt"@),
        package_tools().contains("bin/apt"@),
        0 <= i < 4 ==> package_tools()[i] == "usr/bin/apt-get"@ || package_tools()[i]
            == "bin/apt-get"@ || package_tools()[i] == "usr/bin/apt"@ || package_tools()[i]
            == "bin/apt"@,
{
    let tools = package_tools();
    assert(tools.contains(tools[0]) && tools.contains(tools[1]) && tools.contains(tools[2])
        && tools.contains(tools[3]));
}

} // verus!
