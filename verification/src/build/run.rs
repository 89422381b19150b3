//! RUN: the process that executes a build step, and the privileges it needs.
use crate::dockerfile::{json_strings, parse_json_strings};
use crate::environment::{ensure_path, with_path};
use crate::instruction::{Instruction, InstructionModel};
use crate::path::{host_path, host_path_for_container_path, invalid_container_path, names};
use crate::text::{begins, contains_text, copy_texts, ends, glue, glue3, occurs, outcome};
use crate::text::starts_with;
use crate::text_map::StringMap;
use crate::users::{resolve_user, resolved_user};
use vstd::prelude::*;

verus! {

// ---------------------------------------------------------------------------
// Commands
// ---------------------------------------------------------------------------
/// The command updates a package index, which may fail for a while.
pub open spec fn updates_packages(command: Seq<char>) -> bool {
    occurs(command, "apt-get update"@) || occurs(command, "apt update"@)
}

/// Whether the command updates a package index, which may fail for a while.
pub fn needs_apt_update_retry(command: &str) -> (needed: bool)
    ensures
        needed == updates_packages(command@),
{
    contains_text(command, "apt-get update") || contains_text(command, "apt update")
}

/// The command as the shell runs it: one that updates a package index is tried up to
/// five times.
pub open spec fn shell_command(command: Seq<char>) -> Seq<char> {
    if updates_packages(command) {
        "attempt=1; while true; do "@ + command
            + "; status=$?; if [ $status -eq 0 ]; then break; fi; if [ $attempt -ge 5 ]; then exit $status; fi; sleep 5; attempt=$((attempt+1)); done"@
    } else {
        command
    }
}

/// The command as the shell runs it.
pub fn wrap_shell_run_command(command: &str) -> (result: String)
    ensures
        result@ == shell_command(command@),
{
    if !needs_apt_update_retry(command) {
        return command.to_string();
    }
    glue3(
        "attempt=1; while true; do ",
        command,
        "; status=$?; if [ $status -eq 0 ]; then break; fi; if [ $attempt -ge 5 ]; then exit $status; fi; sleep 5; attempt=$((attempt+1)); done",
    )
}

/// The program of a RUN with its arguments, given what the JSON parser made of an
/// exec-form command.
pub open spec fn run_words(
    shell: Seq<Seq<char>>,
    command: Seq<char>,
    exec_form: bool,
    array: Result<Seq<Seq<char>>, Seq<char>>,
) -> Result<Seq<Seq<char>>, Seq<char>> {
    if exec_form {
        match array {
            Err(problem) => Err(
                "Invalid exec-form RUN instruction '"@ + command + "': "@ + problem,
            ),
            Ok(words) => if words.len() == 0 {
                Err("RUN exec-form instruction requires a non-empty argv"@)
            } else {
                Ok(words)
            },
        }
    } else if shell.len() == 0 {
        Err("SHELL for RUN must not be empty"@)
    } else {
        Ok(shell.push(shell_command(command)))
    }
}

/// An exec-form RUN, given what the JSON parser made of it.
pub fn exec_form_words(command: &str, array: Result<Vec<String>, String>) -> (result: Result<
    Vec<String>,
    String,
>)
    ensures
        outcome(result) == run_words(seq![], command@, true, outcome(array)),
{
    match array {
        Err(problem) => Err(
            glue(&glue3("Invalid exec-form RUN instruction '", command, "': "), &problem),
        ),
        Ok(words) => {
            if words.len() == 0 {
                return Err("RUN exec-form instruction requires a non-empty argv".to_string());
            }
            Ok(words)
        },
    }
}

/// The program of a RUN with its arguments.
pub fn run_argv(shell: &Vec<String>, command: &str, exec_form: bool) -> (result: Result<
    Vec<String>,
    String,
>)
    ensures
        outcome(result) == run_words(
            shell.deep_view(),
            command@,
            exec_form,
            json_strings(command@),
        ),
{
    if exec_form {
        return exec_form_words(command, parse_json_strings(command));
    }
    if shell.len() == 0 {
        return Err("SHELL for RUN must not be empty".to_string());
    }
    let mut words = copy_texts(shell);
    let wrapped = wrap_shell_run_command(command);
    words.push(wrapped);
    assert(words.deep_view() =~= shell.deep_view().push(wrapped@));
    Ok(words)
}

/// CMD and ENTRYPOINT, given what the JSON parser made of an exec-form command.
pub open spec fn command_words(
    value: Seq<char>,
    shell: Seq<Seq<char>>,
    array: Result<Seq<Seq<char>>, Seq<char>>,
) -> Result<Seq<Seq<char>>, Seq<char>> {
    if begins(value, "["@) {
        match array {
            Err(problem) => Err("Invalid exec-form command '"@ + value + "': "@ + problem),
            Ok(words) => Ok(words),
        }
    } else if shell.len() == 0 {
        Err("SHELL for command must not be empty"@)
    } else {
        Ok(shell.push(value))
    }
}

/// CMD and ENTRYPOINT in shell form.
pub fn shell_form_command(value: &str, shell: &Vec<String>) -> (result: Result<
    Vec<String>,
    String,
>)
    requires
        !begins(value@, "["@),
    ensures
        forall|array: Result<Seq<Seq<char>>, Seq<char>>|
            outcome(result) == #[trigger] command_words(value@, shell.deep_view(), array),
{
    if shell.len() == 0 {
        return Err("SHELL for command must not be empty".to_string());
    }
    let mut command = copy_texts(shell);
    command.push(value.to_string());
    assert(command.deep_view() =~= shell.deep_view().push(value@));
    Ok(command)
}

/// CMD and ENTRYPOINT in exec form, given what the JSON parser made of it.
pub fn exec_form_command(value: &str, array: Result<Vec<String>, String>) -> (result: Result<
    Vec<String>,
    String,
>)
    requires
        begins(value@, "["@),
    ensures
        outcome(result) == command_words(value@, seq![], outcome(array)),
{
    match array {
        Err(problem) => Err(
            glue(&glue3("Invalid exec-form command '", value, "': "), &problem),
        ),
        Ok(words) => Ok(words),
    }
}

/// CMD and ENTRYPOINT: a JSON array of words, or a line for the shell.
pub fn parse_exec_or_shell_command(value: &str, shell: &Vec<String>) -> (result: Result<
    Vec<String>,
    String,
>)
    ensures
        outcome(result) == command_words(value@, shell.deep_view(), json_strings(value@)),
{
    if starts_with(value, "[") {
        exec_form_command(value, parse_json_strings(value))
    } else {
        shell_form_command(value, shell)
    }
}

// ---------------------------------------------------------------------------
// The process of a RUN
// ---------------------------------------------------------------------------
/// The process that executes a RUN.
pub struct RunPlan {
    /// The program and its arguments.
    pub argv: Vec<String>,
    /// The user and group it runs as, where they are not inherited.
    pub uid_gid: Option<(u32, u32)>,
    /// Its working directory, as the host sees it.
    pub host_workdir: String,
    /// Its whole environment.
    pub environment: StringMap,
}

/// A [`RunPlan`] as a mathematical value.
#[verifier::ext_equal]
pub struct RunPlanModel {
    pub argv: Seq<Seq<char>>,
    pub uid_gid: Option<(nat, nat)>,
    pub host_workdir: Seq<char>,
    pub environment: Map<Seq<char>, Seq<char>>,
}

/// Numbers without their machine bounds.
pub open spec fn ids_model(ids: Option<(u32, u32)>) -> Option<(nat, nat)> {
    match ids {
        Some((uid, gid)) => Some((uid as nat, gid as nat)),
        None => None,
    }
}

impl DeepView for RunPlan {
    type V = RunPlanModel;

    open spec fn deep_view(&self) -> RunPlanModel {
        RunPlanModel {
            argv: self.argv.deep_view(),
            uid_gid: ids_model(self.uid_gid),
            host_workdir: self.host_workdir@,
            environment: self.environment.deep_view(),
        }
    }
}

/// What a RUN is executed in.
pub struct RunSetting {
    /// The directory of the stage's root file system.
    pub rootfs: String,
    /// The working directory inside the container.
    pub workdir: String,
    pub environment: StringMap,
    pub user: Option<String>,
    pub shell: Vec<String>,
    /// The image's user file.
    pub passwd: String,
    /// The image's group file.
    pub group: String,
}

/// The process of a RUN: first its words, then its user, then its directory may be
/// wrong.
pub open spec fn planned_run(
    setting: RunSetting,
    command: Seq<char>,
    exec_form: bool,
    array: Result<Seq<Seq<char>>, Seq<char>>,
) -> Result<RunPlanModel, Seq<char>> {
    match run_words(setting.shell.deep_view(), command, exec_form, array) {
        Err(message) => Err(message),
        Ok(argv) => match resolved_user(
            "build"@,
            setting.user.deep_view(),
            setting.passwd@,
            setting.group@,
        ) {
            Err(message) => Err(message),
            Ok(uid_gid) => match host_path(setting.rootfs@, setting.workdir@) {
                None => Err(invalid_container_path(setting.workdir@)),
                Some(host_workdir) => Ok(
                    RunPlanModel {
                        argv,
                        uid_gid,
                        host_workdir,
                        environment: with_path(setting.environment.deep_view()),
                    },
                ),
            },
        },
    }
}

/// The process of a RUN.
pub fn plan_run(setting: &RunSetting, command: &str, exec_form: bool) -> (result: Result<
    RunPlan,
    String,
>)
    ensures
        outcome(result) == planned_run(*setting, command@, exec_form, json_strings(command@)),
        result matches Ok(plan) ==> plan.argv@.len() > 0,
{
    let argv = match run_argv(&setting.shell, command, exec_form) {
        Ok(argv) => argv,
        Err(message) => {
            return Err(message);
        },
    };
    let user: Option<&str> = match &setting.user {
        Some(text) => Some(text.as_str()),
        None => None,
    };
    let uid_gid = match resolve_user("build", user, &setting.passwd, &setting.group) {
        Ok(ids) => ids,
        Err(message) => {
            return Err(message);
        },
    };
    let host_workdir = match host_path_for_container_path(&setting.rootfs, &setting.workdir) {
        Ok(path) => path,
        Err(message) => {
            return Err(message);
        },
    };
    let mut environment = setting.environment.clone();
    ensure_path(&mut environment);
    assert(argv@.len() == argv.deep_view().len());
    Ok(RunPlan { argv, uid_gid, host_workdir, environment })
}

/// The verdict on a RUN that ended: nothing where it succeeded.
pub open spec fn run_verdict(command: Seq<char>, code: Option<i32>, stderr: Seq<char>) -> Result<
    (),
    Seq<char>,
> {
    if code == Some(0i32) {
        Ok(())
    } else {
        Err(
            "RUN '"@ + command + "' failed with status "@ + match code {
                Some(value) => "Some("@ + crate::number::signed_decimal(value as int) + ")"@,
                None => "None"@,
            } + ": "@ + crate::text::trimmed(stderr),
        )
    }
}

/// The verdict on a RUN that ended, by its exit code (none where a signal ended it)
/// and what it wrote to its error stream.
pub fn check_run_status(command: &str, code: Option<i32>, stderr: &str) -> (result: Result<
    (),
    String,
>)
    ensures
        match run_verdict(command@, code, stderr@) {
            Ok(_) => result is Ok,
            Err(text) => result matches Err(message) && message@ == text,
        },
{
    let status = match code {
        Some(value) => {
            if value == 0 {
                return Ok(());
            }
            glue3("Some(", &crate::number::signed_decimal_text(value as i64), ")")
        },
        None => "None".to_string(),
    };
    let head = glue3("RUN '", command, "' failed with status ");
    Err(glue(&glue3(&head, &status, ": "), &crate::text::trim(stderr)))
}

// ---------------------------------------------------------------------------
// Privileges
// ---------------------------------------------------------------------------
/// What the machine lets a build do.
pub struct RunCapabilities {
    /// The process runs as root.
    pub effective_root: bool,
    /// Why the probe directories could not be made.
    pub setup_error: Option<String>,
    /// Why `/proc` could not be mounted.
    pub mount_error: Option<String>,
    /// Why a device node could not be made.
    pub device_error: Option<String>,
}

/// A RUN is among the instructions.
pub open spec fn has_run(instructions: Seq<InstructionModel>) -> bool {
    exists|i: int| 0 <= i < instructions.len() && #[trigger] instructions[i] is Run
}

/// Whether a RUN is among the instructions.
pub fn requires_run(instructions: &Vec<Instruction>) -> (required: bool)
    ensures
        required == has_run(instructions.deep_view()),
{
    let ghost all = instructions.deep_view();
    let mut at: usize = 0;
    while at < instructions.len()
        invariant
            at <= instructions@.len(),
            all == instructions.deep_view(),
            forall|i: int| 0 <= i < at ==> !(#[trigger] all[i] is Run),
        decreases instructions@.len() - at,
    {
        assert(all[at as int] == instructions@[at as int].deep_view());
        if let Instruction::Run { .. } = &instructions[at] {
            assert(all[at as int] is Run);
            return true;
        }
        at = at + 1;
    }
    false
}

/// The complaint about a machine that cannot execute the instructions.
pub open spec fn missing_privilege(
    instructions: Seq<InstructionModel>,
    host: RunCapabilities,
) -> Option<Seq<char>> {
    if !has_run(instructions) {
        None
    } else if !host.effective_root {
        Some(
            "Dockerfiles with RUN require elevated privileges in qbuild's current execution model. Re-run as root or use a privileged build worker."@,
        )
    } else if host.setup_error is Some {
        Some("Failed to initialize RUN privilege probe: "@ + host.setup_error->0@)
    } else if host.mount_error is Some {
        Some(
            "Dockerfiles with RUN require proc-mount capability in qbuild's current execution model: "@
                + host.mount_error->0@,
        )
    } else if host.device_error is Some {
        Some(
            "Dockerfiles with RUN require device-node creation capability in qbuild's current execution model: "@
                + host.device_error->0@,
        )
    } else {
        None
    }
}

/// Whether the machine can execute the instructions. Only RUN asks for anything.
pub fn verify_build_execution_requirements(
    instructions: &Vec<Instruction>,
    host: &RunCapabilities,
) -> (result: Result<(), String>)
    ensures
        match missing_privilege(instructions.deep_view(), *host) {
            None => result is Ok,
            Some(text) => result matches Err(message) && message@ == text,
        },
{
    if !requires_run(instructions) {
        return Ok(());
    }
    if !host.effective_root {
        return Err(
            "Dockerfiles with RUN require elevated privileges in qbuild's current execution model. Re-run as root or use a privileged build worker.".to_string(),
        );
    }
    if let Some(problem) = &host.setup_error {
        return Err(glue("Failed to initialize RUN privilege probe: ", problem));
    }
    if let Some(problem) = &host.mount_error {
        return Err(
            glue(
                "Dockerfiles with RUN require proc-mount capability in qbuild's current execution model: ",
                problem,
            ),
        );
    }
    if let Some(problem) = &host.device_error {
        return Err(
            glue(
                "Dockerfiles with RUN require device-node creation capability in qbuild's current execution model: ",
                problem,
            ),
        );
    }
    Ok(())
}

/// A Dockerfile without RUN builds with no privileges at all.
pub proof fn copies_need_no_privileges(
    instructions: Seq<InstructionModel>,
    host: RunCapabilities,
)
    requires
        forall|i: int| 0 <= i < instructions.len() ==> !(#[trigger] instructions[i] is Run),
    ensures
        missing_privilege(instructions, host) is None,
{
}

// ---------------------------------------------------------------------------
// Laws of commands
// ---------------------------------------------------------------------------
/// A RUN in shell form runs the shell's words with the command as the last one; one in
/// exec form runs the words of its array. It is refused exactly where there is no shell, or
/// where the array is none or empty.
pub proof fn commands_are_run_as_written(
    shell: Seq<Seq<char>>,
    command: Seq<char>,
    array: Result<Seq<Seq<char>>, Seq<char>>,
)
    ensures
        run_words(shell, command, false, array) is Ok <==> shell.len() > 0,
        run_words(shell, command, false, array) matches Ok(words) ==> {
            &&& words.len() == shell.len() + 1
            &&& words.take(shell.len() as int) == shell
            &&& !occurs(command, "apt-get update"@) && !occurs(command, "apt update"@)
                ==> words.last() == command
        },
        run_words(shell, command, true, array) is Ok <==> array is Ok && array->Ok_0.len() > 0,
        run_words(shell, command, true, array) matches Ok(words) ==> array == Ok::<
            Seq<Seq<char>>,
            Seq<char>,
        >(words),
{
    if let Ok(words) = run_words(shell, command, false, array) {
        assert(words.take(shell.len() as int) =~= shell);
    }
}

/// A command that updates a package index is tried again: it stands in a loop that ends
/// with its first success or its fifth failure.
pub proof fn package_updates_are_tried_again(command: Seq<char>)
    ensures
        occurs(command, "apt-get update"@) || occurs(command, "apt update"@) ==> begins(
            shell_command(command),
            "attempt=1; while true; do "@ + command + "; status=$?; "@,
        ) && ends(
            shell_command(command),
            "if [ $attempt -ge 5 ]; then exit $status; fi; sleep 5; attempt=$((attempt+1)); done"@,
        ),
        !occurs(command, "apt-get update"@) && !occurs(command, "apt update"@) ==> shell_command(
            command,
        ) == command,
{
    if occurs(command, "apt-get update"@) || occurs(command, "apt update"@) {
        reveal_strlit("attempt=1; while true; do ");
        reveal_strlit("; status=$?; ");
        reveal_strlit(
            "if [ $attempt -ge 5 ]; then exit $status; fi; sleep 5; attempt=$((attempt+1)); done",
        );
        reveal_strlit(
            "; status=$?; if [ $status -eq 0 ]; then break; fi; if [ $attempt -ge 5 ]; then exit $status; fi; sleep 5; attempt=$((attempt+1)); done",
        );
        let whole = shell_command(command);
        let front = "attempt=1; while true; do "@ + command + "; status=$?; "@;
        let back =
            "if [ $attempt -ge 5 ]; then exit $status; fi; sleep 5; attempt=$((attempt+1)); done"@;
        assert(whole.take(front.len() as int) =~= front);
        assert(whole.skip(whole.len() - back.len()) =~= back);
    }
}

/// The process of a RUN runs its words, as the user of the stage, in the stage's directory
/// below the root, and in the stage's environment with a search path.
pub proof fn runs_are_as_the_stage_says(
    setting: RunSetting,
    command: Seq<char>,
    exec_form: bool,
    array: Result<Seq<Seq<char>>, Seq<char>>,
    key: Seq<char>,
)
    ensures
        planned_run(setting, command, exec_form, array) matches Ok(plan) ==> {
            let env = setting.environment.deep_view();
            &&& run_words(setting.shell.deep_view(), command, exec_form, array) == Ok::<
                Seq<Seq<char>>,
                Seq<char>,
            >(plan.argv)
            &&& names(plan.host_workdir) == names(setting.rootfs@) + names(setting.workdir@)
            &&& plan.environment.contains_key(key) <==> env.contains_key(key) || key == "PATH"@
            &&& env.contains_key(key) ==> plan.environment[key] == env[key]
            &&& setting.user is None ==> plan.uid_gid is None
            &&& resolved_user(
                "build"@,
                setting.user.deep_view(),
                setting.passwd@,
                setting.group@,
            ) == Ok::<Option<(nat, nat)>, Seq<char>>(plan.uid_gid)
        },
{
    crate::path::places_have_the_names_of_their_paths(setting.rootfs@, setting.workdir@);
}

/// Only an exit code of zero is a success; what is said of any other names the command and
/// ends with what it wrote, without the white space around it.
pub proof fn only_zero_is_a_success(command: Seq<char>, code: Option<i32>, stderr: Seq<char>)
    ensures
        run_verdict(command, code, stderr) is Ok <==> code == Some(0i32),
        run_verdict(command, code, stderr) matches Err(message) ==> begins(
            message,
            "RUN '"@ + command + "' failed with status "@,
        ) && ends(message, crate::text::trimmed(stderr)),
{
    if let Err(message) = run_verdict(command, code, stderr) {
        let front = "RUN '"@ + command + "' failed with status "@;
        let back = crate::text::trimmed(stderr);
        assert(message.take(front.len() as int) =~= front);
        assert(message.skip(message.len() - back.len()) =~= back);
    }
}

/// A Dockerfile with a RUN is built only as root and where the probes had no complaint.
pub proof fn runs_need_privileges(instructions: Seq<InstructionModel>, host: RunCapabilities, i: int)
    requires
        0 <= i < instructions.len(),
        instructions[i] is Run,
    ensures
        missing_privilege(instructions, host) is None <==> host.effective_root
            && host.setup_error is None && host.mount_error is None && host.device_error is None,
{
    assert(has_run(instructions));
}

} // verus!
