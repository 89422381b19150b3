use qbuild::build::service::build_result;
use qbuild::cli::{
    BuildCommand, Commands, CreateCommand, GuestdCommand, InspectCommand, InternalExecCommand,
    ListCommand, LogsCommand, PsCommand, PullCommand, PushCommand, RemoveCommand, RunCommand,
    StartCommand, StopCommand,
};
use qbuild::containers::{ContainerStore, CreateContainerRequest};
use qbuild::error::AppError;
use qbuild::gpu::GpuRuntimeSpec;
use qbuild::guestd::{listen_target, reply_frame, ListenTarget};
use qbuild::image::reference::ImageReference;
use qbuild::image::{
    Descriptor, MediaType, OciContainerConfig, OciImage, OciImageConfig, OciManifest, RootFs,
};
use qbuild::platform::macos_host::{
    find_repo_root, guest_step, not_ready, ping_guest, resolve_supervisor_bin, supervisor_paths,
    supervisor_unavailable, take_frame, FrameStep, GuestStep, MacosInstall, RepoCandidate,
    SupervisorFiles, SupervisorStep, READY_LIMIT_MS,
};
use qbuild::platform::render::{
    command_to_request, event_text, render_response, response_name, Rendering,
};
use qbuild::protocol::{
    BindMountSpec, BuildOutput, CommandRequest, ContainerState, ContainerSummaryOutput,
    CreateOutput, GuestEvent, GuestFrame, GuestResponse, ImageReferenceOutput, InspectOutput,
    ListOutput, LogsOutput, NamespaceConfig, PsOutput, PullOutput, PushOutput, RemoveOutput,
    RunOutput, StartOutput, StopOutput,
};
use qbuild::raw_name::bytes_of_name;
use qbuild::registry::client::{PullEvent, RegistryClient};
use qbuild::services::{
    apply_registry_auth, build_limits, build_output, build_status, create_request, data_root_in,
    default_data_root, default_store_dir, default_work_dir, format_pull_event, format_push_event,
    home_named, inspect_output, list_output, memory_fits, parse_key_values, parse_mount, parse_mounts,
    parse_signal, ps_output, pull_output, push_output, require_local, run_request, store_dir_in,
    work_dir_in, PushEvent, StopSignal,
};
use qbuild::text_map::StringMap;

fn words(values: &[&str]) -> Vec<String> {
    values.iter().map(|value| value.to_string()).collect()
}

fn no_gpu() -> GpuRuntimeSpec {
    GpuRuntimeSpec { mounts: Vec::new(), env: StringMap::new() }
}

fn run_command() -> RunCommand {
    RunCommand {
        reference: "alpine".to_string(),
        store_dir: None,
        env: words(&["A=1"]),
        workdir: Some("/w".to_string()),
        memory_mb: Some(2),
        cpu_quota: None,
        pids_limit: None,
        clear_image_env: true,
        no_mount_namespace: false,
        uts_namespace: true,
        mounts: words(&["/a:/b:ro"]),
        gpu_count: 0,
        gpu_id: Vec::new(),
        name: None,
        ipc_namespace: false,
        network_namespace: true,
        command: words(&["x"]),
    }
}

fn create_command() -> CreateCommand {
    CreateCommand {
        reference: "alpine".to_string(),
        store_dir: None,
        data_root: None,
        env: words(&["A=1"]),
        workdir: None,
        memory_mb: None,
        cpu_quota: None,
        pids_limit: None,
        clear_image_env: false,
        no_mount_namespace: true,
        uts_namespace: false,
        mounts: Vec::new(),
        gpu_count: 0,
        gpu_id: Vec::new(),
        name: None,
        ipc_namespace: true,
        network_namespace: false,
        command: Vec::new(),
    }
}

fn build_command(json: bool, store_dir: Option<&str>) -> BuildCommand {
    BuildCommand {
        context: ".".to_string(),
        dockerfile: "Dockerfile".to_string(),
        image: "app".to_string(),
        build_arg: Vec::new(),
        target: None,
        store_dir: store_dir.map(str::to_string),
        work_dir: None,
        json,
    }
}

fn pull_command(json: bool, store_dir: Option<&str>) -> PullCommand {
    PullCommand {
        reference: "r".to_string(),
        store_dir: store_dir.map(str::to_string),
        username: None,
        password: None,
        force: false,
        json,
    }
}

fn push_command(json: bool) -> PushCommand {
    PushCommand {
        reference: "r".to_string(),
        store_dir: None,
        username: None,
        password: None,
        json,
    }
}

fn start_command() -> StartCommand {
    StartCommand { id: "c".to_string(), store_dir: None, data_root: None }
}

fn stop_command() -> StopCommand {
    StopCommand { id: "c".to_string(), store_dir: None, data_root: None, signal: "term".to_string() }
}

fn remove_command() -> RemoveCommand {
    RemoveCommand { id: "c".to_string(), store_dir: None, data_root: None }
}

fn ps_command(json: bool) -> PsCommand {
    PsCommand { store_dir: None, data_root: None, json }
}

fn logs_command() -> LogsCommand {
    LogsCommand { id: "c".to_string(), data_root: None, store_dir: None, stderr: false }
}

fn inspect_command(json: bool) -> InspectCommand {
    InspectCommand { reference: "r".to_string(), store_dir: None, json }
}

fn list_command(json: bool) -> ListCommand {
    ListCommand { store_dir: None, json }
}

fn image() -> OciImage {
    let mut config = OciContainerConfig::default();
    config.env = Some(words(&["A=1"]));
    config.cmd = Some(words(&["serve"]));
    config.user = Some("web".to_string());
    OciImage {
        reference: ImageReference::parse("alpine").unwrap(),
        manifest: OciManifest {
            schema_version: 2,
            media_type: None,
            config: Descriptor::plain(MediaType::OciImageConfig, "c".to_string(), 1),
            layers: vec![Descriptor::plain(MediaType::OciLayerGzip, "l".to_string(), 4)],
            annotations: None,
        },
        config: OciImageConfig {
            architecture: "arm64".to_string(),
            os: "linux".to_string(),
            os_version: None,
            config: Some(config),
            rootfs: RootFs { fs_type: "layers".to_string(), diff_ids: Vec::new() },
            history: None,
            created: None,
            author: None,
        },
        digest: "m".to_string(),
        size: 9,
    }
}

fn text(rendering: Result<Rendering, String>) -> String {
    match rendering {
        Ok(Rendering::Text(text)) => text,
        other => format!("{:?}", other),
    }
}

#[test]
fn key_values_are_parsed() {
    let parsed = parse_key_values(&words(&["A=1", "B=", "A=2=3"]), "env override").unwrap();
    assert_eq!(parsed.len(), 2);
    assert_eq!(parsed.get("A").map(String::as_str), Some("2=3"));
    assert_eq!(parsed.get("B").map(String::as_str), Some(""));
    assert_eq!(
        parse_key_values(&words(&["A=1", "B"]), "build arg").err().unwrap(),
        "Invalid build arg 'B', expected KEY=VALUE"
    );
}

#[test]
fn mount_flags_are_parsed() {
    let plain = parse_mount("/host:/inside").unwrap();
    assert_eq!((plain.source.as_str(), plain.target.as_str(), plain.readonly), ("/host", "/inside", false));
    assert!(parse_mount("/host:/inside:ro").unwrap().readonly);
    assert!(!parse_mount("/host:/inside:rw").unwrap().readonly);
    assert!(parse_mount("/host").is_err());
    assert!(parse_mount("/host:/inside:odd").is_err());
    assert_eq!(parse_mounts(&words(&["/a:/b", "/c:/d:ro"])).unwrap().len(), 2);
    assert!(parse_mounts(&words(&["/a:/b", "/c"])).is_err());
}

#[test]
fn limits_are_built() {
    assert!(build_limits(None, None, None).is_none());
    let limits = build_limits(Some(3), Some(50_000), None).unwrap();
    assert_eq!(limits.memory_limit_bytes, Some(3 * 1024 * 1024));
    assert_eq!(limits.cpu_quota, Some(50_000));
    assert_eq!(limits.cpu_period, Some(100_000));
    assert_eq!(limits.pids_limit, None);
    let pids = build_limits(None, None, Some(4)).unwrap();
    assert_eq!((pids.pids_limit, pids.cpu_period), (Some(4), None));
    assert!(memory_fits(None));
    assert!(memory_fits(Some(u64::MAX / 1024 / 1024)));
    assert!(!memory_fits(Some(u64::MAX / 1024 / 1024 + 1)));
}

#[test]
fn signals_are_parsed() {
    assert_eq!(parse_signal("TERM").unwrap(), StopSignal::Term);
    assert_eq!(parse_signal("sigkill").unwrap(), StopSignal::Kill);
    assert_eq!(parse_signal("Int").unwrap(), StopSignal::Int);
    assert_eq!(
        parse_signal("HUP").unwrap_err(),
        "Unsupported signal 'hup', expected term|kill|int"
    );
}

#[test]
fn credentials_come_in_pairs() {
    let mut client = RegistryClient::new("1", &Vec::new());
    assert!(apply_registry_auth(&mut client, "r", None, None).is_ok());
    assert!(client.auth().credentials("r").is_none());
    assert_eq!(
        apply_registry_auth(&mut client, "r", Some("u"), None).unwrap_err(),
        "Both --username and --password are required together"
    );
    assert!(apply_registry_auth(&mut client, "r", None, Some("p")).is_err());
    assert!(apply_registry_auth(&mut client, "r", Some("u"), Some("p")).is_ok());
    assert_eq!(client.auth().credentials("r").unwrap().username, "u");
}

#[test]
fn events_are_put_into_words() {
    let digest = "d".to_string();
    assert_eq!(format_pull_event(&PullEvent::Started { reference: "r".to_string() }), "pulling r");
    assert_eq!(format_pull_event(&PullEvent::ResolvingManifest), "resolving manifest");
    assert_eq!(
        format_pull_event(&PullEvent::ManifestResolved { digest: digest.clone(), layers: 2 }),
        "manifest d with 2 layers"
    );
    assert_eq!(
        format_pull_event(&PullEvent::DownloadingLayer { digest: digest.clone(), current: 1, total: 2 }),
        "layer 1/2 d"
    );
    assert_eq!(
        format_pull_event(&PullEvent::LayerDownloaded { digest: digest.clone(), size: 5, cached: true }),
        "downloaded d (5 bytes, cached)"
    );
    assert_eq!(
        format_pull_event(&PullEvent::LayerDownloaded { digest: digest.clone(), size: 5, cached: false }),
        "downloaded d (5 bytes)"
    );
    assert_eq!(
        format_pull_event(&PullEvent::Complete { digest: digest.clone(), size: 7 }),
        "complete d (7 bytes)"
    );
    assert_eq!(
        format_pull_event(&PullEvent::Error { message: "m".to_string() }),
        "pull error: m"
    );
    assert_eq!(format_push_event(&PushEvent::Started { reference: "r".to_string() }), "pushing r");
    assert_eq!(
        format_push_event(&PushEvent::UploadingBlob { digest: digest.clone(), size: 3 }),
        "uploading d (3 bytes)"
    );
    assert_eq!(
        format_push_event(&PushEvent::BlobMounted { digest: digest.clone() }),
        "blob already present d"
    );
    assert_eq!(
        format_push_event(&PushEvent::BlobUploaded { digest: digest.clone(), size: 3 }),
        "uploaded d (3 bytes)"
    );
    assert_eq!(
        format_push_event(&PushEvent::ManifestUploaded { digest: digest.clone() }),
        "uploaded manifest d"
    );
    assert_eq!(
        format_push_event(&PushEvent::Complete { reference: "r".to_string(), digest }),
        "push complete r (d)"
    );
    assert_eq!(build_status("i", "c"), "building i from c");
    assert_eq!(event_text(&GuestEvent::Status("s".to_string())), "s");
}

#[test]
fn run_requests_are_assembled() {
    let mut gpu = no_gpu();
    gpu.mounts.push(BindMountSpec {
        source: "/dev/x".to_string(),
        target: "/dev/x".to_string(),
        readonly: false,
    });
    gpu.env.insert("A".to_string(), "gpu".to_string());
    let request = run_request(run_command(), "/images".to_string(), gpu).unwrap();
    assert_eq!(request.store_dir, "/images");
    assert_eq!(request.environment.get("A").map(String::as_str), Some("gpu"));
    assert_eq!(request.mounts.len(), 2);
    assert_eq!(request.mounts[0].target, "/b");
    assert!(request.mounts[0].readonly);
    let config = request.namespace_config;
    assert!(config.mount && config.uts && !config.ipc && config.network);
    assert_eq!(request.resource_limits.unwrap().memory_limit_bytes, Some(2097152));
    assert!(request.clear_image_env);
    assert!(request.container_id.is_none());
    let mut wrong = run_command();
    wrong.env = words(&["A"]);
    assert_eq!(
        run_request(wrong, "/i".to_string(), no_gpu()).err().unwrap(),
        "Invalid env override 'A', expected KEY=VALUE"
    );
}

#[test]
fn create_requests_are_assembled() {
    let request = create_request(create_command(), no_gpu()).unwrap();
    assert_eq!(request.image_reference, "alpine");
    assert_eq!(request.environment.get("A").map(String::as_str), Some("1"));
    let config = request.namespace_config;
    assert!(!config.mount && !config.uts && config.ipc && !config.network);
    assert!(request.resource_limits.is_none());
}

#[test]
fn outputs_are_assembled() {
    let built = build_output(build_result("r".to_string(), &b"{}".to_vec(), "c".to_string(), 4));
    assert_eq!((built.config_digest.as_str(), built.size_bytes), ("c", 4));
    let pulled = pull_output(&image());
    assert_eq!(pulled.reference, "docker.io/library/alpine:latest");
    assert_eq!((pulled.manifest_digest.as_str(), pulled.layers, pulled.size_bytes), ("m", 1, 9));
    let reference = ImageReference::parse("ghcr.io/a/b:c").unwrap();
    let pushed = push_output(&reference, "m".to_string());
    assert_eq!((pushed.registry.as_str(), pushed.repository.as_str()), ("ghcr.io", "a/b"));
    assert_eq!(require_local(&reference, Some("m".to_string())).unwrap(), "m");
    assert_eq!(
        require_local(&reference, None).unwrap_err(),
        "Reference 'ghcr.io/a/b:c' not found locally"
    );
    let shown = inspect_output(&image(), "m".to_string());
    assert_eq!(shown.env, words(&["A=1"]));
    assert_eq!(shown.cmd, words(&["serve"]));
    assert!(shown.entrypoint.is_empty());
    assert_eq!(shown.user.as_deref(), Some("web"));
    assert_eq!(shown.architecture, "arm64");
    let listed = list_output(&vec![("r".to_string(), "d".to_string())]);
    assert_eq!(listed.images[0].manifest_digest, "d");
    let store = ContainerStore::new("/d", "/i");
    let record = store.create_at(
        CreateContainerRequest {
            image_reference: "alpine".to_string(),
            command: Vec::new(),
            environment: StringMap::new(),
            working_directory: None,
            namespace_config: NamespaceConfig::default(),
            resource_limits: None,
            clear_image_env: false,
            mounts: Vec::new(),
        },
        "1",
        5,
    );
    let ps = ps_output(&store.list(&vec![record]));
    assert_eq!((ps.containers[0].id.as_str(), ps.containers[0].created_at), ("ctr-1", 5));
}

#[test]
fn data_lives_in_the_home_directory() {
    assert_eq!(data_root_in(Some("/home/me".to_string())), "/home/me/.qbuild");
    assert_eq!(data_root_in(None), "./.qbuild");
    let root = default_data_root();
    assert!(root.ends_with("/.qbuild"));
    assert_eq!(default_store_dir(), format!("{}/images", root));
    assert_eq!(default_work_dir(), format!("{}/builds", root));
}

#[test]
fn commands_become_requests() {
    assert!(matches!(
        command_to_request(Commands::Build(build_command(false, None))),
        Ok(CommandRequest::Build(_))
    ));
    assert!(matches!(
        command_to_request(Commands::Rm(remove_command())),
        Ok(CommandRequest::Rm(cmd)) if cmd.id == "c"
    ));
    assert!(matches!(
        CommandRequest::from_command(Commands::Stop(stop_command())),
        Ok(CommandRequest::Stop(cmd)) if cmd.signal == "term"
    ));
    let guestd = GuestdCommand { listen: "l".to_string(), listen_unix: None };
    assert_eq!(
        command_to_request(Commands::Guestd(guestd)).err().unwrap(),
        "command is not part of the guest RPC surface"
    );
    let exec = InternalExecCommand {
        data_root: "/d".to_string(),
        store_dir: "/s".to_string(),
        container_id: "c".to_string(),
    };
    assert!(CommandRequest::from_command(Commands::InternalExec(exec)).is_err());
}

#[test]
fn answers_are_rendered() {
    assert_eq!(text(render_response(&CommandRequest::Ping, &GuestResponse::Pong)), "pong\n");
    let built = || {
        GuestResponse::Build(BuildOutput {
            image_reference: "i".to_string(),
            manifest_digest: "m".to_string(),
            config_digest: "c".to_string(),
            size_bytes: 3,
        })
    };
    assert_eq!(
        text(render_response(&CommandRequest::Build(build_command(false, Some("/s"))), &built())),
        "Built i\nManifest: m\nConfig: c\nStore: /s\nSize: 3 bytes\n"
    );
    assert_eq!(
        text(render_response(&CommandRequest::Build(build_command(false, None)), &built())),
        "Built i\nManifest: m\nConfig: c\nSize: 3 bytes\n"
    );
    assert!(matches!(
        render_response(&CommandRequest::Build(build_command(true, None)), &built()),
        Ok(Rendering::Json)
    ));
    let pulled = GuestResponse::Pull(PullOutput {
        reference: "r".to_string(),
        manifest_digest: "m".to_string(),
        config_digest: "c".to_string(),
        size_bytes: 3,
        layers: 2,
    });
    assert_eq!(
        text(render_response(&CommandRequest::Pull(pull_command(false, Some("/s"))), &pulled)),
        "Pulled r\nManifest: m\nConfig: c\nLayers: 2\nStore: /s\n"
    );
    let pushed = GuestResponse::Push(PushOutput {
        reference: "r".to_string(),
        manifest_digest: "m".to_string(),
        registry: "g".to_string(),
        repository: "p".to_string(),
    });
    assert_eq!(
        text(render_response(&CommandRequest::Push(push_command(false)), &pushed)),
        "Pushed r\nManifest: m\n"
    );
}

#[test]
fn container_answers_are_rendered() {
    assert!(matches!(
        render_response(
            &CommandRequest::Run(run_command()),
            &GuestResponse::Run(RunOutput { exit_code: 3 })
        ),
        Ok(Rendering::Exit(3))
    ));
    assert_eq!(
        text(render_response(
            &CommandRequest::Run(run_command()),
            &GuestResponse::Run(RunOutput { exit_code: 0 })
        )),
        ""
    );
    let id = "c".to_string();
    assert_eq!(
        text(render_response(
            &CommandRequest::Create(create_command()),
            &GuestResponse::Create(CreateOutput { id: id.clone() })
        )),
        "c\n"
    );
    assert_eq!(
        text(render_response(
            &CommandRequest::Start(start_command()),
            &GuestResponse::Start(StartOutput { id: id.clone(), pid: 7 })
        )),
        "c 7\n"
    );
    assert_eq!(
        text(render_response(
            &CommandRequest::Stop(stop_command()),
            &GuestResponse::Stop(StopOutput { id: id.clone() })
        )),
        "c\n"
    );
    assert_eq!(
        text(render_response(
            &CommandRequest::Rm(remove_command()),
            &GuestResponse::Removed(RemoveOutput { id: id.clone() })
        )),
        ""
    );
    let item = |id: &str, pid: Option<u32>| ContainerSummaryOutput {
        id: id.to_string(),
        image_reference: "i".to_string(),
        state: ContainerState::Running,
        pid,
        exit_code: None,
        created_at: 1,
        started_at: None,
        finished_at: None,
    };
    let ps = GuestResponse::Ps(PsOutput { containers: vec![item("a", Some(4)), item("b", None)] });
    assert_eq!(
        text(render_response(&CommandRequest::Ps(ps_command(false)), &ps)),
        "a\ti\tRunning\t4\nb\ti\tRunning\t\n"
    );
    assert!(matches!(
        render_response(&CommandRequest::Ps(ps_command(true)), &ps),
        Ok(Rendering::Json)
    ));
    assert_eq!(
        text(render_response(
            &CommandRequest::Logs(logs_command()),
            &GuestResponse::Logs(LogsOutput { contents: "no newline".to_string() })
        )),
        "no newline"
    );
}

#[test]
fn image_answers_are_rendered() {
    let shown = GuestResponse::Inspect(InspectOutput {
        reference: "r".to_string(),
        manifest_digest: "m".to_string(),
        config_digest: "c".to_string(),
        architecture: "arm64".to_string(),
        os: "linux".to_string(),
        size_bytes: 5,
        layers: 2,
        env: Vec::new(),
        cmd: Vec::new(),
        entrypoint: Vec::new(),
        working_dir: None,
        user: None,
    });
    assert_eq!(
        text(render_response(&CommandRequest::Inspect(inspect_command(false)), &shown)),
        "Reference: r\nManifest: m\nConfig: c\nPlatform: linux/arm64\nLayers: 2\nSize: 5 bytes\n"
    );
    let none = GuestResponse::List(ListOutput { images: Vec::new() });
    assert_eq!(
        text(render_response(&CommandRequest::List(list_command(false)), &none)),
        "No local images\n"
    );
    assert!(matches!(
        render_response(&CommandRequest::List(list_command(true)), &none),
        Ok(Rendering::Json)
    ));
    let some = GuestResponse::List(ListOutput {
        images: vec![ImageReferenceOutput {
            reference: "r".to_string(),
            manifest_digest: "d".to_string(),
        }],
    });
    assert_eq!(
        text(render_response(&CommandRequest::List(list_command(false)), &some)),
        "r\td\n"
    );
    assert_eq!(
        render_response(&CommandRequest::Ping, &some).err().unwrap(),
        "guest returned an unexpected response for request: \"list\""
    );
    assert_eq!(response_name(&GuestResponse::Pong), "pong");
    assert_eq!(
        response_name(&GuestResponse::Removed(RemoveOutput { id: "c".to_string() })),
        "rm"
    );
}

#[test]
fn daemons_listen_and_answer() {
    let tcp = GuestdCommand { listen: "127.0.0.1:42141".to_string(), listen_unix: None };
    assert!(matches!(listen_target(&tcp), ListenTarget::Tcp(at) if at == "127.0.0.1:42141"));
    let unix = GuestdCommand { listen: "x".to_string(), listen_unix: Some("/s".to_string()) };
    assert!(matches!(listen_target(&unix), ListenTarget::Unix(at) if at == "/s"));
    let frame = reply_frame(Ok(GuestResponse::Pong));
    assert!(matches!(take_frame(frame), FrameStep::Done(GuestResponse::Pong)));
    let frame = reply_frame(Err(AppError::Message("m".to_string())));
    assert!(matches!(take_frame(frame), FrameStep::Fail(message) if message == "m"));
    let event = GuestFrame::Event(GuestEvent::Status("s".to_string()));
    assert!(matches!(take_frame(event), FrameStep::Tell(GuestEvent::Status(text)) if text == "s"));
}

#[test]
fn guests_are_pinged() {
    let failed = |message: &str| Some(Err(AppError::Message(message.to_string())));
    assert!(!ping_guest(None).unwrap());
    assert!(ping_guest(Some(Ok(GuestResponse::Pong))).unwrap());
    assert!(!ping_guest(failed("failed to connect to x")).unwrap());
    assert!(!ping_guest(failed("guest daemon closed the connection early")).unwrap());
    assert!(ping_guest(failed("other")).is_err());
    assert!(!ping_guest(Some(Err(AppError::Io { not_found: true, message: String::new() }))).unwrap());
    assert!(ping_guest(Some(Err(AppError::Io { not_found: false, message: String::new() }))).is_err());
    let other = Some(Ok(GuestResponse::Stop(StopOutput { id: "c".to_string() })));
    assert!(matches!(
        ping_guest(other),
        Err(AppError::Message(message))
            if message == "guest daemon health check returned an unexpected response"
    ));
    assert_eq!(
        not_ready("/s"),
        "qbuild macOS supervisor did not become ready. Expected guest socket at /s"
    );
}

#[test]
fn supervisors_are_found_or_built() {
    let files = |release, source_binary, manifest, builder, built| SupervisorFiles {
        release,
        source_binary,
        manifest,
        builder,
        built,
    };
    assert_eq!(
        resolve_supervisor_bin(true, &files(true, true, true, true, None)),
        SupervisorStep::Release
    );
    assert_eq!(
        resolve_supervisor_bin(true, &files(false, true, true, true, None)),
        SupervisorStep::Source
    );
    assert_eq!(
        resolve_supervisor_bin(true, &files(false, false, true, true, None)),
        SupervisorStep::RunBuilder
    );
    assert_eq!(
        resolve_supervisor_bin(true, &files(false, false, true, false, None)),
        SupervisorStep::RunSwift
    );
    assert_eq!(
        resolve_supervisor_bin(true, &files(false, false, true, true, Some(false))),
        SupervisorStep::Unavailable
    );
    assert_eq!(
        resolve_supervisor_bin(true, &files(false, false, false, true, None)),
        SupervisorStep::Unavailable
    );
    assert_eq!(
        resolve_supervisor_bin(false, &files(false, true, true, true, None)),
        SupervisorStep::Unavailable
    );
    assert!(supervisor_unavailable().starts_with("qbuild macOS supervisor binary is unavailable."));
}

#[test]
fn installations_are_resolved() {
    let candidate = |path: &str, guide, manifest| RepoCandidate {
        path: path.to_string(),
        has_guide: guide,
        has_manifest: manifest,
    };
    let root = find_repo_root(&vec![
        candidate("/r/target/release", false, false),
        candidate("/r/target", true, false),
        candidate("/r", true, true),
        candidate("/", true, true),
    ]);
    assert_eq!(root.as_deref(), Some("/r"));
    assert_eq!(find_repo_root(&vec![candidate("/", false, true)]), None);
    let paths = supervisor_paths("/bin", Some("/r"));
    assert_eq!(paths.release, "/bin/qbuild-macos-supervisor");
    let source = paths.source.unwrap();
    assert_eq!(
        source.binary,
        "/r/tools/macos-supervisor/.build/release/qbuild-macos-supervisor"
    );
    assert_eq!(source.manifest, "/r/tools/macos-supervisor/Package.swift");
    assert_eq!(source.builder, "/r/tools/macos-supervisor/build.sh");
    assert!(supervisor_paths("/bin", None).source.is_none());
    let install = MacosInstall::resolve("/data", "/bin", Some("/r"), "/sup".to_string());
    assert_eq!(install.socket_path, "/data/macos/guestd.sock");
    assert_eq!(install.kernel, "/r/packaging/macos-guest/vmlinux");
    let packaged = MacosInstall::resolve("/data", "/bin", None, "/sup".to_string());
    assert_eq!(packaged.init_block, "/bin/../share/qbuild/macos-guest/init.block");
    assert_eq!(
        install.supervisor_arguments("/Users/me"),
        words(&[
            "daemon",
            "--state-dir",
            "/data/macos",
            "--guest-socket-host",
            "/data/macos/guestd.sock",
            "--guest-rootfs",
            "/r/packaging/macos-guest/guest-rootfs.ext4",
            "--init-block",
            "/r/packaging/macos-guest/init.block",
            "--kernel",
            "/r/packaging/macos-guest/vmlinux",
            "--home-share",
            "/Users/me",
        ])
    );
}

#[test]
fn directories_follow_the_home() {
    let home = || Some("/home/me".to_string());
    assert_eq!(data_root_in(home()), "/home/me/.qbuild");
    assert_eq!(store_dir_in(home()), "/home/me/.qbuild/images");
    assert_eq!(work_dir_in(home()), "/home/me/.qbuild/builds");
    assert_eq!(store_dir_in(None), "./.qbuild/images");
    assert_eq!(home_named(Some(b"/home/me".to_vec())), home());
    assert_eq!(home_named(None), None);
    let raw = vec![b'/', 0xff, b'x'];
    let name = home_named(Some(raw.clone())).unwrap();
    assert_eq!(bytes_of_name(&name), raw);
    assert_eq!(work_dir_in(None), "./.qbuild/builds");
}

#[test]
fn guests_are_started_or_reused() {
    assert!(matches!(guest_step(false, 0, true, "/s"), GuestStep::Use));
    assert!(matches!(guest_step(true, READY_LIMIT_MS, true, "/s"), GuestStep::Use));
    assert!(matches!(guest_step(false, 0, false, "/s"), GuestStep::Start));
    assert!(matches!(guest_step(true, READY_LIMIT_MS - 1, false, "/s"), GuestStep::Wait));
    assert!(matches!(
        guest_step(true, READY_LIMIT_MS, false, "/s"),
        GuestStep::Fail(message) if message == not_ready("/s")
    ));
}
