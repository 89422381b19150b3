use nix::sched::CloneFlags;
use qbuild::containers::{
    settle_at, stop_step, ContainerRecord, ContainerStore, CreateContainerRequest, ExecStatusFile,
    RecordRead, StopStep,
};
use qbuild::image::reference::ImageReference;
use qbuild::image::{
    Descriptor, MediaType, OciContainerConfig, OciImage, OciImageConfig, OciManifest, RootFs,
};
use qbuild::protocol::{BindMountSpec, ContainerState, NamespaceConfig, ResourceLimits};
use qbuild::runtime::{
    build_clone_flags, ensure_runtime_prerequisites, normalize_container_mount_target,
    plan_bind_mount, resolve_runtime_command, resolve_runtime_env, runtime_status_id, shell_paths,
    CgroupManager, MountSource, RunRequest, RunResult, RunService,
};
use qbuild::text_map::StringMap;

fn words(values: &[&str]) -> Vec<String> {
    values.iter().map(|value| value.to_string()).collect()
}

fn map(pairs: &[(&str, &str)]) -> StringMap {
    let mut map = StringMap::new();
    for (key, value) in pairs {
        map.insert(key.to_string(), value.to_string());
    }
    map
}

fn bind(source: &str, target: &str, readonly: bool) -> BindMountSpec {
    BindMountSpec { source: source.to_string(), target: target.to_string(), readonly }
}

fn image(config: Option<OciContainerConfig>) -> OciImage {
    OciImage {
        reference: ImageReference::parse("alpine").unwrap(),
        manifest: OciManifest {
            schema_version: 2,
            media_type: None,
            config: Descriptor::plain(MediaType::OciImageConfig, "c".to_string(), 1),
            layers: Vec::new(),
            annotations: None,
        },
        config: OciImageConfig {
            architecture: "amd64".to_string(),
            os: "linux".to_string(),
            os_version: None,
            config,
            rootfs: RootFs { fs_type: "layers".to_string(), diff_ids: Vec::new() },
            history: None,
            created: None,
            author: None,
        },
        digest: "m".to_string(),
        size: 1,
    }
}

fn full_config() -> OciContainerConfig {
    let mut config = OciContainerConfig::default();
    config.entrypoint = Some(words(&["tool"]));
    config.cmd = Some(words(&["serve"]));
    config.env = Some(words(&["A=1", "B=2", "noise"]));
    config.working_dir = Some("/srv".to_string());
    config.user = Some("web".to_string());
    config
}

fn run_request() -> RunRequest {
    RunRequest {
        image_reference: "alpine".to_string(),
        command: Vec::new(),
        environment: map(&[("B", "own")]),
        working_directory: None,
        store_dir: "/images".to_string(),
        namespace_config: NamespaceConfig::default(),
        resource_limits: None,
        clear_image_env: false,
        mounts: Vec::new(),
        container_id: None,
        status_file: None,
        started_at: None,
    }
}

fn create_request() -> CreateContainerRequest {
    CreateContainerRequest {
        image_reference: "alpine".to_string(),
        command: words(&["sleep", "1"]),
        environment: map(&[("A", "1")]),
        working_directory: Some("/w".to_string()),
        namespace_config: NamespaceConfig::default(),
        resource_limits: None,
        clear_image_env: true,
        mounts: vec![bind("/a", "/b", true)],
    }
}

fn store() -> ContainerStore {
    ContainerStore::new("/data", "/images")
}

fn record() -> ContainerRecord {
    store().create_at(create_request(), "0123", 50)
}

#[test]
fn commands_come_from_the_request_or_the_image() {
    let full = image(Some(full_config()));
    assert_eq!(
        resolve_runtime_command(&full, &words(&["x"]), false).unwrap(),
        words(&["x"])
    );
    assert_eq!(
        resolve_runtime_command(&full, &Vec::new(), false).unwrap(),
        words(&["tool", "serve"])
    );
    let mut only_cmd = full_config();
    only_cmd.entrypoint = None;
    assert_eq!(
        resolve_runtime_command(&image(Some(only_cmd)), &Vec::new(), false).unwrap(),
        words(&["serve"])
    );
    assert_eq!(
        resolve_runtime_command(&image(None), &Vec::new(), true).unwrap(),
        words(&["/bin/sh"])
    );
    assert_eq!(
        resolve_runtime_command(&image(None), &Vec::new(), false).unwrap_err(),
        "Image does not define Entrypoint/Cmd and /bin/sh is unavailable"
    );
    assert_eq!(shell_paths("/r"), words(&["/r/bin/sh", "/r/usr/bin/sh"]));
}

#[test]
fn given_variables_win() {
    let full = image(Some(full_config()));
    let env = resolve_runtime_env(&full, &map(&[("B", "own"), ("PATH", "/p")]), false);
    assert_eq!(env.get("A").map(String::as_str), Some("1"));
    assert_eq!(env.get("B").map(String::as_str), Some("own"));
    assert_eq!(env.get("PATH").map(String::as_str), Some("/p"));
    assert_eq!(env.len(), 3);
    let cleared = resolve_runtime_env(&full, &map(&[]), true);
    assert_eq!(cleared.len(), 1);
    assert_eq!(
        cleared.get("PATH").map(String::as_str),
        Some("/usr/local/sbin:/usr/local/bin:/usr/sbin:/usr/bin:/sbin:/bin")
    );
}

#[test]
fn processes_are_planned() {
    let service = RunService::new();
    let plan = service
        .plan_process(&image(Some(full_config())), &run_request(), false)
        .unwrap();
    assert_eq!(plan.argv, words(&["tool", "serve"]));
    assert_eq!(plan.workdir, "/srv");
    assert_eq!(plan.user.as_deref(), Some("web"));
    assert_eq!(plan.clone_flags, 0x0002_0000);
    assert!(plan.mount_namespace);
    let mut request = run_request();
    request.working_directory = Some("/own".to_string());
    request.mounts = vec![bind("/a", "/b", false)];
    let plan = service.plan_process(&image(None), &request, true).unwrap();
    assert_eq!(plan.workdir, "/own");
    assert_eq!(plan.mounts.len(), 1);
    request.namespace_config.mount = false;
    assert_eq!(
        service.plan_process(&image(None), &request, true).err().unwrap(),
        "Bind mounts require qbuild's mount namespace; remove --no-mount-namespace"
    );
    request.working_directory = None;
    request.mounts = Vec::new();
    assert_eq!(
        service.plan_process(&image(None), &request, true).unwrap().workdir,
        "/"
    );
}

#[test]
fn images_must_be_local() {
    let service = RunService::new();
    assert_eq!(
        service.require_manifest(&run_request(), Some("d".to_string())).unwrap(),
        "d"
    );
    assert_eq!(
        service.require_manifest(&run_request(), None).unwrap_err(),
        "Image 'alpine' not found locally"
    );
    assert!(ensure_runtime_prerequisites(true).is_ok());
    assert_eq!(
        ensure_runtime_prerequisites(false).unwrap_err(),
        "Standalone container run currently requires root privileges in qbuild's runtime model"
    );
    let name = service.container_id(&run_request());
    assert!(name.starts_with("run-"));
    assert_eq!(name.len(), 40);
    let mut named = run_request();
    named.container_id = Some("ctr-1".to_string());
    assert_eq!(service.container_id(&named), "ctr-1");
    assert_eq!(service.container_id_or(&run_request(), "x"), "run-x");
    assert_eq!(service.container_id_or(&named, "x"), "ctr-1");
}

#[test]
fn exit_codes_default_to_one() {
    assert_eq!(RunResult { exit_code: None }.code(), 1);
    assert!(!RunResult { exit_code: None }.success());
    assert_eq!(RunResult { exit_code: Some(3) }.code(), 3);
    assert!(RunResult { exit_code: Some(0) }.success());
}

#[test]
fn namespaces_become_flags() {
    let none = NamespaceConfig { mount: false, uts: false, ipc: false, network: false };
    assert_eq!(build_clone_flags(&none), 0);
    let all = NamespaceConfig { mount: true, uts: true, ipc: true, network: true };
    assert_eq!(build_clone_flags(&all), 0x4c02_0000);
    let network = NamespaceConfig { mount: false, uts: false, ipc: false, network: true };
    assert_eq!(build_clone_flags(&network), 0x4000_0000);
}

#[test]
fn flags_are_those_of_the_system() {
    for bits in 0..16u8 {
        let config = NamespaceConfig {
            mount: bits & 1 != 0,
            uts: bits & 2 != 0,
            ipc: bits & 4 != 0,
            network: bits & 8 != 0,
        };
        let mut expected = CloneFlags::empty();
        expected.set(CloneFlags::CLONE_NEWNS, config.mount);
        expected.set(CloneFlags::CLONE_NEWUTS, config.uts);
        expected.set(CloneFlags::CLONE_NEWIPC, config.ipc);
        expected.set(CloneFlags::CLONE_NEWNET, config.network);
        assert_eq!(build_clone_flags(&config), expected.bits());
    }
}

#[test]
fn mount_targets_are_normalized() {
    assert_eq!(normalize_container_mount_target("/a/./b//").unwrap(), "/a/b");
    assert_eq!(
        normalize_container_mount_target("a").unwrap_err(),
        "Bind mount target 'a' must be absolute"
    );
    assert_eq!(
        normalize_container_mount_target("/a/..").unwrap_err(),
        "Bind mount target '/a/..' cannot contain parent traversal"
    );
    assert_eq!(
        normalize_container_mount_target("/.").unwrap_err(),
        "Bind mount target cannot be '/'"
    );
}

#[test]
fn mounts_are_planned() {
    let plan = plan_bind_mount("/r", &bind("s", "/a/b", true), "/s", MountSource::File).unwrap();
    assert_eq!(plan.target, "/a/b");
    assert_eq!(plan.host_target, "/r/a/b");
    assert!(!plan.directory && plan.readonly);
    assert_eq!(plan.parent.as_deref(), Some("/r/a"));
    let plan =
        plan_bind_mount("/r", &bind("s", "/a", false), "/s", MountSource::Directory).unwrap();
    assert!(plan.directory && !plan.readonly);
    assert_eq!(
        plan_bind_mount("/r", &bind("s", "/a", false), "/s", MountSource::Other).unwrap_err(),
        "Bind mount source '/s' must be a regular file or directory"
    );
    assert!(plan_bind_mount("/r", &bind("s", "/../a", false), "/s", MountSource::File).is_err());
}

#[test]
fn control_groups_get_their_limits() {
    let mut limits = ResourceLimits::default();
    limits.memory_limit_bytes = Some(1024);
    limits.cpu_quota = Some(-5);
    limits.pids_limit = Some(9);
    let manager = CgroupManager::new("ctr-1".to_string(), limits);
    assert_eq!(manager.probe(), "/sys/fs/cgroup/cgroup.controllers");
    assert_eq!(manager.parent_directory(), "/sys/fs/cgroup/qbuild");
    assert_eq!(manager.directory(), "/sys/fs/cgroup/qbuild/ctr-1");
    assert_eq!(
        manager.delegation(),
        (
            "/sys/fs/cgroup/qbuild/cgroup.subtree_control".to_string(),
            "+memory +cpu +pids".to_string()
        )
    );
    let at = |name: &str| format!("/sys/fs/cgroup/qbuild/ctr-1/{}", name);
    assert_eq!(
        manager.writes(),
        vec![
            (at("memory.max"), "1024".to_string()),
            (at("cpu.max"), "-5 100000".to_string()),
            (at("pids.max"), "9".to_string()),
        ]
    );
    assert_eq!(manager.add_process(-3), (at("cgroup.procs"), "-3".to_string()));
    assert_eq!(manager.kill(), (at("cgroup.kill"), "1".to_string()));
    limits.memory_limit_bytes = None;
    limits.pids_limit = None;
    limits.cpu_period = Some(7);
    let manager = CgroupManager::new("x".to_string(), limits);
    assert_eq!(
        manager.writes(),
        vec![("/sys/fs/cgroup/qbuild/x/cpu.max".to_string(), "-5 7".to_string())]
    );
}

#[test]
fn status_files_lie_in_the_container() {
    assert_eq!(runtime_status_id("/d/ctr-1/status.json").unwrap(), "ctr-1");
    assert_eq!(
        runtime_status_id("status.json").unwrap_err(),
        "Invalid runtime status path 'status.json'"
    );
}

#[test]
fn containers_are_created() {
    let record = record();
    assert_eq!(record.id, "ctr-0123");
    assert_eq!(record.state, ContainerState::Created);
    assert_eq!((record.pid, record.exit_code), (None, None));
    assert_eq!(record.created_at, 50);
    assert_eq!(record.command, words(&["sleep", "1"]));
    let fresh = store().create(create_request());
    assert!(fresh.id.starts_with("ctr-"));
    assert_eq!(fresh.id.len(), 36);
    assert!(fresh.created_at > 1_600_000_000);
    assert_ne!(fresh.id, store().create(create_request()).id);
}

#[test]
fn containers_have_their_places() {
    let store = store();
    assert_eq!(store.root(), "/data/containers");
    assert_eq!(store.data_root(), "/data");
    assert_eq!(store.store_dir(), "/images");
    assert_eq!(store.record_path("c"), "/data/containers/c/container.json");
    assert_eq!(store.status_path("c"), "/data/containers/c/status.json");
    assert_eq!(store.logs("c", false), "/data/containers/c/stdout.log");
    assert_eq!(store.logs("c", true), "/data/containers/c/stderr.log");
    assert_eq!(
        store.start_arguments("c"),
        words(&[
            "internal-exec",
            "--data-root",
            "/data",
            "--store-dir",
            "/images",
            "--container-id",
            "c"
        ])
    );
}

#[test]
fn containers_start_once() {
    let store = store();
    let mut record = record();
    record.exit_code = Some(3);
    record.finished_at = Some(9);
    store.start("ctr-0123", &mut record).unwrap();
    assert_eq!(record.state, ContainerState::Starting);
    assert_eq!((record.exit_code, record.finished_at), (None, None));
    store.note_launch_at(&mut record, 77, 60);
    assert_eq!((record.pid, record.started_at), (Some(77), Some(60)));
    assert_eq!(
        store.start("ctr-0123", &mut record).unwrap_err(),
        "Container 'ctr-0123' is already Starting"
    );
    assert_eq!(
        store.remove("ctr-0123", &record).unwrap_err(),
        "Container 'ctr-0123' is still Starting"
    );
    let status = store.begin_run_at(&mut record, 78, 61);
    assert_eq!(record.state, ContainerState::Running);
    assert_eq!(status.state, ContainerState::Running);
    assert_eq!((status.pid, status.started_at), (Some(78), Some(61)));
    assert_eq!(
        store.start("ctr-0123", &mut record).unwrap_err(),
        "Container 'ctr-0123' is already Running"
    );
    store.note_launch(&mut record, 5);
    assert!(record.started_at.unwrap() > 1_600_000_000);
    let status = store.begin_run(&mut record, 6);
    assert_eq!(status.pid, Some(6));
}

#[test]
fn states_are_refreshed() {
    let store = store();
    let mut record = record();
    store.begin_run_at(&mut record, 78, 61);
    assert!(!store.refresh_state_at(&mut record, None, true, 70));
    assert_eq!(record.state, ContainerState::Running);
    assert!(store.refresh_state_at(&mut record, None, false, 70));
    assert_eq!(record.state, ContainerState::Exited);
    assert_eq!(record.finished_at, Some(70));
    assert!(!store.refresh_state_at(&mut record, None, false, 71));
    assert_eq!(record.finished_at, Some(70));
    let status = ExecStatusFile::exited_at(&record, 80, 4, 90);
    assert!(store.refresh_state_at(&mut record, Some(&status), false, 99));
    assert_eq!(record.exit_code, Some(4));
    assert_eq!(record.pid, Some(80));
    assert_eq!(record.finished_at, Some(90));
    assert_eq!(store.remove("ctr-0123", &record).unwrap(), "/data/containers/ctr-0123");
    let failed = ExecStatusFile::failed(&record, 80, 1);
    assert_eq!(failed.state, ContainerState::Exited);
    assert!(failed.finished_at.unwrap() > 1_600_000_000);
    assert_eq!(ExecStatusFile::exited(&record, 80, 2).exit_code, Some(2));
    let running = ExecStatusFile::running_from(&record, 3);
    assert!(store.refresh_state(&mut record, Some(&running), true));
    assert_eq!(record.state, ContainerState::Running);
    assert_eq!(record.exit_code, None);
}

#[test]
fn containers_are_stopped_with_their_group() {
    let store = store();
    let mut record = record();
    assert_eq!(
        store.stop("ctr-0123", &record).unwrap_err(),
        "Container 'ctr-0123' does not have a running pid"
    );
    record.pid = Some(41);
    let plan = store.stop("ctr-0123", &record).unwrap();
    assert_eq!((plan.group, plan.process), (-41, 41));
}

#[test]
fn managed_runs_use_the_record() {
    let store = store();
    let mut record = record();
    store.begin_run_at(&mut record, 78, 61);
    let request = store.run_request(&record);
    assert_eq!(request.container_id.as_deref(), Some("ctr-0123"));
    assert_eq!(
        request.status_file.as_deref(),
        Some("/data/containers/ctr-0123/status.json")
    );
    assert_eq!(request.started_at, Some(61));
    assert_eq!(request.store_dir, "/images");
    assert_eq!(request.command, words(&["sleep", "1"]));
    assert!(request.clear_image_env);
    assert_eq!(request.mounts.len(), 1);
    assert_eq!(request.environment.get("A").map(String::as_str), Some("1"));
}

#[test]
fn containers_are_listed_by_age() {
    let store = store();
    let at = |id: &str, created: i64| store.create_at(create_request(), id, created);
    let listed = store.list(&vec![at("b", 5), at("a", 3), at("c", 5), at("d", 1)]);
    let order: Vec<&str> = listed.iter().map(|item| item.id.as_str()).collect();
    assert_eq!(order, vec!["ctr-d", "ctr-a", "ctr-b", "ctr-c"]);
    assert_eq!(listed[0].created_at, 1);
}

#[test]
fn namespaces_default_to_mounts_only() {
    let config = NamespaceConfig::default();
    assert!(config.mount && !config.uts && !config.ipc && !config.network);
    let limits = ResourceLimits::default();
    assert!(limits.memory_limit_bytes.is_none() && limits.cpu_period.is_none());
}

#[test]
fn stops_wait_for_the_end() {
    let store = ContainerStore::new("/data", "/images");
    let mut container = record();
    container.state = ContainerState::Running;
    container.pid = Some(7);
    assert_eq!(stop_step(&container), StopStep::Wait);
    let message = format!("Container '{}' is still Running", container.id);
    assert_eq!(store.remove(&container.id, &container).unwrap_err(), message);
    assert!(settle_at(&container, true, 9).is_none());
    let status = settle_at(&container, false, 9).unwrap();
    assert_eq!((status.pid, status.exit_code, status.finished_at), (Some(7), None, Some(9)));
    store.refresh_state_at(&mut container, Some(&status), false, 10);
    assert_eq!(stop_step(&container), StopStep::Done);
    assert!(store.remove(&container.id, &container).is_ok());
    assert!(settle_at(&container, false, 11).is_none());
}

#[test]
fn records_are_loaded() {
    let store = ContainerStore::new("/data", "/images");
    let container = record();
    let id = container.id.clone();
    let loaded = store.load(&id, RecordRead::Record(container)).unwrap();
    assert_eq!(loaded.id, id);
    assert_eq!(
        store.load("x", RecordRead::Unreadable("gone".to_string())).err().unwrap(),
        "Failed to read container record '/data/containers/x/container.json': gone"
    );
    assert_eq!(
        store.load("x", RecordRead::Undecodable("bad".to_string())).err().unwrap(),
        "Failed to decode container record '/data/containers/x/container.json': bad"
    );
}
