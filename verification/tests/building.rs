use qbuild::build::copy::{
    compute_copy_destination, is_archive_path, is_gzip_path, plan_add, plan_copy,
    resolve_copy_matches, source_not_found, CopySetting, SourceLookup, StageRoot,
};
use qbuild::build::diff::{
    compute_diff_entries, copy_step, index_tree, is_ephemeral_build_support_path, is_indexed,
    removed_path, touched_entries, whiteout_path, CopyStep, FileKind, TreeItem,
};
use qbuild::build::layer::{pack_compressed, pack_layer};
use qbuild::build::links::{FileId, HardLinks};
use qbuild::build::run::{check_run_status, plan_run, RunCapabilities, RunSetting};
use qbuild::build::service::{
    attach_config, base_container_id, base_container_named, build_result, plan_build,
    snapshot_directory, snapshot_directory_named, stage_directory, stage_rootfs, BuildRequest,
    BuildService,
};
use qbuild::build::stage::{
    history_entry, total_layer_size, BaseImage, StageAction, StageImage, StageState,
};
use qbuild::build::written::{copied_paths, made_paths, CopiedSource, SourceItem};
use qbuild::dockerfile::{parse_copy_instruction, parse_dockerfile};
use qbuild::image::{Descriptor, History, MediaType, OciContainerConfig};
use qbuild::instruction::Instruction;
use qbuild::rootfs::{
    apt_conf_dir, apt_override_path, apt_override_text, apt_paths, check_proc_mount,
    ensure_symlink, injects_apt_override, support_devices, support_directories, support_links,
    LinkAction, PathState,
};
use qbuild::text_map::StringMap;

fn words(values: &[&str]) -> Vec<String> {
    values.iter().map(|value| value.to_string()).collect()
}

fn map(pairs: &[(&str, &str)]) -> StringMap {
    let mut map = StringMap::new();
    for (key, value) in pairs {
        map.insert(key.to_string(), value.to_string());
    }
    map
}

fn only(text: &str) -> Instruction {
    parse_dockerfile(text).unwrap().remove(0)
}

fn item(relative: &str, kind: FileKind, size: u64, digest: Option<&str>) -> TreeItem {
    TreeItem {
        relative: relative.to_string(),
        kind,
        mode: 0o755,
        size,
        digest: digest.map(str::to_string),
        symlink_target: Some("/target".to_string()),
    }
}

fn setting() -> CopySetting {
    CopySetting {
        context_root: "/ctx".to_string(),
        rootfs: "/work/rootfs".to_string(),
        workdir: "/app/".to_string(),
        environment: map(&[("DST", "sub/dir")]),
        build_args: map(&[("SRC", "file.txt")]),
    }
}

#[test]
fn copies_are_planned() {
    let copy = parse_copy_instruction("$SRC other ${DST}/../x").unwrap();
    let plan = plan_copy(&copy, &Vec::new(), &setting()).unwrap();
    assert_eq!(plan.destination, "/app/sub/dir/x");
    assert_eq!(plan.destination_host, "/work/rootfs/app/sub/dir/x");
    assert_eq!(plan.source_root, "/ctx");
    assert!(!plan.source_is_stage);
    assert_eq!(plan.sources, words(&["file.txt", "other"]));
    assert!(plan.multiple);
    let roots = vec![
        StageRoot { name: Some("1".to_string()), rootfs: "/named".to_string() },
        StageRoot { name: None, rootfs: "/second".to_string() },
    ];
    let by_name = parse_copy_instruction("--from=1 a /b").unwrap();
    assert_eq!(plan_copy(&by_name, &roots, &setting()).unwrap().source_root, "/named");
    let by_number = parse_copy_instruction("--from=0 a /b").unwrap();
    let plan = plan_copy(&by_number, &roots, &setting()).unwrap();
    assert_eq!(plan.source_root, "/named");
    assert!(plan.source_is_stage);
    assert!(!plan.multiple);
    let unknown = parse_copy_instruction("--from=7 a /b").unwrap();
    assert_eq!(
        plan_copy(&unknown, &roots, &setting()).err().unwrap(),
        "COPY --from='7' references an unknown completed stage"
    );
    let add = plan_add(&unknown, &setting()).unwrap();
    assert_eq!(add.source_root, "/ctx");
    assert!(!add.source_is_stage);
}

#[test]
fn sources_stay_in_their_directory() {
    assert!(matches!(
        resolve_copy_matches("/ctx", "./a/b", false).unwrap(),
        SourceLookup::Path(path) if path == "/ctx/a/b"
    ));
    assert!(matches!(
        resolve_copy_matches("/stage/", "a", true).unwrap(),
        SourceLookup::Path(path) if path == "/stage/a"
    ));
    assert!(matches!(
        resolve_copy_matches("/ctx", "*.txt", false).unwrap(),
        SourceLookup::Pattern(path) if path == "/ctx/*.txt"
    ));
    assert_eq!(
        resolve_copy_matches("/ctx", "a/../../b", false).unwrap_err(),
        "Source path 'a/../../b' escapes the build context"
    );
    assert_eq!(
        resolve_copy_matches("/ctx", "/etc", false).unwrap_err(),
        "Source path '/etc' escapes the build context"
    );
    assert!(matches!(
        resolve_copy_matches("/stage", "/etc", true).unwrap(),
        SourceLookup::Path(path) if path == "/stage/etc"
    ));
    assert!(matches!(
        resolve_copy_matches("/stage", "//etc/*.conf", true).unwrap(),
        SourceLookup::Pattern(path) if path == "/stage/etc/*.conf"
    ));
    assert_eq!(
        resolve_copy_matches("/stage", "/../etc", true).unwrap_err(),
        "Source path '/../etc' escapes the build context"
    );
    assert_eq!(source_not_found("COPY", "x"), "COPY source 'x' not found");
}

#[test]
fn targets_depend_on_directories() {
    assert_eq!(
        compute_copy_destination("/ctx/a.txt", "/root/b", false, false, false).unwrap(),
        "/root/b"
    );
    assert_eq!(
        compute_copy_destination("/ctx/a.txt", "/root/b", false, true, false).unwrap(),
        "/root/b/a.txt"
    );
    assert_eq!(
        compute_copy_destination("/ctx/dir/", "/root/b/", true, false, true).unwrap(),
        "/root/b/dir"
    );
    assert_eq!(
        compute_copy_destination("/ctx/..", "/root/b", true, false, false).unwrap_err(),
        "Unable to resolve destination name for '/ctx/..'"
    );
}

#[test]
fn archives_are_known_by_their_names() {
    assert!(is_archive_path("/x/a.tar"));
    assert!(is_archive_path("a.tar.gz"));
    assert!(is_archive_path("a.tgz"));
    assert!(!is_archive_path("a.TGZ"));
    assert!(!is_archive_path("a.tar/.."));
    assert!(is_gzip_path("a.tar.gz"));
    assert!(is_gzip_path("a.TGZ"));
    assert!(!is_gzip_path("a.tar"));
    assert!(!is_gzip_path(".tgz"));
}

#[test]
fn diffs_tell_what_changed() {
    let before = index_tree(&vec![
        item("a", FileKind::Directory, 9, None),
        item("a/old", FileKind::File, 1, Some("x")),
        item("a/same", FileKind::File, 2, Some("y")),
        item("link", FileKind::Symlink, 5, None),
        item("gone", FileKind::File, 3, Some("z")),
        item("a-b", FileKind::File, 3, Some("z")),
    ]);
    let after = index_tree(&vec![
        item("a", FileKind::Directory, 100, None),
        item("a/old", FileKind::File, 1, Some("changed")),
        item("a/same", FileKind::File, 2, Some("y")),
        item("link", FileKind::Symlink, 6, None),
        item("a!new", FileKind::File, 1, Some("n")),
        item("a/z", FileKind::File, 1, Some("n")),
        item("dev/null", FileKind::File, 1, Some("n")),
        item("socket", FileKind::Other, 1, None),
    ]);
    assert_eq!(after.len(), 6);
    let diff = compute_diff_entries(&before, &after);
    assert_eq!(diff.added_or_modified, words(&["a/old", "a/z", "a!new"]));
    assert_eq!(diff.removed, words(&["a-b", "gone"]));
    let none = compute_diff_entries(&after, &after);
    assert!(none.added_or_modified.is_empty() && none.removed.is_empty());
}

#[test]
fn copies_tell_the_paths_they_wrote() {
    let diff = touched_entries(&vec![
        item("srv/b", FileKind::File, 1, None),
        item("srv", FileKind::Directory, 0, None),
        item("srv/a", FileKind::Symlink, 0, None),
        item("srv/b", FileKind::File, 2, None),
        item("dev/null", FileKind::File, 1, None),
        item("srv/pipe", FileKind::Other, 0, None),
    ]);
    assert_eq!(diff.added_or_modified, words(&["srv", "srv/a", "srv/b"]));
    assert!(diff.removed.is_empty());
    let diff = touched_entries(&Vec::new());
    assert!(diff.added_or_modified.is_empty());
    assert!(diff.removed.is_empty());
}

#[test]
fn names_of_one_file_are_linked() {
    let busybox = FileId { device: 1, inode: 7 };
    let other = FileId { device: 2, inode: 7 };
    let mut links = HardLinks::new();
    assert_eq!(links.visit(busybox, 3, "/r/bin/busybox"), None);
    assert_eq!(links.visit(other, 2, "/r/bin/true"), None);
    assert_eq!(links.visit(busybox, 3, "/r/bin/ls"), Some("/r/bin/busybox".to_string()));
    assert_eq!(links.visit(busybox, 3, "/r/bin/sh"), Some("/r/bin/busybox".to_string()));
    assert_eq!(links.visit(other, 2, "/r/bin/false"), Some("/r/bin/true".to_string()));
    let single = FileId { device: 1, inode: 8 };
    assert_eq!(links.visit(single, 1, "/r/a"), None);
    assert_eq!(links.visit(single, 1, "/r/b"), None);
}

#[test]
fn support_paths_are_left_out() {
    assert!(is_ephemeral_build_support_path("proc"));
    assert!(is_ephemeral_build_support_path("dev/stderr"));
    assert!(!is_ephemeral_build_support_path("dev"));
    assert_eq!(copy_step("dev/tty", FileKind::File), CopyStep::Skip);
    assert_eq!(copy_step("x", FileKind::Other), CopyStep::File);
    assert_eq!(copy_step("x", FileKind::Symlink), CopyStep::Link);
    assert_eq!(copy_step("x", FileKind::Directory), CopyStep::Directory);
    assert!(!is_indexed("x", FileKind::Other));
    assert!(is_indexed("x", FileKind::File));
}

#[test]
fn whiteouts_stand_beside_what_they_remove() {
    assert_eq!(whiteout_path("a/b/c").unwrap(), "a/b/.wh.c");
    assert_eq!(whiteout_path("c").unwrap(), ".wh.c");
    assert_eq!(removed_path("a/b/.wh.c").as_deref(), Some("a/b/c"));
    assert_eq!(removed_path(".wh.c").as_deref(), Some("c"));
    assert_eq!(removed_path("a/b"), None);
    assert_eq!(removed_path(".."), None);
    assert_eq!(
        whiteout_path("..").unwrap_err(),
        "Failed to create whiteout for '..'"
    );
}

#[test]
fn layers_are_packed() {
    let packed = pack_layer(b"archive bytes").unwrap();
    assert_eq!(&packed.blob[..2], &[0x1f, 0x8b]);
    assert_eq!(packed.layer.descriptor.size, packed.blob.len() as u64);
    assert_eq!(
        packed.layer.descriptor.media_type,
        "application/vnd.oci.image.layer.v1.tar+gzip"
    );
    assert_ne!(packed.layer.descriptor.digest, packed.layer.diff_id);
    assert_eq!(
        pack_layer(b"archive bytes").unwrap().layer.descriptor.digest,
        packed.layer.descriptor.digest
    );
    let given = pack_compressed(b"", Ok(Vec::new())).unwrap();
    assert_eq!(
        given.layer.diff_id,
        "sha256:e3b0c44298fc1c149afbf4c8996fb92427ae41e4649b934ca495991b7852b855"
    );
    assert_eq!(given.layer.descriptor.digest, given.layer.diff_id);
    assert_eq!(
        pack_compressed(b"", Err((false, "x".to_string()))).err().unwrap(),
        "Failed to compress build layer: x"
    );
    assert_eq!(
        pack_compressed(b"", Err((true, "x".to_string()))).err().unwrap(),
        "Failed to finish build layer compression: x"
    );
}

fn run_setting(user: Option<&str>) -> RunSetting {
    RunSetting {
        rootfs: "/root".to_string(),
        workdir: "/app".to_string(),
        environment: map(&[("A", "1")]),
        user: user.map(str::to_string),
        shell: words(&["/bin/sh", "-c"]),
        passwd: "root:x:0:0\napp:x:1000:1000:App:/:/bin/sh\nshort:x:9\n".to_string(),
        group: "app:x:1001:\nother:x:7:\n".to_string(),
    }
}

#[test]
fn run_processes_are_planned() {
    let plan = plan_run(&run_setting(None), "echo", false).unwrap();
    assert_eq!(plan.argv, words(&["/bin/sh", "-c", "echo"]));
    assert_eq!(plan.uid_gid, None);
    assert_eq!(plan.host_workdir, "/root/app");
    assert_eq!(
        plan.environment.get("PATH").map(String::as_str),
        Some("/usr/local/sbin:/usr/local/bin:/usr/sbin:/usr/bin:/sbin:/bin")
    );
    let named = plan_run(&run_setting(Some("app")), "echo", false).unwrap();
    assert_eq!(named.uid_gid, Some((1000, 1001)));
    let grouped = plan_run(&run_setting(Some("app:other")), "echo", false).unwrap();
    assert_eq!(grouped.uid_gid, Some((1000, 7)));
    let alone = plan_run(&run_setting(Some("root")), "echo", false).unwrap();
    assert_eq!(alone.uid_gid, Some((0, 0)));
    let numeric = plan_run(&run_setting(Some("5:6")), "echo", false).unwrap();
    assert_eq!(numeric.uid_gid, Some((5, 6)));
    assert_eq!(
        plan_run(&run_setting(Some("short")), "echo", false).err().unwrap(),
        "Failed to resolve build user 'short' inside image"
    );
    let mut outside = run_setting(None);
    outside.workdir = "/a/../b".to_string();
    assert_eq!(
        plan_run(&outside, "echo", false).err().unwrap(),
        "Invalid container path '/a/../b'"
    );
}

#[test]
fn run_failures_are_told() {
    assert!(check_run_status("x", Some(0), "noise").is_ok());
    assert_eq!(
        check_run_status("x", Some(2), " bad \n").unwrap_err(),
        "RUN 'x' failed with status Some(2): bad"
    );
    assert_eq!(
        check_run_status("x", None, "").unwrap_err(),
        "RUN 'x' failed with status None: "
    );
    assert_eq!(
        check_run_status("x", Some(-1), "").unwrap_err(),
        "RUN 'x' failed with status Some(-1): "
    );
}

fn config_with_env() -> OciContainerConfig {
    let mut config = OciContainerConfig::default();
    config.env = Some(words(&["PATH=/bin", "B=2", "noise"]));
    config.working_dir = Some("/srv".to_string());
    config
}

fn layer(digest: &str, size: u64) -> Descriptor {
    Descriptor::plain(MediaType::OciLayerGzip, digest.to_string(), size)
}

fn base() -> BaseImage {
    BaseImage {
        architecture: "arm64".to_string(),
        os: "linux".to_string(),
        config: Some(config_with_env()),
        diff_ids: words(&["sha256:base"]),
        history: Some(vec![History {
            created: None,
            author: None,
            created_by: Some("base".to_string()),
            comment: None,
            empty_layer: None,
        }]),
        layers: vec![layer("sha256:l0", 10), layer("", 99)],
    }
}

fn finish(state: StageState) -> StageImage {
    assert!(total_layer_size(&state.layers).is_some());
    state.finish_at("then")
}

#[test]
fn stages_start_from_scratch_or_an_image() {
    let scratch = StageState::start(None, map(&[]));
    assert_eq!(scratch.architecture, "amd64");
    assert_eq!(scratch.shell, words(&["/bin/sh", "-c"]));
    assert_eq!(scratch.workdir, "/");
    assert_eq!(scratch.environment.len(), 0);
    let state = StageState::start(Some(base()), map(&[("X", "1")]));
    assert_eq!(state.architecture, "arm64");
    assert_eq!(state.workdir, "/srv");
    assert_eq!(state.environment.get("B").map(String::as_str), Some("2"));
    assert_eq!(state.environment.len(), 2);
    assert_eq!(state.history.len(), 1);
}

#[test]
fn instructions_change_the_state() {
    let mut state = StageState::start(Some(base()), map(&[("V", "arg")]));
    let root = "/work/rootfs";
    for text in [
        "ARG V=other",
        "ARG W=$V",
        "ENV A=$V C=$A",
        "LABEL one=$A two=2",
        "EXPOSE 80 $V",
        "VOLUME /data",
        "USER ${V}er",
        "SHELL [\"bash\", \"-c\"]",
        "CMD run $V",
        "ENTRYPOINT [\"tool\"]",
    ] {
        let action = state.apply_at(&only(text), root, "now").unwrap();
        assert!(matches!(action, StageAction::Proceed));
    }
    let action = state.apply_at(&only("WORKDIR sub/./x"), root, "now").unwrap();
    assert!(matches!(
        action,
        StageAction::MakeDirectory(path) if path == "/work/rootfs/srv/sub/x"
    ));
    assert_eq!(state.build_args.get("W").map(String::as_str), Some("arg"));
    assert_eq!(state.build_args.get("V").map(String::as_str), Some("arg"));
    assert_eq!(state.history.len(), 12);
    assert_eq!(
        state.history[11].created_by.as_deref(),
        Some("WORKDIR /srv/sub/x")
    );
    assert_eq!(state.history[1].created_by.as_deref(), Some("ARG V"));
    assert_eq!(state.history[1].author.as_deref(), Some("qbuild"));
    assert_eq!(state.history[1].empty_layer, Some(true));
    assert_eq!(state.history[1].created.as_deref(), Some("now"));
    assert_eq!(state.layers.len(), 2);
    let image = finish(state);
    let config = image.config.config.unwrap();
    assert_eq!(config.env.unwrap(), words(&["A=arg", "B=2", "C=arg", "PATH=/bin"]));
    assert_eq!(config.user.as_deref(), Some("arger"));
    assert_eq!(config.cmd.unwrap(), words(&["bash", "-c", "run $V"]));
    assert_eq!(config.entrypoint.unwrap(), words(&["tool"]));
    assert_eq!(config.shell.unwrap(), words(&["bash", "-c"]));
    assert_eq!(config.working_dir.as_deref(), Some("/srv/sub/x"));
    assert_eq!(
        config.labels.unwrap().get("one").map(String::as_str),
        Some("arg")
    );
    let ports = config.exposed_ports.unwrap();
    assert!(ports.contains_key("80") && ports.contains_key("arg"));
    assert!(config.volumes.unwrap().contains_key("/data"));
}

#[test]
fn layers_are_counted_once() {
    let mut state = StageState::start(Some(base()), map(&[]));
    let run = only("RUN make");
    assert!(matches!(
        state.apply_at(&run, "/r", "now").unwrap(),
        StageAction::Run
    ));
    assert!(matches!(
        state.apply(&only("COPY a b"), "/r").unwrap(),
        StageAction::Copy
    ));
    assert!(matches!(
        state.apply(&only("ADD a b"), "/r").unwrap(),
        StageAction::Add
    ));
    assert_eq!(state.history.len(), 1);
    let packed = pack_layer(b"tar").unwrap();
    let size = packed.blob.len() as u64;
    let diff_id = packed.layer.diff_id.clone();
    state.add_layer_at(&run, packed.layer, "now");
    let second = pack_layer(b"more").unwrap();
    let second_size = second.blob.len() as u64;
    state.add_layer(&only("COPY a b"), second.layer);
    assert_eq!(state.history[1].created_by.as_deref(), Some("RUN make"));
    assert_eq!(state.history[1].empty_layer, Some(false));
    assert_eq!(state.history[2].created_by.as_deref(), Some("COPY"));
    assert_eq!(state.diff_ids[1], diff_id);
    let image = finish(state);
    assert_eq!(image.manifest.layers.len(), 3);
    assert_eq!(image.total_size, 10 + size + second_size);
    assert_eq!(image.manifest.schema_version, 2);
    assert_eq!(
        image.manifest.media_type.as_deref(),
        Some("application/vnd.oci.image.manifest.v1+json")
    );
    assert_eq!(image.manifest.config.digest, "");
    assert_eq!(image.config.rootfs.diff_ids.len(), 3);
    assert_eq!(image.config.rootfs.fs_type, "layers");
    assert_eq!(image.config.created.as_deref(), Some("then"));
}

#[test]
fn refused_instructions_change_nothing() {
    let mut state = StageState::start(None, map(&[]));
    let message = state.apply(&only("CMD [oops"), "/r").unwrap_err();
    assert!(message.starts_with("Invalid exec-form command '[oops': "));
    assert_eq!(state.history.len(), 0);
    state.shell = Vec::new();
    assert_eq!(
        state.apply(&only("ENTRYPOINT x"), "/r").unwrap_err(),
        "SHELL for command must not be empty"
    );
    assert_eq!(
        state
            .apply_parsed_at(&only("CMD [x]"), "/r", "now", Err("why".to_string()))
            .unwrap_err(),
        "Invalid exec-form command '[x]': why"
    );
    assert!(state
        .apply_parsed_at(&only("CMD [x]"), "/r", "now", Ok(words(&["x"])))
        .is_ok());
}

#[test]
fn history_carries_the_time() {
    let entry = history_entry("ENV", true);
    let created = entry.created.unwrap();
    assert!(created.len() >= 20 && created.contains('T') && created.contains(':'));
    assert_eq!(entry.created_by.as_deref(), Some("ENV"));
    let image = StageState::start(None, map(&[])).finish();
    assert!(image.config.created.unwrap().contains('T'));
}

#[test]
fn layer_sizes_may_be_too_large() {
    let layers = vec![layer("a", u64::MAX), layer("b", 1)];
    assert_eq!(total_layer_size(&layers), None);
    assert_eq!(total_layer_size(&vec![layer("a", u64::MAX), layer("", 1)]), Some(u64::MAX));
}

fn request() -> BuildRequest {
    BuildRequest {
        context_dir: "/ctx".to_string(),
        dockerfile_path: "./docker/Dockerfile".to_string(),
        image_reference: "local.test/app:1".to_string(),
        build_args: map(&[]),
        target_stage: None,
    }
}

#[test]
fn dockerfiles_are_located() {
    let service = BuildService::new("/store".to_string(), "/work".to_string());
    assert_eq!(service.image_store_path(), "/store");
    let place = service.locate_dockerfile(&request(), true).unwrap();
    assert_eq!(place.relative, "docker/Dockerfile");
    assert_eq!(place.full, "/ctx/docker/Dockerfile");
    assert_eq!(
        service.locate_dockerfile(&request(), false).unwrap_err(),
        "Build context '/ctx' is not a directory"
    );
    let mut outside = request();
    outside.dockerfile_path = "../Dockerfile".to_string();
    assert_eq!(
        service.locate_dockerfile(&outside, true).unwrap_err(),
        "dockerfile_path must be a relative path inside the build context"
    );
    assert_eq!(
        service.check_dockerfile(&place, None).unwrap_err(),
        "Dockerfile 'docker/Dockerfile' not found in build context"
    );
    assert_eq!(
        service
            .check_dockerfile(&place, Some(Err("denied".to_string())))
            .unwrap_err(),
        "Failed to read Dockerfile 'docker/Dockerfile': denied"
    );
    assert_eq!(
        service.check_dockerfile(&place, Some(Ok("FROM a".to_string()))).unwrap(),
        "FROM a"
    );
    let workspace = service.workspace();
    assert!(workspace.starts_with("/work/"));
    assert_eq!(workspace.len(), "/work/".len() + 36);
    assert_ne!(workspace, service.workspace());
}

#[test]
fn builds_are_planned() {
    let host = RunCapabilities {
        effective_root: false,
        setup_error: None,
        mount_error: None,
        device_error: None,
    };
    let all = parse_dockerfile("FROM a AS x\nCOPY a b\nFROM b").unwrap();
    let plan = plan_build(&all, &host, Some("x")).unwrap();
    assert_eq!((plan.stages.len(), plan.target), (2, 0));
    assert_eq!(plan_build(&all, &host, None).unwrap().target, 1);
    assert!(plan_build(&all, &host, Some("y")).is_err());
    let runs = parse_dockerfile("RUN x").unwrap();
    assert!(plan_build(&runs, &host, None).unwrap_err().contains("elevated privileges"));
}

#[test]
fn build_results_name_what_was_stored() {
    let mut image = finish(StageState::start(None, map(&[])));
    let digest = attach_config(&mut image.manifest, &b"{}".to_vec());
    assert_eq!(
        digest,
        "sha256:44136fa355b3678a1146ad16f7e8649e94fb4fc21fe77e8310c060f61caaff8a"
    );
    assert_eq!(image.manifest.config.digest, digest);
    assert_eq!(image.manifest.config.size, 2);
    let result = build_result("ref".to_string(), &b"{}".to_vec(), digest.clone(), 7);
    assert_eq!(result.manifest_digest, digest);
    assert_eq!(result.size_bytes, 7);
}

#[test]
fn stage_directories_are_numbered() {
    assert_eq!(stage_directory("/work", 12), "/work/stage-12");
    assert_eq!(stage_rootfs("/work/stage-12"), "/work/stage-12/rootfs");
    assert!(snapshot_directory("/s", "before-run").starts_with("/s/before-run-"));
    let name = base_container_id(3);
    assert!(name.starts_with("build-3-"));
    assert_eq!(name.len(), "build-3-".len() + 36);
    assert_eq!(name.matches('-').count(), 6);
}

#[test]
fn root_file_systems_get_devices_and_links() {
    assert_eq!(support_directories("/r"), words(&["/r/dev", "/r/proc"]));
    let devices = support_devices("/r");
    assert_eq!(devices.len(), 5);
    assert_eq!(devices[3], ("/r/dev/urandom".to_string(), "/dev/urandom".to_string()));
    let links = support_links("/r");
    assert_eq!(links.len(), 4);
    assert_eq!(links[1], ("/r/dev/stdin".to_string(), "/proc/self/fd/0".to_string()));
    assert_eq!(ensure_symlink("/l", &PathState::Symlink).unwrap(), LinkAction::Keep);
    assert_eq!(
        ensure_symlink("/l", &PathState::Directory).unwrap(),
        LinkAction::ReplaceDirectory
    );
    assert_eq!(ensure_symlink("/l", &PathState::File).unwrap(), LinkAction::ReplaceFile);
    assert_eq!(ensure_symlink("/l", &PathState::Missing).unwrap(), LinkAction::Create);
    assert_eq!(
        ensure_symlink("/l", &PathState::Unreadable("no".to_string())).unwrap_err(),
        "Failed to inspect symlink path '/l': no"
    );
}

#[test]
fn some_mount_errors_are_tolerated() {
    assert!(check_proc_mount("/p", None).unwrap());
    for number in [1, 16, 22] {
        assert!(!check_proc_mount("/p", Some((number, "x".to_string()))).unwrap());
    }
    assert_eq!(
        check_proc_mount("/p", Some((5, "io".to_string()))).unwrap_err(),
        "Failed to mount build /proc at '/p': io"
    );
}

#[test]
fn package_managers_get_an_override() {
    assert_eq!(
        apt_paths("/r"),
        words(&["/r/usr/bin/apt-get", "/r/bin/apt-get", "/r/usr/bin/apt", "/r/bin/apt"])
    );
    assert_eq!(apt_conf_dir("/r"), "/r/etc/apt/apt.conf.d");
    assert_eq!(
        apt_override_path("/r"),
        "/r/etc/apt/apt.conf.d/99qbuild-clock-skew.conf"
    );
    assert!(apt_override_text().ends_with("Acquire::Check-Date \"false\";\n"));
    assert!(injects_apt_override(true, true, false));
    assert!(!injects_apt_override(true, true, true));
    assert!(!injects_apt_override(false, true, false));
    assert!(!injects_apt_override(true, false, false));
}

#[test]
fn copies_write_below_their_target() {
    let made = made_paths("/r", &words(&["/", "/r", "/r/srv"]), "/r/srv/app/web");
    let paths: Vec<&str> = made.iter().map(|written| written.path.as_str()).collect();
    assert_eq!(paths, vec!["/r/srv/app/web", "/r/srv/app"]);
    assert!(made.iter().all(|written| written.through_links));
    let items = vec![
        SourceItem { relative: "a".to_string(), kind: FileKind::File },
        SourceItem { relative: "proc".to_string(), kind: FileKind::Directory },
        SourceItem { relative: "d/l".to_string(), kind: FileKind::Symlink },
    ];
    let copied = copied_paths("/r/srv", &CopiedSource::Tree(items));
    let paths: Vec<(&str, bool)> =
        copied.iter().map(|written| (written.path.as_str(), written.through_links)).collect();
    assert_eq!(paths, vec![("/r/srv/a", true), ("/r/srv/d/l", false)]);
    let single = copied_paths("/r/x", &CopiedSource::Single(FileKind::File));
    assert_eq!((single.len(), single[0].path.as_str()), (1, "/r/x"));
    assert!(single[0].through_links);
    assert!(!copied_paths("/r/x", &CopiedSource::Single(FileKind::Symlink))[0].through_links);
}

#[test]
fn drawn_names_are_used() {
    let service = BuildService::new("/images".to_string(), "/builds".to_string());
    assert_eq!(service.workspace_named("x"), "/builds/x");
    assert_eq!(snapshot_directory_named("/s", "before", "x"), "/s/before-x");
    assert_eq!(base_container_named(2, "x"), "build-2-x");
}
