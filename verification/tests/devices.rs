use qbuild::gpu::{
    discover_local_gpus, normalize_gpu_id, numbered_nodes, prepare_devices, prepare_gpu_runtime,
    push_mount, select_devices, trusted_paths, GpuHost, GpuVendor, LocalGpuDevice,
};
use qbuild::protocol::GpuRequest;

fn words(values: &[&str]) -> Vec<String> {
    values.iter().map(|value| value.to_string()).collect()
}

fn host(dev: &[&str], dri: &[&str], existing: &[&str]) -> GpuHost {
    GpuHost {
        dev_names: words(dev),
        dri_names: words(dri),
        existing: words(existing),
    }
}

fn request(count: u32, ids: &[&str]) -> GpuRequest {
    GpuRequest { count, device_ids: words(ids) }
}

fn ids(devices: &[LocalGpuDevice]) -> Vec<&str> {
    devices.iter().map(|device| device.id.as_str()).collect()
}

#[test]
fn normalizes_numeric_gpu_ids_to_nvidia_ids() {
    assert_eq!(normalize_gpu_id("0"), "nvidia0");
    assert_eq!(normalize_gpu_id("/dev/nvidia1"), "nvidia1");
    assert_eq!(normalize_gpu_id("amd0"), "amd0");
}

#[test]
fn select_devices_preserves_explicit_gpu_vendors_for_runtime_validation() {
    let devices = vec![
        LocalGpuDevice {
            id: "nvidia0".to_string(),
            vendor: GpuVendor::Nvidia,
            index: 0,
            device_path: "/dev/nvidia0".to_string(),
        },
        LocalGpuDevice {
            id: "amd0".to_string(),
            vendor: GpuVendor::Amd,
            index: 0,
            device_path: "/dev/dri/renderD128".to_string(),
        },
    ];
    let selected = select_devices(
        devices,
        &GpuRequest {
            count: 2,
            device_ids: vec!["nvidia0".to_string(), "amd0".to_string()],
        },
    )
    .unwrap();
    assert!(
        selected
            .iter()
            .any(|device| device.vendor == GpuVendor::Nvidia)
    );
    assert!(
        selected
            .iter()
            .any(|device| device.vendor == GpuVendor::Amd)
    );
}

#[test]
fn ids_are_normalized_all_the_way() {
    assert_eq!(normalize_gpu_id(""), "nvidia");
    assert_eq!(normalize_gpu_id("/dev//dev/3"), "nvidia3");
    assert_eq!(normalize_gpu_id("/dev//dev"), "/dev");
    assert_eq!(normalize_gpu_id("1a"), "1a");
}

#[test]
fn devices_are_discovered_in_order() {
    let names = host(
        &["nvidia10", "nvidia2", "nvidiactl", "null", "nvidia+3"],
        &["renderD129", "card0", "renderD128"],
        &[],
    );
    let devices = discover_local_gpus(&names);
    assert_eq!(ids(&devices), vec!["nvidia2", "nvidia3", "nvidia10", "amd0", "amd1"]);
    assert_eq!(devices[1].device_path, "/dev/nvidia+3");
    assert_eq!(devices[3].device_path, "/dev/dri/renderD128");
    assert_eq!(devices[4].index, 1);
    let wsl = discover_local_gpus(&host(&[], &["renderD128"], &["/dev/dxg"]));
    assert_eq!(ids(&wsl), vec!["amd0"]);
    assert_eq!(wsl[0].device_path, "/dev/dxg");
    let nodes = numbered_nodes(&words(&["b02", "b1", "b2", "x"]), "b");
    let order: Vec<&str> = nodes.iter().map(|node| node.name.as_str()).collect();
    assert_eq!(order, vec!["b1", "b02", "b2"]);
}

#[test]
fn devices_are_selected_by_count() {
    let all = host(&["nvidia0"], &["renderD128", "renderD129"], &[]);
    let one = select_devices(discover_local_gpus(&all), &request(1, &[])).unwrap();
    assert_eq!(ids(&one), vec!["nvidia0"]);
    let two = select_devices(discover_local_gpus(&all), &request(2, &[])).unwrap();
    assert_eq!(ids(&two), vec!["amd0", "amd1"]);
    assert_eq!(
        select_devices(discover_local_gpus(&all), &request(3, &[])).unwrap_err(),
        "requested 3 GPU(s), but only 3 compatible local GPU device(s) are available"
    );
}

#[test]
fn devices_are_selected_by_name() {
    let all = host(&["nvidia0", "nvidia1"], &["renderD128"], &[]);
    let chosen = select_devices(
        discover_local_gpus(&all),
        &request(4, &["1", "/dev/nvidia0", "/dev/dri/renderD128", "amd0"]),
    )
    .unwrap();
    assert_eq!(ids(&chosen), vec!["nvidia1", "nvidia0", "amd0", "amd0"]);
    assert_eq!(
        select_devices(discover_local_gpus(&all), &request(1, &["7"])).unwrap_err(),
        "requested gpu_id '7' is not available on this host"
    );
}

#[test]
fn nvidia_devices_are_prepared() {
    let all = host(
        &["nvidia0", "nvidia1"],
        &[],
        &["/dev/nvidiactl", "/dev/nvidia-modeset"],
    );
    let runtime = prepare_gpu_runtime(&request(2, &[]), &all).unwrap();
    let sources: Vec<&str> = runtime.mounts.iter().map(|mount| mount.source.as_str()).collect();
    assert_eq!(
        sources,
        vec!["/dev/nvidiactl", "/dev/nvidia-modeset", "/dev/nvidia0", "/dev/nvidia1"]
    );
    assert!(runtime.mounts.iter().all(|mount| mount.source == mount.target && !mount.readonly));
    assert_eq!(runtime.env.get("CUDA_VISIBLE_DEVICES").map(String::as_str), Some("0,1"));
    assert_eq!(runtime.env.get("NVIDIA_VISIBLE_DEVICES").map(String::as_str), Some("0,1"));
    assert_eq!(
        runtime.env.get("NVIDIA_DRIVER_CAPABILITIES").map(String::as_str),
        Some("compute,utility")
    );
    assert_eq!(runtime.env.len(), 3);
}

#[test]
fn amd_devices_are_prepared() {
    let all = host(&[], &["renderD128"], &["/dev/kfd", "/dev/dri"]);
    let runtime = prepare_gpu_runtime(&request(1, &[]), &all).unwrap();
    let sources: Vec<&str> = runtime.mounts.iter().map(|mount| mount.source.as_str()).collect();
    assert_eq!(sources, vec!["/dev/kfd", "/dev/dri"]);
    assert_eq!(runtime.env.get("HIP_VISIBLE_DEVICES").map(String::as_str), Some("0"));
    assert_eq!(runtime.env.get("LD_LIBRARY_PATH"), None);
    let wsl = host(&[], &[], &["/dev/dxg", "/usr/lib/wsl/lib"]);
    let runtime = prepare_gpu_runtime(&request(1, &[]), &wsl).unwrap();
    let mounts: Vec<(&str, bool)> =
        runtime.mounts.iter().map(|mount| (mount.source.as_str(), mount.readonly)).collect();
    assert_eq!(mounts, vec![("/dev/dxg", false), ("/usr/lib/wsl/lib", true)]);
    assert_eq!(
        runtime.env.get("LD_LIBRARY_PATH").map(String::as_str),
        Some("/usr/lib/wsl/lib")
    );
}

#[test]
fn requests_without_devices_change_nothing() {
    let runtime = prepare_gpu_runtime(&request(0, &[]), &host(&[], &[], &[])).unwrap();
    assert!(runtime.mounts.is_empty());
    assert_eq!(runtime.env.len(), 0);
    assert!(!request(0, &[]).is_enabled());
    assert!(request(1, &[]).is_enabled());
}

#[test]
fn vendors_are_not_mixed() {
    let all = host(&["nvidia0"], &["renderD128"], &[]);
    assert_eq!(
        prepare_gpu_runtime(&request(2, &["nvidia0", "amd0"]), &all).err().unwrap(),
        "a single qbuild container cannot mix NVIDIA and AMD GPU devices"
    );
    assert_eq!(
        prepare_devices(&all, &Vec::new()).err().unwrap(),
        "gpu_count requested but no local GPU devices are available"
    );
}

#[test]
fn mounts_are_not_repeated() {
    let mut mounts = Vec::new();
    push_mount(&mut mounts, "/a", true);
    push_mount(&mut mounts, "/a", false);
    push_mount(&mut mounts, "/b", false);
    assert_eq!(mounts.len(), 2);
    assert!(mounts[0].readonly);
}

#[test]
fn only_trusted_paths_are_probed() {
    let paths = trusted_paths();
    assert_eq!(paths.len(), 8);
    assert!(paths.contains(&"/dev/nvidiactl".to_string()));
    assert!(paths.contains(&"/usr/lib/wsl/lib".to_string()));
    let everything = GpuHost {
        dev_names: words(&["nvidia0"]),
        dri_names: words(&["renderD128"]),
        existing: trusted_paths(),
    };
    let runtime = prepare_gpu_runtime(&request(1, &["nvidia0"]), &everything).unwrap();
    assert!(runtime
        .mounts
        .iter()
        .all(|mount| mount.source == "/dev/nvidia0" || paths.contains(&mount.source)));
}
