//! Graphics devices: which the host has, which a container gets, and what it needs
//! to use them.
use crate::number::{all_digits, decimal, decimal_reads_back, decimal_text, is_digit};
use crate::number::{parse_usize, read_decimal};
use crate::protocol::{BindMountSpec, GpuRequest, MountModel};
use crate::sequence::{lemma_filter_empty, lemma_filter_front, lemma_filter_next};
use crate::stable_sort::{has_key, is_stable_sort, stable_sort, with_key, Keyed};
use crate::text::{after_prefix, begins, chars_of, glue, glue3, glue5, join_all, joined};
use crate::text::{outcome, same_text, strip_prefix};
use crate::text_map::StringMap;
use vstd::prelude::*;

verus! {

// ---------------------------------------------------------------------------
// Requests
// ---------------------------------------------------------------------------
/// What is wrong with a request: devices that are named have to be as many as are
/// asked for.
pub open spec fn request_problem(request: GpuRequest) -> Option<Seq<char>> {
    if request.device_ids@.len() > 0 && request.device_ids@.len() != request.count {
        Some("gpu_count must match the number of requested gpu_ids"@)
    } else {
        None
    }
}

impl GpuRequest {
    /// Whether the request can be met at all.
    pub fn validate(&self) -> (result: Result<(), String>)
        ensures
            match request_problem(*self) {
                Some(text) => result matches Err(message) && message@ == text,
                None => result is Ok,
            },
    {
        if self.device_ids.len() > 0 && self.device_ids.len() as u64 != self.count as u64 {
            return Err("gpu_count must match the number of requested gpu_ids".to_string());
        }
        Ok(())
    }

    /// Whether any device is asked for.
    pub fn is_enabled(&self) -> (enabled: bool)
        ensures
            enabled == (self.count > 0),
    {
        self.count > 0
    }
}

// ---------------------------------------------------------------------------
// Devices
// ---------------------------------------------------------------------------
/// Who made a device.
#[derive(Debug, Clone, Copy, PartialEq, Eq, Structural)]
pub enum GpuVendor {
    Nvidia,
    Amd,
}

/// A device of the host.
#[derive(Debug)]
pub struct LocalGpuDevice {
    pub id: String,
    pub vendor: GpuVendor,
    pub index: usize,
    pub device_path: String,
}

/// A [`LocalGpuDevice`] as a mathematical value.
#[verifier::ext_equal]
pub struct DeviceModel {
    pub id: Seq<char>,
    pub vendor: GpuVendor,
    pub index: nat,
    pub device_path: Seq<char>,
}

impl DeepView for LocalGpuDevice {
    type V = DeviceModel;

    open spec fn deep_view(&self) -> DeviceModel {
        DeviceModel {
            id: self.id@,
            vendor: self.vendor,
            index: self.index as nat,
            device_path: self.device_path@,
        }
    }
}

impl Clone for LocalGpuDevice {
    fn clone(&self) -> (copy: Self)
        ensures
            copy.deep_view() == self.deep_view(),
    {
        LocalGpuDevice {
            id: self.id.clone(),
            vendor: self.vendor,
            index: self.index,
            device_path: self.device_path.clone(),
        }
    }
}

/// What the host says of its devices.
pub struct GpuHost {
    /// The names in `/dev`.
    pub dev_names: Vec<String>,
    /// The names in `/dev/dri`.
    pub dri_names: Vec<String>,
    /// Those of the trusted paths that exist.
    pub existing: Vec<String>,
}

/// The paths that a container may be given besides the devices themselves.
pub open spec fn trusted() -> Seq<Seq<char>> {
    seq![
        "/dev/nvidiactl"@,
        "/dev/nvidia-uvm"@,
        "/dev/nvidia-uvm-tools"@,
        "/dev/nvidia-modeset"@,
        "/dev/kfd"@,
        "/dev/dxg"@,
        "/dev/dri"@,
        "/usr/lib/wsl/lib"@,
    ]
}

/// The paths that a container may be given besides the devices themselves.
pub fn trusted_paths() -> (paths: Vec<String>)
    ensures
        paths.deep_view() == trusted(),
{
    let mut paths: Vec<String> = Vec::new();
    paths.push("/dev/nvidiactl".to_string());
    paths.push("/dev/nvidia-uvm".to_string());
    paths.push("/dev/nvidia-uvm-tools".to_string());
    paths.push("/dev/nvidia-modeset".to_string());
    paths.push("/dev/kfd".to_string());
    paths.push("/dev/dxg".to_string());
    paths.push("/dev/dri".to_string());
    paths.push("/usr/lib/wsl/lib".to_string());
    assert(paths.deep_view() =~= trusted());
    paths
}

/// The path exists on the host.
pub open spec fn on_host(host: GpuHost, path: Seq<char>) -> bool {
    host.existing.deep_view().contains(path)
}

/// Whether the path exists on the host.
fn exists_on(host: &GpuHost, path: &str) -> (found: bool)
    ensures
        found == on_host(*host, path@),
{
    let ghost all = host.existing.deep_view();
    let mut at: usize = 0;
    while at < host.existing.len()
        invariant
            at <= host.existing@.len(),
            all == host.existing.deep_view(),
            forall|i: int| 0 <= i < at ==> all[i] != path@,
        decreases host.existing@.len() - at,
    {
        assert(all[at as int] == host.existing@[at as int]@);
        if same_text(&host.existing[at], path) {
            assert(all.contains(path@));
            return true;
        }
        at = at + 1;
    }
    false
}

/// A device node that was found, with the number in its name.
pub struct NumberedNode {
    pub number: usize,
    pub name: String,
}

/// A [`NumberedNode`] as a mathematical value.
#[verifier::ext_equal]
pub struct NodeModel {
    pub number: nat,
    pub name: Seq<char>,
}

impl DeepView for NumberedNode {
    type V = NodeModel;

    open spec fn deep_view(&self) -> NodeModel {
        NodeModel { number: self.number as nat, name: self.name@ }
    }
}

impl Keyed for NumberedNode {
    open spec fn key(self) -> int {
        self.number as int
    }

    fn at_most(&self, other: &Self) -> (le: bool) {
        self.number <= other.number
    }
}

/// The number after a prefix.
pub open spec fn number_after(name: Seq<char>, prefix: Seq<char>) -> Option<nat> {
    match after_prefix(name, prefix) {
        Some(rest) => read_decimal(rest, usize::MAX as nat),
        None => None,
    }
}

/// The names that are a prefix and a number, with their numbers.
pub open spec fn numbered(all: Seq<Seq<char>>, prefix: Seq<char>) -> Seq<NodeModel> {
    all.filter(|name: Seq<char>| number_after(name, prefix) is Some).map_values(
        |name: Seq<char>| NodeModel { number: number_after(name, prefix)->0, name },
    )
}

/// The names that are a prefix and a number, in the order of the numbers.
pub fn numbered_nodes(all: &Vec<String>, prefix: &str) -> (nodes: Vec<NumberedNode>)
    ensures
        exists|unsorted: Seq<NumberedNode>| #[trigger]
            is_stable_sort(unsorted, nodes@) && unsorted.map_values(
                |node: NumberedNode| node.deep_view(),
            ) == numbered(all.deep_view(), prefix@),
{
    let ghost model = all.deep_view();
    let ghost is_node = |name: Seq<char>| number_after(name, prefix@) is Some;
    let ghost node_of = |name: Seq<char>|
        NodeModel { number: number_after(name, prefix@)->0, name };
    let mut found: Vec<NumberedNode> = Vec::new();
    let mut at: usize = 0;
    proof {
        lemma_filter_empty(model.take(0), is_node);
        assert(found.deep_view() =~= model.take(0).filter(is_node).map_values(node_of));
    }
    while at < all.len()
        invariant
            at <= all@.len(),
            all.deep_view() == model,
            is_node == (|name: Seq<char>| number_after(name, prefix@) is Some),
            node_of == (|name: Seq<char>|
                NodeModel { number: number_after(name, prefix@)->0, name }),
            found.deep_view() == model.take(at as int).filter(is_node).map_values(node_of),
        decreases all@.len() - at,
    {
        let ghost before = found.deep_view();
        proof {
            assert(model[at as int] == all@[at as int]@);
            lemma_filter_next(model, at as int, is_node);
        }
        if let Some(rest) = strip_prefix(&all[at], prefix) {
            if let Some(number) = parse_usize(&rest) {
                let node = NumberedNode { number, name: all[at].clone() };
                found.push(node);
                proof {
                    assert(found.deep_view() =~= before.push(node.deep_view()));
                    let kept = model.take(at as int).filter(is_node);
                    assert(kept.push(model[at as int]).map_values(node_of) =~= kept.map_values(
                        node_of,
                    ).push(node_of(model[at as int])));
                }
            }
        }
        at = at + 1;
    }
    assert(model.take(at as int) =~= model);
    let ghost unsorted = found@;
    let nodes = stable_sort(found);
    proof {
        assert(unsorted.map_values(|node: NumberedNode| node.deep_view()) =~= found.deep_view());
        assert(is_stable_sort(unsorted, nodes@));
    }
    nodes
}

/// The NVIDIA device of a node.
pub open spec fn nvidia_device(node: NodeModel) -> DeviceModel {
    DeviceModel {
        id: "nvidia"@ + decimal(node.number),
        vendor: GpuVendor::Nvidia,
        index: node.number,
        device_path: "/dev/"@ + node.name,
    }
}

/// The NVIDIA devices of nodes.
pub fn nvidia_devices(nodes: &Vec<NumberedNode>) -> (devices: Vec<LocalGpuDevice>)
    ensures
        devices.deep_view() == nodes.deep_view().map_values(
            |node: NodeModel| nvidia_device(node),
        ),
{
    let ghost all = nodes.deep_view().map_values(|node: NodeModel| nvidia_device(node));
    let mut devices: Vec<LocalGpuDevice> = Vec::new();
    let mut at: usize = 0;
    while at < nodes.len()
        invariant
            at <= nodes@.len(),
            all == nodes.deep_view().map_values(|node: NodeModel| nvidia_device(node)),
            devices.deep_view() == all.take(at as int),
        decreases nodes@.len() - at,
    {
        let ghost before = devices.deep_view();
        let node = &nodes[at];
        assert(nodes.deep_view()[at as int] == node.deep_view());
        let device = LocalGpuDevice {
            id: glue("nvidia", &decimal_text(node.number as u64)),
            vendor: GpuVendor::Nvidia,
            index: node.number,
            device_path: glue("/dev/", &node.name),
        };
        devices.push(device);
        proof {
            assert(devices.deep_view() =~= before.push(device.deep_view()));
            assert(all.take(at + 1) =~= all.take(at as int).push(all[at as int]));
        }
        at = at + 1;
    }
    assert(all.take(at as int) =~= all);
    devices
}

/// The AMD devices of nodes: they are counted anew.
pub open spec fn amd_devices_of(nodes: Seq<NodeModel>) -> Seq<DeviceModel> {
    Seq::new(
        nodes.len(),
        |i: int|
            DeviceModel {
                id: "amd"@ + decimal(i as nat),
                vendor: GpuVendor::Amd,
                index: i as nat,
                device_path: "/dev/dri/"@ + nodes[i].name,
            },
    )
}

/// The AMD devices of nodes: they are counted anew.
pub fn amd_devices(nodes: &Vec<NumberedNode>) -> (devices: Vec<LocalGpuDevice>)
    ensures
        devices.deep_view() == amd_devices_of(nodes.deep_view()),
{
    let ghost all = amd_devices_of(nodes.deep_view());
    let mut devices: Vec<LocalGpuDevice> = Vec::new();
    let mut at: usize = 0;
    while at < nodes.len()
        invariant
            at <= nodes@.len(),
            all == amd_devices_of(nodes.deep_view()),
            devices.deep_view() == all.take(at as int),
        decreases nodes@.len() - at,
    {
        let ghost before = devices.deep_view();
        let node = &nodes[at];
        assert(nodes.deep_view()[at as int] == node.deep_view());
        let device = LocalGpuDevice {
            id: glue("amd", &decimal_text(at as u64)),
            vendor: GpuVendor::Amd,
            index: at,
            device_path: glue("/dev/dri/", &node.name),
        };
        devices.push(device);
        proof {
            assert(devices.deep_view() =~= before.push(device.deep_view()));
            assert(all.take(at + 1) =~= all.take(at as int).push(all[at as int]));
        }
        at = at + 1;
    }
    assert(all.take(at as int) =~= all);
    devices
}

/// The one device that a host has whose devices are behind `/dev/dxg`.
pub open spec fn dxg_device() -> DeviceModel {
    DeviceModel { id: "amd0"@, vendor: GpuVendor::Amd, index: 0, device_path: "/dev/dxg"@ }
}

/// The devices are those of the nodes in the order of their numbers.
pub open spec fn discovered(
    host: GpuHost,
    nvidia: Seq<NodeModel>,
    render: Seq<NodeModel>,
) -> Seq<DeviceModel> {
    nvidia.map_values(|node: NodeModel| nvidia_device(node)) + if on_host(host, "/dev/dxg"@) {
        seq![dxg_device()]
    } else {
        amd_devices_of(render)
    }
}

/// The nodes are those with a prefix and a number, stably sorted by the number.
pub open spec fn sorted_nodes(
    all: Seq<Seq<char>>,
    prefix: Seq<char>,
    nodes: Seq<NodeModel>,
) -> bool {
    exists|unsorted: Seq<NumberedNode>, sorted: Seq<NumberedNode>| #[trigger]
        is_stable_sort(unsorted, sorted) && unsorted.map_values(
            |node: NumberedNode| node.deep_view(),
        ) == numbered(all, prefix) && sorted.map_values(|node: NumberedNode| node.deep_view())
            == nodes
}

/// The devices are those that the host has.
pub open spec fn are_local_gpus(host: GpuHost, devices: Seq<DeviceModel>) -> bool {
    exists|nvidia: Seq<NodeModel>, render: Seq<NodeModel>|
        sorted_nodes(host.dev_names.deep_view(), "nvidia"@, nvidia) && sorted_nodes(
            host.dri_names.deep_view(),
            "renderD"@,
            render,
        ) && #[trigger] discovered(host, nvidia, render) == devices
}

/// The devices of the host: NVIDIA ones by their numbers, then AMD ones by the
/// numbers of their render nodes.
pub fn discover_local_gpus(host: &GpuHost) -> (devices: Vec<LocalGpuDevice>)
    ensures
        are_local_gpus(*host, devices.deep_view()),
{
    let nvidia_nodes = numbered_nodes(&host.dev_names, "nvidia");
    let render_nodes = numbered_nodes(&host.dri_names, "renderD");
    let mut devices = nvidia_devices(&nvidia_nodes);
    let ghost first = devices.deep_view();
    let mut others: Vec<LocalGpuDevice> = Vec::new();
    if exists_on(host, "/dev/dxg") {
        others.push(
            LocalGpuDevice {
                id: "amd0".to_string(),
                vendor: GpuVendor::Amd,
                index: 0,
                device_path: "/dev/dxg".to_string(),
            },
        );
        assert(others.deep_view() =~= seq![dxg_device()]);
    } else {
        others = amd_devices(&render_nodes);
    }
    let ghost second = others.deep_view();
    devices.append(&mut others);
    proof {
        assert(devices.deep_view() =~= first + second);
        let nvidia = nvidia_nodes.deep_view();
        let render = render_nodes.deep_view();
        let unsorted = choose|unsorted: Seq<NumberedNode>| #[trigger]
            is_stable_sort(unsorted, nvidia_nodes@) && unsorted.map_values(
                |node: NumberedNode| node.deep_view(),
            ) == numbered(host.dev_names.deep_view(), "nvidia"@);
        assert(is_stable_sort(unsorted, nvidia_nodes@));
        assert(nvidia_nodes@.map_values(|node: NumberedNode| node.deep_view()) =~= nvidia);
        assert(sorted_nodes(host.dev_names.deep_view(), "nvidia"@, nvidia));
        let unsorted_render = choose|unsorted: Seq<NumberedNode>| #[trigger]
            is_stable_sort(unsorted, render_nodes@) && unsorted.map_values(
                |node: NumberedNode| node.deep_view(),
            ) == numbered(host.dri_names.deep_view(), "renderD"@);
        assert(is_stable_sort(unsorted_render, render_nodes@));
        assert(render_nodes@.map_values(|node: NumberedNode| node.deep_view()) =~= render);
        assert(sorted_nodes(host.dri_names.deep_view(), "renderD"@, render));
        assert(discovered(*host, nvidia, render) =~= devices.deep_view());
    }
    devices
}

// ---------------------------------------------------------------------------
// Selection
// ---------------------------------------------------------------------------
/// The name of a device: what follows `/dev/`, and for a bare number the NVIDIA
/// device of that number.
pub open spec fn normalized_id(value: Seq<char>) -> Seq<char>
    decreases value.len(),
{
    proof {
        reveal_strlit("/dev/");
    }
    match after_prefix(value, "/dev/"@) {
        Some(name) => normalized_id(name),
        None => if all_digits(value) {
            "nvidia"@ + value
        } else {
            value
        },
    }
}

/// Whether a text has digits only.
fn is_all_digits(text: &str) -> (found: bool)
    ensures
        found == all_digits(text@),
{
    let chars = chars_of(text);
    let mut at: usize = 0;
    while at < chars.len()
        invariant
            chars@ == text@,
            at <= chars@.len(),
            forall|i: int| 0 <= i < at ==> is_digit(#[trigger] text@[i]),
        decreases chars@.len() - at,
    {
        if !('0' <= chars[at] && chars[at] <= '9') {
            assert(!is_digit(text@[at as int]));
            return false;
        }
        at = at + 1;
    }
    true
}

/// The name of a device: what follows `/dev/`, and for a bare number the NVIDIA
/// device of that number.
pub fn normalize_gpu_id(value: &str) -> (id: String)
    ensures
        id@ == normalized_id(value@),
    decreases value@.len(),
{
    proof {
        reveal_strlit("/dev/");
    }
    if let Some(name) = strip_prefix(value, "/dev/") {
        return normalize_gpu_id(&name);
    }
    if is_all_digits(value) {
        return glue("nvidia", value);
    }
    value.to_string()
}

/// The device is the one that a name asks for.
pub open spec fn answers_to(device: DeviceModel, requested: Seq<char>) -> bool {
    device.id == normalized_id(requested) || device.id == requested || device.device_path
        == requested || decimal(device.index) == requested
}

/// The place of the first device at or after `at` that a name asks for, or the
/// length.
pub open spec fn device_from(devices: Seq<DeviceModel>, requested: Seq<char>, at: int) -> int
    decreases devices.len() - at,
{
    if at >= devices.len() {
        devices.len() as int
    } else if answers_to(devices[at], requested) {
        at
    } else {
        device_from(devices, requested, at + 1)
    }
}

/// The first device that a name asks for.
fn find_device(devices: &Vec<LocalGpuDevice>, requested: &str) -> (found: Option<usize>)
    ensures
        match found {
            Some(at) => at < devices@.len() && at == device_from(
                devices.deep_view(),
                requested@,
                0,
            ),
            None => device_from(devices.deep_view(), requested@, 0) >= devices@.len(),
        },
{
    let ghost all = devices.deep_view();
    let wanted = normalize_gpu_id(requested);
    let mut at: usize = 0;
    while at < devices.len()
        invariant
            at <= devices@.len(),
            devices.deep_view() == all,
            wanted@ == normalized_id(requested@),
            device_from(all, requested@, 0) == device_from(all, requested@, at as int),
        decreases devices@.len() - at,
    {
        let device = &devices[at];
        assert(all[at as int] == device.deep_view());
        if same_text(&device.id, &wanted) || same_text(&device.id, requested) || same_text(
            &device.device_path,
            requested,
        ) || same_text(&decimal_text(device.index as u64), requested) {
            return Some(at);
        }
        at = at + 1;
    }
    None
}

/// The devices of a vendor.
pub open spec fn of_vendor(devices: Seq<DeviceModel>, vendor: GpuVendor) -> Seq<DeviceModel> {
    devices.filter(|device: DeviceModel| device.vendor == vendor)
}

/// The devices that a request gets: those it names, or the first of one vendor,
/// NVIDIA before AMD.
pub open spec fn selected(
    devices: Seq<DeviceModel>,
    count: nat,
    ids: Seq<Seq<char>>,
) -> Result<Seq<DeviceModel>, Seq<char>> {
    if ids.len() > 0 {
        let missing = ids.filter(|id: Seq<char>| device_from(devices, id, 0) >= devices.len());
        if missing.len() > 0 {
            Err("requested gpu_id '"@ + missing[0] + "' is not available on this host"@)
        } else {
            Ok(ids.map_values(|id: Seq<char>| devices[device_from(devices, id, 0)]))
        }
    } else if of_vendor(devices, GpuVendor::Nvidia).len() >= count {
        Ok(of_vendor(devices, GpuVendor::Nvidia).take(count as int))
    } else if of_vendor(devices, GpuVendor::Amd).len() >= count {
        Ok(of_vendor(devices, GpuVendor::Amd).take(count as int))
    } else {
        Err(
            "requested "@ + decimal(count) + " GPU(s), but only "@ + decimal(devices.len())
                + " compatible local GPU device(s) are available"@,
        )
    }
}

/// The first devices of a vendor, up to `count` of them.
fn first_of_vendor(devices: &Vec<LocalGpuDevice>, vendor: GpuVendor, count: usize) -> (found: Vec<
    LocalGpuDevice,
>)
    ensures
        found@.len() == count <==> of_vendor(devices.deep_view(), vendor).len() >= count,
        found@.len() == count ==> found.deep_view() == of_vendor(devices.deep_view(), vendor).take(
            count as int,
        ),
{
    let ghost all = devices.deep_view();
    let ghost is_theirs = |device: DeviceModel| device.vendor == vendor;
    let mut found: Vec<LocalGpuDevice> = Vec::new();
    let mut at: usize = 0;
    proof {
        lemma_filter_empty(all.take(0), is_theirs);
        assert(found.deep_view() =~= Seq::<DeviceModel>::empty());
    }
    while at < devices.len() && found.len() < count
        invariant
            at <= devices@.len(),
            devices.deep_view() == all,
            is_theirs == (|device: DeviceModel| device.vendor == vendor),
            found.deep_view() == all.take(at as int).filter(is_theirs),
            found@.len() <= count,
        decreases devices@.len() - at,
    {
        let ghost before = found.deep_view();
        let device = &devices[at];
        proof {
            assert(all[at as int] == device.deep_view());
            lemma_filter_next(all, at as int, is_theirs);
        }
        if device.vendor == vendor {
            let copy = device.clone();
            found.push(copy);
            assert(found.deep_view() =~= before.push(copy.deep_view()));
        }
        at = at + 1;
    }
    proof {
        lemma_filter_front(all, at as int, is_theirs);
        assert(found.deep_view().len() == found@.len());
        if found@.len() == count {
            assert(of_vendor(all, vendor).take(count as int) =~= found.deep_view());
        } else {
            assert(all.take(at as int) =~= all);
        }
    }
    found
}

/// The devices that a request gets.
pub fn select_devices(devices: Vec<LocalGpuDevice>, request: &GpuRequest) -> (result: Result<
    Vec<LocalGpuDevice>,
    String,
>)
    ensures
        outcome(result) == selected(
            devices.deep_view(),
            request.count as nat,
            request.device_ids.deep_view(),
        ),
{
    let ghost all = devices.deep_view();
    if request.device_ids.len() > 0 {
        let ids = &request.device_ids;
        let ghost names = ids.deep_view();
        let ghost is_missing = |id: Seq<char>| device_from(all, id, 0) >= all.len();
        let ghost chosen = names.map_values(|id: Seq<char>| all[device_from(all, id, 0)]);
        let mut result: Vec<LocalGpuDevice> = Vec::new();
        let mut at: usize = 0;
        proof {
            lemma_filter_empty(names.take(0), is_missing);
            assert(result.deep_view() =~= chosen.take(0));
        }
        while at < ids.len()
            invariant
                at <= ids@.len(),
                0 < ids@.len(),
                devices.deep_view() == all,
                ids.deep_view() == names,
                request.device_ids.deep_view() == names,
                is_missing == (|id: Seq<char>| device_from(all, id, 0) >= all.len()),
                chosen == names.map_values(|id: Seq<char>| all[device_from(all, id, 0)]),
                names.take(at as int).filter(is_missing) == Seq::<Seq<char>>::empty(),
                result.deep_view() == chosen.take(at as int),
            decreases ids@.len() - at,
        {
            let ghost before = result.deep_view();
            proof {
                assert(names[at as int] == ids@[at as int]@);
                lemma_filter_next(names, at as int, is_missing);
                lemma_filter_front(names, at + 1, is_missing);
            }
            match find_device(&devices, &ids[at]) {
                None => {
                    return Err(
                        glue3(
                            "requested gpu_id '",
                            &ids[at],
                            "' is not available on this host",
                        ),
                    );
                },
                Some(place) => {
                    let copy = devices[place].clone();
                    result.push(copy);
                    proof {
                        assert(all[place as int] == devices@[place as int].deep_view());
                        assert(result.deep_view() =~= before.push(copy.deep_view()));
                        assert(chosen.take(at + 1) =~= chosen.take(at as int).push(
                            chosen[at as int],
                        ));
                    }
                },
            }
            at = at + 1;
        }
        assert(names.take(at as int) =~= names);
        assert(chosen.take(at as int) =~= chosen);
        return Ok(result);
    }
    let count = request.count as usize;
    let nvidia = first_of_vendor(&devices, GpuVendor::Nvidia, count);
    if nvidia.len() == count {
        return Ok(nvidia);
    }
    let amd = first_of_vendor(&devices, GpuVendor::Amd, count);
    if amd.len() == count {
        return Ok(amd);
    }
    Err(
        glue5(
            "requested ",
            &decimal_text(count as u64),
            " GPU(s), but only ",
            &decimal_text(devices.len() as u64),
            " compatible local GPU device(s) are available",
        ),
    )
}

// ---------------------------------------------------------------------------
// Mounts and environment
// ---------------------------------------------------------------------------
/// What a container needs to use its devices.
pub struct GpuRuntimeSpec {
    pub mounts: Vec<BindMountSpec>,
    pub env: StringMap,
}

/// A [`GpuRuntimeSpec`] as a mathematical value.
#[verifier::ext_equal]
pub struct GpuRuntimeModel {
    pub mounts: Seq<MountModel>,
    pub env: Map<Seq<char>, Seq<char>>,
}

impl DeepView for GpuRuntimeSpec {
    type V = GpuRuntimeModel;

    open spec fn deep_view(&self) -> GpuRuntimeModel {
        GpuRuntimeModel { mounts: self.mounts.deep_view(), env: self.env.deep_view() }
    }
}

/// A path of the host is mounted at the same path.
pub open spec fn has_mount(mounts: Seq<MountModel>, path: Seq<char>) -> bool {
    exists|i: int|
        0 <= i < mounts.len() && #[trigger] mounts[i].source == path && mounts[i].target == path
}

/// The mounts with one more, unless the path is mounted already.
pub open spec fn with_mount(
    mounts: Seq<MountModel>,
    path: Seq<char>,
    readonly: bool,
) -> Seq<MountModel> {
    if has_mount(mounts, path) {
        mounts
    } else {
        mounts.push(MountModel { source: path, target: path, readonly })
    }
}

/// The mounts of the first `count` paths.
pub open spec fn mounts_of(paths: Seq<(Seq<char>, bool)>, count: int) -> Seq<MountModel>
    decreases count,
{
    if count <= 0 {
        seq![]
    } else {
        with_mount(mounts_of(paths, count - 1), paths[count - 1].0, paths[count - 1].1)
    }
}

/// Mounts a path of the host at the same path, unless it is mounted already.
pub fn push_mount(mounts: &mut Vec<BindMountSpec>, path: &str, readonly: bool)
    ensures
        final(mounts).deep_view() == with_mount(old(mounts).deep_view(), path@, readonly),
{
    let ghost before = mounts.deep_view();
    let mut at: usize = 0;
    while at < mounts.len()
        invariant
            at <= mounts@.len(),
            mounts.deep_view() == before,
            *mounts == *old(mounts),
            forall|i: int|
                0 <= i < at ==> !(#[trigger] before[i].source == path@ && before[i].target
                    == path@),
        decreases mounts@.len() - at,
    {
        assert(before[at as int] == mounts@[at as int].deep_view());
        if same_text(&mounts[at].source, path) && same_text(&mounts[at].target, path) {
            assert(before[at as int].source == path@);
            return;
        }
        at = at + 1;
    }
    let mount = BindMountSpec { source: path.to_string(), target: path.to_string(), readonly };
    mounts.push(mount);
    assert(mounts.deep_view() =~= before.push(mount.deep_view()));
}

/// The mounts of a list of paths.
fn mount_all(paths: &Vec<(String, bool)>) -> (mounts: Vec<BindMountSpec>)
    ensures
        mounts.deep_view() == mounts_of(paths.deep_view(), paths@.len() as int),
{
    let ghost all = paths.deep_view();
    let mut mounts: Vec<BindMountSpec> = Vec::new();
    let mut at: usize = 0;
    assert(mounts.deep_view() =~= mounts_of(all, 0));
    while at < paths.len()
        invariant
            at <= paths@.len(),
            paths.deep_view() == all,
            mounts.deep_view() == mounts_of(all, at as int),
        decreases paths@.len() - at,
    {
        assert(all[at as int] == (paths@[at as int].0@, paths@[at as int].1));
        push_mount(&mut mounts, &paths[at].0, paths[at].1);
        at = at + 1;
    }
    mounts
}

/// A path, where it exists on the host.
pub open spec fn if_present(host: GpuHost, path: Seq<char>, readonly: bool) -> Seq<
    (Seq<char>, bool),
> {
    if on_host(host, path) {
        seq![(path, readonly)]
    } else {
        seq![]
    }
}

/// Appends a path where it exists on the host.
fn push_present(paths: &mut Vec<(String, bool)>, host: &GpuHost, path: &str, readonly: bool)
    ensures
        final(paths).deep_view() == old(paths).deep_view() + if_present(*host, path@, readonly),
{
    let ghost before = paths.deep_view();
    if exists_on(host, path) {
        let entry = (path.to_string(), readonly);
        paths.push(entry);
        assert(paths.deep_view() =~= before + seq![(path@, readonly)]);
    } else {
        assert(before + seq![] =~= before);
    }
}

/// The paths of devices.
pub open spec fn device_paths(devices: Seq<DeviceModel>) -> Seq<(Seq<char>, bool)> {
    devices.map_values(|device: DeviceModel| (device.device_path, false))
}

/// Appends the paths of devices.
fn push_devices(paths: &mut Vec<(String, bool)>, devices: &Vec<LocalGpuDevice>)
    ensures
        final(paths).deep_view() == old(paths).deep_view() + device_paths(devices.deep_view()),
{
    let ghost before = paths.deep_view();
    let ghost all = device_paths(devices.deep_view());
    let mut at: usize = 0;
    assert(before + all.take(0) =~= before);
    while at < devices.len()
        invariant
            at <= devices@.len(),
            all == device_paths(devices.deep_view()),
            paths.deep_view() == before + all.take(at as int),
        decreases devices@.len() - at,
    {
        let ghost gathered = paths.deep_view();
        let entry = (devices[at].device_path.clone(), false);
        paths.push(entry);
        proof {
            assert(devices.deep_view()[at as int] == devices@[at as int].deep_view());
            assert(paths.deep_view() =~= gathered.push(all[at as int]));
            assert(before + all.take(at + 1) =~= (before + all.take(at as int)).push(
                all[at as int],
            ));
        }
        at = at + 1;
    }
    assert(all.take(at as int) =~= all);
}

/// The numbers of devices in a row.
pub open spec fn visible_devices(devices: Seq<DeviceModel>) -> Seq<char> {
    joined(devices.map_values(|device: DeviceModel| decimal(device.index)), ","@)
}

/// The numbers of devices in a row.
fn visible(devices: &Vec<LocalGpuDevice>) -> (text: String)
    ensures
        text@ == visible_devices(devices.deep_view()),
{
    let ghost all = devices.deep_view().map_values(|device: DeviceModel| decimal(device.index));
    let mut numbers: Vec<String> = Vec::new();
    let mut at: usize = 0;
    while at < devices.len()
        invariant
            at <= devices@.len(),
            all == devices.deep_view().map_values(|device: DeviceModel| decimal(device.index)),
            numbers.deep_view() == all.take(at as int),
        decreases devices@.len() - at,
    {
        let ghost before = numbers.deep_view();
        let number = decimal_text(devices[at].index as u64);
        numbers.push(number);
        proof {
            assert(devices.deep_view()[at as int] == devices@[at as int].deep_view());
            assert(numbers.deep_view() =~= before.push(number@));
            assert(all.take(at + 1) =~= all.take(at as int).push(all[at as int]));
        }
        at = at + 1;
    }
    assert(all.take(at as int) =~= all);
    join_all(&numbers, ",")
}

/// The paths that NVIDIA devices need.
pub open spec fn nvidia_paths(host: GpuHost, devices: Seq<DeviceModel>) -> Seq<(Seq<char>, bool)> {
    if_present(host, "/dev/nvidiactl"@, false) + if_present(host, "/dev/nvidia-uvm"@, false)
        + if_present(host, "/dev/nvidia-uvm-tools"@, false) + if_present(
        host,
        "/dev/nvidia-modeset"@,
        false,
    ) + device_paths(devices)
}

/// What a container needs to use NVIDIA devices.
pub open spec fn nvidia_runtime(host: GpuHost, devices: Seq<DeviceModel>) -> GpuRuntimeModel {
    let paths = nvidia_paths(host, devices);
    GpuRuntimeModel {
        mounts: mounts_of(paths, paths.len() as int),
        env: Map::<Seq<char>, Seq<char>>::empty().insert(
            "CUDA_VISIBLE_DEVICES"@,
            visible_devices(devices),
        ).insert("NVIDIA_VISIBLE_DEVICES"@, visible_devices(devices)).insert(
            "NVIDIA_DRIVER_CAPABILITIES"@,
            "compute,utility"@,
        ),
    }
}

/// What a container needs to use NVIDIA devices.
pub fn prepare_nvidia_runtime(host: &GpuHost, devices: &Vec<LocalGpuDevice>) -> (runtime:
    GpuRuntimeSpec)
    ensures
        runtime.deep_view() == nvidia_runtime(*host, devices.deep_view()),
{
    let mut paths: Vec<(String, bool)> = Vec::new();
    push_present(&mut paths, host, "/dev/nvidiactl", false);
    push_present(&mut paths, host, "/dev/nvidia-uvm", false);
    push_present(&mut paths, host, "/dev/nvidia-uvm-tools", false);
    push_present(&mut paths, host, "/dev/nvidia-modeset", false);
    push_devices(&mut paths, devices);
    assert(paths.deep_view() =~= nvidia_paths(*host, devices.deep_view()));
    let mounts = mount_all(&paths);
    let numbers = visible(devices);
    let mut env = StringMap::new();
    env.insert("CUDA_VISIBLE_DEVICES".to_string(), numbers.clone());
    env.insert("NVIDIA_VISIBLE_DEVICES".to_string(), numbers);
    env.insert("NVIDIA_DRIVER_CAPABILITIES".to_string(), "compute,utility".to_string());
    assert(env.deep_view() =~= nvidia_runtime(*host, devices.deep_view()).env);
    assert(paths.deep_view().len() == paths@.len());
    GpuRuntimeSpec { mounts, env }
}

/// The paths that AMD devices need.
pub open spec fn amd_paths(host: GpuHost, devices: Seq<DeviceModel>) -> Seq<(Seq<char>, bool)> {
    if_present(host, "/dev/kfd"@, false) + if_present(host, "/dev/dxg"@, false) + (if on_host(
        host,
        "/dev/dri"@,
    ) {
        seq![("/dev/dri"@, false)]
    } else {
        device_paths(devices)
    }) + if_present(host, "/usr/lib/wsl/lib"@, true)
}

/// What a container needs to use AMD devices.
pub open spec fn amd_runtime(host: GpuHost, devices: Seq<DeviceModel>) -> GpuRuntimeModel {
    let paths = amd_paths(host, devices);
    let env = Map::<Seq<char>, Seq<char>>::empty().insert(
        "HIP_VISIBLE_DEVICES"@,
        visible_devices(devices),
    ).insert("ROCR_VISIBLE_DEVICES"@, visible_devices(devices));
    GpuRuntimeModel {
        mounts: mounts_of(paths, paths.len() as int),
        env: if on_host(host, "/usr/lib/wsl/lib"@) {
            env.insert("LD_LIBRARY_PATH"@, "/usr/lib/wsl/lib"@)
        } else {
            env
        },
    }
}

/// What a container needs to use AMD devices.
pub fn prepare_amd_runtime(host: &GpuHost, devices: &Vec<LocalGpuDevice>) -> (runtime:
    GpuRuntimeSpec)
    ensures
        runtime.deep_view() == amd_runtime(*host, devices.deep_view()),
{
    let mut paths: Vec<(String, bool)> = Vec::new();
    push_present(&mut paths, host, "/dev/kfd", false);
    push_present(&mut paths, host, "/dev/dxg", false);
    if exists_on(host, "/dev/dri") {
        push_present(&mut paths, host, "/dev/dri", false);
    } else {
        push_devices(&mut paths, devices);
    }
    push_present(&mut paths, host, "/usr/lib/wsl/lib", true);
    assert(paths.deep_view() =~= amd_paths(*host, devices.deep_view()));
    let mounts = mount_all(&paths);
    let numbers = visible(devices);
    let mut env = StringMap::new();
    env.insert("HIP_VISIBLE_DEVICES".to_string(), numbers.clone());
    env.insert("ROCR_VISIBLE_DEVICES".to_string(), numbers);
    if exists_on(host, "/usr/lib/wsl/lib") {
        env.insert("LD_LIBRARY_PATH".to_string(), "/usr/lib/wsl/lib".to_string());
    }
    assert(env.deep_view() =~= amd_runtime(*host, devices.deep_view()).env);
    assert(paths.deep_view().len() == paths@.len());
    GpuRuntimeSpec { mounts, env }
}

/// What selected devices need: all of them have to be of one vendor.
pub open spec fn runtime_for(host: GpuHost, devices: Seq<DeviceModel>) -> Result<
    GpuRuntimeModel,
    Seq<char>,
> {
    if devices.len() == 0 {
        Err("gpu_count requested but no local GPU devices are available"@)
    } else if exists|i: int|
        0 <= i < devices.len() && #[trigger] devices[i].vendor != devices[0].vendor {
        Err("a single qbuild container cannot mix NVIDIA and AMD GPU devices"@)
    } else if devices[0].vendor is Nvidia {
        Ok(nvidia_runtime(host, devices))
    } else {
        Ok(amd_runtime(host, devices))
    }
}

/// What selected devices need: all of them have to be of one vendor.
pub fn prepare_devices(host: &GpuHost, devices: &Vec<LocalGpuDevice>) -> (result: Result<
    GpuRuntimeSpec,
    String,
>)
    ensures
        outcome(result) == runtime_for(*host, devices.deep_view()),
{
    let ghost all = devices.deep_view();
    if devices.len() == 0 {
        return Err(
            "gpu_count requested but no local GPU devices are available".to_string(),
        );
    }
    let vendor = devices[0].vendor;
    assert(all[0] == devices@[0].deep_view());
    let mut at: usize = 0;
    while at < devices.len()
        invariant
            at <= devices@.len(),
            0 < devices@.len(),
            all == devices.deep_view(),
            vendor == all[0].vendor,
            forall|i: int| 0 <= i < at ==> #[trigger] all[i].vendor == vendor,
        decreases devices@.len() - at,
    {
        assert(all[at as int] == devices@[at as int].deep_view());
        if devices[at].vendor != vendor {
            assert(all[at as int].vendor != all[0].vendor);
            return Err(
                "a single qbuild container cannot mix NVIDIA and AMD GPU devices".to_string(),
            );
        }
        at = at + 1;
    }
    match vendor {
        GpuVendor::Nvidia => Ok(prepare_nvidia_runtime(host, devices)),
        GpuVendor::Amd => Ok(prepare_amd_runtime(host, devices)),
    }
}

/// What a request leads to with the devices that the host has.
pub open spec fn gpu_runtime(
    request: GpuRequest,
    host: GpuHost,
    devices: Seq<DeviceModel>,
) -> Result<GpuRuntimeModel, Seq<char>> {
    match request_problem(request) {
        Some(message) => Err(message),
        None => if request.count == 0 {
            Ok(GpuRuntimeModel { mounts: seq![], env: Map::empty() })
        } else {
            match selected(devices, request.count as nat, request.device_ids.deep_view()) {
                Err(message) => Err(message),
                Ok(chosen) => runtime_for(host, chosen),
            }
        },
    }
}

/// What a request leads to on a host.
pub fn prepare_gpu_runtime(request: &GpuRequest, host: &GpuHost) -> (result: Result<
    GpuRuntimeSpec,
    String,
>)
    ensures
        exists|devices: Seq<DeviceModel>| #[trigger]
            are_local_gpus(*host, devices) && outcome(result) == gpu_runtime(
                *request,
                *host,
                devices,
            ),
{
    let devices = discover_local_gpus(host);
    assert(are_local_gpus(*host, devices.deep_view()));
    match request.validate() {
        Ok(()) => {},
        Err(message) => {
            return Err(message);
        },
    }
    if !request.is_enabled() {
        let runtime = GpuRuntimeSpec { mounts: Vec::new(), env: StringMap::new() };
        assert(runtime.deep_view() =~= GpuRuntimeModel { mounts: seq![], env: Map::empty() });
        return Ok(runtime);
    }
    match select_devices(devices, request) {
        Err(message) => Err(message),
        Ok(chosen) => prepare_devices(host, &chosen),
    }
}

// ---------------------------------------------------------------------------
// Laws
// ---------------------------------------------------------------------------
/// A request that is met gets as many devices as it asks for, each of them one of
/// the host's.
pub proof fn selections_are_complete(devices: Seq<DeviceModel>, count: nat, ids: Seq<Seq<char>>)
    ensures
        selected(devices, count, ids) matches Ok(chosen) ==> {
            &&& chosen.len() == if ids.len() > 0 {
                ids.len()
            } else {
                count
            }
            &&& forall|i: int| 0 <= i < chosen.len() ==> devices.contains(#[trigger] chosen[i])
        },
{
    if let Ok(chosen) = selected(devices, count, ids) {
        assert forall|i: int| 0 <= i < chosen.len() implies devices.contains(
            #[trigger] chosen[i],
        ) by {
            if ids.len() > 0 {
                let is_missing = |id: Seq<char>| device_from(devices, id, 0) >= devices.len();
                let missing = ids.filter(is_missing);
                lemma_device_from(devices, ids[i], 0);
                if device_from(devices, ids[i], 0) >= devices.len() {
                    ids.lemma_filter_contains(is_missing, i);
                    assert(missing.contains(ids[i]));
                }
            } else {
                let nvidia = |device: DeviceModel| device.vendor == GpuVendor::Nvidia;
                let amd = |device: DeviceModel| device.vendor == GpuVendor::Amd;
                if of_vendor(devices, GpuVendor::Nvidia).len() >= count {
                    assert(of_vendor(devices, GpuVendor::Nvidia).contains(chosen[i]));
                    devices.lemma_filter_contains_rev(nvidia, chosen[i]);
                } else {
                    assert(of_vendor(devices, GpuVendor::Amd).contains(chosen[i]));
                    devices.lemma_filter_contains_rev(amd, chosen[i]);
                }
            }
        }
    }
}

proof fn lemma_device_from(devices: Seq<DeviceModel>, requested: Seq<char>, at: int)
    requires
        0 <= at <= devices.len(),
    ensures
        at <= device_from(devices, requested, at) <= devices.len(),
    decreases devices.len() - at,
{
    if at < devices.len() && !answers_to(devices[at], requested) {
        lemma_device_from(devices, requested, at + 1);
    }
}

/// A request for a number of devices never mixes vendors.
pub proof fn counted_devices_are_of_one_vendor(devices: Seq<DeviceModel>, count: nat)
    ensures
        selected(devices, count, seq![]) matches Ok(chosen) ==> forall|i: int, j: int|
            0 <= i < chosen.len() && 0 <= j < chosen.len() ==> (#[trigger] chosen[i]).vendor == (
            #[trigger] chosen[j]).vendor,
{
    if let Ok(chosen) = selected(devices, count, seq![]) {
        let nvidia = |device: DeviceModel| device.vendor == GpuVendor::Nvidia;
        let amd = |device: DeviceModel| device.vendor == GpuVendor::Amd;
        assert forall|i: int, j: int| 0 <= i < chosen.len() && 0 <= j < chosen.len() implies (
        #[trigger] chosen[i]).vendor == (#[trigger] chosen[j]).vendor by {
            if of_vendor(devices, GpuVendor::Nvidia).len() >= count {
                devices.lemma_filter_pred(nvidia, i);
                devices.lemma_filter_pred(nvidia, j);
            } else {
                devices.lemma_filter_pred(amd, i);
                devices.lemma_filter_pred(amd, j);
            }
        }
    }
}

/// Every mount puts a path of the list at the same place, and no path is mounted
/// twice.
pub proof fn mounts_are_the_paths_once(paths: Seq<(Seq<char>, bool)>, count: int)
    requires
        0 <= count <= paths.len(),
    ensures
        forall|i: int|
            0 <= i < mounts_of(paths, count).len() ==> (#[trigger] mounts_of(
                paths,
                count,
            )[i]).source == mounts_of(paths, count)[i].target && paths.contains(
                (mounts_of(paths, count)[i].source, mounts_of(paths, count)[i].readonly),
            ),
        forall|i: int, j: int|
            0 <= i < j < mounts_of(paths, count).len() ==> (#[trigger] mounts_of(
                paths,
                count,
            )[i]).source != (#[trigger] mounts_of(paths, count)[j]).source,
        forall|i: int|
            0 <= i < count ==> has_mount(mounts_of(paths, count), (#[trigger] paths[i]).0),
    decreases count,
{
    if count > 0 {
        mounts_are_the_paths_once(paths, count - 1);
        let before = mounts_of(paths, count - 1);
        let after = mounts_of(paths, count);
        let (path, readonly) = paths[count - 1];
        assert(paths.contains(paths[count - 1]));
        if !has_mount(before, path) {
            assert forall|i: int, j: int| 0 <= i < j < after.len() implies (
            #[trigger] after[i]).source != (#[trigger] after[j]).source by {
                if j == before.len() {
                    assert(before[i].source == before[i].target);
                }
            }
            assert(after[before.len() as int].source == path);
        }
        assert forall|i: int| 0 <= i < count implies has_mount(after, (#[trigger] paths[i]).0) by {
            if i < count - 1 {
                assert(has_mount(before, paths[i].0));
                let j = choose|j: int|
                    0 <= j < before.len() && #[trigger] before[j].source == paths[i].0
                        && before[j].target == paths[i].0;
                assert(after[j].source == paths[i].0);
            }
        }
    }
}

/// The path is trusted and exists on the host, or it is the path of a device.
pub open spec fn may_be_mounted(
    host: GpuHost,
    devices: Seq<DeviceModel>,
    path: Seq<char>,
) -> bool {
    (trusted().contains(path) && on_host(host, path)) || exists|i: int|
        0 <= i < devices.len() && (#[trigger] devices[i]).device_path == path
}

/// Only trusted paths of the host and the selected devices get into a container.
pub proof fn only_trusted_paths_are_mounted(host: GpuHost, devices: Seq<DeviceModel>, i: int)
    ensures
        0 <= i < nvidia_runtime(host, devices).mounts.len() ==> may_be_mounted(
            host,
            devices,
            nvidia_runtime(host, devices).mounts[i].source,
        ),
        0 <= i < amd_runtime(host, devices).mounts.len() ==> may_be_mounted(
            host,
            devices,
            amd_runtime(host, devices).mounts[i].source,
        ),
{
    let known = trusted();
    assert(known[0] == "/dev/nvidiactl"@);
    assert(known[1] == "/dev/nvidia-uvm"@);
    assert(known[2] == "/dev/nvidia-uvm-tools"@);
    assert(known[3] == "/dev/nvidia-modeset"@);
    assert(known[4] == "/dev/kfd"@);
    assert(known[5] == "/dev/dxg"@);
    assert(known[6] == "/dev/dri"@);
    assert(known[7] == "/usr/lib/wsl/lib"@);
    let nvidia = nvidia_paths(host, devices);
    let amd = amd_paths(host, devices);
    assert forall|j: int| 0 <= j < device_paths(devices).len() implies may_be_mounted(
        host,
        devices,
        (#[trigger] device_paths(devices)[j]).0,
    ) by {
        assert(devices[j].device_path == device_paths(devices)[j].0);
    }
    assert forall|j: int| 0 <= j < nvidia.len() implies may_be_mounted(
        host,
        devices,
        (#[trigger] nvidia[j]).0,
    ) by {
        let fixed = nvidia.len() - devices.len();
        if j >= fixed {
            assert(nvidia[j] == device_paths(devices)[j - fixed]);
        }
    }
    assert forall|j: int| 0 <= j < amd.len() implies may_be_mounted(
        host,
        devices,
        (#[trigger] amd[j]).0,
    ) by {
        let head = (if_present(host, "/dev/kfd"@, false) + if_present(host, "/dev/dxg"@, false));
        if !on_host(host, "/dev/dri"@) && head.len() <= j < head.len() + devices.len() {
            assert(amd[j] == device_paths(devices)[j - head.len()]);
        }
    }
    mounts_are_the_paths_once(nvidia, nvidia.len() as int);
    mounts_are_the_paths_once(amd, amd.len() as int);
    if 0 <= i < nvidia_runtime(host, devices).mounts.len() {
        let mount = nvidia_runtime(host, devices).mounts[i];
        let j = nvidia.index_of((mount.source, mount.readonly));
        assert(nvidia[j].0 == mount.source);
    }
    if 0 <= i < amd_runtime(host, devices).mounts.len() {
        let mount = amd_runtime(host, devices).mounts[i];
        let j = amd.index_of((mount.source, mount.readonly));
        assert(amd[j].0 == mount.source);
    }
}

/// A request that asks for nothing gets nothing, whatever the host has.
pub proof fn no_request_no_devices(request: GpuRequest, host: GpuHost, devices: Seq<DeviceModel>)
    requires
        request.count == 0,
        request.device_ids@.len() == 0,
    ensures
        gpu_runtime(request, host, devices) == Ok::<GpuRuntimeModel, Seq<char>>(
            GpuRuntimeModel { mounts: seq![], env: Map::empty() },
        ),
{
}

// ---------------------------------------------------------------------------
// Laws of devices
// ---------------------------------------------------------------------------
/// A request is refused exactly where it names devices, and not as many as it asks for.
pub proof fn requests_name_as_many_as_they_ask(request: GpuRequest)
    ensures
        request_problem(request) is None <==> request.device_ids@.len() == 0
            || request.device_ids@.len() == request.count,
{
}

/// An NVIDIA device goes by the number of its node, and an AMD device by its place among
/// them; each is at its node.
pub proof fn devices_go_by_their_nodes(nodes: Seq<NodeModel>, i: int)
    requires
        0 <= i < nodes.len(),
    ensures
        nvidia_device(nodes[i]).id == "nvidia"@ + decimal(nodes[i].number),
        nvidia_device(nodes[i]).vendor is Nvidia,
        nvidia_device(nodes[i]).index == nodes[i].number,
        nvidia_device(nodes[i]).device_path == "/dev/"@ + nodes[i].name,
        amd_devices_of(nodes).len() == nodes.len(),
        amd_devices_of(nodes)[i].id == "amd"@ + decimal(i as nat),
        amd_devices_of(nodes)[i].vendor is Amd,
        amd_devices_of(nodes)[i].index == i,
        amd_devices_of(nodes)[i].device_path == "/dev/dri/"@ + nodes[i].name,
{
}

/// A host has its NVIDIA devices first, and then either the one device behind `/dev/dxg`,
/// where there is that, or a device for each render node.
pub proof fn hosts_have_the_devices_of_their_nodes(
    host: GpuHost,
    nvidia: Seq<NodeModel>,
    render: Seq<NodeModel>,
    i: int,
)
    ensures
        ({
            let devices = discovered(host, nvidia, render);
            &&& on_host(host, "/dev/dxg"@) ==> devices.len() == nvidia.len() + 1
            &&& !on_host(host, "/dev/dxg"@) ==> devices.len() == nvidia.len() + render.len()
            &&& 0 <= i < nvidia.len() ==> devices[i].vendor is Nvidia && devices[i].index
                == nvidia[i].number && devices[i].device_path == "/dev/"@ + nvidia[i].name
            &&& on_host(host, "/dev/dxg"@) ==> {
                let device = devices[nvidia.len() as int];
                device.vendor is Amd && device.id == "amd0"@ && device.index == 0
                    && device.device_path == "/dev/dxg"@
            }
            &&& !on_host(host, "/dev/dxg"@) && 0 <= i < render.len() ==> {
                let device = devices[nvidia.len() + i];
                device.vendor is Amd && device.index == i && device.device_path == "/dev/dri/"@
                    + render[i].name
            }
        }),
{
}

/// A name of a node is a prefix and a number, and each of those is counted.
pub proof fn nodes_are_prefix_and_number(prefix: Seq<char>, number: usize)
    ensures
        number_after(prefix + decimal(number as nat), prefix) == Some(number as nat),
{
    let name = prefix + decimal(number as nat);
    assert(name.take(prefix.len() as int) =~= prefix);
    assert(name.skip(prefix.len() as int) =~= decimal(number as nat));
    decimal_reads_back(number as nat, usize::MAX as nat);
}

/// Devices that are named are the ones that are got, one for each name and in their order:
/// a device goes by its own name, its path, its number, or, for an NVIDIA device, by its
/// number alone. A name that no device goes by refuses the request.
pub proof fn named_devices_are_got(devices: Seq<DeviceModel>, count: nat, ids: Seq<Seq<char>>)
    requires
        ids.len() > 0,
    ensures
        selected(devices, count, ids) matches Ok(chosen) ==> chosen.len() == ids.len() && forall|
            i: int,
        |
            0 <= i < ids.len() ==> goes_by(#[trigger] chosen[i], ids[i]),
        selected(devices, count, ids) is Err <==> exists|i: int|
            0 <= i < ids.len() && #[trigger] nobody_goes_by(devices, ids[i]),
{
    let lacking = |id: Seq<char>| device_from(devices, id, 0) >= devices.len();
    let missing = ids.filter(lacking);
    if missing.len() > 0 {
        ids.lemma_filter_pred(lacking, 0);
        assert(missing.contains(missing[0]));
        ids.lemma_filter_contains_rev(lacking, missing[0]);
        let i = ids.index_of(missing[0]);
        lemma_found_device(devices, ids[i], 0);
        assert(nobody_goes_by(devices, ids[i]));
    } else {
        assert forall|i: int| 0 <= i < ids.len() implies device_from(devices, #[trigger] ids[i], 0)
            < devices.len() by {
            if device_from(devices, ids[i], 0) >= devices.len() {
                ids.lemma_filter_contains(lacking, i);
            }
        }
        let chosen = selected(devices, count, ids)->Ok_0;
        assert forall|i: int| 0 <= i < ids.len() implies goes_by(#[trigger] chosen[i], ids[i]) by {
            lemma_found_device(devices, ids[i], 0);
        }
        assert forall|i: int| 0 <= i < ids.len() implies !#[trigger] nobody_goes_by(
            devices,
            ids[i],
        ) by {
            lemma_found_device(devices, ids[i], 0);
            assert(goes_by(devices[device_from(devices, ids[i], 0)], ids[i]));
        }
    }
}

/// The device goes by this name: its own, also behind `/dev/`, its path, or its number; a
/// bare number is also that of an NVIDIA device.
pub open spec fn goes_by(device: DeviceModel, name: Seq<char>) -> bool {
    ||| device.id == name
    ||| device.device_path == name
    ||| decimal(device.index) == name
    ||| device.id == normalized_id(name)
}

/// No device goes by this name.
pub open spec fn nobody_goes_by(devices: Seq<DeviceModel>, name: Seq<char>) -> bool {
    forall|j: int| 0 <= j < devices.len() ==> !goes_by(#[trigger] devices[j], name)
}

proof fn lemma_found_device(devices: Seq<DeviceModel>, name: Seq<char>, from: int)
    requires
        0 <= from <= devices.len(),
    ensures
        from <= device_from(devices, name, from) <= devices.len(),
        device_from(devices, name, from) < devices.len() ==> goes_by(
            devices[device_from(devices, name, from)],
            name,
        ),
        device_from(devices, name, from) == devices.len() ==> forall|j: int|
            from <= j < devices.len() ==> !goes_by(#[trigger] devices[j], name),
    decreases devices.len() - from,
{
    if from < devices.len() && !answers_to(devices[from], name) {
        lemma_found_device(devices, name, from + 1);
    }
}

/// A name behind `/dev/` is that name, a bare number is an NVIDIA device, and any other name
/// is itself.
pub proof fn device_names_are_normalized(name: Seq<char>)
    requires
        !begins(name, "/dev/"@),
    ensures
        normalized_id("/dev/"@ + name) == normalized_id(name),
        all_digits(name) ==> normalized_id(name) == "nvidia"@ + name,
        !all_digits(name) ==> normalized_id(name) == name,
{
    reveal_strlit("/dev/");
    let whole = "/dev/"@ + name;
    assert(whole.take(5) =~= "/dev/"@);
    assert(whole.skip(5) =~= name);
}

/// A number of devices is met with NVIDIA devices where there are enough, else with AMD
/// devices where there are enough, the first ones of them; else it is refused.
pub proof fn counted_devices_are_got(devices: Seq<DeviceModel>, count: nat, i: int)
    ensures
        ({
            let nvidia = of_vendor(devices, GpuVendor::Nvidia);
            let amd = of_vendor(devices, GpuVendor::Amd);
            &&& selected(devices, count, seq![]) is Ok <==> nvidia.len() >= count || amd.len()
                >= count
            &&& selected(devices, count, seq![]) matches Ok(chosen) ==> chosen.len() == count && (
            0 <= i < count ==> if nvidia.len() >= count {
                chosen[i] == nvidia[i] && chosen[i].vendor is Nvidia
            } else {
                chosen[i] == amd[i] && chosen[i].vendor is Amd
            })
        }),
{
    let is_nvidia = |device: DeviceModel| device.vendor == GpuVendor::Nvidia;
    let is_amd = |device: DeviceModel| device.vendor == GpuVendor::Amd;
    if 0 <= i < of_vendor(devices, GpuVendor::Nvidia).len() {
        devices.lemma_filter_pred(is_nvidia, i);
    }
    if 0 <= i < of_vendor(devices, GpuVendor::Amd).len() {
        devices.lemma_filter_pred(is_amd, i);
    }
}

/// A container that uses NVIDIA devices is told their numbers, with a comma between each
/// two, in both variables, and has each of them mounted, as well as the control devices that
/// the host has, all of them to write to.
pub proof fn nvidia_containers_get_their_devices(
    host: GpuHost,
    devices: Seq<DeviceModel>,
    i: int,
    path: Seq<char>,
)
    ensures
        ({
            let runtime = nvidia_runtime(host, devices);
            let numbers = joined(
                devices.map_values(|device: DeviceModel| decimal(device.index)),
                ","@,
            );
            &&& runtime.env.contains_key("CUDA_VISIBLE_DEVICES"@)
                && runtime.env["CUDA_VISIBLE_DEVICES"@] == numbers
            &&& runtime.env.contains_key("NVIDIA_VISIBLE_DEVICES"@)
                && runtime.env["NVIDIA_VISIBLE_DEVICES"@] == numbers
            &&& runtime.env.contains_key("NVIDIA_DRIVER_CAPABILITIES"@)
                && runtime.env["NVIDIA_DRIVER_CAPABILITIES"@] == "compute,utility"@
            &&& 0 <= i < devices.len() ==> has_mount(runtime.mounts, devices[i].device_path)
            &&& (path == "/dev/nvidiactl"@ || path == "/dev/nvidia-uvm"@ || path
                == "/dev/nvidia-uvm-tools"@ || path == "/dev/nvidia-modeset"@) && on_host(
                host,
                path,
            ) ==> has_mount(runtime.mounts, path)
            &&& 0 <= i < runtime.mounts.len() ==> !runtime.mounts[i].readonly
        }),
{
    reveal_strlit("CUDA_VISIBLE_DEVICES");
    reveal_strlit("NVIDIA_VISIBLE_DEVICES");
    reveal_strlit("NVIDIA_DRIVER_CAPABILITIES");
    assert("CUDA_VISIBLE_DEVICES"@.len() == 20 && "NVIDIA_VISIBLE_DEVICES"@.len() == 22
        && "NVIDIA_DRIVER_CAPABILITIES"@.len() == 26);
    let paths = nvidia_paths(host, devices);
    let all = paths.len() as int;
    mounts_are_the_paths_once(paths, all);
    let own = device_paths(devices);
    let first = if_present(host, "/dev/nvidiactl"@, false);
    let second = if_present(host, "/dev/nvidia-uvm"@, false);
    let third = if_present(host, "/dev/nvidia-uvm-tools"@, false);
    let fourth = if_present(host, "/dev/nvidia-modeset"@, false);
    assert(paths == first + second + third + fourth + own);
    if 0 <= i < devices.len() {
        assert(paths[all - own.len() + i] == own[i]);
    }
    if on_host(host, "/dev/nvidiactl"@) {
        assert(paths[0].0 == "/dev/nvidiactl"@);
    }
    if on_host(host, "/dev/nvidia-uvm"@) {
        assert(paths[first.len() as int].0 == "/dev/nvidia-uvm"@);
    }
    if on_host(host, "/dev/nvidia-uvm-tools"@) {
        assert(paths[(first.len() + second.len()) as int].0 == "/dev/nvidia-uvm-tools"@);
    }
    if on_host(host, "/dev/nvidia-modeset"@) {
        assert(paths[(first.len() + second.len() + third.len()) as int].0
            == "/dev/nvidia-modeset"@);
    }
    let mounts = nvidia_runtime(host, devices).mounts;
    if 0 <= i < mounts.len() {
        assert(paths.contains((mounts[i].source, mounts[i].readonly)));
        let k = paths.index_of((mounts[i].source, mounts[i].readonly));
        assert(!paths[k].1);
    }
}

/// A container that uses AMD devices is told their numbers in both variables, and has the
/// host's devices mounted: all of `/dev/dri` where the host has that, and else each device,
/// with `/dev/kfd` and `/dev/dxg` where they are, to write to. The libraries of the host are
/// mounted to read from, and found.
pub proof fn amd_containers_get_their_devices(
    host: GpuHost,
    devices: Seq<DeviceModel>,
    i: int,
    path: Seq<char>,
)
    ensures
        ({
            let runtime = amd_runtime(host, devices);
            let numbers = joined(
                devices.map_values(|device: DeviceModel| decimal(device.index)),
                ","@,
            );
            &&& runtime.env.contains_key("HIP_VISIBLE_DEVICES"@)
                && runtime.env["HIP_VISIBLE_DEVICES"@] == numbers
            &&& runtime.env.contains_key("ROCR_VISIBLE_DEVICES"@)
                && runtime.env["ROCR_VISIBLE_DEVICES"@] == numbers
            &&& runtime.env.contains_key("LD_LIBRARY_PATH"@) <==> on_host(
                host,
                "/usr/lib/wsl/lib"@,
            )
            &&& on_host(host, "/usr/lib/wsl/lib"@) ==> runtime.env["LD_LIBRARY_PATH"@]
                == "/usr/lib/wsl/lib"@ && has_mount(runtime.mounts, "/usr/lib/wsl/lib"@)
            &&& on_host(host, "/dev/dri"@) ==> has_mount(runtime.mounts, "/dev/dri"@)
            &&& !on_host(host, "/dev/dri"@) && 0 <= i < devices.len() ==> has_mount(
                runtime.mounts,
                devices[i].device_path,
            )
            &&& (path == "/dev/kfd"@ || path == "/dev/dxg"@) && on_host(host, path) ==> has_mount(
                runtime.mounts,
                path,
            )
            &&& 0 <= i < runtime.mounts.len() && runtime.mounts[i].readonly
                ==> runtime.mounts[i].source == "/usr/lib/wsl/lib"@
        }),
{
    reveal_strlit("HIP_VISIBLE_DEVICES");
    reveal_strlit("ROCR_VISIBLE_DEVICES");
    reveal_strlit("LD_LIBRARY_PATH");
    assert("HIP_VISIBLE_DEVICES"@.len() == 19 && "ROCR_VISIBLE_DEVICES"@.len() == 20
        && "LD_LIBRARY_PATH"@.len() == 15);
    let paths = amd_paths(host, devices);
    let all = paths.len() as int;
    mounts_are_the_paths_once(paths, all);
    let own = device_paths(devices);
    let first = if_present(host, "/dev/kfd"@, false);
    let second = if_present(host, "/dev/dxg"@, false);
    let third = if on_host(host, "/dev/dri"@) {
        seq![("/dev/dri"@, false)]
    } else {
        own
    };
    let last = if_present(host, "/usr/lib/wsl/lib"@, true);
    assert(paths == first + second + third + last);
    let front: int = (first.len() + second.len()) as int;
    if on_host(host, "/dev/kfd"@) {
        assert(paths[0].0 == "/dev/kfd"@);
    }
    if on_host(host, "/dev/dxg"@) {
        assert(paths[first.len() as int].0 == "/dev/dxg"@);
    }
    if on_host(host, "/dev/dri"@) {
        assert(paths[front].0 == "/dev/dri"@);
    } else if 0 <= i < devices.len() {
        assert(paths[front + i] == own[i]);
    }
    if on_host(host, "/usr/lib/wsl/lib"@) {
        assert(paths[all - 1].0 == "/usr/lib/wsl/lib"@);
    }
    let mounts = amd_runtime(host, devices).mounts;
    if 0 <= i < mounts.len() && mounts[i].readonly {
        assert(paths.contains((mounts[i].source, mounts[i].readonly)));
        let k = paths.index_of((mounts[i].source, mounts[i].readonly));
        assert(paths[k].1);
    }
}

/// Devices of one vendor are used as that vendor's; none at all, or those of both, are
/// refused.
pub proof fn devices_are_used_by_vendor(host: GpuHost, devices: Seq<DeviceModel>, i: int)
    ensures
        devices.len() == 0 ==> runtime_for(host, devices) is Err,
        0 <= i < devices.len() && devices[i].vendor != devices[0].vendor ==> runtime_for(
            host,
            devices,
        ) is Err,
        devices.len() > 0 && (forall|j: int|
            0 <= j < devices.len() ==> (#[trigger] devices[j]).vendor is Nvidia) ==> runtime_for(
            host,
            devices,
        ) == Ok::<GpuRuntimeModel, Seq<char>>(nvidia_runtime(host, devices)),
        devices.len() > 0 && (forall|j: int|
            0 <= j < devices.len() ==> (#[trigger] devices[j]).vendor is Amd) ==> runtime_for(
            host,
            devices,
        ) == Ok::<GpuRuntimeModel, Seq<char>>(amd_runtime(host, devices)),
{
    if devices.len() > 0 {
        assert(devices[0].vendor == devices[0].vendor);
    }
}

/// A request leads to what its devices need: those that are selected for it from the host's
/// devices, by their names or their number.
pub proof fn requests_lead_to_their_devices(
    request: GpuRequest,
    host: GpuHost,
    devices: Seq<DeviceModel>,
)
    requires
        request.count > 0,
        request.device_ids@.len() == 0 || request.device_ids@.len() == request.count,
    ensures
        match selected(devices, request.count as nat, request.device_ids.deep_view()) {
            Ok(chosen) => gpu_runtime(request, host, devices) == runtime_for(host, chosen),
            Err(message) => gpu_runtime(request, host, devices) == Err::<
                GpuRuntimeModel,
                Seq<char>,
            >(message),
        },
{
}

/// The nodes are shown as they are, one by one.
spec fn shown_as(nodes: Seq<NumberedNode>, shown: Seq<NodeModel>) -> bool {
    &&& nodes.len() == shown.len()
    &&& forall|i: int| 0 <= i < shown.len() ==> nodes[i].deep_view() == #[trigger] shown[i]
}

/// A name with the prefix and a number is among the nodes.
proof fn lemma_node_is_sorted_in(
    all: Seq<Seq<char>>,
    prefix: Seq<char>,
    nodes: Seq<NodeModel>,
    number: usize,
)
    requires
        sorted_nodes(all, prefix, nodes),
        all.contains(prefix + decimal(number as nat)),
    ensures
        nodes.contains(
            (NodeModel { number: number as nat, name: prefix + decimal(number as nat) }),
        ),
{
    let name = prefix + decimal(number as nat);
    let wanted = NodeModel { number: number as nat, name };
    nodes_are_prefix_and_number(prefix, number);
    let is_node = |name: Seq<char>| number_after(name, prefix) is Some;
    let at = all.index_of(name);
    all.lemma_filter_contains(is_node, at);
    let k = all.filter(is_node).index_of(name);
    let found = numbered(all, prefix);
    assert(found[k] == wanted);
    assert(exists|unsorted: Seq<NumberedNode>, sorted: Seq<NumberedNode>| #[trigger]
        is_stable_sort(unsorted, sorted) && shown_as(unsorted, found) && shown_as(sorted, nodes));
    let (unsorted, sorted) = choose|unsorted: Seq<NumberedNode>, sorted: Seq<NumberedNode>| #[trigger]
        is_stable_sort(unsorted, sorted) && shown_as(unsorted, found) && shown_as(sorted, nodes);
    let node = unsorted[k];
    let of_number = has_key::<NumberedNode>(node.key());
    assert(with_key(sorted, node.key()) == with_key(unsorted, node.key()));
    unsorted.lemma_filter_contains(of_number, k);
    sorted.lemma_filter_contains_rev(of_number, node);
    let i = sorted.index_of(node);
    assert(nodes[i] == wanted);
}

/// One of the devices is this one.
pub open spec fn has_device(
    devices: Seq<DeviceModel>,
    vendor: GpuVendor,
    device_path: Seq<char>,
) -> bool {
    exists|i: int|
        0 <= i < devices.len() && (#[trigger] devices[i]).vendor == vendor && devices[i].device_path
            == device_path
}

/// A host has a device for each of its nodes: an NVIDIA device for `/dev/nvidia` and a
/// number, and, unless its devices are behind `/dev/dxg`, an AMD device for each render node.
pub proof fn every_node_is_a_device(host: GpuHost, devices: Seq<DeviceModel>, number: usize)
    requires
        are_local_gpus(host, devices),
    ensures
        host.dev_names.deep_view().contains("nvidia"@ + decimal(number as nat)) ==> has_device(
            devices,
            GpuVendor::Nvidia,
            "/dev/"@ + ("nvidia"@ + decimal(number as nat)),
        ),
        on_host(host, "/dev/dxg"@) ==> has_device(devices, GpuVendor::Amd, "/dev/dxg"@),
        !on_host(host, "/dev/dxg"@) && host.dri_names.deep_view().contains(
            "renderD"@ + decimal(number as nat),
        ) ==> has_device(
            devices,
            GpuVendor::Amd,
            "/dev/dri/"@ + ("renderD"@ + decimal(number as nat)),
        ),
{
    let (nvidia, render) = choose|nvidia: Seq<NodeModel>, render: Seq<NodeModel>|
        sorted_nodes(host.dev_names.deep_view(), "nvidia"@, nvidia) && sorted_nodes(
            host.dri_names.deep_view(),
            "renderD"@,
            render,
        ) && #[trigger] discovered(host, nvidia, render) == devices;
    let first = nvidia.map_values(|node: NodeModel| nvidia_device(node));
    if host.dev_names.deep_view().contains("nvidia"@ + decimal(number as nat)) {
        lemma_node_is_sorted_in(host.dev_names.deep_view(), "nvidia"@, nvidia, number);
        let node = NodeModel {
            number: number as nat,
            name: "nvidia"@ + decimal(number as nat),
        };
        let i = nvidia.index_of(node);
        assert(first[i] == nvidia_device(node));
        assert(devices[i] == nvidia_device(node));
    }
    if on_host(host, "/dev/dxg"@) {
        assert(devices[first.len() as int] == dxg_device());
    } else if host.dri_names.deep_view().contains("renderD"@ + decimal(number as nat)) {
        lemma_node_is_sorted_in(host.dri_names.deep_view(), "renderD"@, render, number);
        let node = NodeModel {
            number: number as nat,
            name: "renderD"@ + decimal(number as nat),
        };
        let i = render.index_of(node);
        assert(devices[first.len() + i] == amd_devices_of(render)[i]);
    }
}

} // verus!
