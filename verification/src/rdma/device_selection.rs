//! Pairing of compute devices with the closest RDMA device.

use crate::name_map::NameMap;
use crate::numerals::{
    ascii_lower, format_signed, lemma_signed_decimal, parse_i32, signed_decimal, signed_i32, trim, trimmed,
};
use crate::rdma::pci::{is_closest, path_distance, shorter, Distance, PCIDevice};
use crate::rdma::primitives::IbvDevice;
use crate::rdma::topology::{capture, find_all, pci_addresses, regex_capture, PCI_PATTERN};
use crate::text::{before, is_before, opt_text, same, split, split_on, starts_with, texts};
use crate::text::{before_is_total, before_is_transitive, lemma_split_on_concat, lemma_split_on_none};
use vstd::prelude::*;

verus! {

/// Matches the minor number of a GPU in the text that its driver gives of it.
pub const DEVICE_MINOR_PATTERN: &'static str = "Device Minor:\\s*(\\d+)";

/// What is known of the machine's devices.
pub struct Hardware {
    /// The PCI topology, if it could be read.
    pub pci_devices: Option<NameMap<PCIDevice>>,
    /// The NUMA node files of the PCI devices, by the device's address.
    pub numa_files: NameMap<String>,
    /// The GPUs that the driver lists, if there is such a list; `None` for an
    /// entry that could not be read.
    pub gpus: Option<Vec<Option<GpuEntry>>>,
    /// The entries of the InfiniBand class directory.
    pub infiniband: Vec<RdmaEntry>,
    /// The RDMA devices.
    pub devices: Vec<IbvDevice>,
}

/// A GPU as its driver lists it.
#[derive(Debug)]
pub struct GpuEntry {
    /// The name of the entry: the PCI address, in either case.
    pub name: String,
    /// What the driver says of the GPU, if it could be read.
    pub information: Option<String>,
}

/// An entry of the InfiniBand class directory.
#[derive(Debug)]
pub struct RdmaEntry {
    /// The name of the RDMA device.
    pub name: String,
    /// Where the link to the device leads, if it could be read.
    pub device_link: Option<String>,
}

impl Hardware {
    /// The maps are well formed, and each PCI device stands under its address.
    pub open spec fn wf(self) -> bool {
        &&& self.numa_files.wf()
        &&& self.pci_devices matches Some(devices) ==> devices.wf() && keyed_by_address(devices@)
    }
}

/// Each device stands under its address.
pub open spec fn keyed_by_address(devices: Map<Seq<char>, PCIDevice>) -> bool {
    forall|a: Seq<char>| #[trigger] devices.dom().contains(a) ==> devices[a].address@ == a
}

/// The two parts of a device string, if it has exactly one colon.
pub open spec fn device_string_parts(s: Seq<char>) -> Option<(Seq<char>, Seq<char>)> {
    let parts = split_on(s, ':');
    if parts.len() == 2 {
        Some((parts[0], parts[1]))
    } else {
        None
    }
}

/// The two parts of a device string, if it has exactly one colon.
pub fn parse_device_string(device_str: &str) -> (r: Option<(String, String)>)
    ensures
        match r {
            Some((prefix, postfix)) => device_string_parts(device_str@) == Some((prefix@, postfix@)),
            None => device_string_parts(device_str@) is None,
        },
{
    let parts: Vec<String> = split(device_str, ':');
    assert(texts(parts@).len() == parts@.len());
    if parts.len() == 2 {
        assert(split_on(device_str@, ':')[0] == parts@[0]@);
        assert(split_on(device_str@, ':')[1] == parts@[1]@);
        Some((parts[0].clone(), parts[1].clone()))
    } else {
        None
    }
}

/// The lower-case text that Unicode gives a text.
pub uninterp spec fn unicode_lower(s: Seq<char>) -> Seq<char>;

/// Calls `str::to_lowercase`: the text in lower case, by Unicode's tables. An
/// ASCII text has its letters in lower case.
#[verifier::external_body]
fn to_lowercase(s: &str) -> (r: String)
    ensures
        r@ == unicode_lower(s@),
        s.is_ascii() ==> r@ == ascii_lower(s@),
{
    s.to_lowercase()
}

/// A GPU: its PCI address, and its minor number as the driver writes it.
#[derive(Debug)]
pub struct Gpu {
    pub address: String,
    pub minor: Option<String>,
}

/// The minor number of a GPU.
pub open spec fn gpu_minor(minor: Option<Seq<char>>) -> Option<int> {
    match minor {
        Some(digits) => signed_i32(digits),
        None => None,
    }
}

/// The address of the first GPU with that minor number, if it stands before
/// every entry that could not be read.
pub open spec fn gpu_address(idx: int, gpus: Seq<Option<Gpu>>) -> Option<Seq<char>>
    decreases gpus.len(),
{
    if gpus.len() == 0 {
        None
    } else {
        match gpus[0] {
            None => None,
            Some(gpu) => if gpu_minor(opt_text(gpu.minor)) == Some(idx) {
                Some(gpu.address@)
            } else {
                gpu_address(idx, gpus.drop_first())
            },
        }
    }
}

/// The address of the first GPU with that minor number, if it stands before
/// every entry that could not be read.
pub fn find_gpu(idx: i32, gpus: &Vec<Option<Gpu>>) -> (r: Option<String>)
    ensures
        opt_text(r) == gpu_address(idx as int, gpus@),
{
    let mut i: usize = 0;
    assert(gpus@.skip(0) =~= gpus@);
    while i < gpus.len()
        invariant
            i <= gpus@.len(),
            gpu_address(idx as int, gpus@) == gpu_address(idx as int, gpus@.skip(i as int)),
        decreases gpus@.len() - i,
    {
        assert(gpus@.skip(i as int)[0] == gpus@[i as int]);
        assert(gpus@.skip(i as int).drop_first() =~= gpus@.skip(i + 1));
        match &gpus[i] {
            None => {
                return None;
            },
            Some(gpu) => {
                if let Some(digits) = &gpu.minor {
                    if let Some(minor) = parse_i32(digits.as_str()) {
                        if minor == idx {
                            return Some(gpu.address.clone());
                        }
                    }
                }
            },
        }
        i = i + 1;
    }
    None
}

/// What the entry of the driver's list says of the GPU.
pub open spec fn gpu_of(e: GpuEntry) -> (Seq<char>, Option<Seq<char>>) {
    (
        unicode_lower(e.name@),
        match e.information {
            Some(content) => regex_capture(DEVICE_MINOR_PATTERN@, content@),
            None => None,
        },
    )
}

/// The address of the first listed GPU with that minor number.
pub open spec fn listed_gpu_address(idx: int, entries: Seq<Option<GpuEntry>>) -> Option<Seq<char>>
    decreases entries.len(),
{
    if entries.len() == 0 {
        None
    } else {
        match entries[0] {
            None => None,
            Some(e) => if gpu_minor(gpu_of(e).1) == Some(idx) {
                Some(gpu_of(e).0)
            } else {
                listed_gpu_address(idx, entries.drop_first())
            },
        }
    }
}

/// The PCI address of the GPU that `device_idx` names.
pub open spec fn cuda_address(device_idx: Seq<char>, gpus: Option<Seq<Option<GpuEntry>>>) -> Option<Seq<char>> {
    match (signed_i32(device_idx), gpus) {
        (Some(idx), Some(entries)) => listed_gpu_address(idx, entries),
        _ => None,
    }
}

/// The entries of a list of GPUs, if there is one.
pub open spec fn gpu_entries(gpus: Option<Vec<Option<GpuEntry>>>) -> Option<Seq<Option<GpuEntry>>> {
    match gpus {
        Some(entries) => Some(entries@),
        None => None,
    }
}

/// What an entry of the driver's list comes to.
spec fn same_gpu(gpu: Option<Gpu>, e: Option<GpuEntry>) -> bool {
    match (gpu, e) {
        (Some(g), Some(e)) => (g.address@, opt_text(g.minor)) == gpu_of(e),
        (None, None) => true,
        _ => false,
    }
}

proof fn lemma_same_gpus(idx: int, gpus: Seq<Option<Gpu>>, entries: Seq<Option<GpuEntry>>)
    requires
        gpus.len() == entries.len(),
        forall|i: int| 0 <= i < gpus.len() ==> same_gpu(#[trigger] gpus[i], entries[i]),
    ensures
        gpu_address(idx, gpus) == listed_gpu_address(idx, entries),
    decreases gpus.len(),
{
    if gpus.len() > 0 {
        assert(same_gpu(gpus[0], entries[0]));
        assert forall|i: int| 0 <= i < gpus.drop_first().len() implies same_gpu(
            #[trigger] gpus.drop_first()[i],
            entries.drop_first()[i],
        ) by {
            assert(same_gpu(gpus[i + 1], entries[i + 1]));
        }
        lemma_same_gpus(idx, gpus.drop_first(), entries.drop_first());
    }
}

/// The PCI address of the GPU whose minor number `device_idx` writes.
pub fn get_cuda_pci_address(device_idx: &str, gpus: &Option<Vec<Option<GpuEntry>>>) -> (r: Option<String>)
    ensures
        opt_text(r) == cuda_address(device_idx@, gpu_entries(*gpus)),
{
    let idx: i32 = match parse_i32(device_idx) {
        Some(idx) => idx,
        None => {
            return None;
        },
    };
    match gpus {
        None => None,
        Some(entries) => {
            let mut read: Vec<Option<Gpu>> = Vec::new();
            let mut i: usize = 0;
            while i < entries.len()
                invariant
                    i <= entries@.len(),
                    read@.len() == i,
                    forall|j: int| 0 <= j < i ==> same_gpu(#[trigger] read@[j], entries@[j]),
                decreases entries@.len() - i,
            {
                match &entries[i] {
                    None => {
                        read.push(None);
                    },
                    Some(e) => {
                        let minor: Option<String> = match &e.information {
                            Some(content) => capture(DEVICE_MINOR_PATTERN, content.as_str()),
                            None => None,
                        };
                        let address: String = to_lowercase(e.name.as_str());
                        read.push(Some(Gpu { address, minor }));
                    },
                }
                i = i + 1;
            }
            proof {
                lemma_same_gpus(idx as int, read@, entries@);
            }
            find_gpu(idx, &read)
        },
    }
}

/// The NUMA node that a device's NUMA node file names.
pub open spec fn numa_node(address: Seq<char>, numa_files: Map<Seq<char>, String>) -> Option<int> {
    if numa_files.dom().contains(address) {
        signed_i32(trimmed(numa_files[address]@))
    } else {
        None
    }
}

impl PCIDevice {
    /// The NUMA node of the device, by its NUMA node file.
    pub fn get_numa_node(&self, numa_files: &NameMap<String>) -> (r: Option<i32>)
        requires
            numa_files.wf(),
        ensures
            match r {
                Some(n) => numa_node(self.address@, numa_files@) == Some(n as int),
                None => numa_node(self.address@, numa_files@) is None,
            },
    {
        match numa_files.get(self.address.as_str()) {
            Some(content) => parse_i32(trim(content.as_str()).as_str()),
            None => None,
        }
    }
}

/// A device of that NUMA node.
pub open spec fn on_node(
    a: Seq<char>,
    devices: Map<Seq<char>, PCIDevice>,
    numa_files: Map<Seq<char>, String>,
    node: int,
) -> bool {
    devices.dom().contains(a) && numa_node(devices[a].address@, numa_files) == Some(node)
}

/// Whether the device at `a` is nearer to its root than the one at `b`, or as
/// near and first in the order of addresses.
pub open spec fn nearer_root(a: Seq<char>, b: Seq<char>, devices: Map<Seq<char>, PCIDevice>) -> bool {
    devices[a]@.len() < devices[b]@.len() || (devices[a]@.len() == devices[b]@.len() && before(a, b))
}

/// Whether the device at `a` stands for a NUMA node.
pub open spec fn stands_for_node(
    a: Seq<char>,
    devices: Map<Seq<char>, PCIDevice>,
    numa_files: Map<Seq<char>, String>,
    node: int,
) -> bool {
    &&& on_node(a, devices, numa_files, node)
    &&& forall|b: Seq<char>| #[trigger] on_node(b, devices, numa_files, node) && b != a ==> nearer_root(a, b, devices)
}

/// The address of the device that stands for a NUMA node, if the node has devices.
pub open spec fn node_address(
    devices: Map<Seq<char>, PCIDevice>,
    numa_files: Map<Seq<char>, String>,
    node: int,
) -> Option<Seq<char>> {
    if exists|a: Seq<char>| stands_for_node(a, devices, numa_files, node) {
        Some(choose|a: Seq<char>| stands_for_node(a, devices, numa_files, node))
    } else {
        None
    }
}

/// At most one device stands for a NUMA node.
pub proof fn one_device_stands_for_a_node(
    a: Seq<char>,
    b: Seq<char>,
    devices: Map<Seq<char>, PCIDevice>,
    numa_files: Map<Seq<char>, String>,
    node: int,
)
    requires
        stands_for_node(a, devices, numa_files, node),
        stands_for_node(b, devices, numa_files, node),
    ensures
        a == b,
{
    before_is_total(a, b);
}

/// The address of the device for the NUMA node that `numa_node` names.
pub open spec fn numa_address(
    node_text: Seq<char>,
    pci_devices: Option<Map<Seq<char>, PCIDevice>>,
    numa_files: Map<Seq<char>, String>,
) -> Option<Seq<char>> {
    match (signed_i32(node_text), pci_devices) {
        (Some(node), Some(devices)) => node_address(devices, numa_files, node),
        _ => None,
    }
}

/// What a topology holds, if there is one.
pub open spec fn pci_map(pci_devices: Option<NameMap<PCIDevice>>) -> Option<Map<Seq<char>, PCIDevice>> {
    match pci_devices {
        Some(devices) => Some(devices@),
        None => None,
    }
}

/// The PCI address that stands for the NUMA node that `node_text` writes: of
/// the node's devices the one nearest to its root, the first by address among
/// equals.
pub fn get_numa_pci_address(
    node_text: &str,
    pci_devices: &Option<NameMap<PCIDevice>>,
    numa_files: &NameMap<String>,
) -> (r: Option<String>)
    requires
        numa_files.wf(),
        pci_devices matches Some(devices) ==> devices.wf() && keyed_by_address(devices@),
    ensures
        opt_text(r) == numa_address(node_text@, pci_map(*pci_devices), numa_files@),
{
    let node: i32 = match parse_i32(node_text) {
        Some(node) => node,
        None => {
            return None;
        },
    };
    let devices: &NameMap<PCIDevice> = match pci_devices {
        Some(devices) => devices,
        None => {
            return None;
        },
    };
    let mut best: Option<String> = None;
    let mut shortest: usize = 0;
    let mut i: usize = 0;
    let count: usize = devices.len();
    let ghost names = devices.names();
    proof {
        devices.lemma_names();
    }
    while i < count
        invariant
            i <= count,
            count == names.len(),
            names == devices.names(),
            names.no_duplicates(),
            devices.wf(),
            numa_files.wf(),
            best matches Some(b) ==> {
                &&& on_node(b@, devices@, numa_files@, node as int)
                &&& shortest == devices@[b@]@.len()
                &&& exists|k: int| 0 <= k < i && names[k] == b@
                &&& forall|j: int|
                    0 <= j < i && on_node(#[trigger] names[j], devices@, numa_files@, node as int) && names[j] != b@
                        ==> nearer_root(b@, names[j], devices@)
            },
            best is None ==> forall|j: int|
                0 <= j < i ==> !on_node(#[trigger] names[j], devices@, numa_files@, node as int),
        decreases count - i,
    {
        let address: &String = devices.name_at(i);
        let device: &PCIDevice = devices.value_at(i);
        let ghost held = best;
        assert(address@ == names[i as int]);
        let on: bool = match device.get_numa_node(numa_files) {
            Some(n) => n == node,
            None => false,
        };
        assert(on == on_node(address@, devices@, numa_files@, node as int));
        if on {
            let path: Vec<String> = device.get_path_to_root();
            assert(texts(path@).len() == path@.len());
            let length: usize = path.len();
            let better: bool = match &best {
                None => true,
                Some(b) => length < shortest || (length == shortest && is_before(address.as_str(), b.as_str())),
            };
            if better {
                proof {
                    if let Some(b) = held {
                        assert forall|j: int|
                            0 <= j < i + 1 && on_node(
                                #[trigger] names[j],
                                devices@,
                                numa_files@,
                                node as int,
                            ) && names[j] != address@ implies nearer_root(address@, names[j], devices@) by {
                            if names[j] != b@ {
                                assert(nearer_root(b@, names[j], devices@));
                                if devices@[address@]@.len() == devices@[b@]@.len() && devices@[b@]@.len()
                                    == devices@[names[j]]@.len() {
                                    before_is_transitive(address@, b@, names[j]);
                                }
                            }
                        }
                    }
                }
                best = Some(address.clone());
                shortest = length;
            } else {
                proof {
                    let b = held->0;
                    before_is_total(address@, b@);
                    if address@ != b@ {
                        assert(nearer_root(b@, address@, devices@));
                    }
                }
            }
        }
        i = i + 1;
    }
    proof {
        devices.lemma_names();
        match &best {
            Some(b) => {
                assert forall|c: Seq<char>|
                    #[trigger] on_node(c, devices@, numa_files@, node as int) && c != b@ implies nearer_root(
                    b@,
                    c,
                    devices@,
                ) by {
                    assert(names.contains(c));
                    let j = choose|j: int| 0 <= j < names.len() && names[j] == c;
                    assert(on_node(names[j], devices@, numa_files@, node as int));
                }
                assert(stands_for_node(b@, devices@, numa_files@, node as int));
                let chosen = choose|a: Seq<char>| stands_for_node(a, devices@, numa_files@, node as int);
                one_device_stands_for_a_node(b@, chosen, devices@, numa_files@, node as int);
            },
            None => {
                assert forall|c: Seq<char>| !on_node(c, devices@, numa_files@, node as int) by {
                    if on_node(c, devices@, numa_files@, node as int) {
                        assert(names.contains(c));
                        let j = choose|j: int| 0 <= j < names.len() && names[j] == c;
                        assert(!on_node(names[j], devices@, numa_files@, node as int));
                    }
                }
                assert forall|a: Seq<char>| !stands_for_node(a, devices@, numa_files@, node as int) by {
                    assert(!on_node(a, devices@, numa_files@, node as int));
                }
            },
        }
    }
    best
}

/// The texts of a row of pairs.
pub open spec fn pair_texts(v: Seq<(String, String)>) -> Seq<(Seq<char>, Seq<char>)> {
    v.map_values(|p: (String, String)| (p.0@, p.1@))
}

/// `s` with `e` behind every pair that does not come after it by name.
pub open spec fn insert_by_name(
    s: Seq<(Seq<char>, Seq<char>)>,
    e: (Seq<char>, Seq<char>),
) -> Seq<(Seq<char>, Seq<char>)>
    decreases s.len(),
{
    if s.len() > 0 && before(e.0, s.last().0) {
        insert_by_name(s.drop_last(), e).push(s.last())
    } else {
        s.push(e)
    }
}

/// The PCI address of an RDMA device: the last that its link holds.
pub open spec fn rdma_address(e: RdmaEntry) -> Option<Seq<char>> {
    match e.device_link {
        Some(link) => if pci_addresses(link@).len() > 0 {
            Some(pci_addresses(link@).last())
        } else {
            None
        },
        None => None,
    }
}

/// The RDMA devices with their PCI addresses, in the order of their names.
pub open spec fn rdma_devices(entries: Seq<RdmaEntry>) -> Seq<(Seq<char>, Seq<char>)>
    decreases entries.len(),
{
    if entries.len() == 0 {
        Seq::<(Seq<char>, Seq<char>)>::empty()
    } else {
        let rest = rdma_devices(entries.drop_last());
        match rdma_address(entries.last()) {
            Some(address) => insert_by_name(rest, (entries.last().name@, address)),
            None => rest,
        }
    }
}

/// In the order of names.
pub open spec fn sorted_by_name(s: Seq<(Seq<char>, Seq<char>)>) -> bool {
    forall|i: int, j: int| 0 <= i < j < s.len() ==> !before(#[trigger] s[j].0, #[trigger] s[i].0)
}

proof fn lemma_insert_by_name(s: Seq<(Seq<char>, Seq<char>)>, e: (Seq<char>, Seq<char>), at: int)
    requires
        0 <= at <= s.len(),
        forall|j: int| at <= j < s.len() ==> before(e.0, #[trigger] s[j].0),
        at == 0 || !before(e.0, s[at - 1].0),
    ensures
        insert_by_name(s, e) == s.insert(at, e),
    decreases s.len() - at,
{
    if at < s.len() {
        assert(before(e.0, s[s.len() - 1].0));
        lemma_insert_by_name(s.drop_last(), e, at);
        assert(s.drop_last().insert(at, e).push(s.last()) =~= s.insert(at, e));
    } else {
        assert(s.push(e) =~= s.insert(at, e));
    }
}

proof fn lemma_insert_keeps_order(s: Seq<(Seq<char>, Seq<char>)>, e: (Seq<char>, Seq<char>))
    requires
        sorted_by_name(s),
    ensures
        sorted_by_name(insert_by_name(s, e)),
        insert_by_name(s, e).len() == s.len() + 1,
        forall|k: int|
            0 <= k < insert_by_name(s, e).len() ==> (#[trigger] insert_by_name(s, e)[k] == e || s.contains(
                insert_by_name(s, e)[k],
            )),
        insert_by_name(s, e).to_multiset() == s.to_multiset().insert(e),
    decreases s.len(),
{
    broadcast use vstd::seq_lib::group_to_multiset_ensures;
    let r = insert_by_name(s, e);
    if s.len() > 0 && before(e.0, s.last().0) {
        let s1 = s.drop_last();
        assert(sorted_by_name(s1));
        lemma_insert_keeps_order(s1, e);
        let r1 = insert_by_name(s1, e);
        assert(s1.push(s.last()) =~= s);
        assert forall|k: int| 0 <= k < r.len() implies #[trigger] r[k] == e || s.contains(r[k]) by {
            if k < r1.len() {
                assert(r[k] == r1[k]);
                if r1[k] != e {
                    let m = choose|m: int| 0 <= m < s1.len() && s1[m] == r1[k];
                    assert(s[m] == r1[k]);
                }
            } else {
                assert(r[k] == s[s.len() - 1]);
            }
        }
        assert forall|i: int, j: int| 0 <= i < j < r.len() implies !before(#[trigger] r[j].0, #[trigger] r[i].0) by {
            if j < r1.len() {
                assert(r[j] == r1[j] && r[i] == r1[i]);
            } else {
                assert(r[i] == r1[i]);
                assert(r[j] == s.last());
                if r1[i] == e {
                    before_is_total(e.0, s.last().0);
                } else {
                    let m = choose|m: int| 0 <= m < s1.len() && s1[m] == r1[i];
                    assert(s[m] == r1[i]);
                    assert(!before(s[s.len() - 1].0, s[m].0));
                }
            }
        }
        assert(s.to_multiset() =~= s1.to_multiset().insert(s.last()));
        assert(r.to_multiset() =~= s.to_multiset().insert(e));
    } else {
        assert forall|k: int| 0 <= k < r.len() implies #[trigger] r[k] == e || s.contains(r[k]) by {
            if k < s.len() {
                assert(r[k] == s[k]);
            }
        }
        assert forall|i: int, j: int| 0 <= i < j < r.len() implies !before(#[trigger] r[j].0, #[trigger] r[i].0) by {
            if j < s.len() {
                assert(r[j] == s[j] && r[i] == s[i]);
            } else {
                assert(r[i] == s[i]);
                let last = s.last();
                if i < s.len() - 1 {
                    assert(!before(s[s.len() - 1].0, s[i].0));
                    before_is_total(last.0, s[i].0);
                    before_is_total(e.0, s[i].0);
                    before_is_total(e.0, last.0);
                    if before(e.0, s[i].0) && s[i].0 != last.0 {
                        before_is_transitive(e.0, s[i].0, last.0);
                    }
                }
            }
        }
    }
}

/// The RDMA devices come in the order of their names, and there is one for each
/// entry whose link holds a PCI address.
pub proof fn rdma_devices_are_sorted(entries: Seq<RdmaEntry>)
    ensures
        sorted_by_name(rdma_devices(entries)),
        rdma_devices(entries).to_multiset() == entries.filter(
            |e: RdmaEntry| rdma_address(e) is Some,
        ).map_values(|e: RdmaEntry| (e.name@, rdma_address(e)->0)).to_multiset(),
    decreases entries.len(),
{
    broadcast use vstd::seq_lib::group_to_multiset_ensures;
    let keep = |e: RdmaEntry| rdma_address(e) is Some;
    let pair = |e: RdmaEntry| (e.name@, rdma_address(e)->0);
    reveal(Seq::filter);
    if entries.len() > 0 {
        rdma_devices_are_sorted(entries.drop_last());
        let kept = entries.drop_last().filter(keep);
        match rdma_address(entries.last()) {
            Some(address) => {
                lemma_insert_keeps_order(rdma_devices(entries.drop_last()), (entries.last().name@, address));
                assert(entries.filter(keep) == kept.push(entries.last()));
                assert(kept.push(entries.last()).map_values(pair) =~= kept.map_values(pair).push(
                    (entries.last().name@, address),
                ));
            },
            None => {},
        }
    } else {
        assert(entries.filter(keep).map_values(pair) =~= Seq::<(Seq<char>, Seq<char>)>::empty());
    }
}

/// The RDMA devices with their PCI addresses, in the order of their names.
/// Devices whose link holds no PCI address are left out.
pub fn get_all_rdma_devices(entries: &Vec<RdmaEntry>) -> (devices: Vec<(String, String)>)
    ensures
        pair_texts(devices@) == rdma_devices(entries@),
{
    let mut devices: Vec<(String, String)> = Vec::new();
    let mut i: usize = 0;
    assert(pair_texts(devices@) =~= rdma_devices(entries@.take(0)));
    while i < entries.len()
        invariant
            i <= entries@.len(),
            pair_texts(devices@) == rdma_devices(entries@.take(i as int)),
        decreases entries@.len() - i,
    {
        let entry: &RdmaEntry = &entries[i];
        let ghost held = devices@;
        assert(entries@.take(i + 1).drop_last() =~= entries@.take(i as int));
        if let Some(link) = &entry.device_link {
            let found: Vec<String> = find_all(PCI_PATTERN, link.as_str());
            assert(texts(found@).len() == found@.len());
            if found.len() > 0 {
                let address: String = found[found.len() - 1].clone();
                assert(pci_addresses(link@).last() == address@);
                let ghost e = (entry.name@, address@);
                let mut at: usize = devices.len();
                while at > 0 && is_before(entry.name.as_str(), devices[at - 1].0.as_str())
                    invariant
                        at <= devices@.len(),
                        devices@ == held,
                        forall|j: int| at <= j < devices@.len() ==> before(entry.name@, #[trigger] pair_texts(held)[j].0),
                    decreases at,
                {
                    assert(pair_texts(held)[at - 1] == (held[at - 1].0@, held[at - 1].1@));
                    at = at - 1;
                }
                proof {
                    if at > 0 {
                        assert(pair_texts(held)[at - 1] == (held[at - 1].0@, held[at - 1].1@));
                    }
                    lemma_insert_by_name(pair_texts(held), e, at as int);
                }
                devices.insert(at, (entry.name.clone(), address));
                assert(pair_texts(devices@) =~= pair_texts(held).insert(at as int, e));
            }
        }
        i = i + 1;
    }
    assert(entries@.take(entries@.len() as int) =~= entries@);
    devices
}

/// The first place at which a device of that name stands in a row of pairs.
pub open spec fn address_of_name(pairs: Seq<(Seq<char>, Seq<char>)>, name: Seq<char>) -> Option<Seq<char>>
    decreases pairs.len(),
{
    if pairs.len() == 0 {
        None
    } else if pairs[0].0 == name {
        Some(pairs[0].1)
    } else {
        address_of_name(pairs.drop_first(), name)
    }
}

/// The PCI address of the RDMA device of that name.
pub fn get_nic_pci_address(nic_name: &str, entries: &Vec<RdmaEntry>) -> (r: Option<String>)
    ensures
        opt_text(r) == address_of_name(rdma_devices(entries@), nic_name@),
{
    let devices: Vec<(String, String)> = get_all_rdma_devices(entries);
    let ghost pairs = pair_texts(devices@);
    let mut i: usize = 0;
    assert(pairs.skip(0) =~= pairs);
    while i < devices.len()
        invariant
            i <= devices@.len(),
            pairs == pair_texts(devices@),
            pairs == rdma_devices(entries@),
            address_of_name(pairs, nic_name@) == address_of_name(pairs.skip(i as int), nic_name@),
        decreases devices@.len() - i,
    {
        assert(pairs.skip(i as int)[0] == (devices@[i as int].0@, devices@[i as int].1@));
        assert(pairs.skip(i as int).drop_first() =~= pairs.skip(i + 1));
        if same(devices[i].0.as_str(), nic_name) {
            return Some(devices[i].1.clone());
        }
        i = i + 1;
    }
    None
}

/// The place of the first device of that name.
pub open spec fn device_named(devices: Seq<IbvDevice>, name: Seq<char>) -> Option<int>
    decreases devices.len(),
{
    if devices.len() == 0 {
        None
    } else if devices[0].name@ == name {
        Some(0)
    } else {
        match device_named(devices.drop_first(), name) {
            Some(i) => Some(i + 1),
            None => None,
        }
    }
}

/// A device that is found by its name has that name, and none before it has.
pub proof fn lemma_device_named(devices: Seq<IbvDevice>, name: Seq<char>)
    ensures
        device_named(devices, name) matches Some(i) ==> 0 <= i < devices.len() && devices[i].name@ == name && forall|
            j: int,
        |
            0 <= j < i ==> #[trigger] devices[j].name@ != name,
        device_named(devices, name) is None ==> forall|j: int|
            0 <= j < devices.len() ==> #[trigger] devices[j].name@ != name,
    decreases devices.len(),
{
    if devices.len() > 0 && devices[0].name@ != name {
        let rest = devices.drop_first();
        lemma_device_named(rest, name);
        assert forall|j: int| 1 <= j < devices.len() implies devices[j] == rest[j - 1] by {}
        if device_named(rest, name) is None {
            assert forall|j: int| 0 <= j < devices.len() implies #[trigger] devices[j].name@ != name by {
                if j > 0 {
                    assert(rest[j - 1].name@ != name);
                }
            }
        } else {
            let i = device_named(rest, name)->0;
            assert forall|j: int| 0 <= j < i + 1 implies #[trigger] devices[j].name@ != name by {
                if j > 0 {
                    assert(rest[j - 1].name@ != name);
                }
            }
        }
    }
}

fn find_device<'a>(devices: &'a Vec<IbvDevice>, name: &str) -> (r: Option<&'a IbvDevice>)
    ensures
        r == device_at(devices@, device_named(devices@, name@)),
{
    let mut i: usize = 0;
    assert(devices@.skip(0) =~= devices@);
    while i < devices.len()
        invariant
            i <= devices@.len(),
            device_named(devices@, name@) == (match device_named(devices@.skip(i as int), name@) {
                Some(k) => Some(k + i),
                None => None,
            }),
        decreases devices@.len() - i,
    {
        assert(devices@.skip(i as int)[0] == devices@[i as int]);
        assert(devices@.skip(i as int).drop_first() =~= devices@.skip(i + 1));
        if same(devices[i].name.as_str(), name) {
            return Some(&devices[i]);
        }
        i = i + 1;
    }
    None
}

/// The device at an optional place.
pub open spec fn device_at(devices: Seq<IbvDevice>, at: Option<int>) -> Option<&'static IbvDevice> {
    match at {
        Some(i) => Some(&devices[i]),
        None => None,
    }
}

/// The first place, if there is one.
pub open spec fn first_place(devices: Seq<IbvDevice>) -> Option<int> {
    if devices.len() == 0 {
        None
    } else {
        Some(0)
    }
}

/// Those RDMA devices that the topology knows: their names and paths.
pub open spec fn in_topology(
    rdma: Seq<(Seq<char>, Seq<char>)>,
    topology: Map<Seq<char>, PCIDevice>,
) -> Seq<(Seq<char>, Seq<Seq<char>>)>
    decreases rdma.len(),
{
    if rdma.len() == 0 {
        Seq::<(Seq<char>, Seq<Seq<char>>)>::empty()
    } else {
        let rest = in_topology(rdma.drop_last(), topology);
        if topology.dom().contains(rdma.last().1) {
            rest.push((rdma.last().0, topology[rdma.last().1]@))
        } else {
            rest
        }
    }
}

/// The place of the shortest distance, the first among equals.
pub open spec fn shortest(distances: Seq<Distance>) -> int
    decreases distances.len(),
{
    if distances.len() <= 1 {
        0
    } else {
        let s = shortest(distances.drop_last());
        if shorter(distances.last(), distances[s]) {
            distances.len() - 1
        } else {
            s
        }
    }
}

/// No distance is shorter than the shortest, and those before it are longer.
pub proof fn shortest_is_least(distances: Seq<Distance>)
    requires
        distances.len() > 0,
    ensures
        0 <= shortest(distances) < distances.len(),
        forall|j: int| 0 <= j < distances.len() ==> !shorter(#[trigger] distances[j], distances[shortest(distances)]),
        forall|j: int|
            0 <= j < shortest(distances) ==> shorter(distances[shortest(distances)], #[trigger] distances[j]),
    decreases distances.len(),
{
    if distances.len() > 1 {
        let rest = distances.drop_last();
        shortest_is_least(rest);
        assert forall|j: int| 0 <= j < distances.len() implies !shorter(
            #[trigger] distances[j],
            distances[shortest(distances)],
        ) by {
            if j < rest.len() {
                assert(distances[j] == rest[j]);
            }
        }
        assert forall|j: int| 0 <= j < shortest(distances) implies shorter(
            distances[shortest(distances)],
            #[trigger] distances[j],
        ) by {
            assert(distances[j] == rest[j]);
        }
    }
}

/// The distances of the candidates from a device, by their paths.
pub open spec fn distances_from(
    from: Seq<Seq<char>>,
    candidates: Seq<(Seq<char>, Seq<Seq<char>>)>,
) -> Seq<Distance> {
    candidates.map_values(|c: (Seq<char>, Seq<Seq<char>>)| path_distance(from, c.1))
}

/// The place of the closest candidate, the first among equals.
pub open spec fn closest(from: Seq<Seq<char>>, candidates: Seq<(Seq<char>, Seq<Seq<char>>)>) -> int {
    shortest(distances_from(from, candidates))
}

proof fn lemma_closest_is(
    from: Seq<Seq<char>>,
    candidates: Seq<(Seq<char>, Seq<Seq<char>>)>,
    devices: Seq<PCIDevice>,
    i: int,
)
    requires
        candidates.len() == devices.len(),
        forall|j: int| 0 <= j < devices.len() ==> (#[trigger] candidates[j]).1 == devices[j]@,
        is_closest(from, devices, i),
    ensures
        closest(from, candidates) == i,
{
    let ds = distances_from(from, candidates);
    shortest_is_least(ds);
    let c = shortest(ds);
    assert forall|j: int| 0 <= j < ds.len() implies ds[j] == #[trigger] path_distance(from, devices[j]@) by {
        assert(candidates[j].1 == devices[j]@);
    }
    assert(ds[c] == path_distance(from, devices[c]@));
    assert(ds[i] == path_distance(from, devices[i]@));
    if c < i {
        assert(shorter(path_distance(from, devices[i]@), path_distance(from, devices[c]@)));
    } else if i < c {
        assert(shorter(ds[c], ds[i]));
    }
}

/// The place of the RDMA device closest to the PCI device at `source`; the first
/// device where none is found by its place in the topology.
pub open spec fn closest_device(source: Seq<char>, hw: Hardware) -> Option<int> {
    let rdma = rdma_devices(hw.infiniband@);
    if rdma.len() == 0 {
        first_place(hw.devices@)
    } else {
        match hw.pci_devices {
            None => None,
            Some(topology) => if !topology@.dom().contains(source) {
                None
            } else {
                let candidates = in_topology(rdma, topology@);
                if candidates.len() == 0 {
                    first_place(hw.devices@)
                } else {
                    let name = candidates[closest(topology@[source]@, candidates)].0;
                    match device_named(hw.devices@, name) {
                        Some(i) => Some(i),
                        None => first_place(hw.devices@),
                    }
                }
            },
        }
    }
}

/// The place of the device that a hint asks for: `nic:` and a device's name,
/// `cuda:` and the number of a GPU, or `cpu:` and the number of a NUMA node.
pub open spec fn selected(hint: Seq<char>, hw: Hardware) -> Option<int> {
    match device_string_parts(hint) {
        None => None,
        Some((prefix, postfix)) => if prefix == "nic"@ {
            device_named(hw.devices@, postfix)
        } else if prefix == "cuda"@ {
            match cuda_address(postfix, gpu_entries(hw.gpus)) {
                Some(source) => closest_device(source, hw),
                None => None,
            }
        } else if prefix == "cpu"@ {
            match numa_address(postfix, pci_map(hw.pci_devices), hw.numa_files@) {
                Some(source) => closest_device(source, hw),
                None => None,
            }
        } else {
            device_named(hw.devices@, hint)
        },
    }
}

/// What is selected is one of the devices.
pub proof fn selected_is_a_device(hint: Seq<char>, hw: Hardware)
    ensures
        selected(hint, hw) matches Some(i) ==> 0 <= i < hw.devices@.len(),
{
    match device_string_parts(hint) {
        None => {},
        Some((prefix, postfix)) => {
            lemma_device_named(hw.devices@, postfix);
            lemma_device_named(hw.devices@, hint);
            if hw.pci_devices is Some {
                let topology = hw.pci_devices->0;
                let candidates = in_topology(rdma_devices(hw.infiniband@), topology@);
                if let Some(source) = cuda_address(postfix, gpu_entries(hw.gpus)) {
                    let name = candidates[closest(topology@[source]@, candidates)].0;
                    lemma_device_named(hw.devices@, name);
                }
                if let Some(source) = numa_address(postfix, pci_map(hw.pci_devices), hw.numa_files@) {
                    let name = candidates[closest(topology@[source]@, candidates)].0;
                    lemma_device_named(hw.devices@, name);
                }
            }
        },
    }
}

fn select_closest<'a>(source: &String, hw: &'a Hardware) -> (r: Option<&'a IbvDevice>)
    requires
        hw.wf(),
    ensures
        r == device_at(hw.devices@, closest_device(source@, *hw)),
{
    let rdma: Vec<(String, String)> = get_all_rdma_devices(&hw.infiniband);
    let ghost pairs = pair_texts(rdma@);
    assert(pairs.len() == rdma@.len());
    if rdma.len() == 0 {
        return IbvDevice::first_available(&hw.devices);
    }
    let topology: &NameMap<PCIDevice> = match &hw.pci_devices {
        Some(topology) => topology,
        None => {
            return None;
        },
    };
    let source_device: &PCIDevice = match topology.get(source.as_str()) {
        Some(device) => device,
        None => {
            return None;
        },
    };
    let mut names: Vec<String> = Vec::new();
    let mut candidates: Vec<PCIDevice> = Vec::new();
    let mut i: usize = 0;
    assert(pairs.take(0) =~= Seq::<(Seq<char>, Seq<char>)>::empty());
    while i < rdma.len()
        invariant
            i <= rdma@.len(),
            pairs == pair_texts(rdma@),
            topology.wf(),
            names@.len() == candidates@.len(),
            in_topology(pairs.take(i as int), topology@).len() == names@.len(),
            forall|j: int|
                0 <= j < names@.len() ==> #[trigger] in_topology(pairs.take(i as int), topology@)[j] == (
                    names@[j]@,
                    candidates@[j]@,
                ),
        decreases rdma@.len() - i,
    {
        assert(pairs.take(i + 1).drop_last() =~= pairs.take(i as int));
        assert(pairs.take(i + 1).last() == (rdma@[i as int].0@, rdma@[i as int].1@));
        if let Some(device) = topology.get(rdma[i].1.as_str()) {
            names.push(rdma[i].0.clone());
            candidates.push(device.clone());
        }
        i = i + 1;
    }
    assert(pairs.take(rdma@.len() as int) =~= pairs);
    let ghost found = in_topology(pairs, topology@);
    if let Some(at) = source_device.find_closest(&candidates) {
        proof {
            assert forall|j: int| 0 <= j < candidates@.len() implies (#[trigger] found[j]).1 == candidates@[j]@ by {
                assert(found[j] == (names@[j]@, candidates@[j]@));
            }
            lemma_closest_is(source_device@, found, candidates@, at as int);
            assert(found[at as int] == (names@[at as int]@, candidates@[at as int]@));
        }
        if let Some(device) = find_device(&hw.devices, names[at].as_str()) {
            return Some(device);
        }
    }
    IbvDevice::first_available(&hw.devices)
}

/// The RDMA device that a hint asks for. For a GPU or a NUMA node that is the
/// device closest to it in the PCI topology.
pub fn select_optimal_rdma_device<'a>(device_hint: Option<&str>, hw: &'a Hardware) -> (r: Option<&'a IbvDevice>)
    requires
        hw.wf(),
    ensures
        r == device_at(
            hw.devices@,
            match device_hint {
                Some(hint) => selected(hint@, *hw),
                None => None,
            },
        ),
{
    let hint: &str = match device_hint {
        Some(hint) => hint,
        None => {
            return None;
        },
    };
    let (prefix, postfix) = match parse_device_string(hint) {
        Some(parts) => parts,
        None => {
            return None;
        },
    };
    proof {
        reveal_strlit("nic");
        reveal_strlit("cuda");
        reveal_strlit("cpu");
        assert("nic"@.len() != "cuda"@.len());
        assert("cpu"@.len() != "cuda"@.len());
        assert("nic"@[0] != "cpu"@[0]);
    }
    if same(prefix.as_str(), "nic") {
        find_device(&hw.devices, postfix.as_str())
    } else if same(prefix.as_str(), "cuda") {
        match get_cuda_pci_address(postfix.as_str(), &hw.gpus) {
            Some(source) => select_closest(&source, hw),
            None => None,
        }
    } else if same(prefix.as_str(), "cpu") {
        match get_numa_pci_address(postfix.as_str(), &hw.pci_devices, &hw.numa_files) {
            Some(source) => select_closest(&source, hw),
            None => None,
        }
    } else {
        find_device(&hw.devices, hint)
    }
}

/// The hint for the GPU with that number.
pub open spec fn cuda_hint(gpu: int) -> Seq<char> {
    "cuda:"@ + signed_decimal(gpu)
}

/// Whether the GPU with that number is at `address`, and the RDMA device for it
/// at that place.
pub open spec fn gpu_device(hw: Hardware, gpu: int, address: Seq<char>, device: int) -> bool {
    &&& cuda_address(signed_decimal(gpu), gpu_entries(hw.gpus)) == Some(address)
    &&& selected(cuda_hint(gpu), hw) == Some(device)
}

/// Whether a mapping holds, for each GPU of the machine that has an address and
/// an RDMA device, that device under that address, and nothing else.
pub open spec fn maps_gpus(mapping: Map<Seq<char>, IbvDevice>, hw: Hardware) -> bool {
    &&& forall|a: Seq<char>| #[trigger]
        mapping.dom().contains(a) <==> exists|gpu: int, device: int| gpu_device(hw, gpu, a, device)
    &&& forall|gpu: int, a: Seq<char>, device: int| #[trigger]
        gpu_device(hw, gpu, a, device) ==> mapping[a]@ == hw.devices@[device]@
}

/// GPUs at the same address have the same RDMA device: the one closest to it.
pub proof fn one_device_for_an_address(hw: Hardware, gpu: int, address: Seq<char>, device: int)
    requires
        gpu_device(hw, gpu, address, device),
    ensures
        closest_device(address, hw) == Some(device),
{
    lemma_signed_decimal(gpu);
    let number = signed_decimal(gpu);
    reveal_strlit("cuda:");
    reveal_strlit("cuda");
    reveal_strlit("nic");
    assert(cuda_hint(gpu) =~= "cuda"@.push(':') + number);
    lemma_split_on_concat("cuda"@, number, ':');
    assert(!"cuda"@.contains(':'));
    assert(!number.contains(':'));
    lemma_split_on_none("cuda"@, ':');
    lemma_split_on_none(number, ':');
    assert(split_on(cuda_hint(gpu), ':') =~= seq!["cuda"@, number]);
    assert("nic"@.len() != "cuda"@.len());
}

/// Whether the entry at a place can be reached and gives the minor number `idx`.
spec fn lists_gpu(entries: Seq<Option<GpuEntry>>, at: int, idx: int) -> bool {
    &&& 0 <= at < entries.len()
    &&& forall|i: int| 0 <= i <= at ==> #[trigger] entries[i] is Some
    &&& gpu_minor(gpu_of(entries[at]->0).1) == Some(idx)
}

/// A GPU with an address is listed.
proof fn lemma_listed(idx: int, entries: Seq<Option<GpuEntry>>) -> (at: int)
    requires
        listed_gpu_address(idx, entries) is Some,
    ensures
        lists_gpu(entries, at, idx),
    decreases entries.len(),
{
    if gpu_minor(gpu_of(entries[0]->0).1) == Some(idx) {
        0
    } else {
        let at = lemma_listed(idx, entries.drop_first());
        assert forall|i: int| 0 <= i <= at + 1 implies #[trigger] entries[i] is Some by {
            if i > 0 {
                assert(entries.drop_first()[i - 1] is Some);
            }
        }
        assert(entries.drop_first()[at] == entries[at + 1]);
        at + 1
    }
}

/// What holds of a mapping once the first `n` entries of the list have been met.
spec fn maps_first(mapping: Map<Seq<char>, IbvDevice>, hw: Hardware, entries: Seq<Option<GpuEntry>>, n: int) -> bool {
    &&& forall|a: Seq<char>| #[trigger]
        mapping.dom().contains(a) ==> exists|gpu: int, device: int| gpu_device(hw, gpu, a, device)
    &&& forall|at: int, gpu: int, a: Seq<char>, device: int|
        #![trigger lists_gpu(entries, at, gpu), gpu_device(hw, gpu, a, device)]
        at < n && lists_gpu(entries, at, gpu) && gpu_device(hw, gpu, a, device) ==> mapping.dom().contains(a)
    &&& forall|gpu: int, a: Seq<char>, device: int| #[trigger]
        gpu_device(hw, gpu, a, device) && mapping.dom().contains(a) ==> mapping[a]@ == hw.devices@[device]@
}

/// A mapping that has met every entry that can be reached is complete.
proof fn lemma_all_met(mapping: Map<Seq<char>, IbvDevice>, hw: Hardware, entries: Seq<Option<GpuEntry>>, n: int)
    requires
        gpu_entries(hw.gpus) == Some(entries),
        maps_first(mapping, hw, entries, n),
        n == entries.len() || (0 <= n < entries.len() && entries[n] is None),
    ensures
        maps_gpus(mapping, hw),
{
    assert forall|gpu: int, a: Seq<char>, device: int| #[trigger] gpu_device(hw, gpu, a, device) implies mapping.dom()
        .contains(a) by {
        let idx = signed_i32(signed_decimal(gpu))->0;
        let at = lemma_listed(idx, entries);
        assert(at < n) by {
            if n <= at {
                assert(entries[n] is Some);
            }
        }
        lemma_signed_decimal(gpu);
        assert(lists_gpu(entries, at, gpu));
    }
}

/// Meeting one more entry.
proof fn lemma_met(
    held: Map<Seq<char>, IbvDevice>,
    hw: Hardware,
    entries: Seq<Option<GpuEntry>>,
    n: int,
    gpu: int,
    address: Seq<char>,
    device: IbvDevice,
)
    requires
        maps_first(held, hw, entries, n),
        0 <= n < entries.len(),
        entries[n] is Some,
        gpu_minor(gpu_of(entries[n]->0).1) == Some(gpu),
        selected(cuda_hint(gpu), hw) is Some,
        gpu_device(hw, gpu, address, selected(cuda_hint(gpu), hw)->0),
        device@ == hw.devices@[selected(cuda_hint(gpu), hw)->0]@,
    ensures
        maps_first(held.insert(address, device), hw, entries, n + 1),
{
    let now = held.insert(address, device);
    let chosen = selected(cuda_hint(gpu), hw)->0;
    one_device_for_an_address(hw, gpu, address, chosen);
    assert forall|a: Seq<char>| #[trigger] now.dom().contains(a) implies exists|g: int, d: int|
        gpu_device(hw, g, a, d) by {
        if a == address {
            assert(gpu_device(hw, gpu, a, chosen));
        } else {
            assert(held.dom().contains(a));
        }
    }
    assert forall|at: int, g: int, a: Seq<char>, d: int|
        #![trigger lists_gpu(entries, at, g), gpu_device(hw, g, a, d)]
        at < n + 1 && lists_gpu(entries, at, g) && gpu_device(hw, g, a, d) implies now.dom().contains(a) by {
        if at == n {
            assert(g == gpu);
        } else {
            assert(held.dom().contains(a));
        }
    }
    assert forall|g: int, a: Seq<char>, d: int| #[trigger] gpu_device(hw, g, a, d) && now.dom().contains(
        a,
    ) implies now[a]@ == hw.devices@[d]@ by {
        if a == address {
            one_device_for_an_address(hw, g, a, d);
        } else {
            assert(held.dom().contains(a));
        }
    }
}

fn minor_of(e: &GpuEntry) -> (r: Option<i32>)
    ensures
        match r {
            Some(minor) => gpu_minor(gpu_of(*e).1) == Some(minor as int),
            None => gpu_minor(gpu_of(*e).1) is None,
        },
{
    match &e.information {
        Some(content) => match capture(DEVICE_MINOR_PATTERN, content.as_str()) {
            Some(digits) => parse_i32(digits.as_str()),
            None => None,
        },
        None => None,
    }
}

/// For each GPU of the machine the RDMA device for it, under the GPU's PCI address.
pub fn create_cuda_to_rdma_mapping(hw: &Hardware) -> (mapping: NameMap<IbvDevice>)
    requires
        hw.wf(),
    ensures
        mapping.wf(),
        maps_gpus(mapping@, *hw),
{
    let mut mapping: NameMap<IbvDevice> = NameMap::new();
    let entries: &Vec<Option<GpuEntry>> = match &hw.gpus {
        Some(entries) => entries,
        None => {
            return mapping;
        },
    };
    let mut i: usize = 0;
    while i < entries.len()
        invariant
            i <= entries@.len(),
            hw.wf(),
            gpu_entries(hw.gpus) == Some(entries@),
            mapping.wf(),
            maps_first(mapping@, *hw, entries@, i as int),
        decreases entries@.len() - i,
    {
        let ghost held = mapping@;
        let entry: &GpuEntry = match &entries[i] {
            Some(entry) => entry,
            None => {
                proof {
                    lemma_all_met(mapping@, *hw, entries@, i as int);
                }
                return mapping;
            },
        };
        if let Some(minor) = minor_of(entry) {
            let number: String = format_signed(minor as i64);
            if let Some(address) = get_cuda_pci_address(number.as_str(), &hw.gpus) {
                let mut hint: String = "cuda:".to_owned();
                hint.append(number.as_str());
                if let Some(device) = select_optimal_rdma_device(Some(hint.as_str()), hw) {
                    let device: IbvDevice = device.clone();
                    proof {
                        assert(hint@ == cuda_hint(minor as int));
                        lemma_met(held, *hw, entries@, i as int, minor as int, address@, device);
                    }
                    mapping.insert(address, device);
                }
            }
        }
        i = i + 1;
    }
    proof {
        lemma_all_met(mapping@, *hw, entries@, i as int);
    }
    mapping
}

/// The place of the device that stands in for a device with that name: none
/// where the device is taken as it is.
pub open spec fn is_likely_default(name: Seq<char>, devices: Seq<IbvDevice>) -> bool {
    !"mlx"@.is_prefix_of(name) && devices.len() > 0 && name == devices[0].name@
}

/// The device to use where `device` was asked for: a device that is the first
/// of all, and so likely came about by default, gives way to the one closest to
/// the first NUMA node.
pub fn resolve_rdma_device(device: &IbvDevice, hw: &Hardware) -> (r: Option<IbvDevice>)
    requires
        hw.wf(),
    ensures
        match r {
            Some(d) => if is_likely_default(device.name@, hw.devices@) {
                selected("cpu:0"@, *hw) is Some && d@ == hw.devices@[selected("cpu:0"@, *hw)->0]@
            } else {
                d@ == device@
            },
            None => is_likely_default(device.name@, hw.devices@) && selected("cpu:0"@, *hw) is None,
        },
{
    if starts_with(device.name.as_str(), "mlx") {
        return Some(device.clone());
    }
    let likely_default: bool = match IbvDevice::first_available(&hw.devices) {
        Some(first) => same(device.name.as_str(), first.name.as_str()),
        None => false,
    };
    if likely_default {
        match select_optimal_rdma_device(Some("cpu:0"), hw) {
            Some(d) => Some(d.clone()),
            None => None,
        }
    } else {
        Some(device.clone())
    }
}

/// The GPU of a number is the first that the driver lists under it, and is not
/// found behind an entry that could not be read.
pub proof fn gpus_are_found_by_their_number(idx: int, entries: Seq<Option<GpuEntry>>, k: int)
    requires
        0 <= k < entries.len(),
        forall|j: int|
            0 <= j < k ==> (#[trigger] entries[j] matches Some(e) && gpu_minor(gpu_of(e).1) != Some(idx)),
    ensures
        entries[k] is None ==> listed_gpu_address(idx, entries) is None,
        entries[k] matches Some(e) ==> gpu_minor(gpu_of(e).1) == Some(idx) ==> listed_gpu_address(idx, entries) == Some(
            gpu_of(e).0,
        ),
    decreases k,
{
    if k > 0 {
        let rest = entries.drop_first();
        assert(entries[0] matches Some(e) && gpu_minor(gpu_of(e).1) != Some(idx));
        assert forall|j: int| 0 <= j < k - 1 implies (#[trigger] rest[j] matches Some(e) && gpu_minor(gpu_of(e).1) != Some(
            idx,
        )) by {
            assert(entries[j + 1] matches Some(e) && gpu_minor(gpu_of(e).1) != Some(idx));
        }
        gpus_are_found_by_their_number(idx, rest, k - 1);
    }
}

/// No GPU is found where the driver lists none under the number.
pub proof fn gpus_not_listed_are_not_found(idx: int, entries: Seq<Option<GpuEntry>>)
    requires
        forall|j: int|
            0 <= j < entries.len() ==> (#[trigger] entries[j] matches Some(e) ==> gpu_minor(gpu_of(e).1) != Some(idx)),
    ensures
        listed_gpu_address(idx, entries) is None,
    decreases entries.len(),
{
    if entries.len() > 0 {
        let rest = entries.drop_first();
        assert forall|j: int| 0 <= j < rest.len() implies (#[trigger] rest[j] matches Some(e) ==> gpu_minor(gpu_of(e).1)
            != Some(idx)) by {
            assert(entries[j + 1] matches Some(e) ==> gpu_minor(gpu_of(e).1) != Some(idx));
        }
        assert(entries[0] matches Some(e) ==> gpu_minor(gpu_of(e).1) != Some(idx));
        gpus_not_listed_are_not_found(idx, rest);
    }
}

/// The device that stands for a NUMA node is on the node, and none on the node
/// is nearer to its root; of those as near it is the first by address.
pub proof fn nodes_are_told_by_their_highest_device(
    devices: Map<Seq<char>, PCIDevice>,
    numa_files: Map<Seq<char>, String>,
    node: int,
    b: Seq<char>,
)
    ensures
        node_address(devices, numa_files, node) matches Some(a) ==> {
            &&& devices.dom().contains(a)
            &&& numa_node(devices[a].address@, numa_files) == Some(node)
            &&& devices.dom().contains(b) && numa_node(devices[b].address@, numa_files) == Some(node)
                ==> devices[a]@.len() <= devices[b]@.len()
            &&& devices.dom().contains(b) && numa_node(devices[b].address@, numa_files) == Some(node) && b != a
                && devices[a]@.len() == devices[b]@.len() ==> before(a, b)
        },
{
    if node_address(devices, numa_files, node) is Some {
        let a = node_address(devices, numa_files, node)->0;
        assert(stands_for_node(a, devices, numa_files, node));
        assert(on_node(b, devices, numa_files, node) == (devices.dom().contains(b) && numa_node(
            devices[b].address@,
            numa_files,
        ) == Some(node)));
    }
}

/// The candidates are those RDMA devices whose address the topology knows, each
/// with its path, and no others.
pub proof fn candidates_are_in_the_topology(
    rdma: Seq<(Seq<char>, Seq<char>)>,
    topology: Map<Seq<char>, PCIDevice>,
    i: int,
)
    ensures
        0 <= i < rdma.len() && topology.dom().contains(rdma[i].1) ==> in_topology(rdma, topology).contains(
            (rdma[i].0, topology[rdma[i].1]@),
        ),
        forall|k: int|
            0 <= k < in_topology(rdma, topology).len() ==> exists|j: int|
                0 <= j < rdma.len() && topology.dom().contains((#[trigger] rdma[j]).1) && (#[trigger] in_topology(
                    rdma,
                    topology,
                )[k]) == (rdma[j].0, topology[rdma[j].1]@),
    decreases rdma.len(),
{
    if rdma.len() > 0 {
        let before = rdma.drop_last();
        let rest = in_topology(before, topology);
        let all = in_topology(rdma, topology);
        candidates_are_in_the_topology(before, topology, i);
        if 0 <= i < rdma.len() && topology.dom().contains(rdma[i].1) {
            let pair = (rdma[i].0, topology[rdma[i].1]@);
            if i < before.len() {
                assert(before[i] == rdma[i]);
                let k = choose|k: int| 0 <= k < rest.len() && rest[k] == pair;
                assert(all[k] == pair);
            } else {
                assert(all[all.len() - 1] == pair);
            }
        }
        assert forall|k: int| 0 <= k < all.len() implies exists|j: int|
            0 <= j < rdma.len() && topology.dom().contains((#[trigger] rdma[j]).1) && (#[trigger] all[k]) == (
                rdma[j].0,
                topology[rdma[j].1]@,
            ) by {
            if k < rest.len() {
                assert(rest[k] == all[k]);
                let j = choose|j: int|
                    0 <= j < before.len() && topology.dom().contains((#[trigger] before[j]).1) && rest[k] == (
                        before[j].0,
                        topology[before[j].1]@,
                    );
                assert(rdma[j] == before[j]);
                assert(topology.dom().contains(rdma[j].1));
            } else {
                assert(topology.dom().contains(rdma[rdma.len() - 1].1));
            }
        }
    }
}

/// The device for a place in the topology is one to which no other RDMA device
/// there is closer, the first of those as close; where it is not among the
/// devices at hand, the first of them.
pub proof fn the_closest_device_is_selected(source: Seq<char>, hw: Hardware) -> (k: int)
    requires
        hw.pci_devices matches Some(topology) && topology@.dom().contains(source) && in_topology(
            rdma_devices(hw.infiniband@),
            topology@,
        ).len() > 0,
    ensures
        ({
            let topology = hw.pci_devices->0@;
            let candidates = in_topology(rdma_devices(hw.infiniband@), topology);
            let from = topology[source]@;
            &&& 0 <= k < candidates.len()
            &&& forall|j: int|
                0 <= j < candidates.len() ==> !shorter(
                    path_distance(from, (#[trigger] candidates[j]).1),
                    path_distance(from, candidates[k].1),
                )
            &&& forall|j: int|
                0 <= j < k ==> shorter(
                    path_distance(from, candidates[k].1),
                    path_distance(from, (#[trigger] candidates[j]).1),
                )
            &&& closest_device(source, hw) matches Some(i) ==> 0 <= i < hw.devices@.len() && (hw.devices@[i].name@
                == candidates[k].0 || i == 0 && forall|j: int|
                0 <= j < hw.devices@.len() ==> (#[trigger] hw.devices@[j]).name@ != candidates[k].0)
            &&& hw.devices@.len() > 0 ==> closest_device(source, hw) is Some
        }),
{
    let topology = hw.pci_devices->0@;
    let rdma = rdma_devices(hw.infiniband@);
    let candidates = in_topology(rdma, topology);
    let from = topology[source]@;
    let distances = distances_from(from, candidates);
    shortest_is_least(distances);
    let k = shortest(distances);
    lemma_device_named(hw.devices@, candidates[k].0);
    if rdma.len() == 0 {
        assert(candidates.len() == 0);
    }
    assert forall|j: int| 0 <= j < candidates.len() implies !shorter(
        path_distance(from, (#[trigger] candidates[j]).1),
        path_distance(from, candidates[k].1),
    ) by {
        assert(!shorter(distances[j], distances[k]));
    }
    assert forall|j: int| 0 <= j < k implies shorter(
        path_distance(from, candidates[k].1),
        path_distance(from, (#[trigger] candidates[j]).1),
    ) by {
        assert(shorter(distances[k], distances[j]));
    }
    k
}

/// Where no RDMA device has a place in the topology the first device is taken;
/// where the topology does not know the place asked for, none is.
pub proof fn places_not_known_have_no_device(source: Seq<char>, hw: Hardware)
    ensures
        rdma_devices(hw.infiniband@).len() == 0 && hw.devices@.len() > 0 ==> closest_device(source, hw) == Some(0int),
        rdma_devices(hw.infiniband@).len() > 0 && !(hw.pci_devices matches Some(topology) && topology@.dom().contains(
            source,
        )) ==> closest_device(source, hw) is None,
        hw.devices@.len() == 0 && closest_device(source, hw) is Some ==> false,
{
    if hw.pci_devices is Some {
        let candidates = in_topology(rdma_devices(hw.infiniband@), hw.pci_devices->0@);
        lemma_device_named(hw.devices@, candidates[closest(hw.pci_devices->0@[source]@, candidates)].0);
    }
}

proof fn lemma_hint_parts(kind: Seq<char>, rest: Seq<char>)
    requires
        !kind.contains(':'),
        !rest.contains(':'),
    ensures
        device_string_parts(kind.push(':') + rest) == Some((kind, rest)),
{
    lemma_split_on_concat(kind, rest, ':');
    lemma_split_on_none(kind, ':');
    lemma_split_on_none(rest, ':');
    assert(split_on(kind.push(':') + rest, ':') =~= seq![kind, rest]);
}

/// A hint selects by its kind: a NIC by its name, which the device that is
/// selected has; for a GPU or a NUMA node the device closest to where that is,
/// and none where it is nowhere.
pub proof fn hints_select_by_their_kind(rest: Seq<char>, hw: Hardware)
    requires
        !rest.contains(':'),
    ensures
        selected("nic:"@ + rest, hw) matches Some(i) ==> 0 <= i < hw.devices@.len() && hw.devices@[i].name@ == rest,
        selected("nic:"@ + rest, hw) is None <==> forall|j: int|
            0 <= j < hw.devices@.len() ==> (#[trigger] hw.devices@[j]).name@ != rest,
        cuda_address(rest, gpu_entries(hw.gpus)) matches Some(source) ==> selected("cuda:"@ + rest, hw)
            == closest_device(source, hw),
        cuda_address(rest, gpu_entries(hw.gpus)) is None ==> selected("cuda:"@ + rest, hw) is None,
        numa_address(rest, pci_map(hw.pci_devices), hw.numa_files@) matches Some(source) ==> selected("cpu:"@ + rest, hw)
            == closest_device(source, hw),
        numa_address(rest, pci_map(hw.pci_devices), hw.numa_files@) is None ==> selected("cpu:"@ + rest, hw) is None,
{
    reveal_strlit("nic");
    reveal_strlit("cuda");
    reveal_strlit("cpu");
    reveal_strlit("nic:");
    reveal_strlit("cuda:");
    reveal_strlit("cpu:");
    assert("nic:"@ =~= "nic"@.push(':'));
    assert("cuda:"@ =~= "cuda"@.push(':'));
    assert("cpu:"@ =~= "cpu"@.push(':'));
    assert("nic"@[0] != "cpu"@[0] && "nic"@.len() == 3 && "cuda"@.len() == 4 && "cpu"@.len() == 3);
    lemma_hint_parts("nic"@, rest);
    lemma_hint_parts("cuda"@, rest);
    lemma_hint_parts("cpu"@, rest);
    lemma_device_named(hw.devices@, rest);
    if exists|j: int| 0 <= j < hw.devices@.len() && (#[trigger] hw.devices@[j]).name@ == rest {
        assert(device_named(hw.devices@, rest) is Some);
    }
}

/// A device is taken for the default only where it is the first of all, and
/// never where it is named like one of Mellanox.
pub proof fn only_the_first_device_is_a_default(name: Seq<char>, devices: Seq<IbvDevice>)
    ensures
        is_likely_default(name, devices) ==> devices.len() > 0 && name == devices[0].name@,
        name.len() >= 3 && name[0] == 'm' && name[1] == 'l' && name[2] == 'x' ==> !is_likely_default(name, devices),
        devices.len() > 0 && name == devices[0].name@ && !(name.len() >= 3 && name[0] == 'm' && name[1] == 'l' && name[2]
            == 'x') ==> is_likely_default(name, devices),
{
    reveal_strlit("mlx");
    if name.len() >= 3 && name[0] == 'm' && name[1] == 'l' && name[2] == 'x' {
        assert("mlx"@ =~= name.take(3));
        assert("mlx"@.is_prefix_of(name));
    } else if "mlx"@.is_prefix_of(name) {
        assert("mlx"@ =~= name.take(3));
        assert("mlx"@[0] == name[0] && "mlx"@[1] == name[1] && "mlx"@[2] == name[2]);
    }
}

}
