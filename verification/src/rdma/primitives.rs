//! The building blocks of RDMA over ibverbs: devices and their ports, queue
//! pair settings and endpoints, memory region views and work completions.

use crate::numerals::{
    decimal, format_decimal, format_hex, format_hex_padded, format_signed, hex, signed_decimal, zero_padded,
};
use vstd::prelude::*;

verus! {

/// A global identifier.
#[derive(Default, Copy, Clone, Debug, Eq, PartialEq, Hash)]
pub struct Gid {
    pub raw: [u8; 16],
}

/// The number that eight bytes stand for, the most significant first.
pub open spec fn be_u64(b: Seq<u8>) -> int {
    b[0] * 0x100_0000_0000_0000 + b[1] * 0x1_0000_0000_0000 + b[2] * 0x100_0000_0000 + b[3] * 0x1_0000_0000 + b[4]
        * 0x100_0000 + b[5] * 0x1_0000 + b[6] * 0x100 + b[7]
}

impl Gid {
    fn be_u64_at(&self, at: usize) -> (n: u64)
        requires
            at <= 8,
        ensures
            n == be_u64(self.raw@.skip(at as int)),
    {
        (self.raw[at] as u64) * 0x100_0000_0000_0000 + (self.raw[at + 1] as u64) * 0x1_0000_0000_0000 + (
        self.raw[at + 2] as u64) * 0x100_0000_0000 + (self.raw[at + 3] as u64) * 0x1_0000_0000 + (self.raw[at
            + 4] as u64) * 0x100_0000 + (self.raw[at + 5] as u64) * 0x1_0000 + (self.raw[at + 6] as u64) * 0x100
            + (self.raw[at + 7] as u64)
    }

    /// The first eight bytes, the most significant first.
    pub fn subnet_prefix(&self) -> (n: u64)
        ensures
            n == be_u64(self.raw@.take(8)),
    {
        self.be_u64_at(0)
    }

    /// The last eight bytes, the most significant first.
    pub fn interface_id(&self) -> (n: u64)
        ensures
            n == be_u64(self.raw@.skip(8)),
    {
        self.be_u64_at(8)
    }
}

/// The kind of queue pair to create.
#[derive(Debug, Clone, Copy, PartialEq, Eq, Structural)]
pub enum IbvQpType {
    /// Decided by what the device supports.
    Auto,
    /// A standard ibverbs queue pair.
    Standard,
    /// An mlx5dv extended queue pair.
    Mlx5dv,
}

/// The kind of queue pair that is created in the end.
#[derive(Debug, Clone, Copy, PartialEq, Eq, Structural)]
pub enum ResolvedQpType {
    Standard,
    Mlx5dv,
}

/// What `qp_type` comes to on a machine that supports mlx5dv or does not.
pub open spec fn resolved_qp_type(qp_type: IbvQpType, mlx5dv: bool) -> ResolvedQpType {
    match qp_type {
        IbvQpType::Auto => if mlx5dv {
            ResolvedQpType::Mlx5dv
        } else {
            ResolvedQpType::Standard
        },
        IbvQpType::Standard => ResolvedQpType::Standard,
        IbvQpType::Mlx5dv => ResolvedQpType::Mlx5dv,
    }
}

/// The kind of queue pair to create for `qp_type`, where the machine decides.
pub fn resolve_qp_type(qp_type: IbvQpType, cache: &mut SupportCache, probe: &DeviceListProbe) -> (r: ResolvedQpType)
    ensures
        r == resolved_qp_type(qp_type, known_or(old(cache).mlx5dv, probe.mlx5dv())),
        qp_type is Auto ==> final(cache).mlx5dv == Some(known_or(old(cache).mlx5dv, probe.mlx5dv())),
        qp_type is Auto ==> final(cache).ibverbs == old(cache).ibverbs,
        !(qp_type is Auto) ==> *final(cache) == *old(cache),
{
    match qp_type {
        IbvQpType::Auto => {
            if mlx5dv_supported(cache, probe) {
                ResolvedQpType::Mlx5dv
            } else {
                ResolvedQpType::Standard
            }
        },
        IbvQpType::Standard => ResolvedQpType::Standard,
        IbvQpType::Mlx5dv => ResolvedQpType::Mlx5dv,
    }
}

/// What the ibverbs library answers when it is asked for its device list.
#[derive(Debug, Clone, Copy)]
pub struct DeviceListProbe {
    /// Whether there was a list at all.
    pub listed: bool,
    /// How many devices it was said to hold.
    pub num_devices: i32,
    /// Of the first device, if there is one: whether it supports mlx5dv.
    pub first_supports_mlx5dv: Option<bool>,
}

impl DeviceListProbe {
    /// The first listed device supports mlx5dv.
    pub open spec fn mlx5dv(self) -> bool {
        self.listed && self.num_devices > 0 && self.first_supports_mlx5dv == Some(true)
    }

    /// There are devices.
    pub open spec fn ibverbs(self) -> bool {
        self.num_devices > 0
    }
}

/// Answers that were given once and are kept.
#[derive(Debug, Clone, Copy)]
pub struct SupportCache {
    pub mlx5dv: Option<bool>,
    pub ibverbs: Option<bool>,
}

/// The kept answer if there is one, else the new one.
pub open spec fn known_or(kept: Option<bool>, new: bool) -> bool {
    match kept {
        Some(answer) => answer,
        None => new,
    }
}

impl SupportCache {
    /// No answer is kept yet.
    pub fn new() -> (c: SupportCache)
        ensures
            c.mlx5dv is None,
            c.ibverbs is None,
    {
        SupportCache { mlx5dv: None, ibverbs: None }
    }
}

/// Whether the mlx5dv extension is supported: whether the first device supports it.
/// The first answer is kept and given to every later call.
pub fn mlx5dv_supported(cache: &mut SupportCache, probe: &DeviceListProbe) -> (r: bool)
    ensures
        r == known_or(old(cache).mlx5dv, probe.mlx5dv()),
        final(cache).mlx5dv == Some(r),
        final(cache).ibverbs == old(cache).ibverbs,
{
    match cache.mlx5dv {
        Some(answer) => answer,
        None => {
            let mut answer: bool = false;
            if probe.listed && probe.num_devices > 0 {
                if let Some(first) = probe.first_supports_mlx5dv {
                    answer = first;
                }
            }
            cache.mlx5dv = Some(answer);
            answer
        },
    }
}

/// Whether there are ibverbs devices. The first answer is kept and given to
/// every later call.
pub fn ibverbs_supported(cache: &mut SupportCache, probe: &DeviceListProbe) -> (r: bool)
    ensures
        r == known_or(old(cache).ibverbs, probe.ibverbs()),
        final(cache).ibverbs == Some(r),
        final(cache).mlx5dv == old(cache).mlx5dv,
{
    match cache.ibverbs {
        Some(answer) => answer,
        None => {
            let answer: bool = probe.num_devices > 0;
            cache.ibverbs = Some(answer);
            answer
        },
    }
}

/// Whether RDMA can be used on this machine.
pub fn rdma_supported(cache: &mut SupportCache, probe: &DeviceListProbe) -> (r: bool)
    ensures
        r == known_or(old(cache).ibverbs, probe.ibverbs()),
        final(cache).ibverbs == Some(r),
        final(cache).mlx5dv == old(cache).mlx5dv,
{
    ibverbs_supported(cache, probe)
}

/// Once an answer is kept, no later probe changes it.
pub proof fn support_answer_is_stable(kept: Option<bool>, first: bool, later: bool)
    ensures
        known_or(Some(known_or(kept, first)), later) == known_or(kept, first),
{
}

/// A number of eight bytes orders as its bytes do, the first byte first, and is
/// what the last byte says where the others are zero.
pub proof fn the_first_byte_weighs_most(a: Seq<u8>, b: Seq<u8>, i: int)
    requires
        a.len() >= 8,
        b.len() >= 8,
        0 <= i < 8,
        forall|j: int| 0 <= j < i ==> a[j] == b[j],
        a[i] < b[i],
    ensures
        be_u64(a) < be_u64(b),
        0 <= be_u64(a) <= u64::MAX,
        (forall|j: int| 0 <= j < 7 ==> a[j] == 0) ==> be_u64(a) == a[7],
{
    assert(i == 0 || i == 1 || i == 2 || i == 3 || i == 4 || i == 5 || i == 6 || i == 7);
}

/// A kind of queue pair that was asked for is what is created; where the machine
/// decides, it is an mlx5dv one exactly where that is supported.
pub proof fn queue_pairs_are_as_asked_for(mlx5dv: bool)
    ensures
        resolved_qp_type(IbvQpType::Standard, mlx5dv) is Standard,
        resolved_qp_type(IbvQpType::Mlx5dv, mlx5dv) is Mlx5dv,
        resolved_qp_type(IbvQpType::Auto, mlx5dv) is Mlx5dv <==> mlx5dv,
{
}

/// What supports mlx5dv has ibverbs devices, and mlx5dv is supported only where
/// the first device that is listed says so.
pub proof fn mlx5dv_needs_a_device(probe: DeviceListProbe)
    ensures
        probe.mlx5dv() ==> probe.ibverbs() && probe.first_supports_mlx5dv == Some(true),
        probe.ibverbs() <==> probe.num_devices > 0,
        !probe.listed ==> !probe.mlx5dv(),
        probe.listed && probe.ibverbs() ==> (probe.mlx5dv() <==> probe.first_supports_mlx5dv == Some(true)),
{
}

/// An answer that is kept goes before a new one, and a new one counts where none
/// is kept.
pub proof fn kept_answers_go_first(answer: bool, new: bool)
    ensures
        known_or(Some(answer), new) == answer,
        known_or(None, new) == new,
{
}

/// A port of an RDMA device.
#[derive(Debug)]
pub struct IbvPort {
    /// The physical port number on the device.
    pub port_num: u8,
    /// The current state of the port.
    pub state: String,
    /// The physical state of the port.
    pub physical_state: String,
    /// Base local identifier of the port.
    pub base_lid: u16,
    /// Local identifier mask control.
    pub lmc: u8,
    /// Local identifier of the subnet manager.
    pub sm_lid: u16,
    /// Capability mask of the port.
    pub capability_mask: u32,
    /// The link layer type.
    pub link_layer: String,
    /// Global identifier of the port.
    pub gid: String,
    /// Length of the table of global identifiers.
    pub gid_tbl_len: i32,
}

/// An RDMA device.
#[derive(Debug)]
pub struct IbvDevice {
    /// The name of the device, such as `mlx5_0`.
    pub name: String,
    /// The vendor of the device.
    pub vendor_id: u32,
    /// The vendor's number for the part.
    pub vendor_part_id: u32,
    /// Hardware version of the device.
    pub hw_ver: u32,
    /// Firmware version of the device.
    pub fw_ver: String,
    /// Globally unique identifier of the node.
    pub node_guid: u64,
    /// The ports of the device.
    pub ports: Vec<IbvPort>,
    /// Maximum number of queue pairs.
    pub max_qp: i32,
    /// Maximum number of completion queues.
    pub max_cq: i32,
    /// Maximum number of memory regions.
    pub max_mr: i32,
    /// Maximum number of protection domains.
    pub max_pd: i32,
    /// Maximum number of work requests per queue pair.
    pub max_qp_wr: i32,
    /// Maximum number of scatter/gather elements per work request.
    pub max_sge: i32,
}

/// What an `IbvPort` holds.
#[verifier::ext_equal]
pub struct PortModel {
    pub port_num: u8,
    pub state: Seq<char>,
    pub physical_state: Seq<char>,
    pub base_lid: u16,
    pub lmc: u8,
    pub sm_lid: u16,
    pub capability_mask: u32,
    pub link_layer: Seq<char>,
    pub gid: Seq<char>,
    pub gid_tbl_len: i32,
}

/// What an `IbvDevice` holds.
#[verifier::ext_equal]
pub struct DeviceModel {
    pub name: Seq<char>,
    pub vendor_id: u32,
    pub vendor_part_id: u32,
    pub hw_ver: u32,
    pub fw_ver: Seq<char>,
    pub node_guid: u64,
    pub ports: Seq<PortModel>,
    pub max_qp: i32,
    pub max_cq: i32,
    pub max_mr: i32,
    pub max_pd: i32,
    pub max_qp_wr: i32,
    pub max_sge: i32,
}

impl View for IbvPort {
    type V = PortModel;

    open spec fn view(&self) -> PortModel {
        PortModel {
            port_num: self.port_num,
            state: self.state@,
            physical_state: self.physical_state@,
            base_lid: self.base_lid,
            lmc: self.lmc,
            sm_lid: self.sm_lid,
            capability_mask: self.capability_mask,
            link_layer: self.link_layer@,
            gid: self.gid@,
            gid_tbl_len: self.gid_tbl_len,
        }
    }
}

/// What the ports of a device hold.
pub open spec fn port_models(ports: Seq<IbvPort>) -> Seq<PortModel> {
    ports.map_values(|p: IbvPort| p@)
}

/// What a row of devices holds.
pub open spec fn device_models(devices: Seq<IbvDevice>) -> Seq<DeviceModel> {
    devices.map_values(|d: IbvDevice| d@)
}

impl View for IbvDevice {
    type V = DeviceModel;

    open spec fn view(&self) -> DeviceModel {
        DeviceModel {
            name: self.name@,
            vendor_id: self.vendor_id,
            vendor_part_id: self.vendor_part_id,
            hw_ver: self.hw_ver,
            fw_ver: self.fw_ver@,
            node_guid: self.node_guid,
            ports: port_models(self.ports@),
            max_qp: self.max_qp,
            max_cq: self.max_cq,
            max_mr: self.max_mr,
            max_pd: self.max_pd,
            max_qp_wr: self.max_qp_wr,
            max_sge: self.max_sge,
        }
    }
}

impl Clone for IbvPort {
    fn clone(&self) -> (c: IbvPort)
        ensures
            c@ == self@,
    {
        IbvPort {
            port_num: self.port_num,
            state: self.state.clone(),
            physical_state: self.physical_state.clone(),
            base_lid: self.base_lid,
            lmc: self.lmc,
            sm_lid: self.sm_lid,
            capability_mask: self.capability_mask,
            link_layer: self.link_layer.clone(),
            gid: self.gid.clone(),
            gid_tbl_len: self.gid_tbl_len,
        }
    }
}

fn clone_ports(ports: &Vec<IbvPort>) -> (c: Vec<IbvPort>)
    ensures
        port_models(c@) == port_models(ports@),
{
    let mut c: Vec<IbvPort> = Vec::new();
    let mut i: usize = 0;
    while i < ports.len()
        invariant
            i <= ports.len(),
            port_models(c@) == port_models(ports@).take(i as int),
        decreases ports.len() - i,
    {
        let port: IbvPort = ports[i].clone();
        let ghost before = c@;
        let ghost model = port@;
        c.push(port);
        assert(port_models(c@) =~= port_models(before).push(model));
        assert(port_models(ports@)[i as int] == model);
        assert(port_models(c@) =~= port_models(ports@).take(i + 1));
        i = i + 1;
    }
    assert(port_models(ports@).take(ports.len() as int) =~= port_models(ports@));
    c
}

impl Clone for IbvDevice {
    fn clone(&self) -> (c: IbvDevice)
        ensures
            c@ == self@,
    {
        IbvDevice {
            name: self.name.clone(),
            vendor_id: self.vendor_id,
            vendor_part_id: self.vendor_part_id,
            hw_ver: self.hw_ver,
            fw_ver: self.fw_ver.clone(),
            node_guid: self.node_guid,
            ports: clone_ports(&self.ports),
            max_qp: self.max_qp,
            max_cq: self.max_cq,
            max_mr: self.max_mr,
            max_pd: self.max_pd,
            max_qp_wr: self.max_qp_wr,
            max_sge: self.max_sge,
        }
    }
}

impl IbvDevice {
    /// The name of the device.
    pub fn name(&self) -> (r: &String)
        ensures
            *r == self.name,
    {
        &self.name
    }

    /// The first device, if there is one.
    pub fn first_available(devices: &Vec<IbvDevice>) -> (r: Option<&IbvDevice>)
        ensures
            r == first_of(devices@),
    {
        if devices.len() == 0 {
            None
        } else {
            Some(&devices[0])
        }
    }

    /// The vendor of the device.
    pub fn vendor_id(&self) -> (r: u32)
        ensures
            r == self.vendor_id,
    {
        self.vendor_id
    }

    /// The vendor's number for the part.
    pub fn vendor_part_id(&self) -> (r: u32)
        ensures
            r == self.vendor_part_id,
    {
        self.vendor_part_id
    }

    /// The hardware version of the device.
    pub fn hw_ver(&self) -> (r: u32)
        ensures
            r == self.hw_ver,
    {
        self.hw_ver
    }

    /// The firmware version of the device.
    pub fn fw_ver(&self) -> (r: &String)
        ensures
            *r == self.fw_ver,
    {
        &self.fw_ver
    }

    /// The globally unique identifier of the node.
    pub fn node_guid(&self) -> (r: u64)
        ensures
            r == self.node_guid,
    {
        self.node_guid
    }

    /// The ports of the device.
    pub fn ports(&self) -> (r: &Vec<IbvPort>)
        ensures
            *r == self.ports,
    {
        &self.ports
    }

    /// The maximum number of queue pairs.
    pub fn max_qp(&self) -> (r: i32)
        ensures
            r == self.max_qp,
    {
        self.max_qp
    }

    /// The maximum number of completion queues.
    pub fn max_cq(&self) -> (r: i32)
        ensures
            r == self.max_cq,
    {
        self.max_cq
    }

    /// The maximum number of memory regions.
    pub fn max_mr(&self) -> (r: i32)
        ensures
            r == self.max_mr,
    {
        self.max_mr
    }

    /// The maximum number of protection domains.
    pub fn max_pd(&self) -> (r: i32)
        ensures
            r == self.max_pd,
    {
        self.max_pd
    }

    /// The maximum number of work requests per queue pair.
    pub fn max_qp_wr(&self) -> (r: i32)
        ensures
            r == self.max_qp_wr,
    {
        self.max_qp_wr
    }

    /// The maximum number of scatter/gather elements per work request.
    pub fn max_sge(&self) -> (r: i32)
        ensures
            r == self.max_sge,
    {
        self.max_sge
    }
}

/// The first of a row of devices.
pub open spec fn first_of(devices: Seq<IbvDevice>) -> Option<&'static IbvDevice> {
    if devices.len() == 0 {
        None
    } else {
        Some(&devices[0])
    }
}

/// `text` with one more line, made of a label and a value.
pub open spec fn with_line(text: Seq<char>, label: Seq<char>, value: Seq<char>) -> Seq<char> {
    text + label + value + "\n"@
}

fn push_line(text: &mut String, label: &str, value: &str)
    ensures
        final(text)@ == with_line(old(text)@, label@, value@),
{
    text.append(label);
    text.append(value);
    text.append("\n");
}

/// `text` followed by what is written of a port.
pub open spec fn with_port(text: Seq<char>, p: PortModel) -> Seq<char> {
    let t = with_line(text, "\tPort "@, decimal(p.port_num as nat) + ":"@);
    let t = with_line(t, "\t\tState: "@, p.state);
    let t = with_line(t, "\t\tPhysical state: "@, p.physical_state);
    let t = with_line(t, "\t\tBase lid: "@, decimal(p.base_lid as nat));
    let t = with_line(t, "\t\tLMC: "@, decimal(p.lmc as nat));
    let t = with_line(t, "\t\tSM lid: "@, decimal(p.sm_lid as nat));
    let t = with_line(t, "\t\tCapability mask: 0x"@, zero_padded(hex(p.capability_mask as nat), 8));
    let t = with_line(t, "\t\tLink layer: "@, p.link_layer);
    let t = with_line(t, "\t\tGID: "@, p.gid);
    with_line(t, "\t\tGID table length: "@, signed_decimal(p.gid_tbl_len as int))
}

/// `text` followed by what is written of the ports, in order.
pub open spec fn with_ports(text: Seq<char>, ports: Seq<PortModel>) -> Seq<char>
    decreases ports.len(),
{
    if ports.len() == 0 {
        text
    } else {
        with_port(with_ports(text, ports.drop_last()), ports.last())
    }
}

/// What is written of a device.
pub open spec fn device_text(d: DeviceModel) -> Seq<char> {
    let t = with_line(Seq::<char>::empty(), d.name, Seq::<char>::empty());
    let t = with_line(t, "\tNumber of ports: "@, decimal(d.ports.len()));
    let t = with_line(t, "\tFirmware version: "@, d.fw_ver);
    let t = with_line(t, "\tHardware version: "@, decimal(d.hw_ver as nat));
    let t = with_line(t, "\tNode GUID: 0x"@, zero_padded(hex(d.node_guid as nat), 16));
    let t = with_line(t, "\tVendor ID: 0x"@, hex(d.vendor_id as nat));
    let t = with_line(t, "\tVendor part ID: "@, decimal(d.vendor_part_id as nat));
    let t = with_line(t, "\tMax QPs: "@, signed_decimal(d.max_qp as int));
    let t = with_line(t, "\tMax CQs: "@, signed_decimal(d.max_cq as int));
    let t = with_line(t, "\tMax MRs: "@, signed_decimal(d.max_mr as int));
    let t = with_line(t, "\tMax PDs: "@, signed_decimal(d.max_pd as int));
    let t = with_line(t, "\tMax QP WRs: "@, signed_decimal(d.max_qp_wr as int));
    let t = with_line(t, "\tMax SGE: "@, signed_decimal(d.max_sge as int));
    with_ports(t, d.ports)
}

impl IbvPort {
    fn push_to(&self, t: &mut String)
        ensures
            final(t)@ == with_port(old(t)@, self@),
    {
        let mut number: String = format_decimal(self.port_num as u64);
        number.append(":");
        push_line(t, "\tPort ", number.as_str());
        push_line(t, "\t\tState: ", self.state.as_str());
        push_line(t, "\t\tPhysical state: ", self.physical_state.as_str());
        push_line(t, "\t\tBase lid: ", format_decimal(self.base_lid as u64).as_str());
        push_line(t, "\t\tLMC: ", format_decimal(self.lmc as u64).as_str());
        push_line(t, "\t\tSM lid: ", format_decimal(self.sm_lid as u64).as_str());
        push_line(t, "\t\tCapability mask: 0x", format_hex_padded(self.capability_mask as u64, 8).as_str());
        push_line(t, "\t\tLink layer: ", self.link_layer.as_str());
        push_line(t, "\t\tGID: ", self.gid.as_str());
        push_line(t, "\t\tGID table length: ", format_signed(self.gid_tbl_len as i64).as_str());
    }

    /// The port, written for a reader.
    pub fn display(&self) -> (s: String)
        ensures
            s@ == with_port(Seq::<char>::empty(), self@),
    {
        let mut s: String = String::new();
        self.push_to(&mut s);
        s
    }
}

impl IbvDevice {
    /// The device and its ports, written for a reader.
    pub fn display(&self) -> (s: String)
        ensures
            s@ == device_text(self@),
    {
        let mut t: String = String::new();
        push_line(&mut t, self.name.as_str(), "");
        proof {
            reveal_strlit("");
            assert(""@ =~= Seq::<char>::empty());
        }
        push_line(&mut t, "\tNumber of ports: ", format_decimal(self.ports.len() as u64).as_str());
        push_line(&mut t, "\tFirmware version: ", self.fw_ver.as_str());
        push_line(&mut t, "\tHardware version: ", format_decimal(self.hw_ver as u64).as_str());
        push_line(&mut t, "\tNode GUID: 0x", format_hex_padded(self.node_guid, 16).as_str());
        push_line(&mut t, "\tVendor ID: 0x", format_hex(self.vendor_id as u64).as_str());
        push_line(&mut t, "\tVendor part ID: ", format_decimal(self.vendor_part_id as u64).as_str());
        push_line(&mut t, "\tMax QPs: ", format_signed(self.max_qp as i64).as_str());
        push_line(&mut t, "\tMax CQs: ", format_signed(self.max_cq as i64).as_str());
        push_line(&mut t, "\tMax MRs: ", format_signed(self.max_mr as i64).as_str());
        push_line(&mut t, "\tMax PDs: ", format_signed(self.max_pd as i64).as_str());
        push_line(&mut t, "\tMax QP WRs: ", format_signed(self.max_qp_wr as i64).as_str());
        push_line(&mut t, "\tMax SGE: ", format_signed(self.max_sge as i64).as_str());
        let ghost head = t@;
        let ghost models = port_models(self.ports@);
        let mut i: usize = 0;
        while i < self.ports.len()
            invariant
                i <= self.ports.len(),
                models == port_models(self.ports@),
                t@ == with_ports(head, models.take(i as int)),
            decreases self.ports.len() - i,
        {
            self.ports[i].push_to(&mut t);
            assert(models.take(i + 1).drop_last() == models.take(i as int));
            assert(models.take(i + 1).last() == self.ports@[i as int]@);
            i = i + 1;
        }
        assert(models.take(self.ports.len() as int) == models);
        t
    }
}

/// The name of a port state; `ibverbs_name` is what the ibverbs library calls
/// it, if it has a name for it.
pub fn get_port_state_str(ibverbs_name: Option<&String>) -> (s: String)
    ensures
        s@ == port_state_text(match ibverbs_name {
            Some(name) => Some(name@),
            None => None,
        }),
{
    match ibverbs_name {
        Some(name) => name.clone(),
        None => "Unknown".to_owned(),
    }
}

/// The name of a port state.
pub open spec fn port_state_text(ibverbs_name: Option<Seq<char>>) -> Seq<char> {
    match ibverbs_name {
        Some(name) => name,
        None => "Unknown"@,
    }
}

/// The name of a physical port state.
pub open spec fn phy_state_text(phys_state: u8) -> Seq<char> {
    if phys_state == 1 {
        "Sleep"@
    } else if phys_state == 2 {
        "Polling"@
    } else if phys_state == 3 {
        "Disabled"@
    } else if phys_state == 4 {
        "PortConfigurationTraining"@
    } else if phys_state == 5 {
        "LinkUp"@
    } else if phys_state == 6 {
        "LinkErrorRecovery"@
    } else if phys_state == 7 {
        "PhyTest"@
    } else {
        "No state change"@
    }
}

/// The name of a physical port state.
pub fn get_port_phy_state_str(phys_state: u8) -> (s: String)
    ensures
        s@ == phy_state_text(phys_state),
{
    match phys_state {
        1 => "Sleep".to_owned(),
        2 => "Polling".to_owned(),
        3 => "Disabled".to_owned(),
        4 => "PortConfigurationTraining".to_owned(),
        5 => "LinkUp".to_owned(),
        6 => "LinkErrorRecovery".to_owned(),
        7 => "PhyTest".to_owned(),
        _ => "No state change".to_owned(),
    }
}

/// The name of a link layer.
pub open spec fn link_layer_text(link_layer: u8) -> Seq<char> {
    if link_layer == 1 {
        "InfiniBand"@
    } else if link_layer == 2 {
        "Ethernet"@
    } else {
        "Unknown"@
    }
}

/// The name of a link layer.
pub fn get_link_layer_str(link_layer: u8) -> (s: String)
    ensures
        s@ == link_layer_text(link_layer),
{
    match link_layer {
        1 => "InfiniBand".to_owned(),
        2 => "Ethernet".to_owned(),
        _ => "Unknown".to_owned(),
    }
}

/// The bytes in hexadecimal, two places each, with a colon before every other
/// byte but the first.
pub open spec fn gid_text(gid: Seq<u8>) -> Seq<char>
    decreases gid.len(),
{
    if gid.len() == 0 {
        Seq::<char>::empty()
    } else {
        let rest = gid_text(gid.drop_last());
        let byte = zero_padded(hex(gid.last() as nat), 2);
        if gid.len() > 1 && gid.len() % 2 == 1 {
            rest.push(':') + byte
        } else {
            rest + byte
        }
    }
}

/// A global identifier, written as eight groups of four hexadecimal digits.
pub fn format_gid(gid: &[u8; 16]) -> (s: String)
    ensures
        s@ == gid_text(gid@),
{
    let mut s: String = String::new();
    let mut i: usize = 0;
    while i < 16
        invariant
            i <= 16,
            s@ == gid_text(gid@.take(i as int)),
        decreases 16 - i,
    {
        if i > 0 && i % 2 == 0 {
            s.push(':');
        }
        let byte: String = format_hex_padded(gid[i] as u64, 2);
        s.append(byte.as_str());
        assert(gid@.take(i + 1).drop_last() == gid@.take(i as int));
        assert(gid@.take(i + 1).last() == gid@[i as int]);
        i = i + 1;
    }
    assert(gid@.take(16) == gid@);
    s
}

/// What a query of a port brings.
#[derive(Debug)]
pub struct PortAttr {
    /// What the ibverbs library calls the port's state, if it has a name for it.
    pub state: Option<String>,
    pub phys_state: u8,
    pub link_layer: u8,
    pub lid: u16,
    pub lmc: u8,
    pub sm_lid: u16,
    pub port_cap_flags: u32,
    pub gid_tbl_len: i32,
    /// The first global identifier of the port, if it could be queried.
    pub gid: Option<[u8; 16]>,
}

/// What a query of a device brings.
#[derive(Debug)]
pub struct DeviceAttr {
    pub name: String,
    pub vendor_id: u32,
    pub vendor_part_id: u32,
    pub hw_ver: u32,
    pub fw_ver: String,
    pub node_guid: u64,
    pub max_qp: i32,
    pub max_cq: i32,
    pub max_mr: i32,
    pub max_pd: i32,
    pub max_qp_wr: i32,
    pub max_sge: i32,
    /// The physical ports from number one on; `None` where the query failed.
    pub ports: Vec<Option<PortAttr>>,
}

/// What came of looking at one entry of the device list.
#[derive(Debug)]
pub enum DeviceProbe {
    /// The entry holds no device.
    Missing,
    /// The device could not be opened.
    Unopened,
    /// The device was opened and could not be queried.
    Unqueried,
    /// The device was queried.
    Queried(DeviceAttr),
}

/// The port that a query describes.
pub open spec fn port_model(port_num: u8, a: PortAttr) -> PortModel {
    PortModel {
        port_num,
        state: port_state_text(match a.state {
            Some(name) => Some(name@),
            None => None,
        }),
        physical_state: phy_state_text(a.phys_state),
        base_lid: a.lid,
        lmc: a.lmc,
        sm_lid: a.sm_lid,
        capability_mask: a.port_cap_flags,
        link_layer: link_layer_text(a.link_layer),
        gid: match a.gid {
            Some(raw) => gid_text(raw@),
            None => "N/A"@,
        },
        gid_tbl_len: a.gid_tbl_len,
    }
}

/// The ports of those queries that succeeded, numbered by their place.
pub open spec fn queried_ports(ports: Seq<Option<PortAttr>>) -> Seq<PortModel>
    decreases ports.len(),
{
    if ports.len() == 0 {
        Seq::<PortModel>::empty()
    } else {
        let rest = queried_ports(ports.drop_last());
        match ports.last() {
            Some(a) => rest.push(port_model(ports.len() as u8, a)),
            None => rest,
        }
    }
}

/// The device that a query describes.
pub open spec fn device_model(a: DeviceAttr) -> DeviceModel {
    DeviceModel {
        name: a.name@,
        vendor_id: a.vendor_id,
        vendor_part_id: a.vendor_part_id,
        hw_ver: a.hw_ver,
        fw_ver: a.fw_ver@,
        node_guid: a.node_guid,
        ports: queried_ports(a.ports@),
        max_qp: a.max_qp,
        max_cq: a.max_cq,
        max_mr: a.max_mr,
        max_pd: a.max_pd,
        max_qp_wr: a.max_qp_wr,
        max_sge: a.max_sge,
    }
}

/// The devices that were queried, in the order of the list.
pub open spec fn queried_devices(probes: Seq<DeviceProbe>) -> Seq<DeviceModel>
    decreases probes.len(),
{
    if probes.len() == 0 {
        Seq::<DeviceModel>::empty()
    } else {
        let rest = queried_devices(probes.drop_last());
        match probes.last() {
            DeviceProbe::Queried(a) => rest.push(device_model(a)),
            _ => rest,
        }
    }
}

/// Each port is told as it was queried, under the number of its place, and the
/// ports that could not be queried are left out, and no others.
pub proof fn ports_are_told_as_queried(ports: Seq<Option<PortAttr>>)
    requires
        ports.len() <= 255,
    ensures
        queried_ports(ports).len() == ports.filter(|p: Option<PortAttr>| p is Some).len(),
        forall|k: int|
            0 <= k < queried_ports(ports).len() ==> {
                let p = #[trigger] queried_ports(ports)[k];
                &&& 1 <= p.port_num <= ports.len()
                &&& ports[p.port_num - 1] matches Some(a)
                &&& p.base_lid == a.lid && p.lmc == a.lmc && p.sm_lid == a.sm_lid
                &&& p.capability_mask == a.port_cap_flags && p.gid_tbl_len == a.gid_tbl_len
                &&& p.physical_state == phy_state_text(a.phys_state) && p.link_layer == link_layer_text(a.link_layer)
                &&& a.gid matches Some(raw) ==> p.gid == gid_text(raw@)
                &&& a.gid is None ==> p.gid == "N/A"@
                &&& a.state matches Some(name) ==> p.state == name@
                &&& a.state is None ==> p.state == "Unknown"@
            },
        forall|j: int, k: int|
            0 <= j < k < queried_ports(ports).len() ==> (#[trigger] queried_ports(ports)[j]).port_num < (
            #[trigger] queried_ports(ports)[k]).port_num,
    decreases ports.len(),
{
    reveal(Seq::filter);
    if ports.len() > 0 {
        let rest = ports.drop_last();
        ports_are_told_as_queried(rest);
        let told = queried_ports(rest);
        let all = queried_ports(ports);
        assert forall|k: int| 0 <= k < told.len() implies #[trigger] all[k] == told[k] by {}
        assert forall|j: int| 0 <= j < rest.len() implies rest[j] == ports[j] by {}
        assert forall|k: int| 0 <= k < all.len() implies {
            let p = #[trigger] all[k];
            &&& 1 <= p.port_num <= ports.len()
            &&& ports[p.port_num - 1] matches Some(a)
            &&& p.base_lid == a.lid && p.lmc == a.lmc && p.sm_lid == a.sm_lid
            &&& p.capability_mask == a.port_cap_flags && p.gid_tbl_len == a.gid_tbl_len
            &&& p.physical_state == phy_state_text(a.phys_state) && p.link_layer == link_layer_text(a.link_layer)
            &&& a.gid matches Some(raw) ==> p.gid == gid_text(raw@)
            &&& a.gid is None ==> p.gid == "N/A"@
            &&& a.state matches Some(name) ==> p.state == name@
            &&& a.state is None ==> p.state == "Unknown"@
        } by {
            if k < told.len() {
                assert(told[k] == all[k]);
            }
        }
    }
}

/// Each device that was queried is told as it was queried, in the order of the
/// list, and no other is.
pub proof fn devices_are_told_as_queried(probes: Seq<DeviceProbe>)
    ensures
        queried_devices(probes).len() == probes.filter(|p: DeviceProbe| p is Queried).len(),
        forall|k: int|
            0 <= k < queried_devices(probes).len() ==> {
                let d = #[trigger] queried_devices(probes)[k];
                &&& probes.filter(|p: DeviceProbe| p is Queried)[k] matches DeviceProbe::Queried(a)
                &&& d.name == a.name@ && d.fw_ver == a.fw_ver@
                &&& d.vendor_id == a.vendor_id && d.vendor_part_id == a.vendor_part_id && d.hw_ver == a.hw_ver
                &&& d.node_guid == a.node_guid
                &&& d.max_qp == a.max_qp && d.max_cq == a.max_cq && d.max_mr == a.max_mr && d.max_pd == a.max_pd
                &&& d.max_qp_wr == a.max_qp_wr && d.max_sge == a.max_sge
                &&& d.ports == queried_ports(a.ports@)
            },
    decreases probes.len(),
{
    reveal(Seq::filter);
    if probes.len() > 0 {
        devices_are_told_as_queried(probes.drop_last());
        let told = queried_devices(probes.drop_last());
        let kept = probes.drop_last().filter(|p: DeviceProbe| p is Queried);
        let all = queried_devices(probes);
        let of = probes.filter(|p: DeviceProbe| p is Queried);
        assert forall|k: int| 0 <= k < told.len() implies #[trigger] all[k] == told[k] && of[k] == kept[k] by {}
        assert forall|k: int| 0 <= k < all.len() implies {
            let d = #[trigger] all[k];
            &&& of[k] matches DeviceProbe::Queried(a)
            &&& d.name == a.name@ && d.fw_ver == a.fw_ver@
            &&& d.vendor_id == a.vendor_id && d.vendor_part_id == a.vendor_part_id && d.hw_ver == a.hw_ver
            &&& d.node_guid == a.node_guid
            &&& d.max_qp == a.max_qp && d.max_cq == a.max_cq && d.max_mr == a.max_mr && d.max_pd == a.max_pd
            &&& d.max_qp_wr == a.max_qp_wr && d.max_sge == a.max_sge
            &&& d.ports == queried_ports(a.ports@)
        } by {
            if k < told.len() {
                assert(told[k] == all[k]);
            }
        }
    }
}

/// The physical states have names that tell them apart, and the link layers too;
/// what is none of them is not named like one.
pub proof fn states_are_told_apart(a: u8, b: u8)
    ensures
        1 <= a <= 7 && a != b ==> phy_state_text(a) != phy_state_text(b),
        (a < 1 || a > 7) && (b < 1 || b > 7) ==> phy_state_text(a) == phy_state_text(b),
        1 <= a <= 2 && a != b ==> link_layer_text(a) != link_layer_text(b),
        phy_state_text(5) == "LinkUp"@,
        link_layer_text(1) == "InfiniBand"@,
        link_layer_text(2) == "Ethernet"@,
{
    reveal_strlit("Sleep");
    reveal_strlit("Polling");
    reveal_strlit("Disabled");
    reveal_strlit("PortConfigurationTraining");
    reveal_strlit("LinkUp");
    reveal_strlit("LinkErrorRecovery");
    reveal_strlit("PhyTest");
    reveal_strlit("No state change");
    reveal_strlit("InfiniBand");
    reveal_strlit("Ethernet");
    reveal_strlit("Unknown");
    assert("Polling"@[1] != "PhyTest"@[1]);
    assert("Sleep"@.len() == 5 && "Polling"@.len() == 7 && "Disabled"@.len() == 8);
    assert("PortConfigurationTraining"@.len() == 25 && "LinkUp"@.len() == 6 && "LinkErrorRecovery"@.len() == 17);
    assert("PhyTest"@.len() == 7 && "No state change"@.len() == 15);
    assert("InfiniBand"@.len() == 10 && "Ethernet"@.len() == 8 && "Unknown"@.len() == 7);
}

/// The number of physical ports of a device is a `u8`.
pub open spec fn port_count_fits(probes: Seq<DeviceProbe>) -> bool {
    forall|i: int|
        0 <= i < probes.len() ==> (#[trigger] probes[i] matches DeviceProbe::Queried(a) ==> a.ports@.len() <= 255)
}

fn make_port(port_num: u8, a: &PortAttr) -> (p: IbvPort)
    ensures
        p@ == port_model(port_num, *a),
{
    let state: String = match &a.state {
        Some(name) => get_port_state_str(Some(name)),
        None => get_port_state_str(None),
    };
    let gid: String = match &a.gid {
        Some(raw) => format_gid(raw),
        None => "N/A".to_owned(),
    };
    IbvPort {
        port_num,
        state,
        physical_state: get_port_phy_state_str(a.phys_state),
        base_lid: a.lid,
        lmc: a.lmc,
        sm_lid: a.sm_lid,
        capability_mask: a.port_cap_flags,
        link_layer: get_link_layer_str(a.link_layer),
        gid,
        gid_tbl_len: a.gid_tbl_len,
    }
}

fn make_device(a: &DeviceAttr) -> (d: IbvDevice)
    requires
        a.ports@.len() <= 255,
    ensures
        d@ == device_model(*a),
{
    let mut ports: Vec<IbvPort> = Vec::new();
    let mut i: usize = 0;
    assert(port_models(ports@) =~= queried_ports(a.ports@.take(0)));
    while i < a.ports.len()
        invariant
            i <= a.ports@.len() <= 255,
            port_models(ports@) == queried_ports(a.ports@.take(i as int)),
        decreases a.ports@.len() - i,
    {
        let ghost before = ports@;
        assert(a.ports@.take(i + 1).drop_last() == a.ports@.take(i as int));
        if let Some(attr) = &a.ports[i] {
            let port: IbvPort = make_port((i + 1) as u8, attr);
            let ghost model = port@;
            ports.push(port);
            assert(port_models(ports@) =~= port_models(before).push(model));
        }
        assert(port_models(ports@) =~= queried_ports(a.ports@.take(i + 1)));
        i = i + 1;
    }
    assert(a.ports@.take(a.ports@.len() as int) == a.ports@);
    IbvDevice {
        name: a.name.clone(),
        vendor_id: a.vendor_id,
        vendor_part_id: a.vendor_part_id,
        hw_ver: a.hw_ver,
        fw_ver: a.fw_ver.clone(),
        node_guid: a.node_guid,
        ports,
        max_qp: a.max_qp,
        max_cq: a.max_cq,
        max_mr: a.max_mr,
        max_pd: a.max_pd,
        max_qp_wr: a.max_qp_wr,
        max_sge: a.max_sge,
    }
}

/// All devices that could be opened and queried, each with those of its ports
/// that could be queried. `probes` is what came of each entry of the device
/// list; it is empty where there is no list.
pub fn get_all_devices(probes: &Vec<DeviceProbe>) -> (devices: Vec<IbvDevice>)
    requires
        port_count_fits(probes@),
    ensures
        device_models(devices@) == queried_devices(probes@),
{
    let mut devices: Vec<IbvDevice> = Vec::new();
    let mut i: usize = 0;
    assert(device_models(devices@) =~= queried_devices(probes@.take(0)));
    while i < probes.len()
        invariant
            i <= probes@.len(),
            port_count_fits(probes@),
            device_models(devices@) == queried_devices(probes@.take(i as int)),
        decreases probes@.len() - i,
    {
        let ghost before = devices@;
        assert(probes@.take(i + 1).drop_last() == probes@.take(i as int));
        match &probes[i] {
            DeviceProbe::Queried(attr) => {
                assert(probes@[i as int] matches DeviceProbe::Queried(a) && a.ports@.len() <= 255);
                let device: IbvDevice = make_device(attr);
                let ghost model = device@;
                devices.push(device);
                assert(device_models(devices@) =~= device_models(before).push(model));
            },
            _ => {},
        }
        assert(device_models(devices@) =~= queried_devices(probes@.take(i + 1)));
        i = i + 1;
    }
    assert(probes@.take(probes@.len() as int) == probes@);
    devices
}

/// A view of a registered memory region; several views may lie in one region.
#[derive(Debug, PartialEq, Eq, Structural, Hash, Clone, Copy)]
pub struct IbvMemoryRegionView {
    /// Unique among the views of one manager.
    pub id: usize,
    /// The address as the local process sees it.
    pub virtual_addr: usize,
    /// The address under which the region's registration reaches it.
    pub rdma_addr: usize,
    pub size: usize,
    pub lkey: u32,
    pub rkey: u32,
}

impl IbvMemoryRegionView {
    /// The view with these values.
    pub fn new(
        id: usize,
        virtual_addr: usize,
        rdma_addr: usize,
        size: usize,
        lkey: u32,
        rkey: u32,
    ) -> (v: IbvMemoryRegionView)
        ensures
            v == (IbvMemoryRegionView { id, virtual_addr, rdma_addr, size, lkey, rkey }),
    {
        IbvMemoryRegionView { id, virtual_addr, rdma_addr, size, lkey, rkey }
    }
}

/// The common RDMA operations.
#[derive(Debug, Clone, Copy, PartialEq, Eq, Structural)]
pub enum IbvOperation {
    /// Data goes from local memory to a remote region.
    Write,
    /// A write that also carries immediate data.
    WriteWithImm,
    /// Data comes from a remote region into local memory.
    Read,
    /// Data is received.
    Recv,
}

/// The opcodes of work requests that an operation can become.
#[derive(Debug, Clone, Copy, PartialEq, Eq, Structural)]
pub enum WrOpcode {
    RdmaWrite,
    RdmaWriteWithImm,
    RdmaRead,
}

/// The opcodes of work completions.
#[derive(Debug, Clone, Copy, PartialEq, Eq, Structural)]
pub enum WcOpcode {
    RdmaWrite,
    RdmaRead,
    /// Any other, by its number.
    Other(u32),
}

/// The opcode of the work request for an operation.
pub open spec fn request_opcode(op: IbvOperation) -> WrOpcode {
    match op {
        IbvOperation::Write => WrOpcode::RdmaWrite,
        IbvOperation::WriteWithImm => WrOpcode::RdmaWriteWithImm,
        _ => WrOpcode::RdmaRead,
    }
}

/// The operation that a work completion reports.
pub open spec fn completed_operation(code: WcOpcode) -> IbvOperation {
    if code is RdmaWrite {
        IbvOperation::Write
    } else {
        IbvOperation::Read
    }
}

/// What is written is requested as a write, with immediate data where it has
/// some, and what is read as a read; a completion reports the kind of operation
/// that it is of.
pub proof fn opcodes_tell_the_operation(op: IbvOperation, code: WcOpcode)
    requires
        !(op is Recv),
        !(code is Other),
    ensures
        request_opcode(op) is RdmaWrite <==> op is Write,
        request_opcode(op) is RdmaWriteWithImm <==> op is WriteWithImm,
        request_opcode(op) is RdmaRead <==> op is Read,
        completed_operation(code) is Write <==> code is RdmaWrite,
        completed_operation(code) is Read <==> code is RdmaRead,
{
}

impl IbvOperation {
    /// The opcode of the work request for this operation. There is none for `Recv`.
    pub fn wr_opcode(self) -> (code: WrOpcode)
        requires
            !(self is Recv),
        ensures
            code == request_opcode(self),
    {
        match self {
            IbvOperation::Write => WrOpcode::RdmaWrite,
            IbvOperation::WriteWithImm => WrOpcode::RdmaWriteWithImm,
            _ => WrOpcode::RdmaRead,
        }
    }

    /// The operation that a work completion reports. Only reads and writes are supported.
    pub fn from_wc_opcode(code: WcOpcode) -> (op: IbvOperation)
        requires
            !(code is Other),
        ensures
            op == completed_operation(code),
    {
        match code {
            WcOpcode::RdmaWrite => IbvOperation::Write,
            _ => IbvOperation::Read,
        }
    }
}

/// What a remote side needs to know to connect to a queue pair.
#[derive(Default, Clone, Copy)]
pub struct IbvQpInfo {
    /// The number of the queue pair on its device.
    pub qp_num: u32,
    /// The local identifier within the subnet.
    pub lid: u16,
    /// The global identifier, for routing across subnets.
    pub gid: Option<Gid>,
    /// The packet sequence number.
    pub psn: u32,
}

/// The bytes as a list of decimals, with commas between them.
pub open spec fn byte_list(bytes: Seq<u8>) -> Seq<char>
    decreases bytes.len(),
{
    if bytes.len() == 0 {
        Seq::<char>::empty()
    } else if bytes.len() == 1 {
        decimal(bytes[0] as nat)
    } else {
        byte_list(bytes.drop_last()) + ", "@ + decimal(bytes.last() as nat)
    }
}

/// How an optional global identifier is written for debugging.
pub open spec fn gid_debug_text(gid: Option<Gid>) -> Seq<char> {
    match gid {
        Some(g) => "Some(Gid { raw: ["@ + byte_list(g.raw@) + "] })"@,
        None => "None"@,
    }
}

fn gid_debug(gid: &Option<Gid>) -> (s: String)
    ensures
        s@ == gid_debug_text(*gid),
{
    match gid {
        Some(g) => {
            let mut list: String = format_decimal(g.raw[0] as u64);
            let mut i: usize = 1;
            assert(g.raw@.take(1)[0] == g.raw@[0]);
            while i < 16
                invariant
                    1 <= i <= 16,
                    list@ == byte_list(g.raw@.take(i as int)),
                decreases 16 - i,
            {
                list.append(", ");
                let byte: String = format_decimal(g.raw[i] as u64);
                list.append(byte.as_str());
                assert(g.raw@.take(i + 1).drop_last() == g.raw@.take(i as int));
                assert(g.raw@.take(i + 1).last() == g.raw@[i as int]);
                i = i + 1;
            }
            assert(g.raw@.take(16) == g.raw@);
            let mut s: String = "Some(Gid { raw: [".to_owned();
            s.append(list.as_str());
            s.append("] })");
            s
        },
        None => "None".to_owned(),
    }
}

/// How an endpoint is written for debugging.
pub open spec fn qp_info_text(info: IbvQpInfo) -> Seq<char> {
    "IbvQpInfo { qp_num: "@ + decimal(info.qp_num as nat) + ", lid: "@ + decimal(info.lid as nat) + ", gid: "@
        + gid_debug_text(info.gid) + ", psn: 0x"@ + hex(info.psn as nat) + " }"@
}

impl IbvQpInfo {
    /// The endpoint, written for debugging.
    pub fn debug(&self) -> (s: String)
        ensures
            s@ == qp_info_text(*self),
    {
        let mut s: String = "IbvQpInfo { qp_num: ".to_owned();
        s.append(format_decimal(self.qp_num as u64).as_str());
        s.append(", lid: ");
        s.append(format_decimal(self.lid as u64).as_str());
        s.append(", gid: ");
        s.append(gid_debug(&self.gid).as_str());
        s.append(", psn: 0x");
        s.append(format_hex(self.psn as u64).as_str());
        s.append(" }");
        s
    }
}

/// A work completion.
#[derive(Debug, Clone, Copy)]
pub struct IbvWc {
    /// The identifier that the work request was posted with.
    pub wr_id: u64,
    /// Length of the data transferred.
    pub len: usize,
    /// Whether the operation completed successfully.
    pub valid: bool,
    /// The status and the vendor's error code, if the operation failed.
    pub error: Option<(u32, u32)>,
    /// The kind of operation that completed.
    pub opcode: WcOpcode,
    /// Immediate data, if any.
    pub bytes: Option<u32>,
    /// The number of the queue pair.
    pub qp_num: u32,
    /// The number of the source queue pair.
    pub src_qp: u32,
    /// The partition key index.
    pub pkey_index: u16,
    /// The local identifier of the source.
    pub slid: u16,
    /// The service level.
    pub sl: u8,
    /// The path bits of the destination's local identifier.
    pub dlid_path_bits: u8,
}

impl IbvWc {
    /// The identifier that the work request was posted with.
    pub fn wr_id(&self) -> (r: u64)
        ensures
            r == self.wr_id,
    {
        self.wr_id
    }

    /// Whether the operation completed successfully.
    pub fn is_valid(&self) -> (r: bool)
        ensures
            r == self.valid,
    {
        self.valid
    }
}

}
