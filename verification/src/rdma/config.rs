//! Settings of RDMA connections.

use crate::numerals::{decimal, format_decimal, format_hex, hex};
use crate::rdma::device_selection::{select_optimal_rdma_device, selected, selected_is_a_device, Hardware};
use crate::rdma::primitives::{IbvDevice, IbvQpType};
use crate::text::same;
use vstd::prelude::*;

verus! {

/// The code by which ibverbs knows a path MTU of 4096 bytes.
pub const IBV_MTU_4096: u32 = 5;

/// The bits of a packet sequence number.
pub const PSN_MASK: u32 = 0xffffff;

/// The settings of an RDMA connection.
#[derive(Debug)]
pub struct IbvConfig {
    /// The RDMA device to use.
    pub device: IbvDevice,
    /// The number of completion queue entries.
    pub cq_entries: i32,
    /// The physical port number on the device.
    pub port_num: u8,
    /// The index of the global identifier.
    pub gid_index: u8,
    /// The maximum number of outstanding send work requests.
    pub max_send_wr: u32,
    /// The maximum number of outstanding receive work requests.
    pub max_recv_wr: u32,
    /// The maximum number of scatter/gather elements in a send work request.
    pub max_send_sge: u32,
    /// The maximum number of scatter/gather elements in a receive work request.
    pub max_recv_sge: u32,
    /// The path MTU, by its ibverbs code.
    pub path_mtu: u32,
    /// The number of retries of a connection request.
    pub retry_cnt: u8,
    /// The number of retries where the receiver is not ready.
    pub rnr_retry: u8,
    /// The timeout of a queue pair operation.
    pub qp_timeout: u8,
    /// The minimum timer where the receiver is not ready.
    pub min_rnr_timer: u8,
    /// The maximum number of outstanding reads at the destination.
    pub max_dest_rd_atomic: u8,
    /// The maximum number of outstanding reads at the initiator.
    pub max_rd_atomic: u8,
    /// The partition key index.
    pub pkey_index: u16,
    /// The packet sequence number.
    pub psn: u32,
    /// Whether to enable GPU Direct RDMA.
    pub use_gpu_direct: bool,
    /// How long to let the hardware settle before the first transmission, in milliseconds.
    pub hw_init_delay_ms: u64,
    /// The kind of queue pair to create.
    pub qp_type: IbvQpType,
}

/// Calls `rand::random`. Nothing is said of the number.
#[verifier::external_body]
fn random_u32() -> (n: u32) {
    rand::random::<u32>()
}

/// Whether all settings but the device and the packet sequence number are the defaults.
pub open spec fn has_default_settings(c: IbvConfig) -> bool {
    &&& c.cq_entries == 1024
    &&& c.port_num == 1
    &&& c.gid_index == 3
    &&& c.max_send_wr == 512
    &&& c.max_recv_wr == 512
    &&& c.max_send_sge == 30
    &&& c.max_recv_sge == 30
    &&& c.path_mtu == IBV_MTU_4096
    &&& c.retry_cnt == 7
    &&& c.rnr_retry == 7
    &&& c.qp_timeout == 14
    &&& c.min_rnr_timer == 12
    &&& c.max_dest_rd_atomic == 16
    &&& c.max_rd_atomic == 16
    &&& c.pkey_index == 0
    &&& c.use_gpu_direct == false
    &&& c.hw_init_delay_ms == 2
    &&& c.qp_type == IbvQpType::Auto
}

/// The place of the device used where none is asked for: the one closest to the
/// first NUMA node, else the first of all.
pub open spec fn default_place(hw: Hardware) -> int {
    match selected("cpu:0"@, hw) {
        Some(i) => i,
        None => 0,
    }
}

/// A target with the number zero put in where it names no number.
pub open spec fn normalized(target: Seq<char>) -> Seq<char> {
    if target == "cpu"@ {
        "cpu:0"@
    } else if target == "cuda"@ {
        "cuda:0"@
    } else {
        target
    }
}

/// The place of the device for a target.
pub open spec fn target_place(target: Seq<char>, hw: Hardware) -> int {
    match selected(normalized(target), hw) {
        Some(i) => i,
        None => default_place(hw),
    }
}

impl IbvDevice {
    /// The device used where none is asked for. There must be a device.
    pub fn default(hw: &Hardware) -> (d: &IbvDevice)
        requires
            hw.wf(),
            hw.devices@.len() > 0,
        ensures
            *d == hw.devices@[default_place(*hw)],
            0 <= default_place(*hw) < hw.devices@.len(),
    {
        proof {
            selected_is_a_device("cpu:0"@, *hw);
        }
        match select_optimal_rdma_device(Some("cpu:0"), hw) {
            Some(d) => d,
            None => &hw.devices[0],
        }
    }
}

impl IbvConfig {
    /// The default settings for a device; the packet sequence number is made of
    /// the bits of `random`.
    pub fn with_defaults(device: IbvDevice, random: u32) -> (c: IbvConfig)
        ensures
            c.device == device,
            c.psn == random & PSN_MASK,
            has_default_settings(c),
    {
        IbvConfig {
            device,
            cq_entries: 1024,
            port_num: 1,
            gid_index: 3,
            max_send_wr: 512,
            max_recv_wr: 512,
            max_send_sge: 30,
            max_recv_sge: 30,
            path_mtu: IBV_MTU_4096,
            retry_cnt: 7,
            rnr_retry: 7,
            qp_timeout: 14,
            min_rnr_timer: 12,
            max_dest_rd_atomic: 16,
            max_rd_atomic: 16,
            pkey_index: 0,
            psn: random & PSN_MASK,
            use_gpu_direct: false,
            hw_init_delay_ms: 2,
            qp_type: IbvQpType::Auto,
        }
    }

    /// The default settings for the default device, with a random packet
    /// sequence number of 24 bits. There must be a device.
    pub fn default(hw: &Hardware) -> (c: IbvConfig)
        requires
            hw.wf(),
            hw.devices@.len() > 0,
        ensures
            c.device@ == hw.devices@[default_place(*hw)]@,
            c.psn <= PSN_MASK,
            has_default_settings(c),
    {
        let random: u32 = random_u32();
        assert(random & PSN_MASK <= PSN_MASK) by (bit_vector);
        let device: &IbvDevice = IbvDevice::default(hw);
        IbvConfig::with_defaults(device.clone(), random)
    }

    /// The default settings for the device that a target names:
    ///
    /// - `cpu:N`: the RDMA device closest to NUMA node `N`;
    /// - `cuda:N`: the RDMA device closest to GPU `N`;
    /// - `nic:NAME`: the RDMA device of that name.
    ///
    /// `cpu` and `cuda` stand for `cpu:0` and `cuda:0`. Where the target names no
    /// device, the default device is taken. There must be a device.
    pub fn targeting(target: &str, hw: &Hardware) -> (c: IbvConfig)
        requires
            hw.wf(),
            hw.devices@.len() > 0,
        ensures
            c.device@ == hw.devices@[target_place(target@, *hw)]@,
            c.psn <= PSN_MASK,
            has_default_settings(c),
    {
        let normalized_target: &str = if same(target, "cpu") {
            "cpu:0"
        } else if same(target, "cuda") {
            "cuda:0"
        } else {
            target
        };
        let random: u32 = random_u32();
        assert(random & PSN_MASK <= PSN_MASK) by (bit_vector);
        let device: &IbvDevice = match select_optimal_rdma_device(Some(normalized_target), hw) {
            Some(device) => device,
            None => IbvDevice::default(hw),
        };
        IbvConfig::with_defaults(device.clone(), random)
    }

    /// The settings, written for a reader.
    pub fn display(&self) -> (s: String)
        ensures
            s@ == config_text(*self),
    {
        let mut s: String = "IbvConfig { device: ".to_owned();
        s.append(self.device.name.as_str());
        push_field(&mut s, ", port_num: ", self.port_num as u64);
        push_field(&mut s, ", gid_index: ", self.gid_index as u64);
        push_field(&mut s, ", max_send_wr: ", self.max_send_wr as u64);
        push_field(&mut s, ", max_recv_wr: ", self.max_recv_wr as u64);
        push_field(&mut s, ", max_send_sge: ", self.max_send_sge as u64);
        push_field(&mut s, ", max_recv_sge: ", self.max_recv_sge as u64);
        push_field(&mut s, ", path_mtu: ", self.path_mtu as u64);
        push_field(&mut s, ", retry_cnt: ", self.retry_cnt as u64);
        push_field(&mut s, ", rnr_retry: ", self.rnr_retry as u64);
        push_field(&mut s, ", qp_timeout: ", self.qp_timeout as u64);
        push_field(&mut s, ", min_rnr_timer: ", self.min_rnr_timer as u64);
        push_field(&mut s, ", max_dest_rd_atomic: ", self.max_dest_rd_atomic as u64);
        push_field(&mut s, ", max_rd_atomic: ", self.max_rd_atomic as u64);
        push_field(&mut s, ", pkey_index: ", self.pkey_index as u64);
        s.append(", psn: 0x");
        s.append(format_hex(self.psn as u64).as_str());
        s.append(" }");
        s
    }
}

/// `text` with one more field behind it.
pub open spec fn with_field(text: Seq<char>, label: Seq<char>, value: nat) -> Seq<char> {
    text + label + decimal(value)
}

fn push_field(text: &mut String, label: &str, value: u64)
    ensures
        final(text)@ == with_field(old(text)@, label@, value as nat),
{
    text.append(label);
    text.append(format_decimal(value).as_str());
}

/// How settings are written.
pub open spec fn config_text(c: IbvConfig) -> Seq<char> {
    let t = "IbvConfig { device: "@ + c.device.name@;
    let t = with_field(t, ", port_num: "@, c.port_num as nat);
    let t = with_field(t, ", gid_index: "@, c.gid_index as nat);
    let t = with_field(t, ", max_send_wr: "@, c.max_send_wr as nat);
    let t = with_field(t, ", max_recv_wr: "@, c.max_recv_wr as nat);
    let t = with_field(t, ", max_send_sge: "@, c.max_send_sge as nat);
    let t = with_field(t, ", max_recv_sge: "@, c.max_recv_sge as nat);
    let t = with_field(t, ", path_mtu: "@, c.path_mtu as nat);
    let t = with_field(t, ", retry_cnt: "@, c.retry_cnt as nat);
    let t = with_field(t, ", rnr_retry: "@, c.rnr_retry as nat);
    let t = with_field(t, ", qp_timeout: "@, c.qp_timeout as nat);
    let t = with_field(t, ", min_rnr_timer: "@, c.min_rnr_timer as nat);
    let t = with_field(t, ", max_dest_rd_atomic: "@, c.max_dest_rd_atomic as nat);
    let t = with_field(t, ", max_rd_atomic: "@, c.max_rd_atomic as nat);
    let t = with_field(t, ", pkey_index: "@, c.pkey_index as nat);
    t + ", psn: 0x"@ + hex(c.psn as nat) + " }"@
}

/// `cpu` and `cuda` ask for what they ask for with the number zero, and any other
/// target for itself.
pub proof fn targets_without_a_number_mean_zero(target: Seq<char>, hw: Hardware)
    ensures
        target_place("cpu"@, hw) == target_place("cpu:0"@, hw),
        target_place("cuda"@, hw) == target_place("cuda:0"@, hw),
        target != "cpu"@ && target != "cuda"@ ==> normalized(target) == target,
{
    reveal_strlit("cpu");
    reveal_strlit("cuda");
    reveal_strlit("cpu:0");
    reveal_strlit("cuda:0");
    assert("cpu"@.len() == 3 && "cuda"@.len() == 4 && "cpu:0"@.len() == 5 && "cuda:0"@.len() == 6);
}

/// A target that names a device gets that one; one that names none gets what is
/// used where no device is asked for, which is the device closest to the first
/// NUMA node, or else the first.
pub proof fn targets_get_the_device_they_name(target: Seq<char>, hw: Hardware)
    requires
        target != "cpu"@,
        target != "cuda"@,
    ensures
        selected(target, hw) matches Some(i) ==> target_place(target, hw) == i,
        selected(target, hw) is None ==> target_place(target, hw) == default_place(hw),
        selected("cpu:0"@, hw) matches Some(i) ==> default_place(hw) == i,
        selected("cpu:0"@, hw) is None ==> default_place(hw) == 0,
{
}

}
