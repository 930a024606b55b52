//! RDMA devices: what is known of them, and which one is closest.

use monarch::name_map::NameMap;
use monarch::rdma::config::IbvConfig;
use monarch::rdma::device_selection::{
    create_cuda_to_rdma_mapping, find_gpu, get_all_rdma_devices, get_cuda_pci_address, get_nic_pci_address,
    get_numa_pci_address, parse_device_string, resolve_rdma_device, select_optimal_rdma_device, Gpu, GpuEntry, Hardware,
    RdmaEntry,
};
use monarch::rdma::pci::{Distance, PCIDevice};
use monarch::rdma::primitives::{
    format_gid, get_all_devices, get_link_layer_str, get_port_phy_state_str, get_port_state_str, ibverbs_supported,
    mlx5dv_supported, rdma_supported, resolve_qp_type, DeviceAttr, DeviceListProbe, DeviceProbe, Gid, IbvDevice,
    IbvMemoryRegionView, IbvOperation, IbvPort, IbvQpInfo, IbvQpType, IbvWc, PortAttr, ResolvedQpType, SupportCache,
    WcOpcode, WrOpcode,
};
use monarch::rdma::realpath::{directory, RealPath, RealPathStep};
use monarch::rdma::topology::{parse_pci_topology, PciEntry};

fn device(name: &str) -> IbvDevice {
    IbvDevice {
        name: name.to_string(),
        vendor_id: 0x2c9,
        vendor_part_id: 4129,
        hw_ver: 0,
        fw_ver: "28.39.1002".to_string(),
        node_guid: 0x1234,
        ports: vec![IbvPort {
            port_num: 1,
            state: "PORT_ACTIVE".to_string(),
            physical_state: "LinkUp".to_string(),
            base_lid: 5,
            lmc: 0,
            sm_lid: 1,
            capability_mask: 0xa651e848,
            link_layer: "InfiniBand".to_string(),
            gid: "fe80:0000:0000:0000:0000:0000:0000:0001".to_string(),
            gid_tbl_len: 8,
        }],
        max_qp: 131072,
        max_cq: 16777216,
        max_mr: 16777216,
        max_pd: 8388608,
        max_qp_wr: 32768,
        max_sge: 30,
    }
}

fn attr(name: &str, ports: Vec<Option<PortAttr>>) -> DeviceAttr {
    DeviceAttr {
        name: name.to_string(),
        vendor_id: 1,
        vendor_part_id: 2,
        hw_ver: 3,
        fw_ver: "fw".to_string(),
        node_guid: 4,
        max_qp: 5,
        max_cq: 6,
        max_mr: 7,
        max_pd: 8,
        max_qp_wr: 9,
        max_sge: 10,
        ports,
    }
}

fn port_attr() -> PortAttr {
    PortAttr {
        state: Some("PORT_ACTIVE".to_string()),
        phys_state: 5,
        link_layer: 2,
        lid: 11,
        lmc: 12,
        sm_lid: 13,
        port_cap_flags: 14,
        gid_tbl_len: 15,
        gid: None,
    }
}

#[test]
fn test_get_all_devices() {
    let probes = vec![
        DeviceProbe::Missing,
        DeviceProbe::Unopened,
        DeviceProbe::Queried(attr("mlx5_1", vec![None, Some(port_attr())])),
        DeviceProbe::Unqueried,
        DeviceProbe::Queried(attr("mlx5_0", vec![])),
    ];
    let devices = get_all_devices(&probes);
    assert_eq!(devices.len(), 2);
    let device = &devices[0];
    assert!(!device.name().is_empty(), "device name should not be empty");
    assert!(!device.ports().is_empty(), "device should have at least one port");
    assert_eq!(device.name(), "mlx5_1");
    assert_eq!(device.ports().len(), 1);
    let port = &device.ports()[0];
    assert_eq!(port.port_num, 2);
    assert_eq!(port.physical_state, "LinkUp");
    assert_eq!(port.link_layer, "Ethernet");
    assert_eq!(port.gid, "N/A");
    assert_eq!(port.base_lid, 11);
    assert_eq!(devices[1].name(), "mlx5_0");
}

#[test]
fn test_first_available() {
    let devices = vec![device("mlx5_0"), device("mlx5_1")];
    let dev = match IbvDevice::first_available(&devices) {
        Some(dev) => dev,
        None => panic!("no device"),
    };
    assert_eq!(dev.name(), "mlx5_0");
    assert_eq!(dev.vendor_id(), dev.vendor_id);
    assert_eq!(dev.vendor_part_id(), dev.vendor_part_id);
    assert_eq!(dev.hw_ver(), dev.hw_ver);
    assert_eq!(dev.fw_ver(), &dev.fw_ver);
    assert_eq!(dev.node_guid(), dev.node_guid);
    assert_eq!(dev.max_qp(), dev.max_qp);
    assert_eq!(dev.max_cq(), dev.max_cq);
    assert_eq!(dev.max_mr(), dev.max_mr);
    assert_eq!(dev.max_pd(), dev.max_pd);
    assert_eq!(dev.max_qp_wr(), dev.max_qp_wr);
    assert_eq!(dev.max_sge(), dev.max_sge);
    assert!(IbvDevice::first_available(&vec![]).is_none());
}

#[test]
fn test_device_display() {
    let devices = vec![device("mlx5_0")];
    if let Some(device) = IbvDevice::first_available(&devices) {
        let display_output = device.display();
        assert!(display_output.contains(&device.name), "display should include device name");
        assert!(display_output.contains(&device.fw_ver), "display should include firmware version");
        assert!(display_output.contains("\tNode GUID: 0x0000000000001234\n"));
        assert!(display_output.contains("\tVendor ID: 0x2c9\n"));
        assert!(display_output.starts_with("mlx5_0\n\tNumber of ports: 1\n"));
    }
}

#[test]
fn test_port_display() {
    let devices = vec![device("mlx5_0")];
    if let Some(device) = IbvDevice::first_available(&devices) {
        if !device.ports().is_empty() {
            let port = &device.ports()[0];
            let display_output = port.display();
            assert!(display_output.contains(&port.state), "display should include port state");
            assert!(display_output.contains(&port.link_layer), "display should include link layer");
            assert!(display_output.contains("Capability mask: 0xa651e848"));
        }
    }
}

#[test]
fn test_rdma_operation_conversion() {
    assert!(matches!(IbvOperation::Write.wr_opcode(), WrOpcode::RdmaWrite));
    assert!(matches!(IbvOperation::Read.wr_opcode(), WrOpcode::RdmaRead));
    assert!(matches!(IbvOperation::from_wc_opcode(WcOpcode::RdmaWrite), IbvOperation::Write));
    assert!(matches!(IbvOperation::from_wc_opcode(WcOpcode::RdmaRead), IbvOperation::Read));
}

#[test]
fn test_rdma_endpoint() {
    let endpoint = IbvQpInfo { qp_num: 42, lid: 123, gid: None, psn: 0x5678 };
    let debug_str = endpoint.debug();
    assert!(debug_str.contains("qp_num: 42"));
    assert!(debug_str.contains("lid: 123"));
    assert!(debug_str.contains("psn: 0x5678"));
    assert_eq!(debug_str, "IbvQpInfo { qp_num: 42, lid: 123, gid: None, psn: 0x5678 }");
}

#[test]
fn test_ibv_wc() {
    let ibv_wc = IbvWc {
        wr_id: 42,
        len: 0,
        valid: true,
        error: None,
        opcode: WcOpcode::RdmaWrite,
        bytes: None,
        qp_num: 0,
        src_qp: 0,
        pkey_index: 0,
        slid: 0,
        sl: 0,
        dlid_path_bits: 0,
    };
    assert_eq!(ibv_wc.wr_id(), 42);
    assert!(ibv_wc.is_valid());
}

#[test]
fn test_format_gid() {
    let gid = [
        0x12, 0x34, 0x56, 0x78, 0x9a, 0xbc, 0xde, 0xf0, 0x11, 0x22, 0x33, 0x44, 0x55, 0x66, 0x77, 0x88,
    ];
    let formatted = format_gid(&gid);
    assert_eq!(formatted, "1234:5678:9abc:def0:1122:3344:5566:7788");
}

#[test]
fn test_mlx5dv_supported_basic() {
    let mut cache = SupportCache::new();
    let mlx5dv_support =
        mlx5dv_supported(&mut cache, &DeviceListProbe { listed: false, num_devices: 0, first_supports_mlx5dv: None });
    println!("mlx5dv_supported: {}", mlx5dv_support);
}

#[test]
fn support_is_found_out_once() {
    let with = DeviceListProbe { listed: true, num_devices: 1, first_supports_mlx5dv: Some(true) };
    let without = DeviceListProbe { listed: true, num_devices: 0, first_supports_mlx5dv: None };
    let mut cache = SupportCache::new();
    assert!(mlx5dv_supported(&mut cache, &with));
    assert!(ibverbs_supported(&mut cache, &with));
    assert!(mlx5dv_supported(&mut cache, &without));
    assert!(ibverbs_supported(&mut cache, &without));
    assert!(rdma_supported(&mut cache, &without));
    let mut cache = SupportCache::new();
    assert!(!rdma_supported(&mut cache, &without));
    assert!(matches!(resolve_qp_type(IbvQpType::Auto, &mut cache, &with), ResolvedQpType::Mlx5dv));
    assert!(matches!(resolve_qp_type(IbvQpType::Standard, &mut cache, &with), ResolvedQpType::Standard));
}

#[test]
fn names_of_states() {
    assert_eq!(get_port_phy_state_str(1), "Sleep");
    assert_eq!(get_port_phy_state_str(7), "PhyTest");
    assert_eq!(get_port_phy_state_str(0), "No state change");
    assert_eq!(get_link_layer_str(1), "InfiniBand");
    assert_eq!(get_link_layer_str(2), "Ethernet");
    assert_eq!(get_link_layer_str(9), "Unknown");
    assert_eq!(get_port_state_str(None), "Unknown");
    assert_eq!(get_port_state_str(Some(&"PORT_DOWN".to_string())), "PORT_DOWN");
}

#[test]
fn global_identifiers() {
    let gid = Gid { raw: [0, 0, 0, 0, 0, 0, 0, 1, 0, 0, 0, 0, 0, 0, 1, 2] };
    assert_eq!(gid.subnet_prefix(), 1);
    assert_eq!(gid.interface_id(), 258);
    let info = IbvQpInfo { qp_num: 1, lid: 2, gid: Some(gid), psn: 3 };
    assert!(info.debug().contains("Some(Gid { raw: [0, 0, 0, 0, 0, 0, 0, 1, 0, 0, 0, 0, 0, 0, 1, 2] })"));
}

#[test]
fn views_of_memory() {
    let v = IbvMemoryRegionView::new(1, 2, 3, 4, 5, 6);
    assert_eq!((v.id, v.virtual_addr, v.rdma_addr, v.size, v.lkey, v.rkey), (1, 2, 3, 4, 5, 6));
}

#[test]
fn test_parse_device_string() {
    assert_eq!(parse_device_string("cuda:0"), Some(("cuda".to_string(), "0".to_string())));
    assert_eq!(parse_device_string("cpu:1"), Some(("cpu".to_string(), "1".to_string())));
    assert_eq!(parse_device_string("invalid"), None);
    assert_eq!(parse_device_string("cuda:"), Some(("cuda".to_string(), "".to_string())));
    assert_eq!(parse_device_string("a:b:c"), None);
}

fn gpu_entry(name: &str, minor: u32) -> Option<GpuEntry> {
    Some(GpuEntry {
        name: name.to_string(),
        information: Some(format!("Model: X\nDevice Minor: \t {}\n", minor)),
    })
}

fn pci(address: &str, parents: &[&str]) -> PciEntry {
    let mut path = "/sys/devices/pci0000:00".to_string();
    for p in parents {
        path = format!("{}/{}", path, p);
    }
    PciEntry { address: address.to_string(), real_path: Some(format!("{}/{}", path, address)) }
}

fn rdma(name: &str, address: &str) -> RdmaEntry {
    RdmaEntry { name: name.to_string(), device_link: Some(format!("../../../{}", address)) }
}

/// A machine with eight GPUs, each of which shares a switch with one NIC.
fn gt20() -> Hardware {
    let names = ["mlx5_0", "mlx5_3", "mlx5_4", "mlx5_5", "mlx5_6", "mlx5_9", "mlx5_10", "mlx5_11"];
    let mut entries = Vec::new();
    let mut gpus = Vec::new();
    let mut infiniband = Vec::new();
    let mut devices = Vec::new();
    let mut numa_files = NameMap::new();
    for (i, name) in names.iter().enumerate() {
        let root = format!("0000:{}0:01.0", i);
        let switch = format!("0000:{}1:00.0", i);
        let gpu = format!("0000:{}a:00.0", i);
        let nic = format!("0000:{}b:00.0", i);
        entries.push(pci(&root, &[]));
        entries.push(pci(&switch, &[&root]));
        entries.push(pci(&gpu, &[&root, &switch]));
        entries.push(pci(&nic, &[&root, &switch]));
        gpus.push(gpu_entry(&gpu.to_uppercase(), i as u32));
        infiniband.push(rdma(name, &nic));
        devices.push(device(name));
        let node = if i < 4 { "0\n" } else { "1\n" };
        numa_files.insert(root, node.to_string());
        numa_files.insert(gpu, node.to_string());
        numa_files.insert(nic, node.to_string());
    }
    infiniband.reverse();
    Hardware {
        pci_devices: Some(parse_pci_topology(&entries)),
        numa_files,
        gpus: Some(gpus),
        infiniband,
        devices,
    }
}

#[test]
fn test_gt20_hardware() {
    let hw = gt20();
    let rdma_devices = get_all_rdma_devices(&hw.infiniband);
    let names: Vec<String> = rdma_devices.iter().map(|(name, _)| name.clone()).collect();
    assert_eq!(
        names,
        vec!["mlx5_0", "mlx5_10", "mlx5_11", "mlx5_3", "mlx5_4", "mlx5_5", "mlx5_6", "mlx5_9"]
    );
    let expected = [
        (0, "mlx5_0"),
        (1, "mlx5_3"),
        (2, "mlx5_4"),
        (3, "mlx5_5"),
        (4, "mlx5_6"),
        (5, "mlx5_9"),
        (6, "mlx5_10"),
        (7, "mlx5_11"),
    ];
    for (gpu_idx, expected_nic) in expected {
        assert_eq!(
            get_cuda_pci_address(&gpu_idx.to_string(), &hw.gpus),
            Some(format!("0000:{}a:00.0", gpu_idx))
        );
        let cuda_hint = format!("cuda:{}", gpu_idx);
        match select_optimal_rdma_device(Some(&cuda_hint), &hw) {
            Some(device) => assert_eq!(device.name(), expected_nic),
            None => panic!("GPU {} -> NOT FOUND", gpu_idx),
        }
    }
    let mapping = create_cuda_to_rdma_mapping(&hw);
    assert_eq!(mapping.len(), 8);
    assert_eq!(mapping.get("0000:3a:00.0").unwrap().name(), "mlx5_5");
    // The two NUMA nodes select different devices.
    assert_eq!(get_numa_pci_address("0", &hw.pci_devices, &hw.numa_files), Some("0000:00:01.0".to_string()));
    assert_eq!(get_numa_pci_address("1", &hw.pci_devices, &hw.numa_files), Some("0000:40:01.0".to_string()));
    assert_eq!(select_optimal_rdma_device(Some("cpu:0"), &hw).unwrap().name(), "mlx5_0");
    assert_eq!(select_optimal_rdma_device(Some("cpu:1"), &hw).unwrap().name(), "mlx5_6");
    assert!(select_optimal_rdma_device(Some("cpu:9"), &hw).is_none());
    assert!(select_optimal_rdma_device(Some("cuda:9"), &hw).is_none());
    assert!(select_optimal_rdma_device(None, &hw).is_none());
    assert_eq!(select_optimal_rdma_device(Some("nic:mlx5_9"), &hw).unwrap().name(), "mlx5_9");
    assert!(select_optimal_rdma_device(Some("nic:none"), &hw).is_none());
}

#[test]
fn a_nic_outside_the_topology_does_not_shift_the_others() {
    let mut hw = gt20();
    hw.infiniband.push(rdma("aaa_0", "0000:ff:00.0"));
    hw.devices.push(device("aaa_0"));
    assert_eq!(select_optimal_rdma_device(Some("cuda:1"), &hw).unwrap().name(), "mlx5_3");
}

#[test]
fn settings_for_a_target() {
    let hw = gt20();
    assert_eq!(IbvConfig::default(&hw).device.name(), "mlx5_0");
    assert_eq!(IbvConfig::targeting("cuda", &hw).device.name(), "mlx5_0");
    assert_eq!(IbvConfig::targeting("cuda:3", &hw).device.name(), "mlx5_5");
    assert_eq!(IbvConfig::targeting("cpu:1", &hw).device.name(), "mlx5_6");
    assert_eq!(IbvConfig::targeting("nic:mlx5_10", &hw).device.name(), "mlx5_10");
    assert_eq!(IbvConfig::targeting("nonsense:1", &hw).device.name(), "mlx5_0");
    let c = IbvConfig::with_defaults(device("d"), 0xffff_ffff);
    assert_eq!(c.psn, 0xff_ffff);
    assert_eq!(c.cq_entries, 1024);
    assert!(c.display().starts_with("IbvConfig { device: d, port_num: 1, gid_index: 3,"));
    assert!(IbvConfig::default(&hw).psn <= 0xff_ffff);
}

#[test]
fn a_device_that_came_about_by_default_gives_way() {
    let mut hw = gt20();
    assert_eq!(resolve_rdma_device(&device("mlx5_9"), &hw).unwrap().name(), "mlx5_9");
    hw.devices.insert(0, device("rocep0"));
    assert_eq!(resolve_rdma_device(&device("rocep0"), &hw).unwrap().name(), "mlx5_0");
    assert_eq!(resolve_rdma_device(&device("rocep1"), &hw).unwrap().name(), "rocep1");
}

#[test]
fn gpus_are_found_by_their_minor_numbers() {
    let gpus = Some(vec![gpu_entry("0000:0A:00.0", 1), gpu_entry("0000:0B:00.0", 0)]);
    assert_eq!(get_cuda_pci_address("0", &gpus), Some("0000:0b:00.0".to_string()));
    assert_eq!(get_cuda_pci_address("2", &gpus), None);
    assert_eq!(get_cuda_pci_address("x", &gpus), None);
    assert_eq!(get_cuda_pci_address("0", &None), None);
    let read = vec![None, Some(Gpu { address: "a".to_string(), minor: Some("0".to_string()) })];
    assert_eq!(find_gpu(0, &read), None);
    let silent = Some(vec![Some(GpuEntry { name: "a".to_string(), information: Some("no minor".to_string()) })]);
    assert_eq!(get_cuda_pci_address("0", &silent), None);
}

#[test]
fn nics_and_their_addresses() {
    let entries = vec![
        rdma("b", "0000:01:00.0/0000:02:00.0"),
        rdma("a", "0000:03:00.1"),
        RdmaEntry { name: "c".to_string(), device_link: Some("nowhere".to_string()) },
        RdmaEntry { name: "d".to_string(), device_link: None },
    ];
    assert_eq!(
        get_all_rdma_devices(&entries),
        vec![
            ("a".to_string(), "0000:03:00.1".to_string()),
            ("b".to_string(), "0000:02:00.0".to_string())
        ]
    );
    assert_eq!(get_nic_pci_address("b", &entries), Some("0000:02:00.0".to_string()));
    assert_eq!(get_nic_pci_address("c", &entries), None);
}

#[test]
fn topologies() {
    let entries = vec![
        pci("0000:00:01.0", &[]),
        pci("0000:02:00.0", &["0000:00:01.0", "0000:01:00.0"]),
        PciEntry { address: "0000:03:00.0".to_string(), real_path: None },
    ];
    let devices = parse_pci_topology(&entries);
    let path = |a: &str| devices.get(a).unwrap().get_path_to_root();
    assert_eq!(path("0000:02:00.0"), vec!["0000:02:00.0", "0000:01:00.0"]);
    assert_eq!(path("0000:01:00.0"), vec!["0000:01:00.0"]);
    assert_eq!(path("0000:03:00.0"), vec!["0000:03:00.0"]);
    assert_eq!(devices.len(), 4);
}

fn under(address: &str, parent: Option<&PCIDevice>) -> PCIDevice {
    PCIDevice { address: address.to_string(), parent: parent.map(|p| Box::new(p.clone())) }
}

#[test]
fn distances() {
    let root = PCIDevice::new("0000:00:00.0".to_string());
    let switch = under("0000:01:00.0", Some(&root));
    let a = under("0000:02:00.0", Some(&switch));
    let b = under("0000:03:00.0", Some(&switch));
    let far = PCIDevice::new("0000:13:00.0".to_string());
    let domain = PCIDevice::new("0001:03:00.0".to_string());
    let odd = PCIDevice::new("odd".to_string());
    assert_eq!(a.distance_to(&a), Distance::Tenths(0));
    assert_eq!(a.distance_to(&b), Distance::Tenths(20));
    assert_eq!(b.distance_to(&a), Distance::Tenths(20));
    assert_eq!(a.distance_to(&root), Distance::Tenths(20));
    assert_eq!(a.distance_to(&far), Distance::Tenths(200 + 0x11));
    assert_eq!(a.distance_to(&domain), Distance::Tenths(10000));
    assert_eq!(a.distance_to(&odd), Distance::Infinite);
    assert_eq!(a.find_closest(&vec![far.clone(), root.clone(), b.clone()]), Some(1));
    assert_eq!(a.find_closest(&vec![]), None);
    assert_eq!(a.parse_pci_address(), Some((0, 2, 0, 0)));
    assert_eq!(odd.parse_pci_address(), None);
}

/// Resolves a path where those links are.
fn resolve(path: &str, links: &[(&str, &str)]) -> Result<String, String> {
    let mut walk = RealPath::new(path.to_string());
    loop {
        let look = match walk.step() {
            RealPathStep::Look(look) => look,
            RealPathStep::Resolved(resolved) => return Ok(resolved),
        };
        let target = links.iter().find(|(link, _)| *link == look).map(|(_, target)| target.to_string());
        if let Err(e) = walk.follow(target) {
            return Err(e.text());
        }
    }
}

#[test]
fn links_that_lead_back() {
    let circular = Err("Circular symlink detected".to_string());
    assert_eq!(resolve("/a", &[("/a", "/b"), ("/b", "/c"), ("/c", "/a")]), circular);
    assert_eq!(resolve("/a", &[("/a", "a")]), circular);
    assert_eq!(resolve("/a/x", &[("/a", "b/y"), ("/b", "a")]), circular);
    // A link may be used again once it was followed to its end.
    assert_eq!(resolve("/a/../a/x", &[("/a", "b")]), Ok("/b/x".to_string()));
}

#[test]
fn links_anywhere_in_a_path() {
    assert_eq!(resolve("/a", &[("/a", "/b"), ("/b", "/c")]), Ok("/c".to_string()));
    let sys = [
        ("/sys/bus/pci/devices/0000:01:00.0", "../../../devices/pci0000:00/0000:00:01.0/0000:01:00.0"),
        ("/sys", "/mnt/sys"),
        ("/mnt/sys/bus/pci/devices/0000:01:00.0", "../../../devices/pci0000:00/0000:00:01.0/0000:01:00.0"),
    ];
    assert_eq!(
        resolve("/sys/bus/pci/devices/0000:01:00.0", &sys[..1]),
        Ok("/sys/devices/pci0000:00/0000:00:01.0/0000:01:00.0".to_string())
    );
    assert_eq!(
        resolve("/sys/bus/pci/devices/0000:01:00.0", &sys),
        Ok("/mnt/sys/devices/pci0000:00/0000:00:01.0/0000:01:00.0".to_string())
    );
    assert_eq!(resolve("/a//b/./c/../d/", &[]), Ok("/a/b/d".to_string()));
    assert_eq!(resolve("/../x", &[]), Ok("/x".to_string()));
    assert_eq!(resolve("x/../../y", &[("y", "z")]), Ok("../y".to_string()));
    assert_eq!(resolve("x/l", &[("x/l", "/r")]), Ok("/r".to_string()));
    assert_eq!(resolve("x/..", &[]), Ok(".".to_string()));
    assert_eq!(resolve("/", &[]), Ok("/".to_string()));
    assert_eq!(directory("/a/b"), Some("/a".to_string()));
    assert_eq!(directory("/a"), Some("/".to_string()));
    assert_eq!(directory("a"), Some(String::new()));
    assert_eq!(directory("/"), None);
    assert_eq!(directory(""), None);
}

#[test]
fn every_gpu_has_its_device() {
    let mut hw = gt20();
    let mut gpus = hw.gpus.take().unwrap();
    // Two more GPUs beside the first and the last, with numbers that leave a gap.
    gpus.push(gpu_entry("0000:0A:00.0", 12));
    gpus.push(gpu_entry("0000:7B:00.0", 40));
    hw.gpus = Some(gpus);
    let mapping = create_cuda_to_rdma_mapping(&hw);
    assert_eq!(mapping.len(), 9);
    assert_eq!(mapping.get("0000:0a:00.0").unwrap().name(), "mlx5_0");
    assert_eq!(mapping.get("0000:7b:00.0").unwrap().name(), "mlx5_11");
    // What stands behind an entry that could not be read is not found.
    let mut hw = gt20();
    hw.gpus.as_mut().unwrap().insert(2, None);
    let mapping = create_cuda_to_rdma_mapping(&hw);
    assert_eq!(mapping.len(), 2);
    assert!(mapping.get("0000:2a:00.0").is_none());
    // A GPU outside the topology has no device.
    let mut hw = gt20();
    hw.gpus.as_mut().unwrap().push(gpu_entry("0000:ff:00.0", 9));
    assert_eq!(create_cuda_to_rdma_mapping(&hw).len(), 8);
    hw.gpus = None;
    assert_eq!(create_cuda_to_rdma_mapping(&hw).len(), 0);
}
