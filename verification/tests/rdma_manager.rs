//! The ibverbs manager: domains, memory and queue pairs.

use monarch::name_map::NameMap;
use monarch::rdma::config::IbvConfig;
use monarch::rdma::device_selection::Hardware;
use monarch::rdma::domain::{DomainAnswer, DomainEntry, DomainError, DomainStage, IbvDomain, OpenError, OpenStage, RdmaQueuePair};
use monarch::rdma::manager::{
    CudaSegment, IbvManagerActor, MrAnswer, MrError, MrStage, PointerProbe, RdmaBuffer, RegisteredMr,
};
use monarch::rdma::peers::Peer;
use monarch::rdma::primitives::{DeviceListProbe, IbvDevice, IbvQpInfo, IbvQpType, SupportCache};
use monarch::rdma::queue_pairs::{
    InitAnswer, InitError, InitStage, LookupError, QpAnswer, QpError, QpStage, RdmaBackendActor, Teardown,
};

fn device(name: &str) -> IbvDevice {
    IbvDevice {
        name: name.to_string(),
        vendor_id: 0,
        vendor_part_id: 0,
        hw_ver: 0,
        fw_ver: String::new(),
        node_guid: 0,
        ports: Vec::new(),
        max_qp: 0,
        max_cq: 0,
        max_mr: 0,
        max_pd: 0,
        max_qp_wr: 0,
        max_sge: 0,
    }
}

fn hardware() -> Hardware {
    Hardware {
        pci_devices: None,
        numa_files: NameMap::new(),
        gpus: None,
        infiniband: Vec::new(),
        devices: vec![device("mlx5_0")],
    }
}

fn probe(mlx5dv: bool) -> DeviceListProbe {
    DeviceListProbe { listed: true, num_devices: 1, first_supports_mlx5dv: Some(mlx5dv) }
}

fn manager(mlx5dv: bool) -> IbvManagerActor {
    let mut cache = SupportCache::new();
    match IbvManagerActor::new(None, &mut cache, &probe(mlx5dv), false, &hardware()) {
        Ok(m) => m,
        Err(e) => panic!("{}", e.text()),
    }
}

const DOMAIN: IbvDomain = IbvDomain { context: 10, pd: 11 };
const LOOPBACK: RdmaQueuePair = RdmaQueuePair { qp: 12 };

fn info() -> IbvQpInfo {
    IbvQpInfo { qp_num: 1, lid: 2, gid: None, psn: 3 }
}

fn peer() -> Peer {
    Peer { self_device: "mlx5_0".to_string(), other: "them".to_string(), other_device: "mlx5_1".to_string() }
}

#[test]
fn making_a_manager() {
    let m = manager(true);
    assert!(m.mlx5dv_enabled);
    assert_eq!(m.config.device.name(), "mlx5_0");
    let mut cache = SupportCache::new();
    let none = DeviceListProbe { listed: false, num_devices: 0, first_supports_mlx5dv: None };
    match IbvManagerActor::new(None, &mut cache, &none, false, &hardware()) {
        Err(e) => assert_eq!(
            e.text(),
            "Cannot create IbvManagerActor because RDMA is not supported on this machine"
        ),
        Ok(_) => panic!("made without devices"),
    }
    let mut config = IbvConfig::with_defaults(device("d"), 0);
    config.use_gpu_direct = true;
    config.qp_type = IbvQpType::Standard;
    let mut cache = SupportCache::new();
    match IbvManagerActor::new(Some(config), &mut cache, &probe(true), false, &hardware()) {
        Ok(m) => {
            assert!(!m.config.use_gpu_direct);
            assert!(!m.mlx5dv_enabled);
            assert_eq!(m.config.device.name(), "d");
        }
        Err(_) => panic!("not made"),
    }
    // What was found out is kept, and nothing else is asked.
    assert_eq!((cache.ibverbs, cache.mlx5dv), (Some(true), None));
    let config = IbvConfig::with_defaults(device("d"), 0);
    assert!(IbvManagerActor::new(Some(config), &mut cache, &probe(true), false, &hardware()).is_ok());
    assert_eq!((cache.ibverbs, cache.mlx5dv), (Some(true), Some(true)));
}

#[test]
fn opening_a_device() {
    let names = Some(vec!["a".to_string(), "b".to_string()]);
    assert!(matches!(IbvDomain::new(&"b".to_string(), &names), OpenStage::OpenDevice { index: 1 }));
    match IbvDomain::new(&"c".to_string(), &names) {
        OpenStage::Failed { error, close: None, free_list: true } => {
            assert_eq!(error.text(), "device 'c' not found")
        }
        other => panic!("{:?}", other),
    }
    match IbvDomain::new(&"c".to_string(), &None) {
        OpenStage::Failed { error, close: None, free_list: false } => {
            assert_eq!(error.text(), "no RDMA devices found")
        }
        other => panic!("{:?}", other),
    }
    assert!(matches!(IbvDomain::on_context(Ok(5)), OpenStage::AllocPd { context: 5 }));
    assert!(matches!(
        IbvDomain::on_context(Err("no".to_string())),
        OpenStage::Failed { error: OpenError::Context(_), close: None, .. }
    ));
    assert!(matches!(IbvDomain::on_pd(5, Ok(6)), OpenStage::Opened(IbvDomain { context: 5, pd: 6 })));
    match IbvDomain::on_pd(5, Err("full".to_string())) {
        OpenStage::Failed { error, close: Some(5), .. } => {
            assert_eq!(error.text(), "failed to create protection domain (PD): full")
        }
        other => panic!("{:?}", other),
    }
}

#[test]
fn setting_a_domain_up() {
    let mut m = manager(true);
    let name = "mlx5_0".to_string();
    let stage = m.get_or_create_device_domain(&name);
    assert!(matches!(stage, DomainStage::Open));
    let stage = m.continue_device_domain(&name, stage, DomainAnswer::Opened { domain: Ok(DOMAIN), mlx5dv: true });
    let stage = m.continue_device_domain(&name, stage, DomainAnswer::Created(Ok(LOOPBACK)));
    let stage = m.continue_device_domain(&name, stage, DomainAnswer::Info(Ok(info())));
    assert!(matches!(stage, DomainStage::ConnectLoopback { .. }));
    let stage = m.continue_device_domain(&name, stage, DomainAnswer::Connected(Ok(())));
    let entry = DomainEntry { domain: DOMAIN, qp: Some(LOOPBACK) };
    assert!(matches!(stage, DomainStage::Ready(e) if e == entry));
    assert!(matches!(m.get_or_create_device_domain(&name), DomainStage::Ready(e) if e == entry));
    // One that fails is released, and not kept.
    let other = "mlx5_1".to_string();
    let stage = DomainStage::CreateLoopback { domain: DOMAIN };
    match m.continue_device_domain(&other, stage, DomainAnswer::Created(Err("no".to_string()))) {
        DomainStage::Failed { error, release: Some(DOMAIN) } => {
            assert_eq!(error.text("mlx5_1"), "could not create loopback QP for device mlx5_1: no")
        }
        _ => panic!("not failed"),
    }
    assert!(matches!(m.get_or_create_device_domain(&other), DomainStage::Open));
    assert_eq!(
        DomainError::Domain("x".to_string()).text("d"),
        "could not create domain for device d: x"
    );
    assert_eq!(DomainError::QpInfo("x".to_string()).text("d"), "could not get QP info for device d: x");
    assert_eq!(DomainError::Connect("x".to_string()).text("d"), "could not connect loopback QP for device d: x");
}

fn with_domain(mlx5dv: bool) -> IbvManagerActor {
    let mut m = manager(mlx5dv);
    let qp = if mlx5dv { Some(LOOPBACK) } else { None };
    m.device_domains.insert("mlx5_0".to_string(), DomainEntry { domain: DOMAIN, qp });
    m
}

#[test]
fn registering_the_memory_of_the_host() {
    let mut m = with_domain(false);
    let stage = m.continue_mr(0x1000, 64, IbvManagerActor::register_mr(), MrAnswer::Pointer(PointerProbe::Host));
    assert!(matches!(stage, MrStage::Host { .. }));
    let mr = RegisteredMr { mr: 77, addr: 0x2000, lkey: 5, rkey: 6 };
    let view = match m.continue_mr(0x1000, 64, stage, MrAnswer::Registered(Some(mr))) {
        MrStage::Done { view, device } => {
            assert_eq!(device, "mlx5_0");
            view
        }
        _ => panic!("not registered"),
    };
    assert_eq!((view.id, view.virtual_addr, view.rdma_addr, view.size), (0, 0x1000, 0x2000, 64));
    assert_eq!((view.lkey, view.rkey), (5, 6));
    let buffer = RdmaBuffer::of_view("me".to_string(), &view, "mlx5_0".to_string());
    assert_eq!(buffer.mr_id, 0);
    assert_eq!(buffer.addr, 0x2000);
    assert_eq!(m.release_buffer(&buffer), Some(77));
    assert_eq!(m.release_buffer(&buffer), None);
    let entry = DomainEntry { domain: DOMAIN, qp: None };
    let stage = MrStage::Host { device: "mlx5_0".to_string(), entry };
    match m.continue_mr(0x1000, 64, stage, MrAnswer::Registered(None)) {
        MrStage::Failed { error, release: None } => assert_eq!(error.text(), "failed to register standard MR"),
        _ => panic!("registered"),
    }
}

#[test]
fn registering_the_memory_of_a_gpu() {
    let mut m = with_domain(true);
    let address = PointerProbe::Cuda(Ok("0000:0a:00.0".to_string()));
    let stage = m.continue_mr(0x1100, 0x10, MrStage::Pointer, MrAnswer::Pointer(address));
    assert!(matches!(stage, MrStage::Segments { scanned: false, .. }));
    let stage = m.continue_mr(0x1100, 0x10, stage, MrAnswer::Segments(Vec::new()));
    assert!(matches!(stage, MrStage::Scan { qp: LOOPBACK, .. }));
    let stage = m.continue_mr(0x1100, 0x10, stage, MrAnswer::Scanned(true));
    let segment = CudaSegment { phys_address: 0x1000, phys_size: 0x200, mr_addr: 0x50, lkey: 1, rkey: 2 };
    match m.continue_mr(0x1100, 0x10, stage, MrAnswer::Segments(vec![segment])) {
        MrStage::Done { view, .. } => {
            assert_eq!(view.rdma_addr, 0x150);
            assert_eq!(view.id, 0);
            assert_eq!(m.deregister_mr(view.id), None);
        }
        _ => panic!("not registered"),
    }
    // Memory that reaches over the end of the segment lies in none.
    assert!(m.find_cuda_segment_for_address(&vec![segment], 0x11f8, 0x10).is_none());
    let entry = DomainEntry { domain: DOMAIN, qp: Some(LOOPBACK) };
    let stage = MrStage::Scan { device: "mlx5_0".to_string(), entry, qp: LOOPBACK };
    let stage = m.continue_mr(0x1100, 0x10, stage, MrAnswer::Scanned(false));
    assert!(matches!(stage, MrStage::Dmabuf { .. }));
    match m.continue_mr(0x1100, 0x10, stage, MrAnswer::Registered(None)) {
        MrStage::Failed { error, .. } => assert_eq!(error.text(), "Failed to register dmabuf MR"),
        _ => panic!("registered"),
    }
    let unknown = PointerProbe::Cuda(Err("bad".to_string()));
    match m.continue_mr(0x1f, 16, MrStage::Pointer, MrAnswer::Pointer(unknown)) {
        MrStage::Failed { error, .. } => assert_eq!(
            error.text(),
            "RdmaXcel get_cuda_pci_address_from_ptr failed (addr: 0x1f, size: 16): bad"
        ),
        _ => panic!("registered"),
    }
    let failed = MrError::Domain { device: "d".to_string(), error: DomainError::Domain("x".to_string()) };
    assert_eq!(failed.text(), "could not create domain for device d: x");
}

#[test]
fn creating_a_queue_pair() {
    let mut m = with_domain(false);
    assert!(matches!(m.find_connection(&peer()), Err(LookupError::NoDeviceMap)));
    let stage = m.initialize_qp(&peer());
    assert!(matches!(stage, InitStage::Create { domain: DOMAIN }));
    let stage = m.continue_init(&peer(), stage, InitAnswer::Created(Ok(RdmaQueuePair { qp: 5 })));
    assert!(matches!(stage, InitStage::Done));
    assert!(matches!(m.initialize_qp(&peer()), InitStage::Done));
    assert_eq!(m.find_connection(&peer()), Ok(RdmaQueuePair { qp: 5 }));
    let other = Peer { self_device: "mlx5_0".to_string(), other: "x".to_string(), other_device: "y".to_string() };
    assert!(matches!(m.find_connection(&other), Err(LookupError::NoConnection)));
    let stage = InitStage::Create { domain: DOMAIN };
    match m.continue_init(&other, stage, InitAnswer::Created(Err("no".to_string()))) {
        InitStage::Failed { error, .. } => {
            assert_eq!(error.text("mlx5_0"), "could not create RdmaQueuePair: no");
            assert!(matches!(error, InitError::QueuePair(_)));
        }
        _ => panic!("created"),
    }
    assert!(m.connect(&peer()).is_ok());
    assert!(m.connection_info(&peer()).is_ok());
    assert!(m.get_qp_state(&other).is_err());
}

#[test]
fn requesting_a_queue_pair() {
    let mut m = with_domain(false);
    let me = "me".to_string();
    let stage = m.request_queue_pair(&peer());
    assert!(matches!(stage, QpStage::InitLocal));
    // Another request for the same connection waits.
    let wait = m.request_queue_pair(&peer());
    assert!(matches!(wait, QpStage::Wait { pause_nanos: 200_000 }));
    let wait = m.continue_queue_pair(&peer(), &me, wait, QpAnswer::Waited(999_999_999));
    assert!(matches!(wait, QpStage::Wait { pause_nanos: 200_000 }));
    match m.continue_queue_pair(&peer(), &me, wait, QpAnswer::Waited(1_000_000_000)) {
        QpStage::Failed(e) => {
            assert!(matches!(e, QpError::Timeout));
            assert_eq!(
                e.text(&peer()),
                "Timeout waiting for QP creation (device mlx5_0 -> actor them device mlx5_1). Another task is creating it but hasn't completed in 1 second"
            );
        }
        _ => panic!("not timed out"),
    }
    let created = m.continue_init(
        &peer(),
        InitStage::Create { domain: DOMAIN },
        InitAnswer::Created(Ok(RdmaQueuePair { qp: 5 })),
    );
    assert!(matches!(created, InitStage::Done));
    let stage = m.continue_queue_pair(&peer(), &me, stage, QpAnswer::Initialized(Ok(true)));
    assert!(matches!(stage, QpStage::InitRemote));
    let stage = m.continue_queue_pair(&peer(), &me, stage, QpAnswer::Initialized(Ok(true)));
    assert!(matches!(stage, QpStage::InfoRemote));
    let stage = m.continue_queue_pair(&peer(), &me, stage, QpAnswer::Info(Ok(info())));
    let stage = m.continue_queue_pair(&peer(), &me, stage, QpAnswer::Connected(Ok(())));
    let stage = m.continue_queue_pair(&peer(), &me, stage, QpAnswer::Info(Ok(info())));
    let stage = m.continue_queue_pair(&peer(), &me, stage, QpAnswer::Connected(Ok(())));
    assert!(matches!(stage, QpStage::StateRemote));
    let stage = m.continue_queue_pair(&peer(), &me, stage, QpAnswer::State(Ok(3)));
    assert!(matches!(stage, QpStage::Done(RdmaQueuePair { qp: 5 })));
    assert!(matches!(m.request_queue_pair(&peer()), QpStage::Done(RdmaQueuePair { qp: 5 })));
}

#[test]
fn a_remote_side_that_is_not_ready() {
    let mut m = with_domain(false);
    let me = "me".to_string();
    let _ = m.request_queue_pair(&peer());
    match m.continue_queue_pair(&peer(), &me, QpStage::StateRemote, QpAnswer::State(Ok(2))) {
        QpStage::Failed(e) => assert_eq!(
            e.text(&peer()),
            "Remote QP not in RTS state after connection setup. Local is ready but remote is in state 2. This indicates a synchronization issue in connection setup."
        ),
        _ => panic!("ready"),
    }
    // After a failure the next request tries again.
    assert!(matches!(m.request_queue_pair(&peer()), QpStage::InitLocal));
}

#[test]
fn tearing_down() {
    let mut m = with_domain(true);
    m.device_qps.add(peer(), RdmaQueuePair { qp: 5 });
    m.mr_map.insert(0, 77);
    m.mr_map.insert(1, 0);
    m.mrv_id = 2;
    assert_eq!(
        m.teardown(),
        vec![
            Teardown::DestroyQp(RdmaQueuePair { qp: 5 }),
            Teardown::DestroyQp(LOOPBACK),
            Teardown::ReleaseDomain(DOMAIN),
            Teardown::DeregisterMr(77),
            Teardown::DeregisterSegments,
        ]
    );
}

#[test]
fn a_backend_is_spawned_once() {
    let mut b: RdmaBackendActor<u32, u64> = RdmaBackendActor::Created(7);
    assert_eq!(b.spawn(), 7);
    assert!(matches!(b, RdmaBackendActor::Uninit));
    let r: Result<(), String> = b.spawned(Ok(9));
    assert!(r.is_ok());
    assert_eq!(*b.handle(), 9);
    let mut b: RdmaBackendActor<u32, u64> = RdmaBackendActor::Uninit;
    assert_eq!(b.spawned(Err("no".to_string())), Err("no".to_string()));
    assert!(matches!(b, RdmaBackendActor::Uninit));
}

#[test]
fn a_connection_from_its_other_end() {
    let seen = peer().mirrored("me");
    assert_eq!(
        (seen.self_device.as_str(), seen.other.as_str(), seen.other_device.as_str()),
        ("mlx5_1", "me", "mlx5_0")
    );
    assert!(seen.mirrored("them").is(&peer()));
    assert!(QpStage::InitRemote.peer_of_step(&peer(), "me").is(&seen));
    assert!(QpStage::InitLocal.peer_of_step(&peer(), "me").is(&peer()));
}

#[test]
fn the_device_that_is_opened() {
    let mut m = manager(true);
    assert_eq!(m.resolve_device(&"mlx5_7".to_string(), &hardware()), "mlx5_0");
    m.pci_to_device.insert("0000:0a:00.0".to_string(), device("mlx5_7"));
    assert_eq!(m.resolve_device(&"mlx5_7".to_string(), &hardware()), "mlx5_7");
}
