//! The ibverbs manager: its domains, memory regions and queue pairs.

use crate::name_map::NameMap;
use crate::numerals::{decimal, format_decimal, format_hex, hex};
use crate::rdma::config::{default_place, has_default_settings, IbvConfig};
use crate::rdma::device_selection::{create_cuda_to_rdma_mapping, maps_gpus, Hardware};
use crate::rdma::domain::{
    domain_error_text, next_domain_stage, DomainAnswer, DomainEntry, DomainError, DomainStage, IbvDomain,
    RdmaQueuePair,
};
use crate::rdma::peers::{PeerMap, PeerModel};
use crate::rdma::primitives::{
    ibverbs_supported, known_or, resolve_qp_type, resolved_qp_type, DeviceListProbe, IbvDevice, IbvMemoryRegionView,
    ResolvedQpType, SupportCache,
};
use std::collections::HashMap;
use vstd::prelude::*;

verus! {

broadcast use vstd::std_specs::hash::group_hash_axioms;

/// The state of an ibverbs manager.
pub struct IbvManagerActor {
    /// The queue pairs, by their connections.
    pub device_qps: PeerMap<RdmaQueuePair>,
    /// The connections whose queue pairs are being created.
    pub pending_qp_creation: PeerMap<bool>,
    /// The domains that are set up, by the names of their devices.
    pub device_domains: NameMap<DomainEntry>,
    pub config: IbvConfig,
    pub mlx5dv_enabled: bool,
    /// The registered memory regions, by the identifiers of their views.
    pub mr_map: HashMap<usize, usize>,
    /// The identifier of the next view.
    pub mrv_id: usize,
    /// The RDMA devices for the GPUs, by the GPUs' PCI addresses.
    pub pci_to_device: NameMap<IbvDevice>,
}

impl IbvManagerActor {
    /// The maps are well formed, and every registered view has an identifier
    /// below the next.
    pub open spec fn wf(self) -> bool {
        &&& self.device_qps.wf()
        &&& self.pending_qp_creation.wf()
        &&& self.device_domains.wf()
        &&& self.pci_to_device.wf()
        &&& forall|id: usize| #[trigger] self.mr_map@.dom().contains(id) ==> id < self.mrv_id
    }

    /// Whether the settings of two states are the same: all that does not change
    /// once a manager is made.
    pub open spec fn same_settings(self, other: IbvManagerActor) -> bool {
        &&& self.config == other.config
        &&& self.mlx5dv_enabled == other.mlx5dv_enabled
        &&& self.pci_to_device == other.pci_to_device
    }

    /// Whether two states agree but for their memory regions.
    pub open spec fn same_but_regions(self, other: IbvManagerActor) -> bool {
        &&& self.same_settings(other)
        &&& self.device_qps == other.device_qps
        &&& self.pending_qp_creation == other.pending_qp_creation
    }

    /// Makes a manager with the settings given, or with the default settings
    /// where there are none. `gpu_direct_valid` says whether GPU Direct RDMA
    /// works here; where it does not, it is switched off. Fails only where there
    /// are no ibverbs devices.
    pub fn new(
        params: Option<IbvConfig>,
        cache: &mut SupportCache,
        probe: &DeviceListProbe,
        gpu_direct_valid: bool,
        hw: &Hardware,
    ) -> (r: Result<IbvManagerActor, NotSupported>)
        requires
            hw.wf(),
            params is None && known_or(old(cache).ibverbs, probe.ibverbs()) ==> hw.devices@.len() > 0,
        ensures
            r is Ok <==> known_or(old(cache).ibverbs, probe.ibverbs()),
            final(cache).ibverbs == Some(known_or(old(cache).ibverbs, probe.ibverbs())),
            final(cache).mlx5dv == (match r {
                Ok(m) => if m.config.qp_type is Auto {
                    Some(known_or(old(cache).mlx5dv, probe.mlx5dv()))
                } else {
                    old(cache).mlx5dv
                },
                Err(_) => old(cache).mlx5dv,
            }),
            r matches Ok(m) ==> {
                &&& m.wf()
                &&& m.device_qps@ == Map::<PeerModel, RdmaQueuePair>::empty()
                &&& m.pending_qp_creation@ == Map::<PeerModel, bool>::empty()
                &&& m.device_domains@ == Map::<Seq<char>, DomainEntry>::empty()
                &&& m.mr_map@ == Map::<usize, usize>::empty()
                &&& m.mrv_id == 0
                &&& params matches Some(c) ==> m.config == with_gpu_direct(c, gpu_direct_valid)
                &&& params is None ==> has_default_settings(m.config) && m.config.device@
                    == hw.devices@[default_place(*hw)]@
                &&& m.mlx5dv_enabled == (resolved_qp_type(
                    m.config.qp_type,
                    known_or(old(cache).mlx5dv, probe.mlx5dv()),
                ) is Mlx5dv)
                &&& maps_gpus(m.pci_to_device@, *hw)
            },
    {
        if !ibverbs_supported(cache, probe) {
            return Err(NotSupported);
        }
        let mut config: IbvConfig = match params {
            Some(config) => config,
            None => IbvConfig::default(hw),
        };
        let mlx5dv_enabled: bool = match resolve_qp_type(config.qp_type, cache, probe) {
            ResolvedQpType::Mlx5dv => true,
            ResolvedQpType::Standard => false,
        };
        if config.use_gpu_direct && !gpu_direct_valid {
            config.use_gpu_direct = false;
        }
        let pci_to_device: NameMap<IbvDevice> = create_cuda_to_rdma_mapping(hw);
        Ok(
            IbvManagerActor {
                device_qps: PeerMap::new(),
                pending_qp_creation: PeerMap::new(),
                device_domains: NameMap::new(),
                config,
                mlx5dv_enabled,
                mr_map: HashMap::new(),
                mrv_id: 0,
                pci_to_device,
            },
        )
    }
}

/// Settings on a machine on which GPU Direct RDMA works or does not.
pub open spec fn with_gpu_direct(c: IbvConfig, valid: bool) -> IbvConfig {
    IbvConfig { use_gpu_direct: c.use_gpu_direct && valid, ..c }
}

/// GPU Direct RDMA is used only where it was asked for and works, and there it
/// is; nothing else of the settings changes.
pub proof fn gpu_direct_is_used_where_it_works(c: IbvConfig, valid: bool)
    ensures
        with_gpu_direct(c, valid).use_gpu_direct <==> c.use_gpu_direct && valid,
        valid ==> with_gpu_direct(c, valid) == c,
        !c.use_gpu_direct ==> with_gpu_direct(c, valid) == c,
        with_gpu_direct(c, valid).device == c.device,
        with_gpu_direct(c, valid).qp_type == c.qp_type,
        with_gpu_direct(c, valid).psn == c.psn,
        with_gpu_direct(c, valid).port_num == c.port_num,
        with_gpu_direct(c, valid).gid_index == c.gid_index,
{
}

/// There are no ibverbs devices.
#[derive(Debug, Clone, Copy)]
pub struct NotSupported;

impl NotSupported {
    /// The error, written for a reader.
    pub fn text(&self) -> (s: String)
        ensures
            s@ == "Cannot create IbvManagerActor because RDMA is not supported on this machine"@,
    {
        "Cannot create IbvManagerActor because RDMA is not supported on this machine".to_owned()
    }
}

impl IbvManagerActor {
    /// The stage at which setting up a device's domain begins.
    pub open spec fn first_domain_stage(self, device: Seq<char>) -> DomainStage {
        if self.device_domains@.dom().contains(device) {
            DomainStage::Ready(self.device_domains@[device])
        } else {
            DomainStage::Open
        }
    }

    /// Begins to set up a device's domain: it may be set up already.
    pub fn get_or_create_device_domain(&self, device: &String) -> (stage: DomainStage)
        requires
            self.wf(),
        ensures
            stage == self.first_domain_stage(device@),
    {
        match self.device_domains.get(device.as_str()) {
            Some(entry) => DomainStage::Ready(*entry),
            None => DomainStage::Open,
        }
    }

    /// The domains after a stage of setting one up.
    pub open spec fn domains_after(self, device: Seq<char>, stage: DomainStage, answer: DomainAnswer) -> Map<
        Seq<char>,
        DomainEntry,
    > {
        match next_domain_stage(stage, answer) {
            DomainStage::Ready(entry) => if stage is Ready {
                self.device_domains@
            } else {
                self.device_domains@.insert(device, entry)
            },
            _ => self.device_domains@,
        }
    }

    /// Goes on with setting up a device's domain, and keeps it once it is ready.
    pub fn continue_device_domain(&mut self, device: &String, stage: DomainStage, answer: DomainAnswer) -> (next:
        DomainStage)
        requires
            old(self).wf(),
        ensures
            final(self).wf(),
            final(self).same_but_regions(*old(self)),
            final(self).mr_map == old(self).mr_map,
            final(self).mrv_id == old(self).mrv_id,
            next == next_domain_stage(stage, answer),
            final(self).device_domains@ == old(self).domains_after(device@, stage, answer),
    {
        let settled: bool = match &stage {
            DomainStage::Ready(_) => true,
            _ => false,
        };
        let next: DomainStage = stage.next(answer);
        if !settled {
            if let DomainStage::Ready(entry) = &next {
                let kept: DomainEntry = *entry;
                self.device_domains.insert(device.clone(), kept);
            }
        }
        next
    }
}

/// A segment of GPU memory that is registered as a whole.
#[derive(Debug, Clone, Copy, PartialEq, Eq, Structural)]
pub struct CudaSegment {
    pub phys_address: usize,
    pub phys_size: usize,
    /// The address under which the segment's registration begins.
    pub mr_addr: usize,
    pub lkey: u32,
    pub rkey: u32,
}

impl CudaSegment {
    /// Whether the memory lies in the segment.
    pub open spec fn holds(self, addr: usize, size: usize) -> bool {
        self.phys_address <= addr && addr + size <= self.phys_address + self.phys_size
    }

    /// The view of memory that lies in the segment.
    pub open spec fn view_of(self, id: usize, addr: usize, size: usize) -> IbvMemoryRegionView {
        IbvMemoryRegionView {
            id,
            virtual_addr: addr,
            rdma_addr: (self.mr_addr + (addr - self.phys_address)) as usize,
            size,
            lkey: self.lkey,
            rkey: self.rkey,
        }
    }
}

/// The first segment that holds the memory.
pub open spec fn segment_for(segments: Seq<CudaSegment>, addr: usize, size: usize) -> Option<CudaSegment>
    decreases segments.len(),
{
    if segments.len() == 0 {
        None
    } else if segments[0].holds(addr, size) {
        Some(segments[0])
    } else {
        segment_for(segments.drop_first(), addr, size)
    }
}

/// The addresses at the ends of the memory and of the segments are addresses.
pub open spec fn segments_fit(segments: Seq<CudaSegment>, addr: usize, size: usize) -> bool {
    &&& addr + size <= usize::MAX
    &&& forall|i: int|
        0 <= i < segments.len() ==> (#[trigger] segments[i]).phys_address + segments[i].phys_size <= usize::MAX
    &&& segment_for(segments, addr, size) matches Some(s) ==> s.mr_addr + (addr - s.phys_address) <= usize::MAX
}

/// A view of memory in a segment lies in the segment's registration, as far
/// from its beginning as the memory does from the segment's.
pub proof fn view_keeps_its_place_in_the_segment(segments: Seq<CudaSegment>, id: usize, addr: usize, size: usize)
    requires
        segments_fit(segments, addr, size),
    ensures
        segment_for(segments, addr, size) matches Some(s) ==> {
            let v = s.view_of(id, addr, size);
            &&& s.holds(addr, size)
            &&& v.virtual_addr == addr && v.size == size
            &&& v.rdma_addr - s.mr_addr == addr - s.phys_address
            &&& s.mr_addr <= v.rdma_addr
            &&& v.rdma_addr + v.size <= s.mr_addr + s.phys_size
        },
    decreases segments.len(),
{
    lemma_segment_for(segments, addr, size);
}

proof fn lemma_segment_for(segments: Seq<CudaSegment>, addr: usize, size: usize)
    ensures
        segment_for(segments, addr, size) matches Some(s) ==> s.holds(addr, size) && segments.contains(s),
    decreases segments.len(),
{
    if segments.len() > 0 {
        lemma_segment_for(segments.drop_first(), addr, size);
        if segments[0].holds(addr, size) {
            assert(segments.contains(segments[0]));
        } else if segment_for(segments.drop_first(), addr, size) is Some {
            let s = segment_for(segments.drop_first(), addr, size)->0;
            let k = choose|k: int| 0 <= k < segments.drop_first().len() && segments.drop_first()[k] == s;
            assert(segments[k + 1] == s);
        }
    }
}

impl IbvManagerActor {
    /// The view of memory that lies in a registered segment, with the next
    /// identifier.
    pub fn find_cuda_segment_for_address(&mut self, segments: &Vec<CudaSegment>, addr: usize, size: usize) -> (r:
        Option<IbvMemoryRegionView>)
        requires
            old(self).wf(),
            segments_fit(segments@, addr, size),
            old(self).mrv_id < usize::MAX,
        ensures
            final(self).wf(),
            final(self).same_but_regions(*old(self)),
            final(self).device_domains == old(self).device_domains,
            final(self).mr_map == old(self).mr_map,
            match segment_for(segments@, addr, size) {
                Some(s) => r == Some(s.view_of(old(self).mrv_id, addr, size)) && final(self).mrv_id == old(self).mrv_id
                    + 1,
                None => r is None && final(self).mrv_id == old(self).mrv_id,
            },
    {
        let mut i: usize = 0;
        assert(segments@.skip(0) =~= segments@);
        while i < segments.len()
            invariant
                i <= segments@.len(),
                self.wf(),
                self.mrv_id < usize::MAX,
                *self == *old(self),
                segments_fit(segments@, addr, size),
                segment_for(segments@, addr, size) == segment_for(segments@.skip(i as int), addr, size),
            decreases segments@.len() - i,
        {
            let segment: CudaSegment = segments[i];
            assert(segments@.skip(i as int)[0] == segment);
            assert(segments@.skip(i as int).drop_first() =~= segments@.skip(i + 1));
            assert(segments@[i as int].phys_address + segments@[i as int].phys_size <= usize::MAX);
            let end: usize = segment.phys_address + segment.phys_size;
            if segment.phys_address <= addr && addr + size <= end {
                let offset: usize = addr - segment.phys_address;
                let view: IbvMemoryRegionView = IbvMemoryRegionView {
                    id: self.mrv_id,
                    virtual_addr: addr,
                    rdma_addr: segment.mr_addr + offset,
                    size,
                    lkey: segment.lkey,
                    rkey: segment.rkey,
                };
                self.mrv_id = self.mrv_id + 1;
                return Some(view);
            }
            i = i + 1;
        }
        None
    }
}

/// What is found out of a pointer.
pub enum PointerProbe {
    /// It points to the memory of the host.
    Host,
    /// It points to the memory of a GPU; with the GPU's PCI address, or why that
    /// could not be found out.
    Cuda(Result<String, String>),
}

/// A memory region that was registered.
#[derive(Debug, Clone, Copy, PartialEq, Eq, Structural)]
pub struct RegisteredMr {
    /// The handle of the region.
    pub mr: usize,
    pub addr: usize,
    pub lkey: u32,
    pub rkey: u32,
}

/// Why memory could not be registered.
pub enum MrError {
    /// The PCI address of the GPU could not be found out; with the cause.
    PciAddress { addr: usize, size: usize, cause: String },
    /// The domain of the device could not be set up.
    Domain { device: String, error: DomainError },
    /// The memory of the GPU could not be registered.
    Dmabuf,
    /// The memory of the host could not be registered.
    Standard,
}

/// How an `MrError` is written.
pub open spec fn mr_error_text(e: MrError) -> Seq<char> {
    match e {
        MrError::PciAddress { addr, size, cause } => "RdmaXcel get_cuda_pci_address_from_ptr failed (addr: 0x"@ + hex(
            addr as nat,
        ) + ", size: "@ + decimal(size as nat) + "): "@ + cause@,
        MrError::Domain { device, error } => domain_error_text(error, device@),
        MrError::Dmabuf => "Failed to register dmabuf MR"@,
        MrError::Standard => "failed to register standard MR"@,
    }
}

impl MrError {
    /// The error, written for a reader.
    pub fn text(&self) -> (s: String)
        ensures
            s@ == mr_error_text(*self),
    {
        match self {
            MrError::PciAddress { addr, size, cause } => {
                let mut s: String = "RdmaXcel get_cuda_pci_address_from_ptr failed (addr: 0x".to_owned();
                s.append(format_hex(*addr as u64).as_str());
                s.append(", size: ");
                s.append(format_decimal(*size as u64).as_str());
                s.append("): ");
                s.append(cause.as_str());
                s
            },
            MrError::Domain { device, error } => error.text(device.as_str()),
            MrError::Dmabuf => "Failed to register dmabuf MR".to_owned(),
            MrError::Standard => "failed to register standard MR".to_owned(),
        }
    }
}

/// What a registered region may be used for: to be written here and from afar,
/// and to be read and changed atomically from afar.
pub const MR_ACCESS: u32 = 15;

/// What is to be done next to register memory.
pub enum MrStage {
    /// Find out what the pointer points to.
    Pointer,
    /// Set up the domain of the device.
    Domain { cuda: bool, device: String, stage: DomainStage },
    /// List the segments that are registered.
    Segments { device: String, entry: DomainEntry, scanned: bool },
    /// Register the segments that the allocator has, in that protection domain
    /// and with that queue pair.
    Scan { device: String, entry: DomainEntry, qp: RdmaQueuePair },
    /// Register the memory of the GPU by itself, with `MR_ACCESS`.
    Dmabuf { device: String, entry: DomainEntry },
    /// Register the memory of the host, with `MR_ACCESS`.
    Host { device: String, entry: DomainEntry },
    /// The memory is registered, on that device.
    Done { view: IbvMemoryRegionView, device: String },
    /// It cannot be registered. Release the domain that is given.
    Failed { error: MrError, release: Option<IbvDomain> },
}

/// What came of a stage.
pub enum MrAnswer {
    Pointer(PointerProbe),
    Domain(DomainAnswer),
    Segments(Vec<CudaSegment>),
    /// Whether the segments could be registered.
    Scanned(bool),
    Registered(Option<RegisteredMr>),
}

/// The view of a memory region that was registered by itself.
pub open spec fn own_view(id: usize, addr: usize, size: usize, mr: RegisteredMr) -> IbvMemoryRegionView {
    IbvMemoryRegionView { id, virtual_addr: addr, rdma_addr: mr.addr, size, lkey: mr.lkey, rkey: mr.rkey }
}

impl IbvManagerActor {
    /// The name of the device on which to register memory.
    pub open spec fn memory_device(self, pci_address: Option<Seq<char>>) -> String {
        match pci_address {
            Some(a) => if self.pci_to_device@.dom().contains(a) {
                self.pci_to_device@[a].name
            } else {
                self.config.device.name
            },
            None => self.config.device.name,
        }
    }

    /// The stage of registering memory that comes with a stage of setting up
    /// the device's domain.
    pub open spec fn with_domain_stage(self, cuda: bool, device: String, stage: DomainStage) -> MrStage {
        match stage {
            DomainStage::Ready(entry) => if !cuda {
                MrStage::Host { device, entry }
            } else if self.mlx5dv_enabled {
                MrStage::Segments { device, entry, scanned: false }
            } else {
                MrStage::Dmabuf { device, entry }
            },
            DomainStage::Failed { error, release } => MrStage::Failed {
                error: MrError::Domain { device, error },
                release,
            },
            stage => MrStage::Domain { cuda, device, stage },
        }
    }

    /// The stage that follows; an answer to something else changes nothing.
    pub open spec fn next_mr_stage(self, addr: usize, size: usize, stage: MrStage, answer: MrAnswer) -> MrStage {
        match (stage, answer) {
            (MrStage::Pointer, MrAnswer::Pointer(PointerProbe::Host)) => {
                let device = self.memory_device(None);
                self.with_domain_stage(false, device, self.first_domain_stage(device@))
            },
            (MrStage::Pointer, MrAnswer::Pointer(PointerProbe::Cuda(Ok(a)))) => {
                let device = self.memory_device(Some(a@));
                self.with_domain_stage(true, device, self.first_domain_stage(device@))
            },
            (MrStage::Pointer, MrAnswer::Pointer(PointerProbe::Cuda(Err(cause)))) => MrStage::Failed {
                error: MrError::PciAddress { addr, size, cause },
                release: None,
            },
            (MrStage::Domain { cuda, device, stage }, MrAnswer::Domain(answer)) => self.with_domain_stage(
                cuda,
                device,
                next_domain_stage(stage, answer),
            ),
            (MrStage::Segments { device, entry, scanned }, MrAnswer::Segments(segments)) => match segment_for(
                segments@,
                addr,
                size,
            ) {
                Some(s) => MrStage::Done { view: s.view_of(self.mrv_id, addr, size), device },
                None => if scanned {
                    MrStage::Dmabuf { device, entry }
                } else {
                    MrStage::Scan { device, entry, qp: entry.qp->0 }
                },
            },
            (MrStage::Scan { device, entry, .. }, MrAnswer::Scanned(registered)) => if registered {
                MrStage::Segments { device, entry, scanned: true }
            } else {
                MrStage::Dmabuf { device, entry }
            },
            (MrStage::Dmabuf { device, .. }, MrAnswer::Registered(mr)) => match mr {
                Some(mr) => MrStage::Done { view: own_view(self.mrv_id, addr, size, mr), device },
                None => MrStage::Failed { error: MrError::Dmabuf, release: None },
            },
            (MrStage::Host { device, .. }, MrAnswer::Registered(mr)) => match mr {
                Some(mr) => MrStage::Done { view: own_view(self.mrv_id, addr, size, mr), device },
                None => MrStage::Failed { error: MrError::Standard, release: None },
            },
            (stage, _) => stage,
        }
    }

    /// The domains after a stage of registering memory.
    pub open spec fn domains_after_mr(self, stage: MrStage, answer: MrAnswer) -> Map<Seq<char>, DomainEntry> {
        match (stage, answer) {
            (MrStage::Domain { device, stage, .. }, MrAnswer::Domain(answer)) => self.domains_after(
                device@,
                stage,
                answer,
            ),
            _ => self.device_domains@,
        }
    }

    /// The handle that is kept for a view: zero where it lies in a segment.
    pub open spec fn kept_handle(answer: MrAnswer) -> usize {
        match answer {
            MrAnswer::Registered(Some(mr)) => mr.mr,
            _ => 0,
        }
    }

    /// The memory and the segments have ends, there is a next identifier, and
    /// there is a queue pair to scan the segments with where that comes next.
    pub open spec fn can_continue_mr(self, addr: usize, size: usize, stage: MrStage, answer: MrAnswer) -> bool {
        &&& self.mrv_id < usize::MAX
        &&& answer matches MrAnswer::Segments(segments) ==> segments_fit(segments@, addr, size)
        &&& (stage, answer) matches (
            MrStage::Segments { entry, scanned, .. },
            MrAnswer::Segments(segments),
        ) ==> scanned || entry.qp is Some || segment_for(segments@, addr, size) is Some
    }

    fn enter_domain(&self, cuda: bool, device: String, stage: DomainStage) -> (next: MrStage)
        ensures
            next == self.with_domain_stage(cuda, device, stage),
    {
        match stage {
            DomainStage::Ready(entry) => if !cuda {
                MrStage::Host { device, entry }
            } else if self.mlx5dv_enabled {
                MrStage::Segments { device, entry, scanned: false }
            } else {
                MrStage::Dmabuf { device, entry }
            },
            DomainStage::Failed { error, release } => MrStage::Failed {
                error: MrError::Domain { device, error },
                release,
            },
            stage => MrStage::Domain { cuda, device, stage },
        }
    }

    fn keep_region(&mut self, addr: usize, size: usize, mr: RegisteredMr) -> (view: IbvMemoryRegionView)
        requires
            old(self).wf(),
            old(self).mrv_id < usize::MAX,
        ensures
            final(self).wf(),
            final(self).same_but_regions(*old(self)),
            final(self).device_domains == old(self).device_domains,
            view == own_view(old(self).mrv_id, addr, size, mr),
            final(self).mrv_id == old(self).mrv_id + 1,
            final(self).mr_map@ == old(self).mr_map@.insert(old(self).mrv_id, mr.mr),
    {
        let view: IbvMemoryRegionView = IbvMemoryRegionView {
            id: self.mrv_id,
            virtual_addr: addr,
            rdma_addr: mr.addr,
            size,
            lkey: mr.lkey,
            rkey: mr.rkey,
        };
        self.mrv_id = self.mrv_id + 1;
        let _ = self.mr_map.insert(view.id, mr.mr);
        view
    }

    /// Begins to register memory.
    pub fn register_mr() -> (stage: MrStage)
        ensures
            stage == MrStage::Pointer,
    {
        MrStage::Pointer
    }

    /// Goes on with registering memory. Once it is registered, its view has an
    /// identifier that no view had before, and the handle of its region is kept
    /// under it.
    pub fn continue_mr(&mut self, addr: usize, size: usize, stage: MrStage, answer: MrAnswer) -> (next: MrStage)
        requires
            old(self).wf(),
            old(self).can_continue_mr(addr, size, stage, answer),
        ensures
            final(self).wf(),
            final(self).same_but_regions(*old(self)),
            next == old(self).next_mr_stage(addr, size, stage, answer),
            final(self).device_domains@ == old(self).domains_after_mr(stage, answer),
            next is Done && !(stage is Done) ==> final(self).mrv_id == old(self).mrv_id + 1 && final(self).mr_map@
                == old(self).mr_map@.insert(old(self).mrv_id, IbvManagerActor::kept_handle(answer)),
            !(next is Done) || stage is Done ==> final(self).mrv_id == old(self).mrv_id && final(self).mr_map@
                == old(self).mr_map@,
    {
        match (stage, answer) {
            (MrStage::Pointer, MrAnswer::Pointer(probe)) => match probe {
                PointerProbe::Host => {
                    let device: String = self.config.device.name.clone();
                    let stage: DomainStage = self.get_or_create_device_domain(&device);
                    self.enter_domain(false, device, stage)
                },
                PointerProbe::Cuda(Ok(a)) => {
                    let device: String = match self.pci_to_device.get(a.as_str()) {
                        Some(d) => d.name.clone(),
                        None => self.config.device.name.clone(),
                    };
                    let stage: DomainStage = self.get_or_create_device_domain(&device);
                    self.enter_domain(true, device, stage)
                },
                PointerProbe::Cuda(Err(cause)) => MrStage::Failed {
                    error: MrError::PciAddress { addr, size, cause },
                    release: None,
                },
            },
            (MrStage::Domain { cuda, device, stage }, MrAnswer::Domain(answer)) => {
                let next: DomainStage = self.continue_device_domain(&device, stage, answer);
                self.enter_domain(cuda, device, next)
            },
            (MrStage::Segments { device, entry, scanned }, MrAnswer::Segments(segments)) => {
                match self.find_cuda_segment_for_address(&segments, addr, size) {
                    Some(view) => {
                        let _ = self.mr_map.insert(view.id, 0);
                        MrStage::Done { view, device }
                    },
                    None => if scanned {
                        MrStage::Dmabuf { device, entry }
                    } else {
                        let qp: RdmaQueuePair = entry.qp.unwrap();
                        MrStage::Scan { device, entry, qp }
                    },
                }
            },
            (MrStage::Scan { device, entry, .. }, MrAnswer::Scanned(registered)) => if registered {
                MrStage::Segments { device, entry, scanned: true }
            } else {
                MrStage::Dmabuf { device, entry }
            },
            (MrStage::Dmabuf { device, .. }, MrAnswer::Registered(mr)) => match mr {
                Some(mr) => {
                    let view: IbvMemoryRegionView = self.keep_region(addr, size, mr);
                    MrStage::Done { view, device }
                },
                None => MrStage::Failed { error: MrError::Dmabuf, release: None },
            },
            (MrStage::Host { device, .. }, MrAnswer::Registered(mr)) => match mr {
                Some(mr) => {
                    let view: IbvMemoryRegionView = self.keep_region(addr, size, mr);
                    MrStage::Done { view, device }
                },
                None => MrStage::Failed { error: MrError::Standard, release: None },
            },
            (stage, _) => stage,
        }
    }

    /// The identifier of the next view is of no registered view, and stays so
    /// however many are registered and released.
    pub proof fn next_view_is_new(self, addr: usize, size: usize, stage: MrStage, answer: MrAnswer)
        requires
            self.wf(),
        ensures
            !self.mr_map@.dom().contains(self.mrv_id),
            !(stage is Done) ==> (self.next_mr_stage(addr, size, stage, answer) matches MrStage::Done { view, .. }
                ==> view.id == self.mrv_id && !self.mr_map@.dom().contains(view.id)),
    {
    }

    /// To forget a view that was just registered leaves the registered regions as
    /// they were before.
    pub proof fn release_undoes_registration(self, handle: usize)
        requires
            self.wf(),
        ensures
            self.mr_map@.insert(self.mrv_id, handle).remove(self.mrv_id) == self.mr_map@,
    {
        assert(!self.mr_map@.dom().contains(self.mrv_id));
        assert(self.mr_map@.insert(self.mrv_id, handle).remove(self.mrv_id) =~= self.mr_map@);
    }

    /// Forgets a view; returns the handle of the region that is to be
    /// deregistered with it, if it has one of its own.
    pub fn deregister_mr(&mut self, id: usize) -> (handle: Option<usize>)
        requires
            old(self).wf(),
        ensures
            final(self).wf(),
            final(self).same_but_regions(*old(self)),
            final(self).device_domains == old(self).device_domains,
            final(self).mrv_id == old(self).mrv_id,
            final(self).mr_map@ == old(self).mr_map@.remove(id),
            handle == freed_handle(old(self).mr_map@, id),
    {
        match self.mr_map.remove(&id) {
            Some(mr) => if mr != 0 {
                Some(mr)
            } else {
                None
            },
            None => None,
        }
    }
}

impl MrStage {
    /// The device on which the memory is to be registered, once that is settled.
    pub open spec fn on_device(self) -> Option<Seq<char>> {
        match self {
            MrStage::Pointer => None,
            MrStage::Domain { device, .. } => Some(device@),
            MrStage::Segments { device, .. } => Some(device@),
            MrStage::Scan { device, .. } => Some(device@),
            MrStage::Dmabuf { device, .. } => Some(device@),
            MrStage::Host { device, .. } => Some(device@),
            MrStage::Done { device, .. } => Some(device@),
            MrStage::Failed { error: MrError::Domain { device, .. }, .. } => Some(device@),
            MrStage::Failed { .. } => None,
        }
    }

    /// The domain in which the memory is to be registered, once it is set up.
    pub open spec fn in_domain(self) -> Option<DomainEntry> {
        match self {
            MrStage::Segments { entry, .. } => Some(entry),
            MrStage::Scan { entry, .. } => Some(entry),
            MrStage::Dmabuf { entry, .. } => Some(entry),
            MrStage::Host { entry, .. } => Some(entry),
            _ => None,
        }
    }
}

/// Whether memory goes through the stages of its registration, with an answer to
/// each but the last; each answer comes to the manager in the state it then has.
pub open spec fn is_mr_run(
    managers: Seq<IbvManagerActor>,
    addr: usize,
    size: usize,
    stages: Seq<MrStage>,
    answers: Seq<MrAnswer>,
) -> bool {
    &&& stages.len() == answers.len() + 1
    &&& managers.len() == answers.len()
    &&& stages[0] is Pointer
    &&& forall|i: int|
        0 <= i < answers.len() ==> #[trigger] stages[i + 1] == managers[i].next_mr_stage(
            addr,
            size,
            stages[i],
            answers[i],
        )
}

/// Memory of a GPU is registered on the device that the mapping has for the
/// GPU's PCI address: every stage after the pointer was found out, up to the
/// last, carries the name of that device. The device of the settings is for
/// memory of the host, and of GPUs that the mapping does not have.
pub proof fn memory_stays_on_its_device(
    managers: Seq<IbvManagerActor>,
    addr: usize,
    size: usize,
    stages: Seq<MrStage>,
    answers: Seq<MrAnswer>,
    first: int,
    n: int,
)
    requires
        is_mr_run(managers, addr, size, stages, answers),
        0 <= first < n < stages.len(),
        stages[first] is Pointer,
        !(stages[first + 1] is Pointer),
    ensures
        answers[first] matches MrAnswer::Pointer(probe) && match probe {
            PointerProbe::Cuda(Ok(a)) => stages[n].on_device() is Some ==> stages[n].on_device()->0 == (
            if managers[first].pci_to_device@.dom().contains(a@) {
                managers[first].pci_to_device@[a@].name@
            } else {
                managers[first].config.device.name@
            }),
            PointerProbe::Host => stages[n].on_device() is Some ==> stages[n].on_device()->0
                == managers[first].config.device.name@,
            PointerProbe::Cuda(Err(_)) => stages[n] is Failed,
        },
        stages[n] is Pointer ==> false,
    decreases n,
{
    let m = managers[n - 1];
    assert(stages[(n - 1) + 1] == m.next_mr_stage(addr, size, stages[n - 1], answers[n - 1]));
    assert(stages[first + 1] == managers[first].next_mr_stage(addr, size, stages[first], answers[first]));
    if n > first + 1 {
        memory_stays_on_its_device(managers, addr, size, stages, answers, first, n - 1);
        m.registration_keeps_its_device(addr, size, stages[n - 1], answers[n - 1]);
    }
}

impl IbvManagerActor {
    /// Where the pointer is found to be of a GPU whose PCI address is mapped to a
    /// device, the memory is registered on that device; the device of the
    /// settings is used only for memory of the host and for GPUs that are not
    /// mapped. If that device has a domain already, it is used.
    pub proof fn memory_goes_to_the_device_it_is_close_to(self, addr: usize, size: usize, probe: PointerProbe)
        requires
            !(probe matches PointerProbe::Cuda(Err(_))),
        ensures
            ({
                let next = self.next_mr_stage(addr, size, MrStage::Pointer, MrAnswer::Pointer(probe));
                &&& next.on_device() is Some
                &&& !(next is Failed || next is Done || next is Scan || next is Pointer)
                &&& probe matches PointerProbe::Cuda(Ok(a)) ==> self.pci_to_device@.dom().contains(a@)
                    ==> next.on_device()->0 == self.pci_to_device@[a@].name@
                &&& probe matches PointerProbe::Cuda(Ok(a)) ==> !self.pci_to_device@.dom().contains(a@)
                    ==> next.on_device()->0 == self.config.device.name@
                &&& probe is Host ==> next.on_device()->0 == self.config.device.name@
                &&& self.device_domains@.dom().contains(next.on_device()->0) <==> next.in_domain() is Some
                &&& next.in_domain() matches Some(entry) ==> entry == self.device_domains@[next.on_device()->0]
                &&& next matches MrStage::Domain { stage, .. } ==> stage is Open
            }),
    {
    }

    /// A registration does not change its device, nor its domain once that is
    /// set up.
    pub proof fn registration_keeps_its_device(self, addr: usize, size: usize, stage: MrStage, answer: MrAnswer)
        requires
            !(stage is Pointer),
        ensures
            ({
                let next = self.next_mr_stage(addr, size, stage, answer);
                &&& !(next is Pointer)
                &&& stage.on_device() is Some && next.on_device() is Some ==> next.on_device() == stage.on_device()
                &&& stage.in_domain() is Some && next.in_domain() is Some ==> next.in_domain() == stage.in_domain()
                &&& !(next is Failed) ==> next.on_device() == stage.on_device()
                &&& stage is Failed ==> next == stage
                &&& stage is Done ==> next == stage
            }),
    {
    }

    /// The domain in which memory is registered is the one that is kept for the
    /// device from then on, and the domains of other devices are left alone.
    pub proof fn the_domain_in_use_is_the_one_kept(self, addr: usize, size: usize, stage: MrStage, answer: MrAnswer)
        requires
            stage is Pointer || stage is Domain,
        ensures
            ({
                let next = self.next_mr_stage(addr, size, stage, answer);
                let after = self.domains_after_mr(stage, answer);
                &&& stage matches MrStage::Domain { stage: DomainStage::Ready(_), .. } ==> after == self.device_domains@
                &&& !(stage matches MrStage::Domain { stage: DomainStage::Ready(_), .. }) ==> (next.in_domain() matches Some(
                    entry,
                ) ==> after.dom().contains(next.on_device()->0) && after[next.on_device()->0] == entry)
                &&& next.in_domain() is None ==> after == self.device_domains@
                &&& forall|name: Seq<char>|
                    Some(name) != next.on_device() ==> (#[trigger] after.dom().contains(name)
                        <==> self.device_domains@.dom().contains(name)) && (after.dom().contains(name) ==> after[name]
                        == self.device_domains@[name])
            }),
    {
    }

    /// Memory of the host is registered as such, and memory of a GPU never is:
    /// it is looked for in the registered segments where there can be any, and
    /// otherwise registered by itself.
    pub proof fn gpu_memory_is_not_registered_as_host_memory(
        self,
        addr: usize,
        size: usize,
        stage: MrStage,
        answer: MrAnswer,
    )
        ensures
            ({
                let next = self.next_mr_stage(addr, size, stage, answer);
                &&& next is Host && next != stage ==> stage matches MrStage::Domain { cuda: false, .. } || answer
                    == MrAnswer::Pointer(PointerProbe::Host)
                &&& (next is Segments || next is Dmabuf || next is Scan) && next != stage ==> (stage matches MrStage::Domain {
                    cuda: true,
                    ..
                } || answer matches MrAnswer::Pointer(PointerProbe::Cuda(_)) || stage is Segments || stage is Scan)
                &&& stage is Pointer && next is Segments ==> self.mlx5dv_enabled
                &&& stage is Domain && next is Segments ==> self.mlx5dv_enabled
                &&& (stage is Pointer || stage is Domain) && next is Dmabuf ==> !self.mlx5dv_enabled
                &&& (stage, next) matches (MrStage::Domain { cuda, .. }, MrStage::Domain { cuda: still, .. }) ==> cuda
                    == still
                &&& stage is Pointer && next is Domain ==> (next->cuda <==> (
                answer matches MrAnswer::Pointer(PointerProbe::Cuda(_))))
            }),
    {
    }

    /// The allocator's segments are registered at most once for a piece of
    /// memory, and only where it lies in none of those that are; the memory is
    /// registered by itself only where it then still lies in none.
    pub proof fn segments_are_scanned_once(self, addr: usize, size: usize, stage: MrStage, answer: MrAnswer)
        ensures
            ({
                let next = self.next_mr_stage(addr, size, stage, answer);
                &&& next is Scan && next != stage ==> (stage matches MrStage::Segments { entry, scanned, .. } && !scanned
                    && next->qp == entry.qp->0) && (answer matches MrAnswer::Segments(list) && forall|i: int|
                    0 <= i < list@.len() ==> !(#[trigger] list@[i]).holds(addr, size))
                &&& next is Segments && next != stage ==> (next->scanned <==> stage is Scan) && (next->scanned ==> answer
                    == MrAnswer::Scanned(true))
                &&& stage is Segments && next is Dmabuf ==> stage->scanned && (answer matches MrAnswer::Segments(list)
                    && forall|i: int| 0 <= i < list@.len() ==> !(#[trigger] list@[i]).holds(addr, size))
                &&& stage is Scan && next is Dmabuf ==> answer == MrAnswer::Scanned(false)
                &&& stage is Scan && answer is Scanned ==> next is Dmabuf || next is Segments
            }),
    {
        if let MrAnswer::Segments(list) = answer {
            lemma_no_segment(list@, addr, size);
        }
    }

    /// An answer to what a stage asks for takes the registration on: memory that
    /// lies in no segment has the allocator's segments registered where they were
    /// not yet, and is then registered by itself.
    pub proof fn answered_registration_steps_are_left(self, addr: usize, size: usize, stage: MrStage, answer: MrAnswer)
        ensures
            ({
                let next = self.next_mr_stage(addr, size, stage, answer);
                &&& stage is Pointer && answer is Pointer ==> !(next is Pointer)
                &&& (stage, answer) matches (
                    MrStage::Segments { scanned, .. },
                    MrAnswer::Segments(list),
                ) ==> (forall|i: int| 0 <= i < list@.len() ==> !(#[trigger] list@[i]).holds(addr, size)) ==> (
                if scanned {
                    next is Dmabuf
                } else {
                    next is Scan
                })
                &&& stage is Scan && answer == MrAnswer::Scanned(true) ==> next is Segments
                &&& stage is Scan && answer == MrAnswer::Scanned(false) ==> next is Dmabuf
                &&& (stage is Host || stage is Dmabuf) && answer is Registered ==> next is Done || next is Failed
                &&& (stage, answer) matches (MrStage::Domain { stage: s, .. }, MrAnswer::Domain(a)) ==> (
                next_domain_stage(s, a) is Failed ==> next is Failed) && (next_domain_stage(s, a) is Ready
                    ==> next.in_domain() is Some) && (!(next_domain_stage(s, a) is Failed) && !(next_domain_stage(s, a)
                    is Ready) ==> (next matches MrStage::Domain { stage: now, .. } && now == next_domain_stage(s, a)))
            }),
    {
        if let MrAnswer::Segments(list) = answer {
            lemma_no_segment(list@, addr, size);
        }
    }

    /// What is registered is the memory that was asked for, under the next
    /// identifier, and with the address and the keys of the region, or of the
    /// segment, that it is registered with; the handle that is kept is that of
    /// the region, and none where it is a segment.
    pub proof fn the_view_is_of_the_memory_asked_for(self, addr: usize, size: usize, stage: MrStage, answer: MrAnswer)
        requires
            !(stage is Done),
            self.can_continue_mr(addr, size, stage, answer),
        ensures
            self.next_mr_stage(addr, size, stage, answer) matches MrStage::Done { view, .. } ==> {
                &&& view.virtual_addr == addr && view.size == size && view.id == self.mrv_id
                &&& stage is Segments ==> {
                    &&& answer matches MrAnswer::Segments(list)
                    &&& IbvManagerActor::kept_handle(answer) == 0
                    &&& exists|i: int|
                        0 <= i < list@.len() && (#[trigger] list@[i]).phys_address <= addr && addr + size
                            <= list@[i].phys_address + list@[i].phys_size && view.lkey == list@[i].lkey && view.rkey
                            == list@[i].rkey && view.rdma_addr - list@[i].mr_addr == addr - list@[i].phys_address
                }
                &&& !(stage is Segments) ==> {
                    &&& stage is Host || stage is Dmabuf
                    &&& answer matches MrAnswer::Registered(Some(mr))
                    &&& view.rdma_addr == mr.addr && view.lkey == mr.lkey && view.rkey == mr.rkey
                    &&& IbvManagerActor::kept_handle(answer) == mr.mr
                }
            },
    {
        if let MrAnswer::Segments(list) = answer {
            lemma_segment_for(list@, addr, size);
        }
    }

    /// A registration that can be had is had: by a region that was made, or by a
    /// segment that holds the memory.
    pub proof fn a_registered_region_is_enough(self, addr: usize, size: usize, stage: MrStage, answer: MrAnswer)
        ensures
            ({
                let next = self.next_mr_stage(addr, size, stage, answer);
                &&& (stage is Host || stage is Dmabuf) ==> (next is Done <==> answer matches MrAnswer::Registered(Some(_)))
                &&& (stage is Host || stage is Dmabuf) ==> (next is Failed <==> answer matches MrAnswer::Registered(None))
                &&& stage is Segments ==> (next is Done <==> (answer matches MrAnswer::Segments(list) && exists|i: int|
                    0 <= i < list@.len() && (#[trigger] list@[i]).holds(addr, size)))
            }),
    {
        if let MrAnswer::Segments(list) = answer {
            lemma_no_segment(list@, addr, size);
            lemma_segment_for(list@, addr, size);
        }
    }

    /// A registration fails only for a cause, which it tells, and gives back the
    /// domain that was opened for it.
    pub proof fn failed_registrations_tell_the_cause(self, addr: usize, size: usize, stage: MrStage, answer: MrAnswer)
        requires
            !(stage is Failed),
        ensures
            self.next_mr_stage(addr, size, stage, answer) matches MrStage::Failed { error, release } ==> match error {
                MrError::PciAddress { addr: a, size: s, cause } => stage is Pointer && answer == MrAnswer::Pointer(
                    PointerProbe::Cuda(Err(cause)),
                ) && a == addr && s == size && release is None,
                MrError::Dmabuf => stage is Dmabuf && answer == MrAnswer::Registered(None) && release is None,
                MrError::Standard => stage is Host && answer == MrAnswer::Registered(None) && release is None,
                MrError::Domain { device, error: e } => stage.on_device() == Some(device@) && (
                stage matches MrStage::Domain { stage: s, .. } && answer matches MrAnswer::Domain(a) && next_domain_stage(
                    s,
                    a,
                ) == (DomainStage::Failed { error: e, release })),
            },
    {
    }
}

/// A segment is found in a list where one of the list holds the memory.
proof fn lemma_no_segment(segments: Seq<CudaSegment>, addr: usize, size: usize)
    ensures
        segment_for(segments, addr, size) is None <==> forall|i: int|
            0 <= i < segments.len() ==> !(#[trigger] segments[i]).holds(addr, size),
    decreases segments.len(),
{
    if segments.len() > 0 {
        let rest = segments.drop_first();
        lemma_no_segment(rest, addr, size);
        assert(forall|i: int| 0 <= i < rest.len() ==> rest[i] == #[trigger] segments[i + 1]);
        if segment_for(rest, addr, size) is None && !segments[0].holds(addr, size) {
            assert forall|i: int| 0 <= i < segments.len() implies !(#[trigger] segments[i]).holds(addr, size) by {
                if i > 0 {
                    assert(rest[i - 1] == segments[i]);
                }
            }
        } else if !segments[0].holds(addr, size) {
            let k = choose|k: int| 0 <= k < rest.len() && (#[trigger] rest[k]).holds(addr, size);
            assert(segments[k + 1].holds(addr, size));
        }
    }
}

/// The handle of the region that is to be deregistered with a view: none where
/// the view is not known, or lies in a segment that stays registered.
pub open spec fn freed_handle(mr_map: Map<usize, usize>, id: usize) -> Option<usize> {
    if mr_map.dom().contains(id) && mr_map[id] != 0 {
        Some(mr_map[id])
    } else {
        None
    }
}

/// The region that was registered for a view is what is deregistered with it,
/// once, and a segment never is.
pub proof fn a_region_is_freed_once(mr_map: Map<usize, usize>, id: usize, answer: MrAnswer)
    ensures
        answer matches MrAnswer::Registered(Some(mr)) ==> mr.mr != 0 ==> freed_handle(
            mr_map.insert(id, IbvManagerActor::kept_handle(answer)),
            id,
        ) == Some(mr.mr),
        answer is Segments ==> freed_handle(mr_map.insert(id, IbvManagerActor::kept_handle(answer)), id) is None,
        freed_handle(mr_map.remove(id), id) is None,
        freed_handle(mr_map, id) matches Some(handle) ==> handle != 0 && mr_map.dom().contains(id) && mr_map[id] == handle,
{
}

/// A buffer that others can reach, with the manager that owns it.
#[derive(Debug)]
pub struct RdmaBuffer {
    pub owner: String,
    pub mr_id: usize,
    pub addr: usize,
    pub size: usize,
    pub rkey: u32,
    pub lkey: u32,
    pub device_name: String,
}

impl RdmaBuffer {
    /// The buffer of a view that was registered on a device.
    pub fn of_view(owner: String, view: &IbvMemoryRegionView, device_name: String) -> (b: RdmaBuffer)
        ensures
            b == (RdmaBuffer {
                owner,
                mr_id: view.id,
                addr: view.rdma_addr,
                size: view.size,
                rkey: view.rkey,
                lkey: view.lkey,
                device_name,
            }),
    {
        RdmaBuffer {
            owner,
            mr_id: view.id,
            addr: view.rdma_addr,
            size: view.size,
            rkey: view.rkey,
            lkey: view.lkey,
            device_name,
        }
    }
}

impl IbvManagerActor {
    /// Releases a buffer; returns the handle of the region that is to be
    /// deregistered with it, if it has one of its own.
    pub fn release_buffer(&mut self, buffer: &RdmaBuffer) -> (handle: Option<usize>)
        requires
            old(self).wf(),
        ensures
            final(self).wf(),
            final(self).same_but_regions(*old(self)),
            final(self).device_domains == old(self).device_domains,
            final(self).mrv_id == old(self).mrv_id,
            final(self).mr_map@ == old(self).mr_map@.remove(buffer.mr_id),
            handle == freed_handle(old(self).mr_map@, buffer.mr_id),
    {
        self.deregister_mr(buffer.mr_id)
    }
}

}
