//! The queue pairs of an ibverbs manager: creating and connecting them, and
//! tearing everything down in the end.

use crate::numerals::{decimal, format_decimal};
use crate::rdma::device_selection::{is_likely_default, resolve_rdma_device, selected, Hardware};
use crate::rdma::domain::{
    domain_error_text, next_domain_stage, DomainAnswer, DomainEntry, DomainError, DomainStage, IbvDomain,
    RdmaQueuePair,
};
use crate::rdma::manager::IbvManagerActor;
use crate::rdma::peers::{mirrored, device_has_peers, Peer, PeerModel};
use crate::rdma::primitives::{IbvDevice, IbvQpInfo};
use crate::text::same;
use vstd::prelude::*;

verus! {

broadcast use vstd::std_specs::hash::group_hash_axioms;

/// The state in which ibverbs says that a queue pair is ready to send.
pub const IBV_QPS_RTS: u32 = 3;

/// How long a request waits for a queue pair that another request creates, in
/// nanoseconds.
pub const QP_WAIT_NANOS: u128 = 1_000_000_000;

/// How long such a request waits before it looks again, in nanoseconds.
pub const QP_PAUSE_NANOS: u128 = 200_000;

/// Why a queue pair is not found.
#[derive(Debug, Clone, Copy, PartialEq, Eq, Structural)]
pub enum LookupError {
    /// The local device has no queue pairs.
    NoDeviceMap,
    /// The local device has none for that connection.
    NoConnection,
}

/// Why a queue pair could not be created.
pub enum InitError {
    /// The domain of the device could not be set up.
    Domain(DomainError),
    /// The queue pair could not be made; with the cause.
    QueuePair(String),
}

/// How an `InitError` is written.
pub open spec fn init_error_text(e: InitError, self_device: Seq<char>) -> Seq<char> {
    match e {
        InitError::Domain(error) => domain_error_text(error, self_device),
        InitError::QueuePair(cause) => "could not create RdmaQueuePair: "@ + cause@,
    }
}

impl InitError {
    /// The error, written for a reader.
    pub fn text(&self, self_device: &str) -> (s: String)
        ensures
            s@ == init_error_text(*self, self_device@),
    {
        match self {
            InitError::Domain(error) => error.text(self_device),
            InitError::QueuePair(cause) => {
                let mut s: String = "could not create RdmaQueuePair: ".to_owned();
                s.append(cause.as_str());
                s
            },
        }
    }
}

/// What is to be done next to create a queue pair.
pub enum InitStage {
    /// Set up the domain of the local device.
    Domain(DomainStage),
    /// Create a queue pair in the domain.
    Create { domain: IbvDomain },
    /// There is a queue pair.
    Done,
    /// There is none to be had. Release the domain that is given.
    Failed { error: InitError, release: Option<IbvDomain> },
}

/// What came of a stage.
pub enum InitAnswer {
    Domain(DomainAnswer),
    Created(Result<RdmaQueuePair, String>),
}

/// The stage of creating a queue pair that comes with a stage of setting up the domain.
pub open spec fn init_with_domain_stage(stage: DomainStage) -> InitStage {
    match stage {
        DomainStage::Ready(entry) => InitStage::Create { domain: entry.domain },
        DomainStage::Failed { error, release } => InitStage::Failed { error: InitError::Domain(error), release },
        stage => InitStage::Domain(stage),
    }
}

/// The stage that follows; an answer to something else changes nothing.
pub open spec fn next_init_stage(stage: InitStage, answer: InitAnswer) -> InitStage {
    match (stage, answer) {
        (InitStage::Domain(stage), InitAnswer::Domain(answer)) => init_with_domain_stage(
            next_domain_stage(stage, answer),
        ),
        (InitStage::Create { .. }, InitAnswer::Created(Ok(_))) => InitStage::Done,
        (InitStage::Create { .. }, InitAnswer::Created(Err(cause))) => InitStage::Failed {
            error: InitError::QueuePair(cause),
            release: None,
        },
        (stage, _) => stage,
    }
}

fn enter_init_domain(stage: DomainStage) -> (next: InitStage)
    ensures
        next == init_with_domain_stage(stage),
{
    match stage {
        DomainStage::Ready(entry) => InitStage::Create { domain: entry.domain },
        DomainStage::Failed { error, release } => InitStage::Failed { error: InitError::Domain(error), release },
        stage => InitStage::Domain(stage),
    }
}

impl IbvManagerActor {
    /// What is found for a connection.
    pub open spec fn found(self, peer: PeerModel) -> Result<RdmaQueuePair, LookupError> {
        if self.device_qps@.dom().contains(peer) {
            Ok(self.device_qps@[peer])
        } else if device_has_peers(self.device_qps@, peer.self_device) {
            Err(LookupError::NoConnection)
        } else {
            Err(LookupError::NoDeviceMap)
        }
    }

    /// The queue pair of a connection.
    pub fn find_connection(&self, peer: &Peer) -> (r: Result<RdmaQueuePair, LookupError>)
        requires
            self.wf(),
        ensures
            r == self.found(peer@),
    {
        match self.device_qps.get(peer) {
            Some(qp) => Ok(*qp),
            None => if self.device_qps.has_device(peer.self_device.as_str()) {
                Err(LookupError::NoConnection)
            } else {
                Err(LookupError::NoDeviceMap)
            },
        }
    }

    /// Whether some GPU's RDMA device has that name.
    pub open spec fn maps_to_device(self, name: Seq<char>) -> bool {
        exists|a: Seq<char>| #[trigger]
            self.pci_to_device@.dom().contains(a) && self.pci_to_device@[a].name@ == name
    }

    /// The name of the device that is opened for a local device: that device
    /// itself where it is a GPU's, else the device of the settings, as resolved.
    pub open spec fn device_to_open(self, self_device: Seq<char>, hw: Hardware) -> Seq<char> {
        if self.maps_to_device(self_device) {
            self_device
        } else if is_likely_default(self.config.device.name@, hw.devices@) && selected("cpu:0"@, hw) is Some {
            hw.devices@[selected("cpu:0"@, hw)->0].name@
        } else {
            self.config.device.name@
        }
    }

    /// The name of the device that is to be opened for a local device.
    pub fn resolve_device(&self, self_device: &String, hw: &Hardware) -> (name: String)
        requires
            self.wf(),
            hw.wf(),
        ensures
            name@ == self.device_to_open(self_device@, *hw),
    {
        let count: usize = self.pci_to_device.len();
        let ghost names = self.pci_to_device.names();
        proof {
            self.pci_to_device.lemma_names();
        }
        let mut i: usize = 0;
        while i < count
            invariant
                i <= count,
                self.wf(),
                names == self.pci_to_device.names(),
                count == names.len(),
                forall|j: int| 0 <= j < i ==> self.pci_to_device@[#[trigger] names[j]].name@ != self_device@,
            decreases count - i,
        {
            let device: &IbvDevice = self.pci_to_device.value_at(i);
            if same(device.name.as_str(), self_device.as_str()) {
                assert(self.pci_to_device@.dom().contains(names[i as int]));
                return self_device.clone();
            }
            i = i + 1;
        }
        proof {
            assert forall|a: Seq<char>| #[trigger] self.pci_to_device@.dom().contains(
                a,
            ) implies self.pci_to_device@[a].name@ != self_device@ by {
                assert(names.contains(a));
                let j = choose|j: int| 0 <= j < names.len() && names[j] == a;
                assert(self.pci_to_device@[names[j]].name@ != self_device@);
            }
        }
        match resolve_rdma_device(&self.config.device, hw) {
            Some(device) => {
                assert(device@.name == device.name@);
                device.name.clone()
            },
            None => self.config.device.name.clone(),
        }
    }

    /// The stage at which creating the queue pair of a connection begins.
    pub open spec fn first_init_stage(self, peer: PeerModel) -> InitStage {
        if self.device_qps@.dom().contains(peer) {
            InitStage::Done
        } else {
            init_with_domain_stage(self.first_domain_stage(peer.self_device))
        }
    }

    /// The domains after a stage of creating a queue pair.
    pub open spec fn domains_after_init(self, peer: PeerModel, stage: InitStage, answer: InitAnswer) -> Map<
        Seq<char>,
        DomainEntry,
    > {
        match (stage, answer) {
            (InitStage::Domain(stage), InitAnswer::Domain(answer)) => self.domains_after(peer.self_device, stage, answer),
            _ => self.device_domains@,
        }
    }

    /// The queue pairs after a stage of creating one.
    pub open spec fn qps_after_init(self, peer: PeerModel, stage: InitStage, answer: InitAnswer) -> Map<
        PeerModel,
        RdmaQueuePair,
    > {
        match (stage, answer) {
            (InitStage::Create { .. }, InitAnswer::Created(Ok(qp))) => self.device_qps@.insert(peer, qp),
            _ => self.device_qps@,
        }
    }

    /// A queue pair that was made is kept for the connection that it was made
    /// for, no other is touched, and a connection counts as done exactly where a
    /// queue pair is kept for it. Where the local device has a domain already,
    /// it is used, and otherwise one is opened for that device.
    pub proof fn a_queue_pair_is_kept_for_its_connection(
        self,
        peer: PeerModel,
        stage: InitStage,
        answer: InitAnswer,
        other: PeerModel,
    )
        ensures
            self.first_init_stage(peer) is Done <==> self.device_qps@.dom().contains(peer),
            !self.device_qps@.dom().contains(peer) && self.device_domains@.dom().contains(peer.self_device)
                ==> self.first_init_stage(peer) == (InitStage::Create {
                domain: self.device_domains@[peer.self_device].domain,
            }),
            !self.device_qps@.dom().contains(peer) && !self.device_domains@.dom().contains(peer.self_device)
                ==> self.first_init_stage(peer) == InitStage::Domain(DomainStage::Open),
            stage is Create && next_init_stage(stage, answer) is Done ==> (answer matches InitAnswer::Created(Ok(qp))
                && self.qps_after_init(peer, stage, answer).dom().contains(peer) && self.qps_after_init(
                peer,
                stage,
                answer,
            )[peer] == qp),
            other != peer ==> (self.qps_after_init(peer, stage, answer).dom().contains(other)
                <==> self.device_qps@.dom().contains(other)),
            other != peer && self.device_qps@.dom().contains(other) ==> self.qps_after_init(peer, stage, answer)[other]
                == self.device_qps@[other],
            !(next_init_stage(stage, answer) is Done) ==> self.qps_after_init(peer, stage, answer) == self.device_qps@,
    {
    }

    /// A domain that was set up for a connection is kept for its local device,
    /// and is the one in which the queue pair is made; the domains of other
    /// devices are left alone.
    pub proof fn a_domain_is_kept_for_its_device(
        self,
        peer: PeerModel,
        stage: InitStage,
        answer: InitAnswer,
        other: Seq<char>,
    )
        requires
            stage matches InitStage::Domain(s) ==> !(s is Ready),
        ensures
            stage is Domain && next_init_stage(stage, answer) is Create ==> {
                let after = self.domains_after_init(peer, stage, answer);
                &&& after.dom().contains(peer.self_device)
                &&& next_init_stage(stage, answer) == (InitStage::Create { domain: after[peer.self_device].domain })
            },
            !(stage is Domain && next_init_stage(stage, answer) is Create) ==> self.domains_after_init(
                peer,
                stage,
                answer,
            ) == self.device_domains@,
            other != peer.self_device ==> (self.domains_after_init(peer, stage, answer).dom().contains(other)
                <==> self.device_domains@.dom().contains(other)),
            other != peer.self_device && self.device_domains@.dom().contains(other) ==> self.domains_after_init(
                peer,
                stage,
                answer,
            )[other] == self.device_domains@[other],
    {
    }

    /// Begins to create the queue pair of a connection: there may be one already.
    pub fn initialize_qp(&self, peer: &Peer) -> (stage: InitStage)
        requires
            self.wf(),
        ensures
            stage == self.first_init_stage(peer@),
    {
        if self.device_qps.contains(peer) {
            return InitStage::Done;
        }
        enter_init_domain(self.get_or_create_device_domain(&peer.self_device))
    }

    /// Goes on with creating the queue pair of a connection, and keeps it once
    /// it is made.
    pub fn continue_init(&mut self, peer: &Peer, stage: InitStage, answer: InitAnswer) -> (next: InitStage)
        requires
            old(self).wf(),
        ensures
            final(self).wf(),
            final(self).same_settings(*old(self)),
            final(self).pending_qp_creation == old(self).pending_qp_creation,
            final(self).mr_map == old(self).mr_map,
            final(self).mrv_id == old(self).mrv_id,
            next == next_init_stage(stage, answer),
            final(self).device_domains@ == old(self).domains_after_init(peer@, stage, answer),
            final(self).device_qps@ == old(self).qps_after_init(peer@, stage, answer),
    {
        match (stage, answer) {
            (InitStage::Domain(stage), InitAnswer::Domain(answer)) => {
                let next: DomainStage = self.continue_device_domain(&peer.self_device, stage, answer);
                enter_init_domain(next)
            },
            (InitStage::Create { .. }, InitAnswer::Created(created)) => match created {
                Ok(qp) => {
                    let ghost before = self.device_qps@;
                    self.device_qps.remove(peer);
                    self.device_qps.add(peer.clone(), qp);
                    assert(self.device_qps@ =~= before.insert(peer@, qp));
                    InitStage::Done
                },
                Err(cause) => InitStage::Failed { error: InitError::QueuePair(cause), release: None },
            },
            (stage, _) => stage,
        }
    }
}

impl IbvManagerActor {
    /// A device that belongs to a GPU is opened itself; any other local device
    /// has the device of the settings opened, unless that one likely came about
    /// by default: it then gives way to the device closest to the first NUMA
    /// node, where there is one.
    pub proof fn devices_of_gpus_are_opened_themselves(self, self_device: Seq<char>, address: Seq<char>, hw: Hardware)
        ensures
            self.pci_to_device@.dom().contains(address) && self.pci_to_device@[address].name@ == self_device
                ==> self.device_to_open(self_device, hw) == self_device,
            (forall|a: Seq<char>| #[trigger]
                self.pci_to_device@.dom().contains(a) ==> self.pci_to_device@[a].name@ != self_device) ==> {
                &&& is_likely_default(self.config.device.name@, hw.devices@) && selected("cpu:0"@, hw) is Some
                    ==> self.device_to_open(self_device, hw) == hw.devices@[selected("cpu:0"@, hw)->0].name@
                &&& !is_likely_default(self.config.device.name@, hw.devices@) || selected("cpu:0"@, hw) is None
                    ==> self.device_to_open(self_device, hw) == self.config.device.name@
            },
    {
    }
}

/// What to connect a queue pair with failed.
pub open spec fn connect_error_text(e: LookupError, peer: PeerModel) -> Seq<char> {
    match e {
        LookupError::NoConnection => "No connection found for actor "@ + peer.other,
        LookupError::NoDeviceMap => "No device map found for device "@ + peer.self_device,
    }
}

/// Why the connection information of a queue pair could not be had.
pub open spec fn info_error_text(e: LookupError, peer: PeerModel) -> Seq<char> {
    match e {
        LookupError::NoConnection => "No connection found for actor "@ + peer.other,
        LookupError::NoDeviceMap => "No device map found for self device "@ + peer.self_device,
    }
}

/// Why the state of a queue pair could not be had.
pub open spec fn state_error_text(e: LookupError, peer: PeerModel) -> Seq<char> {
    match e {
        LookupError::NoConnection => "No connection found for actor "@ + peer.other + " on device "@
            + peer.other_device,
        LookupError::NoDeviceMap => "No device map found for self device "@ + peer.self_device,
    }
}

fn joined(a: &str, b: &str) -> (s: String)
    ensures
        s@ == a@ + b@,
{
    let mut s: String = a.to_owned();
    s.append(b);
    s
}

impl IbvManagerActor {
    /// The queue pair that is to be connected to an endpoint, or the error.
    pub fn connect(&self, peer: &Peer) -> (r: Result<RdmaQueuePair, String>)
        requires
            self.wf(),
        ensures
            match (r, self.found(peer@)) {
                (Ok(qp), Ok(found)) => qp == found,
                (Err(text), Err(e)) => text@ == connect_error_text(e, peer@),
                _ => false,
            },
    {
        match self.find_connection(peer) {
            Ok(qp) => Ok(qp),
            Err(LookupError::NoConnection) => Err(joined("No connection found for actor ", peer.other.as_str())),
            Err(LookupError::NoDeviceMap) => Err(
                joined("No device map found for device ", peer.self_device.as_str()),
            ),
        }
    }

    /// What is made of an error of connecting.
    pub fn connect_failed(cause: &str) -> (s: String)
        ensures
            s@ == "could not connect to RDMA endpoint: "@ + cause@,
    {
        joined("could not connect to RDMA endpoint: ", cause)
    }

    /// The queue pair whose connection information is asked for, or the error.
    pub fn connection_info(&self, peer: &Peer) -> (r: Result<RdmaQueuePair, String>)
        requires
            self.wf(),
        ensures
            match (r, self.found(peer@)) {
                (Ok(qp), Ok(found)) => qp == found,
                (Err(text), Err(e)) => text@ == info_error_text(e, peer@),
                _ => false,
            },
    {
        match self.find_connection(peer) {
            Ok(qp) => Ok(qp),
            Err(LookupError::NoConnection) => Err(joined("No connection found for actor ", peer.other.as_str())),
            Err(LookupError::NoDeviceMap) => Err(
                joined("No device map found for self device ", peer.self_device.as_str()),
            ),
        }
    }

    /// The queue pair whose state is asked for, or the error.
    pub fn get_qp_state(&self, peer: &Peer) -> (r: Result<RdmaQueuePair, String>)
        requires
            self.wf(),
        ensures
            match (r, self.found(peer@)) {
                (Ok(qp), Ok(found)) => qp == found,
                (Err(text), Err(e)) => text@ == state_error_text(e, peer@),
                _ => false,
            },
    {
        match self.find_connection(peer) {
            Ok(qp) => Ok(qp),
            Err(LookupError::NoConnection) => {
                let mut s: String = joined("No connection found for actor ", peer.other.as_str());
                s.append(" on device ");
                s.append(peer.other_device.as_str());
                Err(s)
            },
            Err(LookupError::NoDeviceMap) => Err(
                joined("No device map found for self device ", peer.self_device.as_str()),
            ),
        }
    }
}

/// Why a request for a queue pair failed.
pub enum QpError {
    /// Another request creates the queue pair and has not come to an end in time.
    Timeout,
    /// A step failed, with that error.
    Step(String),
    /// The other side is in that state in place of being ready to send.
    NotReady(u32),
    /// The queue pair is gone after all.
    Lost(LookupError),
}

/// How a `QpError` is written.
pub open spec fn qp_error_text(e: QpError, peer: PeerModel) -> Seq<char> {
    match e {
        QpError::Timeout => "Timeout waiting for QP creation (device "@ + peer.self_device + " -> actor "@ + peer.other
            + " device "@ + peer.other_device
            + "). Another task is creating it but hasn't completed in 1 second"@,
        QpError::Step(error) => error@,
        QpError::NotReady(state) =>
        "Remote QP not in RTS state after connection setup. Local is ready but remote is in state "@ + decimal(
            state as nat,
        ) + ". This indicates a synchronization issue in connection setup."@,
        QpError::Lost(LookupError::NoConnection) => "Failed to create connection for actor "@ + peer.other
            + " on device "@ + peer.other_device,
        QpError::Lost(LookupError::NoDeviceMap) => "Failed to create connection for actor "@ + peer.other
            + " on device "@ + peer.other_device + " - no device map"@,
    }
}

impl QpError {
    /// The error of that connection, written for a reader.
    pub fn text(&self, peer: &Peer) -> (s: String)
        ensures
            s@ == qp_error_text(*self, peer@),
    {
        match self {
            QpError::Timeout => {
                let mut s: String = joined("Timeout waiting for QP creation (device ", peer.self_device.as_str());
                s.append(" -> actor ");
                s.append(peer.other.as_str());
                s.append(" device ");
                s.append(peer.other_device.as_str());
                s.append("). Another task is creating it but hasn't completed in 1 second");
                s
            },
            QpError::Step(error) => error.clone(),
            QpError::NotReady(state) => {
                let mut s: String = joined(
                    "Remote QP not in RTS state after connection setup. Local is ready but remote is in state ",
                    format_decimal(*state as u64).as_str(),
                );
                s.append(". This indicates a synchronization issue in connection setup.");
                s
            },
            QpError::Lost(lost) => {
                let mut s: String = joined("Failed to create connection for actor ", peer.other.as_str());
                s.append(" on device ");
                s.append(peer.other_device.as_str());
                match lost {
                    LookupError::NoConnection => {},
                    LookupError::NoDeviceMap => {
                        s.append(" - no device map");
                    },
                }
                s
            },
        }
    }
}

/// What is to be done next for a request for a queue pair. The local side is
/// this manager, the remote side the other; each step names the connection as
/// the side that does it sees it.
pub enum QpStage {
    /// Another request creates the queue pair: wait for so long, in nanoseconds.
    Wait { pause_nanos: u128 },
    /// Create the local queue pair.
    InitLocal,
    /// Create the remote queue pair.
    InitRemote,
    /// Ask the remote side how to connect to its queue pair.
    InfoRemote,
    /// Connect the local queue pair to the remote endpoint.
    ConnectLocal { endpoint: IbvQpInfo },
    /// Ask how to connect to the local queue pair.
    InfoLocal,
    /// Connect the remote queue pair to the local endpoint.
    ConnectRemote { endpoint: IbvQpInfo },
    /// Ask for the state of the remote queue pair.
    StateRemote,
    /// Ask how to connect to the local queue pair, to connect it to itself.
    InfoLoopback,
    /// Connect the local queue pair to itself.
    ConnectLoopback { endpoint: IbvQpInfo },
    /// There is a queue pair.
    Done(RdmaQueuePair),
    /// There is none to be had.
    Failed(QpError),
}

/// What came of a stage.
pub enum QpAnswer {
    /// How long the request has waited, in nanoseconds.
    Waited(u128),
    Initialized(Result<bool, String>),
    Info(Result<IbvQpInfo, String>),
    Connected(Result<(), String>),
    State(Result<u32, String>),
}

impl QpStage {
    /// Whether the request creates the queue pair, and is not done with it.
    pub open spec fn is_creating(self) -> bool {
        !(self is Wait || self is Done || self is Failed)
    }

    /// Whether the step is one of the manager at the other end.
    pub open spec fn at_other_end(self) -> bool {
        self is InitRemote || self is InfoRemote || self is ConnectRemote || self is StateRemote
    }

    /// The connection, as the manager sees it that does the step.
    pub fn peer_of_step(&self, peer: &Peer, self_id: &str) -> (p: Peer)
        ensures
            p@ == (if self.at_other_end() {
                mirrored(peer@, self_id@)
            } else {
                peer@
            }),
    {
        match self {
            QpStage::InitRemote => peer.mirrored(self_id),
            QpStage::InfoRemote => peer.mirrored(self_id),
            QpStage::ConnectRemote { .. } => peer.mirrored(self_id),
            QpStage::StateRemote => peer.mirrored(self_id),
            _ => peer.clone(),
        }
    }
}

/// Whether the two ends of a connection are the same device of the same manager.
pub open spec fn is_loopback(peer: PeerModel, self_id: Seq<char>) -> bool {
    peer.other == self_id && peer.self_device == peer.other_device
}

impl IbvManagerActor {
    /// How a request ends whose steps are all done.
    pub open spec fn qp_outcome(self, peer: PeerModel) -> QpStage {
        match self.found(peer) {
            Ok(qp) => QpStage::Done(qp),
            Err(e) => QpStage::Failed(QpError::Lost(e)),
        }
    }

    /// The stage at which a request begins.
    pub open spec fn first_qp_stage(self, peer: PeerModel) -> QpStage {
        if self.device_qps@.dom().contains(peer) {
            QpStage::Done(self.device_qps@[peer])
        } else if self.pending_qp_creation@.dom().contains(peer) {
            QpStage::Wait { pause_nanos: QP_PAUSE_NANOS }
        } else {
            QpStage::InitLocal
        }
    }

    /// The stage that follows; an answer to something else changes nothing.
    pub open spec fn next_qp_stage(self, peer: PeerModel, self_id: Seq<char>, stage: QpStage, answer: QpAnswer) -> QpStage {
        match (stage, answer) {
            (QpStage::Wait { .. }, QpAnswer::Waited(nanos)) => if self.device_qps@.dom().contains(peer) {
                QpStage::Done(self.device_qps@[peer])
            } else if nanos >= QP_WAIT_NANOS {
                QpStage::Failed(QpError::Timeout)
            } else {
                QpStage::Wait { pause_nanos: QP_PAUSE_NANOS }
            },
            (QpStage::InitLocal, QpAnswer::Initialized(r)) => match r {
                Ok(_) => if is_loopback(peer, self_id) {
                    QpStage::InfoLoopback
                } else {
                    QpStage::InitRemote
                },
                Err(e) => QpStage::Failed(QpError::Step(e)),
            },
            (QpStage::InfoLoopback, QpAnswer::Info(r)) => match r {
                Ok(endpoint) => QpStage::ConnectLoopback { endpoint },
                Err(e) => QpStage::Failed(QpError::Step(e)),
            },
            (QpStage::ConnectLoopback { .. }, QpAnswer::Connected(r)) => match r {
                Ok(_) => self.qp_outcome(peer),
                Err(e) => QpStage::Failed(QpError::Step(e)),
            },
            (QpStage::InitRemote, QpAnswer::Initialized(r)) => match r {
                Ok(_) => QpStage::InfoRemote,
                Err(e) => QpStage::Failed(QpError::Step(e)),
            },
            (QpStage::InfoRemote, QpAnswer::Info(r)) => match r {
                Ok(endpoint) => QpStage::ConnectLocal { endpoint },
                Err(e) => QpStage::Failed(QpError::Step(e)),
            },
            (QpStage::ConnectLocal { .. }, QpAnswer::Connected(r)) => match r {
                Ok(_) => QpStage::InfoLocal,
                Err(e) => QpStage::Failed(QpError::Step(e)),
            },
            (QpStage::InfoLocal, QpAnswer::Info(r)) => match r {
                Ok(endpoint) => QpStage::ConnectRemote { endpoint },
                Err(e) => QpStage::Failed(QpError::Step(e)),
            },
            (QpStage::ConnectRemote { .. }, QpAnswer::Connected(r)) => match r {
                Ok(_) => QpStage::StateRemote,
                Err(e) => QpStage::Failed(QpError::Step(e)),
            },
            (QpStage::StateRemote, QpAnswer::State(r)) => match r {
                Ok(state) => if state == IBV_QPS_RTS {
                    self.qp_outcome(peer)
                } else {
                    QpStage::Failed(QpError::NotReady(state))
                },
                Err(e) => QpStage::Failed(QpError::Step(e)),
            },
            (stage, _) => stage,
        }
    }

    /// The connections whose queue pairs are being created, after a stage.
    pub open spec fn pending_after(self, peer: PeerModel, stage: QpStage, next: QpStage) -> Map<PeerModel, bool> {
        if stage.is_creating() && !next.is_creating() {
            self.pending_qp_creation@.remove(peer)
        } else {
            self.pending_qp_creation@
        }
    }

    /// However a request that creates a queue pair ends, the connection is free
    /// for others to create it; while it goes on, and while one only waits, it
    /// stays taken. Other connections are left alone.
    pub proof fn a_request_that_ends_frees_its_connection(
        self,
        peer: PeerModel,
        self_id: Seq<char>,
        stage: QpStage,
        answer: QpAnswer,
        other: PeerModel,
    )
        ensures
            ({
                let next = self.next_qp_stage(peer, self_id, stage, answer);
                let after = self.pending_after(peer, stage, next);
                &&& stage.is_creating() && (next is Done || next is Failed) ==> !after.dom().contains(peer)
                &&& stage.is_creating() && !(next is Done || next is Failed) ==> after == self.pending_qp_creation@
                &&& !stage.is_creating() ==> after == self.pending_qp_creation@
                &&& other != peer ==> (after.dom().contains(other) <==> self.pending_qp_creation@.dom().contains(other))
                &&& stage is Wait || stage is Done || stage is Failed <==> !stage.is_creating()
            }),
    {
    }

    /// The connections whose queue pairs are being created, after a request.
    pub open spec fn pending_after_request(self, peer: PeerModel) -> Map<PeerModel, bool> {
        if self.first_qp_stage(peer) is InitLocal {
            self.pending_qp_creation@.insert(peer, true)
        } else {
            self.pending_qp_creation@
        }
    }

    /// Of two requests for the same connection, one after the other, at most one
    /// creates the queue pair: the second waits for the first. Requests for other
    /// connections are not held up.
    pub proof fn the_second_request_waits(self, after: IbvManagerActor, peer: PeerModel, other: PeerModel)
        requires
            after.device_qps == self.device_qps,
            after.pending_qp_creation@ == self.pending_after_request(peer),
        ensures
            self.first_qp_stage(peer).is_creating() ==> after.first_qp_stage(peer) is Wait,
            self.first_qp_stage(peer) is Wait ==> after.first_qp_stage(peer) is Wait,
            other != peer ==> after.first_qp_stage(other) == self.first_qp_stage(other),
    {
    }

    /// Begins a request for the queue pair of a connection. Only one request at
    /// a time creates it: the others wait.
    pub fn request_queue_pair(&mut self, peer: &Peer) -> (stage: QpStage)
        requires
            old(self).wf(),
        ensures
            final(self).wf(),
            final(self).same_settings(*old(self)),
            final(self).device_qps == old(self).device_qps,
            final(self).device_domains == old(self).device_domains,
            final(self).mr_map == old(self).mr_map,
            final(self).mrv_id == old(self).mrv_id,
            stage == old(self).first_qp_stage(peer@),
            final(self).pending_qp_creation@ == old(self).pending_after_request(peer@),
            !(stage is InitLocal) ==> final(self).pending_qp_creation == old(self).pending_qp_creation,
    {
        if let Some(qp) = self.device_qps.get(peer) {
            return QpStage::Done(*qp);
        }
        if self.pending_qp_creation.contains(peer) {
            return QpStage::Wait { pause_nanos: QP_PAUSE_NANOS };
        }
        self.pending_qp_creation.add(peer.clone(), true);
        QpStage::InitLocal
    }

    /// Goes on with a request. A request that creates the queue pair lets the
    /// others go on once it is done, however it ends.
    pub fn continue_queue_pair(&mut self, peer: &Peer, self_id: &String, stage: QpStage, answer: QpAnswer) -> (next:
        QpStage)
        requires
            old(self).wf(),
        ensures
            final(self).wf(),
            final(self).same_settings(*old(self)),
            final(self).device_qps == old(self).device_qps,
            final(self).device_domains == old(self).device_domains,
            final(self).mr_map == old(self).mr_map,
            final(self).mrv_id == old(self).mrv_id,
            next == old(self).next_qp_stage(peer@, self_id@, stage, answer),
            final(self).pending_qp_creation@ == old(self).pending_after(peer@, stage, next),
    {
        let creating: bool = match &stage {
            QpStage::Wait { .. } => false,
            QpStage::Done(_) => false,
            QpStage::Failed(_) => false,
            _ => true,
        };
        let next: QpStage = self.decide_qp(peer, self_id, stage, answer);
        let settled: bool = match &next {
            QpStage::Wait { .. } => true,
            QpStage::Done(_) => true,
            QpStage::Failed(_) => true,
            _ => false,
        };
        if creating && settled {
            self.pending_qp_creation.remove(peer);
        }
        next
    }

    fn look_up_qp(&self, peer: &Peer) -> (stage: QpStage)
        requires
            self.wf(),
        ensures
            stage == self.qp_outcome(peer@),
    {
        match self.find_connection(peer) {
            Ok(qp) => QpStage::Done(qp),
            Err(e) => QpStage::Failed(QpError::Lost(e)),
        }
    }

    fn decide_qp(&self, peer: &Peer, self_id: &String, stage: QpStage, answer: QpAnswer) -> (next: QpStage)
        requires
            self.wf(),
        ensures
            next == self.next_qp_stage(peer@, self_id@, stage, answer),
    {
        match (stage, answer) {
            (QpStage::Wait { .. }, QpAnswer::Waited(nanos)) => match self.device_qps.get(peer) {
                Some(qp) => QpStage::Done(*qp),
                None => if nanos >= QP_WAIT_NANOS {
                    QpStage::Failed(QpError::Timeout)
                } else {
                    QpStage::Wait { pause_nanos: QP_PAUSE_NANOS }
                },
            },
            (QpStage::InitLocal, QpAnswer::Initialized(r)) => match r {
                Ok(_) => if same(peer.other.as_str(), self_id.as_str()) && same(
                    peer.self_device.as_str(),
                    peer.other_device.as_str(),
                ) {
                    QpStage::InfoLoopback
                } else {
                    QpStage::InitRemote
                },
                Err(e) => QpStage::Failed(QpError::Step(e)),
            },
            (QpStage::InfoLoopback, QpAnswer::Info(r)) => match r {
                Ok(endpoint) => QpStage::ConnectLoopback { endpoint },
                Err(e) => QpStage::Failed(QpError::Step(e)),
            },
            (QpStage::ConnectLoopback { .. }, QpAnswer::Connected(r)) => match r {
                Ok(_) => self.look_up_qp(peer),
                Err(e) => QpStage::Failed(QpError::Step(e)),
            },
            (QpStage::InitRemote, QpAnswer::Initialized(r)) => match r {
                Ok(_) => QpStage::InfoRemote,
                Err(e) => QpStage::Failed(QpError::Step(e)),
            },
            (QpStage::InfoRemote, QpAnswer::Info(r)) => match r {
                Ok(endpoint) => QpStage::ConnectLocal { endpoint },
                Err(e) => QpStage::Failed(QpError::Step(e)),
            },
            (QpStage::ConnectLocal { .. }, QpAnswer::Connected(r)) => match r {
                Ok(_) => QpStage::InfoLocal,
                Err(e) => QpStage::Failed(QpError::Step(e)),
            },
            (QpStage::InfoLocal, QpAnswer::Info(r)) => match r {
                Ok(endpoint) => QpStage::ConnectRemote { endpoint },
                Err(e) => QpStage::Failed(QpError::Step(e)),
            },
            (QpStage::ConnectRemote { .. }, QpAnswer::Connected(r)) => match r {
                Ok(_) => QpStage::StateRemote,
                Err(e) => QpStage::Failed(QpError::Step(e)),
            },
            (QpStage::StateRemote, QpAnswer::State(r)) => match r {
                Ok(state) => if state == IBV_QPS_RTS {
                    self.look_up_qp(peer)
                } else {
                    QpStage::Failed(QpError::NotReady(state))
                },
                Err(e) => QpStage::Failed(QpError::Step(e)),
            },
            (stage, _) => stage,
        }
    }

    /// A remote connection is handed out only where the other side was found
    /// ready to send, and what is handed out is what is kept for the connection.
    pub proof fn handed_out_queue_pair_is_ready(self, peer: PeerModel, self_id: Seq<char>, stage: QpStage, answer: QpAnswer)
        requires
            stage.is_creating(),
            self.next_qp_stage(peer, self_id, stage, answer) is Done,
        ensures
            self.device_qps@.dom().contains(peer),
            self.next_qp_stage(peer, self_id, stage, answer) == QpStage::Done(self.device_qps@[peer]),
            stage is ConnectLoopback && answer matches QpAnswer::Connected(Ok(_)) || stage is StateRemote && answer
                == QpAnswer::State(Ok(IBV_QPS_RTS)),
    {
    }

    /// While one request creates the queue pair of a connection, no other
    /// request for it does.
    pub proof fn one_request_creates(self, peer: PeerModel)
        requires
            self.pending_qp_creation@.dom().contains(peer),
        ensures
            !self.first_qp_stage(peer).is_creating(),
    {
    }
}

impl QpAnswer {
    /// Whether the answer is one to what the stage asks for.
    pub open spec fn is_to(self, stage: QpStage) -> bool {
        match self {
            QpAnswer::Waited(_) => stage is Wait,
            QpAnswer::Initialized(_) => stage is InitLocal || stage is InitRemote,
            QpAnswer::Info(_) => stage is InfoLocal || stage is InfoRemote || stage is InfoLoopback,
            QpAnswer::Connected(_) => stage is ConnectLocal || stage is ConnectRemote || stage is ConnectLoopback,
            QpAnswer::State(_) => stage is StateRemote,
        }
    }

    /// What went wrong with the step, if anything did.
    pub open spec fn error(self) -> Option<String> {
        match self {
            QpAnswer::Initialized(Err(e)) => Some(e),
            QpAnswer::Info(Err(e)) => Some(e),
            QpAnswer::Connected(Err(e)) => Some(e),
            QpAnswer::State(Err(e)) => Some(e),
            _ => None,
        }
    }
}

/// Whether a request goes through the stages, with an answer to each but the
/// last; each answer comes to the manager in the state it then has.
pub open spec fn is_qp_run(
    managers: Seq<IbvManagerActor>,
    peer: PeerModel,
    self_id: Seq<char>,
    stages: Seq<QpStage>,
    answers: Seq<QpAnswer>,
) -> bool {
    &&& stages.len() == answers.len() + 1
    &&& managers.len() == answers.len()
    &&& stages[0] is InitLocal
    &&& forall|i: int|
        0 <= i < answers.len() ==> #[trigger] stages[i + 1] == managers[i].next_qp_stage(
            peer,
            self_id,
            stages[i],
            answers[i],
        )
}

/// The place in a run at which a stage of a kind was left, for the stage at `n`
/// that is entered from no other.
proof fn lemma_entered_from(
    managers: Seq<IbvManagerActor>,
    peer: PeerModel,
    self_id: Seq<char>,
    stages: Seq<QpStage>,
    answers: Seq<QpAnswer>,
    n: int,
) -> (k: int)
    requires
        is_qp_run(managers, peer, self_id, stages, answers),
        0 <= n < stages.len(),
        stages[n] is StateRemote || stages[n] is ConnectRemote || stages[n] is InfoLocal || stages[n] is ConnectLocal
            || stages[n] is InfoRemote || stages[n] is InitRemote,
    ensures
        0 <= k < n,
        answers[k].error() is None,
        match stages[n] {
            QpStage::StateRemote => stages[k] is ConnectRemote && answers[k] is Connected,
            QpStage::ConnectRemote { endpoint } => stages[k] is InfoLocal && answers[k] == QpAnswer::Info(Ok(endpoint)),
            QpStage::InfoLocal => stages[k] is ConnectLocal && answers[k] is Connected,
            QpStage::ConnectLocal { endpoint } => stages[k] is InfoRemote && answers[k] == QpAnswer::Info(Ok(endpoint)),
            QpStage::InfoRemote => stages[k] is InitRemote && answers[k] is Initialized,
            _ => stages[k] is InitLocal && answers[k] is Initialized,
        },
    decreases n,
{
    assert(n > 0);
    assert(stages[(n - 1) + 1] == managers[n - 1].next_qp_stage(peer, self_id, stages[n - 1], answers[n - 1]));
    managers[n - 1].queue_pair_steps_come_in_order(peer, self_id, stages[n - 1], answers[n - 1]);
    if stages[n - 1] == stages[n] {
        lemma_entered_from(managers, peer, self_id, stages, answers, n - 1)
    } else {
        n - 1
    }
}

/// The state of the remote queue pair is asked for only once both sides are
/// connected, each to the endpoint that the other side told: the local one to
/// what the remote side said of itself, the remote one to what the local side
/// said of itself.
pub proof fn both_sides_are_connected(
    managers: Seq<IbvManagerActor>,
    peer: PeerModel,
    self_id: Seq<char>,
    stages: Seq<QpStage>,
    answers: Seq<QpAnswer>,
    n: int,
) -> (steps: (int, int, int, int))
    requires
        is_qp_run(managers, peer, self_id, stages, answers),
        0 <= n < stages.len(),
        stages[n] is StateRemote,
    ensures
        ({
            let (told_remote, connected_local, told_local, connected_remote) = steps;
            &&& 0 <= told_remote < connected_local < told_local < connected_remote < n
            &&& stages[told_remote] is InfoRemote
            &&& stages[connected_local] matches QpStage::ConnectLocal { endpoint }
            &&& answers[told_remote] == QpAnswer::Info(Ok(endpoint))
            &&& answers[connected_local] matches QpAnswer::Connected(Ok(_))
        }),
        ({
            let (_, _, told_local, connected_remote) = steps;
            &&& stages[told_local] is InfoLocal
            &&& stages[connected_remote] matches QpStage::ConnectRemote { endpoint }
            &&& answers[told_local] == QpAnswer::Info(Ok(endpoint))
            &&& answers[connected_remote] matches QpAnswer::Connected(Ok(_))
        }),
{
    let d = lemma_entered_from(managers, peer, self_id, stages, answers, n);
    let c = lemma_entered_from(managers, peer, self_id, stages, answers, d);
    let b = lemma_entered_from(managers, peer, self_id, stages, answers, c);
    let a = lemma_entered_from(managers, peer, self_id, stages, answers, b);
    (a, b, c, d)
}

impl IbvManagerActor {
    /// An endpoint that one side told is handed to the other side, and each step
    /// of setting up a queue pair comes only after the one before it went well.
    pub proof fn queue_pair_steps_come_in_order(
        self,
        peer: PeerModel,
        self_id: Seq<char>,
        stage: QpStage,
        answer: QpAnswer,
    )
        ensures
            ({
                let next = self.next_qp_stage(peer, self_id, stage, answer);
                next != stage ==> answer.is_to(stage) && match next {
                    QpStage::ConnectLocal { endpoint } => stage is InfoRemote && answer == QpAnswer::Info(Ok(endpoint)),
                    QpStage::ConnectRemote { endpoint } => stage is InfoLocal && answer == QpAnswer::Info(Ok(endpoint)),
                    QpStage::ConnectLoopback { endpoint } => stage is InfoLoopback && answer == QpAnswer::Info(
                        Ok(endpoint),
                    ),
                    QpStage::InfoLocal => stage is ConnectLocal && answer.error() is None,
                    QpStage::StateRemote => stage is ConnectRemote && answer.error() is None,
                    QpStage::InfoRemote => stage is InitRemote && answer.error() is None,
                    QpStage::InitRemote => stage is InitLocal && answer.error() is None,
                    QpStage::InfoLoopback => stage is InitLocal && answer.error() is None,
                    QpStage::Done(_) => answer.error() is None && (stage is Wait || stage is StateRemote
                        || stage is ConnectLoopback),
                    QpStage::Wait { .. } => stage is Wait,
                    QpStage::InitLocal => false,
                    QpStage::Failed(_) => true,
                }
            }),
    {
    }

    /// A step that was answered is not asked for again, and an answer to
    /// something else changes nothing.
    pub proof fn answered_steps_are_left(self, peer: PeerModel, self_id: Seq<char>, stage: QpStage, answer: QpAnswer)
        ensures
            ({
                let next = self.next_qp_stage(peer, self_id, stage, answer);
                &&& !answer.is_to(stage) ==> next == stage
                &&& answer.is_to(stage) && stage.is_creating() ==> next != stage
                &&& answer.is_to(stage) && answer.error() is Some ==> next == QpStage::Failed(
                    QpError::Step(answer.error()->0),
                )
            }),
    {
    }

    /// A request fails only for a cause, and tells it: a step that failed, a wait
    /// of a second, a remote queue pair in a state other than ready to send, or
    /// a queue pair that is gone.
    pub proof fn failed_requests_tell_the_cause(
        self,
        peer: PeerModel,
        self_id: Seq<char>,
        stage: QpStage,
        answer: QpAnswer,
    )
        requires
            !(stage is Failed),
        ensures
            self.next_qp_stage(peer, self_id, stage, answer) matches QpStage::Failed(e) ==> match e {
                QpError::Step(cause) => answer.error() == Some(cause),
                QpError::Timeout => !self.device_qps@.dom().contains(peer) && stage is Wait
                    && (answer matches QpAnswer::Waited(nanos) && nanos >= 1_000_000_000),
                QpError::NotReady(state) => stage is StateRemote && answer == QpAnswer::State(Ok(state)) && state != 3,
                QpError::Lost(e) => !self.device_qps@.dom().contains(peer) && (stage is StateRemote
                    || stage is ConnectLoopback) && (e is NoConnection <==> exists|other: PeerModel| #[trigger]
                    self.device_qps@.dom().contains(other) && other.self_device == peer.self_device),
            },
    {
    }

    /// A request that waits is served as soon as there is a queue pair, and
    /// given up after a second and not before.
    pub proof fn waiting_ends_within_a_second(self, peer: PeerModel, self_id: Seq<char>, stage: QpStage, nanos: u128)
        requires
            stage is Wait,
        ensures
            ({
                let next = self.next_qp_stage(peer, self_id, stage, QpAnswer::Waited(nanos));
                &&& self.device_qps@.dom().contains(peer) <==> next is Done
                &&& next matches QpStage::Done(qp) ==> qp == self.device_qps@[peer]
                &&& !self.device_qps@.dom().contains(peer) ==> (next is Failed <==> nanos >= 1_000_000_000)
                &&& next matches QpStage::Wait { pause_nanos } ==> 0 < pause_nanos <= 1_000_000
            }),
    {
    }

    /// A device of this manager is connected to itself, without the other side;
    /// any other connection has the other side create its queue pair too.
    pub proof fn only_a_device_and_itself_loop_back(
        self,
        peer: PeerModel,
        self_id: Seq<char>,
        stage: QpStage,
        answer: QpAnswer,
    )
        requires
            stage is InitLocal,
            answer matches QpAnswer::Initialized(Ok(_)),
        ensures
            self.next_qp_stage(peer, self_id, stage, answer) is InfoLoopback <==> (peer.other == self_id
                && peer.self_device == peer.other_device),
            self.next_qp_stage(peer, self_id, stage, answer) is InitRemote <==> !(peer.other == self_id
                && peer.self_device == peer.other_device),
    {
    }

    /// A request for a connection that has a queue pair gets that one at once;
    /// the first request for any other creates it.
    pub proof fn a_kept_queue_pair_is_given_out(self, peer: PeerModel)
        ensures
            self.first_qp_stage(peer) is Done <==> self.device_qps@.dom().contains(peer),
            self.first_qp_stage(peer) matches QpStage::Done(qp) ==> qp == self.device_qps@[peer],
            self.first_qp_stage(peer).is_creating() <==> !self.device_qps@.dom().contains(peer)
                && !self.pending_qp_creation@.dom().contains(peer),
            self.first_qp_stage(peer) is Failed ==> false,
    {
    }

    /// A connection is found where a queue pair is kept for it, and where none
    /// is, what is told apart is whether the device has any.
    pub proof fn found_is_what_is_kept(self, peer: PeerModel)
        ensures
            self.found(peer) is Ok <==> self.device_qps@.dom().contains(peer),
            self.found(peer) matches Ok(qp) ==> qp == self.device_qps@[peer],
            self.found(peer) matches Err(e) ==> (e is NoDeviceMap <==> forall|other: PeerModel| #[trigger]
                self.device_qps@.dom().contains(other) ==> other.self_device != peer.self_device),
    {
    }
}

/// The steps of one side are all done by the same manager: the remote queue
/// pair is made, asked and connected at the other end, the local one here.
pub proof fn each_side_does_its_own_steps(endpoint: IbvQpInfo)
    ensures
        QpStage::InitRemote.at_other_end(),
        QpStage::InfoRemote.at_other_end(),
        (QpStage::ConnectRemote { endpoint }).at_other_end(),
        QpStage::StateRemote.at_other_end(),
        !QpStage::InitLocal.at_other_end(),
        !QpStage::InfoLocal.at_other_end(),
        !(QpStage::ConnectLocal { endpoint }).at_other_end(),
        !QpStage::InfoLoopback.at_other_end(),
        !(QpStage::ConnectLoopback { endpoint }).at_other_end(),
{
}

/// A queue pair is created in the domain that was set up for it, a failure tells
/// its cause, and a domain that must go is the one that was opened.
pub proof fn queue_pairs_are_made_in_their_domain(stage: InitStage, answer: InitAnswer)
    ensures
        ({
            let next = next_init_stage(stage, answer);
            next != stage ==> (match next {
                InitStage::Create { domain } => (stage matches InitStage::Domain(s) && answer matches InitAnswer::Domain(
                    a,
                ) && next_domain_stage(s, a) matches DomainStage::Ready(entry) && entry.domain == domain),
                InitStage::Done => stage is Create && (answer matches InitAnswer::Created(Ok(_))),
                InitStage::Failed { error: InitError::QueuePair(cause), release } => stage is Create && answer
                    == InitAnswer::Created(Err(cause)) && release is None,
                InitStage::Failed { error: InitError::Domain(error), release } => (stage matches InitStage::Domain(s)
                    && answer matches InitAnswer::Domain(a) && next_domain_stage(s, a) == (DomainStage::Failed {
                    error,
                    release,
                })),
                InitStage::Domain(s) => stage is Domain && answer is Domain && !(s is Ready) && !(s is Failed),
            })
        }),
        stage is Create && answer is Created ==> next_init_stage(stage, answer) != stage,
        (stage, answer) matches (InitStage::Domain(s), InitAnswer::Domain(a)) ==> {
            let reached = next_domain_stage(s, a);
            let next = next_init_stage(stage, answer);
            &&& reached is Ready ==> next is Create
            &&& reached is Failed ==> next is Failed
            &&& !(reached is Ready) && !(reached is Failed) ==> next == InitStage::Domain(reached)
        },
{
}

/// What is to be done to tear a manager down, in order.
#[derive(Debug, Clone, Copy, PartialEq, Eq, Structural)]
pub enum Teardown {
    /// Destroy a queue pair.
    DestroyQp(RdmaQueuePair),
    /// Release a domain.
    ReleaseDomain(IbvDomain),
    /// Deregister the region with that handle.
    DeregisterMr(usize),
    /// Deregister the segments of GPU memory.
    DeregisterSegments,
}

/// Tearing down one queue pair: nothing where there is none behind its handle.
pub open spec fn qp_teardown(qp: RdmaQueuePair) -> Seq<Teardown> {
    if qp.qp != 0 {
        seq![Teardown::DestroyQp(qp)]
    } else {
        Seq::<Teardown>::empty()
    }
}

/// Tearing down a domain: first its loopback queue pair.
pub open spec fn domain_teardown(entry: DomainEntry) -> Seq<Teardown> {
    match entry.qp {
        Some(qp) => qp_teardown(qp).push(Teardown::ReleaseDomain(entry.domain)),
        None => seq![Teardown::ReleaseDomain(entry.domain)],
    }
}

/// Tearing down one region: nothing where it is managed elsewhere.
pub open spec fn mr_teardown(handle: usize) -> Seq<Teardown> {
    if handle != 0 {
        seq![Teardown::DeregisterMr(handle)]
    } else {
        Seq::<Teardown>::empty()
    }
}

/// Tearing down queue pairs, one after the other.
pub open spec fn qps_teardown(m: IbvManagerActor, keys: Seq<PeerModel>) -> Seq<Teardown>
    decreases keys.len(),
{
    if keys.len() == 0 {
        Seq::<Teardown>::empty()
    } else {
        qps_teardown(m, keys.drop_last()) + qp_teardown(m.device_qps@[keys.last()])
    }
}

/// Tearing down domains, one after the other.
pub open spec fn domains_teardown(m: IbvManagerActor, names: Seq<Seq<char>>) -> Seq<Teardown>
    decreases names.len(),
{
    if names.len() == 0 {
        Seq::<Teardown>::empty()
    } else {
        domains_teardown(m, names.drop_last()) + domain_teardown(m.device_domains@[names.last()])
    }
}

/// Tearing down regions, one after the other.
pub open spec fn mrs_teardown(m: IbvManagerActor, ids: Seq<usize>) -> Seq<Teardown>
    decreases ids.len(),
{
    if ids.len() == 0 {
        Seq::<Teardown>::empty()
    } else {
        mrs_teardown(m, ids.drop_last()) + mr_teardown(m.mr_map@[ids.last()])
    }
}

/// Whether identifiers are those of a map, each once.
pub open spec fn is_order_of(ids: Seq<usize>, m: Map<usize, usize>) -> bool {
    ids.no_duplicates() && ids.to_set() == m.dom()
}

impl IbvManagerActor {
    /// What is to be done to tear the manager down: queue pairs first, then
    /// domains with their loopback queue pairs, then memory regions, and the
    /// segments of GPU memory last. Queue pairs and domains come in the order in
    /// which they are kept, memory regions in any order, and each one is taken
    /// once.
    pub fn teardown(&self) -> (steps: Vec<Teardown>)
        requires
            self.wf(),
        ensures
            exists|ids: Seq<usize>| #[trigger] is_order_of(ids, self.mr_map@) && steps@ == qps_teardown(
                *self,
                self.device_qps.keys(),
            ) + domains_teardown(*self, self.device_domains.names()) + mrs_teardown(*self, ids) + (
            if self.mlx5dv_enabled {
                seq![Teardown::DeregisterSegments]
            } else {
                Seq::<Teardown>::empty()
            }),
            self.device_qps.keys().no_duplicates(),
            self.device_domains.names().no_duplicates(),
            forall|key: PeerModel| #[trigger]
                self.device_qps@.dom().contains(key) <==> self.device_qps.keys().contains(key),
            forall|name: Seq<char>| #[trigger]
                self.device_domains@.dom().contains(name) <==> self.device_domains.names().contains(name),
    {
        let mut steps: Vec<Teardown> = Vec::new();
        let ghost keys = self.device_qps.keys();
        let ghost names = self.device_domains.names();
        let ghost ids = vstd::std_specs::iter::IteratorSpec::remaining(&self.mr_map.keys()).unref();
        let mut i: usize = 0;
        assert(keys.take(0) =~= Seq::<PeerModel>::empty());
        while i < self.device_qps.len()
            invariant
                i <= keys.len(),
                self.wf(),
                keys == self.device_qps.keys(),
                steps@ == qps_teardown(*self, keys.take(i as int)),
            decreases keys.len() - i,
        {
            let qp: RdmaQueuePair = *self.device_qps.value_at(i);
            if qp.qp != 0 {
                steps.push(Teardown::DestroyQp(qp));
            }
            assert(keys.take(i + 1).drop_last() =~= keys.take(i as int));
            assert(steps@ =~= qps_teardown(*self, keys.take(i + 1)));
            i = i + 1;
        }
        assert(keys.take(keys.len() as int) =~= keys);
        let ghost first = steps@;
        let mut j: usize = 0;
        assert(names.take(0) =~= Seq::<Seq<char>>::empty());
        assert(steps@ =~= first + domains_teardown(*self, names.take(0)));
        while j < self.device_domains.len()
            invariant
                j <= names.len(),
                self.wf(),
                names == self.device_domains.names(),
                steps@ == first + domains_teardown(*self, names.take(j as int)),
            decreases names.len() - j,
        {
            let entry: DomainEntry = *self.device_domains.value_at(j);
            if let Some(qp) = entry.qp {
                if qp.qp != 0 {
                    steps.push(Teardown::DestroyQp(qp));
                }
            }
            steps.push(Teardown::ReleaseDomain(entry.domain));
            assert(names.take(j + 1).drop_last() =~= names.take(j as int));
            assert(steps@ =~= first + domains_teardown(*self, names.take(j + 1)));
            j = j + 1;
        }
        assert(names.take(names.len() as int) =~= names);
        let ghost second = steps@;
        assert(ids.take(0) =~= Seq::<usize>::empty());
        assert(steps@ =~= second + mrs_teardown(*self, ids.take(0)));
        for id in it: self.mr_map.keys()
            invariant
                ids == it.seq().unref(),
                ids.to_set() == self.mr_map@.dom(),
                steps@ == second + mrs_teardown(*self, ids.take(it.index())),
        {
            assert(ids[it.index()] == *id);
            assert(ids.to_set().contains(*id));
            if let Some(handle) = self.mr_map.get(id) {
                if *handle != 0 {
                    steps.push(Teardown::DeregisterMr(*handle));
                }
            }
            assert(ids.take(it.index() + 1).drop_last() =~= ids.take(it.index()));
            assert(steps@ =~= second + mrs_teardown(*self, ids.take(it.index() + 1)));
        }
        assert(ids.take(ids.len() as int) =~= ids);
        if self.mlx5dv_enabled {
            steps.push(Teardown::DeregisterSegments);
        }
        proof {
            self.device_qps.lemma_keys();
            self.device_domains.lemma_names();
            assert(is_order_of(ids, self.mr_map@));
        }
        steps
    }
}

/// Tearing queue pairs down destroys each that there is, and does nothing else.
pub proof fn every_queue_pair_is_destroyed(m: IbvManagerActor, keys: Seq<PeerModel>)
    ensures
        forall|i: int|
            0 <= i < keys.len() && m.device_qps@[#[trigger] keys[i]].qp != 0 ==> qps_teardown(m, keys).contains(
                Teardown::DestroyQp(m.device_qps@[keys[i]]),
            ),
        forall|j: int|
            0 <= j < qps_teardown(m, keys).len() ==> (#[trigger] qps_teardown(m, keys)[j] matches Teardown::DestroyQp(qp)
                && qp.qp != 0 && exists|i: int| 0 <= i < keys.len() && m.device_qps@[#[trigger] keys[i]] == qp),
    decreases keys.len(),
{
    if keys.len() > 0 {
        let before = qps_teardown(m, keys.drop_last());
        let last = qp_teardown(m.device_qps@[keys.last()]);
        let all = qps_teardown(m, keys);
        every_queue_pair_is_destroyed(m, keys.drop_last());
        assert(all == before + last);
        assert forall|i: int| 0 <= i < keys.len() && m.device_qps@[#[trigger] keys[i]].qp != 0 implies all.contains(
            Teardown::DestroyQp(m.device_qps@[keys[i]]),
        ) by {
            let step = Teardown::DestroyQp(m.device_qps@[keys[i]]);
            if i < keys.len() - 1 {
                assert(keys.drop_last()[i] == keys[i]);
                let k = choose|k: int| 0 <= k < before.len() && before[k] == step;
                assert(all[k] == step);
            } else {
                assert(last[0] == step);
                assert(all[before.len() as int] == step);
            }
        }
        assert forall|j: int| 0 <= j < all.len() implies (#[trigger] all[j] matches Teardown::DestroyQp(qp) && qp.qp != 0
            && exists|i: int| 0 <= i < keys.len() && m.device_qps@[#[trigger] keys[i]] == qp) by {
            if j < before.len() {
                assert(before[j] == all[j]);
                let qp = before[j]->DestroyQp_0;
                let i = choose|i: int|
                    0 <= i < keys.drop_last().len() && m.device_qps@[#[trigger] keys.drop_last()[i]] == qp;
                assert(m.device_qps@[keys[i]] == qp);
            } else {
                assert(all[j] == last[j - before.len()]);
                assert(m.device_qps@[keys[keys.len() - 1]] == all[j]->DestroyQp_0);
            }
        }
    }
}

/// Tearing domains down releases each of them, once the queue pair that loops
/// back in it is destroyed.
pub proof fn every_domain_is_released_after_its_queue_pair(m: IbvManagerActor, names: Seq<Seq<char>>, i: int) -> (places:
    (int, int))
    requires
        0 <= i < names.len(),
    ensures
        ({
            let steps = domains_teardown(m, names);
            let entry = m.device_domains@[names[i]];
            &&& 0 <= places.1 < steps.len()
            &&& steps[places.1] == Teardown::ReleaseDomain(entry.domain)
            &&& entry.qp matches Some(qp) ==> qp.qp != 0 ==> 0 <= places.0 < places.1 && steps[places.0]
                == Teardown::DestroyQp(qp)
        }),
    decreases names.len(),
{
    let before = domains_teardown(m, names.drop_last());
    let last = domain_teardown(m.device_domains@[names.last()]);
    assert(domains_teardown(m, names) == before + last);
    if i < names.len() - 1 {
        assert(names.drop_last()[i] == names[i]);
        every_domain_is_released_after_its_queue_pair(m, names.drop_last(), i)
    } else {
        let at = before.len() + last.len() - 1;
        assert((before + last)[at] == last[last.len() - 1]);
        if last.len() > 1 {
            assert((before + last)[before.len() as int] == last[0]);
        }
        (before.len() as int, at)
    }
}

/// Tearing domains down touches no domain and no queue pair but theirs.
pub proof fn only_kept_domains_are_released(m: IbvManagerActor, names: Seq<Seq<char>>, j: int) -> (i: int)
    requires
        0 <= j < domains_teardown(m, names).len(),
    ensures
        0 <= i < names.len(),
        match domains_teardown(m, names)[j] {
            Teardown::ReleaseDomain(domain) => domain == m.device_domains@[names[i]].domain,
            Teardown::DestroyQp(qp) => qp.qp != 0 && m.device_domains@[names[i]].qp == Some(qp),
            _ => false,
        },
    decreases names.len(),
{
    let before = domains_teardown(m, names.drop_last());
    let last = domain_teardown(m.device_domains@[names.last()]);
    assert(domains_teardown(m, names) == before + last);
    if j < before.len() {
        let i = only_kept_domains_are_released(m, names.drop_last(), j);
        assert(names.drop_last()[i] == names[i]);
        i
    } else {
        assert((before + last)[j] == last[j - before.len()]);
        names.len() - 1
    }
}

/// Tearing regions down deregisters each that has a handle of its own, and
/// nothing else.
pub proof fn every_region_is_deregistered(m: IbvManagerActor, ids: Seq<usize>)
    ensures
        forall|i: int|
            0 <= i < ids.len() && m.mr_map@[#[trigger] ids[i]] != 0 ==> mrs_teardown(m, ids).contains(
                Teardown::DeregisterMr(m.mr_map@[ids[i]]),
            ),
        forall|j: int|
            0 <= j < mrs_teardown(m, ids).len() ==> (#[trigger] mrs_teardown(m, ids)[j] matches Teardown::DeregisterMr(
                handle,
            ) && handle != 0 && exists|i: int| 0 <= i < ids.len() && m.mr_map@[#[trigger] ids[i]] == handle),
    decreases ids.len(),
{
    if ids.len() > 0 {
        let before = mrs_teardown(m, ids.drop_last());
        let last = mr_teardown(m.mr_map@[ids.last()]);
        let all = mrs_teardown(m, ids);
        every_region_is_deregistered(m, ids.drop_last());
        assert(all == before + last);
        assert forall|i: int| 0 <= i < ids.len() && m.mr_map@[#[trigger] ids[i]] != 0 implies all.contains(
            Teardown::DeregisterMr(m.mr_map@[ids[i]]),
        ) by {
            let step = Teardown::DeregisterMr(m.mr_map@[ids[i]]);
            if i < ids.len() - 1 {
                assert(ids.drop_last()[i] == ids[i]);
                let k = choose|k: int| 0 <= k < before.len() && before[k] == step;
                assert(all[k] == step);
            } else {
                assert(last[0] == step);
                assert(all[before.len() as int] == step);
            }
        }
        assert forall|j: int| 0 <= j < all.len() implies (#[trigger] all[j] matches Teardown::DeregisterMr(handle)
            && handle != 0 && exists|i: int| 0 <= i < ids.len() && m.mr_map@[#[trigger] ids[i]] == handle) by {
            if j < before.len() {
                assert(before[j] == all[j]);
                let handle = before[j]->DeregisterMr_0;
                let i = choose|i: int|
                    0 <= i < ids.drop_last().len() && m.mr_map@[#[trigger] ids.drop_last()[i]] == handle;
                assert(m.mr_map@[ids[i]] == handle);
            } else {
                assert(all[j] == last[j - before.len()]);
                assert(m.mr_map@[ids[ids.len() - 1]] == all[j]->DeregisterMr_0);
            }
        }
    }
}

/// A backend of an RDMA manager: made, then spawned once.
#[derive(Debug)]
pub enum RdmaBackendActor<A, H> {
    Uninit,
    Created(A),
    Spawned(H),
}

impl<A, H> RdmaBackendActor<A, H> {
    /// Takes the made backend out, to spawn it. It must not have been taken yet.
    pub fn spawn(&mut self) -> (actor: A)
        requires
            *old(self) is Created,
        ensures
            *old(self) == RdmaBackendActor::<A, H>::Created(actor),
            *final(self) == RdmaBackendActor::<A, H>::Uninit,
    {
        let mut taken: RdmaBackendActor<A, H> = RdmaBackendActor::Uninit;
        std::mem::swap(&mut taken, self);
        match taken {
            RdmaBackendActor::Created(actor) => actor,
            _ => {
                assert(false);
                vstd::pervasive::unreached()
            },
        }
    }

    /// Keeps what came of spawning the backend that was taken out: the handle, if
    /// it was spawned.
    pub fn spawned<E>(&mut self, handle: Result<H, E>) -> (r: Result<(), E>)
        requires
            *old(self) is Uninit,
        ensures
            match handle {
                Ok(h) => r is Ok && *final(self) == RdmaBackendActor::<A, H>::Spawned(h),
                Err(e) => r == Err::<(), E>(e) && *final(self) == *old(self),
            },
    {
        match handle {
            Ok(h) => {
                *self = RdmaBackendActor::Spawned(h);
                Ok(())
            },
            Err(e) => Err(e),
        }
    }

    /// The handle of the backend. It must have been spawned.
    pub fn handle(&self) -> (h: &H)
        requires
            self is Spawned,
        ensures
            *self == RdmaBackendActor::<A, H>::Spawned(*h),
    {
        match self {
            RdmaBackendActor::Spawned(h) => h,
            _ => {
                assert(false);
                vstd::pervasive::unreached()
            },
        }
    }
}

}
