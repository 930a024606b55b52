//! Meshes of hosts that are owned: their hosts are shut down with them.

use crate::channel::addr::ChannelAddr;
use crate::mesh::bootstrap::{Bootstrap, BootstrapCommand, ProcId};
use crate::mesh::host_ref::{host_line, host_models, ActorId, HostMeshModel, HostMeshRef, HostRef, MeshRefError};
use crate::mesh::region::{axes_count, axes_room, extent_of, row_major, AxisModel, Extent, Region, RegionModel};
use crate::numerals::decimal;
use crate::text::same;
use vstd::prelude::*;

verus! {

/// Where the hosts of a mesh come from.
#[derive(Debug, Clone, Copy, PartialEq, Eq, Structural)]
pub enum HostMeshAllocation {
    /// They run on the procs of a mesh of procs, which is stopped with them.
    ProcMesh,
    /// They were there, and were taken over.
    Owned,
}

/// A mesh of hosts that is owned: its hosts are shut down with it.
pub struct HostMesh {
    name: String,
    extent: Extent,
    allocation: HostMeshAllocation,
    current_ref: HostMeshRef,
}

/// Why a host that an allocation gave cannot be used.
#[derive(Debug)]
pub struct HostMeshAgentConfigurationError {
    pub agent: ActorId,
    pub reason: String,
}

/// The agent that the host at an address has, as text.
pub open spec fn agent_text_at(host: HostRef) -> Seq<char> {
    (crate::channel::addr::addr_text(host@).push(',') + "service"@).push(',') + "agent"@.push('[') + decimal(0) + "]"@
}

/// Whether an actor is the agent of the host at its own address.
pub open spec fn is_host_agent(id: ActorId) -> bool {
    id.proc_id matches ProcId::Direct(addr, name) && HostRef(addr).is_agent(id)
}

/// Whether an error says why an actor is not the agent of a host.
pub open spec fn is_agent_refusal(agent: ActorId, e: HostMeshAgentConfigurationError) -> bool {
    &&& e.agent == agent
    &&& e.reason@ == (match agent.proc_id {
        ProcId::Direct(addr, _) => "expected mesh agent actor id to be "@ + agent_text_at(HostRef(addr)),
        ProcId::Ranked(..) => "host mesh agent must be a direct actor"@,
    })
}

/// The host of an agent that an allocation gave. It must be at an address, and
/// be the agent that the host at that address has.
pub fn host_of_agent(agent: ActorId) -> (r: Result<HostRef, HostMeshAgentConfigurationError>)
    ensures
        r is Ok <==> is_host_agent(agent),
        match r {
            Ok(host) => agent.proc_id matches ProcId::Direct(addr, _) && host == HostRef(addr),
            Err(e) => is_agent_refusal(agent, e),
        },
{
    let host: HostRef = match &agent.proc_id {
        ProcId::Direct(addr, _) => HostRef(addr.clone()),
        ProcId::Ranked(..) => {
            return Err(
                HostMeshAgentConfigurationError {
                    agent,
                    reason: "host mesh agent must be a direct actor".to_owned(),
                },
            );
        },
    };
    let expected: ActorId = host.mesh_agent();
    let is_expected: bool = match (&agent.proc_id, &expected.proc_id) {
        (ProcId::Direct(_, name), ProcId::Direct(_, service)) => same(name.as_str(), service.as_str()) && same(
            agent.name.as_str(),
            expected.name.as_str(),
        ) && agent.index == expected.index,
        _ => false,
    };
    if is_expected {
        return Ok(host);
    }
    let mut reason: String = "expected mesh agent actor id to be ".to_owned();
    let text: String = expected.display();
    assert(text@ =~= agent_text_at(host));
    reason.append(text.as_str());
    Err(HostMeshAgentConfigurationError { agent, reason })
}

impl HostMesh {
    /// The mesh, as a reference to it.
    pub closed spec fn current(self) -> HostMeshRef {
        self.current_ref
    }

    /// Where the hosts come from.
    pub closed spec fn source(self) -> HostMeshAllocation {
        self.allocation
    }

    /// The dimensions of the mesh.
    pub closed spec fn dims(self) -> Seq<AxisModel> {
        self.extent@
    }

    pub closed spec fn wf(self) -> bool {
        self.current_ref.wf() && self.name@ == self.current_ref@.name
    }

    /// Takes over the hosts of a mesh.
    pub fn take(mesh: HostMeshRef) -> (r: HostMesh)
        requires
            mesh.wf(),
        ensures
            r.wf(),
            r.current() == mesh,
            r.source() == HostMeshAllocation::Owned,
            r.dims() == extent_of(mesh@.region.dims),
    {
        HostMesh {
            name: mesh.name().clone(),
            extent: mesh.region().extent(),
            allocation: HostMeshAllocation::Owned,
            current_ref: mesh,
        }
    }

    /// The mesh of hosts that run on the procs of a mesh of procs.
    pub fn allocated(name: String, extent: Extent, hosts: Vec<HostRef>) -> (r: Option<HostMesh>)
        requires
            extent.fits(),
        ensures
            r is Some <==> axes_count(extent@) == hosts@.len(),
            r matches Some(mesh) ==> {
                &&& mesh.wf()
                &&& mesh.source() == HostMeshAllocation::ProcMesh
                &&& mesh.dims() == extent@
                &&& mesh.current()@ == (HostMeshModel {
                    name: name@,
                    region: RegionModel { offset: 0, dims: row_major(extent@) },
                    hosts: host_models(hosts@),
                })
                &&& mesh.current().hosts() == hosts@
            },
    {
        let region: Region = extent.region();
        match HostMeshRef::new(name.clone(), region, hosts) {
            Ok(current_ref) => Some(
                HostMesh { name, extent, allocation: HostMeshAllocation::ProcMesh, current_ref },
            ),
            Err(_) => None,
        }
    }

    /// The mesh of one host, at that address.
    pub fn local(name: String, addr: ChannelAddr) -> (r: HostMesh)
        ensures
            r.wf(),
            r.source() == HostMeshAllocation::Owned,
            r.current()@ == (HostMeshModel { name: name@, region: host_line(1), hosts: seq![addr@] }),
    {
        let mut hosts: Vec<ChannelAddr> = Vec::new();
        hosts.push(addr);
        let mesh = HostMesh::take(HostMeshRef::from_hosts(name, hosts));
        assert(mesh.current()@.hosts =~= seq![addr@]);
        mesh
    }

    /// The mesh of hosts that were started as processes, one for each rank of
    /// the dimensions, at those addresses.
    pub fn process(name: String, extent: Extent, hosts: Vec<HostRef>) -> (r: Result<HostMesh, MeshRefError>)
        requires
            extent.fits(),
        ensures
            if axes_count(extent@) == hosts@.len() {
                &&& r matches Ok(mesh)
                &&& mesh.wf()
                &&& mesh.source() == HostMeshAllocation::Owned
                &&& mesh.current()@ == (HostMeshModel {
                    name: name@,
                    region: RegionModel { offset: 0, dims: row_major(extent@) },
                    hosts: host_models(hosts@),
                })
            } else {
                &&& r matches Err(MeshRefError::InvalidRankCardinality { expected, actual })
                &&& expected == axes_count(extent@)
                &&& actual == hosts@.len()
            },
    {
        match HostMeshRef::new(name, extent.region(), hosts) {
            Ok(mesh) => Ok(HostMesh::take(mesh)),
            Err(e) => Err(e),
        }
    }

    /// The mesh, as a reference to it.
    pub fn current_ref(&self) -> (r: &HostMeshRef)
        ensures
            *r == self.current(),
    {
        &self.current_ref
    }

    /// The dimensions of the mesh.
    pub fn extent(&self) -> (r: &Extent)
        ensures
            r@ == self.dims(),
    {
        &self.extent
    }

    /// The name of where the hosts come from.
    pub fn allocation_label(&self) -> (s: String)
        ensures
            s@ == (match self.source() {
                HostMeshAllocation::ProcMesh => "proc_mesh"@,
                HostMeshAllocation::Owned => "owned"@,
            }),
    {
        match self.allocation {
            HostMeshAllocation::ProcMesh => "proc_mesh".to_owned(),
            HostMeshAllocation::Owned => "owned".to_owned(),
        }
    }

    fn hosts_done(&self, failed: Vec<usize>) -> (next: MeshShutdownStage)
        ensures
            is_after_hosts(*self, failed@, next),
    {
        match self.allocation {
            HostMeshAllocation::ProcMesh => MeshShutdownStage::StopProcs { failed },
            HostMeshAllocation::Owned => MeshShutdownStage::Done { failed },
        }
    }

    /// Begins to shut the hosts down, in the order of their ranks.
    pub fn shutdown(&self) -> (stage: MeshShutdownStage)
        ensures
            is_shutdown_after(*self, Seq::empty(), stage),
    {
        let failed: Vec<usize> = Vec::new();
        assert(failed@ =~= failures(Seq::<bool>::empty()));
        if self.current_ref.len() > 0 {
            MeshShutdownStage::Ask { rank: 0, failed }
        } else {
            self.hosts_done(failed)
        }
    }

    /// Goes on with shutting the hosts down. A host that fails keeps nothing
    /// else from being shut down.
    pub fn continue_shutdown(&self, stage: MeshShutdownStage, answer: MeshShutdownAnswer) -> (next: MeshShutdownStage)
        requires
            stage matches MeshShutdownStage::Ask { rank, .. } ==> rank < self.current().hosts().len(),
        ensures
            follows_shutdown(*self, stage, answer, next),
            next matches MeshShutdownStage::Ask { rank, .. } ==> rank < self.current().hosts().len(),
    {
        let count: usize = self.current_ref.len();
        match (stage, answer) {
            (MeshShutdownStage::Ask { rank, failed }, MeshShutdownAnswer::Answered(r)) => {
                let mut failed: Vec<usize> = failed;
                match r {
                    Ok(_) => {},
                    Err(_) => {
                        failed.push(rank);
                    },
                }
                if count - rank > 1 {
                    MeshShutdownStage::Ask { rank: rank + 1, failed }
                } else {
                    self.hosts_done(failed)
                }
            },
            (MeshShutdownStage::StopProcs { failed }, MeshShutdownAnswer::ProcsStopped(r)) => match r {
                Ok(_) => MeshShutdownStage::Done { failed },
                Err(reason) => MeshShutdownStage::Failed { failed, reason },
            },
            (stage, _) => stage,
        }
    }

    fn cleanup_from(&self, rank: usize, ok: usize, err: usize) -> (next: DropStage)
        requires
            rank <= self.current().hosts().len(),
        ensures
            next == asks_or_sums(*self, rank as int, ok, err),
    {
        if rank < self.current_ref.len() {
            DropStage::Ask { rank, ok, err }
        } else {
            DropStage::Done(DropSummary { attempted: self.current_ref.len(), ok, err })
        }
    }

    /// Begins to clean up after a mesh that is dropped. Nothing can be done
    /// where no runtime is there to do it.
    pub fn begin_drop(&self, has_runtime: bool) -> (stage: DropStage)
        ensures
            stage == first_drop_stage(has_runtime),
    {
        if has_runtime {
            DropStage::MakeProc
        } else {
            DropStage::Skipped
        }
    }

    /// Goes on with cleaning up: a proc and an instance of its own to speak from,
    /// then each host is shut down, whatever comes of the others.
    pub fn continue_drop(&self, stage: DropStage, answer: DropAnswer) -> (next: DropStage)
        requires
            is_drop_stage(*self, stage),
        ensures
            next == next_drop_stage(*self, stage, answer),
            is_drop_stage(*self, next),
    {
        match (stage, answer) {
            (DropStage::MakeProc, DropAnswer::Made(r)) => match r {
                Ok(_) => DropStage::MakeInstance,
                Err(reason) => DropStage::GaveUp(reason),
            },
            (DropStage::MakeInstance, DropAnswer::Made(r)) => match r {
                Ok(_) => self.cleanup_from(0, 0, 0),
                Err(reason) => DropStage::GaveUp(reason),
            },
            (DropStage::Ask { rank, ok, err }, DropAnswer::Answered(r)) => {
                let count: usize = self.current_ref.len();
                assert(rank < count);
                match r {
                    Ok(_) => self.cleanup_from(rank + 1, ok + 1, err),
                    Err(_) => self.cleanup_from(rank + 1, ok, err + 1),
                }
            },
            (stage, _) => stage,
        }
    }
}

/// Hosts that an allocation gives, one after the other, until there is one for
/// each rank.
pub struct AllocatedHosts {
    extent: Extent,
    hosts: Vec<HostRef>,
}

impl AllocatedHosts {
    /// The hosts that were given so far, in the order in which they came.
    pub closed spec fn given(self) -> Seq<HostRef> {
        self.hosts@
    }

    /// The dimensions of the allocation.
    pub closed spec fn dims(self) -> Seq<AxisModel> {
        self.extent@
    }

    /// There are no more hosts than ranks, which can be numbered.
    pub open spec fn wf(self) -> bool {
        axes_room(self.dims()) <= usize::MAX && self.given().len() <= axes_count(self.dims())
    }

    /// No host was given yet.
    pub fn new(extent: Extent) -> (a: AllocatedHosts)
        requires
            extent.fits(),
        ensures
            a.wf(),
            a.given().len() == 0,
            a.dims() == extent@,
    {
        AllocatedHosts { extent, hosts: Vec::new() }
    }

    /// Whether there is a host for each rank.
    pub fn is_complete(&self) -> (r: bool)
        requires
            self.wf(),
        ensures
            r == (self.given().len() == axes_count(self.dims())),
    {
        self.hosts.len() == self.extent.num_ranks()
    }

    /// Takes the next host, given by its agent; the ranks are filled in the order
    /// in which the agents come. An agent that is not that of a host is refused.
    pub fn on_agent(&mut self, agent: ActorId) -> (r: Result<(), HostMeshAgentConfigurationError>)
        requires
            old(self).wf(),
            old(self).given().len() < axes_count(old(self).dims()),
        ensures
            final(self).wf(),
            final(self).dims() == old(self).dims(),
            r is Ok <==> is_host_agent(agent),
            match r {
                Ok(_) => agent.proc_id matches ProcId::Direct(addr, _) && final(self).given() == old(
                    self,
                ).given().push(HostRef(addr)),
                Err(e) => is_agent_refusal(agent, e) && final(self).given() == old(self).given(),
            },
    {
        match host_of_agent(agent) {
            Ok(host) => {
                self.hosts.push(host);
                Ok(())
            },
            Err(e) => Err(e),
        }
    }

    /// The mesh of the hosts, once there is one for each rank.
    pub fn finish(self, name: String) -> (mesh: HostMesh)
        requires
            self.wf(),
            self.given().len() == axes_count(self.dims()),
        ensures
            mesh.wf(),
            mesh.source() == HostMeshAllocation::ProcMesh,
            mesh.dims() == self.dims(),
            mesh.current().hosts() == self.given(),
            mesh.current()@ == (HostMeshModel {
                name: name@,
                region: RegionModel { offset: 0, dims: row_major(self.dims()) },
                hosts: host_models(self.given()),
            }),
    {
        match HostMesh::allocated(name, self.extent, self.hosts) {
            Some(mesh) => mesh,
            None => {
                proof {
                    assert(false);
                }
                vstd::pervasive::unreached()
            },
        }
    }
}

/// What is to be done next to shut the hosts of a mesh down. `failed` are the
/// ranks of the hosts that failed to.
#[derive(Debug)]
pub enum MeshShutdownStage {
    /// Ask the host of that rank to shut down, and wait for its answer.
    Ask { rank: usize, failed: Vec<usize> },
    /// Stop the mesh of procs that the hosts run on, for `SHUTDOWN_REASON`.
    StopProcs { failed: Vec<usize> },
    Done { failed: Vec<usize> },
    /// The mesh of procs could not be stopped.
    Failed { failed: Vec<usize>, reason: String },
}

/// What came of a stage.
#[derive(Debug)]
pub enum MeshShutdownAnswer {
    /// A host shut down, or failed to.
    Answered(Result<(), String>),
    ProcsStopped(Result<(), String>),
}

/// Why the mesh of procs is stopped that hosts run on.
pub const SHUTDOWN_REASON: &'static str = "host mesh shutdown";

/// Whether a stage is the one once all hosts were asked.
pub open spec fn is_after_hosts(mesh: HostMesh, failed: Seq<usize>, stage: MeshShutdownStage) -> bool {
    if mesh.source() is ProcMesh {
        stage matches MeshShutdownStage::StopProcs { failed: all } && all@ == failed
    } else {
        stage matches MeshShutdownStage::Done { failed: all } && all@ == failed
    }
}

/// Whether the stage is the one that follows; an answer to something else
/// changes nothing.
pub open spec fn follows_shutdown(
    mesh: HostMesh,
    stage: MeshShutdownStage,
    answer: MeshShutdownAnswer,
    next: MeshShutdownStage,
) -> bool {
    match (stage, answer) {
        (MeshShutdownStage::Ask { rank, failed }, MeshShutdownAnswer::Answered(r)) => {
            let all = if r is Ok {
                failed@
            } else {
                failed@.push(rank)
            };
            if rank + 1 < mesh.current().hosts().len() {
                next matches MeshShutdownStage::Ask { rank: then, failed: now } && then == rank + 1 && now@ == all
            } else {
                is_after_hosts(mesh, all, next)
            }
        },
        (MeshShutdownStage::StopProcs { failed }, MeshShutdownAnswer::ProcsStopped(r)) => match r {
            Ok(_) => next == (MeshShutdownStage::Done { failed }),
            Err(reason) => next == (MeshShutdownStage::Failed { failed, reason }),
        },
        (stage, _) => next == stage,
    }
}

/// The ranks of the hosts that failed, in order.
pub open spec fn failures(shut_down: Seq<bool>) -> Seq<usize>
    decreases shut_down.len(),
{
    if shut_down.len() == 0 {
        Seq::empty()
    } else if shut_down.last() {
        failures(shut_down.drop_last())
    } else {
        failures(shut_down.drop_last()).push((shut_down.len() - 1) as usize)
    }
}

/// Whether a stage is the one once so many hosts answered, each as the list says:
/// the next host is asked, or else all were.
pub open spec fn is_shutdown_after(mesh: HostMesh, shut_down: Seq<bool>, stage: MeshShutdownStage) -> bool {
    if shut_down.len() < mesh.current().hosts().len() {
        stage matches MeshShutdownStage::Ask { rank, failed } && rank == shut_down.len() && failed@ == failures(shut_down)
    } else {
        is_after_hosts(mesh, failures(shut_down), stage)
    }
}

/// Each host of a mesh is asked once to shut down, in the order of the ranks,
/// whatever the others answer; and it is known which of them failed.
pub proof fn every_host_is_shut_down(
    mesh: HostMesh,
    shut_down: Seq<bool>,
    stage: MeshShutdownStage,
    r: Result<(), String>,
    next: MeshShutdownStage,
)
    requires
        is_shutdown_after(mesh, shut_down, stage),
        shut_down.len() < mesh.current().hosts().len(),
        follows_shutdown(mesh, stage, MeshShutdownAnswer::Answered(r), next),
    ensures
        is_shutdown_after(mesh, shut_down.push(r is Ok), next),
{
    let now = shut_down.push(r is Ok);
    assert(now.drop_last() =~= shut_down);
}

/// The failures are the ranks of the hosts that failed, and no others.
pub proof fn failures_are_the_hosts_that_failed(shut_down: Seq<bool>, rank: usize)
    requires
        shut_down.len() <= usize::MAX,
    ensures
        failures(shut_down).contains(rank) <==> rank < shut_down.len() && !shut_down[rank as int],
    decreases shut_down.len(),
{
    if shut_down.len() > 0 {
        let rest = shut_down.drop_last();
        failures_are_the_hosts_that_failed(rest, rank);
        if !shut_down.last() {
            let all = failures(shut_down);
            assert(all[all.len() - 1] == shut_down.len() - 1);
            if all.contains(rank) && rank != shut_down.len() - 1 {
                let k = choose|k: int| 0 <= k < all.len() && all[k] == rank;
                assert(failures(rest)[k] == rank);
            }
            if failures(rest).contains(rank) {
                let k = choose|k: int| 0 <= k < failures(rest).len() && failures(rest)[k] == rank;
                assert(all[k] == rank);
            }
        }
    }
}

/// What came of shutting hosts down when their mesh was dropped.
#[derive(Debug, Clone, Copy, PartialEq, Eq, Structural)]
pub struct DropSummary {
    pub attempted: usize,
    pub ok: usize,
    pub err: usize,
}

/// What is to be done next to clean up after a mesh that is dropped.
#[derive(Debug)]
pub enum DropStage {
    /// Nothing: there is no runtime. What remains ends with the process that
    /// started it, or with its manager.
    Skipped,
    /// Make a proc to speak from.
    MakeProc,
    /// Make an instance on that proc.
    MakeInstance,
    /// Ask the host of that rank to shut down, and wait for its answer. So many
    /// did, and so many failed to.
    Ask { rank: usize, ok: usize, err: usize },
    Done(DropSummary),
    /// There is nothing to speak from.
    GaveUp(String),
}

/// What came of a stage.
#[derive(Debug)]
pub enum DropAnswer {
    Made(Result<(), String>),
    /// A host shut down, or failed to.
    Answered(Result<(), String>),
}

/// The stage at which cleaning up after a mesh begins.
pub open spec fn first_drop_stage(has_runtime: bool) -> DropStage {
    if has_runtime {
        DropStage::MakeProc
    } else {
        DropStage::Skipped
    }
}

/// A mesh that is dropped is cleaned up wherever there is a runtime to do it, and
/// left alone only where there is none.
pub proof fn dropped_meshes_are_left_only_without_a_runtime(has_runtime: bool)
    ensures
        first_drop_stage(has_runtime) is Skipped <==> !has_runtime,
        first_drop_stage(has_runtime) is MakeProc <==> has_runtime,
{
}

/// The stage at which the host of a rank is asked; behind the last it is summed
/// up what came of it.
pub open spec fn asks_or_sums(mesh: HostMesh, rank: int, ok: usize, err: usize) -> DropStage {
    let count = mesh.current().hosts().len();
    if rank < count {
        DropStage::Ask { rank: rank as usize, ok, err }
    } else {
        DropStage::Done(DropSummary { attempted: count as usize, ok, err })
    }
}

/// The stage that follows; an answer to something else changes nothing.
pub open spec fn next_drop_stage(mesh: HostMesh, stage: DropStage, answer: DropAnswer) -> DropStage {
    match (stage, answer) {
        (DropStage::MakeProc, DropAnswer::Made(r)) => match r {
            Ok(_) => DropStage::MakeInstance,
            Err(reason) => DropStage::GaveUp(reason),
        },
        (DropStage::MakeInstance, DropAnswer::Made(r)) => match r {
            Ok(_) => asks_or_sums(mesh, 0, 0, 0),
            Err(reason) => DropStage::GaveUp(reason),
        },
        (DropStage::Ask { rank, ok, err }, DropAnswer::Answered(r)) => match r {
            Ok(_) => asks_or_sums(mesh, rank + 1, (ok + 1) as usize, err),
            Err(_) => asks_or_sums(mesh, rank + 1, ok, (err + 1) as usize),
        },
        (stage, _) => stage,
    }
}

/// Whether a stage belongs to a mesh: every host before the one that is asked
/// was counted, and in the end every host.
pub open spec fn is_drop_stage(mesh: HostMesh, stage: DropStage) -> bool {
    match stage {
        DropStage::Ask { rank, ok, err } => rank < mesh.current().hosts().len() && ok + err == rank,
        DropStage::Done(s) => s.attempted == mesh.current().hosts().len() && s.ok + s.err == s.attempted,
        _ => true,
    }
}

/// How the process of a host of a mesh is to come up.
pub open spec fn host_mode(addr: ChannelAddr, command: BootstrapCommand, config: String) -> Bootstrap {
    Bootstrap::Host { addr, command: Some(command), config: Some(config), exit_on_shutdown: false }
}

/// The process of a host comes up as a host at its address, which starts its
/// procs with the command given and has the configuration given, and it does not
/// exit when the host is shut down.
pub proof fn hosts_come_up_at_their_address(addr: ChannelAddr, command: BootstrapCommand, config: String)
    ensures
        host_mode(addr, command, config) matches Bootstrap::Host {
            addr: a,
            command: c,
            config: held,
            exit_on_shutdown,
        } && a == addr && c == Some(command) && held == Some(config) && !exit_on_shutdown,
{
}

/// Hosts that are started as processes, one for each rank.
pub struct ProcessHosts {
    extent: Extent,
    hosts: Vec<HostRef>,
}

impl ProcessHosts {
    /// The hosts so far, by rank.
    pub closed spec fn given(self) -> Seq<HostRef> {
        self.hosts@
    }

    /// The dimensions of the mesh.
    pub closed spec fn dims(self) -> Seq<AxisModel> {
        self.extent@
    }

    /// There are no more hosts than ranks, which can be numbered.
    pub open spec fn wf(self) -> bool {
        axes_room(self.dims()) <= usize::MAX && self.given().len() <= axes_count(self.dims())
    }

    /// No host was started yet.
    pub fn new(extent: Extent) -> (h: ProcessHosts)
        requires
            extent.fits(),
        ensures
            h.wf(),
            h.given().len() == 0,
            h.dims() == extent@,
    {
        ProcessHosts { extent, hosts: Vec::new() }
    }

    /// Whether there is a host for each rank.
    pub fn is_complete(&self) -> (r: bool)
        requires
            self.wf(),
        ensures
            r == (self.given().len() == axes_count(self.dims())),
    {
        self.hosts.len() == self.extent.num_ranks()
    }

    /// The host of the next rank is to be served at that address. Returns how
    /// its process is to come up: with the command for its procs, and with the
    /// configuration of this process. It does not exit when it is shut down.
    pub fn next_host(&mut self, addr: ChannelAddr, command: BootstrapCommand, config: String) -> (mode: Bootstrap)
        requires
            old(self).wf(),
            old(self).given().len() < axes_count(old(self).dims()),
        ensures
            final(self).wf(),
            final(self).dims() == old(self).dims(),
            final(self).given() == old(self).given().push(HostRef(addr)),
            mode == host_mode(addr, command, config),
    {
        self.hosts.push(HostRef(addr.clone()));
        Bootstrap::Host { addr, command: Some(command), config: Some(config), exit_on_shutdown: false }
    }

    /// The mesh of the hosts, once there is one for each rank.
    pub fn finish(self, name: String) -> (mesh: HostMesh)
        requires
            self.wf(),
            self.given().len() == axes_count(self.dims()),
        ensures
            mesh.wf(),
            mesh.source() == HostMeshAllocation::Owned,
            mesh.current()@ == (HostMeshModel {
                name: name@,
                region: RegionModel { offset: 0, dims: row_major(self.dims()) },
                hosts: host_models(self.given()),
            }),
    {
        match HostMesh::process(name, self.extent, self.hosts) {
            Ok(mesh) => mesh,
            Err(_) => {
                proof {
                    assert(false);
                }
                vstd::pervasive::unreached()
            },
        }
    }
}

/// Each step of shutting a mesh of hosts down follows on the last: the hosts
/// that failed stay noted, the mesh of procs is stopped where the hosts ran on
/// one and only there, once every host was asked, and the shutdown fails only
/// where that mesh could not be stopped, with why.
pub proof fn procs_are_stopped_behind_their_hosts(
    mesh: HostMesh,
    stage: MeshShutdownStage,
    answer: MeshShutdownAnswer,
    next: MeshShutdownStage,
)
    requires
        follows_shutdown(mesh, stage, answer, next),
        next != stage,
    ensures
        stage.noted().is_prefix_of(next.noted()),
        next.noted().len() <= stage.noted().len() + 1,
        next.noted().len() > stage.noted().len() <==> stage is Ask && (answer matches MeshShutdownAnswer::Answered(Err(_))),
        match next {
            MeshShutdownStage::Ask { rank, .. } => (stage matches MeshShutdownStage::Ask { rank: before, .. } && rank
                == before + 1) && answer is Answered && rank < mesh.current().hosts().len(),
            MeshShutdownStage::StopProcs { .. } => mesh.source() is ProcMesh && answer is Answered && (
            stage matches MeshShutdownStage::Ask { rank, .. } && rank + 1 >= mesh.current().hosts().len()),
            MeshShutdownStage::Done { .. } => match answer {
                MeshShutdownAnswer::Answered(_) => mesh.source() is Owned && (
                stage matches MeshShutdownStage::Ask { rank, .. } && rank + 1 >= mesh.current().hosts().len()),
                MeshShutdownAnswer::ProcsStopped(r) => stage is StopProcs && r is Ok,
            },
            MeshShutdownStage::Failed { reason, .. } => stage is StopProcs && answer == MeshShutdownAnswer::ProcsStopped(
                Err(reason),
            ),
        },
{
    let was = stage.noted();
    assert(next.noted().take(was.len() as int) =~= was);
}

/// A shutdown goes on with every answer, and ends once the mesh of procs was to
/// be stopped.
pub proof fn answered_shutdowns_go_on(
    mesh: HostMesh,
    stage: MeshShutdownStage,
    answer: MeshShutdownAnswer,
    next: MeshShutdownStage,
)
    requires
        follows_shutdown(mesh, stage, answer, next),
    ensures
        stage is Ask && answer is Answered ==> next != stage && !(next is Failed),
        stage is StopProcs && (answer matches MeshShutdownAnswer::ProcsStopped(Ok(_))) ==> next is Done,
        stage is StopProcs && (answer matches MeshShutdownAnswer::ProcsStopped(Err(_))) ==> next is Failed,
        stage is Done || stage is Failed ==> next == stage,
{
}

impl MeshShutdownStage {
    /// The ranks of the hosts that failed so far.
    pub open spec fn noted(self) -> Seq<usize> {
        match self {
            MeshShutdownStage::Ask { failed, .. } => failed@,
            MeshShutdownStage::StopProcs { failed } => failed@,
            MeshShutdownStage::Done { failed } => failed@,
            MeshShutdownStage::Failed { failed, .. } => failed@,
        }
    }
}

/// A mesh that is dropped is cleaned up host by host: the hosts are asked once
/// there is something to speak from, each is counted as what it answered, in the
/// end all were asked, and it is given up only where there is nothing to speak
/// from, with why.
pub proof fn dropped_meshes_are_cleaned_up(mesh: HostMesh, stage: DropStage, answer: DropAnswer)
    requires
        is_drop_stage(mesh, stage),
        mesh.current().hosts().len() <= usize::MAX,
    ensures
        ({
            let next = next_drop_stage(mesh, stage, answer);
            let count = mesh.current().hosts().len();
            &&& is_drop_stage(mesh, next)
            &&& next != stage ==> match next {
                DropStage::Skipped => false,
                DropStage::MakeProc => false,
                DropStage::MakeInstance => stage is MakeProc && (answer matches DropAnswer::Made(Ok(_))),
                DropStage::Ask { rank, ok, err } => match answer {
                    DropAnswer::Made(r) => stage is MakeInstance && r is Ok && rank == 0 && ok == 0 && err == 0,
                    DropAnswer::Answered(r) => stage matches DropStage::Ask { rank: at, ok: o, err: e } && rank == at + 1
                        && (r is Ok ==> ok == o + 1 && err == e) && (r is Err ==> ok == o && err == e + 1),
                },
                DropStage::Done(s) => s.attempted == count && match answer {
                    DropAnswer::Made(r) => stage is MakeInstance && r is Ok && count == 0,
                    DropAnswer::Answered(r) => stage matches DropStage::Ask { rank: at, ok: o, err: e } && at + 1 == count
                        && (r is Ok ==> s.ok == o + 1 && s.err == e) && (r is Err ==> s.ok == o && s.err == e + 1),
                },
                DropStage::GaveUp(reason) => (stage is MakeProc || stage is MakeInstance) && answer == DropAnswer::Made(
                    Err(reason),
                ),
            }
            &&& stage is Ask && answer is Answered ==> next != stage
            &&& (stage is MakeProc || stage is MakeInstance) && answer is Made ==> next != stage
        }),
{
}

/// An actor is the agent of a host only on the service proc of that host, under
/// the name that agents have, and there is one of them.
pub proof fn agents_of_hosts_are_known_by_name(id: ActorId)
    ensures
        is_host_agent(id) <==> (id.proc_id matches ProcId::Direct(_, name) && name@ == "service"@) && id.name@ == "agent"@
            && id.index == 0,
{
}

}
