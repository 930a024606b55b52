//! References to hosts, and to meshes of hosts.

use crate::channel::addr::{
    addr_reads_as, addr_text, addr_text_reads_back, channel_addr, is_addr_of, is_plain, leaves_name_open, names_an_addr,
    AddrError, AddrErrorModel, AddrModel, ChannelAddr,
};
use crate::channel::socket::{socket, SocketAddr};
use crate::mesh::bootstrap::{proc_id_text, ProcId};
use crate::mesh::host_agent::{clamp_terminations, clamped, ShutdownHost};
use crate::mesh::region::{first_of, narrowed, row_major, AxisModel, Extent, RangeError, Region, RegionModel};
use crate::mesh::region_text::{
    is_plain_label, region_of, region_text, region_text_is_free_of, region_text_reads_back, RegionParseError,
};
use crate::mesh::resource::Span;
use crate::numerals::{decimal, format_decimal, lemma_trimmed_same, trim, trimmed, white_space};
use crate::text::{
    lemma_split_first_at, lemma_split_last_at, lemma_split_on_concat, lemma_split_on_none, rsplit_once, split,
    split_first, split_last, split_on, split_once, texts,
};
use vstd::prelude::*;

verus! {

/// The identity of an actor.
#[derive(Debug)]
pub struct ActorId {
    pub proc_id: ProcId,
    pub name: String,
    pub index: usize,
}

/// How an `ActorId` is written.
pub open spec fn actor_id_text(id: ActorId) -> Seq<char> {
    proc_id_text(id.proc_id).push(
        match id.proc_id {
            ProcId::Direct(..) => ',',
            ProcId::Ranked(..) => '.',
        },
    ) + id.name@.push('[') + decimal(id.index as nat) + "]"@
}

impl ActorId {
    /// The identity, written for a reader.
    pub fn display(&self) -> (s: String)
        ensures
            s@ == actor_id_text(*self),
    {
        let mut s: String = self.proc_id.display();
        let ghost start = s@;
        let mark: char = match &self.proc_id {
            ProcId::Direct(..) => ',',
            ProcId::Ranked(..) => '.',
        };
        s.push(mark);
        s.append(self.name.as_str());
        s.push('[');
        s.append(format_decimal(self.index as u64).as_str());
        s.append("]");
        assert(s@ =~= actor_id_text(*self));
        s
    }
}

/// Why a mesh of hosts cannot be referred to.
#[derive(Debug)]
pub enum MeshRefError {
    /// There are not as many hosts as the region has ranks.
    InvalidRankCardinality { expected: usize, actual: usize },
    /// A host must be reached at an address, and this proc is not.
    RankedProc(ProcId),
}

/// A reference to a host: its address.
#[derive(Debug)]
pub struct HostRef(pub ChannelAddr);

impl View for HostRef {
    type V = AddrModel;

    open spec fn view(&self) -> AddrModel {
        self.0@
    }
}

impl Clone for HostRef {
    fn clone(&self) -> (c: HostRef)
        ensures
            c == *self,
    {
        HostRef(self.0.clone())
    }
}

/// The name of the proc of a host's own agent.
pub const SERVICE_PROC: &'static str = "service";

/// The name of an agent.
pub const AGENT: &'static str = "agent";

impl HostRef {
    /// Whether an actor is the agent of this host.
    pub open spec fn is_agent(self, id: ActorId) -> bool {
        &&& id.proc_id matches ProcId::Direct(addr, name)
        &&& addr@ == self@
        &&& name@ == SERVICE_PROC@
        &&& id.name@ == AGENT@
        &&& id.index == 0
    }

    /// The agent of this host.
    pub fn mesh_agent(&self) -> (id: ActorId)
        ensures
            self.is_agent(id),
            id.proc_id matches ProcId::Direct(addr, _) && addr == self.0,
    {
        ActorId { proc_id: self.service_proc(), name: AGENT.to_owned(), index: 0 }
    }

    /// The proc of that name on this host.
    pub fn named_proc(&self, name: String) -> (id: ProcId)
        ensures
            id == ProcId::Direct(self.0, name),
    {
        ProcId::Direct(self.0.clone(), name)
    }

    /// The proc of this host's own agent.
    pub fn service_proc(&self) -> (id: ProcId)
        ensures
            id matches ProcId::Direct(addr, name) && addr == self.0 && name@ == SERVICE_PROC@,
    {
        ProcId::Direct(self.0.clone(), SERVICE_PROC.to_owned())
    }

    /// What is asked of the agent of a host that is to be shut down. The agent
    /// answers once its procs were terminated and the host was released.
    pub fn shutdown(&self, terminate_timeout: Span, max_in_flight: usize) -> (message: ShutdownHost)
        ensures
            message.timeout == terminate_timeout,
            message.max_in_flight == clamped(max_in_flight),
    {
        ShutdownHost { timeout: terminate_timeout, max_in_flight: clamp_terminations(max_in_flight) }
    }

    /// The host of an agent.
    pub fn try_from(agent: ActorId) -> (r: Result<HostRef, MeshRefError>)
        ensures
            r == (match agent_host(agent) {
                Some(addr) => Ok::<HostRef, MeshRefError>(HostRef(addr)),
                None => Err(MeshRefError::RankedProc(agent.proc_id)),
            }),
    {
        match agent.proc_id {
            ProcId::Direct(addr, _) => Ok(HostRef(addr)),
            ProcId::Ranked(world, rank) => Err(MeshRefError::RankedProc(ProcId::Ranked(world, rank))),
        }
    }

    /// The host, written for a reader.
    pub fn display(&self) -> (s: String)
        ensures
            s@ == addr_text(self@),
    {
        self.0.display()
    }

    /// The host that is written.
    pub fn from_str(s: &str) -> (r: Result<HostRef, AddrError>)
        ensures
            match r {
                Ok(host) => is_addr_of(host.0, s@),
                Err(e) => !leaves_name_open(s@) && addr_reads_as(
                    Err(e),
                    channel_addr(s@, Seq::<char>::empty()),
                ),
            },
    {
        match ChannelAddr::from_str(s) {
            Ok(addr) => Ok(HostRef(addr)),
            Err(e) => Err(e),
        }
    }
}

/// The addresses of hosts.
pub open spec fn host_models(hosts: Seq<HostRef>) -> Seq<AddrModel> {
    hosts.map_values(|h: HostRef| h@)
}

/// The mathematical value of a `HostMeshRef`.
pub struct HostMeshModel {
    pub name: Seq<char>,
    pub region: RegionModel,
    pub hosts: Seq<AddrModel>,
}

/// A reference to a mesh of hosts: a region with a host at each of its ranks.
#[derive(Debug)]
pub struct HostMeshRef {
    name: String,
    region: Region,
    ranks: Vec<HostRef>,
}

impl View for HostMeshRef {
    type V = HostMeshModel;

    closed spec fn view(&self) -> HostMeshModel {
        HostMeshModel { name: self.name@, region: self.region@, hosts: host_models(self.ranks@) }
    }
}

fn clone_hosts(hosts: &Vec<HostRef>) -> (c: Vec<HostRef>)
    ensures
        c@ == hosts@,
{
    let mut c: Vec<HostRef> = Vec::new();
    let mut i: usize = 0;
    while i < hosts.len()
        invariant
            i <= hosts@.len(),
            c@ == hosts@.take(i as int),
        decreases hosts@.len() - i,
    {
        c.push(hosts[i].clone());
        i = i + 1;
    }
    c
}

impl Clone for HostMeshRef {
    fn clone(&self) -> (c: HostMeshRef)
        ensures
            c@ == self@,
            c.hosts() == self.hosts(),
            self.wf() ==> c.wf(),
    {
        HostMeshRef { name: self.name.clone(), region: self.region.clone(), ranks: clone_hosts(&self.ranks) }
    }
}

/// The label of the dimension along which hosts are laid out.
pub const HOSTS: &'static str = "hosts";

/// The region of hosts that are laid out along one dimension.
pub open spec fn host_line(n: usize) -> RegionModel {
    RegionModel { offset: 0, dims: row_major(seq![AxisModel { label: HOSTS@, size: n }]) }
}

/// The region of a single rank.
pub open spec fn unit_region() -> RegionModel {
    RegionModel { offset: 0, dims: row_major(Seq::<AxisModel>::empty()) }
}

/// The host of an agent, where it has an address.
pub open spec fn agent_host(agent: ActorId) -> Option<ChannelAddr> {
    match agent.proc_id {
        ProcId::Direct(addr, _) => Some(addr),
        ProcId::Ranked(..) => None,
    }
}

impl HostMeshRef {
    /// The hosts, rank by rank.
    pub closed spec fn hosts(self) -> Seq<HostRef> {
        self.ranks@
    }

    /// There is a host at each rank of the region.
    pub open spec fn wf(self) -> bool {
        &&& self@.region.fits()
        &&& self@.region.num_ranks() == self@.hosts.len()
        &&& self@.hosts == host_models(self.hosts())
    }

    /// A mesh with a host at each rank of the region.
    pub fn new(name: String, region: Region, ranks: Vec<HostRef>) -> (r: Result<HostMeshRef, MeshRefError>)
        requires
            region@.fits(),
        ensures
            if region@.num_ranks() == ranks@.len() {
                &&& r matches Ok(mesh)
                &&& mesh.wf()
                &&& mesh@ == (HostMeshModel { name: name@, region: region@, hosts: host_models(ranks@) })
                &&& mesh.hosts() == ranks@
            } else {
                &&& r matches Err(MeshRefError::InvalidRankCardinality { expected, actual })
                &&& expected == region@.num_ranks()
                &&& actual == ranks@.len()
            },
    {
        let expected: usize = region.num_ranks();
        if expected != ranks.len() {
            return Err(MeshRefError::InvalidRankCardinality { expected, actual: ranks.len() });
        }
        Ok(HostMeshRef { name, region, ranks })
    }

    /// A mesh of hosts at those addresses, along one dimension.
    pub fn from_hosts(name: String, hosts: Vec<ChannelAddr>) -> (mesh: HostMeshRef)
        ensures
            mesh.wf(),
            mesh@.name == name@,
            mesh@.hosts == hosts@.map_values(|a: ChannelAddr| a@),
            mesh@.region == host_line(hosts@.len() as usize),
    {
        let n: usize = hosts.len();
        let region: Region = Extent::line(HOSTS.to_owned(), n).region();
        let mut ranks: Vec<HostRef> = Vec::new();
        while ranks.len() < n
            invariant
                n == hosts@.len(),
                ranks@.len() <= n,
                forall|j: int| 0 <= j < ranks@.len() ==> #[trigger] ranks@[j] == HostRef(hosts@[j]),
            decreases n - ranks@.len(),
        {
            let host = HostRef(hosts[ranks.len()].clone());
            ranks.push(host);
        }
        let mesh = HostMeshRef { name, region, ranks };
        assert(mesh@.hosts =~= hosts@.map_values(|a: ChannelAddr| a@));
        mesh
    }

    /// A mesh of the hosts of those agents, along one dimension. The first agent
    /// that has no address is an error.
    pub fn from_host_agents(name: String, agents: Vec<ActorId>) -> (r: Result<HostMeshRef, MeshRefError>)
        ensures
            match r {
                Ok(mesh) => {
                    &&& mesh.wf()
                    &&& mesh@.name == name@
                    &&& mesh@.region == host_line(agents@.len() as usize)
                    &&& mesh.hosts().len() == agents@.len()
                    &&& forall|j: int|
                        0 <= j < agents@.len() ==> agent_host(#[trigger] agents@[j]) == Some(mesh.hosts()[j].0)
                },
                Err(e) => exists|j: int|
                    {
                        &&& 0 <= j < agents@.len()
                        &&& agent_host(#[trigger] agents@[j]) is None
                        &&& e == MeshRefError::RankedProc(agents@[j].proc_id)
                        &&& forall|k: int| 0 <= k < j ==> agent_host(#[trigger] agents@[k]) is Some
                    },
            },
    {
        let n: usize = agents.len();
        let region: Region = Extent::line(HOSTS.to_owned(), n).region();
        let mut ranks: Vec<HostRef> = Vec::new();
        while ranks.len() < n
            invariant
                n == agents@.len(),
                ranks@.len() <= n,
                forall|j: int|
                    0 <= j < ranks@.len() ==> agent_host(#[trigger] agents@[j]) == Some(ranks@[j].0),
            decreases n - ranks@.len(),
        {
            let at: usize = ranks.len();
            match &agents[at].proc_id {
                ProcId::Direct(addr, _) => {
                    ranks.push(HostRef(addr.clone()));
                },
                ProcId::Ranked(world, rank) => {
                    let id: ProcId = ProcId::Ranked(world.clone(), *rank);
                    assert(agent_host(agents@[at as int]) is None);
                    assert(id == agents@[at as int].proc_id);
                    return Err(MeshRefError::RankedProc(id));
                },
            }
        }
        let mesh = HostMeshRef { name, region, ranks };
        assert(mesh@.hosts.len() == n);
        Ok(mesh)
    }

    /// A mesh of the one host of that agent.
    pub fn from_host_agent(name: String, agent: ActorId) -> (r: Result<HostMeshRef, MeshRefError>)
        ensures
            match agent_host(agent) {
                Some(addr) => {
                    &&& r matches Ok(mesh)
                    &&& mesh.wf()
                    &&& mesh@.name == name@
                    &&& mesh@.region == unit_region()
                    &&& mesh.hosts() == seq![HostRef(addr)]
                },
                None => r == Err::<HostMeshRef, MeshRefError>(MeshRefError::RankedProc(agent.proc_id)),
            },
    {
        let host: HostRef = match HostRef::try_from(agent) {
            Ok(host) => host,
            Err(e) => {
                return Err(e);
            },
        };
        let mut ranks: Vec<HostRef> = Vec::new();
        ranks.push(host);
        let region: Region = Extent::unity().region();
        assert(ranks@ =~= seq![host]);
        Ok(HostMeshRef { name, region, ranks })
    }

    /// The name of the mesh.
    pub fn name(&self) -> (r: &String)
        ensures
            r@ == self@.name,
    {
        &self.name
    }

    /// The region of the mesh.
    pub fn region(&self) -> (r: &Region)
        ensures
            r@ == self@.region,
    {
        &self.region
    }

    /// How many hosts there are.
    pub fn len(&self) -> (n: usize)
        ensures
            n == self.hosts().len(),
    {
        self.ranks.len()
    }

    /// The host at rank number `rank`, if there is one.
    pub fn get(&self, rank: usize) -> (r: Option<&HostRef>)
        ensures
            match r {
                Some(host) => rank < self.hosts().len() && *host == self.hosts()[rank as int],
                None => rank >= self.hosts().len(),
            },
    {
        if rank < self.ranks.len() {
            Some(&self.ranks[rank])
        } else {
            None
        }
    }

    /// The hosts, rank by rank.
    pub fn values(&self) -> (v: Vec<HostRef>)
        ensures
            v@ == self.hosts(),
    {
        clone_hosts(&self.ranks)
    }

    /// The hosts for one who watches over the mesh: each by its address, as text,
    /// and its agent.
    pub fn admin_hosts(&self) -> (v: Vec<(String, ActorId)>)
        ensures
            v@.len() == self.hosts().len(),
            forall|k: int|
                0 <= k < v@.len() ==> (#[trigger] v@[k]).0@ == addr_text(self.hosts()[k]@) && self.hosts()[k].is_agent(
                    v@[k].1,
                ),
    {
        let mut v: Vec<(String, ActorId)> = Vec::new();
        while v.len() < self.ranks.len()
            invariant
                v@.len() <= self.ranks@.len(),
                forall|k: int|
                    0 <= k < v@.len() ==> (#[trigger] v@[k]).0@ == addr_text(self.ranks@[k]@)
                        && self.ranks@[k].is_agent(v@[k].1),
            decreases self.ranks@.len() - v@.len(),
        {
            let host: &HostRef = &self.ranks[v.len()];
            let item: (String, ActorId) = (host.display(), host.mesh_agent());
            v.push(item);
        }
        v
    }

    /// Whether another mesh is the part of this one that lies in a region: each
    /// rank of it keeps its host.
    pub open spec fn is_part(self, other: HostMeshRef, region: RegionModel) -> bool {
        &&& other.wf()
        &&& other@.name == self@.name
        &&& other@.region == region
        &&& forall|i: nat, j: nat|
            #![trigger self@.region.rank(i), region.rank(j)]
            j < region.num_ranks() && self@.region.is_number_of(i, region.rank(j)) ==> other.hosts()[j as int]
                == self.hosts()[i as int]
    }

    /// The part of the mesh that lies in a region.
    pub fn sliced(&self, region: Region) -> (r: HostMeshRef)
        requires
            self.wf(),
            region@.fits(),
            self@.region.covers(region@),
        ensures
            self.is_part(r, region@),
    {
        let numbers: Vec<usize> = match self.region.remap(&region) {
            Some(numbers) => numbers,
            None => Vec::new(),
        };
        let mut ranks: Vec<HostRef> = Vec::new();
        while ranks.len() < numbers.len()
            invariant
                ranks@.len() <= numbers@.len(),
                self.wf(),
                forall|j: int|
                    0 <= j < numbers@.len() ==> self@.region.is_number_of(
                        #[trigger] numbers@[j] as nat,
                        region@.rank(j as nat),
                    ),
                forall|j: int| 0 <= j < ranks@.len() ==> #[trigger] ranks@[j] == self.hosts()[numbers@[j] as int],
            decreases numbers@.len() - ranks@.len(),
        {
            let ghost at = ranks@.len() as int;
            assert(self@.region.is_number_of(numbers@[at] as nat, region@.rank(at as nat)));
            let i: usize = numbers[ranks.len()];
            ranks.push(self.ranks[i].clone());
        }
        let r = HostMeshRef { name: self.name.clone(), region, ranks };
        proof {
            assert forall|i: nat, j: nat|
                #![trigger self@.region.rank(i), region@.rank(j)]
                j < region@.num_ranks() && self@.region.is_number_of(i, region@.rank(j)) implies r.hosts()[j as int]
                == self.hosts()[i as int] by {
                let k = numbers@[j as int] as nat;
                assert(self@.region.is_number_of(k, region@.rank(j)));
                if i < k {
                    assert(self@.region.rank(i) != region@.rank(j));
                }
                if k < i {
                    assert(self@.region.rank(k) != region@.rank(j));
                }
            }
        }
        r
    }

    /// The part of the mesh at one step of a dimension.
    pub fn range(&self, label: &str, step: usize) -> (r: Result<HostMeshRef, RangeError>)
        requires
            self.wf(),
        ensures
            match first_of(self@.region.dims, label@) {
                Some(p) => if step < self@.region.dims[p].size {
                    r matches Ok(part) && self.is_part(part, narrowed(self@.region, p, step))
                } else {
                    r == Err::<HostMeshRef, RangeError>(RangeError::OutOfRange)
                },
                None => r == Err::<HostMeshRef, RangeError>(RangeError::NoSuchLabel),
            },
    {
        match self.region.range(label, step) {
            Ok(region) => Ok(self.sliced(region)),
            Err(e) => Err(e),
        }
    }
}

/// The hosts as text, with a comma between two.
pub open spec fn hosts_text(hosts: Seq<AddrModel>) -> Seq<char>
    decreases hosts.len(),
{
    if hosts.len() == 0 {
        Seq::empty()
    } else if hosts.len() == 1 {
        addr_text(hosts[0])
    } else {
        hosts_text(hosts.drop_last()).push(',') + addr_text(hosts.last())
    }
}

/// How a mesh of hosts is written: its name, its hosts and its region.
pub open spec fn mesh_text(m: HostMeshModel) -> Seq<char> {
    m.name.push(':') + hosts_text(m.hosts).push('@') + region_text(m.region)
}

/// Why a text is no mesh of hosts.
#[derive(Debug)]
pub enum HostMeshRefParseError {
    /// The region is none.
    RegionParseError(RegionParseError),
    /// There is no region.
    MissingRegion,
    /// There is no name.
    MissingName,
    /// The name is none; with why.
    InvalidName(String),
    /// A host is none.
    InvalidHost(AddrError),
    /// There are not as many hosts as the region has ranks.
    InvalidHostMeshRef(MeshRefError),
}

/// The three parts of a written mesh. The region is what stands behind the last
/// `@`: a host may have one of its own.
pub open spec fn mesh_parts(s: Seq<char>) -> Result<(Seq<char>, Seq<Seq<char>>, Seq<char>), bool> {
    match split_first(s, ':') {
        None => Err(false),
        Some((name, rest)) => match split_last(rest, '@') {
            None => Err(true),
            Some((hosts, region)) => Ok((name, split_on(hosts, ',').map_values(|h: Seq<char>| trimmed(h)), region)),
        },
    }
}

/// Whether a mesh was read from its parts.
pub open spec fn is_mesh_of(mesh: HostMeshRef, name: Seq<char>, hosts: Seq<Seq<char>>, region: Seq<char>) -> bool {
    &&& mesh.wf()
    &&& mesh@.name == name
    &&& region_of(region) == Some(mesh@.region)
    &&& mesh.hosts().len() == hosts.len()
    &&& forall|k: int| 0 <= k < hosts.len() ==> is_addr_of((#[trigger] mesh.hosts()[k]).0, hosts[k])
}

/// Whether an error is that of the first host that is none.
pub open spec fn is_first_refusal(hosts: Seq<Seq<char>>, e: AddrError) -> bool {
    exists|k: int|
        {
            &&& 0 <= k < hosts.len()
            &&& !names_an_addr(#[trigger] hosts[k])
            &&& forall|j: int| 0 <= j < k ==> names_an_addr(#[trigger] hosts[j])
            &&& addr_reads_as(Err(e), channel_addr(hosts[k], Seq::<char>::empty()))
        }
}

/// Whether `r` is what a text says of a mesh.
pub open spec fn mesh_reads_as(s: Seq<char>, r: Result<HostMeshRef, HostMeshRefParseError>) -> bool {
    match mesh_parts(s) {
        Err(named) => if named {
            r matches Err(HostMeshRefParseError::MissingRegion)
        } else {
            r matches Err(HostMeshRefParseError::MissingName)
        },
        Ok((name, hosts, region)) => if exists|k: int| 0 <= k < hosts.len() && !names_an_addr(#[trigger] hosts[k]) {
            r matches Err(HostMeshRefParseError::InvalidHost(e)) && is_first_refusal(hosts, e)
        } else {
            match region_of(region) {
                None => r matches Err(HostMeshRefParseError::RegionParseError(RegionParseError::Syntax)),
                Some(m) => if !m.fits() {
                    r matches Err(HostMeshRefParseError::RegionParseError(RegionParseError::TooLarge))
                } else if m.num_ranks() != hosts.len() {
                    r matches Err(
                        HostMeshRefParseError::InvalidHostMeshRef(
                            MeshRefError::InvalidRankCardinality { expected, actual },
                        ),
                    ) && expected == m.num_ranks() && actual == hosts.len()
                } else {
                    r matches Ok(mesh) && is_mesh_of(mesh, name, hosts, region)
                },
            }
        },
    }
}

/// Whether `r` is what a text says of a mesh, where it is known whether the name
/// in it is one. A name that is none is an error whatever stands behind it.
pub open spec fn mesh_reads_checked(
    s: Seq<char>,
    name: Result<(), String>,
    r: Result<HostMeshRef, HostMeshRefParseError>,
) -> bool {
    match (split_first(s, ':'), name) {
        (Some(_), Err(why)) => r == Err::<HostMeshRef, HostMeshRefParseError>(HostMeshRefParseError::InvalidName(why)),
        _ => mesh_reads_as(s, r),
    }
}

fn parse_hosts(s: &str) -> (r: Result<Vec<HostRef>, AddrError>)
    ensures
        ({
            let hosts = split_on(s@, ',').map_values(|h: Seq<char>| trimmed(h));
            match r {
                Ok(v) => {
                    &&& v@.len() == hosts.len()
                    &&& forall|k: int| 0 <= k < hosts.len() ==> names_an_addr(#[trigger] hosts[k])
                    &&& forall|k: int| 0 <= k < hosts.len() ==> is_addr_of((#[trigger] v@[k]).0, hosts[k])
                },
                Err(e) => is_first_refusal(hosts, e),
            }
        }),
{
    let ghost hosts = split_on(s@, ',').map_values(|h: Seq<char>| trimmed(h));
    let parts: Vec<String> = split(s, ',');
    let mut v: Vec<HostRef> = Vec::new();
    while v.len() < parts.len()
        invariant
            v@.len() <= parts@.len(),
            texts(parts@) == split_on(s@, ','),
            hosts == split_on(s@, ',').map_values(|h: Seq<char>| trimmed(h)),
            forall|k: int| 0 <= k < v@.len() ==> names_an_addr(#[trigger] hosts[k]),
            forall|k: int| 0 <= k < v@.len() ==> is_addr_of((#[trigger] v@[k]).0, hosts[k]),
        decreases parts@.len() - v@.len(),
    {
        let ghost at = v@.len() as int;
        assert(texts(parts@)[at] == parts@[at]@);
        let text: String = trim(parts[v.len()].as_str());
        assert(hosts[at] == text@);
        match HostRef::from_str(text.as_str()) {
            Ok(host) => {
                v.push(host);
            },
            Err(e) => {
                assert(!names_an_addr(hosts[at]));
                return Err(e);
            },
        }
    }
    assert(texts(parts@).len() == hosts.len());
    Ok(v)
}

impl HostMeshRef {
    /// The mesh, written out.
    pub fn display(&self) -> (s: String)
        ensures
            s@ == mesh_text(self@),
    {
        let mut s: String = self.name.clone();
        s.push(':');
        let ghost start = s@;
        let ghost hosts = host_models(self.ranks@);
        let mut k: usize = 0;
        assert(hosts.take(0) =~= Seq::<AddrModel>::empty());
        assert(start + Seq::<char>::empty() =~= start);
        while k < self.ranks.len()
            invariant
                k <= self.ranks@.len(),
                hosts == host_models(self.ranks@),
                s@ == start + hosts_text(hosts.take(k as int)),
            decreases self.ranks@.len() - k,
        {
            let ghost now = hosts.take(k + 1);
            assert(now.drop_last() =~= hosts.take(k as int));
            assert(now.last() == self.ranks@[k as int]@);
            if k > 0 {
                s.push(',');
            }
            s.append(self.ranks[k].display().as_str());
            assert(s@ =~= start + hosts_text(now));
            k = k + 1;
        }
        assert(hosts.take(hosts.len() as int) =~= hosts);
        s.push('@');
        s.append(self.region.display().as_str());
        assert(s@ =~= mesh_text(self@));
        s
    }

    /// The name in a written mesh, before it is known whether it is one.
    pub fn name_in(s: &str) -> (r: Option<String>)
        ensures
            match r {
                Some(name) => split_first(s@, ':') matches Some((n, _)) && n == name@,
                None => split_first(s@, ':') is None,
            },
    {
        match split_once(s, ':') {
            Some((name, _)) => Some(name),
            None => None,
        }
    }

    /// The mesh that is written, where any text is a name.
    pub fn from_str(s: &str) -> (r: Result<HostMeshRef, HostMeshRefParseError>)
        ensures
            mesh_reads_as(s@, r),
    {
        HostMeshRef::from_str_checked(s, Ok(()))
    }

    /// The mesh that is written; `name_is_valid` says whether the name in it is
    /// one, or why it is not.
    pub fn from_str_checked(s: &str, name_is_valid: Result<(), String>) -> (r: Result<
        HostMeshRef,
        HostMeshRefParseError,
    >)
        ensures
            mesh_reads_checked(s@, name_is_valid, r),
    {
        let (name, rest): (String, String) = match split_once(s, ':') {
            Some(parts) => parts,
            None => {
                return Err(HostMeshRefParseError::MissingName);
            },
        };
        match name_is_valid {
            Ok(_) => {},
            Err(why) => {
                return Err(HostMeshRefParseError::InvalidName(why));
            },
        }
        let (hosts, region): (String, String) = match rsplit_once(rest.as_str(), '@') {
            Some(parts) => parts,
            None => {
                return Err(HostMeshRefParseError::MissingRegion);
            },
        };
        let hosts: Vec<HostRef> = match parse_hosts(hosts.as_str()) {
            Ok(hosts) => hosts,
            Err(e) => {
                return Err(HostMeshRefParseError::InvalidHost(e));
            },
        };
        let region: Region = match Region::from_str(region.as_str()) {
            Ok(region) => region,
            Err(e) => {
                return Err(HostMeshRefParseError::RegionParseError(e));
            },
        };
        match HostMeshRef::new(name, region, hosts) {
            Ok(mesh) => Ok(mesh),
            Err(e) => Err(HostMeshRefParseError::InvalidHostMeshRef(e)),
        }
    }
}

/// Why it is not known where one who watches over a mesh is reached.
#[derive(Debug)]
pub enum AdminAddrError {
    /// No address was reported.
    NotReported,
    /// What was reported is no address.
    NoSocket(String),
}

impl AdminAddrError {
    /// The error, written for a reader, where it is one of this library's own.
    pub fn text(&self) -> (s: Option<String>)
        ensures
            match *self {
                AdminAddrError::NotReported => s matches Some(t) && t@ == "mesh admin agent did not report an address"@,
                AdminAddrError::NoSocket(_) => s is None,
            },
    {
        match self {
            AdminAddrError::NotReported => Some("mesh admin agent did not report an address".to_owned()),
            AdminAddrError::NoSocket(_) => None,
        }
    }
}

/// Where one who watches over a mesh is reached, from what it reported.
pub fn admin_addr(reported: Option<String>) -> (r: Result<SocketAddr, AdminAddrError>)
    ensures
        match reported {
            None => r matches Err(AdminAddrError::NotReported),
            Some(text) => match socket(text@) {
                Some(a) => r matches Ok(addr) && addr@ == a,
                None => r == Err::<SocketAddr, AdminAddrError>(AdminAddrError::NoSocket(text)),
            },
        },
{
    match reported {
        None => Err(AdminAddrError::NotReported),
        Some(text) => match SocketAddr::parse(text.as_str()) {
            Some(addr) => Ok(addr),
            None => Err(AdminAddrError::NoSocket(text)),
        },
    }
}

impl HostMeshRefParseError {
    /// The error, written for a reader, where it is of the form of the text as a
    /// whole or of the name.
    pub fn text(&self) -> (s: Option<String>)
        ensures
            match *self {
                HostMeshRefParseError::MissingRegion => s matches Some(t) && t@
                    == "invalid host mesh ref: missing region"@,
                HostMeshRefParseError::MissingName => s matches Some(t) && t@ == "invalid host mesh ref: missing name"@,
                HostMeshRefParseError::InvalidName(why) => s == Some(why),
                _ => s is None,
            },
    {
        match self {
            HostMeshRefParseError::MissingRegion => Some("invalid host mesh ref: missing region".to_owned()),
            HostMeshRefParseError::MissingName => Some("invalid host mesh ref: missing name".to_owned()),
            HostMeshRefParseError::InvalidName(why) => Some(why.clone()),
            _ => None,
        }
    }
}

/// Whether a host can be told from what is written around it.
pub open spec fn is_plain_host(a: AddrModel) -> bool {
    let t = addr_text(a);
    &&& is_plain(a)
    &&& !t.contains(',')
    &&& t.len() > 0 ==> !white_space(t[0]) && !white_space(t.last())
}

/// Whether a mesh is written so that it can be read back.
pub open spec fn is_plain_mesh(m: HostMeshModel) -> bool {
    &&& !m.name.contains(':')
    &&& m.hosts.len() > 0
    &&& forall|k: int| 0 <= k < m.hosts.len() ==> is_plain_host(#[trigger] m.hosts[k])
    &&& forall|k: int|
        0 <= k < m.region.dims.len() ==> is_plain_label((#[trigger] m.region.dims[k]).label)
            && !m.region.dims[k].label.contains('@')
}

proof fn lemma_absent(s: Seq<char>, c: char)
    requires
        !s.contains(c),
    ensures
        forall|j: int| 0 <= j < s.len() ==> #[trigger] s[j] != c,
{
    assert forall|j: int| 0 <= j < s.len() implies #[trigger] s[j] != c by {
        assert(s.contains(s[j]));
    }
}

/// Written hosts fall apart into the hosts again.
proof fn lemma_hosts_text(hosts: Seq<AddrModel>)
    requires
        hosts.len() > 0,
        forall|k: int| 0 <= k < hosts.len() ==> is_plain_host(#[trigger] hosts[k]),
    ensures
        split_on(hosts_text(hosts), ',') == hosts.map_values(|a: AddrModel| addr_text(a)),
    decreases hosts.len(),
{
    let last = hosts.last();
    let t = addr_text(last);
    assert(is_plain_host(hosts[hosts.len() - 1]));
    lemma_split_on_none(t, ',');
    if hosts.len() == 1 {
        assert(hosts.map_values(|a: AddrModel| addr_text(a)) =~= seq![t]);
    } else {
        let rest = hosts.drop_last();
        assert forall|k: int| 0 <= k < rest.len() implies is_plain_host(#[trigger] rest[k]) by {
            assert(rest[k] == hosts[k]);
        }
        lemma_hosts_text(rest);
        let r = hosts_text(rest);
        lemma_split_on_concat(r, t, ',');
        assert(hosts.map_values(|a: AddrModel| addr_text(a)) =~= rest.map_values(|a: AddrModel| addr_text(a)) + seq![t]);
    }
}

/// What is written of a mesh falls apart into its name, its hosts and its region.
pub proof fn mesh_text_falls_apart(m: HostMeshModel)
    requires
        is_plain_mesh(m),
    ensures
        mesh_parts(mesh_text(m)) == Ok::<(Seq<char>, Seq<Seq<char>>, Seq<char>), bool>(
            (m.name, m.hosts.map_values(|a: AddrModel| addr_text(a)), region_text(m.region)),
        ),
{
    let t = mesh_text(m);
    let n = m.name;
    let h = hosts_text(m.hosts);
    let g = region_text(m.region);
    lemma_absent(n, ':');
    lemma_split_first_at(t, ':', n.len() as int);
    assert(t.take(n.len() as int) =~= n);
    let rest = h.push('@') + g;
    assert(t.skip(n.len() as int + 1) =~= rest);
    lemma_hosts_text(m.hosts);
    region_text_is_free_of(m.region, '@');
    assert forall|j: int| h.len() < j < rest.len() implies rest[j] != '@' by {
        assert(rest[j] == g[j - h.len() - 1]);
    }
    lemma_split_last_at(rest, '@', h.len() as int);
    assert(rest.take(h.len() as int) =~= h);
    assert(rest.skip(h.len() as int + 1) =~= g);
    let parts = m.hosts.map_values(|a: AddrModel| addr_text(a));
    let cleaned = parts.map_values(|p: Seq<char>| trimmed(p));
    assert forall|k: int| 0 <= k < parts.len() implies cleaned[k] == parts[k] by {
        assert(is_plain_host(m.hosts[k]));
        lemma_trimmed_same(parts[k]);
    }
    assert(cleaned =~= parts);
}

/// What is written of a mesh reads back as that mesh: `r` may be anything that
/// reading it gives.
pub proof fn mesh_text_reads_back(mesh: HostMeshRef, r: Result<HostMeshRef, HostMeshRefParseError>)
    requires
        mesh.wf(),
        is_plain_mesh(mesh@),
        mesh_reads_as(mesh_text(mesh@), r),
    ensures
        r matches Ok(back) && back@ == mesh@,
{
    let m = mesh@;
    mesh_text_falls_apart(m);
    region_text_reads_back(m.region);
    let parts = m.hosts.map_values(|a: AddrModel| addr_text(a));
    assert forall|k: int| 0 <= k < parts.len() implies names_an_addr(#[trigger] parts[k]) && channel_addr(
        parts[k],
        Seq::<char>::empty(),
    ) == Ok::<AddrModel, AddrErrorModel>(m.hosts[k]) && !leaves_name_open(parts[k]) by {
        assert(is_plain_host(m.hosts[k]));
        addr_text_reads_back(m.hosts[k], Seq::<char>::empty());
    }
    match r {
        Ok(back) => {
            assert(is_mesh_of(back, m.name, parts, region_text(m.region)));
            assert forall|k: int| 0 <= k < parts.len() implies back@.hosts[k] == m.hosts[k] by {
                assert(is_addr_of(back.hosts()[k].0, parts[k]));
                assert(names_an_addr(parts[k]));
            }
            assert(back@.hosts =~= m.hosts);
        },
        Err(_) => {},
    }
}

/// Hosts along one dimension are as many as were given, each at its own place;
/// a single one has the only rank.
pub proof fn a_line_has_a_rank_for_each_host(n: usize, i: nat)
    ensures
        host_line(n).num_ranks() == n,
        i < n ==> host_line(n).rank(i) == i,
        host_line(n).labels() == seq!["hosts"@],
        unit_region().num_ranks() == 1,
        unit_region().rank(0) == 0,
        unit_region().dims.len() == 0,
{
    let axes = seq![AxisModel { label: HOSTS@, size: n }];
    assert(axes.drop_last() =~= Seq::<AxisModel>::empty());
    crate::mesh::region::only_empty_dimensions_leave_no_ranks(axes);
    assert(crate::mesh::region::axes_room(axes.drop_last()) == 1);
    assert(1 * crate::mesh::region::at_least_one(n) == crate::mesh::region::at_least_one(n));
    assert(crate::mesh::region::axes_room(axes) == crate::mesh::region::at_least_one(n));
    crate::mesh::region::the_whole_has_its_dimensions(axes);
    if i < n {
        crate::mesh::region::every_rank_is_its_number(axes, i);
    }
    let dims = row_major(axes);
    assert(crate::mesh::region::extent_of(dims)[0] == axes[0]);
    assert(host_line(n).labels() =~= seq![HOSTS@]);
}

/// An agent has a host exactly where its proc is reached at an address, and it
/// is the host at that address.
pub proof fn agents_are_on_the_host_of_their_proc(agent: ActorId)
    ensures
        agent_host(agent) is Some <==> agent.proc_id is Direct,
        agent_host(agent) matches Some(addr) ==> (agent.proc_id matches ProcId::Direct(a, _) && a == addr),
{
}

/// The parts of a written mesh put together again are what was written, but for
/// white space around the hosts; a text without a colon has no name, and one
/// without an `@` behind it no region.
pub proof fn written_meshes_fall_into_their_parts(s: Seq<char>, at: int, to: int)
    requires
        0 <= at < s.len(),
        s[at] == ':',
        forall|j: int| 0 <= j < at ==> s[j] != ':',
    ensures
        (forall|j: int| at < j < s.len() ==> s[j] != '@') ==> mesh_parts(s) == Err::<
            (Seq<char>, Seq<Seq<char>>, Seq<char>),
            bool,
        >(true),
        at < to < s.len() && s[to] == '@' && (forall|j: int| to < j < s.len() ==> s[j] != '@') ==> {
            &&& mesh_parts(s) matches Ok((name, hosts, region))
            &&& name == s.take(at)
            &&& region == s.skip(to + 1)
            &&& hosts.len() == split_on(s.subrange(at + 1, to), ',').len()
            &&& forall|k: int|
                0 <= k < hosts.len() ==> #[trigger] hosts[k] == trimmed(split_on(s.subrange(at + 1, to), ',')[k])
        },
{
    lemma_split_first_at(s, ':', at);
    let rest = s.skip(at + 1);
    if forall|j: int| at < j < s.len() ==> s[j] != '@' {
        assert forall|j: int| 0 <= j < rest.len() implies rest[j] != '@' by {
            assert(rest[j] == s[at + 1 + j]);
        }
        crate::text::lemma_split_last_none(rest, '@');
    }
    if at < to < s.len() && s[to] == '@' && (forall|j: int| to < j < s.len() ==> s[j] != '@') {
        let k = to - at - 1;
        assert forall|j: int| k < j < rest.len() implies rest[j] != '@' by {
            assert(rest[j] == s[at + 1 + j]);
        }
        lemma_split_last_at(rest, '@', k);
        assert(rest.take(k) =~= s.subrange(at + 1, to));
        assert(rest.skip(k + 1) =~= s.skip(to + 1));
    }
}

/// A name that is none is refused with why, where there is one at all, whatever
/// else is wrong; a name that is one has no part in what is read.
pub proof fn names_are_checked_first(
    s: Seq<char>,
    name: Result<(), String>,
    r: Result<HostMeshRef, HostMeshRefParseError>,
)
    requires
        mesh_reads_checked(s, name, r),
    ensures
        name is Ok ==> mesh_reads_as(s, r),
        name matches Err(why) ==> s.contains(':') ==> r == Err::<HostMeshRef, HostMeshRefParseError>(
            HostMeshRefParseError::InvalidName(why),
        ),
        !s.contains(':') ==> r matches Err(HostMeshRefParseError::MissingName),
{
    if s.contains(':') {
        let at = lemma_first_place(s, ':', s.len() as int);
        lemma_split_first_at(s, ':', at);
    } else {
        lemma_absent(s, ':');
        crate::text::lemma_split_first_none(s, ':');
    }
}

proof fn lemma_first_place(s: Seq<char>, c: char, n: int) -> (at: int)
    requires
        0 <= n <= s.len(),
        exists|j: int| 0 <= j < n && s[j] == c,
    ensures
        0 <= at < n,
        s[at] == c,
        forall|j: int| 0 <= j < at ==> s[j] != c,
    decreases n,
{
    if exists|j: int| 0 <= j < n - 1 && s[j] == c {
        lemma_first_place(s, c, n - 1)
    } else {
        n - 1
    }
}

/// A mesh that was read has the hosts that were written, in their order, one for
/// each rank of the region that was written, and the name that was written.
pub proof fn meshes_are_read_whole(s: Seq<char>, r: Result<HostMeshRef, HostMeshRefParseError>)
    requires
        mesh_reads_as(s, r),
    ensures
        r matches Ok(mesh) ==> {
            &&& mesh_parts(s) matches Ok((name, hosts, region))
            &&& mesh@.name == name
            &&& mesh.hosts().len() == hosts.len()
            &&& mesh@.region.num_ranks() == hosts.len()
            &&& region_of(region) == Some(mesh@.region)
            &&& forall|k: int| 0 <= k < hosts.len() ==> is_addr_of((#[trigger] mesh.hosts()[k]).0, hosts[k])
        },
        r matches Err(HostMeshRefParseError::InvalidHostMeshRef(MeshRefError::InvalidRankCardinality { expected, actual }))
            ==> {
            &&& mesh_parts(s) matches Ok((_, hosts, region))
            &&& actual == hosts.len()
            &&& region_of(region) matches Some(m) && m.num_ranks() == expected
            &&& expected != actual
        },
        r matches Err(HostMeshRefParseError::MissingRegion) <==> mesh_parts(s) == Err::<
            (Seq<char>, Seq<Seq<char>>, Seq<char>),
            bool,
        >(true),
{
}

}
