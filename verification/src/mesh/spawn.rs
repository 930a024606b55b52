//! Starting a mesh of procs on a mesh of hosts.

use crate::mesh::bootstrap::ProcId;
use crate::mesh::host_agent::ProcState;
use crate::mesh::host_ref::{ActorId, HostMeshRef, HostRef, AGENT};
use crate::mesh::region::{axes_count, axes_room, extent_of, row_major, AxisModel, Extent, Region, RegionModel};
use crate::mesh::resource::{
    are_runs, runs_say, statuses_with_default, with_default, RankedValues, Span, State, Status,
};
use crate::numerals::{decimal, format_decimal};
use crate::text::{any_is, texts};
use vstd::prelude::*;

verus! {

/// How long nothing may be heard of procs that are being started, in seconds,
/// unless it is set otherwise.
pub const PROC_SPAWN_MAX_IDLE_SECS: u64 = 30;

/// What is asked of a host for a proc of a new mesh.
#[derive(Debug)]
pub struct SpawnStep {
    /// The rank of the host in its mesh.
    pub host_rank: usize,
    /// The rank of the proc among those of its host.
    pub per_host_rank: usize,
    /// The rank of the proc in the new mesh.
    pub create_rank: usize,
    /// What the proc is named after.
    pub proc_name: String,
}

/// What is asked of the hosts for a new mesh of procs.
pub struct SpawnPlan {
    /// The dimensions of the new mesh: those of the hosts, then those of the
    /// procs on each.
    pub extent: Extent,
    pub region: Region,
    pub steps: Vec<SpawnStep>,
}

/// A proc of a new mesh.
pub struct ProcRef {
    pub proc_id: ProcId,
    /// The rank of the proc in the mesh.
    pub create_rank: usize,
    /// The agent of the proc.
    pub agent: ActorId,
}

/// A label of the procs is one of the hosts.
#[derive(Debug, Clone, Copy, PartialEq, Eq, Structural)]
pub struct OverlappingDims;

impl OverlappingDims {
    /// The error, written for a reader.
    pub fn text(&self) -> (s: String)
        ensures
            s@ == "per_host dims overlap with existing dims when spawning proc mesh"@,
    {
        "per_host dims overlap with existing dims when spawning proc mesh".to_owned()
    }
}

/// The labels of dimensions.
pub open spec fn axis_labels(axes: Seq<AxisModel>) -> Seq<Seq<char>> {
    axes.map_values(|a: AxisModel| a.label)
}

/// Whether two rows of labels have one in common.
pub open spec fn overlap(a: Seq<Seq<char>>, b: Seq<Seq<char>>) -> bool {
    exists|k: int| 0 <= k < a.len() && b.contains(#[trigger] a[k])
}

/// What a proc is named after: its mesh, and its rank among the procs of its host.
pub open spec fn proc_name(mesh: Seq<char>, per_host_rank: nat) -> Seq<char> {
    mesh.push('_') + decimal(per_host_rank)
}

/// Whether the steps create the procs of a mesh with `n` procs on each host.
pub open spec fn are_spawn_steps(steps: Seq<SpawnStep>, mesh: Seq<char>, n: nat) -> bool {
    forall|i: int|
        0 <= i < steps.len() ==> {
            &&& (#[trigger] steps[i]).create_rank == i
            &&& n > 0
            &&& steps[i].create_rank == n * steps[i].host_rank as nat + steps[i].per_host_rank as nat
            &&& steps[i].per_host_rank < n
            &&& steps[i].proc_name@ == proc_name(mesh, steps[i].per_host_rank as nat)
        }
}

/// Each rank of a new mesh belongs to one proc of one host: the two can be told
/// from the rank.
pub proof fn create_rank_tells_the_host(host_rank: nat, per_host_rank: nat, n: nat)
    requires
        per_host_rank < n,
    ensures
        (n * host_rank + per_host_rank) / n == host_rank,
        (n * host_rank + per_host_rank) % n == per_host_rank,
{
    assert(n * host_rank == host_rank * n) by (nonlinear_arith);
    vstd::arithmetic::div_mod::lemma_fundamental_div_mod_converse(
        (n * host_rank + per_host_rank) as int,
        n as int,
        host_rank as int,
        per_host_rank as int,
    );
}

impl HostMeshRef {
    fn shares_label(&self, per_host: &Extent) -> (r: bool)
        ensures
            r == overlap(axis_labels(per_host@), self@.region.labels()),
    {
        let labels: Vec<String> = self.region().labels();
        let own: Vec<String> = per_host.labels();
        let mut k: usize = 0;
        assert(texts(own@) == axis_labels(per_host@));
        while k < own.len()
            invariant
                k <= own@.len(),
                texts(own@) == axis_labels(per_host@),
                texts(labels@) == self@.region.labels(),
                forall|j: int| 0 <= j < k ==> !self@.region.labels().contains(#[trigger] axis_labels(per_host@)[j]),
            decreases own@.len() - k,
        {
            assert(texts(own@)[k as int] == own@[k as int]@);
            if any_is(&labels, own[k].as_str()) {
                assert(self@.region.labels().contains(axis_labels(per_host@)[k as int]));
                return true;
            }
            k = k + 1;
        }
        assert(texts(own@).len() == axis_labels(per_host@).len());
        false
    }

    /// What is asked of the hosts for a new mesh with those dimensions of procs
    /// on each host.
    pub fn spawn_plan(&self, mesh_name: &str, per_host: &Extent) -> (r: Result<SpawnPlan, OverlappingDims>)
        requires
            self.wf(),
            per_host.fits(),
            axes_room(extent_of(self@.region.dims)) * axes_room(per_host@) <= usize::MAX,
        ensures
            r is Err <==> overlap(axis_labels(per_host@), self@.region.labels()),
            r matches Ok(plan) ==> {
                &&& plan.extent@ == extent_of(self@.region.dims) + per_host@
                &&& plan.region@ == (RegionModel { offset: 0, dims: row_major(plan.extent@) })
                &&& plan.region@.fits()
                &&& plan.region@.num_ranks() == plan.steps@.len()
                &&& plan.steps@.len() == self.hosts().len() * axes_count(per_host@)
                &&& are_spawn_steps(plan.steps@, mesh_name@, axes_count(per_host@))
                &&& forall|i: int| 0 <= i < plan.steps@.len() ==> (#[trigger] plan.steps@[i]).host_rank
                    < self.hosts().len()
            },
    {
        if self.shares_label(per_host) {
            return Err(OverlappingDims);
        }
        let extent: Extent = self.region().extent().concat(per_host);
        let region: Region = extent.region();
        let n: usize = per_host.num_ranks();
        let hosts: usize = self.len();
        let total: usize = region.num_ranks();
        let mut steps: Vec<SpawnStep> = Vec::new();
        let mut host_rank: usize = 0;
        proof {
            assert(total == hosts * n);
        }
        while host_rank < hosts
            invariant
                host_rank <= hosts,
                hosts == self.hosts().len(),
                n == axes_count(per_host@),
                total == hosts * n,
                steps@.len() == n * host_rank,
                are_spawn_steps(steps@, mesh_name@, n as nat),
                forall|i: int| 0 <= i < steps@.len() ==> (#[trigger] steps@[i]).host_rank < hosts,
            decreases hosts - host_rank,
        {
            assert(n * host_rank + n <= total) by (nonlinear_arith)
                requires
                    total == hosts * n,
                    host_rank < hosts,
            ;
            let mut k: usize = 0;
            while k < n
                invariant
                    k <= n,
                    host_rank < hosts,
                    hosts == self.hosts().len(),
                    n * host_rank + n <= total,
                    steps@.len() == n * host_rank + k,
                    are_spawn_steps(steps@, mesh_name@, n as nat),
                    forall|i: int| 0 <= i < steps@.len() ==> (#[trigger] steps@[i]).host_rank < hosts,
                decreases n - k,
            {
                assert(n * host_rank >= 0) by (nonlinear_arith);
                let create_rank: usize = n * host_rank + k;
                let mut name: String = mesh_name.to_owned();
                name.push('_');
                name.append(format_decimal(k as u64).as_str());
                assert(n as nat * host_rank as nat == n * host_rank);
                steps.push(SpawnStep { host_rank, per_host_rank: k, create_rank, proc_name: name });
                k = k + 1;
            }
            assert(n * host_rank + n == n * (host_rank + 1)) by (nonlinear_arith);
            host_rank = host_rank + 1;
        }
        assert(n * hosts == hosts * n) by (nonlinear_arith);
        Ok(SpawnPlan { extent, region, steps })
    }
}

/// Whether a proc is the one of that name and rank on a host.
pub open spec fn is_proc_of(r: ProcRef, host: HostRef, name: String, create_rank: usize) -> bool {
    &&& r.proc_id == ProcId::Direct(host.0, name)
    &&& r.create_rank == create_rank
    &&& r.agent.proc_id == r.proc_id
    &&& r.agent.name@ == AGENT@
    &&& r.agent.index == 0
}

impl SpawnStep {
    /// The proc that the step creates under that name, on the host of its rank.
    pub fn proc_ref(&self, host: &HostRef, name: String) -> (r: ProcRef)
        ensures
            is_proc_of(r, *host, name, self.create_rank),
    {
        let proc_id = host.named_proc(name);
        let agent = ActorId { proc_id: proc_id.clone(), name: AGENT.to_owned(), index: 0 };
        ProcRef { proc_id, create_rank: self.create_rank, agent }
    }
}

/// The first rank that is on its way to its end, or has come to it.
pub open spec fn is_first_terminating(statuses: Seq<Status>, rank: int) -> bool {
    &&& 0 <= rank < statuses.len()
    &&& statuses[rank]@.terminating()
    &&& forall|k: int| 0 <= k < rank ==> !(#[trigger] statuses[k])@.terminating()
}

/// The first rank that is on its way to its end, or has come to it.
pub fn first_terminating(statuses: &Vec<Status>) -> (r: Option<usize>)
    ensures
        match r {
            Some(rank) => is_first_terminating(statuses@, rank as int),
            None => forall|k: int| 0 <= k < statuses@.len() ==> !(#[trigger] statuses@[k])@.terminating(),
        },
{
    let mut i: usize = 0;
    while i < statuses.len()
        invariant
            i <= statuses@.len(),
            forall|k: int| 0 <= k < i ==> !(#[trigger] statuses@[k])@.terminating(),
        decreases statuses@.len() - i,
    {
        if statuses[i].is_terminating() {
            return Some(i);
        }
        i = i + 1;
    }
    None
}

/// What came of waiting for the ranks of a mesh: what was heard of all, or, when
/// the time was up, what was heard so far.
pub enum Heard {
    All(Vec<Status>),
    TimedOut(Vec<Status>),
}

/// Why a mesh of procs could not be started.
pub enum SpawnError {
    /// There is no name for a proc.
    Name { reason: String },
    /// The agent of the host of that rank could not be asked.
    Agent { host_rank: usize, reason: String },
    /// The agent of the host of that rank could not be asked about a proc that
    /// is not up.
    Sending { host_rank: usize, reason: String },
    /// A proc on the host of that rank is not up; with what is known of it.
    ProcCreation { host_rank: usize, state: State<ProcState> },
    /// Some procs were not heard of in time; with how all of them do.
    ProcSpawn { statuses: RankedValues<Status> },
}

/// What is to be done next to start a mesh of procs. `names` are the names of
/// the procs so far, in the order of the steps.
pub enum SpawnStage {
    /// Draw a name of its own for the proc of the next step, after what the
    /// step says.
    Name { names: Vec<String> },
    /// Ask the host for the proc that was named last.
    Create { names: Vec<String> },
    /// Ask the host how the proc that was named last does.
    Query { names: Vec<String> },
    /// Wait until all procs were heard of.
    Wait { names: Vec<String> },
    /// Ask the host of that rank what is known of the proc of that rank, which
    /// is not up.
    AskState { names: Vec<String>, rank: usize, host_rank: usize, status: Status },
    /// The procs are up.
    Created { names: Vec<String> },
    Failed(SpawnError),
}

/// What came of a stage.
pub enum SpawnAnswer {
    /// The name of a proc.
    Named(Result<String, String>),
    /// The host was asked for a proc.
    Asked(Result<(), String>),
    /// The host was asked how a proc does.
    Queried(Result<(), String>),
    /// What was heard of the procs, after so long.
    Waited(Heard, Span),
    /// What the host said of a proc; nothing where it said nothing in time.
    Told(Result<Option<State<ProcState>>, String>),
}

/// Whether an error says that an agent could not be asked.
pub open spec fn is_agent_error(next: SpawnStage, host_rank: usize, reason: Seq<char>) -> bool {
    next matches SpawnStage::Failed(SpawnError::Agent { host_rank: h, reason: r }) && h == host_rank && r@ == reason
}

/// What may be heard of the procs that a plan creates.
pub open spec fn can_be_heard(plan: SpawnPlan, answer: SpawnAnswer) -> bool {
    match answer {
        SpawnAnswer::Waited(Heard::All(statuses), _) => statuses@.len() == plan.steps@.len(),
        SpawnAnswer::Waited(Heard::TimedOut(statuses), _) => statuses@.len() <= plan.steps@.len(),
        _ => true,
    }
}

/// Whether a stage belongs to a plan: the steps that it speaks of are there,
/// and each proc has its name from the time it was asked for.
pub open spec fn is_stage_of(plan: SpawnPlan, stage: SpawnStage) -> bool {
    match stage {
        SpawnStage::Name { names } => names@.len() < plan.steps@.len(),
        SpawnStage::Create { names } => 0 < names@.len() <= plan.steps@.len(),
        SpawnStage::Query { names } => 0 < names@.len() <= plan.steps@.len(),
        SpawnStage::Wait { names } => names@.len() == plan.steps@.len(),
        SpawnStage::AskState { names, rank, .. } => names@.len() == plan.steps@.len() && rank < plan.steps@.len(),
        SpawnStage::Created { names } => names@.len() == plan.steps@.len(),
        SpawnStage::Failed(_) => true,
    }
}

/// Whether the stage is the one that follows; an answer to something else
/// changes nothing.
pub open spec fn follows_spawn(plan: SpawnPlan, stage: SpawnStage, answer: SpawnAnswer, next: SpawnStage) -> bool {
    match (stage, answer) {
        (SpawnStage::Name { names }, SpawnAnswer::Named(r)) => match r {
            Ok(name) => next matches SpawnStage::Create { names: now } && now@ == names@.push(name),
            Err(reason) => next == SpawnStage::Failed(SpawnError::Name { reason }),
        },
        (SpawnStage::Create { names }, SpawnAnswer::Asked(r)) => match r {
            Ok(_) => next == (SpawnStage::Query { names }),
            Err(e) => is_agent_error(
                next,
                plan.steps@[names@.len() - 1].host_rank,
                "failed while creating proc: "@ + e@,
            ),
        },
        (SpawnStage::Query { names }, SpawnAnswer::Queried(r)) => match r {
            Ok(_) => if names@.len() < plan.steps@.len() {
                next == (SpawnStage::Name { names })
            } else {
                next == (SpawnStage::Wait { names })
            },
            Err(e) => is_agent_error(
                next,
                plan.steps@[names@.len() - 1].host_rank,
                "failed while querying proc status: "@ + e@,
            ),
        },
        (SpawnStage::Wait { names }, SpawnAnswer::Waited(heard, elapsed)) => match heard {
            Heard::All(statuses) => match next {
                SpawnStage::Created { names: kept } => kept == names && forall|k: int|
                    0 <= k < statuses@.len() ==> !(#[trigger] statuses@[k])@.terminating(),
                SpawnStage::AskState { names: kept, rank, host_rank, status } => kept == names && is_first_terminating(
                    statuses@,
                    rank as int,
                ) && host_rank == plan.steps@[rank as int].host_rank && status == statuses@[rank as int],
                _ => false,
            },
            Heard::TimedOut(statuses) => next matches SpawnStage::Failed(SpawnError::ProcSpawn { statuses: runs })
                && are_runs(runs.spec_runs()) && runs_say(
                runs.spec_runs(),
                with_default(statuses@, Status::Timeout(elapsed), plan.steps@.len()),
            ),
        },
        (SpawnStage::AskState { names, rank, host_rank, status }, SpawnAnswer::Told(r)) => match r {
            Ok(Some(state)) => next == SpawnStage::Failed(SpawnError::ProcCreation { host_rank, state }),
            Ok(None) => next == SpawnStage::Failed(
                SpawnError::ProcCreation {
                    host_rank,
                    state: State { name: names@[rank as int], status, state: None },
                },
            ),
            Err(reason) => next == SpawnStage::Failed(SpawnError::Sending { host_rank, reason }),
        },
        (stage, _) => next == stage,
    }
}

impl SpawnPlan {
    /// Begins to start the procs.
    pub fn begin(&self) -> (stage: SpawnStage)
        ensures
            self.steps@.len() > 0 ==> (stage matches SpawnStage::Name { names } && names@.len() == 0),
            self.steps@.len() == 0 ==> (stage matches SpawnStage::Wait { names } && names@.len() == 0),
            is_stage_of(*self, stage),
    {
        if self.steps.len() > 0 {
            SpawnStage::Name { names: Vec::new() }
        } else {
            SpawnStage::Wait { names: Vec::new() }
        }
    }

    /// Goes on with starting the procs. They are named and asked for one after
    /// the other, and then all of them must be heard of.
    pub fn step(&self, stage: SpawnStage, answer: SpawnAnswer) -> (next: SpawnStage)
        requires
            is_stage_of(*self, stage),
            can_be_heard(*self, answer),
        ensures
            follows_spawn(*self, stage, answer, next),
            is_stage_of(*self, next),
    {
        match (stage, answer) {
            (SpawnStage::Name { names }, SpawnAnswer::Named(r)) => match r {
                Ok(name) => {
                    let mut names: Vec<String> = names;
                    names.push(name);
                    SpawnStage::Create { names }
                },
                Err(reason) => SpawnStage::Failed(SpawnError::Name { reason }),
            },
            (SpawnStage::Create { names }, SpawnAnswer::Asked(r)) => match r {
                Ok(_) => SpawnStage::Query { names },
                Err(e) => {
                    let mut reason: String = "failed while creating proc: ".to_owned();
                    reason.append(e.as_str());
                    SpawnStage::Failed(SpawnError::Agent { host_rank: self.steps[names.len() - 1].host_rank, reason })
                },
            },
            (SpawnStage::Query { names }, SpawnAnswer::Queried(r)) => match r {
                Ok(_) => if names.len() < self.steps.len() {
                    SpawnStage::Name { names }
                } else {
                    SpawnStage::Wait { names }
                },
                Err(e) => {
                    let mut reason: String = "failed while querying proc status: ".to_owned();
                    reason.append(e.as_str());
                    SpawnStage::Failed(SpawnError::Agent { host_rank: self.steps[names.len() - 1].host_rank, reason })
                },
            },
            (SpawnStage::Wait { names }, SpawnAnswer::Waited(heard, elapsed)) => match heard {
                Heard::All(statuses) => match first_terminating(&statuses) {
                    Some(rank) => SpawnStage::AskState {
                        names,
                        rank,
                        host_rank: self.steps[rank].host_rank,
                        status: statuses[rank].clone(),
                    },
                    None => SpawnStage::Created { names },
                },
                Heard::TimedOut(statuses) => SpawnStage::Failed(
                    SpawnError::ProcSpawn {
                        statuses: statuses_with_default(
                            &statuses,
                            Status::Timeout(elapsed),
                            self.steps.len(),
                        ),
                    },
                ),
            },
            (SpawnStage::AskState { names, rank, host_rank, status }, SpawnAnswer::Told(r)) => match r {
                Ok(Some(state)) => SpawnStage::Failed(SpawnError::ProcCreation { host_rank, state }),
                Ok(None) => {
                    let state = State { name: names[rank].clone(), status, state: None };
                    SpawnStage::Failed(SpawnError::ProcCreation { host_rank, state })
                },
                Err(reason) => SpawnStage::Failed(SpawnError::Sending { host_rank, reason }),
            },
            (stage, _) => stage,
        }
    }

    /// The procs of the mesh that was created, under their names, in the order
    /// of their ranks.
    pub fn procs(&self, hosts: &HostMeshRef, names: &Vec<String>) -> (procs: Vec<ProcRef>)
        requires
            names@.len() == self.steps@.len(),
            forall|i: int| 0 <= i < self.steps@.len() ==> (#[trigger] self.steps@[i]).host_rank < hosts.hosts().len(),
        ensures
            procs@.len() == self.steps@.len(),
            forall|i: int|
                0 <= i < procs@.len() ==> is_proc_of(
                    #[trigger] procs@[i],
                    hosts.hosts()[self.steps@[i].host_rank as int],
                    names@[i],
                    self.steps@[i].create_rank,
                ),
    {
        let mut procs: Vec<ProcRef> = Vec::new();
        let mut i: usize = 0;
        while i < self.steps.len()
            invariant
                i <= self.steps@.len(),
                names@.len() == self.steps@.len(),
                forall|j: int|
                    0 <= j < self.steps@.len() ==> (#[trigger] self.steps@[j]).host_rank < hosts.hosts().len(),
                procs@.len() == i,
                forall|j: int|
                    0 <= j < i ==> is_proc_of(
                        #[trigger] procs@[j],
                        hosts.hosts()[self.steps@[j].host_rank as int],
                        names@[j],
                        self.steps@[j].create_rank,
                    ),
            decreases self.steps@.len() - i,
        {
            let step: &SpawnStep = &self.steps[i];
            assert(self.steps@[i as int].host_rank < hosts.hosts().len());
            if let Some(host) = hosts.get(step.host_rank) {
                procs.push(step.proc_ref(host, names[i].clone()));
            }
            i = i + 1;
        }
        procs
    }
}

/// A mesh of procs is created only when all of them were heard of, and none of
/// them is on its way to its end.
pub proof fn created_only_when_all_are_up(plan: SpawnPlan, stage: SpawnStage, answer: SpawnAnswer, next: SpawnStage)
    requires
        follows_spawn(plan, stage, answer, next),
        can_be_heard(plan, answer),
        next is Created,
        !(stage is Created),
    ensures
        answer matches SpawnAnswer::Waited(Heard::All(statuses), _) && statuses@.len() == plan.steps@.len() && (forall|
            k: int,
        |
            0 <= k < statuses@.len() ==> !(#[trigger] statuses@[k])@.terminating()),
{
}

/// The host that is blamed for a proc that is not up is the one that was asked
/// for it, and the one that the rank of the proc tells.
pub proof fn the_right_host_is_blamed(
    plan: SpawnPlan,
    mesh: Seq<char>,
    n: nat,
    stage: SpawnStage,
    answer: SpawnAnswer,
    next: SpawnStage,
)
    requires
        are_spawn_steps(plan.steps@, mesh, n),
        can_be_heard(plan, answer),
        stage is Wait,
        follows_spawn(plan, stage, answer, next),
    ensures
        next matches SpawnStage::AskState { rank, host_rank, .. } ==> plan.steps@[rank as int].host_rank == host_rank
            && host_rank == rank as nat / n,
{
    if let SpawnStage::AskState { rank, host_rank, .. } = next {
        let step = plan.steps@[rank as int];
        create_rank_tells_the_host(step.host_rank as nat, step.per_host_rank as nat, n);
    }
}

/// The procs are named, asked for and asked about in the order of the steps; the
/// names that were drawn stay, each proc is asked for under the name that was
/// drawn last, and all are waited for once every proc was asked about. What
/// fails is told, with the host whose turn it was.
pub proof fn procs_are_spawned_step_by_step(plan: SpawnPlan, stage: SpawnStage, answer: SpawnAnswer, next: SpawnStage)
    requires
        is_stage_of(plan, stage),
        can_be_heard(plan, answer),
        follows_spawn(plan, stage, answer, next),
        next != stage,
    ensures
        match next {
            SpawnStage::Name { names } => stage == (SpawnStage::Query { names }) && (
            answer matches SpawnAnswer::Queried(Ok(_))) && names@.len() < plan.steps@.len(),
            SpawnStage::Create { names } => (stage matches SpawnStage::Name { names: before } && names@.drop_last()
                == before@) && answer == SpawnAnswer::Named(Ok(names@.last())),
            SpawnStage::Query { names } => stage == (SpawnStage::Create { names }) && (
            answer matches SpawnAnswer::Asked(Ok(_))),
            SpawnStage::Wait { names } => stage == (SpawnStage::Query { names }) && (
            answer matches SpawnAnswer::Queried(Ok(_))) && names@.len() == plan.steps@.len(),
            SpawnStage::AskState { names, rank, host_rank, status } => stage == (SpawnStage::Wait { names }) && (
            answer matches SpawnAnswer::Waited(Heard::All(statuses), _) && statuses@[rank as int] == status
                && status@.terminating()) && host_rank == plan.steps@[rank as int].host_rank,
            SpawnStage::Created { names } => stage == (SpawnStage::Wait { names }),
            SpawnStage::Failed(SpawnError::Name { reason }) => stage is Name && answer == SpawnAnswer::Named(Err(reason)),
            SpawnStage::Failed(SpawnError::Agent { host_rank, .. }) => match answer {
                SpawnAnswer::Asked(r) => r is Err && (stage matches SpawnStage::Create { names } && host_rank
                    == plan.steps@[names@.len() - 1].host_rank),
                SpawnAnswer::Queried(r) => r is Err && (stage matches SpawnStage::Query { names } && host_rank
                    == plan.steps@[names@.len() - 1].host_rank),
                _ => false,
            },
            SpawnStage::Failed(SpawnError::Sending { host_rank, reason }) => answer == SpawnAnswer::Told(Err(reason)) && (
            stage matches SpawnStage::AskState { host_rank: h, .. } && h == host_rank),
            SpawnStage::Failed(SpawnError::ProcCreation { host_rank, state }) => (stage matches SpawnStage::AskState {
                names,
                rank,
                host_rank: h,
                status,
            } && answer matches SpawnAnswer::Told(Ok(told)) && h == host_rank && (told == Some(state) || told is None
                && state.name == names@[rank as int] && state.status == status && state.state is None)),
            SpawnStage::Failed(SpawnError::ProcSpawn { .. }) => stage is Wait && (
            answer matches SpawnAnswer::Waited(Heard::TimedOut(_), _)),
        },
{
    if let SpawnStage::Create { names } = next {
        if let SpawnStage::Name { names: before } = stage {
            assert(names@.drop_last() =~= before@);
        }
    }
}

/// An answer to what a stage asks for ends the stage.
pub proof fn answered_spawn_stages_are_left(plan: SpawnPlan, stage: SpawnStage, answer: SpawnAnswer, next: SpawnStage)
    requires
        is_stage_of(plan, stage),
        can_be_heard(plan, answer),
        follows_spawn(plan, stage, answer, next),
        match stage {
            SpawnStage::Name { .. } => answer is Named,
            SpawnStage::Create { .. } => answer is Asked,
            SpawnStage::Query { .. } => answer is Queried,
            SpawnStage::Wait { .. } => answer is Waited,
            SpawnStage::AskState { .. } => answer is Told,
            _ => false,
        },
    ensures
        next != stage,
{
}

/// A mesh is created where all its procs were heard of and each is up.
pub proof fn created_when_all_are_up(
    plan: SpawnPlan,
    names: Vec<String>,
    statuses: Vec<Status>,
    elapsed: Span,
    next: SpawnStage,
)
    requires
        follows_spawn(
            plan,
            SpawnStage::Wait { names },
            SpawnAnswer::Waited(Heard::All(statuses), elapsed),
            next,
        ),
        forall|k: int| 0 <= k < statuses@.len() ==> (#[trigger] statuses@[k])@ is Running,
    ensures
        next == (SpawnStage::Created { names }),
{
}

/// Where the time was up, it is told of every rank what was heard of it, or that
/// for so long nothing was.
pub proof fn ranks_not_heard_of_have_timed_out(
    plan: SpawnPlan,
    names: Vec<String>,
    statuses: Vec<Status>,
    elapsed: Span,
    next: SpawnStage,
    k: int,
    i: int,
)
    requires
        follows_spawn(
            plan,
            SpawnStage::Wait { names },
            SpawnAnswer::Waited(Heard::TimedOut(statuses), elapsed),
            next,
        ),
    ensures
        next matches SpawnStage::Failed(SpawnError::ProcSpawn { statuses: runs }) && (0 <= k < runs.spec_runs().len()
            && runs.spec_runs()[k].start <= i < runs.spec_runs()[k].end && i < plan.steps@.len()
            ==> runs.spec_runs()[k].value@ == (if i < statuses@.len() && !(statuses@[i]@ is NotExist) {
            statuses@[i]@
        } else {
            Status::Timeout(elapsed)@
        })),
{
    if let SpawnStage::Failed(SpawnError::ProcSpawn { statuses: runs }) = next {
        let values = with_default(statuses@, Status::Timeout(elapsed), plan.steps@.len());
        if 0 <= k < runs.spec_runs().len() && runs.spec_runs()[k].start <= i < runs.spec_runs()[k].end && i
            < plan.steps@.len() {
            assert(values[i] == runs.spec_runs()[k].value@);
        }
    }
}

/// Rows of labels overlap where some label stands in both.
pub proof fn overlapping_rows_share_a_label(a: Seq<Seq<char>>, b: Seq<Seq<char>>)
    ensures
        overlap(a, b) <==> exists|label: Seq<char>| #[trigger] a.contains(label) && b.contains(label),
        overlap(a, b) == overlap(b, a),
{
    if overlap(a, b) {
        let k = choose|k: int| 0 <= k < a.len() && b.contains(#[trigger] a[k]);
        assert(a.contains(a[k]));
        let j = choose|j: int| 0 <= j < b.len() && b[j] == a[k];
        assert(a.contains(b[j]));
    }
    if overlap(b, a) {
        let k = choose|k: int| 0 <= k < b.len() && a.contains(#[trigger] b[k]);
        let j = choose|j: int| 0 <= j < a.len() && a[j] == b[k];
        assert(b.contains(a[j]));
    }
    if exists|label: Seq<char>| #[trigger] a.contains(label) && b.contains(label) {
        let label = choose|label: Seq<char>| #[trigger] a.contains(label) && b.contains(label);
        let k = choose|k: int| 0 <= k < a.len() && a[k] == label;
        assert(b.contains(a[k]));
    }
}

/// The steps of a mesh have every rank once: the hosts in their order, and on
/// each its procs in theirs, each proc named after the mesh and its rank on its
/// host.
pub proof fn every_host_starts_its_procs(steps: Seq<SpawnStep>, mesh: Seq<char>, n: nat, i: int)
    requires
        are_spawn_steps(steps, mesh, n),
        0 <= i < steps.len(),
    ensures
        steps[i].create_rank == i,
        steps[i].host_rank == i / n as int,
        steps[i].per_host_rank == i % n as int,
        steps[i].proc_name@ == mesh + seq!['_'] + decimal((i % n as int) as nat),
{
    let step = steps[i];
    create_rank_tells_the_host(step.host_rank as nat, step.per_host_rank as nat, n);
    assert(mesh.push('_') =~= mesh + seq!['_']);
}

/// A proc of a mesh is on the host that was asked for it, has the rank of its
/// step, and its agent is on it.
pub proof fn procs_are_on_their_hosts(r: ProcRef, host: HostRef, name: String, create_rank: usize)
    requires
        is_proc_of(r, host, name, create_rank),
    ensures
        r.proc_id == ProcId::Direct(host.0, name),
        r.agent.proc_id == r.proc_id,
        r.agent.name@ == "agent"@,
        r.agent.index == 0,
        r.create_rank == create_rank,
{
}

}
