//! Stopping the procs of a mesh, and asking how they do.

use crate::mesh::bootstrap::{proc_id_text, ProcId};
use crate::mesh::host_agent::ProcState;
use crate::mesh::host_ref::HostRef;
use crate::mesh::region::Region;
use crate::mesh::resource::{
    are_runs, runs_say, statuses_with_default, with_default, RankedValues, Span, State, Status,
};
use crate::mesh::spawn::Heard;
use vstd::prelude::*;

verus! {

/// How long nothing may be heard of procs that are being stopped, in seconds,
/// unless it is set otherwise.
pub const PROC_STOP_MAX_IDLE_SECS: u64 = 30;

/// How long nothing may be heard when procs are asked how they do, in seconds,
/// unless it is set otherwise.
pub const GET_PROC_STATE_MAX_IDLE_SECS: u64 = 60;

/// A proc that must be reached at an address, and is not.
#[derive(Debug)]
pub struct NotDirect(pub ProcId);

/// How a `NotDirect` is written.
pub open spec fn not_direct_text(e: NotDirect) -> Seq<char> {
    "host mesh proc "@ + proc_id_text(e.0) + " must be direct addressed"@
}

impl NotDirect {
    /// The error, written for a reader.
    pub fn text(&self) -> (s: String)
        ensures
            s@ == not_direct_text(*self),
    {
        let mut s: String = "host mesh proc ".to_owned();
        s.append(self.0.display().as_str());
        s.append(" must be direct addressed");
        s
    }
}

/// The host that a proc runs on, and its name there.
pub open spec fn host_of_proc(proc_id: ProcId) -> Result<(HostRef, String), NotDirect> {
    match proc_id {
        ProcId::Direct(addr, name) => Ok((HostRef(addr), name)),
        ProcId::Ranked(..) => Err(NotDirect(proc_id)),
    }
}

/// A proc runs on the host at its address, under its name; one without an
/// address runs on none, and is named in the error.
pub proof fn procs_run_on_the_host_at_their_address(proc_id: ProcId)
    ensures
        host_of_proc(proc_id) matches Ok((host, name)) ==> proc_id == ProcId::Direct(host.0, name),
        host_of_proc(proc_id) is Ok <==> proc_id is Direct,
        host_of_proc(proc_id) matches Err(e) ==> e.0 == proc_id,
{
}

/// The host that a proc runs on, and its name there.
pub fn host_and_name(proc_id: &ProcId) -> (r: Result<(HostRef, String), NotDirect>)
    ensures
        r == host_of_proc(*proc_id),
{
    match proc_id {
        ProcId::Direct(addr, name) => Ok((HostRef(addr.clone()), name.clone())),
        ProcId::Ranked(..) => Err(NotDirect(proc_id.clone())),
    }
}

/// What came of stopping the procs of a mesh.
pub enum StopOutcome {
    Stopped,
    /// Some of them are still up.
    NotStopped(Vec<Status>),
    /// Some were not heard of in time.
    TimedOut { statuses: RankedValues<Status> },
}

fn all_terminating(statuses: &Vec<Status>) -> (r: bool)
    ensures
        r == forall|k: int| 0 <= k < statuses@.len() ==> (#[trigger] statuses@[k])@.terminating(),
{
    let mut i: usize = 0;
    while i < statuses.len()
        invariant
            i <= statuses@.len(),
            forall|k: int| 0 <= k < i ==> (#[trigger] statuses@[k])@.terminating(),
        decreases statuses@.len() - i,
    {
        if !statuses[i].is_terminating() {
            assert(!statuses@[i as int]@.terminating());
            return false;
        }
        i = i + 1;
    }
    true
}

/// Whether an outcome follows from what was heard of procs that were to stop:
/// all of them must be on their way to their end, or have come to it.
pub open spec fn is_stop_outcome(heard: Heard, num_ranks: nat, elapsed: Span, r: StopOutcome) -> bool {
    match heard {
        Heard::All(statuses) => if forall|k: int|
            0 <= k < statuses@.len() ==> (#[trigger] statuses@[k])@.terminating() {
            r is Stopped
        } else {
            r == StopOutcome::NotStopped(statuses)
        },
        Heard::TimedOut(statuses) => r matches StopOutcome::TimedOut { statuses: runs } && are_runs(runs.spec_runs())
            && runs_say(runs.spec_runs(), with_default(statuses@, Status::Timeout(elapsed), num_ranks)),
    }
}

/// What came of stopping the procs of a mesh.
pub fn stop_outcome(heard: Heard, num_ranks: usize, elapsed: Span) -> (r: StopOutcome)
    requires
        heard matches Heard::TimedOut(statuses) ==> statuses@.len() <= num_ranks,
    ensures
        is_stop_outcome(heard, num_ranks as nat, elapsed, r),
{
    match heard {
        Heard::All(statuses) => if all_terminating(&statuses) {
            StopOutcome::Stopped
        } else {
            StopOutcome::NotStopped(statuses)
        },
        Heard::TimedOut(statuses) => StopOutcome::TimedOut {
            statuses: statuses_with_default(&statuses, Status::Timeout(elapsed), num_ranks),
        },
    }
}

/// Stopping the procs of a mesh.
pub struct StopPlan {
    pub procs: Vec<ProcId>,
    /// How many ranks the region of the mesh has.
    pub num_ranks: usize,
    /// Why the procs are stopped.
    pub reason: String,
}

/// What is to be done next to stop the procs of a mesh.
pub enum StopStage {
    /// Ask the host to stop the proc at that place in the list, by its name, for
    /// the reason of the plan; unless the name is none.
    Stop { at: usize, host: HostRef, name: String },
    /// Ask the host how the proc does.
    Query { at: usize, host: HostRef, name: String },
    /// Wait until all procs were heard of.
    Wait,
    /// What came of it.
    Done(StopOutcome),
    /// A host could not be asked.
    Failed(String),
}

/// What came of a stage.
pub enum StopAnswer {
    /// What was taken for the name of a proc is none; with why.
    InvalidName(String),
    /// The host was asked to stop a proc.
    Sent(Result<(), String>),
    /// The host was asked how a proc does.
    Queried(Result<(), String>),
    /// What was heard of the procs, after so long.
    Waited(Heard, Span),
}

/// Whether a stage begins with the proc at a place in the list; behind the last
/// it waits.
pub open spec fn stops_from(plan: StopPlan, at: int, stage: StopStage) -> bool {
    if at >= plan.procs@.len() {
        stage is Wait
    } else {
        match plan.procs@[at] {
            ProcId::Direct(addr, name) => stage == (StopStage::Stop { at: at as usize, host: HostRef(addr), name }),
            ProcId::Ranked(..) => stage matches StopStage::Failed(e) && e@ == not_direct_text(
                NotDirect(plan.procs@[at]),
            ),
        }
    }
}

/// Whether the stage is the one that follows; an answer to something else
/// changes nothing.
pub open spec fn follows_stop(plan: StopPlan, stage: StopStage, answer: StopAnswer, next: StopStage) -> bool {
    match (stage, answer) {
        (StopStage::Stop { .. }, StopAnswer::InvalidName(why)) => next == StopStage::Failed(why),
        (StopStage::Stop { at, host, name }, StopAnswer::Sent(r)) => match r {
            Ok(_) => next == (StopStage::Query { at, host, name }),
            Err(e) => next == StopStage::Failed(e),
        },
        (StopStage::Query { at, .. }, StopAnswer::Queried(r)) => match r {
            Ok(_) => stops_from(plan, at + 1, next),
            Err(e) => next == StopStage::Failed(e),
        },
        (StopStage::Wait, StopAnswer::Waited(heard, elapsed)) => next matches StopStage::Done(outcome)
            && is_stop_outcome(heard, plan.num_ranks as nat, elapsed, outcome),
        (stage, _) => next == stage,
    }
}

/// Whether a stage belongs to a plan: the proc that it speaks of is there.
pub open spec fn is_stop_stage(plan: StopPlan, stage: StopStage) -> bool {
    match stage {
        StopStage::Stop { at, .. } => at < plan.procs@.len(),
        StopStage::Query { at, .. } => at < plan.procs@.len(),
        _ => true,
    }
}

/// Begins to stop the procs of a mesh.
pub fn stop_proc_mesh(procs: Vec<ProcId>, region: &Region, reason: String) -> (r: (StopPlan, StopStage))
    requires
        region@.fits(),
    ensures
        r.0.procs == procs,
        r.0.num_ranks == region@.num_ranks(),
        r.0.reason == reason,
        stops_from(r.0, 0, r.1),
        is_stop_stage(r.0, r.1),
{
    let plan = StopPlan { procs, num_ranks: region.num_ranks(), reason };
    let stage: StopStage = plan.stop_from(0);
    (plan, stage)
}

impl StopPlan {
    fn stop_from(&self, at: usize) -> (stage: StopStage)
        ensures
            stops_from(*self, at as int, stage),
            is_stop_stage(*self, stage),
    {
        if at >= self.procs.len() {
            return StopStage::Wait;
        }
        match host_and_name(&self.procs[at]) {
            Ok((host, name)) => StopStage::Stop { at, host, name },
            Err(e) => StopStage::Failed(e.text()),
        }
    }

    /// Goes on with stopping the procs. The hosts are asked for one proc after
    /// the other, and then all procs must be heard of.
    pub fn step(&self, stage: StopStage, answer: StopAnswer) -> (next: StopStage)
        requires
            is_stop_stage(*self, stage),
            answer matches StopAnswer::Waited(Heard::TimedOut(statuses), _) ==> statuses@.len() <= self.num_ranks,
        ensures
            follows_stop(*self, stage, answer, next),
            is_stop_stage(*self, next),
    {
        match (stage, answer) {
            (StopStage::Stop { .. }, StopAnswer::InvalidName(why)) => StopStage::Failed(why),
            (StopStage::Stop { at, host, name }, StopAnswer::Sent(r)) => match r {
                Ok(_) => StopStage::Query { at, host, name },
                Err(e) => StopStage::Failed(e),
            },
            (StopStage::Query { at, .. }, StopAnswer::Queried(r)) => match r {
                Ok(_) => if self.procs.len() - at > 1 {
                    self.stop_from(at + 1)
                } else {
                    StopStage::Wait
                },
                Err(e) => StopStage::Failed(e),
            },
            (StopStage::Wait, StopAnswer::Waited(heard, elapsed)) => StopStage::Done(
                stop_outcome(heard, self.num_ranks, elapsed),
            ),
            (stage, _) => stage,
        }
    }
}

/// Procs count as stopped only when all of them were heard of, and each is on
/// its way to its end or has come to it.
pub proof fn stopped_only_when_all_are(plan: StopPlan, stage: StopStage, answer: StopAnswer, next: StopStage)
    requires
        follows_stop(plan, stage, answer, next),
        !(stage is Done),
        next matches StopStage::Done(outcome) && outcome is Stopped,
    ensures
        answer matches StopAnswer::Waited(Heard::All(statuses), _) && (forall|k: int|
            0 <= k < statuses@.len() ==> (#[trigger] statuses@[k])@.terminating()),
{
}

/// What the agents of hosts have said of the procs of a mesh so far, each with
/// the rank that the proc was created with.
pub struct ProcStates {
    states: Vec<(usize, State<ProcState>)>,
}

/// Something in its place, behind all that are not after it.
pub open spec fn placed<S>(sorted: Seq<(usize, S)>, item: (usize, S)) -> Seq<(usize, S)>
    decreases sorted.len(),
{
    if sorted.len() == 0 || sorted.last().0 <= item.0 {
        sorted.push(item)
    } else {
        placed(sorted.drop_last(), item).push(sorted.last())
    }
}

/// What came in any order, by rank; of the same rank, what came first is first.
pub open spec fn by_rank<S>(items: Seq<(usize, S)>) -> Seq<(usize, S)>
    decreases items.len(),
{
    if items.len() == 0 {
        items
    } else {
        placed(by_rank(items.drop_last()), items.last())
    }
}

/// Whether ranks do not fall.
pub open spec fn is_by_rank<S>(items: Seq<(usize, S)>) -> bool {
    forall|a: int, b: int| 0 <= a <= b < items.len() ==> (#[trigger] items[a]).0 <= (#[trigger] items[b]).0
}

proof fn lemma_placed<S>(sorted: Seq<(usize, S)>, item: (usize, S))
    requires
        is_by_rank(sorted),
    ensures
        is_by_rank(placed(sorted, item)),
        placed(sorted, item).to_multiset() == sorted.to_multiset().insert(item),
        placed(sorted, item).len() == sorted.len() + 1,
        forall|a: int| 0 <= a < placed(sorted, item).len() ==> (#[trigger] placed(sorted, item)[a]).0 <= item.0
            || (sorted.len() > 0 && placed(sorted, item)[a].0 <= sorted.last().0),
    decreases sorted.len(),
{
    broadcast use vstd::seq_lib::group_to_multiset_ensures;

    if sorted.len() > 0 && sorted.last().0 > item.0 {
        let rest = sorted.drop_last();
        assert forall|a: int, b: int| 0 <= a <= b < rest.len() implies (#[trigger] rest[a]).0 <= (#[trigger] rest[b]).0 by {
            assert(sorted[a].0 <= sorted[b].0);
        }
        lemma_placed(rest, item);
        let inner = placed(rest, item);
        assert(rest.push(sorted.last()) =~= sorted);
        assert(inner.push(sorted.last()).to_multiset() =~= sorted.to_multiset().insert(item));
        assert forall|a: int| 0 <= a < inner.len() implies (#[trigger] inner[a]).0 <= sorted.last().0 by {
            if rest.len() > 0 {
                assert(sorted[rest.len() - 1].0 <= sorted[sorted.len() - 1].0);
            }
        }
    } else if sorted.len() > 0 {
        assert forall|a: int| 0 <= a < sorted.len() implies (#[trigger] sorted[a]).0 <= item.0 by {
            assert(sorted[a].0 <= sorted[sorted.len() - 1].0);
        }
    }
}

/// To order by rank orders: no rank is before a smaller one, and nothing is lost
/// or added.
pub proof fn by_rank_orders<S>(items: Seq<(usize, S)>)
    ensures
        is_by_rank(by_rank(items)),
        by_rank(items).to_multiset() == items.to_multiset(),
        by_rank(items).len() == items.len(),
    decreases items.len(),
{
    broadcast use vstd::seq_lib::group_to_multiset_ensures;

    if items.len() > 0 {
        by_rank_orders(items.drop_last());
        lemma_placed(by_rank(items.drop_last()), items.last());
        assert(items.drop_last().push(items.last()) =~= items);
    }
}

/// The states, without the ranks.
pub open spec fn values<S>(items: Seq<(usize, S)>) -> Seq<S> {
    items.map_values(|p: (usize, S)| p.1)
}

/// Whether a rank was heard of.
pub open spec fn heard_of<S>(items: Seq<(usize, S)>, rank: int) -> bool {
    exists|k: int| 0 <= k < items.len() && (#[trigger] items[k]).0 == rank
}

/// Whether what was said is of different procs among so many.
pub open spec fn each_has_a_place<S>(said: Seq<(usize, S)>, n: nat) -> bool {
    &&& forall|k: int| 0 <= k < said.len() ==> (#[trigger] said[k]).0 < n
    &&& forall|a: int, b: int| 0 <= a < b < said.len() ==> (#[trigger] said[a]).0 != (#[trigger] said[b]).0
}

/// Whether states are those that were said, by rank, and for the procs that were
/// not heard of that they have timed out.
pub open spec fn is_padded(
    said: Seq<(usize, State<ProcState>)>,
    names: Seq<String>,
    timeout: Span,
    v: Seq<State<ProcState>>,
) -> bool {
    &&& v.len() == names.len()
    &&& forall|k: int| 0 <= k < said.len() ==> v[(#[trigger] said[k]).0 as int] == said[k].1
    &&& forall|rank: int|
        0 <= rank < names.len() && !heard_of(said, rank) ==> #[trigger] v[rank] == (State::<ProcState> {
            name: names[rank],
            status: Status::Timeout(timeout),
            state: None,
        })
}

impl ProcStates {
    /// What was said so far, in the order in which it came.
    pub closed spec fn said(self) -> Seq<(usize, State<ProcState>)> {
        self.states@
    }

    /// Nothing was said yet.
    pub fn new() -> (r: Self)
        ensures
            r.said() == Seq::<(usize, State<ProcState>)>::empty(),
    {
        ProcStates { states: Vec::new() }
    }

    /// How much was said.
    pub fn len(&self) -> (n: usize)
        ensures
            n == self.said().len(),
    {
        self.states.len()
    }

    /// Takes note of what an agent said of a proc. There is nothing to take note
    /// of where there is no such proc: that is an error, with the name.
    pub fn on_state(&mut self, state: State<ProcState>) -> (r: Result<(), String>)
        ensures
            match state.state {
                Some(known) => r is Ok && final(self).said() == old(self).said().push((known.create_rank, state)),
                None => r == Err::<(), String>(state.name) && final(self).said() == old(self).said(),
            },
    {
        let create_rank: Option<usize> = match &state.state {
            Some(known) => Some(known.create_rank),
            None => None,
        };
        match create_rank {
            Some(rank) => {
                self.states.push((rank, state));
                Ok(())
            },
            None => Err(state.name),
        }
    }

    /// How the procs do, by rank, once all were heard of.
    pub fn finish(self) -> (v: Vec<State<ProcState>>)
        ensures
            v@ == values(by_rank(self.said())),
    {
        let mut left: Vec<(usize, State<ProcState>)> = self.states;
        let ghost all = left@;
        let mut sorted: Vec<(usize, State<ProcState>)> = Vec::new();
        let ghost mut done: int = 0;
        assert(all.skip(0) =~= all);
        assert(all.take(0) =~= Seq::<(usize, State<ProcState>)>::empty());
        while left.len() > 0
            invariant
                0 <= done <= all.len(),
                left@ == all.skip(done),
                sorted@ == by_rank(all.take(done)),
            decreases left@.len(),
        {
            let item: (usize, State<ProcState>) = left.remove(0);
            proof {
                assert(item == all[done]);
                assert(left@ =~= all.skip(done + 1));
                assert(all.take(done + 1).drop_last() =~= all.take(done));
            }
            put_in_place(&mut sorted, item);
            proof {
                done = done + 1;
            }
        }
        assert(all.take(done) =~= all);
        let mut v: Vec<State<ProcState>> = Vec::new();
        let ghost ordered = sorted@;
        let ghost mut taken: int = 0;
        assert(ordered.skip(0) =~= ordered);
        while sorted.len() > 0
            invariant
                0 <= taken <= ordered.len(),
                sorted@ == ordered.skip(taken),
                v@ == values(ordered).take(taken),
            decreases sorted@.len(),
        {
            let item: (usize, State<ProcState>) = sorted.remove(0);
            proof {
                assert(item == ordered[taken]);
                assert(sorted@ =~= ordered.skip(taken + 1));
            }
            v.push(item.1);
            proof {
                assert(v@ =~= values(ordered).take(taken + 1));
                taken = taken + 1;
            }
        }
        assert(values(ordered).take(taken) =~= values(ordered));
        v
    }

    /// How the procs do, by rank, when the time is up: a proc that was not heard
    /// of has timed out. `names` are the names of the procs, by rank.
    pub fn time_out(self, names: &Vec<String>, timeout: Span) -> (v: Vec<State<ProcState>>)
        requires
            each_has_a_place(self.said(), names@.len()),
        ensures
            is_padded(self.said(), names@, timeout, v@),
    {
        let ghost said = self.said();
        let mut left: Vec<(usize, State<ProcState>)> = self.states;
        assert forall|a: int, b: int| 0 <= a < b < said.len() implies (#[trigger] said[a]).0 != (#[trigger] said[b]).0 by {
            assert(self.said()[a].0 != self.said()[b].0);
        }
        let mut v: Vec<State<ProcState>> = Vec::new();
        while v.len() < names.len()
            invariant
                v@.len() <= names@.len(),
                forall|a: int, b: int|
                    0 <= a < b < said.len() ==> (#[trigger] said[a]).0 != (#[trigger] said[b]).0,
                forall|k: int| 0 <= k < said.len() ==> (#[trigger] said[k]).0 < v@.len() || left@.contains(said[k]),
                forall|k: int| 0 <= k < left@.len() ==> said.contains(#[trigger] left@[k]),
                forall|k: int| 0 <= k < said.len() && (#[trigger] said[k]).0 < v@.len() ==> v@[said[k].0 as int]
                    == said[k].1,
                forall|rank: int|
                    0 <= rank < v@.len() && !heard_of(said, rank) ==> #[trigger] v@[rank] == (State::<ProcState> {
                        name: names@[rank],
                        status: Status::Timeout(timeout),
                        state: None,
                    }),
            decreases names@.len() - v@.len(),
        {
            let rank: usize = v.len();
            let ghost before = left@;
            let ghost earlier = v@;
            match find_rank(&left, rank) {
                Some(at) => {
                    let item: (usize, State<ProcState>) = left.remove(at);
                    proof {
                        assert(said.contains(before[at as int]));
                        let place = choose|k: int| 0 <= k < said.len() && said[k] == before[at as int];
                        assert(said[place].0 == rank);
                        assert(heard_of(said, rank as int));
                        assert forall|k: int| 0 <= k < said.len() implies (#[trigger] said[k]).0 < rank + 1
                            || left@.contains(said[k]) by {
                            if said[k].0 > rank {
                                assert(before.contains(said[k]));
                                let j = choose|j: int| 0 <= j < before.len() && before[j] == said[k];
                                if j < at {
                                    assert(left@[j] == said[k]);
                                } else {
                                    assert(j != at);
                                    assert(left@[j - 1] == said[k]);
                                }
                            }
                        }
                        assert forall|k: int| 0 <= k < left@.len() implies said.contains(#[trigger] left@[k]) by {
                            if k < at {
                                assert(left@[k] == before[k]);
                            } else {
                                assert(left@[k] == before[k + 1]);
                            }
                        }
                        assert forall|k: int| 0 <= k < said.len() && (#[trigger] said[k]).0 == rank implies k == place by {
                            if k < place {
                                assert(said[k].0 != said[place].0);
                            }
                            if place < k {
                                assert(said[place].0 != said[k].0);
                            }
                        }
                    }
                    v.push(item.1);
                },
                None => {
                    proof {
                        assert forall|k: int| 0 <= k < said.len() implies (#[trigger] said[k]).0 != rank by {
                            if said[k].0 == rank {
                                assert(before.contains(said[k]));
                                let j = choose|j: int| 0 <= j < before.len() && before[j] == said[k];
                                assert(before[j].0 == rank);
                            }
                        }
                        assert(!heard_of(said, rank as int));
                    }
                    v.push(
                        State { name: names[rank].clone(), status: Status::Timeout(timeout), state: None },
                    );
                },
            }
            proof {
                assert forall|r: int| 0 <= r < v@.len() && !heard_of(said, r) implies #[trigger] v@[r] == (State::<ProcState> {
                    name: names@[r],
                    status: Status::Timeout(timeout),
                    state: None,
                }) by {
                    if r < earlier.len() {
                        assert(v@[r] == earlier[r]);
                    }
                }
                assert forall|k: int| 0 <= k < said.len() && (#[trigger] said[k]).0 < v@.len() implies v@[said[k].0 as int]
                    == said[k].1 by {
                    if said[k].0 < earlier.len() {
                        assert(v@[said[k].0 as int] == earlier[said[k].0 as int]);
                    }
                }
            }
        }
        v
    }
}

fn find_rank<S>(items: &Vec<(usize, S)>, rank: usize) -> (r: Option<usize>)
    ensures
        match r {
            Some(at) => at < items@.len() && items@[at as int].0 == rank,
            None => forall|k: int| 0 <= k < items@.len() ==> (#[trigger] items@[k]).0 != rank,
        },
{
    let mut i: usize = 0;
    while i < items.len()
        invariant
            i <= items@.len(),
            forall|k: int| 0 <= k < i ==> (#[trigger] items@[k]).0 != rank,
        decreases items@.len() - i,
    {
        if items[i].0 == rank {
            return Some(i);
        }
        i = i + 1;
    }
    None
}

/// Puts something in its place, behind all that are not after it.
fn put_in_place<S>(sorted: &mut Vec<(usize, S)>, item: (usize, S))
    ensures
        final(sorted)@ == placed(old(sorted)@, item),
{
    let ghost before = sorted@;
    let mut at: usize = sorted.len();
    assert(before.take(at as int) =~= before);
    assert(before.skip(at as int) =~= Seq::<(usize, S)>::empty());
    assert(placed(before, item) + Seq::<(usize, S)>::empty() =~= placed(before, item));
    while at > 0 && sorted[at - 1].0 > item.0
        invariant
            at <= sorted@.len(),
            sorted@ == before,
            placed(before, item) == placed(before.take(at as int), item) + before.skip(at as int),
        decreases at,
    {
        proof {
            let now = before.take(at as int);
            assert(now.drop_last() =~= before.take(at - 1));
            assert(now.last() == before[at - 1]);
            assert(before.skip(at - 1) =~= seq![before[at - 1]] + before.skip(at as int));
            assert(placed(before, item) =~= placed(before.take(at - 1), item) + before.skip(at - 1));
        }
        at = at - 1;
    }
    proof {
        let now = before.take(at as int);
        assert(placed(now, item) == now.push(item));
    }
    sorted.insert(at, item);
    assert(sorted@ =~= before.take(at as int).push(item) + before.skip(at as int));
}

/// Asking how the procs of a mesh do.
pub struct StatesPlan {
    /// The procs, by rank.
    pub procs: Vec<ProcId>,
    /// How many ranks the region has that the procs stand for.
    pub num_ranks: usize,
    /// How long nothing may be heard.
    pub timeout: Span,
}

/// Why it is not known how procs do.
pub enum StatesError {
    /// A proc is not reached at an address.
    NotDirect(NotDirect),
    /// What was taken for the name of a proc is none; with why.
    InvalidName(String),
    /// The agent of the host could not be asked.
    Call { host: HostRef, reason: String },
    /// Nothing can be heard any more.
    Receive(String),
    /// There is no proc of that name.
    NotExist(String),
    /// There are not as many procs as the region has ranks.
    InvalidRankCardinality { expected: usize, actual: usize },
}

/// What is to be done next to learn how the procs of a mesh do.
pub enum StatesStage {
    /// Ask the host for the state of the proc at that place in the list, by its
    /// name; unless the name is none.
    Ask { at: usize, host: HostRef, name: String },
    /// Wait for the next reply.
    Await { states: ProcStates },
    /// How the procs do, by rank.
    Done(Vec<State<ProcState>>),
    Failed(StatesError),
}

/// What came of a stage.
pub enum StatesAnswer {
    /// What was taken for the name of a proc is none; with why.
    InvalidName(String),
    /// The host was asked.
    Asked(Result<(), String>),
    /// What the agent of a host said of a proc.
    Replied(Result<State<ProcState>, String>),
    /// Nothing was heard for too long.
    TimedOut,
}

/// The names of procs that are reached at addresses.
pub open spec fn are_names_of(names: Seq<String>, procs: Seq<ProcId>) -> bool {
    &&& names.len() == procs.len()
    &&& forall|i: int| 0 <= i < procs.len() ==> (#[trigger] procs[i] matches ProcId::Direct(_, name) && names[i] == name)
}

/// Whether states are given back, or else refused because they are not as many
/// as the region has ranks.
pub open spec fn gives_states(plan: StatesPlan, count: nat, next: StatesStage) -> bool {
    if count == plan.num_ranks {
        next is Done
    } else {
        next matches StatesStage::Failed(StatesError::InvalidRankCardinality { expected, actual }) && expected
            == plan.num_ranks && actual == count
    }
}

/// Whether a stage goes on once that much was said: as many replies are awaited
/// as there are procs.
pub open spec fn hears_on(plan: StatesPlan, said: Seq<(usize, State<ProcState>)>, next: StatesStage) -> bool {
    if said.len() < plan.procs@.len() {
        next matches StatesStage::Await { states } && states.said() == said
    } else {
        &&& gives_states(plan, said.len(), next)
        &&& next matches StatesStage::Done(v) ==> v@ == values(by_rank(said))
    }
}

/// Whether a stage begins with the proc at a place in the list; behind the last
/// the replies are awaited.
pub open spec fn asks_from(plan: StatesPlan, at: int, stage: StatesStage) -> bool {
    if at >= plan.procs@.len() {
        hears_on(plan, Seq::empty(), stage)
    } else {
        match plan.procs@[at] {
            ProcId::Direct(addr, name) => stage == (StatesStage::Ask { at: at as usize, host: HostRef(addr), name }),
            ProcId::Ranked(..) => stage == StatesStage::Failed(StatesError::NotDirect(NotDirect(plan.procs@[at]))),
        }
    }
}

/// Whether states are those that were said when the time was up, and that the
/// others have timed out.
pub open spec fn gives_up(plan: StatesPlan, said: Seq<(usize, State<ProcState>)>, next: StatesStage) -> bool {
    &&& gives_states(plan, plan.procs@.len(), next)
    &&& next matches StatesStage::Done(v) ==> exists|names: Seq<String>| #[trigger]
        are_names_of(names, plan.procs@) && is_padded(said, names, plan.timeout, v@)
}

/// Whether the stage is the one that follows; an answer to something else
/// changes nothing.
pub open spec fn follows_states(plan: StatesPlan, stage: StatesStage, answer: StatesAnswer, next: StatesStage) -> bool {
    match (stage, answer) {
        (StatesStage::Ask { .. }, StatesAnswer::InvalidName(why)) => next == StatesStage::Failed(
            StatesError::InvalidName(why),
        ),
        (StatesStage::Ask { at, host, .. }, StatesAnswer::Asked(r)) => match r {
            Ok(_) => asks_from(plan, at + 1, next),
            Err(reason) => next == StatesStage::Failed(StatesError::Call { host, reason }),
        },
        (StatesStage::Await { states }, StatesAnswer::Replied(r)) => match r {
            Ok(state) => match state.state {
                Some(known) => hears_on(plan, states.said().push((known.create_rank, state)), next),
                None => next == StatesStage::Failed(StatesError::NotExist(state.name)),
            },
            Err(e) => next == StatesStage::Failed(StatesError::Receive(e)),
        },
        (StatesStage::Await { states }, StatesAnswer::TimedOut) => gives_up(plan, states.said(), next),
        (stage, _) => next == stage,
    }
}

/// Whether procs are reached at addresses, up to a place in the list.
pub open spec fn are_direct(procs: Seq<ProcId>, upto: int) -> bool {
    forall|i: int| 0 <= i < upto && i < procs.len() ==> #[trigger] procs[i] is Direct
}

/// Whether each state is of a proc that there is, at the rank that it was
/// created with.
pub open spec fn are_known(said: Seq<(usize, State<ProcState>)>) -> bool {
    forall|k: int|
        0 <= k < said.len() ==> ((#[trigger] said[k]).1.state matches Some(known) && known.create_rank == said[k].0)
}

/// Whether a stage belongs to a plan: the proc that it speaks of is there, and
/// replies are awaited only once every proc was asked for.
pub open spec fn is_states_stage(plan: StatesPlan, stage: StatesStage) -> bool {
    match stage {
        StatesStage::Ask { at, .. } => at < plan.procs@.len() && are_direct(plan.procs@, at + 1),
        StatesStage::Await { states } => are_direct(plan.procs@, plan.procs@.len() as int) && states.said().len()
            < plan.procs@.len() && are_known(states.said()),
        _ => true,
    }
}

/// Begins to ask how the procs of a mesh do. The procs are given by rank.
pub fn proc_states(procs: Vec<ProcId>, region: &Region, timeout: Span) -> (r: (StatesPlan, StatesStage))
    requires
        region@.fits(),
    ensures
        r.0.procs == procs,
        r.0.num_ranks == region@.num_ranks(),
        r.0.timeout == timeout,
        asks_from(r.0, 0, r.1),
        is_states_stage(r.0, r.1),
{
    let plan = StatesPlan { procs, num_ranks: region.num_ranks(), timeout };
    let stage: StatesStage = plan.ask_from(0);
    (plan, stage)
}

impl StatesPlan {
    fn done(&self, v: Vec<State<ProcState>>) -> (next: StatesStage)
        ensures
            gives_states(*self, v@.len(), next),
            next matches StatesStage::Done(given) ==> given == v,
    {
        if v.len() == self.num_ranks {
            StatesStage::Done(v)
        } else {
            StatesStage::Failed(
                StatesError::InvalidRankCardinality { expected: self.num_ranks, actual: v.len() },
            )
        }
    }

    fn hear_on(&self, states: ProcStates) -> (next: StatesStage)
        requires
            are_direct(self.procs@, self.procs@.len() as int),
            are_known(states.said()),
        ensures
            hears_on(*self, states.said(), next),
            is_states_stage(*self, next),
    {
        if states.len() < self.procs.len() {
            StatesStage::Await { states }
        } else {
            proof {
                by_rank_orders(states.said());
            }
            self.done(states.finish())
        }
    }

    fn ask_from(&self, at: usize) -> (stage: StatesStage)
        requires
            are_direct(self.procs@, at as int),
        ensures
            asks_from(*self, at as int, stage),
            is_states_stage(*self, stage),
    {
        if at >= self.procs.len() {
            return self.hear_on(ProcStates::new());
        }
        match host_and_name(&self.procs[at]) {
            Ok((host, name)) => StatesStage::Ask { at, host, name },
            Err(e) => StatesStage::Failed(StatesError::NotDirect(e)),
        }
    }

    fn names(&self) -> (names: Vec<String>)
        requires
            are_direct(self.procs@, self.procs@.len() as int),
        ensures
            are_names_of(names@, self.procs@),
    {
        let mut names: Vec<String> = Vec::new();
        let mut i: usize = 0;
        while i < self.procs.len()
            invariant
                i <= self.procs@.len(),
                are_direct(self.procs@, self.procs@.len() as int),
                names@.len() == i,
                forall|j: int|
                    0 <= j < i ==> (#[trigger] self.procs@[j] matches ProcId::Direct(_, name) && names@[j] == name),
            decreases self.procs@.len() - i,
        {
            assert(self.procs@[i as int] is Direct);
            if let ProcId::Direct(_, name) = &self.procs[i] {
                names.push(name.clone());
            }
            i = i + 1;
        }
        names
    }

    /// Goes on with asking how the procs do. The hosts are asked for one proc
    /// after the other, and then as many replies are awaited. Where the time is
    /// up, what was said so far must be of different procs of the list.
    pub fn step(&self, stage: StatesStage, answer: StatesAnswer) -> (next: StatesStage)
        requires
            is_states_stage(*self, stage),
            answer is TimedOut ==> (stage matches StatesStage::Await { states } ==> each_has_a_place(
                states.said(),
                self.procs@.len(),
            )),
        ensures
            follows_states(*self, stage, answer, next),
            is_states_stage(*self, next),
    {
        match (stage, answer) {
            (StatesStage::Ask { .. }, StatesAnswer::InvalidName(why)) => StatesStage::Failed(
                StatesError::InvalidName(why),
            ),
            (StatesStage::Ask { at, host, .. }, StatesAnswer::Asked(r)) => match r {
                Ok(_) => {
                    let next: usize = if at < self.procs.len() {
                        at + 1
                    } else {
                        at
                    };
                    self.ask_from(next)
                },
                Err(reason) => StatesStage::Failed(StatesError::Call { host, reason }),
            },
            (StatesStage::Await { states }, StatesAnswer::Replied(r)) => match r {
                Ok(state) => {
                    let mut states: ProcStates = states;
                    match states.on_state(state) {
                        Ok(_) => self.hear_on(states),
                        Err(name) => StatesStage::Failed(StatesError::NotExist(name)),
                    }
                },
                Err(e) => StatesStage::Failed(StatesError::Receive(e)),
            },
            (StatesStage::Await { states }, StatesAnswer::TimedOut) => {
                let names: Vec<String> = self.names();
                let v: Vec<State<ProcState>> = states.time_out(&names, self.timeout);
                assert(are_names_of(names@, self.procs@) && is_padded(states.said(), names@, self.timeout, v@));
                self.done(v)
            },
            (stage, _) => stage,
        }
    }
}

/// Unless the time was up, the state of every proc of the mesh is known: there
/// is one for each rank of the region.
pub proof fn every_state_is_known(plan: StatesPlan, stage: StatesStage, answer: StatesAnswer, next: StatesStage)
    requires
        is_states_stage(plan, stage),
        follows_states(plan, stage, answer, next),
        !(answer is TimedOut),
        !(stage is Done),
    ensures
        next matches StatesStage::Done(v) ==> v@.len() == plan.num_ranks && v@.len() == plan.procs@.len() && (forall|
            i: int,
        |
            0 <= i < v@.len() ==> (#[trigger] v@[i]).state is Some),
{
    if let StatesStage::Done(v) = next {
        if let StatesStage::Await { states } = stage {
            let state = answer->Replied_0->Ok_0;
            let said = states.said().push((state.state->0.create_rank, state));
            by_rank_orders(said);
            assert forall|i: int| 0 <= i < v@.len() implies (#[trigger] v@[i]).state is Some by {
                let item = by_rank(said)[i];
                broadcast use vstd::seq_lib::group_to_multiset_ensures;

                assert(by_rank(said).contains(item));
                assert(by_rank(said).to_multiset().count(item) > 0);
                assert(said.contains(item));
            }
        } else {
            by_rank_orders(Seq::<(usize, State<ProcState>)>::empty());
        }
    }
}

/// Each proc is stopped by the host at its address, under its name, and in the
/// order of the list; a host that was asked to stop a proc is asked how that
/// proc does, and the procs are waited for once every one was asked for. What
/// fails is told.
pub proof fn each_proc_is_stopped_at_its_host(plan: StopPlan, stage: StopStage, answer: StopAnswer, next: StopStage)
    requires
        is_stop_stage(plan, stage),
        plan.procs@.len() <= usize::MAX,
        follows_stop(plan, stage, answer, next),
        next != stage,
    ensures
        match next {
            StopStage::Stop { at, host, name } => at < plan.procs@.len() && plan.procs@[at as int] == ProcId::Direct(
                host.0,
                name,
            ) && (answer matches StopAnswer::Queried(Ok(_))) && (stage matches StopStage::Query { at: before, .. } && at
                == before + 1),
            StopStage::Query { at, host, name } => stage == (StopStage::Stop { at, host, name }) && (
            answer matches StopAnswer::Sent(Ok(_))),
            StopStage::Wait => (stage matches StopStage::Query { at, .. } && at + 1 == plan.procs@.len()) && (
            answer matches StopAnswer::Queried(Ok(_))),
            StopStage::Done(_) => stage is Wait && answer is Waited,
            StopStage::Failed(e) => match answer {
                StopAnswer::InvalidName(why) => stage is Stop && why == e,
                StopAnswer::Sent(r) => stage is Stop && r == Err::<(), String>(e),
                StopAnswer::Queried(Err(cause)) => stage is Query && cause == e,
                StopAnswer::Queried(Ok(_)) => (stage matches StopStage::Query { at, .. } && plan.procs@[at + 1] is Ranked),
                StopAnswer::Waited(..) => false,
            },
        },
{
}

/// An answer to what a stage asks for ends the stage.
pub proof fn answered_stops_are_left(plan: StopPlan, stage: StopStage, answer: StopAnswer, next: StopStage)
    requires
        is_stop_stage(plan, stage),
        plan.procs@.len() <= usize::MAX,
        follows_stop(plan, stage, answer, next),
        match stage {
            StopStage::Stop { .. } => answer is InvalidName || answer is Sent,
            StopStage::Query { .. } => answer is Queried,
            StopStage::Wait => answer is Waited,
            _ => false,
        },
    ensures
        next != stage,
{
}

/// Procs that were all heard of are stopped unless one of them is still up, and
/// then it is told how they do. Where the time was up, it is told of every rank
/// what was heard of it, or that for so long nothing was.
pub proof fn what_was_heard_of_stops_is_told(heard: Heard, num_ranks: nat, elapsed: Span, r: StopOutcome)
    requires
        is_stop_outcome(heard, num_ranks, elapsed, r),
    ensures
        r is TimedOut <==> heard is TimedOut,
        r is NotStopped <==> (heard matches Heard::All(statuses) && exists|k: int|
            0 <= k < statuses@.len() && !(#[trigger] statuses@[k])@.terminating()),
        r matches StopOutcome::NotStopped(statuses) ==> heard == Heard::All(statuses),
        (heard, r) matches (Heard::TimedOut(statuses), StopOutcome::TimedOut { statuses: runs }) ==> forall|
            k: int,
            i: int,
        |
            #![trigger runs.spec_runs()[k], statuses@[i]]
            0 <= k < runs.spec_runs().len() && runs.spec_runs()[k].start <= i < runs.spec_runs()[k].end && 0 <= i
                < num_ranks ==> runs.spec_runs()[k].value@ == (if i < statuses@.len() && !(statuses@[i]@ is NotExist) {
                statuses@[i]@
            } else {
                Status::Timeout(elapsed)@
            }),
{
    if let Heard::TimedOut(statuses) = heard {
        if let StopOutcome::TimedOut { statuses: runs } = r {
            let all = runs.spec_runs();
            let values = with_default(statuses@, Status::Timeout(elapsed), num_ranks);
            assert forall|k: int, i: int|
                #![trigger all[k], statuses@[i]]
                0 <= k < all.len() && all[k].start <= i < all[k].end && 0 <= i < num_ranks implies all[k].value@ == (
            if i < statuses@.len() && !(statuses@[i]@ is NotExist) {
                statuses@[i]@
            } else {
                Status::Timeout(elapsed)@
            }) by {
                assert(values[i] == all[k].value@);
            }
        }
    }
}

proof fn lemma_placed_in_order<S>(sorted: Seq<(usize, S)>, item: (usize, S), rank: usize)
    ensures
        placed(sorted, item).filter(|p: (usize, S)| p.0 == rank) == (if item.0 == rank {
            sorted.filter(|p: (usize, S)| p.0 == rank).push(item)
        } else {
            sorted.filter(|p: (usize, S)| p.0 == rank)
        }),
    decreases sorted.len(),
{
    let of_rank = |p: (usize, S)| p.0 == rank;
    reveal(Seq::filter);
    if sorted.len() == 0 || sorted.last().0 <= item.0 {
        assert(sorted.push(item).drop_last() =~= sorted);
    } else {
        lemma_placed_in_order(sorted.drop_last(), item, rank);
        let inner = placed(sorted.drop_last(), item);
        assert(inner.push(sorted.last()).drop_last() =~= inner);
    }
}

/// What was said of the same rank stays in the order in which it came.
pub proof fn by_rank_keeps_the_order_of_equals<S>(items: Seq<(usize, S)>, rank: usize)
    ensures
        by_rank(items).filter(|p: (usize, S)| p.0 == rank) == items.filter(|p: (usize, S)| p.0 == rank),
    decreases items.len(),
{
    reveal(Seq::filter);
    if items.len() > 0 {
        by_rank_keeps_the_order_of_equals(items.drop_last(), rank);
        lemma_placed_in_order(by_rank(items.drop_last()), items.last(), rank);
    }
}

/// The host at the address of each proc is asked for it by its name, in the
/// order of the list, and the replies are awaited once every host was asked.
/// What fails is told: which proc, which host, and why.
pub proof fn each_proc_is_asked_for_at_its_host(
    plan: StatesPlan,
    stage: StatesStage,
    answer: StatesAnswer,
    next: StatesStage,
)
    requires
        is_states_stage(plan, stage),
        plan.procs@.len() <= usize::MAX,
        follows_states(plan, stage, answer, next),
        next != stage,
    ensures
        match next {
            StatesStage::Ask { at, host, name } => at < plan.procs@.len() && plan.procs@[at as int] == ProcId::Direct(
                host.0,
                name,
            ) && (answer matches StatesAnswer::Asked(Ok(_))) && (stage matches StatesStage::Ask { at: before, .. } && at
                == before + 1),
            StatesStage::Await { states } => states.said().len() < plan.procs@.len() && match answer {
                StatesAnswer::Asked(r) => r is Ok && states.said().len() == 0 && (stage matches StatesStage::Ask {
                    at,
                    ..
                } && at + 1 == plan.procs@.len()),
                StatesAnswer::Replied(Ok(state)) => (stage matches StatesStage::Await { states: before }
                    && states.said() == before.said().push((state.state->0.create_rank, state))) && state.state is Some,
                _ => false,
            },
            StatesStage::Done(v) => v@.len() == plan.num_ranks,
            StatesStage::Failed(StatesError::NotDirect(e)) => e.0 is Ranked && plan.procs@.contains(e.0),
            StatesStage::Failed(StatesError::InvalidName(why)) => stage is Ask && answer == StatesAnswer::InvalidName(why),
            StatesStage::Failed(StatesError::Call { host, reason }) => (stage matches StatesStage::Ask { host: h, .. } && h
                == host) && answer == StatesAnswer::Asked(Err(reason)),
            StatesStage::Failed(StatesError::Receive(e)) => stage is Await && answer == StatesAnswer::Replied(Err(e)),
            StatesStage::Failed(StatesError::NotExist(name)) => stage is Await && (
            answer matches StatesAnswer::Replied(Ok(state)) && state.state is None && state.name == name),
            StatesStage::Failed(StatesError::InvalidRankCardinality { expected, actual }) => expected == plan.num_ranks
                && actual == plan.procs@.len() && expected != actual,
        },
{
    match stage {
        StatesStage::Ask { at, .. } => {
            assert(plan.procs@.contains(plan.procs@[at as int]));
            if at + 1 < plan.procs@.len() {
                assert(plan.procs@.contains(plan.procs@[at + 1]));
            }
            by_rank_orders(Seq::<(usize, State<ProcState>)>::empty());
        },
        StatesStage::Await { states } => {
            if let StatesAnswer::Replied(Ok(state)) = answer {
                if state.state is Some {
                    by_rank_orders(states.said().push((state.state->0.create_rank, state)));
                }
            }
        },
        _ => {},
    }
}

/// An answer to what a stage asks for takes it on: to the next proc or the
/// replies, to one more reply, or to an end.
pub proof fn answered_states_are_left(plan: StatesPlan, stage: StatesStage, answer: StatesAnswer, next: StatesStage)
    requires
        is_states_stage(plan, stage),
        plan.procs@.len() <= usize::MAX,
        follows_states(plan, stage, answer, next),
        match stage {
            StatesStage::Ask { .. } => answer is InvalidName || answer is Asked,
            StatesStage::Await { .. } => answer is Replied || answer is TimedOut,
            _ => false,
        },
    ensures
        next != stage,
        answer is TimedOut ==> next is Done || next is Failed,
        (stage, answer) matches (StatesStage::Await { states }, StatesAnswer::Replied(Ok(state))) ==> state.state is Some
            && states.said().len() + 1 < plan.procs@.len() ==> next is Await,
        (stage, answer) matches (StatesStage::Await { states }, StatesAnswer::Replied(Ok(state))) ==> state.state is Some
            && states.said().len() + 1 == plan.procs@.len() && plan.procs@.len() == plan.num_ranks ==> next is Done,
{
}

/// When the time is up, a proc that was heard of is as was said of it, and of
/// every other it is said, under its name, that it was not heard of for so long.
pub proof fn procs_not_heard_of_have_timed_out(
    plan: StatesPlan,
    said: Seq<(usize, State<ProcState>)>,
    v: Seq<State<ProcState>>,
    given: Vec<State<ProcState>>,
    rank: int,
)
    requires
        gives_up(plan, said, StatesStage::Done(given)),
        each_has_a_place(said, plan.procs@.len()),
        v == given@,
        0 <= rank < plan.procs@.len(),
    ensures
        v.len() == plan.procs@.len(),
        (forall|k: int| 0 <= k < said.len() ==> (#[trigger] said[k]).0 != rank) ==> (
        plan.procs@[rank] matches ProcId::Direct(_, name) && v[rank].name == name && v[rank].status == Status::Timeout(
            plan.timeout,
        ) && v[rank].state is None),
        forall|k: int| 0 <= k < said.len() && (#[trigger] said[k]).0 == rank ==> v[rank] == said[k].1,
{
    let names = choose|names: Seq<String>| #[trigger]
        are_names_of(names, plan.procs@) && is_padded(said, names, plan.timeout, given@);
    if forall|k: int| 0 <= k < said.len() ==> (#[trigger] said[k]).0 != rank {
        assert(!heard_of(said, rank));
        assert(plan.procs@[rank] matches ProcId::Direct(_, name) && names[rank] == name);
    }
}

}
