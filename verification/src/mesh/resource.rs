//! What is said of the procs and actors of a mesh, rank by rank.

use crate::mesh::status::{status_text, ProcStatus};
use crate::text::same;
use vstd::prelude::*;
use vstd::std_specs::cmp::PartialEqSpec;

verus! {

/// A span of time.
#[derive(Debug, Clone, Copy, PartialEq, Eq, Structural)]
pub struct Span {
    pub secs: u64,
    pub nanos: u32,
}

/// How a proc or an actor does.
#[derive(Debug)]
pub enum Status {
    /// There is no such thing.
    NotExist,
    Initializing,
    Running,
    Stopping,
    Stopped,
    /// It failed; with the reason.
    Failed(String),
    /// Nothing was heard of it for that long.
    Timeout(Span),
}

/// The mathematical value of a `Status`.
pub enum StatusModel {
    NotExist,
    Initializing,
    Running,
    Stopping,
    Stopped,
    Failed(Seq<char>),
    Timeout(Span),
}

impl View for Status {
    type V = StatusModel;

    open spec fn view(&self) -> StatusModel {
        match *self {
            Status::NotExist => StatusModel::NotExist,
            Status::Initializing => StatusModel::Initializing,
            Status::Running => StatusModel::Running,
            Status::Stopping => StatusModel::Stopping,
            Status::Stopped => StatusModel::Stopped,
            Status::Failed(reason) => StatusModel::Failed(reason@),
            Status::Timeout(span) => StatusModel::Timeout(span),
        }
    }
}

impl StatusModel {
    /// Whether it is on its way to its end, or has come to it.
    pub open spec fn terminating(self) -> bool {
        self is Stopping || self is Stopped || self is Failed || self is Timeout
    }

    /// Whether it comes up or is up.
    pub open spec fn healthy(self) -> bool {
        self is Initializing || self is Running
    }
}

impl Clone for Status {
    fn clone(&self) -> (c: Status)
        ensures
            c == *self,
    {
        match self {
            Status::NotExist => Status::NotExist,
            Status::Initializing => Status::Initializing,
            Status::Running => Status::Running,
            Status::Stopping => Status::Stopping,
            Status::Stopped => Status::Stopped,
            Status::Failed(reason) => Status::Failed(reason.clone()),
            Status::Timeout(span) => Status::Timeout(*span),
        }
    }
}

impl PartialEq for Status {
    fn eq(&self, other: &Status) -> (r: bool) {
        self.is_same(other)
    }
}

impl vstd::std_specs::cmp::PartialEqSpecImpl for Status {
    open spec fn obeys_eq_spec() -> bool {
        true
    }

    open spec fn eq_spec(&self, other: &Status) -> bool {
        self@ == other@
    }
}

impl Status {
    /// Whether it is on its way to its end, or has come to it.
    pub fn is_terminating(&self) -> (r: bool)
        ensures
            r == self@.terminating(),
    {
        match self {
            Status::Stopping | Status::Stopped | Status::Failed(_) | Status::Timeout(_) => true,
            _ => false,
        }
    }

    /// Whether it comes up or is up.
    pub fn is_healthy(&self) -> (r: bool)
        ensures
            r == self@.healthy(),
    {
        match self {
            Status::Initializing | Status::Running => true,
            _ => false,
        }
    }

    /// Whether there is no such thing.
    pub fn is_not_exist(&self) -> (r: bool)
        ensures
            r == (self@ is NotExist),
    {
        match self {
            Status::NotExist => true,
            _ => false,
        }
    }

    /// Whether the two say the same.
    pub fn is_same(&self, other: &Status) -> (r: bool)
        ensures
            r == (self@ == other@),
    {
        match (self, other) {
            (Status::NotExist, Status::NotExist) => true,
            (Status::Initializing, Status::Initializing) => true,
            (Status::Running, Status::Running) => true,
            (Status::Stopping, Status::Stopping) => true,
            (Status::Stopped, Status::Stopped) => true,
            (Status::Failed(a), Status::Failed(b)) => same(a.as_str(), b.as_str()),
            (Status::Timeout(a), Status::Timeout(b)) => *a == *b,
            _ => false,
        }
    }

    /// How a proc does, by the state of its process.
    pub fn of_proc(st: &ProcStatus) -> (r: Status)
        ensures
            r@ == status_of_proc(*st),
    {
        match st {
            ProcStatus::Starting => Status::Initializing,
            ProcStatus::Running { .. } | ProcStatus::Ready { .. } => Status::Running,
            ProcStatus::Stopping { .. } => Status::Stopping,
            ProcStatus::Stopped { .. } => Status::Stopped,
            ProcStatus::Failed { reason } => Status::Failed(reason.clone()),
            ProcStatus::Killed { .. } => Status::Failed(st.display_with(&None)),
        }
    }
}

/// How a proc does, by the state of its process.
pub open spec fn status_of_proc(st: ProcStatus) -> StatusModel {
    match st {
        ProcStatus::Starting => StatusModel::Initializing,
        ProcStatus::Running { .. } | ProcStatus::Ready { .. } => StatusModel::Running,
        ProcStatus::Stopping { .. } => StatusModel::Stopping,
        ProcStatus::Stopped { .. } => StatusModel::Stopped,
        ProcStatus::Failed { reason } => StatusModel::Failed(reason@),
        ProcStatus::Killed { .. } => StatusModel::Failed(status_text(st, None)),
    }
}

/// A proc that is up is told as such, and a proc that comes up as coming up; a
/// proc is told to be at its end, or on its way there, exactly where its process
/// is stopping or has exited. There always is a status of a process, and none
/// of them is a timeout.
pub proof fn a_proc_that_is_up_is_told_as_running(st: ProcStatus)
    ensures
        st is Ready || st is Running ==> status_of_proc(st) is Running && status_of_proc(st).healthy(),
        st is Starting ==> status_of_proc(st) is Initializing && status_of_proc(st).healthy(),
        status_of_proc(st).terminating() <==> st is Stopping || st is Stopped || st is Failed || st is Killed,
        status_of_proc(st).healthy() <==> st is Starting || st is Running || st is Ready,
        status_of_proc(st) is Stopping <==> st is Stopping,
        status_of_proc(st) is Stopped <==> st is Stopped,
        status_of_proc(st) is Failed <==> st is Failed || st is Killed,
        st matches ProcStatus::Failed { reason } ==> status_of_proc(st) == StatusModel::Failed(reason@),
{
}

/// A thing that exists is either healthy or on its way to its end, and what does
/// not exist is neither.
pub proof fn healthy_or_terminating(s: StatusModel)
    ensures
        !(s.healthy() && s.terminating()),
        s.healthy() || s.terminating() <==> !(s is NotExist),
        s is Running || s is Initializing ==> s.healthy(),
        s is Failed || s is Timeout || s is Stopped || s is Stopping ==> s.terminating(),
{
}

/// What is said of a proc or an actor: how it does, and more where it was created.
#[derive(Debug)]
pub struct State<T> {
    pub name: String,
    pub status: Status,
    pub state: Option<T>,
}

/// A run of ranks, from `start` up to but not with `end`, that have the same value.
#[derive(Debug)]
pub struct Run<T> {
    pub start: usize,
    pub end: usize,
    pub value: T,
}

/// What is said of a single rank.
pub open spec fn rank_run(rank: usize, status: Status) -> Option<Run<Status>> {
    if rank == usize::MAX {
        None
    } else {
        Some(Run { start: rank, end: (rank + 1) as usize, value: status })
    }
}

/// What is said of a rank is said of it and of no other.
pub proof fn single_ranks_stand_for_themselves(rank: usize, status: Status, i: int)
    ensures
        rank_run(rank, status) is None <==> rank == usize::MAX,
        rank_run(rank, status) matches Some(run) ==> (run.start <= i < run.end <==> i == rank) && run.value == status,
{
}

/// What is said of single ranks: nothing where the rank is not known.
pub fn overlay(rank: usize, status: Status) -> (r: Option<Run<Status>>)
    ensures
        r == rank_run(rank, status),
{
    if rank == usize::MAX {
        None
    } else {
        Some(Run { start: rank, end: rank + 1, value: status })
    }
}

/// What the ranks have, run by run.
#[derive(Debug)]
pub struct RankedValues<T> {
    runs: Vec<Run<T>>,
}

/// How many ranks something is said of.
pub open spec fn covered<T>(runs: Seq<Run<T>>) -> int {
    if runs.len() == 0 {
        0
    } else {
        runs.last().end as int
    }
}

/// Whether the runs begin at rank zero, none is empty, each begins where the one
/// before ends, and no two neighbours say the same.
pub open spec fn are_runs<T: View>(runs: Seq<Run<T>>) -> bool {
    &&& forall|k: int| 0 <= k < runs.len() ==> (#[trigger] runs[k]).start < runs[k].end
    &&& runs.len() > 0 ==> runs[0].start == 0
    &&& forall|k: int|
        0 < k < runs.len() ==> (#[trigger] runs[k]).start == runs[k - 1].end && runs[k].value@ != runs[k - 1].value@
}

/// Whether the runs say of each rank what the sequence says.
pub open spec fn runs_say<T: View>(runs: Seq<Run<T>>, values: Seq<T::V>) -> bool {
    &&& covered(runs) == values.len()
    &&& forall|k: int, i: int|
        #![trigger runs[k], values[i]]
        0 <= k < runs.len() && runs[k].start <= i < runs[k].end ==> values[i] == runs[k].value@
}

/// How `len` ranks do: as was heard of them, or as `default` says where nothing was.
pub open spec fn with_default(mesh: Seq<Status>, default: Status, len: nat) -> Seq<StatusModel> {
    Seq::new(
        len,
        |i: int|
            if i < mesh.len() && !(mesh[i]@ is NotExist) {
                mesh[i]@
            } else {
                default@
            },
    )
}

impl<T: View> RankedValues<T> {
    /// The runs.
    pub closed spec fn spec_runs(self) -> Seq<Run<T>> {
        self.runs@
    }

    /// The runs, in order.
    pub fn runs(&self) -> (r: &Vec<Run<T>>)
        ensures
            r@ == self.spec_runs(),
    {
        &self.runs
    }

    /// What each of the ranks has, one by one.
    pub fn materialized(&self) -> (v: Vec<&T>)
        requires
            are_runs(self.spec_runs()),
        ensures
            v@.len() == covered(self.spec_runs()),
            runs_say(self.spec_runs(), v@.map_values(|s: &T| s@)),
    {
        let mut v: Vec<&T> = Vec::new();
        let mut k: usize = 0;
        while k < self.runs.len()
            invariant
                k <= self.runs@.len(),
                are_runs(self.runs@),
                v@.len() == covered(self.runs@.take(k as int)),
                runs_say(self.runs@.take(k as int), v@.map_values(|s: &T| s@)),
            decreases self.runs@.len() - k,
        {
            let run: &Run<T> = &self.runs[k];
            let ghost held = v@.map_values(|s: &T| s@);
            let mut i: usize = run.start;
            assert(v@.len() == run.start) by {
                if k > 0 {
                    assert(self.runs@.take(k as int).last() == self.runs@[k - 1]);
                }
            }
            while i < run.end
                invariant
                    run.start <= i <= run.end,
                    v@.len() == i,
                    held.len() == run.start,
                    v@.map_values(|s: &T| s@).take(run.start as int) == held,
                    forall|j: int| run.start <= j < i ==> (#[trigger] v@[j])@ == run.value@,
                decreases run.end - i,
            {
                let ghost mapped = v@.map_values(|s: &T| s@);
                v.push(&run.value);
                assert(v@.map_values(|s: &T| s@).take(run.start as int) =~= mapped.take(run.start as int));
                i = i + 1;
            }
            proof {
                let all = v@.map_values(|s: &T| s@);
                let now = self.runs@.take(k + 1);
                let was = self.runs@.take(k as int);
                assert(now.last() == *run);
                assert(all.take(run.start as int) == held);
                assert forall|a: int, b: int|
                    #![trigger now[a], all[b]]
                    0 <= a < now.len() && now[a].start <= b < now[a].end implies all[b] == now[a].value@ by {
                    if a < k {
                        lemma_run_ends(self.runs@, a, k as int);
                        assert(was[a] == now[a]);
                        assert(held[b] == was[a].value@);
                        assert(all.take(run.start as int)[b] == all[b]);
                    } else {
                        assert(v@[b]@ == run.value@);
                    }
                }
            }
            k = k + 1;
        }
        assert(self.runs@.take(self.runs@.len() as int) =~= self.runs@);
        v
    }
}

/// A run ends before a later one begins.
proof fn lemma_run_ends<T: View>(runs: Seq<Run<T>>, a: int, b: int)
    requires
        are_runs(runs),
        0 <= a < b < runs.len(),
    ensures
        runs[a].end <= runs[b].start,
    decreases b - a,
{
    if a + 1 < b {
        lemma_run_ends(runs, a, b - 1);
        assert(runs[b - 1].start < runs[b - 1].end);
    }
    assert(runs[b].start == runs[b - 1].end);
}

/// A rank of its own, or one more of the last run where it has the same value.
fn push_rank<T: View + PartialEq + Clone>(runs: &mut Vec<Run<T>>, rank: usize, value: &T)
    requires
        tells_values_apart::<T>(),
        are_runs(old(runs)@),
        covered(old(runs)@) == rank,
        rank < usize::MAX,
    ensures
        are_runs(final(runs)@),
        covered(final(runs)@) == rank + 1,
        forall|values: Seq<T::V>| #[trigger]
            runs_say(old(runs)@, values) ==> runs_say(final(runs)@, values.push(value@)),
{
    let ghost before = runs@;
    let n: usize = runs.len();
    let extends: bool = n > 0 && runs[n - 1].value == *value;
    if extends {
        let last: Option<Run<T>> = runs.pop();
        match last {
            Some(run) => {
                let ghost held = run;
                let run: Run<T> = Run { start: run.start, end: rank + 1, value: run.value };
                runs.push(run);
                proof {
                    assert forall|values: Seq<T::V>| #[trigger] runs_say(before, values) implies runs_say(
                        runs@,
                        values.push(value@),
                    ) by {
                        let more = values.push(value@);
                        assert forall|k: int, i: int|
                            #![trigger runs@[k], more[i]]
                            0 <= k < runs@.len() && runs@[k].start <= i < runs@[k].end implies more[i]
                            == runs@[k].value@ by {
                            if k < n - 1 {
                                lemma_run_ends(before, k, n - 1);
                                assert(before[k] == runs@[k]);
                                assert(values[i] == before[k].value@);
                            } else if i < rank {
                                assert(values[i] == before[n - 1].value@);
                            }
                        }
                    }
                }
            },
            None => {},
        }
    } else {
        let copy: T = value.clone();
        assert(cloned::<T>(*value, copy));
        runs.push(Run { start: rank, end: rank + 1, value: copy });
        proof {
            assert forall|k: int| 0 < k < runs@.len() implies (#[trigger] runs@[k]).start == runs@[k - 1].end
                && runs@[k].value@ != runs@[k - 1].value@ by {
                if k < n {
                    assert(before[k] == runs@[k]);
                    assert(before[k - 1] == runs@[k - 1]);
                }
            }
            assert forall|values: Seq<T::V>| #[trigger] runs_say(before, values) implies runs_say(
                runs@,
                values.push(value@),
            ) by {
                let more = values.push(value@);
                assert forall|k: int, i: int|
                    #![trigger runs@[k], more[i]]
                    0 <= k < runs@.len() && runs@[k].start <= i < runs@[k].end implies more[i] == runs@[k].value@ by {
                    if k < n {
                        if k < n - 1 {
                            lemma_run_ends(before, k, n - 1);
                        }
                        assert(before[k] == runs@[k]);
                        assert(values[i] == before[k].value@);
                    }
                }
            }
        }
    }
}

/// Whether `==` tells values apart that differ, and a clone is the same value.
pub open spec fn tells_values_apart<T: View + PartialEq + Clone>() -> bool {
    &&& T::obeys_eq_spec()
    &&& forall|a: T, b: T| #[trigger] a.eq_spec(&b) <==> a@ == b@
    &&& forall|a: T, b: T| #[trigger] cloned::<T>(a, b) ==> a@ == b@
}

/// Whether a rank has a value: the one in the mesh, or the default where that is
/// a sentinel, or where the mesh does not reach so far.
pub open spec fn is_value_at<T: View, F: Fn(&T) -> bool>(
    mesh: Seq<T>,
    default: T,
    is_sentinel: F,
    rank: int,
    value: T::V,
) -> bool {
    if rank < mesh.len() {
        ||| call_ensures(is_sentinel, (&mesh[rank],), true) && value == default@
        ||| call_ensures(is_sentinel, (&mesh[rank],), false) && value == mesh[rank]@
    } else {
        value == default@
    }
}

/// What the `len` ranks of a mesh have, run by run, with the default in place of
/// each value that is a sentinel.
pub fn mesh_to_rankedvalues_with_default<T: View + PartialEq + Clone, F: Fn(&T) -> bool>(
    mesh: &Vec<T>,
    default: T,
    is_sentinel: F,
    len: usize,
) -> (r: RankedValues<T>)
    requires
        tells_values_apart::<T>(),
        mesh@.len() <= len,
        forall|i: int| 0 <= i < mesh@.len() ==> call_requires(is_sentinel, (&#[trigger] mesh@[i],)),
    ensures
        are_runs(r.spec_runs()),
        covered(r.spec_runs()) == len,
        forall|k: int, i: int|
            #![trigger r.spec_runs()[k], is_value_at(mesh@, default, is_sentinel, i, r.spec_runs()[k].value@)]
            0 <= k < r.spec_runs().len() && r.spec_runs()[k].start <= i < r.spec_runs()[k].end ==> is_value_at(
                mesh@,
                default,
                is_sentinel,
                i,
                r.spec_runs()[k].value@,
            ),
{
    let mut runs: Vec<Run<T>> = Vec::new();
    let mut i: usize = 0;
    let ghost mut values: Seq<T::V> = Seq::empty();
    while i < len
        invariant
            tells_values_apart::<T>(),
            forall|j: int| 0 <= j < mesh@.len() ==> call_requires(is_sentinel, (&#[trigger] mesh@[j],)),
            i <= len,
            are_runs(runs@),
            values.len() == i,
            runs_say(runs@, values),
            forall|j: int| 0 <= j < i ==> is_value_at(mesh@, default, is_sentinel, j, #[trigger] values[j]),
        decreases len - i,
    {
        let value: &T = if i < mesh.len() {
            let replaced: bool = is_sentinel(&mesh[i]);
            if replaced {
                &default
            } else {
                &mesh[i]
            }
        } else {
            &default
        };
        push_rank(&mut runs, i, value);
        proof {
            values = values.push(value@);
        }
        i = i + 1;
    }
    let r = RankedValues { runs };
    proof {
        let all = r.spec_runs();
        assert forall|k: int, i: int|
            #![trigger all[k], is_value_at(mesh@, default, is_sentinel, i, all[k].value@)]
            0 <= k < all.len() && all[k].start <= i < all[k].end implies is_value_at(
            mesh@,
            default,
            is_sentinel,
            i,
            all[k].value@,
        ) by {
            lemma_run_is_covered(all, k);
            assert(values[i] == all[k].value@);
        }
    }
    r
}

/// A run ends no later than the last.
proof fn lemma_run_is_covered<T: View>(runs: Seq<Run<T>>, k: int)
    requires
        are_runs(runs),
        0 <= k < runs.len(),
    ensures
        runs[k].end <= covered(runs),
{
    if k < runs.len() - 1 {
        lemma_run_ends(runs, k, runs.len() - 1);
        assert(runs[runs.len() - 1].start < runs[runs.len() - 1].end);
    }
}

/// What was heard of a rank is what is said of it; the default is said only of
/// ranks of which nothing was heard, and of all of them.
pub proof fn the_default_is_for_ranks_not_heard_of(mesh: Seq<Status>, default: Status, len: nat, i: int)
    requires
        0 <= i < len,
    ensures
        with_default(mesh, default, len).len() == len,
        i < mesh.len() && !(mesh[i]@ is NotExist) ==> with_default(mesh, default, len)[i] == mesh[i]@,
        i >= mesh.len() ==> with_default(mesh, default, len)[i] == default@,
        i < mesh.len() && mesh[i]@ is NotExist ==> with_default(mesh, default, len)[i] == default@,
{
}

/// Each rank that the runs cover lies in one of them, and in no other.
pub proof fn every_rank_is_in_one_run<T: View>(runs: Seq<Run<T>>, i: int) -> (k: int)
    requires
        are_runs(runs),
        0 <= i < covered(runs),
    ensures
        0 <= k < runs.len(),
        runs[k].start <= i < runs[k].end,
        forall|j: int| 0 <= j < runs.len() && j != k ==> !((#[trigger] runs[j]).start <= i < runs[j].end),
{
    let k = lemma_rank_in_run(runs, i, runs.len() - 1);
    assert forall|j: int| 0 <= j < runs.len() && j != k implies !((#[trigger] runs[j]).start <= i < runs[j].end) by {
        if j < k {
            lemma_run_ends(runs, j, k);
        } else {
            lemma_run_ends(runs, k, j);
        }
    }
    k
}

proof fn lemma_rank_in_run<T: View>(runs: Seq<Run<T>>, i: int, last: int) -> (k: int)
    requires
        are_runs(runs),
        0 <= last < runs.len(),
        0 <= i < runs[last].end,
    ensures
        0 <= k <= last,
        runs[k].start <= i < runs[k].end,
    decreases last,
{
    if i >= runs[last].start {
        last
    } else {
        assert(runs[last].start == runs[last - 1].end);
        lemma_rank_in_run(runs, i, last - 1)
    }
}

/// Neighbouring runs differ in what they say, so the runs are as few as can be.
pub proof fn neighbours_differ<T: View>(runs: Seq<Run<T>>, values: Seq<T::V>, k: int)
    requires
        are_runs(runs),
        runs_say(runs, values),
        0 < k < runs.len(),
    ensures
        0 < runs[k].start < values.len(),
        values[runs[k].start - 1] != values[runs[k].start as int],
{
    lemma_run_is_covered(runs, k);
    assert(runs[k - 1].start < runs[k - 1].end);
    assert(values[runs[k].start - 1] == runs[k - 1].value@);
    assert(values[runs[k].start as int] == runs[k].value@);
}

/// How the `len` ranks of a mesh do, run by run. A rank of which nothing was
/// heard, so that it does not seem to exist, does as `default` says.
pub fn statuses_with_default(mesh: &Vec<Status>, default: Status, len: usize) -> (r: RankedValues<Status>)
    requires
        mesh@.len() <= len,
    ensures
        are_runs(r.spec_runs()),
        runs_say(r.spec_runs(), with_default(mesh@, default, len as nat)),
{
    let is_sentinel = |s: &Status| -> (b: bool)
        ensures
            b == (s@ is NotExist),
        { s.is_not_exist() };
    let r: RankedValues<Status> = mesh_to_rankedvalues_with_default(mesh, default, is_sentinel, len);
    proof {
        let all = r.spec_runs();
        let values = with_default(mesh@, default, len as nat);
        assert forall|k: int, i: int|
            #![trigger all[k], values[i]]
            0 <= k < all.len() && all[k].start <= i < all[k].end implies values[i] == all[k].value@ by {
            lemma_run_is_covered(all, k);
            assert(is_value_at(mesh@, default, is_sentinel, i, all[k].value@));
        }
    }
    r
}

}
