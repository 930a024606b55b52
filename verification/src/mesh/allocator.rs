//! Processes that an allocator directs.

use crate::channel::addr::{
    addr_reads_as, channel_addr, is_addr_of, names_an_addr, transport_of, AddrError, ChannelAddr, ChannelTransport,
};
use crate::mesh::bootstrap::ProcId;
use crate::numerals::{parse_unsigned, unsigned};
use vstd::prelude::*;

verus! {

/// How long a process waits between two heartbeats, in seconds.
pub const HEARTBEAT_SECS: u64 = 5;

/// The variable that holds the index by which the allocator knows the process.
pub const BOOTSTRAP_INDEX_ENV: &'static str = "HYPERACTOR_MESH_INDEX";

/// The variable that holds the address of the allocator.
pub const BOOTSTRAP_ADDR_ENV: &'static str = "HYPERACTOR_MESH_BOOTSTRAP_ADDR";

/// What an allocator tells a process.
#[derive(Debug)]
pub enum Allocator2Process {
    /// Start a proc, and serve it over that transport.
    StartProc(ProcId, ChannelTransport),
    /// Stop the procs, then exit with that code.
    StopAndExit(i32),
    /// Exit with that code at once.
    Exit(i32),
}

/// Where a process that an allocator directs finds its allocator, and by what
/// index it is known there.
pub struct AllocatorEnv {
    pub addr: ChannelAddr,
    pub index: usize,
}

/// Why a process cannot find its allocator.
pub enum AllocatorEnvError {
    /// A variable could not be read; with what is said of it.
    Read(String),
    /// The address is none.
    Addr(AddrError),
    /// The index is none.
    Index(String),
}

/// What is said of a variable that could not be read.
pub open spec fn read_error_text(name: Seq<char>, error: Seq<char>) -> Seq<char> {
    "read `"@ + name + "`: "@ + error
}

fn read_error(name: &str, error: &str) -> (s: String)
    ensures
        s@ == read_error_text(name@, error@),
{
    let mut s: String = "read `".to_owned();
    s.append(name);
    s.append("`: ");
    s.append(error);
    s
}

/// Whether `r` is what two variables say of the allocator.
pub open spec fn is_allocator_env(
    addr: Result<String, String>,
    index: Result<String, String>,
    r: Result<AllocatorEnv, AllocatorEnvError>,
) -> bool {
    match addr {
        Err(e) => r matches Err(AllocatorEnvError::Read(m)) && m@ == read_error_text(BOOTSTRAP_ADDR_ENV@, e@),
        Ok(a) => if !names_an_addr(a@) {
            r matches Err(AllocatorEnvError::Addr(e)) && addr_reads_as(
                Err(e),
                channel_addr(a@, Seq::<char>::empty()),
            )
        } else {
            match index {
                Err(e) => r matches Err(AllocatorEnvError::Read(m)) && m@ == read_error_text(
                    BOOTSTRAP_INDEX_ENV@,
                    e@,
                ),
                Ok(i) => match unsigned(i@, 10, usize::MAX as int) {
                    Some(n) => r matches Ok(env) && env.index == n && is_addr_of(env.addr, a@),
                    None => r == Err::<AllocatorEnv, AllocatorEnvError>(AllocatorEnvError::Index(i)),
                },
            }
        },
    }
}

/// Reads where the allocator is and the index from the environment, the address
/// first; each is the value of its variable, or the error of reading it.
pub fn allocator_env(addr: Result<String, String>, index: Result<String, String>) -> (r: Result<
    AllocatorEnv,
    AllocatorEnvError,
>)
    ensures
        is_allocator_env(addr, index, r),
{
    let addr: String = match addr {
        Ok(a) => a,
        Err(e) => {
            return Err(AllocatorEnvError::Read(read_error(BOOTSTRAP_ADDR_ENV, e.as_str())));
        },
    };
    let addr: ChannelAddr = match ChannelAddr::from_str(addr.as_str()) {
        Ok(a) => a,
        Err(e) => {
            return Err(AllocatorEnvError::Addr(e));
        },
    };
    let index: String = match index {
        Ok(i) => i,
        Err(e) => {
            return Err(AllocatorEnvError::Read(read_error(BOOTSTRAP_INDEX_ENV, e.as_str())));
        },
    };
    match parse_unsigned(index.as_str(), 10, usize::MAX as u64) {
        Some(n) => Ok(AllocatorEnv { addr, index: n as usize }),
        None => Err(AllocatorEnvError::Index(index)),
    }
}

/// What a process does after a heartbeat: wait for the time of the next, or exit
/// with a code.
#[derive(Debug, Clone, Copy, PartialEq, Eq, Structural)]
pub enum Heartbeat {
    Sleep { secs: u64 },
    Exit { code: i32 },
}

/// What a process does after it reached its allocator or sent it a heartbeat: a
/// process whose allocator does not answer exits.
pub fn after_heartbeat(answered: bool) -> (next: Heartbeat)
    ensures
        next == heartbeat_after(answered),
{
    if answered {
        Heartbeat::Sleep { secs: HEARTBEAT_SECS }
    } else {
        Heartbeat::Exit { code: 1 }
    }
}

/// What a process does after a heartbeat.
pub open spec fn heartbeat_after(answered: bool) -> Heartbeat {
    if answered {
        Heartbeat::Sleep { secs: HEARTBEAT_SECS }
    } else {
        Heartbeat::Exit { code: 1 }
    }
}

/// A process lives on as long as its allocator answers, and not without it: it
/// then exits, and says that something is wrong.
pub proof fn a_process_needs_its_allocator(answered: bool)
    ensures
        heartbeat_after(answered) is Sleep <==> answered,
        heartbeat_after(answered) matches Heartbeat::Sleep { secs } ==> 0 < secs <= 5,
        heartbeat_after(answered) matches Heartbeat::Exit { code } ==> code != 0,
{
}

/// What a process tells its allocator.
#[derive(Debug)]
pub enum Process2AllocatorMessage {
    /// It is there, and listens at that address.
    Hello(ChannelAddr),
    /// It started a proc, with that agent and at that address.
    StartedProc(ProcId, String, ChannelAddr),
    /// It is still there.
    Heartbeat,
}

/// What a process tells its allocator, with the index by which it is known there.
#[derive(Debug)]
pub struct Process2Allocator(pub usize, pub Process2AllocatorMessage);

/// How long a proc is given to stop, in milliseconds.
pub const STOP_MILLIS: u64 = 10;

/// What a process that an allocator directs does next.
#[derive(Debug)]
pub enum V0Stage {
    /// Listen, over that transport.
    Listen(ChannelTransport),
    /// Connect to the allocator, now that the process listens at that address.
    Dial { serve_addr: ChannelAddr },
    /// Send the allocator a greeting, without waiting for it to arrive, and
    /// begin to send heartbeats.
    Greet(Process2Allocator),
    /// Wait for the allocator; at first also for the greeting to come back.
    Await { greeting: bool },
    /// Start a proc.
    StartProc { proc_id: ProcId, transport: ChannelTransport },
    /// Serve it, over that transport.
    ServeProc { proc_id: ProcId, agent: String, transport: ChannelTransport },
    /// Report it.
    Report { proc_id: ProcId, message: Process2Allocator },
    /// Stop the proc at that place in the list of those that were started.
    StopProc { at: usize, code: i32 },
    /// Exit with that code.
    Exit(i32),
    /// The process is of no more use.
    Failed(String),
}

/// What came of a stage.
#[derive(Debug)]
pub enum V0Answer {
    /// The address at which the process listens.
    Listening(Result<ChannelAddr, String>),
    Dialed(Result<(), String>),
    Greeted,
    /// The allocator said something, or nothing will be heard of it any more.
    Heard(Result<Allocator2Process, String>),
    /// The greeting came back: the allocator is not there.
    HelloReturned(String),
    /// The agent of the proc.
    ProcStarted(Result<String, String>),
    /// The address of the proc.
    ProcServed(Result<ChannelAddr, String>),
    Reported(Result<(), String>),
    /// The proc stopped, or did not.
    ProcStopped(Result<(), String>),
}

/// A process that an allocator directs: the index by which it is known there,
/// the procs that it started and reported, in order, and what it does next.
pub struct V0Process {
    pub index: usize,
    pub procs: Vec<ProcId>,
    pub stage: V0Stage,
}

/// What follows on something that the allocator said.
pub open spec fn stage_on(message: Allocator2Process, procs: nat) -> V0Stage {
    match message {
        Allocator2Process::StartProc(proc_id, transport) => V0Stage::StartProc { proc_id, transport },
        Allocator2Process::StopAndExit(code) => if procs > 0 {
            V0Stage::StopProc { at: 0, code }
        } else {
            V0Stage::Exit(code)
        },
        Allocator2Process::Exit(code) => V0Stage::Exit(code),
    }
}

/// Whether the stage is the one that follows; an answer to something else
/// changes nothing.
pub open spec fn follows_v0(index: usize, procs: nat, stage: V0Stage, answer: V0Answer, next: V0Stage) -> bool {
    match (stage, answer) {
        (V0Stage::Listen(_), V0Answer::Listening(Ok(serve_addr))) => next == (V0Stage::Dial { serve_addr }),
        (V0Stage::Dial { serve_addr }, V0Answer::Dialed(Ok(_))) => next == V0Stage::Greet(
            Process2Allocator(index, Process2AllocatorMessage::Hello(serve_addr)),
        ),
        (V0Stage::Greet(_), V0Answer::Greeted) => next == (V0Stage::Await { greeting: true }),
        (V0Stage::Await { .. }, V0Answer::Heard(Ok(message))) => next == stage_on(message, procs),
        (V0Stage::Await { greeting }, V0Answer::HelloReturned(message)) => if greeting {
            next matches V0Stage::Failed(e) && e@ == "Hello message was not delivered:"@ + message@
        } else {
            next == stage
        },
        (V0Stage::StartProc { proc_id, transport }, V0Answer::ProcStarted(Ok(agent))) => next
            == (V0Stage::ServeProc { proc_id, agent, transport }),
        (V0Stage::ServeProc { proc_id, agent, .. }, V0Answer::ProcServed(Ok(addr))) => next == (V0Stage::Report {
            proc_id,
            message: Process2Allocator(index, Process2AllocatorMessage::StartedProc(proc_id, agent, addr)),
        }),
        (V0Stage::Report { .. }, V0Answer::Reported(Ok(_))) => next == (V0Stage::Await { greeting: false }),
        (V0Stage::StopProc { at, code }, V0Answer::ProcStopped(_)) => if at + 1 < procs {
            next == (V0Stage::StopProc { at: (at + 1) as usize, code })
        } else {
            next == V0Stage::Exit(code)
        },
        (V0Stage::Listen(_), V0Answer::Listening(Err(e))) => next == V0Stage::Failed(e),
        (V0Stage::Dial { .. }, V0Answer::Dialed(Err(e))) => next == V0Stage::Failed(e),
        (V0Stage::Await { .. }, V0Answer::Heard(Err(e))) => next == V0Stage::Failed(e),
        (V0Stage::StartProc { .. }, V0Answer::ProcStarted(Err(e))) => next == V0Stage::Failed(e),
        (V0Stage::ServeProc { .. }, V0Answer::ProcServed(Err(e))) => next == V0Stage::Failed(e),
        (V0Stage::Report { .. }, V0Answer::Reported(Err(e))) => next == V0Stage::Failed(e),
        (stage, _) => next == stage,
    }
}

/// Whether the list of procs is the one that follows: a proc is on it once it
/// was reported.
pub open spec fn follows_v0_procs(procs: Seq<ProcId>, stage: V0Stage, answer: V0Answer, next: Seq<ProcId>) -> bool {
    match (stage, answer) {
        (V0Stage::Report { proc_id, .. }, V0Answer::Reported(Ok(_))) => next == procs.push(proc_id),
        _ => next == procs,
    }
}

impl V0Process {
    /// A process that is about to greet its allocator: it listens over the
    /// transport by which the allocator is reached.
    pub fn new(env: &AllocatorEnv) -> (p: V0Process)
        ensures
            p.index == env.index,
            p.procs@.len() == 0,
            p.stage == V0Stage::Listen(transport_of(env.addr@)),
    {
        V0Process { index: env.index, procs: Vec::new(), stage: V0Stage::Listen(env.addr.transport()) }
    }

    /// Goes on, once something came of the stage.
    pub fn step(self, answer: V0Answer) -> (next: V0Process)
        ensures
            next.index == self.index,
            follows_v0(self.index, self.procs@.len(), self.stage, answer, next.stage),
            follows_v0_procs(self.procs@, self.stage, answer, next.procs@),
    {
        let index: usize = self.index;
        let mut procs: Vec<ProcId> = self.procs;
        let stage: V0Stage = match (self.stage, answer) {
            (V0Stage::Listen(_), V0Answer::Listening(r)) => match r {
                Ok(serve_addr) => V0Stage::Dial { serve_addr },
                Err(e) => V0Stage::Failed(e),
            },
            (V0Stage::Dial { serve_addr }, V0Answer::Dialed(r)) => match r {
                Ok(_) => V0Stage::Greet(Process2Allocator(index, Process2AllocatorMessage::Hello(serve_addr))),
                Err(e) => V0Stage::Failed(e),
            },
            (V0Stage::Greet(_), V0Answer::Greeted) => V0Stage::Await { greeting: true },
            (V0Stage::Await { .. }, V0Answer::Heard(r)) => match r {
                Ok(message) => match message {
                    Allocator2Process::StartProc(proc_id, transport) => V0Stage::StartProc { proc_id, transport },
                    Allocator2Process::StopAndExit(code) => if procs.len() > 0 {
                        V0Stage::StopProc { at: 0, code }
                    } else {
                        V0Stage::Exit(code)
                    },
                    Allocator2Process::Exit(code) => V0Stage::Exit(code),
                },
                Err(e) => V0Stage::Failed(e),
            },
            (V0Stage::Await { greeting }, V0Answer::HelloReturned(message)) => if greeting {
                let mut e: String = "Hello message was not delivered:".to_owned();
                e.append(message.as_str());
                V0Stage::Failed(e)
            } else {
                V0Stage::Await { greeting }
            },
            (V0Stage::StartProc { proc_id, transport }, V0Answer::ProcStarted(r)) => match r {
                Ok(agent) => V0Stage::ServeProc { proc_id, agent, transport },
                Err(e) => V0Stage::Failed(e),
            },
            (V0Stage::ServeProc { proc_id, agent, .. }, V0Answer::ProcServed(r)) => match r {
                Ok(addr) => {
                    let message = Process2AllocatorMessage::StartedProc(proc_id.clone(), agent, addr);
                    V0Stage::Report { proc_id, message: Process2Allocator(index, message) }
                },
                Err(e) => V0Stage::Failed(e),
            },
            (V0Stage::Report { proc_id, .. }, V0Answer::Reported(r)) => match r {
                Ok(_) => {
                    procs.push(proc_id);
                    V0Stage::Await { greeting: false }
                },
                Err(e) => V0Stage::Failed(e),
            },
            (V0Stage::StopProc { at, code }, V0Answer::ProcStopped(_)) => if at < procs.len() && at + 1 < procs.len() {
                V0Stage::StopProc { at: at + 1, code }
            } else {
                V0Stage::Exit(code)
            },
            (stage, _) => stage,
        };
        V0Process { index, procs, stage }
    }
}

/// A process stops every proc that it started and reported, one after the
/// other, before it exits: it goes from stopping to its exit only behind the
/// last of them.
pub proof fn every_proc_is_stopped(index: usize, procs: nat, at: usize, code: i32, answer: V0Answer, next: V0Stage)
    requires
        at < procs,
        follows_v0(index, procs, V0Stage::StopProc { at, code }, answer, next),
    ensures
        next == (V0Stage::StopProc { at, code }) || next == (V0Stage::StopProc { at: (at + 1) as usize, code })
            || next == V0Stage::Exit(code),
        next is Exit ==> at + 1 == procs,
{
}

/// A process that is to exit, or that is of no more use, stays so.
pub proof fn an_end_is_final(index: usize, procs: nat, stage: V0Stage, answer: V0Answer, next: V0Stage)
    requires
        stage is Exit || stage is Failed,
        follows_v0(index, procs, stage, answer, next),
    ensures
        next == stage,
{
}

/// Only a proc that was started is served, and only one that is served is
/// reported.
pub proof fn procs_come_up_in_order(index: usize, procs: nat, stage: V0Stage, answer: V0Answer, next: V0Stage)
    requires
        follows_v0(index, procs, stage, answer, next),
    ensures
        next is ServeProc ==> stage is ServeProc || (stage is StartProc && answer matches V0Answer::ProcStarted(Ok(_))),
        next is Report ==> stage is Report || (stage is ServeProc && answer matches V0Answer::ProcServed(Ok(_))),
{
}

/// Each thing that a process does follows on what came before, and on what it
/// was told: it greets its allocator with the address at which it listens, it
/// starts the procs that it is told to, reports each with its agent and its
/// address, stops them in their order, and exits with the code that it is told.
pub proof fn a_process_does_as_it_is_told(index: usize, procs: nat, stage: V0Stage, answer: V0Answer, next: V0Stage)
    requires
        procs <= usize::MAX,
        follows_v0(index, procs, stage, answer, next),
        next != stage,
    ensures
        match next {
            V0Stage::Listen(_) => false,
            V0Stage::Dial { serve_addr } => stage is Listen && answer == V0Answer::Listening(Ok(serve_addr)),
            V0Stage::Greet(message) => (stage matches V0Stage::Dial { serve_addr } && message.0 == index && message.1
                == Process2AllocatorMessage::Hello(serve_addr)) && (answer matches V0Answer::Dialed(Ok(_))),
            V0Stage::Await { greeting } => if greeting {
                stage is Greet && answer is Greeted
            } else {
                stage is Report && (answer matches V0Answer::Reported(Ok(_)))
            },
            V0Stage::StartProc { proc_id, transport } => stage is Await && answer == V0Answer::Heard(
                Ok(Allocator2Process::StartProc(proc_id, transport)),
            ),
            V0Stage::ServeProc { proc_id, agent, transport } => stage == (V0Stage::StartProc { proc_id, transport })
                && answer == V0Answer::ProcStarted(Ok(agent)),
            V0Stage::Report { proc_id, message } => message.0 == index && (
            stage matches V0Stage::ServeProc { proc_id: id, agent, .. } && answer matches V0Answer::ProcServed(Ok(addr))
                && id == proc_id && message.1 == Process2AllocatorMessage::StartedProc(proc_id, agent, addr)),
            V0Stage::StopProc { at, code } => (stage is Await && at == 0 && procs > 0 && answer == V0Answer::Heard(
                Ok(Allocator2Process::StopAndExit(code)),
            )) || (at > 0 && at < procs && stage == (V0Stage::StopProc { at: (at - 1) as usize, code }) && answer
                is ProcStopped),
            V0Stage::Exit(code) => (stage is Await && answer == V0Answer::Heard(Ok(Allocator2Process::Exit(code)))) || (
            stage is Await && procs == 0 && answer == V0Answer::Heard(Ok(Allocator2Process::StopAndExit(code)))) || (
            answer is ProcStopped && (stage matches V0Stage::StopProc { at, code: c } && c == code && at + 1 >= procs)),
            V0Stage::Failed(e) => match answer {
                V0Answer::Listening(r) => stage is Listen && r == Err::<ChannelAddr, String>(e),
                V0Answer::Dialed(r) => stage is Dial && r == Err::<(), String>(e),
                V0Answer::Heard(r) => stage is Await && r == Err::<Allocator2Process, String>(e),
                V0Answer::HelloReturned(_) => stage == (V0Stage::Await { greeting: true }),
                V0Answer::ProcStarted(r) => stage is StartProc && r == Err::<String, String>(e),
                V0Answer::ProcServed(r) => stage is ServeProc && r == Err::<ChannelAddr, String>(e),
                V0Answer::Reported(r) => stage is Report && r == Err::<(), String>(e),
                _ => false,
            },
        },
{
}

/// An answer to what a stage asks for ends the stage.
pub proof fn answered_stages_are_left(index: usize, procs: nat, stage: V0Stage, answer: V0Answer, next: V0Stage)
    requires
        procs <= usize::MAX,
        follows_v0(index, procs, stage, answer, next),
        match stage {
            V0Stage::Listen(_) => answer is Listening,
            V0Stage::Dial { .. } => answer is Dialed,
            V0Stage::Greet(_) => answer is Greeted,
            V0Stage::Await { greeting } => answer is Heard || (greeting && answer is HelloReturned),
            V0Stage::StartProc { .. } => answer is ProcStarted,
            V0Stage::ServeProc { .. } => answer is ProcServed,
            V0Stage::Report { .. } => answer is Reported,
            V0Stage::StopProc { .. } => answer is ProcStopped,
            _ => false,
        },
    ensures
        next != stage,
{
}

/// The procs that a process has to stop are those that it reported, in that
/// order: each is put behind the others once it was reported, and none is taken
/// off.
pub proof fn reported_procs_are_kept(procs: Seq<ProcId>, stage: V0Stage, answer: V0Answer, next: Seq<ProcId>)
    requires
        follows_v0_procs(procs, stage, answer, next),
    ensures
        procs.is_prefix_of(next),
        next.len() == procs.len() <==> !(stage is Report && (answer matches V0Answer::Reported(Ok(_)))),
        next.len() <= procs.len() + 1,
        next.len() > procs.len() ==> (stage matches V0Stage::Report { proc_id, .. } && next.last() == proc_id),
{
    assert(next.take(procs.len() as int) =~= procs);
}

/// A process finds its allocator exactly where both variables can be read, the
/// one holds an address and the other an index; what it finds is that address
/// and that index. Of several things wrong, those of the address come first.
pub proof fn an_allocator_is_found_where_it_is_named(
    addr: Result<String, String>,
    index: Result<String, String>,
    r: Result<AllocatorEnv, AllocatorEnvError>,
)
    requires
        is_allocator_env(addr, index, r),
    ensures
        r is Ok <==> (addr matches Ok(a) && index matches Ok(i) && names_an_addr(a@) && unsigned(
            i@,
            10,
            usize::MAX as int,
        ) is Some),
        r matches Ok(env) ==> is_addr_of(env.addr, addr->Ok_0@) && unsigned(index->Ok_0@, 10, usize::MAX as int) == Some(
            env.index as nat,
        ),
        addr is Err ==> r matches Err(AllocatorEnvError::Read(_)),
        r matches Err(AllocatorEnvError::Addr(_)) <==> (addr matches Ok(a) && !names_an_addr(a@)),
        r matches Err(AllocatorEnvError::Index(i)) ==> index == Ok::<String, String>(i),
{
}

}
