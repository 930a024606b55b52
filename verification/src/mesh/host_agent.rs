//! The agent of a host: it starts and stops the host's procs, and knows how they
//! do.

use crate::mesh::bootstrap::{BootstrapCommand, ProcId};
use crate::mesh::resource::{overlay, status_of_proc, Run, Span, State, Status, StatusModel};
use crate::mesh::status::ProcStatus;
use crate::name_map::NameMap;
use vstd::prelude::*;

verus! {

/// How the procs of a host are run.
#[derive(Debug, Clone, Copy, PartialEq, Eq, Structural)]
pub enum HostAgentMode {
    /// Each as a process of its own.
    Process {
        /// Whether this process exits once the host is shut down.
        exit_on_shutdown: bool,
    },
    /// All in this process.
    Local,
}

impl HostAgentMode {
    /// How a host is run that was brought up by a proc: it does not take the
    /// process of that proc down with it.
    pub fn for_trampoline(local: bool) -> (m: HostAgentMode)
        ensures
            m == trampoline_mode(local),
    {
        if local {
            HostAgentMode::Local
        } else {
            HostAgentMode::Process { exit_on_shutdown: false }
        }
    }
}

/// How a host is run that was brought up by a proc.
pub open spec fn trampoline_mode(local: bool) -> HostAgentMode {
    if local {
        HostAgentMode::Local
    } else {
        HostAgentMode::Process { exit_on_shutdown: false }
    }
}

/// A host that was brought up by a proc runs its procs in this process where
/// that is asked for, else as processes; it never takes the process of that proc
/// down with it.
pub proof fn a_proc_outlives_its_host(local: bool)
    ensures
        trampoline_mode(local) is Local <==> local,
        trampoline_mode(local) matches HostAgentMode::Process { exit_on_shutdown } ==> !exit_on_shutdown,
{
}

/// What an agent keeps of a proc.
#[derive(Debug)]
pub struct ProcCreationState {
    pub rank: usize,
    /// The proc and its agent, or why it could not be started.
    pub created: Result<(ProcId, String), String>,
    /// Whether it was stopped.
    pub stopped: bool,
}

/// What is known of a proc.
pub struct ProcState {
    pub proc_id: ProcId,
    pub create_rank: usize,
    /// The agent of the proc.
    pub mesh_agent: String,
    /// The command that started its process, where it has one.
    pub bootstrap_command: Option<BootstrapCommand>,
    /// The state of its process, where it has one.
    pub proc_status: Option<ProcStatus>,
}

/// Asks an agent to shut its host down.
#[derive(Debug, Clone, Copy, PartialEq, Eq, Structural)]
pub struct ShutdownHost {
    /// How long a proc is given to end by itself.
    pub timeout: Span,
    /// The most procs that are terminated at a time.
    pub max_in_flight: usize,
}

/// Asks for the agent of the local proc; with where to send it.
#[derive(Debug)]
pub struct GetLocalProc {
    pub proc_mesh_agent: String,
}

/// Asks for the agent of the host; with where to send it.
#[derive(Debug)]
pub struct GetHostMeshAgent {
    pub host_mesh_agent: String,
}

/// What is to be done to create a proc.
#[derive(Debug, Clone, Copy, PartialEq, Eq, Structural)]
pub enum CreateProc {
    /// Nothing: there is one of that name, and there is no update.
    Exists,
    /// Start it.
    Spawn(HostAgentMode),
}

/// The host was shut down.
#[derive(Debug, Clone, Copy, PartialEq, Eq, Structural)]
pub struct AlreadyShutDown;

impl AlreadyShutDown {
    /// The error, written for a reader.
    pub fn text(&self) -> (s: String)
        ensures
            s@ == "HostMeshAgent has already shut down"@,
    {
        "HostMeshAgent has already shut down".to_owned()
    }
}

/// Why the procs of a host that is shut down are terminated.
pub const SHUTDOWN_REASON: &'static str = "shutdown host";

/// What is to be done next to shut a host down. `exit` says whether the process
/// exits then.
#[derive(Debug, Clone, Copy, PartialEq, Eq, Structural)]
pub enum ShutdownStage {
    /// Terminate the procs for `SHUTDOWN_REASON`, at most so many at a time; each
    /// has so long to end by itself.
    Terminate { timeout: Span, max_in_flight: usize, exit: bool },
    /// Release the host, with whatever of it is still there.
    Release { exit: bool },
    /// Answer that the host is shut down.
    Ack { exit: bool },
    /// Exit the process with code zero.
    Exit,
    Done,
}

/// What was done.
#[derive(Debug, Clone, Copy, PartialEq, Eq, Structural)]
pub enum ShutdownAnswer {
    /// The procs were terminated, as far as they could be.
    Terminated,
    Released,
    /// The answer was sent, whatever came of it.
    Acked,
}

/// The stage that follows; an answer to something else changes nothing.
pub open spec fn next_shutdown_stage(stage: ShutdownStage, answer: ShutdownAnswer) -> ShutdownStage {
    match (stage, answer) {
        (ShutdownStage::Terminate { exit, .. }, ShutdownAnswer::Terminated) => ShutdownStage::Release { exit },
        (ShutdownStage::Release { exit }, ShutdownAnswer::Released) => ShutdownStage::Ack { exit },
        (ShutdownStage::Ack { exit }, ShutdownAnswer::Acked) => if exit {
            ShutdownStage::Exit
        } else {
            ShutdownStage::Done
        },
        (stage, _) => stage,
    }
}

/// Goes on with shutting a host down.
pub fn continue_shutdown(stage: ShutdownStage, answer: ShutdownAnswer) -> (next: ShutdownStage)
    ensures
        next == next_shutdown_stage(stage, answer),
{
    match (stage, answer) {
        (ShutdownStage::Terminate { exit, .. }, ShutdownAnswer::Terminated) => ShutdownStage::Release { exit },
        (ShutdownStage::Release { exit }, ShutdownAnswer::Released) => ShutdownStage::Ack { exit },
        (ShutdownStage::Ack { exit }, ShutdownAnswer::Acked) => if exit {
            ShutdownStage::Exit
        } else {
            ShutdownStage::Done
        },
        (stage, _) => stage,
    }
}

/// The first stage of shutting a host down.
pub open spec fn first_shutdown_stage(host: Option<HostAgentMode>, message: ShutdownHost) -> ShutdownStage {
    match host {
        Some(HostAgentMode::Process { exit_on_shutdown }) => ShutdownStage::Terminate {
            timeout: message.timeout,
            max_in_flight: clamped(message.max_in_flight),
            exit: exit_on_shutdown,
        },
        Some(HostAgentMode::Local) => ShutdownStage::Terminate {
            timeout: message.timeout,
            max_in_flight: message.max_in_flight,
            exit: false,
        },
        None => ShutdownStage::Ack { exit: false },
    }
}

/// Whoever asked for a shutdown is answered only when the procs were terminated
/// and the host was released, and the process exits only after that.
pub proof fn answered_once_shut_down(
    host: HostAgentMode,
    message: ShutdownHost,
    stage: ShutdownStage,
    answer: ShutdownAnswer,
)
    ensures
        first_shutdown_stage(Some(host), message) is Terminate,
        next_shutdown_stage(stage, answer) is Release ==> stage is Release || (stage is Terminate && answer
            is Terminated),
        next_shutdown_stage(stage, answer) is Ack ==> stage is Ack || (stage is Release && answer is Released),
        next_shutdown_stage(stage, answer) is Done ==> stage is Done || (stage is Ack && answer is Acked),
        next_shutdown_stage(stage, answer) is Exit ==> stage is Exit || (stage is Ack && answer is Acked),
{
}

/// The process exits at the end of a shutdown exactly where the host was told
/// so, whatever comes in between; a host within a process never takes it down.
pub proof fn shutting_down_exits_as_told(
    host: Option<HostAgentMode>,
    message: ShutdownHost,
    stage: ShutdownStage,
    answer: ShutdownAnswer,
)
    ensures
        first_shutdown_stage(host, message).exits() == (host matches Some(HostAgentMode::Process { exit_on_shutdown })
            && exit_on_shutdown),
        next_shutdown_stage(stage, answer).exits() == stage.exits(),
{
}

impl ShutdownStage {
    /// Whether the process exits in the end.
    pub open spec fn exits(self) -> bool {
        match self {
            ShutdownStage::Terminate { exit, .. } => exit,
            ShutdownStage::Release { exit } => exit,
            ShutdownStage::Ack { exit } => exit,
            ShutdownStage::Exit => true,
            ShutdownStage::Done => false,
        }
    }
}

/// The procs get the time that the request gives them, and are terminated as
/// many at a time as it says, within the limits of a host of processes: at least
/// one and no more than two hundred and fifty-six. A host that is gone is only
/// answered for.
pub proof fn procs_are_terminated_as_requested(host: HostAgentMode, message: ShutdownHost)
    ensures
        first_shutdown_stage(None, message) is Ack,
        first_shutdown_stage(Some(host), message) matches ShutdownStage::Terminate { timeout, max_in_flight, .. } && {
            &&& timeout == message.timeout
            &&& host is Local ==> max_in_flight == message.max_in_flight
            &&& host is Process ==> 1 <= max_in_flight <= 256
            &&& 1 <= message.max_in_flight <= 256 ==> max_in_flight == message.max_in_flight
            &&& host is Process && message.max_in_flight > 256 ==> max_in_flight == 256
        },
{
}

/// Each step of a shutdown that was done leads to the next.
pub proof fn a_shutdown_goes_on(stage: ShutdownStage, answer: ShutdownAnswer)
    ensures
        stage is Terminate && answer is Terminated ==> next_shutdown_stage(stage, answer) is Release,
        stage is Release && answer is Released ==> next_shutdown_stage(stage, answer) is Ack,
        stage is Ack && answer is Acked ==> next_shutdown_stage(stage, answer) is Exit || next_shutdown_stage(
            stage,
            answer,
        ) is Done,
        next_shutdown_stage(stage, answer) is Terminate ==> next_shutdown_stage(stage, answer) == stage,
{
}

/// The most procs that a host of processes terminates at a time.
pub const MAX_TERMINATIONS: usize = 256;

/// A number of procs that a host of processes terminates at a time.
pub open spec fn clamped(n: usize) -> usize {
    if n < 1 {
        1
    } else if n > MAX_TERMINATIONS {
        MAX_TERMINATIONS
    } else {
        n
    }
}

/// A number of procs that a host of processes terminates at a time.
pub fn clamp_terminations(n: usize) -> (r: usize)
    ensures
        r == clamped(n),
{
    if n < 1 {
        1
    } else if n > MAX_TERMINATIONS {
        MAX_TERMINATIONS
    } else {
        n
    }
}

/// How a proc does: as its process does where that is known, and else by
/// whether it was stopped. One that could not be started has failed.
pub open spec fn creation_status(state: ProcCreationState, process: Option<ProcStatus>) -> StatusModel {
    match state.created {
        Ok(_) => match process {
            Some(st) => status_of_proc(st),
            None => if state.stopped {
                StatusModel::Stopped
            } else {
                StatusModel::Running
            },
        },
        Err(e) => StatusModel::Failed(e@),
    }
}

/// Whether a proc is to be stopped: one that was started and is up, or comes up.
pub open spec fn should_stop(state: ProcCreationState, process: Option<ProcStatus>) -> bool {
    state.created is Ok && match process {
        Some(st) => status_of_proc(st).healthy(),
        None => !state.stopped,
    }
}

/// The agent of a host. `A` is the agent of the proc that stands for the process
/// of the host itself.
pub struct HostMeshAgent<A> {
    host: Option<HostAgentMode>,
    created: NameMap<ProcCreationState>,
    local_mesh_agent: Option<Result<A, String>>,
}

impl<A> HostMeshAgent<A> {
    /// How the procs are run; nothing once the host is shut down.
    pub closed spec fn host(self) -> Option<HostAgentMode> {
        self.host
    }

    /// The procs, by name.
    pub closed spec fn procs(self) -> Map<Seq<char>, ProcCreationState> {
        self.created@
    }

    /// The agent of the local proc, once it was asked for.
    pub closed spec fn local_agent(self) -> Option<Result<A, String>> {
        self.local_mesh_agent
    }

    pub closed spec fn wf(self) -> bool {
        self.created.wf()
    }

    /// What is known of the process of a proc here: nothing where the procs are
    /// not processes, or the host is shut down.
    pub open spec fn known(self, process: Option<ProcStatus>) -> Option<ProcStatus> {
        if self.host() is Some && self.host()->0 is Process {
            process
        } else {
            None
        }
    }

    /// The agent of a host without procs.
    pub fn new(host: HostAgentMode) -> (a: Self)
        ensures
            a.wf(),
            a.host() == Some(host),
            a.procs() == Map::<Seq<char>, ProcCreationState>::empty(),
            a.local_agent() is None,
    {
        HostMeshAgent { host: Some(host), created: NameMap::new(), local_mesh_agent: None }
    }

    fn is_process(&self) -> (r: bool)
        ensures
            r == (self.host() is Some && self.host()->0 is Process),
    {
        match self.host {
            Some(HostAgentMode::Process { .. }) => true,
            _ => false,
        }
    }

    /// Begins to create a proc. One that is there is left as it is.
    pub fn create_or_update(&self, name: &str) -> (step: CreateProc)
        requires
            self.wf(),
            self.procs().dom().contains(name@) || self.host() is Some,
        ensures
            step == create_proc_step(self.procs(), self.host()->0, name@),
    {
        if self.created.contains(name) {
            return CreateProc::Exists;
        }
        match self.host {
            Some(mode) => CreateProc::Spawn(mode),
            None => CreateProc::Exists,
        }
    }

    /// Completes the creation of a proc, with the proc and its agent or with why
    /// it could not be started.
    pub fn created(&mut self, name: &String, rank: usize, created: Result<(ProcId, String), String>)
        requires
            old(self).wf(),
        ensures
            final(self).wf(),
            final(self).host() == old(self).host(),
            final(self).local_agent() == old(self).local_agent(),
            final(self).procs() == old(self).procs().insert(
                name@,
                (ProcCreationState { rank, created, stopped: false }),
            ),
    {
        let _ = self.created.insert(name.clone(), ProcCreationState { rank, created, stopped: false });
    }

    /// Begins to stop a proc. Returns the proc that is to be terminated; none
    /// where there is none, or where it has stopped by itself.
    pub fn stop(&self, name: &str, process: Option<&ProcStatus>) -> (r: Result<Option<&ProcId>, AlreadyShutDown>)
        requires
            self.wf(),
        ensures
            r is Err <==> self.host() is None,
            r matches Ok(found) ==> match found {
                Some(proc_id) => {
                    &&& self.procs().dom().contains(name@)
                    &&& should_stop(self.procs()[name@], self.known(plain(process)))
                    &&& self.procs()[name@].created matches Ok((id, _))
                    &&& id == *proc_id
                },
                None => !self.procs().dom().contains(name@) || !should_stop(
                    self.procs()[name@],
                    self.known(plain(process)),
                ),
            },
    {
        if self.host.is_none() {
            return Err(AlreadyShutDown);
        }
        let process: Option<&ProcStatus> = if self.is_process() {
            process
        } else {
            None
        };
        match self.created.get(name) {
            Some(state) => match &state.created {
                Ok(pair) => {
                    let stops: bool = match process {
                        Some(st) => Status::of_proc(st).is_healthy(),
                        None => !state.stopped,
                    };
                    if stops {
                        Ok(Some(&pair.0))
                    } else {
                        Ok(None)
                    }
                },
                Err(_) => Ok(None),
            },
            None => Ok(None),
        }
    }

    /// Takes note that a proc was terminated.
    pub fn stopped(&mut self, name: &String)
        requires
            old(self).wf(),
        ensures
            final(self).wf(),
            final(self).host() == old(self).host(),
            final(self).local_agent() == old(self).local_agent(),
            final(self).procs() == procs_after_stop(old(self).procs(), name@),
    {
        let ghost before = *self;
        if let Some(state) = self.created.remove(name.as_str()) {
            let stopped = ProcCreationState { rank: state.rank, created: state.created, stopped: true };
            let _ = self.created.insert(name.clone(), stopped);
        }
        assert(self.procs() =~= procs_after_stop(before.procs(), name@));
    }

    fn proc_status(&self, state: &ProcCreationState, process: Option<&ProcStatus>) -> (r: Status)
        ensures
            r@ == creation_status(*state, self.known(plain(process))),
    {
        match &state.created {
            Ok(_) => {
                if self.is_process() {
                    if let Some(st) = process {
                        return Status::of_proc(st);
                    }
                }
                if state.stopped {
                    Status::Stopped
                } else {
                    Status::Running
                }
            },
            Err(e) => Status::Failed(e.clone()),
        }
    }

    /// How a proc does, at the rank that it was created with; nothing where
    /// there is no such proc.
    pub fn get_rank_status(&self, name: &str, process: Option<&ProcStatus>) -> (r: Option<Run<Status>>)
        requires
            self.wf(),
        ensures
            r is Some <==> self.procs().dom().contains(name@) && self.procs()[name@].rank < usize::MAX,
            r matches Some(run) ==> run.start == self.procs()[name@].rank && run.end == run.start + 1 && run.value@
                == creation_status(self.procs()[name@], self.known(plain(process))),
    {
        match self.created.get(name) {
            Some(state) => overlay(state.rank, self.proc_status(state, process)),
            None => None,
        }
    }

    /// How a proc does, and what is known of it; `command` is what starts the
    /// processes of this host.
    pub fn get_state(&self, name: &String, process: Option<ProcStatus>, command: Option<BootstrapCommand>) -> (r: State<
        ProcState,
    >)
        requires
            self.wf(),
        ensures
            r.name == *name,
            r.status@ == (if self.procs().dom().contains(name@) {
                creation_status(self.procs()[name@], self.known(process))
            } else {
                StatusModel::NotExist
            }),
            match r.state {
                Some(state) => {
                    &&& self.procs().dom().contains(name@)
                    &&& self.procs()[name@].created == Ok::<(ProcId, String), String>(
                        (state.proc_id, state.mesh_agent),
                    )
                    &&& state.create_rank == self.procs()[name@].rank
                    &&& state.proc_status == self.known(process)
                    &&& state.bootstrap_command == (if self.host() is Some && self.host()->0 is Process {
                        command
                    } else {
                        None
                    })
                },
                None => !self.procs().dom().contains(name@) || self.procs()[name@].created is Err,
            },
    {
        let is_process: bool = self.is_process();
        match self.created.get(name.as_str()) {
            Some(state) => {
                let status: Status = self.proc_status(state, process.as_ref());
                match &state.created {
                    Ok(pair) => State {
                        name: name.clone(),
                        status,
                        state: Some(
                            ProcState {
                                proc_id: pair.0.clone(),
                                create_rank: state.rank,
                                mesh_agent: pair.1.clone(),
                                bootstrap_command: if is_process {
                                    command
                                } else {
                                    None
                                },
                                proc_status: if is_process {
                                    process
                                } else {
                                    None
                                },
                            },
                        ),
                    },
                    Err(_) => State { name: name.clone(), status, state: None },
                }
            },
            None => State { name: name.clone(), status: Status::NotExist, state: None },
        }
    }

    /// The names of the procs.
    pub fn list(&self) -> (names: Vec<String>)
        requires
            self.wf(),
        ensures
            crate::text::texts(names@).no_duplicates(),
            crate::text::texts(names@).to_set() == self.procs().dom(),
    {
        let mut names: Vec<String> = Vec::new();
        let mut i: usize = 0;
        while i < self.created.len()
            invariant
                self.created.wf(),
                i <= self.created.names().len(),
                crate::text::texts(names@) == self.created.names().take(i as int),
            decreases self.created.names().len() - i,
        {
            let ghost held = names@;
            let name: String = self.created.name_at(i).clone();
            names.push(name);
            assert(crate::text::texts(names@) =~= crate::text::texts(held).push(name@));
            assert(self.created.names().take(i + 1) =~= self.created.names().take(i as int).push(name@));
            i = i + 1;
        }
        proof {
            self.created.lemma_names();
            assert(self.created.names().take(i as int) =~= self.created.names());
            assert(crate::text::texts(names@).to_set() =~= self.procs().dom());
        }
        names
    }

    /// Begins to shut the host down: there is no host from now on. Where there
    /// was none, there is nothing to do but to answer.
    pub fn shutdown(&mut self, message: &ShutdownHost) -> (stage: ShutdownStage)
        requires
            old(self).wf(),
        ensures
            final(self).wf(),
            final(self).host() is None,
            final(self).procs() == old(self).procs(),
            final(self).local_agent() == old(self).local_agent(),
            stage == first_shutdown_stage(old(self).host(), *message),
    {
        let host: Option<HostAgentMode> = self.host;
        self.host = None;
        match host {
            Some(HostAgentMode::Process { exit_on_shutdown }) => ShutdownStage::Terminate {
                timeout: message.timeout,
                max_in_flight: clamp_terminations(message.max_in_flight),
                exit: exit_on_shutdown,
            },
            Some(HostAgentMode::Local) => ShutdownStage::Terminate {
                timeout: message.timeout,
                max_in_flight: message.max_in_flight,
                exit: false,
            },
            None => ShutdownStage::Ack { exit: false },
        }
    }

    /// The agent of the local proc. Where it was not asked for before, it is
    /// what `boot` gives, for good.
    pub fn get_local_proc(&mut self, boot: Result<A, String>) -> (r: Result<&A, String>)
        requires
            old(self).wf(),
        ensures
            final(self).wf(),
            final(self).host() == old(self).host(),
            final(self).procs() == old(self).procs(),
            final(self).local_agent() == Some(
                match old(self).local_agent() {
                    Some(agent) => agent,
                    None => boot,
                },
            ),
            match (r, final(self).local_agent()->0) {
                (Ok(a), Ok(agent)) => *a == agent,
                (Err(text), Err(e)) => text@ == "error booting local proc: "@ + e@,
                _ => false,
            },
    {
        if self.local_mesh_agent.is_none() {
            self.local_mesh_agent = Some(boot);
        }
        match &self.local_mesh_agent {
            Some(Ok(agent)) => Ok(agent),
            Some(Err(e)) => {
                let mut text: String = "error booting local proc: ".to_owned();
                text.append(e.as_str());
                Err(text)
            },
            None => {
                proof {
                    assert(false);
                }
                vstd::pervasive::unreached()
            },
        }
    }
}

/// What is to be done to create a proc.
pub open spec fn create_proc_step(
    procs: Map<Seq<char>, ProcCreationState>,
    host: HostAgentMode,
    name: Seq<char>,
) -> CreateProc {
    if procs.dom().contains(name) {
        CreateProc::Exists
    } else {
        CreateProc::Spawn(host)
    }
}

/// A proc is started once: where there is one of its name, whatever became of it,
/// none is started, and where there is none it is run as the host runs its procs.
pub proof fn procs_are_started_once(procs: Map<Seq<char>, ProcCreationState>, host: HostAgentMode, name: Seq<char>)
    ensures
        create_proc_step(procs, host, name) is Exists <==> procs.dom().contains(name),
        create_proc_step(procs, host, name) matches CreateProc::Spawn(mode) ==> mode == host,
{
}

/// A status that may be there.
pub open spec fn plain(process: Option<&ProcStatus>) -> Option<ProcStatus> {
    match process {
        Some(st) => Some(*st),
        None => None,
    }
}

/// The procs once the one of a name was terminated.
pub open spec fn procs_after_stop(
    procs: Map<Seq<char>, ProcCreationState>,
    name: Seq<char>,
) -> Map<Seq<char>, ProcCreationState> {
    if procs.dom().contains(name) {
        procs.insert(name, ProcCreationState { stopped: true, ..procs[name] })
    } else {
        procs
    }
}

/// A proc that was terminated is not terminated again, unless a process of it
/// is known to be up.
pub proof fn terminated_once(
    procs: Map<Seq<char>, ProcCreationState>,
    name: Seq<char>,
    process: Option<ProcStatus>,
)
    requires
        procs.dom().contains(name),
        process is None || !status_of_proc(process->0).healthy(),
    ensures
        !should_stop(procs_after_stop(procs, name)[name], process),
{
}

/// A process that has come to its end, or was asked to, is not stopped.
pub proof fn the_dead_are_not_stopped(state: ProcCreationState, st: ProcStatus)
    requires
        st.exited() || st is Stopping,
    ensures
        !should_stop(state, Some(st)),
{
}

/// A proc is stopped exactly where it was started and is told to be up or to
/// come up. One that could not be started is told to have failed, and why.
pub proof fn what_is_healthy_is_stopped(state: ProcCreationState, process: Option<ProcStatus>)
    ensures
        should_stop(state, process) <==> creation_status(state, process).healthy(),
        state.created matches Err(e) ==> creation_status(state, process) == StatusModel::Failed(e@),
        state.created is Ok && (process matches Some(st) && (st is Running || st is Ready)) ==> creation_status(
            state,
            process,
        ) is Running,
        state.created is Ok && (process matches Some(st) && st is Starting) ==> creation_status(state, process)
            is Initializing,
        state.created is Ok && (process matches Some(st) && (st is Stopping || st.exited())) ==> creation_status(
            state,
            process,
        ).terminating(),
        state.created is Ok && process is None ==> (creation_status(state, process) is Stopped <==> state.stopped) && (
        creation_status(state, process) is Running <==> !state.stopped),
{
}

/// To stop a proc leaves the others as they are, and all that is kept of it but
/// that it was stopped; nothing is made up where there is no such proc.
pub proof fn stopping_a_proc_leaves_the_others(
    procs: Map<Seq<char>, ProcCreationState>,
    name: Seq<char>,
    other: Seq<char>,
)
    ensures
        procs_after_stop(procs, name).dom() == procs.dom(),
        other != name && procs.dom().contains(other) ==> procs_after_stop(procs, name)[other] == procs[other],
        procs.dom().contains(name) ==> {
            let after = procs_after_stop(procs, name)[name];
            after.stopped && after.rank == procs[name].rank && after.created == procs[name].created
        },
{
    assert(procs_after_stop(procs, name).dom() =~= procs.dom());
}

/// What the system says of a process counts where procs are processes, and only
/// there, and only as long as there is a host.
pub proof fn processes_are_known_to_hosts_of_processes<A>(agent: HostMeshAgent<A>, process: Option<ProcStatus>)
    ensures
        agent.host() matches Some(mode) ==> mode is Process ==> agent.known(process) == process,
        agent.host() matches Some(mode) ==> mode is Local ==> agent.known(process) is None,
        agent.host() is None ==> agent.known(process) is None,
{
}

}
