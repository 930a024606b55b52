//! The agent of a proc: it starts and stops the proc's actors, and knows how
//! they do.

use crate::mesh::resource::{overlay, Run, State, Status, StatusModel};
use crate::name_map::NameMap;
use vstd::prelude::*;

verus! {

/// What came of starting an actor.
#[derive(Debug)]
pub enum GspawnResult {
    Success { rank: usize, actor_id: String },
    Error(String),
}

/// What came of stopping an actor.
#[derive(Debug, Clone, Copy, PartialEq, Eq, Structural)]
pub enum StopActorResult {
    Success,
    Timeout,
    NotFound,
}

impl StopActorResult {
    /// What came of stopping an actor: whether it stopped in time, where there
    /// was such an actor.
    pub fn of(stopped_in_time: Option<bool>) -> (r: StopActorResult)
        ensures
            r == stop_actor_result(stopped_in_time),
    {
        match stopped_in_time {
            Some(stopped) => if stopped {
                StopActorResult::Success
            } else {
                StopActorResult::Timeout
            },
            None => StopActorResult::NotFound,
        }
    }
}

/// What came of stopping an actor.
pub open spec fn stop_actor_result(stopped_in_time: Option<bool>) -> StopActorResult {
    match stopped_in_time {
        Some(true) => StopActorResult::Success,
        Some(false) => StopActorResult::Timeout,
        None => StopActorResult::NotFound,
    }
}

/// An actor counts as stopped only where it was there and stopped in time; one
/// that was not there is told apart from one that took too long.
pub proof fn only_stopped_actors_succeed(stopped_in_time: Option<bool>)
    ensures
        stop_actor_result(stopped_in_time) is Success <==> stopped_in_time == Some(true),
        stop_actor_result(stopped_in_time) is NotFound <==> stopped_in_time is None,
{
}

/// An answer to a question about a proc or an actor.
#[derive(Debug)]
pub struct AdminQueryResponse {
    /// The answer as JSON; none where what was asked about is not there.
    pub json: Option<String>,
}

/// Asks for a new client on the proc; with where to send it.
#[derive(Debug)]
pub struct NewClientInstance {
    pub client_instance: String,
}

/// Asks for the proc; with where to send it.
#[derive(Debug)]
pub struct GetProc {
    pub proc: String,
}

/// What an actor is started as.
#[derive(Debug)]
pub struct ActorSpec {
    /// The type of the actor.
    pub actor_type: String,
    /// Its parameters, as bytes.
    pub params_data: Vec<u8>,
}

/// Something that befell an actor.
#[derive(Debug)]
pub struct ActorSupervisionEvent {
    pub actor_id: String,
    /// The event, written out.
    pub text: String,
}

impl Clone for ActorSupervisionEvent {
    fn clone(&self) -> (c: ActorSupervisionEvent)
        ensures
            c == *self,
    {
        ActorSupervisionEvent { actor_id: self.actor_id.clone(), text: self.text.clone() }
    }
}

fn clone_events(events: &Vec<ActorSupervisionEvent>) -> (c: Vec<ActorSupervisionEvent>)
    ensures
        c@ == events@,
{
    let mut c: Vec<ActorSupervisionEvent> = Vec::new();
    let mut i: usize = 0;
    while i < events.len()
        invariant
            i <= events@.len(),
            c@ == events@.take(i as int),
        decreases events@.len() - i,
    {
        c.push(events[i].clone());
        i = i + 1;
    }
    c
}

/// What is known of an actor.
#[derive(Debug)]
pub struct ActorState {
    pub actor_id: String,
    /// The rank of the proc that the actor was created on.
    pub create_rank: usize,
    /// What befell it.
    pub supervision_events: Vec<ActorSupervisionEvent>,
}

/// What an agent keeps of an actor.
#[derive(Debug)]
pub struct ActorInstanceState {
    pub create_rank: usize,
    /// The actor, or why it could not be started.
    pub spawn: Result<String, String>,
    /// Whether it was stopped. A stopped actor stays stopped.
    pub stopped: bool,
}

/// Texts, with a comma and a space between two.
pub open spec fn listed(events: Seq<ActorSupervisionEvent>) -> Seq<char>
    decreases events.len(),
{
    if events.len() == 0 {
        Seq::empty()
    } else if events.len() == 1 {
        events[0].text@
    } else {
        listed(events.drop_last()) + ", "@ + events.last().text@
    }
}

/// The reason for which an actor failed that something befell.
pub open spec fn events_text(events: Seq<ActorSupervisionEvent>) -> Seq<char> {
    "because of supervision events: ["@ + listed(events) + "]"@
}

fn format_events(events: &Vec<ActorSupervisionEvent>) -> (s: String)
    ensures
        s@ == events_text(events@),
{
    let mut s: String = "because of supervision events: [".to_owned();
    let ghost start = s@;
    let mut i: usize = 0;
    assert(start + listed(events@.take(0)) =~= start);
    while i < events.len()
        invariant
            i <= events@.len(),
            s@ == start + listed(events@.take(i as int)),
        decreases events@.len() - i,
    {
        let ghost now = events@.take(i + 1);
        assert(now.drop_last() =~= events@.take(i as int));
        if i > 0 {
            s.append(", ");
        }
        s.append(events[i].text.as_str());
        assert(s@ =~= start + listed(now));
        i = i + 1;
    }
    assert(events@.take(events@.len() as int) =~= events@);
    s.append("]");
    s
}

/// What an agent was set up for; `K` is how it reaches other procs.
enum AgentState<K> {
    UnconfiguredV0 { sender: K },
    ConfiguredV0 { sender: K, rank: usize, supervisor: Option<String> },
    V1,
    Invalid,
}

/// What an agent was set up for.
pub enum AgentMode {
    /// It waits to be configured.
    UnconfiguredV0,
    /// It is configured, with its rank and with whom to report to.
    ConfiguredV0 { rank: usize, supervisor: Option<String> },
    /// It needs no configuration.
    V1,
    /// It cannot be used.
    Invalid,
}

/// Why an agent does not do what it was asked to.
#[derive(Debug, Clone, Copy, PartialEq, Eq, Structural)]
pub enum AgentError {
    /// It was configured before, or needs no configuration.
    NotReconfigurable,
    /// It is not configured.
    NotConfigured,
    /// It has no status before it is configured.
    StatusNotConfigured,
    /// It has no status, for it has no rank.
    StatusUnsupported,
    /// It cannot be used.
    StatusInvalid,
}

/// How an `AgentError` is written.
pub open spec fn agent_error_text(e: AgentError) -> Seq<char> {
    match e {
        AgentError::NotReconfigurable => "mesh agent cannot be (re-)configured"@,
        AgentError::NotConfigured => "mesh agent is not v0 configured"@,
        AgentError::StatusNotConfigured => "status unavailable: v0 agent not configured (waiting for Configure)"@,
        AgentError::StatusUnsupported => "status unsupported in v1/owned path (no rank)"@,
        AgentError::StatusInvalid => "status unavailable: agent in invalid state"@,
    }
}

impl AgentError {
    /// The error, written for a reader.
    pub fn text(&self) -> (s: String)
        ensures
            s@ == agent_error_text(*self),
    {
        match self {
            AgentError::NotReconfigurable => "mesh agent cannot be (re-)configured".to_owned(),
            AgentError::NotConfigured => "mesh agent is not v0 configured".to_owned(),
            AgentError::StatusNotConfigured => "status unavailable: v0 agent not configured (waiting for Configure)".to_owned(),
            AgentError::StatusUnsupported => "status unsupported in v1/owned path (no rank)".to_owned(),
            AgentError::StatusInvalid => "status unavailable: agent in invalid state".to_owned(),
        }
    }
}

/// What is to be done with something that befell an actor.
#[derive(Debug)]
pub enum EventAction {
    /// Report it.
    Forward { supervisor: String, event: ActorSupervisionEvent },
    /// Nothing: it was recorded.
    Recorded,
    /// Nobody will ever know of it: exit with that code.
    Crash { code: i32 },
}

/// What is to be done to create an actor.
#[derive(Debug, Clone, Copy, PartialEq, Eq, Structural)]
pub enum CreateStep {
    /// Nothing: there is one of that name, and there is no update.
    Exists,
    /// Nothing: no more actors are started on this proc.
    Refused,
    /// Start it.
    Spawn,
}

/// How the code with which to exit is passed on.
#[derive(Debug, Clone, Copy, PartialEq, Eq, Structural)]
pub enum ShutdownStep {
    /// Tell it to whoever waits for it.
    Send { code: i32 },
    /// Exit with it.
    Exit { code: i32 },
}

/// The text for an actor that is not started because something befell another.
pub const REFUSED: &'static str = "Cannot spawn new actors on mesh with supervision events";

/// What befell one actor.
pub open spec fn events_of(
    events: Map<Seq<char>, Seq<ActorSupervisionEvent>>,
    actor_id: Seq<char>,
) -> Seq<ActorSupervisionEvent> {
    if events.dom().contains(actor_id) {
        events[actor_id]
    } else {
        Seq::empty()
    }
}

/// What befell the actors, once an event was recorded: it is the last of its actor.
pub open spec fn events_after(
    events: Map<Seq<char>, Seq<ActorSupervisionEvent>>,
    event: ActorSupervisionEvent,
) -> Map<Seq<char>, Seq<ActorSupervisionEvent>> {
    events.insert(event.actor_id@, events_of(events, event.actor_id@).push(event))
}

/// How an actor does: a stopped one is stopped, whatever befell it; one that
/// something befell has failed, and so has one that could not be started.
pub open spec fn instance_status(
    state: ActorInstanceState,
    events: Map<Seq<char>, Seq<ActorSupervisionEvent>>,
) -> StatusModel {
    match state.spawn {
        Ok(actor_id) => if state.stopped {
            StatusModel::Stopped
        } else if events_of(events, actor_id@).len() == 0 {
            StatusModel::Running
        } else {
            StatusModel::Failed(events_text(events_of(events, actor_id@)))
        },
        Err(e) => StatusModel::Failed(e@),
    }
}

/// How the actor of a name does.
pub open spec fn status_of(
    actors: Map<Seq<char>, ActorInstanceState>,
    events: Map<Seq<char>, Seq<ActorSupervisionEvent>>,
    name: Seq<char>,
) -> StatusModel {
    if actors.dom().contains(name) {
        instance_status(actors[name], events)
    } else {
        StatusModel::NotExist
    }
}

/// The actors once the one of a name was stopped, where it was started and not
/// stopped before.
pub open spec fn actors_after_stop(
    actors: Map<Seq<char>, ActorInstanceState>,
    name: Seq<char>,
) -> Map<Seq<char>, ActorInstanceState> {
    if actors.dom().contains(name) && actors[name].spawn is Ok && !actors[name].stopped {
        actors.insert(name, ActorInstanceState { stopped: true, ..actors[name] })
    } else {
        actors
    }
}

/// Whether the actors differ in that one more was refused.
pub open spec fn is_refused(
    before: Map<Seq<char>, ActorInstanceState>,
    after: Map<Seq<char>, ActorInstanceState>,
    name: Seq<char>,
    create_rank: usize,
) -> bool {
    &&& after.dom().contains(name)
    &&& after == before.insert(name, after[name])
    &&& after[name].create_rank == create_rank
    &&& after[name].spawn matches Err(e)
    &&& e@ == REFUSED@
    &&& !after[name].stopped
}

/// What is to be done to create an actor: nothing where there is one of that
/// name, or where something has befallen an actor.
pub open spec fn create_step(
    actors: Map<Seq<char>, ActorInstanceState>,
    events: Map<Seq<char>, Seq<ActorSupervisionEvent>>,
    name: Seq<char>,
) -> CreateStep {
    if actors.dom().contains(name) {
        CreateStep::Exists
    } else if events.dom().len() > 0 {
        CreateStep::Refused
    } else {
        CreateStep::Spawn
    }
}

/// What is to be done with something that befell an actor: it is reported to
/// whom the agent reports; where there is nobody, it must be recorded.
pub open spec fn event_action(mode: AgentMode, records: bool, event: ActorSupervisionEvent) -> EventAction {
    match mode {
        AgentMode::ConfiguredV0 { supervisor: Some(supervisor), .. } => EventAction::Forward { supervisor, event },
        _ => if records {
            EventAction::Recorded
        } else {
            EventAction::Crash { code: 1 }
        },
    }
}

/// Nothing that befell an actor passes unnoticed: it is reported, as it is and to
/// the one to report to, or it was recorded, or the process crashes for it.
pub proof fn no_event_passes_unnoticed(mode: AgentMode, records: bool, event: ActorSupervisionEvent)
    ensures
        mode matches AgentMode::ConfiguredV0 { supervisor: Some(s), .. } ==> event_action(mode, records, event)
            == (EventAction::Forward { supervisor: s, event }),
        event_action(mode, records, event) is Forward ==> (mode matches AgentMode::ConfiguredV0 { supervisor, .. }
            && supervisor is Some),
        event_action(mode, records, event) is Recorded ==> records,
        event_action(mode, records, event) matches EventAction::Crash { code } ==> !records && code != 0,
{
}

/// The actor that is to be stopped: one that was started and not stopped before.
pub open spec fn actor_to_stop(actors: Map<Seq<char>, ActorInstanceState>, name: Seq<char>) -> Option<String> {
    if actors.dom().contains(name) {
        match actors[name] {
            ActorInstanceState { spawn: Ok(actor_id), stopped: false, .. } => Some(actor_id),
            _ => None,
        }
    } else {
        None
    }
}

/// An actor is stopped exactly where stopping changes what is kept of it, and it
/// is the one that was started under the name; once stopped, it is not again.
pub proof fn what_is_stopped_was_started(actors: Map<Seq<char>, ActorInstanceState>, name: Seq<char>)
    ensures
        actor_to_stop(actors, name) is Some <==> actors.dom().contains(name) && actors[name].spawn is Ok
            && !actors[name].stopped,
        actor_to_stop(actors, name) matches Some(id) ==> actors[name].spawn == Ok::<String, String>(id),
        actor_to_stop(actors_after_stop(actors, name), name) is None,
{
}

/// How the code with which to exit is passed on, which says whether every actor
/// was stopped.
pub open spec fn exit_step(awaited: bool, stopped: bool) -> ShutdownStep {
    let code: i32 = if stopped {
        0
    } else {
        1
    };
    if awaited {
        ShutdownStep::Send { code }
    } else {
        ShutdownStep::Exit { code }
    }
}

/// The code with which to exit is zero exactly where every actor was stopped, and
/// it is told to whoever waits for it; only where nobody does, the process exits
/// at once.
pub proof fn the_exit_code_says_whether_all_stopped(awaited: bool, stopped: bool)
    ensures
        exit_step(awaited, stopped) is Send <==> awaited,
        exit_step(awaited, stopped) matches ShutdownStep::Send { code } ==> (code == 0 <==> stopped),
        exit_step(awaited, stopped) matches ShutdownStep::Exit { code } ==> (code == 0 <==> stopped),
{
}

/// The rank for an actor that is started as it was before actors had names.
pub open spec fn spawn_rank(mode: AgentMode) -> Result<usize, AgentError> {
    match mode {
        AgentMode::ConfiguredV0 { rank, .. } => Ok(rank),
        _ => Err(AgentError::NotConfigured),
    }
}

/// What an agent says of itself.
pub open spec fn told_status(mode: AgentMode) -> Result<(usize, bool), AgentError> {
    match mode {
        AgentMode::ConfiguredV0 { rank, .. } => Ok((rank, true)),
        AgentMode::UnconfiguredV0 => Err(AgentError::StatusNotConfigured),
        AgentMode::V1 => Err(AgentError::StatusUnsupported),
        AgentMode::Invalid => Err(AgentError::StatusInvalid),
    }
}

/// Only an agent that was configured has a rank, which is the one that it was
/// configured with, and is told to be up; any other says why it is not.
pub proof fn only_configured_agents_have_a_rank(mode: AgentMode)
    ensures
        spawn_rank(mode) is Ok <==> mode is ConfiguredV0,
        told_status(mode) is Ok <==> mode is ConfiguredV0,
        mode matches AgentMode::ConfiguredV0 { rank, .. } ==> spawn_rank(mode) == Ok::<usize, AgentError>(rank)
            && told_status(mode) == Ok::<(usize, bool), AgentError>((rank, true)),
        spawn_rank(mode) matches Err(e) ==> e is NotConfigured,
        told_status(mode) matches Err(e) ==> (e is StatusNotConfigured <==> mode is UnconfiguredV0) && (e
            is StatusUnsupported <==> mode is V1) && (e is StatusInvalid <==> mode is Invalid),
{
}

/// The agent of a proc.
pub struct ProcMeshAgent<K> {
    state: AgentState<K>,
    actor_states: NameMap<ActorInstanceState>,
    record_supervision_events: bool,
    supervision_events: NameMap<Vec<ActorSupervisionEvent>>,
    has_shutdown: bool,
}

impl<K> ProcMeshAgent<K> {
    /// What the agent was set up for.
    pub closed spec fn mode(self) -> AgentMode {
        match self.state {
            AgentState::UnconfiguredV0 { .. } => AgentMode::UnconfiguredV0,
            AgentState::ConfiguredV0 { rank, supervisor, .. } => AgentMode::ConfiguredV0 { rank, supervisor },
            AgentState::V1 => AgentMode::V1,
            AgentState::Invalid => AgentMode::Invalid,
        }
    }

    /// How the agent reaches other procs, where it has to be configured for that.
    pub closed spec fn sender(self) -> Option<K> {
        match self.state {
            AgentState::UnconfiguredV0 { sender } => Some(sender),
            AgentState::ConfiguredV0 { sender, .. } => Some(sender),
            _ => None,
        }
    }

    /// The actors, by name.
    pub closed spec fn actors(self) -> Map<Seq<char>, ActorInstanceState> {
        self.actor_states@
    }

    /// Whether events are recorded.
    pub closed spec fn records(self) -> bool {
        self.record_supervision_events
    }

    /// What befell the actors, by their identities.
    pub closed spec fn events(self) -> Map<Seq<char>, Seq<ActorSupervisionEvent>> {
        self.supervision_events@.map_values(|v: Vec<ActorSupervisionEvent>| v@)
    }

    /// Whether someone waits for the code with which to exit.
    pub closed spec fn awaited(self) -> bool {
        self.has_shutdown
    }

    pub closed spec fn wf(self) -> bool {
        self.actor_states.wf() && self.supervision_events.wf()
    }

    /// An agent that waits to be configured.
    pub fn bootstrap(sender: K) -> (a: Self)
        ensures
            a.wf(),
            a.mode() == AgentMode::UnconfiguredV0,
            a.sender() == Some(sender),
            a.actors() == Map::<Seq<char>, ActorInstanceState>::empty(),
            !a.records(),
            a.events() == Map::<Seq<char>, Seq<ActorSupervisionEvent>>::empty(),
            !a.awaited(),
    {
        let a = ProcMeshAgent {
            state: AgentState::UnconfiguredV0 { sender },
            actor_states: NameMap::new(),
            record_supervision_events: false,
            supervision_events: NameMap::new(),
            has_shutdown: false,
        };
        assert(a.events() =~= Map::<Seq<char>, Seq<ActorSupervisionEvent>>::empty());
        a
    }

    /// An agent that needs no configuration, and records what befalls its
    /// actors; `has_shutdown` says whether someone waits for the code with which
    /// to exit.
    pub fn boot_v1(has_shutdown: bool) -> (a: Self)
        ensures
            a.wf(),
            a.mode() == AgentMode::V1,
            a.actors() == Map::<Seq<char>, ActorInstanceState>::empty(),
            a.records(),
            a.events() == Map::<Seq<char>, Seq<ActorSupervisionEvent>>::empty(),
            a.awaited() == has_shutdown,
    {
        let a = ProcMeshAgent {
            state: AgentState::V1,
            actor_states: NameMap::new(),
            record_supervision_events: true,
            supervision_events: NameMap::new(),
            has_shutdown,
        };
        assert(a.events() =~= Map::<Seq<char>, Seq<ActorSupervisionEvent>>::empty());
        a
    }

    /// The rank of the proc, where it is configured.
    pub fn rank(&self) -> (r: Option<usize>)
        ensures
            r == (match self.mode() {
                AgentMode::ConfiguredV0 { rank, .. } => Some(rank),
                _ => None,
            }),
    {
        match &self.state {
            AgentState::ConfiguredV0 { rank, .. } => Some(*rank),
            _ => None,
        }
    }

    /// Whom to report to, where that is configured.
    pub fn supervisor(&self) -> (r: Option<&String>)
        ensures
            match (r, self.mode()) {
                (Some(s), AgentMode::ConfiguredV0 { supervisor, .. }) => supervisor == Some(*s),
                (None, AgentMode::ConfiguredV0 { supervisor, .. }) => supervisor is None,
                (r, _) => r is None,
            },
    {
        match &self.state {
            AgentState::ConfiguredV0 { supervisor, .. } => supervisor.as_ref(),
            _ => None,
        }
    }

    /// Everything but what the agent was set up for.
    pub open spec fn same_actors(self, other: Self) -> bool {
        self.actors() == other.actors() && self.events() == other.events() && self.awaited() == other.awaited()
    }

    /// Begins to configure the agent: whether it records what befalls its actors
    /// is settled, and how it reaches other procs is to be set up next. An agent
    /// is configured once.
    pub fn configure(&mut self, record_supervision_events: bool) -> (r: Result<(), AgentError>)
        requires
            old(self).wf(),
        ensures
            final(self).wf(),
            old(self).mode() is UnconfiguredV0 ==> r is Ok && final(self).records() == record_supervision_events,
            !(old(self).mode() is UnconfiguredV0) ==> r == Err::<(), AgentError>(AgentError::NotReconfigurable)
                && *final(self) == *old(self),
            final(self).mode() == old(self).mode(),
            final(self).sender() == old(self).sender(),
            final(self).same_actors(*old(self)),
    {
        match &self.state {
            AgentState::UnconfiguredV0 { .. } => {},
            _ => {
                return Err(AgentError::NotReconfigurable);
            },
        }
        self.record_supervision_events = record_supervision_events;
        Ok(())
    }

    /// Completes the configuration of the agent. Returns the rank to report.
    pub fn configured(&mut self, rank: usize, supervisor: Option<String>) -> (r: usize)
        requires
            old(self).wf(),
            old(self).mode() is UnconfiguredV0,
        ensures
            final(self).wf(),
            r == rank,
            final(self).mode() == (AgentMode::ConfiguredV0 { rank, supervisor }),
            final(self).sender() == old(self).sender(),
            final(self).records() == old(self).records(),
            final(self).same_actors(*old(self)),
    {
        let mut state: AgentState<K> = AgentState::Invalid;
        std::mem::swap(&mut state, &mut self.state);
        if let AgentState::UnconfiguredV0 { sender } = state {
            self.state = AgentState::ConfiguredV0 { sender, rank, supervisor };
        }
        rank
    }

    /// Whether an actor can be started as it was before actors had names: only
    /// on a configured proc, whose rank is returned.
    pub fn gspawn(&self) -> (r: Result<usize, AgentError>)
        ensures
            r == spawn_rank(self.mode()),
    {
        match self.rank() {
            Some(rank) => Ok(rank),
            None => Err(AgentError::NotConfigured),
        }
    }

    /// What the agent says of itself: its rank, and that it is up.
    pub fn status(&self) -> (r: Result<(usize, bool), AgentError>)
        ensures
            r == told_status(self.mode()),
    {
        match &self.state {
            AgentState::ConfiguredV0 { rank, .. } => Ok((*rank, true)),
            AgentState::UnconfiguredV0 { .. } => Err(AgentError::StatusNotConfigured),
            AgentState::V1 => Err(AgentError::StatusUnsupported),
            AgentState::Invalid => Err(AgentError::StatusInvalid),
        }
    }

    /// Takes note of something that befell an actor: it is recorded, reported,
    /// or both. Where neither can be, the process is to crash.
    pub fn on_event(&mut self, event: ActorSupervisionEvent) -> (action: EventAction)
        requires
            old(self).wf(),
        ensures
            final(self).wf(),
            final(self).mode() == old(self).mode(),
            final(self).sender() == old(self).sender(),
            final(self).records() == old(self).records(),
            final(self).actors() == old(self).actors(),
            final(self).awaited() == old(self).awaited(),
            final(self).events() == (if old(self).records() {
                events_after(old(self).events(), event)
            } else {
                old(self).events()
            }),
            action == event_action(old(self).mode(), old(self).records(), event),
    {
        let ghost before = *self;
        if self.record_supervision_events {
            let mut held: Vec<ActorSupervisionEvent> = match self.supervision_events.remove(event.actor_id.as_str()) {
                Some(v) => v,
                None => Vec::new(),
            };
            assert(held@ == events_of(before.events(), event.actor_id@));
            held.push(event.clone());
            let _ = self.supervision_events.insert(event.actor_id.clone(), held);
            assert(self.events() =~= events_after(before.events(), event));
        }
        match self.supervisor() {
            Some(supervisor) => EventAction::Forward { supervisor: supervisor.clone(), event },
            None => if self.record_supervision_events {
                EventAction::Recorded
            } else {
                EventAction::Crash { code: 1 }
            },
        }
    }

    /// Everything but the actors.
    pub open spec fn same_setup(self, other: Self) -> bool {
        self.mode() == other.mode() && self.sender() == other.sender() && self.records() == other.records()
            && self.events() == other.events() && self.awaited() == other.awaited()
    }

    /// Begins to create an actor. One that is there is left as it is, and once
    /// something has befallen an actor of this proc, no more are started on it.
    pub fn create_or_update(&mut self, name: &String, create_rank: usize) -> (step: CreateStep)
        requires
            old(self).wf(),
        ensures
            final(self).wf(),
            final(self).same_setup(*old(self)),
            step == create_step(old(self).actors(), old(self).events(), name@),
            step != CreateStep::Refused ==> final(self).actors() == old(self).actors(),
            step == CreateStep::Refused ==> is_refused(old(self).actors(), final(self).actors(), name@, create_rank),
    {
        let ghost before = *self;
        if self.actor_states.contains(name.as_str()) {
            return CreateStep::Exists;
        }
        assert(self.events().dom() =~= self.supervision_events@.dom());
        if self.supervision_events.len() > 0 {
            let refused = ActorInstanceState { create_rank, spawn: Err(REFUSED.to_owned()), stopped: false };
            let _ = self.actor_states.insert(name.clone(), refused);
            return CreateStep::Refused;
        }
        CreateStep::Spawn
    }

    /// Completes the creation of an actor, with the actor or with why it could
    /// not be started.
    pub fn created(&mut self, name: &String, create_rank: usize, spawn: Result<String, String>)
        requires
            old(self).wf(),
        ensures
            final(self).wf(),
            final(self).same_setup(*old(self)),
            final(self).actors() == old(self).actors().insert(
                name@,
                (ActorInstanceState { create_rank, spawn, stopped: false }),
            ),
    {
        let _ = self.actor_states.insert(name.clone(), ActorInstanceState { create_rank, spawn, stopped: false });
    }

    /// Begins to stop an actor: it counts as stopped from now on. Returns the
    /// actor that is to be stopped; none where there is none, where it was
    /// stopped before, or where it could not be started.
    pub fn stop(&mut self, name: &String) -> (r: Option<String>)
        requires
            old(self).wf(),
        ensures
            final(self).wf(),
            final(self).same_setup(*old(self)),
            r == actor_to_stop(old(self).actors(), name@),
            final(self).actors() == actors_after_stop(old(self).actors(), name@),
    {
        let ghost before = *self;
        let actor_id: String = match self.actor_states.get(name.as_str()) {
            Some(state) => match &state.spawn {
                Ok(actor_id) => {
                    if state.stopped {
                        return None;
                    }
                    actor_id.clone()
                },
                Err(_) => {
                    return None;
                },
            },
            None => {
                return None;
            },
        };
        if let Some(state) = self.actor_states.remove(name.as_str()) {
            let stopped = ActorInstanceState { create_rank: state.create_rank, spawn: state.spawn, stopped: true };
            let _ = self.actor_states.insert(name.clone(), stopped);
            assert(self.actors() =~= actors_after_stop(before.actors(), name@));
        }
        Some(actor_id)
    }

    /// What follows once every actor was stopped, or could not be: the process
    /// exits, with a code that says which. Whoever waits for the code is told it
    /// once.
    pub fn stop_all(&mut self, stopped: bool) -> (step: ShutdownStep)
        requires
            old(self).wf(),
        ensures
            final(self).wf(),
            !final(self).awaited(),
            final(self).mode() == old(self).mode(),
            final(self).sender() == old(self).sender(),
            final(self).records() == old(self).records(),
            final(self).actors() == old(self).actors(),
            final(self).events() == old(self).events(),
            step == exit_step(old(self).awaited(), stopped),
    {
        let code: i32 = if stopped {
            0
        } else {
            1
        };
        if self.has_shutdown {
            self.has_shutdown = false;
            ShutdownStep::Send { code }
        } else {
            ShutdownStep::Exit { code }
        }
    }

    fn find_events(&self, actor_id: &String) -> (r: Vec<ActorSupervisionEvent>)
        requires
            self.wf(),
        ensures
            r@ == events_of(self.events(), actor_id@),
    {
        match self.supervision_events.get(actor_id.as_str()) {
            Some(v) => clone_events(v),
            None => Vec::new(),
        }
    }

    fn actor_status(&self, state: &ActorInstanceState) -> (r: Status)
        requires
            self.wf(),
        ensures
            r@ == instance_status(*state, self.events()),
    {
        match &state.spawn {
            Ok(actor_id) => {
                if state.stopped {
                    return Status::Stopped;
                }
                let events: Vec<ActorSupervisionEvent> = self.find_events(actor_id);
                if events.len() == 0 {
                    Status::Running
                } else {
                    Status::Failed(format_events(&events))
                }
            },
            Err(e) => Status::Failed(e.clone()),
        }
    }

    /// How an actor does, at the rank that it was created with; nothing where
    /// there is no such actor.
    pub fn get_rank_status(&self, name: &str) -> (r: Option<Run<Status>>)
        requires
            self.wf(),
        ensures
            r is Some <==> self.actors().dom().contains(name@) && self.actors()[name@].create_rank < usize::MAX,
            r matches Some(run) ==> run.start == self.actors()[name@].create_rank && run.end == run.start + 1
                && run.value@ == status_of(self.actors(), self.events(), name@),
    {
        match self.actor_states.get(name) {
            Some(state) => overlay(state.create_rank, self.actor_status(state)),
            None => None,
        }
    }

    /// How an actor does, and what befell it.
    pub fn get_state(&self, name: &String) -> (r: State<ActorState>)
        requires
            self.wf(),
        ensures
            r.name == *name,
            r.status@ == status_of(self.actors(), self.events(), name@),
            match r.state {
                Some(state) => {
                    &&& self.actors().dom().contains(name@)
                    &&& self.actors()[name@].spawn == Ok::<String, String>(state.actor_id)
                    &&& state.create_rank == self.actors()[name@].create_rank
                    &&& state.supervision_events@ == events_of(self.events(), state.actor_id@)
                },
                None => !self.actors().dom().contains(name@) || self.actors()[name@].spawn is Err,
            },
    {
        match self.actor_states.get(name.as_str()) {
            Some(state) => {
                let status: Status = self.actor_status(state);
                match &state.spawn {
                    Ok(actor_id) => State {
                        name: name.clone(),
                        status,
                        state: Some(
                            ActorState {
                                actor_id: actor_id.clone(),
                                create_rank: state.create_rank,
                                supervision_events: self.find_events(actor_id),
                            },
                        ),
                    },
                    Err(_) => State { name: name.clone(), status, state: None },
                }
            },
            None => State { name: name.clone(), status: Status::NotExist, state: None },
        }
    }
}

/// What is replied when an actor was started, or could not be, on a proc of
/// that rank.
pub fn gspawn_reply(rank: usize, spawned: Result<String, String>) -> (r: GspawnResult)
    ensures
        match spawned {
            Ok(actor_id) => r == (GspawnResult::Success { rank, actor_id }),
            Err(e) => r matches GspawnResult::Error(text) && text@ == "gspawn failed: "@ + e@,
        },
{
    match spawned {
        Ok(actor_id) => GspawnResult::Success { rank, actor_id },
        Err(e) => {
            let mut text: String = "gspawn failed: ".to_owned();
            text.append(e.as_str());
            GspawnResult::Error(text)
        },
    }
}

/// To stop an actor again changes nothing, and no other actor changes with it.
pub proof fn stopping_again_changes_nothing(actors: Map<Seq<char>, ActorInstanceState>, name: Seq<char>)
    ensures
        actors_after_stop(actors_after_stop(actors, name), name) == actors_after_stop(actors, name),
        forall|other: Seq<char>|
            other != name && #[trigger] actors.dom().contains(other) ==> actors_after_stop(actors, name)[other]
                == actors[other],
{
}

/// An actor that was started and stopped counts as stopped for good, whatever
/// befalls it later.
pub proof fn stopped_is_final(
    actors: Map<Seq<char>, ActorInstanceState>,
    events: Map<Seq<char>, Seq<ActorSupervisionEvent>>,
    name: Seq<char>,
)
    requires
        actors.dom().contains(name),
        actors[name].spawn is Ok,
    ensures
        status_of(actors_after_stop(actors, name), events, name) == StatusModel::Stopped,
{
}

/// No event is forgotten: one that was recorded is behind those of its actor
/// before it, and those of the other actors are as they were.
pub proof fn events_are_kept(events: Map<Seq<char>, Seq<ActorSupervisionEvent>>, event: ActorSupervisionEvent)
    ensures
        events_of(events_after(events, event), event.actor_id@) == events_of(events, event.actor_id@).push(event),
        forall|id: Seq<char>|
            id != event.actor_id@ ==> #[trigger] events_of(events_after(events, event), id) == events_of(events, id),
        events_after(events, event).dom().contains(event.actor_id@),
{
}

/// Once something has befallen an actor of a proc, no actor is started on it any
/// more.
pub proof fn none_is_started_after_an_event(
    actors: Map<Seq<char>, ActorInstanceState>,
    events: Map<Seq<char>, Seq<ActorSupervisionEvent>>,
    event: ActorSupervisionEvent,
    name: Seq<char>,
)
    requires
        events.dom().finite(),
    ensures
        create_step(actors, events_after(events, event), name) != CreateStep::Spawn,
{
    let after = events_after(events, event).dom();
    assert(after.contains(event.actor_id@));
    assert(after.finite());
    if after.len() == 0 {
        assert(after =~= Set::<Seq<char>>::empty());
    }
}

/// An actor is told to run exactly where it was started, was not stopped and
/// nothing befell it; to have failed where it could not be started, with why,
/// or where something befell it and it was not stopped; and not to exist only
/// where there is none of that name.
pub proof fn actors_are_told_as_they_do(
    actors: Map<Seq<char>, ActorInstanceState>,
    events: Map<Seq<char>, Seq<ActorSupervisionEvent>>,
    name: Seq<char>,
)
    ensures
        status_of(actors, events, name) is NotExist <==> !actors.dom().contains(name),
        actors.dom().contains(name) ==> {
            let state = actors[name];
            let told = status_of(actors, events, name);
            &&& told is Running <==> (state.spawn matches Ok(id) && !state.stopped && events_of(events, id@).len() == 0)
            &&& told is Stopped <==> state.spawn is Ok && state.stopped
            &&& state.spawn matches Err(e) ==> told == StatusModel::Failed(e@)
            &&& state.spawn matches Ok(id) ==> !state.stopped && events_of(events, id@).len() > 0 ==> told is Failed
        },
{
}

/// An actor that something befell is told to have failed, from then on and until
/// it is stopped, and no other actor is on that account.
pub proof fn an_event_fails_its_actor(
    state: ActorInstanceState,
    events: Map<Seq<char>, Seq<ActorSupervisionEvent>>,
    event: ActorSupervisionEvent,
)
    requires
        state.spawn is Ok,
    ensures
        state.spawn->Ok_0@ == event.actor_id@ && !state.stopped ==> instance_status(state, events_after(events, event))
            is Failed,
        state.spawn->Ok_0@ != event.actor_id@ ==> instance_status(state, events_after(events, event))
            == instance_status(state, events),
{
}

/// The reason for which an actor failed tells every event that befell it.
pub proof fn every_event_is_told(events: Seq<ActorSupervisionEvent>, i: int) -> (at: int)
    requires
        0 <= i < events.len(),
    ensures
        0 <= at,
        at + events[i].text@.len() <= listed(events).len(),
        listed(events).subrange(at, at + events[i].text@.len()) == events[i].text@,
    decreases events.len(),
{
    let all = listed(events);
    if events.len() == 1 {
        assert(all.subrange(0, all.len() as int) =~= events[0].text@);
        0
    } else {
        let before = listed(events.drop_last());
        if i == events.len() - 1 {
            let at = (before + ", "@).len() as int;
            assert(all.subrange(at, at + events[i].text@.len()) =~= events[i].text@);
            at
        } else {
            let at = every_event_is_told(events.drop_last(), i);
            assert(events.drop_last()[i] == events[i]);
            assert(all.subrange(at, at + events[i].text@.len()) =~= before.subrange(
                at,
                at + events[i].text@.len(),
            ));
            at
        }
    }
}

/// An actor is started where there is none of its name and nothing has befallen
/// any actor; one that is there is never started again.
pub proof fn actors_are_started_once(
    actors: Map<Seq<char>, ActorInstanceState>,
    events: Map<Seq<char>, Seq<ActorSupervisionEvent>>,
    name: Seq<char>,
    id: Seq<char>,
)
    requires
        events.dom().finite(),
    ensures
        create_step(actors, events, name) is Exists <==> actors.dom().contains(name),
        create_step(actors, events, name) is Refused && !actors.dom().contains(name) ==> events.dom().len() > 0,
        !actors.dom().contains(name) && events.dom().contains(id) ==> create_step(actors, events, name) is Refused,
        !actors.dom().contains(name) && events.dom() == Set::<Seq<char>>::empty() ==> create_step(actors, events, name)
            is Spawn,
{
    if events.dom().contains(id) && events.dom().len() == 0 {
        assert(events.dom() =~= Set::<Seq<char>>::empty());
    }
}

/// An actor that was refused is told to have failed, for that reason and at its
/// rank; the others are as they were.
pub proof fn the_refused_have_failed(
    before: Map<Seq<char>, ActorInstanceState>,
    after: Map<Seq<char>, ActorInstanceState>,
    events: Map<Seq<char>, Seq<ActorSupervisionEvent>>,
    name: Seq<char>,
    create_rank: usize,
    other: Seq<char>,
)
    requires
        is_refused(before, after, name, create_rank),
    ensures
        status_of(after, events, name) == StatusModel::Failed(
            "Cannot spawn new actors on mesh with supervision events"@,
        ),
        after[name].create_rank == create_rank,
        other != name ==> status_of(after, events, other) == status_of(before, events, other),
{
}

/// To stop an actor leaves all that is kept of it but that it was stopped, and
/// only an actor that was started is stopped.
pub proof fn stopping_keeps_the_actor(actors: Map<Seq<char>, ActorInstanceState>, name: Seq<char>)
    ensures
        actors_after_stop(actors, name).dom() == actors.dom(),
        actors.dom().contains(name) ==> {
            let after = actors_after_stop(actors, name)[name];
            &&& after.create_rank == actors[name].create_rank
            &&& after.spawn == actors[name].spawn
            &&& after.stopped <==> actors[name].stopped || actors[name].spawn is Ok
        },
{
    assert(actors_after_stop(actors, name).dom() =~= actors.dom());
}

}
