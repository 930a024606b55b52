//! The agents of procs and of hosts.

use monarch::channel::addr::ChannelAddr;
use monarch::mesh::bootstrap::ProcId;
use monarch::mesh::host_agent::{
    clamp_terminations, continue_shutdown, AlreadyShutDown, CreateProc, HostAgentMode, HostMeshAgent, ShutdownAnswer,
    ShutdownHost, ShutdownStage,
};
use monarch::mesh::proc_agent::{
    gspawn_reply, ActorSupervisionEvent, AgentError, CreateStep, EventAction, GspawnResult, ProcMeshAgent, ShutdownStep,
    StopActorResult,
};
use monarch::mesh::resource::{mesh_to_rankedvalues_with_default, overlay, Span, Status};
use monarch::mesh::status::{ProcStatus, Timestamp};

fn event(actor: &str, text: &str) -> ActorSupervisionEvent {
    ActorSupervisionEvent { actor_id: actor.to_string(), text: text.to_string() }
}

fn name(s: &str) -> String {
    s.to_string()
}

#[test]
fn configuring_a_proc_agent() {
    let mut a = ProcMeshAgent::bootstrap("sender");
    assert_eq!(a.gspawn(), Err(AgentError::NotConfigured));
    assert_eq!(a.status(), Err(AgentError::StatusNotConfigured));
    assert!(a.configure(false).is_ok());
    assert_eq!(a.configured(4, Some(name("boss"))), 4);
    assert_eq!(a.rank(), Some(4));
    assert_eq!(a.supervisor(), Some(&name("boss")));
    assert_eq!(a.gspawn(), Ok(4));
    assert_eq!(a.status(), Ok((4, true)));
    match a.configure(true) {
        Err(e) => assert_eq!(e.text(), "mesh agent cannot be (re-)configured"),
        Ok(_) => panic!("configured twice"),
    }
    let v1: ProcMeshAgent<&str> = ProcMeshAgent::boot_v1(false);
    assert_eq!(v1.status(), Err(AgentError::StatusUnsupported));
    assert_eq!(
        AgentError::StatusUnsupported.text(),
        "status unsupported in v1/owned path (no rank)"
    );
    assert_eq!(AgentError::NotConfigured.text(), "mesh agent is not v0 configured");
}

#[test]
fn replies_to_gspawn() {
    match gspawn_reply(3, Ok(name("a"))) {
        GspawnResult::Success { rank, actor_id } => assert_eq!((rank, actor_id), (3, name("a"))),
        other => panic!("{:?}", other),
    }
    match gspawn_reply(3, Err(name("no type"))) {
        GspawnResult::Error(e) => assert_eq!(e, "gspawn failed: no type"),
        other => panic!("{:?}", other),
    }
    assert_eq!(StopActorResult::of(Some(true)), StopActorResult::Success);
    assert_eq!(StopActorResult::of(Some(false)), StopActorResult::Timeout);
    assert_eq!(StopActorResult::of(None), StopActorResult::NotFound);
}

#[test]
fn events_are_recorded_or_reported() {
    let mut v1: ProcMeshAgent<()> = ProcMeshAgent::boot_v1(false);
    assert!(matches!(v1.on_event(event("a", "x")), EventAction::Recorded));
    let mut v0 = ProcMeshAgent::bootstrap(());
    assert!(matches!(v0.on_event(event("a", "x")), EventAction::Crash { code: 1 }));
    let _ = v0.configure(true);
    v0.configured(0, Some(name("boss")));
    match v0.on_event(event("a", "x")) {
        EventAction::Forward { supervisor, event } => {
            assert_eq!(supervisor, "boss");
            assert_eq!(event.actor_id, "a");
        }
        other => panic!("{:?}", other),
    }
}

#[test]
fn actors_come_and_go() {
    let mut a: ProcMeshAgent<()> = ProcMeshAgent::boot_v1(true);
    let n = name("actor");
    assert!(a.get_rank_status("actor").is_none());
    assert!(matches!(a.get_state(&n).status, Status::NotExist));
    assert_eq!(a.create_or_update(&n, 5), CreateStep::Spawn);
    a.created(&n, 5, Ok(name("id")));
    assert_eq!(a.create_or_update(&n, 6), CreateStep::Exists);
    let run = a.get_rank_status("actor").unwrap();
    assert_eq!((run.start, run.end), (5, 6));
    assert!(matches!(run.value, Status::Running));
    let _ = a.on_event(event("id", "one"));
    let _ = a.on_event(event("id", "two"));
    match a.get_state(&n).status {
        Status::Failed(e) => assert_eq!(e, "because of supervision events: [one, two]"),
        other => panic!("{:?}", other),
    }
    assert_eq!(a.get_state(&n).state.unwrap().supervision_events.len(), 2);
    assert_eq!(a.stop(&n), Some(name("id")));
    assert_eq!(a.stop(&n), None);
    assert!(matches!(a.get_state(&n).status, Status::Stopped));
    assert_eq!(a.stop(&name("nobody")), None);
    // Nothing more is started here.
    let other = name("other");
    assert_eq!(a.create_or_update(&other, 1), CreateStep::Refused);
    match a.get_state(&other).status {
        Status::Failed(e) => assert_eq!(e, "Cannot spawn new actors on mesh with supervision events"),
        s => panic!("{:?}", s),
    }
    assert_eq!(a.stop(&other), None);
    assert_eq!(a.stop_all(false), ShutdownStep::Send { code: 1 });
    assert_eq!(a.stop_all(true), ShutdownStep::Exit { code: 0 });
}

#[test]
fn an_actor_that_could_not_be_started() {
    let mut a: ProcMeshAgent<()> = ProcMeshAgent::boot_v1(false);
    let n = name("actor");
    a.created(&n, 2, Err(name("no such type")));
    let state = a.get_state(&n);
    assert!(state.state.is_none());
    assert!(matches!(state.status, Status::Failed(e) if e == "no such type"));
}

fn proc_id(n: &str) -> ProcId {
    ProcId::Direct(ChannelAddr::Local(1), n.to_string())
}

#[test]
fn procs_come_and_go() {
    let mut h: HostMeshAgent<u8> = HostMeshAgent::new(HostAgentMode::Process { exit_on_shutdown: true });
    let n = name("p");
    assert_eq!(h.create_or_update("p"), CreateProc::Spawn(HostAgentMode::Process { exit_on_shutdown: true }));
    h.created(&n, 3, Ok((proc_id("p"), name("agent"))));
    assert_eq!(h.create_or_update("p"), CreateProc::Exists);
    assert_eq!(h.list(), vec![name("p")]);
    let up = ProcStatus::Running { started_at: Timestamp { secs: 0, nanos: 0 } };
    let dead = ProcStatus::Killed { signal: 9, core_dumped: false };
    assert!(matches!(h.stop("p", Some(&up)), Ok(Some(_))));
    assert!(matches!(h.stop("p", Some(&dead)), Ok(None)));
    assert!(matches!(h.stop("q", None), Ok(None)));
    assert!(matches!(h.stop("p", None), Ok(Some(_))));
    h.stopped(&n);
    assert!(matches!(h.stop("p", None), Ok(None)));
    assert!(matches!(h.get_rank_status("p", None).unwrap().value, Status::Stopped));
    assert!(matches!(h.get_rank_status("p", Some(&up)).unwrap().value, Status::Running));
    assert!(h.get_rank_status("q", None).is_none());
    let state = h.get_state(&n, Some(dead), None);
    assert!(matches!(state.status, Status::Failed(_)));
    assert_eq!(state.state.unwrap().create_rank, 3);
    h.created(&name("q"), 4, Err(name("broken")));
    assert!(matches!(h.get_state(&name("q"), None, None).status, Status::Failed(e) if e == "broken"));
    let message = ShutdownHost { timeout: Span { secs: 10, nanos: 0 }, max_in_flight: 1000 };
    let stage = h.shutdown(&message);
    let timeout = Span { secs: 10, nanos: 0 };
    assert_eq!(stage, ShutdownStage::Terminate { timeout, max_in_flight: 256, exit: true });
    // Nobody is answered before the procs were terminated and the host was released.
    let stage = continue_shutdown(stage, ShutdownAnswer::Acked);
    assert!(matches!(stage, ShutdownStage::Terminate { .. }));
    let stage = continue_shutdown(stage, ShutdownAnswer::Terminated);
    assert_eq!(stage, ShutdownStage::Release { exit: true });
    let stage = continue_shutdown(stage, ShutdownAnswer::Released);
    assert_eq!(stage, ShutdownStage::Ack { exit: true });
    assert_eq!(continue_shutdown(stage, ShutdownAnswer::Acked), ShutdownStage::Exit);
    assert_eq!(h.shutdown(&message), ShutdownStage::Ack { exit: false });
    assert_eq!(continue_shutdown(ShutdownStage::Ack { exit: false }, ShutdownAnswer::Acked), ShutdownStage::Done);
    match h.stop("p", None) {
        Err(e) => assert_eq!(e.text(), "HostMeshAgent has already shut down"),
        Ok(_) => panic!("stopped"),
    }
    assert_eq!(AlreadyShutDown.text(), "HostMeshAgent has already shut down");
}

#[test]
fn procs_of_a_local_host() {
    let mut h: HostMeshAgent<u8> = HostMeshAgent::new(HostAgentMode::for_trampoline(true));
    h.created(&name("p"), 0, Ok((proc_id("p"), name("agent"))));
    let dead = ProcStatus::Killed { signal: 9, core_dumped: false };
    // Nothing is known of processes here.
    assert!(matches!(h.stop("p", Some(&dead)), Ok(Some(_))));
    assert!(matches!(h.get_rank_status("p", Some(&dead)).unwrap().value, Status::Running));
    assert_eq!(h.get_local_proc(Ok(7)), Ok(&7));
    assert_eq!(h.get_local_proc(Ok(8)), Ok(&7));
    let message = ShutdownHost { timeout: Span { secs: 10, nanos: 0 }, max_in_flight: 1000 };
    let timeout = Span { secs: 10, nanos: 0 };
    assert_eq!(h.shutdown(&message), ShutdownStage::Terminate { timeout, max_in_flight: 1000, exit: false });
    let mut h: HostMeshAgent<u8> = HostMeshAgent::new(HostAgentMode::for_trampoline(false));
    assert_eq!(h.get_local_proc(Err(name("x"))), Err(name("error booting local proc: x")));
    assert_eq!(clamp_terminations(0), 1);
    assert_eq!(clamp_terminations(20), 20);
}

#[test]
fn statuses() {
    assert!(Status::Timeout(Span { secs: 1, nanos: 0 }).is_terminating());
    assert!(Status::Stopping.is_terminating());
    assert!(!Status::Running.is_terminating());
    assert!(!Status::NotExist.is_terminating());
    assert!(Status::Initializing.is_healthy());
    assert!(!Status::Stopped.is_healthy());
    assert!(matches!(Status::of_proc(&ProcStatus::Starting), Status::Initializing));
    assert!(matches!(
        Status::of_proc(&ProcStatus::Failed { reason: name("x") }),
        Status::Failed(e) if e == "x"
    ));
    assert!(overlay(usize::MAX, Status::Running).is_none());
    assert!(Status::Failed(name("a")).is_same(&Status::Failed(name("a"))));
    assert!(!Status::Failed(name("a")).is_same(&Status::Failed(name("b"))));
}

#[test]
fn ranks_that_were_not_heard_of_have_timed_out() {
    let timeout = Status::Timeout(Span { secs: 30, nanos: 0 });
    let mesh = vec![Status::NotExist, Status::Running, Status::Running, Status::NotExist];
    let r = mesh_to_rankedvalues_with_default(&mesh, timeout.clone(), Status::is_not_exist, 5);
    let bounds: Vec<(usize, usize)> = r.runs().iter().map(|run| (run.start, run.end)).collect();
    assert_eq!(bounds, vec![(0, 1), (1, 3), (3, 5)]);
    let all = r.materialized();
    assert_eq!(all.len(), 5);
    assert!(matches!(all[0], Status::Timeout(_)));
    assert!(matches!(all[1], Status::Running));
    assert!(matches!(all[4], Status::Timeout(_)));
    assert!(mesh_to_rankedvalues_with_default(&Vec::new(), timeout, Status::is_not_exist, 0).runs().is_empty());
}

#[test]
fn values_of_any_kind_by_rank() {
    let mesh: Vec<u32> = vec![7, 7, 0, 9];
    let r = mesh_to_rankedvalues_with_default(&mesh, 9, |n: &u32| *n == 0, 6);
    let runs: Vec<(usize, usize, u32)> = r.runs().iter().map(|run| (run.start, run.end, run.value)).collect();
    assert_eq!(runs, vec![(0, 2, 7), (2, 6, 9)]);
    assert_eq!(r.materialized(), vec![&7, &7, &9, &9, &9, &9]);
    // What is no sentinel stays, though it is what the default replaces elsewhere.
    let r = mesh_to_rankedvalues_with_default(&mesh, 1, |n: &u32| *n > 8, 4);
    assert_eq!(r.materialized(), vec![&7, &7, &0, &1]);
}
