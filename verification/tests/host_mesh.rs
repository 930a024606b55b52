//! Meshes of hosts.

use monarch::channel::addr::{AddrError, ChannelAddr};
use monarch::mesh::bootstrap::{Bootstrap, BootstrapCommand, ProcId};
use monarch::mesh::host_agent::ProcState;
use monarch::mesh::host_mesh::{
    host_of_agent, AllocatedHosts, DropAnswer, DropStage, HostMesh, MeshShutdownAnswer, MeshShutdownStage, ProcessHosts,
};
use monarch::mesh::host_ref::{
    admin_addr, ActorId, AdminAddrError, HostMeshRef, HostMeshRefParseError, HostRef, MeshRefError,
};
use monarch::mesh::mesh_procs::{
    host_and_name, proc_states, stop_proc_mesh, NotDirect, ProcStates, StatesAnswer, StatesError,
    StatesPlan, StatesStage, StopAnswer, StopOutcome, StopStage,
};
use monarch::mesh::region::{Axis, Dim, Extent, RangeError, Region};
use monarch::mesh::region_text::RegionParseError;
use monarch::mesh::resource::{Span, State, Status};
use monarch::mesh::spawn::{Heard, OverlappingDims, SpawnAnswer, SpawnError, SpawnStage};

fn mesh(text: &str) -> HostMeshRef {
    match HostMeshRef::from_str(text) {
        Ok(m) => m,
        Err(e) => panic!("{}: {:?}", text, e),
    }
}

fn extent(axes: &[(&str, usize)]) -> Extent {
    Extent { axes: axes.iter().map(|(l, n)| Axis { label: l.to_string(), size: *n }).collect() }
}

fn host(text: &str) -> HostRef {
    HostRef::from_str(text).unwrap()
}

fn span() -> Span {
    Span { secs: 30, nanos: 0 }
}

#[test]
fn test_host_mesh_subset() {
    let hosts = mesh("test:local:1,local:2,local:3,local:4@replica=2/2,host=2/1");
    assert_eq!(
        hosts.range("replica", 1).unwrap().display(),
        "test:local:3,local:4@2+replica=1/2,host=2/1"
    );
}

#[test]
fn test_host_mesh_ref_parse_roundtrip() {
    let host_mesh_ref = HostMeshRef::new(
        "test".to_string(),
        extent(&[("replica", 2), ("host", 2)]).region(),
        vec![
            host("tcp:127.0.0.1:123"),
            host("tcp:127.0.0.1:123"),
            host("tcp:127.0.0.1:123"),
            host("tcp:127.0.0.1:123"),
        ],
    )
    .unwrap();
    let back = mesh(&host_mesh_ref.display());
    assert_eq!(back.display(), host_mesh_ref.display());
    assert_eq!(back.name(), host_mesh_ref.name());
    assert_eq!(back.len(), 4);
    for rank in 0..4 {
        assert_eq!(back.get(rank).unwrap().0, host_mesh_ref.get(rank).unwrap().0);
    }
    assert_eq!(back.region().display(), "replica=2/2,host=2/1");
}

#[test]
fn parts_of_a_mesh() {
    let m = mesh("m:local:0,local:1,local:2,local:3,local:4,local:5@a=2/3,b=3/1");
    assert_eq!(m.range("b", 2).unwrap().display(), "m:local:2,local:5@2+a=2/3,b=1/1");
    assert_eq!(m.range("b", 2).unwrap().range("a", 1).unwrap().display(), "m:local:5@5+a=1/3,b=1/1");
    assert!(matches!(m.range("b", 3), Err(RangeError::OutOfRange)));
    assert!(matches!(m.range("c", 0), Err(RangeError::NoSuchLabel)));
    assert!(m.get(6).is_none());
}

#[test]
fn texts_that_are_no_meshes() {
    assert!(matches!(HostMeshRef::from_str("nothing"), Err(HostMeshRefParseError::MissingName)));
    assert!(matches!(HostMeshRef::from_str("m:local:1"), Err(HostMeshRefParseError::MissingRegion)));
    assert!(matches!(HostMeshRef::from_str("m:smoke:1@a=1/1"), Err(HostMeshRefParseError::InvalidHost(_))));
    assert!(matches!(
        HostMeshRef::from_str("m:local:1@a"),
        Err(HostMeshRefParseError::RegionParseError(RegionParseError::Syntax))
    ));
    assert!(matches!(
        HostMeshRef::from_str("m:local:1@a=2/1"),
        Err(HostMeshRefParseError::InvalidHostMeshRef(MeshRefError::InvalidRankCardinality { expected: 2, actual: 1 }))
    ));
    // White space around hosts does not count.
    assert_eq!(mesh("m: local:1 , local:2@a=2/1").display(), "m:local:1,local:2@a=2/1");
}

#[test]
fn regions() {
    for text in ["", "a=3/1", "7+a=3/1", "2+replica=1/2,host=2/1"] {
        let r = Region::from_str(text).unwrap();
        assert_eq!(r.display(), text);
    }
    let r = Region::from_str("2+a=2/10,b=3/1").unwrap();
    assert_eq!(r.num_ranks(), 6);
    let ranks: Vec<usize> = (0..6).map(|i| r.rank(i)).collect();
    assert_eq!(ranks, vec![2, 3, 4, 12, 13, 14]);
    assert_eq!(r.number_of(13), Some(4));
    assert_eq!(r.number_of(5), None);
    let all = extent(&[("x", 20)]).region();
    assert_eq!(all.remap(&r), Some(vec![2, 3, 4, 12, 13, 14]));
    assert_eq!(r.remap(&all), None);
    for text in ["a", "a=1", "a=/1", "a=1/", "a=x/1", "1+", "x+a=1/1", "a=1/1,", "a=-1/1"] {
        match Region::from_str(text) {
            Ok(r) => assert_eq!(text, "1+", "{:?}", r),
            Err(e) => assert_eq!(e, RegionParseError::Syntax),
        }
    }
    let huge = format!("a={}/1,b=2/1", usize::MAX);
    assert_eq!(Region::from_str(&huge).err(), Some(RegionParseError::TooLarge));
    let far = format!("a=3/{}", usize::MAX);
    assert_eq!(Region::from_str(&far).err(), Some(RegionParseError::TooLarge));
    let empty = Region { offset: 0, dims: vec![Dim { label: "a".to_string(), size: 0, stride: 1 }] };
    assert_eq!(empty.num_ranks(), 0);
}

#[test]
fn extents() {
    let e = extent(&[("hosts", 2)]).concat(&extent(&[("gpus", 3), ("extra", 2)]));
    assert_eq!(e.num_ranks(), 12);
    let r = e.region();
    assert_eq!(r.display(), "hosts=2/6,gpus=3/2,extra=2/1");
    for i in 0..12 {
        assert_eq!(r.rank(i), i);
    }
    assert_eq!(Extent::unity().num_ranks(), 1);
    assert_eq!(Extent::unity().region().display(), "");
    assert!(!extent(&[("a", usize::MAX), ("b", 2)]).is_numbered());
    assert!(extent(&[("a", usize::MAX), ("b", 0)]).is_numbered());
    assert_eq!(r.extent().labels(), vec!["hosts", "gpus", "extra"]);
}

fn agent(addr: &str, proc_name: &str, name: &str, index: usize) -> ActorId {
    ActorId {
        proc_id: ProcId::Direct(ChannelAddr::from_str(addr).unwrap(), proc_name.to_string()),
        name: name.to_string(),
        index,
    }
}

fn ranked() -> ActorId {
    ActorId { proc_id: ProcId::Ranked("w".to_string(), 1), name: "agent".to_string(), index: 0 }
}

#[test]
fn hosts_and_their_agents() {
    let h = host("local:7");
    assert_eq!(h.mesh_agent().display(), "local:7,service,agent[0]");
    assert_eq!(h.named_proc("p".to_string()).display(), "local:7,p");
    assert_eq!(h.service_proc().display(), "local:7,service");
    assert_eq!(ranked().display(), "w[1].agent[0]");
    assert_eq!(HostRef::try_from(agent("local:7", "x", "y", 3)).unwrap().display(), "local:7");
    assert!(matches!(HostRef::try_from(ranked()), Err(MeshRefError::RankedProc(_))));
    assert_eq!(host_of_agent(h.mesh_agent()).unwrap().display(), "local:7");
    match host_of_agent(agent("local:7", "service", "agent", 1)) {
        Err(e) => assert_eq!(e.reason, "expected mesh agent actor id to be local:7,service,agent[0]"),
        Ok(_) => panic!("a host"),
    }
    match host_of_agent(ranked()) {
        Err(e) => assert_eq!(e.reason, "host mesh agent must be a direct actor"),
        Ok(_) => panic!("a host"),
    }
    let message = h.shutdown(span(), 0);
    assert_eq!(message.max_in_flight, 1);
    assert_eq!(message.timeout, span());
    assert_eq!(h.shutdown(span(), 1000).max_in_flight, 256);
}

#[test]
fn meshes_of_hosts() {
    let m = HostMeshRef::from_hosts("n".to_string(), vec![ChannelAddr::Local(1), ChannelAddr::Local(2)]);
    assert_eq!(m.display(), "n:local:1,local:2@hosts=2/1");
    let m = HostMeshRef::from_host_agents("n".to_string(), vec![host("local:1").mesh_agent()]).unwrap();
    assert_eq!(m.display(), "n:local:1@hosts=1/1");
    assert!(HostMeshRef::from_host_agents("n".to_string(), vec![host("local:1").mesh_agent(), ranked()]).is_err());
    let m = HostMeshRef::from_host_agent("n".to_string(), host("local:1").mesh_agent()).unwrap();
    assert_eq!(m.display(), "n:local:1@");
    assert_eq!(mesh(&m.display()).display(), m.display());
    assert!(HostMeshRef::from_host_agent("n".to_string(), ranked()).is_err());
    match HostMeshRef::new("n".to_string(), extent(&[("a", 2)]).region(), vec![host("local:1")]) {
        Err(MeshRefError::InvalidRankCardinality { expected, actual }) => assert_eq!((expected, actual), (2, 1)),
        _ => panic!("a mesh"),
    }
}

#[test]
fn owned_meshes() {
    let m = HostMesh::take(mesh("n:local:1,local:2,local:3@a=3/1"));
    assert_eq!(m.allocation_label(), "owned");
    assert_eq!(m.extent().num_ranks(), 3);
    let failed = || MeshShutdownAnswer::Answered(Err("x".to_string()));
    let stage = m.shutdown();
    assert!(matches!(stage, MeshShutdownStage::Ask { rank: 0, .. }));
    let stage = m.continue_shutdown(stage, MeshShutdownAnswer::Answered(Ok(())));
    let stage = m.continue_shutdown(stage, failed());
    // What fails keeps nothing else from being shut down.
    assert!(matches!(&stage, MeshShutdownStage::Ask { rank: 2, failed } if *failed == [1]));
    let stage = m.continue_shutdown(stage, failed());
    assert!(matches!(&stage, MeshShutdownStage::Done { failed } if *failed == [1, 2]));
    let m = match HostMesh::allocated("n".to_string(), extent(&[("a", 1)]), vec![host("local:1")]) {
        Some(m) => m,
        None => panic!("no mesh"),
    };
    assert_eq!(m.allocation_label(), "proc_mesh");
    let stage = m.continue_shutdown(m.shutdown(), MeshShutdownAnswer::Answered(Ok(())));
    assert!(matches!(&stage, MeshShutdownStage::StopProcs { failed } if failed.is_empty()));
    assert!(matches!(
        m.continue_shutdown(stage, MeshShutdownAnswer::ProcsStopped(Err("stuck".to_string()))),
        MeshShutdownStage::Failed { reason, .. } if reason == "stuck"
    ));
    assert_eq!(m.current_ref().display(), "n:local:1@a=1/1");
    assert!(HostMesh::allocated("n".to_string(), extent(&[("a", 2)]), vec![host("local:1")]).is_none());
}

#[test]
fn dropping_a_mesh() {
    let m = HostMesh::take(mesh("n:local:1,local:2,local:3@a=3/1"));
    assert!(matches!(m.begin_drop(false), DropStage::Skipped));
    let stage = m.continue_drop(m.begin_drop(true), DropAnswer::Made(Ok(())));
    assert!(matches!(stage, DropStage::MakeInstance));
    let mut stage = m.continue_drop(stage, DropAnswer::Made(Ok(())));
    for (i, r) in [Ok(()), Err("x".to_string()), Ok(())].into_iter().enumerate() {
        assert!(matches!(stage, DropStage::Ask { rank, .. } if rank == i));
        stage = m.continue_drop(stage, DropAnswer::Answered(r));
    }
    match stage {
        DropStage::Done(s) => assert_eq!((s.attempted, s.ok, s.err), (3, 2, 1)),
        _ => panic!("not done"),
    }
    assert!(matches!(
        m.continue_drop(DropStage::MakeInstance, DropAnswer::Made(Err("no".to_string()))),
        DropStage::GaveUp(e) if e == "no"
    ));
}

#[test]
fn hosts_as_processes() {
    let mut hosts = ProcessHosts::new(extent(&[("a", 2)]));
    for n in 1..3 {
        assert!(!hosts.is_complete());
        let command = BootstrapCommand::from_program("x".to_string());
        match hosts.next_host(ChannelAddr::Local(n), command, "c".to_string()) {
            Bootstrap::Host { addr, command: Some(command), config, exit_on_shutdown: false } => {
                assert_eq!(addr, ChannelAddr::Local(n));
                assert_eq!((command.program, config), ("x".to_string(), Some("c".to_string())));
            }
            _ => panic!("no host"),
        }
    }
    assert!(hosts.is_complete());
    assert_eq!(hosts.finish("p".to_string()).current_ref().display(), "p:local:1,local:2@a=2/1");
}

#[test]
fn starting_procs() {
    let m = mesh("n:local:1,local:2@hosts=2/1");
    match m.spawn_plan("p", &extent(&[("hosts", 2)])) {
        Err(e) => {
            assert_eq!(e, OverlappingDims);
            assert_eq!(e.text(), "per_host dims overlap with existing dims when spawning proc mesh");
        }
        Ok(_) => panic!("planned"),
    }
    let per_host = extent(&[("gpus", 3)]);
    let plan = match m.spawn_plan("p", &per_host) {
        Ok(plan) => plan,
        Err(_) => panic!("not planned"),
    };
    assert_eq!(plan.region.display(), "hosts=2/3,gpus=3/1");
    let steps: Vec<(usize, usize, usize, String)> = plan
        .steps
        .iter()
        .map(|s| (s.create_rank, s.host_rank, s.per_host_rank, s.proc_name.clone()))
        .collect();
    assert_eq!(steps[0], (0, 0, 0, "p_0".to_string()));
    assert_eq!(steps[4], (4, 1, 1, "p_1".to_string()));
    assert_eq!(steps.len(), 6);
    let names = || (0..6).map(|i| format!("p_{}-unique{}", i % 3, i)).collect::<Vec<String>>();
    let mut stage = plan.begin();
    for i in 0..6 {
        assert!(matches!(&stage, SpawnStage::Name { names } if names.len() == i));
        stage = plan.step(stage, SpawnAnswer::Named(Ok(names()[i].clone())));
        assert!(matches!(&stage, SpawnStage::Create { names: now } if now[i] == names()[i]));
        stage = plan.step(stage, SpawnAnswer::Asked(Ok(())));
        assert!(matches!(&stage, SpawnStage::Query { names } if names.len() == i + 1));
        stage = plan.step(stage, SpawnAnswer::Queried(Ok(())));
    }
    assert!(matches!(&stage, SpawnStage::Wait { names: now } if *now == names()));
    let wait = || SpawnStage::Wait { names: names() };
    let up = || (0..6).map(|_| Status::Running).collect::<Vec<Status>>();
    match plan.step(stage, SpawnAnswer::Waited(Heard::All(up()), span())) {
        SpawnStage::Created { names: kept } => {
            let procs = plan.procs(&m, &kept);
            assert_eq!(procs.len(), 6);
            assert_eq!(procs[4].proc_id.display(), "local:2,p_1-unique4");
            assert_eq!(procs[4].create_rank, 4);
            assert_eq!(procs[4].agent.display(), "local:2,p_1-unique4,agent[0]");
        }
        _ => panic!("not created"),
    }
    let mut bad = up();
    bad[4] = Status::Failed("x".to_string());
    bad[5] = Status::Stopped;
    let stage = plan.step(wait(), SpawnAnswer::Waited(Heard::All(bad), span()));
    assert!(matches!(stage, SpawnStage::AskState { rank: 4, host_rank: 1, .. }));
    match plan.step(stage, SpawnAnswer::Told(Ok(None))) {
        SpawnStage::Failed(SpawnError::ProcCreation { host_rank: 1, state }) => {
            assert_eq!(state.name, "p_1-unique4");
            assert!(matches!(state.status, Status::Failed(e) if e == "x"));
            assert!(state.state.is_none());
        }
        _ => panic!("not failed"),
    }
    match plan.step(SpawnStage::Create { names: names() }, SpawnAnswer::Asked(Err("gone".to_string()))) {
        SpawnStage::Failed(SpawnError::Agent { host_rank: 1, reason }) => {
            assert_eq!(reason, "failed while creating proc: gone")
        }
        _ => panic!("not failed"),
    }
    let one = SpawnStage::Query { names: vec!["p_0-x".to_string()] };
    match plan.step(one, SpawnAnswer::Queried(Err("gone".to_string()))) {
        SpawnStage::Failed(SpawnError::Agent { host_rank: 0, reason }) => {
            assert_eq!(reason, "failed while querying proc status: gone")
        }
        _ => panic!("not failed"),
    }
    assert!(matches!(
        plan.step(plan.begin(), SpawnAnswer::Named(Err("no name".to_string()))),
        SpawnStage::Failed(SpawnError::Name { reason }) if reason == "no name"
    ));
}

#[test]
fn procs_that_halt() {
    let m = mesh("n:local:1,local:2@hosts=2/1");
    let plan = match m.spawn_plan("test", &Extent::unity()) {
        Ok(plan) => plan,
        Err(_) => panic!("not planned"),
    };
    let heard = Heard::TimedOut(vec![Status::NotExist, Status::Running]);
    let wait = SpawnStage::Wait { names: vec!["test_0-a".to_string(), "test_0-b".to_string()] };
    match plan.step(wait, SpawnAnswer::Waited(heard, Span { secs: 20, nanos: 0 })) {
        SpawnStage::Failed(SpawnError::ProcSpawn { statuses }) => {
            let all = statuses.materialized();
            assert!(matches!(all[..], [Status::Timeout(_), Status::Running]));
        }
        _ => panic!("not timed out"),
    }
}

fn direct(n: u64, name: &str) -> ProcId {
    ProcId::Direct(ChannelAddr::Local(n), name.to_string())
}

#[test]
fn stopping_procs() {
    let two = extent(&[("x", 2)]).region();
    let (plan, stage) = stop_proc_mesh(vec![direct(1, "a"), direct(2, "b")], &two, "enough".to_string());
    assert_eq!(plan.reason, "enough");
    assert!(matches!(&stage, StopStage::Stop { at: 0, name, .. } if name == "a"));
    let stage = plan.step(stage, StopAnswer::Sent(Ok(())));
    let stage = plan.step(stage, StopAnswer::Queried(Ok(())));
    assert!(matches!(&stage, StopStage::Stop { at: 1, host, .. } if host.display() == "local:2"));
    let stage = plan.step(stage, StopAnswer::Sent(Ok(())));
    let stage = plan.step(stage, StopAnswer::Queried(Ok(())));
    assert!(matches!(stage, StopStage::Wait));
    let waited = |v: Vec<Status>| StopAnswer::Waited(Heard::All(v), span());
    assert!(matches!(
        plan.step(StopStage::Wait, waited(vec![Status::Stopped, Status::Stopping])),
        StopStage::Done(StopOutcome::Stopped)
    ));
    assert!(matches!(
        plan.step(StopStage::Wait, waited(vec![Status::Stopped, Status::Running])),
        StopStage::Done(StopOutcome::NotStopped(_))
    ));
    let late = StopAnswer::Waited(Heard::TimedOut(vec![Status::Stopped, Status::NotExist]), span());
    match plan.step(StopStage::Wait, late) {
        StopStage::Done(StopOutcome::TimedOut { statuses }) => {
            assert!(matches!(statuses.materialized()[..], [Status::Stopped, Status::Timeout(_)]));
        }
        _ => panic!("not timed out"),
    }
    assert!(matches!(
        stop_proc_mesh(vec![ProcId::Ranked("w".to_string(), 0)], &two, String::new()).1,
        StopStage::Failed(e) if e == "host mesh proc w[0] must be direct addressed"
    ));
    assert!(matches!(stop_proc_mesh(Vec::new(), &two, String::new()).1, StopStage::Wait));
    let (h, n) = host_and_name(&direct(2, "b")).unwrap();
    assert_eq!((h.display(), n), ("local:2".to_string(), "b".to_string()));
    assert_eq!(NotDirect(ProcId::Ranked("x".to_string(), 2)).text(), "host mesh proc x[2] must be direct addressed");
}

fn state(name: &str, create_rank: usize) -> State<ProcState> {
    State {
        name: name.to_string(),
        status: Status::Running,
        state: Some(ProcState {
            proc_id: direct(1, name),
            create_rank,
            mesh_agent: "agent".to_string(),
            bootstrap_command: None,
            proc_status: None,
        }),
    }
}

fn missing(name: &str) -> State<ProcState> {
    State { name: name.to_string(), status: Status::NotExist, state: None }
}

#[test]
fn states_in_the_order_of_ranks() {
    let mut s = ProcStates::new();
    for (name, rank) in [("d", 3usize), ("b", 1), ("h", 7), ("c", 1)] {
        assert!(s.on_state(state(name, rank)).is_ok());
    }
    assert_eq!(s.len(), 4);
    assert_eq!(s.on_state(missing("gone")), Err("gone".to_string()));
    let names: Vec<String> = s.finish().iter().map(|st| st.name.clone()).collect();
    assert_eq!(names, ["b", "c", "d", "h"]);
}

/// The stage after two procs were asked for.
fn asked(ranks: usize) -> (StatesPlan, StatesStage) {
    let procs = vec![direct(1, "a"), direct(2, "b")];
    let (plan, stage) = proc_states(procs, &extent(&[("x", ranks)]).region(), Span { secs: 60, nanos: 0 });
    assert!(matches!(&stage, StatesStage::Ask { at: 0, host, name } if host.display() == "local:1" && name == "a"));
    let stage = plan.step(stage, StatesAnswer::Asked(Ok(())));
    assert!(matches!(&stage, StatesStage::Ask { at: 1, host, name } if host.display() == "local:2" && name == "b"));
    let stage = plan.step(stage, StatesAnswer::Asked(Ok(())));
    (plan, stage)
}

#[test]
fn states_of_procs() {
    let (plan, stage) = asked(2);
    let stage = plan.step(stage, StatesAnswer::Replied(Ok(state("b", 1))));
    assert!(matches!(&stage, StatesStage::Await { states } if states.len() == 1));
    match plan.step(stage, StatesAnswer::Replied(Ok(state("a", 0)))) {
        StatesStage::Done(v) => {
            assert_eq!(v[0].name, "a");
            assert_eq!(v[1].state.as_ref().unwrap().create_rank, 1);
        }
        _ => panic!("not done"),
    }
    let (plan, stage) = asked(2);
    assert!(matches!(
        plan.step(stage, StatesAnswer::Replied(Ok(missing("b")))),
        StatesStage::Failed(StatesError::NotExist(name)) if name == "b"
    ));
    let (plan, stage) = asked(2);
    assert!(matches!(
        plan.step(stage, StatesAnswer::Replied(Err("closed".to_string()))),
        StatesStage::Failed(StatesError::Receive(e)) if e == "closed"
    ));
    let (plan, stage) = asked(3);
    let stage = plan.step(stage, StatesAnswer::Replied(Ok(state("b", 1))));
    assert!(matches!(
        plan.step(stage, StatesAnswer::Replied(Ok(state("a", 0)))),
        StatesStage::Failed(StatesError::InvalidRankCardinality { expected: 3, actual: 2 })
    ));
}

#[test]
fn hosts_that_cannot_be_asked() {
    let one = extent(&[("x", 1)]).region();
    let (plan, stage) = proc_states(vec![direct(4, "a")], &one, span());
    match plan.step(stage, StatesAnswer::Asked(Err("down".to_string()))) {
        StatesStage::Failed(StatesError::Call { host, reason }) => {
            assert_eq!((host.display(), reason), ("local:4".to_string(), "down".to_string()))
        }
        _ => panic!("asked"),
    }
    let (_, stage) = proc_states(vec![ProcId::Ranked("w".to_string(), 0)], &one, span());
    match stage {
        StatesStage::Failed(StatesError::NotDirect(e)) => {
            assert_eq!(e.text(), "host mesh proc w[0] must be direct addressed")
        }
        _ => panic!("asked"),
    }
}

#[test]
fn procs_that_do_not_answer() {
    let (plan, stage) = asked(2);
    let stage = plan.step(stage, StatesAnswer::Replied(Ok(state("b", 1))));
    match plan.step(stage, StatesAnswer::TimedOut) {
        StatesStage::Done(v) => {
            assert_eq!(v.len(), 2);
            assert_eq!(v[0].name, "a");
            assert!(matches!(v[0].status, Status::Timeout(Span { secs: 60, nanos: 0 })));
            assert!(v[0].state.is_none());
            assert_eq!(v[1].name, "b");
            assert!(v[1].state.is_some());
        }
        _ => panic!("not done"),
    }
}

#[test]
fn hosts_of_an_allocation() {
    let mut a = AllocatedHosts::new(extent(&[("a", 2)]));
    assert!(!a.is_complete());
    assert!(a.on_agent(host("local:1").mesh_agent()).is_ok());
    match a.on_agent(ranked()) {
        Err(e) => assert_eq!(e.reason, "host mesh agent must be a direct actor"),
        Ok(_) => panic!("taken"),
    }
    assert!(a.on_agent(host("local:2").mesh_agent()).is_ok());
    assert!(a.is_complete());
    let mesh = a.finish("n".to_string());
    assert_eq!(mesh.current_ref().display(), "n:local:1,local:2@a=2/1");
    assert_eq!(mesh.allocation_label(), "proc_mesh");
}

#[test]
fn meshes_of_this_machine() {
    let mesh = HostMesh::local("local".to_string(), ChannelAddr::Local(4));
    assert_eq!(mesh.current_ref().display(), "local:local:4@hosts=1/1");
    assert_eq!(mesh.allocation_label(), "owned");
    let mesh = match HostMesh::process("p".to_string(), extent(&[("a", 1)]), vec![host("local:1")]) {
        Ok(mesh) => mesh,
        Err(e) => panic!("{:?}", e),
    };
    assert_eq!(mesh.current_ref().display(), "p:local:1@a=1/1");
    assert!(matches!(
        HostMesh::process("p".to_string(), extent(&[("a", 2)]), vec![host("local:1")]),
        Err(MeshRefError::InvalidRankCardinality { expected: 2, actual: 1 })
    ));
}

#[test]
fn watching_over_a_mesh() {
    let hosts = mesh("n:local:1,local:2@a=2/1").admin_hosts();
    let texts: Vec<(String, String)> = hosts.iter().map(|(a, id)| (a.clone(), id.display())).collect();
    assert_eq!(texts[1], ("local:2".to_string(), "local:2,service,agent[0]".to_string()));
    assert_eq!(texts.len(), 2);
    assert_eq!(admin_addr(Some("[::1]:80".to_string())).unwrap().display(), "[::1]:80");
    assert!(matches!(admin_addr(Some("here".to_string())), Err(AdminAddrError::NoSocket(t)) if t == "here"));
    match admin_addr(None) {
        Err(e) => assert_eq!(e.text().unwrap(), "mesh admin agent did not report an address"),
        Ok(_) => panic!("an address"),
    }
}

#[test]
fn the_first_host_that_is_none_is_named() {
    match HostMeshRef::from_str("m:local:1,smoke:2,mist:3@a=3/1") {
        Err(HostMeshRefParseError::InvalidHost(AddrError::NoSuchType(t))) => assert_eq!(t, "smoke"),
        other => panic!("{:?}", other.err()),
    }
    assert_eq!(HostMeshRefParseError::MissingRegion.text().unwrap(), "invalid host mesh ref: missing region");
    assert_eq!(HostMeshRefParseError::MissingName.text().unwrap(), "invalid host mesh ref: missing name");
}

#[test]
fn procs_of_a_plan() {
    let m = mesh("n:local:1,local:2@hosts=2/1");
    let plan = match m.spawn_plan("p", &Extent::unity()) {
        Ok(plan) => plan,
        Err(_) => panic!("not planned"),
    };
    let proc_ref = plan.steps[1].proc_ref(m.get(1).unwrap(), "p_0-x".to_string());
    assert_eq!(proc_ref.proc_id.display(), "local:2,p_0-x");
    assert_eq!(proc_ref.create_rank, 1);
    assert_eq!(proc_ref.agent.display(), "local:2,p_0-x,agent[0]");
}

#[test]
fn meshes_at_abstract_sockets_read_back() {
    let read = |text: &str| {
        let m = mesh(text);
        assert_eq!(m.display(), text);
        let hosts: Vec<String> = (0..m.len()).map(|i| m.get(i).unwrap().display()).collect();
        (m.name().clone(), hosts, m.region().display())
    };
    assert_eq!(
        read("n:unix:@a@hosts=1/1"),
        ("n".to_string(), vec!["unix:@a".to_string()], "hosts=1/1".to_string())
    );
    assert_eq!(
        read("n:unix:@a,tcp:1.2.3.4:5,unix:@b@c,unix:/run/x@y@hosts=2/2,gpus=2/1").1,
        ["unix:@a", "tcp:1.2.3.4:5", "unix:@b@c", "unix:/run/x@y"]
    );
    let made = HostMeshRef::from_hosts("n".to_string(), vec![ChannelAddr::from_str("unix:@a").unwrap()]);
    assert_eq!(made.display(), "n:unix:@a@hosts=1/1");
}

#[test]
fn names_that_are_none() {
    assert_eq!(HostMeshRef::name_in("n:local:1@hosts=1/1"), Some("n".to_string()));
    assert_eq!(HostMeshRef::name_in("n"), None);
    let bad = || Err("no name".to_string());
    // The name is looked at before the region.
    assert!(matches!(
        HostMeshRef::from_str_checked("n:local:1", bad()),
        Err(HostMeshRefParseError::InvalidName(e)) if e == "no name"
    ));
    assert_eq!(HostMeshRefParseError::InvalidName("why".to_string()).text().unwrap(), "why");
    assert!(matches!(HostMeshRef::from_str_checked("n", bad()), Err(HostMeshRefParseError::MissingName)));
    assert!(matches!(HostMeshRef::from_str_checked("n:local:1", Ok(())), Err(HostMeshRefParseError::MissingRegion)));
    assert!(HostMeshRef::from_str_checked("n:local:1@hosts=1/1", Ok(())).is_ok());
    let one = extent(&[("x", 1)]).region();
    let (plan, stage) = stop_proc_mesh(vec![direct(1, "a b")], &one, String::new());
    assert!(matches!(
        plan.step(stage, StopAnswer::InvalidName("no name".to_string())),
        StopStage::Failed(e) if e == "no name"
    ));
    let (plan, stage) = proc_states(vec![direct(1, "a b")], &one, span());
    assert!(matches!(
        plan.step(stage, StatesAnswer::InvalidName("no name".to_string())),
        StatesStage::Failed(StatesError::InvalidName(e)) if e == "no name"
    ));
}
