//! How processes come up, and what becomes of them.

use monarch::channel::addr::{ChannelAddr, ChannelTransport};
use monarch::mesh::allocator::{
    after_heartbeat, allocator_env, Allocator2Process, AllocatorEnvError, Heartbeat, Process2Allocator,
    Process2AllocatorMessage, V0Answer, V0Process, V0Stage,
};
use monarch::mesh::bootstrap::{
    begin_proc, boot_report, continue_host, continue_proc, host, install_pdeathsig_kill, BootPlan, Bootstrap,
    BootstrapCommand, ConfigLayer, EnvError, EnvStringError, EnvVar, HostAnswer, HostStage, LauncherKind,
    PdeathsigOutcome, ProcAnswer, ProcId, ProcStage,
};
use monarch::mesh::host_agent::HostAgentMode;
use monarch::mesh::proc_manager::{
    launched, BootstrapProcConfig, BootstrapProcManager, HostError, LaunchResult, LogOverrides, LogSettings, ProcExitKind,
    ProcExitResult, ProcLauncherError, ProcSpawn, StdioHandling,
};
use monarch::mesh::resource::Span;
use monarch::mesh::status::{
    BootstrapProcHandle, ProcStatus, ReadyError, StreamMonitors, TerminateAnswer, TerminateError, TerminateStage,
    Timestamp, Wait,
};
use monarch::name_map::NameMap;
use serde_json::Value;

fn addr(text: &str) -> ChannelAddr {
    ChannelAddr::from_str(text).unwrap()
}

fn any_addr_for_test() -> ChannelAddr {
    addr("unix:@any")
}

fn at(secs: i64) -> Timestamp {
    Timestamp { secs, nanos: 0 }
}

fn handle_for_test() -> BootstrapProcHandle {
    BootstrapProcHandle::new(ProcId::Ranked("test".to_string(), 0).display())
}

fn direct(name: &str) -> ProcId {
    ProcId::Direct(any_addr_for_test(), name.to_string())
}

fn manager() -> BootstrapProcManager<u64, BootstrapProcHandle> {
    BootstrapProcManager::new(BootstrapCommand::from_program("/bin/true".to_string()), "/run/x".to_string(), false)
}

/// The way to come up, as JSON.
fn json(kind: &str, config: &str) -> String {
    match kind {
        "Proc" => format!(
            "{{\"Proc\":{{\"proc_id\":\"foo[0]\",\"backend_addr\":\"tcp:127.0.0.1:0\",\"callback_addr\":\"unix:@any\",\"socket_dir_path\":\"notexist\",\"config\":{}}}}}",
            config
        ),
        "Host" => format!(
            "{{\"Host\":{{\"addr\":\"unix:@any\",\"command\":null,\"config\":{},\"exit_on_shutdown\":false}}}}",
            config
        ),
        _ => format!("{{\"V0ProcMesh\":{{\"config\":{}}}}}", config),
    }
}

#[test]
fn test_bootstrap_mode_env_string_none_config_proc() {
    assert!(matches!(Bootstrap::default(), Bootstrap::V0ProcMesh { config: None }));
    for kind in ["V0ProcMesh", "Proc"] {
        let value = json(kind, "null");
        let safe = Bootstrap::to_env_safe_string(&value);
        let round = Bootstrap::from_env_safe_string(&safe).unwrap();
        let safe2 = Bootstrap::to_env_safe_string(&round);
        assert_eq!(safe, safe2, "env-safe round-trip should be stable");
        let decoded: Value = serde_json::from_str(&round).unwrap();
        assert!(decoded[kind]["config"].is_null(), "decoded variant mismatch: got {:?}", round);
        assert!(decoded.get(kind).is_some());
    }
}

#[test]
fn test_bootstrap_mode_env_string_none_config_host() {
    let value = json("Host", "null");
    let safe = Bootstrap::to_env_safe_string(&value);
    let round = Bootstrap::from_env_safe_string(&safe).unwrap();
    let safe2 = Bootstrap::to_env_safe_string(&round);
    assert_eq!(safe, safe2);
    let decoded: Value = serde_json::from_str(&round).unwrap();
    match decoded.get("Host") {
        Some(host) => assert!(host["config"].is_null()),
        None => panic!("expected Host with None config, got {:?}", round),
    }
}

#[test]
fn test_bootstrap_mode_env_string_invalid() {
    // Not valid base64
    assert!(Bootstrap::from_env_safe_string("!!!").is_err());
}

#[test]
fn test_bootstrap_config_snapshot_roundtrip() {
    let config = "{\"MESH_TAIL_LOG_LINES\":123,\"MESH_BOOTSTRAP_ENABLE_PDEATHSIG\":false}";
    for kind in ["Proc", "Host", "V0ProcMesh"] {
        let original = json(kind, config);
        let env_str = Bootstrap::to_env_safe_string(&original);
        let decoded = Bootstrap::from_env_safe_string(&env_str).expect("decode bootstrap");
        let decoded: Value = serde_json::from_str(&decoded).unwrap();
        let cfg = &decoded[kind]["config"];
        assert_eq!(cfg["MESH_TAIL_LOG_LINES"], 123);
        assert_eq!(cfg["MESH_BOOTSTRAP_ENABLE_PDEATHSIG"], false);
    }
}

#[test]
fn env_strings_are_base64() {
    assert_eq!(Bootstrap::to_env_safe_string("{\"a\":1}"), "eyJhIjoxfQ==");
    assert_eq!(Bootstrap::from_env_safe_string("eyJhIjoxfQ==").unwrap(), "{\"a\":1}");
    assert_eq!(Bootstrap::from_env_safe_string("").unwrap(), "");
    assert!(matches!(Bootstrap::from_env_safe_string("eyJhIjoxfQ"), Err(EnvStringError::Base64(_))));
    assert!(matches!(Bootstrap::from_env_safe_string("/w=="), Err(EnvStringError::Utf8)));
    let text = "gr\u{fc}\u{df}e \u{1f600}";
    assert_eq!(Bootstrap::from_env_safe_string(&Bootstrap::to_env_safe_string(text)).unwrap(), text);
    assert!(matches!(Bootstrap::from_decoded(Err("why".to_string())), Err(EnvStringError::Base64(e)) if e == "why"));
}

#[test]
fn the_environment_says_how_to_come_up() {
    assert!(matches!(Bootstrap::get_from_env(EnvVar::NotPresent), Ok(None)));
    match Bootstrap::get_from_env(EnvVar::Held(Bootstrap::to_env_safe_string("{}"))) {
        Ok(Some(json)) => assert_eq!(json, "{}"),
        _ => panic!("not read"),
    }
    match Bootstrap::get_from_env(EnvVar::Held("!!!".to_string())) {
        Err(e) => {
            assert!(matches!(e, EnvError::Parsing(_)));
            assert_eq!(e.context(), "parsing HYPERACTOR_MESH_BOOTSTRAP_MODE");
        }
        Ok(_) => panic!("read"),
    }
    match Bootstrap::get_from_env(EnvVar::NotUnicode("odd".to_string())) {
        Err(e) => assert_eq!(e.context(), "reading HYPERACTOR_MESH_BOOTSTRAP_MODE"),
        Ok(_) => panic!("read"),
    }
}

#[test]
fn starting_to_running_ok() {
    let mut h = handle_for_test();
    assert!(matches!(h.status(), ProcStatus::Starting));
    let child_started_at = at(100);
    assert!(h.mark_running(child_started_at));
    match h.status() {
        ProcStatus::Running { started_at } => assert_eq!(*started_at, child_started_at),
        other => panic!("expected Running, got {other:?}"),
    }
}

#[test]
fn running_to_stopping_to_stopped_ok() {
    let mut h = handle_for_test();
    assert!(h.mark_running(at(100)));
    assert!(h.mark_stopping(at(101)));
    assert!(matches!(h.status(), ProcStatus::Stopping { .. }));
    assert!(h.mark_stopped(0, Vec::new()));
    assert!(matches!(h.status(), ProcStatus::Stopped { exit_code: 0, .. }));
}

#[test]
fn running_to_killed_ok() {
    let mut h = handle_for_test();
    assert!(h.mark_running(at(100)));
    assert!(h.mark_killed(9, true));
    assert!(matches!(h.status(), ProcStatus::Killed { signal: 9, core_dumped: true }));
}

#[test]
fn running_to_failed_ok() {
    let mut h = handle_for_test();
    assert!(h.mark_running(at(100)));
    assert!(h.mark_failed("bootstrap error".to_string()));
    match h.status() {
        ProcStatus::Failed { reason } => assert_eq!(reason, "bootstrap error"),
        other => panic!("expected Failed(\"bootstrap error\"), got {other:?}"),
    }
}

#[test]
fn illegal_transitions_are_rejected() {
    let mut h = handle_for_test();
    // Starting -> Running is fine; second Running should be rejected.
    assert!(h.mark_running(at(100)));
    assert!(!h.mark_running(at(101)));
    assert!(matches!(h.status(), ProcStatus::Running { .. }));
    // Once Stopped, we can't go to Running/Killed/Failed/etc.
    assert!(h.mark_stopping(at(102)));
    assert!(h.mark_stopped(0, Vec::new()));
    assert!(!h.mark_running(at(100)));
    assert!(!h.mark_killed(9, false));
    assert!(!h.mark_failed("nope".to_string()));
    assert!(matches!(h.status(), ProcStatus::Stopped { exit_code: 0, .. }));
}

#[test]
fn transitions_from_ready_are_legal() {
    let mut h = handle_for_test();
    assert!(h.mark_running(at(100)));
    assert!(h.mark_ready(any_addr_for_test(), "agent".to_string(), at(101)));
    assert!(h.mark_stopping(at(102)));
    assert!(h.mark_stopped(0, Vec::new()));
}

#[test]
fn ready_to_killed_is_legal() {
    let mut h = handle_for_test();
    assert!(h.mark_running(at(100)));
    assert!(h.mark_ready(any_addr_for_test(), "agent".to_string(), at(101)));
    assert!(h.mark_killed(9, false));
}

#[test]
fn mark_failed_from_stopping_is_allowed() {
    let mut h = handle_for_test();
    assert!(h.mark_stopping(at(100)), "precondition: to Stopping");
    assert!(h.mark_failed("boom".to_string()), "mark_failed() should succeed from Stopping");
    match h.status() {
        ProcStatus::Failed { reason } => assert_eq!(reason, "boom"),
        other => panic!("expected Failed(\"boom\"), got {other:?}"),
    }
}

#[test]
fn watch_notifies_on_status_changes() {
    let mut handle = BootstrapProcHandle::new(ProcId::Ranked("test".to_string(), 1).display());
    let seen = handle.watch();
    let now = at(100);
    assert!(handle.mark_running(now));
    assert_ne!(handle.watch(), seen);
    let seen = handle.watch();
    match handle.status() {
        ProcStatus::Running { started_at } => assert_eq!(*started_at, now),
        s => panic!("expected Running, got {s:?}"),
    }
    // What changes nothing is not announced.
    assert!(!handle.mark_running(at(101)));
    assert_eq!(handle.watch(), seen);
    assert!(handle.mark_stopped(0, Vec::new()));
    assert_ne!(handle.watch(), seen);
    assert!(matches!(handle.status(), ProcStatus::Stopped { exit_code: 0, .. }));
}

#[test]
fn ready_errs_if_process_exits_before_running() {
    let mut handle = BootstrapProcHandle::new(direct("early-exit").display());
    assert!(handle.mark_stopped(7, Vec::new()));
    assert!(matches!(handle.ready_inner(false), Wait::Ended));
    match handle.status() {
        ProcStatus::Stopped { exit_code, .. } => assert_eq!(*exit_code, 7),
        other => panic!("expected Stopped(7), got {other:?}"),
    }
}

#[test]
fn status_unknown_proc_is_none() {
    assert!(manager().status(&direct("nope")).is_none());
}

#[test]
fn handle_ready_allows_waiters() {
    let mut handle = BootstrapProcHandle::new(ProcId::Ranked("test".to_string(), 42).display());
    assert_eq!(handle.proc_id(), "test[42]");
    let started_at = at(100);
    assert!(handle.mark_running(started_at));
    assert!(matches!(handle.ready_inner(false), Wait::Pending));
    let ready_addr = any_addr_for_test();
    assert!(handle.mark_ready(ready_addr.clone(), "agent".to_string(), at(101)));
    assert!(matches!(handle.ready_inner(false), Wait::Reached));
    match handle.status() {
        ProcStatus::Ready { started_at: t, addr: a, .. } => {
            assert_eq!(*t, started_at);
            assert_eq!(*a, ready_addr);
        }
        other => panic!("expected Ready, got {other:?}"),
    }
}

#[test]
fn display_running_includes_uptime() {
    let st = ProcStatus::Running { started_at: at(1000) };
    let s = st.display(at(1042));
    assert!(s.contains("Running"));
    assert!(s.contains("42s"));
}

#[test]
fn display_ready_includes_addr() {
    let addr = any_addr_for_test();
    let st = ProcStatus::Ready { started_at: at(1000), addr: addr.clone(), agent: "agent".to_string() };
    let s = st.display(at(1005));
    assert!(s.contains(&addr.display())); // addr
    assert!(s.contains("Ready"));
}

#[test]
fn display_stopped_includes_exit_code() {
    let st = ProcStatus::Stopped { exit_code: 7, stderr_tail: Vec::new() };
    let s = st.display(at(0));
    assert!(s.contains("Stopped"));
    assert!(s.contains("7"));
}

#[test]
fn display_other_variants_does_not_panic() {
    let samples = vec![
        ProcStatus::Starting,
        ProcStatus::Stopping { started_at: at(5) },
        ProcStatus::Ready { started_at: at(5), addr: any_addr_for_test(), agent: "agent".to_string() },
        ProcStatus::Killed { signal: 9, core_dumped: false },
        ProcStatus::Failed { reason: "boom".to_string() },
    ];
    for st in samples {
        let _ = st.display(at(6)); // Just make sure it doesn't panic.
    }
}

#[test]
fn proc_handle_ready_ok_through_trait() {
    let mut handle = BootstrapProcHandle::new(direct("ph-ready-ok").display());
    assert!(handle.mark_running(at(100)));
    assert!(handle.mark_ready(any_addr_for_test(), "agent".to_string(), at(101)));
    let r = handle.ready(false);
    assert!(matches!(r, Some(Ok(()))), "expected Ok(()), got {r:?}");
}

#[test]
fn proc_handle_wait_returns_terminal_status() {
    let mut handle = BootstrapProcHandle::new(direct("ph-wait").display());
    assert!(handle.wait(false).is_none());
    assert!(handle.mark_stopped(0, Vec::new()));
    assert!(matches!(handle.wait(false), Some(Ok(st)) if st.is_exit()));
    match handle.status() {
        ProcStatus::Stopped { exit_code, .. } => assert_eq!(*exit_code, 0),
        other => panic!("expected Stopped(0), got {other:?}"),
    }
}

#[test]
fn ready_wrapper_maps_terminal_to_trait_error() {
    let mut handle = BootstrapProcHandle::new(direct("wrap").display());
    assert!(handle.mark_stopped(7, Vec::new()));
    match handle.ready(false) {
        Some(Err(ReadyError::Terminal(status))) => match status {
            ProcStatus::Stopped { exit_code, .. } => assert_eq!(*exit_code, 7),
            other => panic!("{other:?}"),
        },
        other => panic!("unexpected: {other:?}"),
    }
}

#[test]
fn nothing_will_be_announced_any_more() {
    let handle = handle_for_test();
    assert!(matches!(handle.ready_inner(true), Wait::Closed));
    assert!(matches!(handle.ready(true), Some(Err(ReadyError::ChannelClosed))));
    assert!(matches!(handle.wait(true), Some(Err(_))));
}

fn grace() -> Span {
    Span { secs: 10, nanos: 0 }
}

#[test]
fn terminating() {
    let mut h = handle_for_test();
    h.mark_running(at(1));
    h.mark_ready(any_addr_for_test(), "the agent".to_string(), at(2));
    let stage = h.terminate(grace(), "done".to_string(), at(3));
    assert!(matches!(
        &stage,
        TerminateStage::StopAll { agent, timeout, reason }
            if agent == "the agent" && *timeout == grace() && reason == "done"
    ));
    assert!(matches!(h.status(), ProcStatus::Ready { .. }));
    // The status was announced, but it is not one of an end.
    let stage = h.continue_terminate(stage, TerminateAnswer::Announced { closed: false }, at(4));
    assert!(matches!(stage, TerminateStage::StopAll { .. }));
    let stage = h.continue_terminate(stage, TerminateAnswer::TimedOut, at(4));
    assert!(matches!(stage, TerminateStage::Terminate { timeout } if timeout == grace()));
    assert!(matches!(h.status(), ProcStatus::Stopping { started_at } if *started_at == at(1)));
    let stage = h.continue_terminate(stage, TerminateAnswer::Signalled(None), at(5));
    assert!(matches!(stage, TerminateStage::Await));
    let stage = h.continue_terminate(stage, TerminateAnswer::Announced { closed: false }, at(6));
    assert!(matches!(stage, TerminateStage::Await));
    h.mark_killed(15, false);
    let stage = h.continue_terminate(stage, TerminateAnswer::Announced { closed: false }, at(6));
    assert!(matches!(stage, TerminateStage::Ended(ProcStatus::Killed { signal: 15, .. })));
    assert!(matches!(h.status(), ProcStatus::Killed { signal: 15, .. }));
    assert!(matches!(
        h.terminate(grace(), String::new(), at(7)),
        TerminateStage::Failed(TerminateError::AlreadyTerminated(ProcStatus::Killed { signal: 15, .. }))
    ));
    assert!(matches!(h.kill(), TerminateStage::Failed(TerminateError::AlreadyTerminated(_))));
}

#[test]
fn an_agent_that_ends_its_process() {
    let mut h = handle_for_test();
    h.mark_ready(any_addr_for_test(), "the agent".to_string(), at(2));
    let stage = h.terminate(grace(), String::new(), at(3));
    let seen = h.watch();
    assert!(h.changed(seen).is_none());
    h.mark_stopped(0, vec!["last words".to_string()]);
    assert!(matches!(h.changed(seen), Some(ProcStatus::Stopped { exit_code: 0, .. })));
    assert!(matches!(
        h.continue_terminate(stage, TerminateAnswer::Announced { closed: false }, at(4)),
        TerminateStage::Ended(ProcStatus::Stopped { exit_code: 0, stderr_tail }) if stderr_tail == ["last words"]
    ));
}

#[test]
fn failing_to_terminate() {
    let mut h = handle_for_test();
    let stage = h.terminate(grace(), String::new(), at(3));
    assert!(matches!(stage, TerminateStage::Terminate { .. }));
    match h.continue_terminate(stage, TerminateAnswer::Signalled(Some(Err("gone".to_string()))), at(4)) {
        TerminateStage::Failed(TerminateError::Io(e)) => assert_eq!(e, "launcher termination failed: gone"),
        _ => panic!("not failed"),
    }
    let stage = h.kill();
    match h.continue_terminate(stage, TerminateAnswer::Signalled(Some(Err("gone".to_string()))), at(4)) {
        TerminateStage::Failed(TerminateError::Io(e)) => assert_eq!(e, "launcher kill failed: gone"),
        _ => panic!("not failed"),
    }
    assert!(matches!(
        h.continue_terminate(TerminateStage::Await, TerminateAnswer::Announced { closed: true }, at(5)),
        TerminateStage::Failed(TerminateError::ChannelClosed)
    ));
}

#[test]
fn test_set_launcher_then_get() {
    let mut manager = manager();
    manager.set_launcher(42).unwrap();
    assert_eq!(*manager.launcher(0), 42, "launcher() should return the one that was set");
}

#[test]
fn test_get_launcher_then_set_fails() {
    let mut manager = manager();
    let _ = manager.launcher(0);
    let result = manager.set_launcher(99);
    assert!(result.is_err(), "set_launcher should fail after launcher() was called");
    let err_msg = result.unwrap_err().text();
    assert!(
        err_msg.contains("already initialized"),
        "error should mention 'already initialized', got: {}",
        err_msg
    );
    assert_eq!(*manager.launcher(1), 0);
}

#[test]
fn test_set_launcher_twice_fails() {
    let mut manager = manager();
    manager.set_launcher(1).unwrap();
    let result = manager.set_launcher(2);
    assert!(result.is_err(), "second set_launcher should fail");
    let err_msg = result.unwrap_err().text();
    assert!(
        err_msg.contains("already initialized"),
        "error should mention 'already initialized', got: {}",
        err_msg
    );
}

#[test]
fn test_launcher_initially_empty() {
    let mut manager = manager();
    assert!(manager.chosen_launcher().is_none());
    assert!(manager.set_launcher(123).is_ok(), "set_launcher should succeed on fresh manager");
}

#[test]
fn test_launcher_idempotent() {
    let mut manager = manager();
    let first = *manager.launcher(7);
    let second = *manager.launcher(8);
    assert_eq!(first, second, "launcher() should return the same one on repeated calls");
}

#[test]
fn kinds_of_launchers() {
    assert_eq!(LauncherKind::from_str("").unwrap(), LauncherKind::Native);
    assert_eq!(LauncherKind::from_str("  NaTive\n").unwrap(), LauncherKind::Native);
    assert_eq!(LauncherKind::from_str("SYSTEMD").unwrap(), LauncherKind::Systemd);
    match LauncherKind::from_str(" Docker ") {
        Err(e) => assert_eq!(e.0, "docker"),
        Ok(_) => panic!("a launcher"),
    }
    assert_eq!(LauncherKind::for_setting("docker"), LauncherKind::Native);
    assert_eq!(LauncherKind::for_setting("systemd"), LauncherKind::Systemd);
}

#[test]
fn commands() {
    let c = BootstrapCommand::current("/bin/x".to_string(), vec!["x".to_string(), "-v".to_string()], NameMap::new());
    assert_eq!(c.program, "/bin/x");
    assert_eq!(c.arg0, Some("x".to_string()));
    assert_eq!(c.args, vec!["-v".to_string()]);
    let c = BootstrapCommand::current("/bin/x".to_string(), Vec::new(), NameMap::new());
    assert_eq!(c.arg0, None);
    let c = BootstrapCommand::from_program("sleep".to_string());
    assert_eq!(c.program, "sleep");
    assert!(c.args.is_empty());
}

fn config() -> BootstrapProcConfig {
    BootstrapProcConfig {
        create_rank: 6,
        client_config_override: "{}".to_string(),
        logs: LogOverrides { enable_forwarding: None, enable_file_capture: None, tail_lines: None },
    }
}

fn mode(proc_id: ProcId) -> Bootstrap {
    manager().begin_spawn(proc_id, addr("unix:@b"), addr("unix:@c"), config(), &LogSettings::default()).1
}

#[test]
fn coming_up_as_a_proc() {
    let (install, boot) = match mode(ProcId::Direct(addr("tcp:1.2.3.4:5"), "p".to_string())).bootstrap() {
        BootPlan::Proc { install, boot } => (install, boot),
        _ => panic!("no proc"),
    };
    assert_eq!(install, Some((ConfigLayer::ClientOverride, "{}".to_string())));
    {
        let boot = match &boot {
            Ok(boot) => boot,
            Err(e) => panic!("{}", e),
        };
        assert_eq!(boot.local_addr.display(), "tcp:1.2.3.4:5");
        assert_eq!(boot.backend_addr.display(), "unix:@b");
        assert_eq!(boot.callback_addr.display(), "unix:@c");
        assert_eq!(boot.serve_addr.as_ref().unwrap().display(), "unix:/run/x/p");
    }
    // The configuration is installed before anything is read from it.
    let stage = begin_proc(install);
    assert!(matches!(&stage, ProcStage::Install(ConfigLayer::ClientOverride, c) if c == "{}"));
    let stage = continue_proc(&boot, stage, ProcAnswer::Pdeathsig(true));
    assert!(matches!(&stage, ProcStage::Install(..)));
    let stage = continue_proc(&boot, stage, ProcAnswer::Installed);
    assert!(matches!(stage, ProcStage::ReadPdeathsig));
    assert!(matches!(
        continue_proc(&boot, ProcStage::ReadPdeathsig, ProcAnswer::Pdeathsig(false)),
        ProcStage::DialBackend
    ));
    let stage = continue_proc(&boot, stage, ProcAnswer::Pdeathsig(true));
    assert!(matches!(stage, ProcStage::SetPdeathsig));
    let stage = continue_proc(&boot, stage, ProcAnswer::PdeathsigTried);
    assert!(matches!(stage, ProcStage::DialBackend));
    let stage = continue_proc(&boot, stage, ProcAnswer::Dialed(Ok(())));
    assert!(matches!(stage, ProcStage::StartAgent));
    let stage = continue_proc(&boot, stage, ProcAnswer::AgentStarted(Ok(())));
    let stage = continue_proc(&boot, stage, ProcAnswer::Serving(Ok(())));
    assert!(matches!(stage, ProcStage::Report));
    let stage = continue_proc(&boot, stage, ProcAnswer::Dialed(Err("late".to_string())));
    assert!(matches!(stage, ProcStage::Report));
    let stage = continue_proc(&boot, stage, ProcAnswer::Reported(Ok(())));
    assert!(matches!(continue_proc(&boot, stage, ProcAnswer::Shutdown(None)), ProcStage::Exit(1)));
    assert!(matches!(
        continue_proc(&boot, ProcStage::AwaitShutdown, ProcAnswer::Shutdown(Some(0))),
        ProcStage::Exit(0)
    ));
    assert!(matches!(
        continue_proc(&boot, ProcStage::Serve, ProcAnswer::Serving(Err("busy".to_string()))),
        ProcStage::Failed(e) if e == "busy"
    ));
}

#[test]
fn what_cannot_come_up_as_a_proc() {
    match mode(ProcId::Ranked("w".to_string(), 3)).bootstrap() {
        BootPlan::Proc { install, boot } => {
            assert!(install.is_some());
            match continue_proc(&boot, ProcStage::SetPdeathsig, ProcAnswer::PdeathsigTried) {
                ProcStage::Failed(e) => assert_eq!(e, "invalid proc id type: w[3]"),
                _ => panic!("came up"),
            }
        }
        _ => panic!("no proc"),
    }
}

#[test]
fn the_configuration_is_what_the_client_overrides() {
    assert!(matches!(Bootstrap::default().bootstrap(), BootPlan::V0ProcMesh { install: None }));
    assert!(matches!(begin_proc(None), ProcStage::ReadPdeathsig));
    let legacy = Bootstrap::V0ProcMesh { config: Some("c".to_string()) };
    match legacy.bootstrap() {
        BootPlan::V0ProcMesh { install } => assert_eq!(install, Some((ConfigLayer::ClientOverride, "c".to_string()))),
        _ => panic!("something else"),
    }
    let host = |config: Option<String>| Bootstrap::Host {
        addr: addr("tcp:1.2.3.4:5"),
        command: None,
        config,
        exit_on_shutdown: true,
    };
    match host(Some("c".to_string())).bootstrap() {
        BootPlan::Host { install, addr, command, exit_on_shutdown } => {
            assert_eq!(install, Some((ConfigLayer::ClientOverride, "c".to_string())));
            assert_eq!(addr.display(), "tcp:1.2.3.4:5");
            assert!(command.is_none() && exit_on_shutdown);
        }
        _ => panic!("no host"),
    }
    assert!(matches!(host(None).bootstrap(), BootPlan::Host { install: None, .. }));
}

#[test]
fn coming_up_as_a_host() {
    let command = || BootstrapCommand::from_program("x".to_string());
    let stage = host(Some((ConfigLayer::ClientOverride, "c".to_string())), Some(command()));
    assert!(matches!(&stage, HostStage::Install { layer: ConfigLayer::ClientOverride, config, .. } if config == "c"));
    let stage = continue_host(true, stage, HostAnswer::Installed);
    assert!(matches!(&stage, HostStage::Serve { command } if command.program == "x"));
    let stage = continue_host(true, stage, HostAnswer::Served(Ok(())));
    assert!(matches!(stage, HostStage::StartAgent { mode: HostAgentMode::Process { exit_on_shutdown: true } }));
    assert!(matches!(continue_host(true, stage, HostAnswer::AgentStarted(Ok(()))), HostStage::Run));
    let stage = host(None, None);
    assert!(matches!(stage, HostStage::FindCommand));
    assert!(matches!(
        continue_host(false, stage, HostAnswer::Command(Ok(command()))),
        HostStage::Serve { .. }
    ));
    assert!(matches!(
        continue_host(false, HostStage::FindCommand, HostAnswer::Command(Err("gone".to_string()))),
        HostStage::Failed(e) if e == "gone"
    ));
}

#[test]
fn dying_with_the_parent() {
    assert_eq!(install_pdeathsig_kill(10, 0, 10), PdeathsigOutcome::Installed);
    assert_eq!(install_pdeathsig_kill(10, 0, 1), PdeathsigOutcome::ParentGone);
    assert_eq!(install_pdeathsig_kill(10, -1, 1), PdeathsigOutcome::Failed);
}

#[test]
fn an_allocator_is_found() {
    let env = |a: &str, i: &str| allocator_env(Ok(a.to_string()), Ok(i.to_string()));
    match env("tcp:1.2.3.4:5", "17") {
        Ok(e) => {
            assert_eq!(e.addr.display(), "tcp:1.2.3.4:5");
            assert_eq!(e.index, 17);
        }
        Err(_) => panic!("not found"),
    }
    assert!(matches!(env("nothing", "17"), Err(AllocatorEnvError::Addr(_))));
    assert!(matches!(env("local:1", "-1"), Err(AllocatorEnvError::Index(i)) if i == "-1"));
    assert!(matches!(
        allocator_env(Err("unset".to_string()), Ok("1".to_string())),
        Err(AllocatorEnvError::Read(e)) if e == "read `HYPERACTOR_MESH_BOOTSTRAP_ADDR`: unset"
    ));
    assert!(matches!(
        allocator_env(Ok("local:1".to_string()), Err("unset".to_string())),
        Err(AllocatorEnvError::Read(e)) if e == "read `HYPERACTOR_MESH_INDEX`: unset"
    ));
    assert_eq!(after_heartbeat(true), Heartbeat::Sleep { secs: 5 });
    assert_eq!(after_heartbeat(false), Heartbeat::Exit { code: 1 });
}

fn v0() -> V0Process {
    match allocator_env(Ok("tcp:1.2.3.4:5".to_string()), Ok("7".to_string())) {
        Ok(env) => V0Process::new(&env),
        Err(_) => panic!("not found"),
    }
}

fn listening_v0() -> V0Process {
    let p = v0();
    assert!(matches!(p.stage, V0Stage::Listen(ChannelTransport::Tcp)));
    let p = p.step(V0Answer::Listening(Ok(addr("tcp:9.9.9.9:9"))));
    assert!(matches!(p.stage, V0Stage::Dial { .. }));
    let p = p.step(V0Answer::Dialed(Ok(())));
    match &p.stage {
        V0Stage::Greet(Process2Allocator(7, Process2AllocatorMessage::Hello(a))) => {
            assert_eq!(a.display(), "tcp:9.9.9.9:9")
        }
        other => panic!("{:?}", other),
    }
    p.step(V0Answer::Greeted)
}

fn start(p: V0Process, name: &str) -> V0Process {
    let p = p.step(V0Answer::Heard(Ok(Allocator2Process::StartProc(direct(name), ChannelTransport::Unix))));
    assert!(matches!(p.stage, V0Stage::StartProc { .. }));
    let p = p.step(V0Answer::ProcStarted(Ok("agent".to_string())));
    let p = p.step(V0Answer::ProcServed(Ok(addr("unix:@p"))));
    assert!(matches!(
        &p.stage,
        V0Stage::Report { message: Process2Allocator(7, Process2AllocatorMessage::StartedProc(..)), .. }
    ));
    p.step(V0Answer::Reported(Ok(())))
}

#[test]
fn a_process_does_as_its_allocator_says() {
    let p = start(start(listening_v0(), "a"), "b");
    assert_eq!(p.procs.len(), 2);
    // A greeting that comes back late is nothing any more.
    let p = p.step(V0Answer::HelloReturned("hello".to_string()));
    assert!(matches!(p.stage, V0Stage::Await { greeting: false }));
    let p = p.step(V0Answer::Heard(Ok(Allocator2Process::StopAndExit(3))));
    assert!(matches!(p.stage, V0Stage::StopProc { at: 0, code: 3 }));
    let p = p.step(V0Answer::ProcStopped(Err("slow".to_string())));
    assert!(matches!(p.stage, V0Stage::StopProc { at: 1, code: 3 }));
    let p = p.step(V0Answer::ProcStopped(Ok(())));
    assert!(matches!(p.stage, V0Stage::Exit(3)));
    let p = p.step(V0Answer::Heard(Ok(Allocator2Process::Exit(4))));
    assert!(matches!(p.stage, V0Stage::Exit(3)));
}

#[test]
fn a_process_without_an_allocator_fails() {
    let p = listening_v0().step(V0Answer::HelloReturned("Hello".to_string()));
    assert!(matches!(p.stage, V0Stage::Failed(e) if e == "Hello message was not delivered:Hello"));
    let p = listening_v0().step(V0Answer::Heard(Err("closed".to_string())));
    assert!(matches!(p.stage, V0Stage::Failed(e) if e == "closed"));
    let p = listening_v0().step(V0Answer::Heard(Ok(Allocator2Process::StopAndExit(0))));
    assert!(matches!(p.stage, V0Stage::Exit(0)));
    let p = start(listening_v0(), "a").step(V0Answer::Heard(Ok(Allocator2Process::Exit(9))));
    assert!(matches!(p.stage, V0Stage::Exit(9)));
}

#[test]
fn logs() {
    let settings = LogSettings::default();
    assert_eq!(settings, LogSettings { enable_forwarding: true, enable_file_capture: false, tail_lines: 100 });
    let quiet = settings.with(&LogOverrides {
        enable_forwarding: Some(false),
        enable_file_capture: None,
        tail_lines: Some(0),
    });
    assert!(!quiet.want_stdio());
    let m = manager();
    let spawn = |logs: LogOverrides| {
        let config = BootstrapProcConfig { logs, ..config() };
        m.begin_spawn(direct("p"), addr("unix:@b"), addr("unix:@c"), config, &settings).0
    };
    let own = LogOverrides { enable_forwarding: None, enable_file_capture: None, tail_lines: None };
    let quiet = spawn(LogOverrides { enable_forwarding: Some(false), tail_lines: Some(0), ..own });
    let options = |spawn: &ProcSpawn| {
        match m.launch_options(spawn, Ok("payload".to_string()), "name".to_string(), any_addr_for_test()) {
            Ok(opts) => opts,
            Err(e) => panic!("{:?}", e),
        }
    };
    let opts = options(&quiet);
    assert!(!opts.want_stdio);
    assert!(opts.log_channel.is_none());
    let opts = options(&spawn(own));
    assert!(opts.want_stdio);
    assert_eq!(opts.tail_lines, 100);
    assert_eq!(opts.log_channel, Some(any_addr_for_test()));
    assert_eq!((opts.bootstrap_payload.as_str(), opts.process_name.as_str()), ("payload", "name"));
    assert_eq!(opts.command.program, "/bin/true");
    match m.launch_options(&quiet, Err("no JSON".to_string()), "name".to_string(), any_addr_for_test()) {
        Err(HostError::ProcessConfigurationFailure(id, e)) => {
            assert_eq!((id.display(), e), ("unix:@any,p".to_string(), "no JSON".to_string()))
        }
        _ => panic!("launched"),
    }
    let all = spawn(LogOverrides { enable_forwarding: Some(false), enable_file_capture: Some(true), tail_lines: Some(3) });
    assert!(!m.forward_plan(StdioHandling::Captured, &all).unwrap().to_file);
    let appending: BootstrapProcManager<u64, u64> =
        BootstrapProcManager::new(BootstrapCommand::from_program("x".to_string()), "/s".to_string(), true);
    let plan = appending.forward_plan(StdioHandling::Captured, &all).unwrap();
    assert!(plan.to_file && !plan.to_channel && plan.tail_lines == 3 && plan.create_rank == 6);
    assert!(appending.forward_plan(StdioHandling::Inherited, &all).is_none());
    assert!(appending.forward_plan(StdioHandling::ManagedByLauncher, &all).is_none());
}

/// Starts a proc of that name.
fn spawned(m: &mut BootstrapProcManager<u64, BootstrapProcHandle>, name: &str) {
    let (spawn, _) =
        m.begin_spawn(direct(name), addr("unix:@b"), addr("unix:@c"), config(), &LogSettings::default());
    let launch = LaunchResult { stdio: StdioHandling::Captured, started_at: at(5) };
    match m.spawn(spawn, Ok(launch)) {
        Ok((handle, plan)) => {
            assert!(plan.is_some());
            assert!(matches!(handle.status(), ProcStatus::Running { started_at } if *started_at == at(5)));
        }
        Err(e) => panic!("{:?}", e),
    }
}

#[test]
fn procs_are_kept_until_they_are_terminated() {
    let mut m = manager();
    let id = direct("p");
    spawned(&mut m, "p");
    assert_eq!(m.len(), 1);
    assert!(matches!(m.child_at(0).status(), ProcStatus::Running { .. }));
    assert!(m.child_mut(&id).unwrap().record_exit(None, Vec::new()));
    assert!(matches!(m.proc_status(&id), Some(ProcStatus::Failed { .. })));
    assert!(m.child_mut(&direct("q")).is_none());
    assert!(m.status(&id).is_some());
    assert!(m.terminate_proc(&id).is_ok());
    match m.terminate_proc(&id) {
        Err(e) => assert_eq!(e, "proc doesn't exist: unix:@any,p"),
        Ok(_) => panic!("terminated twice"),
    }
    assert_eq!(m.transport(), ChannelTransport::Unix);
    assert_eq!(m.socket_dir(), "/run/x");
    assert_eq!(m.command().program, "/bin/true");
    let (spawn, _) = m.begin_spawn(id, addr("unix:@b"), addr("unix:@c"), config(), &LogSettings::default());
    assert!(matches!(
        m.spawn(spawn, Err(ProcLauncherError::Launch("no file".to_string()))),
        Err(HostError::ProcessSpawnFailure(_, e)) if e == "no file"
    ));
    assert_eq!(m.len(), 0);
}

#[test]
fn the_end_of_a_process_is_recorded() {
    let exited = |code: i32, tail: Option<Vec<String>>| {
        Some(ProcExitResult { kind: ProcExitKind::Exited { code }, stderr_tail: tail })
    };
    let mut h = launched("p".to_string(), at(1));
    assert!(h.record_exit(exited(2, Some(vec!["launcher".to_string()])), vec!["captured".to_string()]));
    match h.status() {
        ProcStatus::Stopped { exit_code: 2, stderr_tail } => assert_eq!(*stderr_tail, vec!["captured".to_string()]),
        other => panic!("{:?}", other),
    }
    assert!(!h.record_exit(None, Vec::new()));
    let mut h = launched("p".to_string(), at(1));
    assert!(h.record_exit(exited(0, Some(vec!["launcher".to_string()])), Vec::new()));
    match h.status() {
        ProcStatus::Stopped { exit_code: 0, stderr_tail } => assert_eq!(*stderr_tail, vec!["launcher".to_string()]),
        other => panic!("{:?}", other),
    }
    let mut h = launched("p".to_string(), at(1));
    assert!(h.record_exit(None, Vec::new()));
    assert!(matches!(h.status(), ProcStatus::Failed { reason } if reason == "exit_rx sender dropped unexpectedly"));
    let mut h = launched("p".to_string(), at(1));
    let kind = ProcExitKind::Signaled { signal: 11, core_dumped: true };
    assert!(h.record_exit(Some(ProcExitResult { kind, stderr_tail: None }), Vec::new()));
    assert!(matches!(h.status(), ProcStatus::Killed { signal: 11, core_dumped: true }));
    let mut h = launched("p".to_string(), at(1));
    let kind = ProcExitKind::Failed { reason: "why".to_string() };
    assert!(h.record_exit(Some(ProcExitResult { kind, stderr_tail: None }), Vec::new()));
    assert!(matches!(h.status(), ProcStatus::Failed { reason } if reason == "why"));
}

#[test]
fn a_proc_reports_that_it_is_up() {
    let mut h = launched("p".to_string(), at(1));
    assert!(h.record_callback(Ok((addr("unix:@p"), "agent".to_string())), at(2)));
    assert_eq!(h.addr().unwrap().display(), "unix:@p");
    assert_eq!(h.agent_ref().unwrap(), "agent");
    let mut h = launched("p".to_string(), at(1));
    assert!(h.record_callback(Err("closed".to_string()), at(2)));
    assert!(matches!(h.status(), ProcStatus::Failed { reason } if reason == "bootstrap callback failed: closed"));
    assert!(h.addr().is_none());
}

#[test]
fn terminating_all() {
    let mut m = manager();
    for name in ["a", "b", "c", "d"] {
        spawned(&mut m, name);
    }
    let timeout = Span { secs: 10, nanos: 0 };
    let mut t = m.terminate_all(timeout, 2, "shutdown host".to_string());
    assert_eq!(t.timeout(), timeout);
    assert_eq!(t.reason(), "shutdown host");
    assert_eq!(t.next(), Some(0));
    assert_eq!(t.next(), Some(1));
    // Two at a time, and no more.
    assert_eq!(t.next(), None);
    assert_eq!(t.id(1), "unix:@any,b");
    t.on_result(1, Err(TerminateError::Io("x".to_string())));
    t.on_result(1, Ok(()));
    t.on_result(3, Ok(()));
    // What failed stops nothing.
    assert_eq!(t.next(), Some(2));
    assert_eq!(t.next(), None);
    t.on_result(0, Ok(()));
    t.on_result(2, Err(TerminateError::AlreadyTerminated(ProcStatus::Killed { signal: 9, core_dumped: false })));
    assert!(t.finish().is_none());
    assert_eq!(t.next(), Some(3));
    assert_eq!(t.next(), None);
    t.on_result(3, Err(TerminateError::ChannelClosed));
    let s = t.finish().unwrap();
    assert_eq!((s.attempted, s.ok, s.failed), (4, 2, 2));
    assert_eq!(m.len(), 4);
    let mut one = m.terminate_all(timeout, 0, String::new());
    assert_eq!((one.next(), one.next()), (Some(0), None));
    let none = manager().terminate_all(timeout, 3, String::new()).finish().unwrap();
    assert_eq!((none.attempted, none.ok, none.failed), (0, 0, 0));
}

#[test]
fn launchers_that_are_not_known() {
    match LauncherKind::from_str("a\"b") {
        Err(e) => assert_eq!(
            e.text(),
            "unknown proc launcher kind \"a\\\"b\"; expected 'native' or 'systemd'"
        ),
        Ok(_) => panic!("known"),
    }
}

#[test]
fn what_reads_the_output_is_given_out_once() {
    let mut m = StreamMonitors::new();
    assert_eq!(m.take_stream_monitors(), (None, None));
    m.set_stream_monitors(Some(1), Some(2));
    assert_eq!(m.take_stream_monitors(), (Some(1), Some(2)));
    assert_eq!(m.take_stream_monitors(), (None, None));
}

#[test]
fn what_a_process_says_of_itself() {
    let env = vec![("A".to_string(), "1".to_string()), ("B".to_string(), String::new())];
    assert_eq!(
        boot_report(7, Some(1), "{}", Ok("/bin/x".to_string()), &vec!["x".to_string(), "-v".to_string()], &env),
        "bootstrapping 7:\n\tparent pid: 1\n\tconfig: {}\n\tcurrent_exe: /bin/x\n\targs:\n\t\tx\n\t\t-v\n\tenv:\n\t\tA=1\n\t\tB=\n"
    );
    assert_eq!(
        boot_report(7, None, "c", Err("gone".to_string()), &Vec::new(), &Vec::new()),
        "bootstrapping 7:\n\tconfig: c\n\tcurrent_exe: error<gone>\n\targs:\n\tenv:\n"
    );
}

#[test]
fn the_state_of_a_proc_that_is_kept() {
    let mut m = manager();
    assert!(m.proc_status(&direct("a")).is_none());
    m.keep(&direct("a"), launched(direct("a").display(), at(3)));
    assert!(matches!(m.proc_status(&direct("a")), Some(ProcStatus::Running { started_at }) if *started_at == at(3)));
    assert!(m.proc_status(&direct("b")).is_none());
}
