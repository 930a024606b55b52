//! Starting the procs of a host, and knowing what became of them.

use crate::channel::addr::{ChannelAddr, ChannelTransport};
use crate::mesh::bootstrap::{proc_id_text, Bootstrap, BootstrapCommand, ProcId};
use crate::mesh::resource::Span;
use crate::mesh::status::{ended_after, ready_after, BootstrapProcHandle, ProcStatus, TerminateError, Timestamp};
use crate::name_map::NameMap;
use crate::text::texts;
use vstd::prelude::*;

verus! {

/// How many processes are terminated at a time, unless it is set otherwise.
pub const MESH_TERMINATE_CONCURRENCY: usize = 16;

/// How long a process that was asked to stop is given, in seconds, unless it is
/// set otherwise.
pub const MESH_TERMINATE_TIMEOUT_SECS: u64 = 10;

/// Whether a process is killed when its parent dies, unless it is set otherwise.
pub const MESH_BOOTSTRAP_ENABLE_PDEATHSIG: bool = true;

/// How the output of the procs is treated.
#[derive(Debug, Clone, Copy, PartialEq, Eq, Structural)]
pub struct LogSettings {
    /// Whether it is forwarded over a channel.
    pub enable_forwarding: bool,
    /// Whether it is written to files.
    pub enable_file_capture: bool,
    /// How many of the last lines are kept.
    pub tail_lines: usize,
}

impl Default for LogSettings {
    fn default() -> (s: LogSettings)
        ensures
            s.enable_forwarding,
            !s.enable_file_capture,
            s.tail_lines == 100,
    {
        LogSettings { enable_forwarding: true, enable_file_capture: false, tail_lines: 100 }
    }
}

/// What one proc has other than the rest.
#[derive(Debug, Clone, Copy, PartialEq, Eq, Structural)]
pub struct LogOverrides {
    pub enable_forwarding: Option<bool>,
    pub enable_file_capture: Option<bool>,
    pub tail_lines: Option<usize>,
}

/// The value of a setting: what one proc has, or else what all have.
pub open spec fn override_or<T>(own: Option<T>, global: T) -> T {
    match own {
        Some(v) => v,
        None => global,
    }
}

/// How a proc is to be started.
#[derive(Debug)]
pub struct BootstrapProcConfig {
    /// The rank of the proc in its mesh.
    pub create_rank: usize,
    /// What the client overrides for the proc, as text.
    pub client_config_override: String,
    /// What of that is about its output.
    pub logs: LogOverrides,
}

/// The settings for one proc.
pub open spec fn log_settings(global: LogSettings, own: LogOverrides) -> LogSettings {
    LogSettings {
        enable_forwarding: override_or(own.enable_forwarding, global.enable_forwarding),
        enable_file_capture: override_or(own.enable_file_capture, global.enable_file_capture),
        tail_lines: override_or(own.tail_lines, global.tail_lines),
    }
}

impl LogSettings {
    /// The settings for one proc.
    pub fn with(&self, overrides: &LogOverrides) -> (s: LogSettings)
        ensures
            s == log_settings(*self, *overrides),
    {
        LogSettings {
            enable_forwarding: match overrides.enable_forwarding {
                Some(v) => v,
                None => self.enable_forwarding,
            },
            enable_file_capture: match overrides.enable_file_capture {
                Some(v) => v,
                None => self.enable_file_capture,
            },
            tail_lines: match overrides.tail_lines {
                Some(v) => v,
                None => self.tail_lines,
            },
        }
    }

    /// Whether the output has to be captured for any of it.
    pub fn want_stdio(&self) -> (r: bool)
        ensures
            r == wants_output(*self),
    {
        self.enable_forwarding || self.enable_file_capture || self.tail_lines > 0
    }
}

/// Whether anything is done with the output of a proc.
pub open spec fn wants_output(logs: LogSettings) -> bool {
    logs.enable_forwarding || logs.enable_file_capture || logs.tail_lines > 0
}

/// The output of a proc is captured exactly where something is done with it.
pub proof fn output_is_captured_where_it_is_used(logs: LogSettings)
    ensures
        logs.enable_forwarding ==> wants_output(logs),
        logs.enable_file_capture ==> wants_output(logs),
        logs.tail_lines > 0 ==> wants_output(logs),
        !logs.enable_forwarding && !logs.enable_file_capture && logs.tail_lines == 0 ==> !wants_output(logs),
{
}

/// What a launcher is told.
pub struct LaunchOptions<'a> {
    /// How the process is to come up, as it is put into its environment.
    pub bootstrap_payload: String,
    pub process_name: String,
    /// The command that starts the process.
    pub command: &'a BootstrapCommand,
    /// Whether the output is to be captured.
    pub want_stdio: bool,
    /// How many of the last lines are kept.
    pub tail_lines: usize,
    /// Where the output is forwarded to, if it is.
    pub log_channel: Option<ChannelAddr>,
}

/// Who has the output of a process.
#[derive(Debug, Clone, Copy, PartialEq, Eq, Structural)]
pub enum StdioHandling {
    /// It can be read by whoever launched the process.
    Captured,
    /// It goes where that of this process goes.
    Inherited,
    /// The launcher has it.
    ManagedByLauncher,
}

/// How a process came to its end.
#[derive(Debug)]
pub enum ProcExitKind {
    Exited { code: i32 },
    Signaled { signal: i32, core_dumped: bool },
    /// It could not be launched or watched.
    Failed { reason: String },
}

/// What a launcher says of the end of a process.
#[derive(Debug)]
pub struct ProcExitResult {
    pub kind: ProcExitKind,
    /// The last lines of its errors, if the launcher has them.
    pub stderr_tail: Option<Vec<String>>,
}

/// What is known of the last lines of a process's errors: those that were
/// captured, or else those that the launcher has.
pub open spec fn last_lines(captured: Seq<String>, reported: Option<Vec<String>>) -> Seq<String> {
    if captured.len() > 0 {
        captured
    } else {
        match reported {
            Some(lines) => lines@,
            None => Seq::empty(),
        }
    }
}

/// Whether a status says of a proc how its process came to its end; there is no
/// result where the launcher went away without one.
pub open spec fn says_how(st: ProcStatus, result: Option<ProcExitResult>, captured: Seq<String>) -> bool {
    match result {
        None => st matches ProcStatus::Failed { reason } && reason@ == "exit_rx sender dropped unexpectedly"@,
        Some(result) => match result.kind {
            ProcExitKind::Exited { code } => st matches ProcStatus::Stopped { exit_code, stderr_tail } && exit_code
                == code && stderr_tail@ == last_lines(captured, result.stderr_tail),
            ProcExitKind::Signaled { signal, core_dumped } => st == (ProcStatus::Killed { signal, core_dumped }),
            ProcExitKind::Failed { reason } => st == (ProcStatus::Failed { reason }),
        },
    }
}

impl BootstrapProcHandle {
    /// Whether a handle has taken a status that ends it. One that has come to
    /// its end is left as it is.
    pub open spec fn ended_as(self, after: BootstrapProcHandle, st: ProcStatus) -> bool {
        self.changed_to(after, ended_after(self.now(), st))
    }

    /// Records how the process came to its end; `captured` are the last lines
    /// of its errors that were captured.
    pub fn record_exit(&mut self, result: Option<ProcExitResult>, captured: Vec<String>) -> (changed: bool)
        requires
            old(self).wf(),
        ensures
            final(self).wf(),
            changed == !old(self).now().exited(),
            changed ==> says_how(final(self).now(), result, captured@) && old(self).ended_as(
                *final(self),
                final(self).now(),
            ),
            !changed ==> *final(self) == *old(self),
    {
        if self.status().is_exit() {
            return false;
        }
        let result: ProcExitResult = match result {
            Some(result) => result,
            None => {
                return self.mark_failed("exit_rx sender dropped unexpectedly".to_owned());
            },
        };
        match result.kind {
            ProcExitKind::Exited { code } => {
                let tail: Vec<String> = if captured.len() > 0 {
                    captured
                } else {
                    match result.stderr_tail {
                        Some(lines) => lines,
                        None => Vec::new(),
                    }
                };
                self.mark_stopped(code, tail)
            },
            ProcExitKind::Signaled { signal, core_dumped } => self.mark_killed(signal, core_dumped),
            ProcExitKind::Failed { reason } => self.mark_failed(reason),
        }
    }

    /// Records what a proc reported when it came up: its address and its agent,
    /// or why nothing was heard of it.
    pub fn record_callback(&mut self, callback: Result<(ChannelAddr, String), String>, now: Timestamp) -> (changed: bool)
        requires
            old(self).wf(),
        ensures
            final(self).wf(),
            match callback {
                Ok((addr, agent)) => {
                    &&& changed == (ready_after(old(self).now(), addr, agent, now) is Some)
                    &&& old(self).changed_to(*final(self), ready_after(old(self).now(), addr, agent, now))
                },
                Err(e) => {
                    &&& changed == !old(self).now().exited()
                    &&& old(self).ended_as(*final(self), final(self).now())
                    &&& changed ==> (final(self).now() matches ProcStatus::Failed { reason } && reason@
                        == "bootstrap callback failed: "@ + e@)
                },
            },
    {
        match callback {
            Ok((addr, agent)) => self.mark_ready(addr, agent, now),
            Err(e) => {
                let mut reason: String = "bootstrap callback failed: ".to_owned();
                reason.append(e.as_str());
                self.mark_failed(reason)
            },
        }
    }
}

/// What is done with the output of a process.
#[derive(Debug, Clone, Copy, PartialEq, Eq, Structural)]
pub struct ForwardPlan {
    /// Whether it is written to files too.
    pub to_file: bool,
    /// How many of the last lines are kept.
    pub tail_lines: usize,
    /// Whether it is sent over the log channel.
    pub to_channel: bool,
    /// The rank of the proc that it is of.
    pub create_rank: usize,
}

/// How the process of a proc is to come up.
pub open spec fn proc_mode(
    proc_id: ProcId,
    backend_addr: ChannelAddr,
    callback_addr: ChannelAddr,
    socket_dir: String,
    config: BootstrapProcConfig,
) -> Bootstrap {
    Bootstrap::Proc {
        proc_id,
        backend_addr,
        callback_addr,
        socket_dir_path: socket_dir,
        config: Some(config.client_config_override),
    }
}

/// The process of a proc comes up as that proc: its messages go to the backend,
/// it reports where it is told to, its socket lies in the directory of its host,
/// and what the client overrides is what is installed in it.
pub proof fn procs_are_told_who_they_are(
    proc_id: ProcId,
    backend_addr: ChannelAddr,
    callback_addr: ChannelAddr,
    socket_dir: String,
    config: BootstrapProcConfig,
)
    ensures
        proc_mode(proc_id, backend_addr, callback_addr, socket_dir, config) matches Bootstrap::Proc {
            proc_id: id,
            backend_addr: backend,
            callback_addr: callback,
            socket_dir_path,
            config: held,
        } && id == proc_id && backend == backend_addr && callback == callback_addr && socket_dir_path == socket_dir
            && held == Some(config.client_config_override),
{
}

/// The log channel of a process.
pub open spec fn channel_for(logs: LogSettings, log_channel: ChannelAddr) -> Option<ChannelAddr> {
    if logs.enable_forwarding {
        Some(log_channel)
    } else {
        None
    }
}

/// A process has a log channel, the one that was made for it, exactly where its
/// output is forwarded.
pub proof fn only_forwarded_output_has_a_channel(logs: LogSettings, log_channel: ChannelAddr)
    ensures
        channel_for(logs, log_channel) is Some <==> logs.enable_forwarding,
        channel_for(logs, log_channel) matches Some(addr) ==> addr == log_channel,
{
}

/// A proc on its way to being started.
#[derive(Debug)]
pub struct ProcSpawn {
    proc_id: ProcId,
    create_rank: usize,
    logs: LogSettings,
}

impl ProcSpawn {
    /// The identity of the proc.
    pub closed spec fn proc(self) -> ProcId {
        self.proc_id
    }

    /// The rank of the proc in its mesh.
    pub closed spec fn rank(self) -> usize {
        self.create_rank
    }

    /// How its output is treated.
    pub closed spec fn log_settings(self) -> LogSettings {
        self.logs
    }
}

/// Why a launcher was not taken.
#[derive(Debug, Clone, Copy, PartialEq, Eq, Structural)]
pub struct AlreadyInitialized;

impl AlreadyInitialized {
    /// The error, written for a reader.
    pub fn text(&self) -> (s: String)
        ensures
            s@ == "launcher already initialized; call set_proc_launcher before first spawn"@,
    {
        "launcher already initialized; call set_proc_launcher before first spawn".to_owned()
    }
}

/// How the procs of a host are started, and which there are. `L` is a launcher,
/// `H` what is kept of a proc.
pub struct BootstrapProcManager<L, H> {
    launcher: Option<L>,
    command: BootstrapCommand,
    children: NameMap<H>,
    socket_dir: String,
    has_file_appender: bool,
}

impl<L, H> BootstrapProcManager<L, H> {
    /// The launcher, once there is one.
    pub closed spec fn the_launcher(self) -> Option<L> {
        self.launcher
    }

    /// What is kept of the procs, by the text of their identities.
    pub closed spec fn procs(self) -> Map<Seq<char>, H> {
        self.children@
    }

    /// The texts of the identities of the procs, in the order in which they were
    /// first kept.
    pub closed spec fn proc_ids(self) -> Seq<Seq<char>> {
        self.children.names()
    }

    /// Each proc has one place in that order.
    pub proof fn each_proc_has_one_place(self)
        requires
            self.wf(),
        ensures
            self.proc_ids().no_duplicates(),
            forall|id: Seq<char>| self.procs().dom().contains(id) <==> self.proc_ids().contains(id),
            self.proc_ids().to_set() == self.procs().dom(),
            self.procs().dom().finite(),
            self.proc_ids().len() == self.procs().dom().len(),
    {
        self.children.lemma_names();
        self.children.lemma_finite();
        assert(self.proc_ids().to_set() =~= self.procs().dom());
    }

    /// The command for new processes.
    pub closed spec fn the_command(self) -> BootstrapCommand {
        self.command
    }

    /// The directory for sockets.
    pub closed spec fn sockets(self) -> String {
        self.socket_dir
    }

    /// Whether there is something to write output to files.
    pub closed spec fn appends(self) -> bool {
        self.has_file_appender
    }

    pub closed spec fn wf(self) -> bool {
        self.children.wf()
    }

    /// Everything but the launcher and the procs.
    pub open spec fn same_settings(self, other: Self) -> bool {
        self.the_command() == other.the_command() && self.sockets() == other.sockets() && self.appends()
            == other.appends()
    }

    /// A manager without procs, which has chosen no launcher yet.
    pub fn new(command: BootstrapCommand, socket_dir: String, has_file_appender: bool) -> (m: Self)
        ensures
            m.wf(),
            m.the_launcher() is None,
            m.procs() == Map::<Seq<char>, H>::empty(),
            m.the_command() == command,
            m.sockets() == socket_dir,
            m.appends() == has_file_appender,
    {
        BootstrapProcManager { launcher: None, command, children: NameMap::new(), socket_dir, has_file_appender }
    }

    /// Takes a launcher, unless there is one.
    pub fn set_launcher(&mut self, launcher: L) -> (r: Result<(), AlreadyInitialized>)
        requires
            old(self).wf(),
        ensures
            final(self).wf(),
            r is Ok <==> old(self).the_launcher() is None,
            final(self).the_launcher() == launcher_after(old(self).the_launcher(), launcher),
            final(self).procs() == old(self).procs(),
            final(self).same_settings(*old(self)),
    {
        match &self.launcher {
            Some(_) => Err(AlreadyInitialized),
            None => {
                self.launcher = Some(launcher);
                Ok(())
            },
        }
    }

    /// The launcher. Where there is none, `default` is taken for good.
    pub fn launcher(&mut self, default: L) -> (r: &L)
        requires
            old(self).wf(),
        ensures
            final(self).wf(),
            final(self).the_launcher() == launcher_after(old(self).the_launcher(), default),
            final(self).the_launcher() == Some(*r),
            final(self).procs() == old(self).procs(),
            final(self).same_settings(*old(self)),
    {
        if self.launcher.is_none() {
            self.launcher = Some(default);
        }
        match &self.launcher {
            Some(l) => l,
            None => {
                proof {
                    assert(false);
                }
                vstd::pervasive::unreached()
            },
        }
    }

    /// The launcher, where one was chosen.
    pub fn chosen_launcher(&self) -> (r: Option<&L>)
        ensures
            match r {
                Some(l) => self.the_launcher() == Some(*l),
                None => self.the_launcher() is None,
            },
    {
        self.launcher.as_ref()
    }

    /// The command for new processes.
    pub fn command(&self) -> (r: &BootstrapCommand)
        ensures
            *r == self.the_command(),
    {
        &self.command
    }

    /// The directory in which the procs place their sockets.
    pub fn socket_dir(&self) -> (r: &String)
        ensures
            *r == self.sockets(),
    {
        &self.socket_dir
    }

    /// How the procs of this host are reached.
    pub fn transport(&self) -> (t: ChannelTransport)
        ensures
            t == ChannelTransport::Unix,
    {
        ChannelTransport::Unix
    }

    /// What is kept of a proc; nothing where it is not known here.
    pub fn status(&self, proc_id: &ProcId) -> (r: Option<&H>)
        requires
            self.wf(),
        ensures
            match r {
                Some(h) => self.procs().dom().contains(proc_id_text(*proc_id)) && *h == self.procs()[proc_id_text(
                    *proc_id,
                )],
                None => !self.procs().dom().contains(proc_id_text(*proc_id)),
            },
    {
        self.children.get(proc_id.display().as_str())
    }

    /// Begins to start a proc. What it is told is written as text next: where
    /// to find the others, the directory for sockets of this host, and what the
    /// client overrides for it.
    pub fn begin_spawn(
        &self,
        proc_id: ProcId,
        backend_addr: ChannelAddr,
        callback_addr: ChannelAddr,
        config: BootstrapProcConfig,
        settings: &LogSettings,
    ) -> (r: (ProcSpawn, Bootstrap))
        ensures
            r.0.proc() == proc_id,
            r.0.rank() == config.create_rank,
            r.0.log_settings() == log_settings(*settings, config.logs),
            r.1 == proc_mode(proc_id, backend_addr, callback_addr, self.sockets(), config),
    {
        let logs: LogSettings = settings.with(&config.logs);
        (
            ProcSpawn { proc_id: proc_id.clone(), create_rank: config.create_rank, logs },
            Bootstrap::Proc {
                proc_id,
                backend_addr,
                callback_addr,
                socket_dir_path: self.socket_dir.clone(),
                config: Some(config.client_config_override),
            },
        )
    }

    /// What the launcher is told, where what the proc is told could be written.
    /// The output is captured where anything is done with it, and a log channel
    /// is there only where it is forwarded.
    pub fn launch_options(
        &self,
        spawn: &ProcSpawn,
        bootstrap_payload: Result<String, String>,
        process_name: String,
        log_channel: ChannelAddr,
    ) -> (r: Result<LaunchOptions<'_>, HostError>)
        ensures
            match bootstrap_payload {
                Ok(payload) => {
                    let logs = spawn.log_settings();
                    &&& r matches Ok(opts)
                    &&& opts.bootstrap_payload == payload
                    &&& opts.process_name == process_name
                    &&& *opts.command == self.the_command()
                    &&& opts.want_stdio == wants_output(logs)
                    &&& opts.tail_lines == logs.tail_lines
                    &&& opts.log_channel == channel_for(logs, log_channel)
                },
                Err(e) => r matches Err(HostError::ProcessConfigurationFailure(id, why)) && id == spawn.proc() && why == e,
            },
    {
        let bootstrap_payload: String = match bootstrap_payload {
            Ok(payload) => payload,
            Err(e) => {
                return Err(HostError::ProcessConfigurationFailure(spawn.proc_id.clone(), e));
            },
        };
        Ok(
            LaunchOptions {
                bootstrap_payload,
                process_name,
                command: &self.command,
                want_stdio: spawn.logs.want_stdio(),
                tail_lines: spawn.logs.tail_lines,
                log_channel: if spawn.logs.enable_forwarding {
                    Some(log_channel)
                } else {
                    None
                },
            },
        )
    }

    /// What is done with the output of a new process.
    pub open spec fn plan_for(self, stdio: StdioHandling, spawn: ProcSpawn) -> Option<ForwardPlan> {
        if stdio is Captured {
            Some(
                ForwardPlan {
                    to_file: spawn.log_settings().enable_file_capture && self.appends(),
                    tail_lines: spawn.log_settings().tail_lines,
                    to_channel: spawn.log_settings().enable_forwarding,
                    create_rank: spawn.rank(),
                },
            )
        } else {
            None
        }
    }

    /// What is done with the output of a new process; nothing where it cannot
    /// be read here.
    pub fn forward_plan(&self, stdio: StdioHandling, spawn: &ProcSpawn) -> (plan: Option<ForwardPlan>)
        ensures
            plan == self.plan_for(stdio, *spawn),
    {
        match stdio {
            StdioHandling::Captured => Some(
                ForwardPlan {
                    to_file: spawn.logs.enable_file_capture && self.has_file_appender,
                    tail_lines: spawn.logs.tail_lines,
                    to_channel: spawn.logs.enable_forwarding,
                    create_rank: spawn.create_rank,
                },
            ),
            _ => None,
        }
    }

    /// Keeps a proc. One of the same identity is kept no longer.
    pub fn keep(&mut self, proc_id: &ProcId, handle: H)
        requires
            old(self).wf(),
        ensures
            final(self).wf(),
            final(self).procs() == old(self).procs().insert(proc_id_text(*proc_id), handle),
            final(self).proc_ids() == ids_with(*old(self), proc_id_text(*proc_id)),
            final(self).the_launcher() == old(self).the_launcher(),
            final(self).same_settings(*old(self)),
    {
        let _ = self.children.insert(proc_id.display(), handle);
    }

    /// Begins to terminate one proc: it is kept no longer, and what was kept of
    /// it is given back.
    pub fn terminate_proc(&mut self, proc_id: &ProcId) -> (r: Result<H, String>)
        requires
            old(self).wf(),
        ensures
            final(self).wf(),
            final(self).procs() == old(self).procs().remove(proc_id_text(*proc_id)),
            final(self).the_launcher() == old(self).the_launcher(),
            final(self).same_settings(*old(self)),
            match r {
                Ok(h) => old(self).procs().dom().contains(proc_id_text(*proc_id)) && h
                    == old(self).procs()[proc_id_text(*proc_id)],
                Err(e) => !old(self).procs().dom().contains(proc_id_text(*proc_id)) && e@ == "proc doesn't exist: "@
                    + proc_id_text(*proc_id),
            },
    {
        let id: String = proc_id.display();
        match self.children.remove(id.as_str()) {
            Some(h) => Ok(h),
            None => {
                let mut e: String = "proc doesn't exist: ".to_owned();
                e.append(id.as_str());
                Err(e)
            },
        }
    }

    /// How many procs are kept.
    pub fn len(&self) -> (n: usize)
        requires
            self.wf(),
        ensures
            n == self.procs().dom().len(),
            n == self.proc_ids().len(),
    {
        self.children.len()
    }

    /// What is kept of the proc at a place, in the order in which they were
    /// first kept.
    pub fn child_at(&self, i: usize) -> (h: &H)
        requires
            self.wf(),
            i < self.proc_ids().len(),
        ensures
            *h == self.procs()[self.proc_ids()[i as int]],
            self.procs().dom().contains(self.proc_ids()[i as int]),
    {
        self.children.value_at(i)
    }

    /// What is kept of a proc, to be changed; nothing where it is not known here.
    pub fn child_mut(&mut self, proc_id: &ProcId) -> (r: Option<&mut H>)
        requires
            old(self).wf(),
        ensures
            match r {
                Some(h) => {
                    &&& old(self).procs().dom().contains(proc_id_text(*proc_id))
                    &&& *h == old(self).procs()[proc_id_text(*proc_id)]
                    &&& final(self).procs() == old(self).procs().insert(proc_id_text(*proc_id), *final(h))
                },
                None => !old(self).procs().dom().contains(proc_id_text(*proc_id)) && final(self).procs()
                    == old(self).procs(),
            },
            final(self).wf(),
            final(self).proc_ids() == old(self).proc_ids(),
            final(self).the_launcher() == old(self).the_launcher(),
            final(self).same_settings(*old(self)),
    {
        self.children.get_mut(proc_id.display().as_str())
    }
}

/// The identities once a proc is kept.
pub open spec fn ids_with<L, H>(m: BootstrapProcManager<L, H>, id: Seq<char>) -> Seq<Seq<char>> {
    if m.procs().dom().contains(id) {
        m.proc_ids()
    } else {
        m.proc_ids().push(id)
    }
}

/// Why a launcher did not launch.
#[derive(Debug)]
pub enum ProcLauncherError {
    /// The process could not be started.
    Launch(String),
    /// Something else went wrong.
    Other(String),
}

/// Why a proc was not started.
#[derive(Debug)]
pub enum HostError {
    /// What the process is to be told cannot be written.
    ProcessConfigurationFailure(ProcId, String),
    /// The process was not launched.
    ProcessSpawnFailure(ProcId, String),
}

/// What a launcher says of a process that it launched.
#[derive(Debug, Clone, Copy, PartialEq, Eq, Structural)]
pub struct LaunchResult {
    pub stdio: StdioHandling,
    pub started_at: Timestamp,
}

/// The handle of a process that runs since then.
pub open spec fn runs_since(h: BootstrapProcHandle, id: Seq<char>, started_at: Timestamp) -> bool {
    &&& h.wf()
    &&& h.id() == id
    &&& h.now() == (ProcStatus::Running { started_at })
}

/// What a launcher says of a process that it did not launch.
pub open spec fn launch_failure(e: ProcLauncherError) -> String {
    match e {
        ProcLauncherError::Launch(why) => why,
        ProcLauncherError::Other(why) => why,
    }
}

impl<L> BootstrapProcManager<L, BootstrapProcHandle> {
    /// Ends starting a proc, once a launcher was told to launch its process:
    /// the proc is kept with a handle that runs, and it is said what is done
    /// with its output. Where nothing was launched, nothing is kept.
    pub fn spawn(&mut self, spawn: ProcSpawn, launch: Result<LaunchResult, ProcLauncherError>) -> (r: Result<
        (&BootstrapProcHandle, Option<ForwardPlan>),
        HostError,
    >)
        requires
            old(self).wf(),
        ensures
            final(self).wf(),
            final(self).the_launcher() == old(self).the_launcher(),
            final(self).same_settings(*old(self)),
            match launch {
                Ok(result) => {
                    let id = proc_id_text(spawn.proc());
                    &&& r matches Ok((h, plan))
                    &&& runs_since(*h, id, result.started_at)
                    &&& plan == old(self).plan_for(result.stdio, spawn)
                    &&& final(self).procs() == old(self).procs().insert(id, *h)
                    &&& final(self).proc_ids() == ids_with(*old(self), id)
                },
                Err(e) => {
                    &&& r matches Err(HostError::ProcessSpawnFailure(id, why))
                    &&& id == spawn.proc()
                    &&& why == launch_failure(e)
                    &&& final(self).procs() == old(self).procs()
                    &&& final(self).proc_ids() == old(self).proc_ids()
                },
            },
    {
        let result: LaunchResult = match launch {
            Ok(result) => result,
            Err(ProcLauncherError::Launch(e)) => {
                return Err(HostError::ProcessSpawnFailure(spawn.proc_id, e));
            },
            Err(ProcLauncherError::Other(e)) => {
                return Err(HostError::ProcessSpawnFailure(spawn.proc_id, e));
            },
        };
        let plan: Option<ForwardPlan> = self.forward_plan(result.stdio, &spawn);
        let id: String = spawn.proc_id.display();
        self.keep(&spawn.proc_id, launched(id, result.started_at));
        match self.status(&spawn.proc_id) {
            Some(h) => Ok((h, plan)),
            None => {
                proof {
                    assert(false);
                }
                vstd::pervasive::unreached()
            },
        }
    }

    /// The state that a proc is in; nothing where it is not known here.
    pub fn proc_status(&self, proc_id: &ProcId) -> (r: Option<&ProcStatus>)
        requires
            self.wf(),
        ensures
            match r {
                Some(st) => self.procs().dom().contains(proc_id_text(*proc_id)) && *st == self.procs()[proc_id_text(
                    *proc_id,
                )].now(),
                None => !self.procs().dom().contains(proc_id_text(*proc_id)),
            },
    {
        match self.status(proc_id) {
            Some(handle) => Some(handle.status()),
            None => None,
        }
    }
}

/// The handle of a process that was launched: it runs.
pub fn launched(proc_id: String, started_at: Timestamp) -> (h: BootstrapProcHandle)
    ensures
        runs_since(h, proc_id@, started_at),
{
    let mut h: BootstrapProcHandle = BootstrapProcHandle::new(proc_id);
    let _ = h.mark_running(started_at);
    h
}

/// The launcher after one was offered, to be taken or as the default: the one
/// that was chosen before stays.
pub open spec fn launcher_after<L>(chosen: Option<L>, offered: L) -> Option<L> {
    match chosen {
        Some(l) => Some(l),
        None => Some(offered),
    }
}

/// The launcher after several were offered, one after the other.
pub open spec fn launcher_after_all<L>(chosen: Option<L>, offers: Seq<L>) -> Option<L>
    decreases offers.len(),
{
    if offers.len() == 0 {
        chosen
    } else {
        launcher_after(launcher_after_all(chosen, offers.drop_last()), offers.last())
    }
}

/// A launcher is chosen once: however many are offered, the one that was chosen
/// before stays; where none was, it is the first.
pub proof fn launcher_is_chosen_once<L>(chosen: Option<L>, offers: Seq<L>)
    ensures
        chosen is Some ==> launcher_after_all(chosen, offers) == chosen,
        chosen is None && offers.len() > 0 ==> launcher_after_all(chosen, offers) == Some(offers[0]),
    decreases offers.len(),
{
    if offers.len() > 0 {
        launcher_is_chosen_once(chosen, offers.drop_last());
    }
}

/// What came of terminating several procs.
#[derive(Debug, Clone, Copy, PartialEq, Eq, Structural)]
pub struct TerminateSummary {
    pub attempted: usize,
    pub ok: usize,
    pub failed: usize,
}

/// Whether a proc counts as terminated: one that had come to its end before does.
pub open spec fn counts_as_ok(r: Result<(), TerminateError>) -> bool {
    r is Ok || (r matches Err(TerminateError::AlreadyTerminated(_)))
}

/// How many procs count as terminated.
pub open spec fn ok_count(results: Seq<Result<(), TerminateError>>) -> nat
    decreases results.len(),
{
    if results.len() == 0 {
        0
    } else {
        ok_count(results.drop_last()) + if counts_as_ok(results.last()) {
            1nat
        } else {
            0nat
        }
    }
}

/// The most procs that are terminated at a time.
pub open spec fn width_for(max_in_flight: usize) -> usize {
    if max_in_flight == 0 {
        1
    } else {
        max_in_flight
    }
}

/// As many procs are terminated at a time as was asked for, and at least one, so
/// that all are in the end.
pub proof fn at_least_one_proc_is_terminated_at_a_time(max_in_flight: usize)
    ensures
        width_for(max_in_flight) >= 1,
        max_in_flight >= 1 ==> width_for(max_in_flight) == max_in_flight,
        width_for(0) == 1,
{
}

/// The most procs that are terminated at a time: at least one.
fn terminate_width(max_in_flight: usize) -> (n: usize)
    ensures
        n == width_for(max_in_flight),
{
    if max_in_flight == 0 {
        1
    } else {
        max_in_flight
    }
}

/// How many procs gave a result.
pub open spec fn answered(results: Seq<Option<Result<(), TerminateError>>>) -> nat
    decreases results.len(),
{
    if results.len() == 0 {
        0
    } else {
        answered(results.drop_last()) + if results.last() is Some {
            1nat
        } else {
            0nat
        }
    }
}

proof fn lemma_answered(results: Seq<Option<Result<(), TerminateError>>>)
    ensures
        answered(results) <= results.len(),
        answered(results) == results.len() <==> (forall|i: int|
            0 <= i < results.len() ==> #[trigger] results[i] is Some),
    decreases results.len(),
{
    if results.len() > 0 {
        let rest = results.drop_last();
        lemma_answered(rest);
        if answered(results) == results.len() {
            assert forall|i: int| 0 <= i < results.len() implies #[trigger] results[i] is Some by {
                if i < rest.len() {
                    assert(rest[i] is Some);
                }
            }
        }
        if forall|i: int| 0 <= i < results.len() ==> #[trigger] results[i] is Some {
            assert forall|i: int| 0 <= i < rest.len() implies #[trigger] rest[i] is Some by {
                assert(results[i] is Some);
            }
            assert(results[results.len() - 1] is Some);
        }
    }
}

proof fn lemma_one_more(results: Seq<Option<Result<(), TerminateError>>>, i: int, r: Result<(), TerminateError>)
    requires
        0 <= i < results.len(),
        results[i] is None,
    ensures
        answered(results.update(i, Some(r))) == answered(results) + 1,
    decreases results.len(),
{
    let now = results.update(i, Some(r));
    if i == results.len() - 1 {
        assert(now.drop_last() =~= results.drop_last());
    } else {
        lemma_one_more(results.drop_last(), i, r);
        assert(now.drop_last() =~= results.drop_last().update(i, Some(r)));
    }
}

proof fn lemma_none_answered(results: Seq<Option<Result<(), TerminateError>>>)
    requires
        forall|i: int| 0 <= i < results.len() ==> #[trigger] results[i] is None,
    ensures
        answered(results) == 0,
    decreases results.len(),
{
    if results.len() > 0 {
        assert(results[results.len() - 1] is None);
        lemma_none_answered(results.drop_last());
    }
}

/// The results, where every proc gave one.
pub open spec fn all_results(results: Seq<Option<Result<(), TerminateError>>>) -> Seq<Result<(), TerminateError>> {
    results.map_values(|r: Option<Result<(), TerminateError>>| r->0)
}

/// Terminating all procs of a host, several at a time. The procs are those that
/// there were when it began, by their places.
pub struct TerminateAll {
    timeout: Span,
    reason: String,
    ids: Vec<String>,
    width: usize,
    started: usize,
    done: usize,
    results: Vec<Option<Result<(), TerminateError>>>,
}

impl TerminateAll {
    /// The identities of the procs.
    pub closed spec fn ids(self) -> Seq<Seq<char>> {
        texts(self.ids@)
    }

    /// How long each proc is given.
    pub closed spec fn given(self) -> Span {
        self.timeout
    }

    /// Why the procs are terminated.
    pub closed spec fn because(self) -> Seq<char> {
        self.reason@
    }

    /// The most procs that are terminated at a time.
    pub closed spec fn width(self) -> nat {
        self.width as nat
    }

    /// How many procs are being terminated, or have been: the first ones.
    pub closed spec fn started(self) -> nat {
        self.started as nat
    }

    /// What came of each proc, so far.
    pub closed spec fn results(self) -> Seq<Option<Result<(), TerminateError>>> {
        self.results@
    }

    /// Each proc has its own result, only procs that were started have one, and
    /// no more are being terminated than may be.
    pub closed spec fn wf(self) -> bool {
        &&& self.results@.len() == self.ids@.len()
        &&& self.started <= self.ids@.len()
        &&& forall|i: int| self.started <= i < self.results@.len() ==> #[trigger] self.results@[i] is None
        &&& self.done == answered(self.results@)
        &&& self.done <= self.started
        &&& self.width >= 1
        &&& self.started - self.done <= self.width
    }

    /// What the parts of the whole come to.
    pub proof fn terminating_is_bounded(self)
        requires
            self.wf(),
        ensures
            self.results().len() == self.ids().len(),
            answered(self.results()) <= self.started() <= self.ids().len(),
            self.started() - answered(self.results()) <= self.width(),
            forall|i: int| self.started() <= i < self.results().len() ==> #[trigger] self.results()[i] is None,
    {
    }

    /// The identity of the proc at a place.
    pub fn id(&self, i: usize) -> (id: &String)
        requires
            i < self.ids().len(),
        ensures
            id@ == self.ids()[i as int],
    {
        &self.ids[i]
    }

    /// How long each proc is given.
    pub fn timeout(&self) -> (t: Span)
        ensures
            t == self.given(),
    {
        self.timeout
    }

    /// Why the procs are terminated.
    pub fn reason(&self) -> (s: &String)
        ensures
            s@ == self.because(),
    {
        &self.reason
    }

    /// The next proc to terminate, by its place. There is none while as many
    /// are being terminated as may be, nor once all were started; what came of
    /// the others has no part in it.
    pub fn next(&mut self) -> (at: Option<usize>)
        requires
            old(self).wf(),
        ensures
            final(self).wf(),
            final(self).ids() == old(self).ids(),
            final(self).width() == old(self).width(),
            final(self).results() == old(self).results(),
            final(self).given() == old(self).given(),
            final(self).because() == old(self).because(),
            at is Some <==> old(self).started() < old(self).ids().len() && old(self).started() - answered(
                old(self).results(),
            ) < old(self).width(),
            match at {
                Some(i) => i == old(self).started() && final(self).started() == old(self).started() + 1,
                None => *final(self) == *old(self),
            },
    {
        if self.started < self.ids.len() && self.started - self.done < self.width {
            let at: usize = self.started;
            self.started = at + 1;
            Some(at)
        } else {
            None
        }
    }

    /// Takes what came of terminating the proc at a place. Only the first word
    /// on a proc that is being terminated counts.
    pub fn on_result(&mut self, i: usize, r: Result<(), TerminateError>)
        requires
            old(self).wf(),
        ensures
            final(self).wf(),
            final(self).ids() == old(self).ids(),
            final(self).width() == old(self).width(),
            final(self).started() == old(self).started(),
            final(self).given() == old(self).given(),
            final(self).because() == old(self).because(),
            final(self).results() == (if i < old(self).started() && old(self).results()[i as int] is None {
                old(self).results().update(i as int, Some(r))
            } else {
                old(self).results()
            }),
    {
        if i >= self.started {
            return;
        }
        if self.results[i].is_none() {
            proof {
                lemma_one_more(self.results@, i as int, r);
                lemma_answered_among(self.results@, self.started as int, i as int);
            }
            self.results.set(i, Some(r));
            self.done = self.done + 1;
        }
    }

    /// What came of it all, once every proc gave its result.
    pub fn finish(&self) -> (s: Option<TerminateSummary>)
        requires
            self.wf(),
        ensures
            s is Some <==> (forall|i: int| 0 <= i < self.results().len() ==> #[trigger] self.results()[i] is Some),
            s matches Some(s) ==> {
                &&& s.attempted == self.ids().len()
                &&& s.ok == ok_count(all_results(self.results()))
                &&& s.attempted == s.ok + s.failed
            },
    {
        proof {
            lemma_answered(self.results@);
        }
        if self.done < self.results.len() {
            return None;
        }
        let ghost outcomes = all_results(self.results@);
        let mut ok: usize = 0;
        let mut i: usize = 0;
        assert(outcomes.take(0) =~= Seq::<Result<(), TerminateError>>::empty());
        while i < self.results.len()
            invariant
                i <= self.results@.len(),
                outcomes == all_results(self.results@),
                forall|j: int| 0 <= j < self.results@.len() ==> #[trigger] self.results@[j] is Some,
                ok <= i,
                ok == ok_count(outcomes.take(i as int)),
            decreases self.results@.len() - i,
        {
            assert(outcomes.take(i + 1).drop_last() =~= outcomes.take(i as int));
            assert(self.results@[i as int] is Some);
            let counts: bool = match &self.results[i] {
                Some(Ok(_)) => true,
                Some(Err(TerminateError::AlreadyTerminated(_))) => true,
                _ => false,
            };
            if counts {
                ok = ok + 1;
            }
            i = i + 1;
        }
        assert(outcomes.take(self.results@.len() as int) =~= outcomes);
        Some(TerminateSummary { attempted: self.results.len(), ok, failed: self.results.len() - ok })
    }
}

proof fn lemma_answered_among(results: Seq<Option<Result<(), TerminateError>>>, started: int, open: int)
    requires
        0 <= open < started <= results.len(),
        results[open] is None,
        forall|i: int| started <= i < results.len() ==> #[trigger] results[i] is None,
    ensures
        answered(results) < started,
    decreases results.len(),
{
    if started == results.len() {
        lemma_answered(results);
    } else {
        assert(results[results.len() - 1] is None);
        lemma_answered_among(results.drop_last(), started, open);
    }
}

impl<L, H> BootstrapProcManager<L, H> {
    /// Begins to terminate all procs, at most `max_in_flight` at a time, but at
    /// least one. They are still kept.
    pub fn terminate_all(&self, timeout: Span, max_in_flight: usize, reason: String) -> (t: TerminateAll)
        requires
            self.wf(),
        ensures
            t.wf(),
            t.ids() == self.proc_ids(),
            t.width() == width_for(max_in_flight),
            t.started() == 0,
            t.results() == Seq::new(self.proc_ids().len(), |i: int| None::<Result<(), TerminateError>>),
            t.given() == timeout,
            t.because() == reason@,
    {
        let mut ids: Vec<String> = Vec::new();
        let mut results: Vec<Option<Result<(), TerminateError>>> = Vec::new();
        let mut i: usize = 0;
        while i < self.children.len()
            invariant
                self.wf(),
                i <= self.proc_ids().len(),
                ids@.len() == i,
                results@.len() == i,
                forall|j: int| 0 <= j < i ==> #[trigger] ids@[j]@ == self.proc_ids()[j],
                forall|j: int| 0 <= j < i ==> #[trigger] results@[j] is None,
            decreases self.proc_ids().len() - i,
        {
            ids.push(self.children.name_at(i).clone());
            results.push(None);
            i = i + 1;
        }
        proof {
            lemma_none_answered(results@);
            assert(texts(ids@) =~= self.proc_ids());
            assert(results@ =~= Seq::new(self.proc_ids().len(), |i: int| None::<Result<(), TerminateError>>));
        }
        TerminateAll { timeout, reason, ids, width: terminate_width(max_in_flight), started: 0, done: 0, results }
    }
}

/// What one proc has other than the rest goes before what all have, setting by
/// setting; what it does not speak of is as for all.
pub proof fn own_settings_go_first(global: LogSettings, own: LogOverrides)
    ensures
        own.enable_forwarding matches Some(v) ==> log_settings(global, own).enable_forwarding == v,
        own.enable_file_capture matches Some(v) ==> log_settings(global, own).enable_file_capture == v,
        own.tail_lines matches Some(v) ==> log_settings(global, own).tail_lines == v,
        own.enable_forwarding is None ==> log_settings(global, own).enable_forwarding == global.enable_forwarding,
        own.enable_file_capture is None ==> log_settings(global, own).enable_file_capture == global.enable_file_capture,
        own.tail_lines is None ==> log_settings(global, own).tail_lines == global.tail_lines,
{
}

/// The lines that were captured here go before those that the launcher has, and
/// none are made up.
pub proof fn captured_lines_go_first(captured: Seq<String>, reported: Option<Vec<String>>)
    ensures
        captured.len() > 0 ==> last_lines(captured, reported) == captured,
        captured.len() == 0 ==> (reported matches Some(lines) ==> last_lines(captured, reported) == lines@),
        captured.len() == 0 && reported is None ==> last_lines(captured, reported).len() == 0,
{
}

/// A proc is told to have ended as its process did: with the code that it exited
/// with, by the signal that killed it, or for the reason that the launcher gives.
pub proof fn procs_end_as_their_processes_do(st: ProcStatus, result: Option<ProcExitResult>, captured: Seq<String>)
    requires
        says_how(st, result, captured),
    ensures
        st.exited(),
        st matches ProcStatus::Stopped { exit_code, .. } ==> (result matches Some(r) && r.kind == (ProcExitKind::Exited {
            code: exit_code,
        })),
        st matches ProcStatus::Killed { signal, core_dumped } ==> (result matches Some(r) && r.kind
            == (ProcExitKind::Signaled { signal, core_dumped })),
        result matches Some(r) ==> (r.kind matches ProcExitKind::Failed { reason } ==> st == (ProcStatus::Failed {
            reason,
        })),
        result matches Some(r) ==> (r.kind is Exited <==> st is Stopped) && (r.kind is Signaled <==> st is Killed),
        result is None ==> st is Failed,
        captured.len() > 0 ==> (st matches ProcStatus::Stopped { stderr_tail, .. } ==> stderr_tail@ == captured),
{
}

/// A process that ended leaves its proc at that end, whatever it was at; a proc
/// that had come to its end before stays at the one it had.
pub proof fn the_first_end_counts(before: BootstrapProcHandle, after: BootstrapProcHandle, st: ProcStatus)
    requires
        before.ended_as(after, st),
    ensures
        before.now().exited() ==> after.now() == before.now() && after.announced() == before.announced(),
        !before.now().exited() ==> after.now() == st && after.announced() == before.announced() + 1,
        after.id() == before.id(),
{
}

/// The output of a process is forwarded, and written to files, exactly where it
/// can be read here and the settings of the proc ask for it; it is written to
/// files only where there is something to write them.
pub proof fn output_goes_where_it_is_asked_for<L, H>(
    m: BootstrapProcManager<L, H>,
    stdio: StdioHandling,
    spawn: ProcSpawn,
)
    ensures
        m.plan_for(stdio, spawn) is Some <==> stdio is Captured,
        m.plan_for(stdio, spawn) matches Some(plan) ==> {
            &&& plan.to_channel == spawn.log_settings().enable_forwarding
            &&& plan.to_file ==> m.appends()
            &&& m.appends() ==> plan.to_file == spawn.log_settings().enable_file_capture
            &&& plan.tail_lines == spawn.log_settings().tail_lines
            &&& plan.create_rank == spawn.rank()
        },
{
}

/// A proc that is kept anew stands behind the others; one that was kept before
/// has the place that it had.
pub proof fn procs_keep_their_places<L, H>(m: BootstrapProcManager<L, H>, id: Seq<char>)
    requires
        m.wf(),
    ensures
        m.proc_ids().is_prefix_of(ids_with(m, id)),
        ids_with(m, id).contains(id),
        m.procs().dom().contains(id) ==> ids_with(m, id) == m.proc_ids(),
        !m.procs().dom().contains(id) ==> ids_with(m, id).len() == m.proc_ids().len() + 1 && ids_with(m, id).last() == id,
{
    m.each_proc_has_one_place();
    let all = ids_with(m, id);
    assert(all.take(m.proc_ids().len() as int) =~= m.proc_ids());
    if !m.procs().dom().contains(id) {
        assert(all[all.len() - 1] == id);
    }
}

/// What a launcher says of a launch that failed is passed on as it is.
pub proof fn launchers_are_quoted(why: String)
    ensures
        launch_failure(ProcLauncherError::Launch(why)) == why,
        launch_failure(ProcLauncherError::Other(why)) == why,
{
}

/// Those procs count as terminated that were, or that had come to their end
/// before; a proc that could not be signalled, or of which nobody knows, does not.
pub proof fn only_ended_procs_count(results: Seq<Result<(), TerminateError>>)
    ensures
        ok_count(results) == results.filter(
            |r: Result<(), TerminateError>| r is Ok || r->Err_0 is AlreadyTerminated,
        ).len(),
        ok_count(results) <= results.len(),
        (forall|i: int| 0 <= i < results.len() ==> #[trigger] results[i] is Ok) ==> ok_count(results) == results.len(),
    decreases results.len(),
{
    reveal(Seq::filter);
    if results.len() > 0 {
        let rest = results.drop_last();
        only_ended_procs_count(rest);
        if forall|i: int| 0 <= i < results.len() ==> #[trigger] results[i] is Ok {
            assert(results[results.len() - 1] is Ok);
            assert forall|i: int| 0 <= i < rest.len() implies #[trigger] rest[i] is Ok by {
                assert(results[i] is Ok);
            }
        }
    }
}

/// A process that was launched runs since the moment that the launcher names,
/// and has not been announced as anything else.
pub proof fn launched_processes_run(h: BootstrapProcHandle, id: Seq<char>, started_at: Timestamp)
    requires
        runs_since(h, id, started_at),
    ensures
        h.id() == id,
        h.now().started() == Some(started_at),
        h.now() is Running,
        h.announced() <= 1,
{
}

}
