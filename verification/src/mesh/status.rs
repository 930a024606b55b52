//! The life of a proc that runs in a process of its own: its status, the steps
//! that change it, and waiting for, ending and killing it.

use crate::channel::addr::{addr_text, ChannelAddr};
use crate::mesh::resource::Span;
use crate::numerals::{format_signed, signed_decimal};
use vstd::prelude::*;

verus! {

/// A moment, as seconds and nanoseconds since the epoch.
#[derive(Debug, Clone, Copy, PartialEq, Eq, Structural)]
pub struct Timestamp {
    pub secs: i64,
    pub nanos: u32,
}

/// The nanoseconds of a second.
pub const NANOS_PER_SEC: u32 = 1_000_000_000;

impl Timestamp {
    /// The nanoseconds are less than a second.
    pub open spec fn wf(self) -> bool {
        self.nanos < NANOS_PER_SEC
    }
}

/// The time from one moment to another that is not before it, in seconds and
/// nanoseconds.
pub open spec fn elapsed(from: Timestamp, to: Timestamp) -> Option<(u64, u32)> {
    if to.secs < from.secs || (to.secs == from.secs && to.nanos < from.nanos) {
        None
    } else if to.nanos >= from.nanos {
        Some(((to.secs - from.secs) as u64, (to.nanos - from.nanos) as u32))
    } else {
        Some(((to.secs - from.secs - 1) as u64, (NANOS_PER_SEC + to.nanos - from.nanos) as u32))
    }
}

impl Timestamp {
    /// The time from this moment to another that is not before it.
    pub fn elapsed(&self, to: &Timestamp) -> (r: Option<(u64, u32)>)
        requires
            self.wf(),
            to.wf(),
        ensures
            r == elapsed(*self, *to),
            r matches Some((_, nanos)) ==> nanos < NANOS_PER_SEC,
    {
        if to.secs < self.secs || (to.secs == self.secs && to.nanos < self.nanos) {
            None
        } else if to.nanos >= self.nanos {
            Some(((to.secs as i128 - self.secs as i128) as u64, to.nanos - self.nanos))
        } else {
            Some(((to.secs as i128 - self.secs as i128 - 1) as u64, NANOS_PER_SEC - self.nanos + to.nanos))
        }
    }
}

/// How a duration is written for a reader.
pub uninterp spec fn duration_text(secs: u64, nanos: u32) -> Seq<char>;

/// Calls `humantime::format_duration`: the duration in words such as `2h 37m`.
#[verifier::external_body]
fn format_duration(secs: u64, nanos: u32) -> (s: String)
    requires
        nanos < NANOS_PER_SEC,
    ensures
        s@ == duration_text(secs, nanos),
{
    humantime::format_duration(std::time::Duration::new(secs, nanos)).to_string()
}

/// The state that a proc in a process of its own is in.
#[derive(Debug)]
pub enum ProcStatus {
    /// The process was spawned and is not known to run yet.
    Starting,
    /// The process is alive; the proc may still come up.
    Running { started_at: Timestamp },
    /// The proc is up, at that address and with that agent.
    Ready { started_at: Timestamp, addr: ChannelAddr, agent: String },
    /// The proc was asked to stop, and its process has not exited yet.
    Stopping { started_at: Timestamp },
    /// The process exited with that code; with the last lines of its error output.
    Stopped { exit_code: i32, stderr_tail: Vec<String> },
    /// The process was killed by that signal.
    Killed { signal: i32, core_dumped: bool },
    /// The proc or its process failed otherwise.
    Failed { reason: String },
}

impl Clone for ProcStatus {
    fn clone(&self) -> (c: ProcStatus)
        ensures
            c.same_as(*self),
    {
        match self {
            ProcStatus::Starting => ProcStatus::Starting,
            ProcStatus::Running { started_at } => ProcStatus::Running { started_at: *started_at },
            ProcStatus::Ready { started_at, addr, agent } => ProcStatus::Ready {
                started_at: *started_at,
                addr: addr.clone(),
                agent: agent.clone(),
            },
            ProcStatus::Stopping { started_at } => ProcStatus::Stopping { started_at: *started_at },
            ProcStatus::Stopped { exit_code, stderr_tail } => ProcStatus::Stopped {
                exit_code: *exit_code,
                stderr_tail: clone_lines(stderr_tail),
            },
            ProcStatus::Killed { signal, core_dumped } => ProcStatus::Killed {
                signal: *signal,
                core_dumped: *core_dumped,
            },
            ProcStatus::Failed { reason } => ProcStatus::Failed { reason: reason.clone() },
        }
    }
}

fn clone_lines(lines: &Vec<String>) -> (v: Vec<String>)
    ensures
        v@ == lines@,
{
    let mut v: Vec<String> = Vec::new();
    while v.len() < lines.len()
        invariant
            v@.len() <= lines@.len(),
            v@ == lines@.take(v@.len() as int),
        decreases lines@.len() - v@.len(),
    {
        let ghost n = v@.len() as int;
        v.push(lines[v.len()].clone());
        assert(v@ =~= lines@.take(n + 1));
    }
    assert(lines@.take(v@.len() as int) =~= lines@);
    v
}

impl ProcStatus {
    /// Whether two say the same.
    pub open spec fn same_as(self, other: ProcStatus) -> bool {
        match (self, other) {
            (
                ProcStatus::Stopped { exit_code: a, stderr_tail: s },
                ProcStatus::Stopped { exit_code: b, stderr_tail: t },
            ) => a == b && s@ == t@,
            _ => self == other,
        }
    }

    /// Whether the process has come to its end.
    pub open spec fn exited(self) -> bool {
        self is Stopped || self is Killed || self is Failed
    }

    /// How far the life of the proc has come.
    pub open spec fn rank(self) -> nat {
        match self {
            ProcStatus::Starting => 0,
            ProcStatus::Running { .. } => 1,
            ProcStatus::Ready { .. } => 2,
            ProcStatus::Stopping { .. } => 3,
            _ => 4,
        }
    }

    /// Whether the process has come to its end: it was stopped, killed or failed.
    pub fn is_exit(&self) -> (r: bool)
        ensures
            r == self.exited(),
    {
        match self {
            ProcStatus::Stopped { .. } => true,
            ProcStatus::Killed { .. } => true,
            ProcStatus::Failed { .. } => true,
            _ => false,
        }
    }

    /// When the process started, where that is known.
    pub open spec fn started(self) -> Option<Timestamp> {
        match self {
            ProcStatus::Running { started_at } => Some(started_at),
            ProcStatus::Ready { started_at, .. } => Some(started_at),
            ProcStatus::Stopping { started_at } => Some(started_at),
            _ => None,
        }
    }
}

/// What stands behind the name of a status: how long the process has been up.
pub open spec fn uptime_text(uptime: Option<Seq<char>>) -> Seq<char> {
    match uptime {
        Some(t) => " up "@ + t,
        None => Seq::<char>::empty(),
    }
}

/// How a status is written; `uptime` is how long the process has been up, as
/// that is written.
pub open spec fn status_text(st: ProcStatus, uptime: Option<Seq<char>>) -> Seq<char> {
    match st {
        ProcStatus::Starting => "Starting"@,
        ProcStatus::Running { .. } => "Running"@ + uptime_text(uptime),
        ProcStatus::Ready { addr, .. } => "Ready at "@ + addr_text(addr@) + uptime_text(uptime),
        ProcStatus::Stopping { .. } => "Stopping"@ + uptime_text(uptime),
        ProcStatus::Stopped { exit_code, .. } => "Stopped(exit="@ + signed_decimal(exit_code as int) + ")"@,
        ProcStatus::Killed { signal, core_dumped } => if core_dumped {
            "Killed(sig="@ + signed_decimal(signal as int) + ", core)"@
        } else {
            "Killed(sig="@ + signed_decimal(signal as int) + ")"@
        },
        ProcStatus::Failed { reason } => "Failed("@ + reason@ + ")"@,
    }
}

/// How long a process has been up at some moment, as that is written; nothing
/// where it started later than that.
pub open spec fn uptime_at(st: ProcStatus, now: Timestamp) -> Option<Seq<char>> {
    match st.started() {
        Some(t) => match elapsed(t, now) {
            Some((secs, nanos)) => Some(duration_text(secs, nanos)),
            None => None,
        },
        None => None,
    }
}

impl ProcStatus {
    fn push_uptime(s: &mut String, uptime: &Option<String>)
        ensures
            final(s)@ == old(s)@ + uptime_text(crate::text::opt_text(*uptime)),
    {
        match uptime {
            Some(t) => {
                let ghost before = s@;
                s.append(" up ");
                s.append(t.as_str());
                assert(s@ =~= before + (" up "@ + t@));
            },
            None => {
                assert(s@ =~= s@ + Seq::<char>::empty());
            },
        }
    }

    /// The status, written for a reader; `uptime` is how long the process has
    /// been up, as that is written.
    pub fn display_with(&self, uptime: &Option<String>) -> (s: String)
        ensures
            s@ == status_text(*self, crate::text::opt_text(*uptime)),
    {
        match self {
            ProcStatus::Starting => "Starting".to_owned(),
            ProcStatus::Running { .. } => {
                let mut s: String = "Running".to_owned();
                ProcStatus::push_uptime(&mut s, uptime);
                s
            },
            ProcStatus::Ready { addr, .. } => {
                let mut s: String = "Ready at ".to_owned();
                s.append(addr.display().as_str());
                ProcStatus::push_uptime(&mut s, uptime);
                s
            },
            ProcStatus::Stopping { .. } => {
                let mut s: String = "Stopping".to_owned();
                ProcStatus::push_uptime(&mut s, uptime);
                s
            },
            ProcStatus::Stopped { exit_code, .. } => {
                let mut s: String = "Stopped(exit=".to_owned();
                s.append(format_signed(*exit_code as i64).as_str());
                s.append(")");
                s
            },
            ProcStatus::Killed { signal, core_dumped } => {
                let mut s: String = "Killed(sig=".to_owned();
                s.append(format_signed(*signal as i64).as_str());
                if *core_dumped {
                    s.append(", core)");
                } else {
                    s.append(")");
                }
                s
            },
            ProcStatus::Failed { reason } => {
                let mut s: String = "Failed(".to_owned();
                s.append(reason.as_str());
                s.append(")");
                s
            },
        }
    }

    /// The moment from which the status counts is one.
    pub open spec fn wf(self) -> bool {
        self.started() matches Some(t) ==> t.wf()
    }

    /// The status at some moment, written for a reader.
    pub fn display(&self, now: Timestamp) -> (s: String)
        requires
            self.wf(),
            now.wf(),
        ensures
            s@ == status_text(*self, uptime_at(*self, now)),
    {
        let started: Option<Timestamp> = match self {
            ProcStatus::Running { started_at } => Some(*started_at),
            ProcStatus::Ready { started_at, .. } => Some(*started_at),
            ProcStatus::Stopping { started_at } => Some(*started_at),
            _ => None,
        };
        let uptime: Option<String> = match started {
            Some(t) => match t.elapsed(&now) {
                Some((secs, nanos)) => Some(format_duration(secs, nanos)),
                None => None,
            },
            None => None,
        };
        self.display_with(&uptime)
    }
}

/// A proc in a process of its own: its identity and its status. The status is
/// announced to those who watch it each time that it changes; `version` counts
/// the announcements.
#[derive(Debug)]
pub struct BootstrapProcHandle {
    proc_id: String,
    status: ProcStatus,
    version: u64,
}

impl BootstrapProcHandle {
    /// The identity of the proc.
    pub closed spec fn id(self) -> Seq<char> {
        self.proc_id@
    }

    /// The status of the proc.
    pub closed spec fn now(self) -> ProcStatus {
        self.status
    }

    /// How often the status has been announced.
    pub closed spec fn announced(self) -> nat {
        self.version as nat
    }

    /// The status is not announced more often than it can change.
    pub open spec fn wf(self) -> bool {
        self.announced() <= self.now().rank()
    }

    /// A proc whose process was just spawned.
    pub fn new(proc_id: String) -> (h: BootstrapProcHandle)
        ensures
            h.wf(),
            h.id() == proc_id@,
            h.now() == ProcStatus::Starting,
            h.announced() == 0,
    {
        BootstrapProcHandle { proc_id, status: ProcStatus::Starting, version: 0 }
    }

    /// The identity of the proc.
    pub fn proc_id(&self) -> (r: &String)
        ensures
            r@ == self.id(),
    {
        &self.proc_id
    }

    /// The status of the proc.
    pub fn status(&self) -> (r: &ProcStatus)
        ensures
            *r == self.now(),
    {
        &self.status
    }

    /// How often the status has been announced: a watcher that has seen fewer
    /// announcements has something to see.
    pub fn watch(&self) -> (version: u64)
        ensures
            version == self.announced(),
    {
        self.version
    }

    /// What one who has seen so many announcements has to see: the status, where
    /// it was announced since. Otherwise the next announcement is to be awaited.
    pub fn changed(&self, seen: u64) -> (r: Option<&ProcStatus>)
        ensures
            match r {
                Some(st) => seen < self.announced() && *st == self.now(),
                None => seen >= self.announced(),
            },
    {
        if seen < self.version {
            Some(&self.status)
        } else {
            None
        }
    }

    /// The address of the proc, where it is ready.
    pub fn addr(&self) -> (r: Option<&ChannelAddr>)
        ensures
            match self.now() {
                ProcStatus::Ready { addr, .. } => r == Some(&addr),
                _ => r is None,
            },
    {
        match &self.status {
            ProcStatus::Ready { addr, .. } => Some(addr),
            _ => None,
        }
    }

    /// The agent of the proc, where it is ready.
    pub fn agent_ref(&self) -> (r: Option<&String>)
        ensures
            match self.now() {
                ProcStatus::Ready { agent, .. } => r == Some(&agent),
                _ => r is None,
            },
    {
        match &self.status {
            ProcStatus::Ready { agent, .. } => Some(agent),
            _ => None,
        }
    }

    /// Whether the change from one state of a handle to another is the change of
    /// the status to `next`, announced once; or no change at all, where there is
    /// no next status.
    pub open spec fn changed_to(self, after: BootstrapProcHandle, next: Option<ProcStatus>) -> bool {
        &&& after.id() == self.id()
        &&& match next {
            Some(st) => after.now() == st && after.announced() == self.announced() + 1,
            None => after.now() == self.now() && after.announced() == self.announced(),
        }
    }

    fn set(&mut self, next: ProcStatus)
        requires
            old(self).wf(),
            old(self).now().rank() < next.rank(),
        ensures
            final(self).wf(),
            old(self).changed_to(*final(self), Some(next)),
    {
        self.status = next;
        self.version = self.version + 1;
    }

    /// Records that the process runs. Only a proc that is starting does.
    pub fn mark_running(&mut self, started_at: Timestamp) -> (changed: bool)
        requires
            old(self).wf(),
        ensures
            final(self).wf(),
            changed == (running_after(old(self).now(), started_at) is Some),
            old(self).changed_to(*final(self), running_after(old(self).now(), started_at)),
    {
        match &self.status {
            ProcStatus::Starting => {
                self.set(ProcStatus::Running { started_at });
                true
            },
            _ => false,
        }
    }

    /// Records that the proc is up, at that address and with that agent. Only a
    /// proc that is starting or running does; `now` is when it started where
    /// that was not recorded before.
    pub fn mark_ready(&mut self, addr: ChannelAddr, agent: String, now: Timestamp) -> (changed: bool)
        requires
            old(self).wf(),
        ensures
            final(self).wf(),
            changed == (ready_after(old(self).now(), addr, agent, now) is Some),
            old(self).changed_to(*final(self), ready_after(old(self).now(), addr, agent, now)),
    {
        match &self.status {
            ProcStatus::Starting => {
                self.set(ProcStatus::Ready { started_at: now, addr, agent });
                true
            },
            ProcStatus::Running { started_at } => {
                let started_at: Timestamp = *started_at;
                self.set(ProcStatus::Ready { started_at, addr, agent });
                true
            },
            _ => false,
        }
    }

    /// Records that the proc was asked to stop. A proc that was asked before, or
    /// has come to its end, is left as it is; `now` is when it started where
    /// that was not recorded before.
    pub fn mark_stopping(&mut self, now: Timestamp) -> (changed: bool)
        requires
            old(self).wf(),
        ensures
            final(self).wf(),
            changed == (stopping_after(old(self).now(), now) is Some),
            old(self).changed_to(*final(self), stopping_after(old(self).now(), now)),
    {
        let started_at: Timestamp = match &self.status {
            ProcStatus::Running { started_at } => *started_at,
            ProcStatus::Ready { started_at, .. } => *started_at,
            ProcStatus::Starting => now,
            _ => {
                return false;
            },
        };
        self.set(ProcStatus::Stopping { started_at });
        true
    }

    /// Records that the process exited with that code. A proc that has come to
    /// its end is left as it is.
    pub fn mark_stopped(&mut self, exit_code: i32, stderr_tail: Vec<String>) -> (changed: bool)
        requires
            old(self).wf(),
        ensures
            final(self).wf(),
            changed == !old(self).now().exited(),
            old(self).changed_to(
                *final(self),
                ended_after(old(self).now(), ProcStatus::Stopped { exit_code, stderr_tail }),
            ),
    {
        if self.status.is_exit() {
            return false;
        }
        self.set(ProcStatus::Stopped { exit_code, stderr_tail });
        true
    }

    /// Records that the process was killed by that signal. A proc that has come
    /// to its end is left as it is.
    pub fn mark_killed(&mut self, signal: i32, core_dumped: bool) -> (changed: bool)
        requires
            old(self).wf(),
        ensures
            final(self).wf(),
            changed == !old(self).now().exited(),
            old(self).changed_to(
                *final(self),
                ended_after(old(self).now(), ProcStatus::Killed { signal, core_dumped }),
            ),
    {
        if self.status.is_exit() {
            return false;
        }
        self.set(ProcStatus::Killed { signal, core_dumped });
        true
    }

    /// Records that the proc or its process failed. A proc that has come to its
    /// end is left as it is.
    pub fn mark_failed(&mut self, reason: String) -> (changed: bool)
        requires
            old(self).wf(),
        ensures
            final(self).wf(),
            changed == !old(self).now().exited(),
            old(self).changed_to(*final(self), ended_after(old(self).now(), ProcStatus::Failed { reason })),
    {
        if self.status.is_exit() {
            return false;
        }
        self.set(ProcStatus::Failed { reason });
        true
    }
}

/// The status that a process found running gives a proc.
pub open spec fn running_after(st: ProcStatus, started_at: Timestamp) -> Option<ProcStatus> {
    match st {
        ProcStatus::Starting => Some(ProcStatus::Running { started_at }),
        _ => None,
    }
}

/// The status that coming up gives a proc.
pub open spec fn ready_after(st: ProcStatus, addr: ChannelAddr, agent: String, now: Timestamp) -> Option<ProcStatus> {
    match st {
        ProcStatus::Starting => Some(ProcStatus::Ready { started_at: now, addr, agent }),
        ProcStatus::Running { started_at } => Some(ProcStatus::Ready { started_at, addr, agent }),
        _ => None,
    }
}

/// The status that a request to stop gives a proc.
pub open spec fn stopping_after(st: ProcStatus, now: Timestamp) -> Option<ProcStatus> {
    match st {
        ProcStatus::Starting => Some(ProcStatus::Stopping { started_at: now }),
        ProcStatus::Running { started_at } => Some(ProcStatus::Stopping { started_at }),
        ProcStatus::Ready { started_at, .. } => Some(ProcStatus::Stopping { started_at }),
        _ => None,
    }
}

/// The status that the end of its process gives a proc.
pub open spec fn ended_after(st: ProcStatus, end: ProcStatus) -> Option<ProcStatus> {
    if st.exited() {
        None
    } else {
        Some(end)
    }
}

/// A step in the life of a proc.
pub enum LifeStep {
    Running { started_at: Timestamp },
    Ready { addr: ChannelAddr, agent: String, now: Timestamp },
    Stopping { now: Timestamp },
    Stopped { exit_code: i32, stderr_tail: Vec<String> },
    Killed { signal: i32, core_dumped: bool },
    Failed { reason: String },
}

/// The status that a step gives a proc; none where it leaves the status as it is.
pub open spec fn status_after(st: ProcStatus, step: LifeStep) -> Option<ProcStatus> {
    match step {
        LifeStep::Running { started_at } => running_after(st, started_at),
        LifeStep::Ready { addr, agent, now } => ready_after(st, addr, agent, now),
        LifeStep::Stopping { now } => stopping_after(st, now),
        LifeStep::Stopped { exit_code, stderr_tail } => ended_after(
            st,
            ProcStatus::Stopped { exit_code, stderr_tail },
        ),
        LifeStep::Killed { signal, core_dumped } => ended_after(st, ProcStatus::Killed { signal, core_dumped }),
        LifeStep::Failed { reason } => ended_after(st, ProcStatus::Failed { reason }),
    }
}

/// The status after a row of steps.
pub open spec fn status_after_all(st: ProcStatus, steps: Seq<LifeStep>) -> ProcStatus
    decreases steps.len(),
{
    if steps.len() == 0 {
        st
    } else {
        let before = status_after_all(st, steps.drop_last());
        match status_after(before, steps.last()) {
            Some(next) => next,
            None => before,
        }
    }
}

/// The life of a proc only goes forward: a step that changes the status takes
/// it further.
pub proof fn life_goes_forward(st: ProcStatus, step: LifeStep)
    ensures
        status_after(st, step) matches Some(next) ==> st.rank() < next.rank(),
{
}

/// A proc that has come to its end stays as it is, whatever comes after.
pub proof fn the_end_is_final(st: ProcStatus, steps: Seq<LifeStep>)
    requires
        st.exited(),
    ensures
        status_after_all(st, steps) == st,
    decreases steps.len(),
{
    if steps.len() > 0 {
        the_end_is_final(st, steps.drop_last());
    }
}

/// The moment at which a process started is kept as long as the status tells one.
pub proof fn start_is_kept(st: ProcStatus, step: LifeStep)
    requires
        st.started() is Some,
    ensures
        status_after(st, step) matches Some(next) ==> next.started() is None || next.started() == st.started(),
{
}

/// What one who waits for a proc finds.
#[derive(Debug, Clone, Copy, PartialEq, Eq, Structural)]
pub enum Wait {
    /// What was waited for has come.
    Reached,
    /// The process has come to its end before.
    Ended,
    /// Nothing will be announced any more.
    Closed,
    /// Wait for the next announcement.
    Pending,
}

/// What one finds who waits for a process to end.
pub open spec fn end_wait(st: ProcStatus, closed: bool) -> Wait {
    if st.exited() {
        Wait::Reached
    } else if closed {
        Wait::Closed
    } else {
        Wait::Pending
    }
}

/// What one finds who waits for a proc to be ready. A proc that is stopping may
/// still be waited for.
pub open spec fn ready_wait(st: ProcStatus, closed: bool) -> Wait {
    if st is Ready {
        Wait::Reached
    } else if st.exited() {
        Wait::Ended
    } else if closed {
        Wait::Closed
    } else {
        Wait::Pending
    }
}

impl BootstrapProcHandle {
    /// What one finds who waits for the process to end; `closed` where nothing
    /// will be announced any more.
    pub fn wait_inner(&self, closed: bool) -> (w: Wait)
        ensures
            w == end_wait(self.now(), closed),
    {
        if self.status.is_exit() {
            Wait::Reached
        } else if closed {
            Wait::Closed
        } else {
            Wait::Pending
        }
    }

    /// What one finds who waits for the proc to be ready; `closed` where nothing
    /// will be announced any more.
    pub fn ready_inner(&self, closed: bool) -> (w: Wait)
        ensures
            w == ready_wait(self.now(), closed),
    {
        match &self.status {
            ProcStatus::Ready { .. } => {
                return Wait::Reached;
            },
            _ => {},
        }
        if self.status.is_exit() {
            Wait::Ended
        } else if closed {
            Wait::Closed
        } else {
            Wait::Pending
        }
    }
}

/// Why a proc did not become ready.
#[derive(Debug)]
pub enum ReadyError<'a> {
    /// It came to its end before; with its status.
    Terminal(&'a ProcStatus),
    /// Its status is not announced any more.
    ChannelClosed,
}

/// Nobody will know whether a process came to its end.
#[derive(Debug, Clone, Copy, PartialEq, Eq, Structural)]
pub struct WaitClosed;

impl<'a> ReadyError<'a> {
    /// The error, written for a reader; `status` is the last status, as it is
    /// written for debugging.
    pub fn text(&self, status: &str) -> (s: String)
        ensures
            s@ == (match *self {
                ReadyError::Terminal(_) => "proc terminated before running: "@ + status@,
                ReadyError::ChannelClosed => "status channel closed"@,
            }),
    {
        match self {
            ReadyError::Terminal(_) => {
                let mut s: String = "proc terminated before running: ".to_owned();
                s.append(status);
                s
            },
            ReadyError::ChannelClosed => "status channel closed".to_owned(),
        }
    }
}

impl BootstrapProcHandle {
    /// Whether the proc is ready, if that is decided: it is, or it will not be.
    pub fn ready(&self, closed: bool) -> (r: Option<Result<(), ReadyError<'_>>>)
        ensures
            match ready_wait(self.now(), closed) {
                Wait::Reached => r matches Some(Ok(_)),
                Wait::Ended => r matches Some(Err(ReadyError::Terminal(st))) && *st == self.now(),
                Wait::Closed => r matches Some(Err(ReadyError::ChannelClosed)),
                Wait::Pending => r is None,
            },
    {
        match self.ready_inner(closed) {
            Wait::Reached => Some(Ok(())),
            Wait::Ended => Some(Err(ReadyError::Terminal(&self.status))),
            Wait::Closed => Some(Err(ReadyError::ChannelClosed)),
            Wait::Pending => None,
        }
    }

    /// The status with which the process came to its end, if that is decided:
    /// it has, or nobody will know.
    pub fn wait(&self, closed: bool) -> (r: Option<Result<&ProcStatus, WaitClosed>>)
        ensures
            match end_wait(self.now(), closed) {
                Wait::Reached => r matches Some(Ok(st)) && *st == self.now() && st.exited(),
                Wait::Closed => r matches Some(Err(_)),
                _ => r is None,
            },
    {
        match self.wait_inner(closed) {
            Wait::Reached => Some(Ok(&self.status)),
            Wait::Closed => Some(Err(WaitClosed)),
            _ => None,
        }
    }
}

/// What reads the output of a process and what reads its errors, until the
/// process has come to its end.
#[derive(Debug)]
pub struct StreamMonitors<F> {
    pub out: Option<F>,
    pub err: Option<F>,
}

impl<F> StreamMonitors<F> {
    /// Nothing reads yet.
    pub fn new() -> (m: StreamMonitors<F>)
        ensures
            m.out is None,
            m.err is None,
    {
        StreamMonitors { out: None, err: None }
    }

    /// Sets what reads the two.
    pub fn set_stream_monitors(&mut self, out: Option<F>, err: Option<F>)
        ensures
            final(self).out == out,
            final(self).err == err,
    {
        self.out = out;
        self.err = err;
    }

    /// Gives out what reads the two; nothing is left.
    pub fn take_stream_monitors(&mut self) -> (r: (Option<F>, Option<F>))
        ensures
            r == (old(self).out, old(self).err),
            final(self).out is None,
            final(self).err is None,
    {
        (self.out.take(), self.err.take())
    }
}

/// Why a process was not ended.
#[derive(Debug)]
pub enum TerminateError {
    /// It had come to its end before; with how.
    AlreadyTerminated(ProcStatus),
    /// It could not be signalled; with what went wrong.
    Io(String),
    /// Nobody will know whether it ended.
    ChannelClosed,
}

/// What is to be done next to end a process.
#[derive(Debug)]
pub enum TerminateStage {
    /// Ask that agent to stop everything for that reason, and wait so long for
    /// the process to end.
    StopAll { agent: String, timeout: Span, reason: String },
    /// Have the launcher end the process, which has so long to end by itself.
    Terminate { timeout: Span },
    /// Have the launcher kill the process at once.
    Kill,
    /// Wait for the process to end.
    Await,
    /// The process has come to its end; with how.
    Ended(ProcStatus),
    Failed(TerminateError),
}

/// What came of a stage.
#[derive(Debug)]
pub enum TerminateAnswer {
    /// The agent could not be asked.
    NotSent,
    /// The time is up.
    TimedOut,
    /// The status was announced; or, where it is `closed`, none will be any more.
    Announced { closed: bool },
    /// What the launcher made of it; nothing where there is no launcher any
    /// more, which ends its processes when it goes.
    Signalled(Option<Result<(), String>>),
}

/// Whether there is nothing to end, since the process has come to its end before,
/// with that status.
pub open spec fn is_over(stage: TerminateStage, st: ProcStatus) -> bool {
    stage matches TerminateStage::Failed(TerminateError::AlreadyTerminated(end)) && end.same_as(st)
}

/// Whether ending a process begins with a stage.
pub open spec fn is_first_terminate_stage(st: ProcStatus, timeout: Span, reason: String, stage: TerminateStage) -> bool {
    if st.exited() {
        is_over(stage, st)
    } else {
        stage == (match st {
            ProcStatus::Ready { agent, .. } => TerminateStage::StopAll { agent, timeout, reason },
            _ => TerminateStage::Terminate { timeout },
        })
    }
}

/// Whether killing a process begins with a stage.
pub open spec fn is_first_kill_stage(st: ProcStatus, stage: TerminateStage) -> bool {
    if st.exited() {
        is_over(stage, st)
    } else {
        stage == TerminateStage::Kill
    }
}

/// A proc that is up has its own agent asked first to stop everything, for the
/// reason and within the time given; any other has its launcher end it in that
/// time. A process that is to be killed is killed, and one that has come to its
/// end is neither ended nor killed: it is told how it ended.
pub proof fn the_agent_is_asked_before_the_launcher(
    st: ProcStatus,
    timeout: Span,
    reason: String,
    stage: TerminateStage,
    kill: TerminateStage,
)
    requires
        is_first_terminate_stage(st, timeout, reason, stage),
        is_first_kill_stage(st, kill),
    ensures
        st is Stopped || st is Killed || st is Failed ==> (stage matches TerminateStage::Failed(
            TerminateError::AlreadyTerminated(end),
        ) && end.same_as(st)) && (kill matches TerminateStage::Failed(TerminateError::AlreadyTerminated(end))
            && end.same_as(st)),
        st matches ProcStatus::Ready { agent, .. } ==> (stage matches TerminateStage::StopAll {
            agent: a,
            timeout: t,
            reason: r,
        } && a == agent && t == timeout && r == reason),
        st is Starting || st is Running || st is Stopping ==> stage == (TerminateStage::Terminate { timeout }),
        st is Starting || st is Running || st is Stopping || st is Ready ==> kill is Kill,
{
}

/// Whether a launcher that failed is what ended the attempt.
pub open spec fn is_launcher_failure(next: TerminateStage, what: Seq<char>, cause: Seq<char>) -> bool {
    next matches TerminateStage::Failed(TerminateError::Io(text)) && text@ == what + cause
}

/// Whether the stage is the one that follows, where the process has that status;
/// an answer to something else changes nothing.
pub open spec fn follows_terminate(
    st: ProcStatus,
    stage: TerminateStage,
    answer: TerminateAnswer,
    next: TerminateStage,
) -> bool {
    match (stage, answer) {
        (TerminateStage::StopAll { timeout, .. }, TerminateAnswer::NotSent) => next == (TerminateStage::Terminate {
            timeout,
        }),
        (TerminateStage::StopAll { timeout, .. }, TerminateAnswer::TimedOut) => next == (TerminateStage::Terminate {
            timeout,
        }),
        (TerminateStage::StopAll { timeout, .. }, TerminateAnswer::Announced { closed }) => match end_wait(st, closed) {
            Wait::Reached => next matches TerminateStage::Ended(end) && end.same_as(st),
            Wait::Closed => next == (TerminateStage::Terminate { timeout }),
            _ => next == stage,
        },
        (TerminateStage::Terminate { .. }, TerminateAnswer::Signalled(r)) => match r {
            Some(Err(cause)) => is_launcher_failure(next, "launcher termination failed: "@, cause@),
            _ => next == TerminateStage::Await,
        },
        (TerminateStage::Kill, TerminateAnswer::Signalled(r)) => match r {
            Some(Err(cause)) => is_launcher_failure(next, "launcher kill failed: "@, cause@),
            _ => next == TerminateStage::Await,
        },
        (TerminateStage::Await, TerminateAnswer::Announced { closed }) => match end_wait(st, closed) {
            Wait::Reached => next matches TerminateStage::Ended(end) && end.same_as(st),
            Wait::Closed => next == TerminateStage::Failed(TerminateError::ChannelClosed),
            _ => next == stage,
        },
        (stage, _) => next == stage,
    }
}

impl BootstrapProcHandle {
    /// The status after the first stage of ending the process was chosen: a proc
    /// with no agent to ask is marked as stopping.
    pub open spec fn first_terminate_status(self, now: Timestamp) -> Option<ProcStatus> {
        if self.now() is Ready {
            None
        } else {
            stopping_after(self.now(), now)
        }
    }

    /// Begins to end the process: a proc that is ready is asked to stop
    /// everything first, any other has its launcher end it.
    pub fn terminate(&mut self, timeout: Span, reason: String, now: Timestamp) -> (stage: TerminateStage)
        requires
            old(self).wf(),
        ensures
            final(self).wf(),
            is_first_terminate_stage(old(self).now(), timeout, reason, stage),
            old(self).changed_to(*final(self), old(self).first_terminate_status(now)),
    {
        if self.status.is_exit() {
            return TerminateStage::Failed(TerminateError::AlreadyTerminated(self.status.clone()));
        }
        if let ProcStatus::Ready { agent, .. } = &self.status {
            return TerminateStage::StopAll { agent: agent.clone(), timeout, reason };
        }
        let _ = self.mark_stopping(now);
        TerminateStage::Terminate { timeout }
    }

    /// Begins to kill the process.
    pub fn kill(&self) -> (stage: TerminateStage)
        ensures
            is_first_kill_stage(self.now(), stage),
    {
        if self.status.is_exit() {
            return TerminateStage::Failed(TerminateError::AlreadyTerminated(self.status.clone()));
        }
        TerminateStage::Kill
    }

    fn launcher_is_next(&mut self, timeout: Span, now: Timestamp) -> (next: TerminateStage)
        requires
            old(self).wf(),
        ensures
            final(self).wf(),
            next == (TerminateStage::Terminate { timeout }),
            old(self).changed_to(*final(self), stopping_after(old(self).now(), now)),
    {
        let _ = self.mark_stopping(now);
        TerminateStage::Terminate { timeout }
    }

    /// Goes on with ending the process. Where the agent did not bring it to its
    /// end, the proc is marked as stopping before its launcher ends it.
    pub fn continue_terminate(&mut self, stage: TerminateStage, answer: TerminateAnswer, now: Timestamp) -> (next:
        TerminateStage)
        requires
            old(self).wf(),
        ensures
            final(self).wf(),
            follows_terminate(old(self).now(), stage, answer, next),
            stage is StopAll && next is Terminate ==> old(self).changed_to(
                *final(self),
                stopping_after(old(self).now(), now),
            ),
            !(stage is StopAll && next is Terminate) ==> *final(self) == *old(self),
    {
        match (stage, answer) {
            (TerminateStage::StopAll { timeout, .. }, TerminateAnswer::NotSent) => self.launcher_is_next(timeout, now),
            (TerminateStage::StopAll { timeout, .. }, TerminateAnswer::TimedOut) => self.launcher_is_next(timeout, now),
            (TerminateStage::StopAll { agent, timeout, reason }, TerminateAnswer::Announced { closed }) => {
                match self.wait_inner(closed) {
                    Wait::Reached => TerminateStage::Ended(self.status.clone()),
                    Wait::Closed => self.launcher_is_next(timeout, now),
                    _ => TerminateStage::StopAll { agent, timeout, reason },
                }
            },
            (TerminateStage::Terminate { .. }, TerminateAnswer::Signalled(r)) => match r {
                Some(Err(cause)) => {
                    let mut text: String = "launcher termination failed: ".to_owned();
                    text.append(cause.as_str());
                    TerminateStage::Failed(TerminateError::Io(text))
                },
                _ => TerminateStage::Await,
            },
            (TerminateStage::Kill, TerminateAnswer::Signalled(r)) => match r {
                Some(Err(cause)) => {
                    let mut text: String = "launcher kill failed: ".to_owned();
                    text.append(cause.as_str());
                    TerminateStage::Failed(TerminateError::Io(text))
                },
                _ => TerminateStage::Await,
            },
            (TerminateStage::Await, TerminateAnswer::Announced { closed }) => match self.wait_inner(closed) {
                Wait::Reached => TerminateStage::Ended(self.status.clone()),
                Wait::Closed => TerminateStage::Failed(TerminateError::ChannelClosed),
                _ => TerminateStage::Await,
            },
            (stage, _) => stage,
        }
    }
}

/// A process counts as ended only where its status says that it has come to its
/// end, after its agent was asked or after its launcher was.
pub proof fn ended_only_when_it_was_seen(
    st: ProcStatus,
    stage: TerminateStage,
    answer: TerminateAnswer,
    next: TerminateStage,
)
    requires
        follows_terminate(st, stage, answer, next),
        next is Ended,
        !(stage is Ended),
    ensures
        st.exited(),
        next matches TerminateStage::Ended(end) && end.same_as(st),
        stage is StopAll || stage is Await,
{
}

/// An agent that did not bring its process to its end in time is not asked
/// again: the launcher is next.
pub proof fn the_launcher_follows_the_agent(
    st: ProcStatus,
    stage: TerminateStage,
    answer: TerminateAnswer,
    next: TerminateStage,
)
    requires
        follows_terminate(st, stage, answer, next),
        stage is StopAll,
        answer is NotSent || answer is TimedOut || (answer == (TerminateAnswer::Announced { closed: true })
            && !st.exited()),
    ensures
        next is Terminate,
{
}

/// The time that passed is what has to be added to the one moment to get to the
/// other, and there is none where the other comes before.
pub proof fn elapsed_is_the_difference(from: Timestamp, to: Timestamp)
    requires
        from.wf(),
        to.wf(),
    ensures
        elapsed(from, to) is Some <==> from.secs * 1_000_000_000 + from.nanos <= to.secs * 1_000_000_000 + to.nanos,
        elapsed(from, to) matches Some((secs, nanos)) ==> nanos < 1_000_000_000 && from.secs * 1_000_000_000 + from.nanos
            + secs * 1_000_000_000 + nanos == to.secs * 1_000_000_000 + to.nanos,
{
}

/// A step that changes the status of a proc makes it what the step says, with
/// all that the step says of it; the moment at which the process started is the
/// one on record, or that of the step where there is none.
pub proof fn a_step_gives_its_status(st: ProcStatus, step: LifeStep)
    ensures
        status_after(st, step) matches Some(next) ==> match step {
            LifeStep::Running { started_at } => st is Starting && next == (ProcStatus::Running { started_at }),
            LifeStep::Ready { addr, agent, now } => (st is Starting || st is Running) && (next matches ProcStatus::Ready {
                started_at,
                addr: a,
                agent: g,
            } && a == addr && g == agent && (if st is Starting {
                started_at == now
            } else {
                Some(started_at) == st.started()
            })),
            LifeStep::Stopping { now } => !(st is Stopping) && !st.exited() && (next matches ProcStatus::Stopping {
                started_at,
            } && (if st is Starting {
                started_at == now
            } else {
                Some(started_at) == st.started()
            })),
            LifeStep::Stopped { exit_code, stderr_tail } => next == (ProcStatus::Stopped { exit_code, stderr_tail }),
            LifeStep::Killed { signal, core_dumped } => next == (ProcStatus::Killed { signal, core_dumped }),
            LifeStep::Failed { reason } => next == (ProcStatus::Failed { reason }),
        },
        st.started() is Some <==> st is Running || st is Ready || st is Stopping,
{
}

/// A proc that has not come to its end comes to it with its process, whatever it
/// was at; a proc that has comes to no other.
pub proof fn every_proc_can_end(st: ProcStatus, step: LifeStep)
    requires
        step is Stopped || step is Killed || step is Failed,
    ensures
        status_after(st, step) is None <==> st is Stopped || st is Killed || st is Failed,
        status_after(st, step) matches Some(next) ==> next.exited(),
        st.exited() <==> st is Stopped || st is Killed || st is Failed,
{
}

/// A proc that is not at its end can be asked to stop, once; one that comes up
/// can be found up; and one that was just started can be found running.
pub proof fn steps_are_taken_where_they_can_be(st: ProcStatus, step: LifeStep)
    ensures
        step is Running ==> (status_after(st, step) is Some <==> st is Starting),
        step is Ready ==> (status_after(st, step) is Some <==> st is Starting || st is Running),
        step is Stopping ==> (status_after(st, step) is Some <==> st is Starting || st is Running || st is Ready),
{
}

/// One who waits waits on only as long as something may still come of it: what
/// was waited for is found where it is there, whether more will be announced or
/// not, and one who waits for a proc to be ready learns of its end.
pub proof fn waiting_ends_when_it_is_decided(st: ProcStatus, closed: bool)
    ensures
        end_wait(st, closed) is Reached <==> st is Stopped || st is Killed || st is Failed,
        ready_wait(st, closed) is Reached <==> st is Ready,
        ready_wait(st, closed) is Ended <==> st is Stopped || st is Killed || st is Failed,
        end_wait(st, closed) is Ended ==> false,
        end_wait(st, closed) is Closed ==> closed,
        ready_wait(st, closed) is Closed ==> closed,
        end_wait(st, closed) is Pending ==> !closed,
        ready_wait(st, closed) is Pending ==> !closed,
{
}

/// Each step of ending a process comes after the one before it: the launcher is
/// given the time that the agent was given, its failure is told, and nobody is
/// said to be at the end whose status does not say so.
pub proof fn a_process_is_ended_step_by_step(
    st: ProcStatus,
    stage: TerminateStage,
    answer: TerminateAnswer,
    next: TerminateStage,
)
    requires
        follows_terminate(st, stage, answer, next),
        next != stage,
    ensures
        match next {
            TerminateStage::StopAll { .. } => false,
            TerminateStage::Kill => false,
            TerminateStage::Terminate { timeout } => (stage matches TerminateStage::StopAll { timeout: given, .. } && given
                == timeout) && (answer is NotSent || answer is TimedOut || (answer == (TerminateAnswer::Announced {
                closed: true,
            }) && !st.exited())),
            TerminateStage::Await => (stage is Terminate || stage is Kill) && (answer matches TerminateAnswer::Signalled(r)
                && !(r matches Some(Err(_)))),
            TerminateStage::Ended(end) => (stage is StopAll || stage is Await) && answer is Announced && st.exited()
                && end.same_as(st),
            TerminateStage::Failed(TerminateError::Io(_)) => (stage is Terminate || stage is Kill) && (
            answer matches TerminateAnswer::Signalled(Some(Err(_)))),
            TerminateStage::Failed(TerminateError::ChannelClosed) => stage is Await && answer
                == (TerminateAnswer::Announced { closed: true }) && !st.exited(),
            TerminateStage::Failed(TerminateError::AlreadyTerminated(_)) => false,
        },
{
}

/// A launcher that was asked is waited for or has failed, and a wait ends where
/// the process has ended or nothing will be announced any more.
pub proof fn ending_a_process_goes_on(
    st: ProcStatus,
    stage: TerminateStage,
    answer: TerminateAnswer,
    next: TerminateStage,
)
    requires
        follows_terminate(st, stage, answer, next),
    ensures
        (stage is Terminate || stage is Kill) && answer is Signalled ==> next is Await || next is Failed,
        stage is Await && (answer matches TerminateAnswer::Announced { closed } && (closed || st.exited())) ==> next
            is Ended || next is Failed,
        stage is StopAll && answer is Announced && st.exited() ==> next is Ended,
        stage is StopAll && answer == (TerminateAnswer::Announced { closed: false }) && !st.exited() ==> next == stage,
        stage is Ended || stage is Failed ==> next == stage,
{
}

/// A proc that is ready is not marked as stopping before its agent was asked;
/// any other that can be stopped is.
pub proof fn only_procs_without_an_agent_are_marked_at_once(h: BootstrapProcHandle, now: Timestamp)
    ensures
        h.now() is Ready ==> h.first_terminate_status(now) is None,
        h.now() is Starting || h.now() is Running ==> (h.first_terminate_status(now) matches Some(st) && st is Stopping),
        h.now() is Stopping || h.now().exited() ==> h.first_terminate_status(now) is None,
{
}

/// Two statuses say the same only where they are of the same kind and agree in
/// all that a reader can see of them.
pub proof fn same_statuses_agree(a: ProcStatus, b: ProcStatus)
    requires
        a.same_as(b),
    ensures
        a.rank() == b.rank(),
        a.exited() == b.exited(),
        a.started() == b.started(),
        a matches ProcStatus::Stopped { exit_code, stderr_tail } ==> b matches ProcStatus::Stopped {
            exit_code: e,
            stderr_tail: t,
        } && e == exit_code && t@ == stderr_tail@,
        !(a is Stopped) ==> a == b,
        b.same_as(a),
{
}

}
