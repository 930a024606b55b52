//! How the processes of a mesh come up: what they are told, and what they do
//! first.

use crate::channel::addr::{addr_reads_as, addr_text, channel_addr, is_addr_of, leaves_name_open, AddrError, ChannelAddr};
use crate::mesh::host_agent::HostAgentMode;
use crate::name_map::NameMap;
use crate::numerals::{
    all_white_space, ascii_lower, decimal, format_decimal, lemma_lower_trimmed, lemma_trimmed_around, to_ascii_lowercase,
    trim, trimmed,
};
use crate::text::{quote, quoted, same, texts};
use vstd::prelude::*;
use vstd::utf8::{encode_utf8, encode_utf8_valid_utf8, encode_utf8_decode_utf8, decode_utf8, valid_utf8};

verus! {

/// The variable by which a process is told how to come up.
pub const BOOTSTRAP_MODE_ENV: &'static str = "HYPERACTOR_MESH_BOOTSTRAP_MODE";

/// The variable by which a process is told where its own output is sent to it.
pub const BOOTSTRAP_LOG_CHANNEL: &'static str = "BOOTSTRAP_LOG_CHANNEL";

/// The variable by which a process is told its name.
pub const PROCESS_NAME_ENV: &'static str = "HYPERACTOR_PROCESS_NAME";

/// The variable that holds the trace identifier of the client.
pub const CLIENT_TRACE_ID_ENV: &'static str = "MONARCH_CLIENT_TRACE_ID";

/// The identity of a proc.
#[derive(Debug)]
pub enum ProcId {
    /// A proc that is reached at an address, under a name.
    Direct(ChannelAddr, String),
    /// A proc by its place in a world.
    Ranked(String, usize),
}

/// How a `ProcId` is written.
pub open spec fn proc_id_text(id: ProcId) -> Seq<char> {
    match id {
        ProcId::Direct(addr, name) => addr_text(addr@).push(',') + name@,
        ProcId::Ranked(world, rank) => world@.push('[') + decimal(rank as nat) + "]"@,
    }
}

impl Clone for ProcId {
    fn clone(&self) -> (c: ProcId)
        ensures
            c == *self,
    {
        match self {
            ProcId::Direct(addr, name) => ProcId::Direct(addr.clone(), name.clone()),
            ProcId::Ranked(world, rank) => ProcId::Ranked(world.clone(), *rank),
        }
    }
}

impl ProcId {
    /// The identity, written for a reader.
    pub fn display(&self) -> (s: String)
        ensures
            s@ == proc_id_text(*self),
    {
        match self {
            ProcId::Direct(addr, name) => {
                let mut s: String = addr.display();
                s.push(',');
                s.append(name.as_str());
                s
            },
            ProcId::Ranked(world, rank) => {
                let mut s: String = world.clone();
                s.push('[');
                s.append(format_decimal(*rank as u64).as_str());
                s.append("]");
                s
            },
        }
    }
}

/// The command that starts a process.
pub struct BootstrapCommand {
    pub program: String,
    /// The name under which the program is called, if it is another.
    pub arg0: Option<String>,
    pub args: Vec<String>,
    pub env: NameMap<String>,
}

impl BootstrapCommand {
    /// The command that starts the process again that was called with these
    /// arguments, the first of which is the name that it was called under.
    pub fn current(program: String, args: Vec<String>, env: NameMap<String>) -> (c: BootstrapCommand)
        ensures
            c.program == program,
            c.env == env,
            args@.len() == 0 ==> c.arg0 is None && c.args@ == args@,
            args@.len() > 0 ==> c.arg0 == Some(args@[0]) && c.args@ == args@.drop_first(),
    {
        let mut args: Vec<String> = args;
        if args.len() == 0 {
            return BootstrapCommand { program, arg0: None, args, env };
        }
        let ghost all = args@;
        let arg0: String = args.remove(0);
        assert(args@ =~= all.drop_first());
        BootstrapCommand { program, arg0: Some(arg0), args, env }
    }

    /// The command that calls a program without arguments.
    pub fn from_program(program: String) -> (c: BootstrapCommand)
        ensures
            c.program == program,
            c.arg0 is None,
            c.args@.len() == 0,
            c.env.wf(),
            c.env@ == Map::<Seq<char>, String>::empty(),
    {
        BootstrapCommand { program, arg0: None, args: Vec::new(), env: NameMap::new() }
    }
}

/// How a process of a mesh is to come up. A configuration is carried as text.
pub enum Bootstrap {
    /// As a proc.
    Proc {
        /// The proc to come up as.
        proc_id: ProcId,
        /// Where messages for other procs go.
        backend_addr: ChannelAddr,
        /// Where to report that the proc is up.
        callback_addr: ChannelAddr,
        /// The directory in which procs place their sockets.
        socket_dir_path: String,
        config: Option<String>,
    },
    /// As a host.
    Host {
        /// Where to serve the host.
        addr: ChannelAddr,
        /// The command for the procs of the host; the process's own where there is none.
        command: Option<BootstrapCommand>,
        config: Option<String>,
        /// Whether the process exits once the host is shut down.
        exit_on_shutdown: bool,
    },
    /// As a process that an allocator directs.
    V0ProcMesh { config: Option<String> },
}

impl Default for Bootstrap {
    fn default() -> (b: Bootstrap)
        ensures
            b == (Bootstrap::V0ProcMesh { config: None }),
    {
        Bootstrap::V0ProcMesh { config: None }
    }
}

/// The standard base64 text of bytes.
pub uninterp spec fn base64_text(bytes: Seq<u8>) -> Seq<char>;

/// The bytes that a standard base64 text stands for, or why it is none.
pub uninterp spec fn base64_bytes(text: Seq<char>) -> Result<Seq<u8>, Seq<char>>;

/// Calls `encode` of base64's standard engine: the text for the bytes, in the
/// standard alphabet and with padding.
#[verifier::external_body]
fn base64_encode(bytes: &[u8]) -> (s: String)
    ensures
        s@ == base64_text(bytes@),
{
    base64::Engine::encode(&base64::prelude::BASE64_STANDARD, bytes)
}

/// Whether what was decoded is what `expected` says.
pub open spec fn decodes_as(r: Result<Vec<u8>, String>, expected: Result<Seq<u8>, Seq<char>>) -> bool {
    match r {
        Ok(bytes) => expected == Ok::<Seq<u8>, Seq<char>>(bytes@),
        Err(e) => expected == Err::<Seq<u8>, Seq<char>>(e@),
    }
}

/// Calls `decode` of base64's standard engine: the bytes that the text stands
/// for, or the error of the crate as it writes it. What `encode` of the same
/// engine made of some bytes decodes to those bytes.
#[verifier::external_body]
fn base64_decode(text: &str) -> (r: Result<Vec<u8>, String>)
    ensures
        decodes_as(r, base64_bytes(text@)),
        forall|bytes: Seq<u8>| #[trigger] base64_text(bytes) == text@ ==> decodes_as(r, Ok(bytes)),
{
    base64::Engine::decode(&base64::prelude::BASE64_STANDARD, text).map_err(|e| e.to_string())
}

/// Calls `String::from_utf8`: the text that the bytes encode, where they are UTF-8.
#[verifier::external_body]
fn from_utf8(bytes: Vec<u8>) -> (r: Option<String>)
    ensures
        match r {
            Some(s) => valid_utf8(bytes@) && s@ == decode_utf8(bytes@),
            None => !valid_utf8(bytes@),
        },
{
    String::from_utf8(bytes).ok()
}

/// Why the way to come up could not be read.
#[derive(Debug)]
pub enum EnvStringError {
    /// The text is no base64; with the cause.
    Base64(String),
    /// What it stands for is no text.
    Utf8,
}

/// How a text is put into the environment.
pub open spec fn env_safe(text: Seq<char>) -> Seq<char> {
    base64_text(encode_utf8(text))
}

/// Whether `r` is what decoded bytes come to: the text that they encode.
pub open spec fn is_decoded_text(decoded: Result<Seq<u8>, Seq<char>>, r: Result<String, EnvStringError>) -> bool {
    match decoded {
        Ok(bytes) => if valid_utf8(bytes) {
            r matches Ok(s) && s@ == decode_utf8(bytes)
        } else {
            r matches Err(EnvStringError::Utf8)
        },
        Err(e) => r matches Err(EnvStringError::Base64(m)) && m@ == e,
    }
}

impl Bootstrap {
    /// The text, given in JSON, of a way to come up, as it is put into the
    /// environment: in base64.
    pub fn to_env_safe_string(json: &str) -> (s: String)
        ensures
            s@ == env_safe(json@),
    {
        base64_encode(json.as_bytes())
    }

    /// What decoded bytes come to: the text that they encode.
    pub fn from_decoded(decoded: Result<Vec<u8>, String>) -> (r: Result<String, EnvStringError>)
        ensures
            match decoded {
                Ok(bytes) => if valid_utf8(bytes@) {
                    r matches Ok(s) && s@ == decode_utf8(bytes@)
                } else {
                    r matches Err(EnvStringError::Utf8)
                },
                Err(e) => r == Err::<String, EnvStringError>(EnvStringError::Base64(e)),
            },
    {
        match decoded {
            Ok(bytes) => match from_utf8(bytes) {
                Some(s) => Ok(s),
                None => Err(EnvStringError::Utf8),
            },
            Err(e) => Err(EnvStringError::Base64(e)),
        }
    }

    /// The text, in JSON, of a way to come up, from how it is put into the
    /// environment. What was put there comes back as it was.
    pub fn from_env_safe_string(text: &str) -> (r: Result<String, EnvStringError>)
        ensures
            is_decoded_text(base64_bytes(text@), r),
            forall|json: Seq<char>| #[trigger] env_safe(json) == text@ ==> (r matches Ok(s) && s@ == json),
    {
        let decoded: Result<Vec<u8>, String> = base64_decode(text);
        let ghost held = decoded;
        let r: Result<String, EnvStringError> = Bootstrap::from_decoded(decoded);
        proof {
            assert forall|json: Seq<char>| #[trigger] env_safe(json) == text@ implies (r matches Ok(s) && s@
                == json) by {
                let bytes = encode_utf8(json);
                assert(base64_text(bytes) == text@);
                encode_utf8_valid_utf8(json);
                encode_utf8_decode_utf8(json);
            }
        }
        r
    }
}

/// What the environment says of a variable.
pub enum EnvVar {
    Held(String),
    NotPresent,
    /// It is set to what is no text; with the error.
    NotUnicode(String),
}

/// Why the environment does not say how to come up.
pub enum EnvError {
    /// The variable could not be read; with the error.
    Reading(String),
    /// What the variable holds could not be read.
    Parsing(EnvStringError),
}

/// How the context of an `EnvError` is written.
pub open spec fn env_error_context(e: EnvError) -> Seq<char> {
    match e {
        EnvError::Reading(_) => "reading HYPERACTOR_MESH_BOOTSTRAP_MODE"@,
        EnvError::Parsing(_) => "parsing HYPERACTOR_MESH_BOOTSTRAP_MODE"@,
    }
}

impl EnvError {
    /// What was being done, written for a reader.
    pub fn context(&self) -> (s: String)
        ensures
            s@ == env_error_context(*self),
    {
        match self {
            EnvError::Reading(_) => "reading HYPERACTOR_MESH_BOOTSTRAP_MODE".to_owned(),
            EnvError::Parsing(_) => "parsing HYPERACTOR_MESH_BOOTSTRAP_MODE".to_owned(),
        }
    }
}

impl Bootstrap {
    /// The text, in JSON, of the way to come up that the environment names;
    /// none where it names none.
    pub fn get_from_env(mode: EnvVar) -> (r: Result<Option<String>, EnvError>)
        ensures
            match mode {
                EnvVar::NotPresent => r matches Ok(None),
                EnvVar::NotUnicode(e) => r == Err::<Option<String>, EnvError>(EnvError::Reading(e)),
                EnvVar::Held(text) => {
                    &&& match r {
                        Ok(Some(json)) => is_decoded_text(base64_bytes(text@), Ok(json)),
                        Ok(None) => false,
                        Err(EnvError::Parsing(e)) => is_decoded_text(base64_bytes(text@), Err(e)),
                        Err(EnvError::Reading(_)) => false,
                    }
                    &&& forall|json: Seq<char>| #[trigger]
                        env_safe(json) == text@ ==> (r matches Ok(Some(s)) && s@ == json)
                },
            },
    {
        match mode {
            EnvVar::NotPresent => Ok(None),
            EnvVar::NotUnicode(e) => Err(EnvError::Reading(e)),
            EnvVar::Held(text) => match Bootstrap::from_env_safe_string(text.as_str()) {
                Ok(json) => Ok(Some(json)),
                Err(e) => Err(EnvError::Parsing(e)),
            },
        }
    }
}

/// How a process is supervised.
#[derive(Debug, Clone, Copy, PartialEq, Eq, Structural)]
pub enum LauncherKind {
    /// As a child of this process.
    Native,
    /// By systemd.
    Systemd,
}

/// The launcher that a setting names, in any case and with white space around
/// it; none where there is no such launcher.
pub open spec fn launcher_kind(s: Seq<char>) -> Option<LauncherKind> {
    let t = ascii_lower(trimmed(s));
    if t.len() == 0 || t == "native"@ {
        Some(LauncherKind::Native)
    } else if t == "systemd"@ {
        Some(LauncherKind::Systemd)
    } else {
        None
    }
}

/// The launcher for a setting.
pub open spec fn launcher_for(s: Seq<char>) -> LauncherKind {
    match launcher_kind(s) {
        Some(kind) => kind,
        None => LauncherKind::Native,
    }
}

/// Processes are children of this one unless the setting names systemd: what
/// names nothing, or nothing known, changes nothing.
pub proof fn only_systemd_is_asked_for_by_name(s: Seq<char>)
    ensures
        launcher_for(s) is Systemd <==> ascii_lower(trimmed(s)) == "systemd"@,
        launcher_kind(s) matches Some(kind) ==> kind == launcher_for(s),
        trimmed(s).len() == 0 ==> launcher_kind(s) == Some(LauncherKind::Native),
        ascii_lower(trimmed(s)) == "native"@ ==> launcher_kind(s) == Some(LauncherKind::Native),
        launcher_kind(s) is None ==> ascii_lower(trimmed(s)) != "native"@ && ascii_lower(trimmed(s)) != "systemd"@
            && trimmed(s).len() > 0,
{
    reveal_strlit("native");
    reveal_strlit("systemd");
    assert("native"@.len() == 6 && "systemd"@.len() == 7);
    assert(ascii_lower(trimmed(s)).len() == trimmed(s).len());
}

/// A setting names the same launcher in upper and in lower case.
pub proof fn launcher_ignores_case(s: Seq<char>, t: Seq<char>)
    requires
        ascii_lower(s) == ascii_lower(t),
    ensures
        launcher_kind(s) == launcher_kind(t),
{
    lemma_lower_trimmed(s);
    lemma_lower_trimmed(t);
}

/// A setting names the same launcher with white space around it.
pub proof fn launcher_ignores_white_space(before: Seq<char>, s: Seq<char>, after: Seq<char>)
    requires
        all_white_space(before),
        all_white_space(after),
    ensures
        launcher_kind(before + s + after) == launcher_kind(s),
{
    lemma_trimmed_around(before, s, after);
}

/// There is no launcher of that name.
#[derive(Debug)]
pub struct UnknownLauncher(pub String);

impl UnknownLauncher {
    /// The error, written for a reader.
    pub fn text(&self) -> (s: String)
        ensures
            s@ == "unknown proc launcher kind "@ + quoted(self.0@) + "; expected 'native' or 'systemd'"@,
    {
        let mut s: String = "unknown proc launcher kind ".to_owned();
        s.append(quote(self.0.as_str()).as_str());
        s.append("; expected 'native' or 'systemd'");
        s
    }
}

impl LauncherKind {
    /// The launcher that a setting names.
    pub fn from_str(s: &str) -> (r: Result<LauncherKind, UnknownLauncher>)
        ensures
            match r {
                Ok(kind) => launcher_kind(s@) == Some(kind),
                Err(UnknownLauncher(t)) => launcher_kind(s@) is None && t@ == ascii_lower(trimmed(s@)),
            },
    {
        let t: String = to_ascii_lowercase(trim(s).as_str());
        proof {
            reveal_strlit("native");
            reveal_strlit("systemd");
            assert("native"@.len() != "systemd"@.len());
        }
        if t.as_str().is_empty() || same(t.as_str(), "native") {
            Ok(LauncherKind::Native)
        } else if same(t.as_str(), "systemd") {
            Ok(LauncherKind::Systemd)
        } else {
            Err(UnknownLauncher(t))
        }
    }

    /// The launcher for a setting: the native one where it names none.
    pub fn for_setting(s: &str) -> (kind: LauncherKind)
        ensures
            kind == launcher_for(s@),
    {
        match LauncherKind::from_str(s) {
            Ok(kind) => kind,
            Err(_) => LauncherKind::Native,
        }
    }
}

/// What came of asking the system to kill this process when its parent dies.
#[derive(Debug, Clone, Copy, PartialEq, Eq, Structural)]
pub enum PdeathsigOutcome {
    /// It will.
    Installed,
    /// It will not.
    Failed,
    /// The parent had died already: exit.
    ParentGone,
}

/// What came of asking the system to kill this process when its parent dies:
/// `before` and `after` are the parent before and after, `rc` what the system
/// answered. A parent that died in between would not be noticed otherwise.
pub fn install_pdeathsig_kill(before: i32, rc: i32, after: i32) -> (r: PdeathsigOutcome)
    ensures
        r == pdeathsig_outcome(before, rc, after),
{
    if rc != 0 {
        PdeathsigOutcome::Failed
    } else if before != after {
        PdeathsigOutcome::ParentGone
    } else {
        PdeathsigOutcome::Installed
    }
}

/// What came of asking the system to kill this process when its parent dies.
pub open spec fn pdeathsig_outcome(before: i32, rc: i32, after: i32) -> PdeathsigOutcome {
    if rc != 0 {
        PdeathsigOutcome::Failed
    } else if before != after {
        PdeathsigOutcome::ParentGone
    } else {
        PdeathsigOutcome::Installed
    }
}

/// A process counts on being killed with its parent only where the system took
/// the request and the parent is still the one that it was; that the parent went
/// away is noticed only where the system took the request.
pub proof fn a_parent_that_died_is_noticed(before: i32, rc: i32, after: i32)
    ensures
        pdeathsig_outcome(before, rc, after) is Installed <==> rc == 0 && before == after,
        pdeathsig_outcome(before, rc, after) is ParentGone <==> rc == 0 && before != after,
        pdeathsig_outcome(before, rc, after) is Failed <==> rc != 0,
{
}

/// A line for each text, set in twice.
pub open spec fn inset_lines(lines: Seq<Seq<char>>) -> Seq<char>
    decreases lines.len(),
{
    if lines.len() == 0 {
        Seq::empty()
    } else {
        inset_lines(lines.drop_last()) + "\t\t"@ + lines.last() + "\n"@
    }
}

/// A variable and its value, as one text.
pub open spec fn setting_text(v: (String, String)) -> Seq<char> {
    v.0@ + "="@ + v.1@
}

/// What a process says of itself when it begins to come up.
pub open spec fn boot_report_text(
    pid: u32,
    parent: Option<u32>,
    config: Seq<char>,
    exe: Result<String, String>,
    args: Seq<String>,
    env: Seq<(String, String)>,
) -> Seq<char> {
    let head = "bootstrapping "@ + decimal(pid as nat) + ":\n"@;
    let parent = match parent {
        Some(parent) => "\tparent pid: "@ + decimal(parent as nat) + "\n"@,
        None => Seq::<char>::empty(),
    };
    let exe = match exe {
        Ok(path) => "\tcurrent_exe: "@ + path@ + "\n"@,
        Err(e) => "\tcurrent_exe: error<"@ + e@ + ">\n"@,
    };
    head + parent + "\tconfig: "@ + config + "\n"@ + exe + "\targs:\n"@ + inset_lines(texts(args)) + "\tenv:\n"@
        + inset_lines(env.map_values(|v: (String, String)| setting_text(v)))
}

/// What a process says of itself when it begins to come up: its number and that
/// of its parent, how it is to come up, its program, arguments and environment.
pub fn boot_report(
    pid: u32,
    parent: Option<u32>,
    config: &str,
    exe: Result<String, String>,
    args: &Vec<String>,
    env: &Vec<(String, String)>,
) -> (s: String)
    ensures
        s@ == boot_report_text(pid, parent, config@, exe, args@, env@),
{
    let mut s: String = "bootstrapping ".to_owned();
    s.append(format_decimal(pid as u64).as_str());
    s.append(":\n");
    let mut p: String = String::new();
    if let Some(parent) = parent {
        p.append("\tparent pid: ");
        p.append(format_decimal(parent as u64).as_str());
        p.append("\n");
        assert(p@ =~= "\tparent pid: "@ + decimal(parent as nat) + "\n"@);
    }
    s.append(p.as_str());
    s.append("\tconfig: ");
    s.append(config);
    s.append("\n");
    let mut e: String = "\tcurrent_exe: ".to_owned();
    match &exe {
        Ok(path) => {
            e.append(path.as_str());
            e.append("\n");
        },
        Err(cause) => {
            e = "\tcurrent_exe: error<".to_owned();
            e.append(cause.as_str());
            e.append(">\n");
        },
    }
    s.append(e.as_str());
    s.append("\targs:\n");
    s.append(inset(args).as_str());
    s.append("\tenv:\n");
    let settings: Vec<String> = setting_lines(env);
    s.append(inset(&settings).as_str());
    s
}

fn inset(lines: &Vec<String>) -> (s: String)
    ensures
        s@ == inset_lines(texts(lines@)),
{
    let mut s: String = String::new();
    let mut i: usize = 0;
    assert(texts(lines@).take(0) =~= Seq::<Seq<char>>::empty());
    while i < lines.len()
        invariant
            i <= lines@.len(),
            s@ == inset_lines(texts(lines@).take(i as int)),
        decreases lines@.len() - i,
    {
        s.append("\t\t");
        s.append(lines[i].as_str());
        s.append("\n");
        proof {
            let more = texts(lines@).take(i + 1);
            assert(more.drop_last() =~= texts(lines@).take(i as int));
            assert(more.last() == lines@[i as int]@);
        }
        i = i + 1;
    }
    assert(texts(lines@).take(lines@.len() as int) =~= texts(lines@));
    s
}

fn setting_lines(env: &Vec<(String, String)>) -> (lines: Vec<String>)
    ensures
        texts(lines@) == env@.map_values(|v: (String, String)| setting_text(v)),
{
    let mut lines: Vec<String> = Vec::new();
    let mut i: usize = 0;
    while i < env.len()
        invariant
            i <= env@.len(),
            lines@.len() == i,
            forall|j: int| 0 <= j < i ==> (#[trigger] lines@[j])@ == setting_text(env@[j]),
        decreases env@.len() - i,
    {
        let mut line: String = env[i].0.clone();
        line.append("=");
        line.append(env[i].1.as_str());
        lines.push(line);
        i = i + 1;
    }
    assert(texts(lines@) =~= env@.map_values(|v: (String, String)| setting_text(v)));
    lines
}

/// A path in a directory: the name itself where it is absolute.
pub open spec fn joined_path(dir: Seq<char>, name: Seq<char>) -> Seq<char> {
    if name.len() > 0 && name[0] == '/' {
        name
    } else if dir.len() == 0 || dir.last() == '/' {
        dir + name
    } else {
        dir.push('/') + name
    }
}

fn join_path(dir: &str, name: &str) -> (s: String)
    ensures
        s@ == joined_path(dir@, name@),
{
    let d: Vec<char> = crate::text::chars(dir);
    let n: Vec<char> = crate::text::chars(name);
    if n.len() > 0 && n[0] == '/' {
        return name.to_owned();
    }
    let mut s: String = dir.to_owned();
    if d.len() > 0 && d[d.len() - 1] != '/' {
        s.push('/');
    }
    s.append(name);
    s
}

/// Where a proc is served: at a socket of its name in the directory for sockets.
pub open spec fn serve_text(socket_dir: Seq<char>, name: Seq<char>) -> Seq<char> {
    "unix:"@ + joined_path(socket_dir, name)
}

/// Whether the address to serve at was read from a text.
pub open spec fn serves_at(serve_addr: Result<ChannelAddr, AddrError>, s: Seq<char>) -> bool {
    match serve_addr {
        Ok(addr) => is_addr_of(addr, s),
        Err(e) => addr_reads_as(serve_addr, channel_addr(s, Seq::<char>::empty())) && !leaves_name_open(s),
    }
}

/// A layer of the configuration.
#[derive(Debug, Clone, Copy, PartialEq, Eq, Structural)]
pub enum ConfigLayer {
    /// What was set while the process ran.
    Runtime,
    /// What the client overrides: it takes precedence over the defaults.
    ClientOverride,
}

/// What is installed of a configuration that a process was handed: all of it,
/// as what the client overrides; nothing where none was handed over.
pub open spec fn to_install(config: Option<String>) -> Option<(ConfigLayer, String)> {
    match config {
        Some(c) => Some((ConfigLayer::ClientOverride, c)),
        None => None,
    }
}

fn installed(config: Option<String>) -> (install: Option<(ConfigLayer, String)>)
    ensures
        install == to_install(config),
{
    match config {
        Some(c) => Some((ConfigLayer::ClientOverride, c)),
        None => None,
    }
}

/// What is to be done next for a proc to come up.
#[derive(Debug)]
pub enum ProcStage {
    /// Install the configuration as that layer.
    Install(ConfigLayer, String),
    /// Read from the configuration, as it now stands, whether the process is to
    /// be killed with its parent.
    ReadPdeathsig,
    /// Have the process killed with its parent.
    SetPdeathsig,
    /// Connect to the backend.
    DialBackend,
    /// Start the agent of the proc.
    StartAgent,
    /// Serve the proc at its address.
    Serve,
    /// Report the address and the agent.
    Report,
    /// Wait for the code with which to exit.
    AwaitShutdown,
    /// Stop serving the proc, then exit with that code.
    Exit(i32),
    /// The proc cannot come up.
    Failed(String),
}

/// What came of a stage.
pub enum ProcAnswer {
    Installed,
    /// Whether the process is to be killed with its parent.
    Pdeathsig(bool),
    /// It was tried to have the process killed with its parent, whatever came of it.
    PdeathsigTried,
    Dialed(Result<(), String>),
    AgentStarted(Result<(), String>),
    Serving(Result<(), String>),
    Reported(Result<(), String>),
    /// The code with which to exit; none where nobody will say.
    Shutdown(Option<i32>),
}

/// The first stage.
pub open spec fn first_proc_stage(install: Option<(ConfigLayer, String)>) -> ProcStage {
    match install {
        Some((layer, config)) => ProcStage::Install(layer, config),
        None => ProcStage::ReadPdeathsig,
    }
}

/// The stage at which the proc itself begins to come up, if it can be one.
pub open spec fn proc_begins(boot: Result<ProcBoot, String>) -> ProcStage {
    match boot {
        Ok(_) => ProcStage::DialBackend,
        Err(e) => ProcStage::Failed(e),
    }
}

/// The stage that follows; an answer to something else changes nothing.
pub open spec fn next_proc_stage(boot: Result<ProcBoot, String>, stage: ProcStage, answer: ProcAnswer) -> ProcStage {
    match (stage, answer) {
        (ProcStage::Install(..), ProcAnswer::Installed) => ProcStage::ReadPdeathsig,
        (ProcStage::ReadPdeathsig, ProcAnswer::Pdeathsig(wanted)) => if wanted {
            ProcStage::SetPdeathsig
        } else {
            proc_begins(boot)
        },
        (ProcStage::SetPdeathsig, ProcAnswer::PdeathsigTried) => proc_begins(boot),
        (ProcStage::DialBackend, ProcAnswer::Dialed(r)) => match r {
            Ok(_) => ProcStage::StartAgent,
            Err(e) => ProcStage::Failed(e),
        },
        (ProcStage::StartAgent, ProcAnswer::AgentStarted(r)) => match r {
            Ok(_) => ProcStage::Serve,
            Err(e) => ProcStage::Failed(e),
        },
        (ProcStage::Serve, ProcAnswer::Serving(r)) => match r {
            Ok(_) => ProcStage::Report,
            Err(e) => ProcStage::Failed(e),
        },
        (ProcStage::Report, ProcAnswer::Reported(r)) => match r {
            Ok(_) => ProcStage::AwaitShutdown,
            Err(e) => ProcStage::Failed(e),
        },
        (ProcStage::AwaitShutdown, ProcAnswer::Shutdown(code)) => match code {
            Some(code) => ProcStage::Exit(code),
            None => ProcStage::Exit(1),
        },
        (stage, _) => stage,
    }
}

/// What a proc needs to come up.
pub struct ProcBoot {
    /// The proc to come up as.
    pub proc_id: ProcId,
    /// The address in the proc's identity, at which the procs of its host are known.
    pub local_addr: ChannelAddr,
    /// Where messages for other procs go.
    pub backend_addr: ChannelAddr,
    /// Where to serve the proc.
    pub serve_addr: Result<ChannelAddr, AddrError>,
    /// Where to report that the proc is up.
    pub callback_addr: ChannelAddr,
    /// The directory in which procs place their sockets.
    pub socket_dir_path: String,
}

/// What a process does first: it installs the configuration that it was handed,
/// if there is one, and then does what its variant says.
pub enum BootPlan {
    /// Come up as a proc, if it can be one.
    Proc { install: Option<(ConfigLayer, String)>, boot: Result<ProcBoot, String> },
    /// Serve a host, and run for good.
    Host {
        install: Option<(ConfigLayer, String)>,
        addr: ChannelAddr,
        command: Option<BootstrapCommand>,
        exit_on_shutdown: bool,
    },
    /// Do as an allocator directs.
    V0ProcMesh { install: Option<(ConfigLayer, String)> },
}

/// Whether a proc comes up as it was told, where only a proc that is reached at
/// an address can come up by itself.
pub open spec fn is_boot_of(
    proc_id: ProcId,
    backend_addr: ChannelAddr,
    callback_addr: ChannelAddr,
    socket_dir_path: String,
    boot: Result<ProcBoot, String>,
) -> bool {
    match proc_id {
        ProcId::Direct(addr, name) => {
            &&& boot matches Ok(b)
            &&& b.proc_id == proc_id
            &&& b.local_addr == addr
            &&& b.backend_addr == backend_addr
            &&& b.callback_addr == callback_addr
            &&& b.socket_dir_path == socket_dir_path
            &&& serves_at(b.serve_addr, serve_text(socket_dir_path@, name@))
        },
        ProcId::Ranked(..) => boot matches Err(e) && e@ == "invalid proc id type: "@ + proc_id_text(proc_id),
    }
}

/// Whether a plan does what a process was told.
pub open spec fn is_plan_for(mode: Bootstrap, plan: BootPlan) -> bool {
    match mode {
        Bootstrap::Proc { proc_id, backend_addr, callback_addr, socket_dir_path, config } => {
            &&& plan matches BootPlan::Proc { install, boot }
            &&& install == to_install(config)
            &&& is_boot_of(proc_id, backend_addr, callback_addr, socket_dir_path, boot)
        },
        Bootstrap::Host { addr, command, config, exit_on_shutdown } => plan == (BootPlan::Host {
            install: to_install(config),
            addr,
            command,
            exit_on_shutdown,
        }),
        Bootstrap::V0ProcMesh { config } => plan == (BootPlan::V0ProcMesh { install: to_install(config) }),
    }
}

impl Bootstrap {
    /// What the process does first. Only a proc that is reached at an address
    /// can come up by itself.
    pub fn bootstrap(self) -> (plan: BootPlan)
        ensures
            is_plan_for(self, plan),
    {
        match self {
            Bootstrap::Proc { proc_id, backend_addr, callback_addr, socket_dir_path, config } => {
                let boot: Result<ProcBoot, String> = match &proc_id {
                    ProcId::Direct(addr, name) => {
                        let path: String = join_path(socket_dir_path.as_str(), name.as_str());
                        let mut text: String = "unix:".to_owned();
                        text.append(path.as_str());
                        let serve_addr: Result<ChannelAddr, AddrError> = ChannelAddr::from_str(text.as_str());
                        Ok(
                            ProcBoot {
                                proc_id: proc_id.clone(),
                                local_addr: addr.clone(),
                                backend_addr,
                                serve_addr,
                                callback_addr,
                                socket_dir_path,
                            },
                        )
                    },
                    ProcId::Ranked(..) => {
                        let mut e: String = "invalid proc id type: ".to_owned();
                        e.append(proc_id.display().as_str());
                        Err(e)
                    },
                };
                BootPlan::Proc { install: installed(config), boot }
            },
            Bootstrap::Host { addr, command, config, exit_on_shutdown } => BootPlan::Host {
                install: installed(config),
                addr,
                command,
                exit_on_shutdown,
            },
            Bootstrap::V0ProcMesh { config } => BootPlan::V0ProcMesh { install: installed(config) },
        }
    }
}

/// Begins to come up as a proc.
pub fn begin_proc(install: Option<(ConfigLayer, String)>) -> (stage: ProcStage)
    ensures
        stage == first_proc_stage(install),
{
    match install {
        Some((layer, config)) => ProcStage::Install(layer, config),
        None => ProcStage::ReadPdeathsig,
    }
}

fn boot_stage(boot: &Result<ProcBoot, String>) -> (stage: ProcStage)
    ensures
        stage == proc_begins(*boot),
{
    match boot {
        Ok(_) => ProcStage::DialBackend,
        Err(e) => ProcStage::Failed(e.clone()),
    }
}

/// Goes on with coming up as a proc.
pub fn continue_proc(boot: &Result<ProcBoot, String>, stage: ProcStage, answer: ProcAnswer) -> (next: ProcStage)
    ensures
        next == next_proc_stage(*boot, stage, answer),
{
    match (stage, answer) {
        (ProcStage::Install(..), ProcAnswer::Installed) => ProcStage::ReadPdeathsig,
        (ProcStage::ReadPdeathsig, ProcAnswer::Pdeathsig(wanted)) => if wanted {
            ProcStage::SetPdeathsig
        } else {
            boot_stage(boot)
        },
        (ProcStage::SetPdeathsig, ProcAnswer::PdeathsigTried) => boot_stage(boot),
        (ProcStage::DialBackend, ProcAnswer::Dialed(r)) => match r {
            Ok(_) => ProcStage::StartAgent,
            Err(e) => ProcStage::Failed(e),
        },
        (ProcStage::StartAgent, ProcAnswer::AgentStarted(r)) => match r {
            Ok(_) => ProcStage::Serve,
            Err(e) => ProcStage::Failed(e),
        },
        (ProcStage::Serve, ProcAnswer::Serving(r)) => match r {
            Ok(_) => ProcStage::Report,
            Err(e) => ProcStage::Failed(e),
        },
        (ProcStage::Report, ProcAnswer::Reported(r)) => match r {
            Ok(_) => ProcStage::AwaitShutdown,
            Err(e) => ProcStage::Failed(e),
        },
        (ProcStage::AwaitShutdown, ProcAnswer::Shutdown(code)) => match code {
            Some(code) => ProcStage::Exit(code),
            None => ProcStage::Exit(1),
        },
        (stage, _) => stage,
    }
}

/// A configuration that was handed over is installed before anything is read
/// from the configuration: it is the first thing done, and the setting that has
/// the process killed with its parent is read only afterwards.
pub proof fn settings_are_read_once_installed(
    mode: Bootstrap,
    plan: BootPlan,
    boot: Result<ProcBoot, String>,
    stage: ProcStage,
    answer: ProcAnswer,
)
    requires
        is_plan_for(mode, plan),
    ensures
        plan matches BootPlan::Proc { install, .. } ==> (mode matches Bootstrap::Proc { config: Some(c), .. }
            ==> first_proc_stage(install) == ProcStage::Install(ConfigLayer::ClientOverride, c)),
        next_proc_stage(boot, stage, answer) is ReadPdeathsig ==> stage is ReadPdeathsig || (stage is Install && answer
            is Installed),
        next_proc_stage(boot, stage, answer) is DialBackend ==> stage is DialBackend || stage is SetPdeathsig || (stage
            is ReadPdeathsig && answer == ProcAnswer::Pdeathsig(false)),
        next_proc_stage(boot, stage, answer) is SetPdeathsig ==> stage is SetPdeathsig || (stage is ReadPdeathsig
            && answer == ProcAnswer::Pdeathsig(true)),
{
}

/// A proc is reported only after its agent was started and it is served, and
/// exits only after it was reported.
pub proof fn a_proc_comes_up_in_order(boot: Result<ProcBoot, String>, stage: ProcStage, answer: ProcAnswer)
    ensures
        next_proc_stage(boot, stage, answer) is Report ==> stage is Report || (stage is Serve && answer
            matches ProcAnswer::Serving(Ok(_))),
        next_proc_stage(boot, stage, answer) is Serve ==> stage is Serve || (stage is StartAgent && answer
            matches ProcAnswer::AgentStarted(Ok(_))),
        next_proc_stage(boot, stage, answer) is Exit ==> stage is Exit || stage is AwaitShutdown,
        next_proc_stage(boot, stage, answer) is AwaitShutdown ==> stage is AwaitShutdown || (stage is Report && answer
            matches ProcAnswer::Reported(Ok(_))),
{
}

/// What is to be done next for a host to come up.
pub enum HostStage {
    /// Install the configuration as that layer. The command for the procs is the
    /// one that was handed over, if there is one.
    Install { layer: ConfigLayer, config: String, given: Option<BootstrapCommand> },
    /// Find the command that started this process.
    FindCommand,
    /// Serve a host that starts its procs with that command.
    Serve { command: BootstrapCommand },
    /// Start the agent of the host, which runs its procs in that way.
    StartAgent { mode: HostAgentMode },
    /// Run for good.
    Run,
    /// The host cannot come up.
    Failed(String),
}

/// What came of a stage.
pub enum HostAnswer {
    Installed,
    Command(Result<BootstrapCommand, String>),
    Served(Result<(), String>),
    AgentStarted(Result<(), String>),
}

/// The stage once the command is known, or has to be found.
pub open spec fn command_stage(command: Option<BootstrapCommand>) -> HostStage {
    match command {
        Some(command) => HostStage::Serve { command },
        None => HostStage::FindCommand,
    }
}

/// The first stage.
pub open spec fn first_host_stage(
    install: Option<(ConfigLayer, String)>,
    command: Option<BootstrapCommand>,
) -> HostStage {
    match install {
        Some((layer, config)) => HostStage::Install { layer, config, given: command },
        None => command_stage(command),
    }
}

/// The stage that follows; an answer to something else changes nothing.
pub open spec fn next_host_stage(exit_on_shutdown: bool, stage: HostStage, answer: HostAnswer) -> HostStage {
    match (stage, answer) {
        (HostStage::Install { given, .. }, HostAnswer::Installed) => command_stage(given),
        (HostStage::FindCommand, HostAnswer::Command(r)) => match r {
            Ok(command) => HostStage::Serve { command },
            Err(e) => HostStage::Failed(e),
        },
        (HostStage::Serve { .. }, HostAnswer::Served(r)) => match r {
            Ok(_) => HostStage::StartAgent { mode: HostAgentMode::Process { exit_on_shutdown } },
            Err(e) => HostStage::Failed(e),
        },
        (HostStage::StartAgent { .. }, HostAnswer::AgentStarted(r)) => match r {
            Ok(_) => HostStage::Run,
            Err(e) => HostStage::Failed(e),
        },
        (stage, _) => stage,
    }
}

fn after_install(command: Option<BootstrapCommand>) -> (stage: HostStage)
    ensures
        stage == command_stage(command),
{
    match command {
        Some(command) => HostStage::Serve { command },
        None => HostStage::FindCommand,
    }
}

/// Begins to bring a host up.
pub fn host(install: Option<(ConfigLayer, String)>, command: Option<BootstrapCommand>) -> (stage: HostStage)
    ensures
        stage == first_host_stage(install, command),
{
    match install {
        Some((layer, config)) => HostStage::Install { layer, config, given: command },
        None => after_install(command),
    }
}

/// Goes on with bringing a host up. The process exits after a shutdown if
/// `exit_on_shutdown` says so.
pub fn continue_host(exit_on_shutdown: bool, stage: HostStage, answer: HostAnswer) -> (next: HostStage)
    ensures
        next == next_host_stage(exit_on_shutdown, stage, answer),
{
    match (stage, answer) {
        (HostStage::Install { given, .. }, HostAnswer::Installed) => after_install(given),
        (HostStage::FindCommand, HostAnswer::Command(r)) => match r {
            Ok(command) => HostStage::Serve { command },
            Err(e) => HostStage::Failed(e),
        },
        (HostStage::Serve { .. }, HostAnswer::Served(r)) => match r {
            Ok(_) => HostStage::StartAgent { mode: HostAgentMode::Process { exit_on_shutdown } },
            Err(e) => HostStage::Failed(e),
        },
        (HostStage::StartAgent { .. }, HostAnswer::AgentStarted(r)) => match r {
            Ok(_) => HostStage::Run,
            Err(e) => HostStage::Failed(e),
        },
        (stage, _) => stage,
    }
}

/// A command that was handed over is the one that a host starts its procs with,
/// whatever configuration is installed before.
pub proof fn the_given_command_is_used(
    install: Option<(ConfigLayer, String)>,
    command: BootstrapCommand,
    exit_on_shutdown: bool,
)
    ensures
        install is None ==> first_host_stage(install, Some(command)) == (HostStage::Serve { command }),
        install is Some ==> next_host_stage(
            exit_on_shutdown,
            first_host_stage(install, Some(command)),
            HostAnswer::Installed,
        ) == (HostStage::Serve { command }),
{
}

/// Whether the process exits with its host is what it was told: an agent is
/// started to run its procs in processes, and to exit or not to exit as the
/// argument says. Each step comes after the one before it went well, and a host
/// that cannot come up tells why.
pub proof fn hosts_exit_as_they_were_told(exit_on_shutdown: bool, stage: HostStage, answer: HostAnswer)
    ensures
        ({
            let next = next_host_stage(exit_on_shutdown, stage, answer);
            next != stage ==> (match next {
                HostStage::Install { .. } => false,
                HostStage::FindCommand => answer is Installed && (stage matches HostStage::Install { given, .. } && given
                    is None),
                HostStage::Serve { command } => match answer {
                    HostAnswer::Installed => stage matches HostStage::Install { given, .. } && given == Some(command),
                    HostAnswer::Command(r) => stage is FindCommand && r == Ok::<BootstrapCommand, String>(command),
                    _ => false,
                },
                HostStage::StartAgent { mode } => stage is Serve && (answer matches HostAnswer::Served(Ok(_))) && (
                mode matches HostAgentMode::Process { exit_on_shutdown: exits } && exits == exit_on_shutdown),
                HostStage::Run => stage is StartAgent && (answer matches HostAnswer::AgentStarted(Ok(_))),
                HostStage::Failed(e) => match answer {
                    HostAnswer::Command(r) => stage is FindCommand && r == Err::<BootstrapCommand, String>(e),
                    HostAnswer::Served(r) => stage is Serve && r == Err::<(), String>(e),
                    HostAnswer::AgentStarted(r) => stage is StartAgent && r == Err::<(), String>(e),
                    HostAnswer::Installed => false,
                },
            })
        }),
{
}

/// An answer to what a stage asks for ends the stage.
pub proof fn answered_host_steps_are_left(exit_on_shutdown: bool, stage: HostStage, answer: HostAnswer)
    ensures
        stage is Install && answer is Installed ==> next_host_stage(exit_on_shutdown, stage, answer) != stage,
        stage is FindCommand && answer is Command ==> next_host_stage(exit_on_shutdown, stage, answer) != stage,
        stage is Serve && answer is Served ==> next_host_stage(exit_on_shutdown, stage, answer) != stage,
        stage is StartAgent && answer is AgentStarted ==> next_host_stage(exit_on_shutdown, stage, answer) != stage,
{
}

/// What a process was told it does: a host is served at its address, with its
/// command, and exits or not as it was told; a configuration that was handed
/// over is installed whole, as what the client overrides, before anything else,
/// and nothing is installed where none was handed over.
pub proof fn processes_do_what_they_were_told(mode: Bootstrap, plan: BootPlan)
    requires
        is_plan_for(mode, plan),
    ensures
        mode is Host <==> plan is Host,
        mode is Proc <==> plan is Proc,
        (mode, plan) matches (
            Bootstrap::Host { addr, command, config, exit_on_shutdown },
            BootPlan::Host { install, addr: a, command: c, exit_on_shutdown: exits },
        ) ==> {
            &&& a == addr
            &&& c == command
            &&& exits == exit_on_shutdown
            &&& config matches Some(text) ==> (first_host_stage(install, c) matches HostStage::Install {
                layer,
                config: held,
                given,
            } && layer is ClientOverride && held == text && given == command)
            &&& config is None ==> !(first_host_stage(install, c) is Install)
        },
        (mode, plan) matches (Bootstrap::V0ProcMesh { config }, BootPlan::V0ProcMesh { install }) ==> match config {
            Some(text) => install matches Some((layer, held)) && layer is ClientOverride && held == text,
            None => install is None,
        },
        (mode, plan) matches (Bootstrap::Proc { config, .. }, BootPlan::Proc { install, .. }) ==> match config {
            Some(text) => install matches Some((layer, held)) && layer is ClientOverride && held == text,
            None => install is None && first_proc_stage(install) is ReadPdeathsig,
        },
{
}

/// A proc comes up as the proc that it was told to be, with the addresses that
/// it was told; only a proc without an address of its own cannot come up.
pub proof fn a_proc_comes_up_as_told(mode: Bootstrap, plan: BootPlan)
    requires
        is_plan_for(mode, plan),
    ensures
        (mode, plan) matches (
            Bootstrap::Proc { proc_id, backend_addr, callback_addr, socket_dir_path, .. },
            BootPlan::Proc { boot, .. },
        ) ==> {
            &&& boot is Ok <==> proc_id is Direct
            &&& boot matches Ok(b) ==> {
                &&& b.proc_id == proc_id
                &&& b.backend_addr == backend_addr
                &&& b.callback_addr == callback_addr
                &&& b.socket_dir_path == socket_dir_path
                &&& proc_id matches ProcId::Direct(addr, _) && b.local_addr == addr
            }
        },
{
}

/// The socket of a proc lies in the directory for sockets: its path is that of
/// the directory, one slash and the name, and a name that is a path from the
/// root stands by itself.
pub proof fn sockets_lie_in_their_directory(dir: Seq<char>, name: Seq<char>)
    ensures
        name.len() > 0 && name[0] == '/' ==> joined_path(dir, name) == name,
        !(name.len() > 0 && name[0] == '/') ==> {
            &&& dir.is_prefix_of(joined_path(dir, name))
            &&& name.is_suffix_of(joined_path(dir, name))
            &&& dir.len() > 0 && dir.last() != '/' ==> joined_path(dir, name).len() == dir.len() + 1 + name.len()
                && joined_path(dir, name)[dir.len() as int] == '/'
            &&& dir.len() > 0 && dir.last() == '/' ==> joined_path(dir, name).len() == dir.len() + name.len()
            &&& dir.len() == 0 ==> joined_path(dir, name) == name
        },
{
    let p = joined_path(dir, name);
    if !(name.len() > 0 && name[0] == '/') {
        assert(p.take(dir.len() as int) =~= dir);
        assert(p.skip(p.len() - name.len()) =~= name);
        if dir.len() == 0 {
            assert(p =~= name);
        }
    }
}

/// A proc that cannot come up tells the cause, and one that came up exits with
/// the code that it is given, or with one that says that something is wrong
/// where it is given none.
pub proof fn procs_exit_as_they_are_told(boot: Result<ProcBoot, String>, stage: ProcStage, answer: ProcAnswer)
    ensures
        ({
            let next = next_proc_stage(boot, stage, answer);
            &&& next is Install ==> next == stage
            &&& next != stage ==> (next matches ProcStage::Exit(code) ==> match answer {
                ProcAnswer::Shutdown(Some(c)) => code == c,
                ProcAnswer::Shutdown(None) => code == 1,
                _ => false,
            })
            &&& next is StartAgent && next != stage ==> stage is DialBackend && (answer matches ProcAnswer::Dialed(Ok(_)))
            &&& next != stage ==> (next matches ProcStage::Failed(e) ==> match answer {
                ProcAnswer::Dialed(r) => stage is DialBackend && r == Err::<(), String>(e),
                ProcAnswer::AgentStarted(r) => stage is StartAgent && r == Err::<(), String>(e),
                ProcAnswer::Serving(r) => stage is Serve && r == Err::<(), String>(e),
                ProcAnswer::Reported(r) => stage is Report && r == Err::<(), String>(e),
                ProcAnswer::Pdeathsig(wanted) => stage is ReadPdeathsig && !wanted && boot == Err::<ProcBoot, String>(e),
                ProcAnswer::PdeathsigTried => stage is SetPdeathsig && boot == Err::<ProcBoot, String>(e),
                _ => false,
            })
            &&& boot is Err ==> (next is DialBackend ==> next == stage)
        }),
{
}

/// An answer to what a stage asks for ends the stage.
pub proof fn answered_proc_steps_are_left(boot: Result<ProcBoot, String>, stage: ProcStage, answer: ProcAnswer)
    requires
        match stage {
            ProcStage::Install(..) => answer is Installed,
            ProcStage::ReadPdeathsig => answer is Pdeathsig,
            ProcStage::SetPdeathsig => answer is PdeathsigTried,
            ProcStage::DialBackend => answer is Dialed,
            ProcStage::StartAgent => answer is AgentStarted,
            ProcStage::Serve => answer is Serving,
            ProcStage::Report => answer is Reported,
            ProcStage::AwaitShutdown => answer is Shutdown,
            _ => false,
        },
    ensures
        next_proc_stage(boot, stage, answer) != stage,
{
}

}
