//! Dialing and serving addresses: what is asked of the system, and what its
//! answers come to.

use crate::channel::addr::{addr_text, ChannelAddr, MetaTlsAddr};
use crate::channel::socket::SocketAddr;
use crate::channel::unix;
use crate::channel::unix::UnixName;
use vstd::prelude::*;

verus! {

/// Why an address could not be served; with the system's error.
#[derive(Debug)]
pub enum ServerError {
    Io(ChannelAddr, String),
    Listen(ChannelAddr, String),
    Resolve(ChannelAddr, String),
    Internal(ChannelAddr, String),
}

/// How a `ServerError` is written.
pub open spec fn server_error_text(e: ServerError) -> Seq<char> {
    match e {
        ServerError::Io(_, cause) => "io: "@ + cause@,
        ServerError::Listen(addr, cause) => "listen: "@ + addr_text(addr@) + " "@ + cause@,
        ServerError::Resolve(addr, cause) => "resolve: "@ + addr_text(addr@) + " "@ + cause@,
        ServerError::Internal(addr, cause) => "internal: "@ + addr_text(addr@) + " "@ + cause@,
    }
}

fn labelled(label: &str, addr: &ChannelAddr, cause: &String) -> (s: String)
    ensures
        s@ == label@ + addr_text(addr@) + " "@ + cause@,
{
    let mut s: String = label.to_owned();
    s.append(addr.display().as_str());
    s.append(" ");
    s.append(cause.as_str());
    s
}

impl ServerError {
    /// The error, written for a reader.
    pub fn text(&self) -> (s: String)
        ensures
            s@ == server_error_text(*self),
    {
        match self {
            ServerError::Io(_, cause) => {
                let mut s: String = "io: ".to_owned();
                s.append(cause.as_str());
                s
            },
            ServerError::Listen(addr, cause) => labelled("listen: ", addr, cause),
            ServerError::Resolve(addr, cause) => labelled("resolve: ", addr, cause),
            ServerError::Internal(addr, cause) => labelled("internal: ", addr, cause),
        }
    }
}

/// Why a client failed; with the system's error where there is one.
#[derive(Debug)]
pub enum ClientError {
    /// The connection could not be made, with what could not be done.
    Connect(ChannelAddr, String, String),
    Resolve(ChannelAddr),
    Io(ChannelAddr, String),
    Serialize(ChannelAddr, String),
    InvalidAddress(String),
}

/// How a `ClientError` is written.
pub open spec fn client_error_text(e: ClientError) -> Seq<char> {
    match e {
        ClientError::Connect(addr, cause, what) => "connection to "@ + addr_text(addr@) + " failed: "@ + cause@ + ": "@
            + what@,
        ClientError::Resolve(addr) => "unable to resolve address: "@ + addr_text(addr@),
        ClientError::Io(addr, cause) => "io: "@ + addr_text(addr@) + " "@ + cause@,
        ClientError::Serialize(addr, cause) => "send "@ + addr_text(addr@) + ": serialize: "@ + cause@,
        ClientError::InvalidAddress(what) => "invalid address: "@ + what@,
    }
}

impl ClientError {
    /// The error, written for a reader.
    pub fn text(&self) -> (s: String)
        ensures
            s@ == client_error_text(*self),
    {
        match self {
            ClientError::Connect(addr, cause, what) => {
                let mut s: String = "connection to ".to_owned();
                s.append(addr.display().as_str());
                s.append(" failed: ");
                s.append(cause.as_str());
                s.append(": ");
                s.append(what.as_str());
                s
            },
            ClientError::Resolve(addr) => {
                let mut s: String = "unable to resolve address: ".to_owned();
                s.append(addr.display().as_str());
                s
            },
            ClientError::Io(addr, cause) => labelled("io: ", addr, cause),
            ClientError::Serialize(addr, cause) => {
                let mut s: String = "send ".to_owned();
                s.append(addr.display().as_str());
                s.append(": serialize: ");
                s.append(cause.as_str());
                s
            },
            ClientError::InvalidAddress(what) => {
                let mut s: String = "invalid address: ".to_owned();
                s.append(what.as_str());
                s
            },
        }
    }
}

/// Whether `r` is what is dialed for the address of a TLS channel.
pub open spec fn is_dialed(addr: MetaTlsAddr, r: Result<(String, u16), ClientError>) -> bool {
    match addr {
        MetaTlsAddr::Host { hostname, port } => r == Ok::<(String, u16), ClientError>((hostname, port)),
        MetaTlsAddr::Socket(_) => r matches Err(ClientError::InvalidAddress(what)) && what@
            == "MetaTls clients require hostname/port for host identity, not socket addresses"@,
    }
}

/// The name to connect to for the address of a Unix socket.
pub open spec fn unix_target(addr: unix::SocketAddr) -> Result<UnixName, ClientError> {
    match addr {
        unix::SocketAddr::Bound(name) => Ok(name),
        unix::SocketAddr::Unbound => Err(ClientError::Resolve(ChannelAddr::Unix(unix::SocketAddr::Unbound))),
    }
}

/// Only what has a name is dialed, and under that name: of TLS channels the
/// hosts, each at its port, of Unix sockets those that are bound. These are the
/// addresses that there is a plan to connect to.
pub proof fn what_is_dialed_has_a_name(
    addr: MetaTlsAddr,
    r: Result<(String, u16), ClientError>,
    socket: unix::SocketAddr,
)
    requires
        is_dialed(addr, r),
    ensures
        r is Ok <==> addr is Host,
        r is Ok <==> connect_plan(ChannelAddr::MetaTls(addr)) is Some,
        r matches Ok((hostname, port)) ==> addr == (MetaTlsAddr::Host { hostname, port }),
        r matches Err(e) ==> e is InvalidAddress,
        unix_target(socket) is Ok <==> connect_plan(ChannelAddr::Unix(socket)) is Some,
        unix_target(socket) matches Ok(name) ==> socket == unix::SocketAddr::Bound(name),
        unix_target(socket) matches Err(e) ==> e == ClientError::Resolve(ChannelAddr::Unix(socket)),
{
}

/// The host to dial for the address of a TLS channel. A socket cannot be dialed:
/// it has no name against which its identity could be checked.
pub fn dial(addr: MetaTlsAddr) -> (r: Result<(String, u16), ClientError>)
    ensures
        is_dialed(addr, r),
{
    match addr {
        MetaTlsAddr::Host { hostname, port } => Ok((hostname, port)),
        MetaTlsAddr::Socket(_) => Err(
            ClientError::InvalidAddress(
                "MetaTls clients require hostname/port for host identity, not socket addresses".to_owned(),
            ),
        ),
    }
}

/// The name to connect to for the address of a Unix socket, if it is bound.
pub fn connect_unix(addr: unix::SocketAddr) -> (r: Result<UnixName, ClientError>)
    ensures
        r == unix_target(addr),
{
    match addr {
        unix::SocketAddr::Bound(name) => Ok(name),
        unix::SocketAddr::Unbound => Err(ClientError::Resolve(ChannelAddr::Unix(unix::SocketAddr::Unbound))),
    }
}

/// What is asked of the system to connect to an address, in order; not every
/// address takes all of it.
#[derive(Debug, Clone, Copy, PartialEq, Eq, Structural)]
pub enum ConnectStep {
    /// Find the socket addresses of a host.
    Resolve,
    /// Connect to the address, or to the first that was found for it.
    Connect,
    /// Send small messages at once.
    NoDelay,
    /// Make a Unix socket one that does not block, and register it with the runtime.
    Adopt,
    /// Prepare the client side of TLS.
    TlsConfig,
    /// Establish TLS on the connection.
    TlsHandshake,
}

/// What is asked of the system to connect to an address, in order. A host is
/// found first and its identity checked over TLS; a Unix socket that is not
/// bound, a socket of a TLS channel and a channel within the process cannot be
/// connected to.
pub open spec fn connect_plan(addr: ChannelAddr) -> Option<Seq<ConnectStep>> {
    match addr {
        ChannelAddr::Tcp(_) => Some(seq![ConnectStep::Connect, ConnectStep::NoDelay]),
        ChannelAddr::Unix(unix::SocketAddr::Bound(_)) => Some(seq![ConnectStep::Connect, ConnectStep::Adopt]),
        ChannelAddr::MetaTls(MetaTlsAddr::Host { .. }) => Some(
            seq![
                ConnectStep::Resolve,
                ConnectStep::Connect,
                ConnectStep::NoDelay,
                ConnectStep::TlsConfig,
                ConnectStep::TlsHandshake,
            ],
        ),
        _ => None,
    }
}

/// What is asked of the system to connect to an address, in order; none where it
/// cannot be connected to.
pub fn connect_steps(addr: &ChannelAddr) -> (steps: Option<Vec<ConnectStep>>)
    ensures
        match steps {
            Some(v) => connect_plan(*addr) == Some(v@),
            None => connect_plan(*addr) is None,
        },
{
    let mut v: Vec<ConnectStep> = Vec::new();
    match addr {
        ChannelAddr::Tcp(_) => {
            v.push(ConnectStep::Connect);
            v.push(ConnectStep::NoDelay);
            assert(v@ =~= seq![ConnectStep::Connect, ConnectStep::NoDelay]);
        },
        ChannelAddr::Unix(unix::SocketAddr::Bound(_)) => {
            v.push(ConnectStep::Connect);
            v.push(ConnectStep::Adopt);
            assert(v@ =~= seq![ConnectStep::Connect, ConnectStep::Adopt]);
        },
        ChannelAddr::MetaTls(MetaTlsAddr::Host { .. }) => {
            v.push(ConnectStep::Resolve);
            v.push(ConnectStep::Connect);
            v.push(ConnectStep::NoDelay);
            v.push(ConnectStep::TlsConfig);
            v.push(ConnectStep::TlsHandshake);
            assert(v@ =~= connect_plan(*addr)->0);
        },
        _ => {
            return None;
        },
    }
    Some(v)
}

/// What could not be done where connecting to an address failed.
pub open spec fn connect_text(addr: ChannelAddr, peer: Seq<char>) -> Seq<char> {
    match addr {
        ChannelAddr::Tcp(_) => "cannot connect TCP socket"@,
        ChannelAddr::Unix(_) => "cannot connect unix socket"@,
        _ => "cannot connect to "@ + peer,
    }
}

/// What is made of a step of connecting that failed; `peer` is the socket or
/// the name that the step was about, as it is written.
pub open spec fn connect_error(addr: ChannelAddr, step: ConnectStep, cause: String, peer: Seq<char>, e: ClientError) -> bool {
    match step {
        ConnectStep::Resolve => e == ClientError::Resolve(addr),
        ConnectStep::Connect => e matches ClientError::Connect(a, c, what) && a == addr && c == cause && what@
            == connect_text(addr, peer),
        ConnectStep::Adopt => e == ClientError::Io(addr, cause),
        ConnectStep::NoDelay => e matches ClientError::Connect(a, c, what) && a == addr && c == cause && what@
            == "cannot disables Nagle algorithm"@,
        ConnectStep::TlsConfig => e matches ClientError::Connect(a, c, what) && a == addr && c == cause && what@
            == "cannot config tls connector for addr "@ + peer,
        ConnectStep::TlsHandshake => e matches ClientError::Connect(a, c, what) && a == addr && c == cause && what@
            == "cannot establish TLS connection to "@ + peer,
    }
}

/// What is made of a step of connecting that failed.
pub fn connect_failed(addr: ChannelAddr, step: ConnectStep, cause: String, peer: &str) -> (e: ClientError)
    ensures
        connect_error(addr, step, cause, peer@, e),
{
    match step {
        ConnectStep::Resolve => ClientError::Resolve(addr),
        ConnectStep::Connect => {
            let what: String = match &addr {
                ChannelAddr::Tcp(_) => "cannot connect TCP socket".to_owned(),
                ChannelAddr::Unix(_) => "cannot connect unix socket".to_owned(),
                _ => {
                    let mut what: String = "cannot connect to ".to_owned();
                    what.append(peer);
                    what
                },
            };
            ClientError::Connect(addr, cause, what)
        },
        ConnectStep::Adopt => ClientError::Io(addr, cause),
        ConnectStep::NoDelay => ClientError::Connect(addr, cause, "cannot disables Nagle algorithm".to_owned()),
        ConnectStep::TlsConfig => {
            let mut what: String = "cannot config tls connector for addr ".to_owned();
            what.append(peer);
            ClientError::Connect(addr, cause, what)
        },
        ConnectStep::TlsHandshake => {
            let mut what: String = "cannot establish TLS connection to ".to_owned();
            what.append(peer);
            ClientError::Connect(addr, cause, what)
        },
    }
}

/// What is asked of the system to serve an address, in order.
pub enum ServeStage {
    /// Find the socket addresses of the host.
    Resolve,
    /// Bind a listener: to the address, or to those that were found for it.
    Bind,
    /// Make the listener one that does not block.
    NonBlocking,
    /// Register the listener with the runtime, and find its own address.
    Register,
    /// Serve on the address that is given, with TLS or without.
    Serving { addr: ChannelAddr, tls: bool },
    /// It cannot be served.
    Failed(ServerError),
}

/// What came of a stage.
pub enum ServeAnswer {
    /// How many socket addresses were found for the host.
    Resolved(Result<usize, String>),
    Bound(Result<(), String>),
    NonBlocking(Result<(), String>),
    /// The listener is registered, and has that address; `Err` with whether it
    /// is the address that could not be found.
    Registered(Result<Local, (bool, String)>),
}

/// The address of a listener.
pub enum Local {
    Socket(SocketAddr),
    Unix(unix::SocketAddr),
}

/// What could not be found where a host has no socket addresses.
pub open spec fn no_addr_text() -> Seq<char> {
    "no available socket addr"@
}

/// The address under which a listener is reached, given the address that was
/// asked for: a host keeps its name, whatever its listener is bound to.
pub open spec fn served_addr(addr: ChannelAddr, local: Local) -> Option<ChannelAddr> {
    match (addr, local) {
        (ChannelAddr::Tcp(_), Local::Socket(a)) => Some(ChannelAddr::Tcp(a)),
        (ChannelAddr::MetaTls(MetaTlsAddr::Host { hostname, .. }), Local::Socket(a)) => Some(
            ChannelAddr::MetaTls(MetaTlsAddr::Host {
                hostname,
                port: match a {
                    SocketAddr::V4 { port, .. } => port,
                    SocketAddr::V6 { port, .. } => port,
                },
            }),
        ),
        (ChannelAddr::MetaTls(MetaTlsAddr::Socket(_)), Local::Socket(a)) => Some(
            ChannelAddr::MetaTls(MetaTlsAddr::Socket(a)),
        ),
        (ChannelAddr::Unix(_), Local::Unix(a)) => Some(ChannelAddr::Unix(a)),
        _ => None,
    }
}

/// The stage at which serving an address begins; channels within the process
/// are not served by the system.
pub open spec fn first_serve_stage(addr: ChannelAddr) -> Option<ServeStage> {
    match addr {
        ChannelAddr::MetaTls(MetaTlsAddr::Host { .. }) => Some(ServeStage::Resolve),
        ChannelAddr::Local(_) => None,
        _ => Some(ServeStage::Bind),
    }
}

/// Whether the stage is the one that follows; an answer to something else
/// changes nothing.
pub open spec fn follows_serve(addr: ChannelAddr, stage: ServeStage, answer: ServeAnswer, next: ServeStage) -> bool {
    match (stage, answer) {
        (ServeStage::Resolve, ServeAnswer::Resolved(Ok(n))) => if n == 0 {
            next matches ServeStage::Failed(ServerError::Resolve(a, cause)) && a == addr && cause@ == no_addr_text()
        } else {
            next == ServeStage::Bind
        },
        (ServeStage::Resolve, ServeAnswer::Resolved(Err(cause))) => next == ServeStage::Failed(
            ServerError::Resolve(addr, cause),
        ),
        (ServeStage::Bind, ServeAnswer::Bound(Ok(_))) => next == ServeStage::NonBlocking,
        (ServeStage::Bind, ServeAnswer::Bound(Err(cause))) => next == ServeStage::Failed(
            ServerError::Listen(addr, cause),
        ),
        (ServeStage::NonBlocking, ServeAnswer::NonBlocking(Ok(_))) => next == ServeStage::Register,
        (ServeStage::NonBlocking, ServeAnswer::NonBlocking(Err(cause))) => next == ServeStage::Failed(
            ServerError::Listen(addr, cause),
        ),
        (ServeStage::Register, ServeAnswer::Registered(Ok(local))) => match served_addr(addr, local) {
            Some(a) => next == (ServeStage::Serving { addr: a, tls: addr is MetaTls }),
            None => next == ServeStage::Register,
        },
        (ServeStage::Register, ServeAnswer::Registered(Err((of_addr, cause)))) => next == ServeStage::Failed(
            if of_addr {
                ServerError::Resolve(addr, cause)
            } else if addr is Unix {
                ServerError::Io(addr, cause)
            } else {
                ServerError::Listen(addr, cause)
            },
        ),
        (stage, _) => next == stage,
    }
}

/// Begins to serve an address.
pub fn serve(addr: &ChannelAddr) -> (stage: Option<ServeStage>)
    ensures
        stage == first_serve_stage(*addr),
{
    match addr {
        ChannelAddr::MetaTls(MetaTlsAddr::Host { .. }) => Some(ServeStage::Resolve),
        ChannelAddr::Local(_) => None,
        _ => Some(ServeStage::Bind),
    }
}

fn reached_at(addr: &ChannelAddr, local: Local) -> (r: Option<ChannelAddr>)
    ensures
        r == served_addr(*addr, local),
{
    match (addr, local) {
        (ChannelAddr::Tcp(_), Local::Socket(a)) => Some(ChannelAddr::Tcp(a)),
        (ChannelAddr::MetaTls(MetaTlsAddr::Host { hostname, .. }), Local::Socket(a)) => {
            let port: u16 = a.port();
            Some(ChannelAddr::MetaTls(MetaTlsAddr::Host { hostname: hostname.clone(), port }))
        },
        (ChannelAddr::MetaTls(MetaTlsAddr::Socket(_)), Local::Socket(a)) => Some(
            ChannelAddr::MetaTls(MetaTlsAddr::Socket(a)),
        ),
        (ChannelAddr::Unix(_), Local::Unix(a)) => Some(ChannelAddr::Unix(a)),
        _ => None,
    }
}

/// Goes on with serving an address.
pub fn continue_serve(addr: &ChannelAddr, stage: ServeStage, answer: ServeAnswer) -> (next: ServeStage)
    ensures
        follows_serve(*addr, stage, answer, next),
{
    match (stage, answer) {
        (ServeStage::Resolve, ServeAnswer::Resolved(r)) => match r {
            Ok(n) => if n == 0 {
                ServeStage::Failed(ServerError::Resolve(addr.clone(), "no available socket addr".to_owned()))
            } else {
                ServeStage::Bind
            },
            Err(cause) => ServeStage::Failed(ServerError::Resolve(addr.clone(), cause)),
        },
        (ServeStage::Bind, ServeAnswer::Bound(r)) => match r {
            Ok(_) => ServeStage::NonBlocking,
            Err(cause) => ServeStage::Failed(ServerError::Listen(addr.clone(), cause)),
        },
        (ServeStage::NonBlocking, ServeAnswer::NonBlocking(r)) => match r {
            Ok(_) => ServeStage::Register,
            Err(cause) => ServeStage::Failed(ServerError::Listen(addr.clone(), cause)),
        },
        (ServeStage::Register, ServeAnswer::Registered(r)) => match r {
            Ok(local) => match reached_at(addr, local) {
                Some(a) => {
                    let tls: bool = match addr {
                        ChannelAddr::MetaTls(_) => true,
                        _ => false,
                    };
                    ServeStage::Serving { addr: a, tls }
                },
                None => ServeStage::Register,
            },
            Err((of_addr, cause)) => {
                if of_addr {
                    return ServeStage::Failed(ServerError::Resolve(addr.clone(), cause));
                }
                match addr {
                    ChannelAddr::Unix(_) => ServeStage::Failed(ServerError::Io(addr.clone(), cause)),
                    _ => ServeStage::Failed(ServerError::Listen(addr.clone(), cause)),
                }
            },
        },
        (stage, _) => stage,
    }
}

/// An address is served as one of its own kind, with TLS where the kind has it;
/// a host under its own name.
pub proof fn served_addr_keeps_its_kind(addr: ChannelAddr, stage: ServeStage, answer: ServeAnswer, next: ServeStage)
    requires
        follows_serve(addr, stage, answer, next),
        !(stage is Serving),
    ensures
        next matches ServeStage::Serving { addr: a, tls } ==> {
            &&& tls == (addr is MetaTls)
            &&& crate::channel::addr::transport_of(a@) == crate::channel::addr::transport_of(addr@)
            &&& addr matches ChannelAddr::MetaTls(MetaTlsAddr::Host { hostname, .. }) ==> a matches ChannelAddr::MetaTls(
                MetaTlsAddr::Host { hostname: h, .. },
            ) && h == hostname
        },
{
}

/// The port of a socket.
pub open spec fn port_of(a: SocketAddr) -> u16 {
    match a {
        SocketAddr::V4 { port, .. } => port,
        SocketAddr::V6 { port, .. } => port,
    }
}

/// The address that is served is the one of the listener: a TCP address is
/// served as exactly the socket that the listener was found to have, a socket of
/// a TLS channel likewise, a host under the port of that socket, and a Unix
/// address under the name of the listener.
pub proof fn the_listener_is_what_is_served(addr: ChannelAddr, stage: ServeStage, answer: ServeAnswer, next: ServeStage)
    requires
        follows_serve(addr, stage, answer, next),
        !(stage is Serving),
        next is Serving,
    ensures
        stage is Register,
        answer matches ServeAnswer::Registered(Ok(local)) && match local {
            Local::Socket(a) => match addr {
                ChannelAddr::Tcp(_) => next->addr == ChannelAddr::Tcp(a),
                ChannelAddr::MetaTls(MetaTlsAddr::Socket(_)) => next->addr == ChannelAddr::MetaTls(
                    MetaTlsAddr::Socket(a),
                ),
                ChannelAddr::MetaTls(MetaTlsAddr::Host { hostname, .. }) => (
                next->addr matches ChannelAddr::MetaTls(MetaTlsAddr::Host { hostname: h, port }) && h == hostname
                    && port == port_of(a)),
                _ => false,
            },
            Local::Unix(a) => addr is Unix && next->addr == ChannelAddr::Unix(a),
        },
{
}

/// Each step of serving an address comes after the one before it went well, and
/// what fails is told with its cause and the address that was asked for.
pub proof fn serving_goes_step_by_step(addr: ChannelAddr, stage: ServeStage, answer: ServeAnswer, next: ServeStage)
    requires
        follows_serve(addr, stage, answer, next),
        next != stage,
    ensures
        match next {
            ServeStage::Resolve => false,
            ServeStage::Bind => stage is Resolve && (answer matches ServeAnswer::Resolved(Ok(n)) && n > 0),
            ServeStage::NonBlocking => stage is Bind && (answer matches ServeAnswer::Bound(Ok(_))),
            ServeStage::Register => stage is NonBlocking && (answer matches ServeAnswer::NonBlocking(Ok(_))),
            ServeStage::Serving { tls, .. } => stage is Register && tls == (addr is MetaTls),
            ServeStage::Failed(ServerError::Resolve(a, cause)) => a == addr && match answer {
                ServeAnswer::Resolved(Ok(n)) => stage is Resolve && n == 0,
                ServeAnswer::Resolved(Err(c)) => stage is Resolve && c == cause,
                ServeAnswer::Registered(Err((of_addr, c))) => stage is Register && of_addr && c == cause,
                _ => false,
            },
            ServeStage::Failed(ServerError::Listen(a, cause)) => a == addr && match answer {
                ServeAnswer::Bound(Err(c)) => stage is Bind && c == cause,
                ServeAnswer::NonBlocking(Err(c)) => stage is NonBlocking && c == cause,
                ServeAnswer::Registered(Err((of_addr, c))) => stage is Register && !of_addr && !(addr is Unix) && c
                    == cause,
                _ => false,
            },
            ServeStage::Failed(ServerError::Io(a, cause)) => a == addr && addr is Unix && stage is Register && answer
                == ServeAnswer::Registered(Err((false, cause))),
            ServeStage::Failed(ServerError::Internal(..)) => false,
        },
{
}

/// An answer to what a stage asks for ends the stage, where a listener has an
/// address of the kind that is served.
pub proof fn answered_serving_steps_are_left(addr: ChannelAddr, stage: ServeStage, answer: ServeAnswer, next: ServeStage)
    requires
        follows_serve(addr, stage, answer, next),
        match stage {
            ServeStage::Resolve => answer is Resolved,
            ServeStage::Bind => answer is Bound,
            ServeStage::NonBlocking => answer is NonBlocking,
            ServeStage::Register => match answer {
                ServeAnswer::Registered(Ok(Local::Socket(_))) => addr is Tcp || addr is MetaTls,
                ServeAnswer::Registered(Ok(Local::Unix(_))) => addr is Unix,
                ServeAnswer::Registered(Err(_)) => true,
                _ => false,
            },
            _ => false,
        },
    ensures
        next != stage,
{
}

/// A host is resolved before its listener is bound, no other address is, and
/// what lies within the process is not served at all.
pub proof fn only_hosts_are_resolved(addr: ChannelAddr)
    ensures
        first_serve_stage(addr) is None <==> addr is Local,
        first_serve_stage(addr) matches Some(stage) ==> stage is Resolve || stage is Bind,
        first_serve_stage(addr) == Some(ServeStage::Resolve) <==> addr matches ChannelAddr::MetaTls(
            MetaTlsAddr::Host { .. },
        ),
{
}

/// A plan to connect connects once; TLS is for hosts alone and comes after the
/// connection is made, a host is resolved first, a Unix socket is adopted, and
/// on any other connection small messages are sent at once.
pub proof fn connections_are_made_as_their_address_asks(addr: ChannelAddr)
    ensures
        connect_plan(addr) is None <==> match addr {
            ChannelAddr::Local(_) => true,
            ChannelAddr::Unix(unix::SocketAddr::Unbound) => true,
            ChannelAddr::MetaTls(MetaTlsAddr::Socket(_)) => true,
            _ => false,
        },
        connect_plan(addr) matches Some(steps) ==> {
            let connects = if addr is MetaTls {
                1int
            } else {
                0int
            };
            &&& steps.len() >= 2
            &&& steps[connects] is Connect
            &&& forall|i: int| 0 <= i < steps.len() ==> (#[trigger] steps[i] is Connect <==> i == connects)
            &&& forall|i: int| 0 <= i < steps.len() ==> (#[trigger] steps[i] is Resolve <==> addr is MetaTls && i == 0)
            &&& steps[connects + 1] is Adopt <==> addr is Unix
            &&& steps[connects + 1] is NoDelay <==> !(addr is Unix)
            &&& steps.last() is TlsHandshake <==> addr is MetaTls
            &&& forall|i: int|
                0 <= i < steps.len() ==> (#[trigger] steps[i] is TlsHandshake || steps[i] is TlsConfig ==> addr is MetaTls
                    && i > connects)
            &&& addr is MetaTls ==> steps[steps.len() - 2] is TlsConfig
        },
{
}

/// What a failed step of connecting comes to names the address, and carries the
/// cause unless it was the host that could not be found.
pub proof fn connect_errors_name_the_address(
    addr: ChannelAddr,
    step: ConnectStep,
    cause: String,
    peer: Seq<char>,
    e: ClientError,
)
    requires
        connect_error(addr, step, cause, peer, e),
    ensures
        match e {
            ClientError::Connect(a, c, _) => a == addr && c == cause && !(step is Resolve) && !(step is Adopt),
            ClientError::Resolve(a) => a == addr && step is Resolve,
            ClientError::Io(a, c) => a == addr && c == cause && step is Adopt,
            _ => false,
        },
{
}

}
