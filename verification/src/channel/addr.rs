//! Addresses of channels, read and written as text.

use crate::channel::socket::{is_socket_model, socket, socket_text, socket_text_reads_back, SocketAddr, SocketModel};
use crate::channel::unix;
use crate::channel::unix::{
    has_plain_name, is_random_name, unix_addr, unix_text, unix_text_reads_back, NameError, UnixModel, RANDOM_NAME_LEN,
};
use crate::numerals::{decimal, format_decimal, lemma_decimal_is_unsigned, lemma_decimal_reads_back, parse_unsigned, unsigned};
use crate::text::{
    lemma_split_first_at, lemma_split_first_none, lemma_split_last_at, rsplit_once, same, split_first, split_last,
    split_once,
};
use vstd::prelude::*;

verus! {

/// An address of a channel that runs over TLS: a host by its name, whose
/// identity can be checked, or a socket.
#[derive(Debug, PartialEq)]
pub enum MetaTlsAddr {
    Host { hostname: String, port: u16 },
    Socket(SocketAddr),
}

/// An address of a channel.
#[derive(Debug, PartialEq)]
pub enum ChannelAddr {
    Tcp(SocketAddr),
    MetaTls(MetaTlsAddr),
    Local(u64),
    Unix(unix::SocketAddr),
}

/// What carries a channel.
#[derive(Debug, Clone, Copy, PartialEq, Eq, Structural)]
pub enum ChannelTransport {
    Tcp,
    MetaTls,
    Local,
    Unix,
}

/// What a `MetaTlsAddr` holds.
#[verifier::ext_equal]
pub enum MetaTlsModel {
    Host { hostname: Seq<char>, port: u16 },
    Socket(SocketModel),
}

/// What a `ChannelAddr` holds.
#[verifier::ext_equal]
pub enum AddrModel {
    Tcp(SocketModel),
    MetaTls(MetaTlsModel),
    Local(u64),
    Unix(UnixModel),
}

impl View for MetaTlsAddr {
    type V = MetaTlsModel;

    open spec fn view(&self) -> MetaTlsModel {
        match *self {
            MetaTlsAddr::Host { hostname, port } => MetaTlsModel::Host { hostname: hostname@, port },
            MetaTlsAddr::Socket(a) => MetaTlsModel::Socket(a@),
        }
    }
}

impl View for ChannelAddr {
    type V = AddrModel;

    open spec fn view(&self) -> AddrModel {
        match *self {
            ChannelAddr::Tcp(a) => AddrModel::Tcp(a@),
            ChannelAddr::MetaTls(a) => AddrModel::MetaTls(a@),
            ChannelAddr::Local(n) => AddrModel::Local(n),
            ChannelAddr::Unix(a) => AddrModel::Unix(a@),
        }
    }
}

impl Clone for MetaTlsAddr {
    fn clone(&self) -> (c: MetaTlsAddr)
        ensures
            c == *self,
    {
        match self {
            MetaTlsAddr::Host { hostname, port } => MetaTlsAddr::Host { hostname: hostname.clone(), port: *port },
            MetaTlsAddr::Socket(a) => MetaTlsAddr::Socket(*a),
        }
    }
}

impl Clone for ChannelAddr {
    fn clone(&self) -> (c: ChannelAddr)
        ensures
            c == *self,
    {
        match self {
            ChannelAddr::Tcp(a) => ChannelAddr::Tcp(*a),
            ChannelAddr::MetaTls(a) => ChannelAddr::MetaTls(a.clone()),
            ChannelAddr::Local(n) => ChannelAddr::Local(*n),
            ChannelAddr::Unix(a) => ChannelAddr::Unix(a.clone()),
        }
    }
}

/// What carries channels of an address.
pub open spec fn transport_of(a: AddrModel) -> ChannelTransport {
    match a {
        AddrModel::Tcp(_) => ChannelTransport::Tcp,
        AddrModel::MetaTls(_) => ChannelTransport::MetaTls,
        AddrModel::Local(_) => ChannelTransport::Local,
        AddrModel::Unix(_) => ChannelTransport::Unix,
    }
}

impl ChannelAddr {
    /// What carries channels of this address.
    pub fn transport(&self) -> (t: ChannelTransport)
        ensures
            t == transport_of(self@),
    {
        match self {
            ChannelAddr::Tcp(_) => ChannelTransport::Tcp,
            ChannelAddr::MetaTls(_) => ChannelTransport::MetaTls,
            ChannelAddr::Local(_) => ChannelTransport::Local,
            ChannelAddr::Unix(_) => ChannelTransport::Unix,
        }
    }
}

/// Whether the address is one of a socket of this or another machine.
pub fn is_net_addr(addr: &ChannelAddr) -> (r: bool)
    ensures
        r == (transport_of(addr@) is Tcp || transport_of(addr@) is Unix),
{
    match addr.transport() {
        ChannelTransport::Tcp => true,
        ChannelTransport::Unix => true,
        _ => false,
    }
}

/// Why a text is no address.
#[derive(Debug)]
pub enum AddrError {
    /// It does not say what kind of channel it is of.
    NoType,
    /// There is no such kind of channel.
    NoSuchType(String),
    /// The number of a local channel is none.
    InvalidIndex(String),
    /// The address of a TCP channel is none.
    InvalidSocket(String),
    /// The address of a TLS channel is none.
    InvalidAddress(String),
    /// The name of a Unix channel is none that the system takes.
    InvalidName(NameError),
}

/// What an `AddrError` holds.
#[verifier::ext_equal]
pub enum AddrErrorModel {
    NoType,
    NoSuchType(Seq<char>),
    InvalidIndex(Seq<char>),
    InvalidSocket(Seq<char>),
    InvalidAddress(Seq<char>),
    InvalidName(NameError),
}

impl View for AddrError {
    type V = AddrErrorModel;

    open spec fn view(&self) -> AddrErrorModel {
        match *self {
            AddrError::NoType => AddrErrorModel::NoType,
            AddrError::NoSuchType(t) => AddrErrorModel::NoSuchType(t@),
            AddrError::InvalidIndex(t) => AddrErrorModel::InvalidIndex(t@),
            AddrError::InvalidSocket(t) => AddrErrorModel::InvalidSocket(t@),
            AddrError::InvalidAddress(t) => AddrErrorModel::InvalidAddress(t@),
            AddrError::InvalidName(e) => AddrErrorModel::InvalidName(e),
        }
    }
}

/// The address of a TLS channel that a text writes: a socket, else a host and a
/// port behind the last colon.
pub open spec fn meta_tls(s: Seq<char>) -> Result<MetaTlsModel, AddrErrorModel> {
    match socket(s) {
        Some(a) => Ok(MetaTlsModel::Socket(a)),
        None => match split_last(s, ':') {
            Some((hostname, port)) => match unsigned(port, 10, 0xffff) {
                Some(port) => Ok(MetaTlsModel::Host { hostname, port: port as u16 }),
                None => Err(AddrErrorModel::InvalidAddress(s)),
            },
            None => Err(AddrErrorModel::InvalidAddress(s)),
        },
    }
}

/// The address of a TLS channel that a text writes.
pub fn parse(addr_string: &str) -> (r: Result<MetaTlsAddr, AddrError>)
    ensures
        match (r, meta_tls(addr_string@)) {
            (Ok(a), Ok(m)) => a@ == m,
            (Err(e), Err(m)) => e@ == m,
            _ => false,
        },
{
    if let Some(a) = SocketAddr::parse(addr_string) {
        return Ok(MetaTlsAddr::Socket(a));
    }
    match rsplit_once(addr_string, ':') {
        Some((hostname, port)) => match parse_unsigned(port.as_str(), 10, 0xffff) {
            Some(port) => Ok(MetaTlsAddr::Host { hostname, port: port as u16 }),
            None => Err(AddrError::InvalidAddress(addr_string.to_owned())),
        },
        None => Err(AddrError::InvalidAddress(addr_string.to_owned())),
    }
}

/// The kind of channel and the rest: what stands before and behind the first
/// exclamation mark, or else the first colon.
pub open spec fn kind_and_rest(s: Seq<char>) -> Option<(Seq<char>, Seq<char>)> {
    match split_first(s, '!') {
        Some(parts) => Some(parts),
        None => split_first(s, ':'),
    }
}

/// The address that a text writes; `random` is the name taken for a Unix
/// channel without one.
pub open spec fn channel_addr(s: Seq<char>, random: Seq<char>) -> Result<AddrModel, AddrErrorModel> {
    match kind_and_rest(s) {
        None => Err(AddrErrorModel::NoType),
        Some((kind, rest)) => if kind == "local"@ {
            match unsigned(rest, 10, 0xffff_ffff_ffff_ffff) {
                Some(n) => Ok(AddrModel::Local(n as u64)),
                None => Err(AddrErrorModel::InvalidIndex(rest)),
            }
        } else if kind == "tcp"@ {
            match socket(rest) {
                Some(a) => Ok(AddrModel::Tcp(a)),
                None => Err(AddrErrorModel::InvalidSocket(rest)),
            }
        } else if kind == "metatls"@ {
            match meta_tls(rest) {
                Ok(a) => Ok(AddrModel::MetaTls(a)),
                Err(e) => Err(e),
            }
        } else if kind == "unix"@ {
            match unix_addr(rest, random) {
                Ok(a) => Ok(AddrModel::Unix(a)),
                Err(e) => Err(AddrErrorModel::InvalidName(e)),
            }
        } else {
            Err(AddrErrorModel::NoSuchType(kind))
        },
    }
}

/// Whether what came of reading an address is what it should be.
pub open spec fn addr_reads_as(r: Result<ChannelAddr, AddrError>, expected: Result<AddrModel, AddrErrorModel>) -> bool {
    match (r, expected) {
        (Ok(a), Ok(m)) => a@ == m,
        (Err(e), Err(m)) => e@ == m,
        _ => false,
    }
}

/// Whether a text writes the address of a Unix channel without a name.
pub open spec fn leaves_name_open(s: Seq<char>) -> bool {
    kind_and_rest(s) matches Some((kind, rest)) && kind == "unix"@ && rest.len() == 0
}

/// Whether a text is an address.
pub open spec fn names_an_addr(s: Seq<char>) -> bool {
    leaves_name_open(s) || channel_addr(s, Seq::<char>::empty()) is Ok
}

/// Whether an address was read from a text. A Unix socket without a name gets
/// a random one.
pub open spec fn is_addr_of(addr: ChannelAddr, s: Seq<char>) -> bool {
    if leaves_name_open(s) {
        addr@ matches AddrModel::Unix(UnixModel::Abstract(name)) && is_random_name(name, RANDOM_NAME_LEN as nat)
    } else {
        Ok::<AddrModel, AddrErrorModel>(addr@) == channel_addr(s, Seq::<char>::empty())
    }
}

impl ChannelAddr {
    /// The address that a text writes: the kind of channel, an exclamation mark
    /// or a colon, and what the kind takes. A Unix channel without a name has a
    /// random one.
    pub fn from_str(s: &str) -> (r: Result<ChannelAddr, AddrError>)
        ensures
            !leaves_name_open(s@) ==> addr_reads_as(r, channel_addr(s@, Seq::<char>::empty())),
            leaves_name_open(s@) ==> r is Ok && ((r->Ok_0)@ matches AddrModel::Unix(UnixModel::Abstract(name))
                && is_random_name(name, RANDOM_NAME_LEN as nat)),
    {
        let parts: Option<(String, String)> = match split_once(s, '!') {
            Some(parts) => Some(parts),
            None => split_once(s, ':'),
        };
        let (kind, rest): (String, String) = match parts {
            Some(parts) => parts,
            None => {
                return Err(AddrError::NoType);
            },
        };
        proof {
            lemma_kinds_differ();
        }
        if same(kind.as_str(), "local") {
            match parse_unsigned(rest.as_str(), 10, 0xffff_ffff_ffff_ffff) {
                Some(n) => Ok(ChannelAddr::Local(n)),
                None => Err(AddrError::InvalidIndex(rest)),
            }
        } else if same(kind.as_str(), "tcp") {
            match SocketAddr::parse(rest.as_str()) {
                Some(a) => Ok(ChannelAddr::Tcp(a)),
                None => Err(AddrError::InvalidSocket(rest)),
            }
        } else if same(kind.as_str(), "metatls") {
            match parse(rest.as_str()) {
                Ok(a) => Ok(ChannelAddr::MetaTls(a)),
                Err(e) => Err(e),
            }
        } else if same(kind.as_str(), "unix") {
            match unix::SocketAddr::from_str(rest.as_str()) {
                Ok(a) => Ok(ChannelAddr::Unix(a)),
                Err(e) => Err(AddrError::InvalidName(e)),
            }
        } else {
            Err(AddrError::NoSuchType(kind))
        }
    }

    /// The address, written for a reader.
    pub fn display(&self) -> (s: String)
        ensures
            s@ == addr_text(self@),
    {
        match self {
            ChannelAddr::Tcp(a) => {
                let mut s: String = "tcp:".to_owned();
                s.append(a.display().as_str());
                s
            },
            ChannelAddr::MetaTls(a) => {
                let mut s: String = "metatls:".to_owned();
                s.append(a.display().as_str());
                s
            },
            ChannelAddr::Local(n) => {
                let mut s: String = "local:".to_owned();
                s.append(format_decimal(*n).as_str());
                s
            },
            ChannelAddr::Unix(a) => {
                let mut s: String = "unix:".to_owned();
                s.append(a.display().as_str());
                s
            },
        }
    }
}

impl MetaTlsAddr {
    /// The address, written for a reader.
    pub fn display(&self) -> (s: String)
        ensures
            s@ == meta_tls_text(self@),
    {
        match self {
            MetaTlsAddr::Host { hostname, port } => {
                let mut s: String = hostname.clone();
                s.push(':');
                s.append(format_decimal(*port as u64).as_str());
                s
            },
            MetaTlsAddr::Socket(a) => a.display(),
        }
    }
}

/// How the address of a TLS channel is written.
pub open spec fn meta_tls_text(a: MetaTlsModel) -> Seq<char> {
    match a {
        MetaTlsModel::Host { hostname, port } => hostname.push(':') + decimal(port as nat),
        MetaTlsModel::Socket(s) => socket_text(s),
    }
}

/// How an address is written.
pub open spec fn addr_text(a: AddrModel) -> Seq<char> {
    match a {
        AddrModel::Tcp(s) => "tcp:"@ + socket_text(s),
        AddrModel::MetaTls(m) => "metatls:"@ + meta_tls_text(m),
        AddrModel::Local(n) => "local:"@ + decimal(n as nat),
        AddrModel::Unix(u) => "unix:"@ + unix_text(u),
    }
}

/// An address whose text cannot be taken for another: without an exclamation
/// mark, a host that does not read as a socket, a socket name that is plain.
pub open spec fn is_plain(a: AddrModel) -> bool {
    &&& !addr_text(a).contains('!')
    &&& match a {
        AddrModel::Tcp(s) => is_socket_model(s),
        AddrModel::MetaTls(MetaTlsModel::Socket(s)) => is_socket_model(s),
        AddrModel::MetaTls(MetaTlsModel::Host { hostname, port }) => socket(
            hostname.push(':') + decimal(port as nat),
        ) is None,
        AddrModel::Local(_) => true,
        AddrModel::Unix(u) => has_plain_name(u),
    }
}

proof fn lemma_kind(kind: Seq<char>, prefix: Seq<char>, rest: Seq<char>)
    requires
        prefix == kind.push(':'),
        !kind.contains(':'),
        !(prefix + rest).contains('!'),
    ensures
        kind_and_rest(prefix + rest) == Some((kind, rest)),
{
    let t = prefix + rest;
    assert forall|j: int| 0 <= j < t.len() implies t[j] != '!' by {
        assert(t.contains(t[j]));
    }
    lemma_split_first_none(t, '!');
    let n = kind.len() as int;
    assert(t[n] == ':');
    assert forall|j: int| 0 <= j < n implies t[j] != ':' by {
        assert(t[j] == kind[j]);
        assert(kind.contains(kind[j]));
    }
    lemma_split_first_at(t, ':', n);
    assert(t.take(n) =~= kind);
    assert(t.skip(n + 1) =~= rest);
}

proof fn lemma_host_text(hostname: Seq<char>, port: u16)
    requires
        socket(hostname.push(':') + decimal(port as nat)) is None,
    ensures
        meta_tls(hostname.push(':') + decimal(port as nat)) == Ok::<MetaTlsModel, AddrErrorModel>(
            MetaTlsModel::Host { hostname, port },
        ),
{
    let p = decimal(port as nat);
    let t = hostname.push(':') + p;
    lemma_decimal_reads_back(port as nat);
    lemma_decimal_is_unsigned(port as nat, 0xffff);
    let n = hostname.len() as int;
    assert forall|j: int| n < j < t.len() implies t[j] != ':' by {
        assert(t[j] == p[j - n - 1]);
    }
    lemma_split_last_at(t, ':', n);
    assert(t.take(n) =~= hostname);
    assert(t.skip(n + 1) =~= p);
}

proof fn lemma_kinds_differ()
    ensures
        "unix"@.len() == 4,
        "tcp"@.len() == 3,
        "local"@.len() == 5,
        "metatls"@.len() == 7,
        "tcp:"@ == "tcp"@.push(':'),
        "unix:"@ == "unix"@.push(':'),
        "local:"@ == "local"@.push(':'),
        "metatls:"@ == "metatls"@.push(':'),
        !"tcp"@.contains(':'),
        !"unix"@.contains(':'),
        !"local"@.contains(':'),
        !"metatls"@.contains(':'),
{
    reveal_strlit("local");
    reveal_strlit("tcp");
    reveal_strlit("metatls");
    reveal_strlit("unix");
    reveal_strlit("local:");
    reveal_strlit("tcp:");
    reveal_strlit("metatls:");
    reveal_strlit("unix:");
    assert("tcp:"@ =~= "tcp"@.push(':'));
    assert("metatls:"@ =~= "metatls"@.push(':'));
    assert("local:"@ =~= "local"@.push(':'));
    assert("unix:"@ =~= "unix"@.push(':'));
}

/// What is written of an address reads back as that address.
pub proof fn addr_text_reads_back(a: AddrModel, random: Seq<char>)
    requires
        is_plain(a),
    ensures
        channel_addr(addr_text(a), random) == Ok::<AddrModel, AddrErrorModel>(a),
        !leaves_name_open(addr_text(a)),
{
    lemma_kinds_differ();
    match a {
        AddrModel::Tcp(s) => {
            lemma_kind("tcp"@, "tcp:"@, socket_text(s));
            socket_text_reads_back(s);
        },
        AddrModel::MetaTls(m) => {
            lemma_kind("metatls"@, "metatls:"@, meta_tls_text(m));
            lemma_meta_tls_text(m);
        },
        AddrModel::Local(n) => {
            lemma_kind("local"@, "local:"@, decimal(n as nat));
            lemma_decimal_is_unsigned(n as nat, 0xffff_ffff_ffff_ffff);
        },
        AddrModel::Unix(u) => {
            lemma_kind("unix"@, "unix:"@, unix_text(u));
            unix_text_reads_back(u, random);
        },
    }
}

proof fn lemma_meta_tls_text(m: MetaTlsModel)
    requires
        match m {
            MetaTlsModel::Socket(s) => is_socket_model(s),
            MetaTlsModel::Host { hostname, port } => socket(hostname.push(':') + decimal(port as nat)) is None,
        },
    ensures
        meta_tls(meta_tls_text(m)) == Ok::<MetaTlsModel, AddrErrorModel>(m),
{
    match m {
        MetaTlsModel::Socket(s) => {
            socket_text_reads_back(s);
        },
        MetaTlsModel::Host { hostname, port } => {
            lemma_host_text(hostname, port);
        },
    }
}

/// The kind that a text names is the kind of the address that it writes, and
/// what carries its channels; a text of another kind is no address, and one
/// that names no kind says so.
pub proof fn addresses_are_of_the_kind_they_name(s: Seq<char>, random: Seq<char>)
    ensures
        channel_addr(s, random) matches Ok(a) ==> (kind_and_rest(s) matches Some((kind, _)) && match transport_of(a) {
            ChannelTransport::Tcp => kind == "tcp"@ && a is Tcp,
            ChannelTransport::MetaTls => kind == "metatls"@ && a is MetaTls,
            ChannelTransport::Local => kind == "local"@ && a is Local,
            ChannelTransport::Unix => kind == "unix"@ && a is Unix,
        }),
        kind_and_rest(s) is None <==> channel_addr(s, random) == Err::<AddrModel, AddrErrorModel>(AddrErrorModel::NoType),
        channel_addr(s, random) matches Err(AddrErrorModel::NoSuchType(t)) ==> t != "tcp"@ && t != "metatls"@ && t
            != "local"@ && t != "unix"@,
{
}

/// An exclamation mark goes before a colon: the kind is what stands before the
/// first of them, and a colon separates only where there is none.
pub proof fn exclamation_marks_separate_first(kind: Seq<char>, rest: Seq<char>)
    requires
        !kind.contains('!'),
    ensures
        kind_and_rest(kind.push('!') + rest) == Some((kind, rest)),
        !kind.contains(':') && !rest.contains('!') ==> kind_and_rest(kind.push(':') + rest) == Some((kind, rest)),
{
    let s = kind.push('!') + rest;
    assert forall|j: int| 0 <= j < kind.len() implies s[j] != '!' by {
        assert(kind.contains(kind[j]));
    }
    lemma_split_first_at(s, '!', kind.len() as int);
    assert(s.take(kind.len() as int) =~= kind);
    assert(s.skip(kind.len() as int + 1) =~= rest);
    let t = kind.push(':') + rest;
    if !kind.contains(':') && !rest.contains('!') {
        assert forall|j: int| 0 <= j < t.len() implies t[j] != '!' by {
            if j < kind.len() {
                assert(kind.contains(kind[j]));
            } else if j > kind.len() {
                assert(rest.contains(rest[j - kind.len() - 1]));
            }
        }
        lemma_split_first_none(t, '!');
        assert forall|j: int| 0 <= j < kind.len() implies t[j] != ':' by {
            assert(kind.contains(kind[j]));
        }
        lemma_split_first_at(t, ':', kind.len() as int);
        assert(t.take(kind.len() as int) =~= kind);
        assert(t.skip(kind.len() as int + 1) =~= rest);
    }
}

/// The address of a TLS channel is a socket where it reads as one, and else a
/// host, with the port that stands behind its last colon.
pub proof fn hosts_have_their_port_behind_them(hostname: Seq<char>, port: u16)
    ensures
        ({
            let s = hostname.push(':') + decimal(port as nat);
            &&& socket(s) matches Some(a) ==> meta_tls(s) == Ok::<MetaTlsModel, AddrErrorModel>(MetaTlsModel::Socket(a))
            &&& socket(s) is None ==> meta_tls(s) == Ok::<MetaTlsModel, AddrErrorModel>(
                MetaTlsModel::Host { hostname, port },
            )
        }),
{
    let s = hostname.push(':') + decimal(port as nat);
    let d = decimal(port as nat);
    lemma_decimal_is_unsigned(port as nat, 0xffff);
    lemma_decimal_reads_back(port as nat);
    assert forall|j: int| hostname.len() < j < s.len() implies s[j] != ':' by {
        assert(s[j] == d[j - hostname.len() - 1]);
    }
    lemma_split_last_at(s, ':', hostname.len() as int);
    assert(s.take(hostname.len() as int) =~= hostname);
    assert(s.skip(hostname.len() as int + 1) =~= d);
}

}
