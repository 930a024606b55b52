//! Certificates and private keys from PEM files.

use rustls_pemfile::Item;
use vstd::prelude::*;

verus! {

/// Where the certificates of a server and its key are kept.
pub const DEFAULT_SERVER_PEM_PATH: &'static str = "/var/facebook/x509_identities/server.pem";

/// Where the certificates of the authorities are kept, unless the environment says otherwise.
pub const DEFAULT_SRV_CA_PATH: &'static str = "/var/facebook/rootcanal/ca.pem";

/// The kinds of sections in a PEM file.
#[derive(Debug, Clone, Copy, PartialEq, Eq, Structural)]
pub enum PemKind {
    Certificate,
    RsaKey,
    Pkcs8Key,
    EcKey,
    RevocationList,
    Other,
}

/// A section of a PEM file.
#[derive(Debug)]
pub struct PemItem {
    pub kind: PemKind,
    pub der: Vec<u8>,
}

/// The first section of a kind that is known: what it is and holds, and what
/// follows it. The error where the file is none.
pub uninterp spec fn pem_next(data: Seq<u8>) -> Result<Option<(PemKind, Seq<u8>, Seq<u8>)>, Seq<char>>;

/// Byte strings by what they hold.
pub open spec fn bytes_of(v: Seq<Vec<u8>>) -> Seq<Seq<u8>> {
    v.map_values(|b: Vec<u8>| b@)
}

/// Whether what was read is the section that `expected` tells of.
pub open spec fn reads_as_section(
    r: Result<Option<(PemItem, Vec<u8>)>, String>,
    expected: Result<Option<(PemKind, Seq<u8>, Seq<u8>)>, Seq<char>>,
) -> bool {
    match r {
        Err(e) => expected == Err::<Option<(PemKind, Seq<u8>, Seq<u8>)>, Seq<char>>(e@),
        Ok(None) => expected == Ok::<Option<(PemKind, Seq<u8>, Seq<u8>)>, Seq<char>>(None),
        Ok(Some((item, rest))) => expected == Ok::<Option<(PemKind, Seq<u8>, Seq<u8>)>, Seq<char>>(
            Some((item.kind, item.der@, rest@)),
        ),
    }
}

/// Calls `rustls_pemfile::read_one`: the next section of a kind that is known
/// and what is left of the file behind it. A section takes at least one line.
#[verifier::external_body]
fn read_one(data: &[u8]) -> (r: Result<Option<(PemItem, Vec<u8>)>, String>)
    ensures
        reads_as_section(r, pem_next(data@)),
        r matches Ok(Some((_, rest))) ==> rest@.len() < data@.len(),
{
    let mut rd: &[u8] = data;
    let (kind, der) = match rustls_pemfile::read_one(&mut rd).map_err(|e| e.to_string())? {
        Some(Item::X509Certificate(der)) => (PemKind::Certificate, der),
        Some(Item::RSAKey(der)) => (PemKind::RsaKey, der),
        Some(Item::PKCS8Key(der)) => (PemKind::Pkcs8Key, der),
        Some(Item::ECKey(der)) => (PemKind::EcKey, der),
        Some(Item::Crl(der)) => (PemKind::RevocationList, der),
        Some(_) => (PemKind::Other, Vec::new()),
        None => return Ok(None),
    };
    Ok(Some((PemItem { kind, der }, rd.to_vec())))
}

/// The certificates of a PEM file, in order; the first error where one of its
/// sections cannot be read.
pub open spec fn pem_certificates(data: Seq<u8>) -> Result<Seq<Seq<u8>>, Seq<char>>
    decreases data.len(),
{
    match pem_next(data) {
        Err(e) => Err(e),
        Ok(None) => Ok(Seq::empty()),
        Ok(Some((kind, der, rest))) => if rest.len() >= data.len() {
            Ok(Seq::empty())
        } else {
            match pem_certificates(rest) {
                Err(e) => Err(e),
                Ok(more) => if kind is Certificate {
                    Ok(seq![der] + more)
                } else {
                    Ok(more)
                },
            }
        },
    }
}

/// Whether the certificates that were read are those that `expected` tells of.
pub open spec fn reads_as_certs(r: Result<Vec<Vec<u8>>, String>, expected: Result<Seq<Seq<u8>>, Seq<char>>) -> bool {
    match r {
        Err(e) => expected == Err::<Seq<Seq<u8>>, Seq<char>>(e@),
        Ok(certs) => expected == Ok::<Seq<Seq<u8>>, Seq<char>>(bytes_of(certs@)),
    }
}

/// Calls `rustls_pemfile::certs`: it reads section after section as `read_one`
/// does, keeps those that are certificates, and stops at the first error.
#[verifier::external_body]
fn read_certs(data: &[u8]) -> (r: Result<Vec<Vec<u8>>, String>)
    ensures
        reads_as_certs(r, pem_certificates(data@)),
{
    let mut rd: &[u8] = data;
    rustls_pemfile::certs(&mut rd).map_err(|e| e.to_string())
}

/// Whether a section holds a private key.
pub open spec fn is_key(kind: PemKind) -> bool {
    kind is RsaKey || kind is Pkcs8Key || kind is EcKey
}

/// Whether a section holds a private key.
pub fn is_private_key(kind: PemKind) -> (r: bool)
    ensures
        r == is_key(kind),
{
    match kind {
        PemKind::RsaKey => true,
        PemKind::Pkcs8Key => true,
        PemKind::EcKey => true,
        _ => false,
    }
}

/// The first private key of a PEM file, if it has one. Sections behind it are
/// not looked at.
pub open spec fn first_key(data: Seq<u8>) -> Result<Option<Seq<u8>>, Seq<char>>
    decreases data.len(),
{
    match pem_next(data) {
        Err(e) => Err(e),
        Ok(None) => Ok(None),
        Ok(Some((kind, der, rest))) => if is_key(kind) {
            Ok(Some(der))
        } else if rest.len() < data.len() {
            first_key(rest)
        } else {
            Ok(None)
        },
    }
}

/// What a section says to one who looks for a key.
#[derive(Debug)]
pub enum KeySearch {
    /// It is a key.
    Found(Vec<u8>),
    /// There is no section any more.
    NoKey,
    /// The section cannot be read.
    Failed(String),
    /// It is something else: go on with what is left of the file.
    GoOn(Vec<u8>),
}

/// What a section that was read, with what is left of the file behind it, says
/// to one who looks for a key.
pub fn search_key(section: Result<Option<(PemItem, Vec<u8>)>, String>) -> (s: KeySearch)
    ensures
        s == (match section {
            Err(e) => KeySearch::Failed(e),
            Ok(None) => KeySearch::NoKey,
            Ok(Some((item, rest))) => if is_key(item.kind) {
                KeySearch::Found(item.der)
            } else {
                KeySearch::GoOn(rest)
            },
        }),
{
    match section {
        Err(e) => KeySearch::Failed(e),
        Ok(None) => KeySearch::NoKey,
        Ok(Some((item, rest))) => if is_private_key(item.kind) {
            KeySearch::Found(item.der)
        } else {
            KeySearch::GoOn(rest)
        },
    }
}

/// Whether the key that was found is the one that `expected` tells of.
pub open spec fn reads_as_key(r: Result<Option<Vec<u8>>, String>, expected: Result<Option<Seq<u8>>, Seq<char>>) -> bool {
    match r {
        Err(e) => expected == Err::<Option<Seq<u8>>, Seq<char>>(e@),
        Ok(None) => expected == Ok::<Option<Seq<u8>>, Seq<char>>(None),
        Ok(Some(key)) => expected == Ok::<Option<Seq<u8>>, Seq<char>>(Some(key@)),
    }
}

/// The first private key of a PEM file, if it has one.
pub fn read_key(data: &[u8]) -> (r: Result<Option<Vec<u8>>, String>)
    ensures
        reads_as_key(r, first_key(data@)),
    decreases data@.len(),
{
    match search_key(read_one(data)) {
        KeySearch::Found(key) => Ok(Some(key)),
        KeySearch::NoKey => Ok(None),
        KeySearch::Failed(e) => Err(e),
        KeySearch::GoOn(rest) => read_key(rest.as_slice()),
    }
}

/// The certificates and the key that a side of a connection shows.
#[derive(Debug)]
pub struct Identity {
    pub certs: Vec<Vec<u8>>,
    pub key: Vec<u8>,
}

/// Why there is no identity.
#[derive(Debug)]
pub enum IdentityError {
    /// The file is no PEM file.
    Pem(String),
    /// The file holds no key.
    NoKey,
}

/// How an `IdentityError` is written.
pub open spec fn identity_error_text(e: IdentityError) -> Seq<char> {
    match e {
        IdentityError::Pem(cause) => cause@,
        IdentityError::NoKey => "no key found in "@ + DEFAULT_SERVER_PEM_PATH@,
    }
}

impl IdentityError {
    /// The error, written for a reader.
    pub fn text(&self) -> (s: String)
        ensures
            s@ == identity_error_text(*self),
    {
        match self {
            IdentityError::Pem(cause) => cause.clone(),
            IdentityError::NoKey => {
                let mut s: String = "no key found in ".to_owned();
                s.append(DEFAULT_SERVER_PEM_PATH);
                s
            },
        }
    }
}

/// Whether an identity holds these certificates and this key.
pub open spec fn is_identity(id: Identity, certs: Seq<Seq<u8>>, key: Seq<u8>) -> bool {
    bytes_of(id.certs@) == certs && id.key@ == key
}

/// What the certificates and the key of a server come to.
pub open spec fn server_side(certs: Result<Vec<Vec<u8>>, String>, key: Result<Option<Vec<u8>>, String>) -> Result<
    Identity,
    IdentityError,
> {
    match (certs, key) {
        (Err(e), _) => Err(IdentityError::Pem(e)),
        (Ok(_), Err(e)) => Err(IdentityError::Pem(e)),
        (Ok(_), Ok(None)) => Err(IdentityError::NoKey),
        (Ok(certs), Ok(Some(key))) => Ok(Identity { certs, key }),
    }
}

/// What the certificates and the key of a client come to.
pub open spec fn client_side(certs: Result<Vec<Vec<u8>>, String>, key: Result<Option<Vec<u8>>, String>) -> Result<
    Option<Identity>,
    String,
> {
    match (certs, key) {
        (Err(e), _) => Err(e),
        (Ok(_), Err(e)) => Err(e),
        (Ok(_), Ok(None)) => Ok(None),
        (Ok(certs), Ok(Some(key))) => Ok(Some(Identity { certs, key })),
    }
}

/// A side shows the certificates and the key that were read of it, all of them.
/// A server without a key is refused, a client without one shows nothing; and a
/// file that cannot be read is an error, that of the certificates first.
pub proof fn a_side_shows_what_was_read(certs: Result<Vec<Vec<u8>>, String>, key: Result<Option<Vec<u8>>, String>)
    ensures
        server_side(certs, key) matches Ok(id) ==> certs == Ok::<Vec<Vec<u8>>, String>(id.certs) && key == Ok::<
            Option<Vec<u8>>,
            String,
        >(Some(id.key)),
        client_side(certs, key) matches Ok(Some(id)) ==> server_side(certs, key) == Ok::<Identity, IdentityError>(id),
        server_side(certs, key) matches Ok(id) ==> client_side(certs, key) == Ok::<Option<Identity>, String>(Some(id)),
        server_side(certs, key) is Ok <==> certs is Ok && (key matches Ok(Some(_))),
        server_side(certs, key) matches Err(IdentityError::NoKey) <==> certs is Ok && (key matches Ok(None)),
        client_side(certs, key) matches Ok(None) <==> certs is Ok && (key matches Ok(None)),
        certs matches Err(e) ==> server_side(certs, key) == Err::<Identity, IdentityError>(IdentityError::Pem(e))
            && client_side(certs, key) == Err::<Option<Identity>, String>(e),
        certs is Ok ==> (key matches Err(e) ==> server_side(certs, key) == Err::<Identity, IdentityError>(
            IdentityError::Pem(e),
        ) && client_side(certs, key) == Err::<Option<Identity>, String>(e)),
{
}

/// What the certificates and the key that were read of a server come to. It must
/// have a key.
pub fn server_identity_of(certs: Result<Vec<Vec<u8>>, String>, key: Result<Option<Vec<u8>>, String>) -> (r: Result<
    Identity,
    IdentityError,
>)
    ensures
        r == server_side(certs, key),
{
    match (certs, key) {
        (Err(e), _) => Err(IdentityError::Pem(e)),
        (Ok(_), Err(e)) => Err(IdentityError::Pem(e)),
        (Ok(_), Ok(None)) => Err(IdentityError::NoKey),
        (Ok(certs), Ok(Some(key))) => Ok(Identity { certs, key }),
    }
}

/// The identity of a server, from its file: all its certificates and its first
/// key. The file must hold a key.
pub fn server_identity(pem: &[u8]) -> (r: Result<Identity, IdentityError>)
    ensures
        match (pem_certificates(pem@), first_key(pem@)) {
            (Err(m), _) => r matches Err(IdentityError::Pem(e)) && e@ == m,
            (Ok(_), Err(m)) => r matches Err(IdentityError::Pem(e)) && e@ == m,
            (Ok(_), Ok(None)) => r matches Err(IdentityError::NoKey),
            (Ok(certs), Ok(Some(key))) => r matches Ok(id) && is_identity(id, certs, key),
        },
{
    server_identity_of(read_certs(pem), read_key(pem))
}

/// What the certificates and the key that were read of a client come to. Without
/// a key it shows none.
pub fn client_identity_of(certs: Result<Vec<Vec<u8>>, String>, key: Result<Option<Vec<u8>>, String>) -> (r: Result<
    Option<Identity>,
    String,
>)
    ensures
        r == client_side(certs, key),
{
    match (certs, key) {
        (Err(e), _) => Err(e),
        (Ok(_), Err(e)) => Err(e),
        (Ok(_), Ok(None)) => Ok(None),
        (Ok(certs), Ok(Some(key))) => Ok(Some(Identity { certs, key })),
    }
}

/// The identity of a client, from its two files; none where the environment
/// names no files, or the key file holds no key.
pub fn client_identity(certs_pem: Option<&[u8]>, key_pem: Option<&[u8]>) -> (r: Result<Option<Identity>, String>)
    ensures
        match (certs_pem, key_pem) {
            (Some(c), Some(k)) => match (pem_certificates(c@), first_key(k@)) {
                (Err(m), _) => r matches Err(e) && e@ == m,
                (Ok(_), Err(m)) => r matches Err(e) && e@ == m,
                (Ok(_), Ok(None)) => r matches Ok(None),
                (Ok(certs), Ok(Some(key))) => r matches Ok(Some(id)) && is_identity(id, certs, key),
            },
            _ => r matches Ok(None),
        },
{
    match (certs_pem, key_pem) {
        (Some(c), Some(k)) => client_identity_of(read_certs(c), read_key(k)),
        _ => Ok(None),
    }
}

/// The certificates of the authorities, from their file.
pub fn root_certs(pem: &[u8]) -> (r: Result<Vec<Vec<u8>>, String>)
    ensures
        reads_as_certs(r, pem_certificates(pem@)),
{
    read_certs(pem)
}

/// The key of a file is what its first section that is a private key holds, of
/// whatever kind that is: sections before it that are none are passed over, and
/// what cannot be read before one is found is an error.
pub proof fn the_first_key_is_found(data: Seq<u8>)
    ensures
        pem_next(data) matches Ok(Some((kind, der, rest))) ==> {
            &&& kind is RsaKey || kind is Pkcs8Key || kind is EcKey ==> first_key(data) == Ok::<
                Option<Seq<u8>>,
                Seq<char>,
            >(Some(der))
            &&& !(kind is RsaKey || kind is Pkcs8Key || kind is EcKey) && rest.len() < data.len() ==> first_key(data)
                == first_key(rest)
        },
        pem_next(data) matches Err(e) ==> first_key(data) == Err::<Option<Seq<u8>>, Seq<char>>(e),
        pem_next(data) matches Ok(None) ==> first_key(data) == Ok::<Option<Seq<u8>>, Seq<char>>(None),
{
}

/// No section is both a certificate and a key.
pub proof fn certificates_are_no_keys(kind: PemKind)
    ensures
        is_key(kind) <==> kind is RsaKey || kind is Pkcs8Key || kind is EcKey,
        kind is Certificate || kind is RevocationList || kind is Other ==> !is_key(kind),
{
}

}
