//! Addresses of Unix domain sockets.

use crate::text::{before, is_before, same};
use vstd::prelude::*;
use vstd::string::*;
use vstd::utf8::{encode_utf8, is_ascii_chars, is_ascii_chars_encode_utf8};

verus! {

/// The bytes that the system has for the name of a Unix socket.
pub const SUN_PATH_LEN: usize = 108;

/// How many random characters make a name.
pub const RANDOM_NAME_LEN: usize = 24;

/// The name that a Unix socket is bound to.
#[derive(Debug)]
pub enum UnixName {
    /// A path, absolute or relative.
    Pathname(String),
    /// A name that is none of a file.
    Abstract(String),
    /// No name.
    Unnamed,
}

/// The address of a Unix socket.
#[derive(Debug)]
pub enum SocketAddr {
    Bound(UnixName),
    Unbound,
}

/// What a `SocketAddr` holds.
#[verifier::ext_equal]
pub enum UnixModel {
    Pathname(Seq<char>),
    Abstract(Seq<char>),
    Unnamed,
    Unbound,
}

impl View for SocketAddr {
    type V = UnixModel;

    open spec fn view(&self) -> UnixModel {
        match *self {
            SocketAddr::Bound(UnixName::Pathname(p)) => UnixModel::Pathname(p@),
            SocketAddr::Bound(UnixName::Abstract(n)) => UnixModel::Abstract(n@),
            SocketAddr::Bound(UnixName::Unnamed) => UnixModel::Unnamed,
            SocketAddr::Unbound => UnixModel::Unbound,
        }
    }
}

impl Clone for SocketAddr {
    fn clone(&self) -> (c: SocketAddr)
        ensures
            c == *self,
    {
        match self {
            SocketAddr::Bound(UnixName::Pathname(p)) => SocketAddr::Bound(UnixName::Pathname(p.clone())),
            SocketAddr::Bound(UnixName::Abstract(n)) => SocketAddr::Bound(UnixName::Abstract(n.clone())),
            SocketAddr::Bound(UnixName::Unnamed) => SocketAddr::Bound(UnixName::Unnamed),
            SocketAddr::Unbound => SocketAddr::Unbound,
        }
    }
}

/// Why a name cannot be the name of a socket.
#[derive(Debug, Clone, Copy, PartialEq, Eq, Structural)]
pub enum NameError {
    /// A path holds a null character.
    ContainsNull,
    /// The name takes more bytes than the system has for it.
    TooLong,
}

/// `name` without an at sign in front.
pub open spec fn without_at(name: Seq<char>) -> Seq<char> {
    if name.len() > 0 && name[0] == '@' {
        name.drop_first()
    } else {
        name
    }
}

/// The address with that abstract name; an at sign in front does not count.
pub open spec fn abstract_addr(name: Seq<char>) -> Result<UnixModel, NameError> {
    if encode_utf8(without_at(name)).len() + 1 > SUN_PATH_LEN {
        Err(NameError::TooLong)
    } else {
        Ok(UnixModel::Abstract(without_at(name)))
    }
}

/// The address with that path.
pub open spec fn path_addr(path: Seq<char>) -> Result<UnixModel, NameError> {
    if path.contains('\0') {
        Err(NameError::ContainsNull)
    } else if encode_utf8(path).len() >= SUN_PATH_LEN {
        Err(NameError::TooLong)
    } else if path.len() == 0 {
        Ok(UnixModel::Unnamed)
    } else {
        Ok(UnixModel::Pathname(path))
    }
}

/// The address that a text writes; `random` is the name taken for the empty text.
pub open spec fn unix_addr(s: Seq<char>, random: Seq<char>) -> Result<UnixModel, NameError> {
    if s.len() == 0 {
        abstract_addr(random)
    } else if s[0] == '@' {
        abstract_addr(s.drop_first())
    } else {
        path_addr(s)
    }
}

/// An ASCII letter or digit.
pub open spec fn alphanumeric(c: char) -> bool {
    '0' <= c <= '9' || 'a' <= c <= 'z' || 'A' <= c <= 'Z'
}

/// A text of that many ASCII letters and digits.
pub open spec fn is_random_name(s: Seq<char>, len: nat) -> bool {
    s.len() == len && forall|i: int| 0 <= i < s.len() ==> alphanumeric(#[trigger] s[i])
}

/// Samples `rand`'s `Alphanumeric` distribution: that many ASCII letters and
/// digits. Nothing is said of which.
#[verifier::external_body]
fn random_name(len: usize) -> (s: String)
    ensures
        is_random_name(s@, len as nat),
{
    let sampled = rand::Rng::sample_iter(rand::thread_rng(), &rand::distributions::Alphanumeric);
    sampled.take(len).map(char::from).collect()
}

fn strip_at(name: &str) -> (r: String)
    ensures
        r@ == without_at(name@),
{
    let v: Vec<char> = crate::text::chars(name);
    if v.len() > 0 && v[0] == '@' {
        let r: String = crate::text::slice(&v, 1, v.len());
        assert(r@ =~= name@.drop_first());
        r
    } else {
        let r: String = crate::text::slice(&v, 0, v.len());
        assert(r@ =~= name@);
        r
    }
}

fn has_null(s: &str) -> (r: bool)
    ensures
        r == s@.contains('\0'),
{
    let v: Vec<char> = crate::text::chars(s);
    let mut i: usize = 0;
    while i < v.len()
        invariant
            i <= v@.len(),
            v@ == s@,
            forall|j: int| 0 <= j < i ==> v@[j] != '\0',
        decreases v@.len() - i,
    {
        if v[i] == '\0' {
            assert(s@[i as int] == '\0');
            return true;
        }
        i = i + 1;
    }
    false
}

/// A name of ASCII characters takes one byte for each.
proof fn lemma_random_name_fits(s: Seq<char>)
    requires
        is_random_name(s, RANDOM_NAME_LEN as nat),
    ensures
        abstract_addr(s) == Ok::<UnixModel, NameError>(UnixModel::Abstract(s)),
{
    assert(is_ascii_chars(s)) by {
        assert forall|i: int| 0 <= i < s.len() implies '\0' <= #[trigger] s[i] <= '\u{7f}' by {
            assert(alphanumeric(s[i]));
        }
    }
    is_ascii_chars_encode_utf8(s);
    assert(alphanumeric(s[0]));
}

/// Whether what came of reading an address is what it should be.
pub open spec fn reads_as(r: Result<SocketAddr, NameError>, expected: Result<UnixModel, NameError>) -> bool {
    match (r, expected) {
        (Ok(a), Ok(m)) => a@ == m,
        (Err(e), Err(f)) => e == f,
        _ => false,
    }
}

impl SocketAddr {
    /// The address with that abstract name; an at sign in front does not count.
    pub fn from_abstract_name(name: &str) -> (r: Result<SocketAddr, NameError>)
        ensures
            reads_as(r, abstract_addr(name@)),
    {
        let name: String = strip_at(name);
        if name.as_str().as_bytes().len() >= SUN_PATH_LEN {
            return Err(NameError::TooLong);
        }
        Ok(SocketAddr::Bound(UnixName::Abstract(name)))
    }

    /// The address with that path.
    pub fn from_pathname(name: &str) -> (r: Result<SocketAddr, NameError>)
        ensures
            reads_as(r, path_addr(name@)),
    {
        if has_null(name) {
            return Err(NameError::ContainsNull);
        }
        if name.as_bytes().len() >= SUN_PATH_LEN {
            return Err(NameError::TooLong);
        }
        if name.is_empty() {
            return Ok(SocketAddr::Bound(UnixName::Unnamed));
        }
        Ok(SocketAddr::Bound(UnixName::Pathname(name.to_owned())))
    }

    /// The address that a text writes: an abstract name behind an at sign, or a
    /// path. `random` is the name taken for the empty text.
    pub fn from_str_or(s: &str, random: &str) -> (r: Result<SocketAddr, NameError>)
        ensures
            reads_as(r, unix_addr(s@, random@)),
    {
        if s.is_empty() {
            return SocketAddr::from_abstract_name(random);
        }
        let v: Vec<char> = crate::text::chars(s);
        if v[0] == '@' {
            let name: String = crate::text::slice(&v, 1, v.len());
            assert(name@ =~= s@.drop_first());
            return SocketAddr::from_abstract_name(name.as_str());
        }
        SocketAddr::from_pathname(s)
    }

    /// The address that a text writes; the empty text stands for a random
    /// abstract name.
    pub fn from_str(s: &str) -> (r: Result<SocketAddr, NameError>)
        ensures
            s@.len() > 0 ==> reads_as(r, unix_addr(s@, Seq::<char>::empty())),
            s@.len() == 0 ==> r is Ok && ((r->Ok_0)@ matches UnixModel::Abstract(name) && is_random_name(
                name,
                RANDOM_NAME_LEN as nat,
            )),
    {
        let random: String = random_name(RANDOM_NAME_LEN);
        proof {
            lemma_random_name_fits(random@);
        }
        SocketAddr::from_str_or(s, random.as_str())
    }

    /// The address, written for a reader.
    pub fn display(&self) -> (s: String)
        ensures
            s@ == unix_text(self@),
    {
        match self {
            SocketAddr::Bound(UnixName::Pathname(p)) => p.clone(),
            SocketAddr::Bound(UnixName::Abstract(n)) => {
                let v: Vec<char> = crate::text::chars(n.as_str());
                if v.len() > 0 && v[0] == '@' {
                    return n.clone();
                }
                with_at(n)
            },
            SocketAddr::Bound(UnixName::Unnamed) => "(unnamed)".to_owned(),
            SocketAddr::Unbound => "(unbound)".to_owned(),
        }
    }

    /// The address, written to be sent to others.
    pub fn serialize(&self) -> (s: String)
        ensures
            s@ == unix_wire_text(self@),
    {
        match self {
            SocketAddr::Bound(UnixName::Pathname(p)) => p.clone(),
            SocketAddr::Bound(UnixName::Abstract(n)) => with_at(n),
            SocketAddr::Bound(UnixName::Unnamed) => "(unnamed)".to_owned(),
            SocketAddr::Unbound => "(unbound)".to_owned(),
        }
    }

    /// Whether this address comes before the other: addresses are in the order
    /// in which they are written.
    pub fn is_less(&self, other: &SocketAddr) -> (r: bool)
        ensures
            r == before(unix_text(self@), unix_text(other@)),
    {
        is_before(self.display().as_str(), other.display().as_str())
    }

    /// The name that the address is bound to, if it is bound.
    pub fn bound_name(&self) -> (r: Option<&UnixName>)
        ensures
            match *self {
                SocketAddr::Bound(name) => r == Some(&name),
                SocketAddr::Unbound => r is None,
            },
    {
        match self {
            SocketAddr::Bound(name) => Some(name),
            SocketAddr::Unbound => None,
        }
    }
}

/// Whether both are bound to the same name. An address without a name is the
/// same as none, itself not excepted.
impl PartialEq for SocketAddr {
    fn eq(&self, other: &SocketAddr) -> (r: bool) {
        match (self, other) {
            (
                SocketAddr::Bound(UnixName::Pathname(a)),
                SocketAddr::Bound(UnixName::Pathname(b)),
            ) => same(a.as_str(), b.as_str()),
            (
                SocketAddr::Bound(UnixName::Abstract(a)),
                SocketAddr::Bound(UnixName::Abstract(b)),
            ) => same(a.as_str(), b.as_str()),
            _ => false,
        }
    }
}

impl vstd::std_specs::cmp::PartialEqSpecImpl for SocketAddr {
    open spec fn obeys_eq_spec() -> bool {
        true
    }

    open spec fn eq_spec(&self, other: &SocketAddr) -> bool {
        same_name(self@, other@)
    }
}

fn with_at(name: &String) -> (s: String)
    ensures
        s@ == seq!['@'] + name@,
{
    let mut s: String = String::new();
    s.push('@');
    assert(s@ =~= seq!['@']);
    s.append(name.as_str());
    s
}

/// How an address is written for a reader: an abstract name behind one at sign.
pub open spec fn unix_text(a: UnixModel) -> Seq<char> {
    match a {
        UnixModel::Pathname(p) => p,
        UnixModel::Abstract(n) => if n.len() > 0 && n[0] == '@' {
            n
        } else {
            seq!['@'] + n
        },
        UnixModel::Unnamed => "(unnamed)"@,
        UnixModel::Unbound => "(unbound)"@,
    }
}

/// How an address is written to be sent to others.
pub open spec fn unix_wire_text(a: UnixModel) -> Seq<char> {
    match a {
        UnixModel::Pathname(p) => p,
        UnixModel::Abstract(n) => seq!['@'] + n,
        UnixModel::Unnamed => "(unnamed)"@,
        UnixModel::Unbound => "(unbound)"@,
    }
}

/// Whether two addresses are bound to the same name.
pub open spec fn same_name(a: UnixModel, b: UnixModel) -> bool {
    match (a, b) {
        (UnixModel::Pathname(p), UnixModel::Pathname(q)) => p == q,
        (UnixModel::Abstract(m), UnixModel::Abstract(n)) => m == n,
        _ => false,
    }
}

/// Whether an address has a name that the system takes, and one that does not
/// begin as the name of the other kind does.
pub open spec fn has_plain_name(a: UnixModel) -> bool {
    match a {
        UnixModel::Pathname(p) => p.len() > 0 && p[0] != '@' && path_addr(p) is Ok,
        UnixModel::Abstract(n) => (n.len() > 0 ==> n[0] != '@') && abstract_addr(n) is Ok,
        _ => false,
    }
}

/// What is written of an address reads back as that address, whether it was
/// written for a reader or to be sent to others.
pub proof fn unix_text_reads_back(a: UnixModel, random: Seq<char>)
    requires
        has_plain_name(a),
    ensures
        unix_addr(unix_text(a), random) == Ok::<UnixModel, NameError>(a),
        unix_addr(unix_wire_text(a), random) == Ok::<UnixModel, NameError>(a),
{
    match a {
        UnixModel::Abstract(n) => {
            let t = seq!['@'] + n;
            assert(t.drop_first() =~= n);
        },
        _ => {},
    }
}

/// Having the same name goes both ways and carries over, and an address with a
/// name has the same name as itself.
pub proof fn same_name_is_an_equality_of_names(a: UnixModel, b: UnixModel, c: UnixModel)
    ensures
        same_name(a, b) == same_name(b, a),
        same_name(a, b) && same_name(b, c) ==> same_name(a, c),
        a is Pathname || a is Abstract ==> same_name(a, a),
        a is Unnamed || a is Unbound ==> !same_name(a, a),
        same_name(a, b) ==> a == b,
{
}

/// A name is taken where the system has room for it: an abstract name of up to
/// a hundred and seven bytes, a path of as many that holds no null character.
pub proof fn names_are_taken_where_there_is_room(name: Seq<char>)
    ensures
        abstract_addr(name) is Ok <==> encode_utf8(without_at(name)).len() <= 107,
        abstract_addr(name) matches Err(e) ==> e is TooLong,
        path_addr(name) is Ok <==> !name.contains('\0') && encode_utf8(name).len() <= 107,
        path_addr(name) matches Err(e) ==> (e is ContainsNull <==> name.contains('\0')),
{
}

/// A text that begins with an at sign writes an abstract name, any other that
/// holds something a path; the empty text leaves the name to chance. Nothing of
/// the name is lost.
pub proof fn the_first_character_tells_the_kind(s: Seq<char>, random: Seq<char>)
    ensures
        s.len() == 0 ==> unix_addr(s, random) == abstract_addr(random),
        unix_addr(s, random) matches Ok(a) ==> {
            &&& s.len() > 0 && s[0] != '@' ==> a == UnixModel::Pathname(s)
            &&& s.len() > 0 && s[0] == '@' ==> (a matches UnixModel::Abstract(n) && n.is_suffix_of(s) && n.len() + 2
                >= s.len())
            &&& s.len() > 1 && s[0] == '@' && s[1] != '@' ==> a == UnixModel::Abstract(s.drop_first())
        },
{
    if s.len() > 0 && s[0] == '@' {
        let n = without_at(s.drop_first());
        assert(s.skip(s.len() - n.len()) =~= n);
    }
}

/// An at sign in front of an abstract name does not count, once.
pub proof fn one_at_sign_does_not_count(name: Seq<char>)
    ensures
        without_at(seq!['@'] + name) == name,
        name.len() > 0 && name[0] != '@' ==> without_at(name) == name,
        abstract_addr(seq!['@'] + without_at(name)) == abstract_addr(name),
{
    assert((seq!['@'] + name).drop_first() =~= name);
    assert((seq!['@'] + without_at(name)).drop_first() =~= without_at(name));
}

}
