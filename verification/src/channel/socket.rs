//! Internet socket addresses, read and written as text.

use crate::numerals::{
    bounded_number, decimal, digit, format_decimal, format_hex, hex, lemma_decimal_reads_back, lemma_hex_reads_back,
    number, read_number,
};
use crate::text::{
    chars, lemma_split_first_at, lemma_split_first_none, lemma_split_last_at, lemma_split_on_concat,
    lemma_split_on_none, lemma_split_on_parts, rsplit_once, split, split_first, split_last, split_on, split_once,
    texts,
};
use vstd::prelude::*;

verus! {

/// An internet address with a port.
#[derive(Debug, Clone, Copy, PartialEq, Eq, Hash)]
pub enum SocketAddr {
    V4 { octets: [u8; 4], port: u16 },
    V6 { segments: [u16; 8], scope_id: u32, port: u16 },
}

/// What a `SocketAddr` holds.
#[verifier::ext_equal]
pub enum SocketModel {
    V4 { octets: Seq<u8>, port: u16 },
    V6 { segments: Seq<u16>, scope_id: u32, port: u16 },
}

impl View for SocketAddr {
    type V = SocketModel;

    open spec fn view(&self) -> SocketModel {
        match *self {
            SocketAddr::V4 { octets, port } => SocketModel::V4 { octets: octets@, port },
            SocketAddr::V6 { segments, scope_id, port } => SocketModel::V6 { segments: segments@, scope_id, port },
        }
    }
}

/// The number of an octet: up to three decimal digits, with no zero in front.
pub open spec fn octet(t: Seq<char>) -> Option<nat> {
    if t.len() <= 3 && (t.len() == 1 || t[0] != '0') {
        bounded_number(t, 10, 255)
    } else {
        None
    }
}

/// The octets of an IPv4 address.
pub open spec fn ipv4(t: Seq<char>) -> Option<Seq<u8>> {
    let parts = split_on(t, '.');
    if parts.len() == 4 && octet(parts[0]) is Some && octet(parts[1]) is Some && octet(parts[2]) is Some && octet(
        parts[3],
    ) is Some {
        Some(
            seq![
                octet(parts[0])->0 as u8,
                octet(parts[1])->0 as u8,
                octet(parts[2])->0 as u8,
                octet(parts[3])->0 as u8,
            ],
        )
    } else {
        None
    }
}

/// The number of a group of up to four hexadecimal digits.
pub open spec fn group(t: Seq<char>) -> Option<nat> {
    if t.len() <= 4 {
        bounded_number(t, 16, 0xffff)
    } else {
        None
    }
}

/// The numbers of a row of groups.
pub open spec fn groups(parts: Seq<Seq<char>>) -> Option<Seq<u16>>
    decreases parts.len(),
{
    if parts.len() == 0 {
        Some(Seq::<u16>::empty())
    } else {
        match (groups(parts.drop_last()), group(parts.last())) {
            (Some(rest), Some(g)) => Some(rest.push(g as u16)),
            _ => None,
        }
    }
}

/// The groups of a text with colons between them, which may be none at all.
pub open spec fn plain_groups(t: Seq<char>) -> Option<Seq<u16>> {
    if t.len() == 0 {
        Some(Seq::<u16>::empty())
    } else {
        groups(split_on(t, ':'))
    }
}

/// The two groups that the octets of an IPv4 address make.
pub open spec fn octet_groups(octets: Seq<u8>) -> Seq<u16> {
    seq![(octets[0] * 256 + octets[1]) as u16, (octets[2] * 256 + octets[3]) as u16]
}

/// The groups of a text with colons between them; the last part may be an IPv4
/// address, which counts for two.
pub open spec fn mixed_groups(t: Seq<char>) -> Option<Seq<u16>> {
    if t.len() == 0 {
        Some(Seq::<u16>::empty())
    } else {
        let parts = split_on(t, ':');
        match ipv4(parts.last()) {
            Some(octets) => match groups(parts.drop_last()) {
                Some(rest) => Some(rest + octet_groups(octets)),
                None => None,
            },
            None => groups(parts),
        }
    }
}

/// The place of the first two colons in a row, from `at` on.
pub open spec fn double_colon(t: Seq<char>, at: nat) -> Option<nat>
    decreases t.len() - at,
{
    if at + 1 >= t.len() {
        None
    } else if t[at as int] == ':' && t[at as int + 1] == ':' {
        Some(at)
    } else {
        double_colon(t, at + 1)
    }
}

/// So many zeros.
pub open spec fn zeros(n: nat) -> Seq<u16> {
    Seq::new(n, |i: int| 0u16)
}

/// The segments of an IPv6 address: eight groups, or fewer with a double colon
/// that stands for at least one group of zeros.
pub open spec fn ipv6(t: Seq<char>) -> Option<Seq<u16>> {
    match double_colon(t, 0) {
        Some(at) => match (plain_groups(t.take(at as int)), mixed_groups(t.skip(at as int + 2))) {
            (Some(head), Some(tail)) => if head.len() + tail.len() <= 7 {
                Some(head + zeros((8 - head.len() - tail.len()) as nat) + tail)
            } else {
                None
            },
            _ => None,
        },
        None => match mixed_groups(t) {
            Some(all) => if all.len() == 8 {
                Some(all)
            } else {
                None
            },
            None => None,
        },
    }
}

/// The segments of an IPv6 address and the scope behind it, which is zero where
/// there is none.
pub open spec fn scoped_ipv6(t: Seq<char>) -> Option<(Seq<u16>, nat)> {
    match split_first(t, '%') {
        Some((address, scope)) => match (ipv6(address), bounded_number(scope, 10, 0xffff_ffff)) {
            (Some(segments), Some(scope)) => Some((segments, scope)),
            _ => None,
        },
        None => match ipv6(t) {
            Some(segments) => Some((segments, 0)),
            None => None,
        },
    }
}

/// The socket address that a text writes: an IPv4 address, a colon and a port,
/// or an IPv6 address in square brackets, a colon and a port.
pub open spec fn socket(t: Seq<char>) -> Option<SocketModel> {
    match socket_v4(t) {
        Some(a) => Some(a),
        None => socket_v6(t),
    }
}

/// The IPv4 socket address that a text writes.
pub open spec fn socket_v4(t: Seq<char>) -> Option<SocketModel> {
    match split_last(t, ':') {
        Some((address, port)) => match (ipv4(address), bounded_number(port, 10, 0xffff)) {
            (Some(octets), Some(port)) => Some(SocketModel::V4 { octets, port: port as u16 }),
            _ => None,
        },
        None => None,
    }
}

/// The IPv6 socket address that a text writes.
pub open spec fn socket_v6(t: Seq<char>) -> Option<SocketModel> {
    if t.len() > 0 && t[0] == '[' {
        match split_first(t.drop_first(), ']') {
            Some((inner, rest)) => if rest.len() > 0 && rest[0] == ':' {
                match (scoped_ipv6(inner), bounded_number(rest.drop_first(), 10, 0xffff)) {
                    (Some((segments, scope)), Some(port)) => Some(
                        SocketModel::V6 { segments, scope_id: scope as u32, port: port as u16 },
                    ),
                    _ => None,
                }
            } else {
                None
            },
            None => None,
        }
    } else {
        None
    }
}

fn read_digits(s: &str, radix: u32, max: u64) -> (r: Option<u64>)
    requires
        radix == 10 || radix == 16,
    ensures
        match r {
            Some(n) => bounded_number(s@, radix as int, max as int) == Some(n as nat),
            None => bounded_number(s@, radix as int, max as int) is None,
        },
{
    let v: Vec<char> = chars(s);
    assert(v@.subrange(0, v.len() as int) =~= s@);
    read_number(&v, 0, v.len(), radix, max)
}

fn read_octet(s: &str) -> (r: Option<u8>)
    ensures
        match r {
            Some(n) => octet(s@) == Some(n as nat),
            None => octet(s@) is None,
        },
{
    let v: Vec<char> = chars(s);
    if v.len() > 3 || v.len() == 0 || (v.len() > 1 && v[0] == '0') {
        return None;
    }
    match read_digits(s, 10, 255) {
        Some(n) => Some(n as u8),
        None => None,
    }
}

fn read_ipv4(s: &str) -> (r: Option<[u8; 4]>)
    ensures
        match r {
            Some(octets) => ipv4(s@) == Some(octets@),
            None => ipv4(s@) is None,
        },
{
    let parts: Vec<String> = split(s, '.');
    assert(texts(parts@).len() == parts@.len());
    if parts.len() != 4 {
        return None;
    }
    assert forall|i: int| 0 <= i < 4 implies #[trigger] split_on(s@, '.')[i] == parts@[i]@ by {}
    let a: Option<u8> = read_octet(parts[0].as_str());
    let b: Option<u8> = read_octet(parts[1].as_str());
    let c: Option<u8> = read_octet(parts[2].as_str());
    let d: Option<u8> = read_octet(parts[3].as_str());
    match (a, b, c, d) {
        (Some(a), Some(b), Some(c), Some(d)) => {
            let octets: [u8; 4] = [a, b, c, d];
            assert(octets@ =~= seq![a, b, c, d]);
            assert(ipv4(s@) is Some);
            assert(ipv4(s@)->0 =~= octets@);
            Some(octets)
        },
        _ => None,
    }
}

fn read_group(s: &str) -> (r: Option<u16>)
    ensures
        match r {
            Some(n) => group(s@) == Some(n as nat),
            None => group(s@) is None,
        },
{
    if s.unicode_len() > 4 {
        return None;
    }
    match read_digits(s, 16, 0xffff) {
        Some(n) => Some(n as u16),
        None => None,
    }
}

fn read_groups(parts: &Vec<String>, count: usize) -> (r: Option<Vec<u16>>)
    requires
        count <= parts@.len(),
    ensures
        match r {
            Some(v) => groups(texts(parts@).take(count as int)) == Some(v@),
            None => groups(texts(parts@).take(count as int)) is None,
        },
    decreases count,
{
    if count == 0 {
        assert(texts(parts@).take(0) =~= Seq::<Seq<char>>::empty());
        let v: Vec<u16> = Vec::new();
        assert(v@ =~= Seq::<u16>::empty());
        return Some(v);
    }
    let ghost t = texts(parts@).take(count as int);
    assert(t.drop_last() =~= texts(parts@).take(count - 1));
    assert(t.last() == parts@[count - 1]@);
    match read_groups(parts, count - 1) {
        Some(mut v) => match read_group(parts[count - 1].as_str()) {
            Some(g) => {
                v.push(g);
                Some(v)
            },
            None => None,
        },
        None => None,
    }
}

fn read_plain_groups(s: &str) -> (r: Option<Vec<u16>>)
    ensures
        match r {
            Some(v) => plain_groups(s@) == Some(v@),
            None => plain_groups(s@) is None,
        },
{
    if s.unicode_len() == 0 {
        let v: Vec<u16> = Vec::new();
        assert(v@ =~= Seq::<u16>::empty());
        return Some(v);
    }
    let parts: Vec<String> = split(s, ':');
    assert(texts(parts@).take(parts@.len() as int) =~= split_on(s@, ':'));
    read_groups(&parts, parts.len())
}

fn read_mixed_groups(s: &str) -> (r: Option<Vec<u16>>)
    ensures
        match r {
            Some(v) => mixed_groups(s@) == Some(v@),
            None => mixed_groups(s@) is None,
        },
{
    if s.unicode_len() == 0 {
        let v: Vec<u16> = Vec::new();
        assert(v@ =~= Seq::<u16>::empty());
        return Some(v);
    }
    let parts: Vec<String> = split(s, ':');
    let ghost all = split_on(s@, ':');
    proof {
        lemma_split_on_parts(s@, ':');
        assert(texts(parts@).len() == parts@.len());
        assert(all.last() == parts@[parts@.len() - 1]@);
        assert(texts(parts@).take(parts@.len() as int) =~= all);
        assert(texts(parts@).take(parts@.len() - 1) =~= all.drop_last());
    }
    match read_ipv4(parts[parts.len() - 1].as_str()) {
        Some(octets) => match read_groups(&parts, parts.len() - 1) {
            Some(mut v) => {
                let ghost head = v@;
                v.push(octets[0] as u16 * 256 + octets[1] as u16);
                v.push(octets[2] as u16 * 256 + octets[3] as u16);
                assert(v@ =~= head + octet_groups(octets@));
                Some(v)
            },
            None => None,
        },
        None => read_groups(&parts, parts.len()),
    }
}

fn find_double_colon(v: &Vec<char>) -> (r: Option<usize>)
    ensures
        match r {
            Some(i) => double_colon(v@, 0) == Some(i as nat) && i + 2 <= v@.len(),
            None => double_colon(v@, 0) is None,
        },
{
    let mut i: usize = 0;
    while i < v.len() && i + 1 < v.len()
        invariant
            i <= v@.len(),
            double_colon(v@, 0) == double_colon(v@, i as nat),
        decreases v@.len() - i,
    {
        if v[i] == ':' && v[i + 1] == ':' {
            return Some(i);
        }
        i = i + 1;
    }
    None
}

fn segments_of(v: &Vec<u16>) -> (a: [u16; 8])
    requires
        v@.len() == 8,
    ensures
        a@ == v@,
{
    let a: [u16; 8] = [v[0], v[1], v[2], v[3], v[4], v[5], v[6], v[7]];
    assert(a@ =~= v@);
    a
}

fn read_ipv6(s: &str) -> (r: Option<[u16; 8]>)
    ensures
        match r {
            Some(a) => ipv6(s@) == Some(a@),
            None => ipv6(s@) is None,
        },
{
    let v: Vec<char> = chars(s);
    match find_double_colon(&v) {
        Some(at) => {
            let head: String = crate::text::slice(&v, 0, at);
            let tail: String = crate::text::slice(&v, at + 2, v.len());
            assert(head@ =~= s@.take(at as int));
            assert(tail@ =~= s@.skip(at + 2));
            match (read_plain_groups(head.as_str()), read_mixed_groups(tail.as_str())) {
                (Some(head), Some(tail)) => {
                    if head.len() > 7 || tail.len() > 7 - head.len() {
                        return None;
                    }
                    let ghost gap = (8 - head@.len() - tail@.len()) as nat;
                    let mut all: Vec<u16> = Vec::new();
                    let mut i: usize = 0;
                    while i < head.len()
                        invariant
                            i <= head@.len(),
                            all@ == head@.take(i as int),
                        decreases head@.len() - i,
                    {
                        all.push(head[i]);
                        assert(all@ =~= head@.take(i + 1));
                        i = i + 1;
                    }
                    assert(all@ =~= head@ + zeros(0));
                    while all.len() < 8 - tail.len()
                        invariant
                            head@.len() + tail@.len() <= 7,
                            head@.len() <= all@.len() <= 8 - tail@.len(),
                            all@ == head@ + zeros((all@.len() - head@.len()) as nat),
                        decreases 8 - all@.len(),
                    {
                        let ghost before = all@;
                        all.push(0);
                        assert(all@ =~= head@ + zeros((all@.len() - head@.len()) as nat));
                    }
                    let ghost filled = all@;
                    let mut j: usize = 0;
                    assert(filled =~= filled + tail@.take(0));
                    while j < tail.len()
                        invariant
                            j <= tail@.len(),
                            all@ == filled + tail@.take(j as int),
                        decreases tail@.len() - j,
                    {
                        all.push(tail[j]);
                        assert(all@ =~= filled + tail@.take(j + 1));
                        j = j + 1;
                    }
                    assert(tail@.take(tail@.len() as int) =~= tail@);
                    assert(all@ == head@ + zeros(gap) + tail@);
                    Some(segments_of(&all))
                },
                _ => None,
            }
        },
        None => match read_mixed_groups(s) {
            Some(all) => if all.len() == 8 {
                Some(segments_of(&all))
            } else {
                None
            },
            None => None,
        },
    }
}

fn read_scoped_ipv6(s: &str) -> (r: Option<([u16; 8], u32)>)
    ensures
        match r {
            Some((segments, scope)) => scoped_ipv6(s@) == Some((segments@, scope as nat)),
            None => scoped_ipv6(s@) is None,
        },
{
    match split_once(s, '%') {
        Some((address, scope)) => match (read_ipv6(address.as_str()), read_digits(scope.as_str(), 10, 0xffff_ffff)) {
            (Some(segments), Some(scope)) => Some((segments, scope as u32)),
            _ => None,
        },
        None => match read_ipv6(s) {
            Some(segments) => Some((segments, 0)),
            None => None,
        },
    }
}

fn read_socket_v4(s: &str) -> (r: Option<SocketAddr>)
    ensures
        match r {
            Some(a) => socket_v4(s@) == Some(a@),
            None => socket_v4(s@) is None,
        },
{
    match rsplit_once(s, ':') {
        Some((address, port)) => match (read_ipv4(address.as_str()), read_digits(port.as_str(), 10, 0xffff)) {
            (Some(octets), Some(port)) => Some(SocketAddr::V4 { octets, port: port as u16 }),
            _ => None,
        },
        None => None,
    }
}

fn read_socket_v6(s: &str) -> (r: Option<SocketAddr>)
    ensures
        match r {
            Some(a) => socket_v6(s@) == Some(a@),
            None => socket_v6(s@) is None,
        },
{
    let v: Vec<char> = chars(s);
    if v.len() == 0 || v[0] != '[' {
        return None;
    }
    let inside: String = crate::text::slice(&v, 1, v.len());
    assert(inside@ =~= s@.drop_first());
    match split_once(inside.as_str(), ']') {
        Some((inner, rest)) => {
            let w: Vec<char> = chars(rest.as_str());
            if w.len() == 0 || w[0] != ':' {
                return None;
            }
            let port_text: String = crate::text::slice(&w, 1, w.len());
            assert(port_text@ =~= rest@.drop_first());
            match (read_scoped_ipv6(inner.as_str()), read_digits(port_text.as_str(), 10, 0xffff)) {
                (Some((segments, scope_id)), Some(port)) => Some(
                    SocketAddr::V6 { segments, scope_id, port: port as u16 },
                ),
                _ => None,
            }
        },
        None => None,
    }
}

impl SocketAddr {
    /// The socket address that a text writes, if it writes one.
    pub fn parse(s: &str) -> (r: Option<SocketAddr>)
        ensures
            match r {
                Some(a) => socket(s@) == Some(a@),
                None => socket(s@) is None,
            },
    {
        match read_socket_v4(s) {
            Some(a) => Some(a),
            None => read_socket_v6(s),
        }
    }

    /// The port.
    pub fn port(&self) -> (p: u16)
        ensures
            p == (match self@ {
                SocketModel::V4 { port, .. } => port,
                SocketModel::V6 { port, .. } => port,
            }),
    {
        match self {
            SocketAddr::V4 { port, .. } => *port,
            SocketAddr::V6 { port, .. } => *port,
        }
    }
}

/// How an IPv4 address is written.
pub open spec fn ipv4_text(octets: Seq<u8>) -> Seq<char> {
    ((decimal(octets[0] as nat).push('.') + decimal(octets[1] as nat)).push('.') + decimal(octets[2] as nat)).push('.')
        + decimal(octets[3] as nat)
}

/// Groups in hexadecimal, with colons between them.
pub open spec fn joined_groups(s: Seq<u16>) -> Seq<char>
    decreases s.len(),
{
    if s.len() == 0 {
        Seq::<char>::empty()
    } else if s.len() == 1 {
        hex(s[0] as nat)
    } else {
        joined_groups(s.drop_last()).push(':') + hex(s.last() as nat)
    }
}

/// A run of segments: where it starts and how many they are.
pub struct Run {
    pub start: int,
    pub len: int,
}

/// The run of zeros at the end.
pub open spec fn last_run(s: Seq<u16>) -> Run
    decreases s.len(),
{
    if s.len() == 0 || s.last() != 0 {
        Run { start: s.len() as int, len: 0 }
    } else {
        Run { start: last_run(s.drop_last()).start, len: last_run(s.drop_last()).len + 1 }
    }
}

/// The longest run of zeros, the first among equals.
pub open spec fn longest_run(s: Seq<u16>) -> Run
    decreases s.len(),
{
    if s.len() == 0 {
        Run { start: 0, len: 0 }
    } else if last_run(s).len > longest_run(s.drop_last()).len {
        last_run(s)
    } else {
        longest_run(s.drop_last())
    }
}

/// Whether an IPv6 address stands for an IPv4 address.
pub open spec fn is_mapped(s: Seq<u16>) -> bool {
    s[0] == 0 && s[1] == 0 && s[2] == 0 && s[3] == 0 && s[4] == 0 && s[5] == 0xffff
}

/// The IPv4 address that an IPv6 address stands for.
pub open spec fn mapped_octets(s: Seq<u16>) -> Seq<u8> {
    seq![(s[6] / 256) as u8, (s[6] % 256) as u8, (s[7] / 256) as u8, (s[7] % 256) as u8]
}

/// How an IPv6 address is written: the longest run of at least two zeros as a
/// double colon, and an address that stands for an IPv4 address with that.
pub open spec fn ipv6_text(s: Seq<u16>) -> Seq<char> {
    if is_mapped(s) {
        seq![':', ':', 'f', 'f', 'f', 'f', ':'] + ipv4_text(mapped_octets(s))
    } else {
        let run = longest_run(s);
        if run.len > 1 {
            joined_groups(s.take(run.start)) + seq![':', ':'] + joined_groups(s.skip(run.start + run.len))
        } else {
            joined_groups(s)
        }
    }
}

/// The IPv6 address with its scope, if it has one.
pub open spec fn scoped_ipv6_text(segments: Seq<u16>, scope_id: u32) -> Seq<char> {
    if scope_id == 0 {
        ipv6_text(segments)
    } else {
        ipv6_text(segments).push('%') + decimal(scope_id as nat)
    }
}

/// How a socket address is written.
pub open spec fn socket_text(a: SocketModel) -> Seq<char> {
    match a {
        SocketModel::V4 { octets, port } => ipv4_text(octets).push(':') + decimal(port as nat),
        SocketModel::V6 { segments, scope_id, port } => seq!['['] + scoped_ipv6_text(segments, scope_id) + seq![
            ']',
            ':',
        ] + decimal(port as nat),
    }
}

fn write_ipv4(octets: [u8; 4]) -> (s: String)
    ensures
        s@ == ipv4_text(octets@),
{
    let mut s: String = format_decimal(octets[0] as u64);
    s.push('.');
    s.append(format_decimal(octets[1] as u64).as_str());
    s.push('.');
    s.append(format_decimal(octets[2] as u64).as_str());
    s.push('.');
    s.append(format_decimal(octets[3] as u64).as_str());
    s
}

fn write_groups(a: &[u16; 8], from: usize, to: usize) -> (s: String)
    requires
        from <= to <= 8,
    ensures
        s@ == joined_groups(a@.subrange(from as int, to as int)),
{
    let mut s: String = String::new();
    let mut i: usize = from;
    assert(a@.subrange(from as int, from as int) =~= Seq::<u16>::empty());
    while i < to
        invariant
            from <= i <= to <= 8,
            s@ == joined_groups(a@.subrange(from as int, i as int)),
        decreases to - i,
    {
        let ghost now = a@.subrange(from as int, i + 1);
        assert(now.drop_last() =~= a@.subrange(from as int, i as int));
        assert(now.last() == a@[i as int]);
        if i > from {
            s.push(':');
        }
        s.append(format_hex(a[i] as u64).as_str());
        assert(s@ =~= joined_groups(now));
        i = i + 1;
    }
    s
}

fn find_run(a: &[u16; 8]) -> (r: (usize, usize))
    ensures
        r.0 == longest_run(a@).start,
        r.1 == longest_run(a@).len,
        r.0 + r.1 <= 8,
{
    let mut best: (usize, usize) = (0, 0);
    let mut current: (usize, usize) = (0, 0);
    let mut i: usize = 0;
    assert(a@.take(0) =~= Seq::<u16>::empty());
    while i < 8
        invariant
            i <= 8,
            current.0 == last_run(a@.take(i as int)).start,
            current.1 == last_run(a@.take(i as int)).len,
            current.0 + current.1 == i,
            best.0 == longest_run(a@.take(i as int)).start,
            best.1 == longest_run(a@.take(i as int)).len,
            best.0 + best.1 <= i,
        decreases 8 - i,
    {
        assert(a@.take(i + 1).drop_last() =~= a@.take(i as int));
        assert(a@.take(i + 1).last() == a@[i as int]);
        if a[i] == 0 {
            current = (current.0, current.1 + 1);
        } else {
            current = (i + 1, 0);
        }
        if current.1 > best.1 {
            best = current;
        }
        i = i + 1;
    }
    assert(a@.take(8) =~= a@);
    best
}

fn write_ipv6(a: &[u16; 8]) -> (s: String)
    ensures
        s@ == ipv6_text(a@),
{
    if a[0] == 0 && a[1] == 0 && a[2] == 0 && a[3] == 0 && a[4] == 0 && a[5] == 0xffff {
        let octets: [u8; 4] = [(a[6] / 256) as u8, (a[6] % 256) as u8, (a[7] / 256) as u8, (a[7] % 256) as u8];
        assert(octets@ =~= mapped_octets(a@));
        let mut s: String = "::ffff:".to_owned();
        proof {
            reveal_strlit("::ffff:");
            assert("::ffff:"@ =~= seq![':', ':', 'f', 'f', 'f', 'f', ':']);
        }
        s.append(write_ipv4(octets).as_str());
        return s;
    }
    let (start, len): (usize, usize) = find_run(a);
    if len > 1 {
        let mut s: String = write_groups(a, 0, start);
        assert(a@.subrange(0, start as int) =~= a@.take(start as int));
        assert(a@.subrange(start + len, 8) =~= a@.skip(start + len));
        s.append("::");
        proof {
            reveal_strlit("::");
            assert("::"@ =~= seq![':', ':']);
        }
        s.append(write_groups(a, start + len, 8).as_str());
        s
    } else {
        assert(a@.subrange(0, 8) =~= a@);
        write_groups(a, 0, 8)
    }
}

impl SocketAddr {
    /// The socket address, written for a reader.
    pub fn display(&self) -> (s: String)
        ensures
            s@ == socket_text(self@),
    {
        match self {
            SocketAddr::V4 { octets, port } => {
                let mut s: String = write_ipv4(*octets);
                s.push(':');
                s.append(format_decimal(*port as u64).as_str());
                s
            },
            SocketAddr::V6 { segments, scope_id, port } => {
                let mut s: String = String::new();
                s.push('[');
                assert(s@ =~= seq!['[']);
                let mut inner: String = write_ipv6(segments);
                if *scope_id != 0 {
                    inner.push('%');
                    inner.append(format_decimal(*scope_id as u64).as_str());
                }
                s.append(inner.as_str());
                s.append("]:");
                proof {
                    reveal_strlit("]:");
                    assert("]:"@ =~= seq![']', ':']);
                }
                s.append(format_decimal(*port as u64).as_str());
                s
            },
        }
    }
}

/// A model of a socket address: with as many octets or segments as it takes.
pub open spec fn is_socket_model(a: SocketModel) -> bool {
    match a {
        SocketModel::V4 { octets, .. } => octets.len() == 4,
        SocketModel::V6 { segments, .. } => segments.len() == 8,
    }
}

/// A decimal digit.
pub open spec fn dec_char(c: char) -> bool {
    '0' <= c <= '9'
}

/// A character of an IPv6 address as it is written.
pub open spec fn ip_char(c: char) -> bool {
    '0' <= c <= '9' || 'a' <= c <= 'f' || c == ':' || c == '.'
}

proof fn lemma_octet_text(n: u8)
    ensures
        octet(decimal(n as nat)) == Some(n as nat),
        forall|i: int| 0 <= i < decimal(n as nat).len() ==> dec_char(#[trigger] decimal(n as nat)[i]),
{
    lemma_decimal_reads_back(n as nat);
    reveal_with_fuel(decimal, 4);
    assert(decimal(n as nat).len() <= 3);
}

proof fn lemma_no_char(s: Seq<char>, c: char)
    requires
        forall|i: int| 0 <= i < s.len() ==> #[trigger] s[i] != c,
    ensures
        !s.contains(c),
{
}

proof fn lemma_ipv4_text(o: Seq<u8>)
    requires
        o.len() == 4,
    ensures
        ipv4(ipv4_text(o)) == Some(o),
        ipv4_text(o).len() > 0,
        forall|i: int| 0 <= i < ipv4_text(o).len() ==> dec_char(#[trigger] ipv4_text(o)[i]) || ipv4_text(o)[i] == '.',
{
    let a = decimal(o[0] as nat);
    let b = decimal(o[1] as nat);
    let c = decimal(o[2] as nat);
    let d = decimal(o[3] as nat);
    lemma_octet_text(o[0]);
    lemma_octet_text(o[1]);
    lemma_octet_text(o[2]);
    lemma_octet_text(o[3]);
    lemma_no_char(a, '.');
    lemma_no_char(b, '.');
    lemma_no_char(c, '.');
    lemma_no_char(d, '.');
    lemma_split_on_none(a, '.');
    lemma_split_on_none(b, '.');
    lemma_split_on_none(c, '.');
    lemma_split_on_none(d, '.');
    lemma_split_on_concat(a, b, '.');
    let ab = a.push('.') + b;
    lemma_split_on_concat(ab, c, '.');
    let abc = ab.push('.') + c;
    lemma_split_on_concat(abc, d, '.');
    assert(split_on(ipv4_text(o), '.') =~= seq![a, b, c, d]);
    assert(ipv4(ipv4_text(o)) is Some);
    assert(ipv4(ipv4_text(o))->0 =~= o);
    lemma_decimal_reads_back(o[0] as nat);
    let t = ipv4_text(o);
    assert forall|i: int| 0 <= i < t.len() implies dec_char(#[trigger] t[i]) || t[i] == '.' by {
        let n1 = a.len() as int;
        let n2 = n1 + 1 + b.len();
        let n3 = n2 + 1 + c.len();
        if i < n1 {
            assert(t[i] == a[i]);
        } else if n1 < i < n2 {
            assert(t[i] == b[i - n1 - 1]);
        } else if n2 < i < n3 {
            assert(t[i] == c[i - n2 - 1]);
        } else if i > n3 {
            assert(t[i] == d[i - n3 - 1]);
        }
    }
}

/// A text that neither begins nor ends with a colon, nor has two in a row.
spec fn tidy(t: Seq<char>) -> bool {
    &&& t.len() > 0
    &&& t[0] != ':'
    &&& t.last() != ':'
    &&& forall|i: int| 0 <= i < t.len() - 1 ==> !(#[trigger] t[i] == ':' && t[i + 1] == ':')
    &&& forall|i: int| 0 <= i < t.len() ==> ip_char(#[trigger] t[i]) && t[i] != '.'
}

spec fn hex_texts(s: Seq<u16>) -> Seq<Seq<char>> {
    s.map_values(|n: u16| hex(n as nat))
}

proof fn lemma_hex_tidy(n: u16)
    ensures
        tidy(hex(n as nat)),
        !hex(n as nat).contains(':'),
        group(hex(n as nat)) == Some(n as nat),
        ipv4(hex(n as nat)) is None,
{
    lemma_hex_reads_back(n as nat);
    let t = hex(n as nat);
    assert forall|i: int| 0 <= i < t.len() implies ip_char(#[trigger] t[i]) && t[i] != '.' && t[i] != ':' by {}
    lemma_no_char(t, ':');
    lemma_no_char(t, '.');
    lemma_split_on_none(t, '.');
}

proof fn lemma_joined_groups(s: Seq<u16>)
    requires
        s.len() > 0,
    ensures
        tidy(joined_groups(s)),
        split_on(joined_groups(s), ':') == hex_texts(s),
        groups(hex_texts(s)) == Some(s),
    decreases s.len(),
{
    let last = s.last();
    lemma_hex_tidy(last);
    let h = hex(last as nat);
    lemma_split_on_none(h, ':');
    if s.len() == 1 {
        assert(hex_texts(s) =~= seq![h]);
        assert(hex_texts(s).drop_last() =~= Seq::<Seq<char>>::empty());
        assert(groups(hex_texts(s).drop_last()) == Some(Seq::<u16>::empty()));
        assert(groups(hex_texts(s)) == Some(Seq::<u16>::empty().push(last)));
        assert(Seq::<u16>::empty().push(last) =~= s);
    } else {
        let rest = s.drop_last();
        lemma_joined_groups(rest);
        let r = joined_groups(rest);
        let t = r.push(':') + h;
        assert(joined_groups(s) == t);
        lemma_split_on_concat(r, h, ':');
        assert(hex_texts(s) =~= hex_texts(rest).push(h));
        assert(split_on(t, ':') =~= hex_texts(s));
        assert(hex_texts(s).drop_last() =~= hex_texts(rest));
        assert(hex_texts(s).last() == h);
        assert(rest.push(last) =~= s);
        assert forall|i: int| 0 <= i < t.len() implies ip_char(#[trigger] t[i]) && t[i] != '.' by {
            if i < r.len() {
                assert(t[i] == r[i]);
            } else if i > r.len() {
                assert(t[i] == h[i - r.len() - 1]);
            }
        }
        assert forall|i: int| 0 <= i < t.len() - 1 implies !(#[trigger] t[i] == ':' && t[i + 1] == ':') by {
            if i < r.len() - 1 {
                assert(t[i] == r[i] && t[i + 1] == r[i + 1]);
            } else if i == r.len() - 1 {
                assert(t[i] == r.last());
            } else if i == r.len() {
                assert(t[i + 1] == h[0]);
            } else {
                assert(t[i] == h[i - r.len() - 1]);
                assert(t[i + 1] == h[i - r.len()]);
                assert(!h.contains(':'));
                assert(h.contains(h[i - r.len() - 1]));
            }
        }
        assert(t[0] == r[0]);
        assert(t.last() == h.last());
    }
}

proof fn lemma_double_colon_at(t: Seq<char>, from: nat, at: nat)
    requires
        from <= at,
        at + 1 < t.len(),
        t[at as int] == ':',
        t[at as int + 1] == ':',
        forall|i: int| from <= i < at ==> !(#[trigger] t[i] == ':' && t[i + 1] == ':'),
    ensures
        double_colon(t, from) == Some(at),
    decreases at - from,
{
    if from < at {
        assert(!(t[from as int] == ':' && t[from as int + 1] == ':'));
        lemma_double_colon_at(t, from + 1, at);
    }
}

proof fn lemma_no_double_colon(t: Seq<char>, from: nat)
    requires
        forall|i: int| from <= i < t.len() - 1 ==> !(#[trigger] t[i] == ':' && t[i + 1] == ':'),
    ensures
        double_colon(t, from) is None,
    decreases t.len() - from,
{
    if from + 1 < t.len() {
        assert(!(t[from as int] == ':' && t[from as int + 1] == ':'));
        lemma_no_double_colon(t, from + 1);
    }
}

proof fn lemma_mixed_joined(s: Seq<u16>)
    ensures
        plain_groups(joined_groups(s)) == Some(s),
        mixed_groups(joined_groups(s)) == Some(s),
{
    if s.len() > 0 {
        lemma_joined_groups(s);
        lemma_hex_tidy(s.last());
        assert(hex_texts(s).last() == hex(s.last() as nat));
    } else {
        assert(s =~= Seq::<u16>::empty());
    }
}

proof fn lemma_runs(s: Seq<u16>)
    ensures
        0 <= last_run(s).start,
        last_run(s).start + last_run(s).len == s.len(),
        last_run(s).len >= 0,
        forall|i: int| last_run(s).start <= i < s.len() ==> s[i] == 0,
        0 <= longest_run(s).start,
        longest_run(s).len >= 0,
        longest_run(s).start + longest_run(s).len <= s.len(),
        forall|i: int| longest_run(s).start <= i < longest_run(s).start + longest_run(s).len ==> s[i] == 0,
    decreases s.len(),
{
    if s.len() > 0 {
        let rest = s.drop_last();
        lemma_runs(rest);
        assert forall|i: int| last_run(s).start <= i < s.len() implies s[i] == 0 by {
            if i < rest.len() {
                assert(rest[i] == s[i]);
            }
        }
        assert forall|i: int|
            longest_run(s).start <= i < longest_run(s).start + longest_run(s).len implies s[i] == 0 by {
            if i < rest.len() {
                assert(rest[i] == s[i]);
            }
        }
    }
}

proof fn lemma_ffff()
    ensures
        groups(seq![seq!['f', 'f', 'f', 'f']]) == Some(seq![0xffffu16]),
{
    let ffff = seq!['f', 'f', 'f', 'f'];
    assert(group(ffff) == Some(0xffffnat)) by {
        reveal_with_fuel(number, 5);
        assert(ffff.drop_last() =~= seq!['f', 'f', 'f']);
        assert(ffff.drop_last().drop_last() =~= seq!['f', 'f']);
        assert(ffff.drop_last().drop_last().drop_last() =~= seq!['f']);
        assert(ffff.drop_last().drop_last().drop_last().drop_last() =~= Seq::<char>::empty());
    }
    assert(seq![ffff].drop_last() =~= Seq::<Seq<char>>::empty());
    assert(groups(Seq::<Seq<char>>::empty()) == Some(Seq::<u16>::empty()));
    assert(groups(seq![ffff]) == Some(Seq::<u16>::empty().push(0xffffu16)));
    assert(Seq::<u16>::empty().push(0xffffu16) =~= seq![0xffffu16]);
}

#[verifier::spinoff_prover]
#[verifier::rlimit(40)]
proof fn lemma_mapped_tail(v4: Seq<char>, octets: Seq<u8>)
    requires
        ipv4(v4) == Some(octets),
        v4.len() > 0,
        !v4.contains(':'),
    ensures
        mixed_groups(seq!['f', 'f', 'f', 'f'].push(':') + v4) == Some(seq![0xffffu16] + octet_groups(octets)),
{
    let ffff = seq!['f', 'f', 'f', 'f'];
    lemma_no_char(ffff, ':');
    lemma_split_on_none(ffff, ':');
    lemma_split_on_none(v4, ':');
    lemma_split_on_concat(ffff, v4, ':');
    let parts = split_on(ffff.push(':') + v4, ':');
    assert(parts =~= seq![ffff, v4]);
    assert(parts.drop_last() =~= seq![ffff]);
    assert(parts.last() == v4);
    lemma_ffff();
}

proof fn lemma_mapped_segments(s: Seq<u16>)
    requires
        s.len() == 8,
        is_mapped(s),
    ensures
        Seq::<u16>::empty() + zeros(5) + (seq![0xffffu16] + octet_groups(mapped_octets(s))) == s,
{
    assert((s[6] / 256) * 256 + s[6] % 256 == s[6]);
    assert((s[7] / 256) * 256 + s[7] % 256 == s[7]);
    let found = octet_groups(mapped_octets(s));
    assert(found[0] == s[6]);
    assert(found[1] == s[7]);
    assert(Seq::<u16>::empty() + zeros(5) + (seq![0xffffu16] + found) =~= s);
}

#[verifier::spinoff_prover]
#[verifier::rlimit(40)]
proof fn lemma_mapped_text(s: Seq<u16>)
    requires
        s.len() == 8,
        is_mapped(s),
    ensures
        ipv6(ipv6_text(s)) == Some(s),
        forall|i: int| 0 <= i < ipv6_text(s).len() ==> ip_char(#[trigger] ipv6_text(s)[i]),
{
    let octets = mapped_octets(s);
    let v4 = ipv4_text(octets);
    lemma_ipv4_text(octets);
    lemma_no_char(v4, ':');
    lemma_prefixed_v4(v4, octets);
    lemma_mapped_segments(s);
}

#[verifier::spinoff_prover]
#[verifier::rlimit(40)]
proof fn lemma_prefixed_v4(v4: Seq<char>, octets: Seq<u8>)
    requires
        octets.len() == 4,
        ipv4(v4) == Some(octets),
        v4.len() > 0,
        !v4.contains(':'),
        forall|i: int| 0 <= i < v4.len() ==> dec_char(#[trigger] v4[i]) || v4[i] == '.',
    ensures
        ({
            let t = seq![':', ':', 'f', 'f', 'f', 'f', ':'] + v4;
            &&& ipv6(t) == Some(Seq::<u16>::empty() + zeros(5) + (seq![0xffffu16] + octet_groups(octets)))
            &&& forall|i: int| 0 <= i < t.len() ==> ip_char(#[trigger] t[i])
        }),
{
    let t = seq![':', ':', 'f', 'f', 'f', 'f', ':'] + v4;
    let ffff = seq!['f', 'f', 'f', 'f'].push(':') + v4;
    lemma_double_colon_at(t, 0, 0);
    assert(t.take(0) =~= Seq::<char>::empty());
    assert(t.skip(2) =~= ffff);
    assert(mixed_groups(ffff) == Some(seq![0xffffu16] + octet_groups(octets))) by {
        lemma_mapped_tail(v4, octets);
    }
    lemma_prefixed_chars(v4);
}

proof fn lemma_prefixed_chars(v4: Seq<char>)
    requires
        forall|i: int| 0 <= i < v4.len() ==> dec_char(#[trigger] v4[i]) || v4[i] == '.',
    ensures
        ({
            let t = seq![':', ':', 'f', 'f', 'f', 'f', ':'] + v4;
            forall|i: int| 0 <= i < t.len() ==> ip_char(#[trigger] t[i])
        }),
{
    let t = seq![':', ':', 'f', 'f', 'f', 'f', ':'] + v4;
    assert forall|i: int| 0 <= i < t.len() implies ip_char(#[trigger] t[i]) by {
        if i >= 7 {
            assert(t[i] == v4[i - 7]);
        }
    }
}

#[verifier::spinoff_prover]
#[verifier::rlimit(40)]
proof fn lemma_compressed_text(head: Seq<u16>, tail: Seq<u16>)
    requires
        head.len() + tail.len() <= 7,
    ensures
        ({
            let t = joined_groups(head) + seq![':', ':'] + joined_groups(tail);
            &&& ipv6(t) == Some(head + zeros((8 - head.len() - tail.len()) as nat) + tail)
            &&& forall|i: int| 0 <= i < t.len() ==> ip_char(#[trigger] t[i])
        }),
{
    let h = joined_groups(head);
    let l = joined_groups(tail);
    let t = h + seq![':', ':'] + l;
    if head.len() > 0 {
        lemma_joined_groups(head);
    }
    if tail.len() > 0 {
        lemma_joined_groups(tail);
    }
    let at = h.len();
    assert forall|i: int| 0 <= i < at implies !(#[trigger] t[i] == ':' && t[i + 1] == ':') by {
        assert(t[i] == h[i]);
        if i < at - 1 {
            assert(t[i + 1] == h[i + 1]);
        } else {
            assert(h[i] == h.last());
        }
    }
    assert(t[at as int] == ':' && t[at as int + 1] == ':');
    lemma_double_colon_at(t, 0, at);
    assert(t.take(at as int) =~= h);
    assert(t.skip(at as int + 2) =~= l);
    lemma_mixed_joined(head);
    lemma_mixed_joined(tail);
    assert forall|i: int| 0 <= i < t.len() implies ip_char(#[trigger] t[i]) by {
        if i < at {
            assert(t[i] == h[i]);
        } else if i >= at + 2 {
            assert(t[i] == l[i - at - 2]);
        }
    }
}

#[verifier::spinoff_prover]
#[verifier::rlimit(40)]
proof fn lemma_ipv6_text(s: Seq<u16>)
    requires
        s.len() == 8,
    ensures
        ipv6(ipv6_text(s)) == Some(s),
        forall|i: int| 0 <= i < ipv6_text(s).len() ==> ip_char(#[trigger] ipv6_text(s)[i]),
{
    if is_mapped(s) {
        lemma_mapped_text(s);
    } else {
        lemma_runs(s);
        let run = longest_run(s);
        if run.len > 1 {
            let head = s.take(run.start);
            let tail = s.skip(run.start + run.len);
            lemma_compressed_text(head, tail);
            assert(head + zeros((8 - head.len() - tail.len()) as nat) + tail =~= s);
        } else {
            lemma_joined_groups(s);
            lemma_no_double_colon(joined_groups(s), 0);
            lemma_mixed_joined(s);
        }
    }
}

proof fn lemma_first_part(s: Seq<char>, sep: char)
    requires
        s.len() > 0,
        s[0] != sep,
    ensures
        split_on(s, sep)[0].len() > 0,
        split_on(s, sep)[0][0] == s[0],
    decreases s.len(),
{
    lemma_split_on_parts(s.drop_last(), sep);
    if s.len() > 1 {
        lemma_first_part(s.drop_last(), sep);
    } else {
        assert(s.drop_last() =~= Seq::<char>::empty());
        assert(split_on(s.drop_last(), sep) == seq![Seq::<char>::empty()]);
    }
}

proof fn lemma_not_a_number(s: Seq<char>, radix: int)
    requires
        s.len() > 0,
        digit(s[0], radix) is None,
    ensures
        number(s, radix) is None,
    decreases s.len(),
{
    if s.len() > 1 {
        lemma_not_a_number(s.drop_last(), radix);
    }
}

#[verifier::spinoff_prover]
#[verifier::rlimit(40)]
proof fn lemma_scoped_text(segments: Seq<u16>, scope_id: u32)
    requires
        segments.len() == 8,
    ensures
        scoped_ipv6(scoped_ipv6_text(segments, scope_id)) == Some((segments, scope_id as nat)),
        forall|i: int|
            0 <= i < scoped_ipv6_text(segments, scope_id).len() ==> #[trigger] scoped_ipv6_text(segments, scope_id)[i]
                != ']',
{
    let v6 = ipv6_text(segments);
    let inner = scoped_ipv6_text(segments, scope_id);
    let scope = decimal(scope_id as nat);
    lemma_ipv6_text(segments);
    lemma_decimal_reads_back(scope_id as nat);
    assert forall|j: int| 0 <= j < inner.len() implies #[trigger] inner[j] != ']' by {
        if j < v6.len() {
            assert(inner[j] == v6[j]);
        } else if j > v6.len() {
            assert(inner[j] == scope[j - v6.len() - 1]);
        }
    }
    if scope_id == 0 {
        lemma_split_first_none(inner, '%');
    } else {
        assert forall|j: int| 0 <= j < v6.len() implies inner[j] != '%' by {
            assert(inner[j] == v6[j]);
        }
        lemma_split_first_at(inner, '%', v6.len() as int);
        assert(inner.take(v6.len() as int) =~= v6);
        assert(inner.skip(v6.len() as int + 1) =~= scope);
    }
}

proof fn lemma_bracketed_is_not_v4(t: Seq<char>)
    requires
        t.len() > 0,
        t[0] == '[',
    ensures
        socket_v4(t) is None,
{
    if split_last(t, ':') is Some {
        lemma_split_last_start(t, ':');
        let before = (split_last(t, ':')->0).0;
        lemma_first_part(before, '.');
        lemma_not_a_number(split_on(before, '.')[0], 10);
    }
}

proof fn lemma_split_last_start(t: Seq<char>, sep: char)
    requires
        t.len() > 0,
        t[0] != sep,
        split_last(t, sep) is Some,
    ensures
        (split_last(t, sep)->0).0.len() > 0,
        (split_last(t, sep)->0).0[0] == t[0],
    decreases t.len(),
{
    if t.last() != sep {
        lemma_split_last_start(t.drop_last(), sep);
    }
}

/// What is written of a socket address reads back as that address.
pub proof fn socket_text_reads_back(a: SocketModel)
    requires
        is_socket_model(a),
    ensures
        socket(socket_text(a)) == Some(a),
{
    match a {
        SocketModel::V4 { octets, port } => {
            lemma_v4_text_reads_back(octets, port);
        },
        SocketModel::V6 { segments, scope_id, port } => {
            lemma_v6_text_reads_back(segments, scope_id, port);
        },
    }
}

#[verifier::spinoff_prover]
#[verifier::rlimit(40)]
proof fn lemma_v4_text_reads_back(octets: Seq<u8>, port: u16)
    requires
        octets.len() == 4,
    ensures
        ({
            let a = SocketModel::V4 { octets, port };
            socket(socket_text(a)) == Some(a)
        }),
{
    let v4 = ipv4_text(octets);
    let p = decimal(port as nat);
    let t = v4.push(':') + p;
    lemma_ipv4_text(octets);
    lemma_decimal_reads_back(port as nat);
    assert forall|j: int| v4.len() < j < t.len() implies t[j] != ':' by {
        assert(t[j] == p[j - v4.len() - 1]);
    }
    lemma_split_last_at(t, ':', v4.len() as int);
    assert(t.take(v4.len() as int) =~= v4);
    assert(t.skip(v4.len() as int + 1) =~= p);
}

proof fn lemma_bracketed(inner: Seq<char>, port: Seq<char>)
    requires
        forall|j: int| 0 <= j < inner.len() ==> #[trigger] inner[j] != ']',
    ensures
        ({
            let t = seq!['['] + inner + seq![']', ':'] + port;
            &&& t.len() > 0
            &&& t[0] == '['
            &&& split_first(t.drop_first(), ']') == Some((inner, seq![':'] + port))
            &&& (seq![':'] + port).drop_first() == port
        }),
{
    let t = seq!['['] + inner + seq![']', ':'] + port;
    let n = inner.len() as int;
    let u = t.drop_first();
    assert(u =~= inner + seq![']', ':'] + port);
    assert forall|j: int| 0 <= j < n implies u[j] != ']' by {
        assert(u[j] == inner[j]);
    }
    assert(u[n] == ']');
    lemma_split_first_at(u, ']', n);
    assert(u.take(n) =~= inner);
    assert(u.skip(n + 1) =~= seq![':'] + port);
    assert((seq![':'] + port).drop_first() =~= port);
}

#[verifier::spinoff_prover]
#[verifier::rlimit(40)]
proof fn lemma_v6_text_reads_back(segments: Seq<u16>, scope_id: u32, port: u16)
    requires
        segments.len() == 8,
    ensures
        ({
            let a = SocketModel::V6 { segments, scope_id, port };
            socket(socket_text(a)) == Some(a)
        }),
{
    let inner = scoped_ipv6_text(segments, scope_id);
    let p = decimal(port as nat);
    lemma_scoped_text(segments, scope_id);
    lemma_decimal_reads_back(port as nat);
    lemma_bracketed(inner, p);
    lemma_bracketed_is_not_v4(seq!['['] + inner + seq![']', ':'] + p);
}

/// An octet is written with one to three digits, without a zero in front of
/// others, and is at most two hundred and fifty-five; a group is written with one
/// to four hexadecimal digits.
pub proof fn octets_and_groups_are_bounded(t: Seq<char>)
    ensures
        octet(t) is Some <==> 1 <= t.len() <= 3 && (t.len() > 1 ==> t[0] != '0') && number(t, 10) is Some && number(t, 10)->0
            <= 255,
        octet(t) matches Some(n) ==> number(t, 10) == Some(n),
        group(t) matches Some(n) ==> 1 <= t.len() <= 4 && number(t, 16) == Some(n) && n <= 0xffff,
{
}

/// An IPv4 address has four octets, an IPv6 address eight segments.
pub proof fn addresses_are_of_their_length(t: Seq<char>)
    ensures
        ipv4(t) matches Some(octets) ==> octets.len() == 4 && forall|i: int|
            0 <= i < 4 ==> octet(split_on(t, '.')[i]) == Some(#[trigger] octets[i] as nat),
        ipv6(t) matches Some(segments) ==> segments.len() == 8,
{
}

/// A double colon stands for zeros, as many as it takes to make eight segments
/// and at least one; what stands before it comes first, what stands behind it
/// last.
pub proof fn double_colons_stand_for_zeros(t: Seq<char>, at: nat)
    requires
        double_colon(t, 0) == Some(at),
    ensures
        ipv6(t) matches Some(segments) ==> {
            &&& plain_groups(t.take(at as int)) matches Some(head)
            &&& mixed_groups(t.skip(at as int + 2)) matches Some(tail)
            &&& head.len() + tail.len() < 8
            &&& head.is_prefix_of(segments)
            &&& tail.is_suffix_of(segments)
            &&& forall|i: int| head.len() <= i < 8 - tail.len() ==> #[trigger] segments[i] == 0
        },
{
    if ipv6(t) is Some {
        let segments = ipv6(t)->0;
        let head = plain_groups(t.take(at as int))->0;
        let tail = mixed_groups(t.skip(at as int + 2))->0;
        assert(segments.take(head.len() as int) =~= head);
        assert(segments.skip(8 - tail.len()) =~= tail);
    }
}

proof fn lemma_last_run(s: Seq<u16>, a: int)
    requires
        0 <= a <= s.len(),
        forall|i: int| a <= i < s.len() ==> #[trigger] s[i] == 0,
    ensures
        last_run(s).start <= a,
        0 <= last_run(s).start,
        last_run(s).start + last_run(s).len == s.len(),
        forall|i: int| last_run(s).start <= i < s.len() ==> #[trigger] s[i] == 0,
    decreases s.len(),
{
    if s.len() > 0 && s.last() == 0 {
        let rest = s.drop_last();
        let from = if a < s.len() {
            a
        } else {
            rest.len() as int
        };
        assert forall|i: int| from <= i < rest.len() implies #[trigger] rest[i] == 0 by {
            assert(s[i] == 0);
        }
        lemma_last_run(rest, from);
        assert forall|i: int| last_run(s).start <= i < s.len() implies #[trigger] s[i] == 0 by {
            if i < rest.len() {
                assert(rest[i] == 0);
            }
        }
    } else if s.len() > 0 && a < s.len() {
        assert(s[s.len() - 1] == 0);
    }
}

/// The longest run is one of zeros, no run of zeros is longer, and one as long
/// does not begin before it.
pub proof fn no_run_is_longer(s: Seq<u16>, a: int, b: int)
    requires
        0 <= a <= b <= s.len(),
        forall|i: int| a <= i < b ==> #[trigger] s[i] == 0,
    ensures
        ({
            let run = longest_run(s);
            &&& 0 <= run.start && 0 <= run.len && run.start + run.len <= s.len()
            &&& forall|i: int| run.start <= i < run.start + run.len ==> #[trigger] s[i] == 0
            &&& b - a <= run.len
            &&& b - a == run.len && run.len > 0 ==> run.start <= a
        }),
    decreases s.len(),
{
    if s.len() > 0 {
        let rest = s.drop_last();
        let run = longest_run(s);
        lemma_last_run(s, s.len() as int);
        let to = if b < s.len() {
            b
        } else {
            rest.len() as int
        };
        let from = if a < to {
            a
        } else {
            to
        };
        assert forall|i: int| from <= i < to implies #[trigger] rest[i] == 0 by {
            assert(s[i] == 0);
        }
        no_run_is_longer(rest, from, to);
        if b == s.len() {
            lemma_last_run(s, a);
        }
        assert forall|i: int| run.start <= i < run.start + run.len implies #[trigger] s[i] == 0 by {
            if i < rest.len() && run == longest_run(rest) {
                assert(rest[i] == 0);
            }
        }
    }
}

}
