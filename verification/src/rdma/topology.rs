//! The PCI topology: which device hangs from which.

use crate::name_map::NameMap;
use crate::rdma::pci::PCIDevice;
use crate::rdma::realpath::{directory, directory_of};
use crate::text::{opt_text, texts};
use vstd::prelude::*;

verus! {

/// Matches a PCI address at the end of a text; the address is the first group.
pub const PCI_SUFFIX_PATTERN: &'static str = "([0-9a-f]{4}:[0-9a-f]{2}:[0-9a-f]{2}\\.[0-9])$";

/// Matches a PCI address anywhere in a text.
pub const PCI_PATTERN: &'static str = "([0-9a-f]{4}:[0-9a-f]{2}:[0-9a-f]{2}\\.[0-9])";

/// A lower-case hexadecimal digit.
pub open spec fn lower_hex(c: char) -> bool {
    '0' <= c <= '9' || 'a' <= c <= 'f'
}

/// Whether `s` is a PCI address: domain, bus, device and function in lower-case
/// hexadecimal, the function a decimal digit.
pub open spec fn is_pci_address(s: Seq<char>) -> bool {
    &&& s.len() == 12
    &&& lower_hex(s[0]) && lower_hex(s[1]) && lower_hex(s[2]) && lower_hex(s[3])
    &&& s[4] == ':'
    &&& lower_hex(s[5]) && lower_hex(s[6])
    &&& s[7] == ':'
    &&& lower_hex(s[8]) && lower_hex(s[9])
    &&& s[10] == '.'
    &&& '0' <= s[11] <= '9'
}

/// The PCI address that `s` ends in, if it ends in one.
pub open spec fn pci_suffix(s: Seq<char>) -> Option<Seq<char>> {
    if s.len() >= 12 && is_pci_address(s.skip(s.len() - 12)) {
        Some(s.skip(s.len() - 12))
    } else {
        None
    }
}

/// The PCI addresses in `s` from left to right; the search goes on behind each.
pub open spec fn pci_addresses(s: Seq<char>) -> Seq<Seq<char>>
    decreases s.len(),
{
    if s.len() < 12 {
        Seq::<Seq<char>>::empty()
    } else if is_pci_address(s.take(12)) {
        seq![s.take(12)] + pci_addresses(s.skip(12))
    } else {
        pci_addresses(s.drop_first())
    }
}

/// The text of the first group in the leftmost match of a pattern; `None` where
/// there is no such match or group, or the pattern is none.
pub uninterp spec fn regex_capture(pattern: Seq<char>, text: Seq<char>) -> Option<Seq<char>>;

/// Calls `regex::Regex::captures`: the text of the first group in the leftmost
/// match. For the pattern of a PCI address at the end, whose matches are all
/// twelve characters long and end where the text ends, that is the address
/// that the text ends in.
#[verifier::external_body]
pub(crate) fn capture(pattern: &str, text: &str) -> (r: Option<String>)
    ensures
        opt_text(r) == regex_capture(pattern@, text@),
        pattern@ == PCI_SUFFIX_PATTERN@ ==> opt_text(r) == pci_suffix(text@),
{
    let found = regex::Regex::new(pattern).ok()?;
    let group = found.captures(text)?.get(1)?;
    Some(group.as_str().to_string())
}

/// Calls `regex::Regex::find_iter`: the matches that do not overlap, from left
/// to right, for the pattern of a PCI address.
#[verifier::external_body]
pub(crate) fn find_all(pattern: &str, text: &str) -> (r: Vec<String>)
    requires
        pattern@ == PCI_PATTERN@,
    ensures
        texts(r@) == pci_addresses(text@),
{
    match regex::Regex::new(pattern) {
        Ok(found) => found.find_iter(text).map(|m| m.as_str().to_string()).collect(),
        Err(_) => Vec::new(),
    }
}

/// An entry of the directory of PCI devices.
#[derive(Debug)]
pub struct PciEntry {
    /// The name of the entry: the address of the device.
    pub address: String,
    /// Where the entry leads once all links are resolved, if they could be.
    pub real_path: Option<String>,
}

/// The device that an entry's device hangs from: the one whose directory it
/// lies in.
pub open spec fn entry_parent(e: PciEntry) -> Option<Seq<char>> {
    match e.real_path {
        Some(path) => match directory_of(path@) {
            Some(directory) => pci_suffix(directory),
            None => None,
        },
        None => None,
    }
}

/// What each listed device hangs from; the last entry of an address counts.
pub open spec fn parents(entries: Seq<PciEntry>) -> Map<Seq<char>, Option<Seq<char>>>
    decreases entries.len(),
{
    if entries.len() == 0 {
        Map::empty()
    } else {
        parents(entries.drop_last()).insert(entries.last().address@, entry_parent(entries.last()))
    }
}

/// Whether `a` is listed, or a listed device hangs from it.
pub open spec fn known(entries: Seq<PciEntry>, a: Seq<char>) -> bool {
    exists|i: int|
        0 <= i < entries.len() && (#[trigger] entries[i].address@ == a || entry_parent(entries[i]) == Some(a))
}

/// The addresses from `a` up to a device that hangs from nothing, if it is
/// reached within `fuel` devices.
pub open spec fn chain(up: Map<Seq<char>, Option<Seq<char>>>, a: Seq<char>, fuel: nat) -> Option<Seq<Seq<char>>>
    decreases fuel,
{
    if fuel == 0 {
        None
    } else if up.dom().contains(a) && up[a] is Some {
        match chain(up, up[a]->0, (fuel - 1) as nat) {
            Some(rest) => Some(seq![a] + rest),
            None => None,
        }
    } else {
        Some(seq![a])
    }
}

/// Whether `path` starts at `a` and each step goes to what the device hangs from.
pub open spec fn follows(up: Map<Seq<char>, Option<Seq<char>>>, a: Seq<char>, path: Seq<Seq<char>>) -> bool {
    &&& path.len() >= 1
    &&& path[0] == a
    &&& forall|i: int|
        0 <= i < path.len() - 1 ==> up.dom().contains(#[trigger] path[i]) && up[path[i]] == Some(path[i + 1])
}

/// Whether `d` is the device at `a`: its path follows the links, and goes all
/// the way up where the links lead to a root.
pub open spec fn is_device_at(up: Map<Seq<char>, Option<Seq<char>>>, a: Seq<char>, d: PCIDevice) -> bool {
    &&& follows(up, a, d@)
    &&& complete(up, a, d)
}

/// Where the links from `a` lead to a root, the path of `d` goes all the way up.
pub open spec fn complete(up: Map<Seq<char>, Option<Seq<char>>>, a: Seq<char>, d: PCIDevice) -> bool {
    forall|fuel: nat| (#[trigger] chain(up, a, fuel)) matches Some(c) ==> d@ == c
}

/// A chain starts at its device, follows the links and takes one device of fuel
/// for each address.
pub proof fn lemma_chain_follows(up: Map<Seq<char>, Option<Seq<char>>>, a: Seq<char>, fuel: nat)
    ensures
        chain(up, a, fuel) matches Some(c) ==> follows(up, a, c) && c.len() <= fuel,
    decreases fuel,
{
    if chain(up, a, fuel) is Some && up.dom().contains(a) && up[a] is Some {
        let p = up[a]->0;
        lemma_chain_follows(up, p, (fuel - 1) as nat);
        let rest = chain(up, p, (fuel - 1) as nat)->0;
        let c = chain(up, a, fuel)->0;
        assert forall|i: int| 0 <= i < c.len() - 1 implies up.dom().contains(#[trigger] c[i]) && up[c[i]] == Some(
            c[i + 1],
        ) by {
            if i > 0 {
                assert(c[i] == rest[i - 1]);
                assert(c[i + 1] == rest[i]);
            }
        }
    }
}

/// More fuel does not change a chain.
pub proof fn lemma_chain_unique(up: Map<Seq<char>, Option<Seq<char>>>, a: Seq<char>, f: nat, g: nat)
    requires
        chain(up, a, f) is Some,
        chain(up, a, g) is Some,
    ensures
        chain(up, a, f) == chain(up, a, g),
    decreases f,
{
    if up.dom().contains(a) && up[a] is Some {
        lemma_chain_unique(up, up[a]->0, (f - 1) as nat, (g - 1) as nat);
    }
}

proof fn lemma_chain_tail(up: Map<Seq<char>, Option<Seq<char>>>, a: Seq<char>, fuel: nat, j: int)
    requires
        chain(up, a, fuel) is Some,
        0 <= j < chain(up, a, fuel)->0.len(),
    ensures
        j < fuel,
        chain(up, (chain(up, a, fuel)->0)[j], (fuel - j) as nat) == Some((chain(up, a, fuel)->0).skip(j)),
    decreases j,
{
    let c = chain(up, a, fuel)->0;
    lemma_chain_follows(up, a, fuel);
    if j == 0 {
        assert(c.skip(0) == c);
    } else {
        let p = up[a]->0;
        let rest = chain(up, p, (fuel - 1) as nat)->0;
        assert(c == seq![a] + rest);
        lemma_chain_tail(up, p, (fuel - 1) as nat, j - 1);
        assert(rest[j - 1] == c[j]);
        assert(rest.skip(j - 1) == c.skip(j));
    }
}

/// A device does not hang from itself, neither directly nor through others,
/// where the links lead to a root: its chain holds it once.
pub proof fn lemma_chain_leaves(up: Map<Seq<char>, Option<Seq<char>>>, a: Seq<char>, fuel: nat)
    requires
        chain(up, a, fuel) is Some,
    ensures
        !(chain(up, a, fuel)->0).drop_first().contains(a),
{
    let c = chain(up, a, fuel)->0;
    lemma_chain_follows(up, a, fuel);
    if c.drop_first().contains(a) {
        let k = choose|k: int| 0 <= k < c.drop_first().len() && c.drop_first()[k] == a;
        assert(c[k + 1] == a);
        lemma_chain_tail(up, a, fuel, k + 1);
        lemma_chain_unique(up, a, fuel, (fuel - (k + 1)) as nat);
        assert(c.skip(k + 1).len() < c.len());
    }
}

/// Where the links from a device lead to a root, no address stands twice on the way.
pub proof fn chain_repeats_nothing(up: Map<Seq<char>, Option<Seq<char>>>, a: Seq<char>, fuel: nat)
    requires
        chain(up, a, fuel) is Some,
    ensures
        (chain(up, a, fuel)->0).no_duplicates(),
    decreases fuel,
{
    let c = chain(up, a, fuel)->0;
    lemma_chain_follows(up, a, fuel);
    if up.dom().contains(a) && up[a] is Some {
        let p = up[a]->0;
        let rest = chain(up, p, (fuel - 1) as nat)->0;
        chain_repeats_nothing(up, p, (fuel - 1) as nat);
        lemma_chain_leaves(up, a, fuel);
        assert(c.drop_first() == rest);
        assert forall|i: int, j: int| 0 <= i < c.len() && 0 <= j < c.len() && i != j implies c[i] != c[j] by {
            if i > 0 && j > 0 {
                assert(rest[i - 1] != rest[j - 1]);
            } else if i == 0 {
                assert(rest.contains(rest[j - 1]));
                assert(c[j] == rest[j - 1]);
            } else {
                assert(rest.contains(rest[i - 1]));
                assert(c[i] == rest[i - 1]);
            }
        }
    }
}

/// A text ends in a PCI address where its last twelve characters are one, and
/// that is the address found.
pub proof fn addresses_are_found_at_the_end(s: Seq<char>, before: Seq<char>, a: Seq<char>)
    ensures
        pci_suffix(s) matches Some(found) ==> is_pci_address(found) && found.is_suffix_of(s) && found.len() == 12,
        is_pci_address(a) ==> pci_suffix(before + a) == Some(a),
{
    if is_pci_address(a) {
        assert((before + a).skip((before + a).len() - 12) =~= a);
    }
}

/// A device hangs from the one whose directory its own lies in, where that is a
/// device: the entry of a device leads to a directory below that of the other.
pub proof fn devices_hang_from_their_directory(e: PciEntry, directory: Seq<char>, above: Seq<char>, name: Seq<char>)
    requires
        e.real_path matches Some(path) && path@ == (directory + above).push('/') + name,
        is_pci_address(above),
        !name.contains('/'),
    ensures
        entry_parent(e) == Some(above),
{
    let path = e.real_path->0@;
    let d = directory + above;
    assert(path[d.len() as int] == '/');
    assert forall|j: int| d.len() < j < path.len() implies path[j] != '/' by {
        assert(path[j] == name[j - d.len() - 1]);
        assert(name.contains(name[j - d.len() - 1]));
    }
    crate::text::lemma_split_last_at(path, '/', d.len() as int);
    assert(path.take(d.len() as int) =~= d);
    assert(d.skip(d.len() - 12) =~= above);
}

/// What is told of a listed device is what its last entry tells, and nothing is
/// told of others.
pub proof fn the_last_entry_counts(entries: Seq<PciEntry>, i: int, a: Seq<char>)
    ensures
        parents(entries).dom().contains(a) <==> exists|j: int|
            0 <= j < entries.len() && (#[trigger] entries[j]).address@ == a,
        0 <= i < entries.len() && entries[i].address@ == a && (forall|j: int|
            i < j < entries.len() ==> (#[trigger] entries[j]).address@ != a) ==> parents(entries)[a] == entry_parent(
            entries[i],
        ),
    decreases entries.len(),
{
    if entries.len() > 0 {
        let rest = entries.drop_last();
        the_last_entry_counts(rest, i, a);
        if entries.last().address@ == a {
            assert(entries[entries.len() - 1].address@ == a);
        }
        if exists|j: int| 0 <= j < rest.len() && (#[trigger] rest[j]).address@ == a {
            let j = choose|j: int| 0 <= j < rest.len() && (#[trigger] rest[j]).address@ == a;
            assert(entries[j].address@ == a);
        }
        if exists|j: int| 0 <= j < entries.len() && (#[trigger] entries[j]).address@ == a {
            let j = choose|j: int| 0 <= j < entries.len() && (#[trigger] entries[j]).address@ == a;
            if j < rest.len() {
                assert(rest[j].address@ == a);
            }
        }
        if 0 <= i < rest.len() && entries[i].address@ == a && (forall|j: int|
            i < j < entries.len() ==> (#[trigger] entries[j]).address@ != a) {
            assert(entries[entries.len() - 1].address@ != a);
            assert forall|j: int| i < j < rest.len() implies (#[trigger] rest[j]).address@ != a by {
                assert(entries[j].address@ != a);
            }
        }
    }
}

/// A chain goes all the way up: its last device hangs from nothing.
pub proof fn chains_end_at_a_root(up: Map<Seq<char>, Option<Seq<char>>>, a: Seq<char>, fuel: nat)
    ensures
        chain(up, a, fuel) matches Some(c) ==> c.len() > 0 && c[0] == a && !(up.dom().contains(c.last()) && up[c.last()]
            is Some),
    decreases fuel,
{
    if chain(up, a, fuel) is Some && up.dom().contains(a) && up[a] is Some {
        chains_end_at_a_root(up, up[a]->0, (fuel - 1) as nat);
        let rest = chain(up, up[a]->0, (fuel - 1) as nat)->0;
        assert((seq![a] + rest).last() == rest.last());
    }
}

/// The links as held by a map of optional strings.
spec fn links(m: Map<Seq<char>, Option<String>>) -> Map<Seq<char>, Option<Seq<char>>> {
    m.map_values(|o: Option<String>| opt_text(o))
}

/// Every link is from and to a device in the map.
spec fn closed_under(up: Map<Seq<char>, Option<Seq<char>>>, names: Set<Seq<char>>) -> bool {
    forall|a: Seq<char>|
        #[trigger] up.dom().contains(a) ==> names.contains(a) && (up[a] matches Some(p) ==> names.contains(p))
}

/// No visited device is on a chain from `a` to a root.
spec fn clear_of(up: Map<Seq<char>, Option<Seq<char>>>, a: Seq<char>, visited: Set<Seq<char>>) -> bool {
    forall|fuel: nat, v: Seq<char>|
        (#[trigger] chain(up, a, fuel)) is Some && #[trigger] visited.contains(v) ==> !(chain(up, a, fuel)->0).contains(
            v,
        )
}

spec fn devices_follow(up: Map<Seq<char>, Option<Seq<char>>>, devices: Map<Seq<char>, PCIDevice>) -> bool {
    forall|a: Seq<char>|
        #[trigger] devices.dom().contains(a) ==> follows(up, a, devices[a]@) && devices[a].address@ == a
}

/// Gives the device at `address` the devices that it hangs from, as far as they
/// were not visited yet.
fn build_parent_chain(
    devices: &mut NameMap<PCIDevice>,
    parent_addresses: &NameMap<Option<String>>,
    address: &String,
    visited: &mut NameMap<bool>,
)
    requires
        old(devices).wf(),
        parent_addresses.wf(),
        old(visited).wf(),
        devices_follow(links(parent_addresses@), old(devices)@),
        closed_under(links(parent_addresses@), old(devices)@.dom()),
        clear_of(links(parent_addresses@), address@, old(visited)@.dom()),
        old(devices)@.dom().contains(address@),
    ensures
        final(devices).wf(),
        final(visited).wf(),
        final(devices).names() == old(devices).names(),
        final(devices)@.dom() == old(devices)@.dom(),
        devices_follow(links(parent_addresses@), final(devices)@),
        complete(links(parent_addresses@), address@, final(devices)@[address@]),
        forall|a: Seq<char>|
            #[trigger] old(devices)@.dom().contains(a) && complete(links(parent_addresses@), a, old(devices)@[a])
                ==> complete(links(parent_addresses@), a, final(devices)@[a]),
    decreases parent_addresses@.dom().difference(old(visited)@.dom()).len(),
{
    let ghost up = links(parent_addresses@);
    let ghost before = devices@;
    if visited.contains(address.as_str()) {
        proof {
            assert forall|fuel: nat| (#[trigger] chain(up, address@, fuel)) matches Some(c) ==> devices@[address@]@
                == c by {
                if chain(up, address@, fuel) is Some {
                    lemma_chain_follows(up, address@, fuel);
                    let c = chain(up, address@, fuel)->0;
                    assert(c[0] == address@);
                    assert(c.contains(address@));
                    assert(visited@.dom().contains(address@));
                }
            }
        }
        return;
    }
    let ghost seen = visited@.dom();
    visited.insert(address.clone(), true);
    assert(visited@.dom() =~= seen.insert(address@));
    let found: Option<&Option<String>> = parent_addresses.get(address.as_str());
    if let Some(Some(parent)) = found {
        assert(up.dom().contains(address@));
        assert(up[address@] == Some(parent@));
        proof {
            parent_addresses.lemma_finite();
            let left = parent_addresses@.dom().difference(seen);
            assert(left.contains(address@));
            assert(parent_addresses@.dom().difference(visited@.dom()) =~= left.remove(address@));
            assert forall|fuel: nat, v: Seq<char>|
                (#[trigger] chain(up, parent@, fuel)) is Some && #[trigger] visited@.dom().contains(
                    v,
                ) implies !(chain(up, parent@, fuel)->0).contains(v) by {
                let f1 = (fuel + 1) as nat;
                let c = chain(up, parent@, fuel)->0;
                assert(chain(up, address@, f1) == Some(seq![address@] + c));
                lemma_chain_leaves(up, address@, f1);
                assert((seq![address@] + c).drop_first() =~= c);
                if seen.contains(v) {
                    assert(!(chain(up, address@, f1)->0).contains(v));
                    if c.contains(v) {
                        let k = choose|k: int| 0 <= k < c.len() && c[k] == v;
                        assert((seq![address@] + c)[k + 1] == v);
                    }
                }
            }
        }
        build_parent_chain(devices, parent_addresses, parent, visited);
        let ghost mid = devices@;
        assert(mid.dom().contains(parent@));
        let above: Option<&PCIDevice> = devices.get(parent.as_str());
        let own: Option<&PCIDevice> = devices.get(address.as_str());
        if let Some(parent_device) = above {
            if let Some(device) = own {
                let updated: PCIDevice = PCIDevice {
                    address: device.address.clone(),
                    parent: Some(Box::new(parent_device.clone())),
                };
                proof {
                    assert(updated@ == seq![address@] + mid[parent@]@);
                    assert(follows(up, parent@, mid[parent@]@));
                    assert forall|i: int| 0 <= i < updated@.len() - 1 implies up.dom().contains(
                        #[trigger] updated@[i],
                    ) && up[updated@[i]] == Some(updated@[i + 1]) by {
                        if i > 0 {
                            assert(updated@[i] == mid[parent@]@[i - 1]);
                            assert(updated@[i + 1] == mid[parent@]@[i]);
                        } else {
                            assert(updated@[1] == mid[parent@]@[0]);
                        }
                    }
                    assert forall|fuel: nat| (#[trigger] chain(up, address@, fuel)) matches Some(c) ==> updated@
                        == c by {
                        if chain(up, address@, fuel) is Some {
                            assert(chain(up, parent@, (fuel - 1) as nat) is Some);
                        }
                    }
                }
                let ghost model = updated;
                devices.insert(address.clone(), updated);
                proof {
                    assert(devices@ == mid.insert(address@, model));
                    assert(devices@.dom() =~= mid.dom());
                    assert forall|a: Seq<char>|
                        #[trigger] before.dom().contains(a) && complete(up, a, before[a]) implies complete(
                        up,
                        a,
                        devices@[a],
                    ) by {
                        if a == address@ {
                            assert(complete(up, address@, model));
                        } else {
                            assert(complete(up, a, mid[a]));
                        }
                    }
                }
            }
        }
    } else {
        proof {
            assert(!(up.dom().contains(address@) && up[address@] is Some)) by {
                if up.dom().contains(address@) {
                    assert(up[address@] == opt_text(parent_addresses@[address@]));
                }
            }
            let path = devices@[address@]@;
            assert(follows(up, address@, path));
            if path.len() > 1 {
                assert(up.dom().contains(path[0]));
            }
            assert(path =~= seq![address@]);
        }
    }
}

/// The PCI devices that are listed, and those that listed devices hang from,
/// each with the chain of devices that it hangs from.
pub fn parse_pci_topology(entries: &Vec<PciEntry>) -> (devices: NameMap<PCIDevice>)
    ensures
        devices.wf(),
        forall|a: Seq<char>| #[trigger] devices@.dom().contains(a) <==> known(entries@, a),
        forall|a: Seq<char>| #[trigger]
            devices@.dom().contains(a) ==> is_device_at(parents(entries@), a, devices@[a]),
        forall|a: Seq<char>| #[trigger] devices@.dom().contains(a) ==> devices@[a].address@ == a,
{
    let mut devices: NameMap<PCIDevice> = NameMap::new();
    let mut parent_addresses: NameMap<Option<String>> = NameMap::new();
    let mut i: usize = 0;
    assert(links(parent_addresses@) =~= parents(entries@.take(0)));
    while i < entries.len()
        invariant
            i <= entries@.len(),
            devices.wf(),
            parent_addresses.wf(),
            forall|a: Seq<char>| #[trigger] devices@.dom().contains(a) <==> known(entries@.take(i as int), a),
            forall|a: Seq<char>| #[trigger]
                devices@.dom().contains(a) ==> devices@[a]@ == seq![a] && devices@[a].address@ == a,
            links(parent_addresses@) == parents(entries@.take(i as int)),
            closed_under(links(parent_addresses@), devices@.dom()),
        decreases entries@.len() - i,
    {
        let entry: &PciEntry = &entries[i];
        let ghost now = entries@.take(i + 1);
        let ghost earlier = entries@.take(i as int);
        let ghost held = devices@;
        assert(now.drop_last() == earlier);
        assert(now.last() == *entry);
        assert(now[i as int] == *entry);
        let parent: Option<String> = match &entry.real_path {
            Some(path) => match directory(path.as_str()) {
                Some(directory) => capture(PCI_SUFFIX_PATTERN, directory.as_str()),
                None => None,
            },
            None => None,
        };
        assert(opt_text(parent) == entry_parent(*entry));
        devices.insert(entry.address.clone(), PCIDevice::new(entry.address.clone()));
        if let Some(p) = &parent {
            if !devices.contains(p.as_str()) {
                devices.insert(p.clone(), PCIDevice::new(p.clone()));
            }
        }
        let ghost old_links = parent_addresses@;
        let ghost added = parent;
        parent_addresses.insert(entry.address.clone(), parent);
        proof {
            assert(links(parent_addresses@) =~= links(old_links).insert(entry.address@, opt_text(added)));
            assert forall|a: Seq<char>| #[trigger] devices@.dom().contains(a) implies known(now, a) by {
                if held.dom().contains(a) {
                    let k = choose|k: int|
                        0 <= k < earlier.len() && (#[trigger] earlier[k].address@ == a || entry_parent(earlier[k])
                            == Some(a));
                    assert(now[k] == earlier[k]);
                } else {
                    assert(now[i as int].address@ == a || entry_parent(now[i as int]) == Some(a));
                }
            }
            assert forall|a: Seq<char>| known(now, a) implies #[trigger] devices@.dom().contains(a) by {
                let k = choose|k: int|
                    0 <= k < now.len() && (#[trigger] now[k].address@ == a || entry_parent(now[k]) == Some(a));
                if k < i {
                    assert(earlier[k] == now[k]);
                    assert(known(earlier, a));
                    assert(held.dom().contains(a));
                }
            }
        }
        i = i + 1;
    }
    assert(entries@.take(entries@.len() as int) == entries@);
    let ghost up = links(parent_addresses@);
    let count: usize = devices.len();
    let ghost names = devices.names();
    proof {
        devices.lemma_names();
    }
    let mut k: usize = 0;
    while k < count
        invariant
            k <= count,
            count == names.len(),
            up == links(parent_addresses@),
            devices.wf(),
            parent_addresses.wf(),
            devices.names() == names,
            devices_follow(up, devices@),
            closed_under(up, devices@.dom()),
            forall|a: Seq<char>| #[trigger] devices@.dom().contains(a) <==> known(entries@, a),
            forall|j: int| 0 <= j < k ==> complete(up, #[trigger] names[j], devices@[names[j]]),
        decreases count - k,
    {
        let address: String = devices.name_at(k).clone();
        let mut visited: NameMap<bool> = NameMap::new();
        let ghost held = devices@;
        proof {
            devices.lemma_names();
        }
        build_parent_chain(&mut devices, &parent_addresses, &address, &mut visited);
        proof {
            assert forall|j: int| 0 <= j < k + 1 implies complete(up, #[trigger] names[j], devices@[names[j]]) by {
                if j < k {
                    assert(held.dom().contains(names[j]));
                }
            }
        }
        k = k + 1;
    }
    proof {
        devices.lemma_names();
        assert forall|a: Seq<char>| #[trigger] devices@.dom().contains(a) implies is_device_at(
            parents(entries@),
            a,
            devices@[a],
        ) by {
            assert(devices.names().contains(a));
            let j = choose|j: int| 0 <= j < names.len() && names[j] == a;
            assert(complete(up, names[j], devices@[names[j]]));
            assert(up == parents(entries@));
        }
    }
    devices
}

}
