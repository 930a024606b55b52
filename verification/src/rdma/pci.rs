//! PCI devices, the paths from them to their roots, and the distance between
//! two of them.

use crate::numerals::{parse_unsigned, unsigned};
use crate::text::{same, split, split_on, texts};
use vstd::prelude::*;

verus! {

/// A PCI device with the devices that it hangs from.
#[derive(Debug)]
pub struct PCIDevice {
    pub address: String,
    pub parent: Option<Box<PCIDevice>>,
}

impl PCIDevice {
    /// The addresses from the device up to its root.
    pub open spec fn path(self) -> Seq<Seq<char>>
        decreases self,
    {
        match self.parent {
            Some(parent) => seq![self.address@] + parent.path(),
            None => seq![self.address@],
        }
    }
}

impl View for PCIDevice {
    type V = Seq<Seq<char>>;

    open spec fn view(&self) -> Seq<Seq<char>> {
        self.path()
    }
}

impl Clone for PCIDevice {
    fn clone(&self) -> (c: PCIDevice)
        ensures
            c@ == self@,
        decreases self,
    {
        PCIDevice {
            address: self.address.clone(),
            parent: match &self.parent {
                Some(parent) => Some(Box::new((&**parent).clone())),
                None => None,
            },
        }
    }
}

/// A distance between devices, in tenths of a hop.
#[derive(Debug, Clone, Copy, PartialEq, Eq, Structural)]
pub enum Distance {
    Tenths(u128),
    /// Beyond every number of hops.
    Infinite,
}

/// What a hop counts, in tenths of a hop.
pub const HOP: u128 = 10;

/// The distance of devices on the same bus without a common ancestor.
pub const CROSS_NUMA_BASE: u128 = 200;

/// What each bus between devices without a common ancestor adds.
pub const BUS_STEP: u128 = 1;

/// The distance of devices in different PCI domains.
pub const CROSS_DOMAIN: u128 = 10000;

/// Whether `a` is strictly shorter than `b`.
pub open spec fn shorter(a: Distance, b: Distance) -> bool {
    match (a, b) {
        (Distance::Tenths(x), Distance::Tenths(y)) => x < y,
        (Distance::Tenths(_), Distance::Infinite) => true,
        (Distance::Infinite, _) => false,
    }
}

impl Distance {
    /// Whether this distance is strictly shorter than the other.
    pub fn is_shorter(self, other: Distance) -> (r: bool)
        ensures
            r == shorter(self, other),
    {
        match (self, other) {
            (Distance::Tenths(x), Distance::Tenths(y)) => x < y,
            (Distance::Tenths(_), Distance::Infinite) => true,
            (Distance::Infinite, _) => false,
        }
    }
}

/// How many addresses two paths have in common, counted from the root.
pub open spec fn common_part(p: Seq<Seq<char>>, q: Seq<Seq<char>>) -> nat
    decreases p.len(),
{
    if p.len() > 0 && q.len() > 0 && p.last() == q.last() {
        1 + common_part(p.drop_last(), q.drop_last())
    } else {
        0
    }
}

/// How many addresses of a path come before the first that is `address`.
pub open spec fn hops_to(path: Seq<Seq<char>>, address: Seq<char>) -> nat
    decreases path.len(),
{
    if path.len() == 0 || path[0] == address {
        0
    } else {
        1 + hops_to(path.drop_first(), address)
    }
}

/// The domain, bus, device and function that an address names.
pub open spec fn address_parts(address: Seq<char>) -> Option<(nat, nat, nat, nat)> {
    let parts = split_on(address, ':');
    if parts.len() != 3 {
        None
    } else {
        let dev_func = split_on(parts[2], '.');
        if dev_func.len() != 2 {
            None
        } else {
            match (
                unsigned(parts[0], 16, 0xffff),
                unsigned(parts[1], 16, 0xff),
                unsigned(dev_func[0], 16, 0xff),
                unsigned(dev_func[1], 16, 0xff),
            ) {
                (Some(domain), Some(bus), Some(device), Some(function)) => Some((domain, bus, device, function)),
                _ => None,
            }
        }
    }
}

/// How far apart two numbers are.
pub open spec fn apart(a: nat, b: nat) -> nat {
    if a < b {
        (b - a) as nat
    } else {
        (a - b) as nat
    }
}

/// The distance of devices without a common ancestor, by their addresses.
pub open spec fn cross_numa_distance(a: Seq<char>, b: Seq<char>) -> Distance {
    match (address_parts(a), address_parts(b)) {
        (Some((domain_a, bus_a, _, _)), Some((domain_b, bus_b, _, _))) => if domain_a != domain_b {
            Distance::Tenths(CROSS_DOMAIN)
        } else {
            Distance::Tenths((CROSS_NUMA_BASE + BUS_STEP * apart(bus_a, bus_b)) as u128)
        },
        _ => Distance::Infinite,
    }
}

/// The distance of two devices, by their paths: the hops from both to the
/// deepest device that both hang from, if there is one.
pub open spec fn path_distance(p: Seq<Seq<char>>, q: Seq<Seq<char>>) -> Distance {
    if p[0] == q[0] {
        Distance::Tenths(0)
    } else if common_part(p, q) > 0 {
        let ancestor = p[p.len() - common_part(p, q)];
        Distance::Tenths((HOP * (hops_to(p, ancestor) + hops_to(q, ancestor))) as u128)
    } else {
        cross_numa_distance(p[0], q[0])
    }
}

/// The common part is no longer than either path, and its addresses agree.
pub proof fn lemma_common_part(p: Seq<Seq<char>>, q: Seq<Seq<char>>)
    ensures
        common_part(p, q) <= p.len(),
        common_part(p, q) <= q.len(),
        forall|i: int| 1 <= i <= common_part(p, q) ==> #[trigger] p[p.len() - i] == q[q.len() - i],
        common_part(p, q) < p.len() && common_part(p, q) < q.len() ==> p[p.len() - common_part(p, q) - 1] != q[q.len()
            - common_part(p, q) - 1],
        common_part(p, q) == common_part(q, p),
    decreases p.len(),
{
    if p.len() > 0 && q.len() > 0 && p.last() == q.last() {
        let p1 = p.drop_last();
        let q1 = q.drop_last();
        lemma_common_part(p1, q1);
        let k = common_part(p1, q1);
        assert forall|i: int| 1 <= i <= common_part(p, q) implies #[trigger] p[p.len() - i] == q[q.len() - i] by {
            if i > 1 {
                assert(p1[p1.len() - (i - 1)] == q1[q1.len() - (i - 1)]);
            }
        }
        if common_part(p, q) < p.len() && common_part(p, q) < q.len() {
            assert(p1[p1.len() - k - 1] == p[p.len() - common_part(p, q) - 1]);
            assert(q1[q1.len() - k - 1] == q[q.len() - common_part(p, q) - 1]);
        }
    }
}

/// A suffix that agrees from the root for `n` addresses, and no further, is the
/// common part.
proof fn lemma_common_part_is(p: Seq<Seq<char>>, q: Seq<Seq<char>>, n: int)
    requires
        0 <= n <= p.len(),
        n <= q.len(),
        forall|i: int| 1 <= i <= n ==> #[trigger] p[p.len() - i] == q[q.len() - i],
        n == p.len() || n == q.len() || p[p.len() - n - 1] != q[q.len() - n - 1],
    ensures
        common_part(p, q) == n,
{
    lemma_common_part(p, q);
    let k = common_part(p, q) as int;
    if k < n {
        assert(p[p.len() - (k + 1)] == q[q.len() - (k + 1)]);
    } else if k > n {
        assert(p[p.len() - (n + 1)] == q[q.len() - (n + 1)]);
    }
}

/// `hops_to` finds the first place of an address.
pub proof fn lemma_hops_to(path: Seq<Seq<char>>, address: Seq<char>, at: int)
    requires
        0 <= at < path.len(),
        path[at] == address,
    ensures
        hops_to(path, address) <= at,
        path[hops_to(path, address) as int] == address,
        forall|j: int| 0 <= j < hops_to(path, address) ==> path[j] != address,
    decreases path.len(),
{
    if path[0] != address {
        lemma_hops_to(path.drop_first(), address, at - 1);
        let h = hops_to(path.drop_first(), address);
        assert forall|j: int| 0 <= j < hops_to(path, address) implies path[j] != address by {
            if j > 0 {
                assert(path.drop_first()[j - 1] != address);
            }
        }
    }
}

/// Where no address stands twice on a path, the hops to a device on it are the
/// devices below that one.
pub proof fn hops_on_a_simple_path(path: Seq<Seq<char>>, at: int)
    requires
        0 <= at < path.len(),
        path.no_duplicates(),
    ensures
        hops_to(path, path[at]) == at,
{
    lemma_hops_to(path, path[at], at);
}

/// The distance is the same in both directions.
pub proof fn distance_is_symmetric(p: Seq<Seq<char>>, q: Seq<Seq<char>>)
    requires
        p.len() > 0,
        q.len() > 0,
    ensures
        path_distance(p, q) == path_distance(q, p),
{
    lemma_common_part(p, q);
    let k = common_part(p, q) as int;
    if k > 0 {
        assert(p[p.len() - k] == q[q.len() - k]);
    }
}

/// Nothing is closer to a device than itself.
pub proof fn distance_to_itself_is_zero(p: Seq<Seq<char>>, q: Seq<Seq<char>>)
    requires
        p.len() > 0,
        q.len() > 0,
    ensures
        path_distance(p, p) == Distance::Tenths(0),
        !shorter(path_distance(p, q), path_distance(p, p)),
{
}

/// A device with a common ancestor within fewer hops than the penalty for
/// crossing NUMA nodes stands for is closer than every device without one.
pub proof fn near_beats_cross_numa(p: Seq<Seq<char>>, near: Seq<Seq<char>>, far: Seq<Seq<char>>)
    requires
        p.len() > 0,
        near.len() > 0,
        far.len() > 0,
        p[0] != near[0],
        p[0] != far[0],
        common_part(p, near) > 0,
        common_part(p, far) == 0,
        hops_to(p, p[p.len() - common_part(p, near)]) + hops_to(near, p[p.len() - common_part(p, near)]) < 20,
    ensures
        shorter(path_distance(p, near), path_distance(p, far)),
{
    let ancestor = p[p.len() - common_part(p, near)];
    let hops = hops_to(p, ancestor) + hops_to(near, ancestor);
    assert(path_distance(p, near) == Distance::Tenths((HOP * hops) as u128));
    assert(HOP * hops < CROSS_NUMA_BASE);
    match (address_parts(p[0]), address_parts(far[0])) {
        (Some((domain_a, bus_a, _, _)), Some((domain_b, bus_b, _, _))) => {
            lemma_address_parts_bounds(p[0]);
            lemma_address_parts_bounds(far[0]);
        },
        _ => {},
    }
}

/// The parts of an address are bounded by their types.
pub proof fn lemma_address_parts_bounds(a: Seq<char>)
    ensures
        address_parts(a) matches Some((domain, bus, device, function)) ==> domain <= 0xffff && bus <= 0xff && device
            <= 0xff && function <= 0xff,
{
}

impl PCIDevice {
    /// A device that hangs from nothing.
    pub fn new(address: String) -> (d: PCIDevice)
        ensures
            d.address == address,
            d.parent is None,
            d@ == seq![address@],
    {
        PCIDevice { address, parent: None }
    }

    /// A path starts with the device itself.
    pub proof fn lemma_path(self)
        ensures
            self@.len() >= 1,
            self@[0] == self.address@,
    {
    }

    /// The addresses from the device up to its root.
    pub fn get_path_to_root(&self) -> (path: Vec<String>)
        ensures
            texts(path@) == self@,
    {
        let mut path: Vec<String> = Vec::new();
        path.push(self.address.clone());
        let mut current: &PCIDevice = self;
        assert(texts(path@) + current@.drop_first() =~= self@);
        loop
            invariant
                texts(path@) + current@.drop_first() == self@,
            ensures
                texts(path@) == self@,
            decreases current,
        {
            match &current.parent {
                Some(parent) => {
                    let ghost before = path@;
                    let address: String = parent.address.clone();
                    let ghost text = address@;
                    path.push(address);
                    proof {
                        assert(texts(path@) =~= texts(before).push(text));
                        parent.lemma_path();
                        assert(current@.drop_first() =~= parent@);
                        assert(texts(path@) + parent@.drop_first() =~= texts(before) + current@.drop_first());
                    }
                    current = &**parent;
                },
                None => {
                    assert(current@.drop_first() =~= Seq::<Seq<char>>::empty());
                    assert(texts(path@) + current@.drop_first() =~= texts(path@));
                    break;
                },
            }
        }
        path
    }

    /// The domain, bus, device and function that the address names.
    pub fn parse_pci_address(&self) -> (r: Option<(u16, u8, u8, u8)>)
        ensures
            match r {
                Some((domain, bus, device, function)) => address_parts(self.address@) == Some(
                    (domain as nat, bus as nat, device as nat, function as nat),
                ),
                None => address_parts(self.address@) is None,
            },
    {
        let parts: Vec<String> = split(self.address.as_str(), ':');
        let ghost spec_parts = split_on(self.address@, ':');
        assert(texts(parts@).len() == parts@.len());
        if parts.len() != 3 {
            return None;
        }
        assert(spec_parts[0] == parts@[0]@ && spec_parts[1] == parts@[1]@ && spec_parts[2] == parts@[2]@);
        let dev_func: Vec<String> = split(parts[2].as_str(), '.');
        assert(texts(dev_func@).len() == dev_func@.len());
        if dev_func.len() != 2 {
            return None;
        }
        assert(split_on(spec_parts[2], '.')[0] == dev_func@[0]@ && split_on(spec_parts[2], '.')[1] == dev_func@[1]@);
        let domain: Option<u64> = parse_unsigned(parts[0].as_str(), 16, 0xffff);
        let bus: Option<u64> = parse_unsigned(parts[1].as_str(), 16, 0xff);
        let device: Option<u64> = parse_unsigned(dev_func[0].as_str(), 16, 0xff);
        let function: Option<u64> = parse_unsigned(dev_func[1].as_str(), 16, 0xff);
        match (domain, bus, device, function) {
            (Some(domain), Some(bus), Some(device), Some(function)) => Some(
                (domain as u16, bus as u8, device as u8, function as u8),
            ),
            _ => None,
        }
    }

    /// The distance to a device that has no ancestor in common with this one.
    fn calculate_cross_numa_distance(&self, other: &PCIDevice) -> (d: Distance)
        ensures
            d == cross_numa_distance(self.address@, other.address@),
    {
        match (self.parse_pci_address(), other.parse_pci_address()) {
            (Some((self_domain, self_bus, _, _)), Some((other_domain, other_bus, _, _))) => {
                if self_domain != other_domain {
                    return Distance::Tenths(CROSS_DOMAIN);
                }
                let buses: u8 = if self_bus < other_bus {
                    other_bus - self_bus
                } else {
                    self_bus - other_bus
                };
                Distance::Tenths(CROSS_NUMA_BASE + BUS_STEP * buses as u128)
            },
            _ => Distance::Infinite,
        }
    }

    /// The distance to another device.
    pub fn distance_to(&self, other: &PCIDevice) -> (d: Distance)
        ensures
            d == path_distance(self@, other@),
    {
        proof {
            self.lemma_path();
            other.lemma_path();
        }
        if same(self.address.as_str(), other.address.as_str()) {
            return Distance::Tenths(0);
        }
        let path1: Vec<String> = self.get_path_to_root();
        let path2: Vec<String> = other.get_path_to_root();
        let ghost p = self@;
        let ghost q = other@;
        assert(p.len() == path1@.len() && q.len() == path2@.len());
        assert forall|j: int| 0 <= j < p.len() implies p[j] == #[trigger] path1@[j]@ by {
            assert(texts(path1@)[j] == path1@[j]@);
        }
        assert forall|j: int| 0 <= j < q.len() implies q[j] == #[trigger] path2@[j]@ by {
            assert(texts(path2@)[j] == path2@[j]@);
        }
        let mut common: usize = 0;
        while common < path1.len() && common < path2.len() && same(
            path1[path1.len() - 1 - common].as_str(),
            path2[path2.len() - 1 - common].as_str(),
        )
            invariant
                common <= path1@.len(),
                common <= path2@.len(),
                p.len() == path1@.len(),
                q.len() == path2@.len(),
                forall|j: int| 0 <= j < p.len() ==> p[j] == #[trigger] path1@[j]@,
                forall|j: int| 0 <= j < q.len() ==> q[j] == #[trigger] path2@[j]@,
                forall|i: int| 1 <= i <= common ==> #[trigger] p[p.len() - i] == q[q.len() - i],
            decreases path1@.len() - common,
        {
            assert(path1@[path1@.len() - 1 - common]@ == path2@[path2@.len() - 1 - common]@);
            assert(p[p.len() - (common + 1)] == q[q.len() - (common + 1)]);
            common = common + 1;
        }
        proof {
            if common < path1@.len() && common < path2@.len() {
                assert(path1@[path1@.len() - 1 - common]@ != path2@[path2@.len() - 1 - common]@);
            }
            lemma_common_part_is(p, q, common as int);
            lemma_common_part(p, q);
        }
        if common == 0 {
            return self.calculate_cross_numa_distance(other);
        }
        let ancestor: &String = &path1[path1.len() - common];
        proof {
            lemma_hops_to(p, ancestor@, p.len() - common);
            assert(p[p.len() - common] == q[q.len() - common]);
            lemma_hops_to(q, ancestor@, q.len() - common);
        }
        let hops1: usize = Self::hops(&path1, ancestor);
        let hops2: usize = Self::hops(&path2, ancestor);
        Distance::Tenths(HOP * (hops1 as u128 + hops2 as u128))
    }

    fn hops(path: &Vec<String>, ancestor: &String) -> (n: usize)
        requires
            texts(path@).contains(ancestor@),
        ensures
            n == hops_to(texts(path@), ancestor@),
    {
        let ghost t = texts(path@);
        let mut i: usize = 0;
        assert(t.skip(0) =~= t);
        while i < path.len()
            invariant
                i <= path@.len(),
                t == texts(path@),
                hops_to(t, ancestor@) == i + hops_to(t.skip(i as int), ancestor@),
            decreases path@.len() - i,
        {
            assert(t[i as int] == path@[i as int]@);
            assert(t.skip(i as int)[0] == t[i as int]);
            if same(path[i].as_str(), ancestor.as_str()) {
                return i;
            }
            assert(t.skip(i as int).drop_first() =~= t.skip(i + 1));
            i = i + 1;
        }
        i
    }

    /// The place of the closest of the candidates, the first if several are
    /// equally close; there is none only where there are no candidates.
    pub fn find_closest(&self, candidate_devices: &Vec<PCIDevice>) -> (r: Option<usize>)
        ensures
            r is None <==> candidate_devices@.len() == 0,
            r matches Some(i) ==> is_closest(self@, candidate_devices@, i as int),
    {
        if candidate_devices.len() == 0 {
            return None;
        }
        let mut closest: usize = 0;
        let mut least: Distance = self.distance_to(&candidate_devices[0]);
        let mut i: usize = 1;
        while i < candidate_devices.len()
            invariant
                1 <= i <= candidate_devices@.len(),
                closest < i,
                least == path_distance(self@, candidate_devices@[closest as int]@),
                forall|j: int|
                    0 <= j < i ==> !shorter(#[trigger] path_distance(self@, candidate_devices@[j]@), least),
                forall|j: int|
                    0 <= j < closest ==> shorter(least, #[trigger] path_distance(self@, candidate_devices@[j]@)),
            decreases candidate_devices@.len() - i,
        {
            let distance: Distance = self.distance_to(&candidate_devices[i]);
            if distance.is_shorter(least) {
                least = distance;
                closest = i;
            }
            i = i + 1;
        }
        Some(closest)
    }
}

/// The candidate at `i` is closer than all before it and no further than all
/// behind it.
pub open spec fn is_closest(from: Seq<Seq<char>>, candidates: Seq<PCIDevice>, i: int) -> bool {
    &&& 0 <= i < candidates.len()
    &&& forall|j: int|
        0 <= j < candidates.len() ==> !shorter(
            #[trigger] path_distance(from, candidates[j]@),
            path_distance(from, candidates[i]@),
        )
    &&& forall|j: int|
        0 <= j < i ==> shorter(
            path_distance(from, candidates[i]@),
            #[trigger] path_distance(from, candidates[j]@),
        )
}

/// The distance of devices that hang from a common one is the hops from both of
/// them to the deepest device that both hang from, a whole hop each.
pub proof fn distance_counts_the_hops(p: Seq<Seq<char>>, q: Seq<Seq<char>>, k: int)
    requires
        p.no_duplicates(),
        q.no_duplicates(),
        0 < k <= p.len() < 0x1_0000_0000,
        k <= q.len() < 0x1_0000_0000,
        p[0] != q[0],
        forall|i: int| 1 <= i <= k ==> #[trigger] p[p.len() - i] == q[q.len() - i],
        k == p.len() || k == q.len() || p[p.len() - k - 1] != q[q.len() - k - 1],
    ensures
        path_distance(p, q) == Distance::Tenths((10 * ((p.len() - k) + (q.len() - k))) as u128),
{
    lemma_common_part_is(p, q, k);
    assert(p[p.len() - k] == q[q.len() - k]);
    hops_on_a_simple_path(p, p.len() - k);
    hops_on_a_simple_path(q, q.len() - k);
}

/// Of devices without a common ancestor, those on the same domain are closer the
/// closer their buses are; those on other domains are further than all of them,
/// and those whose addresses cannot be read further than anything.
pub proof fn buses_tell_the_distance(a: Seq<char>, b: Seq<char>, c: Seq<char>)
    requires
        address_parts(a) is Some,
        address_parts(b) is Some,
    ensures
        ({
            let (domain_a, bus_a, _, _) = address_parts(a)->0;
            let (domain_b, bus_b, _, _) = address_parts(b)->0;
            &&& domain_a == domain_b ==> cross_numa_distance(a, b) == Distance::Tenths(
                (200 + (if bus_a < bus_b {
                    bus_b - bus_a
                } else {
                    bus_a - bus_b
                })) as u128,
            )
            &&& domain_a != domain_b ==> cross_numa_distance(a, b) == Distance::Tenths(10000)
            &&& address_parts(c) matches Some((domain_c, _, _, _)) ==> domain_a == domain_b && domain_a != domain_c
                ==> shorter(cross_numa_distance(a, b), cross_numa_distance(a, c))
            &&& address_parts(c) is None ==> shorter(cross_numa_distance(a, b), cross_numa_distance(a, c))
        }),
{
    lemma_address_parts_bounds(a);
    lemma_address_parts_bounds(b);
}

/// To be shorter is an order: no distance is shorter than itself, what is shorter
/// than a shorter one is shorter, and of two that differ one is.
pub proof fn shorter_is_an_order(a: Distance, b: Distance, c: Distance)
    ensures
        !shorter(a, a),
        shorter(a, b) && shorter(b, c) ==> shorter(a, c),
        a != b ==> shorter(a, b) || shorter(b, a),
        shorter(a, b) ==> !shorter(b, a),
        a is Tenths ==> shorter(a, Distance::Infinite),
{
}

}
