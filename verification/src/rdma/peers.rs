//! Values kept for the connections of a manager's devices with the devices of
//! other managers.

use crate::text::same;
use vstd::prelude::*;

verus! {

/// A connection: the local device, the manager at the other end and its device.
#[derive(Debug)]
pub struct Peer {
    pub self_device: String,
    pub other: String,
    pub other_device: String,
}

/// What a `Peer` holds.
#[verifier::ext_equal]
pub struct PeerModel {
    pub self_device: Seq<char>,
    pub other: Seq<char>,
    pub other_device: Seq<char>,
}

impl View for Peer {
    type V = PeerModel;

    open spec fn view(&self) -> PeerModel {
        PeerModel { self_device: self.self_device@, other: self.other@, other_device: self.other_device@ }
    }
}

impl Clone for Peer {
    fn clone(&self) -> (c: Peer)
        ensures
            c == *self,
    {
        Peer {
            self_device: self.self_device.clone(),
            other: self.other.clone(),
            other_device: self.other_device.clone(),
        }
    }
}

impl Peer {
    /// Whether this is the same connection.
    pub fn is(&self, other: &Peer) -> (r: bool)
        ensures
            r == (self@ == other@),
    {
        let r: bool = same(self.self_device.as_str(), other.self_device.as_str()) && same(
            self.other.as_str(),
            other.other.as_str(),
        ) && same(self.other_device.as_str(), other.other_device.as_str());
        r
    }

    /// The connection as the manager at its other end sees it; `self_id` is this
    /// manager.
    pub fn mirrored(&self, self_id: &str) -> (p: Peer)
        ensures
            p@ == mirrored(self@, self_id@),
    {
        Peer {
            self_device: self.other_device.clone(),
            other: self_id.to_owned(),
            other_device: self.self_device.clone(),
        }
    }
}

/// A connection of the manager `self_id`, as the manager at its other end sees it.
pub open spec fn mirrored(p: PeerModel, self_id: Seq<char>) -> PeerModel {
    PeerModel { self_device: p.other_device, other: self_id, other_device: p.self_device }
}

/// What the other end sees, seen from here again, is the connection itself.
pub proof fn mirrored_twice(p: PeerModel, self_id: Seq<char>)
    ensures
        mirrored(mirrored(p, self_id), p.other) == p,
{
}

/// The manager at the other end has its own device for the local one, and this
/// manager and its device at the other end.
pub proof fn the_other_end_sees_this_one(p: PeerModel, self_id: Seq<char>)
    ensures
        mirrored(p, self_id).other == self_id,
        mirrored(p, self_id).other_device == p.self_device,
        mirrored(p, self_id).self_device == p.other_device,
{
}

/// A map whose keys are connections.
pub struct PeerMap<V> {
    entries: Vec<(Peer, V)>,
}

impl<V> View for PeerMap<V> {
    type V = Map<PeerModel, V>;

    closed spec fn view(&self) -> Map<PeerModel, V> {
        Map::new(
            |key: PeerModel| exists|i: int| 0 <= i < self.entries@.len() && #[trigger] self.entries@[i].0@ == key,
            |key: PeerModel| self.entries@[self.place(key)].1,
        )
    }
}

impl<V> PeerMap<V> {
    spec fn place(self, key: PeerModel) -> int {
        choose|i: int| 0 <= i < self.entries@.len() && #[trigger] self.entries@[i].0@ == key
    }

    /// No connection stands in two entries.
    pub closed spec fn wf(self) -> bool {
        forall|i: int, j: int|
            0 <= i < self.entries@.len() && 0 <= j < self.entries@.len() && #[trigger] self.entries@[i].0@
                == #[trigger] self.entries@[j].0@ ==> i == j
    }

    /// The connections, in the order in which they are kept.
    pub closed spec fn keys(self) -> Seq<PeerModel> {
        self.entries@.map_values(|e: (Peer, V)| e.0@)
    }

    proof fn lemma_entry(self, i: int)
        requires
            self.wf(),
            0 <= i < self.entries@.len(),
        ensures
            self@.dom().contains(self.entries@[i].0@),
            self@[self.entries@[i].0@] == self.entries@[i].1,
    {
        let key = self.entries@[i].0@;
        assert(self.entries@[self.place(key)].0@ == key);
    }

    /// The keys are those of the map, each once.
    pub proof fn lemma_keys(self)
        requires
            self.wf(),
        ensures
            self.keys().no_duplicates(),
            forall|key: PeerModel| #[trigger] self@.dom().contains(key) <==> self.keys().contains(key),
    {
        assert forall|key: PeerModel| #[trigger] self@.dom().contains(key) implies self.keys().contains(key) by {
            let i = self.place(key);
            assert(self.keys()[i] == key);
        }
        assert forall|key: PeerModel| self.keys().contains(key) implies #[trigger] self@.dom().contains(key) by {
            let i = choose|i: int| 0 <= i < self.keys().len() && self.keys()[i] == key;
            self.lemma_entry(i);
        }
        assert forall|i: int, j: int| 0 <= i < self.keys().len() && 0 <= j < self.keys().len() && i
            != j implies self.keys()[i] != self.keys()[j] by {
            assert(self.keys()[i] == self.entries@[i].0@);
            assert(self.keys()[j] == self.entries@[j].0@);
        }
    }

    /// A map without entries.
    pub fn new() -> (m: Self)
        ensures
            m.wf(),
            m@ == Map::<PeerModel, V>::empty(),
    {
        let m = PeerMap { entries: Vec::new() };
        assert(m@ =~= Map::<PeerModel, V>::empty());
        m
    }

    /// How many connections there are.
    pub fn len(&self) -> (n: usize)
        ensures
            n == self.keys().len(),
    {
        self.entries.len()
    }

    /// The value at position `i`.
    pub fn value_at(&self, i: usize) -> (value: &V)
        requires
            self.wf(),
            i < self.keys().len(),
        ensures
            *value == self@[self.keys()[i as int]],
    {
        proof {
            self.lemma_entry(i as int);
        }
        &self.entries[i].1
    }

    fn find(&self, key: &Peer) -> (r: Option<usize>)
        requires
            self.wf(),
        ensures
            match r {
                Some(i) => i < self.entries@.len() && self.entries@[i as int].0@ == key@ && self@.dom().contains(key@)
                    && self@[key@] == self.entries@[i as int].1,
                None => !self@.dom().contains(key@),
            },
    {
        let mut i: usize = 0;
        while i < self.entries.len()
            invariant
                self.wf(),
                i <= self.entries@.len(),
                forall|j: int| 0 <= j < i ==> #[trigger] self.entries@[j].0@ != key@,
            decreases self.entries@.len() - i,
        {
            if self.entries[i].0.is(key) {
                proof {
                    self.lemma_entry(i as int);
                }
                return Some(i);
            }
            i = i + 1;
        }
        None
    }

    /// Whether there is an entry for the connection.
    pub fn contains(&self, key: &Peer) -> (r: bool)
        requires
            self.wf(),
        ensures
            r == self@.dom().contains(key@),
    {
        self.find(key).is_some()
    }

    /// The value of a connection, if there is one.
    pub fn get(&self, key: &Peer) -> (r: Option<&V>)
        requires
            self.wf(),
        ensures
            match r {
                Some(v) => self@.dom().contains(key@) && *v == self@[key@],
                None => !self@.dom().contains(key@),
            },
    {
        match self.find(key) {
            Some(i) => Some(&self.entries[i].1),
            None => None,
        }
    }

    /// Whether there is a connection of that local device.
    pub fn has_device(&self, device: &str) -> (r: bool)
        requires
            self.wf(),
        ensures
            r == device_has_peers(self@, device@),
    {
        let mut i: usize = 0;
        while i < self.entries.len()
            invariant
                self.wf(),
                i <= self.entries@.len(),
                forall|j: int| 0 <= j < i ==> #[trigger] self.entries@[j].0@.self_device != device@,
            decreases self.entries@.len() - i,
        {
            if same(self.entries[i].0.self_device.as_str(), device) {
                proof {
                    self.lemma_entry(i as int);
                }
                return true;
            }
            i = i + 1;
        }
        proof {
            assert forall|key: PeerModel| #[trigger] self@.dom().contains(key) implies key.self_device != device@ by {
                let k = self.place(key);
                assert(self.entries@[k].0@ == key);
            }
        }
        false
    }

    /// Adds an entry for a connection that has none.
    pub fn add(&mut self, key: Peer, value: V)
        requires
            old(self).wf(),
            !old(self)@.dom().contains(key@),
        ensures
            final(self).wf(),
            final(self)@ == old(self)@.insert(key@, value),
    {
        let ghost before = *self;
        let ghost model = key@;
        self.entries.push((key, value));
        proof {
            let n0 = before.entries@.len() as int;
            assert(self.entries@[n0].0@ == model);
            assert forall|a: int, b: int|
                0 <= a < self.entries@.len() && 0 <= b < self.entries@.len() && #[trigger] self.entries@[a].0@
                    == #[trigger] self.entries@[b].0@ implies a == b by {
                if a < n0 {
                    before.lemma_entry(a);
                }
                if b < n0 {
                    before.lemma_entry(b);
                }
                if a < n0 && b < n0 {
                    assert(self.entries@[a].0@ == before.entries@[a].0@);
                    assert(self.entries@[b].0@ == before.entries@[b].0@);
                }
            }
            assert forall|n: PeerModel| self@.dom().contains(n) == before@.insert(model, value).dom().contains(n) by {
                if before@.dom().contains(n) {
                    let k = before.place(n);
                    assert(self.entries@[k].0@ == before.entries@[k].0@);
                }
                if self@.dom().contains(n) {
                    let k = self.place(n);
                    if k < n0 {
                        before.lemma_entry(k);
                    }
                }
            }
            assert forall|n: PeerModel| #[trigger] self@.dom().contains(n) implies self@[n] == before@.insert(
                model,
                value,
            )[n] by {
                let k = self.place(n);
                self.lemma_entry(k);
                if k < n0 {
                    before.lemma_entry(k);
                }
            }
            assert(self@ =~= before@.insert(model, value));
        }
    }

    /// Takes the entry of a connection out, if there is one.
    pub fn remove(&mut self, key: &Peer)
        requires
            old(self).wf(),
        ensures
            final(self).wf(),
            final(self)@ == old(self)@.remove(key@),
    {
        let ghost before = *self;
        match self.find(key) {
            Some(i) => {
                let _ = self.entries.remove(i);
                proof {
                    let at = i as int;
                    assert forall|a: int| 0 <= a < self.entries@.len() implies #[trigger] self.entries@[a]
                        == before.entries@[if a < at {
                        a
                    } else {
                        a + 1
                    }] by {}
                    assert forall|a: int, b: int|
                        0 <= a < self.entries@.len() && 0 <= b < self.entries@.len()
                            && #[trigger] self.entries@[a].0@ == #[trigger] self.entries@[b].0@ implies a == b by {
                        let a1 = if a < at { a } else { a + 1 };
                        let b1 = if b < at { b } else { b + 1 };
                        assert(before.entries@[a1].0@ == before.entries@[b1].0@);
                    }
                    assert forall|n: PeerModel| self@.dom().contains(n) == before@.remove(key@).dom().contains(n) by {
                        if before@.remove(key@).dom().contains(n) {
                            let k = before.place(n);
                            let k1 = if k < at { k } else { k - 1 };
                            assert(before.entries@[k].0@ == n);
                            assert(k != at);
                            assert(self.entries@[k1] == before.entries@[k]);
                        }
                        if self@.dom().contains(n) {
                            let k = self.place(n);
                            let k1 = if k < at { k } else { k + 1 };
                            assert(self.entries@[k] == before.entries@[k1]);
                            before.lemma_entry(k1);
                            if n == key@ {
                                assert(before.entries@[k1].0@ == before.entries@[at].0@);
                            }
                        }
                    }
                    assert forall|n: PeerModel| #[trigger] self@.dom().contains(n) implies self@[n]
                        == before@.remove(key@)[n] by {
                        let k = self.place(n);
                        let k1 = if k < at { k } else { k + 1 };
                        assert(self.entries@[k] == before.entries@[k1]);
                        self.lemma_entry(k);
                        before.lemma_entry(k1);
                    }
                    assert(self@ =~= before@.remove(key@));
                }
            },
            None => {
                assert(self@ =~= before@.remove(key@));
            },
        }
    }
}

/// Whether a map has an entry for some connection of that local device.
pub open spec fn device_has_peers<V>(m: Map<PeerModel, V>, device: Seq<char>) -> bool {
    exists|key: PeerModel| #[trigger] m.dom().contains(key) && key.self_device == device
}

}
