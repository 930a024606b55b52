//! A map from names to values that keeps its entries in the order in which
//! their names were first inserted.

use crate::text::same;
use vstd::prelude::*;

verus! {

/// A map whose keys are texts.
pub struct NameMap<V> {
    entries: Vec<(String, V)>,
}

impl<V> View for NameMap<V> {
    type V = Map<Seq<char>, V>;

    closed spec fn view(&self) -> Map<Seq<char>, V> {
        Map::new(
            |name: Seq<char>| exists|i: int| 0 <= i < self.entries@.len() && #[trigger] self.entries@[i].0@ == name,
            |name: Seq<char>| self.entries@[self.place(name)].1,
        )
    }
}

impl<V> NameMap<V> {
    spec fn place(self, name: Seq<char>) -> int {
        choose|i: int| 0 <= i < self.entries@.len() && #[trigger] self.entries@[i].0@ == name
    }

    /// No name stands in two entries.
    pub closed spec fn wf(self) -> bool {
        forall|i: int, j: int|
            0 <= i < self.entries@.len() && 0 <= j < self.entries@.len() && #[trigger] self.entries@[i].0@
                == #[trigger] self.entries@[j].0@ ==> i == j
    }

    /// The names, in the order in which they were first inserted.
    pub closed spec fn names(self) -> Seq<Seq<char>> {
        self.entries@.map_values(|e: (String, V)| e.0@)
    }

    proof fn lemma_entry(self, i: int)
        requires
            self.wf(),
            0 <= i < self.entries@.len(),
        ensures
            self@.dom().contains(self.entries@[i].0@),
            self@[self.entries@[i].0@] == self.entries@[i].1,
    {
        let name = self.entries@[i].0@;
        assert(self.entries@[self.place(name)].0@ == name);
    }

    /// The names are those of the map, each once.
    pub proof fn lemma_names(self)
        requires
            self.wf(),
        ensures
            self.names().no_duplicates(),
            forall|name: Seq<char>| self@.dom().contains(name) <==> self.names().contains(name),
            forall|i: int| 0 <= i < self.names().len() ==> self@.dom().contains(#[trigger] self.names()[i]),
    {
        assert forall|name: Seq<char>| self@.dom().contains(name) implies self.names().contains(name) by {
            let i = self.place(name);
            assert(self.names()[i] == name);
        }
        assert forall|i: int| 0 <= i < self.names().len() implies self@.dom().contains(
            #[trigger] self.names()[i],
        ) by {
            self.lemma_entry(i);
        }
        assert forall|name: Seq<char>| self.names().contains(name) implies self@.dom().contains(name) by {
            let i = choose|i: int| 0 <= i < self.names().len() && self.names()[i] == name;
            assert(self@.dom().contains(self.names()[i]));
        }
        assert(self.names().no_duplicates()) by {
            assert forall|i: int, j: int| 0 <= i < self.names().len() && 0 <= j < self.names().len() && i
                != j implies self.names()[i] != self.names()[j] by {
                assert(self.names()[i] == self.entries@[i].0@);
                assert(self.names()[j] == self.entries@[j].0@);
            }
        }
    }

    /// A map is finite.
    pub proof fn lemma_finite(self)
        requires
            self.wf(),
        ensures
            self@.dom().finite(),
            self@.dom().len() == self.names().len(),
    {
        self.lemma_names();
        self.names().unique_seq_to_set();
        assert(self.names().to_set() =~= self@.dom());
    }

    /// A map without entries.
    pub fn new() -> (m: Self)
        ensures
            m.wf(),
            m@ == Map::<Seq<char>, V>::empty(),
            m.names() == Seq::<Seq<char>>::empty(),
    {
        let m = NameMap { entries: Vec::new() };
        assert(m@ =~= Map::<Seq<char>, V>::empty());
        assert(m.names() =~= Seq::<Seq<char>>::empty());
        m
    }

    /// How many names there are.
    pub fn len(&self) -> (n: usize)
        requires
            self.wf(),
        ensures
            n == self.names().len(),
            n == self@.dom().len(),
    {
        proof {
            self.lemma_finite();
        }
        self.entries.len()
    }

    /// The name at position `i`.
    pub fn name_at(&self, i: usize) -> (name: &String)
        requires
            self.wf(),
            i < self.names().len(),
        ensures
            name@ == self.names()[i as int],
            self@.dom().contains(name@),
    {
        proof {
            self.lemma_entry(i as int);
        }
        &self.entries[i].0
    }

    /// The value at position `i`.
    pub fn value_at(&self, i: usize) -> (value: &V)
        requires
            self.wf(),
            i < self.names().len(),
        ensures
            *value == self@[self.names()[i as int]],
            self@.dom().contains(self.names()[i as int]),
    {
        proof {
            self.lemma_entry(i as int);
        }
        &self.entries[i].1
    }

    fn find(&self, name: &str) -> (r: Option<usize>)
        requires
            self.wf(),
        ensures
            match r {
                Some(i) => i < self.entries@.len() && self.entries@[i as int].0@ == name@ && self@.dom().contains(
                    name@,
                ) && self@[name@] == self.entries@[i as int].1,
                None => !self@.dom().contains(name@),
            },
    {
        let mut i: usize = 0;
        while i < self.entries.len()
            invariant
                self.wf(),
                i <= self.entries@.len(),
                forall|j: int| 0 <= j < i ==> #[trigger] self.entries@[j].0@ != name@,
            decreases self.entries@.len() - i,
        {
            if same(self.entries[i].0.as_str(), name) {
                proof {
                    self.lemma_entry(i as int);
                }
                return Some(i);
            }
            i = i + 1;
        }
        None
    }

    /// Whether `name` is a key.
    pub fn contains(&self, name: &str) -> (r: bool)
        requires
            self.wf(),
        ensures
            r == self@.dom().contains(name@),
    {
        self.find(name).is_some()
    }

    /// The value of `name`, if it is a key.
    pub fn get(&self, name: &str) -> (r: Option<&V>)
        requires
            self.wf(),
        ensures
            match r {
                Some(v) => self@.dom().contains(name@) && *v == self@[name@],
                None => !self@.dom().contains(name@),
            },
    {
        match self.find(name) {
            Some(i) => Some(&self.entries[i].1),
            None => None,
        }
    }

    /// The value of `name`, to be changed.
    pub fn get_mut(&mut self, name: &str) -> (r: Option<&mut V>)
        requires
            old(self).wf(),
        ensures
            match r {
                Some(v) => {
                    &&& old(self)@.dom().contains(name@)
                    &&& *v == old(self)@[name@]
                    &&& final(self)@ == old(self)@.insert(name@, *final(v))
                },
                None => !old(self)@.dom().contains(name@) && final(self)@ == old(self)@,
            },
            final(self).wf(),
            final(self).names() == old(self).names(),
    {
        match self.find(name) {
            Some(i) => {
                let ghost before = *self;
                let value: &mut V = &mut self.entries[i].1;
                proof {
                    lemma_replaced(before, *after_borrow(self), i as int, *final(value));
                }
                Some(value)
            },
            None => None,
        }
    }

    /// Gives `name` the value `value`; returns the value that it had.
    pub fn insert(&mut self, name: String, value: V) -> (previous: Option<V>)
        requires
            old(self).wf(),
        ensures
            final(self).wf(),
            final(self)@ == old(self)@.insert(name@, value),
            final(self).names() == (if old(self)@.dom().contains(name@) {
                old(self).names()
            } else {
                old(self).names().push(name@)
            }),
            match previous {
                Some(v) => old(self)@.dom().contains(name@) && v == old(self)@[name@],
                None => !old(self)@.dom().contains(name@),
            },
    {
        let ghost before = *self;
        let ghost text = name@;
        match self.find(name.as_str()) {
            Some(i) => {
                let mut slot: (String, V) = (name, value);
                self.entries.set_and_swap(i, &mut slot);
                proof {
                    assert forall|a: int, b: int|
                        0 <= a < self.entries@.len() && 0 <= b < self.entries@.len()
                            && #[trigger] self.entries@[a].0@ == #[trigger] self.entries@[b].0@ implies a == b by {
                        assert(self.entries@[a].0@ == before.entries@[a].0@);
                        assert(self.entries@[b].0@ == before.entries@[b].0@);
                    }
                    assert forall|n: Seq<char>| self@.dom().contains(n) == before@.dom().contains(n) by {
                        if before@.dom().contains(n) {
                            let k = before.place(n);
                            assert(self.entries@[k].0@ == before.entries@[k].0@);
                        }
                        if self@.dom().contains(n) {
                            let k = self.place(n);
                            assert(self.entries@[k].0@ == before.entries@[k].0@);
                        }
                    }
                    assert forall|n: Seq<char>| #[trigger] self@.dom().contains(n) implies self@[n]
                        == before@.insert(text, value)[n] by {
                        let k = self.place(n);
                        self.lemma_entry(k);
                        before.lemma_entry(k);
                    }
                    assert(self@ =~= before@.insert(text, value));
                    assert(self.names() =~= before.names());
                }
                Some(slot.1)
            },
            None => {
                self.entries.push((name, value));
                proof {
                    let n0 = before.entries@.len() as int;
                    assert(self.entries@[n0].0@ == text);
                    assert forall|a: int, b: int|
                        0 <= a < self.entries@.len() && 0 <= b < self.entries@.len()
                            && #[trigger] self.entries@[a].0@ == #[trigger] self.entries@[b].0@ implies a == b by {
                        if a < n0 {
                            before.lemma_entry(a);
                        }
                        if b < n0 {
                            before.lemma_entry(b);
                        }
                        if a < n0 && b < n0 {
                            assert(self.entries@[a].0@ == before.entries@[a].0@);
                            assert(self.entries@[b].0@ == before.entries@[b].0@);
                        }
                    }
                    assert forall|n: Seq<char>| self@.dom().contains(n) == before@.insert(text, value).dom().contains(
                        n,
                    ) by {
                        if before@.dom().contains(n) {
                            let k = before.place(n);
                            assert(self.entries@[k].0@ == before.entries@[k].0@);
                        }
                        if self@.dom().contains(n) {
                            let k = self.place(n);
                            if k < n0 {
                                before.lemma_entry(k);
                            }
                        }
                    }
                    assert forall|n: Seq<char>| #[trigger] self@.dom().contains(n) implies self@[n]
                        == before@.insert(text, value)[n] by {
                        let k = self.place(n);
                        self.lemma_entry(k);
                        if k < n0 {
                            before.lemma_entry(k);
                        }
                    }
                    assert(self@ =~= before@.insert(text, value));
                    assert(self.names() =~= before.names().push(text));
                }
                None
            },
        }
    }

    /// Takes `name` out of the map; returns the value that it had.
    pub fn remove(&mut self, name: &str) -> (previous: Option<V>)
        requires
            old(self).wf(),
        ensures
            final(self).wf(),
            final(self)@ == old(self)@.remove(name@),
            match previous {
                Some(v) => old(self)@.dom().contains(name@) && v == old(self)@[name@],
                None => !old(self)@.dom().contains(name@),
            },
    {
        let ghost before = *self;
        match self.find(name) {
            Some(i) => {
                let (_, value) = self.entries.remove(i);
                proof {
                    let at = i as int;
                    assert forall|a: int| 0 <= a < self.entries@.len() implies #[trigger] self.entries@[a]
                        == before.entries@[if a < at {
                        a
                    } else {
                        a + 1
                    }] by {}
                    assert forall|a: int, b: int|
                        0 <= a < self.entries@.len() && 0 <= b < self.entries@.len()
                            && #[trigger] self.entries@[a].0@ == #[trigger] self.entries@[b].0@ implies a == b by {
                        let a1 = if a < at { a } else { a + 1 };
                        let b1 = if b < at { b } else { b + 1 };
                        assert(before.entries@[a1].0@ == before.entries@[b1].0@);
                    }
                    assert forall|n: Seq<char>| self@.dom().contains(n) == before@.remove(name@).dom().contains(n) by {
                        if before@.remove(name@).dom().contains(n) {
                            let k = before.place(n);
                            let k1 = if k < at { k } else { k - 1 };
                            assert(before.entries@[k].0@ == n);
                            assert(k != at);
                            assert(self.entries@[k1] == before.entries@[k]);
                        }
                        if self@.dom().contains(n) {
                            let k = self.place(n);
                            let k1 = if k < at { k } else { k + 1 };
                            assert(self.entries@[k] == before.entries@[k1]);
                            before.lemma_entry(k1);
                            if n == name@ {
                                assert(before.entries@[k1].0@ == before.entries@[at].0@);
                            }
                        }
                    }
                    assert forall|n: Seq<char>| #[trigger] self@.dom().contains(n) implies self@[n]
                        == before@.remove(name@)[n] by {
                        let k = self.place(n);
                        let k1 = if k < at { k } else { k + 1 };
                        assert(self.entries@[k] == before.entries@[k1]);
                        self.lemma_entry(k);
                        before.lemma_entry(k1);
                    }
                    assert(self@ =~= before@.remove(name@));
                }
                Some(value)
            },
            None => {
                assert(self@ =~= before@.remove(name@));
                None
            },
        }
    }
}

/// A map in which one entry has another value.
proof fn lemma_replaced<V>(before: NameMap<V>, after: NameMap<V>, i: int, value: V)
    requires
        before.wf(),
        0 <= i < before.entries@.len(),
        after.entries@ == before.entries@.update(i, (before.entries@[i].0, value)),
    ensures
        after.wf(),
        after@ == before@.insert(before.entries@[i].0@, value),
        after.names() == before.names(),
{
    let name = before.entries@[i].0@;
    assert forall|j: int| 0 <= j < after.entries@.len() implies #[trigger] after.entries@[j].0 == before.entries@[j].0 by {
    }
    assert forall|a: int, b: int|
        0 <= a < after.entries@.len() && 0 <= b < after.entries@.len() && #[trigger] after.entries@[a].0@
            == #[trigger] after.entries@[b].0@ implies a == b by {
        assert(before.entries@[a].0@ == before.entries@[b].0@);
    }
    before.lemma_entry(i);
    assert forall|n: Seq<char>| after@.dom().contains(n) == before@.insert(name, value).dom().contains(n) by {
        if before@.dom().contains(n) {
            let k = before.place(n);
            assert(after.entries@[k].0@ == n);
        }
        if after@.dom().contains(n) {
            let k = after.place(n);
            before.lemma_entry(k);
        }
    }
    assert forall|n: Seq<char>| #[trigger] after@.dom().contains(n) implies after@[n] == before@.insert(name, value)[n] by {
        let k = after.place(n);
        after.lemma_entry(k);
        before.lemma_entry(k);
    }
    assert(after@ =~= before@.insert(name, value));
    assert(after.names() =~= before.names());
}

}
