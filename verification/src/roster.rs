//! A table keyed by name that remembers the order in which names arrived.

use vstd::prelude::*;

verus! {

/// Values filed under names. A name occurs at most once; the entries keep
/// the order in which their names were first inserted.
#[derive(Debug)]
pub struct Roster<T> {
    entries: Vec<(String, T)>,
}

impl<T> View for Roster<T> {
    type V = Map<Seq<char>, T>;

    /// The table as a map from names to values.
    open spec fn view(&self) -> Map<Seq<char>, T> {
        Map::new(
            |name: Seq<char>| self.names().contains(name),
            |name: Seq<char>| self.values()[self.names().index_of(name)],
        )
    }
}

/// The names of a sequence of entries.
spec fn names_of<T>(entries: Seq<(String, T)>) -> Seq<Seq<char>> {
    Seq::new(entries.len(), |i: int| entries[i].0@)
}

/// The values of a sequence of entries.
spec fn values_of<T>(entries: Seq<(String, T)>) -> Seq<T> {
    Seq::new(entries.len(), |i: int| entries[i].1)
}

impl<T> Roster<T> {
    /// The names, oldest first.
    pub closed spec fn names(&self) -> Seq<Seq<char>> {
        names_of(self.entries@)
    }

    /// The values, each at the index of its name.
    pub closed spec fn values(&self) -> Seq<T> {
        values_of(self.entries@)
    }

    /// No name occurs twice, and every name has its value.
    #[verifier::type_invariant]
    pub open spec fn wf(&self) -> bool {
        &&& self.names().no_duplicates()
        &&& self.names().len() == self.values().len()
    }

    /// In a well-formed table the entry at index `i` is what the map holds
    /// under the `i`-th name.
    pub proof fn lemma_entry(&self, i: int)
        requires
            self.wf(),
            0 <= i < self.names().len(),
        ensures
            self@.dom().contains(self.names()[i]),
            self@[self.names()[i]] == self.values()[i],
    {
        let name = self.names()[i];
        let j = self.names().index_of(name);
        assert(0 <= j < self.names().len() && self.names()[j] == name);
    }

    /// A name of the map is a name of the sequence.
    pub proof fn lemma_named(&self, name: Seq<char>)
        requires
            self.wf(),
            self@.dom().contains(name),
        ensures
            0 <= self.names().index_of(name) < self.names().len(),
            self.names()[self.names().index_of(name)] == name,
            self@[name] == self.values()[self.names().index_of(name)],
    {
    }

    /// The empty table.
    pub fn new() -> (r: Roster<T>)
        ensures
            r.names() == Seq::<Seq<char>>::empty(),
            r.values() == Seq::<T>::empty(),
            r@ == Map::<Seq<char>, T>::empty(),
    {
        let r = Roster { entries: Vec::new() };
        assert(r.names() =~= Seq::<Seq<char>>::empty());
        assert(r.values() =~= Seq::<T>::empty());
        assert(r@ =~= Map::<Seq<char>, T>::empty());
        r
    }

    /// The number of names.
    pub fn len(&self) -> (n: usize)
        ensures
            n == self.names().len(),
            n == self.values().len(),
    {
        self.entries.len()
    }

    /// Whether the table holds no name.
    pub fn is_empty(&self) -> (b: bool)
        ensures
            b == (self.names().len() == 0),
    {
        self.entries.len() == 0
    }

    /// The `i`-th name.
    pub fn name_at(&self, i: usize) -> (name: &String)
        requires
            i < self.names().len(),
        ensures
            name@ == self.names()[i as int],
    {
        &self.entries[i].0
    }

    /// The value of the `i`-th name.
    pub fn value_at(&self, i: usize) -> (value: &T)
        requires
            i < self.names().len(),
        ensures
            *value == self.values()[i as int],
    {
        &self.entries[i].1
    }

    /// The index of `name`, if the table holds it.
    pub fn index_of(&self, name: &str) -> (r: Option<usize>)
        ensures
            match r {
                Some(i) => i < self.names().len() && self.names()[i as int] == name@,
                None => !self.names().contains(name@),
            },
    {
        let key = name.to_owned();
        let mut i: usize = 0;
        while i < self.entries.len()
            invariant
                i <= self.entries@.len(),
                key@ == name@,
                forall|j: int| 0 <= j < i ==> self.names()[j] != name@,
            decreases self.entries@.len() - i,
        {
            if self.entries[i].0 == key {
                return Some(i);
            }
            i += 1;
        }
        None
    }

    /// Whether the table holds `name`.
    pub fn contains(&self, name: &str) -> (b: bool)
        ensures
            b == self@.dom().contains(name@),
    {
        self.index_of(name).is_some()
    }

    /// The value filed under `name`, if there is one.
    pub fn get(&self, name: &str) -> (r: Option<&T>)
        ensures
            match r {
                Some(value) => self@.dom().contains(name@) && *value == self@[name@],
                None => !self@.dom().contains(name@),
            },
    {
        match self.index_of(name) {
            Some(i) => {
                proof {
                    use_type_invariant(self);
                    self.lemma_entry(i as int);
                }
                Some(&self.entries[i].1)
            },
            None => None,
        }
    }

    /// Files `value` under `name`. A name already held keeps its place and
    /// gives back the value it had; a new name goes to the end.
    pub fn insert(&mut self, name: String, value: T) -> (r: Option<T>)
        ensures
            final(self)@ == old(self)@.insert(name@, value),
            old(self)@.dom().contains(name@) ==> {
                &&& r == Some(old(self)@[name@])
                &&& final(self).names() == old(self).names()
                &&& final(self).values() == old(self).values().update(
                    old(self).names().index_of(name@),
                    value,
                )
            },
            !old(self)@.dom().contains(name@) ==> {
                &&& r is None
                &&& final(self).names() == old(self).names().push(name@)
                &&& final(self).values() == old(self).values().push(value)
            },
    {
        proof {
            use_type_invariant(&*self);
        }
        let ghost before = *self;
        match self.index_of(name.as_str()) {
            Some(i) => {
                proof {
                    before.lemma_entry(i as int);
                }
                let mut entries: Vec<(String, T)> = Vec::new();
                core::mem::swap(&mut self.entries, &mut entries);
                let held = entries.remove(i);
                entries.insert(i, (name, value));
                assert(names_of(entries@) =~= before.names());
                self.entries = entries;
                proof {
                    assert(self.names() =~= before.names());
                    assert(self.values() =~= before.values().update(i as int, value));
                    assert forall|k: Seq<char>| self@.dom().contains(k) implies (#[trigger] self@[k])
                        == before@.insert(name@, value)[k] by {
                        let j = self.names().index_of(k);
                        assert(0 <= j < self.names().len() && self.names()[j] == k);
                    }
                    assert(self@ =~= before@.insert(name@, value));
                }
                Some(held.1)
            },
            None => {
                let mut entries: Vec<(String, T)> = Vec::new();
                core::mem::swap(&mut self.entries, &mut entries);
                entries.push((name, value));
                assert(names_of(entries@) =~= before.names().push(name@));
                self.entries = entries;
                proof {
                    assert(self.names() =~= before.names().push(name@));
                    assert(self.values() =~= before.values().push(value));
                    assert forall|k: Seq<char>|
                        (#[trigger] self@.dom().contains(k)) == before@.insert(
                            name@,
                            value,
                        ).dom().contains(k) by {
                        if before.names().contains(k) {
                            let j = before.names().index_of(k);
                            assert(self.names()[j] == k);
                        }
                        if k == name@ {
                            assert(self.names()[before.names().len() as int] == k);
                        }
                    }
                    assert forall|k: Seq<char>| self@.dom().contains(k) implies (#[trigger] self@[k])
                        == before@.insert(name@, value)[k] by {
                        let j = self.names().index_of(k);
                        assert(0 <= j < self.names().len() && self.names()[j] == k);
                        if k != name@ {
                            let j0 = before.names().index_of(k);
                            assert(0 <= j0 < before.names().len() && before.names()[j0] == k);
                            assert(self.names()[j0] == k);
                        }
                    }
                    assert(self@ =~= before@.insert(name@, value));
                }
                None
            },
        }
    }
}

} // verus!
