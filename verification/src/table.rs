//! A map from paths to values.

use vstd::prelude::*;

use crate::path::{FsPath, Part};

verus! {

/// A path and what it stands for.
pub struct PathEntry<V> {
    pub key: FsPath,
    pub value: V,
}

/// A map from paths to values, kept as a list in which no path occurs twice.
pub struct PathMap<V> {
    entries: Vec<PathEntry<V>>,
}

impl<V> View for PathMap<V> {
    type V = Map<Seq<Part>, V>;

    closed spec fn view(&self) -> Map<Seq<Part>, V> {
        Map::new(
            |key: Seq<Part>| exists|i: int| self.holds_at(i, key),
            |key: Seq<Part>| self.entries[choose|i: int| self.holds_at(i, key)].value,
        )
    }
}

impl<V> PathMap<V> {
    /// The entry `i` is for `key`.
    spec fn holds_at(&self, i: int, key: Seq<Part>) -> bool {
        0 <= i < self.entries.len() && self.entries[i].key@ == key
    }

    /// No path occurs twice.
    pub closed spec fn wf(&self) -> bool {
        forall|i: int, j: int|
            0 <= i < self.entries.len() && 0 <= j < self.entries.len() && (
            #[trigger] self.entries[i]).key@ == (#[trigger] self.entries[j]).key@ ==> i == j
    }

    proof fn lemma_entry(&self, i: int)
        requires
            self.wf(),
            0 <= i < self.entries.len(),
        ensures
            self@.dom().contains(self.entries[i].key@),
            self@[self.entries[i].key@] == self.entries[i].value,
    {
        assert(self.holds_at(i, self.entries[i].key@));
    }

    proof fn lemma_found(&self, key: Seq<Part>) -> (i: int)
        requires
            self@.dom().contains(key),
        ensures
            self.holds_at(i, key),
    {
        choose|i: int| self.holds_at(i, key)
    }

    /// A map that holds nothing.
    pub fn new() -> (map: PathMap<V>)
        ensures
            map.wf(),
            map@ == Map::<Seq<Part>, V>::empty(),
    {
        let map = PathMap { entries: Vec::new() };
        assert(map@ =~= Map::<Seq<Part>, V>::empty());
        map
    }

    /// Where the entry for `key` is.
    fn position(&self, key: &FsPath) -> (at: Option<usize>)
        requires
            self.wf(),
        ensures
            match at {
                Some(i) => self.holds_at(i as int, key@),
                None => !self@.dom().contains(key@),
            },
    {
        for i in 0..self.entries.len()
            invariant
                forall|j: int| 0 <= j < i ==> (#[trigger] self.entries[j]).key@ != key@,
        {
            if self.entries[i].key.same(key) {
                return Some(i);
            }
        }
        None
    }

    /// What `key` stands for.
    pub fn get(&self, key: &FsPath) -> (value: Option<&V>)
        requires
            self.wf(),
        ensures
            match value {
                Some(v) => self@.dom().contains(key@) && *v == self@[key@],
                None => !self@.dom().contains(key@),
            },
    {
        match self.position(key) {
            Some(i) => {
                proof {
                    self.lemma_entry(i as int);
                }
                Some(&self.entries[i].value)
            },
            None => None,
        }
    }

    /// Takes out what `key` stands for.
    pub fn remove(&mut self, key: &FsPath) -> (value: Option<V>)
        requires
            old(self).wf(),
        ensures
            final(self).wf(),
            final(self)@ == old(self)@.remove(key@),
            match value {
                Some(v) => old(self)@.dom().contains(key@) && v == old(self)@[key@],
                None => !old(self)@.dom().contains(key@),
            },
    {
        match self.position(key) {
            Some(at) => {
                let ghost before = *self;
                proof {
                    self.lemma_entry(at as int);
                }
                let entry = self.entries.remove(at);
                proof {
                    let after = *self;
                    assert(after.entries@ == before.entries@.remove(at as int));
                    assert forall|k: Seq<Part>| #[trigger] after@.dom().contains(k) implies k != key@
                        && before@.dom().contains(k) && after@[k] == before@[k] by {
                        let i = after.lemma_found(k);
                        after.lemma_entry(i);
                        let j = if i < at {
                            i
                        } else {
                            i + 1
                        };
                        assert(before.entries[j] == after.entries[i]);
                        before.lemma_entry(j);
                    }
                    assert forall|k: Seq<Part>|
                        #[trigger] before@.dom().contains(k) && k != key@ implies after@.dom().contains(k) by {
                        let j = before.lemma_found(k);
                        let i = if j < at {
                            j
                        } else {
                            j - 1
                        };
                        assert(before.entries[j] == after.entries[i]);
                        after.lemma_entry(i);
                    }
                    assert(after@.dom() =~= before@.remove(key@).dom());
                    assert(after@ =~= before@.remove(key@));
                }
                Some(entry.value)
            },
            None => {
                assert(self@.remove(key@) =~= self@);
                None
            },
        }
    }

    /// Lets `key`, which stood for nothing, stand for `value`.
    pub fn insert_new(&mut self, key: FsPath, value: V)
        requires
            old(self).wf(),
            !old(self)@.dom().contains(key@),
        ensures
            final(self).wf(),
            final(self)@ == old(self)@.insert(key@, value),
    {
        let ghost before = *self;
        let ghost entry = PathEntry { key, value };
        self.entries.push(PathEntry { key, value });
        proof {
            let after = *self;
            assert forall|i: int| 0 <= i < before.entries.len() implies (
            #[trigger] after.entries[i]).key@ != key@ by {
                assert(after.entries[i] == before.entries[i]);
                before.lemma_entry(i);
            }
            assert(after.wf());
            after.lemma_entry(before.entries.len() as int);
            assert forall|k: Seq<Part>| #[trigger] after@.dom().contains(k) && k != key@ implies
                before@.dom().contains(k) && after@[k] == before@[k] by {
                let i = after.lemma_found(k);
                after.lemma_entry(i);
                assert(before.entries[i] == after.entries[i]);
                before.lemma_entry(i);
            }
            assert forall|k: Seq<Part>| #[trigger] before@.dom().contains(k) implies after@.dom().contains(
                k,
            ) by {
                let i = before.lemma_found(k);
                assert(before.entries[i] == after.entries[i]);
                after.lemma_entry(i);
            }
            assert(after@.dom() =~= before@.insert(key@, value).dom());
            assert(after@ =~= before@.insert(key@, value));
        }
    }

    /// Lets `key` stand for `value`, and gives back what it stood for.
    pub fn insert(&mut self, key: FsPath, value: V) -> (before: Option<V>)
        requires
            old(self).wf(),
        ensures
            final(self).wf(),
            final(self)@ == old(self)@.insert(key@, value),
            match before {
                Some(v) => old(self)@.dom().contains(key@) && v == old(self)@[key@],
                None => !old(self)@.dom().contains(key@),
            },
    {
        let before = self.remove(&key);
        self.insert_new(key, value);
        assert(self@ =~= old(self)@.insert(key@, value));
        before
    }
}

} // verus!
