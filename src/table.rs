use vstd::prelude::*;

verus! {

/// A mapping from string names to values, with at most one entry per name.
#[derive(Debug)]
pub struct Table<V> {
    entries: Vec<(String, V)>,
}

impl<V> Table<V> {
    /// No two entries share a name.
    pub closed spec fn wf(&self) -> bool {
        forall|i: int, j: int|
            0 <= i < self.entries@.len() && 0 <= j < self.entries@.len() && i != j
                ==> self.entries@[i].0@ != self.entries@[j].0@
    }

    spec fn holds(&self, k: Seq<char>) -> bool {
        exists|i: int| 0 <= i < self.entries@.len() && self.entries@[i].0@ == k
    }

    spec fn position(&self, k: Seq<char>) -> int {
        choose|i: int| 0 <= i < self.entries@.len() && self.entries@[i].0@ == k
    }

    /// The number of entries.
    pub closed spec fn size(&self) -> nat {
        self.entries@.len()
    }

    /// The name of the entry at index `i`.
    pub closed spec fn key_at(&self, i: int) -> Seq<char> {
        self.entries@[i].0@
    }

    pub closed spec fn view(&self) -> Map<Seq<char>, V> {
        Map::new(|k: Seq<char>| self.holds(k), |k: Seq<char>| self.entries@[self.position(k)].1)
    }

    proof fn lemma_entry(&self, i: int)
        requires
            0 <= i < self.entries@.len(),
            self.wf(),
        ensures
            self.view().contains_key(self.entries@[i].0@),
            self.view()[self.entries@[i].0@] == self.entries@[i].1,
    {
        let k = self.entries@[i].0@;
        assert(self.holds(k));
        let p = self.position(k);
        assert(p == i);
    }

    /// Every name in the table is the name of some entry.
    pub proof fn lemma_key_index(&self, k: Seq<char>)
        requires
            self.view().contains_key(k),
        ensures
            exists|i: int| 0 <= i < self.size() && #[trigger] self.key_at(i) == k,
    {
        let i = self.position(k);
        assert(self.key_at(i) == k);
    }

    pub fn new() -> (t: Table<V>)
        ensures
            t.wf(),
            t.view() == Map::<Seq<char>, V>::empty(),
            t.size() == 0,
    {
        let t = Table { entries: Vec::new() };
        assert(t.view() =~= Map::<Seq<char>, V>::empty());
        t
    }

    pub fn len(&self) -> (n: usize)
        ensures
            n == self.size(),
    {
        self.entries.len()
    }

    /// The index of the entry named `key`, if there is one.
    pub fn find(&self, key: &String) -> (r: Option<usize>)
        requires
            self.wf(),
        ensures
            r is None <==> !self.view().contains_key(key@),
            r matches Some(i) ==> i < self.size() && self.key_at(i as int) == key@,
    {
        let mut i: usize = 0;
        while i < self.entries.len()
            invariant
                self.wf(),
                0 <= i <= self.entries@.len(),
                forall|j: int| 0 <= j < i ==> self.entries@[j].0@ != key@,
            decreases self.entries@.len() - i,
        {
            if self.entries[i].0 == *key {
                proof {
                    self.lemma_entry(i as int);
                }
                return Some(i);
            }
            i = i + 1;
        }
        None
    }

    pub fn key(&self, i: usize) -> (k: &String)
        requires
            i < self.size(),
        ensures
            k@ == self.key_at(i as int),
    {
        &self.entries[i].0
    }

    /// The value of the entry at index `i`.
    pub fn value(&self, i: usize) -> (v: &V)
        requires
            self.wf(),
            i < self.size(),
        ensures
            self.view().contains_key(self.key_at(i as int)),
            *v == self.view()[self.key_at(i as int)],
    {
        proof {
            self.lemma_entry(i as int);
        }
        &self.entries[i].1
    }

    /// The value stored under `key`, if any.
    pub fn get(&self, key: &String) -> (r: Option<&V>)
        requires
            self.wf(),
        ensures
            r is None <==> !self.view().contains_key(key@),
            r matches Some(v) ==> *v == self.view()[key@],
    {
        match self.find(key) {
            Some(i) => Some(self.value(i)),
            None => None,
        }
    }

    /// Stores `value` under `key`, replacing any value stored there before.
    pub fn insert(&mut self, key: String, value: V)
        requires
            old(self).wf(),
        ensures
            final(self).wf(),
            final(self).view() == old(self).view().insert(key@, value),
    {
        match self.find(&key) {
            Some(i) => {
                let ghost v = value;
                self.entries.set(i, (key, value));
                proof {
                    Table::lemma_put(old(self), self, i as int, v);
                }
            },
            None => {
                let ghost v = value;
                self.entries.push((key, value));
                proof {
                    Table::lemma_put(old(self), self, self.entries@.len() - 1, v);
                }
            },
        }
    }

    /// Writing the entry at index `i` (in place, or at the end where the name
    /// is new) stores its value under its name and leaves the rest alone.
    proof fn lemma_put(before: &Table<V>, after: &Table<V>, i: int, v: V)
        requires
            before.wf(),
            after.wf(),
            0 <= i < after.entries@.len(),
            after.entries@[i].1 == v,
            forall|j: int|
                0 <= j < after.entries@.len() && j != i ==> j < before.entries@.len()
                    && after.entries@[j] == before.entries@[j],
            before.entries@.len() <= after.entries@.len(),
            i < before.entries@.len() ==> before.entries@[i].0@ == after.entries@[i].0@,
            i >= before.entries@.len() ==> !before.view().contains_key(after.entries@[i].0@),
        ensures
            after.view() == before.view().insert(after.entries@[i].0@, v),
    {
        let k = after.entries@[i].0@;
        let expected = before.view().insert(k, v);
        after.lemma_entry(i);
        assert forall|x: Seq<char>| #[trigger] after.view().contains_key(x) == expected.contains_key(x) by {
            if after.holds(x) {
                let j = after.position(x);
                if j != i {
                    before.lemma_entry(j);
                }
            }
            if before.view().contains_key(x) && x != k {
                let j = before.position(x);
                after.lemma_entry(j);
            }
        }
        assert forall|x: Seq<char>| #[trigger] after.view().contains_key(x) implies after.view()[x] == expected[x] by {
            let j = after.position(x);
            after.lemma_entry(j);
            if j != i {
                before.lemma_entry(j);
            }
        }
        assert(after.view() =~= expected);
    }

    /// Removes the entry named `key`; a no-op if there is none.
    pub fn remove(&mut self, key: &String)
        requires
            old(self).wf(),
        ensures
            final(self).wf(),
            final(self).view() == old(self).view().remove(key@),
    {
        let ghost k = key@;
        let ghost before = self.view();
        match self.find(key) {
            Some(i) => {
                let _ = self.entries.remove(i);
                proof {
                    assert forall|x: Seq<char>| #[trigger] self.view().contains_key(x) == before.remove(k).contains_key(x) by {
                        if self.holds(x) {
                            let j = self.position(x);
                            if j < i {
                                old(self).lemma_entry(j);
                            } else {
                                old(self).lemma_entry(j + 1);
                            }
                        }
                        if before.contains_key(x) && x != k {
                            let j = old(self).position(x);
                            if j < i {
                                self.lemma_entry(j);
                            } else {
                                self.lemma_entry(j - 1);
                            }
                        }
                    }
                    assert forall|x: Seq<char>| #[trigger] self.view().contains_key(x) implies self.view()[x] == before.remove(k)[x] by {
                        let j = self.position(x);
                        self.lemma_entry(j);
                        if j < i {
                            old(self).lemma_entry(j);
                        } else {
                            old(self).lemma_entry(j + 1);
                        }
                    }
                    assert(self.view() =~= before.remove(k));
                }
            },
            None => {
                assert(self.view() =~= before.remove(k));
            },
        }
    }
}

} // verus!
