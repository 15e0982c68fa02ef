use vstd::prelude::*;

verus! {

/// A map keyed by names that keeps its keys in the order they were first
/// inserted. Each name occurs at most once.
#[derive(Debug)]
pub struct Table<V> {
    names: Vec<String>,
    vals: Vec<V>,
}

impl<V> Table<V> {
    /// The names, in insertion order.
    pub closed spec fn keys(&self) -> Seq<Seq<char>> {
        self.names@.map_values(|s: String| s@)
    }

    /// The values, position by position with `keys`.
    pub closed spec fn values(&self) -> Seq<V> {
        self.vals@
    }

    pub open spec fn wf(&self) -> bool {
        &&& self.keys().len() == self.values().len()
        &&& self.keys().no_duplicates()
    }

    /// The table as a map from names to values.
    pub open spec fn view(&self) -> Map<Seq<char>, V> {
        Map::new(
            |k: Seq<char>| self.keys().contains(k),
            |k: Seq<char>| self.values()[self.keys().index_of(k)],
        )
    }

    /// Each name of a well-formed table maps to the value at its position.
    pub proof fn lemma_view(&self)
        requires
            self.wf(),
        ensures
            forall|i: int|
                0 <= i < self.keys().len() ==> {
                    &&& #[trigger] self@.contains_key(self.keys()[i])
                    &&& self@[self.keys()[i]] == self.values()[i]
                },
            forall|k: Seq<char>| #[trigger] self@.contains_key(k) <==> self.keys().contains(k),
    {
        assert forall|i: int| 0 <= i < self.keys().len() implies {
            &&& #[trigger] self@.contains_key(self.keys()[i])
            &&& self@[self.keys()[i]] == self.values()[i]
        } by {
            let k = self.keys()[i];
            assert(self.keys().contains(k));
            let j = self.keys().index_of(k);
            assert(0 <= j < self.keys().len() && self.keys()[j] == k);
        }
    }

    pub fn new() -> (t: Table<V>)
        ensures
            t.wf(),
            t.keys() == Seq::<Seq<char>>::empty(),
            t.values() == Seq::<V>::empty(),
            t@ == Map::<Seq<char>, V>::empty(),
    {
        let t = Table { names: Vec::new(), vals: Vec::new() };
        assert(t.keys() =~= Seq::<Seq<char>>::empty());
        assert(t@ =~= Map::<Seq<char>, V>::empty());
        t
    }

    pub fn len(&self) -> (n: usize)
        requires
            self.wf(),
        ensures
            n == self.keys().len(),
    {
        self.names.len()
    }

    /// The name at position `i`.
    pub fn name_at(&self, i: usize) -> (r: &String)
        requires
            self.wf(),
            i < self.keys().len(),
        ensures
            r@ == self.keys()[i as int],
    {
        &self.names[i]
    }

    /// The value at position `i`.
    pub fn value_at(&self, i: usize) -> (r: &V)
        requires
            self.wf(),
            i < self.keys().len(),
        ensures
            *r == self.values()[i as int],
    {
        &self.vals[i]
    }

    /// Where `k` stands among the names, if it is one of them.
    pub fn position(&self, k: &String) -> (r: Option<usize>)
        requires
            self.wf(),
        ensures
            match r {
                Some(i) => i < self.keys().len() && self.keys()[i as int] == k@,
                None => !self.keys().contains(k@),
            },
    {
        let mut i: usize = 0;
        while i < self.names.len()
            invariant
                self.wf(),
                i <= self.names@.len(),
                forall|j: int| 0 <= j < i ==> self.keys()[j] != k@,
            decreases self.names@.len() - i,
        {
            if self.names[i] == *k {
                return Some(i);
            }
            i += 1;
        }
        None
    }

    pub fn contains(&self, k: &String) -> (r: bool)
        requires
            self.wf(),
        ensures
            r == self@.contains_key(k@),
    {
        self.position(k).is_some()
    }

    /// The value stored under `k`.
    pub fn get(&self, k: &String) -> (r: Option<&V>)
        requires
            self.wf(),
        ensures
            match r {
                Some(v) => self@.contains_key(k@) && *v == self@[k@],
                None => !self@.contains_key(k@),
            },
    {
        proof {
            self.lemma_view();
        }
        match self.position(k) {
            Some(i) => Some(&self.vals[i]),
            None => None,
        }
    }

    /// Stores `v` under `k`: in place when `k` is already a name, else at the end.
    pub fn insert(&mut self, k: String, v: V)
        requires
            old(self).wf(),
        ensures
            final(self).wf(),
            final(self)@ == old(self)@.insert(k@, v),
            final(self).keys() == if old(self).keys().contains(k@) {
                old(self).keys()
            } else {
                old(self).keys().push(k@)
            },
    {
        proof {
            self.lemma_view();
        }
        let ghost old_t = *self;
        match self.position(&k) {
            Some(i) => {
                self.vals.set(i, v);
                proof {
                    assert(self.keys() =~= old_t.keys());
                    self.lemma_view();
                    assert(self@ =~= old_t@.insert(k@, v));
                }
            },
            None => {
                self.names.push(k);
                self.vals.push(v);
                proof {
                    assert(self.keys() =~= old_t.keys().push(k@));
                    assert(self.keys().no_duplicates());
                    self.lemma_view();
                    assert forall|key: Seq<char>| self.keys().contains(key) <==> (
                        old_t.keys().contains(key) || key == k@) by {
                        if self.keys().contains(key) {
                            let j = choose|j: int| 0 <= j < self.keys().len() && self.keys()[j] == key;
                            if j < old_t.keys().len() {
                                assert(old_t.keys()[j] == key);
                            }
                        }
                        if old_t.keys().contains(key) {
                            let j = choose|j: int| 0 <= j < old_t.keys().len() && old_t.keys()[j] == key;
                            assert(self.keys()[j] == key);
                        }
                        if key == k@ {
                            assert(self.keys()[self.keys().len() - 1] == key);
                        }
                    }
                    assert forall|key: Seq<char>| #[trigger] old_t@.contains_key(key) && key != k@
                        implies self@[key] == old_t@[key] by {
                        let j = old_t.keys().index_of(key);
                        assert(self.keys()[j] == key);
                    }
                    assert(self@[k@] == v) by {
                        assert(self.keys()[self.keys().len() - 1] == k@);
                    }
                    assert(self@ =~= old_t@.insert(k@, v));
                }
            },
        }
    }

    /// Takes `k` and its value out of the table; the other names keep their order.
    pub fn remove(&mut self, k: &String) -> (r: Option<V>)
        requires
            old(self).wf(),
        ensures
            final(self).wf(),
            final(self)@ == old(self)@.remove(k@),
            r == if old(self)@.contains_key(k@) {
                Some(old(self)@[k@])
            } else {
                None::<V>
            },
    {
        proof {
            self.lemma_view();
        }
        let ghost old_t = *self;
        match self.position(k) {
            Some(i) => {
                self.names.remove(i);
                let v = self.vals.remove(i);
                proof {
                    assert(self.keys() =~= old_t.keys().remove(i as int));
                    assert forall|a: int, b: int|
                        0 <= a < self.keys().len() && 0 <= b < self.keys().len() && a != b
                        implies self.keys()[a] != self.keys()[b] by {
                        let a2 = if a < i { a } else { a + 1 };
                        let b2 = if b < i { b } else { b + 1 };
                        assert(self.keys()[a] == old_t.keys()[a2]);
                        assert(self.keys()[b] == old_t.keys()[b2]);
                    }
                    self.lemma_view();
                    assert forall|key: Seq<char>| #[trigger] self@.contains_key(key) <==> (
                        old_t@.contains_key(key) && key != k@) by {
                        if self.keys().contains(key) {
                            let j = choose|j: int| 0 <= j < self.keys().len() && self.keys()[j] == key;
                            let j2 = if j < i { j } else { j + 1 };
                            assert(old_t.keys()[j2] == key);
                        }
                        if old_t.keys().contains(key) && key != k@ {
                            let j = choose|j: int| 0 <= j < old_t.keys().len() && old_t.keys()[j] == key;
                            assert(j != i);
                            let j2 = if j < i { j } else { j - 1 };
                            assert(self.keys()[j2] == key);
                        }
                    }
                    assert forall|key: Seq<char>| #[trigger] self@.contains_key(key)
                        implies self@[key] == old_t@[key] by {
                        let j = self.keys().index_of(key);
                        let j2 = if j < i { j } else { j + 1 };
                        assert(old_t.keys()[j2] == key);
                    }
                    assert(self@ =~= old_t@.remove(k@));
                    assert(old_t@[k@] == v);
                }
                Some(v)
            },
            None => {
                assert(old_t@.remove(k@) =~= old_t@);
                None
            },
        }
    }
}

} // verus!
