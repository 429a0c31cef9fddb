use vstd::prelude::*;

verus! {

/// Rows keyed by a text primary key, as one table of the store holds them.
pub struct Table<V> {
    keys: Vec<String>,
    vals: Vec<V>,
    map: Ghost<Map<Seq<char>, V>>,
}

impl<V> Table<V> {
    /// The rows, by key.
    pub closed spec fn view(&self) -> Map<Seq<char>, V> {
        self.map@
    }

    pub closed spec fn wf(&self) -> bool {
        &&& self.keys@.len() == self.vals@.len()
        &&& forall|i: int, j: int|
            0 <= i < j < self.keys@.len() ==> self.keys@[i]@ != self.keys@[j]@
        &&& forall|i: int|
            0 <= i < self.keys@.len() ==> #[trigger] self.map@.contains_key(self.keys@[i]@)
                && self.map@[self.keys@[i]@] == self.vals@[i]
        &&& forall|k: Seq<char>|
            #[trigger] self.map@.contains_key(k) ==> exists|i: int|
                0 <= i < self.keys@.len() && self.keys@[i]@ == k
    }

    /// The number of rows.
    pub closed spec fn spec_len(&self) -> nat {
        self.keys@.len()
    }

    /// The key of the row at `i`, in the table's storage order.
    pub closed spec fn key_at(&self, i: int) -> Seq<char> {
        self.keys@[i]@
    }

    /// Every stored row sits at some position.
    pub proof fn lemma_positions(&self)
        requires
            self.wf(),
        ensures
            forall|k: Seq<char>|
                #[trigger] self@.contains_key(k) ==> exists|i: int|
                    0 <= i < self.spec_len() && self.key_at(i) == k,
            forall|i: int| 0 <= i < self.spec_len() ==> #[trigger] self@.contains_key(self.key_at(i)),
            self@.dom().finite(),
            self@.dom().len() == self.spec_len(),
    {
        let keys = Seq::new(self.keys@.len(), |i: int| self.keys@[i]@);
        assert forall|k: Seq<char>| #[trigger] self@.contains_key(k) implies exists|i: int|
            0 <= i < self.spec_len() && self.key_at(i) == k by {
            let i = choose|i: int| 0 <= i < self.keys@.len() && self.keys@[i]@ == k;
            assert(self.key_at(i) == k);
        }
        assert forall|i: int| 0 <= i < self.spec_len() implies #[trigger] self@.contains_key(
            self.key_at(i),
        ) by {
            assert(self.map@.contains_key(self.keys@[i]@));
        }
        assert(keys.no_duplicates());
        keys.unique_seq_to_set();
        assert forall|k: Seq<char>| self@.dom().contains(k) <==> keys.to_set().contains(k) by {
            if self@.dom().contains(k) {
                let i = choose|i: int| 0 <= i < self.keys@.len() && self.keys@[i]@ == k;
                assert(keys[i] == k);
            }
            if keys.to_set().contains(k) {
                let i = choose|i: int| 0 <= i < keys.len() && keys[i] == k;
                assert(self.map@.contains_key(self.keys@[i]@));
            }
        }
        assert(self@.dom() =~= keys.to_set());
    }

    pub fn new() -> (r: Self)
        ensures
            r.wf(),
            r@ == Map::<Seq<char>, V>::empty(),
    {
        Table { keys: Vec::new(), vals: Vec::new(), map: Ghost(Map::empty()) }
    }

    fn position(&self, key: &String) -> (r: Option<usize>)
        requires
            self.wf(),
        ensures
            match r {
                Some(i) => i < self.keys@.len() && self.keys@[i as int]@ == key@,
                None => !self@.contains_key(key@),
            },
    {
        let mut i: usize = 0;
        while i < self.keys.len()
            invariant
                self.wf(),
                i <= self.keys@.len(),
                forall|j: int| 0 <= j < i ==> self.keys@[j]@ != key@,
            decreases self.keys@.len() - i,
        {
            if self.keys[i] == *key {
                return Some(i);
            }
            i = i + 1;
        }
        None
    }

    /// The row stored under `key`.
    pub fn get(&self, key: &String) -> (r: Option<&V>)
        requires
            self.wf(),
        ensures
            match r {
                Some(v) => self@.contains_key(key@) && *v == self@[key@],
                None => !self@.contains_key(key@),
            },
    {
        match self.position(key) {
            Some(i) => {
                assert(self.map@.contains_key(self.keys@[i as int]@));
                Some(&self.vals[i])
            },
            None => None,
        }
    }

    /// The number of rows.
    pub fn len(&self) -> (r: usize)
        ensures
            r == self.spec_len(),
    {
        self.keys.len()
    }

    /// The row at position `i` of the storage order, with its key.
    pub fn entry_at(&self, i: usize) -> (r: (&String, &V))
        requires
            self.wf(),
            i < self.spec_len(),
        ensures
            r.0@ == self.key_at(i as int),
            self@.contains_key(r.0@),
            *r.1 == self@[r.0@],
    {
        (&self.keys[i], &self.vals[i])
    }

    /// Stores `v` under `key` unless a row is there already; says whether it did.
    pub fn insert_if_absent(&mut self, key: String, v: V) -> (applied: bool)
        requires
            old(self).wf(),
        ensures
            final(self).wf(),
            applied == !old(self)@.contains_key(key@),
            final(self)@ == if applied {
                old(self)@.insert(key@, v)
            } else {
                old(self)@
            },
    {
        match self.position(&key) {
            Some(_) => false,
            None => {
                proof {
                    self.map@ = self.map@.insert(key@, v);
                }
                self.keys.push(key);
                self.vals.push(v);
                assert forall|k: Seq<char>| #[trigger] self.map@.contains_key(k) implies exists|
                    i: int,
                | 0 <= i < self.keys@.len() && self.keys@[i]@ == k by {
                    if k == key@ {
                        assert(self.keys@[self.keys@.len() - 1]@ == k);
                    } else {
                        assert(old(self).map@.contains_key(k));
                        let i = choose|i: int|
                            0 <= i < old(self).keys@.len() && old(self).keys@[i]@ == k;
                        assert(self.keys@[i] == old(self).keys@[i]);
                    }
                }
                true
            },
        }
    }

    /// Stores `v` under `key`, replacing any row there.
    pub fn upsert(&mut self, key: String, v: V)
        requires
            old(self).wf(),
        ensures
            final(self).wf(),
            final(self)@ == old(self)@.insert(key@, v),
    {
        match self.position(&key) {
            Some(i) => {
                proof {
                    self.map@ = self.map@.insert(key@, v);
                }
                self.vals.set(i, v);
                assert forall|k: Seq<char>| #[trigger] self.map@.contains_key(k) implies exists|
                    j: int,
                | 0 <= j < self.keys@.len() && self.keys@[j]@ == k by {
                    if k == key@ {
                        assert(self.keys@[i as int]@ == k);
                    } else {
                        assert(old(self).map@.contains_key(k));
                        let j = choose|j: int|
                            0 <= j < old(self).keys@.len() && old(self).keys@[j]@ == k;
                        assert(self.keys@[j] == old(self).keys@[j]);
                    }
                }
            },
            None => {
                self.insert_if_absent(key, v);
            },
        }
    }

    /// Removes the row at position `i` of the storage order; the rows before it keep
    /// their positions.
    pub fn remove_at(&mut self, i: usize)
        requires
            old(self).wf(),
            i < old(self).spec_len(),
        ensures
            final(self).wf(),
            final(self)@ == old(self)@.remove(old(self).key_at(i as int)),
            final(self).spec_len() == old(self).spec_len() - 1,
            forall|j: int| 0 <= j < i ==> final(self).key_at(j) == old(self).key_at(j),
    {
        let ghost key = self.keys@[i as int]@;
        let ghost old_keys = self.keys@;
        let ghost old_vals = self.vals@;
        proof {
            self.map@ = self.map@.remove(key);
        }
        self.keys.remove(i);
        self.vals.remove(i);
        assert forall|a: int, b: int|
            0 <= a < b < self.keys@.len() implies self.keys@[a]@ != self.keys@[b]@ by {
            let oa = if a < i { a } else { a + 1 };
            let ob = if b < i { b } else { b + 1 };
            assert(self.keys@[a] == old_keys[oa] && self.keys@[b] == old_keys[ob]);
        }
        assert forall|j: int| 0 <= j < self.keys@.len() implies #[trigger] self.map@.contains_key(
            self.keys@[j]@,
        ) && self.map@[self.keys@[j]@] == self.vals@[j] by {
            let oj = if j < i { j } else { j + 1 };
            assert(self.keys@[j] == old_keys[oj] && self.vals@[j] == old_vals[oj]);
            assert(old(self).map@.contains_key(old_keys[oj]@));
        }
        assert forall|k: Seq<char>| #[trigger] self.map@.contains_key(k) implies exists|j: int|
            0 <= j < self.keys@.len() && self.keys@[j]@ == k by {
            assert(old(self).map@.contains_key(k));
            let oj = choose|oj: int| 0 <= oj < old_keys.len() && old_keys[oj]@ == k;
            if oj < i {
                assert(self.keys@[oj] == old_keys[oj]);
            } else {
                assert(self.keys@[oj - 1] == old_keys[oj]);
            }
        }
    }
}

} // verus!
