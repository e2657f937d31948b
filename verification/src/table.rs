//! A string-keyed table: the maps that the zome hands back to its callers
//! (agent message lists, message bundles, receipts, pins and files) are
//! all keyed by the printed form of a hash.

use vstd::prelude::*;

verus! {

/// A map from strings to values, kept as a list of distinct keys with their
/// values. Its model is a `Map` from the key's characters to the value's view.
pub struct Table<V: View> {
    entries: Vec<(String, V)>,
    contents: Ghost<Map<Seq<char>, V::V>>,
}

impl<V: View> View for Table<V> {
    type V = Map<Seq<char>, V::V>;

    closed spec fn view(&self) -> Map<Seq<char>, V::V> {
        self.contents@
    }
}

impl<V: View> Table<V> {
    /// The keys of `entries` are distinct, every key is in `m` with its value's
    /// view, and `m` has no other key.
    spec fn lists(entries: Seq<(String, V)>, m: Map<Seq<char>, V::V>) -> bool {
        &&& forall|i: int, j: int|
            #![trigger entries[i], entries[j]]
            0 <= i < j < entries.len() ==> entries[i].0@ != entries[j].0@
        &&& forall|i: int|
            #![trigger entries[i]]
            0 <= i < entries.len() ==> {
                &&& m.contains_key(entries[i].0@)
                &&& m[entries[i].0@] == entries[i].1@
            }
        &&& forall|k: Seq<char>|
            #![trigger m.contains_key(k)]
            m.contains_key(k) ==> exists|i: int| 0 <= i < entries.len() && #[trigger] entries[i].0@ == k
    }

    /// The entries list exactly what the model holds.
    #[verifier::type_invariant]
    spec fn inv(self) -> bool {
        Self::lists(self.entries@, self.contents@)
    }

    /// The entries of the table, in the order in which their keys were first inserted.
    pub closed spec fn pairs(&self) -> Seq<(String, V)> {
        self.entries@
    }

    /// An empty table.
    pub fn new() -> (t: Self)
        ensures
            t@ == Map::<Seq<char>, V::V>::empty(),
    {
        Table { entries: Vec::new(), contents: Ghost(Map::empty()) }
    }

    /// The number of keys.
    pub fn len(&self) -> (n: usize)
        ensures
            n == self@.len(),
    {
        proof {
            use_type_invariant(self);
            self.lemma_len();
        }
        self.entries.len()
    }

    proof fn lemma_len(&self)
        requires
            self.inv(),
        ensures
            self@.dom().finite(),
            self@.len() == self.entries@.len(),
        decreases self.entries@.len(),
    {
        let keys = self.entries@.map_values(|e: (String, V)| e.0@);
        assert(keys.no_duplicates()) by {
            assert forall|i: int, j: int| 0 <= i < keys.len() && 0 <= j < keys.len() && i != j
                implies keys[i] != keys[j] by {
                if i < j {
                    assert(self.entries@[i].0@ != self.entries@[j].0@);
                } else {
                    assert(self.entries@[j].0@ != self.entries@[i].0@);
                }
            }
        }
        assert(self@.dom() =~= keys.to_set()) by {
            assert forall|k: Seq<char>| self@.dom().contains(k) implies keys.to_set().contains(k) by {
                let i = choose|i: int| 0 <= i < self.entries@.len() && #[trigger] self.entries@[i].0@ == k;
                assert(keys[i] == k);
            }
            assert forall|k: Seq<char>| keys.to_set().contains(k) implies self@.dom().contains(k) by {
                let i = choose|i: int| 0 <= i < keys.len() && keys[i] == k;
                assert(self.entries@[i].0@ == k);
            }
        }
        keys.unique_seq_to_set();
    }

    fn find(&self, k: &String) -> (r: Option<usize>)
        ensures
            match r {
                Some(i) => i < self.entries@.len() && self.entries@[i as int].0@ == k@,
                None => !self@.contains_key(k@),
            },
    {
        proof {
            use_type_invariant(self);
        }
        let n = self.entries.len();
        let mut i: usize = 0;
        while i < n
            invariant
                n == self.entries@.len(),
                i <= n,
                forall|j: int| 0 <= j < i ==> self.entries@[j].0@ != k@,
            decreases n - i,
        {
            if self.entries[i].0 == *k {
                return Some(i);
            }
            i = i + 1;
        }
        proof {
            if self@.contains_key(k@) {
                let j = choose|j: int| 0 <= j < self.entries@.len() && #[trigger] self.entries@[j].0@ == k@;
                assert(self.entries@[j].0@ != k@);
            }
        }
        None
    }

    /// Whether `k` is a key of the table.
    pub fn contains_key(&self, k: &String) -> (b: bool)
        ensures
            b == self@.contains_key(k@),
    {
        proof {
            use_type_invariant(self);
        }
        match self.find(k) {
            Some(i) => {
                proof {
                    assert(self.entries@[i as int].0@ == k@);
                }
                true
            },
            None => false,
        }
    }

    /// The value stored under `k`, if any.
    pub fn get(&self, k: &String) -> (r: Option<&V>)
        ensures
            match r {
                Some(v) => self@.contains_key(k@) && v@ == self@[k@],
                None => !self@.contains_key(k@),
            },
    {
        proof {
            use_type_invariant(self);
        }
        match self.find(k) {
            Some(i) => Some(&self.entries[i].1),
            None => None,
        }
    }

    /// Stores `v` under `k`, replacing what was stored there.
    pub fn insert(&mut self, k: String, v: V)
        ensures
            final(self)@ == old(self)@.insert(k@, v@),
    {
        proof {
            use_type_invariant(&*self);
        }
        let found = self.find(&k);
        let mut t: Table<V> = Table::new();
        std::mem::swap(&mut t, self);
        proof {
            use_type_invariant(&t);
        }
        let ghost old_entries = t.entries@;
        let ghost old_map = t.contents@;
        let ghost new_map = old_map.insert(k@, v@);
        let Table { entries, contents: _ } = t;
        let mut entries = entries;
        match found {
            Some(i) => {
                entries.set(i, (k, v));
                proof {
                    assert forall|j: int| 0 <= j < entries@.len() implies {
                        &&& #[trigger] new_map.contains_key(entries@[j].0@)
                        &&& new_map[entries@[j].0@] == entries@[j].1@
                    } by {
                        if j != i {
                            assert(old_entries[j] == entries@[j]);
                            if j < i {
                                assert(old_entries[j].0@ != old_entries[i as int].0@);
                            } else {
                                assert(old_entries[i as int].0@ != old_entries[j].0@);
                            }
                        }
                    }
                    assert forall|a: int, b: int|
                        0 <= a < b < entries@.len() implies #[trigger] entries@[a].0@
                        != #[trigger] entries@[b].0@ by {
                        assert(old_entries[a].0@ != old_entries[b].0@);
                    }
                    assert forall|key: Seq<char>| #[trigger] new_map.contains_key(key)
                        implies exists|j: int|
                        0 <= j < entries@.len() && #[trigger] entries@[j].0@ == key by {
                        if key == k@ {
                            assert(entries@[i as int].0@ == key);
                        } else {
                            let j = choose|j: int|
                                0 <= j < old_entries.len() && #[trigger] old_entries[j].0@ == key;
                            assert(entries@[j].0@ == key);
                        }
                    }
                }
            },
            None => {
                entries.push((k, v));
                proof {
                    let n: int = old_entries.len() as int;
                    assert forall|j: int| 0 <= j < entries@.len() implies {
                        &&& #[trigger] new_map.contains_key(entries@[j].0@)
                        &&& new_map[entries@[j].0@] == entries@[j].1@
                    } by {
                        if j < n {
                            assert(old_entries[j] == entries@[j]);
                            assert(old_map.contains_key(old_entries[j].0@));
                        }
                    }
                    assert forall|a: int, b: int|
                        0 <= a < b < entries@.len() implies #[trigger] entries@[a].0@
                        != #[trigger] entries@[b].0@ by {
                        if b < n {
                            assert(old_entries[a].0@ != old_entries[b].0@);
                        } else {
                            assert(old_map.contains_key(old_entries[a].0@));
                        }
                    }
                    assert forall|key: Seq<char>| #[trigger] new_map.contains_key(key)
                        implies exists|j: int|
                        0 <= j < entries@.len() && #[trigger] entries@[j].0@ == key by {
                        if key == k@ {
                            assert(entries@[n].0@ == key);
                        } else {
                            let j = choose|j: int|
                                0 <= j < old_entries.len() && #[trigger] old_entries[j].0@ == key;
                            assert(entries@[j].0@ == key);
                        }
                    }
                }
            },
        }
        proof {
            assert(Self::lists(entries@, new_map));
        }
        *self = Table { entries, contents: Ghost(new_map) };
    }

    /// Takes the value stored under `k` out of the table.
    pub fn remove(&mut self, k: &String) -> (r: Option<V>)
        ensures
            final(self)@ == old(self)@.remove(k@),
            match r {
                Some(v) => old(self)@.contains_key(k@) && v@ == old(self)@[k@],
                None => !old(self)@.contains_key(k@),
            },
    {
        proof {
            use_type_invariant(&*self);
        }
        match self.find(k) {
            Some(i) => {
                let mut t: Table<V> = Table::new();
                std::mem::swap(&mut t, self);
                proof {
                    use_type_invariant(&t);
                }
                let ghost old_entries = t.entries@;
                let ghost old_map = t.contents@;
                let ghost new_map = old_map.remove(k@);
                let Table { entries, contents: _ } = t;
                let mut entries = entries;
                let (_key, v) = entries.remove(i);
                proof {
                    assert forall|j: int| 0 <= j < entries@.len() implies {
                        &&& #[trigger] new_map.contains_key(entries@[j].0@)
                        &&& new_map[entries@[j].0@] == entries@[j].1@
                    } by {
                        if j < i {
                            assert(entries@[j] == old_entries[j]);
                            assert(old_entries[j].0@ != old_entries[i as int].0@);
                        } else {
                            assert(entries@[j] == old_entries[j + 1]);
                            assert(old_entries[i as int].0@ != old_entries[j + 1].0@);
                        }
                    }
                    assert forall|a: int, b: int|
                        0 <= a < b < entries@.len() implies #[trigger] entries@[a].0@
                        != #[trigger] entries@[b].0@ by {
                        let a0 = if a < i { a } else { a + 1 };
                        let b0 = if b < i { b } else { b + 1 };
                        assert(entries@[a] == old_entries[a0]);
                        assert(entries@[b] == old_entries[b0]);
                        assert(old_entries[a0].0@ != old_entries[b0].0@);
                    }
                    assert forall|key: Seq<char>| #[trigger] new_map.contains_key(key)
                        implies exists|j: int|
                        0 <= j < entries@.len() && #[trigger] entries@[j].0@ == key by {
                        let j = choose|j: int|
                            0 <= j < old_entries.len() && #[trigger] old_entries[j].0@ == key;
                        if j < i {
                            assert(entries@[j].0@ == key);
                        } else {
                            assert(j != i);
                            assert(entries@[j - 1].0@ == key);
                        }
                    }
                    assert(Self::lists(entries@, new_map));
                }
                *self = Table { entries, contents: Ghost(new_map) };
                Some(v)
            },
            None => {
                proof {
                    assert(self@ =~= old(self)@.remove(k@));
                }
                None
            },
        }
    }

    /// The entries, each key with its value, in the order in which the keys
    /// were first inserted.
    pub fn into_pairs(self) -> (r: Vec<(String, V)>)
        ensures
            r@ == self.pairs(),
            forall|i: int| 0 <= i < r@.len() ==> #[trigger] self@.contains_key(r@[i].0@)
                && self@[r@[i].0@] == r@[i].1@,
            forall|k: Seq<char>| #[trigger] self@.contains_key(k) ==> exists|i: int|
                0 <= i < r@.len() && #[trigger] r@[i].0@ == k,
            forall|i: int, j: int| 0 <= i < j < r@.len() ==> #[trigger] r@[i].0@ != #[trigger] r@[j].0@,
    {
        proof {
            use_type_invariant(&self);
        }
        let Table { entries, contents: _ } = self;
        entries
    }
}

} // verus!
