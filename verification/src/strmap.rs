use vstd::prelude::*;

use crate::text::{
    compare_text, lemma_lex_irreflexive, lemma_lex_transitive, lemma_sorted_no_duplicates,
    lex_less, strictly_sorted, TextOrder,
};

verus! {

/// A map from names to values, kept as a vector of entries sorted by name.
///
/// No name occurs twice: the names are strictly increasing in the order
/// `lex_less`, so that `keys` lists them sorted.
pub struct NameMap<V> {
    entries: Vec<(String, V)>,
}

/// Where a name stands, or would stand, among the sorted entries.
pub enum Slot {
    /// The entry at this index has the name.
    Found(usize),
    /// No entry has the name; it belongs at this index.
    Vacant(usize),
}

impl<V> NameMap<V> {
    /// The names of the entries, in order.
    pub closed spec fn names(&self) -> Seq<Seq<char>> {
        self.entries@.map_values(|e: (String, V)| e.0@)
    }

    /// The names are strictly sorted (hence distinct).
    pub closed spec fn wf(&self) -> bool {
        strictly_sorted(self.names())
    }

    /// The index of the entry with name `k`, if there is one.
    closed spec fn index_of(&self, k: Seq<char>) -> int {
        choose|i: int| 0 <= i < self.entries@.len() && self.entries@[i].0@ == k
    }

    /// The names with the value that each holds.
    pub closed spec fn view(&self) -> Map<Seq<char>, V> {
        Map::new(
            |k: Seq<char>| self.names().contains(k),
            |k: Seq<char>| self.entries@[self.index_of(k)].1,
        )
    }

    /// The names in their order.
    pub closed spec fn sorted_names(&self) -> Seq<Seq<char>> {
        self.names()
    }

    /// The sorted names are those of the map, strictly sorted.
    pub proof fn lemma_sorted_names(&self)
        requires
            self.wf(),
        ensures
            strictly_sorted(self.sorted_names()),
            self.sorted_names().to_set() =~= self.view().dom(),
            self.sorted_names().len() == self.view().dom().len(),
            self.view().dom().finite(),
    {
        assert forall|k: Seq<char>| self.sorted_names().to_set().contains(k) <==> self.view().dom().contains(k) by {}
        self.lemma_names_distinct();
        self.names().unique_seq_to_set();
    }

    proof fn lemma_names_distinct(&self)
        requires
            self.wf(),
        ensures
            self.names().no_duplicates(),
    {
        lemma_sorted_no_duplicates(self.names());
    }

    /// The entry at index `i` is what the map holds under its name.
    proof fn lemma_entry(&self, i: int)
        requires
            self.wf(),
            0 <= i < self.entries@.len(),
        ensures
            self.view().contains_key(self.entries@[i].0@),
            self.view()[self.entries@[i].0@] == self.entries@[i].1,
            self.index_of(self.entries@[i].0@) == i,
    {
        let k = self.entries@[i].0@;
        assert(self.names()[i] == k);
        let j = self.index_of(k);
        assert(0 <= j < self.entries@.len() && self.entries@[j].0@ == k);
        self.lemma_names_distinct();
        assert(self.names()[j] == k);
    }

    /// Replacing the value of entry `i` replaces the value held under its name.
    proof fn lemma_value_replaced(&self, m2: NameMap<V>, i: int, x: V)
        requires
            self.wf(),
            0 <= i < self.entries@.len(),
            m2.entries@ == self.entries@.update(i, (self.entries@[i].0, x)),
        ensures
            m2.wf(),
            m2@ == self@.insert(self.entries@[i].0@, x),
    {
        let k = self.entries@[i].0@;
        self.lemma_entry(i);
        assert(m2.names() =~= self.names());
        assert forall|q: Seq<char>| #[trigger]
            m2@.contains_key(q) <==> self@.insert(k, x).contains_key(q) by {}
        assert forall|q: Seq<char>| #[trigger] m2@.contains_key(q) implies m2@[q]
            == self@.insert(k, x)[q] by {
            let j = m2.index_of(q);
            m2.lemma_entry(j);
            if j != i {
                self.lemma_entry(j);
                assert(q != k) by {
                    self.lemma_names_distinct();
                }
            }
        }
        assert(m2@ =~= self@.insert(k, x));
    }

    /// The map with no entries.
    pub fn new() -> (r: Self)
        ensures
            r.wf(),
            r@ == Map::<Seq<char>, V>::empty(),
    {
        let r = NameMap { entries: Vec::new() };
        assert(r@ =~= Map::<Seq<char>, V>::empty());
        r
    }

    /// The number of entries.
    pub fn len(&self) -> (n: usize)
        requires
            self.wf(),
        ensures
            n == self@.len(),
    {
        proof {
            self.lemma_sorted_names();
        }
        self.entries.len()
    }

    /// Finds where `key` stands among the entries.
    pub fn find(&self, key: &str) -> (r: Slot)
        requires
            self.wf(),
        ensures
            match r {
                Slot::Found(i) => {
                    &&& i < self.names().len()
                    &&& self.names()[i as int] == key@
                },
                Slot::Vacant(i) => {
                    &&& i <= self.names().len()
                    &&& !self.names().contains(key@)
                    &&& forall|j: int| 0 <= j < i ==> lex_less(#[trigger] self.names()[j], key@)
                    &&& forall|j: int|
                        i <= j < self.names().len() ==> lex_less(key@, #[trigger] self.names()[j])
                },
            },
    {
        let n = self.entries.len();
        let mut i: usize = 0;
        while i < n
            invariant
                n == self.entries@.len(),
                i <= n,
                self.wf(),
                forall|j: int| 0 <= j < i ==> lex_less(#[trigger] self.names()[j], key@),
            decreases n - i,
        {
            assert(self.names()[i as int] == self.entries@[i as int].0@);
            match compare_text(self.entries[i].0.as_str(), key) {
                TextOrder::Same => {
                    return Slot::Found(i);
                },
                TextOrder::After => {
                    proof {
                        assert forall|j: int| i <= j < self.names().len() implies lex_less(
                            key@,
                            #[trigger] self.names()[j],
                        ) by {
                            if j > i {
                                lemma_lex_transitive(key@, self.names()[i as int], self.names()[j]);
                            }
                        }
                        assert forall|j: int| 0 <= j < self.names().len() implies self.names()[j]
                            != key@ by {
                            lemma_lex_irreflexive(key@);
                        }
                    }
                    return Slot::Vacant(i);
                },
                TextOrder::Before => {},
            }
            i = i + 1;
        }
        proof {
            assert forall|j: int| 0 <= j < self.names().len() implies self.names()[j] != key@ by {
                lemma_lex_irreflexive(key@);
            }
        }
        Slot::Vacant(n)
    }

    /// The value held under `key`, if any.
    pub fn get(&self, key: &str) -> (r: Option<&V>)
        requires
            self.wf(),
        ensures
            match r {
                Some(v) => self@.contains_key(key@) && *v == self@[key@],
                None => !self@.contains_key(key@),
            },
    {
        match self.find(key) {
            Slot::Found(i) => {
                proof {
                    self.lemma_entry(i as int);
                }
                Some(&self.entries[i].1)
            },
            Slot::Vacant(_) => None,
        }
    }

    /// A mutable reference to the value held under `key`, if any.
    pub fn get_mut(&mut self, key: &str) -> (r: Option<&mut V>)
        requires
            old(self).wf(),
        ensures
            match r {
                Some(v) => {
                    &&& old(self)@.contains_key(key@)
                    &&& *v == old(self)@[key@]
                    &&& final(self).wf()
                    &&& final(self)@ == old(self)@.insert(key@, *final(v))
                },
                None => {
                    &&& !old(self)@.contains_key(key@)
                    &&& *final(self) == *old(self)
                },
            },
    {
        match self.find(key) {
            Slot::Found(i) => {
                proof {
                    self.lemma_entry(i as int);
                    let ghost k = self.entries@[i as int].0;
                    assert forall|m2: NameMap<V>|
                        #[trigger] m2.entries@ == self.entries@.update(
                            i as int,
                            (k, m2.entries@[i as int].1),
                        ) implies {
                        &&& m2.wf()
                        &&& m2@ == self@.insert(key@, m2.entries@[i as int].1)
                    } by {
                        self.lemma_value_replaced(m2, i as int, m2.entries@[i as int].1);
                    }
                }
                let entry = &mut self.entries[i];
                Some(&mut entry.1)
            },
            Slot::Vacant(_) => None,
        }
    }

    /// Whether a value is held under `key`.
    pub fn contains_key(&self, key: &str) -> (r: bool)
        requires
            self.wf(),
        ensures
            r == self@.contains_key(key@),
    {
        match self.find(key) {
            Slot::Found(i) => {
                proof {
                    self.lemma_entry(i as int);
                }
                true
            },
            Slot::Vacant(_) => false,
        }
    }

    /// Stores `value` under `key`, replacing what was there.
    pub fn insert(&mut self, key: String, value: V)
        requires
            old(self).wf(),
        ensures
            final(self).wf(),
            final(self)@ == old(self)@.insert(key@, value),
    {
        let ghost old_map = self@;
        let ghost old_names = self.names();
        let ghost k = key@;
        match self.find(key.as_str()) {
            Slot::Found(i) => {
                proof {
                    self.lemma_entry(i as int);
                }
                self.entries.set(i, (key, value));
                proof {
                    assert(self.names() =~= old_names);
                    assert forall|q: Seq<char>| #[trigger]
                        self@.contains_key(q) <==> old_map.insert(k, value).contains_key(q) by {}
                    assert forall|q: Seq<char>| #[trigger] self@.contains_key(q) implies self@[q]
                        == old_map.insert(k, value)[q] by {
                        let j = self.index_of(q);
                        self.lemma_entry(j);
                        if j != i {
                            assert(old_names[j] == q);
                            old(self).lemma_entry(j);
                            assert(q != k) by {
                                self.lemma_names_distinct();
                            }
                        }
                    }
                    assert(self@ =~= old_map.insert(k, value));
                }
            },
            Slot::Vacant(i) => {
                self.entries.insert(i, (key, value));
                proof {
                    assert(self.names() =~= old_names.insert(i as int, k));
                    assert forall|a: int, b: int|
                        0 <= a < b < self.names().len() implies lex_less(
                        #[trigger] self.names()[a],
                        #[trigger] self.names()[b],
                    ) by {
                        if a < i && i < b {
                            lemma_lex_transitive(old_names[a], k, old_names[b - 1]);
                        }
                    }
                    assert forall|q: Seq<char>| #[trigger]
                        self@.contains_key(q) <==> old_map.insert(k, value).contains_key(q) by {
                        if old_names.contains(q) {
                            let j = choose|j: int| 0 <= j < old_names.len() && old_names[j] == q;
                            if j < i {
                                assert(self.names()[j] == q);
                            } else {
                                assert(self.names()[j + 1] == q);
                            }
                        }
                        if q == k {
                            assert(self.names()[i as int] == q);
                        }
                        if self.names().contains(q) {
                            let j = choose|j: int| 0 <= j < self.names().len() && self.names()[j] == q;
                            if j < i {
                                assert(old_names[j] == q);
                            } else if j > i {
                                assert(old_names[j - 1] == q);
                            }
                        }
                    }
                    assert forall|q: Seq<char>| #[trigger] self@.contains_key(q) implies self@[q]
                        == old_map.insert(k, value)[q] by {
                        let j = self.index_of(q);
                        self.lemma_entry(j);
                        if j < i {
                            assert(old_names[j] == q);
                            old(self).lemma_entry(j);
                            assert(q != k) by {
                                lemma_lex_irreflexive(k);
                            }
                            assert(self.entries@[j] == old(self).entries@[j]);
                        } else if j > i {
                            assert(old_names[j - 1] == q);
                            old(self).lemma_entry(j - 1);
                            assert(q != k) by {
                                lemma_lex_irreflexive(k);
                            }
                            assert(self.entries@[j] == old(self).entries@[j - 1]);
                        }
                    }
                    assert(self@ =~= old_map.insert(k, value));
                }
            },
        }
    }

    /// Removes the entry under `key` and returns its value, if there is one.
    pub fn remove(&mut self, key: &str) -> (r: Option<V>)
        requires
            old(self).wf(),
        ensures
            final(self).wf(),
            final(self)@ == old(self)@.remove(key@),
            match r {
                Some(v) => old(self)@.contains_key(key@) && v == old(self)@[key@],
                None => !old(self)@.contains_key(key@),
            },
    {
        let ghost old_map = self@;
        let ghost old_names = self.names();
        let ghost k = key@;
        match self.find(key) {
            Slot::Found(i) => {
                proof {
                    self.lemma_entry(i as int);
                    self.lemma_names_distinct();
                }
                let (_name, value) = self.entries.remove(i);
                proof {
                    assert(self.names() =~= old_names.remove(i as int));
                    assert forall|a: int, b: int|
                        0 <= a < b < self.names().len() implies lex_less(
                        #[trigger] self.names()[a],
                        #[trigger] self.names()[b],
                    ) by {
                        if a < i && b >= i {
                            assert(self.names()[b] == old_names[b + 1]);
                        }
                    }
                    assert forall|q: Seq<char>| #[trigger]
                        self@.contains_key(q) <==> old_map.remove(k).contains_key(q) by {
                        if old_names.contains(q) && q != k {
                            let j = choose|j: int| 0 <= j < old_names.len() && old_names[j] == q;
                            if j < i {
                                assert(self.names()[j] == q);
                            } else {
                                assert(j != i);
                                assert(self.names()[j - 1] == q);
                            }
                        }
                        if self.names().contains(q) {
                            let j = choose|j: int| 0 <= j < self.names().len() && self.names()[j] == q;
                            if j < i {
                                assert(old_names[j] == q);
                                assert(j != i);
                            } else {
                                assert(old_names[j + 1] == q);
                            }
                        }
                    }
                    assert forall|q: Seq<char>| #[trigger] self@.contains_key(q) implies self@[q]
                        == old_map.remove(k)[q] by {
                        let j = self.index_of(q);
                        self.lemma_entry(j);
                        if j < i {
                            assert(old_names[j] == q);
                            old(self).lemma_entry(j);
                        } else {
                            assert(old_names[j + 1] == q);
                            old(self).lemma_entry(j + 1);
                        }
                    }
                    assert(self@ =~= old_map.remove(k));
                }
                Some(value)
            },
            Slot::Vacant(_) => {
                assert(self@ =~= old_map.remove(k));
                None
            },
        }
    }

    /// The names, in strictly increasing order.
    pub fn keys(&self) -> (r: Vec<&str>)
        requires
            self.wf(),
        ensures
            r@.map_values(|s: &str| s@) == self.sorted_names(),
    {
        let mut r: Vec<&str> = Vec::new();
        let n = self.entries.len();
        for i in 0..n
            invariant
                n == self.entries@.len(),
                r@.map_values(|s: &str| s@) =~= self.names().take(i as int),
        {
            r.push(self.entries[i].0.as_str());
            assert(self.names().take(i + 1) =~= self.names().take(i as int).push(
                self.entries@[i as int].0@,
            ));
        }
        assert(self.names().take(n as int) =~= self.names());
        r
    }
}

} // verus!
