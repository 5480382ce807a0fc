//! A map from names to values that remembers the order in which names were
//! first inserted.
use vstd::prelude::*;
use vstd::string::*;

use crate::text::str_eq;

verus! {

/// A map from names to values. Each name occurs at most once; names keep the
/// position at which they were first inserted.
#[derive(Debug)]
pub struct NameMap<V> {
    entries: Vec<(String, V)>,
}

/// The names of a list of entries.
pub open spec fn names_of<V>(entries: Seq<(String, V)>) -> Seq<Seq<char>> {
    entries.map_values(|e: (String, V)| e.0@)
}

impl<V> NameMap<V> {
    /// The names, in insertion order.
    pub closed spec fn keys_seq(&self) -> Seq<Seq<char>> {
        names_of(self.entries@)
    }

    /// The values, in the order of their names.
    pub closed spec fn values_seq(&self) -> Seq<V> {
        self.entries@.map_values(|e: (String, V)| e.1)
    }

    #[verifier::type_invariant]
    spec fn unique_names(self) -> bool {
        self.keys_seq().no_duplicates()
    }

    /// Each name mapped to its value.
    pub closed spec fn as_map(&self) -> Map<Seq<char>, V> {
        Map::new(
            |k: Seq<char>| self.keys_seq().contains(k),
            |k: Seq<char>| self.values_seq()[self.keys_seq().index_of(k)],
        )
    }

    /// An empty map.
    pub fn new() -> (r: Self)
        ensures
            r@ == Map::<Seq<char>, V>::empty(),
            r.keys_seq() == Seq::<Seq<char>>::empty(),
    {
        let r = NameMap { entries: Vec::new() };
        assert(r.keys_seq() =~= Seq::<Seq<char>>::empty());
        assert(r@ =~= Map::<Seq<char>, V>::empty());
        r
    }

    /// The position of `name`, if it is present.
    fn find(&self, name: &str) -> (r: Option<usize>)
        ensures
            match r {
                Some(i) => i < self.keys_seq().len() && self.keys_seq()[i as int] == name@,
                None => !self.keys_seq().contains(name@),
            },
    {
        let mut i: usize = 0;
        while i < self.entries.len()
            invariant
                i <= self.entries.len(),
                forall|k: int| 0 <= k < i ==> self.keys_seq()[k] != name@,
            decreases self.entries.len() - i,
        {
            if str_eq(self.entries[i].0.as_str(), name) {
                return Some(i);
            }
            i = i + 1;
        }
        None
    }

    /// The facts that tie the names and values to the map.
    pub fn lemma_map_facts(&self)
        ensures
            self.keys_seq().no_duplicates(),
            self.keys_seq().len() == self.values_seq().len(),
            forall|k: Seq<char>| #[trigger] self@.dom().contains(k) <==> self.keys_seq().contains(k),
            forall|i: int|
                0 <= i < self.keys_seq().len() ==> #[trigger] self@[self.keys_seq()[i]]
                    == self.values_seq()[i],
            self@.dom().finite(),
            self@.dom().len() == self.keys_seq().len(),
    {
        proof {
            use_type_invariant(self);
            self.lemma_view_facts();
        }
    }

    proof fn lemma_view_facts(&self)
        requires
            self.keys_seq().no_duplicates(),
        ensures
            self.keys_seq().len() == self.values_seq().len(),
            forall|k: Seq<char>| #[trigger] self@.dom().contains(k) <==> self.keys_seq().contains(k),
            forall|i: int|
                0 <= i < self.keys_seq().len() ==> #[trigger] self@[self.keys_seq()[i]]
                    == self.values_seq()[i],
            self@.dom().finite(),
            self@.dom().len() == self.keys_seq().len(),
    {
        let ks = self.keys_seq();
        assert forall|i: int| 0 <= i < ks.len() implies #[trigger] self@[ks[i]]
            == self.values_seq()[i] by {
            assert(ks.contains(ks[i]));
            let j = ks.index_of(ks[i]);
            assert(ks[j] == ks[i]);
        }
        assert(self@.dom() =~= ks.to_set());
        ks.unique_seq_to_set();
    }

    /// The value of `name`.
    pub fn get(&self, name: &str) -> (r: Option<&V>)
        ensures
            match r {
                Some(v) => self@.dom().contains(name@) && self@[name@] == *v,
                None => !self@.dom().contains(name@),
            },
    {
        self.lemma_map_facts();
        match self.find(name) {
            Some(i) => {
                assert(self.values_seq()[i as int] == self.entries@[i as int].1);
                Some(&self.entries[i].1)
            },
            None => None,
        }
    }

    /// Whether `name` has a value.
    pub fn contains_key(&self, name: &str) -> (r: bool)
        ensures
            r == self@.dom().contains(name@),
    {
        self.lemma_map_facts();
        self.find(name).is_some()
    }

    /// The number of names.
    pub fn len(&self) -> (r: usize)
        ensures
            r == self@.dom().len(),
            r == self.keys_seq().len(),
    {
        self.lemma_map_facts();
        self.entries.len()
    }

    /// Whether there is no name.
    pub fn is_empty(&self) -> (r: bool)
        ensures
            r == (self@.dom().len() == 0),
            r == (self@ == Map::<Seq<char>, V>::empty()),
    {
        self.lemma_map_facts();
        if self.entries.len() == 0 {
            assert(self@ =~= Map::<Seq<char>, V>::empty());
            true
        } else {
            assert(self@.dom().contains(self.keys_seq()[0]));
            false
        }
    }

    /// The name at position `i` and its value.
    pub fn entry(&self, i: usize) -> (r: (&String, &V))
        requires
            i < self.keys_seq().len(),
        ensures
            r.0@ == self.keys_seq()[i as int],
            *r.1 == self.values_seq()[i as int],
            self@.dom().contains(r.0@),
            self@[r.0@] == *r.1,
    {
        self.lemma_map_facts();
        let e = &self.entries[i];
        (&e.0, &e.1)
    }

    /// Sets the value of `name`. A new name goes last; a present one keeps
    /// its position.
    pub fn insert(&mut self, name: String, value: V)
        ensures
            final(self)@ == old(self)@.insert(name@, value),
            old(self).keys_seq().contains(name@) ==> final(self).keys_seq() == old(self).keys_seq(),
            !old(self).keys_seq().contains(name@) ==> final(self).keys_seq() == old(
                self,
            ).keys_seq().push(name@),
    {
        proof {
            use_type_invariant(&*self);
            self.lemma_view_facts();
        }
        let ghost old_self = *self;
        let found = self.find(name.as_str());
        let mut entries: Vec<(String, V)> = Vec::new();
        std::mem::swap(&mut entries, &mut self.entries);
        let ghost k = name@;
        assert(entries@ == old_self.entries@);
        match found {
            Some(i) => {
                entries.set(i, (name, value));
                assert(names_of(entries@) =~= old_self.keys_seq());
            },
            None => {
                entries.push((name, value));
                assert(names_of(entries@) =~= old_self.keys_seq().push(k));
            },
        }
        self.entries = entries;
        proof {
            match found {
                Some(i) => {
                    assert(self.values_seq() =~= old_self.values_seq().update(i as int, value));
                },
                None => {
                    assert(self.values_seq() =~= old_self.values_seq().push(value));
                },
            }
        }
        proof {
            use_type_invariant(&*self);
            self.lemma_view_facts();
            let ks = self.keys_seq();
            assert forall|q: Seq<char>| #[trigger] self@.dom().contains(q) <==> old_self@.insert(k, value).dom().contains(q) by {
                if q != k && ks.contains(q) {
                    let j = choose|j: int| 0 <= j < ks.len() && ks[j] == q;
                    assert(old_self.keys_seq()[j] == q);
                }
                if q != k && old_self.keys_seq().contains(q) {
                    let j = choose|j: int| 0 <= j < old_self.keys_seq().len() && old_self.keys_seq()[j] == q;
                    assert(ks[j] == q);
                }
                if q == k {
                    match found {
                        Some(i) => { assert(ks[i as int] == k); },
                        None => { assert(ks[ks.len() - 1] == k); },
                    }
                }
            }
            assert forall|q: Seq<char>| #[trigger] self@.dom().contains(q) implies self@[q] == old_self@.insert(k, value)[q] by {
                let j = choose|j: int| 0 <= j < ks.len() && ks[j] == q;
                assert(self@[ks[j]] == self.values_seq()[j]);
                if q != k {
                    assert(old_self.keys_seq()[j] == q);
                    assert(old_self@[old_self.keys_seq()[j]] == old_self.values_seq()[j]);
                }
            }
            assert(self@ =~= old_self@.insert(name@, value));
        }
    }

    /// Removes `name` and returns its value.
    pub fn remove(&mut self, name: &str) -> (r: Option<V>)
        ensures
            final(self)@ == old(self)@.remove(name@),
            match r {
                Some(v) => old(self)@.dom().contains(name@) && old(self)@[name@] == v,
                None => !old(self)@.dom().contains(name@),
            },
    {
        proof {
            use_type_invariant(&*self);
            self.lemma_view_facts();
        }
        let ghost old_self = *self;
        match self.find(name) {
            Some(i) => {
                let mut entries: Vec<(String, V)> = Vec::new();
                std::mem::swap(&mut entries, &mut self.entries);
                assert(entries@ == old_self.entries@);
                let e = entries.remove(i);
                assert(names_of(entries@) =~= old_self.keys_seq().remove(i as int));
                assert(names_of(entries@).no_duplicates()) by {
                    let ks = names_of(entries@);
                    let oks = old_self.keys_seq();
                    assert forall|a: int, b: int| 0 <= a < ks.len() && 0 <= b < ks.len() && a != b implies ks[a] != ks[b] by {
                        let a2 = if a < i { a } else { a + 1 };
                        let b2 = if b < i { b } else { b + 1 };
                        assert(ks[a] == oks[a2]);
                        assert(ks[b] == oks[b2]);
                    }
                }
                self.entries = entries;
                proof {
                    assert(self.keys_seq() =~= old_self.keys_seq().remove(i as int));
                    assert(self.values_seq() =~= old_self.values_seq().remove(i as int));
                    assert(self.keys_seq().no_duplicates());
                    self.lemma_view_facts();
                    assert forall|k: Seq<char>| #[trigger]
                        self.keys_seq().contains(k) implies old_self.keys_seq().contains(k)
                        && k != name@ by {
                        let j = choose|j: int|
                            0 <= j < self.keys_seq().len() && self.keys_seq()[j] == k;
                        if j < i {
                            assert(old_self.keys_seq()[j] == k);
                        } else {
                            assert(old_self.keys_seq()[j + 1] == k);
                        }
                    }
                    assert forall|k: Seq<char>|
                        old_self.keys_seq().contains(k) && k != name@ implies #[trigger] self.keys_seq().contains(k) by {
                        let j = choose|j: int|
                            0 <= j < old_self.keys_seq().len() && old_self.keys_seq()[j] == k;
                        if j < i {
                            assert(self.keys_seq()[j] == k);
                        } else {
                            assert(self.keys_seq()[j - 1] == k);
                        }
                    }
                    assert forall|k: Seq<char>| #[trigger] self@.dom().contains(k) implies self@[k]
                        == old_self@[k] by {
                        let j = choose|j: int|
                            0 <= j < self.keys_seq().len() && self.keys_seq()[j] == k;
                        if j < i {
                            assert(old_self.keys_seq()[j] == k);
                        } else {
                            assert(old_self.keys_seq()[j + 1] == k);
                        }
                    }
                    assert(self@ =~= old_self@.remove(name@));
                    assert(old_self.values_seq()[i as int] == e.1);
                }
                Some(e.1)
            },
            None => {
                assert(old_self@ =~= old_self@.remove(name@));
                None
            },
        }
    }

    /// The names, in insertion order.
    pub fn names(&self) -> (r: Vec<String>)
        ensures
            r.deep_view() == self.keys_seq(),
            forall|k: Seq<char>| #[trigger] self@.dom().contains(k) <==> r.deep_view().contains(k),
            r.deep_view().no_duplicates(),
    {
        self.lemma_map_facts();
        let mut r: Vec<String> = Vec::new();
        let mut i: usize = 0;
        while i < self.entries.len()
            invariant
                i <= self.entries.len(),
                r.deep_view() == self.keys_seq().take(i as int),
            decreases self.entries.len() - i,
        {
            r.push(self.entries[i].0.clone());
            proof {
                assert(self.keys_seq().take(i + 1) =~= self.keys_seq().take(i as int).push(
                    self.keys_seq()[i as int],
                ));
            }
            i = i + 1;
        }
        assert(self.keys_seq().take(self.entries.len() as int) =~= self.keys_seq());
        r
    }
}

impl<V: Clone> Clone for NameMap<V> {
    /// A copy with the same names in the same order; each value is a clone.
    fn clone(&self) -> (r: Self)
        ensures
            r.keys_seq() == self.keys_seq(),
    {
        proof {
            use_type_invariant(self);
        }
        let mut entries: Vec<(String, V)> = Vec::new();
        let mut i: usize = 0;
        while i < self.entries.len()
            invariant
                i <= self.entries.len(),
                names_of(entries@) == self.keys_seq().take(i as int),
            decreases self.entries.len() - i,
        {
            let e = &self.entries[i];
            let ghost before = names_of(entries@);
            entries.push((e.0.clone(), e.1.clone()));
            assert(names_of(entries@) =~= before.push(e.0@));
            assert(self.keys_seq().take(i + 1) =~= self.keys_seq().take(i as int).push(
                self.keys_seq()[i as int],
            ));
            i = i + 1;
        }
        assert(self.keys_seq().take(self.entries.len() as int) =~= self.keys_seq());
        NameMap { entries }
    }
}

impl<V> View for NameMap<V> {
    type V = Map<Seq<char>, V>;

    open spec fn view(&self) -> Map<Seq<char>, V> {
        self.as_map()
    }
}

} // verus!
