//! A finite map keyed by endpoint.

use vstd::prelude::*;
use crate::network::endpoint::Endpoint;

verus! {

/// A finite map from endpoints to values of type `V`.
///
/// The entries are kept in the order in which their keys first arrived; a key
/// occurs once. Contracts speak of the map through its view, a
/// `Map<Endpoint, V>`.
pub struct EndpointMap<V> {
    keys: Vec<Endpoint>,
    values: Vec<V>,
}

impl<V> View for EndpointMap<V> {
    type V = Map<Endpoint, V>;

    closed spec fn view(&self) -> Map<Endpoint, V> {
        Map::new(
            |key: Endpoint| self.keys@.contains(key),
            |key: Endpoint| self.values@[self.keys@.index_of(key)],
        )
    }
}

impl<V> EndpointMap<V> {
    /// Well-formedness: one value for each key, and no key twice.
    pub closed spec fn wf(&self) -> bool {
        &&& self.keys@.len() == self.values@.len()
        &&& self.keys@.no_duplicates()
    }

    /// A well-formed map has finitely many keys.
    pub proof fn lemma_finite(&self)
        requires
            self.wf(),
        ensures
            self@.dom().finite(),
    {
        self.lemma_domain();
    }

    proof fn lemma_domain(&self)
        requires
            self.wf(),
        ensures
            self@.dom() =~= self.keys@.to_set(),
            self@.dom().finite(),
            self@.dom().len() == self.keys@.len(),
            forall|i: int|
                0 <= i < self.keys@.len() ==> self@.contains_key(#[trigger] self.keys@[i])
                    && self@[self.keys@[i]] == self.values@[i],
    {
        self.keys@.unique_seq_to_set();
        assert forall|i: int| 0 <= i < self.keys@.len() implies self@.contains_key(
            #[trigger] self.keys@[i],
        ) && self@[self.keys@[i]] == self.values@[i] by {
            let key = self.keys@[i];
            assert(self.keys@.contains(key));
            let j = self.keys@.index_of(key);
            assert(self.keys@[j] == key);
        }
    }

    /// The empty map.
    pub fn new() -> (map: EndpointMap<V>)
        ensures
            map.wf(),
            map@ == Map::<Endpoint, V>::empty(),
    {
        let map = EndpointMap { keys: Vec::new(), values: Vec::new() };
        assert(map@ =~= Map::<Endpoint, V>::empty());
        map
    }

    /// The number of keys.
    pub fn len(&self) -> (n: usize)
        requires
            self.wf(),
        ensures
            self@.dom().finite(),
            n == self@.len(),
    {
        proof {
            self.lemma_domain();
        }
        self.keys.len()
    }

    /// Where `key` stands among the keys, if it is one.
    fn position(&self, key: &Endpoint) -> (found: Option<usize>)
        requires
            self.wf(),
        ensures
            match found {
                Some(i) => i < self.keys@.len() && self.keys@[i as int] == *key,
                None => !self.keys@.contains(*key),
            },
    {
        let mut i: usize = 0;
        while i < self.keys.len()
            invariant
                i <= self.keys@.len(),
                forall|j: int| 0 <= j < i ==> self.keys@[j] != *key,
            decreases self.keys@.len() - i,
        {
            if self.keys[i] == *key {
                return Some(i);
            }
            i += 1;
        }
        None
    }

    /// Whether `key` has a value.
    pub fn contains_key(&self, key: &Endpoint) -> (found: bool)
        requires
            self.wf(),
        ensures
            found == self@.contains_key(*key),
    {
        self.position(key).is_some()
    }

    /// The value of `key`, if it has one.
    pub fn get(&self, key: &Endpoint) -> (value: Option<&V>)
        requires
            self.wf(),
        ensures
            match value {
                Some(v) => self@.contains_key(*key) && *v == self@[*key],
                None => !self@.contains_key(*key),
            },
    {
        match self.position(key) {
            Some(i) => {
                proof {
                    self.lemma_domain();
                }
                Some(&self.values[i])
            },
            None => None,
        }
    }

    /// Gives `key` the value `value`, in place of the one it had, if any.
    pub fn insert(&mut self, key: Endpoint, value: V)
        requires
            old(self).wf(),
        ensures
            final(self).wf(),
            final(self)@ == old(self)@.insert(key, value),
    {
        match self.position(&key) {
            Some(i) => {
                self.values.set(i, value);
                proof {
                    old(self).lemma_domain();
                    self.lemma_domain();
                    assert forall|k: Endpoint| self@.contains_key(k) implies #[trigger] self@[k]
                        == old(self)@.insert(key, value)[k] by {
                        let j = self.keys@.index_of(k);
                        assert(self.keys@[j] == k);
                    }
                    assert(self@ =~= old(self)@.insert(key, value));
                }
            },
            None => {
                self.keys.push(key);
                self.values.push(value);
                proof {
                    old(self).lemma_domain();
                    let keys = self.keys@;
                    assert forall|i: int, j: int|
                        0 <= i < keys.len() && 0 <= j < keys.len() && i != j implies keys[i]
                        != keys[j] by {
                        if i < old(self).keys@.len() {
                            assert(old(self).keys@.contains(self.keys@[i]));
                        }
                        if j < old(self).keys@.len() {
                            assert(old(self).keys@.contains(self.keys@[j]));
                        }
                    }
                    self.lemma_domain();
                    assert forall|k: Endpoint| #[trigger]
                        self@.contains_key(k) <==> old(self)@.insert(key, value).contains_key(
                            k,
                        ) by {
                        if self.keys@.contains(k) {
                            let j = self.keys@.index_of(k);
                            assert(self.keys@[j] == k);
                            if j < old(self).keys@.len() {
                                assert(old(self).keys@[j] == k);
                            }
                        }
                        if old(self).keys@.contains(k) {
                            let j = old(self).keys@.index_of(k);
                            assert(self.keys@[j] == k);
                        }
                        if k == key {
                            assert(self.keys@[self.keys@.len() - 1] == k);
                        }
                    }
                    assert forall|k: Endpoint| self@.contains_key(k) implies #[trigger] self@[k]
                        == old(self)@.insert(key, value)[k] by {
                        let j = self.keys@.index_of(k);
                        assert(self.keys@[j] == k);
                        if j < old(self).keys@.len() {
                            assert(old(self).keys@[j] == k);
                        }
                    }
                    assert(self@ =~= old(self)@.insert(key, value));
                }
            },
        }
    }
}

} // verus!
