//! The actor registry: a mapping from stable numeric keys to actors.
//!
//! The registry is the capability handed to an actor while its activation
//! effect runs, so it exposes exactly the operations the design grants to
//! actors: lookup, insert, remove, and a fresh-key supply. A counter above
//! every key ever inserted backs [`Registry::next_fresh_key`].

use std::collections::HashMap;
use vstd::prelude::*;

verus! {

broadcast use vstd::std_specs::hash::group_hash_axioms;

/// Owns idle actors, keyed by `u64`. Viewed as a `Map<u64, E>`.
pub struct Registry<E> {
    map: HashMap<u64, E>,
    next_key: u64,
}

impl<E> View for Registry<E> {
    type V = Map<u64, E>;

    closed spec fn view(&self) -> Map<u64, E> {
        self.map@
    }
}

impl<E> Registry<E> {
    /// The key that [`Registry::next_fresh_key`] would hand out.
    pub closed spec fn spec_next_key(&self) -> u64 {
        self.next_key
    }

    /// Every registered key lies below the fresh-key counter.
    pub open spec fn wf(self) -> bool {
        forall|k: u64| self@.dom().contains(k) ==> k < self.spec_next_key()
    }

    /// An empty registry.
    pub fn new() -> (r: Registry<E>)
        ensures
            r@ == Map::<u64, E>::empty(),
            r.wf(),
    {
        Registry { map: HashMap::new(), next_key: 0 }
    }

    /// The number of registered actors.
    pub fn len(&self) -> (n: usize)
        ensures
            n == self@.len(),
    {
        self.map.len()
    }

    /// Whether `key` is registered.
    pub fn contains_key(&self, key: u64) -> (r: bool)
        ensures
            r == self@.contains_key(key),
    {
        self.map.contains_key(&key)
    }

    /// A view of the actor under `key`, if any.
    pub fn lookup(&self, key: u64) -> (r: Option<&E>)
        ensures
            r matches Some(e) ==> self@.contains_key(key) && *e == self@[key],
            r is None ==> !self@.contains_key(key),
    {
        self.map.get(&key)
    }

    /// Registers `entity` under `key`, returning whatever was there before.
    pub fn insert(&mut self, key: u64, entity: E) -> (prev: Option<E>)
        requires
            old(self).wf(),
            key < u64::MAX,
        ensures
            final(self)@ == old(self)@.insert(key, entity),
            final(self).wf(),
            prev matches Some(e) ==> old(self)@.contains_key(key) && e == old(self)@[key],
            prev is None ==> !old(self)@.contains_key(key),
    {
        let prev = self.map.insert(key, entity);
        if key >= self.next_key {
            self.next_key = key + 1;
        }
        proof {
            assert forall|k: u64|
                self@.dom().contains(k) implies k < self.spec_next_key() by {
                if k != key {
                    assert(old(self)@.dom().contains(k));
                }
            }
        }
        prev
    }

    /// Removes and returns the actor under `key`, if any.
    pub fn remove(&mut self, key: u64) -> (r: Option<E>)
        requires
            old(self).wf(),
        ensures
            final(self)@ == old(self)@.remove(key),
            final(self).wf(),
            r matches Some(e) ==> old(self)@.contains_key(key) && e == old(self)@[key],
            r is None ==> !old(self)@.contains_key(key),
    {
        let r = self.map.remove(&key);
        proof {
            assert forall|k: u64|
                self@.dom().contains(k) implies k < self.spec_next_key() by {
                assert(old(self)@.dom().contains(k));
            }
        }
        r
    }

    /// A key that no actor currently occupies.
    pub fn next_fresh_key(&self) -> (k: u64)
        requires
            self.wf(),
        ensures
            !self@.contains_key(k),
    {
        self.next_key
    }
}

} // verus!
