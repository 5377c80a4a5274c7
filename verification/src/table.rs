//! A keyed table with a `Map` view.
//!
//! Backs the task table, the join slots and both channel registries.  The
//! representation is an association vector with distinct keys; every
//! operation's contract is stated against the abstract `Map`.

use vstd::prelude::*;

use crate::assoc::{
    assoc_map, distinct_keys, lemma_assoc_map_contains, lemma_assoc_map_index,
    lemma_assoc_map_push, lemma_assoc_map_remove_at, lemma_assoc_map_update,
    lemma_distinct_remove,
};

verus! {

/// A finite partial map from `u64` ids to values of type `V`.
pub struct Table<V> {
    pub entries: Vec<(u64, V)>,
}

impl<V> Table<V> {
    /// The abstract contents.
    pub open spec fn view(&self) -> Map<u64, V> {
        assoc_map(self.entries@)
    }

    /// Representation invariant: no id is stored twice.
    pub open spec fn wf(&self) -> bool {
        distinct_keys(self.entries@)
    }

    /// An empty table.
    pub fn new() -> (t: Table<V>)
        ensures
            t.wf(),
            t@ == Map::<u64, V>::empty(),
            t.entries@.len() == 0,
    {
        Table { entries: Vec::new() }
    }

    /// Number of stored entries.
    pub fn len(&self) -> (n: usize)
        ensures
            n == self.entries@.len(),
    {
        self.entries.len()
    }

    /// Whether the table stores nothing.  Under `wf` this is exactly
    /// emptiness of the abstract map.
    pub fn is_empty(&self) -> (e: bool)
        ensures
            e <==> self.entries@.len() == 0,
            e <==> self@ == Map::<u64, V>::empty(),
    {
        proof {
            if self.entries@.len() == 0 {
                assert(self@ =~= Map::<u64, V>::empty());
            } else {
                let last = self.entries@.last();
                assert(self@.contains_key(last.0));
            }
        }
        self.entries.len() == 0
    }

    /// Position of `key` in the vector, if present.
    fn position(&self, key: u64) -> (r: Option<usize>)
        ensures
            match r {
                Some(i) => i < self.entries@.len() && self.entries@[i as int].0 == key,
                None => forall|j: int|
                    0 <= j < self.entries@.len() ==> (#[trigger] self.entries@[j]).0 != key,
            },
    {
        let mut i: usize = 0;
        while i < self.entries.len()
            invariant
                i <= self.entries@.len(),
                forall|j: int| 0 <= j < i ==> (#[trigger] self.entries@[j]).0 != key,
            decreases self.entries@.len() - i,
        {
            if self.entries[i].0 == key {
                return Some(i);
            }
            i = i + 1;
        }
        None
    }

    /// Whether `key` is stored.
    pub fn contains_key(&self, key: u64) -> (r: bool)
        ensures
            r == self@.contains_key(key),
    {
        proof {
            lemma_assoc_map_contains(self.entries@, key);
        }
        self.position(key).is_some()
    }

    /// Read access to the value stored under `key`.
    pub fn get(&self, key: u64) -> (r: Option<&V>)
        requires
            self.wf(),
        ensures
            match r {
                Some(v) => self@.contains_key(key) && *v == self@[key],
                None => !self@.contains_key(key),
            },
    {
        proof {
            lemma_assoc_map_contains(self.entries@, key);
        }
        match self.position(key) {
            Some(i) => {
                proof {
                    lemma_assoc_map_index(self.entries@, i as int);
                }
                Some(&self.entries[i].1)
            },
            None => None,
        }
    }

    /// Store `value` under `key`, replacing any previous value.
    pub fn insert(&mut self, key: u64, value: V)
        requires
            old(self).wf(),
        ensures
            final(self).wf(),
            final(self)@ == old(self)@.insert(key, value),
            final(self).entries@.len() <= old(self).entries@.len() + 1,
            final(self).entries@.len() >= old(self).entries@.len(),
            old(self)@.contains_key(key) ==> exists|i: int|
                0 <= i < old(self).entries@.len() && (#[trigger] old(self).entries@[i]).0 == key
                    && final(self).entries@ == old(self).entries@.update(i, (key, value)),
            !old(self)@.contains_key(key) ==> final(self).entries@ == old(self).entries@.push(
                (key, value),
            ),
    {
        let ghost s = self.entries@;
        proof {
            lemma_assoc_map_contains(s, key);
        }
        match self.position(key) {
            Some(i) => {
                proof {
                    lemma_assoc_map_update(s, i as int, value);
                }
                self.entries[i] = (key, value);
                assert(self.entries@ =~= s.update(i as int, (key, value)));
                assert((#[trigger] old(self).entries@[i as int]).0 == key);
            },
            None => {
                proof {
                    lemma_assoc_map_push(s, key, value);
                }
                self.entries.push((key, value));
            },
        }
    }

    /// Delete the entry under `key`, returning its value if present.
    pub fn remove(&mut self, key: u64) -> (r: Option<V>)
        requires
            old(self).wf(),
        ensures
            final(self).wf(),
            final(self)@ == old(self)@.remove(key),
            match r {
                Some(v) => old(self)@.contains_key(key) && v == old(self)@[key] && exists|i: int|
                    0 <= i < old(self).entries@.len() && (#[trigger] old(self).entries@[i]).0
                        == key && old(self).entries@[i].1 == v
                        && final(self).entries@ == old(self).entries@.remove(i),
                None => !old(self)@.contains_key(key) && *final(self) == *old(self),
            },
            final(self).entries@.len() <= old(self).entries@.len(),
    {
        let ghost s = self.entries@;
        proof {
            lemma_assoc_map_contains(s, key);
        }
        match self.position(key) {
            Some(i) => {
                proof {
                    lemma_assoc_map_index(s, i as int);
                    lemma_assoc_map_remove_at(s, i as int);
                    lemma_distinct_remove(s, i as int);
                }
                let pair = self.entries.remove(i);
                Some(pair.1)
            },
            None => {
                proof {
                    assert(old(self)@.remove(key) =~= old(self)@);
                }
                None
            },
        }
    }
}

} // verus!
