//! The LRU store itself.

use vstd::prelude::*;

use crate::model::{distinct_keys, has_key, key_index, lookup, put, touch, without_key};

verus! {

/// A bounded-capacity key/value store with least-recently-used eviction.
///
/// The resident entries live in `entries`, ordered from least recently used
/// (front) to most recently used (back); each entry pairs a key with its
/// value. The view of the whole store is that sequence of entries, and every
/// public operation states its effect over that view.
pub struct CacheLru {
    entries: Vec<(String, usize)>,
    max_capacity: usize,
}

impl View for CacheLru {
    type V = Seq<(Seq<char>, usize)>;

    closed spec fn view(&self) -> Seq<(Seq<char>, usize)> {
        Seq::new(self.entries@.len(), |i: int| (self.entries@[i].0@, self.entries@[i].1))
    }
}

impl CacheLru {
    /// The maximum number of entries this store may hold.
    pub closed spec fn capacity(&self) -> nat {
        self.max_capacity as nat
    }

    /// The store is well formed: the capacity is positive, no key is
    /// resident twice, and the resident count is within the capacity.
    pub open spec fn wf(&self) -> bool {
        &&& self.capacity() >= 1
        &&& distinct_keys(self@)
        &&& self@.len() <= self.capacity()
    }

    /// Creates an empty store that holds at most `max_capacity` entries.
    pub fn new(max_capacity: usize) -> (cache: Self)
        requires
            max_capacity >= 1,
        ensures
            cache.wf(),
            cache@ == Seq::<(Seq<char>, usize)>::empty(),
            cache.capacity() == max_capacity,
    {
        let cache = CacheLru { entries: Vec::new(), max_capacity };
        proof {
            assert(cache@ =~= Seq::<(Seq<char>, usize)>::empty());
        }
        cache
    }

    /// The number of resident entries.
    pub fn len(&self) -> (n: usize)
        ensures
            n == self@.len(),
    {
        self.entries.len()
    }

    /// A diagnostic dump: the resident entries with their values, in
    /// recency order from least to most recently used.
    pub fn entries_lru_to_mru(&self) -> (items: Vec<(String, usize)>)
        ensures
            items@.len() == self@.len(),
            forall|j: int|
                0 <= j < items@.len() ==> (#[trigger] items@[j]).0@ == self@[j].0 && items@[j].1
                    == self@[j].1,
    {
        let mut items: Vec<(String, usize)> = Vec::new();
        let n = self.entries.len();
        let mut i: usize = 0;
        while i < n
            invariant
                i <= n,
                n == self@.len(),
                items@.len() == i,
                forall|j: int|
                    0 <= j < i ==> (#[trigger] items@[j]).0@ == self@[j].0 && items@[j].1
                        == self@[j].1,
            decreases n - i,
        {
            let key = self.entries[i].0.clone();
            let value = self.entries[i].1;
            items.push((key, value));
            i += 1;
        }
        items
    }

    /// Looks the key up in the recency ordering and returns its position.
    fn find_index(&self, key: &String) -> (r: Option<usize>)
        requires
            distinct_keys(self@),
        ensures
            match r {
                Some(i) => {
                    &&& has_key(self@, key@)
                    &&& i < self@.len()
                    &&& i == key_index(self@, key@)
                    &&& self@[i as int].0 == key@
                },
                None => !has_key(self@, key@),
            },
    {
        let n = self.entries.len();
        let mut i: usize = 0;
        while i < n
            invariant
                n == self@.len(),
                i <= n,
                distinct_keys(self@),
                forall|j: int| 0 <= j < i ==> self@[j].0 != key@,
            decreases n - i,
        {
            if self.entries[i].0 == *key {
                proof {
                    assert(self@[i as int].0 == key@);
                    crate::model::lemma_key_index_unique(self@, key@);
                }
                return Some(i);
            }
            i += 1;
        }
        None
    }

    /// Detach-and-relink, first half: removes the entry carrying `key` from
    /// the recency ordering, if present, and hands back its value.
    fn detach_key(&mut self, key: &String) -> (r: Option<usize>)
        requires
            distinct_keys(old(self)@),
        ensures
            final(self)@ == without_key(old(self)@, key@),
            r == lookup(old(self)@, key@),
            final(self).capacity() == old(self).capacity(),
            distinct_keys(final(self)@),
            final(self)@.len() <= old(self)@.len(),
    {
        match self.find_index(key) {
            Some(i) => {
                let ghost pre = self@;
                let entry = self.entries.remove(i);
                proof {
                    assert(self@ =~= pre.remove(i as int));
                    crate::model::lemma_remove_keeps_distinct(pre, i as int);
                }
                Some(entry.1)
            },
            None => None,
        }
    }

    /// Returns the value stored under `key`, or `None` on a miss.
    ///
    /// A hit counts as a touch: the entry is detached from its place in the
    /// recency ordering and relinked at the most-recently-used end, value
    /// unchanged. A miss leaves the store exactly as it was; `get` never
    /// evicts.
    pub fn get(&mut self, key: &str) -> (result: Option<usize>)
        requires
            old(self).wf(),
        ensures
            final(self).wf(),
            final(self).capacity() == old(self).capacity(),
            result == lookup(old(self)@, key@),
            final(self)@ == touch(old(self)@, key@),
    {
        let key_owned: String = key.to_owned();
        let r = self.detach_key(&key_owned);
        match r {
            Some(v) => {
                proof {
                    crate::model::lemma_without_key_detaches(old(self)@, key@);
                }
                let ghost mid = self@;
                self.entries.push((key_owned, v));
                proof {
                    assert(self@ =~= mid.push((key@, v)));
                    crate::model::lemma_push_fresh(mid, key@, v);
                }
                Some(v)
            },
            None => None,
        }
    }

    /// Stores `value` under `key` and marks the entry most recently used.
    ///
    /// An existing entry for `key` is first detached, so the insertion is an
    /// overwrite-and-promote, never a duplicate. If the resident count then
    /// exceeds the capacity, the entry at the least-recently-used end is
    /// evicted; at most one eviction per insertion is ever needed.
    pub fn insert(&mut self, key: &str, value: usize)
        requires
            old(self).wf(),
        ensures
            final(self).wf(),
            final(self).capacity() == old(self).capacity(),
            final(self)@ == put(old(self)@, key@, value, old(self).capacity()),
    {
        let key_owned: String = key.to_owned();
        let _ = self.detach_key(&key_owned);
        proof {
            crate::model::lemma_without_key_detaches(old(self)@, key@);
        }
        let ghost mid = self@;
        self.entries.push((key_owned, value));
        proof {
            assert(self@ =~= mid.push((key@, value)));
            crate::model::lemma_push_fresh(mid, key@, value);
        }
        let ghost grown = self@;
        self.evict_lru();
        proof {
            if grown.len() > old(self).capacity() {
                crate::model::lemma_drop_first_evicts(grown);
            }
        }
    }

    /// Evicts the entry at the least-recently-used end when the resident
    /// count exceeds the capacity; at most one entry ever needs to go.
    fn evict_lru(&mut self)
        ensures
            final(self)@ == (if old(self)@.len() > old(self).capacity() {
                old(self)@.drop_first()
            } else {
                old(self)@
            }),
            final(self).capacity() == old(self).capacity(),
    {
        if self.entries.len() > self.max_capacity {
            let ghost pre = self@;
            self.entries.remove(0);
            proof {
                assert(self@ =~= pre.drop_first());
            }
        }
    }
}

} // verus!
