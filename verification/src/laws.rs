//! Proofs of the cache's headline properties over the sequence model.
//!
//! `CacheLru::get` and `CacheLru::insert` state their effect as the model
//! transitions `touch` and `put`; the proof functions here pin down what
//! those transitions do: misses stay misses, a fresh insertion is readable
//! back, the capacity bounds the resident count, a full cache evicts exactly
//! its least-recently-used entry, a touch protects an entry from eviction,
//! and an overwrite updates in place.

use vstd::prelude::*;

use crate::model::{
    distinct_keys, has_key, key_index, lemma_drop_first_evicts, lemma_key_index_unique,
    lemma_push_fresh, lemma_without_key_detaches, lookup, put, touch, without_key,
};

verus! {

/// A key that was never inserted stays absent across an insertion of a
/// different key, so a later `get` of it still answers a miss.
pub proof fn absent_key_stays_absent_on_put(
    s: Seq<(Seq<char>, usize)>,
    k: Seq<char>,
    v: usize,
    cap: nat,
    other: Seq<char>,
)
    requires
        !has_key(s, other),
        other != k,
    ensures
        !has_key(put(s, k, v, cap), other),
        lookup(put(s, k, v, cap), other) == None::<usize>,
{
}

/// A key that was never inserted stays absent across a `get` of any key, so
/// a later `get` of it still answers a miss.
pub proof fn absent_key_stays_absent_on_touch(
    s: Seq<(Seq<char>, usize)>,
    k: Seq<char>,
    other: Seq<char>,
)
    requires
        distinct_keys(s),
        !has_key(s, other),
    ensures
        !has_key(touch(s, k), other),
        lookup(touch(s, k), other) == None::<usize>,
{
    touch_changes_no_value(s, k);
}

/// A touch changes no value and no resident count: it only reorders. When
/// the key is resident it ends up at the most-recently-used end.
pub proof fn touch_changes_no_value(s: Seq<(Seq<char>, usize)>, k: Seq<char>)
    requires
        distinct_keys(s),
    ensures
        distinct_keys(touch(s, k)),
        touch(s, k).len() == s.len(),
        forall|other: Seq<char>| #[trigger] lookup(touch(s, k), other) == lookup(s, other),
        has_key(s, k) ==> touch(s, k).last() == (k, lookup(s, k)->Some_0),
{
    if has_key(s, k) {
        lemma_key_index_unique(s, k);
        lemma_without_key_detaches(s, k);
        lemma_push_fresh(without_key(s, k), k, s[key_index(s, k)].1);
    }
}

/// Round trip: immediately after `insert(k, v)`, a `get` of `k` answers
/// `v`, whether or not the insertion evicted some other entry.
pub proof fn put_then_lookup(s: Seq<(Seq<char>, usize)>, k: Seq<char>, v: usize, cap: nat)
    requires
        distinct_keys(s),
        s.len() <= cap,
        cap >= 1,
    ensures
        lookup(put(s, k, v, cap), k) == Some(v),
{
    lemma_without_key_detaches(s, k);
    let mid = without_key(s, k);
    lemma_push_fresh(mid, k, v);
    let grown = mid.push((k, v));
    if grown.len() > cap {
        assert(grown[0] == mid[0]);
        lemma_drop_first_evicts(grown);
    }
}

/// The capacity bound: an insertion into a cache whose resident count is
/// within its capacity leaves the count within the capacity.
pub proof fn put_respects_capacity(s: Seq<(Seq<char>, usize)>, k: Seq<char>, v: usize, cap: nat)
    requires
        distinct_keys(s),
        s.len() <= cap,
    ensures
        put(s, k, v, cap).len() <= cap,
        distinct_keys(put(s, k, v, cap)),
{
    lemma_without_key_detaches(s, k);
    let mid = without_key(s, k);
    lemma_push_fresh(mid, k, v);
    let grown = mid.push((k, v));
    if grown.len() > cap {
        lemma_drop_first_evicts(grown);
    }
}

/// Eviction order: inserting a fresh key into a full cache evicts exactly
/// the least-recently-used entry — the front of the ordering — and no
/// other. In particular, inserting `cap + 1` distinct keys one after
/// another evicts the first-inserted key and only that one.
pub proof fn put_full_evicts_lru(s: Seq<(Seq<char>, usize)>, k: Seq<char>, v: usize, cap: nat)
    requires
        distinct_keys(s),
        s.len() == cap,
        cap >= 1,
        !has_key(s, k),
    ensures
        put(s, k, v, cap) == s.drop_first().push((k, v)),
        !has_key(put(s, k, v, cap), s[0].0),
        lookup(put(s, k, v, cap), k) == Some(v),
        forall|other: Seq<char>|
            other != s[0].0 && other != k ==> #[trigger] lookup(put(s, k, v, cap), other) == lookup(
                s,
                other,
            ),
{
    lemma_push_fresh(s, k, v);
    let grown = s.push((k, v));
    assert(grown[0] == s[0]);
    lemma_drop_first_evicts(grown);
    assert(put(s, k, v, cap) =~= s.drop_first().push((k, v)));
}

/// Promote on read: once a resident key has been touched, inserting a fresh
/// key into the full cache evicts some other, less recently used entry, and
/// the touched key keeps its value.
pub proof fn touch_protects_from_eviction(
    s: Seq<(Seq<char>, usize)>,
    k: Seq<char>,
    fresh: Seq<char>,
    v: usize,
    cap: nat,
)
    requires
        distinct_keys(s),
        has_key(s, k),
        s.len() == cap,
        cap >= 2,
        !has_key(s, fresh),
    ensures
        lookup(put(touch(s, k), fresh, v, cap), k) == lookup(s, k),
        has_key(put(touch(s, k), fresh, v, cap), k),
{
    touch_changes_no_value(s, k);
    let t = touch(s, k);
    assert(lookup(t, fresh) == lookup(s, fresh));
    assert(!has_key(t, fresh));
    lemma_push_fresh(t, fresh, v);
    let grown = t.push((fresh, v));
    assert(grown[0] == t[0]);
    assert(t.last() == t[cap - 1]);
    assert(t[0].0 != t[cap - 1].0);
    lemma_drop_first_evicts(grown);
    assert(lookup(grown.drop_first(), k) == lookup(grown, k));
    assert(lookup(grown, k) == lookup(t, k));
    assert(lookup(t, k) == lookup(s, k));
}

/// Overwrite: re-inserting a resident key updates its value in place — the
/// resident count does not grow, nothing is evicted, and every other key
/// keeps its value.
pub proof fn put_overwrites(s: Seq<(Seq<char>, usize)>, k: Seq<char>, v: usize, cap: nat)
    requires
        distinct_keys(s),
        has_key(s, k),
        s.len() <= cap,
    ensures
        put(s, k, v, cap).len() == s.len(),
        lookup(put(s, k, v, cap), k) == Some(v),
        forall|other: Seq<char>|
            other != k ==> #[trigger] lookup(put(s, k, v, cap), other) == lookup(s, other),
{
    lemma_without_key_detaches(s, k);
    let mid = without_key(s, k);
    lemma_push_fresh(mid, k, v);
}

} // verus!

