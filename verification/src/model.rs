//! Mathematical model of the cache contents.
//!
//! A cache state is a sequence of `(key, value)` pairs ordered from least
//! recently used (front) to most recently used (back). The spec functions
//! here describe lookup and the state transitions of `get` and `insert`;
//! the proof functions establish the facts about them that the executable
//! code and the public laws rely on.

use vstd::prelude::*;

verus! {

/// Whether some entry of `s` carries the key `k`.
pub open spec fn has_key(s: Seq<(Seq<char>, usize)>, k: Seq<char>) -> bool {
    exists|i: int| 0 <= i < s.len() && s[i].0 == k
}

/// The position of the entry carrying `k`; meaningful only when `has_key`
/// holds, and unique once the keys of `s` are distinct.
pub open spec fn key_index(s: Seq<(Seq<char>, usize)>, k: Seq<char>) -> int {
    choose|i: int| 0 <= i < s.len() && s[i].0 == k
}

/// The value stored under `k`, or `None` when `k` is not resident.
pub open spec fn lookup(s: Seq<(Seq<char>, usize)>, k: Seq<char>) -> Option<usize> {
    if has_key(s, k) {
        Some(s[key_index(s, k)].1)
    } else {
        None
    }
}

/// No two entries of `s` carry the same key.
pub open spec fn distinct_keys(s: Seq<(Seq<char>, usize)>) -> bool {
    forall|i: int, j: int| 0 <= i < j < s.len() ==> s[i].0 != s[j].0
}

/// `s` with the entry carrying `k` detached; `s` itself when `k` is absent.
pub open spec fn without_key(s: Seq<(Seq<char>, usize)>, k: Seq<char>) -> Seq<
    (Seq<char>, usize),
> {
    if has_key(s, k) {
        s.remove(key_index(s, k))
    } else {
        s
    }
}

/// The state after `get(k)` finds `k`: the entry is detached from its place
/// and relinked at the most-recently-used end, value unchanged. A miss
/// leaves the state as it was.
pub open spec fn touch(s: Seq<(Seq<char>, usize)>, k: Seq<char>) -> Seq<(Seq<char>, usize)> {
    if has_key(s, k) {
        without_key(s, k).push((k, s[key_index(s, k)].1))
    } else {
        s
    }
}

/// The state after `insert(k, v)` into a cache of capacity `cap`: any old
/// entry for `k` is detached, the new entry is linked at the
/// most-recently-used end, and if the count now exceeds `cap` the
/// least-recently-used entry (the front) is evicted.
pub open spec fn put(s: Seq<(Seq<char>, usize)>, k: Seq<char>, v: usize, cap: nat) -> Seq<
    (Seq<char>, usize),
> {
    let grown = without_key(s, k).push((k, v));
    if grown.len() > cap {
        grown.drop_first()
    } else {
        grown
    }
}

/// When the keys of `s` are distinct, `key_index` is the one position that
/// carries `k`.
pub proof fn lemma_key_index_unique(s: Seq<(Seq<char>, usize)>, k: Seq<char>)
    requires
        distinct_keys(s),
        has_key(s, k),
    ensures
        0 <= key_index(s, k) < s.len(),
        s[key_index(s, k)].0 == k,
        forall|i: int| 0 <= i < s.len() && s[i].0 == k ==> i == key_index(s, k),
{
    let w = key_index(s, k);
    assert(0 <= w < s.len() && s[w].0 == k);
    assert forall|i: int| 0 <= i < s.len() && s[i].0 == k implies i == w by {
        if i < w {
            assert(s[i].0 != s[w].0);
        } else if w < i {
            assert(s[w].0 != s[i].0);
        }
    }
}

/// Detaching a key removes it entirely and leaves every other key, and its
/// value, in place.
pub proof fn lemma_without_key_detaches(s: Seq<(Seq<char>, usize)>, k: Seq<char>)
    requires
        distinct_keys(s),
    ensures
        distinct_keys(without_key(s, k)),
        !has_key(without_key(s, k), k),
        without_key(s, k).len() == (if has_key(s, k) {
            s.len() - 1
        } else {
            s.len() as int
        }),
        forall|other: Seq<char>|
            other != k ==> #[trigger] lookup(without_key(s, k), other) == lookup(s, other),
{
    if has_key(s, k) {
        lemma_key_index_unique(s, k);
        let i = key_index(s, k);
        let r = s.remove(i);
        s.remove_ensures(i);
        lemma_remove_keeps_distinct(s, i);
        assert forall|j: int| 0 <= j < r.len() implies r[j].0 != k by {
            let j0 = if j < i { j } else { j + 1 };
            assert(r[j] == s[j0]);
        }
        assert(!has_key(r, k));
        assert forall|other: Seq<char>| other != k implies #[trigger] lookup(r, other) == lookup(
            s,
            other,
        ) by {
            if has_key(s, other) {
                lemma_key_index_unique(s, other);
                let j = key_index(s, other);
                let jr = if j < i { j } else { j - 1 };
                assert(r[jr] == s[j]);
                assert(has_key(r, other));
                lemma_key_index_unique(r, other);
                let jq = key_index(r, other);
                let j0 = if jq < i { jq } else { jq + 1 };
                assert(r[jq] == s[j0]);
                assert(j0 == key_index(s, other));
            } else {
                assert forall|j: int| 0 <= j < r.len() implies r[j].0 != other by {
                    let j0 = if j < i { j } else { j + 1 };
                    assert(r[j] == s[j0]);
                }
            }
        }
    }
}

/// Linking a fresh key at the most-recently-used end keeps the keys
/// distinct, stores its value, and disturbs no other key.
pub proof fn lemma_push_fresh(s: Seq<(Seq<char>, usize)>, k: Seq<char>, v: usize)
    requires
        distinct_keys(s),
        !has_key(s, k),
    ensures
        distinct_keys(s.push((k, v))),
        lookup(s.push((k, v)), k) == Some(v),
        forall|other: Seq<char>|
            other != k ==> #[trigger] lookup(s.push((k, v)), other) == lookup(s, other),
{
    let p = s.push((k, v));
    assert(p[s.len() as int] == (k, v));
    assert forall|a: int, b: int| 0 <= a < b < p.len() implies p[a].0 != p[b].0 by {
        if b < s.len() {
            assert(s[a].0 != s[b].0);
        } else {
            assert(p[a] == s[a]);
        }
    }
    assert(has_key(p, k));
    lemma_key_index_unique(p, k);
    assert forall|other: Seq<char>| other != k implies #[trigger] lookup(p, other) == lookup(
        s,
        other,
    ) by {
        if has_key(s, other) {
            lemma_key_index_unique(s, other);
            let j = key_index(s, other);
            assert(p[j] == s[j]);
            assert(has_key(p, other));
            lemma_key_index_unique(p, other);
            let jp = key_index(p, other);
            assert(p[jp] == s[jp]);
        } else {
            assert forall|j: int| 0 <= j < p.len() implies p[j].0 != other by {
                if j < s.len() {
                    assert(p[j] == s[j]);
                }
            }
        }
    }
}

/// Evicting the least-recently-used entry removes exactly the front key and
/// disturbs no other key.
pub proof fn lemma_drop_first_evicts(s: Seq<(Seq<char>, usize)>)
    requires
        distinct_keys(s),
        s.len() >= 1,
    ensures
        distinct_keys(s.drop_first()),
        !has_key(s.drop_first(), s[0].0),
        s.drop_first().len() == s.len() - 1,
        forall|other: Seq<char>|
            other != s[0].0 ==> #[trigger] lookup(s.drop_first(), other) == lookup(s, other),
{
    let d = s.drop_first();
    assert(forall|j: int| 0 <= j < d.len() ==> d[j] == s[j + 1]);
    assert forall|j: int| 0 <= j < d.len() implies d[j].0 != s[0].0 by {
        assert(d[j] == s[j + 1]);
        assert(s[0].0 != s[j + 1].0);
    }
    assert forall|other: Seq<char>| other != s[0].0 implies #[trigger] lookup(d, other) == lookup(
        s,
        other,
    ) by {
        if has_key(s, other) {
            lemma_key_index_unique(s, other);
            let j = key_index(s, other);
            assert(d[j - 1] == s[j]);
            assert(has_key(d, other));
            lemma_key_index_unique(d, other);
            let jd = key_index(d, other);
            assert(d[jd] == s[jd + 1]);
        } else {
            assert forall|j: int| 0 <= j < d.len() implies d[j].0 != other by {
                assert(d[j] == s[j + 1]);
            }
        }
    }
}

/// Detaching one entry cannot introduce a duplicate key.
pub proof fn lemma_remove_keeps_distinct(s: Seq<(Seq<char>, usize)>, i: int)
    requires
        distinct_keys(s),
        0 <= i < s.len(),
    ensures
        distinct_keys(s.remove(i)),
{
    let r = s.remove(i);
    s.remove_ensures(i);
    assert forall|a: int, b: int| 0 <= a < b < r.len() implies r[a].0 != r[b].0 by {
        let a0 = if a < i { a } else { a + 1 };
        let b0 = if b < i { b } else { b + 1 };
        assert(r[a] == s[a0]);
        assert(r[b] == s[b0]);
        assert(s[a0].0 != s[b0].0);
    }
}

} // verus!
