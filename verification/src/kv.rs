//! Association-sequence model shared by every piece of keyed state in the
//! crate: a sequence of `(key, value)` pairs with pairwise-distinct keys,
//! read through `kv_find`, which returns the value of the unique entry for a
//! key, or `None` when no entry carries it.

use vstd::prelude::*;

verus! {

/// Value stored under key `k`, or `None` when no entry carries `k`.
/// Searches from the back; with `kv_unique` the direction is irrelevant.
pub open spec fn kv_find<K, V>(s: Seq<(K, V)>, k: K) -> Option<V>
    decreases s.len(),
{
    if s.len() == 0 {
        None
    } else if s.last().0 == k {
        Some(s.last().1)
    } else {
        kv_find(s.drop_last(), k)
    }
}

/// All keys of the sequence are pairwise distinct.
pub open spec fn kv_unique<K, V>(s: Seq<(K, V)>) -> bool {
    forall|i: int, j: int| 0 <= i < j < s.len() ==> s[i].0 != s[j].0
}

/// A key held by no entry is not found.
pub proof fn lemma_kv_find_absent<K, V>(s: Seq<(K, V)>, k: K)
    requires
        forall|i: int| 0 <= i < s.len() ==> s[i].0 != k,
    ensures
        kv_find(s, k) == None::<V>,
    decreases s.len(),
{
    if s.len() > 0 {
        assert(s.last().0 != k);
        assert forall|i: int| 0 <= i < s.drop_last().len() implies s.drop_last()[i].0 != k by {
            assert(s.drop_last()[i] == s[i]);
        }
        lemma_kv_find_absent(s.drop_last(), k);
    }
}

/// A key that is not found is held by no entry.
pub proof fn lemma_kv_absent_of_find<K, V>(s: Seq<(K, V)>, k: K)
    requires
        kv_find(s, k) == None::<V>,
    ensures
        forall|i: int| 0 <= i < s.len() ==> s[i].0 != k,
    decreases s.len(),
{
    if s.len() > 0 {
        lemma_kv_absent_of_find(s.drop_last(), k);
        assert forall|i: int| 0 <= i < s.len() implies s[i].0 != k by {
            if i < s.len() - 1 {
                assert(s.drop_last()[i] == s[i]);
            }
        }
    }
}

/// Under distinct keys, the entry at any index agrees with `kv_find`.
pub proof fn lemma_kv_find_at<K, V>(s: Seq<(K, V)>, i: int)
    requires
        kv_unique(s),
        0 <= i < s.len(),
    ensures
        kv_find(s, s[i].0) == Some(s[i].1),
    decreases s.len(),
{
    if i == s.len() - 1 {
        assert(s.last() == s[i]);
    } else {
        assert(s[i].0 != s[s.len() - 1].0);
        assert(s.drop_last()[i] == s[i]);
        assert forall|a: int, b: int| 0 <= a < b < s.drop_last().len() implies s.drop_last()[a].0
            != s.drop_last()[b].0 by {
            assert(s.drop_last()[a] == s[a] && s.drop_last()[b] == s[b]);
        }
        lemma_kv_find_at(s.drop_last(), i);
    }
}

/// Overwriting the entry at index `i` with the same key changes `kv_find`
/// exactly at that key, and keeps the keys distinct.
pub proof fn lemma_kv_find_update<K, V>(s: Seq<(K, V)>, i: int, e: (K, V), k2: K)
    requires
        kv_unique(s),
        0 <= i < s.len(),
        e.0 == s[i].0,
    ensures
        kv_find(s.update(i, e), k2) == if k2 == e.0 {
            Some(e.1)
        } else {
            kv_find(s, k2)
        },
        kv_unique(s.update(i, e)),
    decreases s.len(),
{
    let t = s.update(i, e);
    assert forall|a: int, b: int| 0 <= a < b < t.len() implies t[a].0 != t[b].0 by {
        assert(t[a].0 == s[a].0 && t[b].0 == s[b].0);
    }
    if i == s.len() - 1 {
        assert(t.last() == e);
        if k2 != e.0 {
            assert(t.drop_last() =~= s.drop_last());
        }
    } else {
        assert(t.last() == s.last());
        assert(s[i].0 != s[s.len() - 1].0);
        if s.last().0 == k2 {
            assert(k2 != e.0);
        } else {
            assert(t.drop_last() =~= s.drop_last().update(i, e));
            assert(s.drop_last()[i] == s[i]);
            assert forall|a: int, b: int| 0 <= a < b < s.drop_last().len() implies s.drop_last()[a].0
                != s.drop_last()[b].0 by {
                assert(s.drop_last()[a] == s[a] && s.drop_last()[b] == s[b]);
            }
            lemma_kv_find_update(s.drop_last(), i, e, k2);
        }
    }
}

/// A found key is held by some entry.
pub proof fn lemma_kv_find_some_index<K, V>(s: Seq<(K, V)>, k: K)
    requires
        kv_find(s, k) is Some,
    ensures
        exists|i: int| 0 <= i < s.len() && #[trigger] s[i].0 == k,
    decreases s.len(),
{
    if s.len() > 0 {
        if s.last().0 == k {
            assert(s[s.len() - 1].0 == k);
        } else {
            lemma_kv_find_some_index(s.drop_last(), k);
            let i = choose|i: int|
                0 <= i < s.drop_last().len() && #[trigger] s.drop_last()[i].0 == k;
            assert(s[i].0 == k);
        }
    }
}

/// Appending an entry changes `kv_find` exactly at the appended key.
pub proof fn lemma_kv_find_push<K, V>(s: Seq<(K, V)>, e: (K, V), k2: K)
    ensures
        kv_find(s.push(e), k2) == if k2 == e.0 {
            Some(e.1)
        } else {
            kv_find(s, k2)
        },
{
    assert(s.push(e).last() == e);
    assert(s.push(e).drop_last() =~= s);
}

/// Appending an entry whose key is held by no existing entry keeps the keys
/// distinct.
pub proof fn lemma_kv_unique_push<K, V>(s: Seq<(K, V)>, e: (K, V))
    requires
        kv_unique(s),
        forall|i: int| 0 <= i < s.len() ==> s[i].0 != e.0,
    ensures
        kv_unique(s.push(e)),
{
    let t = s.push(e);
    assert forall|a: int, b: int| 0 <= a < b < t.len() implies t[a].0 != t[b].0 by {
        if b < s.len() {
            assert(t[a] == s[a] && t[b] == s[b]);
        } else {
            assert(t[a] == s[a] && t[b] == e);
        }
    }
}

} // verus!
