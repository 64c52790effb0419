//! Sequences of key/value pairs with unique keys, used as small lookup tables.

use vstd::prelude::*;

verus! {

/// The value stored under key `k`, searching from the back of the sequence.
pub open spec fn table_lookup<K, V>(s: Seq<(K, V)>, k: K) -> Option<V>
    decreases s.len(),
{
    if s.len() == 0 {
        None
    } else if s.last().0 == k {
        Some(s.last().1)
    } else {
        table_lookup(s.drop_last(), k)
    }
}

/// No two entries share a key.
pub open spec fn keys_unique<K, V>(s: Seq<(K, V)>) -> bool {
    forall|i: int, j: int| 0 <= i < j < s.len() ==> s[i].0 != s[j].0
}

/// A key is found exactly when some entry holds it.
pub proof fn lemma_lookup_exists<K, V>(s: Seq<(K, V)>, k: K)
    ensures
        (table_lookup(s, k) is Some) <==> (exists|i: int| 0 <= i < s.len() && s[i].0 == k),
    decreases s.len(),
{
    if s.len() == 0 {
    } else {
        lemma_lookup_exists(s.drop_last(), k);
        if s.last().0 == k {
            assert(s[s.len() - 1].0 == k);
        } else {
            if table_lookup(s, k) is Some {
                let i = choose|i: int| 0 <= i < s.drop_last().len() && s.drop_last()[i].0 == k;
                assert(s[i].0 == k);
            }
            if exists|i: int| 0 <= i < s.len() && s[i].0 == k {
                let i = choose|i: int| 0 <= i < s.len() && s[i].0 == k;
                assert(i < s.len() - 1);
                assert(s.drop_last()[i].0 == k);
            }
        }
    }
}

/// With unique keys, lookup at the key of the entry at index `i` returns that entry's value.
pub proof fn lemma_lookup_at_index<K, V>(s: Seq<(K, V)>, i: int)
    requires
        keys_unique(s),
        0 <= i < s.len(),
    ensures
        table_lookup(s, s[i].0) == Some(s[i].1),
    decreases s.len(),
{
    if i == s.len() - 1 {
    } else {
        assert(s.last().0 != s[i].0);
        assert(keys_unique(s.drop_last()));
        lemma_lookup_at_index(s.drop_last(), i);
    }
}

/// Appending a fresh entry changes lookup at its key only.
pub proof fn lemma_lookup_push<K, V>(s: Seq<(K, V)>, k0: K, v0: V, k: K)
    ensures
        table_lookup(s.push((k0, v0)), k) == (if k == k0 {
            Some(v0)
        } else {
            table_lookup(s, k)
        }),
{
    assert(s.push((k0, v0)).drop_last() =~= s);
}

/// Replacing the value at index `i`, keeping its key, changes lookup at that key only.
pub proof fn lemma_lookup_update<K, V>(s: Seq<(K, V)>, i: int, v: V, k: K)
    requires
        keys_unique(s),
        0 <= i < s.len(),
    ensures
        table_lookup(s.update(i, (s[i].0, v)), k) == (if k == s[i].0 {
            Some(v)
        } else {
            table_lookup(s, k)
        }),
    decreases s.len(),
{
    let t = s.update(i, (s[i].0, v));
    if i == s.len() - 1 {
        assert(t.drop_last() =~= s.drop_last());
        assert(t.last() == (s[i].0, v));
    } else {
        assert(t.last() == s.last());
        assert(s.last().0 != s[i].0);
        assert(keys_unique(s.drop_last()));
        assert(t.drop_last() =~= s.drop_last().update(i, (s[i].0, v)));
        lemma_lookup_update(s.drop_last(), i, v, k);
    }
}

} // verus!
