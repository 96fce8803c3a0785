//! A keyed sequence viewed as an association list: a recursive lookup
//! function over sequences of key/value pairs, and the lemmas that say how
//! lookup behaves under the point updates the registry and the correlator
//! perform.
use vstd::prelude::*;

verus! {

/// The value stored under `k`: the first pair with that key, if any.
pub open spec fn assoc_lookup<K, V>(s: Seq<(K, V)>, k: K) -> Option<V>
    decreases s.len(),
{
    if s.len() == 0 {
        None
    } else if s[0].0 == k {
        Some(s[0].1)
    } else {
        assoc_lookup(s.drop_first(), k)
    }
}

/// No two pairs share a key.
pub open spec fn unique_keys<K, V>(s: Seq<(K, V)>) -> bool {
    forall|i: int, j: int| 0 <= i < j < s.len() ==> s[i].0 != s[j].0
}

/// Lookup of a stored key finds exactly the stored value.
pub proof fn lemma_lookup_at_index<K, V>(s: Seq<(K, V)>, i: int)
    requires
        unique_keys(s),
        0 <= i < s.len(),
    ensures
        assoc_lookup(s, s[i].0) == Some(s[i].1),
    decreases s.len(),
{
    if i == 0 {
    } else {
        assert(s.drop_first()[i - 1] == s[i]);
        assert(unique_keys(s.drop_first())) by {
            assert(forall|a: int, b: int|
                0 <= a < b < s.drop_first().len() ==> s.drop_first()[a].0 == s[a + 1].0
                    && s.drop_first()[b].0 == s[b + 1].0);
        }
        lemma_lookup_at_index(s.drop_first(), i - 1);
    }
}

/// Lookup succeeds exactly when some pair carries the key.
pub proof fn lemma_lookup_has<K, V>(s: Seq<(K, V)>, k: K)
    ensures
        assoc_lookup(s, k) is Some <==> exists|i: int| 0 <= i < s.len() && s[i].0 == k,
    decreases s.len(),
{
    if s.len() != 0 {
        lemma_lookup_has(s.drop_first(), k);
        if s[0].0 != k {
            assert(forall|i: int|
                0 <= i < s.drop_first().len() ==> s.drop_first()[i] == s[i + 1]);
            if exists|i: int| 0 <= i < s.len() && s[i].0 == k {
                let i = choose|i: int| 0 <= i < s.len() && s[i].0 == k;
                assert(s.drop_first()[i - 1].0 == k);
            }
        }
    }
}

/// Overwriting the value at index `i` changes lookup only for that key.
pub proof fn lemma_lookup_update<K, V>(s: Seq<(K, V)>, i: int, v: V, k: K)
    requires
        unique_keys(s),
        0 <= i < s.len(),
    ensures
        assoc_lookup(s.update(i, (s[i].0, v)), k) == (if k == s[i].0 {
            Some(v)
        } else {
            assoc_lookup(s, k)
        }),
    decreases s.len(),
{
    let t = s.update(i, (s[i].0, v));
    if i == 0 {
        if s[0].0 != k {
            assert(t.drop_first() =~= s.drop_first());
        }
    } else {
        assert(unique_keys(s.drop_first()));
        assert(t[0] == s[0]);
        assert(t.drop_first() =~= s.drop_first().update(i - 1, (s[i].0, v)));
        assert(s.drop_first()[i - 1] == s[i]);
        lemma_lookup_update(s.drop_first(), i - 1, v, k);
    }
}

/// Removing the pair at index `i` erases its key and leaves all others.
pub proof fn lemma_lookup_remove<K, V>(s: Seq<(K, V)>, i: int, k: K)
    requires
        unique_keys(s),
        0 <= i < s.len(),
    ensures
        assoc_lookup(s.remove(i), k) == (if k == s[i].0 {
            Option::<V>::None
        } else {
            assoc_lookup(s, k)
        }),
    decreases s.len(),
{
    let t = s.remove(i);
    if i == 0 {
        assert(t =~= s.drop_first());
        if k == s[0].0 {
            lemma_lookup_has(s.drop_first(), k);
        }
    } else {
        assert(unique_keys(s.drop_first()));
        assert(t[0] == s[0]);
        assert(t.drop_first() =~= s.drop_first().remove(i - 1));
        assert(s.drop_first()[i - 1] == s[i]);
        lemma_lookup_remove(s.drop_first(), i - 1, k);
    }
}

/// Inserting a pair with a fresh key adds that key and leaves all others.
pub proof fn lemma_lookup_insert<K, V>(s: Seq<(K, V)>, i: int, p: (K, V), k: K)
    requires
        0 <= i <= s.len(),
        forall|j: int| 0 <= j < s.len() ==> s[j].0 != p.0,
    ensures
        assoc_lookup(s.insert(i, p), k) == (if k == p.0 {
            Some(p.1)
        } else {
            assoc_lookup(s, k)
        }),
    decreases s.len(),
{
    let t = s.insert(i, p);
    if i == 0 {
        assert(t[0] == p);
        assert(t.drop_first() =~= s);
        if k == p.0 {
        } else {
        }
    } else {
        assert(t[0] == s[0]);
        assert(t.drop_first() =~= s.drop_first().insert(i - 1, p));
        assert(forall|j: int|
            0 <= j < s.drop_first().len() ==> s.drop_first()[j].0 == s[j + 1].0);
        lemma_lookup_insert(s.drop_first(), i - 1, p, k);
        if k == s[0].0 {
            lemma_lookup_has(s, k);
        }
    }
}

} // verus!
