use vstd::prelude::*;

verus! {

/// The first value paired with the key `k`, scanning left to right.
pub open spec fn assoc_find<K, V>(s: Seq<(K, V)>, k: K) -> Option<V>
    decreases s.len(),
{
    if s.len() == 0 {
        None
    } else if s[0].0 == k {
        Some(s[0].1)
    } else {
        assoc_find(s.drop_first(), k)
    }
}

/// No key occurs twice.
pub open spec fn distinct_keys<K, V>(s: Seq<(K, V)>) -> bool {
    forall|i: int, j: int| 0 <= i < j < s.len() ==> s[i].0 != s[j].0
}

/// A match at position `i`, with no earlier match, is what the scan finds.
pub proof fn lemma_assoc_find_at<K, V>(s: Seq<(K, V)>, k: K, i: int)
    requires
        0 <= i < s.len(),
        s[i].0 == k,
        forall|j: int| 0 <= j < i ==> s[j].0 != k,
    ensures
        assoc_find(s, k) == Some(s[i].1),
    decreases i,
{
    if i == 0 {
    } else {
        lemma_assoc_find_at(s.drop_first(), k, i - 1);
    }
}

/// If no entry carries the key, the scan finds nothing.
pub proof fn lemma_assoc_find_none<K, V>(s: Seq<(K, V)>, k: K)
    requires
        forall|j: int| 0 <= j < s.len() ==> s[j].0 != k,
    ensures
        assoc_find(s, k) == None::<V>,
    decreases s.len(),
{
    if s.len() == 0 {
    } else {
        lemma_assoc_find_none(s.drop_first(), k);
    }
}

/// If the scan finds nothing, no entry carries the key.
pub proof fn lemma_assoc_find_absent<K, V>(s: Seq<(K, V)>, k: K)
    requires
        assoc_find(s, k) == None::<V>,
    ensures
        forall|j: int| 0 <= j < s.len() ==> s[j].0 != k,
    decreases s.len(),
{
    if s.len() == 0 {
    } else {
        lemma_assoc_find_absent(s.drop_first(), k);
        assert forall|j: int| 0 <= j < s.len() implies s[j].0 != k by {
            if j > 0 {
                assert(s.drop_first()[j - 1] == s[j]);
            }
        }
    }
}

/// Appending an entry changes only lookups of keys the list did not hold.
pub proof fn lemma_assoc_find_push<K, V>(s: Seq<(K, V)>, k: K, v: V, q: K)
    ensures
        assoc_find(s.push((k, v)), q) == (match assoc_find(s, q) {
            Some(x) => Some(x),
            None => if q == k {
                Some(v)
            } else {
                None
            },
        }),
    decreases s.len(),
{
    let t = s.push((k, v));
    if s.len() == 0 {
        assert(t[0] == (k, v));
        assert(t.drop_first() =~= Seq::<(K, V)>::empty());
        assert(assoc_find(t.drop_first(), q) == None::<V>);
        if q == k {
            assert(assoc_find(t, q) == Some(v));
        } else {
            assert(assoc_find(t, q) == None::<V>);
        }
    } else {
        assert(t[0] == s[0]);
        assert(t.drop_first() =~= s.drop_first().push((k, v)));
        lemma_assoc_find_push(s.drop_first(), k, v, q);
        if s[0].0 == q {
            assert(assoc_find(t, q) == Some(s[0].1));
            assert(assoc_find(s, q) == Some(s[0].1));
        } else {
            assert(assoc_find(t, q) == assoc_find(t.drop_first(), q));
            assert(assoc_find(s, q) == assoc_find(s.drop_first(), q));
        }
    }
}

/// Replacing the entry that holds a key changes only that key's lookup.
pub proof fn lemma_assoc_find_update<K, V>(s: Seq<(K, V)>, i: int, k: K, v: V, q: K)
    requires
        0 <= i < s.len(),
        s[i].0 == k,
        distinct_keys(s),
    ensures
        assoc_find(s.update(i, (k, v)), q) == (if q == k {
            Some(v)
        } else {
            assoc_find(s, q)
        }),
    decreases i,
{
    let t = s.update(i, (k, v));
    if i == 0 {
        assert(t[0] == (k, v));
        if q != k {
            assert(t.drop_first() =~= s.drop_first());
        }
    } else {
        assert(t[0] == s[0]);
        assert(s[0].0 != k);
        assert(t.drop_first() =~= s.drop_first().update(i - 1, (k, v)));
        assert(distinct_keys(s.drop_first())) by {
            assert forall|a: int, b: int|
                0 <= a < b < s.drop_first().len() implies s.drop_first()[a].0
                != s.drop_first()[b].0 by {
                assert(s.drop_first()[a] == s[a + 1]);
                assert(s.drop_first()[b] == s[b + 1]);
            }
        }
        assert(s.drop_first()[i - 1] == s[i]);
        lemma_assoc_find_update(s.drop_first(), i - 1, k, v, q);
    }
}

} // verus!
