use vstd::prelude::*;

verus! {

/// The mapping denoted by a sequence of key/value entries. A later entry
/// overwrites an earlier one with the same key; the registries of this
/// library keep their keys distinct, so for them no overwriting ever happens.
pub open spec fn assoc_map<K, V>(s: Seq<(K, V)>) -> Map<K, V>
    decreases s.len(),
{
    if s.len() == 0 {
        Map::empty()
    } else {
        assoc_map(s.drop_last()).insert(s.last().0, s.last().1)
    }
}

/// Whether some entry of `s` carries the key `k`.
pub open spec fn has_key<K, V>(s: Seq<(K, V)>, k: K) -> bool {
    exists|i: int| 0 <= i < s.len() && (#[trigger] s[i]).0 == k
}

/// Whether no two entries of `s` share a key.
pub open spec fn distinct_keys<K, V>(s: Seq<(K, V)>) -> bool {
    forall|i: int, j: int| 0 <= i < j < s.len() ==> (#[trigger] s[i]).0 != (#[trigger] s[j]).0
}

/// The mapping contains exactly the keys that some entry carries.
pub proof fn lemma_assoc_map_dom<K, V>(s: Seq<(K, V)>, k: K)
    ensures
        assoc_map(s).contains_key(k) <==> has_key(s, k),
    decreases s.len(),
{
    if s.len() > 0 {
        lemma_assoc_map_dom(s.drop_last(), k);
        if has_key(s.drop_last(), k) {
            let i = choose|i: int| 0 <= i < s.drop_last().len() && (#[trigger] s.drop_last()[i]).0 == k;
            assert(s[i].0 == k);
        }
        if s.last().0 == k {
            assert((#[trigger] s[s.len() - 1]).0 == k);
        }
        if has_key(s, k) && s.last().0 != k {
            let i = choose|i: int| 0 <= i < s.len() && (#[trigger] s[i]).0 == k;
            assert(s.drop_last()[i].0 == k);
        }
    }
}

/// Under distinct keys, the entry at index `i` gives the mapping's value at
/// its key.
pub proof fn lemma_assoc_map_index<K, V>(s: Seq<(K, V)>, i: int)
    requires
        distinct_keys(s),
        0 <= i < s.len(),
    ensures
        assoc_map(s).contains_key(s[i].0),
        assoc_map(s)[s[i].0] == s[i].1,
    decreases s.len(),
{
    if i < s.len() - 1 {
        assert(s.drop_last()[i] == s[i]);
        lemma_assoc_map_index(s.drop_last(), i);
        assert(s[i].0 != s.last().0);
    }
}

/// The last entry carrying a key gives the mapping's value at that key.
pub proof fn lemma_assoc_map_last_index<K, V>(s: Seq<(K, V)>, i: int)
    requires
        0 <= i < s.len(),
        forall|j: int| i < j < s.len() ==> (#[trigger] s[j]).0 != s[i].0,
    ensures
        assoc_map(s).contains_key(s[i].0),
        assoc_map(s)[s[i].0] == s[i].1,
    decreases s.len(),
{
    if i < s.len() - 1 {
        assert(s.drop_last()[i] == s[i]);
        assert(forall|j: int|
            i < j < s.drop_last().len() ==> (#[trigger] s.drop_last()[j]).0 != s.drop_last()[i].0);
        lemma_assoc_map_last_index(s.drop_last(), i);
        assert((#[trigger] s[s.len() - 1]).0 != s[i].0);
    }
}

/// A key carried by no entry is absent from the mapping.
pub proof fn lemma_assoc_map_absent<K, V>(s: Seq<(K, V)>, k: K)
    requires
        forall|i: int| 0 <= i < s.len() ==> (#[trigger] s[i]).0 != k,
    ensures
        !assoc_map(s).contains_key(k),
    decreases s.len(),
{
    if s.len() > 0 {
        assert(forall|i: int| 0 <= i < s.drop_last().len() ==> (#[trigger] s.drop_last()[i]).0 != k);
        lemma_assoc_map_absent(s.drop_last(), k);
        assert((#[trigger] s[s.len() - 1]).0 != k);
    }
}

/// Appending an entry inserts its key/value pair into the mapping.
pub proof fn lemma_assoc_map_push<K, V>(s: Seq<(K, V)>, k: K, v: V)
    ensures
        assoc_map(s.push((k, v))) == assoc_map(s).insert(k, v),
{
    assert(s.push((k, v)).drop_last() =~= s);
}

/// Under distinct keys, removing the entry at index `i` removes exactly its
/// key from the mapping.
pub proof fn lemma_assoc_map_remove<K, V>(s: Seq<(K, V)>, i: int)
    requires
        distinct_keys(s),
        0 <= i < s.len(),
    ensures
        assoc_map(s.remove(i)) == assoc_map(s).remove(s[i].0),
    decreases s.len(),
{
    if i == s.len() - 1 {
        assert(s.remove(i) =~= s.drop_last());
        assert(forall|j: int|
            0 <= j < s.drop_last().len() ==> (#[trigger] s.drop_last()[j]).0 != s[i].0);
        lemma_assoc_map_absent(s.drop_last(), s[i].0);
        assert(assoc_map(s.drop_last()) =~= assoc_map(s.drop_last()).insert(s.last().0, s.last().1)
            .remove(s[i].0));
    } else {
        assert(s.remove(i).drop_last() =~= s.drop_last().remove(i));
        assert(s.drop_last()[i] == s[i]);
        lemma_assoc_map_remove(s.drop_last(), i);
        assert(s.remove(i).last() == s.last());
        assert(s[i].0 != s.last().0);
        assert(assoc_map(s.drop_last()).remove(s[i].0).insert(s.last().0, s.last().1)
            =~= assoc_map(s.drop_last()).insert(s.last().0, s.last().1).remove(s[i].0));
    }
}

/// Appending an entry with a fresh key keeps the keys distinct.
pub proof fn lemma_distinct_keys_push<K, V>(s: Seq<(K, V)>, k: K, v: V)
    requires
        distinct_keys(s),
        !has_key(s, k),
    ensures
        distinct_keys(s.push((k, v))),
{
    assert forall|i: int, j: int| 0 <= i < j < s.push((k, v)).len() implies (#[trigger] s.push(
        (k, v),
    )[i]).0 != (#[trigger] s.push((k, v))[j]).0 by {
        if j == s.len() {
            assert(!((#[trigger] s[i]).0 == k));
        }
    }
}

/// Removing an entry keeps the keys distinct.
pub proof fn lemma_distinct_keys_remove<K, V>(s: Seq<(K, V)>, n: int)
    requires
        distinct_keys(s),
        0 <= n < s.len(),
    ensures
        distinct_keys(s.remove(n)),
{
    assert forall|i: int, j: int| 0 <= i < j < s.remove(n).len() implies (#[trigger] s.remove(
        n,
    )[i]).0 != (#[trigger] s.remove(n)[j]).0 by {
        let i0: int = if i < n { i } else { i + 1 };
        let j0: int = if j < n { j } else { j + 1 };
        assert(s.remove(n)[i] == s[i0]);
        assert(s.remove(n)[j] == s[j0]);
    }
}

/// Removing a key and then re-inserting the value it carried restores the
/// original mapping: the idempotence behind deleting and re-adding an
/// identical registry entry.
pub proof fn lemma_remove_then_insert<K, V>(m: Map<K, V>, k: K, v: V)
    requires
        m.contains_key(k),
        m[k] == v,
    ensures
        m.remove(k).insert(k, v) == m,
{
    assert(m.remove(k).insert(k, v) =~= m);
}

} // verus!
