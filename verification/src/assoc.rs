//! Association lists as maps.
//!
//! Both registries store their entries as vectors of key/value pairs with
//! distinct keys and are specified through the finite map those pairs
//! denote.  Later pairs win, so appending a pair is exactly a map
//! insertion; replacing the value at an existing key is too.

use vstd::prelude::*;

verus! {

/// The map an association list denotes; later pairs win.
pub open spec fn assoc_map<K, V>(s: Seq<(K, V)>) -> Map<K, V>
    decreases s.len(),
{
    if s.len() == 0 {
        Map::empty()
    } else {
        assoc_map(s.drop_last()).insert(s.last().0, s.last().1)
    }
}

/// No key occurs twice.
pub open spec fn distinct_keys<K, V>(s: Seq<(K, V)>) -> bool {
    forall|i: int, j: int| 0 <= i < j < s.len() ==> (#[trigger] s[i]).0 != (#[trigger] s[j]).0
}

/// A key is in the map exactly when some pair holds it.
pub proof fn lemma_assoc_contains<K, V>(s: Seq<(K, V)>, k: K)
    ensures
        assoc_map(s).dom().contains(k) <==> exists|i: int| 0 <= i < s.len() && (#[trigger] s[i]).0
            == k,
    decreases s.len(),
{
    if s.len() > 0 {
        lemma_assoc_contains(s.drop_last(), k);
        if s.last().0 == k {
            assert(s[s.len() - 1].0 == k);
        } else if exists|i: int| 0 <= i < s.len() && (#[trigger] s[i]).0 == k {
            let i = choose|i: int| 0 <= i < s.len() && (#[trigger] s[i]).0 == k;
            assert(s.drop_last()[i].0 == k);
        }
    }
}

/// With distinct keys, each pair's key looks up that pair's value.
pub proof fn lemma_assoc_get<K, V>(s: Seq<(K, V)>, i: int)
    requires
        distinct_keys(s),
        0 <= i < s.len(),
    ensures
        assoc_map(s).dom().contains(s[i].0),
        assoc_map(s)[s[i].0] == s[i].1,
    decreases s.len(),
{
    if i == s.len() - 1 {
    } else {
        assert(distinct_keys(s.drop_last()));
        lemma_assoc_get(s.drop_last(), i);
        assert(s[i].0 != s.last().0);
    }
}

/// With distinct keys the map has exactly one entry per pair.
pub proof fn lemma_assoc_len<K, V>(s: Seq<(K, V)>)
    requires
        distinct_keys(s),
    ensures
        assoc_map(s).dom().finite(),
        assoc_map(s).dom().len() == s.len(),
    decreases s.len(),
{
    if s.len() > 0 {
        assert(distinct_keys(s.drop_last()));
        lemma_assoc_len(s.drop_last());
        lemma_assoc_contains(s.drop_last(), s.last().0);
        assert(forall|i: int| 0 <= i < s.drop_last().len() ==> (#[trigger] s.drop_last()[i]).0
            != s.last().0);
        assert(!assoc_map(s.drop_last()).dom().contains(s.last().0));
    }
}

/// Replacing the pair at `j` by one with the same key is a map insertion.
pub proof fn lemma_assoc_update<K, V>(s: Seq<(K, V)>, j: int, p: (K, V))
    requires
        distinct_keys(s),
        0 <= j < s.len(),
        s[j].0 == p.0,
    ensures
        assoc_map(s.update(j, p)) == assoc_map(s).insert(p.0, p.1),
        distinct_keys(s.update(j, p)),
    decreases s.len(),
{
    let s2 = s.update(j, p);
    assert(distinct_keys(s2));
    if j == s.len() - 1 {
        assert(s2.drop_last() =~= s.drop_last());
        assert(s2.last() == p);
        assert(assoc_map(s.drop_last()).insert(s.last().0, s.last().1).insert(p.0, p.1)
            =~= assoc_map(s.drop_last()).insert(p.0, p.1));
    } else {
        assert(s2.drop_last() =~= s.drop_last().update(j, p));
        assert(distinct_keys(s.drop_last()));
        lemma_assoc_update(s.drop_last(), j, p);
        assert(s2.last() == s.last());
        assert(s.last().0 != p.0);
        assert(assoc_map(s.drop_last()).insert(p.0, p.1).insert(s.last().0, s.last().1)
            =~= assoc_map(s.drop_last()).insert(s.last().0, s.last().1).insert(p.0, p.1));
    }
}

} // verus!
