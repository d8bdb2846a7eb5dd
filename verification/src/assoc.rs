//! Association lists as maps.
//!
//! The containers of this crate keep their entries in a vector of pairs and
//! are modelled by the map that the pairs stand for: each pair overrides the
//! ones before it. This module holds that reading and what follows from it.

use vstd::prelude::*;

verus! {

/// The map that a sequence of key-value pairs stands for, where a later pair
/// overrides an earlier one with the same key.
pub open spec fn to_map<K, V>(s: Seq<(K, V)>) -> Map<K, V>
    decreases s.len(),
{
    if s.len() == 0 {
        Map::empty()
    } else {
        to_map(s.drop_last()).insert(s.last().0, s.last().1)
    }
}

/// The pair that counts for a key is the last one that carries it.
pub proof fn lemma_last_wins<K, V>(s: Seq<(K, V)>, k: K, i: int)
    requires
        0 <= i < s.len(),
        s[i].0 == k,
        forall|j: int| i < j < s.len() ==> s[j].0 != k,
    ensures
        to_map(s).contains_key(k),
        to_map(s)[k] == s[i].1,
    decreases s.len(),
{
    if i < s.len() - 1 {
        lemma_last_wins(s.drop_last(), k, i);
    }
}

/// A key that no pair carries is not in the map.
pub proof fn lemma_absent<K, V>(s: Seq<(K, V)>, k: K)
    requires
        forall|j: int| 0 <= j < s.len() ==> s[j].0 != k,
    ensures
        !to_map(s).contains_key(k),
    decreases s.len(),
{
    if s.len() > 0 {
        lemma_absent(s.drop_last(), k);
    }
}

/// The key of every pair is in the map.
pub proof fn lemma_carried<K, V>(s: Seq<(K, V)>, i: int)
    requires
        0 <= i < s.len(),
    ensures
        to_map(s).contains_key(s[i].0),
    decreases s.len(),
{
    if i < s.len() - 1 {
        lemma_carried(s.drop_last(), i);
    }
}

/// Every key in the map is carried by some pair, and the value under it is
/// that of one such pair.
pub proof fn lemma_present<K, V>(s: Seq<(K, V)>, k: K)
    requires
        to_map(s).contains_key(k),
    ensures
        exists|j: int| 0 <= j < s.len() && s[j].0 == k && s[j].1 == to_map(s)[k],
    decreases s.len(),
{
    if s.len() > 0 {
        if s.last().0 == k {
            assert(s[s.len() - 1].0 == k && s[s.len() - 1].1 == to_map(s)[k]);
        } else {
            lemma_present(s.drop_last(), k);
            let j = choose|j: int|
                0 <= j < s.drop_last().len() && s.drop_last()[j].0 == k && s.drop_last()[j].1
                    == to_map(s.drop_last())[k];
            assert(s[j].0 == k && s[j].1 == to_map(s)[k]);
        }
    }
}

/// Replacing the pair that counts for a key is an insertion into the map.
pub proof fn lemma_replace<K, V>(s: Seq<(K, V)>, i: int, e: (K, V))
    requires
        0 <= i < s.len(),
        s[i].0 == e.0,
        forall|j: int| i < j < s.len() ==> s[j].0 != e.0,
    ensures
        to_map(s.update(i, e)) == to_map(s).insert(e.0, e.1),
    decreases s.len(),
{
    let t = s.update(i, e);
    if i == s.len() - 1 {
        assert(t.drop_last() == s.drop_last());
        assert(to_map(t) =~= to_map(s).insert(e.0, e.1));
    } else {
        lemma_replace(s.drop_last(), i, e);
        assert(t.drop_last() == s.drop_last().update(i, e));
        assert(t.last() == s.last());
        assert(to_map(t) =~= to_map(s).insert(e.0, e.1));
    }
}

/// Adding a pair at the end is an insertion into the map.
pub proof fn lemma_push<K, V>(s: Seq<(K, V)>, e: (K, V))
    ensures
        to_map(s.push(e)) == to_map(s).insert(e.0, e.1),
{
    assert(s.push(e).drop_last() == s);
}

} // verus!
