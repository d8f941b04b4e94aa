//! Association sequences: the meaning of a vector of key/value pairs as a
//! finite map. The key-value store and the channel registry both keep their
//! entries in a vector with pairwise-distinct keys and present a `Map` view
//! built by `assoc_map`; the lemmas here connect the vector operations
//! (push, remove, update) to the corresponding map operations.

use vstd::prelude::*;

verus! {

/// The map denoted by a sequence of key/value pairs; a later pair for the
/// same key wins.
pub open spec fn assoc_map<V>(s: Seq<(Seq<char>, V)>) -> Map<Seq<char>, V>
    decreases s.len(),
{
    if s.len() == 0 {
        Map::empty()
    } else {
        assoc_map(s.drop_last()).insert(s.last().0, s.last().1)
    }
}

/// No two pairs share a key.
pub open spec fn unique_keys<V>(s: Seq<(Seq<char>, V)>) -> bool {
    forall|i: int, j: int| 0 <= i < j < s.len() ==> s[i].0 != s[j].0
}

/// A key is in the map exactly when some pair carries it.
pub proof fn lemma_assoc_contains<V>(s: Seq<(Seq<char>, V)>, k: Seq<char>)
    ensures
        assoc_map(s).contains_key(k) <==> exists|i: int| 0 <= i < s.len() && s[i].0 == k,
    decreases s.len(),
{
    if s.len() > 0 {
        lemma_assoc_contains(s.drop_last(), k);
        if s.last().0 == k {
            assert(s[s.len() - 1].0 == k);
        } else if assoc_map(s).contains_key(k) {
            let i = choose|i: int| 0 <= i < s.drop_last().len() && s.drop_last()[i].0 == k;
            assert(s[i].0 == k);
        } else if exists|i: int| 0 <= i < s.len() && s[i].0 == k {
            let i = choose|i: int| 0 <= i < s.len() && s[i].0 == k;
            assert(s.drop_last()[i].0 == k);
        }
    }
}

/// With distinct keys, the pair at index `i` gives the map's value at its key.
pub proof fn lemma_assoc_lookup<V>(s: Seq<(Seq<char>, V)>, i: int, k: Seq<char>)
    requires
        unique_keys(s),
        0 <= i < s.len(),
        s[i].0 == k,
    ensures
        assoc_map(s).contains_key(k),
        assoc_map(s)[k] == s[i].1,
    decreases s.len(),
{
    if i == s.len() - 1 {
    } else {
        assert(unique_keys(s.drop_last())) by {
            assert(forall|x: int, y: int|
                0 <= x < y < s.drop_last().len() ==> s.drop_last()[x].0 == s[x].0
                    && s.drop_last()[y].0 == s[y].0);
        }
        assert(s.drop_last()[i].0 == k);
        lemma_assoc_lookup(s.drop_last(), i, k);
        assert(s.last().0 != k);
    }
}

/// Dropping the last pair keeps the keys distinct.
pub proof fn lemma_unique_drop_last<V>(s: Seq<(Seq<char>, V)>)
    requires
        unique_keys(s),
        s.len() > 0,
    ensures
        unique_keys(s.drop_last()),
{
    assert(forall|x: int, y: int|
        0 <= x < y < s.drop_last().len() ==> s.drop_last()[x].0 == s[x].0
            && s.drop_last()[y].0 == s[y].0);
}

/// With distinct keys, replacing the pair at index `i` (keeping its key)
/// is insertion into the map.
pub proof fn lemma_assoc_update<V>(s: Seq<(Seq<char>, V)>, i: int, k: Seq<char>, v: V)
    requires
        unique_keys(s),
        0 <= i < s.len(),
        s[i].0 == k,
    ensures
        assoc_map(s.update(i, (k, v))) == assoc_map(s).insert(k, v),
        unique_keys(s.update(i, (k, v))),
    decreases s.len(),
{
    let t = s.update(i, (k, v));
    assert(unique_keys(t)) by {
        assert(forall|x: int| 0 <= x < t.len() ==> t[x].0 == s[x].0);
    }
    if i == s.len() - 1 {
        assert(t.drop_last() =~= s.drop_last());
        assert(assoc_map(t) == assoc_map(s.drop_last()).insert(k, v));
        assert(assoc_map(s.drop_last()).insert(k, v)
            =~= assoc_map(s.drop_last()).insert(s.last().0, s.last().1).insert(k, v));
    } else {
        lemma_unique_drop_last(s);
        assert(s.drop_last()[i].0 == k);
        lemma_assoc_update(s.drop_last(), i, k, v);
        assert(t.drop_last() =~= s.drop_last().update(i, (k, v)));
        assert(t.last() == s.last());
        assert(s.last().0 != k);
        assert(assoc_map(s).insert(k, v)
            =~= assoc_map(s.drop_last()).insert(k, v).insert(s.last().0, s.last().1));
    }
}

/// With distinct keys, removing the pair at index `i` is removal of its key
/// from the map.
pub proof fn lemma_assoc_remove_at<V>(s: Seq<(Seq<char>, V)>, i: int, k: Seq<char>)
    requires
        unique_keys(s),
        0 <= i < s.len(),
        s[i].0 == k,
    ensures
        assoc_map(s.remove(i)) == assoc_map(s).remove(k),
        unique_keys(s.remove(i)),
    decreases s.len(),
{
    let t = s.remove(i);
    assert(unique_keys(t)) by {
        assert(forall|x: int| 0 <= x < t.len() ==> t[x] == s[if x < i { x } else { x + 1 }]);
    }
    if i == s.len() - 1 {
        assert(t =~= s.drop_last());
        lemma_unique_drop_last(s);
        lemma_assoc_contains(s.drop_last(), k);
        assert(forall|j: int| 0 <= j < s.drop_last().len() ==> s.drop_last()[j].0 == s[j].0);
        assert(!assoc_map(s.drop_last()).contains_key(k));
        assert(assoc_map(s.drop_last()).insert(k, s.last().1).remove(k)
            =~= assoc_map(s.drop_last()));
    } else {
        lemma_unique_drop_last(s);
        assert(s.drop_last()[i].0 == k);
        lemma_assoc_remove_at(s.drop_last(), i, k);
        assert(t.drop_last() =~= s.drop_last().remove(i));
        assert(t.last() == s.last());
        assert(s.last().0 != k);
        assert(assoc_map(s).remove(k)
            =~= assoc_map(s.drop_last()).remove(k).insert(s.last().0, s.last().1));
    }
}

/// A key carried by no pair is not in the map.
pub proof fn lemma_assoc_absent<V>(s: Seq<(Seq<char>, V)>, k: Seq<char>)
    requires
        forall|i: int| 0 <= i < s.len() ==> s[i].0 != k,
    ensures
        !assoc_map(s).contains_key(k),
{
    lemma_assoc_contains(s, k);
}

} // verus!
