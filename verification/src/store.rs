//! The key-value store: a mutual-exclusion-guarded mapping from key to value
//! string (the guard lives with the runtime; every operation here is a short,
//! non-suspending critical section). `set` inserts or overwrites and always
//! succeeds, `get` returns the current value or an explicit absence, and
//! `del` removes each given key if present and reports how many it removed.

use vstd::prelude::*;

use crate::assoc::{assoc_map, lemma_assoc_absent, lemma_assoc_contains, lemma_assoc_lookup,
    lemma_assoc_remove_at, unique_keys};

verus! {

/// The views of a sequence of strings.
pub open spec fn views_of(s: Seq<String>) -> Seq<Seq<char>> {
    s.map_values(|x: String| x@)
}

/// The map left after deleting the listed keys one by one, first key first.
pub open spec fn del_map(m: Map<Seq<char>, Seq<char>>, ks: Seq<Seq<char>>) -> Map<
    Seq<char>,
    Seq<char>,
>
    decreases ks.len(),
{
    if ks.len() == 0 {
        m
    } else {
        del_map(m.remove(ks[0]), ks.drop_first())
    }
}

/// How many of the listed deletions hit a key that was present at its turn.
/// A key listed twice counts once: the second deletion finds it gone.
pub open spec fn del_count(m: Map<Seq<char>, Seq<char>>, ks: Seq<Seq<char>>) -> nat
    decreases ks.len(),
{
    if ks.len() == 0 {
        0
    } else {
        (if m.contains_key(ks[0]) {
            1nat
        } else {
            0nat
        }) + del_count(m.remove(ks[0]), ks.drop_first())
    }
}

/// A volatile mapping from key to value; at most one value per key, and the
/// last writer wins.
pub struct KvStore {
    entries: Vec<(String, String)>,
}

impl View for KvStore {
    type V = Map<Seq<char>, Seq<char>>;

    closed spec fn view(&self) -> Map<Seq<char>, Seq<char>> {
        assoc_map(self.pairs())
    }
}

impl KvStore {
    /// The entries as viewed pairs.
    pub closed spec fn pairs(&self) -> Seq<(Seq<char>, Seq<char>)> {
        self.entries@.map_values(|p: (String, String)| (p.0@, p.1@))
    }

    /// Well-formedness: no two entries share a key.
    pub closed spec fn inv(&self) -> bool {
        unique_keys(self.pairs())
    }

    /// An empty store.
    pub fn new() -> (s: KvStore)
        ensures
            s.inv(),
            s@ == Map::<Seq<char>, Seq<char>>::empty(),
    {
        KvStore { entries: Vec::new() }
    }

    /// The index of the entry holding `key`, if any.
    fn find(&self, key: &String) -> (r: Option<usize>)
        ensures
            match r {
                Some(i) => i < self.pairs().len() && self.pairs()[i as int].0 == key@,
                None => forall|i: int| 0 <= i < self.pairs().len() ==> self.pairs()[i].0 != key@,
            },
    {
        let mut i: usize = 0;
        while i < self.entries.len()
            invariant
                i <= self.entries.len(),
                forall|j: int| 0 <= j < i ==> self.pairs()[j].0 != key@,
            decreases self.entries.len() - i,
        {
            if self.entries[i].0 == *key {
                return Some(i);
            }
            i += 1;
        }
        None
    }

    /// Insert or overwrite; always succeeds.
    pub fn set(&mut self, key: String, value: String)
        requires
            old(self).inv(),
        ensures
            final(self).inv(),
            final(self)@ == old(self)@.insert(key@, value@),
    {
        match self.find(&key) {
            Some(i) => {
                proof {
                    lemma_assoc_remove_at(self.pairs(), i as int, key@);
                }
                self.entries.remove(i);
                proof {
                    assert(self.pairs() =~= old(self).pairs().remove(i as int));
                }
            },
            None => {
                proof {
                    lemma_assoc_absent(self.pairs(), key@);
                }
            },
        }
        let ghost mid = self.pairs();
        let ghost mid_map = self@;
        self.entries.push((key, value));
        proof {
            assert(self.pairs() =~= mid.push((key@, value@)));
            assert(self.pairs().drop_last() =~= mid);
            assert(self@ == mid_map.insert(key@, value@));
            lemma_assoc_contains(mid, key@);
            assert(!mid_map.contains_key(key@));
            assert(self@ =~= old(self)@.insert(key@, value@));
        }
    }

    /// The current value for `key`, or an explicit absence; never errors.
    pub fn get(&self, key: &String) -> (r: Option<String>)
        requires
            self.inv(),
        ensures
            match r {
                Some(v) => self@.contains_key(key@) && v@ == self@[key@],
                None => !self@.contains_key(key@),
            },
    {
        match self.find(key) {
            Some(i) => {
                proof {
                    lemma_assoc_lookup(self.pairs(), i as int, key@);
                }
                Some(self.entries[i].1.clone())
            },
            None => {
                proof {
                    lemma_assoc_absent(self.pairs(), key@);
                }
                None
            },
        }
    }

    /// Remove one key if present; report whether it was.
    fn remove_key(&mut self, key: &String) -> (hit: bool)
        requires
            old(self).inv(),
        ensures
            final(self).inv(),
            hit == old(self)@.contains_key(key@),
            final(self)@ == old(self)@.remove(key@),
    {
        match self.find(key) {
            Some(i) => {
                proof {
                    lemma_assoc_lookup(self.pairs(), i as int, key@);
                    lemma_assoc_remove_at(self.pairs(), i as int, key@);
                }
                self.entries.remove(i);
                proof {
                    assert(self.pairs() =~= old(self).pairs().remove(i as int));
                }
                true
            },
            None => {
                proof {
                    lemma_assoc_absent(self.pairs(), key@);
                    assert(self@.remove(key@) =~= self@);
                }
                false
            },
        }
    }

    /// Remove each listed key if present; idempotent per key, and the number
    /// actually removed comes back (0 for an empty list).
    pub fn del(&mut self, keys: &Vec<String>) -> (n: usize)
        requires
            old(self).inv(),
        ensures
            final(self).inv(),
            final(self)@ == del_map(old(self)@, views_of(keys@)),
            n as nat == del_count(old(self)@, views_of(keys@)),
    {
        let ghost m0 = self@;
        let ghost kv = views_of(keys@);
        let mut n: usize = 0;
        let mut idx: usize = 0;
        proof {
            assert(kv.skip(0) =~= kv);
        }
        while idx < keys.len()
            invariant
                self.inv(),
                idx <= keys@.len(),
                n <= idx,
                kv == views_of(keys@),
                del_map(m0, kv) == del_map(self@, kv.skip(idx as int)),
                del_count(m0, kv) == n + del_count(self@, kv.skip(idx as int)),
            decreases keys@.len() - idx,
        {
            let ghost pre = self@;
            let hit = self.remove_key(&keys[idx]);
            if hit {
                n += 1;
            }
            proof {
                assert(kv.skip(idx as int)[0] == kv[idx as int]);
                assert(kv[idx as int] == keys@[idx as int]@);
                assert(kv.skip(idx as int).drop_first() =~= kv.skip(idx as int + 1));
                assert(del_map(pre, kv.skip(idx as int))
                    == del_map(self@, kv.skip(idx as int + 1)));
            }
            idx += 1;
        }
        proof {
            assert(kv.skip(keys@.len() as int) =~= Seq::<Seq<char>>::empty());
        }
        n
    }
}

} // verus!
