//! A verified association map keyed by 32-byte ids.
//!
//! The map is held as a vector of entries with pairwise-distinct keys; its
//! mathematical content is the `Map` from key bytes to values.  Lookups are
//! linear scans: the engine's correctness, not its asymptotics, is what is
//! proved here.

use vstd::prelude::*;

use crate::id::Id;

verus! {

/// The map denoted by an entry sequence: later entries win.
pub open spec fn map_of<V>(s: Seq<(Seq<u8>, V)>) -> Map<Seq<u8>, V>
    decreases s.len(),
{
    if s.len() == 0 {
        Map::empty()
    } else {
        map_of(s.drop_last()).insert(s.last().0, s.last().1)
    }
}

/// Pairwise-distinct keys.
pub open spec fn distinct_keys<V>(s: Seq<(Seq<u8>, V)>) -> bool {
    forall|i: int, j: int| 0 <= i < j < s.len() ==> s[i].0 != s[j].0
}

/// A key is in the map exactly when some entry holds it.
pub proof fn lemma_map_of_contains<V>(s: Seq<(Seq<u8>, V)>, k: Seq<u8>)
    ensures
        map_of(s).contains_key(k) <==> exists|i: int| 0 <= i < s.len() && s[i].0 == k,
    decreases s.len(),
{
    if s.len() > 0 {
        lemma_map_of_contains(s.drop_last(), k);
        if map_of(s).contains_key(k) {
            if s.last().0 == k {
                assert(s[s.len() - 1].0 == k);
            } else {
                let i = choose|i: int| 0 <= i < s.drop_last().len() && s.drop_last()[i].0 == k;
                assert(s[i].0 == k);
            }
        }
        if exists|i: int| 0 <= i < s.len() && s[i].0 == k {
            let i = choose|i: int| 0 <= i < s.len() && s[i].0 == k;
            if i < s.len() - 1 {
                assert(s.drop_last()[i].0 == k);
            }
        }
    }
}

/// With distinct keys, the entry holding a key gives the map's value at it.
pub proof fn lemma_map_of_index<V>(s: Seq<(Seq<u8>, V)>, i: int)
    requires
        distinct_keys(s),
        0 <= i < s.len(),
    ensures
        map_of(s).contains_key(s[i].0),
        map_of(s)[s[i].0] == s[i].1,
    decreases s.len(),
{
    lemma_map_of_contains(s, s[i].0);
    if i < s.len() - 1 {
        assert(distinct_keys(s.drop_last()));
        assert(s.drop_last()[i] == s[i]);
        lemma_map_of_index(s.drop_last(), i);
        assert(s[i].0 != s.last().0);
    }
}

/// With distinct keys, updating the entry at one index updates the map at its key.
proof fn lemma_map_of_update<V>(s: Seq<(Seq<u8>, V)>, i: int, v: V)
    requires
        distinct_keys(s),
        0 <= i < s.len(),
    ensures
        map_of(s.update(i, (s[i].0, v))) =~= map_of(s).insert(s[i].0, v),
    decreases s.len(),
{
    let s2 = s.update(i, (s[i].0, v));
    if i == s.len() - 1 {
        assert(s2.drop_last() =~= s.drop_last());
    } else {
        assert(s2.drop_last() =~= s.drop_last().update(i, (s[i].0, v)));
        assert(distinct_keys(s.drop_last()));
        assert(s.drop_last()[i] == s[i]);
        lemma_map_of_update(s.drop_last(), i, v);
        assert(s[i].0 != s.last().0);
        assert(s2.last() == s.last());
        assert(map_of(s2) =~= map_of(s).insert(s[i].0, v));
    }
}

/// With distinct keys, removing the entry at one index removes its key from the map.
proof fn lemma_map_of_remove<V>(s: Seq<(Seq<u8>, V)>, i: int)
    requires
        distinct_keys(s),
        0 <= i < s.len(),
    ensures
        map_of(s.remove(i)) =~= map_of(s).remove(s[i].0),
    decreases s.len(),
{
    let k = s[i].0;
    if i == s.len() - 1 {
        assert(s.remove(i) =~= s.drop_last());
        lemma_map_of_contains(s.drop_last(), k);
        assert(!map_of(s.drop_last()).contains_key(k));
        assert(map_of(s).remove(k) =~= map_of(s.drop_last()));
    } else {
        assert(s.remove(i).drop_last() =~= s.drop_last().remove(i));
        assert(s.remove(i).last() == s.last());
        assert(distinct_keys(s.drop_last()));
        assert(s.drop_last()[i] == s[i]);
        lemma_map_of_remove(s.drop_last(), i);
        assert(k != s.last().0);
        assert(map_of(s.remove(i)) =~= map_of(s).remove(k));
    }
}

/// An association map from ids to values.
pub struct IdMap<V> {
    entries: Vec<(Id, V)>,
}

impl<V> IdMap<V> {
    /// The sequence of (key bytes, value) pairs, in storage order.
    pub closed spec fn entry_seq(&self) -> Seq<(Seq<u8>, V)> {
        Seq::new(self.entries@.len(), |i: int| (self.entries@[i].0@, self.entries@[i].1))
    }

    /// The map this structure denotes.
    pub open spec fn as_map(&self) -> Map<Seq<u8>, V> {
        map_of(self.entry_seq())
    }

    /// Well-formed: keys are pairwise distinct.
    pub open spec fn wf(&self) -> bool {
        distinct_keys(self.entry_seq())
    }

    /// Number of entries.
    pub open spec fn spec_len(&self) -> nat {
        self.entry_seq().len()
    }

    /// The key bytes of the entry at an index.
    #[verifier::inline]
    pub open spec fn key_at(&self, i: int) -> Seq<u8> {
        self.entry_seq()[i].0
    }

    /// The value of the entry at an index.
    #[verifier::inline]
    pub open spec fn val_at(&self, i: int) -> V {
        self.entry_seq()[i].1
    }

    /// Each entry is a pair of the map; each pair of the map is an entry.
    pub proof fn lemma_entries(&self)
        requires
            self.wf(),
        ensures
            forall|i: int| #![trigger self.key_at(i)]
                0 <= i < self.spec_len() ==> self.as_map().contains_key(self.key_at(i))
                    && self.as_map()[self.key_at(i)] == self.val_at(i),
            forall|k: Seq<u8>| #[trigger] self.as_map().contains_key(k) ==> exists|i: int|
                0 <= i < self.spec_len() && self.key_at(i) == k,
    {
        assert forall|i: int| 0 <= i < self.spec_len() implies self.as_map().contains_key(
            #[trigger] self.key_at(i),
        ) && self.as_map()[self.key_at(i)] == self.val_at(i) by {
            lemma_map_of_index(self.entry_seq(), i);
        }
        assert forall|k: Seq<u8>| #[trigger] self.as_map().contains_key(k) implies exists|i: int|
            0 <= i < self.spec_len() && self.key_at(i) == k by {
            lemma_map_of_contains(self.entry_seq(), k);
            let i = choose|i: int|
                0 <= i < self.entry_seq().len() && self.entry_seq()[i].0 == k;
            assert(self.key_at(i) == k);
        }
    }

    /// An empty map.
    pub fn new() -> (r: IdMap<V>)
        ensures
            r.wf(),
            r.as_map() == Map::<Seq<u8>, V>::empty(),
            r.spec_len() == 0,
    {
        let r = IdMap { entries: Vec::new() };
        proof {
            assert(r.entry_seq() =~= Seq::empty());
        }
        r
    }

    /// Number of entries, which equals the size of the map's domain.
    pub fn len(&self) -> (r: usize)
        ensures
            r == self.spec_len(),
    {
        self.entries.len()
    }

    /// Borrow the entry at an index.
    pub fn entry_at(&self, i: usize) -> (r: &(Id, V))
        requires
            i < self.spec_len(),
        ensures
            r.0@ == self.key_at(i as int),
            r.1 == self.val_at(i as int),
    {
        &self.entries[i]
    }

    /// The index of the entry holding a key, if any.
    fn find(&self, id: &Id) -> (r: Option<usize>)
        ensures
            r matches Some(i) ==> i < self.spec_len() && self.key_at(i as int) == id@,
            r is None ==> forall|i: int| 0 <= i < self.spec_len() ==> self.key_at(i) != id@,
    {
        let mut i: usize = 0;
        while i < self.entries.len()
            invariant
                i <= self.spec_len(),
                forall|j: int| 0 <= j < i ==> self.key_at(j) != id@,
            decreases self.spec_len() - i,
        {
            if self.entries[i].0.same(id) {
                return Some(i);
            }
            i += 1;
        }
        None
    }

    /// Whether the map holds a key.
    pub fn contains(&self, id: &Id) -> (r: bool)
        requires
            self.wf(),
        ensures
            r == self.as_map().contains_key(id@),
    {
        proof {
            lemma_map_of_contains(self.entry_seq(), id@);
        }
        self.find(id).is_some()
    }

    /// Borrow the value at a key.
    pub fn get(&self, id: &Id) -> (r: Option<&V>)
        requires
            self.wf(),
        ensures
            r is Some <==> self.as_map().contains_key(id@),
            r matches Some(v) ==> self.as_map()[id@] == *v,
    {
        proof {
            lemma_map_of_contains(self.entry_seq(), id@);
        }
        match self.find(id) {
            Some(i) => {
                proof {
                    lemma_map_of_index(self.entry_seq(), i as int);
                }
                Some(&self.entries[i].1)
            },
            None => None,
        }
    }

    /// Insert a value at a key, replacing any previous value.
    pub fn insert(&mut self, id: Id, v: V)
        requires
            old(self).wf(),
        ensures
            final(self).wf(),
            final(self).as_map() == old(self).as_map().insert(id@, v),
            final(self).spec_len() == if old(self).as_map().contains_key(id@) {
                old(self).spec_len()
            } else {
                old(self).spec_len() + 1
            },
    {
        proof {
            lemma_map_of_contains(self.entry_seq(), id@);
        }
        match self.find(&id) {
            Some(i) => {
                proof {
                    lemma_map_of_update(self.entry_seq(), i as int, v);
                }
                let ghost prev = self.entry_seq();
                let ghost kk = id@;
                self.entries[i] = (id, v);
                proof {
                    assert(kk == prev[i as int].0);
                    let s2 = prev.update(i as int, (prev[i as int].0, v));
                    assert forall|a: int, b: int| 0 <= a < b < s2.len() implies s2[a].0
                        != s2[b].0 by {
                        assert(s2[a].0 == prev[a].0);
                        assert(s2[b].0 == prev[b].0);
                        assert(prev[a].0 != prev[b].0);
                    }
                    assert(distinct_keys(s2));
                    assert(self.entry_seq() =~= s2);
                }
            },
            None => {
                let ghost prev = self.entry_seq();
                let ghost kk = id@;
                self.entries.push((id, v));
                proof {
                    let cur = self.entry_seq();
                    assert(cur.drop_last() =~= prev);
                    assert(cur.last().0 == kk);
                    assert(cur.last().1 == v);
                    assert forall|a: int, b: int| 0 <= a < b < cur.len() implies cur[a].0
                        != cur[b].0 by {
                        assert(cur[a] == prev[a]);
                        if b < cur.len() - 1 {
                            assert(cur[b] == prev[b]);
                        } else {
                            assert(cur[b].0 == kk);
                            assert(prev[a].0 != kk);
                        }
                    }
                    assert(distinct_keys(cur));
                    assert(self.as_map() =~= old(self).as_map().insert(kk, v));
                }
            },
        }
    }

    /// Remove a key, returning its value if it was present.
    pub fn remove(&mut self, id: &Id) -> (r: Option<V>)
        requires
            old(self).wf(),
        ensures
            final(self).wf(),
            final(self).as_map() == old(self).as_map().remove(id@),
            r is Some <==> old(self).as_map().contains_key(id@),
            r matches Some(v) ==> old(self).as_map()[id@] == v,
            final(self).spec_len() == if old(self).as_map().contains_key(id@) {
                (old(self).spec_len() - 1) as nat
            } else {
                old(self).spec_len()
            },
    {
        proof {
            lemma_map_of_contains(self.entry_seq(), id@);
        }
        match self.find(id) {
            Some(i) => {
                proof {
                    lemma_map_of_index(self.entry_seq(), i as int);
                    lemma_map_of_remove(self.entry_seq(), i as int);
                }
                let ghost prev = self.entry_seq();
                let e = self.entries.remove(i);
                proof {
                    let ghost cur = self.entry_seq();
                    assert(cur =~= prev.remove(i as int));
                    assert forall|a: int, b: int| 0 <= a < b < cur.len() implies cur[a].0
                        != cur[b].0 by {
                        let a0: int = if a < i { a } else { a + 1 };
                        let b0: int = if b < i { b } else { b + 1 };
                        assert(cur[a] == prev[a0]);
                        assert(cur[b] == prev[b0]);
                    }
                    assert(distinct_keys(cur));
                }
                Some(e.1)
            },
            None => {
                proof {
                    assert(self.as_map() =~= self.as_map().remove(id@));
                }
                None
            },
        }
    }
}

} // verus!
