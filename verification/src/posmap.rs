//! A small verified map from integer positions to values, backed by a
//! vector of entries with pairwise-distinct keys. Lookups are linear; the
//! point is the exact `Map` view every operation is specified against.

use crate::ivec::IVec3;
use vstd::map::*;
use vstd::prelude::*;

verus! {

/// The keys of the entries are pairwise distinct.
pub open spec fn keys_unique<V>(s: Seq<(IVec3, V)>) -> bool {
    forall|i: int, j: int|
        0 <= i < j < s.len() ==> (#[trigger] s[i]).0 != (#[trigger] s[j]).0
}

/// The map an entry sequence stands for.
pub open spec fn entries_map<V>(s: Seq<(IVec3, V)>) -> Map<IVec3, V>
    decreases s.len(),
{
    if s.len() == 0 {
        Map::empty()
    } else {
        entries_map(s.drop_last()).insert(s.last().0, s.last().1)
    }
}

/// With distinct keys, the map holds exactly the entries: every entry is in
/// the map, and every key in the map comes from some entry.
pub proof fn lemma_entries_map_char<V>(s: Seq<(IVec3, V)>)
    requires
        keys_unique(s),
    ensures
        forall|k: IVec3|
            entries_map(s).contains_key(k) <==> exists|i: int|
                0 <= i < s.len() && (#[trigger] s[i]).0 == k,
        forall|i: int|
            0 <= i < s.len() ==> entries_map(s).contains_key((#[trigger] s[i]).0)
                && entries_map(s)[s[i].0] == s[i].1,
    decreases s.len(),
{
    if s.len() > 0 {
        let head = s.drop_last();
        assert(keys_unique(head));
        lemma_entries_map_char(head);
        assert forall|i: int| 0 <= i < s.len() implies entries_map(s).contains_key(
            (#[trigger] s[i]).0,
        ) && entries_map(s)[s[i].0] == s[i].1 by {
            if i < s.len() - 1 {
                assert(head[i] == s[i]);
                assert(s[i].0 != s.last().0);
            }
        }
        assert forall|k: IVec3| entries_map(s).contains_key(k) implies exists|i: int|
            0 <= i < s.len() && (#[trigger] s[i]).0 == k by {
            if k != s.last().0 {
                assert(entries_map(head).contains_key(k));
                let i = choose|i: int| 0 <= i < head.len() && (#[trigger] head[i]).0 == k;
                assert(head[i] == s[i]);
                assert(s[i].0 == k);
            } else {
                assert(s[s.len() - 1].0 == k);
            }
        }
    }
}

/// A map from positions to values with a verified `Map` view.
pub struct PosMap<V> {
    pub entries: Vec<(IVec3, V)>,
}

impl<V> View for PosMap<V> {
    type V = Map<IVec3, V>;

    open spec fn view(&self) -> Map<IVec3, V> {
        entries_map(self.entries@)
    }
}

impl<V> PosMap<V> {
    /// The backing entries hold each key at most once.
    pub open spec fn wf(self) -> bool {
        keys_unique(self.entries@)
    }

    pub fn new() -> (r: Self)
        ensures
            r.wf(),
            r@ == Map::<IVec3, V>::empty(),
    {
        PosMap { entries: Vec::new() }
    }

    /// The position of the entry holding a key, if any.
    fn find(&self, k: IVec3) -> (r: Option<usize>)
        requires
            self.wf(),
        ensures
            r matches Some(i) ==> i < self.entries@.len() && self.entries@[i as int].0 == k,
            r is None ==> !self@.contains_key(k),
    {
        proof {
            lemma_entries_map_char(self.entries@);
        }
        let mut i: usize = 0;
        while i < self.entries.len()
            invariant
                self.wf(),
                i <= self.entries@.len(),
                forall|j: int| 0 <= j < i ==> (#[trigger] self.entries@[j]).0 != k,
            decreases self.entries@.len() - i,
        {
            if self.entries[i].0 == k {
                return Some(i);
            }
            i += 1;
        }
        proof {
            lemma_entries_map_char(self.entries@);
        }
        None
    }

    pub fn contains_key(&self, k: IVec3) -> (r: bool)
        requires
            self.wf(),
        ensures
            r == self@.contains_key(k),
    {
        proof {
            lemma_entries_map_char(self.entries@);
        }
        match self.find(k) {
            Some(_) => true,
            None => false,
        }
    }

    pub fn get(&self, k: IVec3) -> (r: Option<&V>)
        requires
            self.wf(),
        ensures
            r matches Some(v) ==> self@.contains_key(k) && *v == self@[k],
            r is None ==> !self@.contains_key(k),
    {
        proof {
            lemma_entries_map_char(self.entries@);
        }
        match self.find(k) {
            Some(i) => Some(&self.entries[i].1),
            None => None,
        }
    }

    /// Inserts or overwrites the value held at a key.
    pub fn insert(&mut self, k: IVec3, v: V)
        requires
            old(self).wf(),
        ensures
            final(self).wf(),
            final(self)@ == old(self)@.insert(k, v),
    {
        proof {
            lemma_entries_map_char(self.entries@);
        }
        let ghost pre = self.entries@;
        match self.find(k) {
            Some(i) => {
                let _ = self.entries.remove(i);
                proof {
                    lemma_remove_keeps_unique(pre, i as int);
                    lemma_entries_map_char(self.entries@);
                    lemma_entries_map_char(pre);
                }
                self.entries.push((k, v));
                proof {
                    lemma_push_unique(pre.remove(i as int), k, v);
                    lemma_entries_map_char(self.entries@);
                    assert_maps_equal!(entries_map(pre.remove(i as int).push((k, v))), entries_map(pre).insert(k, v), key => {
                        lemma_entries_map_char(pre);
                        lemma_entries_map_char(pre.remove(i as int));
                        lemma_entries_map_char(pre.remove(i as int).push((k, v)));
                        if key == k {
                        } else {
                            if entries_map(pre).insert(k, v).contains_key(key) {
                                let j = choose|j: int| 0 <= j < pre.len() && (#[trigger] pre[j]).0 == key;
                                let j2 = if j < i { j } else { j - 1 };
                                assert(pre.remove(i as int)[j2] == pre[j]);
                                assert(pre.remove(i as int).push((k, v))[j2] == pre[j]);
                            }
                            if entries_map(pre.remove(i as int).push((k, v))).contains_key(key) {
                                let j = choose|j: int| 0 <= j < pre.remove(i as int).push((k, v)).len()
                                    && (#[trigger] pre.remove(i as int).push((k, v))[j]).0 == key;
                                assert(j < pre.len() - 1);
                                let j2 = if j < i { j } else { j + 1 };
                                assert(pre[j2] == pre.remove(i as int).push((k, v))[j]);
                            }
                        }
                    });
                }
            },
            None => {
                self.entries.push((k, v));
                proof {
                    lemma_push_unique(pre, k, v);
                    assert(self.entries@.drop_last() =~= pre);
                }
            },
        }
    }

    /// Removes and returns the value held at a key.
    pub fn remove(&mut self, k: IVec3) -> (r: Option<V>)
        requires
            old(self).wf(),
        ensures
            final(self).wf(),
            final(self)@ == old(self)@.remove(k),
            r matches Some(v) ==> old(self)@.contains_key(k) && v == old(self)@[k],
            r is None ==> !old(self)@.contains_key(k),
    {
        proof {
            lemma_entries_map_char(self.entries@);
        }
        let ghost pre = self.entries@;
        match self.find(k) {
            Some(i) => {
                let (_, v) = self.entries.remove(i);
                proof {
                    lemma_remove_keeps_unique(pre, i as int);
                    lemma_entries_map_char(pre);
                    lemma_entries_map_char(pre.remove(i as int));
                    assert_maps_equal!(entries_map(pre.remove(i as int)), entries_map(pre).remove(k), key => {
                        if entries_map(pre).remove(k).contains_key(key) {
                            let j = choose|j: int| 0 <= j < pre.len() && (#[trigger] pre[j]).0 == key;
                            let j2 = if j < i { j } else { j - 1 };
                            assert(pre.remove(i as int)[j2] == pre[j]);
                        }
                        if entries_map(pre.remove(i as int)).contains_key(key) {
                            let j = choose|j: int| 0 <= j < pre.remove(i as int).len()
                                && (#[trigger] pre.remove(i as int)[j]).0 == key;
                            let j2 = if j < i { j } else { j + 1 };
                            assert(pre[j2] == pre.remove(i as int)[j]);
                        }
                    });
                }
                Some(v)
            },
            None => {
                proof {
                    assert(self@ =~= self@.remove(k));
                }
                None
            },
        }
    }

    pub fn len(&self) -> (r: usize)
        requires
            self.wf(),
        ensures
            r == self.entries@.len(),
    {
        self.entries.len()
    }
}

/// Removing an entry keeps the remaining keys distinct.
proof fn lemma_remove_keeps_unique<V>(s: Seq<(IVec3, V)>, i: int)
    requires
        keys_unique(s),
        0 <= i < s.len(),
    ensures
        keys_unique(s.remove(i)),
{
    let t = s.remove(i);
    assert forall|a: int, b: int| 0 <= a < b < t.len() implies (#[trigger] t[a]).0
        != (#[trigger] t[b]).0 by {
        let a2 = if a < i {
            a
        } else {
            a + 1
        };
        let b2 = if b < i {
            b
        } else {
            b + 1
        };
        assert(t[a] == s[a2] && t[b] == s[b2]);
    }
}

/// Appending a key that no entry holds keeps the keys distinct.
proof fn lemma_push_unique<V>(s: Seq<(IVec3, V)>, k: IVec3, v: V)
    requires
        keys_unique(s),
        forall|i: int| 0 <= i < s.len() ==> (#[trigger] s[i]).0 != k,
    ensures
        keys_unique(s.push((k, v))),
{
    let t = s.push((k, v));
    assert forall|a: int, b: int| 0 <= a < b < t.len() implies (#[trigger] t[a]).0
        != (#[trigger] t[b]).0 by {
        if b < s.len() {
            assert(t[a] == s[a] && t[b] == s[b]);
        } else {
            assert(t[a] == s[a] && t[b] == (k, v));
        }
    }
}

} // verus!
