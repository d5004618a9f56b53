//! A map keyed by window id, used for the focus-time and thumbnail caches.
use vstd::prelude::*;
use std::collections::HashMap;

verus! {

broadcast use vstd::std_specs::hash::group_hash_axioms;

/// A map from window id to `V`.
pub struct IdMap<V> {
    entries: HashMap<isize, V>,
}

impl<V> IdMap<V> {
    /// The map's contents.
    pub closed spec fn view(&self) -> Map<isize, V> {
        self.entries@
    }

    /// An empty map.
    pub fn new() -> (m: Self)
        ensures
            m.view() == Map::<isize, V>::empty(),
    {
        IdMap { entries: HashMap::new() }
    }

    /// The value stored under `k`.
    pub fn get(&self, k: isize) -> (r: Option<&V>)
        ensures
            match r {
                Some(v) => self.view().contains_key(k) && self.view()[k] == *v,
                None => !self.view().contains_key(k),
            },
    {
        self.entries.get(&k)
    }

    /// Stores `v` under `k`, replacing any earlier value.
    pub fn insert(&mut self, k: isize, v: V)
        ensures
            final(self).view() == old(self).view().insert(k, v),
    {
        self.entries.insert(k, v);
    }

    /// Removes the value stored under `k`.
    pub fn remove(&mut self, k: isize)
        ensures
            final(self).view() == old(self).view().remove(k),
    {
        self.entries.remove(&k);
    }

    /// Keeps only the ids that appear in `windows`, comparing the id's low
    /// 32 bits as an X11 window id.
    pub fn retain_windows(&mut self, windows: &[u32])
        ensures
            final(self).view() == old(self).view().restrict(
                Set::new(|k: isize| windows@.contains(k as u32)),
            ),
    {
        let ghost before = self.entries@;
        // The ids to drop, gathered before anything is removed.
        let mut doomed: Vec<isize> = Vec::new();
        for k in it: self.entries.keys()
            invariant
                self.entries@ == before,
                it.seq().unref().to_set() == before.dom(),
                forall|i: int|
                    0 <= i < doomed.len() ==> before.contains_key(#[trigger] doomed@[i])
                        && !windows@.contains(doomed@[i] as u32),
                forall|k: isize|
                    before.contains_key(k) && !windows@.contains(k as u32) ==> (doomed@.contains(k)
                        || exists|i: int| it.index() <= i < it.seq().len() && *it.seq()[i] == k),
        {
            let ghost d0 = doomed@;
            if !contains_u32(windows, *k as u32) {
                doomed.push(*k);
            }
            proof {
                assert forall|j: isize|
                    before.contains_key(j) && !windows@.contains(j as u32) && !doomed@.contains(
                        j,
                    ) implies exists|i: int|
                    it.index() + 1 <= i < it.seq().len() && *it.seq()[i] == j by {
                    if d0.contains(j) {
                        let t = choose|t: int| 0 <= t < d0.len() && d0[t] == j;
                        assert(doomed@[t] == j);
                    }
                    assert(exists|i: int| it.index() <= i < it.seq().len() && *it.seq()[i] == j);
                    let w = choose|i: int|
                        it.index() <= i < it.seq().len() && *it.seq()[i] == j;
                    if w == it.index() {
                        assert(*k == j);
                        assert(doomed@[doomed@.len() - 1] == j);
                    }
                }
            }
        }
        assert(forall|k: isize|
            before.contains_key(k) && !windows@.contains(k as u32) ==> doomed@.contains(k));
        let mut i: usize = 0;
        while i < doomed.len()
            invariant
                i <= doomed.len(),
                forall|j: int|
                    0 <= j < doomed.len() ==> before.contains_key(#[trigger] doomed@[j])
                        && !windows@.contains(doomed@[j] as u32),
                forall|k: isize|
                    before.contains_key(k) && !windows@.contains(k as u32) ==> doomed@.contains(k),
                forall|k: isize|
                    #[trigger] self.entries@.contains_key(k) <==> (before.contains_key(k)
                        && !doomed@.take(i as int).contains(k)),
                forall|k: isize|
                    #[trigger] self.entries@.contains_key(k) ==> self.entries@[k] == before[k],
            decreases doomed.len() - i,
        {
            let k = doomed[i];
            let ghost m0 = self.entries@;
            self.entries.remove(&k);
            proof {
                assert(self.entries@ == m0.remove(k));
                assert(doomed@.take(i + 1) =~= doomed@.take(i as int).push(k));
                assert forall|j: isize|
                    doomed@.take(i + 1).contains(j) <==> (doomed@.take(i as int).contains(j)
                        || j == k) by {
                    if doomed@.take(i + 1).contains(j) && j != k {
                        let w = choose|w: int|
                            0 <= w < i + 1 && #[trigger] doomed@.take(i + 1)[w] == j;
                        assert(doomed@.take(i as int)[w] == j);
                    }
                    if j == k {
                        assert(doomed@.take(i + 1)[i as int] == k);
                    }
                }
            }
            i = i + 1;
        }
        proof {
            assert(doomed@.take(i as int) =~= doomed@);
            assert(self.entries@ =~= before.restrict(
                Set::new(|k: isize| windows@.contains(k as u32)),
            ));
        }
    }
}

/// Whether `x` occurs in `s`.
pub fn contains_u32(s: &[u32], x: u32) -> (r: bool)
    ensures
        r == s@.contains(x),
{
    let mut i: usize = 0;
    while i < s.len()
        invariant
            i <= s.len(),
            forall|j: int| 0 <= j < i ==> s@[j] != x,
        decreases s.len() - i,
    {
        if s[i] == x {
            assert(s@[i as int] == x);
            return true;
        }
        i = i + 1;
    }
    false
}

} // verus!
