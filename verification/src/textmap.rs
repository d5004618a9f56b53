//! A small map from text to text, used for the custom icon manifest and
//! the icon cache.
use vstd::prelude::*;
use crate::text::str_eq;

verus! {

/// The value stored under `k` in an association list read from the front:
/// a later entry for the same key replaces an earlier one.
pub open spec fn last_value<V: DeepView>(s: Seq<(String, V)>, k: Seq<char>) -> Option<V::V>
    decreases s.len(),
{
    if s.len() == 0 {
        None
    } else if s.last().0@ == k {
        Some(s.last().1.deep_view())
    } else {
        last_value(s.drop_last(), k)
    }
}

/// The entries of `s` whose key differs from `k`, in order.
pub open spec fn without<V>(s: Seq<(String, V)>, k: Seq<char>) -> Seq<(String, V)>
    decreases s.len(),
{
    if s.len() == 0 {
        s
    } else if s.last().0@ != k {
        without(s.drop_last(), k).push(s.last())
    } else {
        without(s.drop_last(), k)
    }
}

proof fn lemma_value_without<V: DeepView>(s: Seq<(String, V)>, gone: Seq<char>, k: Seq<char>)
    ensures
        last_value(without(s, gone), k) == if k == gone {
            None::<V::V>
        } else {
            last_value(s, k)
        },
    decreases s.len(),
{
    if s.len() > 0 {
        lemma_value_without(s.drop_last(), gone, k);
        if s.last().0@ != gone {
            assert(without(s, gone).drop_last() =~= without(s.drop_last(), gone));
        }
    }
}

/// The map the entries describe.
pub open spec fn map_of<V: DeepView>(s: Seq<(String, V)>) -> Map<Seq<char>, V::V> {
    Map::new(|k: Seq<char>| last_value(s, k) is Some, |k: Seq<char>| last_value(s, k)->0)
}

/// A map from text to values, viewed through their deep views.
pub struct TextMap<V> {
    entries: Vec<(String, V)>,
}

impl<V: DeepView> TextMap<V> {
    /// The map's contents.
    pub closed spec fn view(&self) -> Map<Seq<char>, V::V> {
        map_of(self.entries@)
    }

    /// An empty map.
    pub fn new() -> (m: Self)
        ensures
            m.view() == Map::<Seq<char>, V::V>::empty(),
    {
        let m = TextMap { entries: Vec::new() };
        assert(m.view() =~= Map::<Seq<char>, V::V>::empty());
        m
    }

    /// The map holding `pairs` as they were inserted one after another in
    /// order, so a later pair for a key wins, as it does when a JSON object
    /// repeats a key.
    pub fn from_pairs(pairs: Vec<(String, V)>) -> (m: Self)
        ensures
            m.view() == map_of(pairs@),
    {
        TextMap { entries: pairs }
    }

    /// The entries, each key once, in the order they were stored.
    pub fn pairs(&self) -> (r: &Vec<(String, V)>)
        ensures
            map_of(r@) == self.view(),
    {
        &self.entries
    }

    /// The value stored under `key`.
    pub fn get(&self, key: &str) -> (r: Option<&V>)
        ensures
            match r {
                Some(v) => self.view().contains_key(key@) && self.view()[key@] == v.deep_view(),
                None => !self.view().contains_key(key@),
            },
    {
        let mut i: usize = self.entries.len();
        assert(self.entries@.take(i as int) =~= self.entries@);
        while i > 0
            invariant
                i <= self.entries.len(),
                last_value(self.entries@, key@) == last_value(self.entries@.take(i as int), key@),
            decreases i,
        {
            proof {
                let part = self.entries@.take(i as int);
                assert(part.drop_last() =~= self.entries@.take(i - 1));
                assert(part.last() == self.entries@[i - 1]);
            }
            if str_eq(self.entries[i - 1].0.as_str(), key) {
                return Some(&self.entries[i - 1].1);
            }
            i = i - 1;
        }
        assert(self.entries@.take(0) =~= Seq::<(String, V)>::empty());
        None
    }

    /// Remove `key` and its value.
    pub fn remove(&mut self, key: &str)
        ensures
            final(self).view() == old(self).view().remove(key@),
    {
        let ghost before = self.entries@;
        let mut rest: Vec<(String, V)> = Vec::new();
        std::mem::swap(&mut rest, &mut self.entries);
        // The entries kept, last first.
        let mut rev: Vec<(String, V)> = Vec::new();
        while rest.len() > 0
            invariant
                without(before, key@) == without(rest@, key@) + rev@.reverse(),
            decreases rest.len(),
        {
            let ghost was = rest@;
            let e = rest.pop().unwrap();
            proof {
                assert(was =~= rest@.push(e));
                assert(was.drop_last() =~= rest@);
            }
            if !str_eq(e.0.as_str(), key) {
                proof {
                    assert(rev@.push(e).reverse() =~= seq![e] + rev@.reverse());
                }
                rev.push(e);
            }
        }
        let mut out: Vec<(String, V)> = Vec::new();
        assert(without(rest@, key@) =~= Seq::<(String, V)>::empty());
        while rev.len() > 0
            invariant
                without(before, key@) == out@ + rev@.reverse(),
            decreases rev.len(),
        {
            let ghost was = rev@;
            let e = rev.pop().unwrap();
            proof {
                assert(was =~= rev@.push(e));
                assert(was.reverse() =~= seq![e] + rev@.reverse());
                assert(out@.push(e) + rev@.reverse() =~= out@ + was.reverse());
            }
            out.push(e);
        }
        assert(out@ =~= without(before, key@));
        self.entries = out;
        proof {
            assert forall|k: Seq<char>| #![auto] self.view().contains_key(k) == old(self).view().remove(
                key@,
            ).contains_key(k) by {
                lemma_value_without(before, key@, k);
            }
            assert forall|k: Seq<char>| #![auto] self.view().contains_key(k) implies self.view()[k]
                == old(self).view()[k] by {
                lemma_value_without(before, key@, k);
            }
            assert(self.view() =~= old(self).view().remove(key@));
        }
    }

    /// Store `value` under `key`, replacing any earlier value.
    pub fn insert(&mut self, key: String, value: V)
        ensures
            final(self).view() == old(self).view().insert(key@, value.deep_view()),
    {
        self.remove(key.as_str());
        let ghost before = self.entries@;
        let ghost k = key@;
        let ghost v = value.deep_view();
        self.entries.push((key, value));
        proof {
            assert(self.entries@.drop_last() =~= before);
            assert(self.view() =~= old(self).view().remove(k).insert(k, v));
            assert(old(self).view().remove(k).insert(k, v) =~= old(self).view().insert(k, v));
        }
    }

    /// Remove every entry.
    pub fn clear(&mut self)
        ensures
            final(self).view() == Map::<Seq<char>, V::V>::empty(),
    {
        self.entries = Vec::new();
        assert(self.view() =~= Map::<Seq<char>, V::V>::empty());
    }
}

/// What `get` reads back is what `insert` stored; other keys are untouched.
pub proof fn lemma_read_after_write<V>(m: Map<Seq<char>, V>, key: Seq<char>, value: V, other: Seq<char>)
    requires
        other != key,
    ensures
        m.insert(key, value)[key] == value,
        m.insert(key, value).contains_key(other) == m.contains_key(other),
        m.contains_key(other) ==> m.insert(key, value)[other] == m[other],
{
}

} // verus!
