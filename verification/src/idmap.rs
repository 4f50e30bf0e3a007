//! A small association map with integer keys, kept as a vector of pairs with
//! distinct keys. The analytics keeps its per-road, per-intersection and
//! per-trip records in these; insertion order is part of the contract, since
//! some queries walk the entries in order.

use vstd::prelude::*;

verus! {

/// No key occurs twice.
pub open spec fn unique_keys<V>(s: Seq<(usize, V)>) -> bool {
    forall|i: int, j: int| 0 <= i < j < s.len() ==> s[i].0 != s[j].0
}

/// The mathematical map an association list stands for (later pairs win,
/// though with unique keys the order cannot matter).
pub open spec fn as_map<V>(s: Seq<(usize, V)>) -> Map<usize, V>
    decreases s.len(),
{
    if s.len() == 0 {
        Map::empty()
    } else {
        as_map(s.drop_last()).insert(s.last().0, s.last().1)
    }
}

/// A key is in the map exactly when some pair carries it.
pub proof fn lemma_as_map_contains<V>(s: Seq<(usize, V)>, k: usize)
    ensures
        as_map(s).contains_key(k) <==> exists|i: int| 0 <= i < s.len() && s[i].0 == k,
    decreases s.len(),
{
    if s.len() > 0 {
        lemma_as_map_contains(s.drop_last(), k);
        if s.last().0 == k {
            assert(s[s.len() - 1].0 == k);
        } else if as_map(s).contains_key(k) {
            let i = choose|i: int| 0 <= i < s.drop_last().len() && s.drop_last()[i].0 == k;
            assert(s[i].0 == k);
        } else if exists|i: int| 0 <= i < s.len() && s[i].0 == k {
            let i = choose|i: int| 0 <= i < s.len() && s[i].0 == k;
            assert(s.drop_last()[i].0 == k);
        }
    }
}

/// With unique keys, each pair is what the map holds for its key.
pub proof fn lemma_as_map_at<V>(s: Seq<(usize, V)>, i: int)
    requires
        unique_keys(s),
        0 <= i < s.len(),
    ensures
        as_map(s).contains_key(s[i].0),
        as_map(s)[s[i].0] == s[i].1,
    decreases s.len(),
{
    if i < s.len() - 1 {
        assert(s.drop_last()[i] == s[i]);
        lemma_as_map_at(s.drop_last(), i);
        assert(s[i].0 != s.last().0);
    }
}

/// Replacing the value of the pair at `i` replaces that key's value in the map.
pub proof fn lemma_as_map_update<V>(s: Seq<(usize, V)>, i: int, v: V)
    requires
        unique_keys(s),
        0 <= i < s.len(),
    ensures
        as_map(s.update(i, (s[i].0, v))) =~= as_map(s).insert(s[i].0, v),
        unique_keys(s.update(i, (s[i].0, v))),
    decreases s.len(),
{
    let k = s[i].0;
    let t = s.update(i, (k, v));
    assert(unique_keys(t));
    if i == s.len() - 1 {
        assert(t.drop_last() =~= s.drop_last());
        assert(t.last() == (k, v));
    } else {
        assert(t.drop_last() =~= s.drop_last().update(i, (k, v)));
        assert(s.drop_last()[i] == s[i]);
        lemma_as_map_update(s.drop_last(), i, v);
        assert(k != s.last().0);
        assert(as_map(t) =~= as_map(s).insert(k, v));
    }
}

/// Removing the pair at `i` removes that key from the map.
pub proof fn lemma_as_map_remove<V>(s: Seq<(usize, V)>, i: int)
    requires
        unique_keys(s),
        0 <= i < s.len(),
    ensures
        as_map(s.remove(i)) =~= as_map(s).remove(s[i].0),
        unique_keys(s.remove(i)),
    decreases s.len(),
{
    let k = s[i].0;
    let t = s.remove(i);
    assert(unique_keys(t));
    if i == s.len() - 1 {
        assert(t =~= s.drop_last());
        lemma_as_map_contains(s.drop_last(), k);
        assert(!as_map(s.drop_last()).contains_key(k));
        assert(as_map(t) =~= as_map(s).remove(k));
    } else {
        assert(t.drop_last() =~= s.drop_last().remove(i));
        assert(s.drop_last()[i] == s[i]);
        lemma_as_map_remove(s.drop_last(), i);
        assert(k != s.last().0);
        assert(as_map(t) =~= as_map(s).remove(k));
    }
}

/// An association map from integer identifiers to values, with each key held
/// at most once, in first-insertion order.
pub struct IdMap<V> {
    pairs: Vec<(usize, V)>,
}

impl<V> IdMap<V> {
    /// The entries in order.
    pub closed spec fn spec_pairs(self) -> Seq<(usize, V)> {
        self.pairs@
    }

    /// The map the entries stand for.
    pub open spec fn view(self) -> Map<usize, V> {
        as_map(self.spec_pairs())
    }

    /// Keys are distinct.
    pub open spec fn wf(self) -> bool {
        unique_keys(self.spec_pairs())
    }

    pub fn new() -> (m: IdMap<V>)
        ensures
            m.wf(),
            m.spec_pairs() == Seq::<(usize, V)>::empty(),
            m@ == Map::<usize, V>::empty(),
    {
        IdMap { pairs: Vec::new() }
    }

    pub fn len(&self) -> (n: usize)
        ensures
            n == self.spec_pairs().len(),
    {
        self.pairs.len()
    }

    /// The position of `k` among the entries, or their number when absent.
    fn index_of(&self, k: usize) -> (i: usize)
        ensures
            i <= self.spec_pairs().len(),
            i < self.spec_pairs().len() ==> self.spec_pairs()[i as int].0 == k,
            forall|j: int| 0 <= j < i ==> self.spec_pairs()[j].0 != k,
            i == self.spec_pairs().len() ==> !(exists|j: int|
                0 <= j < self.spec_pairs().len() && self.spec_pairs()[j].0 == k),
    {
        let mut i: usize = 0;
        while i < self.pairs.len()
            invariant
                i <= self.pairs.len(),
                forall|j: int| 0 <= j < i ==> self.pairs@[j].0 != k,
            decreases self.pairs.len() - i,
        {
            if self.pairs[i].0 == k {
                return i;
            }
            i += 1;
        }
        i
    }

    pub fn contains_key(&self, k: usize) -> (r: bool)
        requires
            self.wf(),
        ensures
            r == self@.contains_key(k),
    {
        let i = self.index_of(k);
        proof {
            lemma_as_map_contains(self.spec_pairs(), k);
        }
        i < self.pairs.len()
    }

    pub fn get(&self, k: usize) -> (r: Option<&V>)
        requires
            self.wf(),
        ensures
            match r {
                Some(v) => self@.contains_key(k) && *v == self@[k],
                None => !self@.contains_key(k),
            },
    {
        let i = self.index_of(k);
        proof {
            lemma_as_map_contains(self.spec_pairs(), k);
            if i < self.pairs@.len() {
                lemma_as_map_at(self.spec_pairs(), i as int);
            }
        }
        if i < self.pairs.len() {
            Some(&self.pairs[i].1)
        } else {
            None
        }
    }

    /// Bind `k` to `v`: in place when the key is present, appended when not.
    pub fn set(&mut self, k: usize, v: V)
        requires
            old(self).wf(),
        ensures
            final(self).wf(),
            final(self)@ == old(self)@.insert(k, v),
            if old(self)@.contains_key(k) {
                exists|i: int|
                    0 <= i < old(self).spec_pairs().len() && old(self).spec_pairs()[i].0 == k
                        && final(self).spec_pairs() == old(self).spec_pairs().update(i, (k, v))
            } else {
                final(self).spec_pairs() == old(self).spec_pairs().push((k, v))
            },
    {
        let i = self.index_of(k);
        proof {
            lemma_as_map_contains(self.spec_pairs(), k);
        }
        if i < self.pairs.len() {
            proof {
                lemma_as_map_update(self.spec_pairs(), i as int, v);
            }
            self.pairs.set(i, (k, v));
        } else {
            self.pairs.push((k, v));
            proof {
                assert(self.pairs@.drop_last() =~= old(self).spec_pairs());
                assert(unique_keys(self.pairs@));
            }
        }
    }

    /// Drop `k`'s entry, handing its value back, closing the gap in order.
    pub fn remove(&mut self, k: usize) -> (r: Option<V>)
        requires
            old(self).wf(),
        ensures
            final(self).wf(),
            final(self)@ == old(self)@.remove(k),
            match r {
                Some(v) => {
                    &&& old(self)@.contains_key(k)
                    &&& v == old(self)@[k]
                    &&& exists|i: int|
                        0 <= i < old(self).spec_pairs().len() && old(self).spec_pairs()[i].0 == k
                            && final(self).spec_pairs() == old(self).spec_pairs().remove(i)
                },
                None => {
                    &&& !old(self)@.contains_key(k)
                    &&& *final(self) == *old(self)
                },
            },
    {
        let i = self.index_of(k);
        proof {
            lemma_as_map_contains(self.spec_pairs(), k);
        }
        if i < self.pairs.len() {
            proof {
                lemma_as_map_at(self.spec_pairs(), i as int);
                lemma_as_map_remove(self.spec_pairs(), i as int);
            }
            let (_, v) = self.pairs.remove(i);
            Some(v)
        } else {
            proof {
                assert(old(self)@.remove(k) =~= old(self)@);
            }
            None
        }
    }

    /// The key of the entry at position `i`.
    pub fn key_at(&self, i: usize) -> (k: usize)
        requires
            i < self.spec_pairs().len(),
        ensures
            k == self.spec_pairs()[i as int].0,
    {
        self.pairs[i].0
    }

    /// The value of the entry at position `i`.
    pub fn val_at(&self, i: usize) -> (v: &V)
        requires
            i < self.spec_pairs().len(),
        ensures
            *v == self.spec_pairs()[i as int].1,
    {
        &self.pairs[i].1
    }
}

} // verus!
