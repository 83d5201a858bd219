//! A map from identities to values, kept as a list in which no identity
//! occurs twice.

use vstd::prelude::*;

use crate::identity::Identity;

verus! {

/// The map that a list of pairs stands for; a later pair wins.
pub open spec fn pairs_map<V>(s: Seq<(Identity, V)>) -> Map<Seq<u8>, V>
    decreases s.len(),
{
    if s.len() == 0 {
        Map::empty()
    } else {
        pairs_map(s.drop_last()).insert(s.last().0@, s.last().1)
    }
}

/// No identity occurs twice among the pairs.
pub open spec fn distinct_keys<V>(s: Seq<(Identity, V)>) -> bool {
    forall|i: int, j: int| 0 <= i < j < s.len() ==> s[i].0@ != s[j].0@
}

/// The identities that the map knows are those of the pairs.
pub proof fn lemma_pairs_dom<V>(s: Seq<(Identity, V)>, k: Seq<u8>)
    ensures
        pairs_map(s).dom().contains(k) <==> exists|i: int|
            0 <= i < s.len() && #[trigger] s[i].0@ == k,
    decreases s.len(),
{
    if s.len() > 0 {
        let t = s.drop_last();
        lemma_pairs_dom(t, k);
        if pairs_map(s).dom().contains(k) {
            if s.last().0@ == k {
                assert(s[s.len() - 1].0@ == k);
            } else {
                let i = choose|i: int| 0 <= i < t.len() && #[trigger] t[i].0@ == k;
                assert(s[i].0@ == k);
            }
        }
        if exists|i: int| 0 <= i < s.len() && #[trigger] s[i].0@ == k {
            let i = choose|i: int| 0 <= i < s.len() && #[trigger] s[i].0@ == k;
            if i < s.len() - 1 {
                assert(t[i].0@ == k);
            }
        }
    }
}

/// Each pair's value is the one the map gives for its identity.
pub proof fn lemma_pairs_value<V>(s: Seq<(Identity, V)>, i: int)
    requires
        distinct_keys(s),
        0 <= i < s.len(),
    ensures
        pairs_map(s).dom().contains(s[i].0@),
        pairs_map(s)[s[i].0@] == s[i].1,
    decreases s.len(),
{
    if i < s.len() - 1 {
        let t = s.drop_last();
        assert(distinct_keys(t));
        lemma_pairs_value(t, i);
        assert(t[i] == s[i]);
        assert(s[i].0@ != s[s.len() - 1].0@);
    }
}

/// Taking a pair out of the list takes its identity out of the map.
pub proof fn lemma_pairs_remove<V>(s: Seq<(Identity, V)>, i: int)
    requires
        distinct_keys(s),
        0 <= i < s.len(),
    ensures
        distinct_keys(s.remove(i)),
        pairs_map(s.remove(i)) == pairs_map(s).remove(s[i].0@),
    decreases s.len(),
{
    let r = s.remove(i);
    assert(distinct_keys(r)) by {
        assert forall|a: int, b: int| 0 <= a < b < r.len() implies r[a].0@ != r[b].0@ by {
            let a2 = if a < i { a } else { a + 1 };
            let b2 = if b < i { b } else { b + 1 };
            assert(r[a] == s[a2]);
            assert(r[b] == s[b2]);
        }
    }
    let t = s.drop_last();
    if i == s.len() - 1 {
        assert(r =~= t);
        lemma_pairs_dom(t, s[i].0@);
        assert(!pairs_map(t).dom().contains(s[i].0@)) by {
            if exists|j: int| 0 <= j < t.len() && #[trigger] t[j].0@ == s[i].0@ {
                let j = choose|j: int| 0 <= j < t.len() && #[trigger] t[j].0@ == s[i].0@;
                assert(s[j].0@ == s[i].0@);
            }
        }
        assert(pairs_map(t) =~= pairs_map(s).remove(s[i].0@));
    } else {
        assert(distinct_keys(t));
        lemma_pairs_remove(t, i);
        assert(r.drop_last() =~= t.remove(i));
        assert(r.last() == s.last());
        assert(t[i] == s[i]);
        assert(s[i].0@ != s[s.len() - 1].0@);
        assert(pairs_map(r) =~= pairs_map(s).remove(s[i].0@));
    }
}

/// Putting another value in a pair's place puts it in the map under the
/// pair's identity.
pub proof fn lemma_pairs_update<V>(s: Seq<(Identity, V)>, i: int, pair: (Identity, V))
    requires
        distinct_keys(s),
        0 <= i < s.len(),
        pair.0@ == s[i].0@,
    ensures
        distinct_keys(s.update(i, pair)),
        pairs_map(s.update(i, pair)) == pairs_map(s).insert(pair.0@, pair.1),
    decreases s.len(),
{
    let u = s.update(i, pair);
    assert(distinct_keys(u)) by {
        assert forall|a: int, b: int| 0 <= a < b < u.len() implies u[a].0@ != u[b].0@ by {
            assert(s[a].0@ != s[b].0@);
        }
    }
    let t = s.drop_last();
    if i == s.len() - 1 {
        assert(u.drop_last() =~= t);
        assert(pairs_map(u) =~= pairs_map(s).insert(pair.0@, pair.1));
    } else {
        assert(distinct_keys(t));
        lemma_pairs_update(t, i, pair);
        assert(u.drop_last() =~= t.update(i, pair));
        assert(u.last() == s.last());
        assert(s[i].0@ != s[s.len() - 1].0@);
        assert(pairs_map(u) =~= pairs_map(s).insert(pair.0@, pair.1));
    }
}

/// A map from identities to values.
pub struct IdentityMap<V> {
    entries: Vec<(Identity, V)>,
}

impl<V> IdentityMap<V> {
    /// No identity is listed twice.
    pub closed spec fn wf(&self) -> bool {
        distinct_keys(self.entries@)
    }

    /// What the map holds, by the bytes of each identity.
    pub closed spec fn map(&self) -> Map<Seq<u8>, V> {
        pairs_map(self.entries@)
    }

    /// The identities of the map in the order in which they are listed.
    pub closed spec fn order(&self) -> Seq<Seq<u8>> {
        Seq::new(self.entries@.len(), |i: int| self.entries@[i].0@)
    }

    /// A map that holds nothing.
    pub fn new() -> (m: Self)
        ensures
            m.wf(),
            m.map() == Map::<Seq<u8>, V>::empty(),
            m.order() == Seq::<Seq<u8>>::empty(),
    {
        let m = IdentityMap { entries: Vec::new() };
        assert(m.order() =~= Seq::<Seq<u8>>::empty());
        m
    }

    fn position(&self, id: &Identity) -> (r: Option<usize>)
        requires
            self.wf(),
        ensures
            r is Some <==> self.map().dom().contains(id@),
            r matches Some(i) ==> i < self.entries@.len() && self.entries@[i as int].0@ == id@
                && self.map()[id@] == self.entries@[i as int].1,
    {
        proof {
            lemma_pairs_dom(self.entries@, id@);
        }
        let mut i: usize = 0;
        while i < self.entries.len()
            invariant
                self.wf(),
                i <= self.entries@.len(),
                forall|j: int| 0 <= j < i ==> self.entries@[j].0@ != id@,
            decreases self.entries@.len() - i,
        {
            if self.entries[i].0 == *id {
                proof {
                            lemma_pairs_value(self.entries@, i as int);
                }
                return Some(i);
            }
            i += 1;
        }
        None
    }

    /// Whether the map holds a value for `id`.
    pub fn contains(&self, id: &Identity) -> (r: bool)
        requires
            self.wf(),
        ensures
            r == self.map().dom().contains(id@),
    {
        self.position(id).is_some()
    }

    /// What the map holds for `id`, if anything.
    pub fn get(&self, id: &Identity) -> (r: Option<&V>)
        requires
            self.wf(),
        ensures
            r is Some <==> self.map().dom().contains(id@),
            r matches Some(v) ==> *v == self.map()[id@],
    {
        match self.position(id) {
            Some(i) => Some(&self.entries[i].1),
            None => None,
        }
    }

    /// Takes out what the map holds for `id`, if anything.
    pub fn remove(&mut self, id: &Identity) -> (r: Option<V>)
        requires
            old(self).wf(),
        ensures
            final(self).wf(),
            final(self).map() == old(self).map().remove(id@),
            r is Some <==> old(self).map().dom().contains(id@),
            r matches Some(v) ==> v == old(self).map()[id@],
    {
        match self.position(id) {
            Some(i) => {
                proof {
                            lemma_pairs_remove(self.entries@, i as int);
                }
                let pair = self.entries.remove(i);
                Some(pair.1)
            },
            None => {
                assert(self.map().remove(id@) =~= self.map());
                None
            },
        }
    }

    /// Sets what the map holds for `id`, and returns what it held before.
    pub fn insert(&mut self, id: Identity, value: V) -> (r: Option<V>)
        requires
            old(self).wf(),
        ensures
            final(self).wf(),
            final(self).map() == old(self).map().insert(id@, value),
            r is Some <==> old(self).map().dom().contains(id@),
            r matches Some(v) ==> v == old(self).map()[id@],
    {
        let before = self.remove(&id);
        proof {
            lemma_pairs_dom(self.entries@, id@);
        }
        let ghost mid = self.entries@;
        self.entries.push((id, value));
        assert(self.entries@.drop_last() =~= mid);
        assert(self.map() =~= old(self).map().insert(id@, value));
        before
    }

    /// How many identities the map holds a value for.
    pub fn len(&self) -> (n: usize)
        ensures
            n == self.order().len(),
    {
        self.entries.len()
    }

    /// The identity listed at place `i`.
    pub fn key_at(&self, i: usize) -> (id: &Identity)
        requires
            self.wf(),
            i < self.order().len(),
        ensures
            id@ == self.order()[i as int],
            self.map().dom().contains(id@),
    {
        proof {
            lemma_pairs_value(self.entries@, i as int);
        }
        &self.entries[i].0
    }

    /// The value listed at place `i`.
    pub fn value_at(&self, i: usize) -> (v: &V)
        requires
            self.wf(),
            i < self.order().len(),
        ensures
            self.map().dom().contains(self.order()[i as int]),
            *v == self.map()[self.order()[i as int]],
    {
        proof {
            lemma_pairs_value(self.entries@, i as int);
        }
        &self.entries[i].1
    }

    /// Puts `value` in the place of the value listed at place `i`.
    pub fn set_value_at(&mut self, i: usize, value: V)
        requires
            old(self).wf(),
            i < old(self).order().len(),
        ensures
            final(self).wf(),
            final(self).order() == old(self).order(),
            final(self).map() == old(self).map().insert(old(self).order()[i as int], value),
    {
        let key = self.entries[i].0.clone();
        proof {
            lemma_pairs_update(self.entries@, i as int, (key, value));
        }
        self.entries.set(i, (key, value));
        assert(self.order() =~= old(self).order());
    }

    /// The listing names each identity of the map, once.
    pub proof fn lemma_order(&self)
        requires
            self.wf(),
        ensures
            forall|i: int, j: int|
                0 <= i < j < self.order().len() ==> self.order()[i] != self.order()[j],
            forall|k: Seq<u8>|
                self.map().dom().contains(k) <==> self.order().contains(k),
    {
        assert forall|k: Seq<u8>| self.map().dom().contains(k) <==> self.order().contains(
            k,
        ) by {
            lemma_pairs_dom(self.entries@, k);
            if self.map().dom().contains(k) {
                let i = choose|i: int|
                    0 <= i < self.entries@.len() && #[trigger] self.entries@[i].0@ == k;
                assert(self.order()[i] == k);
            }
            if self.order().contains(k) {
                let i = choose|i: int| 0 <= i < self.order().len() && self.order()[i] == k;
                assert(self.entries@[i].0@ == k);
            }
        }
    }
}

} // verus!
