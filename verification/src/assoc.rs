use vstd::prelude::*;

verus! {

/// Keys of an [`AssocMap`]: plain values whose equality is their structure.
pub trait MapKey: Sized {
    fn key_eq(&self, other: &Self) -> (r: bool)
        ensures
            r == (*self == *other),
    ;
}

/// A finite map kept as a list of entries in insertion order.
#[derive(Debug)]
pub struct AssocMap<K, V> {
    entries: Vec<(K, V)>,
}

/// The index of the last entry with key `k`, or -1.
pub open spec fn last_index<K, V>(s: Seq<(K, V)>, k: K) -> int
    decreases s.len(),
{
    if s.len() == 0 {
        -1
    } else if s.last().0 == k {
        s.len() - 1
    } else {
        last_index(s.drop_last(), k)
    }
}

pub proof fn lemma_last_index<K, V>(s: Seq<(K, V)>, k: K)
    ensures
        -1 <= last_index(s, k) < s.len(),
        last_index(s, k) >= 0 ==> s[last_index(s, k)].0 == k,
        last_index(s, k) == -1 ==> forall|i: int| 0 <= i < s.len() ==> s[i].0 != k,
        forall|i: int| last_index(s, k) < i < s.len() ==> s[i].0 != k,
    decreases s.len(),
{
    if s.len() > 0 && s.last().0 != k {
        let d = s.drop_last();
        lemma_last_index(d, k);
        assert forall|i: int| last_index(s, k) < i < s.len() implies s[i].0 != k by {
            if i < s.len() - 1 {
                assert(s[i] == d[i]);
            }
        }
        assert forall|i: int| last_index(s, k) == -1 && 0 <= i < s.len() implies s[i].0 != k by {
            if i < s.len() - 1 {
                assert(s[i] == d[i]);
            }
        }
    }
}

pub proof fn lemma_last_index_take<K, V>(s: Seq<(K, V)>, k: K, i: int)
    requires
        0 < i <= s.len(),
    ensures
        s[i - 1].0 == k ==> last_index(s.take(i), k) == i - 1,
        s[i - 1].0 != k ==> last_index(s.take(i), k) == last_index(s.take(i - 1), k),
{
    assert(s.take(i).drop_last() =~= s.take(i - 1));
}

pub proof fn lemma_last_index_update<K, V>(s: Seq<(K, V)>, j: int, v: V, k: K)
    requires
        0 <= j < s.len(),
    ensures
        last_index(s.update(j, (s[j].0, v)), k) == last_index(s, k),
    decreases s.len(),
{
    let u = s.update(j, (s[j].0, v));
    if s.len() > 0 && j < s.len() - 1 {
        assert(u.drop_last() =~= s.drop_last().update(j, (s[j].0, v)));
        lemma_last_index_update(s.drop_last(), j, v, k);
    } else if s.len() > 0 {
        assert(u.drop_last() =~= s.drop_last());
    }
}

pub open spec fn entries_map<K, V>(s: Seq<(K, V)>) -> Map<K, V> {
    Map::new(|k: K| last_index(s, k) >= 0, |k: K| s[last_index(s, k)].1)
}

impl<K, V> AssocMap<K, V> {
    /// No key occurs twice.
    #[verifier::type_invariant]
    closed spec fn keys_distinct(&self) -> bool {
        forall|i: int, j: int| 0 <= i < j < self.entries@.len() ==> self.entries@[i].0 != self.entries@[j].0
    }
}

impl<K, V> View for AssocMap<K, V> {
    type V = Map<K, V>;

    closed spec fn view(&self) -> Map<K, V> {
        entries_map(self.entries@)
    }
}

impl<K: MapKey, V> AssocMap<K, V> {
    /// The entries in insertion order.
    pub closed spec fn entries(&self) -> Seq<(K, V)> {
        self.entries@
    }

    pub proof fn lemma_view(&self)
        ensures
            self@ == entries_map(self.entries()),
    {
    }

    pub fn new() -> (m: AssocMap<K, V>)
        ensures
            m@ == Map::<K, V>::empty(),
            m.entries() == Seq::<(K, V)>::empty(),
    {
        let m = AssocMap { entries: Vec::new() };
        assert(m@ =~= Map::<K, V>::empty());
        m
    }

    /// The number of entries; keys are distinct and each entry is the binding of its key.
    pub fn len(&self) -> (n: usize)
        ensures
            n == self.entries().len(),
            forall|i: int, j: int| 0 <= i < j < self.entries().len() ==> self.entries()[i].0 != self.entries()[j].0,
            forall|i: int| 0 <= i < self.entries().len() ==> #[trigger] last_index(self.entries(), self.entries()[i].0) == i,
            forall|i: int| 0 <= i < self.entries().len() ==> self@.contains_key(#[trigger] self.entries()[i].0)
                && self@[self.entries()[i].0] == self.entries()[i].1,
            forall|k: K| #[trigger] self@.contains_key(k) ==> exists|i: int| 0 <= i < self.entries().len() && self.entries()[i].0 == k,
    {
        proof {
            use_type_invariant(self);
            assert forall|i: int| 0 <= i < self.entries().len() implies #[trigger] last_index(self.entries(), self.entries()[i].0) == i by {
                lemma_last_index(self.entries@, self.entries@[i].0);
            }
            assert forall|k: K| #[trigger] self@.contains_key(k) implies exists|i: int| 0 <= i < self.entries().len() && self.entries()[i].0 == k by {
                lemma_last_index(self.entries@, k);
            }
        }
        self.entries.len()
    }

    pub fn is_empty(&self) -> (r: bool)
        ensures
            r == (self.entries().len() == 0),
            r == (self@ == Map::<K, V>::empty()),
    {
        if self.entries.len() > 0 {
            proof {
                let k = self.entries@[self.entries@.len() - 1].0;
                lemma_last_index(self.entries@, k);
                assert(self@.contains_key(k));
            }
        } else {
            assert(self@ =~= Map::<K, V>::empty());
        }
        self.entries.len() == 0
    }

    /// The index of the last entry with key `k`.
    fn find(&self, k: &K) -> (r: Option<usize>)
        ensures
            r is None <==> last_index(self.entries@, *k) == -1,
            r matches Some(i) ==> i as int == last_index(self.entries@, *k),
    {
        proof {
            lemma_last_index(self.entries@, *k);
        }
        let mut i = self.entries.len();
        assert(self.entries@.take(i as int) =~= self.entries@);
        while i > 0
            invariant
                i <= self.entries@.len(),
                last_index(self.entries@.take(i as int), *k) == last_index(self.entries@, *k),
            decreases i,
        {
            proof {
                lemma_last_index_take(self.entries@, *k, i as int);
            }
            if self.entries[i - 1].0.key_eq(k) {
                return Some(i - 1);
            }
            i = i - 1;
        }
        assert(self.entries@.take(0) =~= Seq::<(K, V)>::empty());
        None
    }

    pub fn contains_key(&self, k: &K) -> (r: bool)
        ensures
            r == self@.contains_key(*k),
    {
        self.find(k).is_some()
    }

    pub fn get(&self, k: &K) -> (r: Option<&V>)
        ensures
            r is Some <==> self@.contains_key(*k),
            r matches Some(v) ==> *v == self@[*k],
    {
        match self.find(k) {
            Some(i) => {
                proof {
                    lemma_last_index(self.entries@, *k);
                }
                Some(&self.entries[i].1)
            },
            None => None,
        }
    }

    /// Binds `k` to `v`, replacing an existing binding in place.
    pub fn insert(&mut self, k: K, v: V)
        ensures
            final(self)@ == old(self)@.insert(k, v),
            old(self)@.contains_key(k) ==> final(self).entries().len() == old(self).entries().len(),
            !old(self)@.contains_key(k) ==> final(self).entries() == old(self).entries().push((k, v)),
    {
        proof {
            lemma_last_index(self.entries@, k);
            use_type_invariant(&*self);
        }
        match self.find(&k) {
            Some(i) => {
                let ghost s = self.entries@;
                let mut es: Vec<(K, V)> = Vec::new();
                std::mem::swap(&mut es, &mut self.entries);
                es.set(i, (k, v));
                self.entries = es;
                proof {
                    assert(self.entries@ == s.update(i as int, (s[i as int].0, v)));
                    assert forall|q: K| true implies #[trigger] last_index(self.entries@, q) == last_index(s, q) by {
                        lemma_last_index_update(s, i as int, v, q);
                    }
                    assert forall|q: K| #[trigger] self@.contains_key(q) implies self@[q] == old(self)@.insert(k, v)[q] by {
                        lemma_last_index(s, q);
                    }
                    assert(self@ =~= old(self)@.insert(k, v));
                }
            },
            None => {
                let ghost s = self.entries@;
                let mut es: Vec<(K, V)> = Vec::new();
                std::mem::swap(&mut es, &mut self.entries);
                es.push((k, v));
                proof {
                    assert forall|i: int, j: int| 0 <= i < j < es@.len() implies es@[i].0 != es@[j].0 by {
                        if j == es@.len() - 1 {
                            lemma_last_index(s, k);
                            assert(es@[i] == s[i]);
                        } else {
                            assert(es@[i] == s[i]);
                            assert(es@[j] == s[j]);
                        }
                    }
                }
                self.entries = es;
                proof {
                    assert forall|q: K| true implies #[trigger] last_index(self.entries@, q) == if q == k { s.len() as int } else { last_index(s, q) } by {
                        assert(self.entries@.drop_last() =~= s);
                    }
                    assert forall|q: K| #[trigger] self@.contains_key(q) implies self@[q] == old(self)@.insert(k, v)[q] by {
                        lemma_last_index(s, q);
                        if q != k {
                            assert(self.entries@[last_index(s, q)] == s[last_index(s, q)]);
                        }
                    }
                    assert(self@ =~= old(self)@.insert(k, v));
                }
            },
        }
    }

    /// The entry at position `i` in insertion order.
    pub fn entry(&self, i: usize) -> (r: (&K, &V))
        requires
            i < self.entries().len(),
        ensures
            *r.0 == self.entries()[i as int].0,
            *r.1 == self.entries()[i as int].1,
    {
        (&self.entries[i].0, &self.entries[i].1)
    }

    /// The values, in insertion order.
    pub fn values(&self) -> (r: Vec<&V>)
        ensures
            r@.len() == self.entries().len(),
            forall|i: int| 0 <= i < r@.len() ==> *r@[i] == self.entries()[i].1,
    {
        let mut r: Vec<&V> = Vec::new();
        let mut i: usize = 0;
        while i < self.entries.len()
            invariant
                i <= self.entries@.len(),
                r@.len() == i,
                forall|m: int| 0 <= m < i ==> *r@[m] == self.entries@[m].1,
            decreases self.entries@.len() - i,
        {
            r.push(&self.entries[i].1);
            i = i + 1;
        }
        r
    }
}

impl<K: MapKey, V> Default for AssocMap<K, V> {
    fn default() -> (m: AssocMap<K, V>)
        ensures
            m@ == Map::<K, V>::empty(),
            m.entries() == Seq::<(K, V)>::empty(),
    {
        AssocMap::new()
    }
}

} // verus!
