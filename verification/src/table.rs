//! A small table: values found by their keys, each key at most once.
use vstd::prelude::*;

verus! {

/// Keys that can be compared.
pub trait Same: View + Sized {
    fn same(&self, other: &Self) -> (r: bool)
        ensures
            r == (self@ == other@),
    ;
}

impl Same for u64 {
    fn same(&self, other: &Self) -> (r: bool) {
        *self == *other
    }
}

impl Same for String {
    fn same(&self, other: &Self) -> (r: bool) {
        *self == *other
    }
}

/// Values found by their keys, in the order in which the keys came.
pub struct Table<K: Same, V: View> {
    pub keys: Vec<K>,
    pub values: Vec<V>,
}

impl<K: Same, V: View> View for Table<K, V> {
    type V = Map<K::V, V::V>;

    open spec fn view(&self) -> Map<K::V, V::V> {
        Map::new(
            |k: K::V| exists|i: int| self.has_at(k, i),
            |k: K::V| self.values@[self.index_of(k)]@,
        )
    }
}

impl<K: Same, V: View> Table<K, V> {
    pub open spec fn has_at(&self, k: K::V, i: int) -> bool {
        0 <= i < self.keys@.len() && self.keys@[i]@ == k
    }

    pub open spec fn index_of(&self, k: K::V) -> int {
        choose|i: int| self.has_at(k, i)
    }

    /// One value for each key, and no key twice.
    pub open spec fn wf(&self) -> bool {
        &&& self.keys@.len() == self.values@.len()
        &&& forall|i: int, j: int|
            0 <= i < j < self.keys@.len() ==> (#[trigger] self.keys@[i])@ != (
            #[trigger] self.keys@[j])@
    }

    pub proof fn lemma_at(&self, i: int)
        requires
            self.wf(),
            0 <= i < self.keys@.len(),
        ensures
            self@.contains_key(self.keys@[i]@),
            self@[self.keys@[i]@] == self.values@[i]@,
    {
        let k = self.keys@[i]@;
        assert(self.has_at(k, i));
        let j = self.index_of(k);
        assert(self.has_at(k, j));
        assert(i == j || i < j || j < i);
    }

    pub proof fn lemma_finite(&self)
        requires
            self.wf(),
        ensures
            self@.dom().finite(),
            self@.len() == self.keys@.len(),
    {
        let ks = self.keys@.map_values(|k: K| k@);
        assert(ks.no_duplicates());
        ks.unique_seq_to_set();
        assert(ks.to_set() =~= self@.dom()) by {
            assert forall|k: K::V| ks.to_set().contains(k) == #[trigger] self@.contains_key(k) by {
                if ks.contains(k) {
                    let i = choose|i: int| 0 <= i < ks.len() && ks[i] == k;
                    assert(self.has_at(k, i));
                }
                if self@.contains_key(k) {
                    let i = self.index_of(k);
                    assert(self.has_at(k, i));
                    assert(ks[i] == k);
                }
            }
        }
        vstd::seq_lib::seq_to_set_is_finite(ks);
    }

    pub fn new() -> (r: Self)
        ensures
            r.wf(),
            r@ == Map::<K::V, V::V>::empty(),
    {
        let r = Table { keys: Vec::new(), values: Vec::new() };
        assert(r@ =~= Map::<K::V, V::V>::empty());
        r
    }

    pub fn len(&self) -> (r: usize)
        requires
            self.wf(),
        ensures
            r == self@.len(),
            r == self.keys@.len(),
    {
        proof {
            self.lemma_finite();
        }
        self.keys.len()
    }

    fn find(&self, k: &K) -> (r: Option<usize>)
        requires
            self.wf(),
        ensures
            match r {
                Some(i) => i < self.keys@.len() && self.keys@[i as int]@ == k@,
                None => !self@.contains_key(k@),
            },
    {
        let mut i: usize = 0;
        while i < self.keys.len()
            invariant
                0 <= i <= self.keys.len(),
                forall|j: int| 0 <= j < i ==> (#[trigger] self.keys@[j])@ != k@,
            decreases self.keys.len() - i,
        {
            if self.keys[i].same(k) {
                return Some(i);
            }
            i += 1;
        }
        proof {
            if self@.contains_key(k@) {
                let j = self.index_of(k@);
                assert(self.has_at(k@, j));
            }
        }
        None
    }

    pub fn contains(&self, k: &K) -> (r: bool)
        requires
            self.wf(),
        ensures
            r == self@.contains_key(k@),
    {
        match self.find(k) {
            Some(i) => {
                proof {
                    self.lemma_at(i as int);
                }
                true
            },
            None => false,
        }
    }

    pub fn get(&self, k: &K) -> (r: Option<&V>)
        requires
            self.wf(),
        ensures
            match r {
                Some(v) => self@.contains_key(k@) && v@ == self@[k@],
                None => !self@.contains_key(k@),
            },
    {
        match self.find(k) {
            Some(i) => {
                proof {
                    self.lemma_at(i as int);
                }
                Some(&self.values[i])
            },
            None => None,
        }
    }

    /// Stores `v` under `k`, in place of what was there.
    pub fn insert(&mut self, k: K, v: V)
        requires
            old(self).wf(),
        ensures
            final(self).wf(),
            final(self)@ == old(self)@.insert(k@, v@),
    {
        match self.find(&k) {
            Some(i) => {
                self.values.set(i, v);
                proof {
                    assert(self.keys@ == old(self).keys@);
                    assert forall|q: K::V| self@.contains_key(q) == old(self)@.insert(
                        k@,
                        v@,
                    ).contains_key(q) by {
                        old(self).lemma_at(i as int);
                        if self@.contains_key(q) {
                            assert(old(self).has_at(q, self.index_of(q)));
                        }
                        if old(self)@.contains_key(q) {
                            assert(self.has_at(q, old(self).index_of(q)));
                        }
                    }
                    assert forall|q: K::V| self@.contains_key(q) implies self@[q] == old(
                        self,
                    )@.insert(k@, v@)[q] by {
                        let j = self.index_of(q);
                        assert(self.has_at(q, j));
                        self.lemma_at(j);
                        old(self).lemma_at(j);
                    }
                    assert(self@ =~= old(self)@.insert(k@, v@));
                }
            },
            None => {
                proof {
                    assert forall|j: int| 0 <= j < self.keys@.len() implies (
                    #[trigger] self.keys@[j])@ != k@ by {
                        self.lemma_at(j);
                    }
                }
                self.keys.push(k);
                self.values.push(v);
                proof {
                    let n = old(self).keys@.len() as int;
                    assert(self.wf());
                    assert forall|q: K::V| self@.contains_key(q) == old(self)@.insert(
                        k@,
                        v@,
                    ).contains_key(q) by {
                        if self@.contains_key(q) {
                            let j = self.index_of(q);
                            assert(self.has_at(q, j));
                            if j < n {
                                assert(old(self).has_at(q, j));
                            }
                        }
                        if old(self)@.contains_key(q) {
                            let j = old(self).index_of(q);
                            assert(old(self).has_at(q, j));
                            assert(self.has_at(q, j));
                        }
                        if q == k@ {
                            assert(self.has_at(q, n));
                        }
                    }
                    assert forall|q: K::V| self@.contains_key(q) implies self@[q] == old(
                        self,
                    )@.insert(k@, v@)[q] by {
                        let j = self.index_of(q);
                        assert(self.has_at(q, j));
                        self.lemma_at(j);
                        if j < n {
                            old(self).lemma_at(j);
                        }
                    }
                    assert(self@ =~= old(self)@.insert(k@, v@));
                }
            },
        }
    }

    /// Takes `k` and its value out; tells whether they were there.
    pub fn remove(&mut self, k: &K) -> (r: bool)
        requires
            old(self).wf(),
        ensures
            final(self).wf(),
            final(self)@ == old(self)@.remove(k@),
            r == old(self)@.contains_key(k@),
    {
        match self.find(k) {
            Some(i) => {
                proof {
                    self.lemma_at(i as int);
                }
                self.keys.remove(i);
                self.values.remove(i);
                proof {
                    let o = *old(self);
                    assert forall|a: int, b: int| 0 <= a < b < self.keys@.len() implies (
                    #[trigger] self.keys@[a])@ != (#[trigger] self.keys@[b])@ by {
                        let a2 = if a < i { a } else { a + 1 };
                        let b2 = if b < i { b } else { b + 1 };
                        assert(self.keys@[a] == o.keys@[a2] && self.keys@[b] == o.keys@[b2]);
                    }
                    assert(self.wf());
                    assert forall|q: K::V| self@.contains_key(q) == o@.remove(k@).contains_key(
                        q,
                    ) by {
                        if self@.contains_key(q) {
                            let j = self.index_of(q);
                            assert(self.has_at(q, j));
                            let j2 = if j < i { j } else { j + 1 };
                            assert(o.keys@[j2] == self.keys@[j]);
                            assert(o.has_at(q, j2));
                            assert(o.keys@[i as int]@ == k@);
                        }
                        if o@.contains_key(q) && q != k@ {
                            let j = o.index_of(q);
                            assert(o.has_at(q, j));
                            let j2 = if j < i { j } else { j - 1 };
                            assert(self.keys@[j2] == o.keys@[j]);
                            assert(self.has_at(q, j2));
                        }
                    }
                    assert forall|q: K::V| self@.contains_key(q) implies self@[q] == o@.remove(
                        k@,
                    )[q] by {
                        let j = self.index_of(q);
                        assert(self.has_at(q, j));
                        self.lemma_at(j);
                        let j2 = if j < i { j } else { j + 1 };
                        assert(o.keys@[j2] == self.keys@[j]);
                        o.lemma_at(j2);
                    }
                    assert(self@ =~= o@.remove(k@));
                }
                true
            },
            None => {
                assert(self@ =~= self@.remove(k@));
                false
            },
        }
    }
}

/// The map without the keys that lead to `v`.
pub open spec fn without_value<K>(m: Map<K, u64>, v: u64) -> Map<K, u64> {
    Map::new(|k: K| m.contains_key(k) && m[k] != v, |k: K| m[k])
}

impl<K: Same> Table<K, u64> {
    /// Takes out every key that leads to `v`.
    pub fn remove_value(&mut self, v: u64)
        requires
            old(self).wf(),
        ensures
            final(self).wf(),
            final(self)@ == without_value(old(self)@, v),
    {
        let mut i: usize = 0;
        let ghost o = *old(self);
        while i < self.keys.len()
            invariant
                0 <= i <= self.keys.len(),
                self.wf(),
                o.wf(),
                forall|q: K::V| #[trigger]
                    self@.contains_key(q) ==> o@.contains_key(q) && self@[q] == o@[q],
                forall|q: K::V|
                    o@.contains_key(q) && o@[q] != v ==> #[trigger] self@.contains_key(q),
                forall|j: int| 0 <= j < i ==> self.values@[j] != v,
            decreases self.keys.len() - i,
        {
            if self.values[i] == v {
                let ghost before = *self;
                proof {
                    before.lemma_at(i as int);
                }
                self.keys.remove(i);
                self.values.remove(i);
                proof {
                    assert forall|a: int, b: int| 0 <= a < b < self.keys@.len() implies (
                    #[trigger] self.keys@[a])@ != (#[trigger] self.keys@[b])@ by {
                        let a2 = if a < i { a } else { a + 1 };
                        let b2 = if b < i { b } else { b + 1 };
                        assert(self.keys@[a] == before.keys@[a2] && self.keys@[b]
                            == before.keys@[b2]);
                    }
                    assert forall|q: K::V| #[trigger]
                        self@.contains_key(q) implies before@.contains_key(q) && self@[q]
                        == before@[q] by {
                        let j = self.index_of(q);
                        assert(self.has_at(q, j));
                        self.lemma_at(j);
                        let j2 = if j < i { j } else { j + 1 };
                        assert(before.keys@[j2] == self.keys@[j]);
                        before.lemma_at(j2);
                    }
                    assert forall|q: K::V|
                        o@.contains_key(q) && o@[q] != v implies #[trigger] self@.contains_key(
                        q,
                    ) by {
                        assert(before@.contains_key(q));
                        let j = before.index_of(q);
                        assert(before.has_at(q, j));
                        before.lemma_at(j);
                        let j2 = if j < i { j } else { j - 1 };
                        assert(self.keys@[j2] == before.keys@[j]);
                        assert(self.has_at(q, j2));
                    }
                }
            } else {
                i += 1;
            }
        }
        proof {
            assert forall|q: K::V| self@.contains_key(q) == without_value(o@, v).contains_key(
                q,
            ) by {
                if self@.contains_key(q) {
                    let j = self.index_of(q);
                    assert(self.has_at(q, j));
                    self.lemma_at(j);
                }
            }
            assert(self@ =~= without_value(o@, v));
        }
    }
}

/// Taking a value out takes away every key that has it, and leaves the others
/// with what they have.
pub proof fn values_are_taken_out<K>(m: Map<K, u64>, v: u64, k: K)
    ensures
        without_value(m, v).contains_key(k) <==> m.contains_key(k) && m[k] != v,
        without_value(m, v).contains_key(k) ==> without_value(m, v)[k] == m[k],
{
}

} // verus!
