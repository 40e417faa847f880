use vstd::prelude::*;

verus! {

/// A key of a [`KeyedMap`]: two keys are the same key exactly when their views are equal.
pub trait MapKey: View + Sized {
    fn same_key(&self, other: &Self) -> (b: bool)
        ensures
            b == (self@ == other@),
    ;

    fn copy_key(&self) -> (r: Self)
        ensures
            r@ == self@,
    ;
}

/// `b` holds the same keys as `a`, each with a clone of `a`'s value.
pub open spec fn map_cloned<K, V: Clone>(a: Map<K, V>, b: Map<K, V>) -> bool {
    &&& a.dom() == b.dom()
    &&& forall|k: K| #[trigger] a.contains_key(k) ==> cloned(a[k], b[k])
}

/// A map of clones holds exactly the same keys, each with a clone of the original value.
pub proof fn lemma_map_cloned_answers_alike<K, V: Clone>(a: Map<K, V>, b: Map<K, V>, k: K)
    requires
        map_cloned(a, b),
    ensures
        b.contains_key(k) == a.contains_key(k),
        a.contains_key(k) ==> cloned(a[k], b[k]),
{
}

/// A finite map whose entries are kept in a vector, no two of them under the same key.
/// Its view is the map from each key's view to the value stored under it.
#[derive(Debug)]
pub struct KeyedMap<K, V> {
    entries: Vec<(K, V)>,
}

impl<K: MapKey, V> KeyedMap<K, V> {
    /// The views of the keys of a sequence of entries.
    pub open spec fn keys_of(s: Seq<(K, V)>) -> Seq<K::V> {
        s.map_values(|e: (K, V)| e.0@)
    }

    spec fn position_in(s: Seq<(K, V)>, k: K::V) -> int {
        choose|i: int| 0 <= i < s.len() && s[i].0@ == k
    }

    /// The map that a sequence of entries stands for.
    pub closed spec fn contents_of(s: Seq<(K, V)>) -> Map<K::V, V> {
        Map::new(
            |k: K::V| Self::keys_of(s).contains(k),
            |k: K::V| s[Self::position_in(s, k)].1,
        )
    }

    /// The views of the keys, in the order in which the entries are stored.
    pub closed spec fn key_seq(&self) -> Seq<K::V> {
        Self::keys_of(self.entries@)
    }

    /// No key occurs twice.
    pub closed spec fn wf(&self) -> bool {
        self.key_seq().no_duplicates()
    }

    spec fn position(&self, k: K::V) -> int {
        Self::position_in(self.entries@, k)
    }

    pub closed spec fn contents(&self) -> Map<K::V, V> {
        Self::contents_of(self.entries@)
    }

    proof fn lemma_position(s: Seq<(K, V)>, k: K::V)
        requires
            Self::keys_of(s).contains(k),
        ensures
            0 <= Self::position_in(s, k) < s.len(),
            s[Self::position_in(s, k)].0@ == k,
    {
        let x = choose|x: int| 0 <= x < Self::keys_of(s).len() && Self::keys_of(s)[x] == k;
        assert(s[x].0@ == k);
    }

    proof fn lemma_entry_of(s: Seq<(K, V)>, i: int)
        requires
            Self::keys_of(s).no_duplicates(),
            0 <= i < s.len(),
        ensures
            Self::contents_of(s).contains_key(s[i].0@),
            Self::contents_of(s)[s[i].0@] == s[i].1,
            Self::keys_of(s)[i] == s[i].0@,
    {
        let k = s[i].0@;
        assert(Self::keys_of(s)[i] == k);
        assert(Self::keys_of(s).contains(k));
        let j = Self::position_in(s, k);
        assert(0 <= j < s.len() && s[j].0@ == k);
        assert(Self::keys_of(s)[j] == k);
    }

    proof fn lemma_entry(&self, i: int)
        requires
            self.wf(),
            0 <= i < self.entries@.len(),
        ensures
            self.contents().contains_key(self.entries@[i].0@),
            self.contents()[self.entries@[i].0@] == self.entries@[i].1,
            self.key_seq()[i] == self.entries@[i].0@,
    {
        Self::lemma_entry_of(self.entries@, i);
    }

    /// Replacing the value of one entry, key kept, replaces the value under that key.
    proof fn lemma_update_value(s: Seq<(K, V)>, i: int)
        requires
            Self::keys_of(s).no_duplicates(),
            0 <= i < s.len(),
        ensures
            forall|v: V|
                #![trigger Self::keys_of(s.update(i, (s[i].0, v)))]
                Self::keys_of(s.update(i, (s[i].0, v))) == Self::keys_of(s),
            forall|v: V|
                #![trigger Self::contents_of(s.update(i, (s[i].0, v)))]
                Self::contents_of(s.update(i, (s[i].0, v))) == Self::contents_of(s).insert(s[i].0@, v),
    {
        assert forall|v: V|
            #![trigger Self::keys_of(s.update(i, (s[i].0, v)))]
            Self::keys_of(s.update(i, (s[i].0, v))) == Self::keys_of(s) by {
            assert(Self::keys_of(s.update(i, (s[i].0, v))) =~= Self::keys_of(s));
        }
        assert forall|v: V|
            #![trigger Self::contents_of(s.update(i, (s[i].0, v)))]
            Self::contents_of(s.update(i, (s[i].0, v))) == Self::contents_of(s).insert(s[i].0@, v) by {
            let t = s.update(i, (s[i].0, v));
            let k = s[i].0@;
            assert(Self::keys_of(t) =~= Self::keys_of(s));
            Self::lemma_entry_of(s, i);
            assert forall|kk: K::V| Self::contents_of(t).contains_key(kk) implies #[trigger] Self::contents_of(t)[kk] == Self::contents_of(s).insert(k, v)[kk] by {
                Self::lemma_position(t, kk);
                let j = Self::position_in(t, kk);
                Self::lemma_entry_of(t, j);
                if j != i {
                    Self::lemma_entry_of(s, j);
                }
            }
            assert(Self::contents_of(t) =~= Self::contents_of(s).insert(k, v));
        }
    }

    /// The keys of a well-formed map are listed once each by `key_seq`, and the map is
    /// finite with as many entries as that list.
    pub proof fn lemma_key_seq(&self)
        requires
            self.wf(),
        ensures
            self.key_seq().no_duplicates(),
            forall|k: K::V| #[trigger] self@.contains_key(k) <==> self.key_seq().contains(k),
            self@.dom() == self.key_seq().to_set(),
            self@.dom().finite(),
            self@.len() == self.key_seq().len(),
    {
        assert(self@.dom() =~= self.key_seq().to_set());
        self.key_seq().unique_seq_to_set();
    }

    fn find(&self, k: &K) -> (r: Option<usize>)
        requires
            self.wf(),
        ensures
            match r {
                Some(i) => i < self.entries@.len() && self.entries@[i as int].0@ == k@,
                None => !self@.contains_key(k@),
            },
    {
        let mut i: usize = 0;
        while i < self.entries.len()
            invariant
                i <= self.entries@.len(),
                forall|j: int| 0 <= j < i ==> self.entries@[j].0@ != k@,
            decreases self.entries@.len() - i,
        {
            if self.entries[i].0.same_key(k) {
                return Some(i);
            }
            i += 1;
        }
        proof {
            if self.key_seq().contains(k@) {
                let j = choose|j: int| 0 <= j < self.key_seq().len() && self.key_seq()[j] == k@;
                assert(self.entries@[j].0@ == k@);
            }
        }
        None
    }

    /// An empty map.
    pub fn new() -> (m: Self)
        ensures
            m.wf(),
            m@ == Map::<K::V, V>::empty(),
    {
        let m = KeyedMap { entries: Vec::new() };
        assert(m@ =~= Map::<K::V, V>::empty());
        m
    }

    /// Whether a value is stored under `k`.
    pub fn contains_key(&self, k: &K) -> (b: bool)
        requires
            self.wf(),
        ensures
            b == self@.contains_key(k@),
    {
        match self.find(k) {
            Some(i) => {
                proof {
                    self.lemma_entry(i as int);
                }
                true
            },
            None => false,
        }
    }

    /// The value stored under `k`, if any.
    pub fn get(&self, k: &K) -> (r: Option<&V>)
        requires
            self.wf(),
        ensures
            match r {
                Some(v) => self@.contains_key(k@) && *v == self@[k@],
                None => !self@.contains_key(k@),
            },
    {
        match self.find(k) {
            Some(i) => {
                proof {
                    self.lemma_entry(i as int);
                }
                Some(&self.entries[i].1)
            },
            None => None,
        }
    }

    /// A mutable reference to the value stored under `k`, which must be present.
    pub fn get_mut(&mut self, k: &K) -> (r: &mut V)
        requires
            old(self).wf(),
            old(self)@.contains_key(k@),
        ensures
            *r == old(self)@[k@],
            final(self).wf(),
            final(self)@ == old(self)@.insert(k@, *final(r)),
    {
        let i = self.find(k).unwrap();
        proof {
            self.lemma_entry(i as int);
        }
        proof {
            Self::lemma_update_value(self.entries@, i as int);
        }
        &mut self.entries[i].1
    }

    /// Stores `v` under `k`, replacing what was there.
    pub fn insert(&mut self, k: K, v: V)
        requires
            old(self).wf(),
        ensures
            final(self).wf(),
            final(self)@ == old(self)@.insert(k@, v),
    {
        match self.find(&k) {
            Some(i) => {
                proof {
                    Self::lemma_update_value(self.entries@, i as int);
                }
                let slot = &mut self.entries[i].1;
                *slot = v;
            },
            None => {
                let ghost kv = k@;
                let ghost vv = v;
                self.entries.push((k, v));
                proof {
                    let n = old(self).entries@.len();
                    assert(self.key_seq() =~= old(self).key_seq().push(kv));
                    assert(self.key_seq().no_duplicates()) by {
                        assert forall|a: int, b: int| 0 <= a < b < self.key_seq().len() implies self.key_seq()[a] != self.key_seq()[b] by {
                            if b == n {
                                assert(old(self).key_seq()[a] == self.key_seq()[a]);
                                assert(old(self).key_seq().contains(self.key_seq()[a]));
                            }
                        }
                    }
                    assert forall|kk: K::V| #[trigger] self@.contains_key(kk) <==> old(self)@.insert(kv, vv).contains_key(kk) by {
                        if old(self).key_seq().contains(kk) {
                            let a = choose|a: int| 0 <= a < old(self).key_seq().len() && old(self).key_seq()[a] == kk;
                            assert(self.key_seq()[a] == kk);
                        }
                        if kk == kv {
                            assert(self.key_seq()[n as int] == kk);
                        }
                        if self.key_seq().contains(kk) && kk != kv {
                            let a = choose|a: int| 0 <= a < self.key_seq().len() && self.key_seq()[a] == kk;
                            assert(old(self).key_seq()[a] == kk);
                        }
                    }
                    assert forall|kk: K::V| self@.contains_key(kk) implies #[trigger] self@[kk] == old(self)@.insert(kv, vv)[kk] by {
                        Self::lemma_position(self.entries@, kk);
                        let j = self.position(kk);
                        self.lemma_entry(j);
                        if j != n {
                            old(self).lemma_entry(j);
                        }
                    }
                    assert(self@ =~= old(self)@.insert(kv, vv));
                }
            },
        }
    }

    /// Takes out the value stored under `k`, if any.
    pub fn remove(&mut self, k: &K) -> (r: Option<V>)
        requires
            old(self).wf(),
        ensures
            final(self).wf(),
            final(self)@ == old(self)@.remove(k@),
            match r {
                Some(v) => old(self)@.contains_key(k@) && v == old(self)@[k@],
                None => !old(self)@.contains_key(k@),
            },
    {
        match self.find(k) {
            Some(i) => {
                proof {
                    self.lemma_entry(i as int);
                }
                let e = self.entries.remove(i);
                proof {
                    let ks = old(self).key_seq();
                    assert(self.key_seq() =~= ks.remove(i as int));
                    assert(self.key_seq().no_duplicates()) by {
                        assert forall|a: int, b: int| 0 <= a < b < self.key_seq().len() implies self.key_seq()[a] != self.key_seq()[b] by {
                            let a2 = if a < i { a } else { a + 1 };
                            let b2 = if b < i { b } else { b + 1 };
                            assert(self.key_seq()[a] == ks[a2]);
                            assert(self.key_seq()[b] == ks[b2]);
                        }
                    }
                    assert forall|kk: K::V| #[trigger] self@.contains_key(kk) <==> old(self)@.remove(k@).contains_key(kk) by {
                        if self.key_seq().contains(kk) {
                            let a = choose|a: int| 0 <= a < self.key_seq().len() && self.key_seq()[a] == kk;
                            let a2 = if a < i { a } else { a + 1 };
                            assert(ks[a2] == kk);
                            assert(ks.contains(kk));
                        }
                        if old(self)@.remove(k@).contains_key(kk) {
                            let a = choose|a: int| 0 <= a < ks.len() && ks[a] == kk;
                            assert(a != i);
                            let a2 = if a < i { a } else { a - 1 };
                            assert(self.key_seq()[a2] == kk);
                        }
                    }
                    assert forall|kk: K::V| self@.contains_key(kk) implies #[trigger] self@[kk] == old(self)@.remove(k@)[kk] by {
                        Self::lemma_position(self.entries@, kk);
                        let j = self.position(kk);
                        self.lemma_entry(j);
                        let j2 = if j < i { j } else { j + 1 };
                        assert(self.entries@[j] == old(self).entries@[j2]);
                        old(self).lemma_entry(j2);
                    }
                    assert(self@ =~= old(self)@.remove(k@));
                }
                Some(e.1)
            },
            None => {
                proof {
                    assert(old(self)@.remove(k@) =~= old(self)@);
                }
                None
            },
        }
    }

    /// Removes every entry.
    pub fn clear(&mut self)
        ensures
            final(self).wf(),
            final(self)@ == Map::<K::V, V>::empty(),
    {
        self.entries.clear();
        assert(self@ =~= Map::<K::V, V>::empty());
    }

    /// Copies of the keys, in the order of `key_seq`.
    pub fn keys(&self) -> (r: Vec<K>)
        ensures
            r@.map_values(|k: K| k@) == self.key_seq(),
    {
        let mut r: Vec<K> = Vec::new();
        let mut i: usize = 0;
        while i < self.entries.len()
            invariant
                i <= self.entries@.len(),
                r@.len() == i,
                forall|j: int| 0 <= j < i ==> #[trigger] r@[j]@ == self.key_seq()[j],
            decreases self.entries@.len() - i,
        {
            let k = self.entries[i].0.copy_key();
            r.push(k);
            i += 1;
        }
        assert(r@.map_values(|k: K| k@) =~= self.key_seq());
        r
    }

    /// References to the values, in the order of `key_seq`.
    pub fn values(&self) -> (r: Vec<&V>)
        requires
            self.wf(),
        ensures
            r@.len() == self.key_seq().len(),
            forall|i: int| 0 <= i < r@.len() ==> *#[trigger] r@[i] == self@[self.key_seq()[i]],
    {
        let mut r: Vec<&V> = Vec::new();
        let mut i: usize = 0;
        while i < self.entries.len()
            invariant
                self.wf(),
                i <= self.entries@.len(),
                r@.len() == i,
                forall|j: int| 0 <= j < i ==> *#[trigger] r@[j] == self@[self.key_seq()[j]],
            decreases self.entries@.len() - i,
        {
            proof {
                self.lemma_entry(i as int);
            }
            r.push(&self.entries[i].1);
            i += 1;
        }
        r
    }
}

impl<K: MapKey, V> View for KeyedMap<K, V> {
    type V = Map<K::V, V>;

    closed spec fn view(&self) -> Map<K::V, V> {
        self.contents()
    }
}

impl<K: MapKey, V: Clone> Clone for KeyedMap<K, V> {
    /// The same keys in the same order, each with a clone of its value.
    fn clone(&self) -> (r: Self)
        ensures
            r.key_seq() == self.key_seq(),
            self.wf() ==> r.wf() && map_cloned(self@, r@),
    {
        let mut entries: Vec<(K, V)> = Vec::new();
        let mut i: usize = 0;
        while i < self.entries.len()
            invariant
                i <= self.entries@.len(),
                entries@.len() == i,
                forall|j: int|
                    0 <= j < i ==> #[trigger] entries@[j].0@ == self.entries@[j].0@ && cloned(
                        self.entries@[j].1,
                        entries@[j].1,
                    ),
            decreases self.entries@.len() - i,
        {
            let k = self.entries[i].0.copy_key();
            let v = self.entries[i].1.clone();
            entries.push((k, v));
            i += 1;
        }
        let r = KeyedMap { entries };
        assert(r.key_seq() =~= self.key_seq());
        proof {
            if self.wf() {
                assert(r@.dom() =~= self@.dom());
                assert forall|k: K::V| #[trigger] self@.contains_key(k) implies cloned(self@[k], r@[k]) by {
                    Self::lemma_position(self.entries@, k);
                    let j = self.position(k);
                    self.lemma_entry(j);
                    r.lemma_entry(j);
                }
            }
        }
        r
    }
}

} // verus!
