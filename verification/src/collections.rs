//! Small keyed collections with exact specifications: a map and a set whose
//! keys are compared by their view (the characters of a name).

use vstd::prelude::*;

verus! {

/// A key that can be compared and copied with its view preserved.
pub trait Key: View + Sized {
    fn same_key(&self, other: &Self) -> (r: bool)
        ensures
            r == (self@ == other@),
    ;

    fn copy_key(&self) -> (r: Self)
        ensures
            r@ == self@,
    ;
}

impl Key for String {
    fn same_key(&self, other: &Self) -> (r: bool) {
        *self == *other
    }

    fn copy_key(&self) -> (r: Self) {
        self.clone()
    }
}

/// Views of a sequence of keys.
pub open spec fn key_views<K: View>(s: Seq<K>) -> Seq<K::V> {
    s.map_values(|k: K| k@)
}

/// A map from keys to values, kept as two parallel vectors with distinct keys.
pub struct KeyMap<K, V> {
    keys: Vec<K>,
    vals: Vec<V>,
}

impl<K: Key, V> KeyMap<K, V> {
    /// Number of entries.
    pub closed spec fn len_spec(&self) -> nat {
        self.keys@.len()
    }

    /// The key of the entry at position `i`.
    pub closed spec fn key_spec(&self, i: int) -> K::V {
        self.keys@[i]@
    }

    /// The value of the entry at position `i`.
    pub closed spec fn val_spec(&self, i: int) -> V {
        self.vals@[i]
    }

    /// The keys in entry order.
    pub closed spec fn key_seq(&self) -> Seq<K::V> {
        key_views(self.keys@)
    }

    pub closed spec fn wf(&self) -> bool {
        &&& self.keys@.len() == self.vals@.len()
        &&& forall|i: int, j: int|
            0 <= i < self.keys@.len() && 0 <= j < self.keys@.len() && i != j ==> #[trigger] self.keys@[i]@
                != #[trigger] self.keys@[j]@
    }

    closed spec fn has_key(&self, k: K::V) -> bool {
        exists|i: int| 0 <= i < self.keys@.len() && #[trigger] self.keys@[i]@ == k
    }

    closed spec fn index_of(&self, k: K::V) -> int {
        choose|i: int| 0 <= i < self.keys@.len() && #[trigger] self.keys@[i]@ == k
    }

    /// The entries as a mathematical map.
    pub closed spec fn as_map(&self) -> Map<K::V, V> {
        Map::new(|k: K::V| self.has_key(k), |k: K::V| self.vals@[self.index_of(k)])
    }

    /// How positions, keys and the map view relate.
    pub proof fn lemma_entries(&self)
        requires
            self.wf(),
        ensures
            forall|i: int|
                0 <= i < self.len_spec() ==> #[trigger] self.as_map().contains_key(self.key_spec(i))
                    && self.as_map()[self.key_spec(i)] == self.val_spec(i),
            forall|k: K::V|
                #[trigger] self.as_map().contains_key(k) ==> exists|i: int|
                    0 <= i < self.len_spec() && #[trigger] self.key_spec(i) == k,
            forall|i: int, j: int|
                0 <= i < self.len_spec() && 0 <= j < self.len_spec() && i != j ==> #[trigger] self.key_spec(i)
                    != #[trigger] self.key_spec(j),
            self.key_seq().len() == self.len_spec(),
            forall|i: int| 0 <= i < self.len_spec() ==> #[trigger] self.key_seq()[i] == self.key_spec(i),
            self.as_map().dom() == self.key_seq().to_set(),
    {
        assert forall|i: int| 0 <= i < self.len_spec() implies #[trigger] self.as_map().contains_key(
            self.key_spec(i),
        ) && self.as_map()[self.key_spec(i)] == self.val_spec(i) by {
            let k = self.key_spec(i);
            assert(self.has_key(k));
            let j = self.index_of(k);
            assert(self.keys@[j]@ == k);
        }
        assert forall|k: K::V| #[trigger] self.as_map().contains_key(k) implies exists|i: int|
            0 <= i < self.len_spec() && #[trigger] self.key_spec(i) == k by {
            let i = choose|i: int| 0 <= i < self.keys@.len() && #[trigger] self.keys@[i]@ == k;
            assert(self.key_spec(i) == k);
        }
        assert(self.as_map().dom() =~= self.key_seq().to_set()) by {
            assert forall|k: K::V| self.as_map().dom().contains(k) implies self.key_seq().to_set().contains(
                k,
            ) by {
                let i = choose|i: int| 0 <= i < self.keys@.len() && #[trigger] self.keys@[i]@ == k;
                assert(self.key_seq()[i] == k);
            }
            assert forall|k: K::V| self.key_seq().to_set().contains(k) implies self.as_map().dom().contains(
                k,
            ) by {
                let i = choose|i: int| 0 <= i < self.key_seq().len() && self.key_seq()[i] == k;
                assert(self.keys@[i]@ == k);
            }
        }
    }

    pub fn new() -> (r: Self)
        ensures
            r.wf(),
            r.as_map() == Map::<K::V, V>::empty(),
            r.len_spec() == 0,
    {
        let r = KeyMap { keys: Vec::new(), vals: Vec::new() };
        assert(r.as_map() =~= Map::<K::V, V>::empty());
        r
    }

    pub fn len(&self) -> (n: usize)
        requires
            self.wf(),
        ensures
            n == self.len_spec(),
    {
        self.keys.len()
    }

    /// Position of the entry whose key has the view of `k`.
    pub fn find(&self, k: &K) -> (r: Option<usize>)
        requires
            self.wf(),
        ensures
            r matches Some(i) ==> i < self.len_spec() && self.key_spec(i as int) == k@
                && self.as_map().contains_key(k@) && self.as_map()[k@] == self.val_spec(i as int),
            r is None ==> !self.as_map().contains_key(k@),
    {
        let n = self.keys.len();
        for i in 0..n
            invariant
                n == self.keys@.len(),
                self.wf(),
                forall|j: int| 0 <= j < i ==> self.keys@[j]@ != k@,
        {
            if self.keys[i].same_key(k) {
                proof {
                    self.lemma_entries();
                }
                return Some(i);
            }
        }
        None
    }

    pub fn contains_key(&self, k: &K) -> (r: bool)
        requires
            self.wf(),
        ensures
            r == self.as_map().contains_key(k@),
    {
        self.find(k).is_some()
    }

    pub fn get(&self, k: &K) -> (r: Option<&V>)
        requires
            self.wf(),
        ensures
            r is Some == self.as_map().contains_key(k@),
            r matches Some(v) ==> *v == self.as_map()[k@],
    {
        match self.find(k) {
            Some(i) => Some(&self.vals[i]),
            None => None,
        }
    }

    pub fn key_at(&self, i: usize) -> (r: &K)
        requires
            self.wf(),
            i < self.len_spec(),
        ensures
            r@ == self.key_spec(i as int),
    {
        &self.keys[i]
    }

    pub fn val_at(&self, i: usize) -> (r: &V)
        requires
            self.wf(),
            i < self.len_spec(),
        ensures
            *r == self.val_spec(i as int),
    {
        &self.vals[i]
    }

    /// Replaces the value at position `i`; keys and positions stay.
    pub fn set_at(&mut self, i: usize, v: V)
        requires
            old(self).wf(),
            i < old(self).len_spec(),
        ensures
            final(self).wf(),
            final(self).len_spec() == old(self).len_spec(),
            final(self).key_seq() == old(self).key_seq(),
            forall|j: int|
                0 <= j < old(self).len_spec() ==> #[trigger] final(self).key_spec(j) == old(
                    self,
                ).key_spec(j),
            forall|j: int|
                0 <= j < old(self).len_spec() && j != i ==> #[trigger] final(self).val_spec(j)
                    == old(self).val_spec(j),
            final(self).val_spec(i as int) == v,
            final(self).as_map() == old(self).as_map().insert(old(self).key_spec(i as int), v),
    {
        let ghost old_self = *self;
        proof {
            old_self.lemma_entries();
        }
        self.vals.set(i, v);
        proof {
            assert(self.keys == old_self.keys);
            assert(self.key_seq() =~= old_self.key_seq());
            let m0 = old_self.as_map();
            let m1 = self.as_map();
            let kk = old_self.key_spec(i as int);
            assert forall|k: K::V| m1.contains_key(k) == m0.insert(kk, v).contains_key(k) by {
                if k == kk {
                    assert(self.keys@[i as int]@ == k);
                }
            }
            assert forall|k: K::V| #[trigger] m1.contains_key(k) implies m1[k] == m0.insert(kk, v)[k] by {
                let j = self.index_of(k);
                assert(self.keys@[j]@ == k);
                if k == kk {
                    assert(j == i);
                } else {
                    let j0 = old_self.index_of(k);
                    assert(old_self.keys@[j0]@ == k);
                    assert(j0 == j);
                }
            }
            assert(m1 =~= m0.insert(kk, v));
        }
    }

    /// Inserts or replaces the entry for `k`.
    pub fn insert(&mut self, k: K, v: V)
        requires
            old(self).wf(),
        ensures
            final(self).wf(),
            final(self).as_map() == old(self).as_map().insert(k@, v),
    {
        proof {
            self.lemma_entries();
        }
        match self.find(&k) {
            Some(i) => {
                self.set_at(i, v);
            },
            None => {
                let ghost old_self = *self;
                self.keys.push(k);
                self.vals.push(v);
                proof {
                    let n = old_self.keys@.len() as int;
                    assert forall|i: int, j: int|
                        0 <= i < self.keys@.len() && 0 <= j < self.keys@.len() && i != j implies #[trigger] self.keys@[i]@
                        != #[trigger] self.keys@[j]@ by {
                        if i < n && j < n {
                            assert(old_self.keys@[i] == self.keys@[i]);
                            assert(old_self.keys@[j] == self.keys@[j]);
                        } else if i == n {
                            assert(old_self.keys@[j] == self.keys@[j]);
                            assert(old_self.has_key(self.keys@[j]@));
                        } else {
                            assert(old_self.keys@[i] == self.keys@[i]);
                            assert(old_self.has_key(self.keys@[i]@));
                        }
                    }
                    self.lemma_entries();
                    let m0 = old_self.as_map();
                    let m1 = self.as_map();
                    assert forall|kk: K::V| m1.contains_key(kk) == m0.insert(k@, v).contains_key(kk) by {
                        if m1.contains_key(kk) {
                            let j = choose|j: int| 0 <= j < self.keys@.len() && #[trigger] self.keys@[j]@ == kk;
                            if j < n {
                                assert(old_self.keys@[j]@ == kk);
                            }
                        }
                        if m0.contains_key(kk) {
                            let j = choose|j: int| 0 <= j < old_self.keys@.len() && #[trigger] old_self.keys@[j]@ == kk;
                            assert(self.keys@[j]@ == kk);
                        }
                        if kk == k@ {
                            assert(self.keys@[n]@ == kk);
                        }
                    }
                    assert forall|kk: K::V| #[trigger] m1.contains_key(kk) implies m1[kk] == m0.insert(k@, v)[kk] by {
                        let j = self.index_of(kk);
                        assert(self.keys@[j]@ == kk);
                        if kk == k@ {
                            assert(self.keys@[n]@ == kk);
                            assert(j == n);
                        } else {
                            assert(j < n);
                            assert(old_self.keys@[j]@ == kk);
                            let j0 = old_self.index_of(kk);
                            assert(old_self.keys@[j0]@ == kk);
                            assert(self.keys@[j0]@ == kk);
                        }
                    }
                    assert(m1 =~= m0.insert(k@, v));
                }
            },
        }
    }

    /// Removes the entry at position `i` and hands back its key and value.
    pub fn remove_at(&mut self, i: usize) -> (r: (K, V))
        requires
            old(self).wf(),
            i < old(self).len_spec(),
        ensures
            final(self).wf(),
            r.0@ == old(self).key_spec(i as int),
            r.1 == old(self).val_spec(i as int),
            final(self).as_map() == old(self).as_map().remove(r.0@),
            final(self).key_seq() == old(self).key_seq().remove(i as int),
    {
        let ghost old_self = *self;
        proof {
            old_self.lemma_entries();
        }
        let k = self.keys.remove(i);
        let v = self.vals.remove(i);
        proof {
            let n = old_self.keys@.len() as int;
            let ii = i as int;
            assert forall|a: int| 0 <= a < self.keys@.len() implies #[trigger] self.keys@[a] == old_self.keys@[if a
                < ii {
                a
            } else {
                a + 1
            }] by {}
            assert forall|a: int, b: int|
                0 <= a < self.keys@.len() && 0 <= b < self.keys@.len() && a != b implies #[trigger] self.keys@[a]@
                != #[trigger] self.keys@[b]@ by {
                let a0 = if a < ii {
                    a
                } else {
                    a + 1
                };
                let b0 = if b < ii {
                    b
                } else {
                    b + 1
                };
                assert(self.keys@[a] == old_self.keys@[a0]);
                assert(self.keys@[b] == old_self.keys@[b0]);
            }
            assert(self.key_seq() =~= old_self.key_seq().remove(ii));
            let m0 = old_self.as_map();
            let m1 = self.as_map();
            assert forall|kk: K::V| m1.contains_key(kk) == m0.remove(k@).contains_key(kk) by {
                if m1.contains_key(kk) {
                    let a = choose|a: int| 0 <= a < self.keys@.len() && #[trigger] self.keys@[a]@ == kk;
                    let a0 = if a < ii {
                        a
                    } else {
                        a + 1
                    };
                    assert(old_self.keys@[a0]@ == kk);
                    assert(a0 != ii);
                }
                if m0.contains_key(kk) && kk != k@ {
                    let a = choose|a: int| 0 <= a < old_self.keys@.len() && #[trigger] old_self.keys@[a]@ == kk;
                    assert(a != ii);
                    let a1 = if a < ii {
                        a
                    } else {
                        a - 1
                    };
                    assert(self.keys@[a1]@ == kk);
                }
            }
            assert forall|kk: K::V| #[trigger] m1.contains_key(kk) implies m1[kk] == m0.remove(k@)[kk] by {
                let a = self.index_of(kk);
                assert(self.keys@[a]@ == kk);
                let a0 = if a < ii {
                    a
                } else {
                    a + 1
                };
                assert(old_self.keys@[a0]@ == kk);
                assert(self.vals@[a] == old_self.vals@[a0]);
                let b = old_self.index_of(kk);
                assert(old_self.keys@[b]@ == kk);
                assert(b == a0);
            }
            assert(m1 =~= m0.remove(k@));
        }
        (k, v)
    }

    /// Removes the entry for `k`, if there is one, and hands back its value.
    pub fn remove(&mut self, k: &K) -> (r: Option<V>)
        requires
            old(self).wf(),
        ensures
            final(self).wf(),
            final(self).as_map() == old(self).as_map().remove(k@),
            r is Some == old(self).as_map().contains_key(k@),
            r matches Some(v) ==> v == old(self).as_map()[k@],
    {
        match self.find(k) {
            Some(i) => {
                let (_, v) = self.remove_at(i);
                Some(v)
            },
            None => {
                proof {
                    assert(self.as_map().remove(k@) =~= self.as_map());
                }
                None
            },
        }
    }

    /// Copies of the keys, in entry order.
    pub fn keys(&self) -> (r: Vec<K>)
        requires
            self.wf(),
        ensures
            key_views(r@) == self.key_seq(),
            key_views(r@).no_duplicates(),
            key_views(r@).to_set() == self.as_map().dom(),
    {
        let mut r: Vec<K> = Vec::new();
        let n = self.keys.len();
        for i in 0..n
            invariant
                n == self.keys@.len(),
                self.wf(),
                r@.len() == i,
                forall|j: int| 0 <= j < i ==> #[trigger] r@[j]@ == self.keys@[j]@,
        {
            let c = self.keys[i].copy_key();
            r.push(c);
        }
        proof {
            assert(key_views(r@) =~= self.key_seq());
            self.lemma_entries();
            assert forall|a: int, b: int|
                0 <= a < key_views(r@).len() && 0 <= b < key_views(r@).len() && a != b implies key_views(
                r@,
            )[a] != key_views(r@)[b] by {
                assert(self.keys@[a]@ != self.keys@[b]@);
            }
        }
        r
    }
}

impl<K: Key, V> View for KeyMap<K, V> {
    type V = Map<K::V, V>;

    open spec fn view(&self) -> Map<K::V, V> {
        self.as_map()
    }
}

/// A set of keys, compared by view.
pub struct KeySet<K> {
    map: KeyMap<K, ()>,
}

impl<K: Key> KeySet<K> {
    pub closed spec fn wf(&self) -> bool {
        self.map.wf()
    }

    /// The members as a mathematical set.
    pub closed spec fn as_set(&self) -> Set<K::V> {
        self.map.as_map().dom()
    }

    /// The members in insertion order.
    pub closed spec fn elems(&self) -> Seq<K::V> {
        self.map.key_seq()
    }

    pub proof fn lemma_elems(&self)
        requires
            self.wf(),
        ensures
            self.elems().no_duplicates(),
            self.elems().to_set() == self.as_set(),
            self.as_set().finite(),
            self.elems().len() == self.as_set().len(),
    {
        self.map.lemma_entries();
        assert forall|a: int, b: int|
            0 <= a < self.elems().len() && 0 <= b < self.elems().len() && a != b implies self.elems()[a]
            != self.elems()[b] by {
            assert(self.map.key_spec(a) != self.map.key_spec(b));
        }
        self.elems().unique_seq_to_set();
    }

    pub fn new() -> (r: Self)
        ensures
            r.wf(),
            r.as_set() == Set::<K::V>::empty(),
    {
        let r = KeySet { map: KeyMap::new() };
        assert(r.as_set() =~= Set::<K::V>::empty());
        r
    }

    pub fn contains(&self, k: &K) -> (r: bool)
        requires
            self.wf(),
        ensures
            r == self.as_set().contains(k@),
    {
        self.map.contains_key(k)
    }

    pub fn insert(&mut self, k: K)
        requires
            old(self).wf(),
        ensures
            final(self).wf(),
            final(self).as_set() == old(self).as_set().insert(k@),
    {
        self.map.insert(k, ());
        assert(self.as_set() =~= old(self).as_set().insert(k@));
    }

    pub fn remove(&mut self, k: &K)
        requires
            old(self).wf(),
        ensures
            final(self).wf(),
            final(self).as_set() == old(self).as_set().remove(k@),
    {
        let _ = self.map.remove(k);
        assert(self.as_set() =~= old(self).as_set().remove(k@));
    }

    pub fn len(&self) -> (n: usize)
        requires
            self.wf(),
        ensures
            n == self.as_set().len(),
    {
        proof {
            self.lemma_elems();
        }
        self.map.len()
    }

    pub fn is_empty(&self) -> (r: bool)
        requires
            self.wf(),
        ensures
            r == (self.as_set() == Set::<K::V>::empty()),
    {
        proof {
            self.lemma_elems();
            if self.as_set().len() == 0 {
                assert(self.as_set() =~= Set::<K::V>::empty());
            }
        }
        self.len() == 0
    }

    /// Copies of the members, in insertion order.
    pub fn to_vec(&self) -> (r: Vec<K>)
        requires
            self.wf(),
        ensures
            key_views(r@) == self.elems(),
            key_views(r@).no_duplicates(),
            key_views(r@).to_set() == self.as_set(),
    {
        self.map.keys()
    }
}

impl<K: Key> View for KeySet<K> {
    type V = Set<K::V>;

    open spec fn view(&self) -> Set<K::V> {
        self.as_set()
    }
}

} // verus!
