//! Small collections backed by vectors, for keys that are compared by view.
//!
//! Two keys are the same key when their views are equal. A `VecSet` stands for
//! the mathematical `Set` of its keys' views, a `VecMap` for the `Map` from
//! its keys' views to its values' views. In which order the entries are
//! stored cannot be observed: two collections with the same view are equal.
use vstd::prelude::*;

verus! {

/// A type whose values can be compared and copied by view at run time.
pub trait ViewEq: View + Sized {
    /// Whether `self` and `other` have the same view.
    fn view_eq(&self, other: &Self) -> (r: bool)
        ensures
            r == (self@ == other@),
    ;

    /// A copy of `self`: a value with the same view.
    fn view_clone(&self) -> (r: Self)
        ensures
            r@ == self@,
    ;
}

impl ViewEq for String {
    fn view_eq(&self, other: &Self) -> (r: bool) {
        *self == *other
    }

    fn view_clone(&self) -> (r: Self) {
        self.clone()
    }
}

impl ViewEq for (String, String) {
    fn view_eq(&self, other: &Self) -> (r: bool) {
        self.0 == other.0 && self.1 == other.1
    }

    fn view_clone(&self) -> (r: Self) {
        (self.0.clone(), self.1.clone())
    }
}

/// A finite set of keys, stored without repetition.
#[derive(Debug)]
pub struct VecSet<K: ViewEq> {
    items: Vec<K>,
}

impl<K: ViewEq> View for VecSet<K> {
    type V = Set<K::V>;

    closed spec fn view(&self) -> Set<K::V> {
        self.keys().to_set()
    }
}

impl<K: ViewEq> VecSet<K> {
    /// The views of the stored keys, in storage order.
    spec fn keys(&self) -> Seq<K::V> {
        self.items@.map_values(|k: K| k@)
    }

    #[verifier::type_invariant]
    spec fn inv(&self) -> bool {
        self.keys().no_duplicates()
    }

    /// The empty set.
    pub fn new() -> (s: Self)
        ensures
            s@ == Set::<K::V>::empty(),
    {
        let s = VecSet { items: Vec::new() };
        assert(s.keys() =~= Seq::<K::V>::empty());
        assert(s@ =~= Set::<K::V>::empty());
        s
    }

    /// Where `key` is stored, if it is.
    fn position(&self, key: &K) -> (r: Option<usize>)
        ensures
            (match r {
                Some(i) => i < self.keys().len() && self.keys()[i as int] == key@,
                None => !self.keys().contains(key@),
            }),
    {
        let mut i: usize = 0;
        while i < self.items.len()
            invariant
                i <= self.items.len(),
                self.keys().len() == self.items.len(),
                forall|j: int| 0 <= j < i ==> self.keys()[j] != key@,
            decreases self.items.len() - i,
        {
            if self.items[i].view_eq(key) {
                return Some(i);
            }
            i += 1;
        }
        None
    }

    /// The number of members.
    pub fn len(&self) -> (n: usize)
        ensures
            n == self@.len(),
            self@.finite(),
    {
        proof {
            use_type_invariant(self);
            self.keys().unique_seq_to_set();
            vstd::seq_lib::seq_to_set_is_finite(self.keys());
        }
        self.items.len()
    }

    /// Whether `key` is a member.
    pub fn contains(&self, key: &K) -> (r: bool)
        ensures
            r == self@.contains(key@),
    {
        self.position(key).is_some()
    }

    /// Adds `key`. Returns `true` if it was not a member before; a member is
    /// never stored twice.
    pub fn insert(&mut self, key: K) -> (r: bool)
        ensures
            final(self)@ == old(self)@.insert(key@),
            r == !old(self)@.contains(key@),
    {
        proof {
            use_type_invariant(&*self);
        }
        if self.contains(&key) {
            assert(self@.insert(key@) =~= self@);
            false
        } else {
            let ghost before = self.keys();
            let mut items: Vec<K> = Vec::new();
            std::mem::swap(&mut items, &mut self.items);
            items.push(key);
            proof {
                assert(items@.map_values(|k: K| k@) =~= before.push(key@));
                before.lemma_push_to_set_commute(key@);
            }
            self.items = items;
            true
        }
    }
}

impl<K: ViewEq> ViewEq for VecSet<K> {
    fn view_eq(&self, other: &Self) -> (r: bool) {
        if self.len() != other.len() {
            return false;
        }
        let mut i: usize = 0;
        while i < self.items.len()
            invariant
                i <= self.items.len(),
                self.keys().len() == self.items.len(),
                forall|j: int| 0 <= j < i ==> other@.contains(self.keys()[j]),
            decreases self.items.len() - i,
        {
            if !other.contains(&self.items[i]) {
                assert(self@.contains(self.keys()[i as int]));
                return false;
            }
            i += 1;
        }
        proof {
            assert(self@.subset_of(other@)) by {
                assert forall|k: K::V| self@.contains(k) implies other@.contains(k) by {
                    let j = choose|j: int| 0 <= j < self.keys().len() && self.keys()[j] == k;
                    assert(other@.contains(self.keys()[j]));
                }
            }
            vstd::set_lib::lemma_subset_equality(self@, other@);
        }
        true
    }

    fn view_clone(&self) -> (r: Self) {
        proof {
            use_type_invariant(self);
        }
        let mut items: Vec<K> = Vec::new();
        let mut i: usize = 0;
        while i < self.items.len()
            invariant
                i <= self.items.len(),
                self.keys().len() == self.items.len(),
                items@.map_values(|k: K| k@) == self.keys().take(i as int),
            decreases self.items.len() - i,
        {
            let ghost before = items@.map_values(|k: K| k@);
            items.push(self.items[i].view_clone());
            assert(items@.map_values(|k: K| k@) =~= before.push(self.keys()[i as int]));
            assert(self.keys().take(i + 1) =~= self.keys().take(i as int).push(
                self.keys()[i as int],
            ));
            i += 1;
        }
        assert(self.keys().take(i as int) =~= self.keys());
        VecSet { items }
    }
}

impl<K: ViewEq> Clone for VecSet<K> {
    fn clone(&self) -> (r: Self)
        ensures
            r@ == self@,
    {
        self.view_clone()
    }
}

/// A finite map from keys to values, with one entry for each key.
#[derive(Debug)]
pub struct VecMap<K: ViewEq, V: View> {
    entries: Vec<(K, V)>,
}

impl<K: ViewEq, V: View> View for VecMap<K, V> {
    type V = Map<K::V, V::V>;

    closed spec fn view(&self) -> Map<K::V, V::V> {
        Map::new(
            |k: K::V| self.keys().contains(k),
            |k: K::V| self.entries@[self.keys().index_of(k)].1@,
        )
    }
}

impl<K: ViewEq, V: View> VecMap<K, V> {
    /// The views of the stored keys, in storage order.
    spec fn keys(&self) -> Seq<K::V> {
        self.entries@.map_values(|e: (K, V)| e.0@)
    }

    #[verifier::type_invariant]
    spec fn inv(&self) -> bool {
        self.keys().no_duplicates()
    }

    /// The domain of the map is the set of its keys.
    proof fn lemma_dom(&self)
        ensures
            self@.dom() == self.keys().to_set(),
    {
        assert(self@.dom() =~= self.keys().to_set());
    }

    /// The empty map.
    pub fn new() -> (m: Self)
        ensures
            m@ == Map::<K::V, V::V>::empty(),
    {
        let m = VecMap { entries: Vec::new() };
        assert(m.keys() =~= Seq::<K::V>::empty());
        assert(m@ =~= Map::<K::V, V::V>::empty());
        m
    }

    /// Where the entry for `key` is stored, if there is one.
    fn position(&self, key: &K) -> (r: Option<usize>)
        ensures
            (match r {
                Some(i) => i < self.keys().len() && self.keys()[i as int] == key@,
                None => !self.keys().contains(key@),
            }),
    {
        let mut i: usize = 0;
        while i < self.entries.len()
            invariant
                i <= self.entries.len(),
                self.keys().len() == self.entries.len(),
                forall|j: int| 0 <= j < i ==> self.keys()[j] != key@,
            decreases self.entries.len() - i,
        {
            if self.entries[i].0.view_eq(key) {
                return Some(i);
            }
            i += 1;
        }
        None
    }

    /// The number of entries.
    pub fn len(&self) -> (n: usize)
        ensures
            n == self@.dom().len(),
            self@.dom().finite(),
    {
        proof {
            use_type_invariant(self);
            self.lemma_dom();
            self.keys().unique_seq_to_set();
            vstd::seq_lib::seq_to_set_is_finite(self.keys());
        }
        self.entries.len()
    }

    /// Whether there is an entry for `key`.
    pub fn contains_key(&self, key: &K) -> (r: bool)
        ensures
            r == self@.contains_key(key@),
    {
        self.position(key).is_some()
    }

    /// The value stored for `key`, if there is one.
    pub fn get(&self, key: &K) -> (r: Option<&V>)
        ensures
            (match r {
                Some(v) => self@.contains_key(key@) && v@ == self@[key@],
                None => !self@.contains_key(key@),
            }),
    {
        proof {
            use_type_invariant(self);
        }
        match self.position(key) {
            Some(i) => Some(&self.entries[i].1),
            None => None,
        }
    }

    /// Stores `value` for `key`, in place of the value stored for it before,
    /// if there was one.
    pub fn insert(&mut self, key: K, value: V)
        ensures
            final(self)@ == old(self)@.insert(key@, value@),
    {
        proof {
            use_type_invariant(&*self);
        }
        let ghost before = *self;
        let found = self.position(&key);
        let mut entries: Vec<(K, V)> = Vec::new();
        std::mem::swap(&mut entries, &mut self.entries);
        match found {
            Some(i) => {
                entries.set(i, (key, value));
                assert(entries@.map_values(|e: (K, V)| e.0@) =~= before.keys());
            },
            None => {
                entries.push((key, value));
                assert(entries@.map_values(|e: (K, V)| e.0@) =~= before.keys().push(key@));
            },
        }
        self.entries = entries;
        proof {
            let after = *self;
            assert forall|k: K::V|
                after@.contains_key(k) <==> before@.insert(key@, value@).contains_key(k) by {
                if before.keys().contains(k) {
                    let j = before.keys().index_of(k);
                    assert(after.keys()[j] == k);
                }
                if after.keys().contains(k) && k != key@ {
                    let j = after.keys().index_of(k);
                    assert(before.keys()[j] == k);
                }
                if k == key@ {
                    match found {
                        Some(i) => assert(after.keys()[i as int] == k),
                        None => assert(after.keys()[before.keys().len() as int] == k),
                    }
                }
            }
            assert forall|k: K::V| after@.contains_key(k) implies after@[k] == before@.insert(
                key@,
                value@,
            )[k] by {
                let j = after.keys().index_of(k);
                if k != key@ {
                    assert(before.keys()[j] == k);
                    assert(before.keys().index_of(k) == j);
                }
            }
            assert(after@ =~= before@.insert(key@, value@));
        }
    }

    /// Takes out the entry for `key` and returns its value, if there is one.
    pub fn remove(&mut self, key: &K) -> (r: Option<V>)
        ensures
            final(self)@ == old(self)@.remove(key@),
            (match r {
                Some(v) => old(self)@.contains_key(key@) && v@ == old(self)@[key@],
                None => !old(self)@.contains_key(key@),
            }),
    {
        proof {
            use_type_invariant(&*self);
        }
        let ghost before = *self;
        match self.position(key) {
            None => {
                assert(self@.remove(key@) =~= self@);
                None
            },
            Some(i) => {
                let mut entries: Vec<(K, V)> = Vec::new();
                std::mem::swap(&mut entries, &mut self.entries);
                let (_, value) = entries.swap_remove(i);
                let ghost last = before.keys().len() - 1;
                assert(entries@.map_values(|e: (K, V)| e.0@) =~= before.keys().update(
                    i as int,
                    before.keys().last(),
                ).drop_last());
                self.entries = entries;
                proof {
                    let after = *self;
                    assert forall|k: K::V|
                        after@.contains_key(k) <==> before@.remove(key@).contains_key(k) by {
                        if before.keys().contains(k) && k != key@ {
                            let j = before.keys().index_of(k);
                            if j == last {
                                assert(after.keys()[i as int] == k);
                            } else {
                                assert(after.keys()[j] == k);
                            }
                        }
                        if after.keys().contains(k) {
                            let j = after.keys().index_of(k);
                            if j == i {
                                assert(before.keys()[last] == k);
                            } else {
                                assert(before.keys()[j] == k);
                            }
                        }
                    }
                    assert forall|k: K::V| after@.contains_key(k) implies after@[k]
                        == before@.remove(key@)[k] by {
                        let j = after.keys().index_of(k);
                        if j == i {
                            assert(before.keys()[last] == k);
                            assert(before.keys().index_of(k) == last);
                        } else {
                            assert(before.keys()[j] == k);
                            assert(before.keys().index_of(k) == j);
                        }
                    }
                    assert(after@ =~= before@.remove(key@));
                }
                Some(value)
            },
        }
    }
}

impl<K: ViewEq, V: ViewEq> ViewEq for VecMap<K, V> {
    fn view_eq(&self, other: &Self) -> (r: bool) {
        proof {
            use_type_invariant(self);
        }
        if self.len() != other.len() {
            return false;
        }
        let mut i: usize = 0;
        while i < self.entries.len()
            invariant
                i <= self.entries.len(),
                self.keys().len() == self.entries.len(),
                self.keys().no_duplicates(),
                forall|j: int|
                    0 <= j < i ==> other@.contains_key(self.keys()[j]) && other@[self.keys()[j]]
                        == self@[self.keys()[j]],
            decreases self.entries.len() - i,
        {
            assert(self@.contains_key(self.keys()[i as int]));
            assert(self.keys().index_of(self.keys()[i as int]) == i);
            match other.get(&self.entries[i].0) {
                None => {
                    return false;
                },
                Some(value) => {
                    if !self.entries[i].1.view_eq(value) {
                        return false;
                    }
                },
            }
            i += 1;
        }
        proof {
            assert(self@.dom().subset_of(other@.dom())) by {
                assert forall|k: K::V| self@.dom().contains(k) implies other@.dom().contains(k) by {
                    let j = self.keys().index_of(k);
                    assert(other@.contains_key(self.keys()[j]));
                }
            }
            vstd::set_lib::lemma_subset_equality(self@.dom(), other@.dom());
            assert forall|k: K::V| self@.contains_key(k) implies self@[k] == other@[k] by {
                let j = self.keys().index_of(k);
                assert(other@[self.keys()[j]] == self@[self.keys()[j]]);
            }
            assert(self@ =~= other@);
        }
        true
    }

    fn view_clone(&self) -> (r: Self) {
        proof {
            use_type_invariant(self);
        }
        let mut entries: Vec<(K, V)> = Vec::new();
        let mut i: usize = 0;
        while i < self.entries.len()
            invariant
                i <= self.entries.len(),
                self.keys().len() == self.entries.len(),
                entries@.len() == i,
                forall|j: int|
                    0 <= j < i ==> (#[trigger] entries@[j]).0@ == self.entries@[j].0@
                        && entries@[j].1@ == self.entries@[j].1@,
            decreases self.entries.len() - i,
        {
            entries.push((self.entries[i].0.view_clone(), self.entries[i].1.view_clone()));
            i += 1;
        }
        assert(entries@.map_values(|e: (K, V)| e.0@) =~= self.keys());
        let r = VecMap { entries };
        assert(r@ =~= self@);
        r
    }
}

impl<K: ViewEq, V: ViewEq> Clone for VecMap<K, V> {
    fn clone(&self) -> (r: Self)
        ensures
            r@ == self@,
    {
        self.view_clone()
    }
}

} // verus!
