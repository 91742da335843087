use vstd::prelude::*;

use crate::errors::ArtError;
use crate::types::ArtResult;

verus! {

/// A bounded keyed store: the engine's replacement for a hash map whose
/// capacity is fixed at construction.
///
/// Entries are kept in insertion order and looked up by a packed integer
/// key. Inserting a fresh key beyond the capacity fails closed with
/// `BufferOverflow`; nothing ever grows. Viewed abstractly it is the map
/// from keys to values, with [`Table::keys`] giving the insertion order.
pub struct Table<V> {
    entries: Vec<(u128, V)>,
    cap: usize,
}

/// Pack an (expression, unit, parameter) id triple into one table key.
/// Ids smaller fields than the packing radix keep the packing injective.
pub open spec fn spec_key3(eid: u32, uid: u32, pid: u32) -> u128 {
    (eid * 0x1_0000_0000_0000_0000 + uid * 0x1_0000_0000 + pid) as u128
}

/// Pack an (expression, unit) id pair into one table key.
pub open spec fn spec_key2(eid: u32, uid: u32) -> u128 {
    (eid * 0x1_0000_0000 + uid) as u128
}

/// The table key of an (expression, unit, parameter) id triple.
pub fn key3(eid: u32, uid: u32, pid: u32) -> (r: u128)
    ensures
        r == spec_key3(eid, uid, pid),
{
    eid as u128 * 0x1_0000_0000_0000_0000 + uid as u128 * 0x1_0000_0000 + pid as u128
}

/// The table key of an (expression, unit) id pair.
pub fn key2(eid: u32, uid: u32) -> (r: u128)
    ensures
        r == spec_key2(eid, uid),
{
    eid as u128 * 0x1_0000_0000 + uid as u128
}

impl<V: Copy> Table<V> {
    /// The stored keys, in insertion order.
    pub closed spec fn keys(&self) -> Seq<u128> {
        self.entries@.map(|_i: int, e: (u128, V)| e.0)
    }

    spec fn vals(&self) -> Seq<V> {
        self.entries@.map(|_i: int, e: (u128, V)| e.1)
    }

    /// The fixed capacity.
    pub closed spec fn spec_capacity(&self) -> int {
        self.cap as int
    }

    spec fn idx_of(&self, key: u128) -> int {
        choose|i: int| 0 <= i < self.keys().len() && self.keys()[i] == key
    }

    /// The table as a map from key to value.
    pub closed spec fn view(&self) -> Map<u128, V> {
        Map::new(|k: u128| self.keys().contains(k), |k: u128| self.vals()[self.idx_of(k)])
    }

    /// Keys are unique and the capacity is respected.
    pub closed spec fn wf(&self) -> bool {
        &&& self.entries@.len() <= self.cap
        &&& forall|i: int, j: int|
            0 <= i < j < self.keys().len() ==> #[trigger] self.keys()[i] != #[trigger] self.keys()[j]
    }

    proof fn lemma_idx(&self, i: int)
        requires
            self.wf(),
            0 <= i < self.keys().len(),
        ensures
            self.idx_of(self.keys()[i]) == i,
            self.view().dom().contains(self.keys()[i]),
            self.view()[self.keys()[i]] == self.vals()[i],
    {
        assert(self.keys().contains(self.keys()[i]));
        let j = self.idx_of(self.keys()[i]);
        assert(0 <= j < self.keys().len() && self.keys()[j] == self.keys()[i]);
    }

    /// A key is in the map exactly when it is among the stored keys.
    pub proof fn lemma_dom(&self)
        ensures
            forall|k: u128| #[trigger] self@.dom().contains(k) <==> self.keys().contains(k),
    {
    }

    /// No more entries than the capacity.
    pub proof fn lemma_len_le_cap(&self)
        requires
            self.wf(),
        ensures
            0 <= self.spec_len() <= self.spec_capacity(),
    {
    }

    /// Stored keys are pairwise distinct.
    pub proof fn lemma_keys_unique(&self)
        requires
            self.wf(),
        ensures
            forall|i: int, j: int|
                0 <= i < j < self.keys().len() ==> #[trigger] self.keys()[i]
                    != #[trigger] self.keys()[j],
    {
    }

    /// An empty table that can hold at most `capacity` entries.
    pub fn with_capacity(capacity: usize) -> (r: Table<V>)
        ensures
            r.wf(),
            r@ == Map::<u128, V>::empty(),
            r.keys() == Seq::<u128>::empty(),
            r.spec_capacity() == capacity,
            r.spec_len() == 0,
    {
        // Pre-sized so that inserts within the capacity do not allocate.
        let r = Table::<V> { entries: Vec::with_capacity(capacity), cap: capacity };
        proof {
            assert(r.keys() =~= Seq::<u128>::empty());
            assert(r@ =~= Map::<u128, V>::empty());
        }
        r
    }

    /// Number of entries stored.
    pub closed spec fn spec_len(&self) -> int {
        self.entries@.len() as int
    }

    pub fn len(&self) -> (r: usize)
        ensures
            r == self.spec_len(),
    {
        self.entries.len()
    }

    pub fn capacity(&self) -> (r: usize)
        ensures
            r == self.spec_capacity(),
    {
        self.cap
    }

    /// Find the position of `key`, if it is stored.
    fn find(&self, key: u128) -> (r: Option<usize>)
        requires
            self.wf(),
        ensures
            match r {
                Some(i) => {
                    &&& i < self.keys().len()
                    &&& self.keys()[i as int] == key
                    &&& self@.dom().contains(key)
                    &&& self@[key] == self.vals()[i as int]
                },
                None => !self@.dom().contains(key),
            },
    {
        let mut i: usize = 0;
        let n = self.entries.len();
        while i < n
            invariant
                self.wf(),
                n == self.entries@.len(),
                i <= n,
                forall|j: int| 0 <= j < i ==> #[trigger] self.keys()[j] != key,
            decreases n - i,
        {
            if self.entries[i].0 == key {
                proof {
                    self.lemma_idx(i as int);
                }
                return Some(i);
            }
            i = i + 1;
        }
        proof {
            if self.keys().contains(key) {
                let j = choose|j: int| 0 <= j < self.keys().len() && self.keys()[j] == key;
                assert(self.keys()[j] != key);
            }
        }
        None
    }

    /// Whether `key` is stored.
    pub fn contains(&self, key: u128) -> (r: bool)
        requires
            self.wf(),
        ensures
            r == self@.dom().contains(key),
    {
        self.find(key).is_some()
    }

    /// The value stored under `key`, if any.
    pub fn get(&self, key: u128) -> (r: Option<V>)
        requires
            self.wf(),
        ensures
            match r {
                Some(v) => self@.dom().contains(key) && v == self@[key],
                None => !self@.dom().contains(key),
            },
    {
        match self.find(key) {
            Some(i) => Some(self.entries[i].1),
            None => None,
        }
    }

    /// Store `value` under `key`, replacing any previous value. Fails with
    /// `BufferOverflow`, changing nothing, exactly when the key is fresh
    /// and the table is full.
    pub fn insert(&mut self, key: u128, value: V) -> (r: ArtResult<()>)
        requires
            old(self).wf(),
        ensures
            final(self).wf(),
            final(self).spec_capacity() == old(self).spec_capacity(),
            match r {
                Ok(()) => {
                    &&& !(old(self)@.dom().contains(key)) ==> old(self).spec_len() < old(
                        self,
                    ).spec_capacity() && final(self).keys() == old(self).keys().push(key)
                        && final(self).spec_len() == old(self).spec_len() + 1
                    &&& old(self)@.dom().contains(key) ==> final(self).keys() == old(self).keys()
                        && final(self).spec_len() == old(self).spec_len()
                    &&& final(self)@ == old(self)@.insert(key, value)
                },
                Err(e) => {
                    &&& e == ArtError::BufferOverflow
                    &&& !old(self)@.dom().contains(key)
                    &&& old(self).spec_len() == old(self).spec_capacity()
                    &&& *final(self) == *old(self)
                },
            },
    {
        let ghost old_self = *self;
        match self.find(key) {
            Some(i) => {
                self.entries.set(i, (key, value));
                proof {
                    assert(self.keys() =~= old_self.keys());
                    assert(self.vals() =~= old_self.vals().update(
                        old_self.idx_of(key),
                        value,
                    )) by {
                        assert forall|j: int|
                            0 <= j < self.vals().len() implies self.vals()[j]
                            == old_self.vals().update(old_self.idx_of(key), value)[j] by {}
                    }
                    assert(self@ =~= old_self@.insert(key, value)) by {
                        assert forall|k: u128| self.keys().contains(k) implies self@[k]
                            == old_self@.insert(key, value)[k] by {
                            let j = self.idx_of(k);
                            assert(0 <= j < self.keys().len() && self.keys()[j] == k);
                            self.lemma_idx(j);
                            old_self.lemma_idx(j);
                        }
                    }
                }
                Ok(())
            },
            None => {
                if self.entries.len() == self.cap {
                    return Err(ArtError::BufferOverflow);
                }
                self.entries.push((key, value));
                proof {
                    assert(self.keys() =~= old_self.keys().push(key));
                    assert(self.vals() =~= old_self.vals().push(value));
                    assert(self.wf()) by {
                        assert forall|i: int, j: int|
                            0 <= i < j < self.keys().len() implies #[trigger] self.keys()[i]
                            != #[trigger] self.keys()[j] by {
                            if j == self.keys().len() - 1 {
                                assert(self.keys()[i] == old_self.keys()[i]);
                                assert(old_self.keys().contains(old_self.keys()[i]));
                            }
                        }
                    }
                    assert(self@ =~= old_self@.insert(key, value)) by {
                        assert forall|k: u128| self.keys().contains(k) implies self@[k]
                            == old_self@.insert(key, value)[k] by {
                            let j = self.idx_of(k);
                            assert(0 <= j < self.keys().len() && self.keys()[j] == k);
                            self.lemma_idx(j);
                            if j < old_self.keys().len() {
                                old_self.lemma_idx(j);
                            } else {
                                if old_self.keys().contains(key) {
                                    let m = choose|m: int|
                                        0 <= m < old_self.keys().len() && old_self.keys()[m]
                                            == key;
                                    assert(self.keys()[m] == key);
                                }
                            }
                        }
                        assert forall|k: u128|
                            old_self@.insert(key, value).dom().contains(k) implies self.keys(
                        ).contains(k) by {
                            if k == key {
                                assert(self.keys()[self.keys().len() - 1] == key);
                            } else {
                                let m = choose|m: int|
                                    0 <= m < old_self.keys().len() && old_self.keys()[m] == k;
                                assert(self.keys()[m] == k);
                            }
                        }
                    }
                }
                Ok(())
            },
        }
    }

    /// Remove and return the value under `key`, if any; later entries keep
    /// their relative order.
    pub fn remove(&mut self, key: u128) -> (r: Option<V>)
        requires
            old(self).wf(),
        ensures
            final(self).wf(),
            final(self).spec_capacity() == old(self).spec_capacity(),
            match r {
                Some(v) => {
                    &&& old(self)@.dom().contains(key)
                    &&& v == old(self)@[key]
                    &&& final(self).keys() == old(self).keys().remove_value(key)
                    &&& final(self).spec_len() == old(self).spec_len() - 1
                    &&& final(self)@ == old(self)@.remove(key)
                    &&& forall|x: u128|
                        final(self).keys().contains(x) ==> old(self).keys().contains(x)
                },
                None => {
                    &&& !old(self)@.dom().contains(key)
                    &&& *final(self) == *old(self)
                },
            },
    {
        let ghost old_self = *self;
        match self.find(key) {
            Some(i) => {
                let (_, v) = self.entries.remove(i);
                proof {
                    assert(self.keys() =~= old_self.keys().remove(i as int));
                    assert(self.vals() =~= old_self.vals().remove(i as int));
                    assert(old_self.keys().index_of_first(key) == Some(i as int)) by {
                        old_self.keys().index_of_first_ensures(key);
                        if old_self.keys().index_of_first(key) is Some {
                            let f = old_self.keys().index_of_first(key)->0;
                            assert(old_self.keys()[f] == key);
                        } else {
                            assert(old_self.keys().contains(key));
                        }
                    }
                    assert(old_self.keys().remove_value(key) == old_self.keys().remove(i as int));
                    assert(self.wf()) by {
                        assert forall|a: int, b: int|
                            0 <= a < b < self.keys().len() implies #[trigger] self.keys()[a]
                            != #[trigger] self.keys()[b] by {
                            let a0 = if a < i { a } else { a + 1 };
                            let b0 = if b < i { b } else { b + 1 };
                            assert(self.keys()[a] == old_self.keys()[a0]);
                            assert(self.keys()[b] == old_self.keys()[b0]);
                        }
                    }
                    assert(self@ =~= old_self@.remove(key)) by {
                        assert forall|k: u128| self.keys().contains(k) implies k != key
                            && old_self@.dom().contains(k) && self@[k] == old_self@[k] by {
                            let j = self.idx_of(k);
                            assert(0 <= j < self.keys().len() && self.keys()[j] == k);
                            self.lemma_idx(j);
                            let j0 = if j < i { j } else { j + 1 };
                            assert(old_self.keys()[j0] == k);
                            old_self.lemma_idx(j0);
                            assert(old_self.keys()[i as int] == key);
                            old_self.lemma_idx(i as int);
                        }
                        assert forall|k: u128|
                            old_self@.remove(key).dom().contains(k) implies self.keys().contains(
                        k) by {
                            let m = choose|m: int|
                                0 <= m < old_self.keys().len() && old_self.keys()[m] == k;
                            assert(old_self.keys()[i as int] == key);
                            if m < i {
                                assert(self.keys()[m] == k);
                            } else {
                                assert(self.keys()[m - 1] == k);
                            }
                        }
                    }
                    assert forall|x: u128| self.keys().contains(x) implies old_self.keys().contains(
                    x) by {
                        let m = choose|m: int|
                            0 <= m < self.keys().len() && self.keys()[m] == x;
                        let m0: int = if m < i {
                            m
                        } else {
                            m + 1
                        };
                        assert(old_self.keys()[m0] == x);
                    }
                }
                Some(v)
            },
            None => None,
        }
    }

    /// The stored keys, in insertion order.
    pub fn key_list(&self) -> (r: Vec<u128>)
        requires
            self.wf(),
        ensures
            r@ == self.keys(),
    {
        let mut r: Vec<u128> = Vec::new();
        let mut i: usize = 0;
        let n = self.entries.len();
        while i < n
            invariant
                n == self.entries@.len(),
                i <= n,
                r@.len() == i,
                forall|j: int| 0 <= j < i ==> r@[j] == self.keys()[j],
            decreases n - i,
        {
            r.push(self.entries[i].0);
            i = i + 1;
        }
        proof {
            assert(r@ =~= self.keys());
        }
        r
    }

    /// Drop every entry; the capacity stays.
    pub fn clear(&mut self)
        ensures
            final(self).wf(),
            final(self)@ == Map::<u128, V>::empty(),
            final(self).keys() == Seq::<u128>::empty(),
            final(self).spec_len() == 0,
            final(self).spec_capacity() == old(self).spec_capacity(),
    {
        self.entries.clear();
        proof {
            assert(self.keys() =~= Seq::<u128>::empty());
            assert(self@ =~= Map::<u128, V>::empty());
        }
    }
}

} // verus!
