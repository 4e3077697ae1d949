//! A small table that keeps the order in which its keys came in.

use vstd::prelude::*;

use crate::bytes::bytes_equal;
use crate::peer::{DeviceId, KeyPrefix};

verus! {

/// Can be told apart by its view.
pub trait Key: View {
    /// Whether two keys are the same.
    fn same(&self, other: &Self) -> (r: bool)
        ensures
            r == (self@ == other@),
    ;
}

impl<const N: usize> Key for [u8; N] {
    fn same(&self, other: &Self) -> (r: bool) {
        bytes_equal(self.as_slice(), other.as_slice())
    }
}

impl Key for u64 {
    fn same(&self, other: &Self) -> (r: bool) {
        *self == *other
    }
}

impl Key for DeviceId {
    fn same(&self, other: &Self) -> (r: bool) {
        self.name == other.name
    }
}

/// Maps keys to values. Entries keep the order in which their keys first came
/// in.
#[derive(Debug)]
pub struct Table<K, V> {
    entries: Vec<(K, V)>,
}

impl<K: Key, V: View> View for Table<K, V> {
    type V = Map<K::V, V::V>;

    closed spec fn view(&self) -> Map<K::V, V::V> {
        Map::new(
            |key: K::V| holds_key(self.entries@, key),
            |key: K::V| self.entries@[index_of(self.entries@, key)].1@,
        )
    }
}

/// A table keyed by key prefixes.
pub type PrefixTable<V> = Table<KeyPrefix, V>;

/// A table keyed by endpoint keys.
pub type EndpointTable<V> = Table<[u8; 32], V>;

/// A table keyed by device names.
pub type DeviceTable<V> = Table<DeviceId, V>;

spec fn holds_key<K: Key, V>(entries: Seq<(K, V)>, key: K::V) -> bool {
    exists|i: int| 0 <= i < entries.len() && (#[trigger] entries[i]).0@ == key
}

spec fn index_of<K: Key, V>(entries: Seq<(K, V)>, key: K::V) -> int {
    choose|i: int| 0 <= i < entries.len() && (#[trigger] entries[i]).0@ == key
}

impl<K: Key, V: View> Table<K, V> {
    /// No key occurs twice.
    pub closed spec fn wf(self) -> bool {
        forall|i: int, j: int|
            0 <= i < j < self.entries@.len() ==> (#[trigger] self.entries@[i]).0@ != (
            #[trigger] self.entries@[j]).0@
    }

    /// The entries in order.
    pub closed spec fn pairs(self) -> Seq<(K::V, V::V)> {
        Seq::new(self.entries@.len(), |i: int| (self.entries@[i].0@, self.entries@[i].1@))
    }

    proof fn lemma_at(self, i: int)
        requires
            self.wf(),
            0 <= i < self.entries@.len(),
        ensures
            self@.contains_key(self.entries@[i].0@),
            self@[self.entries@[i].0@] == self.entries@[i].1@,
    {
        let key = self.entries@[i].0@;
        let j = index_of(self.entries@, key);
        assert(self.entries@[i].0@ == key);
        assert(0 <= j < self.entries@.len() && self.entries@[j].0@ == key);
        assert(i == j) by {
            if i < j {
                assert(self.entries@[i].0@ != self.entries@[j].0@);
            } else if j < i {
                assert(self.entries@[j].0@ != self.entries@[i].0@);
            }
        }
    }

    /// The entries in order hold each key once, with its value.
    pub proof fn lemma_pairs(self)
        requires
            self.wf(),
        ensures
            forall|i: int|
                0 <= i < self.pairs().len() ==> self@.contains_key((#[trigger] self.pairs()[i]).0)
                    && self@[self.pairs()[i].0] == self.pairs()[i].1,
            forall|i: int, j: int|
                0 <= i < j < self.pairs().len() ==> (#[trigger] self.pairs()[i]).0 != (
                #[trigger] self.pairs()[j]).0,
            forall|key: K::V| #[trigger]
                self@.contains_key(key) ==> exists|i: int|
                    0 <= i < self.pairs().len() && (#[trigger] self.pairs()[i]).0 == key,
            self@.dom().finite(),
            self@.len() == self.pairs().len(),
    {
        assert forall|i: int| 0 <= i < self.pairs().len() implies self@.contains_key(
            (#[trigger] self.pairs()[i]).0,
        ) && self@[self.pairs()[i].0] == self.pairs()[i].1 by {
            self.lemma_at(i);
        }
        assert forall|i: int, j: int| 0 <= i < j < self.pairs().len() implies (
        #[trigger] self.pairs()[i]).0 != (#[trigger] self.pairs()[j]).0 by {
            assert(self.entries@[i].0@ != self.entries@[j].0@);
        }
        assert forall|key: K::V| #[trigger] self@.contains_key(key) implies exists|i: int|
            0 <= i < self.pairs().len() && (#[trigger] self.pairs()[i]).0 == key by {
            let i = index_of(self.entries@, key);
            assert(self.pairs()[i].0 == key);
        }
        let keys = Seq::new(self.pairs().len(), |i: int| self.pairs()[i].0);
        assert(keys.no_duplicates()) by {
            assert forall|i: int, j: int|
                0 <= i < keys.len() && 0 <= j < keys.len() && i != j implies keys[i] != keys[j] by {
                if i < j {
                    assert(self.pairs()[i].0 != self.pairs()[j].0);
                } else {
                    assert(self.pairs()[j].0 != self.pairs()[i].0);
                }
            }
        }
        keys.unique_seq_to_set();
        assert(keys.to_set() =~= self@.dom()) by {
            assert forall|key: K::V| keys.to_set().contains(key) == self@.dom().contains(
                key,
            ) by {
                if keys.contains(key) {
                    let i = choose|i: int| 0 <= i < keys.len() && keys[i] == key;
                    assert(self.pairs()[i].0 == key);
                }
                if self@.contains_key(key) {
                    let i = choose|i: int|
                        0 <= i < self.pairs().len() && (#[trigger] self.pairs()[i]).0 == key;
                    assert(keys[i] == key);
                }
            }
        }
    }

    pub fn new() -> (t: Self)
        ensures
            t.wf(),
            t@ == Map::<K::V, V::V>::empty(),
            t.pairs() == Seq::<(K::V, V::V)>::empty(),
    {
        let t = Table { entries: Vec::new() };
        assert(t@ =~= Map::<K::V, V::V>::empty());
        t
    }

    /// How many keys there are.
    pub fn len(&self) -> (n: usize)
        requires
            self.wf(),
        ensures
            n == self@.len(),
            n == self.pairs().len(),
            self@.dom().finite(),
    {
        proof {
            self.lemma_pairs();
        }
        self.entries.len()
    }

    /// The entry at a place in the order.
    pub fn at(&self, i: usize) -> (r: (&K, &V))
        requires
            self.wf(),
            i < self.pairs().len(),
        ensures
            self.pairs()[i as int] == (r.0@, r.1@),
            self@.contains_key(r.0@),
            self@[r.0@] == r.1@,
    {
        proof {
            self.lemma_at(i as int);
        }
        (&self.entries[i].0, &self.entries[i].1)
    }

    fn position(&self, key: &K) -> (r: Option<usize>)
        requires
            self.wf(),
        ensures
            match r {
                Some(i) => i < self.entries@.len() && self.entries@[i as int].0@ == key@
                    && self@.contains_key(key@) && self@[key@] == self.entries@[i as int].1@,
                None => !self@.contains_key(key@),
            },
    {
        let mut i: usize = 0;
        while i < self.entries.len()
            invariant
                self.wf(),
                i <= self.entries@.len(),
                forall|j: int| 0 <= j < i ==> (#[trigger] self.entries@[j]).0@ != key@,
            decreases self.entries@.len() - i,
        {
            if self.entries[i].0.same(key) {
                proof {
                    self.lemma_at(i as int);
                }
                return Some(i);
            }
            i = i + 1;
        }
        None
    }

    /// The value under a key.
    pub fn get(&self, key: &K) -> (r: Option<&V>)
        requires
            self.wf(),
        ensures
            match r {
                Some(v) => self@.contains_key(key@) && self@[key@] == v@,
                None => !self@.contains_key(key@),
            },
    {
        match self.position(key) {
            Some(i) => Some(&self.entries[i].1),
            None => None,
        }
    }

    /// Whether a key is there.
    pub fn contains_key(&self, key: &K) -> (r: bool)
        requires
            self.wf(),
        ensures
            r == self@.contains_key(key@),
    {
        self.position(key).is_some()
    }

    /// Puts a value under a key and returns the one that was there.
    pub fn insert(&mut self, key: K, value: V) -> (previous: Option<V>)
        requires
            old(self).wf(),
        ensures
            final(self).wf(),
            final(self)@ == old(self)@.insert(key@, value@),
            match previous {
                Some(v) => old(self)@.contains_key(key@) && old(self)@[key@] == v@,
                None => !old(self)@.contains_key(key@),
            },
    {
        match self.position(&key) {
            Some(i) => {
                let ghost before = *self;
                let mut slot = (key, value);
                std::mem::swap(&mut self.entries[i], &mut slot);
                proof {
                    assert(self.entries@ =~= before.entries@.update(i as int, (key, value)));
                    assert(self.wf()) by {
                        assert forall|a: int, b: int| 0 <= a < b < self.entries@.len() implies (
                        #[trigger] self.entries@[a]).0@ != (#[trigger] self.entries@[b]).0@ by {
                            assert(before.entries@[a].0@ != before.entries@[b].0@);
                        }
                    }
                    self.lemma_replaced(before, i as int, key, value);
                }
                Some(slot.1)
            },
            None => {
                let ghost before = *self;
                self.entries.push((key, value));
                proof {
                    assert(self.wf()) by {
                        assert forall|a: int, b: int| 0 <= a < b < self.entries@.len() implies (
                        #[trigger] self.entries@[a]).0@ != (#[trigger] self.entries@[b]).0@ by {
                            before.lemma_at(a);
                            if b < before.entries@.len() {
                                assert(before.entries@[a].0@ != before.entries@[b].0@);
                            }
                        }
                    }
                    self.lemma_appended(before, key, value);
                }
                None
            },
        }
    }

    proof fn lemma_replaced(self, before: Self, i: int, key: K, value: V)
        requires
            before.wf(),
            self.wf(),
            0 <= i < before.entries@.len(),
            before.entries@[i].0@ == key@,
            self.entries@ == before.entries@.update(i, (key, value)),
        ensures
            self@ == before@.insert(key@, value@),
    {
        let want = before@.insert(key@, value@);
        assert forall|k: K::V|
            #![trigger self@.dom().contains(k)]
            #![trigger want.dom().contains(k)]
            self@.dom().contains(k) == want.dom().contains(k) && (want.dom().contains(k)
                ==> self@[k] == want[k]) by {
            if self@.contains_key(k) {
                let j = index_of(self.entries@, k);
                self.lemma_at(j);
                if j != i {
                    before.lemma_at(j);
                    assert(self.entries@[j].0@ != self.entries@[i].0@) by {
                        if j < i {
                        } else {
                        }
                    }
                }
            } else if want.contains_key(k) {
                if k == key@ {
                    self.lemma_at(i);
                } else {
                    let j = index_of(before.entries@, k);
                    assert(self.entries@[j].0@ == k);
                    self.lemma_at(j);
                }
            }
        }
        assert(self@ =~= want);
    }

    proof fn lemma_appended(self, before: Self, key: K, value: V)
        requires
            before.wf(),
            self.wf(),
            !before@.contains_key(key@),
            self.entries@ == before.entries@.push((key, value)),
        ensures
            self@ == before@.insert(key@, value@),
    {
        let n = before.entries@.len() as int;
        let want = before@.insert(key@, value@);
        assert forall|k: K::V|
            #![trigger self@.dom().contains(k)]
            #![trigger want.dom().contains(k)]
            self@.dom().contains(k) == want.dom().contains(k) && (want.dom().contains(k)
                ==> self@[k] == want[k]) by {
            if self@.contains_key(k) {
                let j = index_of(self.entries@, k);
                self.lemma_at(j);
                if j < n {
                    before.lemma_at(j);
                }
            } else if want.contains_key(k) {
                if k == key@ {
                    self.lemma_at(n);
                } else {
                    let j = index_of(before.entries@, k);
                    assert(self.entries@[j].0@ == k);
                    self.lemma_at(j);
                }
            }
        }
        assert(self@ =~= want);
    }

    fn remove_at(&mut self, i: usize) -> (value: V)
        requires
            old(self).wf(),
            i < old(self).entries@.len(),
        ensures
            final(self).wf(),
            final(self).entries@ == old(self).entries@.remove(i as int),
            final(self)@ == old(self)@.remove(old(self).entries@[i as int].0@),
            value == old(self).entries@[i as int].1,
    {
        let ghost before = *self;
        let (key, value) = self.entries.remove(i);
        proof {
            let gone = i as int;
            assert forall|a: int| 0 <= a < self.entries@.len() implies (#[trigger] self.entries@[a])
                == before.entries@[if a < gone {
                a
            } else {
                a + 1
            }] by {}
            assert(self.wf()) by {
                assert forall|a: int, b: int| 0 <= a < b < self.entries@.len() implies (
                #[trigger] self.entries@[a]).0@ != (#[trigger] self.entries@[b]).0@ by {
                    let a0 = if a < gone {
                        a
                    } else {
                        a + 1
                    };
                    let b0 = if b < gone {
                        b
                    } else {
                        b + 1
                    };
                    assert(before.entries@[a0].0@ != before.entries@[b0].0@);
                }
            }
            self.lemma_removed(before, gone, key);
        }
        value
    }

    /// Removes a key and returns the value that was there.
    pub fn remove(&mut self, key: &K) -> (previous: Option<V>)
        requires
            old(self).wf(),
        ensures
            final(self).wf(),
            final(self)@ == old(self)@.remove(key@),
            match previous {
                Some(v) => old(self)@.contains_key(key@) && old(self)@[key@] == v@,
                None => !old(self)@.contains_key(key@),
            },
    {
        match self.position(key) {
            Some(i) => {
                let value = self.remove_at(i);
                Some(value)
            },
            None => {
                assert(self@.remove(key@) =~= self@);
                None
            },
        }
    }

    proof fn lemma_removed(self, before: Self, i: int, key: K)
        requires
            before.wf(),
            self.wf(),
            0 <= i < before.entries@.len(),
            before.entries@[i].0@ == key@,
            self.entries@ == before.entries@.remove(i),
        ensures
            self@ == before@.remove(key@),
    {
        let want = before@.remove(key@);
        assert forall|k: K::V|
            #![trigger self@.dom().contains(k)]
            #![trigger want.dom().contains(k)]
            self@.dom().contains(k) == want.dom().contains(k) && (want.dom().contains(k)
                ==> self@[k] == want[k]) by {
            if self@.contains_key(k) {
                let j = index_of(self.entries@, k);
                self.lemma_at(j);
                let j0 = if j < i {
                    j
                } else {
                    j + 1
                };
                assert(self.entries@[j] == before.entries@[j0]);
                before.lemma_at(j0);
                if j0 < i {
                    assert(before.entries@[j0].0@ != before.entries@[i].0@);
                } else {
                    assert(before.entries@[i].0@ != before.entries@[j0].0@);
                }
            } else if want.contains_key(k) {
                let j = index_of(before.entries@, k);
                assert(before.entries@[j].0@ == k);
                assert(j != i);
                let j0 = if j < i {
                    j
                } else {
                    j - 1
                };
                assert(self.entries@[j0] == before.entries@[j]);
                self.lemma_at(j0);
            }
        }
        assert(self@ =~= want);
    }
}

/// The map without the keys that lead to one value.
pub open spec fn without_value<A, B>(map: Map<A, B>, value: B) -> Map<A, B> {
    Map::new(|key: A| map.contains_key(key) && map[key] != value, |key: A| map[key])
}

impl<K: Key, V: Key> Table<K, V> {
    /// Removes every key that leads to a value.
    pub fn remove_values(&mut self, value: &V)
        requires
            old(self).wf(),
        ensures
            final(self).wf(),
            final(self)@ == without_value(old(self)@, value@),
    {
        let ghost start = self@;
        let mut i: usize = 0;
        while i < self.entries.len()
            invariant
                self.wf(),
                i <= self.entries@.len(),
                start == old(self)@,
                forall|j: int| 0 <= j < i ==> (#[trigger] self.entries@[j]).1@ != value@,
                forall|key: K::V| #[trigger]
                    self@.contains_key(key) ==> start.contains_key(key) && start[key] == self@[key],
                forall|key: K::V| #[trigger]
                    start.contains_key(key) && start[key] != value@ ==> self@.contains_key(key),
            decreases self.entries@.len() - i,
        {
            let ghost before = *self;
            if self.entries[i].1.same(value) {
                proof {
                    before.lemma_at(i as int);
                }
                self.remove_at(i);
                proof {
                    assert forall|key: K::V| #[trigger] self@.contains_key(
                        key,
                    ) implies start.contains_key(key) && start[key] == self@[key] by {
                        assert(before@.contains_key(key));
                    }
                }
            } else {
                i = i + 1;
            }
        }
        proof {
            let want = without_value(start, value@);
            assert forall|key: K::V|
                #![trigger self@.dom().contains(key)]
                #![trigger want.dom().contains(key)]
                self@.dom().contains(key) == want.dom().contains(key) by {
                if self@.contains_key(key) {
                    let j = index_of(self.entries@, key);
                    assert(self.entries@[j].0@ == key);
                    self.lemma_at(j);
                }
            }
            assert(self@ =~= want);
        }
    }
}

} // verus!
