//! What is remembered of peers across restarts.

use vstd::prelude::*;

use crate::peer::{KeyPrefix, PeerSnapshot, SnapshotView};
use crate::table::PrefixTable;

verus! {

/// Keeps peers in memory.
#[derive(Debug)]
pub struct InMemoryPeerStore {
    inner: PrefixTable<PeerSnapshot>,
}

impl View for InMemoryPeerStore {
    type V = Map<Seq<u8>, SnapshotView>;

    closed spec fn view(&self) -> Map<Seq<u8>, SnapshotView> {
        self.inner@
    }
}

impl InMemoryPeerStore {
    pub closed spec fn wf(self) -> bool {
        self.inner.wf()
    }

    pub fn new() -> (s: Self)
        ensures
            s.wf(),
            s@ == Map::<Seq<u8>, SnapshotView>::empty(),
    {
        InMemoryPeerStore { inner: PrefixTable::new() }
    }

    /// Remembers a peer, in place of what was remembered under its prefix.
    pub fn put(&mut self, prefix: KeyPrefix, snapshot: PeerSnapshot)
        requires
            old(self).wf(),
        ensures
            final(self).wf(),
            final(self)@ == old(self)@.insert(prefix@, snapshot@),
    {
        let _ = self.inner.insert(prefix, snapshot);
    }

    /// What is remembered under a prefix.
    pub fn get(&self, prefix: &KeyPrefix) -> (r: Option<PeerSnapshot>)
        requires
            self.wf(),
        ensures
            match r {
                Some(s) => self@.contains_key(prefix@) && self@[prefix@] == s@,
                None => !self@.contains_key(prefix@),
            },
    {
        match self.inner.get(prefix) {
            Some(s) => Some(s.clone()),
            None => None,
        }
    }

    /// Everything that is remembered, each prefix once.
    pub fn list(&self) -> (all: Vec<(KeyPrefix, PeerSnapshot)>)
        requires
            self.wf(),
        ensures
            all@.len() == self@.len(),
            forall|i: int|
                0 <= i < all@.len() ==> self@.contains_key((#[trigger] all@[i]).0@)
                    && self@[all@[i].0@] == all@[i].1@,
            forall|i: int, j: int|
                0 <= i < j < all@.len() ==> (#[trigger] all@[i]).0@ != (#[trigger] all@[j]).0@,
    {
        let mut all: Vec<(KeyPrefix, PeerSnapshot)> = Vec::new();
        let n: usize = self.inner.len();
        let mut i: usize = 0;
        while i < n
            invariant
                self.wf(),
                i <= n,
                n == self.inner.pairs().len(),
                all@.len() == i,
                forall|j: int|
                    0 <= j < i ==> self.inner.pairs()[j] == ((#[trigger] all@[j]).0@, all@[j].1@),
            decreases n - i,
        {
            let (prefix, snapshot) = self.inner.at(i);
            all.push((*prefix, snapshot.clone()));
            i = i + 1;
        }
        proof {
            self.inner.lemma_pairs();
            assert forall|a: int| 0 <= a < all@.len() implies self@.contains_key(
                (#[trigger] all@[a]).0@,
            ) && self@[all@[a].0@] == all@[a].1@ by {
                assert(self.inner.pairs()[a] == (all@[a].0@, all@[a].1@));
            }
            assert forall|a: int, b: int| 0 <= a < b < all@.len() implies (#[trigger] all@[a]).0@
                != (#[trigger] all@[b]).0@ by {
                assert(self.inner.pairs()[a].0 != self.inner.pairs()[b].0);
            }
        }
        all
    }

    /// Forgets what is remembered under a prefix.
    pub fn forget(&mut self, prefix: &KeyPrefix)
        requires
            old(self).wf(),
        ensures
            final(self).wf(),
            final(self)@ == old(self)@.remove(prefix@),
    {
        let _ = self.inner.remove(prefix);
    }
}

/// A read gives back what was last written under the prefix; what was written
/// under other prefixes is untouched; after forgetting, nothing is given back.
pub proof fn reads_give_back_writes(
    store: Map<Seq<u8>, SnapshotView>,
    prefix: Seq<u8>,
    snapshot: SnapshotView,
    other: Seq<u8>,
)
    requires
        other != prefix,
    ensures
        store.insert(prefix, snapshot).contains_key(prefix),
        store.insert(prefix, snapshot)[prefix] == snapshot,
        store.insert(prefix, snapshot).contains_key(other) == store.contains_key(other),
        store.contains_key(other) ==> store.insert(prefix, snapshot)[other] == store[other],
        !store.insert(prefix, snapshot).remove(prefix).contains_key(prefix),
{
}

} // verus!
