//! The reverse index: for each public key, the accounts that authorize it.

use crate::id_set::{id_lt, IdSet};
use crate::key::WrappedPublicKey;
use crate::sorted::ascending;
use vstd::prelude::*;

verus! {

/// One key with the ids of the accounts that authorize it.
struct KeyEntry {
    key: WrappedPublicKey,
    accounts: IdSet,
}

/// The accounts of every key that was ever authorized. A key that no account
/// authorizes has the empty set, whether or not it was seen before.
pub struct KeyIndex {
    entries: Vec<KeyEntry>,
}

impl View for KeyIndex {
    type V = Map<Seq<u8>, Set<u64>>;

    /// The total map from a key's encoding to the ids of its accounts.
    open spec fn view(&self) -> Map<Seq<u8>, Set<u64>> {
        Map::total(|k: Seq<u8>| self.accounts_of(k))
    }
}

impl KeyIndex {
    /// Whether entry `i` is the one of the key encoded as `k`.
    spec fn entry_of(&self, i: int, k: Seq<u8>) -> bool {
        0 <= i < self.entries@.len() && self.entries@[i].key@ == k
    }

    /// The ids of the accounts that authorize the key encoded as `k`.
    pub closed spec fn accounts_of(&self, k: Seq<u8>) -> Set<u64> {
        if exists|i: int| self.entry_of(i, k) {
            self.entries@[choose|i: int| self.entry_of(i, k)].accounts@
        } else {
            Set::empty()
        }
    }

    /// No key has two entries.
    pub closed spec fn wf(&self) -> bool {
        &&& forall|i: int, j: int|
            0 <= i < j < self.entries@.len() ==> (#[trigger] self.entries@[i]).key@ != (
            #[trigger] self.entries@[j]).key@
    }

    /// In a well-formed index the entry of a key holds the key's accounts.
    proof fn lemma_entry(&self, i: int, k: Seq<u8>)
        requires
            self.wf(),
            self.entry_of(i, k),
        ensures
            self.accounts_of(k) == self.entries@[i].accounts@,
    {
        let c = choose|c: int| self.entry_of(c, k);
        if c < i {
            assert(self.entries@[c].key@ != self.entries@[i].key@);
        } else if i < c {
            assert(self.entries@[i].key@ != self.entries@[c].key@);
        }
    }

    /// The index in which no key has an account.
    pub fn new() -> (r: KeyIndex)
        ensures
            r.wf(),
            forall|k: Seq<u8>| r.accounts_of(k) == Set::<u64>::empty(),
    {
        KeyIndex { entries: Vec::new() }
    }

    /// The place of the entry of `key`, if it has one.
    fn find(&self, key: &WrappedPublicKey) -> (r: Option<usize>)
        requires
            self.wf(),
        ensures
            match r {
                Some(i) => self.entry_of(i as int, key@),
                None => forall|i: int| !self.entry_of(i, key@),
            },
    {
        let mut i: usize = 0;
        while i < self.entries.len()
            invariant
                i <= self.entries.len(),
                forall|j: int| 0 <= j < i ==> !self.entry_of(j, key@),
            decreases self.entries.len() - i,
        {
            if self.entries[i].key.same_key(key) {
                return Some(i);
            }
            i += 1;
        }
        None
    }

    /// Records that account `id` authorizes `key`.
    pub fn add(&mut self, key: WrappedPublicKey, id: u64)
        requires
            old(self).wf(),
        ensures
            final(self).wf(),
            final(self).accounts_of(key@) == old(self).accounts_of(key@).insert(id),
            forall|k: Seq<u8>| k != key@ ==> final(self).accounts_of(k) == old(self).accounts_of(k),
    {
        let ghost before = *self;
        match self.find(&key) {
            Some(i) => {
                proof {
                    before.lemma_entry(i as int, key@);
                }
                self.entries[i].accounts.insert(id);
                proof {
                    assert forall|j: int| 0 <= j < self.entries@.len() implies self.entries@[j].key@
                        == before.entries@[j].key@ by {}
                    assert forall|j: int| 0 <= j < self.entries@.len() && j != i implies self.entries@[j]
                        == before.entries@[j] by {}
                    self.lemma_entry(i as int, key@);
                    assert forall|k: Seq<u8>| k != key@ implies self.accounts_of(k)
                        == before.accounts_of(k) by {
                        self.lemma_same_elsewhere(before, i as int, k);
                    }
                }
            },
            None => {
                let mut accounts = IdSet::new();
                accounts.insert(id);
                self.entries.push(KeyEntry { key, accounts });
                proof {
                    let n = before.entries@.len() as int;
                    assert forall|j: int| 0 <= j < n implies self.entries@[j] == before.entries@[j] by {}
                    assert forall|j: int| 0 <= j < n implies self.entries@[j].key@ != key@ by {
                        assert(!before.entry_of(j, key@));
                    }
                    self.lemma_entry(n, key@);
                    assert forall|k: Seq<u8>| k != key@ implies self.accounts_of(k)
                        == before.accounts_of(k) by {
                        self.lemma_same_elsewhere(before, n, k);
                    }
                }
            },
        }
    }

    /// Records that account `id` no longer authorizes `key`.
    pub fn remove(&mut self, key: &WrappedPublicKey, id: u64)
        requires
            old(self).wf(),
        ensures
            final(self).wf(),
            final(self).accounts_of(key@) == old(self).accounts_of(key@).remove(id),
            forall|k: Seq<u8>| k != key@ ==> final(self).accounts_of(k) == old(self).accounts_of(k),
    {
        let ghost before = *self;
        match self.find(key) {
            Some(i) => {
                proof {
                    before.lemma_entry(i as int, key@);
                }
                self.entries[i].accounts.remove(id);
                proof {
                    assert forall|j: int| 0 <= j < self.entries@.len() implies self.entries@[j].key@
                        == before.entries@[j].key@ by {}
                    assert forall|j: int| 0 <= j < self.entries@.len() && j != i implies self.entries@[j]
                        == before.entries@[j] by {}
                    self.lemma_entry(i as int, key@);
                    assert forall|k: Seq<u8>| k != key@ implies self.accounts_of(k)
                        == before.accounts_of(k) by {
                        self.lemma_same_elsewhere(before, i as int, k);
                    }
                }
            },
            None => {
                assert(self.accounts_of(key@) == Set::<u64>::empty());
            },
        }
    }

    /// The ids of the accounts that authorize `key`, in ascending order.
    pub fn get(&self, key: &WrappedPublicKey) -> (r: Vec<u64>)
        requires
            self.wf(),
        ensures
            ascending(r@, id_lt()),
            r@.to_set() == self.accounts_of(key@),
    {
        match self.find(key) {
            Some(i) => {
                proof {
                    self.lemma_entry(i as int, key@);
                }
                self.entries[i].accounts.to_vec()
            },
            None => {
                let r: Vec<u64> = Vec::new();
                r
            },
        }
    }

    /// Two indexes that agree on the keys of all entries, and on all entries
    /// but the one at `i`, agree on every key but that of entry `i`.
    proof fn lemma_same_elsewhere(&self, before: KeyIndex, i: int, k: Seq<u8>)
        requires
            self.wf(),
            before.wf(),
            0 <= i < self.entries@.len(),
            self.entries@[i].key@ != k,
            before.entries@.len() == self.entries@.len() || (before.entries@.len() == i
                && self.entries@.len() == i + 1),
            forall|j: int|
                0 <= j < before.entries@.len() && j != i ==> self.entries@[j] == before.entries@[j],
            before.entries@.len() == self.entries@.len() ==> before.entries@[i].key@
                == self.entries@[i].key@,
        ensures
            self.accounts_of(k) == before.accounts_of(k),
    {
        if exists|j: int| self.entry_of(j, k) {
            let j = choose|j: int| self.entry_of(j, k);
            before.lemma_entry(j, k);
            self.lemma_entry(j, k);
        } else if exists|j: int| before.entry_of(j, k) {
            let j = choose|j: int| before.entry_of(j, k);
            assert(self.entry_of(j, k));
        }
    }
}

} // verus!
