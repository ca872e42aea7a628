//! A set of public keys, held in ascending order of their raw encodings.

use crate::key::{
    bytes_lt, lemma_bytes_lt_irreflexive, lemma_bytes_lt_transitive, raw_bytes_of, KeyOrder,
    WrappedPublicKey,
};
use crate::sorted::{
    ascending, is_gap, is_strict_order, lemma_ascending_distinct, lemma_gap_absent,
    lemma_insert_in_gap, lemma_remove_at,
};
use crate::types::key_encodings;
use bls12_381_bls::PublicKey;
use vstd::prelude::*;

verus! {

/// The byte order as a relation.
pub open spec fn key_lt() -> spec_fn(Seq<u8>, Seq<u8>) -> bool {
    |a: Seq<u8>, b: Seq<u8>| bytes_lt(a, b)
}

/// The byte order is a strict order.
pub proof fn lemma_key_lt_strict()
    ensures
        is_strict_order(key_lt()),
{
    let lt = key_lt();
    assert forall|a: Seq<u8>| !#[trigger] lt(a, a) by {
        lemma_bytes_lt_irreflexive(a);
    }
    assert forall|a: Seq<u8>, b: Seq<u8>, c: Seq<u8>| #[trigger] lt(a, b) && #[trigger] lt(
        b,
        c,
    ) implies lt(a, c) by {
        lemma_bytes_lt_transitive(a, b, c);
    }
}

/// The encodings of a sequence of keys, in the same order.
pub open spec fn encodings_of(keys: Seq<WrappedPublicKey>) -> Seq<Seq<u8>> {
    Seq::new(keys.len(), |i: int| keys[i]@)
}

/// An ordered set of public keys. Keys with the same raw encoding are the
/// same key.
pub struct KeySet {
    keys: Vec<WrappedPublicKey>,
}

impl View for KeySet {
    type V = Set<Seq<u8>>;

    /// The set of encodings of the keys held.
    open spec fn view(&self) -> Set<Seq<u8>> {
        self.encodings().to_set()
    }
}

impl KeySet {
    /// The encodings of the keys in the order in which they are held.
    pub closed spec fn encodings(&self) -> Seq<Seq<u8>> {
        encodings_of(self.keys@)
    }

    /// The keys are held in strictly ascending byte order.
    pub open spec fn wf(&self) -> bool {
        ascending(self.encodings(), key_lt())
    }

    /// A well-formed set is finite and has as many elements as it holds keys.
    pub proof fn lemma_len(&self)
        requires
            self.wf(),
        ensures
            self@.finite(),
            self@.len() == self.encodings().len(),
            self.encodings().no_duplicates(),
    {
        lemma_key_lt_strict();
        lemma_ascending_distinct(self.encodings(), key_lt());
    }

    /// The empty set.
    pub fn new() -> (r: KeySet)
        ensures
            r.wf(),
            r.encodings() == Seq::<Seq<u8>>::empty(),
            r@ == Set::<Seq<u8>>::empty(),
    {
        let r = KeySet { keys: Vec::new() };
        r
    }

    /// The number of keys in the set.
    pub fn len(&self) -> (n: usize)
        requires
            self.wf(),
        ensures
            n == self.encodings().len(),
            n == self@.len(),
    {
        proof {
            self.lemma_len();
        }
        self.keys.len()
    }

    /// The key at place `i` of the ascending order.
    pub fn get(&self, i: usize) -> (key: WrappedPublicKey)
        requires
            i < self.encodings().len(),
        ensures
            key@ == self.encodings()[i as int],
    {
        self.keys[i]
    }

    /// Where `key` is or belongs: the first place whose key is not below it,
    /// and whether the key there is `key` itself.
    fn locate(&self, key: &WrappedPublicKey) -> (r: (usize, bool))
        requires
            self.wf(),
        ensures
            r.0 <= self.encodings().len(),
            r.1 ==> r.0 < self.encodings().len() && self.encodings()[r.0 as int] == key@,
            !r.1 ==> is_gap(self.encodings(), key_lt(), r.0 as int, key@),
            r.1 == self@.contains(key@),
    {
        let mut i: usize = 0;
        while i < self.keys.len()
            invariant
                i <= self.keys.len(),
                self.wf(),
                forall|j: int| 0 <= j < i ==> #[trigger] key_lt()(self.encodings()[j], key@),
            decreases self.keys.len() - i,
        {
            match self.keys[i].order(key) {
                KeyOrder::Before => {
                    i += 1;
                },
                KeyOrder::Same => {
                    assert(self.encodings()[i as int] == key@);
                    return (i, true);
                },
                KeyOrder::After => {
                    proof {
                        lemma_key_lt_strict();
                        lemma_gap_absent(self.encodings(), key_lt(), i as int, key@);
                    }
                    return (i, false);
                },
            }
        }
        proof {
            lemma_key_lt_strict();
            lemma_gap_absent(self.encodings(), key_lt(), i as int, key@);
        }
        (i, false)
    }

    /// Whether the set holds a key with the encoding of `key`.
    pub fn contains(&self, key: &WrappedPublicKey) -> (r: bool)
        requires
            self.wf(),
        ensures
            r == self@.contains(key@),
    {
        self.locate(key).1
    }

    /// Adds `key`; answers whether it was new. A key that is already held is
    /// left as it is.
    pub fn insert(&mut self, key: WrappedPublicKey) -> (r: bool)
        requires
            old(self).wf(),
        ensures
            final(self).wf(),
            r == !old(self)@.contains(key@),
            final(self)@ == old(self)@.insert(key@),
    {
        let (pos, found) = self.locate(&key);
        if found {
            return false;
        }
        proof {
            lemma_key_lt_strict();
            lemma_insert_in_gap(self.encodings(), key_lt(), pos as int, key@);
        }
        let ghost before = self.encodings();
        self.keys.insert(pos, key);
        assert(self.encodings() =~= before.insert(pos as int, key@));
        true
    }

    /// Takes `key` out; answers whether it was held.
    pub fn remove(&mut self, key: &WrappedPublicKey) -> (r: bool)
        requires
            old(self).wf(),
        ensures
            final(self).wf(),
            r == old(self)@.contains(key@),
            final(self)@ == old(self)@.remove(key@),
    {
        let (pos, found) = self.locate(key);
        if !found {
            return false;
        }
        proof {
            lemma_key_lt_strict();
            lemma_remove_at(self.encodings(), key_lt(), pos as int);
        }
        let ghost before = self.encodings();
        self.keys.remove(pos);
        assert(self.encodings() =~= before.remove(pos as int));
        true
    }

    /// The keys in ascending order.
    pub fn to_vec(&self) -> (r: Vec<WrappedPublicKey>)
        ensures
            encodings_of(r@) == self.encodings(),
    {
        let mut out: Vec<WrappedPublicKey> = Vec::new();
        let mut i: usize = 0;
        while i < self.keys.len()
            invariant
                i <= self.keys.len(),
                out@.len() == i,
                forall|j: int| 0 <= j < i ==> out@[j]@ == self.keys@[j]@,
            decreases self.keys.len() - i,
        {
            out.push(self.keys[i]);
            i += 1;
        }
        out
    }

    /// A copy of the set.
    pub fn duplicate(&self) -> (r: KeySet)
        ensures
            r.encodings() == self.encodings(),
            r@ == self@,
            r.wf() == self.wf(),
    {
        KeySet { keys: self.to_vec() }
    }
}

/// The set of `keys`, if no two of them have the same encoding.
pub fn distinct_keys(keys: &Vec<PublicKey>) -> (r: Option<KeySet>)
    ensures
        r is Some == key_encodings(keys@).no_duplicates(),
        r matches Some(set) ==> set.wf() && set@ == key_encodings(keys@).to_set(),
{
    let ghost all = key_encodings(keys@);
    let mut set = KeySet::new();
    let mut i: usize = 0;
    while i < keys.len()
        invariant
            i <= keys.len(),
            all == key_encodings(keys@),
            set.wf(),
            set@ == all.take(i as int).to_set(),
            all.take(i as int).no_duplicates(),
        decreases keys.len() - i,
    {
        let fresh = set.insert(WrappedPublicKey(keys[i]));
        proof {
            let seen = all.take(i as int);
            assert(all.take(i + 1) =~= seen.push(all[i as int]));
            seen.lemma_push_to_set_commute(all[i as int]);
            if !fresh {
                // The key stands at two places.
                let j = choose|j: int| 0 <= j < seen.len() && seen[j] == all[i as int];
                assert(all[j] == all[i as int]);
            }
        }
        if !fresh {
            return None;
        }
        i += 1;
    }
    assert(all.take(i as int) =~= all);
    Some(set)
}

/// The keys of `set` in ascending order.
pub fn keys_of(set: &KeySet) -> (r: Vec<PublicKey>)
    ensures
        key_encodings(r@) == set.encodings(),
{
    let wrapped = set.to_vec();
    let mut out: Vec<PublicKey> = Vec::new();
    let mut i: usize = 0;
    while i < wrapped.len()
        invariant
            i <= wrapped.len(),
            out@.len() == i,
            forall|j: int| 0 <= j < i ==> raw_bytes_of(out@[j]) == wrapped@[j]@,
        decreases wrapped.len() - i,
    {
        out.push(wrapped[i].0);
        i += 1;
    }
    out
}

} // verus!
