//! A set of account ids, listed in ascending order.

use crate::sorted::ascending;
use std::collections::BTreeSet;
use vstd::prelude::*;
use vstd::std_specs::cmp::OrdSpec;
use vstd::std_specs::iter::IteratorSpec;

verus! {

broadcast use {vstd::std_specs::btree::group_btree_axioms, vstd::laws_cmp::group_laws_cmp};

/// The order of account ids as a relation.
pub open spec fn id_lt() -> spec_fn(u64, u64) -> bool {
    |a: u64, b: u64| a < b
}

/// Whether `a` comes before `b` in the order of `K`.
spec fn below<K: Ord>(a: K, b: K) -> bool {
    a.cmp_spec(&b) is Less
}

/// A sequence that the B-tree lists as increasing is ascending in the order
/// of the ids.
proof fn lemma_increasing_ascending(s: Seq<&u64>)
    requires
        vstd::std_specs::btree::increasing_seq(s),
    ensures
        ascending(s.unref(), id_lt()),
{
    broadcast use vstd::laws_cmp::lemma_ref_obeys_cmp_spec;

    assert(vstd::laws_cmp::obeys_cmp::<&u64>());
    vstd::std_specs::btree::axiom_increasing_seq_meaning::<&u64>(s);
    let ids = s.unref();
    assert forall|i: int, j: int| 0 <= i < j < ids.len() implies #[trigger] id_lt()(
        ids[i],
        ids[j],
    ) by {
        assert(below::<&u64>(s[i], s[j]));
    }
}

/// An ordered set of account ids.
pub struct IdSet {
    ids: BTreeSet<u64>,
}

impl View for IdSet {
    type V = Set<u64>;

    /// The set of the ids held.
    closed spec fn view(&self) -> Set<u64> {
        self.ids@
    }
}

impl IdSet {
    /// The empty set.
    pub fn new() -> (r: IdSet)
        ensures
            r@ == Set::<u64>::empty(),
    {
        IdSet { ids: BTreeSet::new() }
    }

    /// Whether the set holds `id`.
    pub fn contains(&self, id: u64) -> (r: bool)
        ensures
            r == self@.contains(id),
    {
        self.ids.contains(&id)
    }

    /// Adds `id`; answers whether it was new.
    pub fn insert(&mut self, id: u64) -> (r: bool)
        ensures
            r == !old(self)@.contains(id),
            final(self)@ == old(self)@.insert(id),
    {
        self.ids.insert(id)
    }

    /// Takes `id` out; answers whether it was held.
    pub fn remove(&mut self, id: u64) -> (r: bool)
        ensures
            r == old(self)@.contains(id),
            final(self)@ == old(self)@.remove(id),
    {
        self.ids.remove(&id)
    }

    /// The ids in ascending order.
    pub fn to_vec(&self) -> (r: Vec<u64>)
        ensures
            ascending(r@, id_lt()),
            r@.to_set() == self@,
    {
        let mut out: Vec<u64> = Vec::new();
        for id in it: self.ids.iter()
            invariant
                out@.len() == it.index(),
                forall|j: int| 0 <= j < out@.len() ==> out@[j] == *it.seq()[j],
        {
            out.push(*id);
        }
        proof {
            let listed = vstd::std_specs::btree::spec_btree_keys_iter(&self.ids).remaining();
            assert(out@ =~= listed.unref());
            lemma_increasing_ascending(listed);
        }
        out
    }
}

} // verus!
