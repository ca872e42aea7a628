//! `==` and `<` on public keys: both go by the raw encodings.

use crate::key::{key_order, KeyOrder, WrappedPublicKey};
use core::cmp::Ordering;
use vstd::prelude::*;
use vstd::std_specs::cmp::{PartialEqSpecImpl, PartialOrdSpecImpl};

verus! {

impl PartialEq for WrappedPublicKey {
    /// Two keys are equal if their raw encodings are.
    fn eq(&self, other: &Self) -> (r: bool) {
        self.same_key(other)
    }
}

impl Eq for WrappedPublicKey {

}

impl PartialEqSpecImpl for WrappedPublicKey {
    open spec fn obeys_eq_spec() -> bool {
        true
    }

    open spec fn eq_spec(&self, other: &Self) -> bool {
        self@ == other@
    }
}

impl PartialOrd for WrappedPublicKey {
    /// Keys are ordered as their raw encodings are, byte by byte.
    fn partial_cmp(&self, other: &Self) -> (r: Option<Ordering>) {
        match self.order(other) {
            KeyOrder::Before => Some(Ordering::Less),
            KeyOrder::Same => Some(Ordering::Equal),
            KeyOrder::After => Some(Ordering::Greater),
        }
    }
}

impl PartialOrdSpecImpl for WrappedPublicKey {
    open spec fn obeys_partial_cmp_spec() -> bool {
        true
    }

    open spec fn partial_cmp_spec(&self, other: &Self) -> Option<Ordering> {
        match key_order(self@, other@) {
            KeyOrder::Before => Some(Ordering::Less),
            KeyOrder::Same => Some(Ordering::Equal),
            KeyOrder::After => Some(Ordering::Greater),
        }
    }
}

} // verus!
