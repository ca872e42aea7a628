//! Public keys as the ledger sees them: identified and ordered by the bytes
//! of their raw encoding.

use bls12_381_bls::PublicKey;
use vstd::prelude::*;

verus! {

/// Number of bytes in the raw encoding of a public key.
pub const KEY_BYTES: usize = 193;

/// A BLS public key. Its contents are opaque to the proofs here; only its
/// raw encoding is read.
#[verifier::external_type_specification]
#[verifier::external_body]
pub struct ExPublicKey(PublicKey);

/// `PublicKey` is `Copy`, and its `clone` is the copy.
pub assume_specification[ <PublicKey as Clone>::clone ](key: &PublicKey) -> (r: PublicKey)
    ensures
        r == *key,
;

/// The raw encoding of a public key.
pub uninterp spec fn raw_bytes_of(key: PublicKey) -> Seq<u8>;

/// Calls `PublicKey::to_raw_bytes`, which writes out the coordinates of the
/// underlying curve point followed by its infinity flag. Nothing is proved of
/// the encoding: the contract only gives it its name.
#[verifier::external_body]
fn to_raw_bytes(key: &PublicKey) -> (bytes: [u8; 193])
    ensures
        bytes@ == raw_bytes_of(*key),
{
    key.to_raw_bytes()
}

/// Lexicographic order on byte strings: the first differing byte decides, and
/// a proper prefix comes before its extensions.
pub open spec fn bytes_lt(a: Seq<u8>, b: Seq<u8>) -> bool
    decreases a.len(),
{
    if b.len() == 0 {
        false
    } else if a.len() == 0 {
        true
    } else if a[0] != b[0] {
        a[0] < b[0]
    } else {
        bytes_lt(a.drop_first(), b.drop_first())
    }
}

/// No byte string comes before itself.
pub proof fn lemma_bytes_lt_irreflexive(a: Seq<u8>)
    ensures
        !bytes_lt(a, a),
    decreases a.len(),
{
    if a.len() > 0 {
        lemma_bytes_lt_irreflexive(a.drop_first());
    }
}

/// The order is transitive.
pub proof fn lemma_bytes_lt_transitive(a: Seq<u8>, b: Seq<u8>, c: Seq<u8>)
    requires
        bytes_lt(a, b),
        bytes_lt(b, c),
    ensures
        bytes_lt(a, c),
    decreases a.len(),
{
    if a.len() > 0 && a[0] == b[0] && b[0] == c[0] {
        lemma_bytes_lt_transitive(a.drop_first(), b.drop_first(), c.drop_first());
    }
}

/// Any two byte strings are equal or ordered one way or the other.
pub proof fn lemma_bytes_lt_total(a: Seq<u8>, b: Seq<u8>)
    ensures
        a == b || bytes_lt(a, b) || bytes_lt(b, a),
    decreases a.len(),
{
    if a.len() == 0 || b.len() == 0 {
        if a.len() == 0 && b.len() == 0 {
            assert(a =~= b);
        }
    } else if a[0] == b[0] {
        lemma_bytes_lt_total(a.drop_first(), b.drop_first());
        if a.drop_first() == b.drop_first() {
            assert(a =~= seq![a[0]] + a.drop_first());
        }
    }
}

/// The order is asymmetric.
pub proof fn lemma_bytes_lt_asymmetric(a: Seq<u8>, b: Seq<u8>)
    requires
        bytes_lt(a, b),
    ensures
        !bytes_lt(b, a),
{
    if bytes_lt(b, a) {
        lemma_bytes_lt_transitive(a, b, a);
        lemma_bytes_lt_irreflexive(a);
    }
}

/// How one key stands to another in the byte order.
#[derive(Clone, Copy, Debug, PartialEq, Eq, Structural)]
pub enum KeyOrder {
    Before,
    Same,
    After,
}

/// What `order` answers for two encodings.
pub open spec fn key_order(a: Seq<u8>, b: Seq<u8>) -> KeyOrder {
    if bytes_lt(a, b) {
        KeyOrder::Before
    } else if a == b {
        KeyOrder::Same
    } else {
        KeyOrder::After
    }
}

/// A public key that is compared by the bytes of its raw encoding.
#[derive(Clone, Copy, Debug)]
pub struct WrappedPublicKey(pub PublicKey);

impl View for WrappedPublicKey {
    type V = Seq<u8>;

    open spec fn view(&self) -> Seq<u8> {
        raw_bytes_of(self.0)
    }
}

impl WrappedPublicKey {
    /// The raw encoding of the key, which has `KEY_BYTES` bytes.
    pub fn raw_bytes(&self) -> (bytes: [u8; 193])
        ensures
            bytes@ == self@,
            self@.len() == KEY_BYTES,
    {
        to_raw_bytes(&self.0)
    }

    /// Three-way comparison of two keys by their raw encodings.
    pub fn order(&self, other: &WrappedPublicKey) -> (r: KeyOrder)
        ensures
            r == key_order(self@, other@),
            r == KeyOrder::After ==> bytes_lt(other@, self@),
    {
        let a = self.raw_bytes();
        let b = other.raw_bytes();
        let mut i: usize = 0;
        proof {
            assert(a@.skip(0) =~= a@);
            assert(b@.skip(0) =~= b@);
        }
        while i < KEY_BYTES
            invariant
                i <= KEY_BYTES,
                a@ == self@,
                b@ == other@,
                a@.len() == KEY_BYTES,
                b@.len() == KEY_BYTES,
                forall|j: int| 0 <= j < i ==> a@[j] == b@[j],
                bytes_lt(a@, b@) == bytes_lt(a@.skip(i as int), b@.skip(i as int)),
                bytes_lt(b@, a@) == bytes_lt(b@.skip(i as int), a@.skip(i as int)),
            decreases KEY_BYTES - i,
        {
            let x = a[i];
            let y = b[i];
            proof {
                assert(a@.skip(i as int).drop_first() =~= a@.skip(i + 1));
                assert(b@.skip(i as int).drop_first() =~= b@.skip(i + 1));
            }
            if x < y {
                return KeyOrder::Before;
            }
            if x > y {
                return KeyOrder::After;
            }
            i += 1;
        }
        proof {
            assert(a@ =~= b@);
            lemma_bytes_lt_irreflexive(a@);
        }
        KeyOrder::Same
    }

    /// Whether two keys have the same raw encoding.
    pub fn same_key(&self, other: &WrappedPublicKey) -> (r: bool)
        ensures
            r == (self@ == other@),
    {
        proof {
            lemma_bytes_lt_irreflexive(self@);
        }
        match self.order(other) {
            KeyOrder::Same => true,
            _ => false,
        }
    }
}

} // verus!
