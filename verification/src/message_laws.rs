//! A message can be read in one way only: the bytes of a change message
//! determine the account, the nonce and the list of changes, those of a
//! transfer message the account, the receiver, the amount, the nonce and the
//! memo.

use crate::changes::changes_of;
use crate::key::{raw_bytes_of, KEY_BYTES};
use crate::ledger::Change;
use crate::message::{
    all_well_sized, change_message, changes_bytes, encoded, le_bytes, lemma_le_bytes_len,
    transfer_message, well_sized,
};
use crate::types::{AccountChange, ChangeAccount, Transfer};
use vstd::prelude::*;
use vstd::utf8::{decode_utf8, encode_utf8, encode_utf8_decode_utf8};

verus! {

/// `x` can be written in `width` bytes.
pub open spec fn fits(x: nat, width: nat) -> bool
    decreases width,
{
    if width == 0 {
        x == 0
    } else {
        fits(x / 256, (width - 1) as nat)
    }
}

/// Two numbers that fit in `width` bytes and are written alike are the same.
pub proof fn lemma_le_bytes_one_to_one(x: nat, y: nat, width: nat)
    requires
        fits(x, width),
        fits(y, width),
        le_bytes(x, width) == le_bytes(y, width),
    ensures
        x == y,
    decreases width,
{
    if width > 0 {
        let rest = (width - 1) as nat;
        assert(le_bytes(x, width)[0] == (x % 256) as u8);
        assert(le_bytes(y, width)[0] == (y % 256) as u8);
        assert(le_bytes(x, width).drop_first() =~= le_bytes(x / 256, rest));
        assert(le_bytes(y, width).drop_first() =~= le_bytes(y / 256, rest));
        lemma_le_bytes_one_to_one(x / 256, y / 256, rest);
    }
}

/// Every `u32` fits in 4 bytes and every `u64` in 8.
pub proof fn lemma_words_fit(a: u32, b: u64)
    ensures
        fits(a as nat, 4),
        fits(b as nat, 8),
{
    reveal_with_fuel(fits, 9);
}

/// The bytes of a list of changes: those of each change, in order.
pub open spec fn encoded_all(changes: Seq<Change>) -> Seq<u8>
    decreases changes.len(),
{
    if changes.len() == 0 {
        Seq::empty()
    } else {
        encoded_all(changes.drop_last()) + encoded(changes.last())
    }
}

/// What a list of changes contributes to a change message are the bytes of
/// its changes.
pub proof fn lemma_changes_bytes_encoded(changes: Seq<AccountChange>)
    ensures
        changes_bytes(changes) == encoded_all(changes_of(changes)),
    decreases changes.len(),
{
    if changes.len() > 0 {
        lemma_changes_bytes_encoded(changes.drop_last());
        assert(changes_of(changes).drop_last() =~= changes_of(changes.drop_last()));
    }
}

/// The bytes of a list begin with the bytes of its first change.
pub proof fn lemma_encoded_all_front(first: Change, rest: Seq<Change>)
    ensures
        encoded_all(seq![first] + rest) == encoded(first) + encoded_all(rest),
    decreases rest.len(),
{
    let all = seq![first] + rest;
    if rest.len() == 0 {
        assert(all.drop_last() =~= Seq::<Change>::empty());
        assert(encoded_all(all.drop_last()) =~= Seq::<u8>::empty());
        assert(encoded_all(all) =~= encoded(first));
        assert(encoded(first) + encoded_all(rest) =~= encoded(first));
    } else {
        assert(all.drop_last() =~= seq![first] + rest.drop_last());
        assert(all.last() == rest.last());
        lemma_encoded_all_front(first, rest.drop_last());
        assert(encoded_all(all) =~= encoded(first) + encoded_all(rest));
    }
}

/// The bytes of a change tell where it ends and which change it is: if two
/// changes, each followed by some bytes, give the same bytes, they are the
/// same change, followed by the same bytes.
pub proof fn lemma_encoded_one_to_one(c: Change, p: Seq<u8>, d: Change, q: Seq<u8>)
    requires
        well_sized(c),
        well_sized(d),
        encoded(c) + p == encoded(d) + q,
    ensures
        c == d,
        p == q,
{
    let left = encoded(c) + p;
    let right = encoded(d) + q;
    assert(left[0] == encoded(c)[0]);
    assert(right[0] == encoded(d)[0]);
    match (c, d) {
        (Change::AddKey(k1), Change::AddKey(k2)) | (Change::RemoveKey(k1), Change::RemoveKey(k2)) => {
            assert(left.subrange(1, 1 + KEY_BYTES as int) =~= k1);
            assert(right.subrange(1, 1 + KEY_BYTES as int) =~= k2);
            assert(left.skip(1 + KEY_BYTES as int) =~= p);
            assert(right.skip(1 + KEY_BYTES as int) =~= q);
        },
        (Change::SetThreshold(t1), Change::SetThreshold(t2)) => {
            lemma_le_bytes_len(t1 as nat, 4);
            lemma_le_bytes_len(t2 as nat, 4);
            assert(left.subrange(1, 5) =~= le_bytes(t1 as nat, 4));
            assert(right.subrange(1, 5) =~= le_bytes(t2 as nat, 4));
            lemma_words_fit(t1, 0);
            lemma_words_fit(t2, 0);
            lemma_le_bytes_one_to_one(t1 as nat, t2 as nat, 4);
            assert(left.skip(5) =~= p);
            assert(right.skip(5) =~= q);
        },
        (Change::SetDescription(d1), Change::SetDescription(d2)) => {
            let b1 = encode_utf8(d1);
            let b2 = encode_utf8(d2);
            lemma_le_bytes_len(b1.len(), 8);
            lemma_le_bytes_len(b2.len(), 8);
            assert(left.subrange(1, 9) =~= le_bytes(b1.len(), 8));
            assert(right.subrange(1, 9) =~= le_bytes(b2.len(), 8));
            lemma_words_fit(0, b1.len() as u64);
            lemma_words_fit(0, b2.len() as u64);
            lemma_le_bytes_one_to_one(b1.len(), b2.len(), 8);
            assert(left.subrange(9, 9 + b1.len() as int) =~= b1);
            assert(right.subrange(9, 9 + b2.len() as int) =~= b2);
            encode_utf8_decode_utf8(d1);
            encode_utf8_decode_utf8(d2);
            assert(d1 == decode_utf8(b1));
            assert(left.skip(9 + b1.len() as int) =~= p);
            assert(right.skip(9 + b2.len() as int) =~= q);
        },
        _ => {
            // The tags differ.
            assert(left[0] != right[0]);
        },
    }
}

/// Two lists of changes with the same bytes are the same list.
pub proof fn lemma_changes_unambiguous(a: Seq<Change>, b: Seq<Change>)
    requires
        all_well_sized(a),
        all_well_sized(b),
        encoded_all(a) == encoded_all(b),
    ensures
        a == b,
    decreases a.len(),
{
    if a.len() == 0 || b.len() == 0 {
        // A list with a change has at least the byte of its tag.
        if a.len() > 0 {
            assert(encoded(a.last()).len() > 0);
        }
        if b.len() > 0 {
            assert(encoded(b.last()).len() > 0);
        }
        assert(a =~= b);
    } else {
        assert(a =~= seq![a[0]] + a.drop_first());
        assert(b =~= seq![b[0]] + b.drop_first());
        lemma_encoded_all_front(a[0], a.drop_first());
        lemma_encoded_all_front(b[0], b.drop_first());
        lemma_encoded_one_to_one(
            a[0],
            encoded_all(a.drop_first()),
            b[0],
            encoded_all(b.drop_first()),
        );
        assert(all_well_sized(a.drop_first())) by {
            assert forall|i: int| 0 <= i < a.drop_first().len() implies well_sized(
                #[trigger] a.drop_first()[i],
            ) by {
                assert(a.drop_first()[i] == a[i + 1]);
            }
        }
        assert(all_well_sized(b.drop_first())) by {
            assert forall|i: int| 0 <= i < b.drop_first().len() implies well_sized(
                #[trigger] b.drop_first()[i],
            ) by {
                assert(b.drop_first()[i] == b[i + 1]);
            }
        }
        lemma_changes_unambiguous(a.drop_first(), b.drop_first());
    }
}

/// Two change operations with the same message name the same account, the
/// same nonce and the same changes, key for key by their encodings: what was
/// signed for one authorizes no other.
pub proof fn lemma_change_message_unambiguous(c1: ChangeAccount, c2: ChangeAccount)
    requires
        all_well_sized(changes_of(c1.changes@)),
        all_well_sized(changes_of(c2.changes@)),
        change_message(c1) == change_message(c2),
    ensures
        c1.account_id == c2.account_id,
        c1.nonce == c2.nonce,
        changes_of(c1.changes@) == changes_of(c2.changes@),
{
    let m1 = change_message(c1);
    let m2 = change_message(c2);
    let body1 = changes_bytes(c1.changes@);
    let body2 = changes_bytes(c2.changes@);
    lemma_le_bytes_len(c1.account_id as nat, 8);
    lemma_le_bytes_len(c2.account_id as nat, 8);
    lemma_le_bytes_len(c1.nonce as nat, 8);
    lemma_le_bytes_len(c2.nonce as nat, 8);
    lemma_words_fit(0, c1.account_id);
    lemma_words_fit(0, c2.account_id);
    lemma_words_fit(0, c1.nonce);
    lemma_words_fit(0, c2.nonce);
    assert(m1.subrange(0, 8) =~= le_bytes(c1.account_id as nat, 8));
    assert(m2.subrange(0, 8) =~= le_bytes(c2.account_id as nat, 8));
    lemma_le_bytes_one_to_one(c1.account_id as nat, c2.account_id as nat, 8);
    assert(m1.len() == 16 + body1.len());
    assert(m2.len() == 16 + body2.len());
    assert(m1.subrange(8, 8 + body1.len() as int) =~= body1);
    assert(m2.subrange(8, 8 + body2.len() as int) =~= body2);
    assert(m1.skip(8 + body1.len() as int) =~= le_bytes(c1.nonce as nat, 8));
    assert(m2.skip(8 + body2.len() as int) =~= le_bytes(c2.nonce as nat, 8));
    lemma_le_bytes_one_to_one(c1.nonce as nat, c2.nonce as nat, 8);
    lemma_changes_bytes_encoded(c1.changes@);
    lemma_changes_bytes_encoded(c2.changes@);
    lemma_changes_unambiguous(changes_of(c1.changes@), changes_of(c2.changes@));
}

/// Two transfers with the same message name the same account, receiver (by
/// its encoding), amount, nonce and memo.
pub proof fn lemma_transfer_message_unambiguous(t1: Transfer, t2: Transfer)
    requires
        raw_bytes_of(t1.receiver).len() == KEY_BYTES,
        raw_bytes_of(t2.receiver).len() == KEY_BYTES,
        transfer_message(t1) == transfer_message(t2),
    ensures
        t1.account_id == t2.account_id,
        raw_bytes_of(t1.receiver) == raw_bytes_of(t2.receiver),
        t1.amount == t2.amount,
        t1.nonce == t2.nonce,
        t1.memo@ == t2.memo@,
{
    let m1 = transfer_message(t1);
    let m2 = transfer_message(t2);
    let n = KEY_BYTES as int;
    lemma_le_bytes_len(t1.account_id as nat, 8);
    lemma_le_bytes_len(t2.account_id as nat, 8);
    lemma_le_bytes_len(t1.amount as nat, 8);
    lemma_le_bytes_len(t2.amount as nat, 8);
    lemma_le_bytes_len(t1.nonce as nat, 8);
    lemma_le_bytes_len(t2.nonce as nat, 8);
    lemma_words_fit(0, t1.account_id);
    lemma_words_fit(0, t2.account_id);
    lemma_words_fit(0, t1.amount);
    lemma_words_fit(0, t2.amount);
    lemma_words_fit(0, t1.nonce);
    lemma_words_fit(0, t2.nonce);
    assert(m1.subrange(0, 8) =~= le_bytes(t1.account_id as nat, 8));
    assert(m2.subrange(0, 8) =~= le_bytes(t2.account_id as nat, 8));
    lemma_le_bytes_one_to_one(t1.account_id as nat, t2.account_id as nat, 8);
    assert(m1.subrange(8, 8 + n) =~= raw_bytes_of(t1.receiver));
    assert(m2.subrange(8, 8 + n) =~= raw_bytes_of(t2.receiver));
    assert(m1.subrange(8 + n, 16 + n) =~= le_bytes(t1.amount as nat, 8));
    assert(m2.subrange(8 + n, 16 + n) =~= le_bytes(t2.amount as nat, 8));
    lemma_le_bytes_one_to_one(t1.amount as nat, t2.amount as nat, 8);
    assert(m1.subrange(16 + n, 24 + n) =~= le_bytes(t1.nonce as nat, 8));
    assert(m2.subrange(16 + n, 24 + n) =~= le_bytes(t2.nonce as nat, 8));
    lemma_le_bytes_one_to_one(t1.nonce as nat, t2.nonce as nat, 8);
    assert(m1.skip(24 + n) =~= encode_utf8(t1.memo@));
    assert(m2.skip(24 + n) =~= encode_utf8(t2.memo@));
    encode_utf8_decode_utf8(t1.memo@);
    encode_utf8_decode_utf8(t2.memo@);
    assert(t1.memo@ == decode_utf8(encode_utf8(t1.memo@)));
}

} // verus!
