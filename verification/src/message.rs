//! The messages that the signers of a transfer or of a change sign: a fixed
//! concatenation of the operation's fields, numbers in little-endian order.
//! The signing keys themselves are no part of it, so that each signer can
//! sign without knowing who else will.

use crate::changes::{change_of, changes_of};
use crate::key::{raw_bytes_of, KEY_BYTES, WrappedPublicKey};
use crate::ledger::Change;
use crate::types::{AccountChange, ChangeAccount, Transfer};
use vstd::prelude::*;
use vstd::utf8::encode_utf8;

verus! {

/// Tag of a change that adds a key.
pub const ADD_KEY_TAG: u8 = 0;

/// Tag of a change that removes a key.
pub const REMOVE_KEY_TAG: u8 = 1;

/// Tag of a change that sets the threshold.
pub const SET_THRESHOLD_TAG: u8 = 2;

/// Tag of a change that sets the description.
pub const SET_DESCRIPTION_TAG: u8 = 3;

/// The `width` low-order bytes of `x`, least significant first.
pub open spec fn le_bytes(x: nat, width: nat) -> Seq<u8>
    decreases width,
{
    if width == 0 {
        Seq::empty()
    } else {
        seq![(x % 256) as u8] + le_bytes(x / 256, (width - 1) as nat)
    }
}

/// A number written in `width` bytes takes `width` bytes.
pub proof fn lemma_le_bytes_len(x: nat, width: nat)
    ensures
        le_bytes(x, width).len() == width,
    decreases width,
{
    if width > 0 {
        lemma_le_bytes_len(x / 256, (width - 1) as nat);
    }
}

/// Peeling the last byte off instead of the first.
proof fn lemma_le_bytes_push(x: nat, width: nat)
    ensures
        le_bytes(x, width + 1) == le_bytes(x, width).push((shifted(x, width) % 256) as u8),
        shifted(x, width + 1) == shifted(x, width) / 256,
    decreases width,
{
    if width == 0 {
        assert(le_bytes(x / 256, 0) =~= Seq::<u8>::empty());
    } else {
        lemma_le_bytes_push(x / 256, (width - 1) as nat);
        lemma_shifted_front(x, width);
        lemma_shifted_front(x, width + 1);
    }
}

/// `x` with its `n` low-order bytes dropped.
spec fn shifted(x: nat, n: nat) -> nat
    decreases n,
{
    if n == 0 {
        x
    } else {
        shifted(x, (n - 1) as nat) / 256
    }
}

/// Dropping `n` bytes is dropping one and then the other `n - 1`.
proof fn lemma_shifted_front(x: nat, n: nat)
    requires
        n > 0,
    ensures
        shifted(x, n) == shifted(x / 256, (n - 1) as nat),
    decreases n,
{
    if n > 1 {
        lemma_shifted_front(x, (n - 1) as nat);
    } else {
        assert(shifted(x, 0) == x);
    }
}

/// Appends the `width` low-order bytes of `x`, least significant first.
fn push_le(out: &mut Vec<u8>, x: u64, width: usize)
    requires
        width <= 8,
    ensures
        final(out)@ == old(out)@ + le_bytes(x as nat, width as nat),
{
    let mut rest: u64 = x;
    let mut i: usize = 0;
    while i < width
        invariant
            i <= width,
            rest == shifted(x as nat, i as nat),
            out@ == old(out)@ + le_bytes(x as nat, i as nat),
        decreases width - i,
    {
        proof {
            lemma_le_bytes_push(x as nat, i as nat);
        }
        out.push((rest % 256) as u8);
        rest = rest / 256;
        i += 1;
    }
}

/// Appends `bytes`.
fn push_all(out: &mut Vec<u8>, bytes: &[u8])
    ensures
        final(out)@ == old(out)@ + bytes@,
{
    let mut i: usize = 0;
    while i < bytes.len()
        invariant
            i <= bytes.len(),
            out@ == old(out)@ + bytes@.take(i as int),
        decreases bytes.len() - i,
    {
        out.push(bytes[i]);
        i += 1;
    }
}

/// Appends the raw encoding of `key`.
fn push_key(out: &mut Vec<u8>, key: &WrappedPublicKey)
    ensures
        final(out)@ == old(out)@ + key@,
        key@.len() == KEY_BYTES,
{
    let bytes = key.raw_bytes();
    let mut i: usize = 0;
    while i < KEY_BYTES
        invariant
            i <= KEY_BYTES,
            bytes@.len() == KEY_BYTES,
            out@ == old(out)@ + bytes@.take(i as int),
        decreases KEY_BYTES - i,
    {
        out.push(bytes[i]);
        i += 1;
    }
}

/// The message of a transfer: account id (8 bytes), the receiver's raw
/// encoding, amount (8 bytes), nonce (8 bytes), and the memo as UTF-8.
pub open spec fn transfer_message(t: Transfer) -> Seq<u8> {
    le_bytes(t.account_id as nat, 8) + raw_bytes_of(t.receiver) + le_bytes(t.amount as nat, 8)
        + le_bytes(t.nonce as nat, 8) + encode_utf8(t.memo@)
}

/// The bytes of one change: its tag, then the key's raw encoding, the
/// threshold (4 bytes), or the number of bytes of the description as UTF-8
/// (8 bytes) and those bytes. With the length before it, a description cannot
/// be taken for the changes that follow it.
pub open spec fn encoded(change: Change) -> Seq<u8> {
    match change {
        Change::AddKey(key) => seq![ADD_KEY_TAG] + key,
        Change::RemoveKey(key) => seq![REMOVE_KEY_TAG] + key,
        Change::SetThreshold(threshold) => seq![SET_THRESHOLD_TAG] + le_bytes(threshold as nat, 4),
        Change::SetDescription(description) => seq![SET_DESCRIPTION_TAG] + le_bytes(
            encode_utf8(description).len(),
            8,
        ) + encode_utf8(description),
    }
}

/// The keys of the change have the length of a raw encoding, and the length
/// of its description can be written in 8 bytes.
pub open spec fn well_sized(change: Change) -> bool {
    match change {
        Change::AddKey(key) => key.len() == KEY_BYTES,
        Change::RemoveKey(key) => key.len() == KEY_BYTES,
        Change::SetThreshold(_) => true,
        Change::SetDescription(description) => encode_utf8(description).len() <= u64::MAX,
    }
}

/// Every change of the list is well sized.
pub open spec fn all_well_sized(changes: Seq<Change>) -> bool {
    forall|i: int| 0 <= i < changes.len() ==> well_sized(#[trigger] changes[i])
}

/// The part of a change message that one change contributes.
pub open spec fn change_bytes(change: AccountChange) -> Seq<u8> {
    encoded(change_of(change))
}

/// What a list of changes contributes to a change message: the parts of the
/// changes, in order.
pub open spec fn changes_bytes(changes: Seq<AccountChange>) -> Seq<u8>
    decreases changes.len(),
{
    if changes.len() == 0 {
        Seq::empty()
    } else {
        changes_bytes(changes.drop_last()) + change_bytes(changes.last())
    }
}

/// The message of a change: account id (8 bytes), the changes in order, and
/// the nonce (8 bytes).
pub open spec fn change_message(c: ChangeAccount) -> Seq<u8> {
    le_bytes(c.account_id as nat, 8) + changes_bytes(c.changes@) + le_bytes(c.nonce as nat, 8)
}

impl Transfer {
    /// Returns the message that should be signed to have a valid transfer.
    /// The receiver's raw encoding has `KEY_BYTES` bytes, so that the memo
    /// begins after `24 + KEY_BYTES` bytes.
    pub fn signature_msg(&self) -> (msg: Vec<u8>)
        ensures
            msg@ == transfer_message(*self),
            raw_bytes_of(self.receiver).len() == KEY_BYTES,
            msg@.len() == 24 + KEY_BYTES + encode_utf8(self.memo@).len(),
    {
        proof {
            lemma_le_bytes_len(self.account_id as nat, 8);
            lemma_le_bytes_len(self.amount as nat, 8);
            lemma_le_bytes_len(self.nonce as nat, 8);
        }
        let mut msg: Vec<u8> = Vec::new();
        push_le(&mut msg, self.account_id, 8);
        push_key(&mut msg, &WrappedPublicKey(self.receiver));
        push_le(&mut msg, self.amount, 8);
        push_le(&mut msg, self.nonce, 8);
        push_all(&mut msg, self.memo.as_str().as_bytes());
        msg
    }
}

impl ChangeAccount {
    /// Returns the message that should be signed to have a valid change.
    /// Every key of the changes has a raw encoding of `KEY_BYTES` bytes, and
    /// the length of every description can be written in 8 bytes.
    pub fn signature_msg(&self) -> (msg: Vec<u8>)
        ensures
            msg@ == change_message(*self),
            all_well_sized(changes_of(self.changes@)),
            msg@.len() == 16 + changes_bytes(self.changes@).len(),
    {
        proof {
            lemma_le_bytes_len(self.account_id as nat, 8);
            lemma_le_bytes_len(self.nonce as nat, 8);
        }
        let mut msg: Vec<u8> = Vec::new();
        push_le(&mut msg, self.account_id, 8);
        let ghost head = msg@;
        let mut i: usize = 0;
        while i < self.changes.len()
            invariant
                i <= self.changes.len(),
                msg@ == head + changes_bytes(self.changes@.take(i as int)),
                forall|j: int| 0 <= j < i ==> well_sized(#[trigger] change_of(self.changes@[j])),
            decreases self.changes.len() - i,
        {
            proof {
                assert(self.changes@.take(i + 1).drop_last() =~= self.changes@.take(i as int));
            }
            match &self.changes[i] {
                AccountChange::AddKey { key } => {
                    msg.push(ADD_KEY_TAG);
                    push_key(&mut msg, &WrappedPublicKey(*key));
                },
                AccountChange::RemoveKey { key } => {
                    msg.push(REMOVE_KEY_TAG);
                    push_key(&mut msg, &WrappedPublicKey(*key));
                },
                AccountChange::SetThreshold { threshold } => {
                    msg.push(SET_THRESHOLD_TAG);
                    push_le(&mut msg, *threshold as u64, 4);
                },
                AccountChange::SetDescription { description } => {
                    msg.push(SET_DESCRIPTION_TAG);
                    let bytes = description.as_str().as_bytes();
                    push_le(&mut msg, bytes.len() as u64, 8);
                    push_all(&mut msg, bytes);
                },
            }
            i += 1;
        }
        assert(self.changes@.take(i as int) =~= self.changes@);
        push_le(&mut msg, self.nonce, 8);
        msg
    }
}

} // verus!
