//! The requests the ledger accepts, the records it keeps, the events it
//! reports and the errors it answers with.

use crate::key::raw_bytes_of;
use bls12_381_bls::{MultisigSignature, PublicKey};
use vstd::prelude::*;

verus! {

/// An aggregate signature of several keys on one message. Opaque here: it is
/// only handed to the verifier.
#[verifier::external_type_specification]
#[verifier::external_body]
pub struct ExMultisigSignature(MultisigSignature);

/// `MultisigSignature` is `Copy`, and its `clone` is the copy.
pub assume_specification[ <MultisigSignature as Clone>::clone ](
    signature: &MultisigSignature,
) -> (r: MultisigSignature)
    ensures
        r == *signature,
;

/// Why an operation was refused. A refused operation leaves the ledger as it
/// was.
#[derive(Clone, Copy, Debug, PartialEq, Eq, Structural)]
pub enum EngineError {
    /// The account named does not exist.
    NotFound,
    /// The request is malformed: no keys, a threshold of zero or above the
    /// number of keys, a key given twice, a key to add that is already there,
    /// a key to remove that is not, or an amount that the balance cannot
    /// take.
    InvalidArgument,
    /// The amount to transfer exceeds the balance.
    InsufficientFunds,
    /// The nonce presented is not the account's nonce plus one.
    NonceMismatch,
    /// A signing key is not authorized, too few keys signed, or the signature
    /// does not verify.
    AuthorizationFailure,
    /// A change would leave the account with fewer keys than its threshold,
    /// or no id is left for a new account.
    InvariantViolation,
    /// The asset ledger did not carry out its part.
    ExternalCallFailure,
}

/// The encodings of a sequence of public keys, in the same order.
pub open spec fn key_encodings(keys: Seq<PublicKey>) -> Seq<Seq<u8>> {
    Seq::new(keys.len(), |i: int| raw_bytes_of(keys[i]))
}

/// Used to create multisig accounts.
#[derive(Debug, Clone, PartialEq, Eq)]
pub struct CreateAccount {
    /// Keys to be owned by the account.
    pub keys: Vec<PublicKey>,
    /// Number of keys that need to sign to effect an operation.
    pub threshold: u32,
    /// Free-form text about the account.
    pub description: String,
}

/// Used to deposit to a multisig account.
#[derive(Debug, Clone, PartialEq, Eq)]
pub struct Deposit {
    /// The account to deposit to.
    pub account_id: u64,
    /// The amount to deposit.
    pub amount: u64,
    /// Memo to include in the deposit.
    pub memo: String,
}

/// Used to transfer funds from an account to an account of the asset ledger.
#[derive(Debug, Clone, PartialEq, Eq)]
pub struct Transfer {
    /// The ID of the account to transfer from.
    pub account_id: u64,
    /// The keys used to sign the transfer.
    pub keys: Vec<PublicKey>,
    /// The signature of the transfer.
    pub signature: MultisigSignature,
    /// The account of the asset ledger to transfer the amount to.
    pub receiver: PublicKey,
    /// The amount to transfer.
    pub amount: u64,
    /// The nonce used for the transfer.
    pub nonce: u64,
    /// Memo to include with the transfer.
    pub memo: String,
}

/// The kind of change to be made to an account.
#[derive(Debug, Clone, PartialEq, Eq)]
pub enum AccountChange {
    /// Add a key to the account.
    AddKey { key: PublicKey },
    /// Remove a key from an account.
    RemoveKey { key: PublicKey },
    /// Set number of keys needed to effect an operation.
    SetThreshold { threshold: u32 },
    /// Replace the account's description.
    SetDescription { description: String },
}

/// Used to perform changes to an account.
#[derive(Debug, Clone, PartialEq, Eq)]
pub struct ChangeAccount {
    /// The account to change.
    pub account_id: u64,
    /// Keys used to sign the change.
    pub keys: Vec<PublicKey>,
    /// The signature of the change.
    pub signature: MultisigSignature,
    /// List of changes to apply to the account, in order.
    pub changes: Vec<AccountChange>,
    /// The nonce used for the change.
    pub nonce: u64,
}

/// The data about a given account.
#[derive(Debug, Clone, PartialEq, Eq)]
pub struct AccountData {
    /// The balance the account holds.
    pub balance: u64,
    /// Number of keys that need to sign to effect an operation.
    pub threshold: u32,
    /// The current nonce of the account.
    pub nonce: u64,
    /// Free-form text about the account.
    pub description: String,
}

/// An account record as a mathematical value.
pub struct AccountView {
    pub balance: u64,
    pub threshold: u32,
    pub nonce: u64,
    pub description: Seq<char>,
}

impl View for AccountData {
    type V = AccountView;

    open spec fn view(&self) -> AccountView {
        AccountView {
            balance: self.balance,
            threshold: self.threshold,
            nonce: self.nonce,
            description: self.description@,
        }
    }
}

impl AccountView {
    /// The record of an account that has never been used.
    pub open spec fn empty() -> AccountView {
        AccountView { balance: 0, threshold: 0, nonce: 0, description: Seq::empty() }
    }
}

impl AccountData {
    /// An account that has never been used.
    pub fn empty() -> (r: AccountData)
        ensures
            r@ == AccountView::empty(),
    {
        AccountData { balance: 0, threshold: 0, nonce: 0, description: String::new() }
    }

    /// A copy of the record.
    pub fn duplicate(&self) -> (r: AccountData)
        ensures
            r@ == self@,
    {
        AccountData {
            balance: self.balance,
            threshold: self.threshold,
            nonce: self.nonce,
            description: self.description.clone(),
        }
    }
}

/// Event emitted upon a successful account creation.
#[derive(Debug, Clone, PartialEq, Eq)]
pub struct CreateAccountEvent {
    /// The ID of the account created.
    pub account_id: u64,
    /// Keys used by the account.
    pub keys: Vec<PublicKey>,
    /// Number of keys that need to sign to effect an operation.
    pub threshold: u32,
    /// The account's description.
    pub description: String,
}

/// Event emitted upon a successful deposit.
#[derive(Debug, Clone, PartialEq, Eq)]
pub struct DepositEvent {
    /// The account deposited to.
    pub account_id: u64,
    /// Amount deposited.
    pub amount: u64,
    /// Memo included with the deposit.
    pub memo: String,
}

/// Event emitted upon a successful transfer.
#[derive(Debug, Clone, PartialEq, Eq)]
pub struct TransferEvent {
    /// The account that transferred.
    pub account_id: u64,
    /// Keys used to sign the transfer, each once, in ascending byte order.
    pub keys: Vec<PublicKey>,
    /// The receiver of the funds.
    pub receiver: PublicKey,
    /// Amount transferred.
    pub amount: u64,
    /// Memo included with the transfer.
    pub memo: String,
}

/// Event emitted upon a successful account change.
#[derive(Debug, Clone, PartialEq, Eq)]
pub struct ChangeAccountEvent {
    /// The account that changed.
    pub account_id: u64,
    /// Keys added during the change, in the order of the changes.
    pub added_keys: Vec<PublicKey>,
    /// Keys removed during the change, in the order of the changes.
    pub removed_keys: Vec<PublicKey>,
    /// Threshold after the change.
    pub threshold: u32,
    /// Description after the change.
    pub description: String,
}

/// What the asset ledger is to do before an operation takes effect.
#[derive(Debug, Clone, PartialEq, Eq)]
pub enum LedgerCall {
    /// Take the deposited amount into the engine's custody.
    Deposit { amount: u64 },
    /// Pay `value` out of the engine's custody to `account`.
    ContractToAccount { account: PublicKey, value: u64 },
}

} // verus!
