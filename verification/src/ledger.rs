//! The ledger as a mathematical value, and what each operation decides and
//! does, stated on that value. The executable state is held to this model.

use crate::types::{AccountView, EngineError};
use vstd::prelude::*;

verus! {

/// The abstract state: the account records, the keys each account
/// authorizes, and the accounts that authorize each key. The two key maps are
/// total: an id or a key that was never seen has the empty set.
#[verifier::ext_equal]
pub struct Ledger {
    /// How many accounts have been created.
    pub count: nat,
    /// The record of every account that exists.
    pub accounts: Map<u64, AccountView>,
    /// For every id, the encodings of the keys the account authorizes.
    pub account_keys: Map<u64, Set<Seq<u8>>>,
    /// For every key encoding, the ids of the accounts that authorize it.
    pub key_accounts: Map<Seq<u8>, Set<u64>>,
}

/// The part of an account that a change operation can alter.
#[verifier::ext_equal]
pub struct Config {
    pub keys: Set<Seq<u8>>,
    pub threshold: u32,
    pub description: Seq<char>,
}

/// One change to an account, with keys given by their encodings.
pub enum Change {
    AddKey(Seq<u8>),
    RemoveKey(Seq<u8>),
    SetThreshold(u32),
    SetDescription(Seq<char>),
}

/// A configuration has finitely many keys, and its threshold is at least one
/// and at most the number of keys.
pub open spec fn config_ok(c: Config) -> bool {
    c.keys.finite() && 1 <= c.threshold <= c.keys.len()
}

/// The configuration after one change, or why the change is refused.
///
/// A key to add must be new. A key may be removed only if the keys that stay
/// are at least one and at least as many as the threshold, and only if it is
/// there. A threshold must be at least one and at most the number of keys.
pub open spec fn apply_change(c: Config, change: Change) -> Result<Config, EngineError> {
    match change {
        Change::AddKey(k) => if c.keys.contains(k) {
            Err(EngineError::InvalidArgument)
        } else {
            Ok(Config { keys: c.keys.insert(k), ..c })
        },
        Change::RemoveKey(k) => if c.keys.len() - 1 < c.threshold || c.keys.len() - 1 < 1 {
            Err(EngineError::InvariantViolation)
        } else if !c.keys.contains(k) {
            Err(EngineError::InvalidArgument)
        } else {
            Ok(Config { keys: c.keys.remove(k), ..c })
        },
        Change::SetThreshold(t) => if t < 1 {
            Err(EngineError::InvalidArgument)
        } else if t > c.keys.len() {
            Err(EngineError::InvariantViolation)
        } else {
            Ok(Config { threshold: t, ..c })
        },
        Change::SetDescription(d) => Ok(Config { description: d, ..c }),
    }
}

/// The configuration after a list of changes, each applied to the outcome of
/// those before it, or the error of the first change that is refused.
pub open spec fn apply_changes(c: Config, changes: Seq<Change>) -> Result<Config, EngineError>
    decreases changes.len(),
{
    if changes.len() == 0 {
        Ok(c)
    } else {
        match apply_changes(c, changes.drop_last()) {
            Ok(before) => apply_change(before, changes.last()),
            Err(e) => Err(e),
        }
    }
}

impl Ledger {
    /// The ledger with no accounts.
    pub open spec fn empty() -> Ledger {
        Ledger {
            count: 0,
            accounts: Map::empty(),
            account_keys: Map::total(|id: u64| Set::empty()),
            key_accounts: Map::total(|k: Seq<u8>| Set::empty()),
        }
    }

    /// Whether account `id` exists.
    pub open spec fn has(self, id: u64) -> bool {
        self.accounts.dom().contains(id)
    }

    /// The record of account `id`, or the empty record if there is no such
    /// account.
    pub open spec fn record(self, id: u64) -> AccountView {
        if self.has(id) {
            self.accounts[id]
        } else {
            AccountView::empty()
        }
    }

    /// The alterable part of account `id`.
    pub open spec fn config(self, id: u64) -> Config {
        Config {
            keys: self.account_keys[id],
            threshold: self.accounts[id].threshold,
            description: self.accounts[id].description,
        }
    }

    /// Every key is authorized by exactly the accounts that the reverse map
    /// lists for it.
    pub open spec fn index_symmetric(self) -> bool {
        forall|id: u64, k: Seq<u8>|
            #![trigger self.account_keys[id].contains(k)]
            #![trigger self.key_accounts[k].contains(id)]
            self.account_keys[id].contains(k) <==> self.key_accounts[k].contains(id)
    }

    /// Every account has a threshold of at least one and at most the number
    /// of its keys.
    pub open spec fn thresholds_met(self) -> bool {
        forall|id: u64| #[trigger] self.has(id) ==> config_ok(self.config(id))
    }

    /// The accounts are numbered from 1 to the number of accounts.
    pub open spec fn ids_sequential(self) -> bool {
        forall|id: u64| #[trigger] self.has(id) <==> 1 <= id <= self.count
    }

    /// What holds of every ledger that the operations can reach.
    pub open spec fn wf(self) -> bool {
        &&& self.count <= u64::MAX
        &&& self.ids_sequential()
        &&& self.account_keys.dom() == Set::<u64>::full()
        &&& self.key_accounts.dom() == Set::<Seq<u8>>::full()
        &&& forall|id: u64| !#[trigger] self.has(id) ==> self.account_keys[id] == Set::<Seq<u8>>::empty()
        &&& self.thresholds_met()
        &&& self.index_symmetric()
    }

    /// Whether a request to create an account is refused: it names no key, a
    /// threshold of zero or above the number of keys, or a key twice.
    pub open spec fn create_rejected(keys: Seq<Seq<u8>>, threshold: u32) -> bool {
        keys.len() < 1 || threshold < 1 || threshold > keys.len() || !keys.no_duplicates()
    }

    /// Why a request to create an account is refused, if it is: first for
    /// being malformed, then for want of an id, once as many accounts exist as
    /// there are ids.
    pub open spec fn create_error(self, keys: Seq<Seq<u8>>, threshold: u32) -> Option<EngineError> {
        if Self::create_rejected(keys, threshold) {
            Some(EngineError::InvalidArgument)
        } else if self.count >= u64::MAX {
            Some(EngineError::InvariantViolation)
        } else {
            None
        }
    }

    /// The id that the next account gets.
    pub open spec fn next_id(self) -> u64 {
        (self.count + 1) as u64
    }

    /// The ledger after an account was created with `keys`.
    pub open spec fn created(self, keys: Seq<Seq<u8>>, threshold: u32, description: Seq<char>) -> Ledger {
        let id = self.next_id();
        Ledger {
            count: self.count + 1,
            accounts: self.accounts.insert(
                id,
                AccountView { balance: 0, threshold, nonce: 0, description },
            ),
            account_keys: self.account_keys.insert(id, keys.to_set()),
            key_accounts: Map::total(
                |k: Seq<u8>|
                    if keys.to_set().contains(k) {
                        self.key_accounts[k].insert(id)
                    } else {
                        self.key_accounts[k]
                    },
            ),
        }
    }

    /// Why a deposit to account `id` is refused before the asset ledger is
    /// asked, if it is: the account does not exist. The asset ledger is asked
    /// for every account that exists.
    pub open spec fn deposit_check_error(self, id: u64) -> Option<EngineError> {
        if !self.has(id) {
            Some(EngineError::NotFound)
        } else {
            None
        }
    }

    /// Why a deposit of `amount` to account `id` is refused, if it is, where
    /// `received` says whether the asset ledger took the amount in. The
    /// checks are made in this order: the account exists; the asset ledger
    /// took the amount; the balance can take it.
    pub open spec fn deposit_error(self, id: u64, amount: u64, received: bool) -> Option<
        EngineError,
    > {
        if !self.has(id) {
            Some(EngineError::NotFound)
        } else if !received {
            Some(EngineError::ExternalCallFailure)
        } else if self.accounts[id].balance + amount > u64::MAX {
            Some(EngineError::InvalidArgument)
        } else {
            None
        }
    }

    /// The ledger after `amount` was deposited to account `id`.
    pub open spec fn deposited(self, id: u64, amount: u64) -> Ledger {
        let account = self.accounts[id];
        Ledger {
            accounts: self.accounts.insert(
                id,
                AccountView { balance: (account.balance + amount) as u64, ..account },
            ),
            ..self
        }
    }

    /// Why the signers of an operation on account `id` do not authorize it,
    /// if they do not: a key signs twice; a key is not one of the account's;
    /// fewer keys sign than the threshold asks; or the signature, as the
    /// verifier judged it, is not valid. The first of these that holds is
    /// reported.
    pub open spec fn signers_error(self, id: u64, signers: Seq<Seq<u8>>, signature_valid: bool) -> Option<
        EngineError,
    > {
        if !signers.no_duplicates() {
            Some(EngineError::InvalidArgument)
        } else if !signers.to_set().subset_of(self.account_keys[id]) {
            Some(EngineError::AuthorizationFailure)
        } else if signers.len() < self.accounts[id].threshold {
            Some(EngineError::AuthorizationFailure)
        } else if !signature_valid {
            Some(EngineError::AuthorizationFailure)
        } else {
            None
        }
    }

    /// Why a transfer is refused before the asset ledger is asked, if it is.
    /// The checks are made in this order: the account exists; the amount is
    /// covered; the nonce is the successor of the account's; the signers
    /// authorize.
    pub open spec fn transfer_error(
        self,
        id: u64,
        amount: u64,
        nonce: u64,
        signers: Seq<Seq<u8>>,
        signature_valid: bool,
    ) -> Option<EngineError> {
        if !self.has(id) {
            Some(EngineError::NotFound)
        } else if amount > self.accounts[id].balance {
            Some(EngineError::InsufficientFunds)
        } else if nonce != self.accounts[id].nonce + 1 {
            Some(EngineError::NonceMismatch)
        } else {
            self.signers_error(id, signers, signature_valid)
        }
    }

    /// The ledger after `amount` was transferred out of account `id`.
    pub open spec fn transferred(self, id: u64, amount: u64) -> Ledger {
        let account = self.accounts[id];
        Ledger {
            accounts: self.accounts.insert(
                id,
                AccountView {
                    balance: (account.balance - amount) as u64,
                    nonce: (account.nonce + 1) as u64,
                    ..account
                },
            ),
            ..self
        }
    }

    /// Why a change is refused before any of its changes is looked at, if it
    /// is. The checks are made in this order: the account exists; the nonce is
    /// the successor of the account's; the signers authorize, by the keys and
    /// the threshold as they stand before the change.
    pub open spec fn change_signers_error(
        self,
        id: u64,
        nonce: u64,
        signers: Seq<Seq<u8>>,
        signature_valid: bool,
    ) -> Option<EngineError> {
        if !self.has(id) {
            Some(EngineError::NotFound)
        } else if nonce != self.accounts[id].nonce + 1 {
            Some(EngineError::NonceMismatch)
        } else {
            self.signers_error(id, signers, signature_valid)
        }
    }

    /// Why a change is refused, if it is: for its account, nonce or signers,
    /// or else for the first of its changes that cannot be applied.
    pub open spec fn change_error(
        self,
        id: u64,
        nonce: u64,
        signers: Seq<Seq<u8>>,
        signature_valid: bool,
        changes: Seq<Change>,
    ) -> Option<EngineError> {
        match self.change_signers_error(id, nonce, signers, signature_valid) {
            Some(e) => Some(e),
            None => match apply_changes(self.config(id), changes) {
                Ok(_) => None,
                Err(e) => Some(e),
            },
        }
    }

    /// The ledger after account `id` was given the configuration `c`.
    pub open spec fn reconfigured(self, id: u64, c: Config) -> Ledger {
        let account = self.accounts[id];
        Ledger {
            count: self.count,
            accounts: self.accounts.insert(
                id,
                AccountView {
                    balance: account.balance,
                    threshold: c.threshold,
                    nonce: (account.nonce + 1) as u64,
                    description: c.description,
                },
            ),
            account_keys: self.account_keys.insert(id, c.keys),
            key_accounts: Map::total(
                |k: Seq<u8>|
                    if c.keys.contains(k) {
                        self.key_accounts[k].insert(id)
                    } else {
                        self.key_accounts[k].remove(id)
                    },
            ),
        }
    }

    /// The ledger after the changes of a change operation took effect.
    pub open spec fn changed(self, id: u64, changes: Seq<Change>) -> Ledger {
        self.reconfigured(id, apply_changes(self.config(id), changes).unwrap())
    }
}

} // verus!
