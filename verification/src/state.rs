//! The executable state of the engine and the operations on it.

use crate::changes::{added_keys, apply, changes_of, reindex, removed_keys};
use crate::id_set::id_lt;
use crate::key::{raw_bytes_of, WrappedPublicKey};
use crate::key_index::KeyIndex;
use crate::key_set::{distinct_keys, key_lt, keys_of, KeySet};
use crate::laws::{
    lemma_changed_wf, lemma_created_wf, lemma_deposited_wf, lemma_empty_wf, lemma_transferred_wf,
};
use crate::ledger::Ledger;
use crate::sorted::{ascending, lemma_take_one_more};
use crate::types::{
    key_encodings, AccountData, ChangeAccount, ChangeAccountEvent, CreateAccount,
    CreateAccountEvent, Deposit, DepositEvent, EngineError, LedgerCall, Transfer, TransferEvent,
};
use bls12_381_bls::PublicKey;
use std::collections::BTreeMap;
use vstd::prelude::*;

verus! {

broadcast use {vstd::std_specs::btree::group_btree_axioms, vstd::laws_cmp::group_laws_cmp};

/// The state consists of the balance, threshold, nonce and description of
/// each account, together with each account's keys. It also holds an index
/// of the accounts to which each key belongs.
pub struct ContractState {
    /// The record of each account, by its id.
    accounts: BTreeMap<u64, AccountData>,
    /// The keys of each account, by its id.
    account_keys: BTreeMap<u64, KeySet>,
    /// The accounts of each key.
    key_accounts: KeyIndex,
    /// How many accounts have been created: the id of the last one.
    created: u64,
}

impl View for ContractState {
    type V = Ledger;

    closed spec fn view(&self) -> Ledger {
        Ledger {
            count: self.created as nat,
            accounts: Map::new(
                |id: u64| self.accounts@.contains_key(id),
                |id: u64| self.accounts@[id]@,
            ),
            account_keys: Map::total(
                |id: u64|
                    if self.account_keys@.contains_key(id) {
                        self.account_keys@[id]@
                    } else {
                        Set::empty()
                    },
            ),
            key_accounts: self.key_accounts@,
        }
    }
}

/// The index `now` is `before` with account `id` listed for the keys in
/// `done` and for no others.
spec fn listed(before: KeyIndex, now: KeyIndex, done: Seq<Seq<u8>>, id: u64) -> bool {
    forall|k: Seq<u8>| #[trigger]
        now.accounts_of(k) == if done.contains(k) {
            before.accounts_of(k).insert(id)
        } else {
            before.accounts_of(k)
        }
}

impl Transfer {
    /// Why the ledger `l` refuses the transfer before the asset ledger is
    /// asked, if it does, where the verifier has judged the signature as
    /// `signature_valid` says.
    pub open spec fn error_in(&self, l: Ledger, signature_valid: bool) -> Option<EngineError> {
        l.transfer_error(
            self.account_id,
            self.amount,
            self.nonce,
            key_encodings(self.keys@),
            signature_valid,
        )
    }

    /// What the transfer makes of the ledger `before` and answers, given the
    /// verdicts of the verifier and of the asset ledger: a refused transfer
    /// answers with its error and leaves the ledger as it was; an accepted
    /// one takes effect and answers with the event, whose keys are the
    /// signing keys in ascending order.
    pub open spec fn outcome(
        &self,
        before: Ledger,
        signature_valid: bool,
        credited: bool,
        after: Ledger,
        r: Result<TransferEvent, EngineError>,
    ) -> bool {
        match self.error_in(before, signature_valid) {
            Some(e) => r == Err::<TransferEvent, EngineError>(e) && after == before,
            None => if credited {
                &&& after == before.transferred(self.account_id, self.amount)
                &&& r matches Ok(ev)
                &&& ev.account_id == self.account_id
                &&& ascending(key_encodings(ev.keys@), key_lt())
                &&& key_encodings(ev.keys@).to_set() == key_encodings(self.keys@).to_set()
                &&& ev.receiver == self.receiver
                &&& ev.amount == self.amount
                &&& ev.memo@ == self.memo@
            } else {
                &&& r == Err::<TransferEvent, EngineError>(EngineError::ExternalCallFailure)
                &&& after == before
            },
        }
    }
}

impl ChangeAccount {
    /// Why the ledger `l` refuses the change, if it does, where the verifier
    /// has judged the signature as `signature_valid` says.
    pub open spec fn error_in(&self, l: Ledger, signature_valid: bool) -> Option<EngineError> {
        l.change_error(
            self.account_id,
            self.nonce,
            key_encodings(self.keys@),
            signature_valid,
            changes_of(self.changes@),
        )
    }

    /// Why the ledger `l` refuses the change before any of its changes is
    /// looked at, if it does, where the verifier has judged the signature as
    /// `signature_valid` says.
    pub open spec fn signers_error_in(&self, l: Ledger, signature_valid: bool) -> Option<
        EngineError,
    > {
        l.change_signers_error(
            self.account_id,
            self.nonce,
            key_encodings(self.keys@),
            signature_valid,
        )
    }

    /// What the change makes of the ledger `before` and answers, given the
    /// verdict of the verifier: a refused change answers with its error and
    /// leaves the ledger as it was; an accepted one takes effect and answers
    /// with the event, which lists the keys added and removed in the order
    /// of the changes, and the threshold and description that result.
    pub open spec fn outcome(
        &self,
        before: Ledger,
        signature_valid: bool,
        after: Ledger,
        r: Result<ChangeAccountEvent, EngineError>,
    ) -> bool {
        match self.error_in(before, signature_valid) {
            Some(e) => r == Err::<ChangeAccountEvent, EngineError>(e) && after == before,
            None => {
                &&& after == before.changed(self.account_id, changes_of(self.changes@))
                &&& r matches Ok(ev)
                &&& ev.account_id == self.account_id
                &&& ev.added_keys@ == added_keys(self.changes@)
                &&& ev.removed_keys@ == removed_keys(self.changes@)
                &&& ev.threshold == after.record(self.account_id).threshold
                &&& ev.description@ == after.record(self.account_id).description
            },
        }
    }
}

impl ContractState {
    /// The concrete state is sound: every account has its key set, the sets
    /// and the index are in order, and the ledger it stands for is well
    /// formed.
    pub closed spec fn wf(&self) -> bool {
        &&& forall|id: u64|
            self.account_keys@.contains_key(id) <==> #[trigger] self.accounts@.contains_key(id)
        &&& forall|id: u64| #[trigger]
            self.account_keys@.contains_key(id) ==> self.account_keys@[id].wf()
        &&& self.key_accounts.wf()
        &&& self@.wf()
    }

    /// A sound state stands for a well-formed ledger.
    pub proof fn lemma_wf(&self)
        requires
            self.wf(),
        ensures
            self@.wf(),
    {
    }

    /// The state with no accounts.
    pub fn new() -> (r: ContractState)
        ensures
            r.wf(),
            r@ == Ledger::empty(),
    {
        let r = ContractState {
            accounts: BTreeMap::new(),
            account_keys: BTreeMap::new(),
            key_accounts: KeyIndex::new(),
            created: 0,
        };
        proof {
            lemma_empty_wf();
            assert(r@.accounts =~= Ledger::empty().accounts);
            assert(r@.account_keys =~= Ledger::empty().account_keys);
        }
        r
    }

    /// The number of accounts created so far.
    pub fn account_count(&self) -> (n: u64)
        ensures
            n == self@.count,
    {
        self.created
    }

    /// Returns the data of the account with the given ID, or the data of an
    /// account that has never been used if there is none.
    pub fn account(&self, id: u64) -> (r: AccountData)
        requires
            self.wf(),
        ensures
            r@ == self@.record(id),
    {
        match self.accounts.get(&id) {
            Some(account) => account.duplicate(),
            None => AccountData::empty(),
        }
    }

    /// Returns the public keys used by the account with the given ID, in
    /// ascending order of their encodings; none if there is no such account.
    pub fn account_keys(&self, id: u64) -> (r: Vec<PublicKey>)
        requires
            self.wf(),
        ensures
            ascending(key_encodings(r@), key_lt()),
            key_encodings(r@).to_set() == self@.account_keys[id],
    {
        match self.account_keys.get(&id) {
            Some(keys) => keys_of(keys),
            None => {
                let r: Vec<PublicKey> = Vec::new();
                r
            },
        }
    }

    /// Returns the IDs of the accounts by which the given public key is used,
    /// in ascending order.
    pub fn key_accounts(&self, key: &PublicKey) -> (r: Vec<u64>)
        requires
            self.wf(),
        ensures
            ascending(r@, id_lt()),
            r@.to_set() == self@.key_accounts[raw_bytes_of(*key)],
    {
        self.key_accounts.get(&WrappedPublicKey(*key))
    }

    /// Creates an account with the given public keys, and reports the new
    /// account's ID in the event.
    ///
    /// The request is refused, and nothing changes, if it names no key, a
    /// threshold of zero or above the number of keys, or a key twice; and
    /// where as many accounts exist as there are ids, for want of an id.
    pub fn create_account(&mut self, ca: CreateAccount) -> (r: Result<CreateAccountEvent, EngineError>)
        requires
            old(self).wf(),
        ensures
            final(self).wf(),
            match old(self)@.create_error(key_encodings(ca.keys@), ca.threshold) {
                Some(e) => {
                    &&& r == Err::<CreateAccountEvent, EngineError>(e)
                    &&& final(self)@ == old(self)@
                },
                None => {
                    &&& final(self)@ == old(self)@.created(
                        key_encodings(ca.keys@),
                        ca.threshold,
                        ca.description@,
                    )
                    &&& r matches Ok(ev)
                    &&& ev.account_id == old(self)@.next_id()
                    &&& ev.keys == ca.keys
                    &&& ev.threshold == ca.threshold
                    &&& ev.description@ == ca.description@
                },
            },
    {
        if ca.keys.len() < 1 {
            return Err(EngineError::InvalidArgument);
        }
        if ca.threshold < 1 {
            return Err(EngineError::InvalidArgument);
        }
        if ca.threshold as usize > ca.keys.len() {
            return Err(EngineError::InvalidArgument);
        }
        let set = match distinct_keys(&ca.keys) {
            Some(set) => set,
            None => {
                return Err(EngineError::InvalidArgument);
            },
        };
        if self.created == u64::MAX {
            return Err(EngineError::InvariantViolation);
        }
        let ghost before = *self;
        let ghost encodings = key_encodings(ca.keys@);
        let account_id = self.created + 1;
        let mut i: usize = 0;
        while i < ca.keys.len()
            invariant
                i <= ca.keys.len(),
                encodings == key_encodings(ca.keys@),
                self.accounts == before.accounts,
                self.account_keys == before.account_keys,
                self.created == before.created,
                self.key_accounts.wf(),
                listed(before.key_accounts, self.key_accounts, encodings.take(i as int), account_id),
            decreases ca.keys.len() - i,
        {
            let ghost earlier = self.key_accounts;
            self.key_accounts.add(WrappedPublicKey(ca.keys[i]), account_id);
            proof {
                lemma_take_one_more(encodings, i as int);
                assert forall|k: Seq<u8>| #[trigger]
                    self.key_accounts.accounts_of(k) == if encodings.take(i + 1).contains(k) {
                        before.key_accounts.accounts_of(k).insert(account_id)
                    } else {
                        before.key_accounts.accounts_of(k)
                    } by {
                    assert(earlier.accounts_of(k) == if encodings.take(i as int).contains(k) {
                        before.key_accounts.accounts_of(k).insert(account_id)
                    } else {
                        before.key_accounts.accounts_of(k)
                    });
                }
            }
            i += 1;
        }
        let description = ca.description.clone();
        self.account_keys.insert(account_id, set);
        self.accounts.insert(
            account_id,
            AccountData { balance: 0, threshold: ca.threshold, nonce: 0, description },
        );
        self.created = account_id;
        proof {
            assert(encodings.take(i as int) =~= encodings);
            let target = before@.created(encodings, ca.threshold, ca.description@);
            lemma_created_wf(before@, encodings, ca.threshold, ca.description@);
            assert(self@.accounts =~= target.accounts);
            assert(self@.account_keys =~= target.account_keys);
            assert(self@.key_accounts =~= target.key_accounts);
        }
        Ok(
            CreateAccountEvent {
                account_id,
                keys: ca.keys,
                threshold: ca.threshold,
                description: ca.description,
            },
        )
    }

    /// Decides whether the signers of an operation on account `id`, whose
    /// threshold is `threshold`, are distinct keys of the account and enough
    /// to meet the threshold. Gives the set of the signers if so.
    fn check_signers(&self, id: u64, threshold: u32, keys: &Vec<PublicKey>) -> (r: Result<
        KeySet,
        EngineError,
    >)
        requires
            self.wf(),
            self@.has(id),
            threshold == self@.accounts[id].threshold,
        ensures
            match r {
                Ok(set) => {
                    &&& self@.signers_error(id, key_encodings(keys@), true) is None
                    &&& set.wf()
                    &&& set@ == key_encodings(keys@).to_set()
                },
                Err(e) => forall|valid: bool|
                    #[trigger] self@.signers_error(id, key_encodings(keys@), valid) == Some(e),
            },
    {
        let ghost signers = key_encodings(keys@);
        let set = match distinct_keys(keys) {
            Some(set) => set,
            None => {
                return Err(EngineError::InvalidArgument);
            },
        };
        let authorized = self.account_keys.get(&id).unwrap();
        let mut j: usize = 0;
        while j < keys.len()
            invariant
                j <= keys.len(),
                signers == key_encodings(keys@),
                signers.no_duplicates(),
                authorized.wf(),
                authorized@ == self@.account_keys[id],
                forall|n: int| 0 <= n < j ==> authorized@.contains(#[trigger] signers[n]),
            decreases keys.len() - j,
        {
            if !authorized.contains(&WrappedPublicKey(keys[j])) {
                assert(signers.to_set().contains(signers[j as int]));
                return Err(EngineError::AuthorizationFailure);
            }
            j += 1;
        }
        if keys.len() < threshold as usize {
            return Err(EngineError::AuthorizationFailure);
        }
        Ok(set)
    }

    /// Makes the check of a deposit that comes before the asset ledger is
    /// asked: the account must exist. Answers what the asset ledger is to do.
    ///
    /// Whether the balance can take the amount is not looked at here: the
    /// asset ledger is asked for every account that exists, and `deposit`
    /// looks at the balance once the asset ledger has answered.
    pub fn check_deposit(&self, d: &Deposit) -> (r: Result<LedgerCall, EngineError>)
        requires
            self.wf(),
        ensures
            match self@.deposit_check_error(d.account_id) {
                Some(e) => r == Err::<LedgerCall, EngineError>(e),
                None => r == Ok::<LedgerCall, EngineError>(LedgerCall::Deposit { amount: d.amount }),
            },
    {
        if self.accounts.contains_key(&d.account_id) {
            Ok(LedgerCall::Deposit { amount: d.amount })
        } else {
            Err(EngineError::NotFound)
        }
    }

    /// Handles depositing an amount to the account with the given ID.
    /// `received` says whether the asset ledger took the amount in.
    ///
    /// Any party may deposit to any account: no signature is asked for, and
    /// the account's nonce stays as it is. The deposit is refused, and nothing
    /// changes, if the account does not exist; else if the asset ledger did
    /// not take the amount in; else if the balance cannot take the amount.
    pub fn deposit(&mut self, d: Deposit, received: bool) -> (r: Result<DepositEvent, EngineError>)
        requires
            old(self).wf(),
        ensures
            final(self).wf(),
            match old(self)@.deposit_error(d.account_id, d.amount, received) {
                Some(e) => r == Err::<DepositEvent, EngineError>(e) && final(self)@ == old(self)@,
                None => {
                    &&& final(self)@ == old(self)@.deposited(d.account_id, d.amount)
                    &&& r matches Ok(ev)
                    &&& ev.account_id == d.account_id
                    &&& ev.amount == d.amount
                    &&& ev.memo@ == d.memo@
                },
            },
    {
        let balance = match self.accounts.get(&d.account_id) {
            Some(account) => account.balance,
            None => {
                return Err(EngineError::NotFound);
            },
        };
        if !received {
            return Err(EngineError::ExternalCallFailure);
        }
        if d.amount > u64::MAX - balance {
            return Err(EngineError::InvalidArgument);
        }
        let ghost before = *self;
        let mut account = self.accounts.remove(&d.account_id).unwrap();
        account.balance = balance + d.amount;
        self.accounts.insert(d.account_id, account);
        proof {
            let target = before@.deposited(d.account_id, d.amount);
            lemma_deposited_wf(before@, d.account_id, d.amount);
            assert(self@.accounts =~= target.accounts);
        }
        Ok(DepositEvent { account_id: d.account_id, amount: d.amount, memo: d.memo })
    }

    /// Makes the checks of a transfer, in their order, and gives the set of
    /// the signers if all pass.
    fn transfer_verdict(&self, t: &Transfer, signature_valid: bool) -> (r: Result<
        KeySet,
        EngineError,
    >)
        requires
            self.wf(),
        ensures
            match r {
                Ok(set) => {
                    &&& t.error_in(self@, signature_valid) is None
                    &&& set.wf()
                    &&& set@ == key_encodings(t.keys@).to_set()
                },
                Err(e) => t.error_in(self@, signature_valid) == Some(e),
            },
    {
        let account = match self.accounts.get(&t.account_id) {
            Some(account) => account,
            None => {
                return Err(EngineError::NotFound);
            },
        };
        if t.amount > account.balance {
            return Err(EngineError::InsufficientFunds);
        }
        if account.nonce == u64::MAX || t.nonce != account.nonce + 1 {
            return Err(EngineError::NonceMismatch);
        }
        let set = match self.check_signers(t.account_id, account.threshold, &t.keys) {
            Ok(set) => set,
            Err(e) => {
                return Err(e);
            },
        };
        if !signature_valid {
            return Err(EngineError::AuthorizationFailure);
        }
        Ok(set)
    }

    /// Makes the checks of a transfer that come before the asset ledger is
    /// asked, with the verifier's verdict on the signature given, in this
    /// order: the account exists; its balance covers the amount; the nonce is
    /// the successor of the account's; no key signs twice; every signing key
    /// is one of the account's; the signing keys are as many as the threshold
    /// asks; the signature is valid. Answers what the asset ledger is to do.
    ///
    /// `signature_valid` is to say whether the signature is an aggregate
    /// signature of `signature_msg` by exactly the keys presented.
    pub fn check_transfer(&self, t: &Transfer, signature_valid: bool) -> (r: Result<
        LedgerCall,
        EngineError,
    >)
        requires
            self.wf(),
        ensures
            match t.error_in(self@, signature_valid) {
                Some(e) => r == Err::<LedgerCall, EngineError>(e),
                None => r == Ok::<LedgerCall, EngineError>(
                    LedgerCall::ContractToAccount { account: t.receiver, value: t.amount },
                ),
            },
    {
        match self.transfer_verdict(t, signature_valid) {
            Ok(_) => Ok(LedgerCall::ContractToAccount { account: t.receiver, value: t.amount }),
            Err(e) => Err(e),
        }
    }

    /// Transfers an amount from an account to the given account of the asset
    /// ledger, with the verdicts of the verifier and of the asset ledger
    /// given: `signature_valid` as for `check_transfer`, and `credited`
    /// to say whether the asset ledger paid the amount out.
    ///
    /// The transfer is refused, and nothing changes, if one of the checks of
    /// `check_transfer` fails or the asset ledger did not pay. Otherwise
    /// the amount leaves the balance and the nonce moves on by one.
    pub fn transfer(&mut self, t: Transfer, signature_valid: bool, credited: bool) -> (r:
        Result<TransferEvent, EngineError>)
        requires
            old(self).wf(),
        ensures
            final(self).wf(),
            t.outcome(old(self)@, signature_valid, credited, final(self)@, r),
    {
        let set = match self.transfer_verdict(&t, signature_valid) {
            Ok(set) => set,
            Err(e) => {
                return Err(e);
            },
        };
        if !credited {
            return Err(EngineError::ExternalCallFailure);
        }
        let ghost before = *self;
        let mut account = self.accounts.remove(&t.account_id).unwrap();
        account.balance = account.balance - t.amount;
        account.nonce = account.nonce + 1;
        self.accounts.insert(t.account_id, account);
        proof {
            let target = before@.transferred(t.account_id, t.amount);
            lemma_transferred_wf(
                before@,
                t.account_id,
                t.amount,
                t.nonce,
                key_encodings(t.keys@),
                signature_valid,
            );
            assert(self@.accounts =~= target.accounts);
        }
        Ok(
            TransferEvent {
                account_id: t.account_id,
                keys: keys_of(&set),
                receiver: t.receiver,
                amount: t.amount,
                memo: t.memo,
            },
        )
    }

    /// Makes the checks of a change that come before its changes are looked
    /// at, with the verifier's verdict on the signature given, in this order:
    /// the account exists; the nonce is the successor of the account's; no
    /// key signs twice; every signing key is one of the account's; the
    /// signing keys are as many as the threshold asks; the signature is
    /// valid. Keys and threshold are taken as they stand before the change.
    ///
    /// `signature_valid` is to say whether the signature is an aggregate
    /// signature of `signature_msg` by exactly the keys presented.
    pub fn check_change_account(&self, c: &ChangeAccount, signature_valid: bool) -> (r: Result<
        (),
        EngineError,
    >)
        requires
            self.wf(),
        ensures
            match c.signers_error_in(self@, signature_valid) {
                Some(e) => r == Err::<(), EngineError>(e),
                None => r == Ok::<(), EngineError>(()),
            },
    {
        let account = match self.accounts.get(&c.account_id) {
            Some(account) => account,
            None => {
                return Err(EngineError::NotFound);
            },
        };
        if account.nonce == u64::MAX || c.nonce != account.nonce + 1 {
            return Err(EngineError::NonceMismatch);
        }
        match self.check_signers(c.account_id, account.threshold, &c.keys) {
            Ok(_) => {},
            Err(e) => {
                return Err(e);
            },
        }
        if !signature_valid {
            return Err(EngineError::AuthorizationFailure);
        }
        Ok(())
    }

    /// Changes the keys, the threshold and the description of an account,
    /// with the verifier's verdict on the signature given.
    ///
    /// The checks are made in this order: the account exists; the nonce is
    /// the successor of the account's; no key signs twice; every signing key
    /// is one of the account's; the signing keys are as many as the threshold
    /// asks; the signature is valid. Keys and threshold are taken as they
    /// stand before the change. Then the changes are applied one at a time,
    /// in the order given, each to the outcome of those before it. If any
    /// check fails or any change cannot be applied, the operation is refused
    /// and nothing changes. Otherwise the account gets the outcome, the index
    /// follows, and the nonce moves on by one.
    ///
    /// `signature_valid` is to say whether the signature is an aggregate
    /// signature of `signature_msg` by exactly the keys presented.
    pub fn change_account(&mut self, c: ChangeAccount, signature_valid: bool) -> (r: Result<
        ChangeAccountEvent,
        EngineError,
    >)
        requires
            old(self).wf(),
        ensures
            final(self).wf(),
            c.outcome(old(self)@, signature_valid, final(self)@, r),
    {
        let id = c.account_id;
        match self.check_change_account(&c, signature_valid) {
            Ok(_) => {},
            Err(e) => {
                return Err(e);
            },
        }
        let ghost before = *self;
        let account = self.accounts.get(&id).unwrap();
        let done = match apply(
            self.account_keys.get(&id).unwrap().duplicate(),
            account.threshold,
            account.description.clone(),
            &c.changes,
        ) {
            Ok(done) => done,
            Err(e) => {
                return Err(e);
            },
        };
        let ghost outcome = done.config();
        reindex(&mut self.key_accounts, id, self.account_keys.get(&id).unwrap(), &done.keys);
        self.account_keys.insert(id, done.keys);
        let mut account = self.accounts.remove(&id).unwrap();
        account.threshold = done.threshold;
        account.description = done.description.clone();
        account.nonce = account.nonce + 1;
        self.accounts.insert(id, account);
        proof {
            let changes = changes_of(c.changes@);
            let target = before@.reconfigured(id, outcome);
            lemma_changed_wf(before@, id, c.nonce, key_encodings(c.keys@), signature_valid, changes);
            assert(self@.accounts =~= target.accounts);
            assert(self@.account_keys =~= target.account_keys);
            // The index lists the account for a key exactly if the account
            // held the key before, so putting it on the keys gained and
            // taking it off the keys given up is putting it on the new keys
            // and taking it off all others.
            assert forall|k: Seq<u8>| self@.key_accounts[k] == target.key_accounts[k] by {
                assert(before@.account_keys[id].contains(k) <==> before@.key_accounts[k].contains(
                    id,
                ));
            }
            assert(self@.key_accounts =~= target.key_accounts);
        }
        Ok(
            ChangeAccountEvent {
                account_id: id,
                added_keys: done.added,
                removed_keys: done.removed,
                threshold: done.threshold,
                description: done.description,
            },
        )
    }
}

} // verus!
