use bls12_381_bls::{MultisigPublicKey, MultisigSignature, PublicKey, SecretKey};
use multisig_contract::key::{KeyOrder, WrappedPublicKey};
use multisig_contract::state::ContractState;
use multisig_contract::types::{
    AccountChange, AccountData, ChangeAccount, ChangeAccountEvent, CreateAccount, Deposit,
    EngineError, LedgerCall, Transfer, TransferEvent,
};
use rand::rngs::StdRng;
use rand::SeedableRng;

fn keypairs(n: usize, seed: u64) -> (Vec<SecretKey>, Vec<PublicKey>) {
    let mut rng = StdRng::seed_from_u64(seed);
    let mut sks = Vec::new();
    let mut pks = Vec::new();
    for _ in 0..n {
        let sk = SecretKey::random(&mut rng);
        pks.push(PublicKey::from(&sk));
        sks.push(sk);
    }
    (sks, pks)
}

fn sign(msg: &[u8], sks: &[SecretKey], pks: &[PublicKey], who: &[usize]) -> MultisigSignature {
    let first = who[0];
    let mut signature = sks[first].sign_multisig(&pks[first], msg);
    for &i in &who[1..] {
        let s = sks[i].sign_multisig(&pks[i], msg);
        signature = signature.aggregate(&[s]);
    }
    signature
}

fn signed_transfer(
    sks: &[SecretKey],
    pks: &[PublicKey],
    who: &[usize],
    account_id: u64,
    receiver: PublicKey,
    amount: u64,
    nonce: u64,
    memo: &str,
) -> Transfer {
    let mut t = Transfer {
        account_id,
        keys: who.iter().map(|&i| pks[i]).collect(),
        signature: MultisigSignature::default(),
        receiver,
        amount,
        nonce,
        memo: String::from(memo),
    };
    if !who.is_empty() {
        t.signature = sign(&t.signature_msg(), sks, pks, who);
    }
    t
}

fn signed_change(
    sks: &[SecretKey],
    pks: &[PublicKey],
    who: &[usize],
    account_id: u64,
    changes: Vec<AccountChange>,
    nonce: u64,
) -> ChangeAccount {
    let mut c = ChangeAccount {
        account_id,
        keys: who.iter().map(|&i| pks[i]).collect(),
        signature: MultisigSignature::default(),
        changes,
        nonce,
    };
    if !who.is_empty() {
        c.signature = sign(&c.signature_msg(), sks, pks, who);
    }
    c
}

/// The verifier that the engine's caller brings: whether the signature is an
/// aggregate signature of the message by exactly these keys.
fn signature_valid(msg: &[u8], keys: &[PublicKey], signature: &MultisigSignature) -> bool {
    match MultisigPublicKey::aggregate(keys) {
        Ok(key) => key.verify(signature, msg).is_ok(),
        Err(_) => false,
    }
}

/// Checks a transfer as a caller does: the verifier is asked only if the
/// transfer passes the checks that come before the signature.
fn check_transfer(state: &ContractState, t: &Transfer) -> Result<LedgerCall, EngineError> {
    state.check_transfer(t, true)?;
    state.check_transfer(t, signature_valid(&t.signature_msg(), &t.keys, &t.signature))
}

fn transfer(
    state: &mut ContractState,
    t: Transfer,
    credited: bool,
) -> Result<TransferEvent, EngineError> {
    let valid = match state.check_transfer(&t, true) {
        Ok(_) => signature_valid(&t.signature_msg(), &t.keys, &t.signature),
        Err(_) => true,
    };
    state.transfer(t, valid, credited)
}

fn change_account(
    state: &mut ContractState,
    c: ChangeAccount,
) -> Result<ChangeAccountEvent, EngineError> {
    let valid = match state.check_change_account(&c, true) {
        Ok(()) => signature_valid(&c.signature_msg(), &c.keys, &c.signature),
        Err(_) => true,
    };
    state.change_account(c, valid)
}

fn create(state: &mut ContractState, keys: &[PublicKey], threshold: u32, description: &str) -> u64 {
    state
        .create_account(CreateAccount {
            keys: keys.to_vec(),
            threshold,
            description: String::from(description),
        })
        .expect("the account should be created")
        .account_id
}

fn fund(state: &mut ContractState, account_id: u64, amount: u64) {
    let d = Deposit { account_id, amount, memo: String::from("fund") };
    assert_eq!(state.check_deposit(&d), Ok(LedgerCall::Deposit { amount }));
    state.deposit(d, true).expect("the deposit should be accepted");
}

fn raw(key: &PublicKey) -> Vec<u8> {
    key.to_raw_bytes().to_vec()
}

fn sorted_by_encoding(keys: &[PublicKey]) -> Vec<PublicKey> {
    let mut sorted = keys.to_vec();
    sorted.sort_by(|a, b| a.to_raw_bytes().cmp(&b.to_raw_bytes()));
    sorted
}

/// The two key maps list each other, for the given accounts and keys.
fn assert_index_symmetric(state: &ContractState, ids: &[u64], keys: &[PublicKey]) {
    for &id in ids {
        let of_account = state.account_keys(id);
        for key in keys {
            let in_account = of_account.iter().any(|k| k == key);
            let in_index = state.key_accounts(key).contains(&id);
            assert_eq!(in_account, in_index);
        }
    }
}

fn snapshot(state: &ContractState, ids: &[u64], keys: &[PublicKey]) -> Vec<String> {
    let mut out = Vec::new();
    for &id in ids {
        out.push(format!("{:?}", state.account(id)));
        out.push(format!("{:?}", state.account_keys(id)));
    }
    for key in keys {
        out.push(format!("{:?}", state.key_accounts(key)));
    }
    out.push(format!("{}", state.account_count()));
    out
}

#[test]
fn deposit_then_transfer_with_two_of_four_keys() {
    let (sks, pks) = keypairs(5, 1);
    let receiver = pks[4];
    let mut state = ContractState::new();
    let id = create(&mut state, &pks[..4], 2, "ops");
    assert_eq!(id, 1);

    let d = Deposit { account_id: id, amount: 1000, memo: String::from("m") };
    let ev = state.deposit(d, true).unwrap();
    assert_eq!((ev.account_id, ev.amount, ev.memo.as_str()), (1, 1000, "m"));
    assert_eq!(state.account(id).balance, 1000);
    assert_eq!(state.account(id).nonce, 0);

    let t = signed_transfer(&sks, &pks, &[0, 1], id, receiver, 400, 1, "rent");
    assert_eq!(
        check_transfer(&state, &t),
        Ok(LedgerCall::ContractToAccount { account: receiver, value: 400 })
    );
    let ev = transfer(&mut state, t, true).unwrap();
    assert_eq!(ev.account_id, 1);
    assert_eq!(ev.keys, sorted_by_encoding(&pks[..2]));
    assert_eq!(ev.receiver, receiver);
    assert_eq!(ev.amount, 400);
    assert_eq!(ev.memo, "rent");

    let account = state.account(id);
    assert_eq!(account.balance, 600);
    assert_eq!(account.nonce, 1);
    assert_eq!(account.threshold, 2);
    assert_eq!(account.description, "ops");
}

#[test]
fn replayed_transfer_is_refused_for_its_nonce() {
    let (sks, pks) = keypairs(5, 2);
    let mut state = ContractState::new();
    let id = create(&mut state, &pks[..4], 2, "ops");
    fund(&mut state, id, 1000);
    let t = signed_transfer(&sks, &pks, &[0, 1], id, pks[4], 400, 1, "rent");
    transfer(&mut state, t.clone(), true).unwrap();

    assert_eq!(check_transfer(&state, &t), Err(EngineError::NonceMismatch));
    assert_eq!(transfer(&mut state, t.clone(), true), Err(EngineError::NonceMismatch));
    assert_eq!(state.account(id).balance, 600);
    assert_eq!(state.account(id).nonce, 1);

    // The signature plays no part in it.
    let mut forged = t;
    forged.signature = MultisigSignature::default();
    assert_eq!(transfer(&mut state, forged, true), Err(EngineError::NonceMismatch));
}

#[test]
fn replay_that_the_balance_no_longer_covers_is_refused_for_the_funds() {
    let (sks, pks) = keypairs(3, 3);
    let mut state = ContractState::new();
    let id = create(&mut state, &pks[..2], 1, "");
    fund(&mut state, id, 600);
    let t = signed_transfer(&sks, &pks, &[0], id, pks[2], 400, 1, "");
    transfer(&mut state, t.clone(), true).unwrap();
    assert_eq!(transfer(&mut state, t, true), Err(EngineError::InsufficientFunds));
    assert_eq!(state.account(id).balance, 200);
}

#[test]
fn keys_can_be_removed_down_to_the_threshold_and_no_further() {
    let (sks, pks) = keypairs(4, 4);
    let mut state = ContractState::new();
    let id = create(&mut state, &pks, 2, "ops");

    let c = signed_change(
        &sks,
        &pks,
        &[0, 1],
        id,
        vec![AccountChange::RemoveKey { key: pks[2] }],
        1,
    );
    let ev = change_account(&mut state, c).unwrap();
    assert_eq!(ev.account_id, id);
    assert_eq!(ev.added_keys, vec![]);
    assert_eq!(ev.removed_keys, vec![pks[2]]);
    assert_eq!(ev.threshold, 2);
    assert_eq!(ev.description, "ops");
    assert!(state.key_accounts(&pks[2]).is_empty());
    assert_eq!(state.account_keys(id).len(), 3);
    assert_eq!(state.account(id).nonce, 1);

    let c = signed_change(
        &sks,
        &pks,
        &[0, 1],
        id,
        vec![AccountChange::RemoveKey { key: pks[3] }],
        2,
    );
    change_account(&mut state, c).unwrap();
    assert_eq!(state.account_keys(id), sorted_by_encoding(&pks[..2]));
    assert_eq!(state.account(id).nonce, 2);

    let before = snapshot(&state, &[id], &pks);
    let c = signed_change(
        &sks,
        &pks,
        &[0, 1],
        id,
        vec![AccountChange::RemoveKey { key: pks[1] }],
        3,
    );
    assert_eq!(change_account(&mut state, c), Err(EngineError::InvariantViolation));
    assert_eq!(snapshot(&state, &[id], &pks), before);
    assert_index_symmetric(&state, &[id], &pks);
}

#[test]
fn refused_creation_uses_up_no_id() {
    let (_, pks) = keypairs(3, 5);
    let mut state = ContractState::new();
    let r = state.create_account(CreateAccount {
        keys: pks[..2].to_vec(),
        threshold: 3,
        description: String::new(),
    });
    assert_eq!(r, Err(EngineError::InvalidArgument));
    assert_eq!(state.account_count(), 0);
    assert_eq!(create(&mut state, &pks, 3, "first"), 1);
}

#[test]
fn ids_are_given_out_in_order_from_one() {
    let (_, pks) = keypairs(3, 6);
    let mut state = ContractState::new();
    for expected in 1..=5u64 {
        let ev = state
            .create_account(CreateAccount {
                keys: pks.clone(),
                threshold: 1,
                description: format!("account {}", expected),
            })
            .unwrap();
        assert_eq!(ev.account_id, expected);
        assert_eq!(ev.keys, pks);
        assert_eq!(ev.threshold, 1);
        assert_eq!(ev.description, format!("account {}", expected));
        assert_eq!(state.account_count(), expected);
    }
    for key in &pks {
        assert_eq!(state.key_accounts(key), vec![1, 2, 3, 4, 5]);
    }
    assert_index_symmetric(&state, &[1, 2, 3, 4, 5, 6], &pks);
}

#[test]
fn creation_is_refused_for_malformed_requests() {
    let (_, pks) = keypairs(2, 7);
    let mut state = ContractState::new();
    let mut attempt = |keys: Vec<PublicKey>, threshold: u32| {
        state.create_account(CreateAccount { keys, threshold, description: String::from("x") })
    };
    assert_eq!(attempt(vec![], 0), Err(EngineError::InvalidArgument));
    assert_eq!(attempt(vec![], 1), Err(EngineError::InvalidArgument));
    assert_eq!(attempt(pks.clone(), 0), Err(EngineError::InvalidArgument));
    assert_eq!(attempt(pks.clone(), 3), Err(EngineError::InvalidArgument));
    assert_eq!(attempt(vec![pks[0], pks[1], pks[0]], 2), Err(EngineError::InvalidArgument));
    assert!(attempt(pks.clone(), 2).is_ok());
    assert_eq!(state.account_count(), 1);
    assert_eq!(state.key_accounts(&pks[0]), vec![1]);
}

#[test]
fn unknown_accounts_read_as_empty() {
    let (_, pks) = keypairs(1, 8);
    let state = ContractState::new();
    let empty = AccountData { balance: 0, threshold: 0, nonce: 0, description: String::new() };
    assert_eq!(state.account(0), empty);
    assert_eq!(state.account(1), empty);
    assert_eq!(state.account(u64::MAX), empty);
    assert_eq!(AccountData::empty(), empty);
    assert!(state.account_keys(0).is_empty());
    assert!(state.account_keys(7).is_empty());
    assert!(state.key_accounts(&pks[0]).is_empty());
}

#[test]
fn deposit_needs_the_account_and_the_asset_ledger() {
    let (_, pks) = keypairs(1, 9);
    let mut state = ContractState::new();
    let id = create(&mut state, &pks, 1, "");

    let d = Deposit { account_id: 2, amount: 5, memo: String::new() };
    assert_eq!(state.check_deposit(&d), Err(EngineError::NotFound));
    assert_eq!(state.deposit(d.clone(), true), Err(EngineError::NotFound));
    assert_eq!(state.deposit(d, false), Err(EngineError::NotFound));
    let d = Deposit { account_id: 0, amount: 5, memo: String::new() };
    assert_eq!(state.deposit(d, true), Err(EngineError::NotFound));

    let d = Deposit { account_id: id, amount: 5, memo: String::new() };
    assert_eq!(state.deposit(d.clone(), false), Err(EngineError::ExternalCallFailure));
    assert_eq!(state.account(id).balance, 0);
    state.deposit(d.clone(), true).unwrap();
    state.deposit(d, true).unwrap();
    assert_eq!(state.account(id).balance, 10);
    assert_eq!(state.account(id).nonce, 0);
}

#[test]
fn transfer_checks_come_in_their_order() {
    let (sks, pks) = keypairs(6, 10);
    let outsider = 4;
    let receiver = pks[5];
    let mut state = ContractState::new();
    let id = create(&mut state, &pks[..4], 2, "");
    fund(&mut state, id, 100);
    let before = snapshot(&state, &[id], &pks);

    // No such account, whatever else is wrong.
    let t = signed_transfer(&sks, &pks, &[0, 0], 9, receiver, 1000, 7, "");
    assert_eq!(transfer(&mut state, t, true), Err(EngineError::NotFound));
    // Funds before nonce.
    let t = signed_transfer(&sks, &pks, &[0, 1], id, receiver, 101, 2, "");
    assert_eq!(transfer(&mut state, t, true), Err(EngineError::InsufficientFunds));
    // Nonce before signers: too far ahead, and not moved at all.
    let t = signed_transfer(&sks, &pks, &[0, 0], id, receiver, 100, 2, "");
    assert_eq!(transfer(&mut state, t, true), Err(EngineError::NonceMismatch));
    let t = signed_transfer(&sks, &pks, &[0, 1], id, receiver, 100, 0, "");
    assert_eq!(transfer(&mut state, t, true), Err(EngineError::NonceMismatch));
    // A key twice before a key that is not the account's.
    let t = signed_transfer(&sks, &pks, &[outsider, 0, 0], id, receiver, 100, 1, "");
    assert_eq!(transfer(&mut state, t, true), Err(EngineError::InvalidArgument));
    // A key that is not the account's.
    let t = signed_transfer(&sks, &pks, &[0, 1, outsider], id, receiver, 100, 1, "");
    assert_eq!(transfer(&mut state, t, true), Err(EngineError::AuthorizationFailure));
    // Too few keys.
    let t = signed_transfer(&sks, &pks, &[0], id, receiver, 100, 1, "");
    assert_eq!(transfer(&mut state, t, true), Err(EngineError::AuthorizationFailure));
    let t = signed_transfer(&sks, &pks, &[], id, receiver, 100, 1, "");
    assert_eq!(transfer(&mut state, t, true), Err(EngineError::AuthorizationFailure));
    // A signature of another message.
    let mut t = signed_transfer(&sks, &pks, &[0, 1], id, receiver, 100, 1, "");
    t.amount = 99;
    assert_eq!(check_transfer(&state, &t), Err(EngineError::AuthorizationFailure));
    assert_eq!(transfer(&mut state, t, true), Err(EngineError::AuthorizationFailure));
    // A signature by other keys than those presented.
    let mut t = signed_transfer(&sks, &pks, &[0, 1], id, receiver, 100, 1, "");
    t.keys = vec![pks[0], pks[2]];
    assert_eq!(transfer(&mut state, t, true), Err(EngineError::AuthorizationFailure));
    // All in order, but the asset ledger does not pay.
    let t = signed_transfer(&sks, &pks, &[2, 1, 3], id, receiver, 100, 1, "");
    assert_eq!(transfer(&mut state, t.clone(), false), Err(EngineError::ExternalCallFailure));

    assert_eq!(snapshot(&state, &[id], &pks), before);

    let ev = transfer(&mut state, t, true).unwrap();
    assert_eq!(ev.keys, sorted_by_encoding(&pks[1..4]));
    assert_eq!(state.account(id).balance, 0);
    assert_eq!(state.account(id).nonce, 1);
}

#[test]
fn change_checks_come_in_their_order() {
    let (sks, pks) = keypairs(5, 11);
    let outsider = 4;
    let mut state = ContractState::new();
    let id = create(&mut state, &pks[..4], 2, "before");
    let before = snapshot(&state, &[id], &pks);
    let bad = vec![AccountChange::SetThreshold { threshold: 9 }];

    let c = signed_change(&sks, &pks, &[0, 0], 2, bad.clone(), 5);
    assert_eq!(change_account(&mut state, c), Err(EngineError::NotFound));
    let c = signed_change(&sks, &pks, &[0, 0], id, bad.clone(), 2);
    assert_eq!(change_account(&mut state, c), Err(EngineError::NonceMismatch));
    let c = signed_change(&sks, &pks, &[outsider, 1, 1], id, bad.clone(), 1);
    assert_eq!(change_account(&mut state, c), Err(EngineError::InvalidArgument));
    let c = signed_change(&sks, &pks, &[outsider, 1], id, bad.clone(), 1);
    assert_eq!(change_account(&mut state, c), Err(EngineError::AuthorizationFailure));
    let c = signed_change(&sks, &pks, &[3], id, bad.clone(), 1);
    assert_eq!(change_account(&mut state, c), Err(EngineError::AuthorizationFailure));
    let mut c = signed_change(&sks, &pks, &[0, 1], id, bad.clone(), 1);
    c.changes = vec![AccountChange::SetThreshold { threshold: 1 }];
    assert_eq!(change_account(&mut state, c), Err(EngineError::AuthorizationFailure));
    let c = signed_change(&sks, &pks, &[0, 1], id, bad, 1);
    assert_eq!(change_account(&mut state, c), Err(EngineError::InvariantViolation));

    assert_eq!(snapshot(&state, &[id], &pks), before);
}

#[test]
fn each_change_is_held_to_the_outcome_of_those_before_it() {
    let (sks, pks) = keypairs(6, 12);
    let mut state = ContractState::new();
    let id = create(&mut state, &pks[..3], 2, "before");
    let before = snapshot(&state, &[id], &pks);
    let mut refused = |changes: Vec<AccountChange>| {
        let c = signed_change(&sks, &pks, &[0, 1], id, changes, 1);
        let r = change_account(&mut state, c);
        assert_eq!(snapshot(&state, &[id], &pks), before);
        r.unwrap_err()
    };

    // A key that is there cannot be added, one that is not cannot be removed.
    assert_eq!(
        refused(vec![AccountChange::AddKey { key: pks[1] }]),
        EngineError::InvalidArgument
    );
    assert_eq!(
        refused(vec![AccountChange::RemoveKey { key: pks[4] }]),
        EngineError::InvalidArgument
    );
    assert_eq!(
        refused(vec![
            AccountChange::AddKey { key: pks[3] },
            AccountChange::AddKey { key: pks[3] },
        ]),
        EngineError::InvalidArgument
    );
    // The threshold is held to the keys as they stand when it is set.
    assert_eq!(
        refused(vec![AccountChange::SetThreshold { threshold: 0 }]),
        EngineError::InvalidArgument
    );
    assert_eq!(
        refused(vec![AccountChange::SetThreshold { threshold: 4 }]),
        EngineError::InvariantViolation
    );
    assert_eq!(
        refused(vec![
            AccountChange::SetThreshold { threshold: 4 },
            AccountChange::AddKey { key: pks[3] },
        ]),
        EngineError::InvariantViolation
    );
    assert_eq!(
        refused(vec![
            AccountChange::RemoveKey { key: pks[2] },
            AccountChange::SetThreshold { threshold: 3 },
        ]),
        EngineError::InvariantViolation
    );
    // A removal is held to the threshold as it stands then, before the key
    // is looked for.
    assert_eq!(
        refused(vec![
            AccountChange::SetThreshold { threshold: 3 },
            AccountChange::RemoveKey { key: pks[4] },
        ]),
        EngineError::InvariantViolation
    );
    assert_eq!(
        refused(vec![
            AccountChange::SetDescription { description: String::from("lost") },
            AccountChange::RemoveKey { key: pks[0] },
            AccountChange::RemoveKey { key: pks[1] },
        ]),
        EngineError::InvariantViolation
    );
    // The last key cannot go, whatever the threshold.
    assert_eq!(
        refused(vec![
            AccountChange::SetThreshold { threshold: 1 },
            AccountChange::RemoveKey { key: pks[0] },
            AccountChange::RemoveKey { key: pks[1] },
            AccountChange::RemoveKey { key: pks[2] },
        ]),
        EngineError::InvariantViolation
    );

    // The same steps in an order that works.
    let c = signed_change(
        &sks,
        &pks,
        &[0, 1],
        id,
        vec![
            AccountChange::AddKey { key: pks[3] },
            AccountChange::SetThreshold { threshold: 4 },
            AccountChange::SetThreshold { threshold: 1 },
            AccountChange::RemoveKey { key: pks[0] },
            AccountChange::RemoveKey { key: pks[3] },
            AccountChange::AddKey { key: pks[4] },
            AccountChange::AddKey { key: pks[3] },
            AccountChange::SetDescription { description: String::from("draft") },
            AccountChange::SetDescription { description: String::from("after") },
            AccountChange::SetThreshold { threshold: 3 },
        ],
        1,
    );
    let ev = change_account(&mut state, c).unwrap();
    assert_eq!(ev.added_keys, vec![pks[3], pks[4], pks[3]]);
    assert_eq!(ev.removed_keys, vec![pks[0], pks[3]]);
    assert_eq!(ev.threshold, 3);
    assert_eq!(ev.description, "after");
    let account = state.account(id);
    assert_eq!(
        account,
        AccountData { balance: 0, threshold: 3, nonce: 1, description: String::from("after") }
    );
    assert_eq!(
        state.account_keys(id),
        sorted_by_encoding(&[pks[1], pks[2], pks[3], pks[4]])
    );
    assert!(state.key_accounts(&pks[0]).is_empty());
    assert_eq!(state.key_accounts(&pks[4]), vec![id]);
    assert_index_symmetric(&state, &[id], &pks);

    // The old keys no longer authorize, the new ones do.
    let c = signed_change(&sks, &pks, &[0, 1, 2], id, vec![], 2);
    assert_eq!(change_account(&mut state, c), Err(EngineError::AuthorizationFailure));
    let c = signed_change(&sks, &pks, &[4, 1, 2], id, vec![], 2);
    let ev = change_account(&mut state, c).unwrap();
    assert_eq!((ev.added_keys.len(), ev.removed_keys.len()), (0, 0));
    assert_eq!(state.account(id).nonce, 2);
}

#[test]
fn a_key_may_serve_several_accounts() {
    let (sks, pks) = keypairs(4, 13);
    let mut state = ContractState::new();
    let a = create(&mut state, &[pks[0], pks[1]], 1, "a");
    let b = create(&mut state, &[pks[1], pks[2]], 2, "b");
    let c = create(&mut state, &[pks[2], pks[0], pks[1]], 3, "c");
    assert_eq!((a, b, c), (1, 2, 3));
    assert_eq!(state.key_accounts(&pks[0]), vec![1, 3]);
    assert_eq!(state.key_accounts(&pks[1]), vec![1, 2, 3]);
    assert_eq!(state.key_accounts(&pks[2]), vec![2, 3]);
    assert!(state.key_accounts(&pks[3]).is_empty());
    assert_index_symmetric(&state, &[0, 1, 2, 3, 4], &pks);

    // An older account takes up a key that later ones hold already.
    let change = signed_change(
        &sks,
        &pks,
        &[1],
        a,
        vec![
            AccountChange::AddKey { key: pks[2] },
            AccountChange::RemoveKey { key: pks[1] },
        ],
        1,
    );
    change_account(&mut state, change).unwrap();
    assert_eq!(state.key_accounts(&pks[2]), vec![1, 2, 3]);
    assert_eq!(state.key_accounts(&pks[1]), vec![2, 3]);
    assert_eq!(state.account_keys(a), sorted_by_encoding(&[pks[0], pks[2]]));
    assert_eq!(state.account_keys(b), sorted_by_encoding(&[pks[1], pks[2]]));
    assert_eq!(state.account(b).nonce, 0);
    assert_eq!(state.account(c).nonce, 0);
    assert_index_symmetric(&state, &[0, 1, 2, 3, 4], &pks);

    // Every account keeps a threshold that its keys can meet.
    for id in [a, b, c] {
        let threshold = state.account(id).threshold as usize;
        assert!(1 <= threshold && threshold <= state.account_keys(id).len());
    }
}

#[test]
fn funds_of_one_account_are_not_those_of_another() {
    let (sks, pks) = keypairs(3, 14);
    let mut state = ContractState::new();
    let a = create(&mut state, &[pks[0]], 1, "a");
    let b = create(&mut state, &[pks[0]], 1, "b");
    fund(&mut state, a, 70);
    fund(&mut state, b, 30);
    let t = signed_transfer(&sks, &pks, &[0], b, pks[2], 31, 1, "");
    assert_eq!(transfer(&mut state, t, true), Err(EngineError::InsufficientFunds));
    let t = signed_transfer(&sks, &pks, &[0], b, pks[2], 30, 1, "");
    transfer(&mut state, t.clone(), true).unwrap();
    assert_eq!(state.account(a).balance, 70);
    assert_eq!(state.account(a).nonce, 0);
    assert_eq!(state.account(b).balance, 0);
    assert_eq!(state.account(b).nonce, 1);
    // What was signed for one account does not pass for the other.
    let mut other = t;
    other.account_id = a;
    assert_eq!(transfer(&mut state, other, true), Err(EngineError::AuthorizationFailure));
}

#[test]
fn transfer_message_is_the_fields_in_order() {
    let (_, pks) = keypairs(2, 15);
    let t = Transfer {
        account_id: 0x0102_0304_0506_0708,
        keys: vec![pks[0]],
        signature: MultisigSignature::default(),
        receiver: pks[1],
        amount: 1000,
        nonce: u64::MAX,
        memo: String::from("caf\u{e9}"),
    };
    let mut expected = vec![8, 7, 6, 5, 4, 3, 2, 1];
    expected.extend_from_slice(&pks[1].to_raw_bytes());
    expected.extend_from_slice(&[0xe8, 3, 0, 0, 0, 0, 0, 0]);
    expected.extend_from_slice(&[0xff; 8]);
    expected.extend_from_slice(&[b'c', b'a', b'f', 0xc3, 0xa9]);
    let msg = t.signature_msg();
    assert_eq!(msg.len(), 8 + 193 + 8 + 8 + 5);
    assert_eq!(msg, expected);

    // The signing keys and the signature are no part of the message.
    let mut other = t.clone();
    other.keys = vec![pks[1], pks[0]];
    assert_eq!(other.signature_msg(), msg);
}

#[test]
fn change_message_is_the_changes_in_order() {
    let (_, pks) = keypairs(2, 16);
    let c = ChangeAccount {
        account_id: 3,
        keys: vec![],
        signature: MultisigSignature::default(),
        changes: vec![
            AccountChange::SetThreshold { threshold: 0x0a0b_0c0d },
            AccountChange::RemoveKey { key: pks[0] },
            AccountChange::AddKey { key: pks[1] },
            AccountChange::SetDescription { description: String::from("hi") },
        ],
        nonce: 258,
    };
    let mut expected = vec![3, 0, 0, 0, 0, 0, 0, 0];
    expected.push(2);
    expected.extend_from_slice(&[0x0d, 0x0c, 0x0b, 0x0a]);
    expected.push(1);
    expected.extend_from_slice(&pks[0].to_raw_bytes());
    expected.push(0);
    expected.extend_from_slice(&pks[1].to_raw_bytes());
    expected.push(3);
    expected.extend_from_slice(&[2, 0, 0, 0, 0, 0, 0, 0]);
    expected.extend_from_slice(b"hi");
    expected.extend_from_slice(&[2, 1, 0, 0, 0, 0, 0, 0]);
    assert_eq!(c.signature_msg(), expected);

    let empty = ChangeAccount {
        account_id: 0,
        keys: vec![pks[0]],
        signature: MultisigSignature::default(),
        changes: vec![],
        nonce: 1,
    };
    assert_eq!(empty.signature_msg(), vec![0, 0, 0, 0, 0, 0, 0, 0, 1, 0, 0, 0, 0, 0, 0, 0]);
}

#[test]
fn keys_compare_as_their_encodings_do() {
    let (_, pks) = keypairs(6, 17);
    for a in &pks {
        for b in &pks {
            let (wa, wb) = (WrappedPublicKey(*a), WrappedPublicKey(*b));
            let expected = a.to_raw_bytes().cmp(&b.to_raw_bytes());
            assert_eq!(wa.partial_cmp(&wb), Some(expected));
            assert_eq!(wa == wb, raw(a) == raw(b));
            assert_eq!(wa < wb, raw(a) < raw(b));
            assert_eq!(wa.same_key(&wb), raw(a) == raw(b));
            let order = match expected {
                std::cmp::Ordering::Less => KeyOrder::Before,
                std::cmp::Ordering::Equal => KeyOrder::Same,
                std::cmp::Ordering::Greater => KeyOrder::After,
            };
            assert_eq!(wa.order(&wb), order);
        }
        assert_eq!(WrappedPublicKey(*a).raw_bytes(), a.to_raw_bytes());
    }
}

#[test]
fn keys_of_an_account_come_in_ascending_order() {
    let (_, pks) = keypairs(9, 18);
    let mut state = ContractState::new();
    let id = create(&mut state, &pks, 5, "");
    let listed = state.account_keys(id);
    assert_eq!(listed, sorted_by_encoding(&pks));
    for pair in listed.windows(2) {
        assert!(raw(&pair[0]) < raw(&pair[1]));
    }
}

fn unsigned_transfer(keys: Vec<PublicKey>, receiver: PublicKey, amount: u64, nonce: u64) -> Transfer {
    Transfer {
        account_id: 1,
        keys,
        signature: MultisigSignature::default(),
        receiver,
        amount,
        nonce,
        memo: String::from("memo"),
    }
}

#[test]
fn transfer_goes_by_the_verdicts_it_is_given() {
    let (_, pks) = keypairs(4, 19);
    let mut state = ContractState::new();
    create(&mut state, &pks[..3], 2, "");
    fund(&mut state, 1, 50);
    let t = unsigned_transfer(vec![pks[2], pks[0]], pks[3], 20, 1);

    // The signature is no aggregate signature at all.
    assert_eq!(check_transfer(&state, &t), Err(EngineError::AuthorizationFailure));
    assert_eq!(transfer(&mut state, t.clone(), true), Err(EngineError::AuthorizationFailure));

    assert_eq!(state.check_transfer(&t, false), Err(EngineError::AuthorizationFailure));
    assert_eq!(
        state.check_transfer(&t, true),
        Ok(LedgerCall::ContractToAccount { account: pks[3], value: 20 })
    );
    assert_eq!(
        state.transfer(t.clone(), false, true),
        Err(EngineError::AuthorizationFailure)
    );
    assert_eq!(
        state.transfer(t.clone(), false, false),
        Err(EngineError::AuthorizationFailure)
    );
    assert_eq!(
        state.transfer(t.clone(), true, false),
        Err(EngineError::ExternalCallFailure)
    );
    assert_eq!(state.account(1).balance, 50);
    assert_eq!(state.account(1).nonce, 0);

    let ev = state.transfer(t.clone(), true, true).unwrap();
    assert_eq!(ev.account_id, 1);
    assert_eq!(ev.keys, sorted_by_encoding(&[pks[0], pks[2]]));
    assert_eq!((ev.receiver, ev.amount, ev.memo.as_str()), (pks[3], 20, "memo"));
    assert_eq!(state.account(1).balance, 30);
    assert_eq!(state.account(1).nonce, 1);

    // Each failure that does not hang on the signature comes whatever the
    // verdict on it.
    for valid in [false, true] {
        assert_eq!(state.transfer(t.clone(), valid, true), Err(EngineError::NonceMismatch));
        let mut other = unsigned_transfer(vec![pks[0], pks[1]], pks[3], 31, 2);
        assert_eq!(
            state.check_transfer(&other, valid),
            Err(EngineError::InsufficientFunds)
        );
        other.account_id = 2;
        assert_eq!(state.check_transfer(&other, valid), Err(EngineError::NotFound));
        let twice = unsigned_transfer(vec![pks[0], pks[1], pks[0]], pks[3], 30, 2);
        assert_eq!(state.check_transfer(&twice, valid), Err(EngineError::InvalidArgument));
        let outsider = unsigned_transfer(vec![pks[0], pks[3]], pks[3], 30, 2);
        assert_eq!(
            state.check_transfer(&outsider, valid),
            Err(EngineError::AuthorizationFailure)
        );
        let few = unsigned_transfer(vec![pks[1]], pks[3], 30, 2);
        assert_eq!(state.check_transfer(&few, valid), Err(EngineError::AuthorizationFailure));
    }
    let all = unsigned_transfer(vec![pks[0], pks[1], pks[2]], pks[0], 30, 2);
    state.transfer(all, true, true).unwrap();
    assert_eq!(state.account(1).balance, 0);
    assert_eq!(state.account(1).nonce, 2);
}

#[test]
fn change_goes_by_the_verdict_it_is_given() {
    let (_, pks) = keypairs(4, 20);
    let mut state = ContractState::new();
    create(&mut state, &pks[..2], 2, "old");
    let change = |changes: Vec<AccountChange>, nonce: u64| ChangeAccount {
        account_id: 1,
        keys: vec![pks[1], pks[0]],
        signature: MultisigSignature::default(),
        changes,
        nonce,
    };
    let before = snapshot(&state, &[1], &pks);
    let add = vec![
        AccountChange::AddKey { key: pks[2] },
        AccountChange::SetThreshold { threshold: 3 },
    ];
    assert_eq!(
        change_account(&mut state, change(add.clone(), 1)),
        Err(EngineError::AuthorizationFailure)
    );
    assert_eq!(
        state.change_account(change(add.clone(), 1), false),
        Err(EngineError::AuthorizationFailure)
    );
    // The signature is looked at before the changes are.
    assert_eq!(
        state.change_account(change(vec![AccountChange::AddKey { key: pks[0] }], 1), false),
        Err(EngineError::AuthorizationFailure)
    );
    assert_eq!(
        state.change_account(change(vec![AccountChange::AddKey { key: pks[0] }], 1), true),
        Err(EngineError::InvalidArgument)
    );
    assert_eq!(
        state.change_account(change(add.clone(), 2), true),
        Err(EngineError::NonceMismatch)
    );
    assert_eq!(snapshot(&state, &[1], &pks), before);

    let ev = state.change_account(change(add.clone(), 1), true).unwrap();
    assert_eq!(ev.added_keys, vec![pks[2]]);
    assert!(ev.removed_keys.is_empty());
    assert_eq!((ev.threshold, ev.description.as_str()), (3, "old"));
    assert_eq!(state.account_keys(1), sorted_by_encoding(&pks[..3]));
    assert_eq!(state.key_accounts(&pks[2]), vec![1]);
    assert_eq!(state.account(1).nonce, 1);
    assert_eq!(
        state.change_account(change(add, 1), true),
        Err(EngineError::NonceMismatch)
    );
    // Two keys no longer meet the threshold.
    assert_eq!(
        state.change_account(change(vec![], 2), true),
        Err(EngineError::AuthorizationFailure)
    );
}

#[test]
fn change_is_checked_before_its_changes_are_looked_at() {
    let (_, pks) = keypairs(3, 27);
    let mut state = ContractState::new();
    create(&mut state, &pks[..2], 2, "");
    let change = |account_id: u64, keys: Vec<PublicKey>, nonce: u64| ChangeAccount {
        account_id,
        keys,
        signature: MultisigSignature::default(),
        // A change that cannot be applied: the check does not look at it.
        changes: vec![AccountChange::SetThreshold { threshold: 0 }],
        nonce,
    };
    let both = vec![pks[0], pks[1]];
    for valid in [false, true] {
        assert_eq!(
            state.check_change_account(&change(2, both.clone(), 1), valid),
            Err(EngineError::NotFound)
        );
        assert_eq!(
            state.check_change_account(&change(1, both.clone(), 0), valid),
            Err(EngineError::NonceMismatch)
        );
        assert_eq!(
            state.check_change_account(&change(1, vec![pks[0], pks[0]], 1), valid),
            Err(EngineError::InvalidArgument)
        );
        assert_eq!(
            state.check_change_account(&change(1, vec![pks[0], pks[2]], 1), valid),
            Err(EngineError::AuthorizationFailure)
        );
        assert_eq!(
            state.check_change_account(&change(1, vec![pks[1]], 1), valid),
            Err(EngineError::AuthorizationFailure)
        );
    }
    assert_eq!(
        state.check_change_account(&change(1, both.clone(), 1), false),
        Err(EngineError::AuthorizationFailure)
    );
    assert_eq!(state.check_change_account(&change(1, both.clone(), 1), true), Ok(()));
    assert_eq!(
        state.change_account(change(1, both, 1), true),
        Err(EngineError::InvalidArgument)
    );
    assert_eq!(state.account(1).nonce, 0);
}

#[test]
fn description_cannot_pass_for_other_changes() {
    let change = |changes: Vec<AccountChange>| ChangeAccount {
        account_id: 1,
        keys: vec![],
        signature: MultisigSignature::default(),
        changes,
        nonce: 1,
    };
    // The bytes of this description read as the tag and the bytes of a
    // threshold of one.
    let long = change(vec![AccountChange::SetDescription {
        description: String::from("\u{2}\u{1}\u{0}\u{0}\u{0}"),
    }]);
    let split = change(vec![
        AccountChange::SetDescription { description: String::new() },
        AccountChange::SetThreshold { threshold: 1 },
    ]);
    assert_ne!(long.signature_msg(), split.signature_msg());
    let mut expected = vec![1, 0, 0, 0, 0, 0, 0, 0];
    expected.extend_from_slice(&[3, 5, 0, 0, 0, 0, 0, 0, 0, 2, 1, 0, 0, 0]);
    expected.extend_from_slice(&[1, 0, 0, 0, 0, 0, 0, 0]);
    assert_eq!(long.signature_msg(), expected);
    let mut expected = vec![1, 0, 0, 0, 0, 0, 0, 0];
    expected.extend_from_slice(&[3, 0, 0, 0, 0, 0, 0, 0, 0, 2, 1, 0, 0, 0]);
    expected.extend_from_slice(&[1, 0, 0, 0, 0, 0, 0, 0]);
    assert_eq!(split.signature_msg(), expected);
}

#[test]
fn deposit_is_refused_where_the_balance_cannot_take_it() {
    let (_, pks) = keypairs(1, 28);
    let mut state = ContractState::new();
    let id = create(&mut state, &pks, 1, "");
    fund(&mut state, id, u64::MAX - 5);
    let d = |amount: u64| Deposit { account_id: id, amount, memo: String::new() };

    // The asset ledger is asked for every account that exists, and its
    // refusal comes before the balance is looked at.
    assert_eq!(state.check_deposit(&d(6)), Ok(LedgerCall::Deposit { amount: 6 }));
    assert_eq!(state.deposit(d(6), false), Err(EngineError::ExternalCallFailure));
    assert_eq!(state.deposit(d(u64::MAX), false), Err(EngineError::ExternalCallFailure));
    assert_eq!(state.deposit(d(6), true), Err(EngineError::InvalidArgument));
    assert_eq!(state.deposit(d(u64::MAX), true), Err(EngineError::InvalidArgument));
    assert_eq!(state.account(id).balance, u64::MAX - 5);
    // The account is looked for first.
    let elsewhere = Deposit { account_id: 2, amount: u64::MAX, memo: String::new() };
    assert_eq!(state.check_deposit(&elsewhere), Err(EngineError::NotFound));
    assert_eq!(state.deposit(elsewhere.clone(), false), Err(EngineError::NotFound));
    assert_eq!(state.deposit(elsewhere, true), Err(EngineError::NotFound));

    state.deposit(d(5), true).unwrap();
    assert_eq!(state.account(id).balance, u64::MAX);
    assert_eq!(state.account(id).nonce, 0);
    state.deposit(d(0), true).unwrap();
    assert_eq!(state.deposit(d(1), true), Err(EngineError::InvalidArgument));
    assert_eq!(state.account(id).balance, u64::MAX);
}
