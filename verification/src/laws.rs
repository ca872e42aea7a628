//! What holds of the ledger whatever operations are applied to it.

use crate::ledger::{apply_change, apply_changes, config_ok, Change, Config, Ledger};
use crate::types::EngineError;
use vstd::prelude::*;

verus! {

/// The empty ledger is well formed.
pub proof fn lemma_empty_wf()
    ensures
        Ledger::empty().wf(),
{
    let l = Ledger::empty();
    assert(l.account_keys.dom() =~= Set::<u64>::full());
}

/// Creating an account keeps the ledger well formed. The new account gets the
/// id after the last one, and no account that was there is touched.
pub proof fn lemma_created_wf(l: Ledger, keys: Seq<Seq<u8>>, threshold: u32, description: Seq<char>)
    requires
        l.wf(),
        l.create_error(keys, threshold) is None,
    ensures
        l.created(keys, threshold, description).wf(),
        l.created(keys, threshold, description).count == l.count + 1,
        l.next_id() == l.count + 1,
        !l.has(l.next_id()),
        l.created(keys, threshold, description).has(l.next_id()),
        forall|id: u64|
            l.has(id) ==> l.created(keys, threshold, description).record(id) == l.record(id),
{
    let n = l.created(keys, threshold, description);
    let id = l.next_id();
    assert(!l.has(id));
    keys.unique_seq_to_set();
    vstd::seq_lib::seq_to_set_is_finite(keys);
    assert(n.account_keys.dom() =~= Set::<u64>::full());
    assert forall|a: u64| #[trigger] n.has(a) <==> 1 <= a <= n.count by {
        if a != id {
            assert(n.has(a) == l.has(a));
        }
    }
    assert forall|a: u64| #[trigger] n.has(a) implies config_ok(n.config(a)) by {
        if a != id {
            assert(l.has(a));
        }
    }
    assert forall|a: u64| !#[trigger] n.has(a) implies n.account_keys[a] == Set::<
        Seq<u8>,
    >::empty() by {
        assert(!l.has(a));
    }
    assert forall|a: u64, k: Seq<u8>|
        #![trigger n.account_keys[a].contains(k)]
        #![trigger n.key_accounts[k].contains(a)]
        n.account_keys[a].contains(k) <==> n.key_accounts[k].contains(a) by {
        assert(l.account_keys[a].contains(k) <==> l.key_accounts[k].contains(a));
    }
}

/// A deposit keeps the ledger well formed and touches only the balance of
/// its account: the nonce stays.
pub proof fn lemma_deposited_wf(l: Ledger, id: u64, amount: u64)
    requires
        l.wf(),
        l.deposit_error(id, amount, true) is None,
    ensures
        l.deposited(id, amount).wf(),
        l.deposited(id, amount).record(id).balance == l.record(id).balance + amount,
        l.deposited(id, amount).record(id).nonce == l.record(id).nonce,
        forall|a: u64| a != id ==> l.deposited(id, amount).record(a) == l.record(a),
{
    let n = l.deposited(id, amount);
    assert forall|a: u64| #[trigger] n.has(a) <==> 1 <= a <= n.count by {
        assert(n.has(a) == l.has(a));
    }
    assert forall|a: u64| #[trigger] n.has(a) implies config_ok(n.config(a)) by {
        assert(l.has(a));
    }
    assert forall|a: u64| !#[trigger] n.has(a) implies n.account_keys[a] == Set::<
        Seq<u8>,
    >::empty() by {
        assert(!l.has(a));
    }
}

/// A transfer that passes its checks keeps the ledger well formed, takes the
/// amount off the balance and moves the nonce on by exactly one.
pub proof fn lemma_transferred_wf(
    l: Ledger,
    id: u64,
    amount: u64,
    nonce: u64,
    signers: Seq<Seq<u8>>,
    signature_valid: bool,
)
    requires
        l.wf(),
        l.transfer_error(id, amount, nonce, signers, signature_valid) is None,
    ensures
        l.transferred(id, amount).wf(),
        l.transferred(id, amount).record(id).balance == l.record(id).balance - amount,
        l.transferred(id, amount).record(id).nonce == l.record(id).nonce + 1,
        l.transferred(id, amount).record(id).nonce == nonce,
        forall|a: u64| a != id ==> l.transferred(id, amount).record(a) == l.record(a),
{
    let n = l.transferred(id, amount);
    assert forall|a: u64| #[trigger] n.has(a) <==> 1 <= a <= n.count by {
        assert(n.has(a) == l.has(a));
    }
    assert forall|a: u64| #[trigger] n.has(a) implies config_ok(n.config(a)) by {
        assert(l.has(a));
    }
    assert forall|a: u64| !#[trigger] n.has(a) implies n.account_keys[a] == Set::<
        Seq<u8>,
    >::empty() by {
        assert(!l.has(a));
    }
}

/// A change that is accepted leaves a configuration with a threshold of at
/// least one and at most the number of keys.
pub proof fn lemma_apply_change_ok(c: Config, change: Change)
    requires
        config_ok(c),
        apply_change(c, change) is Ok,
    ensures
        config_ok(apply_change(c, change).unwrap()),
{
}

/// A list of changes that is accepted leaves such a configuration too: no
/// step of it does otherwise.
pub proof fn lemma_apply_changes_ok(c: Config, changes: Seq<Change>)
    requires
        config_ok(c),
        apply_changes(c, changes) is Ok,
    ensures
        config_ok(apply_changes(c, changes).unwrap()),
    decreases changes.len(),
{
    if changes.len() > 0 {
        lemma_apply_changes_ok(c, changes.drop_last());
        lemma_apply_change_ok(apply_changes(c, changes.drop_last()).unwrap(), changes.last());
    }
}

/// Giving an account a configuration whose threshold its keys meet keeps the
/// ledger well formed, with the two key maps still inverse to each other.
pub proof fn lemma_reconfigured_wf(l: Ledger, id: u64, c: Config)
    requires
        l.wf(),
        l.has(id),
        config_ok(c),
        l.accounts[id].nonce < u64::MAX,
    ensures
        l.reconfigured(id, c).wf(),
        l.reconfigured(id, c).record(id).nonce == l.record(id).nonce + 1,
        l.reconfigured(id, c).record(id).balance == l.record(id).balance,
        forall|a: u64| a != id ==> l.reconfigured(id, c).record(a) == l.record(a),
{
    let n = l.reconfigured(id, c);
    assert(n.account_keys.dom() =~= Set::<u64>::full());
    assert forall|a: u64| #[trigger] n.has(a) <==> 1 <= a <= n.count by {
        assert(n.has(a) == l.has(a));
    }
    assert forall|a: u64| #[trigger] n.has(a) implies config_ok(n.config(a)) by {
        assert(l.has(a));
        if a != id {
            assert(n.config(a) == l.config(a));
        } else {
            assert(n.config(a) =~= c);
        }
    }
    assert forall|a: u64| !#[trigger] n.has(a) implies n.account_keys[a] == Set::<
        Seq<u8>,
    >::empty() by {
        assert(!l.has(a));
    }
    assert forall|a: u64, k: Seq<u8>|
        #![trigger n.account_keys[a].contains(k)]
        #![trigger n.key_accounts[k].contains(a)]
        n.account_keys[a].contains(k) <==> n.key_accounts[k].contains(a) by {
        assert(l.account_keys[a].contains(k) <==> l.key_accounts[k].contains(a));
    }
}

/// A change operation that passes its checks keeps the ledger well formed
/// and moves the nonce on by exactly one.
pub proof fn lemma_changed_wf(
    l: Ledger,
    id: u64,
    nonce: u64,
    signers: Seq<Seq<u8>>,
    signature_valid: bool,
    changes: Seq<Change>,
)
    requires
        l.wf(),
        l.change_error(id, nonce, signers, signature_valid, changes) is None,
    ensures
        l.changed(id, changes).wf(),
        l.changed(id, changes).record(id).nonce == l.record(id).nonce + 1,
        l.changed(id, changes).record(id).balance == l.record(id).balance,
        forall|a: u64| a != id ==> l.changed(id, changes).record(a) == l.record(a),
{
    lemma_apply_changes_ok(l.config(id), changes);
    lemma_reconfigured_wf(l, id, apply_changes(l.config(id), changes).unwrap());
}

/// In a well-formed ledger the two key maps are inverse to each other: an
/// account authorizes a key exactly if the key lists the account.
pub proof fn lemma_index_symmetry(l: Ledger, id: u64, k: Seq<u8>)
    requires
        l.wf(),
    ensures
        l.account_keys[id].contains(k) <==> l.key_accounts[k].contains(id),
{
}

/// In a well-formed ledger every account has a threshold of at least one and
/// at most the number of its keys.
pub proof fn lemma_threshold_bounds(l: Ledger, id: u64)
    requires
        l.wf(),
        l.has(id),
    ensures
        1 <= l.accounts[id].threshold <= l.account_keys[id].len(),
{
    assert(config_ok(l.config(id)));
}

/// A transfer that was accepted is refused for its nonce when it is
/// presented again, whatever the verifier says of the signature then,
/// provided the balance still covers the amount: the balance is looked at
/// before the nonce.
pub proof fn lemma_replay_rejected(
    l: Ledger,
    id: u64,
    amount: u64,
    nonce: u64,
    signers: Seq<Seq<u8>>,
    valid_first: bool,
    valid_again: bool,
)
    requires
        l.wf(),
        l.transfer_error(id, amount, nonce, signers, valid_first) is None,
        amount <= l.accounts[id].balance - amount,
    ensures
        l.transferred(id, amount).transfer_error(id, amount, nonce, signers, valid_again) == Some(
            EngineError::NonceMismatch,
        ),
{
}

/// A change operation that was accepted is refused for its nonce when it is
/// presented again.
pub proof fn lemma_change_replay_rejected(
    l: Ledger,
    id: u64,
    nonce: u64,
    signers: Seq<Seq<u8>>,
    valid_first: bool,
    valid_again: bool,
    changes: Seq<Change>,
)
    requires
        l.wf(),
        l.change_error(id, nonce, signers, valid_first, changes) is None,
    ensures
        l.changed(id, changes).change_error(id, nonce, signers, valid_again, changes) == Some(
            EngineError::NonceMismatch,
        ),
{
}

/// A request to create an account, with its keys given by their encodings.
pub struct Creation {
    pub keys: Seq<Seq<u8>>,
    pub threshold: u32,
    pub description: Seq<char>,
}

/// How many of the requests are accepted.
pub open spec fn accepted(requests: Seq<Creation>) -> nat
    decreases requests.len(),
{
    if requests.len() == 0 {
        0
    } else if Ledger::create_rejected(requests.last().keys, requests.last().threshold) {
        accepted(requests.drop_last())
    } else {
        accepted(requests.drop_last()) + 1
    }
}

/// The ledger after the requests were made one after the other, as long as
/// ids are left: a well-formed request creates its account, a malformed one
/// changes nothing.
pub open spec fn created_all(l: Ledger, requests: Seq<Creation>) -> Ledger
    decreases requests.len(),
{
    if requests.len() == 0 {
        l
    } else {
        let before = created_all(l, requests.drop_last());
        let last = requests.last();
        if Ledger::create_rejected(last.keys, last.threshold) {
            before
        } else {
            before.created(last.keys, last.threshold, last.description)
        }
    }
}

/// Ids are given out in the order of creation, one after the other: after
/// any run of requests the ledger holds as many more accounts as requests
/// were accepted, so that the next account gets the id after that number. A
/// refused request uses up no id, and no id is given twice.
pub proof fn lemma_ids_in_creation_order(l: Ledger, requests: Seq<Creation>)
    requires
        l.wf(),
        l.count + requests.len() <= u64::MAX,
    ensures
        accepted(requests) <= requests.len(),
        created_all(l, requests).wf(),
        created_all(l, requests).count == l.count + accepted(requests),
        l.count + accepted(requests) < u64::MAX ==> created_all(l, requests).next_id() == l.count
            + accepted(requests) + 1,
        forall|id: u64| #[trigger]
            created_all(l, requests).has(id) <==> 1 <= id <= l.count + accepted(requests),
    decreases requests.len(),
{
    if requests.len() > 0 {
        let before = created_all(l, requests.drop_last());
        let last = requests.last();
        lemma_ids_in_creation_order(l, requests.drop_last());
        if !Ledger::create_rejected(last.keys, last.threshold) {
            lemma_created_wf(before, last.keys, last.threshold, last.description);
        }
    }
    let after = created_all(l, requests);
    assert forall|id: u64| #[trigger]
        after.has(id) <==> 1 <= id <= l.count + accepted(requests) by {
        assert(after.has(id) <==> 1 <= id <= after.count);
    }
}

/// Starting from the empty ledger, requests that are all accepted get the
/// ids 1, 2, 3 and so on in their order.
pub proof fn lemma_ids_from_one(requests: Seq<Creation>, i: int)
    requires
        requests.len() <= u64::MAX,
        0 <= i < requests.len(),
        forall|j: int|
            0 <= j < requests.len() ==> !Ledger::create_rejected(
                (#[trigger] requests[j]).keys,
                requests[j].threshold,
            ),
    ensures
        created_all(Ledger::empty(), requests.take(i)).next_id() == i + 1,
{
    lemma_empty_wf();
    lemma_all_accepted(requests.take(i));
    lemma_ids_in_creation_order(Ledger::empty(), requests.take(i));
}

/// Where no request is refused, all are accepted.
proof fn lemma_all_accepted(requests: Seq<Creation>)
    requires
        forall|j: int|
            0 <= j < requests.len() ==> !Ledger::create_rejected(
                (#[trigger] requests[j]).keys,
                requests[j].threshold,
            ),
    ensures
        accepted(requests) == requests.len(),
    decreases requests.len(),
{
    if requests.len() > 0 {
        lemma_all_accepted(requests.drop_last());
    }
}

/// The signature is looked at last among the checks of a transfer: a
/// transfer that is refused with the signature taken as valid is refused for
/// the same reason whatever the verifier says, and one that passes then is
/// refused for its authorization, and for nothing else, if the verifier says
/// no.
pub proof fn lemma_transfer_signature_last(
    l: Ledger,
    id: u64,
    amount: u64,
    nonce: u64,
    signers: Seq<Seq<u8>>,
)
    ensures
        l.transfer_error(id, amount, nonce, signers, true) matches Some(e) ==> l.transfer_error(
            id,
            amount,
            nonce,
            signers,
            false,
        ) == Some(e),
        l.transfer_error(id, amount, nonce, signers, true) is None ==> l.transfer_error(
            id,
            amount,
            nonce,
            signers,
            false,
        ) == Some(EngineError::AuthorizationFailure),
{
}

/// The same holds of the checks of a change that come before its changes are
/// looked at.
pub proof fn lemma_change_signature_last(l: Ledger, id: u64, nonce: u64, signers: Seq<Seq<u8>>)
    ensures
        l.change_signers_error(id, nonce, signers, true) matches Some(e)
            ==> l.change_signers_error(id, nonce, signers, false) == Some(e),
        l.change_signers_error(id, nonce, signers, true) is None ==> l.change_signers_error(
            id,
            nonce,
            signers,
            false,
        ) == Some(EngineError::AuthorizationFailure),
{
}

} // verus!
