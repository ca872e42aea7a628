//! Reconfiguring an account: applying a list of changes to a copy of its
//! configuration, and bringing the reverse index in line with the outcome.

use crate::key::{raw_bytes_of, WrappedPublicKey};
use crate::key_index::KeyIndex;
use crate::key_set::KeySet;
use crate::ledger::{apply_change, apply_changes, config_ok, Change, Config};
use crate::sorted::lemma_take_one_more;
use crate::types::{AccountChange, EngineError};
use bls12_381_bls::PublicKey;
use vstd::prelude::*;

verus! {

/// A change with its keys given by their encodings.
pub open spec fn change_of(change: AccountChange) -> Change {
    match change {
        AccountChange::AddKey { key } => Change::AddKey(raw_bytes_of(key)),
        AccountChange::RemoveKey { key } => Change::RemoveKey(raw_bytes_of(key)),
        AccountChange::SetThreshold { threshold } => Change::SetThreshold(threshold),
        AccountChange::SetDescription { description } => Change::SetDescription(description@),
    }
}

/// A list of changes with their keys given by their encodings.
pub open spec fn changes_of(changes: Seq<AccountChange>) -> Seq<Change> {
    Seq::new(changes.len(), |i: int| change_of(changes[i]))
}

/// The keys that the changes add, in the order of the changes. A key that
/// is added more than once is listed as often.
pub open spec fn added_keys(changes: Seq<AccountChange>) -> Seq<PublicKey>
    decreases changes.len(),
{
    if changes.len() == 0 {
        Seq::empty()
    } else {
        match changes.last() {
            AccountChange::AddKey { key } => added_keys(changes.drop_last()).push(key),
            _ => added_keys(changes.drop_last()),
        }
    }
}

/// The keys that the changes remove, in the order of the changes.
pub open spec fn removed_keys(changes: Seq<AccountChange>) -> Seq<PublicKey>
    decreases changes.len(),
{
    if changes.len() == 0 {
        Seq::empty()
    } else {
        match changes.last() {
            AccountChange::RemoveKey { key } => removed_keys(changes.drop_last()).push(key),
            _ => removed_keys(changes.drop_last()),
        }
    }
}

/// Once a change is refused, so is every list that goes on from there, and
/// for the same reason.
pub proof fn lemma_refused_for_good(c: Config, changes: Seq<Change>, n: int)
    requires
        0 <= n <= changes.len(),
        apply_changes(c, changes.take(n)) is Err,
    ensures
        apply_changes(c, changes) == apply_changes(c, changes.take(n)),
    decreases changes.len() - n,
{
    if n == changes.len() {
        assert(changes.take(n) =~= changes);
    } else {
        assert(changes.drop_last().take(n) =~= changes.take(n));
        lemma_refused_for_good(c, changes.drop_last(), n);
    }
}

/// The configuration that a list of changes leads to, with the keys added
/// and removed on the way.
pub struct Reconfiguration {
    pub keys: KeySet,
    pub threshold: u32,
    pub description: String,
    pub added: Vec<PublicKey>,
    pub removed: Vec<PublicKey>,
}

impl Reconfiguration {
    /// The configuration as a mathematical value.
    pub open spec fn config(&self) -> Config {
        Config { keys: self.keys@, threshold: self.threshold, description: self.description@ }
    }
}

/// Applies the changes one at a time, in the order given, each to the
/// outcome of those before it, starting from the given configuration. The
/// first change that cannot be applied decides the error.
pub fn apply(
    keys: KeySet,
    threshold: u32,
    description: String,
    changes: &Vec<AccountChange>,
) -> (r: Result<Reconfiguration, EngineError>)
    requires
        keys.wf(),
        config_ok(Config { keys: keys@, threshold, description: description@ }),
    ensures
        match apply_changes(
            Config { keys: keys@, threshold, description: description@ },
            changes_of(changes@),
        ) {
            Ok(c) => {
                &&& r matches Ok(done)
                &&& done.config() == c
                &&& done.keys.wf()
                &&& done.added@ == added_keys(changes@)
                &&& done.removed@ == removed_keys(changes@)
            },
            Err(e) => r == Err::<Reconfiguration, EngineError>(e),
        },
{
    let ghost start = Config { keys: keys@, threshold, description: description@ };
    let ghost all = changes_of(changes@);
    let mut now = Reconfiguration {
        keys,
        threshold,
        description,
        added: Vec::new(),
        removed: Vec::new(),
    };
    let mut i: usize = 0;
    proof {
        assert(all.take(0) =~= Seq::<Change>::empty());
    }
    while i < changes.len()
        invariant
            i <= changes.len(),
            all == changes_of(changes@),
            start == (Config { keys: keys@, threshold, description: description@ }),
            config_ok(start),
            now.keys.wf(),
            config_ok(now.config()),
            apply_changes(start, all.take(i as int)) == Ok::<Config, EngineError>(now.config()),
            now.added@ == added_keys(changes@.take(i as int)),
            now.removed@ == removed_keys(changes@.take(i as int)),
        decreases changes.len() - i,
    {
        let ghost before = now.config();
        let ghost step = apply_change(before, all[i as int]);
        proof {
            assert(all.take(i + 1).drop_last() =~= all.take(i as int));
            assert(changes@.take(i + 1).drop_last() =~= changes@.take(i as int));
            if step is Err {
                lemma_refused_for_good(start, all, i + 1);
            }
            now.keys.lemma_len();
        }
        match &changes[i] {
            AccountChange::AddKey { key } => {
                if !now.keys.insert(WrappedPublicKey(*key)) {
                    return Err(EngineError::InvalidArgument);
                }
                now.added.push(*key);
            },
            AccountChange::RemoveKey { key } => {
                let held = now.keys.len();
                if held <= now.threshold as usize || held <= 1 {
                    return Err(EngineError::InvariantViolation);
                }
                if !now.keys.remove(&WrappedPublicKey(*key)) {
                    return Err(EngineError::InvalidArgument);
                }
                now.removed.push(*key);
            },
            AccountChange::SetThreshold { threshold } => {
                if *threshold < 1 {
                    return Err(EngineError::InvalidArgument);
                }
                if *threshold as usize > now.keys.len() {
                    return Err(EngineError::InvariantViolation);
                }
                now.threshold = *threshold;
            },
            AccountChange::SetDescription { description } => {
                now.description = description.clone();
            },
        }
        proof {
            now.keys.lemma_len();
        }
        i += 1;
    }
    proof {
        assert(all.take(i as int) =~= all);
        assert(changes@.take(i as int) =~= changes@);
    }
    Ok(now)
}

/// What the reverse index lists for key `k` once account `id` has gone from
/// the keys `old` to the keys `new`: the account is taken off the keys it
/// gave up and put on the keys it gained.
pub open spec fn relisted(
    before: Set<u64>,
    id: u64,
    old_keys: Set<Seq<u8>>,
    new_keys: Set<Seq<u8>>,
    k: Seq<u8>,
) -> Set<u64> {
    if old_keys.contains(k) && !new_keys.contains(k) {
        before.remove(id)
    } else if new_keys.contains(k) && !old_keys.contains(k) {
        before.insert(id)
    } else {
        before
    }
}

/// `now` is `before` with account `id` taken off the keys in `done` that are
/// not among `kept`.
spec fn unlisted(
    before: KeyIndex,
    now: KeyIndex,
    done: Seq<Seq<u8>>,
    kept: Set<Seq<u8>>,
    id: u64,
) -> bool {
    forall|k: Seq<u8>| #[trigger]
        now.accounts_of(k) == if done.contains(k) && !kept.contains(k) {
            before.accounts_of(k).remove(id)
        } else {
            before.accounts_of(k)
        }
}

/// `now` is `before` with account `id` put on the keys in `done` that are
/// not among `had`.
spec fn enlisted(
    before: KeyIndex,
    now: KeyIndex,
    done: Seq<Seq<u8>>,
    had: Set<Seq<u8>>,
    id: u64,
) -> bool {
    forall|k: Seq<u8>| #[trigger]
        now.accounts_of(k) == if done.contains(k) && !had.contains(k) {
            before.accounts_of(k).insert(id)
        } else {
            before.accounts_of(k)
        }
}

/// Brings the reverse index in line with account `id` going from the keys
/// `old_keys` to the keys `new_keys`.
pub fn reindex(index: &mut KeyIndex, id: u64, old_keys: &KeySet, new_keys: &KeySet)
    requires
        old(index).wf(),
        old_keys.wf(),
        new_keys.wf(),
    ensures
        final(index).wf(),
        forall|k: Seq<u8>| #[trigger]
            final(index).accounts_of(k) == relisted(
                old(index).accounts_of(k),
                id,
                old_keys@,
                new_keys@,
                k,
            ),
{
    let ghost before = *index;
    let ghost old_list = old_keys.encodings();
    let ghost new_list = new_keys.encodings();
    let mut i: usize = 0;
    proof {
        old_keys.lemma_len();
        new_keys.lemma_len();
    }
    while i < old_keys.len()
        invariant
            i <= old_list.len(),
            old_list == old_keys.encodings(),
            old_keys.wf(),
            new_keys.wf(),
            index.wf(),
            unlisted(before, *index, old_list.take(i as int), new_keys@, id),
        decreases old_list.len() - i,
    {
        let key = old_keys.get(i);
        let ghost earlier = *index;
        if !new_keys.contains(&key) {
            index.remove(&key, id);
        }
        proof {
            lemma_take_one_more(old_list, i as int);
            assert forall|k: Seq<u8>| #[trigger]
                index.accounts_of(k) == if old_list.take(i + 1).contains(k) && !new_keys@.contains(
                    k,
                ) {
                    before.accounts_of(k).remove(id)
                } else {
                    before.accounts_of(k)
                } by {
                assert(earlier.accounts_of(k) == if old_list.take(i as int).contains(k)
                    && !new_keys@.contains(k) {
                    before.accounts_of(k).remove(id)
                } else {
                    before.accounts_of(k)
                });
            }
        }
        i += 1;
    }
    let ghost middle = *index;
    let mut i: usize = 0;
    proof {
        assert(old_list.take(old_list.len() as int) =~= old_list);
    }
    while i < new_keys.len()
        invariant
            i <= new_list.len(),
            new_list == new_keys.encodings(),
            old_keys.wf(),
            new_keys.wf(),
            index.wf(),
            enlisted(middle, *index, new_list.take(i as int), old_keys@, id),
        decreases new_list.len() - i,
    {
        let key = new_keys.get(i);
        let ghost earlier = *index;
        if !old_keys.contains(&key) {
            index.add(key, id);
        }
        proof {
            lemma_take_one_more(new_list, i as int);
            assert forall|k: Seq<u8>| #[trigger]
                index.accounts_of(k) == if new_list.take(i + 1).contains(k) && !old_keys@.contains(
                    k,
                ) {
                    middle.accounts_of(k).insert(id)
                } else {
                    middle.accounts_of(k)
                } by {
                assert(earlier.accounts_of(k) == if new_list.take(i as int).contains(k)
                    && !old_keys@.contains(k) {
                    middle.accounts_of(k).insert(id)
                } else {
                    middle.accounts_of(k)
                });
            }
        }
        i += 1;
    }
    proof {
        assert(new_list.take(new_list.len() as int) =~= new_list);
        assert forall|k: Seq<u8>| #[trigger]
            index.accounts_of(k) == relisted(before.accounts_of(k), id, old_keys@, new_keys@, k) by {
            assert(middle.accounts_of(k) == if old_list.contains(k) && !new_keys@.contains(k) {
                before.accounts_of(k).remove(id)
            } else {
                before.accounts_of(k)
            });
        }
    }
}

} // verus!
