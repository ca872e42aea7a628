//! State-transition engine of a multisignature account ledger.
//!
//! An account holds a balance, a nonce, a description and a set of public
//! keys, of which a threshold number must sign together to move funds or to
//! change the account. The engine keeps the accounts, the keys of each
//! account and, the other way round, the accounts of each key.
//!
//! - [`ledger`] is the engine as mathematics: the state as maps and sets, and
//!   for every operation the checks it makes, in their order, and the state it
//!   leaves. [`laws`] proves what holds of every state that the operations
//!   can reach.
//! - [`state`] is the engine as it runs. Every operation is proved to do to
//!   the state exactly what [`ledger`] says, and to answer with the event to
//!   be emitted or with the error that the checks come to.
//! - [`message`] builds the byte strings that the signers sign, and
//!   [`message_laws`] proves that such a string can be read in one way only.
//! - [`key`], [`key_order`], [`key_set`], [`id_set`], [`key_index`],
//!   [`sorted`] and [`changes`] are the parts the state is made of.
//!
//! The engine does no input or output, and it verifies no signature. Where
//! an operation hangs on the signature, the caller has the signature of
//! `signature_msg` by the keys presented verified and hands the verdict in.
//! Where it hangs on the asset ledger that holds the funds, the caller asks
//! the engine what the asset ledger is to do (`check_deposit`,
//! `check_transfer`), has it done, and hands the outcome in. Each operation
//! makes all its checks itself, in their order, whatever was checked before.
//!
//! Taken on trust, and marked where it stands: that the raw encoding of a
//! public key depends on nothing but the key.

pub mod changes;
pub mod id_set;
pub mod key;
pub mod key_index;
pub mod key_order;
pub mod key_set;
pub mod laws;
pub mod ledger;
pub mod message;
pub mod message_laws;
pub mod sorted;
pub mod state;
pub mod types;
