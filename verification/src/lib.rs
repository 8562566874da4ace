//! State-consistency checking for an account-based ledger.
//!
//! A decoded snapshot of the ledger (accounts with their balances, nonces,
//! code hashes and storage, plus the contract bytecodes) is compared against
//! a persisted state store. The state store is never touched from here: the
//! engine says which lookup it needs next and is handed the answer.
//!
//! - [`primitives`]: addresses, 32-byte words and 256-bit integers.
//! - [`bytecode`]: contract code in its stored forms, and its canonical bytes.
//! - [`types`]: the snapshot, and the account record of the state store.
//! - [`storage`]: the ordered storage map of one contract.
//! - [`extract`]: reading one contract's full state out of the store.
//! - [`diff`]: divergences, and the comparison of one account, storage or code.
//! - [`engine`]: the run over a whole snapshot.
//! - [`run`]: what a whole run comes to against a store that never fails.
//! - [`report`] and [`render`]: what a run found, and its text.

pub mod bytecode;
pub mod diff;
pub mod engine;
pub mod extract;
pub mod primitives;
pub mod render;
pub mod report;
pub mod run;
pub mod storage;
pub mod types;
