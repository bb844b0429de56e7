//! A ledger that receives balance-moving notifications from a peer token ledger.
//!
//! - `balances`, `accounts`: balance tables keyed by (counterparty, account) and by account.
//! - `idset`: sets of account identities (whitelists, registrations).
//! - `message`: the decoder for the intent tag that a notification carries.
//! - `bank`: the ledger, its whitelist gate, notification dispatch and relays out.
//! - `token`: the peer ledger with the same gate.
//!
//! Every entry point takes the immediate caller's identity as an argument and
//! either applies fully or fails with a `LedgerError`, leaving the ledger unchanged.

pub mod accounts;
pub mod balances;
pub mod bank;
pub mod error;
pub mod idset;
pub mod message;
pub mod token;
