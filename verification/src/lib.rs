//! A single-writer proof-of-work ledger: signed value transfers, batched into
//! blocks that are linked by their SHA-256 digests.
//!
//! Amounts are whole units held in `i64`; points in time are milliseconds
//! since the Unix epoch held in `i64`. Every executable function carries a
//! contract over the byte-level models defined beside it.
//!
//! - `secp256k1`, `sha256`, `hex`, `wire`: keys, signatures, digests and the
//!   bytes that are hashed.
//! - `constant`: the settings of one ledger.
//! - `transaction`, `block`, `blockchain`: the ledger itself.
//! - `supply`: what the balances of a ledger add up to.
//! - `users`: the parties that share a ledger.

pub mod block;
pub mod blockchain;
pub mod constant;
pub mod hex;
pub mod secp256k1;
pub mod sha256;
pub mod supply;
pub mod transaction;
pub mod users;
pub mod wire;
