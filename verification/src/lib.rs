//! A small account-based blockchain: signed transactions, blocks linked by
//! SHA-256 hashes over a Merkle root of their transaction ids, and a ledger of
//! per-currency balances.

pub mod text;
pub mod crypto;
pub mod merkle;
pub mod transaction;
pub mod wallet;
pub mod ledger;
pub mod block;
pub mod blockchain;
pub mod message;
pub mod network;
pub mod storage;
