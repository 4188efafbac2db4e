//! Core of a minimal distributed ledger node: signed transactions, an
//! admission-controlled mempool, hash-linked blocks, an append-only
//! content-addressed chain store with a deterministic fork-choice rule,
//! and the wire codec for the gossip envelopes that carry blocks and
//! transactions between peers.

pub mod avm;
pub mod block;
pub mod chain;
pub mod config;
pub mod crypto;
pub mod decimal;
pub mod errors;
pub mod hexstr;
pub mod mempool;
pub mod network_messages;
pub mod node;
pub mod payload;
pub mod shims;
pub mod transaction;
pub mod views;
pub mod wallet;

pub use errors::LedgerError;
