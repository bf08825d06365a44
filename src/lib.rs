//! A persistent ledger of validator votes on candidates.
//!
//! Votes are kept in an ordered key-value store under keys that share a
//! per-session prefix, so that a whole session can be dropped by one prefix
//! sweep. Storing a batch of votes derives one event per vote: a new vote, a
//! replay, a double vote, the start of a dispute or a supermajority.
pub mod keys;
pub mod vote;
pub mod kv;
pub mod quorum;
pub mod store;
