//! A single-process blockchain validator core: a hash-chain recorder, a
//! proof-of-work proposer with adaptive difficulty, stake accounting with a
//! two-thirds quorum check, a fee-priority transaction queue, and an
//! append-only ledger of balances protected against double spends.

pub mod accounts;
pub mod digests;
pub mod errors;
pub mod ledger;
pub mod numerals;
pub mod poh;
pub mod pow;
pub mod records;
pub mod staking;
pub mod tx_pool;
pub mod txdata;
