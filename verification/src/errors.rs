//! The categorical error kinds that ledger, proposer, voter and staking
//! operations report. No operation aborts the process on a domain failure.

use vstd::prelude::*;

verus! {

/// Why a consensus or ledger operation was refused.
#[derive(Clone, Copy, Debug, PartialEq, Eq, Structural)]
pub enum LedgerError {
    /// The block regresses in slot or repeats the tip's hash.
    MaliciousBlock,
    /// The transaction's signature was already applied once.
    DoubleSpend,
    /// Cryptographic verification of the transaction failed.
    InvalidSignature,
    /// A debit would drive a balance or stake below zero.
    InsufficientFunds,
    /// The paying account has no balance entry.
    SenderNotFound,
    /// The candidate's stake is below the proposer minimum.
    InsufficientStake,
    /// A stake increase would exceed the concentration cap.
    ConcentrationCapExceeded,
    /// A checked arithmetic operation would overflow.
    ArithmeticOverflow,
    /// An airdrop exceeds the treasury balance or the per-call cap.
    AirdropLimitExceeded,
    /// Voting stake falls short of the two-thirds supermajority.
    InsufficientVotes,
    /// The durable log could not be opened or written.
    PersistenceFailure,
    /// The address is not a well-formed account address.
    InvalidAddress,
}

impl LedgerError {
    /// A short human-readable description of the error kind.
    pub fn describe(&self) -> &'static str {
        match self {
            LedgerError::MaliciousBlock => "malicious block detected",
            LedgerError::DoubleSpend => "double-spend detected",
            LedgerError::InvalidSignature => "invalid signature",
            LedgerError::InsufficientFunds => "insufficient funds",
            LedgerError::SenderNotFound => "sender not found",
            LedgerError::InsufficientStake => "insufficient stake",
            LedgerError::ConcentrationCapExceeded => "concentration cap exceeded",
            LedgerError::ArithmeticOverflow => "arithmetic overflow",
            LedgerError::AirdropLimitExceeded => "airdrop limit exceeded",
            LedgerError::InsufficientVotes => "insufficient stake votes",
            LedgerError::PersistenceFailure => "persistence failure",
            LedgerError::InvalidAddress => "invalid address",
        }
    }
}

} // verus!
