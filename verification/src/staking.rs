//! The stake-account lifecycle: minimum stake at creation, a concentration
//! cap on growth, time-based reward accrual, and slashing with a
//! reputation penalty. The caller supplies the clock reading; every
//! operation is checked and leaves the account untouched when refused.

use vstd::prelude::*;

use crate::errors::LedgerError;

verus! {

/// The minimum stake to open a stake account, in lamports.
pub const MIN_INITIAL_STAKE: u64 = 1_000 * 1_000_000_000;

/// The reputation score a fresh stake account starts with.
pub const INITIAL_REPUTATION: u64 = 100;

/// The flat reputation grant for each successful stake.
pub const STAKE_REPUTATION_BONUS: u64 = 10;

/// The flat reputation penalty for each slash.
pub const SLASH_REPUTATION_PENALTY: u64 = 25;

/// Seconds in the staking year used for reward accrual.
pub const SECONDS_PER_YEAR: u64 = 365 * 24 * 3600;

/// The reward-rate denominator: rewards accrue at 7% a year, so the
/// accrued reward is `amount * 7 * elapsed / (100 * SECONDS_PER_YEAR)`.
pub const REWARD_DENOMINATOR: u64 = 100 * 365 * 24 * 3600;

/// One participant's staked amount, last-touched time, and reputation.
pub struct StakeAccount {
    pub owner: String,
    pub amount: u64,
    pub last_updated: i64,
    pub reputation_score: u64,
}

/// The reward accrued over `elapsed` seconds: 7% a year of the staked
/// amount, pro rata, rounded down; nothing for a clock that went
/// backwards.
pub open spec fn reward_spec(amount: u64, elapsed: int) -> int {
    if elapsed <= 0 {
        0
    } else {
        amount * 7 * elapsed / (REWARD_DENOMINATOR as int)
    }
}

/// A reputation grant saturates at the top of the scale.
pub open spec fn reputation_after_bonus(rep: u64) -> u64 {
    if rep + STAKE_REPUTATION_BONUS > u64::MAX {
        u64::MAX
    } else {
        (rep + STAKE_REPUTATION_BONUS) as u64
    }
}

/// A reputation penalty saturates at zero.
pub open spec fn reputation_after_penalty(rep: u64) -> u64 {
    if rep >= SLASH_REPUTATION_PENALTY {
        (rep - SLASH_REPUTATION_PENALTY) as u64
    } else {
        0
    }
}

/// Why a stake increase would be refused: past the 10% concentration cap
/// of the network's total stake, or past the amount's range.
pub open spec fn stake_rejection(current: u64, amount: u64, total_stake: u64) -> Option<
    LedgerError,
> {
    if current + amount > total_stake / 10 {
        Some(LedgerError::ConcentrationCapExceeded)
    } else if current + amount > u64::MAX {
        Some(LedgerError::ArithmeticOverflow)
    } else {
        None
    }
}

/// Opens a stake account: refused below the minimum proposer threshold;
/// otherwise the account starts with the full amount, the given clock
/// reading, and the initial reputation.
pub fn initialize_stake(owner: String, amount: u64, now: i64) -> (r: Result<
    StakeAccount,
    LedgerError,
>)
    ensures
        match r {
            Ok(a) => amount >= MIN_INITIAL_STAKE && a.owner == owner && a.amount == amount
                && a.last_updated == now && a.reputation_score == INITIAL_REPUTATION,
            Err(e) => amount < MIN_INITIAL_STAKE && e == LedgerError::InsufficientStake,
        },
{
    if amount < MIN_INITIAL_STAKE {
        return Err(LedgerError::InsufficientStake);
    }
    Ok(
        StakeAccount {
            owner,
            amount,
            last_updated: now,
            reputation_score: INITIAL_REPUTATION,
        },
    )
}

/// Adds to a stake account: refused when the result would exceed 10% of
/// the network's total stake, or would overflow. On success the amount
/// grows, the clock reading is taken, and a flat reputation bonus is
/// granted.
pub fn stake(account: &mut StakeAccount, amount: u64, total_stake: u64, now: i64) -> (r: Result<
    (),
    LedgerError,
>)
    ensures
        match r {
            Err(e) => Some(e) == stake_rejection(old(account).amount, amount, total_stake)
                && *final(account) == *old(account),
            Ok(()) => {
                &&& stake_rejection(old(account).amount, amount, total_stake) is None
                &&& final(account).amount == old(account).amount + amount
                &&& final(account).last_updated == now
                &&& final(account).reputation_score == reputation_after_bonus(
                    old(account).reputation_score,
                )
                &&& final(account).owner == old(account).owner
            },
        },
{
    let sum = (account.amount as u128) + (amount as u128);
    if sum > (total_stake / 10) as u128 {
        return Err(LedgerError::ConcentrationCapExceeded);
    }
    if sum > u64::MAX as u128 {
        return Err(LedgerError::ArithmeticOverflow);
    }
    account.amount = account.amount + amount;
    account.last_updated = now;
    account.reputation_score = if account.reputation_score > u64::MAX - STAKE_REPUTATION_BONUS {
        u64::MAX
    } else {
        account.reputation_score + STAKE_REPUTATION_BONUS
    };
    Ok(())
}

/// Removes from a stake account: refused when the amount is not covered.
/// On success the amount shrinks and the clock reading is taken.
pub fn unstake(account: &mut StakeAccount, amount: u64, now: i64) -> (r: Result<(), LedgerError>)
    ensures
        match r {
            Err(e) => e == LedgerError::InsufficientFunds && old(account).amount < amount
                && *final(account) == *old(account),
            Ok(()) => {
                &&& old(account).amount >= amount
                &&& final(account).amount == old(account).amount - amount
                &&& final(account).last_updated == now
                &&& final(account).reputation_score == old(account).reputation_score
                &&& final(account).owner == old(account).owner
            },
        },
{
    if account.amount < amount {
        return Err(LedgerError::InsufficientFunds);
    }
    account.amount = account.amount - amount;
    account.last_updated = now;
    Ok(())
}

/// Accrues the 7%-a-year reward since the account was last touched and
/// adds it to the stake: refused when the grown amount would overflow.
/// On success the clock reading is taken.
pub fn claim_rewards(account: &mut StakeAccount, now: i64) -> (r: Result<(), LedgerError>)
    ensures
        match r {
            Err(e) => e == LedgerError::ArithmeticOverflow && old(account).amount + reward_spec(
                old(account).amount,
                now - old(account).last_updated,
            ) > u64::MAX && *final(account) == *old(account),
            Ok(()) => {
                &&& final(account).amount == old(account).amount + reward_spec(
                    old(account).amount,
                    now - old(account).last_updated,
                )
                &&& final(account).last_updated == now
                &&& final(account).reputation_score == old(account).reputation_score
                &&& final(account).owner == old(account).owner
            },
        },
{
    let elapsed: i128 = (now as i128) - (account.last_updated as i128);
    if elapsed <= 0 {
        account.last_updated = now;
        return Ok(());
    }
    let e = elapsed as u128;
    let a7 = (account.amount as u128) * 7;
    let prod = match a7.checked_mul(e) {
        Some(p) => p,
        None => {
            proof {
                lemma_huge_product_overflows(account.amount, e as int);
            }
            return Err(LedgerError::ArithmeticOverflow);
        },
    };
    let reward128 = prod / (REWARD_DENOMINATOR as u128);
    if reward128 > (u64::MAX - account.amount) as u128 {
        return Err(LedgerError::ArithmeticOverflow);
    }
    account.amount = account.amount + (reward128 as u64);
    account.last_updated = now;
    Ok(())
}

/// Slashes a stake account for detected misbehavior: refused when the
/// amount is not covered. On success the amount shrinks and a flat
/// reputation penalty applies, saturating at zero.
pub fn slash(account: &mut StakeAccount, amount: u64) -> (r: Result<(), LedgerError>)
    ensures
        match r {
            Err(e) => e == LedgerError::InsufficientFunds && old(account).amount < amount
                && *final(account) == *old(account),
            Ok(()) => {
                &&& old(account).amount >= amount
                &&& final(account).amount == old(account).amount - amount
                &&& final(account).reputation_score == reputation_after_penalty(
                    old(account).reputation_score,
                )
                &&& final(account).last_updated == old(account).last_updated
                &&& final(account).owner == old(account).owner
            },
        },
{
    if account.amount < amount {
        return Err(LedgerError::InsufficientFunds);
    }
    account.amount = account.amount - amount;
    account.reputation_score = if account.reputation_score >= SLASH_REPUTATION_PENALTY {
        account.reputation_score - SLASH_REPUTATION_PENALTY
    } else {
        0
    };
    Ok(())
}

/// When `amount * 7 * elapsed` exceeds the 128-bit range, the accrued
/// reward alone exceeds the 64-bit range.
proof fn lemma_huge_product_overflows(amount: u64, elapsed: int)
    requires
        elapsed > 0,
        amount * 7 * elapsed > u128::MAX,
    ensures
        amount + reward_spec(amount, elapsed) > u64::MAX,
{
    let d = REWARD_DENOMINATOR as int;
    let p = amount * 7 * elapsed;
    let big = u64::MAX as int + 1;
    assert(big == 0x1_0000_0000_0000_0000 && d == 3_153_600_000);
    assert(0x1_0000_0000_0000_0000 * 3_153_600_000 < u128::MAX as int) by (nonlinear_arith);
    vstd::arithmetic::div_mod::lemma_div_multiples_vanish(big, d);
    vstd::arithmetic::div_mod::lemma_div_is_ordered(big * d, p, d);
    assert(p / d >= big);
}

} // verus!
