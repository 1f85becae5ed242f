//! The proof-of-work block proposer and the stake-weighted quorum voter.
//! The proposer searches for a nonce whose memory-hard digest of
//! `(slot || proposer || recorder hash || nonce)` falls below a difficulty
//! target adjusted from recent block timings; the voter checks a
//! two-thirds stake supermajority.

use vstd::prelude::*;

use crate::accounts::AccountTable;
use crate::digests::{pow_digest, pow_digest_of};
use crate::errors::LedgerError;
use crate::ledger::{Block, Ledger};
use crate::txdata::{signature_valid, verify_signature};
use vstd::utf8::encode_utf8;

verus! {

/// The minimum stake required to propose a block, in lamports.
pub const PROPOSER_MIN_STAKE: u64 = 1_000 * 1_000_000_000;

/// Slot-tick duration assumed when averaging block times, in milliseconds.
pub const TICK_MS: u64 = 400;

/// Above this average block time the target eases by one leading-byte step.
pub const EASE_THRESHOLD_MS: u64 = 4000;

/// Below this average block time the target hardens by one step.
pub const HARDEN_THRESHOLD_MS: u64 = 3000;

/// The lowest value the target's leading byte may take.
pub const TARGET_MIN_BYTE: u8 = 0x1a;

/// The highest value the target's leading byte may take.
pub const TARGET_MAX_BYTE: u8 = 0x1f;

/// How many of the most recent blocks the difficulty adjustment samples.
pub const DIFFICULTY_WINDOW: u64 = 10;

/// Big-endian byte `i` of a 64-bit value.
pub open spec fn be_byte_8(x: u64, i: int) -> u8 {
    ((x >> (((7 - i) * 8) as u64)) & 0xff) as u8
}

/// The 8 bytes of a 64-bit value in big-endian order.
pub open spec fn be_bytes_8(x: u64) -> Seq<u8> {
    Seq::new(8, |i: int| be_byte_8(x, i))
}

/// Encodes a 64-bit value as 8 big-endian bytes.
pub fn u64_to_be_bytes(x: u64) -> (r: Vec<u8>)
    ensures
        r@ == be_bytes_8(x),
{
    let mut r: Vec<u8> = Vec::new();
    let mut i: usize = 0;
    while i < 8
        invariant
            0 <= i <= 8,
            r@.len() == i,
            forall|j: int| 0 <= j < i ==> r@[j] == be_byte_8(x, j),
        decreases 8 - i,
    {
        let s: u64 = ((7 - i) * 8) as u64;
        assert((x >> s) & 0xff < 256) by (bit_vector);
        let b: u8 = ((x >> s) & 0xff) as u8;
        assert(b == be_byte_8(x, i as int));
        r.push(b);
        i = i + 1;
    }
    proof {
        assert(r@ =~= be_bytes_8(x));
    }
    r
}

/// The ASCII bytes of `n` rendered in decimal.
pub open spec fn dec_bytes(n: nat) -> Seq<u8>
    decreases n,
{
    if n < 10 {
        seq![(48 + n) as u8]
    } else {
        dec_bytes(n / 10).push((48 + n % 10) as u8)
    }
}

/// Renders `n` in decimal as ASCII bytes.
pub fn dec_bytes_u64(n: u64) -> (r: Vec<u8>)
    ensures
        r@ == dec_bytes(n as nat),
    decreases n,
{
    if n < 10 {
        let mut r: Vec<u8> = Vec::new();
        r.push((48 + n) as u8);
        proof {
            assert(r@ =~= dec_bytes(n as nat));
        }
        r
    } else {
        let mut r = dec_bytes_u64(n / 10);
        r.push((48 + n % 10) as u8);
        proof {
            assert(r@ =~= dec_bytes(n as nat));
        }
        r
    }
}

/// Strict lexicographic order on byte strings, as the candidate digest is
/// compared against the target: earlier bytes decide; a proper prefix is
/// smaller.
pub open spec fn lex_lt(a: Seq<u8>, b: Seq<u8>) -> bool
    decreases a.len(),
{
    if b.len() == 0 {
        false
    } else if a.len() == 0 {
        true
    } else if a[0] < b[0] {
        true
    } else if a[0] > b[0] {
        false
    } else {
        lex_lt(a.drop_first(), b.drop_first())
    }
}

/// Compares two byte vectors in strict lexicographic order.
pub fn bytes_lt(a: &Vec<u8>, b: &Vec<u8>) -> (r: bool)
    ensures
        r == lex_lt(a@, b@),
{
    let an = a.len();
    let bn = b.len();
    let mut i: usize = 0;
    proof {
        assert(a@.skip(0) =~= a@);
        assert(b@.skip(0) =~= b@);
    }
    loop
        invariant
            an == a@.len(),
            bn == b@.len(),
            0 <= i <= an,
            i <= bn,
            lex_lt(a@, b@) == lex_lt(a@.skip(i as int), b@.skip(i as int)),
        decreases an - i,
    {
        if i == bn {
            proof {
                assert(b@.skip(i as int).len() == 0);
            }
            return false;
        }
        if i == an {
            proof {
                assert(a@.skip(i as int).len() == 0 && b@.skip(i as int).len() > 0);
            }
            return true;
        }
        let x = a[i];
        let y = b[i];
        proof {
            assert(a@.skip(i as int)[0] == a@[i as int]);
            assert(b@.skip(i as int)[0] == b@[i as int]);
        }
        if x < y {
            return true;
        }
        if x > y {
            return false;
        }
        proof {
            assert(a@.skip(i as int).drop_first() =~= a@.skip(i + 1));
            assert(b@.skip(i as int).drop_first() =~= b@.skip(i + 1));
        }
        i = i + 1;
    }
}

/// How many of the chain's newest blocks the adjustment samples.
pub open spec fn difficulty_window(blocks: Seq<Block>) -> int {
    if blocks.len() >= DIFFICULTY_WINDOW {
        DIFFICULTY_WINDOW as int
    } else {
        blocks.len() as int
    }
}

/// The average inter-block time over the sampled window: the span from
/// the oldest sampled slot to the current slot at the fixed tick
/// duration, per sampled block; the fixed tick time when the window is
/// too small.
pub open spec fn avg_block_time(blocks: Seq<Block>, slot: u64) -> int {
    let count = difficulty_window(blocks);
    if count >= 2 {
        (slot - blocks[blocks.len() - count].slot) * TICK_MS / count
    } else {
        TICK_MS as int
    }
}

/// One adjustment step of the target's leading byte: ease when blocks
/// come too slowly, harden when they come too quickly, then clamp into
/// the fixed range.
pub open spec fn adjusted_leading_byte(prev: u8, avg: int) -> u8 {
    let stepped: u8 = if avg > EASE_THRESHOLD_MS {
        if prev == 0 {
            0
        } else {
            (prev - 1) as u8
        }
    } else if avg < HARDEN_THRESHOLD_MS {
        if prev == 255 {
            255
        } else {
            (prev + 1) as u8
        }
    } else {
        prev
    };
    if stepped < TARGET_MIN_BYTE {
        TARGET_MIN_BYTE
    } else if stepped > TARGET_MAX_BYTE {
        TARGET_MAX_BYTE
    } else {
        stepped
    }
}

/// The difficulty target derived from the tip: the tip's hash with its
/// leading byte stepped by the timing average and clamped.
pub open spec fn adjusted_target(blocks: Seq<Block>, last: &Block, slot: u64) -> Seq<u8> {
    last.hash@.update(0, adjusted_leading_byte(last.hash@[0], avg_block_time(blocks, slot)))
}

/// Law: difficulty bounds. For any history of block timings, the adjusted
/// target's leading byte lies within the fixed clamp range.
pub proof fn lemma_difficulty_bounds(blocks: Seq<Block>, last: &Block, slot: u64)
    requires
        last.hash@.len() > 0,
    ensures
        TARGET_MIN_BYTE <= adjusted_target(blocks, last, slot)[0] <= TARGET_MAX_BYTE,
{
}

/// Recomputes the difficulty target from the tip block and the recent
/// window of the chain.
pub fn adjust_difficulty(last_block: &Block, slot: u64, ledger: &Ledger) -> (r: Vec<u8>)
    requires
        last_block.hash@.len() > 0,
        difficulty_window(ledger.blocks@) >= 2 ==> slot >= ledger.blocks@[ledger.blocks@.len()
            - difficulty_window(ledger.blocks@)].slot,
    ensures
        r@ == adjusted_target(ledger.blocks@, last_block, slot),
        r@.len() == last_block.hash@.len(),
        TARGET_MIN_BYTE <= r@[0] <= TARGET_MAX_BYTE,
{
    let mut target = last_block.hash.clone();
    let len = ledger.blocks.len();
    let count: u64 = if len >= 10 {
        10
    } else {
        len as u64
    };
    let avg128: u128 = if count >= 2 {
        let oldest = ledger.blocks[len - (count as usize)].slot;
        proof {
            assert(count as int == difficulty_window(ledger.blocks@));
            assert(slot >= oldest);
        }
        let span = slot - oldest;
        proof {
            assert((span as u128) * (TICK_MS as u128) <= 0xffff_ffff_ffff_ffff * 400)
                by (nonlinear_arith)
                requires
                    span <= 0xffff_ffff_ffff_ffff,
                    TICK_MS == 400,
            ;
        }
        let prod: u128 = (span as u128) * (TICK_MS as u128);
        prod / (count as u128)
    } else {
        TICK_MS as u128
    };
    let prev = target[0];
    let stepped: u8 = if avg128 > EASE_THRESHOLD_MS as u128 {
        if prev == 0 {
            0
        } else {
            prev - 1
        }
    } else if avg128 < HARDEN_THRESHOLD_MS as u128 {
        if prev == 255 {
            255
        } else {
            prev + 1
        }
    } else {
        prev
    };
    let clamped: u8 = if stepped < TARGET_MIN_BYTE {
        TARGET_MIN_BYTE
    } else if stepped > TARGET_MAX_BYTE {
        TARGET_MAX_BYTE
    } else {
        stepped
    };
    target.set(0, clamped);
    proof {
        assert(avg128 as int == avg_block_time(ledger.blocks@, slot));
        assert(target@ =~= adjusted_target(ledger.blocks@, last_block, slot));
    }
    target
}

/// The baseline difficulty target used while the chain is empty: a
/// 32-byte string whose leading byte is the easiest clamp value.
pub open spec fn baseline_target() -> Seq<u8> {
    Seq::new(32, |i: int| if i == 0 {
        TARGET_MAX_BYTE
    } else {
        0u8
    })
}

/// The target a proposal at this slot must beat: adjusted from the tip
/// when one exists, the baseline otherwise.
pub open spec fn proposal_target(ledger: &Ledger, slot: u64) -> Seq<u8> {
    if ledger.blocks@.len() > 0 {
        adjusted_target(ledger.blocks@, &ledger.blocks@.last(), slot)
    } else {
        baseline_target()
    }
}

/// The byte string hashed by the proof-of-work search: the decimal slot,
/// the proposer's address bytes, the recorder's hash, and the nonce in
/// big-endian form.
pub open spec fn pow_input(slot: u64, proposer: Seq<u8>, poh: Seq<u8>, nonce: u64) -> Seq<u8> {
    dec_bytes(slot as nat) + proposer + poh + be_bytes_8(nonce)
}

/// The `k`-th candidate nonce of a search that starts at `start`, the
/// nonce wrapping around the 64-bit range.
pub open spec fn nonce_at(start: u64, k: u64) -> u64 {
    ((start + k) % 0x1_0000_0000_0000_0000) as u64
}

/// Whether the candidate nonce wins at this slot: its digest falls below
/// the target.
pub open spec fn candidate_wins(
    slot: u64,
    proposer: Seq<char>,
    poh: Seq<u8>,
    nonce: u64,
    target: Seq<u8>,
) -> bool {
    lex_lt(pow_digest_of(pow_input(slot, encode_utf8(proposer), poh, nonce)), target)
}

/// Whether a search from `start` misses the target on all of its first
/// `max_iters` candidates.
pub open spec fn search_missed(
    slot: u64,
    proposer: Seq<char>,
    poh: Seq<u8>,
    target: Seq<u8>,
    start: u64,
    max_iters: u64,
) -> bool {
    forall|k: u64|
        k < max_iters ==> !candidate_wins(slot, proposer, poh, #[trigger] nonce_at(start, k), target)
}

/// Relies on rand's `random`: a fresh starting nonce for the search.
/// Nothing is promised of the value.
#[verifier::external_body]
fn random_u64() -> u64 {
    rand::random::<u64>()
}

/// Searches for a proof-of-work block at `slot`: refused while the
/// proposer's stake is below the minimum; otherwise hashes candidate
/// nonces from a fresh starting point against the adjusted target, giving
/// up after `max_iters` candidates so a new slot or a leadership change
/// can take over. A returned block carries the slot, the winning digest —
/// which beats the target — and the nonce that produced it.
pub fn propose_block(
    slot: u64,
    proposer: &String,
    ledger: &Ledger,
    poh_hash: &Vec<u8>,
    max_iters: u64,
) -> (r: Result<Option<Block>, LedgerError>)
    requires
        ledger.wf(),
        ledger.blocks@.len() > 0 ==> ledger.blocks@.last().hash@.len() > 0,
        difficulty_window(ledger.blocks@) >= 2 ==> slot >= ledger.blocks@[ledger.blocks@.len()
            - difficulty_window(ledger.blocks@)].slot,
    ensures
        match r {
            Err(e) => e == LedgerError::InsufficientStake && ledger.stakes.amount_of(proposer@)
                < PROPOSER_MIN_STAKE,
            Ok(out) => ledger.stakes.amount_of(proposer@) >= PROPOSER_MIN_STAKE && match out {
                Some(b) => {
                    &&& b.slot == slot
                    &&& b.transactions@.len() == 0
                    &&& b.hash@ == pow_digest_of(
                        pow_input(slot, encode_utf8(proposer@), poh_hash@, b.nonce),
                    )
                    &&& lex_lt(b.hash@, proposal_target(ledger, slot))
                },
                None => exists|start: u64| #[trigger] search_missed(
                    slot,
                    proposer@,
                    poh_hash@,
                    proposal_target(ledger, slot),
                    start,
                    max_iters,
                ),
            },
        },
{
    let stake = match ledger.stakes.get(proposer) {
        Some(s) => s,
        None => 0,
    };
    if stake < PROPOSER_MIN_STAKE {
        return Err(LedgerError::InsufficientStake);
    }
    let target: Vec<u8> = match ledger.get_last_block() {
        Some(last) => adjust_difficulty(last, slot, ledger),
        None => {
            let mut t: Vec<u8> = Vec::new();
            t.push(TARGET_MAX_BYTE);
            let mut i: usize = 1;
            while i < 32
                invariant
                    1 <= i <= 32,
                    t@.len() == i,
                    t@[0] == TARGET_MAX_BYTE,
                    forall|j: int| 1 <= j < i ==> t@[j] == 0u8,
                decreases 32 - i,
            {
                t.push(0u8);
                i = i + 1;
            }
            proof {
                assert(t@ =~= baseline_target());
            }
            t
        },
    };
    let mut slot_data = dec_bytes_u64(slot);
    let mut proposer_bytes = proposer.as_str().as_bytes_vec();
    slot_data.append(&mut proposer_bytes);
    let start = random_u64();
    let mut nonce = start;
    let mut iters: u64 = 0;
    while iters < max_iters
        invariant
            ledger.wf(),
            ledger.stakes.amount_of(proposer@) >= PROPOSER_MIN_STAKE,
            target@ == proposal_target(ledger, slot),
            slot_data@ == dec_bytes(slot as nat) + encode_utf8(proposer@),
            iters <= max_iters,
            nonce == nonce_at(start, iters),
            forall|k: u64|
                k < iters ==> !candidate_wins(
                    slot,
                    proposer@,
                    poh_hash@,
                    #[trigger] nonce_at(start, k),
                    target@,
                ),
        decreases max_iters - iters,
    {
        let mut input = slot_data.clone();
        let mut poh_part = poh_hash.clone();
        input.append(&mut poh_part);
        let mut nonce_part = u64_to_be_bytes(nonce);
        input.append(&mut nonce_part);
        proof {
            assert(input@ =~= pow_input(slot, encode_utf8(proposer@), poh_hash@, nonce));
        }
        let h = pow_digest(input.as_slice());
        if bytes_lt(&h, &target) {
            return Ok(
                Some(Block { slot, hash: h, nonce, transactions: Vec::new() }),
            );
        }
        proof {
            let m = 0x1_0000_0000_0000_0000int;
            vstd::arithmetic::div_mod::lemma_add_mod_noop(start + iters, 1, m);
            vstd::arithmetic::div_mod::lemma_small_mod(1nat, m as nat);
            if nonce < u64::MAX {
                vstd::arithmetic::div_mod::lemma_small_mod((nonce + 1) as nat, m as nat);
            } else {
                vstd::arithmetic::div_mod::lemma_mod_self_0(m);
            }
            assert(vstd::wrapping::u64_specs::wrapping_add(nonce, 1) == nonce_at(
                start,
                (iters + 1) as u64,
            ));
        }
        nonce = nonce.wrapping_add(1);
        iters = iters + 1;
    }
    proof {
        assert(search_missed(
            slot,
            proposer@,
            poh_hash@,
            proposal_target(ledger, slot),
            start,
            max_iters,
        ));
    }
    Ok(None)
}

/// Checks a peer's claim to be a listed validator, as the transport
/// layer's handshake consumes it: true exactly when the claimed key is
/// one of the validator addresses and the signature is valid by that key
/// over the node id's bytes. The handshake's proof-of-work challenge and
/// acknowledgement stay with the transport.
pub fn authenticate_peer(
    node_id: &String,
    signature: &Vec<u8>,
    claimed_key: &String,
    validators: &Vec<String>,
) -> (r: bool)
    ensures
        r == ((exists|i: int|
            0 <= i < validators@.len() && (#[trigger] validators@[i])@ == claimed_key@)
            && signature_valid(claimed_key@, encode_utf8(node_id@), signature@)),
{
    let n = validators.len();
    let mut i: usize = 0;
    let mut member = false;
    while i < n
        invariant
            n == validators@.len(),
            0 <= i <= n,
            member == exists|j: int|
                0 <= j < i && (#[trigger] validators@[j])@ == claimed_key@,
        decreases n - i,
    {
        if validators[i] == *claimed_key {
            member = true;
        }
        i = i + 1;
    }
    if !member {
        return false;
    }
    let message = node_id.as_str().as_bytes_vec();
    verify_signature(claimed_key, &message, signature)
}

/// The staked weight behind a validator list: each listed validator
/// contributes its stake, a repeated entry contributes again.
pub open spec fn votes_sum(validators: Seq<String>, stakes: &AccountTable) -> int
    decreases validators.len(),
{
    if validators.len() == 0 {
        0
    } else {
        votes_sum(validators.drop_last(), stakes) + stakes.amount_of(validators.last()@)
    }
}

/// Checks stake-weighted finality for a block: succeeds exactly when the
/// stake behind the listed validators reaches two thirds of the total
/// stake.
pub fn vote(block: &Block, validators: &Vec<String>, stakes: &AccountTable) -> (r: Result<
    (),
    LedgerError,
>)
    requires
        stakes.wf(),
    ensures
        match r {
            Ok(()) => votes_sum(validators@, stakes) >= stakes.total() * 2 / 3,
            Err(e) => e == LedgerError::InsufficientVotes && votes_sum(validators@, stakes)
                < stakes.total() * 2 / 3,
        },
{
    let total = stakes.total_amount();
    let q = total / 3;
    let r3 = total % 3;
    proof {
        vstd::arithmetic::div_mod::lemma_fundamental_div_mod(total as int, 3);
    }
    let threshold: u128 = if r3 == 2 {
        2 * q + 1
    } else {
        2 * q
    };
    proof {
        if r3 == 2 {
            vstd::arithmetic::div_mod::lemma_fundamental_div_mod_converse(
                2 * (total as int),
                3,
                2 * (q as int) + 1,
                1,
            );
        } else {
            vstd::arithmetic::div_mod::lemma_fundamental_div_mod_converse(
                2 * (total as int),
                3,
                2 * (q as int),
                2 * (r3 as int),
            );
        }
        assert(threshold as int == stakes.total() * 2 / 3);
    }
    let n = validators.len();
    let mut votes: u128 = 0;
    let mut i: usize = 0;
    while i < n
        invariant
            stakes.wf(),
            n == validators@.len(),
            0 <= i <= n,
            votes as int == votes_sum(validators@.take(i as int), stakes),
            votes as int <= i * 0xffff_ffff_ffff_ffff,
        decreases n - i,
    {
        proof {
            assert(validators@.take(i + 1).drop_last() =~= validators@.take(i as int));
            assert(validators@.take(i + 1).last() == validators@[i as int]);
            assert(i * 0xffff_ffff_ffff_ffff + 0xffff_ffff_ffff_ffff == (i + 1)
                * 0xffff_ffff_ffff_ffff) by (nonlinear_arith);
            assert((i + 1) * 0xffff_ffff_ffff_ffff <= 0xffff_ffff_ffff_ffff_ffff_ffff_ffff_ffff)
                by (nonlinear_arith)
                requires
                    i + 1 <= 0x1_0000_0000_0000_0000,
            ;
        }
        let s = match stakes.get(&validators[i]) {
            Some(s) => s,
            None => 0,
        };
        votes = votes + (s as u128);
        i = i + 1;
    }
    proof {
        assert(validators@.take(n as int) =~= validators@);
    }
    if votes >= threshold {
        Ok(())
    } else {
        Err(LedgerError::InsufficientVotes)
    }
}

} // verus!
