//! The append-only ledger: balances, stakes, the block sequence, the
//! Merkle tree over transaction-signature leaves, the de-duplication set,
//! and the durable log records. All consensus decisions serialize here.
//!
//! Supply accounting is carried alongside the state: the sum of all
//! balances plus every burned fee always equals the initial supply plus
//! every minted block reward, and the treasury's balance always equals the
//! initial supply minus what was airdropped plus what transfers and
//! rewards moved back into it.

use vstd::prelude::*;

use crate::accounts::AccountTable;
use crate::digests::{hex_of, hex_encode, merkle_root, merkle_root_of, sha256, sha256_of};
use crate::errors::LedgerError;
use crate::records::{
    airdrop_line, airdrop_line_spec, checkpoint_line, checkpoint_line_spec, finalized_line,
    finalized_line_spec, parse_airdrop_line, parse_airdrop_spec, transfer_line,
    transfer_line_spec, tx_line, tx_line_spec,
};
use crate::txdata::{
    is_valid_address, payload_within_wire_bounds, tx_account_count, tx_account_count_of,
    tx_account_key, tx_debug_of, tx_debug_string, tx_first_sig_of, tx_first_signature,
    tx_instruction_sizes, tx_instruction_sizes_of, tx_key_of, tx_verified, tx_verify,
    valid_address, MAX_SECTION_ENTRIES,
};

verus! {

/// Lamports per whole token unit.
pub const LAMPORTS_PER_XRS: u64 = 1_000_000_000;

/// The treasury's pre-funded balance, in lamports.
pub const TREASURY_INIT_BALANCE: u64 = 200_000_000 * 1_000_000_000;

/// The treasury's initial stake, in lamports.
pub const TREASURY_INIT_STAKE: u64 = 100_000_000 * 1_000_000_000;

/// Slots between checkpoint markers; also the reward-halving period.
pub const CHECKPOINT_INTERVAL: u64 = 1000;

/// The slot depth at which a transaction is recorded as finalized.
pub const FINALITY_SLOTS: u64 = 10;

/// The fixed per-transaction transferred amount, in lamports.
pub const TX_AMOUNT: u64 = 10 * 1_000_000_000;

/// The fixed per-transaction burned fee: 0.1% of the amount.
pub const TX_FEE: u64 = 10 * 1_000_000_000 / 1000;

/// The block reward before any halving, in lamports.
pub const BASE_REWARD: u64 = 342_500_000_000;

/// The stake granted to a block's proposer on each append.
pub const STAKE_PER_BLOCK: u64 = 1_000_000_000;

/// The absolute per-call airdrop cap, in lamports.
pub const AIRDROP_CAP: u64 = 10_000_000_000_000;

/// A proposed or appended block. Immutable once appended.
pub struct Block {
    pub slot: u64,
    pub hash: Vec<u8>,
    pub nonce: u64,
    pub transactions: Vec<solana_sdk::transaction::Transaction>,
}

/// Whether some string in `s` reads `k`.
pub open spec fn seq_contains_str(s: Seq<String>, k: Seq<char>) -> bool {
    exists|i: int| 0 <= i < s.len() && (#[trigger] s[i])@ == k
}

/// Whether appending `b` would regress the chain: slot not advancing past
/// the tip, or the tip's hash replayed.
pub open spec fn malicious_spec(blocks: Seq<Block>, b: &Block) -> bool {
    blocks.len() > 0 && (b.slot <= blocks.last().slot || b.hash@ == blocks.last().hash@)
}

/// The block reward at a slot: the base reward halved once per elapsed
/// checkpoint interval.
pub open spec fn block_reward_spec(slot: u64) -> u64 {
    let halvings = slot / CHECKPOINT_INTERVAL;
    if halvings < 64 {
        BASE_REWARD >> halvings
    } else {
        0
    }
}

/// The total a sender must cover per transaction: amount plus fee.
pub const TX_TOTAL: u64 = TX_AMOUNT + TX_FEE;

/// Why a transaction would be refused against this ledger state, if at
/// all: a replayed signature, a failed verification, an unknown sender,
/// insufficient funds, or a recipient balance that cannot take the credit.
pub open spec fn tx_rejection(
    l: Ledger,
    sig_hex: Seq<char>,
    from: Seq<char>,
    to: Seq<char>,
    sig_ok: bool,
) -> Option<LedgerError> {
    if seq_contains_str(l.tx_seen@, sig_hex) {
        Some(LedgerError::DoubleSpend)
    } else if !sig_ok {
        Some(LedgerError::InvalidSignature)
    } else if !l.balances@.contains_key(from) {
        Some(LedgerError::SenderNotFound)
    } else if l.balances@[from] < TX_TOTAL {
        Some(LedgerError::InsufficientFunds)
    } else if from != to && l.balances@.contains_key(to) && l.balances@[to] + TX_AMOUNT
        > u64::MAX {
        Some(LedgerError::ArithmeticOverflow)
    } else {
        None
    }
}

/// The balance map after a transfer: the sender pays amount plus fee, the
/// recipient gains the amount, and the fee leaves circulation.
pub open spec fn balances_after_transfer(
    m: Map<Seq<char>, u64>,
    from: Seq<char>,
    to: Seq<char>,
) -> Map<Seq<char>, u64> {
    let m1 = m.insert(from, (m[from] - TX_TOTAL) as u64);
    let prev = if m1.contains_key(to) {
        m1[to] as int
    } else {
        0
    };
    m1.insert(to, (prev + TX_AMOUNT) as u64)
}

/// The durable records one applied transaction appends: the transaction
/// line, the transfer summary, and past the finality depth a finalization
/// marker.
pub open spec fn tx_log_lines(
    slot: u64,
    txdbg: Seq<char>,
    from: Seq<char>,
    to: Seq<char>,
) -> Seq<Seq<char>> {
    let base = seq![
        tx_line_spec(slot, txdbg),
        transfer_line_spec(TX_AMOUNT / LAMPORTS_PER_XRS, from, to, TX_FEE / LAMPORTS_PER_XRS),
    ];
    if slot >= FINALITY_SLOTS {
        base.push(finalized_line_spec(slot))
    } else {
        base
    }
}

/// Why a transaction payload would be refused against this ledger state,
/// if at all: a payload without a first signature, without a paying or a
/// receiving account, or with a message section past the wire bound is an
/// invalid signature; otherwise exactly `tx_rejection` over the payload's
/// extracted signature, addresses and verification outcome.
pub open spec fn tx_admission(l: Ledger, tx: solana_sdk::transaction::Transaction) -> Option<
    LedgerError,
> {
    if tx_first_sig_of(tx) is None {
        Some(LedgerError::InvalidSignature)
    } else if tx_key_of(tx, 0) is None {
        Some(LedgerError::InvalidSignature)
    } else if tx_key_of(tx, 1) is None {
        Some(LedgerError::InvalidSignature)
    } else if !payload_within_wire_bounds(tx) {
        Some(LedgerError::InvalidSignature)
    } else {
        tx_rejection(
            l,
            hex_of(tx_first_sig_of(tx).unwrap()),
            tx_key_of(tx, 0).unwrap(),
            tx_key_of(tx, 1).unwrap(),
            tx_verified(tx),
        )
    }
}

/// How a transfer moves the treasury's balance: it gains the amount when
/// it is the recipient and pays amount plus fee when it is the sender.
pub open spec fn transfer_treasury_delta(from: Seq<char>, to: Seq<char>, treasury: Seq<char>) -> int {
    (if to == treasury {
        TX_AMOUNT as int
    } else {
        0
    }) - (if from == treasury {
        TX_TOTAL as int
    } else {
        0
    })
}

/// Why a block would be refused against this ledger state, if at all:
/// chain regression, or a proposer credit that cannot be taken.
pub open spec fn block_rejection(l: Ledger, b: &Block, proposer: Seq<char>) -> Option<
    LedgerError,
> {
    if malicious_spec(l.blocks@, b) {
        Some(LedgerError::MaliciousBlock)
    } else if l.balances.amount_of(proposer) + block_reward_spec(b.slot) > u64::MAX {
        Some(LedgerError::ArithmeticOverflow)
    } else if l.stakes.amount_of(proposer) + STAKE_PER_BLOCK > u64::MAX {
        Some(LedgerError::ArithmeticOverflow)
    } else {
        None
    }
}

/// Why an airdrop would be refused against this ledger state, if at all:
/// over the treasury's balance or the absolute cap, a malformed address,
/// or a credit that cannot be taken.
pub open spec fn airdrop_rejection(l: Ledger, address: Seq<char>, amount: u64) -> Option<
    LedgerError,
> {
    if !(amount <= l.balances@[l.treasury@] && amount <= AIRDROP_CAP) {
        Some(LedgerError::AirdropLimitExceeded)
    } else if !valid_address(address) {
        Some(LedgerError::InvalidAddress)
    } else if address != l.treasury@ && l.balances@.contains_key(address) && l.balances@[address]
        + amount > u64::MAX {
        Some(LedgerError::ArithmeticOverflow)
    } else if l.stakes.amount_of(address) + amount > u64::MAX {
        Some(LedgerError::ArithmeticOverflow)
    } else {
        None
    }
}

/// The balance map after an airdrop: the recipient gains the amount and
/// the treasury pays it; an airdrop to the treasury itself moves nothing.
pub open spec fn balances_after_airdrop(
    m: Map<Seq<char>, u64>,
    treasury: Seq<char>,
    address: Seq<char>,
    amount: u64,
) -> Map<Seq<char>, u64> {
    if address == treasury {
        m
    } else {
        let prev = if m.contains_key(address) {
            m[address] as int
        } else {
            0
        };
        let m1 = m.insert(address, (prev + amount) as u64);
        m1.insert(treasury, (m1[treasury] - amount) as u64)
    }
}

/// What replaying one parsed airdrop record does to the reconstructed
/// state `(balances, stakes, airdropped, treasury_moved)`: the recorded
/// whole-token amount moves from the treasury to the recipient and raises
/// the recipient's stake. A record whose lamport amount does not fit,
/// whose address is not well formed, or that cannot be applied whole is
/// skipped.
pub open spec fn replay_parsed(
    st: (Map<Seq<char>, u64>, Map<Seq<char>, u64>, int, int),
    treasury: Seq<char>,
    xrs: u64,
    addr: Seq<char>,
) -> (Map<Seq<char>, u64>, Map<Seq<char>, u64>, int, int) {
    let lam = xrs as int * LAMPORTS_PER_XRS as int;
    let sprev = if st.1.contains_key(addr) {
        st.1[addr] as int
    } else {
        0
    };
    if lam > u64::MAX as int {
        st
    } else if !valid_address(addr) {
        st
    } else if (st.0[treasury] as int) < lam {
        st
    } else if addr != treasury && st.0.contains_key(addr) && st.0[addr] + lam > u64::MAX {
        st
    } else if sprev + lam > u64::MAX as int {
        st
    } else {
        (
            balances_after_airdrop(st.0, treasury, addr, lam as u64),
            st.1.insert(addr, (sprev + lam) as u64),
            st.2 + lam,
            st.3 + if addr == treasury {
                lam
            } else {
                0
            },
        )
    }
}

/// What replaying one log line does to the reconstructed state: airdrop
/// records are applied, every other line is skipped.
pub open spec fn replay_line(
    st: (Map<Seq<char>, u64>, Map<Seq<char>, u64>, int, int),
    treasury: Seq<char>,
    line: Seq<char>,
) -> (Map<Seq<char>, u64>, Map<Seq<char>, u64>, int, int) {
    match parse_airdrop_spec(line) {
        None => st,
        Some(p) => replay_parsed(st, treasury, p.0, p.1),
    }
}

/// What replaying a whole log does, line by line, oldest first.
pub open spec fn replay_lines(
    st: (Map<Seq<char>, u64>, Map<Seq<char>, u64>, int, int),
    treasury: Seq<char>,
    lines: Seq<Seq<char>>,
) -> (Map<Seq<char>, u64>, Map<Seq<char>, u64>, int, int)
    decreases lines.len(),
{
    if lines.len() == 0 {
        st
    } else {
        replay_line(replay_lines(st, treasury, lines.drop_last()), treasury, lines.last())
    }
}

/// The state a fresh ledger starts from, as `replay_lines` folds over it.
pub open spec fn genesis_state(treasury: Seq<char>) -> (
    Map<Seq<char>, u64>,
    Map<Seq<char>, u64>,
    int,
    int,
) {
    (
        Map::<Seq<char>, u64>::empty().insert(treasury, TREASURY_INIT_BALANCE),
        Map::<Seq<char>, u64>::empty().insert(treasury, TREASURY_INIT_STAKE),
        0,
        0,
    )
}

/// The consensus ledger.
pub struct Ledger {
    /// The pre-funded account from which airdrops are issued.
    pub treasury: String,
    /// Account balances, in lamports.
    pub balances: AccountTable,
    /// Stakes per account, in lamports.
    pub stakes: AccountTable,
    /// The append-only block sequence.
    pub blocks: Vec<Block>,
    /// One 32-byte digest per applied transaction signature.
    pub tx_leaves: Vec<Vec<u8>>,
    /// The Merkle root over `tx_leaves`, absent while no leaf exists.
    pub merkle_root: Option<[u8; 32]>,
    /// Hex renderings of every applied signature: the de-duplication set.
    pub tx_seen: Vec<String>,
    /// Durable log records not yet handed to the persistence layer.
    pub log: Vec<String>,
    /// Slots between checkpoints.
    pub checkpoint_interval: u64,
    /// Slot depth for finality markers.
    pub finality_slots: u64,
    /// The supply present at construction, in lamports.
    pub initial_supply: Ghost<int>,
    /// Every lamport minted as a block reward.
    pub minted: Ghost<int>,
    /// Every lamport burned as a transaction fee.
    pub burned: Ghost<int>,
    /// Every lamport issued from the treasury by airdrop.
    pub airdropped: Ghost<int>,
    /// Net lamports moved into the treasury by transfers and rewards.
    pub treasury_moved: Ghost<int>,
}

impl Ledger {
    /// The ledger's internal invariant. Every operation preserves it.
    ///
    /// Slots increase strictly along the whole chain. Hashes are distinct
    /// only between neighboring blocks: the equivocation guard compares a
    /// candidate with the current tip alone, so a hash may in principle
    /// recur deeper in the chain — only the tip is guarded.
    pub open spec fn wf(&self) -> bool {
        &&& self.balances.wf()
        &&& self.stakes.wf()
        &&& self.checkpoint_interval == CHECKPOINT_INTERVAL
        &&& self.finality_slots == FINALITY_SLOTS
        &&& forall|i: int, j: int|
            0 <= i < j < self.blocks@.len()
                ==> (#[trigger] self.blocks@[i]).slot < (#[trigger] self.blocks@[j]).slot
        &&& forall|i: int|
            0 <= i && i + 1 < self.blocks@.len() ==> (#[trigger] self.blocks@[i]).hash@
                != self.blocks@[i + 1].hash@
        &&& forall|i: int| 0 <= i < self.tx_leaves@.len()
                ==> (#[trigger] self.tx_leaves@[i])@.len() == 32
        &&& self.merkle_root == merkle_root_of(self.tx_leaves.deep_view())
        &&& forall|i: int, j: int|
            0 <= i < j < self.tx_seen@.len()
                ==> (#[trigger] self.tx_seen@[i])@ != (#[trigger] self.tx_seen@[j])@
        &&& self.balances@.contains_key(self.treasury@)
        &&& self.balances.total() + self.burned@ == self.initial_supply@ + self.minted@
        &&& self.balances@[self.treasury@] as int == self.initial_supply@ - self.airdropped@
            + self.treasury_moved@
        &&& self.minted@ >= 0
        &&& self.burned@ >= 0
        &&& self.airdropped@ >= 0
    }

    /// A fresh ledger: the treasury holds the whole initial supply and its
    /// initial stake; everything else is empty.
    pub fn new(treasury: String) -> (r: Ledger)
        ensures
            r.wf(),
            r.treasury == treasury,
            r.balances@ =~= Map::<Seq<char>, u64>::empty().insert(treasury@, TREASURY_INIT_BALANCE),
            r.stakes@ =~= Map::<Seq<char>, u64>::empty().insert(treasury@, TREASURY_INIT_STAKE),
            r.blocks@.len() == 0,
            r.tx_seen@.len() == 0,
            r.tx_leaves@.len() == 0,
            r.log@.len() == 0,
            r.initial_supply@ == TREASURY_INIT_BALANCE as int,
            r.minted@ == 0,
            r.burned@ == 0,
            r.airdropped@ == 0,
            r.treasury_moved@ == 0,
    {
        let mut balances = AccountTable::new();
        balances.set(&treasury, TREASURY_INIT_BALANCE);
        let mut stakes = AccountTable::new();
        stakes.set(&treasury, TREASURY_INIT_STAKE);
        let leaves: Vec<Vec<u8>> = Vec::new();
        let root = merkle_root(&leaves);
        Ledger {
            treasury,
            balances,
            stakes,
            blocks: Vec::new(),
            tx_leaves: leaves,
            merkle_root: root,
            tx_seen: Vec::new(),
            log: Vec::new(),
            checkpoint_interval: CHECKPOINT_INTERVAL,
            finality_slots: FINALITY_SLOTS,
            initial_supply: Ghost(TREASURY_INIT_BALANCE as int),
            minted: Ghost(0),
            burned: Ghost(0),
            airdropped: Ghost(0),
            treasury_moved: Ghost(0),
        }
    }

    /// The balance of an address, zero when absent.
    pub fn get_balance(&self, address: &String) -> (r: u64)
        requires
            self.wf(),
        ensures
            r as int == self.balances.amount_of(address@),
    {
        match self.balances.get(address) {
            Some(b) => b,
            None => 0,
        }
    }

    /// The stake table.
    pub fn get_stakes(&self) -> (r: &AccountTable)
        ensures
            r == &self.stakes,
    {
        &self.stakes
    }

    /// A read-only snapshot of the block sequence, for the explorer.
    pub fn get_blocks(&self) -> (r: &Vec<Block>)
        ensures
            r == &self.blocks,
    {
        &self.blocks
    }

    /// A read-only snapshot of the balance table, for the explorer.
    pub fn get_balances(&self) -> (r: &AccountTable)
        ensures
            r == &self.balances,
    {
        &self.balances
    }

    /// The most recently appended block, if any.
    pub fn get_last_block(&self) -> (r: Option<&Block>)
        ensures
            match r {
                Some(b) => self.blocks@.len() > 0 && b == &self.blocks@.last(),
                None => self.blocks@.len() == 0,
            },
    {
        let n = self.blocks.len();
        if n == 0 {
            None
        } else {
            Some(&self.blocks[n - 1])
        }
    }

    /// Whether `block` would regress the chain relative to the tip:
    /// a slot at or below the tip's, or the tip's hash repeated.
    pub fn detect_malicious(&self, block: &Block) -> (r: bool)
        ensures
            r == malicious_spec(self.blocks@, block),
    {
        let n = self.blocks.len();
        if n == 0 {
            return false;
        }
        let last = &self.blocks[n - 1];
        block.slot <= last.slot || bytes_eq(&block.hash, &last.hash)
    }

    /// The block reward at a slot: the base reward, halved once per
    /// elapsed checkpoint interval.
    pub fn get_block_reward(&self, slot: u64) -> (r: u64)
        requires
            self.wf(),
        ensures
            r == block_reward_spec(slot),
    {
        let halvings = slot / self.checkpoint_interval;
        if halvings < 64 {
            BASE_REWARD >> halvings
        } else {
            0
        }
    }

    /// Whether this signature rendering was already applied once.
    fn seen_contains(&self, k: &String) -> (r: bool)
        ensures
            r == seq_contains_str(self.tx_seen@, k@),
    {
        let n = self.tx_seen.len();
        let mut i: usize = 0;
        while i < n
            invariant
                n == self.tx_seen@.len(),
                0 <= i <= n,
                forall|j: int| 0 <= j < i ==> (#[trigger] self.tx_seen@[j])@ != k@,
            decreases n - i,
        {
            if self.tx_seen[i] == *k {
                return true;
            }
            i = i + 1;
        }
        false
    }

    /// Applies one transfer, given the plain values the payload carries:
    /// its signature bytes, the paying and receiving addresses, the
    /// verification outcome, and the slot it lands in. Rejected exactly as
    /// `tx_rejection` says, leaving the ledger untouched; on success the
    /// sender pays amount plus fee, the recipient gains the amount, the
    /// fee burns, the signature joins the de-duplication set and the
    /// Merkle leaves, and the durable records are appended.
    pub fn apply_transaction(
        &mut self,
        sig: &Vec<u8>,
        from: &String,
        to: &String,
        sig_ok: bool,
        slot: u64,
        txdbg: &String,
    ) -> (r: Result<(), LedgerError>)
        requires
            old(self).wf(),
        ensures
            final(self).wf(),
            match r {
                Err(e) => Some(e) == tx_rejection(*old(self), hex_of(sig@), from@, to@, sig_ok)
                    && *final(self) == *old(self),
                Ok(()) => {
                    &&& tx_rejection(*old(self), hex_of(sig@), from@, to@, sig_ok) is None
                    &&& final(self).balances@ == balances_after_transfer(
                        old(self).balances@,
                        from@,
                        to@,
                    )
                    &&& final(self).balances.total() == old(self).balances.total() - TX_FEE
                    &&& final(self).tx_seen@.len() == old(self).tx_seen@.len() + 1
                    &&& final(self).tx_seen@.drop_last() == old(self).tx_seen@
                    &&& final(self).tx_seen@.last()@ == hex_of(sig@)
                    &&& final(self).tx_leaves.deep_view() == old(self).tx_leaves.deep_view().push(
                        sha256_of(sig@),
                    )
                    &&& final(self).tx_leaves@.len() == old(self).tx_leaves@.len() + 1
                    &&& final(self).log.deep_view() == old(self).log.deep_view() + tx_log_lines(
                        slot,
                        txdbg@,
                        from@,
                        to@,
                    )
                    &&& final(self).blocks == old(self).blocks
                    &&& final(self).stakes == old(self).stakes
                    &&& final(self).treasury == old(self).treasury
                    &&& final(self).burned@ == old(self).burned@ + TX_FEE
                    &&& final(self).minted@ == old(self).minted@
                    &&& final(self).airdropped@ == old(self).airdropped@
                    &&& final(self).initial_supply@ == old(self).initial_supply@
                    &&& final(self).treasury_moved@ == old(self).treasury_moved@
                        + transfer_treasury_delta(from@, to@, old(self).treasury@)
                },
            },
    {
        let sig_hex = hex_encode(sig);
        if self.seen_contains(&sig_hex) {
            return Err(LedgerError::DoubleSpend);
        }
        if !sig_ok {
            return Err(LedgerError::InvalidSignature);
        }
        let bal = match self.balances.get(from) {
            Some(b) => b,
            None => {
                return Err(LedgerError::SenderNotFound);
            },
        };
        if bal < TX_TOTAL {
            return Err(LedgerError::InsufficientFunds);
        }
        let debited = bal - TX_TOTAL;
        if *from == *to {
            self.balances.set(from, debited + TX_AMOUNT);
            proof {
                assert(self.balances@ =~~= balances_after_transfer(
                    old(self).balances@,
                    from@,
                    to@,
                ));
            }
        } else {
            match self.balances.get(to) {
                Some(tb) => {
                    if tb > u64::MAX - TX_AMOUNT {
                        return Err(LedgerError::ArithmeticOverflow);
                    }
                    self.balances.set(from, debited);
                    self.balances.set(to, tb + TX_AMOUNT);
                },
                None => {
                    self.balances.set(from, debited);
                    self.balances.set(to, TX_AMOUNT);
                },
            }
            proof {
                assert(self.balances@ =~~= balances_after_transfer(
                    old(self).balances@,
                    from@,
                    to@,
                ));
            }
        }
        let leaf = sha256(sig.as_slice());
        self.tx_leaves.push(leaf);
        proof {
            assert(self.tx_leaves.deep_view() =~~= old(self).tx_leaves.deep_view().push(
                sha256_of(sig@),
            ));
        }
        self.merkle_root = merkle_root(&self.tx_leaves);
        self.tx_seen.push(sig_hex);
        proof {
            assert(self.tx_seen@.drop_last() =~= old(self).tx_seen@);
        }
        let line1 = tx_line(slot, txdbg);
        self.log.push(line1);
        let line2 = transfer_line(TX_AMOUNT / LAMPORTS_PER_XRS, from, to, TX_FEE / LAMPORTS_PER_XRS);
        self.log.push(line2);
        if slot >= self.finality_slots {
            let line3 = finalized_line(slot);
            self.log.push(line3);
        }
        proof {
            assert(self.log.deep_view() =~~= old(self).log.deep_view() + tx_log_lines(
                slot,
                txdbg@,
                from@,
                to@,
            ));
        }
        self.burned = Ghost(self.burned@ + TX_FEE as int);
        self.treasury_moved = Ghost(
            self.treasury_moved@ + transfer_treasury_delta(from@, to@, self.treasury@),
        );
        Ok(())
    }

    /// Validates and applies a transaction payload at a slot: extracts the
    /// first signature, the paying and receiving addresses and the
    /// verification outcome, then applies the transfer. Refused exactly as
    /// `tx_admission` says, leaving the ledger untouched; on success the
    /// extracted values move through `apply_transaction`'s exact effects.
    pub fn add_transaction(
        &mut self,
        tx: &solana_sdk::transaction::Transaction,
        slot: u64,
    ) -> (r: Result<(), LedgerError>)
        requires
            old(self).wf(),
        ensures
            final(self).wf(),
            match r {
                Err(e) => Some(e) == tx_admission(*old(self), *tx) && *final(self) == *old(self),
                Ok(()) => ({
                    let sig = tx_first_sig_of(*tx).unwrap();
                    let from = tx_key_of(*tx, 0).unwrap();
                    let to = tx_key_of(*tx, 1).unwrap();
                    &&& tx_admission(*old(self), *tx) is None
                    &&& final(self).balances@ == balances_after_transfer(
                        old(self).balances@,
                        from,
                        to,
                    )
                    &&& final(self).balances.total() == old(self).balances.total() - TX_FEE
                    &&& final(self).tx_seen@.len() == old(self).tx_seen@.len() + 1
                    &&& final(self).tx_seen@.drop_last() == old(self).tx_seen@
                    &&& final(self).tx_seen@.last()@ == hex_of(sig)
                    &&& final(self).tx_leaves.deep_view() == old(
                        self,
                    ).tx_leaves.deep_view().push(sha256_of(sig))
                    &&& final(self).tx_leaves@.len() == old(self).tx_leaves@.len() + 1
                    &&& final(self).log.deep_view() == old(self).log.deep_view() + tx_log_lines(
                        slot,
                        tx_debug_of(*tx),
                        from,
                        to,
                    )
                    &&& final(self).blocks == old(self).blocks
                    &&& final(self).stakes == old(self).stakes
                    &&& final(self).treasury == old(self).treasury
                    &&& final(self).burned@ == old(self).burned@ + TX_FEE
                    &&& final(self).minted@ == old(self).minted@
                    &&& final(self).airdropped@ == old(self).airdropped@
                    &&& final(self).initial_supply@ == old(self).initial_supply@
                    &&& final(self).treasury_moved@ == old(self).treasury_moved@
                        + transfer_treasury_delta(from, to, old(self).treasury@)
                }),
            },
    {
        let sig = match tx_first_signature(tx) {
            Some(s) => s,
            None => {
                return Err(LedgerError::InvalidSignature);
            },
        };
        let from = match tx_account_key(tx, 0) {
            Some(s) => s,
            None => {
                return Err(LedgerError::InvalidSignature);
            },
        };
        let to = match tx_account_key(tx, 1) {
            Some(s) => s,
            None => {
                return Err(LedgerError::InvalidSignature);
            },
        };
        // A message section past the wire format's length cap cannot be
        // serialized, so verification would not return on it: such a
        // payload is refused here, unapplied.
        if tx_account_count(tx) > MAX_SECTION_ENTRIES {
            return Err(LedgerError::InvalidSignature);
        }
        let sizes = tx_instruction_sizes(tx);
        if sizes.len() > MAX_SECTION_ENTRIES {
            return Err(LedgerError::InvalidSignature);
        }
        let n = sizes.len();
        let mut i: usize = 0;
        while i < n
            invariant
                *self == *old(self),
                old(self).wf(),
                n == sizes@.len(),
                sizes@ == tx_instruction_sizes_of(*tx),
                tx_first_sig_of(*tx) is Some,
                tx_key_of(*tx, 0) is Some,
                tx_key_of(*tx, 1) is Some,
                tx_account_count_of(*tx) <= MAX_SECTION_ENTRIES,
                tx_instruction_sizes_of(*tx).len() <= MAX_SECTION_ENTRIES as int,
                0 <= i <= n,
                forall|j: int|
                    0 <= j < i ==> (#[trigger] sizes@[j]).0 <= MAX_SECTION_ENTRIES && sizes@[j].1
                        <= MAX_SECTION_ENTRIES,
            decreases n - i,
        {
            let (accounts_len, data_len) = sizes[i];
            if accounts_len > MAX_SECTION_ENTRIES || data_len > MAX_SECTION_ENTRIES {
                proof {
                    assert(!payload_within_wire_bounds(*tx));
                }
                return Err(LedgerError::InvalidSignature);
            }
            i = i + 1;
        }
        proof {
            assert(payload_within_wire_bounds(*tx));
        }
        let ok = tx_verify(tx);
        let dbg = tx_debug_string(tx);
        let r = self.apply_transaction(&sig, &from, &to, ok, slot, &dbg);
        proof {
            assert(sig@ == tx_first_sig_of(*tx).unwrap());
            assert(from@ == tx_key_of(*tx, 0).unwrap());
            assert(to@ == tx_key_of(*tx, 1).unwrap());
        }
        r
    }

    /// Appends a block: refused as malicious if it regresses the chain,
    /// refused outright if crediting the proposer would overflow; otherwise
    /// the block joins the chain, the halved block reward is minted to the
    /// proposer, and the proposer's stake grows by one unit. At each
    /// checkpoint interval a durable marker is recorded first. All of it
    /// happens as one unit, or none of it.
    pub fn add_block(&mut self, block: Block, proposer: &String) -> (r: Result<(), LedgerError>)
        requires
            old(self).wf(),
        ensures
            final(self).wf(),
            match r {
                Err(e) => Some(e) == block_rejection(*old(self), &block, proposer@) && *final(self)
                    == *old(self),
                Ok(()) => {
                    &&& block_rejection(*old(self), &block, proposer@) is None
                    &&& final(self).blocks@ == old(self).blocks@.push(block)
                    &&& final(self).balances@ == old(self).balances@.insert(
                        proposer@,
                        (old(self).balances.amount_of(proposer@) + block_reward_spec(
                            block.slot,
                        )) as u64,
                    )
                    &&& final(self).stakes@ == old(self).stakes@.insert(
                        proposer@,
                        (old(self).stakes.amount_of(proposer@) + STAKE_PER_BLOCK) as u64,
                    )
                    &&& final(self).balances.total() == old(self).balances.total()
                        + block_reward_spec(block.slot)
                    &&& final(self).minted@ == old(self).minted@ + block_reward_spec(block.slot)
                    &&& final(self).burned@ == old(self).burned@
                    &&& final(self).airdropped@ == old(self).airdropped@
                    &&& final(self).initial_supply@ == old(self).initial_supply@
                    &&& final(self).treasury_moved@ == old(self).treasury_moved@ + (
                    if proposer@ == old(self).treasury@ {
                        block_reward_spec(block.slot) as int
                    } else {
                        0
                    })
                    &&& final(self).log.deep_view() == old(self).log.deep_view() + (
                    if block.slot % CHECKPOINT_INTERVAL == 0 {
                        seq![checkpoint_line_spec(block.slot)]
                    } else {
                        Seq::empty()
                    })
                    &&& final(self).tx_seen == old(self).tx_seen
                    &&& final(self).tx_leaves == old(self).tx_leaves
                    &&& final(self).treasury == old(self).treasury
                },
            },
    {
        if self.detect_malicious(&block) {
            return Err(LedgerError::MaliciousBlock);
        }
        let slot = block.slot;
        let reward = self.get_block_reward(slot);
        let pbal = self.get_balance(proposer);
        if pbal > u64::MAX - reward {
            return Err(LedgerError::ArithmeticOverflow);
        }
        let pstake = match self.stakes.get(proposer) {
            Some(s) => s,
            None => 0,
        };
        if pstake > u64::MAX - STAKE_PER_BLOCK {
            return Err(LedgerError::ArithmeticOverflow);
        }
        if slot % self.checkpoint_interval == 0 {
            match self.create_checkpoint(slot) {
                Ok(()) => {},
                Err(e) => {
                    proof {
                        assert(false);
                    }
                    return Err(e);
                },
            }
        }
        let ghost b0 = block;
        self.blocks.push(block);
        self.balances.set(proposer, pbal + reward);
        self.stakes.set(proposer, pstake + STAKE_PER_BLOCK);
        self.minted = Ghost(self.minted@ + reward as int);
        self.treasury_moved = Ghost(
            self.treasury_moved@ + if proposer@ == self.treasury@ {
                reward as int
            } else {
                0
            },
        );
        proof {
            assert(self.log.deep_view() =~~= old(self).log.deep_view() + (
            if slot % CHECKPOINT_INTERVAL == 0 {
                seq![checkpoint_line_spec(slot)]
            } else {
                Seq::empty()
            }));
            assert(forall|i: int, j: int|
                0 <= i < j < self.blocks@.len() ==> (#[trigger] self.blocks@[i]).slot < (
                #[trigger] self.blocks@[j]).slot);
            assert forall|i: int|
                0 <= i && i + 1 < self.blocks@.len() implies (#[trigger] self.blocks@[i]).hash@
                != self.blocks@[i + 1].hash@ by {
                if i + 1 < old(self).blocks@.len() {
                    assert(self.blocks@[i] == old(self).blocks@[i]);
                    assert(self.blocks@[i + 1] == old(self).blocks@[i + 1]);
                } else {
                    assert(self.blocks@[i] == old(self).blocks@.last());
                    assert(self.blocks@[i + 1] == b0);
                    assert(!malicious_spec(old(self).blocks@, &b0));
                }
            }
        }
        Ok(())
    }

    /// Issues lamports from the treasury: refused past the treasury's
    /// balance or the absolute per-call cap, refused for an address that is
    /// not well formed or whose balance or stake cannot take the credit.
    /// Otherwise the recipient is credited, the treasury debited, the
    /// recipient's stake raised, and a replayable record appended — all as
    /// one unit, or none of it.
    pub fn airdrop(&mut self, address: &String, amount: u64) -> (r: Result<(), LedgerError>)
        requires
            old(self).wf(),
        ensures
            final(self).wf(),
            match r {
                Err(e) => Some(e) == airdrop_rejection(*old(self), address@, amount) && *final(self)
                    == *old(self),
                Ok(()) => {
                    &&& airdrop_rejection(*old(self), address@, amount) is None
                    &&& final(self).balances@ == balances_after_airdrop(
                        old(self).balances@,
                        old(self).treasury@,
                        address@,
                        amount,
                    )
                    &&& final(self).stakes@ == old(self).stakes@.insert(
                        address@,
                        (old(self).stakes.amount_of(address@) + amount) as u64,
                    )
                    &&& final(self).balances.total() == old(self).balances.total()
                    &&& final(self).airdropped@ == old(self).airdropped@ + amount
                    &&& final(self).minted@ == old(self).minted@
                    &&& final(self).burned@ == old(self).burned@
                    &&& final(self).initial_supply@ == old(self).initial_supply@
                    &&& final(self).log.deep_view() == old(self).log.deep_view().push(
                        airdrop_line_spec(amount / LAMPORTS_PER_XRS, address@),
                    )
                    &&& final(self).blocks == old(self).blocks
                    &&& final(self).tx_seen == old(self).tx_seen
                    &&& final(self).tx_leaves == old(self).tx_leaves
                    &&& final(self).treasury == old(self).treasury
                },
            },
    {
        let tbal = self.get_balance(&self.treasury);
        if !(amount <= tbal && amount <= AIRDROP_CAP) {
            return Err(LedgerError::AirdropLimitExceeded);
        }
        if !is_valid_address(address) {
            return Err(LedgerError::InvalidAddress);
        }
        let same = *address == self.treasury;
        if !same {
            match self.balances.get(address) {
                Some(b) => {
                    if b > u64::MAX - amount {
                        return Err(LedgerError::ArithmeticOverflow);
                    }
                },
                None => {},
            }
        }
        let astake = match self.stakes.get(address) {
            Some(s) => s,
            None => 0,
        };
        if astake > u64::MAX - amount {
            return Err(LedgerError::ArithmeticOverflow);
        }
        if !same {
            let abal = self.get_balance(address);
            self.balances.set(address, abal + amount);
            let t = self.treasury.clone();
            self.balances.set(&t, tbal - amount);
        }
        self.stakes.set(address, astake + amount);
        let line = airdrop_line(amount / LAMPORTS_PER_XRS, address);
        self.log.push(line);
        self.airdropped = Ghost(self.airdropped@ + amount as int);
        self.treasury_moved = Ghost(
            self.treasury_moved@ + if address@ == self.treasury@ {
                amount as int
            } else {
                0
            },
        );
        proof {
            assert(self.balances@ =~~= balances_after_airdrop(
                old(self).balances@,
                old(self).treasury@,
                address@,
                amount,
            ));
            assert(self.log.deep_view() =~~= old(self).log.deep_view().push(
                airdrop_line_spec(amount / LAMPORTS_PER_XRS, address@),
            ));
        }
        Ok(())
    }

    /// Replays one parsed airdrop record during restart recovery: applies
    /// it whole, or skips it, exactly as `replay_parsed` says. Nothing is
    /// logged during recovery.
    fn replay_airdrop(&mut self, xrs: u64, addr: &String)
        requires
            old(self).wf(),
        ensures
            final(self).wf(),
            (
                final(self).balances@,
                final(self).stakes@,
                final(self).airdropped@,
                final(self).treasury_moved@,
            ) == replay_parsed(
                (
                    old(self).balances@,
                    old(self).stakes@,
                    old(self).airdropped@,
                    old(self).treasury_moved@,
                ),
                old(self).treasury@,
                xrs,
                addr@,
            ),
            final(self).balances.total() == old(self).balances.total(),
            final(self).blocks == old(self).blocks,
            final(self).tx_seen == old(self).tx_seen,
            final(self).tx_leaves == old(self).tx_leaves,
            final(self).log == old(self).log,
            final(self).treasury == old(self).treasury,
            final(self).minted@ == old(self).minted@,
            final(self).burned@ == old(self).burned@,
            final(self).initial_supply@ == old(self).initial_supply@,
    {
        let lam128: u128 = (xrs as u128) * (LAMPORTS_PER_XRS as u128);
        proof {
            assert(xrs as u128 * (LAMPORTS_PER_XRS as u128) == xrs as int * LAMPORTS_PER_XRS as int)
                by (nonlinear_arith);
        }
        if lam128 > u64::MAX as u128 {
            return ;
        }
        let lam: u64 = lam128 as u64;
        if !is_valid_address(addr) {
            return ;
        }
        let tbal = self.get_balance(&self.treasury);
        if tbal < lam {
            return ;
        }
        let same = *addr == self.treasury;
        if !same {
            match self.balances.get(addr) {
                Some(b) => {
                    if b > u64::MAX - lam {
                        return ;
                    }
                },
                None => {},
            }
        }
        let astake = match self.stakes.get(addr) {
            Some(s) => s,
            None => 0,
        };
        if astake > u64::MAX - lam {
            return ;
        }
        if !same {
            let abal = self.get_balance(addr);
            self.balances.set(addr, abal + lam);
            let t = self.treasury.clone();
            self.balances.set(&t, tbal - lam);
        }
        self.stakes.set(addr, astake + lam);
        self.airdropped = Ghost(self.airdropped@ + lam as int);
        self.treasury_moved = Ghost(
            self.treasury_moved@ + if addr@ == self.treasury@ {
                lam as int
            } else {
                0
            },
        );
        proof {
            assert(self.balances@ =~~= balances_after_airdrop(
                old(self).balances@,
                old(self).treasury@,
                addr@,
                lam,
            ));
        }
    }

    /// Reconstructs a ledger from the durable log: starts fresh and
    /// replays every airdrop record in log order; a malformed line is
    /// skipped, never a load failure.
    pub fn restore(treasury: String, lines: &Vec<String>) -> (r: Ledger)
        ensures
            r.wf(),
            r.treasury@ == treasury@,
            (r.balances@, r.stakes@, r.airdropped@, r.treasury_moved@) == replay_lines(
                genesis_state(treasury@),
                treasury@,
                lines.deep_view(),
            ),
            r.blocks@.len() == 0,
            r.tx_seen@.len() == 0,
            r.tx_leaves@.len() == 0,
            r.log@.len() == 0,
            r.initial_supply@ == TREASURY_INIT_BALANCE as int,
            r.minted@ == 0,
            r.burned@ == 0,
    {
        let ghost t0 = treasury@;
        let mut l = Ledger::new(treasury);
        proof {
            assert((l.balances@, l.stakes@, l.airdropped@, l.treasury_moved@) == genesis_state(
                l.treasury@,
            ));
            assert(lines.deep_view().take(0) =~= Seq::<Seq<char>>::empty());
        }
        let n = lines.len();
        let mut i: usize = 0;
        while i < n
            invariant
                n == lines@.len(),
                0 <= i <= n,
                l.wf(),
                l.treasury@ == t0,
                (l.balances@, l.stakes@, l.airdropped@, l.treasury_moved@) == replay_lines(
                    genesis_state(l.treasury@),
                    l.treasury@,
                    lines.deep_view().take(i as int),
                ),
                l.blocks@.len() == 0,
                l.tx_seen@.len() == 0,
                l.tx_leaves@.len() == 0,
                l.log@.len() == 0,
                l.initial_supply@ == TREASURY_INIT_BALANCE as int,
                l.minted@ == 0,
                l.burned@ == 0,
            decreases n - i,
        {
            match parse_airdrop_line(lines[i].as_str()) {
                Some(p) => {
                    let (xrs, addr) = p;
                    l.replay_airdrop(xrs, &addr);
                },
                None => {},
            }
            proof {
                assert(lines.deep_view().take(i + 1).drop_last() =~= lines.deep_view().take(
                    i as int,
                ));
                assert(lines.deep_view().take(i + 1).last() == lines@[i as int]@);
            }
            i = i + 1;
        }
        proof {
            assert(lines.deep_view().take(n as int) =~= lines.deep_view());
        }
        l
    }

    /// Appends the durable checkpoint marker for a slot. The in-memory
    /// record cannot fail; the persistence layer reports write failures.
    pub fn create_checkpoint(&mut self, slot: u64) -> (r: Result<(), LedgerError>)
        ensures
            r is Ok,
            final(self).log@.len() == old(self).log@.len() + 1,
            final(self).log@.drop_last() == old(self).log@,
            final(self).log@.last()@ == checkpoint_line_spec(slot),
            *final(self) == (Ledger { log: final(self).log, ..*old(self) }),
    {
        let line = checkpoint_line(slot);
        self.log.push(line);
        Ok(())
    }

    /// Hands every pending durable log record to the caller, oldest first,
    /// leaving none pending. The persistence layer appends them to the
    /// ledger file.
    pub fn take_log(&mut self) -> (r: Vec<String>)
        ensures
            r@ == old(self).log@,
            final(self).log@.len() == 0,
            *final(self) == (Ledger { log: final(self).log, ..*old(self) }),
    {
        let mut out: Vec<String> = Vec::new();
        core::mem::swap(&mut out, &mut self.log);
        out
    }
}

/// Law: supply conservation. In every reachable ledger state, the sum of
/// all balances plus every burned fee equals the initial supply plus every
/// minted block reward; and whenever no transfer or reward has touched the
/// treasury, the sum of all balances outside the treasury plus every
/// burned fee equals every minted reward plus every airdropped lamport.
pub proof fn lemma_conservation(l: &Ledger)
    requires
        l.wf(),
    ensures
        l.balances.total() + l.burned@ == l.initial_supply@ + l.minted@,
        l.treasury_moved@ == 0 ==> l.balances.total() - l.balances.amount_of(l.treasury@)
            + l.burned@ == l.minted@ + l.airdropped@,
{
}

/// Law: double-spend rejection. Once a transaction's signature has been
/// applied — its rendering stands last in the de-duplication set — the
/// same signature is rejected as a double spend against the new state,
/// whatever sender, recipient or verification outcome accompanies it; and
/// `apply_transaction` leaves a rejected ledger untouched.
pub proof fn lemma_double_spend_rejected(
    pre: &Ledger,
    post: &Ledger,
    sig_hex: Seq<char>,
    from: Seq<char>,
    to: Seq<char>,
    sig_ok: bool,
)
    requires
        post.tx_seen@.len() == pre.tx_seen@.len() + 1,
        post.tx_seen@.last()@ == sig_hex,
    ensures
        tx_rejection(*post, sig_hex, from, to, sig_ok) == Some(LedgerError::DoubleSpend),
{
    assert((post.tx_seen@[post.tx_seen@.len() - 1])@ == sig_hex);
}

/// Law: slot monotonicity. Against a nonempty chain, a block whose slot
/// does not advance past the tip is always detected as malicious — so
/// `add_block` refuses it — and a block with a later slot and a distinct
/// hash never is.
pub proof fn lemma_slot_monotonicity(l: &Ledger, b: &Block)
    requires
        l.blocks@.len() > 0,
    ensures
        b.slot <= l.blocks@.last().slot ==> malicious_spec(l.blocks@, b),
        b.slot > l.blocks@.last().slot && b.hash@ != l.blocks@.last().hash@ ==> !malicious_spec(
            l.blocks@,
            b,
        ),
{
}

/// Law: restart round trip. Replaying the record `airdrop` writes for a
/// whole-token amount — to an address that neither contains the record
/// separator nor begins with its tail, true of every base58 address —
/// performs exactly the parsed-record replay of that amount and address:
/// the durable format loses nothing between writing and restoring.
pub proof fn lemma_airdrop_record_replays(
    st: (Map<Seq<char>, u64>, Map<Seq<char>, u64>, int, int),
    treasury: Seq<char>,
    amount_xrs: u64,
    addr: Seq<char>,
)
    requires
        !crate::records::contains_sep(seq![' '] + addr),
    ensures
        replay_line(st, treasury, airdrop_line_spec(amount_xrs, addr)) == replay_parsed(
            st,
            treasury,
            amount_xrs,
            addr,
        ),
{
    crate::records::lemma_airdrop_line_round_trip(amount_xrs, addr);
}

/// Law: malformed lines are skipped. A log line that does not parse as an
/// airdrop record replays to no change at all — never a load failure —
/// so restoring from a log equals replaying only its well-formed records.
pub proof fn lemma_malformed_line_skipped(
    st: (Map<Seq<char>, u64>, Map<Seq<char>, u64>, int, int),
    treasury: Seq<char>,
    line: Seq<char>,
)
    requires
        parse_airdrop_spec(line) is None,
    ensures
        replay_line(st, treasury, line) == st,
{
}

/// Whether two byte vectors hold the same bytes.
pub fn bytes_eq(a: &Vec<u8>, b: &Vec<u8>) -> (r: bool)
    ensures
        r == (a@ == b@),
{
    let n = a.len();
    if n != b.len() {
        proof {
            assert(a@.len() != b@.len());
        }
        return false;
    }
    let mut i: usize = 0;
    while i < n
        invariant
            n == a@.len() == b@.len(),
            0 <= i <= n,
            forall|j: int| 0 <= j < i ==> a@[j] == b@[j],
        decreases n - i,
    {
        if a[i] != b[i] {
            return false;
        }
        i = i + 1;
    }
    proof {
        assert(a@ =~= b@);
    }
    true
}

} // verus!
