use scrypt::{scrypt, Params};
use solana_sdk::pubkey::Pubkey;
use solana_sdk::signature::{Keypair, Signer};
use xrs_node::accounts::AccountTable;
use xrs_node::errors::LedgerError;
use xrs_node::ledger::{Block, Ledger};
use xrs_node::poh::{u128_to_be_bytes, PoHRecorder};
use xrs_node::pow::{
    adjust_difficulty, authenticate_peer, bytes_lt, dec_bytes_u64, propose_block,
    u64_to_be_bytes, vote,
};

#[test]
fn recorder_starts_at_slot_zero_with_a_zero_hash() {
    let r = PoHRecorder::new();
    assert_eq!(r.current_slot(), 0);
    assert_eq!(r.hash(), vec![0u8; 32]);
}

#[test]
fn recorder_is_deterministic_at_a_fixed_timestamp() {
    let mut a = PoHRecorder::new();
    let mut b = PoHRecorder::new();
    a.tick_at(1_700_000_000_123);
    b.tick_at(1_700_000_000_123);
    assert_eq!(a.hash(), b.hash());
    assert_eq!(a.current_slot(), 1);
    assert_eq!(b.current_slot(), 1);
}

#[test]
fn recorder_hashes_differ_across_timestamps() {
    let mut a = PoHRecorder::new();
    let mut b = PoHRecorder::new();
    a.tick_at(1_700_000_000_123);
    b.tick_at(1_700_000_000_124);
    assert_ne!(a.hash(), b.hash());
}

#[test]
fn recorder_tick_advances_one_slot_at_a_time() {
    let mut r = PoHRecorder::new();
    r.start().unwrap();
    assert_eq!(r.current_slot(), 1);
    r.tick();
    r.tick();
    assert_eq!(r.current_slot(), 3);
    assert_eq!(r.hash().len(), 32);
}

#[test]
fn recorder_chains_its_own_hash() {
    let mut a = PoHRecorder::new();
    a.tick_at(5);
    let h1 = a.hash();
    a.tick_at(5);
    // Same timestamp, different previous hash: the chain must move.
    assert_ne!(a.hash(), h1);
}

#[test]
fn big_endian_encodings_match_the_standard_ones() {
    assert_eq!(u64_to_be_bytes(0x0102_0304_0506_0708), 0x0102_0304_0506_0708u64.to_be_bytes());
    assert_eq!(u128_to_be_bytes(12345), 12345u128.to_be_bytes());
    assert_eq!(u64_to_be_bytes(0), vec![0u8; 8]);
}

#[test]
fn decimal_byte_rendering_matches_display() {
    assert_eq!(dec_bytes_u64(0), b"0".to_vec());
    assert_eq!(dec_bytes_u64(90710), b"90710".to_vec());
    assert_eq!(dec_bytes_u64(u64::MAX), u64::MAX.to_string().into_bytes());
}

#[test]
fn byte_order_is_lexicographic() {
    assert!(bytes_lt(&vec![0x01, 0xff], &vec![0x02, 0x00]));
    assert!(!bytes_lt(&vec![0x02, 0x00], &vec![0x01, 0xff]));
    assert!(bytes_lt(&vec![0x01], &vec![0x01, 0x00]));
    assert!(!bytes_lt(&vec![0x01, 0x00], &vec![0x01]));
    assert!(!bytes_lt(&vec![0x01, 0x02], &vec![0x01, 0x02]));
    assert!(bytes_lt(&vec![], &vec![0x00]));
}

fn chain_of(slots: &[u64]) -> Ledger {
    let mut l = Ledger::new(Pubkey::new_unique().to_string());
    for s in slots {
        l.blocks.push(Block {
            slot: *s,
            hash: vec![0x1f, 0, 0, 0],
            nonce: 0,
            transactions: vec![],
        });
    }
    l
}

#[test]
fn slow_blocks_ease_the_difficulty_target() {
    let l = chain_of(&[0, 1, 2]);
    let last = Block { slot: 2, hash: vec![0x1f, 9, 9], nonce: 0, transactions: vec![] };
    // Average (1000 - 0) * 400 / 3 is far above the easing threshold.
    let t = adjust_difficulty(&last, 1000, &l);
    assert_eq!(t, vec![0x1e, 9, 9]);
}

#[test]
fn fast_blocks_harden_the_difficulty_target_and_clamp_to_the_cap() {
    let l = chain_of(&[0, 1, 2]);
    let last = Block { slot: 2, hash: vec![0x1f, 9, 9], nonce: 0, transactions: vec![] };
    // Average (3 - 0) * 400 / 3 = 400 is below the hardening threshold;
    // the step past the cap clamps back to it.
    let t = adjust_difficulty(&last, 3, &l);
    assert_eq!(t, vec![0x1f, 9, 9]);
}

#[test]
fn hardening_raises_the_leading_byte_within_the_range() {
    let l = chain_of(&[0, 1, 2]);
    let last = Block { slot: 2, hash: vec![0x1b, 9, 9], nonce: 0, transactions: vec![] };
    let t = adjust_difficulty(&last, 3, &l);
    assert_eq!(t, vec![0x1c, 9, 9]);
}

#[test]
fn target_leading_byte_stays_clamped_for_extreme_histories() {
    let l = chain_of(&[0, 1, 2]);
    let hot = Block { slot: 2, hash: vec![0xff, 1], nonce: 0, transactions: vec![] };
    let eased = adjust_difficulty(&hot, 1_000_000, &l);
    assert_eq!(eased[0], 0x1f);
    let cold = Block { slot: 2, hash: vec![0x00, 1], nonce: 0, transactions: vec![] };
    let hardened = adjust_difficulty(&cold, 3, &l);
    assert_eq!(hardened[0], 0x1a);
    let steady = adjust_difficulty(&cold, 25, &l);
    // (25 - 0) * 400 / 3 = 3333 sits between the thresholds: no step,
    // only the clamp applies.
    assert_eq!(steady[0], 0x1a);
}

#[test]
fn short_chains_fall_back_to_the_tick_average_and_harden() {
    let l = chain_of(&[5]);
    let last = Block { slot: 5, hash: vec![0x1d], nonce: 0, transactions: vec![] };
    // One sampled block: the average falls back to the 400 ms tick time,
    // which is below the hardening threshold, so the target steps up.
    let t = adjust_difficulty(&last, 1_000_000, &l);
    assert_eq!(t, vec![0x1e]);
}

#[test]
fn proposing_without_stake_is_refused() {
    let l = Ledger::new(Pubkey::new_unique().to_string());
    let nobody = Pubkey::new_unique().to_string();
    let r = propose_block(1, &nobody, &l, &vec![0u8; 32], 10);
    assert!(matches!(r, Err(LedgerError::InsufficientStake)));
}

#[test]
fn proposed_block_beats_the_target_with_the_advertised_digest() {
    let mut l = Ledger::new(Pubkey::new_unique().to_string());
    let proposer = Pubkey::new_unique().to_string();
    l.airdrop(&proposer, 1_000_000_000_000).unwrap();
    let poh = vec![7u8; 32];
    let found = propose_block(1, &proposer, &l, &poh, 50_000).unwrap();
    let b = found.expect("the baseline target admits a digest well within the bound");
    assert_eq!(b.slot, 1);
    assert!(b.transactions.is_empty());
    // The digest must be the scrypt hash of slot || proposer || poh || nonce.
    let mut input = b"1".to_vec();
    input.extend_from_slice(proposer.as_bytes());
    input.extend_from_slice(&poh);
    input.extend_from_slice(&b.nonce.to_be_bytes());
    let mut expected = vec![0u8; 32];
    scrypt(&input, &[], &Params::new(10, 1, 1).unwrap(), &mut expected).unwrap();
    assert_eq!(b.hash, expected);
    // And it must actually beat the baseline target.
    let mut target = vec![0u8; 32];
    target[0] = 0x1f;
    assert!(b.hash < target);
}

#[test]
fn quorum_needs_two_thirds_of_the_total_stake() {
    let mut stakes = AccountTable::new();
    let a = String::from("a");
    let b = String::from("b");
    let c = String::from("c");
    stakes.set(&a, 60);
    stakes.set(&b, 30);
    stakes.set(&c, 10);
    let block = Block { slot: 1, hash: vec![1], nonce: 0, transactions: vec![] };
    assert_eq!(
        vote(&block, &vec![a.clone()], &stakes),
        Err(LedgerError::InsufficientVotes)
    );
    assert!(vote(&block, &vec![a.clone(), b.clone()], &stakes).is_ok());
    assert!(vote(&block, &vec![a.clone(), b.clone(), c.clone()], &stakes).is_ok());
    assert_eq!(
        vote(&block, &vec![b, c], &stakes),
        Err(LedgerError::InsufficientVotes)
    );
}

#[test]
fn quorum_counts_exactly_the_two_thirds_boundary() {
    let mut stakes = AccountTable::new();
    let a = String::from("a");
    let b = String::from("b");
    stakes.set(&a, 66);
    stakes.set(&b, 34);
    let block = Block { slot: 1, hash: vec![1], nonce: 0, transactions: vec![] };
    // Total 100, threshold 100 * 2 / 3 = 66: exactly met.
    assert!(vote(&block, &vec![a], &stakes).is_ok());
}

#[test]
fn peer_authentication_needs_membership_and_a_valid_signature() {
    let kp = Keypair::new();
    let key = kp.pubkey().to_string();
    let other = Pubkey::new_unique().to_string();
    let validators = vec![key.clone(), other.clone()];
    let node_id = String::from("node-one");
    let sig: Vec<u8> = kp.sign_message(node_id.as_bytes()).as_ref().to_vec();
    assert!(authenticate_peer(&node_id, &sig, &key, &validators));
    // A corrupted signature is refused.
    let mut bad = sig.clone();
    bad[0] ^= 1;
    assert!(!authenticate_peer(&node_id, &bad, &key, &validators));
    // A key outside the validator set is refused even with its own
    // valid signature.
    let kp2 = Keypair::new();
    let key2 = kp2.pubkey().to_string();
    let sig2: Vec<u8> = kp2.sign_message(node_id.as_bytes()).as_ref().to_vec();
    assert!(!authenticate_peer(&node_id, &sig2, &key2, &validators));
    // A listed key with someone else's signature is refused.
    assert!(!authenticate_peer(&node_id, &sig2, &key, &validators));
    // A signature over different bytes is refused.
    assert!(!authenticate_peer(&String::from("node-two"), &sig, &key, &validators));
}
