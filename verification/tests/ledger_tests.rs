use sha2::Digest;
use solana_sdk::message::{Message, MessageHeader};
use solana_sdk::pubkey::Pubkey;
use solana_sdk::signature::{Keypair, Signer};
use solana_sdk::transaction::Transaction;
use xrs_node::errors::LedgerError;
use xrs_node::ledger::{Block, Ledger, BASE_REWARD, STAKE_PER_BLOCK, TX_AMOUNT, TX_FEE};

fn treasury_address() -> String {
    Pubkey::new_unique().to_string()
}

fn transfer_tx(payer: &Keypair, recipient: &Pubkey) -> Transaction {
    let message = Message {
        header: MessageHeader {
            num_required_signatures: 1,
            num_readonly_signed_accounts: 0,
            num_readonly_unsigned_accounts: 0,
        },
        account_keys: vec![payer.pubkey(), *recipient],
        recent_blockhash: solana_sdk::hash::Hash::default(),
        instructions: vec![],
    };
    Transaction::new(&[payer], message, solana_sdk::hash::Hash::default())
}

#[test]
fn fresh_ledger_holds_the_whole_supply_in_the_treasury() {
    let t = treasury_address();
    let l = Ledger::new(t.clone());
    assert_eq!(l.get_balance(&t), 200_000_000 * 1_000_000_000);
    assert_eq!(l.get_stakes().get(&t), Some(100_000_000 * 1_000_000_000));
    assert!(l.get_last_block().is_none());
    assert_eq!(l.blocks.len(), 0);
}

#[test]
fn airdrop_credits_recipient_and_debits_treasury() {
    let t = treasury_address();
    let mut l = Ledger::new(t.clone());
    let a = Pubkey::new_unique().to_string();
    l.airdrop(&a, 20_000_000_000).unwrap();
    assert_eq!(l.get_balance(&a), 20_000_000_000);
    assert_eq!(l.get_balance(&t), 200_000_000 * 1_000_000_000 - 20_000_000_000);
    assert_eq!(l.get_stakes().get(&a), Some(20_000_000_000));
}

#[test]
fn airdrop_over_the_absolute_cap_fails_and_changes_nothing() {
    let t = treasury_address();
    let mut l = Ledger::new(t.clone());
    let a = Pubkey::new_unique().to_string();
    let r = l.airdrop(&a, 10_000_000_000_001);
    assert_eq!(r, Err(LedgerError::AirdropLimitExceeded));
    assert_eq!(l.get_balance(&a), 0);
    assert_eq!(l.get_balance(&t), 200_000_000 * 1_000_000_000);
}

#[test]
fn airdrop_to_a_malformed_address_fails() {
    let t = treasury_address();
    let mut l = Ledger::new(t.clone());
    let bad = String::from("not a base58 address!");
    assert_eq!(l.airdrop(&bad, 1_000_000_000), Err(LedgerError::InvalidAddress));
    assert_eq!(l.get_balance(&t), 200_000_000 * 1_000_000_000);
}

#[test]
fn airdrop_writes_the_replayable_record() {
    let t = treasury_address();
    let mut l = Ledger::new(t.clone());
    let a = Pubkey::new_unique().to_string();
    l.airdrop(&a, 100_000_000_000).unwrap();
    let log = l.take_log();
    assert_eq!(log, vec![format!("Airdrop: 100 XRS to {}", a)]);
    assert_eq!(l.take_log().len(), 0);
}

#[test]
fn transfer_moves_amount_and_burns_fee() {
    let t = treasury_address();
    let mut l = Ledger::new(t.clone());
    let payer = Keypair::new();
    let from = payer.pubkey().to_string();
    let to_key = Pubkey::new_unique();
    let to = to_key.to_string();
    l.airdrop(&from, 20_000_000_000).unwrap();
    let tx = transfer_tx(&payer, &to_key);
    l.add_transaction(&tx, 3).unwrap();
    assert_eq!(l.get_balance(&from), 20_000_000_000 - TX_AMOUNT - TX_FEE);
    assert_eq!(l.get_balance(&to), TX_AMOUNT);
    // Conservation: everything still known sums to the initial supply
    // less the burned fee.
    let sum = l.get_balance(&t) as u128 + l.get_balance(&from) as u128 + l.get_balance(&to) as u128;
    assert_eq!(sum + TX_FEE as u128, 200_000_000u128 * 1_000_000_000u128);
}

#[test]
fn transfer_log_records_the_slot_the_summary_and_finality() {
    let t = treasury_address();
    let mut l = Ledger::new(t.clone());
    let payer = Keypair::new();
    let from = payer.pubkey().to_string();
    let to_key = Pubkey::new_unique();
    l.airdrop(&from, 20_000_000_000).unwrap();
    l.take_log();
    let tx = transfer_tx(&payer, &to_key);
    l.add_transaction(&tx, 12).unwrap();
    let log = l.take_log();
    assert_eq!(log.len(), 3);
    assert!(log[0].starts_with("Local Alpha: Slot 12 Tx: "));
    assert_eq!(
        log[1],
        format!("Transfer: 10 XRS from {} to {}, fee burned: 0 XRS", from, to_key)
    );
    assert_eq!(log[2], "Local Alpha: Tx finalized at slot 12");
}

#[test]
fn transfer_below_finality_depth_writes_no_finality_marker() {
    let t = treasury_address();
    let mut l = Ledger::new(t.clone());
    let payer = Keypair::new();
    let from = payer.pubkey().to_string();
    l.airdrop(&from, 20_000_000_000).unwrap();
    l.take_log();
    let tx = transfer_tx(&payer, &Pubkey::new_unique());
    l.add_transaction(&tx, 9).unwrap();
    assert_eq!(l.take_log().len(), 2);
}

#[test]
fn double_spend_is_rejected_and_balances_stay_put() {
    let t = treasury_address();
    let mut l = Ledger::new(t.clone());
    let payer = Keypair::new();
    let from = payer.pubkey().to_string();
    let to_key = Pubkey::new_unique();
    l.airdrop(&from, 40_000_000_000).unwrap();
    let tx = transfer_tx(&payer, &to_key);
    l.add_transaction(&tx, 1).unwrap();
    let from_after = l.get_balance(&from);
    let to_after = l.get_balance(&to_key.to_string());
    let r = l.add_transaction(&tx, 2);
    assert_eq!(r, Err(LedgerError::DoubleSpend));
    assert_eq!(l.get_balance(&from), from_after);
    assert_eq!(l.get_balance(&to_key.to_string()), to_after);
}

#[test]
fn corrupted_signature_is_rejected() {
    let t = treasury_address();
    let mut l = Ledger::new(t.clone());
    let payer = Keypair::new();
    let from = payer.pubkey().to_string();
    l.airdrop(&from, 40_000_000_000).unwrap();
    let mut tx = transfer_tx(&payer, &Pubkey::new_unique());
    tx.signatures[0] = solana_sdk::signature::Signature::default();
    assert_eq!(l.add_transaction(&tx, 1), Err(LedgerError::InvalidSignature));
    assert_eq!(l.get_balance(&from), 40_000_000_000);
}

#[test]
fn unknown_sender_is_rejected() {
    let t = treasury_address();
    let mut l = Ledger::new(t);
    let payer = Keypair::new();
    let tx = transfer_tx(&payer, &Pubkey::new_unique());
    assert_eq!(l.add_transaction(&tx, 1), Err(LedgerError::SenderNotFound));
}

#[test]
fn short_balance_is_rejected() {
    let t = treasury_address();
    let mut l = Ledger::new(t);
    let payer = Keypair::new();
    let from = payer.pubkey().to_string();
    l.airdrop(&from, 5_000_000_000).unwrap();
    let tx = transfer_tx(&payer, &Pubkey::new_unique());
    assert_eq!(l.add_transaction(&tx, 1), Err(LedgerError::InsufficientFunds));
    assert_eq!(l.get_balance(&from), 5_000_000_000);
}

#[test]
fn applied_signature_lands_hex_encoded_in_the_seen_set() {
    let t = treasury_address();
    let mut l = Ledger::new(t);
    let payer = Keypair::new();
    let from = payer.pubkey().to_string();
    l.airdrop(&from, 20_000_000_000).unwrap();
    let tx = transfer_tx(&payer, &Pubkey::new_unique());
    let sig_bytes: Vec<u8> = tx.signatures[0].as_ref().to_vec();
    l.add_transaction(&tx, 1).unwrap();
    assert_eq!(l.tx_seen.len(), 1);
    assert_eq!(l.tx_seen[0], hex::encode(&sig_bytes));
}

#[test]
fn merkle_leaves_and_root_follow_the_applied_signatures() {
    let t = treasury_address();
    let mut l = Ledger::new(t);
    let payer = Keypair::new();
    let from = payer.pubkey().to_string();
    l.airdrop(&from, 40_000_000_000).unwrap();
    let tx = transfer_tx(&payer, &Pubkey::new_unique());
    let sig_bytes: Vec<u8> = tx.signatures[0].as_ref().to_vec();
    l.add_transaction(&tx, 1).unwrap();
    let expected_leaf: [u8; 32] = sha2::Sha256::digest(&sig_bytes).into();
    assert_eq!(l.tx_leaves.len(), 1);
    assert_eq!(l.tx_leaves[0], expected_leaf.to_vec());
    let expected_root =
        rs_merkle::MerkleTree::<rs_merkle::algorithms::Sha256>::from_leaves(&[expected_leaf])
            .root();
    assert_eq!(l.merkle_root, expected_root);
    assert!(l.merkle_root.is_some());
}

#[test]
fn slot_regression_is_malicious_and_advancing_slots_append() {
    let t = treasury_address();
    let mut l = Ledger::new(t);
    let p = Pubkey::new_unique().to_string();
    let b5 = Block { slot: 5, hash: vec![1u8; 32], nonce: 7, transactions: vec![] };
    l.add_block(b5, &p).unwrap();
    let same_slot = Block { slot: 5, hash: vec![2u8; 32], nonce: 8, transactions: vec![] };
    assert_eq!(l.add_block(same_slot, &p), Err(LedgerError::MaliciousBlock));
    let earlier = Block { slot: 4, hash: vec![3u8; 32], nonce: 9, transactions: vec![] };
    assert_eq!(l.add_block(earlier, &p), Err(LedgerError::MaliciousBlock));
    let replayed_hash = Block { slot: 6, hash: vec![1u8; 32], nonce: 10, transactions: vec![] };
    assert_eq!(l.add_block(replayed_hash, &p), Err(LedgerError::MaliciousBlock));
    let fine = Block { slot: 6, hash: vec![4u8; 32], nonce: 11, transactions: vec![] };
    assert!(l.add_block(fine, &p).is_ok());
    assert_eq!(l.blocks.len(), 2);
    assert_eq!(l.get_last_block().unwrap().slot, 6);
}

#[test]
fn detect_malicious_matches_the_tip_only() {
    let t = treasury_address();
    let mut l = Ledger::new(t);
    let p = Pubkey::new_unique().to_string();
    let b = Block { slot: 3, hash: vec![9u8; 32], nonce: 0, transactions: vec![] };
    assert!(!l.detect_malicious(&b));
    l.add_block(b, &p).unwrap();
    let probe = Block { slot: 3, hash: vec![8u8; 32], nonce: 0, transactions: vec![] };
    assert!(l.detect_malicious(&probe));
}

#[test]
fn block_reward_credits_the_real_proposer() {
    let t = treasury_address();
    let mut l = Ledger::new(t);
    let p = Pubkey::new_unique().to_string();
    let b = Block { slot: 5, hash: vec![1u8; 32], nonce: 0, transactions: vec![] };
    l.add_block(b, &p).unwrap();
    assert_eq!(l.get_balance(&p), BASE_REWARD);
    assert_eq!(l.get_stakes().get(&p), Some(STAKE_PER_BLOCK));
}

#[test]
fn halving_schedule_at_zero_one_and_two_intervals() {
    let t = treasury_address();
    let l = Ledger::new(t);
    assert_eq!(l.get_block_reward(0), 342_500_000_000);
    assert_eq!(l.get_block_reward(1000), 342_500_000_000 / 2);
    assert_eq!(l.get_block_reward(2000), 342_500_000_000 / 4);
    assert_eq!(l.get_block_reward(999), 342_500_000_000);
    assert_eq!(l.get_block_reward(64_000_000), 0);
}

#[test]
fn checkpoint_marker_is_recorded_at_the_interval() {
    let t = treasury_address();
    let mut l = Ledger::new(t);
    let p = Pubkey::new_unique().to_string();
    let b = Block { slot: 1000, hash: vec![1u8; 32], nonce: 0, transactions: vec![] };
    l.add_block(b, &p).unwrap();
    let log = l.take_log();
    assert_eq!(log, vec![String::from("Local Alpha: Checkpoint at slot 1000")]);
    let b2 = Block { slot: 1001, hash: vec![2u8; 32], nonce: 0, transactions: vec![] };
    l.add_block(b2, &p).unwrap();
    assert_eq!(l.take_log().len(), 0);
}

#[test]
fn create_checkpoint_appends_the_marker() {
    let t = treasury_address();
    let mut l = Ledger::new(t);
    l.create_checkpoint(4000).unwrap();
    assert_eq!(l.take_log(), vec![String::from("Local Alpha: Checkpoint at slot 4000")]);
}

#[test]
fn restart_reconstruction_replays_airdrop_lines_and_skips_garbage() {
    let t = treasury_address();
    let a = Pubkey::new_unique().to_string();
    let b = Pubkey::new_unique().to_string();
    let lines = vec![
        format!("Airdrop: 100 XRS to {}", a),
        String::from("Local Alpha: Checkpoint at slot 1000"),
        String::from("Airdrop: notanumber XRS to somewhere"),
        String::from("Airdrop: 5 XRS to ###not-base58###"),
        format!("Airdrop: 50 XRS to {}", b),
    ];
    let l = Ledger::restore(t.clone(), &lines);
    assert_eq!(l.get_balance(&a), 100_000_000_000);
    assert_eq!(l.get_balance(&b), 50_000_000_000);
    assert_eq!(
        l.get_balance(&t),
        200_000_000 * 1_000_000_000 - 150_000_000_000
    );
    assert_eq!(l.get_stakes().get(&a), Some(100_000_000_000));
    assert_eq!(l.get_stakes().get(&b), Some(50_000_000_000));
}

#[test]
fn restart_reproduces_what_airdrop_logged() {
    let t = treasury_address();
    let mut l = Ledger::new(t.clone());
    let a = Pubkey::new_unique().to_string();
    l.airdrop(&a, 7_000_000_000).unwrap();
    let log = l.take_log();
    let restored = Ledger::restore(t.clone(), &log);
    assert_eq!(restored.get_balance(&a), l.get_balance(&a));
    assert_eq!(restored.get_balance(&t), l.get_balance(&t));
    assert_eq!(restored.get_stakes().get(&a), l.get_stakes().get(&a));
}

#[test]
fn restore_skips_an_airdrop_the_treasury_cannot_cover() {
    let t = treasury_address();
    let a = Pubkey::new_unique().to_string();
    let lines = vec![format!("Airdrop: 300000000 XRS to {}", a)];
    let l = Ledger::restore(t.clone(), &lines);
    assert_eq!(l.get_balance(&a), 0);
    assert_eq!(l.get_balance(&t), 200_000_000 * 1_000_000_000);
}

#[test]
fn self_transfer_burns_only_the_fee() {
    let t = treasury_address();
    let mut l = Ledger::new(t);
    let payer = Keypair::new();
    let from = payer.pubkey().to_string();
    l.airdrop(&from, 20_000_000_000).unwrap();
    let tx = transfer_tx(&payer, &payer.pubkey());
    l.add_transaction(&tx, 1).unwrap();
    assert_eq!(l.get_balance(&from), 20_000_000_000 - TX_FEE);
}

#[test]
fn restore_applies_an_airdrop_to_the_treasury_itself() {
    let t = treasury_address();
    let lines = vec![format!("Airdrop: 5 XRS to {}", t)];
    let l = Ledger::restore(t.clone(), &lines);
    // The lamports never leave the treasury, but its stake still grows.
    assert_eq!(l.get_balance(&t), 200_000_000 * 1_000_000_000);
    assert_eq!(
        l.get_stakes().get(&t),
        Some(100_000_000 * 1_000_000_000 + 5_000_000_000)
    );
}

#[test]
fn an_oversized_account_list_is_refused_without_verification() {
    let t = treasury_address();
    let mut l = Ledger::new(t.clone());
    // A message section past the wire format's length cap can never be
    // serialized, so it must be refused before verification is attempted.
    let message = Message {
        header: MessageHeader {
            num_required_signatures: 1,
            num_readonly_signed_accounts: 0,
            num_readonly_unsigned_accounts: 0,
        },
        account_keys: vec![Pubkey::new_unique(); 65_536],
        recent_blockhash: solana_sdk::hash::Hash::default(),
        instructions: vec![],
    };
    let tx = Transaction {
        signatures: vec![solana_sdk::signature::Signature::default()],
        message,
    };
    assert_eq!(l.add_transaction(&tx, 1), Err(LedgerError::InvalidSignature));
    assert_eq!(l.get_balance(&t), 200_000_000 * 1_000_000_000);
}

#[test]
fn an_oversized_instruction_is_refused_without_verification() {
    let t = treasury_address();
    let mut l = Ledger::new(t);
    let payer = Keypair::new();
    let message = Message {
        header: MessageHeader {
            num_required_signatures: 1,
            num_readonly_signed_accounts: 0,
            num_readonly_unsigned_accounts: 0,
        },
        account_keys: vec![payer.pubkey(), Pubkey::new_unique()],
        recent_blockhash: solana_sdk::hash::Hash::default(),
        instructions: vec![
            solana_sdk::message::compiled_instruction::CompiledInstruction {
                program_id_index: 1,
                accounts: vec![],
                data: vec![0u8; 65_536],
            },
        ],
    };
    let tx = Transaction {
        signatures: vec![solana_sdk::signature::Signature::default()],
        message,
    };
    assert_eq!(l.add_transaction(&tx, 1), Err(LedgerError::InvalidSignature));
}
