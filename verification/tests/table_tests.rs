use xrs_node::accounts::AccountTable;
use xrs_node::ledger::Ledger;
use xrs_node::pow::propose_block;
use solana_sdk::pubkey::Pubkey;

#[test]
fn table_set_get_and_total() {
    let mut t = AccountTable::new();
    let a = String::from("alpha");
    let b = String::from("beta");
    assert_eq!(t.len(), 0);
    assert_eq!(t.get(&a), None);
    assert!(!t.contains(&a));
    t.set(&a, 10);
    t.set(&b, 32);
    assert_eq!(t.get(&a), Some(10));
    assert_eq!(t.get(&b), Some(32));
    assert!(t.contains(&b));
    assert_eq!(t.total_amount(), 42);
    t.set(&a, 4);
    assert_eq!(t.get(&a), Some(4));
    assert_eq!(t.len(), 2);
    assert_eq!(t.total_amount(), 36);
}

#[test]
fn table_total_survives_large_amounts() {
    let mut t = AccountTable::new();
    t.set(&String::from("x"), u64::MAX);
    t.set(&String::from("y"), u64::MAX);
    assert_eq!(t.total_amount(), 2 * (u64::MAX as u128));
}

#[test]
fn an_empty_search_budget_yields_no_block() {
    let mut l = Ledger::new(Pubkey::new_unique().to_string());
    let proposer = Pubkey::new_unique().to_string();
    l.airdrop(&proposer, 1_000_000_000_000).unwrap();
    let r = propose_block(1, &proposer, &l, &vec![0u8; 32], 0).unwrap();
    assert!(r.is_none());
}
