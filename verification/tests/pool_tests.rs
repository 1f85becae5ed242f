use solana_sdk::transaction::Transaction;
use xrs_node::tx_pool::{PrioritizedTx, PriorityQueue, QUEUE_CAPACITY};

fn entry(fee: u64) -> PrioritizedTx {
    PrioritizedTx { tx: Transaction::default(), fee }
}

#[test]
fn draining_serves_fees_in_descending_order() {
    let mut q = PriorityQueue::new();
    for fee in [5u64, 1, 9, 3] {
        q.push(entry(fee));
    }
    assert_eq!(q.len(), 4);
    let drained = q.drain();
    let fees: Vec<u64> = drained.iter().map(|e| e.fee).collect();
    assert_eq!(fees, vec![9, 5, 3, 1]);
    assert_eq!(q.len(), 0);
}

#[test]
fn equal_fees_are_all_served() {
    let mut q = PriorityQueue::new();
    for fee in [2u64, 7, 2, 7] {
        q.push(entry(fee));
    }
    let fees: Vec<u64> = q.drain().iter().map(|e| e.fee).collect();
    assert_eq!(fees, vec![7, 7, 2, 2]);
}

#[test]
fn a_full_queue_drops_the_push_silently() {
    let mut q = PriorityQueue::new();
    for _ in 0..QUEUE_CAPACITY {
        q.push(entry(1));
    }
    assert_eq!(q.len(), QUEUE_CAPACITY);
    q.push(entry(1_000_000));
    assert_eq!(q.len(), QUEUE_CAPACITY);
    let drained = q.drain();
    assert!(drained.iter().all(|e| e.fee == 1));
}

#[test]
fn retain_keeps_only_accepted_entries_in_order() {
    let mut q = PriorityQueue::new();
    for fee in [5u64, 1, 9, 3, 8] {
        q.push(entry(fee));
    }
    q.retain(|e| e.fee >= 4);
    let fees: Vec<u64> = q.drain().iter().map(|e| e.fee).collect();
    assert_eq!(fees, vec![9, 8, 5]);
}

#[test]
fn an_empty_queue_drains_empty() {
    let mut q = PriorityQueue::new();
    assert_eq!(q.len(), 0);
    assert!(q.drain().is_empty());
}

#[test]
fn retain_that_accepts_everything_keeps_everything() {
    let mut q = PriorityQueue::new();
    for fee in [4u64, 2, 6] {
        q.push(entry(fee));
    }
    q.retain(|_| true);
    assert_eq!(q.len(), 3);
    q.retain(|_| false);
    assert_eq!(q.len(), 0);
}
