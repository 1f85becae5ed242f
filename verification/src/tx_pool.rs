//! The fee-priority transaction queue: a bounded admission buffer that
//! serves pending transactions strictly by declared fee, highest first.

use vstd::prelude::*;

verus! {

/// The queue's capacity; a push against a full queue is dropped silently.
pub const QUEUE_CAPACITY: usize = 10_000;

/// A pending transaction with its declared fee.
pub struct PrioritizedTx {
    pub tx: solana_sdk::transaction::Transaction,
    pub fee: u64,
}

/// The fee-priority queue. Entries are kept ordered by descending fee, so
/// draining serves the highest fee first.
pub struct PriorityQueue {
    pub entries: Vec<PrioritizedTx>,
}

impl PriorityQueue {
    /// Fees never increase along the queue.
    pub open spec fn wf(&self) -> bool {
        forall|i: int, j: int|
            0 <= i < j < self.entries@.len()
                ==> (#[trigger] self.entries@[i]).fee >= (#[trigger] self.entries@[j]).fee
    }

    /// An empty queue.
    pub fn new() -> (r: PriorityQueue)
        ensures
            r.wf(),
            r.entries@.len() == 0,
    {
        PriorityQueue { entries: Vec::new() }
    }

    /// How many transactions are pending.
    pub fn len(&self) -> (r: usize)
        ensures
            r == self.entries@.len(),
    {
        self.entries.len()
    }

    /// Admits a transaction, keeping the fee order; at capacity the
    /// transaction is dropped silently and the queue is unchanged.
    pub fn push(&mut self, tx: PrioritizedTx)
        requires
            old(self).wf(),
        ensures
            final(self).wf(),
            old(self).entries@.len() < QUEUE_CAPACITY ==> {
                &&& final(self).entries@.len() == old(self).entries@.len() + 1
                &&& final(self).entries@.to_multiset() == old(self).entries@.to_multiset().insert(
                    tx,
                )
            },
            old(self).entries@.len() >= QUEUE_CAPACITY ==> *final(self) == *old(self),
    {
        let n = self.entries.len();
        if n >= QUEUE_CAPACITY {
            return ;
        }
        let mut i: usize = 0;
        while i < n
            invariant
                n == self.entries@.len(),
                0 <= i <= n,
                forall|j: int| 0 <= j < i ==> (#[trigger] self.entries@[j]).fee >= tx.fee,
            ensures
                0 <= i <= n,
                n == self.entries@.len(),
                forall|j: int| 0 <= j < i ==> (#[trigger] self.entries@[j]).fee >= tx.fee,
                i < n ==> self.entries@[i as int].fee < tx.fee,
            decreases n - i,
        {
            if self.entries[i].fee < tx.fee {
                break ;
            }
            i = i + 1;
        }
        let ghost s0 = self.entries@;
        let ghost pos = i as int;
        self.entries.insert(i, tx);
        proof {
            vstd::seq_lib::to_multiset_insert(s0, pos, tx);
            assert(self.entries@ == s0.insert(pos, tx));
            s0.insert_ensures(pos, tx);
            assert forall|a: int, b: int|
                0 <= a < b < self.entries@.len() implies (#[trigger] self.entries@[a]).fee >= (
            #[trigger] self.entries@[b]).fee by {
                if a < pos && b < pos {
                    assert(self.entries@[a] == s0[a] && self.entries@[b] == s0[b]);
                } else if a < pos && b == pos {
                    assert(self.entries@[a] == s0[a]);
                } else if a < pos && b > pos {
                    assert(self.entries@[a] == s0[a] && self.entries@[b] == s0[b - 1]);
                } else if a == pos && b > pos {
                    assert(self.entries@[b] == s0[b - 1]);
                    assert(pos < n ==> s0[pos].fee < tx.fee);
                    assert(s0[b - 1].fee <= s0[pos].fee);
                } else {
                    assert(self.entries@[a] == s0[a - 1] && self.entries@[b] == s0[b - 1]);
                }
            }
        }
    }

    /// Hands every pending transaction out at once, highest fee first,
    /// leaving the queue empty. The result holds exactly the transactions
    /// that were pending, in descending fee order.
    pub fn drain(&mut self) -> (r: Vec<PrioritizedTx>)
        requires
            old(self).wf(),
        ensures
            final(self).wf(),
            final(self).entries@.len() == 0,
            r@ == old(self).entries@,
            forall|i: int, j: int|
                0 <= i < j < r@.len() ==> (#[trigger] r@[i]).fee >= (#[trigger] r@[j]).fee,
    {
        let mut out: Vec<PrioritizedTx> = Vec::new();
        core::mem::swap(&mut out, &mut self.entries);
        out
    }

    /// Keeps exactly the transactions the predicate accepted, in their
    /// original fee order: the result is the subsequence of the old
    /// entries selected by one accepting call per entry.
    pub fn retain<F: Fn(&PrioritizedTx) -> bool>(&mut self, f: F)
        requires
            old(self).wf(),
            forall|t: &PrioritizedTx| #[trigger] f.requires((t,)),
        ensures
            final(self).wf(),
            exists|keep: Seq<bool>|
                {
                    &&& keep.len() == old(self).entries@.len()
                    &&& final(self).entries@ == #[trigger] mask_filter(old(self).entries@, keep)
                    &&& forall|j: int|
                        0 <= j < keep.len() ==> f.ensures(
                            (&old(self).entries@[j],),
                            #[trigger] keep[j],
                        )
                },
    {
        let n = self.entries.len();
        let mut kept: Vec<PrioritizedTx> = Vec::new();
        let mut i: usize = 0;
        let ghost s0 = self.entries@;
        let ghost mut mask = Seq::<bool>::empty();
        proof {
            assert(s0.take(0) =~= Seq::<PrioritizedTx>::empty());
        }
        while i < n
            invariant
                n == self.entries@.len(),
                s0 == self.entries@,
                0 <= i <= n,
                mask.len() == i,
                kept@ == mask_filter(s0.take(i as int), mask),
                forall|t: &PrioritizedTx| #[trigger] f.requires((t,)),
                forall|j: int| 0 <= j < i ==> f.ensures((&s0[j],), #[trigger] mask[j]),
            decreases n - i,
        {
            let keep_it = f(&self.entries[i]);
            let ghost mask0 = mask;
            proof {
                mask = mask.push(keep_it);
                assert(s0.take(i + 1).drop_last() =~= s0.take(i as int));
                assert(mask.drop_last() =~= mask0);
                assert(s0.take(i + 1).last() == s0[i as int]);
            }
            if keep_it {
                let e = self.entries[i].clone_entry();
                kept.push(e);
            }
            proof {
                assert(kept@ =~= mask_filter(s0.take(i + 1), mask));
            }
            i = i + 1;
        }
        proof {
            assert(s0.take(n as int) =~= s0);
            lemma_mask_filter_descending(s0, mask);
        }
        self.entries = kept;
    }
}

/// The subsequence of `s` selected by the boolean mask `keep`.
pub open spec fn mask_filter(s: Seq<PrioritizedTx>, keep: Seq<bool>) -> Seq<PrioritizedTx>
    recommends
        keep.len() == s.len(),
    decreases s.len(),
{
    if s.len() == 0 {
        Seq::empty()
    } else {
        let p = mask_filter(s.drop_last(), keep.drop_last());
        if keep.last() {
            p.push(s.last())
        } else {
            p
        }
    }
}

/// A mask-selected subsequence of a fee-descending sequence is itself
/// fee-descending, and none of its fees drops below the last of `s`.
proof fn lemma_mask_filter_descending(s: Seq<PrioritizedTx>, keep: Seq<bool>)
    requires
        keep.len() == s.len(),
        forall|i: int, j: int| 0 <= i < j < s.len() ==> (#[trigger] s[i]).fee >= (#[trigger] s[j]).fee,
    ensures
        forall|a: int, b: int|
            0 <= a < b < mask_filter(s, keep).len() ==> (#[trigger] mask_filter(s, keep)[a]).fee
                >= (#[trigger] mask_filter(s, keep)[b]).fee,
        s.len() > 0 ==> forall|a: int|
            0 <= a < mask_filter(s, keep).len() ==> (#[trigger] mask_filter(s, keep)[a]).fee
                >= s.last().fee,
    decreases s.len(),
{
    if s.len() > 0 {
        let sp = s.drop_last();
        let kp = keep.drop_last();
        assert(forall|i: int, j: int|
            0 <= i < j < sp.len() ==> (#[trigger] sp[i]).fee >= (#[trigger] sp[j]).fee);
        lemma_mask_filter_descending(sp, kp);
        let p = mask_filter(sp, kp);
        assert(sp.len() > 0 ==> sp.last().fee >= s.last().fee);
        assert(forall|a: int| 0 <= a < p.len() ==> (#[trigger] p[a]).fee >= s.last().fee);
    }
}

impl PrioritizedTx {
    /// A copy of the entry; the payload is cloned through its own `Clone`.
    fn clone_entry(&self) -> (r: PrioritizedTx)
        ensures
            r == *self,
    {
        PrioritizedTx { tx: clone_transaction(&self.tx), fee: self.fee }
    }
}

/// Relies on solana-sdk's `Transaction: Clone`: the clone is the same
/// payload, field for field.
#[verifier::external_body]
fn clone_transaction(tx: &solana_sdk::transaction::Transaction) -> (r:
    solana_sdk::transaction::Transaction)
    ensures
        r == *tx,
{
    tx.clone()
}

} // verus!
