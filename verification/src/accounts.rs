//! An association table from account addresses to lamport amounts, keyed
//! uniquely, with a tracked mathematical sum. Both the ledger's balance map
//! and its stake map are tables of this kind; the sum underlies the supply
//! conservation argument.

use vstd::prelude::*;

verus! {

/// The map abstraction of a key/value entry sequence: later entries win,
/// though well-formed tables never repeat a key.
pub open spec fn map_of(s: Seq<(String, u64)>) -> Map<Seq<char>, u64>
    decreases s.len(),
{
    if s.len() == 0 {
        Map::empty()
    } else {
        map_of(s.drop_last()).insert(s.last().0@, s.last().1)
    }
}

/// The sum of all values in an entry sequence.
pub open spec fn sum_of(s: Seq<(String, u64)>) -> int
    decreases s.len(),
{
    if s.len() == 0 {
        0
    } else {
        sum_of(s.drop_last()) + s.last().1
    }
}

/// A table from account address to a `u64` amount, with unique keys.
pub struct AccountTable {
    pub entries: Vec<(String, u64)>,
}

impl View for AccountTable {
    type V = Map<Seq<char>, u64>;

    open spec fn view(&self) -> Map<Seq<char>, u64> {
        map_of(self.entries@)
    }
}

proof fn lemma_map_of_in(s: Seq<(String, u64)>, i: int)
    requires
        0 <= i < s.len(),
        forall|p: int, q: int|
            0 <= p < q < s.len() ==> (#[trigger] s[p]).0@ != (#[trigger] s[q]).0@,
    ensures
        map_of(s).contains_key(s[i].0@),
        map_of(s)[s[i].0@] == s[i].1,
    decreases s.len(),
{
    if i == s.len() - 1 {
    } else {
        assert(s.drop_last()[i] == s[i]);
        lemma_map_of_in(s.drop_last(), i);
        assert(s[i].0@ != s[s.len() - 1].0@);
    }
}

proof fn lemma_map_of_out(s: Seq<(String, u64)>, k: Seq<char>)
    requires
        forall|i: int| 0 <= i < s.len() ==> (#[trigger] s[i]).0@ != k,
    ensures
        !map_of(s).contains_key(k),
    decreases s.len(),
{
    if s.len() > 0 {
        assert(forall|i: int|
            0 <= i < s.drop_last().len() ==> (#[trigger] s.drop_last()[i]).0@ != k);
        lemma_map_of_out(s.drop_last(), k);
    }
}

proof fn lemma_map_of_update(s: Seq<(String, u64)>, i: int, x: (String, u64))
    requires
        0 <= i < s.len(),
        x.0@ == s[i].0@,
        forall|p: int, q: int|
            0 <= p < q < s.len() ==> (#[trigger] s[p]).0@ != (#[trigger] s[q]).0@,
    ensures
        map_of(s.update(i, x)) =~= map_of(s).insert(x.0@, x.1),
    decreases s.len(),
{
    let t = s.update(i, x);
    if i == s.len() - 1 {
        assert(t.drop_last() =~= s.drop_last());
        assert(t.last() == x);
    } else {
        assert(t.drop_last() =~= s.drop_last().update(i, x));
        assert(s.drop_last()[i] == s[i]);
        lemma_map_of_update(s.drop_last(), i, x);
        assert(t.last() == s.last());
        assert(s.last().0@ != x.0@);
    }
}

proof fn lemma_sum_of_update(s: Seq<(String, u64)>, i: int, x: (String, u64))
    requires
        0 <= i < s.len(),
    ensures
        sum_of(s.update(i, x)) == sum_of(s) - s[i].1 + x.1,
    decreases s.len(),
{
    let t = s.update(i, x);
    if i == s.len() - 1 {
        assert(t.drop_last() =~= s.drop_last());
        assert(t.last() == x);
    } else {
        assert(t.drop_last() =~= s.drop_last().update(i, x));
        assert(s.drop_last()[i] == s[i]);
        lemma_sum_of_update(s.drop_last(), i, x);
        assert(t.last() == s.last());
    }
}

impl AccountTable {
    /// Keys are pairwise distinct.
    pub open spec fn wf(&self) -> bool {
        forall|p: int, q: int|
            0 <= p < q < self.entries@.len()
                ==> (#[trigger] self.entries@[p]).0@ != (#[trigger] self.entries@[q]).0@
    }

    /// The sum of all amounts held in the table.
    pub open spec fn total(&self) -> int {
        sum_of(self.entries@)
    }

    /// The amount for a key, or zero when absent.
    pub open spec fn amount_of(&self, k: Seq<char>) -> int {
        if self@.contains_key(k) {
            self@[k] as int
        } else {
            0
        }
    }

    /// An empty table.
    pub fn new() -> (r: AccountTable)
        ensures
            r.wf(),
            r@ =~= Map::<Seq<char>, u64>::empty(),
            r.total() == 0,
            r.entries@.len() == 0,
    {
        AccountTable { entries: Vec::new() }
    }

    fn find(&self, k: &String) -> (r: Option<usize>)
        ensures
            match r {
                Some(i) => i < self.entries@.len() && self.entries@[i as int].0@ == k@,
                None => forall|i: int|
                    0 <= i < self.entries@.len() ==> (#[trigger] self.entries@[i]).0@ != k@,
            },
    {
        let n = self.entries.len();
        let mut i: usize = 0;
        while i < n
            invariant
                n == self.entries@.len(),
                0 <= i <= n,
                forall|j: int| 0 <= j < i ==> (#[trigger] self.entries@[j]).0@ != k@,
            decreases n - i,
        {
            if self.entries[i].0 == *k {
                return Some(i);
            }
            i = i + 1;
        }
        None
    }

    /// Whether the table holds an entry for this key.
    pub fn contains(&self, k: &String) -> (r: bool)
        requires
            self.wf(),
        ensures
            r == self@.contains_key(k@),
    {
        match self.find(k) {
            Some(i) => {
                proof {
                    lemma_map_of_in(self.entries@, i as int);
                }
                true
            },
            None => {
                proof {
                    lemma_map_of_out(self.entries@, k@);
                }
                false
            },
        }
    }

    /// The amount for a key, if present.
    pub fn get(&self, k: &String) -> (r: Option<u64>)
        requires
            self.wf(),
        ensures
            r == if self@.contains_key(k@) {
                Some(self@[k@])
            } else {
                None::<u64>
            },
            r matches Some(v) ==> v == self.amount_of(k@),
    {
        match self.find(k) {
            Some(i) => {
                proof {
                    lemma_map_of_in(self.entries@, i as int);
                }
                Some(self.entries[i].1)
            },
            None => {
                proof {
                    lemma_map_of_out(self.entries@, k@);
                }
                None
            },
        }
    }

    /// Binds `k` to `v`, inserting or overwriting, and moves the total by
    /// the difference with the amount previously held.
    pub fn set(&mut self, k: &String, v: u64)
        requires
            old(self).wf(),
        ensures
            final(self).wf(),
            final(self)@ =~= old(self)@.insert(k@, v),
            final(self).total() == old(self).total() - old(self).amount_of(k@) + v,
    {
        let ghost s0 = self.entries@;
        match self.find(k) {
            Some(i) => {
                proof {
                    lemma_map_of_in(s0, i as int);
                }
                let key = k.clone();
                self.entries.set(i, (key, v));
                proof {
                    lemma_map_of_update(s0, i as int, self.entries@[i as int]);
                    lemma_sum_of_update(s0, i as int, self.entries@[i as int]);
                }
            },
            None => {
                proof {
                    lemma_map_of_out(s0, k@);
                }
                let key = k.clone();
                self.entries.push((key, v));
                proof {
                    assert(self.entries@.drop_last() =~= s0);
                    assert(self.entries@.last().0@ == k@ && self.entries@.last().1 == v);
                }
            },
        }
    }

    /// The number of accounts in the table.
    pub fn len(&self) -> (r: usize)
        ensures
            r == self.entries@.len(),
    {
        self.entries.len()
    }

    /// The sum of all amounts, computed wide enough that it cannot
    /// overflow.
    pub fn total_amount(&self) -> (r: u128)
        ensures
            r as int == self.total(),
    {
        let n = self.entries.len();
        let mut acc: u128 = 0;
        let mut i: usize = 0;
        while i < n
            invariant
                n == self.entries@.len(),
                0 <= i <= n,
                acc as int == sum_of(self.entries@.take(i as int)),
                acc as int <= i * 0xffff_ffff_ffff_ffff,
            decreases n - i,
        {
            proof {
                assert(self.entries@.take(i + 1).drop_last() =~= self.entries@.take(i as int));
                assert(self.entries@.take(i + 1).last() == self.entries@[i as int]);
                assert(i * 0xffff_ffff_ffff_ffff + 0xffff_ffff_ffff_ffff == (i + 1)
                    * 0xffff_ffff_ffff_ffff) by (nonlinear_arith);
                assert((i + 1) * 0xffff_ffff_ffff_ffff <= 0xffff_ffff_ffff_ffff_ffff_ffff_ffff_ffff)
                    by (nonlinear_arith)
                    requires
                        i + 1 <= 0x1_0000_0000_0000_0000,
                ;
            }
            acc = acc + (self.entries[i].1 as u128);
            i = i + 1;
        }
        proof {
            assert(self.entries@.take(n as int) =~= self.entries@);
        }
        acc
    }
}

} // verus!
