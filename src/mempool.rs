//! The pool of validated transactions waiting to be scheduled.
use vstd::prelude::*;

use crate::account::{nonce_of, Transaction};
use crate::address::{Address, Digest};

verus! {

/// Why a transaction was not admitted.
#[derive(Clone, Copy, Debug, PartialEq, Eq, Structural, Hash)]
pub enum MempoolError {
    /// Its nonce is not above the last nonce applied for its sender.
    StaleNonce,
}

pub open spec fn tx_nonce(t: Transaction) -> u64 {
    nonce_of(t.transaction_type)
}

pub open spec fn holds_digest(pool: Seq<Transaction>, d: Digest) -> bool {
    exists|i: int| 0 <= i < pool.len() && pool[i].digest == d
}

pub open spec fn first_entry(applied: Seq<(Address, u64)>, a: Address, i: int) -> bool {
    0 <= i < applied.len() && applied[i].0 == a && forall|j: int| 0 <= j < i ==> applied[j].0 != a
}

/// The nonce of the first entry of `a`, zero where there is none.
pub open spec fn applied_nonce(applied: Seq<(Address, u64)>, a: Address) -> u64 {
    if exists|i: int| first_entry(applied, a, i) {
        applied[choose|i: int| first_entry(applied, a, i)].1
    } else {
        0
    }
}

/// `pool[i]` has the least nonce, and no earlier transaction has it.
pub open spec fn is_first_min(pool: Seq<Transaction>, i: int) -> bool {
    &&& 0 <= i < pool.len()
    &&& forall|j: int| 0 <= j < pool.len() ==> tx_nonce(pool[i]) <= tx_nonce(#[trigger] pool[j])
    &&& forall|j: int| 0 <= j < i ==> tx_nonce(#[trigger] pool[j]) > tx_nonce(pool[i])
}

/// Where the first transaction of least nonce stands.
pub open spec fn first_min_index(pool: Seq<Transaction>) -> int {
    choose|i: int| is_first_min(pool, i)
}

/// Takes up to `k` transactions, each time the first of least nonce: what is taken, and what
/// stays.
pub open spec fn drain_spec(pool: Seq<Transaction>, k: nat) -> (Seq<Transaction>, Seq<Transaction>)
    decreases k,
{
    if k == 0 || pool.len() == 0 {
        (Seq::empty(), pool)
    } else {
        let m = first_min_index(pool);
        let rest = drain_spec(pool.remove(m), (k - 1) as nat);
        (seq![pool[m]] + rest.0, rest.1)
    }
}

/// The mempool: transactions in arrival order, and the last nonce applied per sender.
pub struct PendingTransactions {
    pool: Vec<Transaction>,
    applied: Vec<(Address, u64)>,
}

fn find_min(pool: &Vec<Transaction>) -> (m: usize)
    requires
        pool@.len() > 0,
    ensures
        m < pool@.len(),
        m == first_min_index(pool@),
{
    let mut m: usize = 0;
    let mut i: usize = 1;
    while i < pool.len()
        invariant
            1 <= i <= pool@.len(),
            m < i,
            forall|j: int| 0 <= j < i ==> tx_nonce(pool@[m as int]) <= tx_nonce(pool@[j]),
            forall|j: int| 0 <= j < m ==> tx_nonce(pool@[j]) > tx_nonce(pool@[m as int]),
        decreases pool@.len() - i,
    {
        if pool[i].nonce() < pool[m].nonce() {
            m = i;
        }
        i = i + 1;
    }
    proof {
        let p = pool@;
        assert(is_first_min(p, m as int));
        let c = first_min_index(p);
        if c < m as int {
            assert(tx_nonce(p[c]) > tx_nonce(p[m as int]));
        } else if c > m as int {
            assert(tx_nonce(p[m as int]) > tx_nonce(p[c]));
        }
    }
    m
}

impl PendingTransactions {
    pub closed spec fn pool(&self) -> Seq<Transaction> {
        self.pool@
    }

    pub closed spec fn applied(&self) -> Seq<(Address, u64)> {
        self.applied@
    }

    /// An empty pool that knows of no applied nonce.
    pub fn new() -> (r: Self)
        ensures
            r.pool().len() == 0,
            r.applied().len() == 0,
    {
        PendingTransactions { pool: Vec::new(), applied: Vec::new() }
    }

    /// How many transactions wait.
    pub fn len(&self) -> (r: usize)
        ensures
            r == self.pool().len(),
    {
        self.pool.len()
    }

    /// The last nonce applied for `a`, zero where none is known.
    pub fn last_applied(&self, a: &Address) -> (r: u64)
        ensures
            r == applied_nonce(self.applied(), *a),
    {
        let mut i: usize = 0;
        while i < self.applied.len()
            invariant
                i <= self.applied@.len(),
                forall|j: int| 0 <= j < i ==> self.applied@[j].0 != *a,
            decreases self.applied@.len() - i,
        {
            if self.applied[i].0 == *a {
                proof {
                    let s = self.applied@;
                    assert(first_entry(s, *a, i as int));
                    let k = choose|k: int| first_entry(s, *a, k);
                    if k < i as int {
                        assert(s[k].0 != *a);
                    } else if k > i as int {
                        assert(s[i as int].0 != *a);
                    }
                }
                return self.applied[i].1;
            }
            i = i + 1;
        }
        proof {
            let s = self.applied@;
            if exists|k: int| first_entry(s, *a, k) {
                let k = choose|k: int| first_entry(s, *a, k);
                assert(s[k].0 != *a);
            }
        }
        0
    }

    fn find_digest(&self, d: &Digest) -> (r: bool)
        ensures
            r == holds_digest(self.pool(), *d),
    {
        let mut i: usize = 0;
        while i < self.pool.len()
            invariant
                i <= self.pool@.len(),
                forall|j: int| 0 <= j < i ==> self.pool@[j].digest != *d,
            decreases self.pool@.len() - i,
        {
            if self.pool[i].digest == *d {
                return true;
            }
            i = i + 1;
        }
        false
    }

    /// Admits `tx`. A transaction whose digest is already waiting is taken as a no-op; one whose
    /// nonce is not above the last nonce applied for its sender is refused.
    pub fn submit(&mut self, tx: Transaction) -> (r: Result<(), MempoolError>)
        ensures
            final(self).applied() == old(self).applied(),
            holds_digest(old(self).pool(), tx.digest) ==> r is Ok && final(self).pool() == old(self).pool(),
            !holds_digest(old(self).pool(), tx.digest) && tx_nonce(tx) <= applied_nonce(
                old(self).applied(),
                tx.from,
            ) ==> r == Err::<(), MempoolError>(MempoolError::StaleNonce) && final(self).pool() == old(self).pool(),
            !holds_digest(old(self).pool(), tx.digest) && tx_nonce(tx) > applied_nonce(
                old(self).applied(),
                tx.from,
            ) ==> r is Ok && final(self).pool() == old(self).pool().push(tx),
    {
        if self.find_digest(&tx.digest) {
            return Ok(());
        }
        if tx.nonce() <= self.last_applied(&tx.from) {
            return Err(MempoolError::StaleNonce);
        }
        self.pool.push(tx);
        Ok(())
    }

    /// Records that the transaction of nonce `nonce` from `a` was applied.
    pub fn record_applied(&mut self, a: Address, nonce: u64)
        ensures
            final(self).pool() == old(self).pool(),
            applied_nonce(final(self).applied(), a) == nonce,
            forall|b: Address|
                b != a ==> applied_nonce(final(self).applied(), b) == applied_nonce(
                    old(self).applied(),
                    b,
                ),
    {
        let ghost s0 = self.applied@;
        let mut i: usize = 0;
        while i < self.applied.len()
            invariant
                i <= self.applied@.len(),
                self.applied@ == s0,
                s0 == old(self).applied@,
                self.pool@ == old(self).pool@,
                forall|j: int| 0 <= j < i ==> self.applied@[j].0 != a,
            decreases self.applied@.len() - i,
        {
            if self.applied[i].0 == a {
                self.applied.set(i, (a, nonce));
                proof {
                    let s1 = self.applied@;
                    assert(first_entry(s1, a, i as int));
                    lemma_first_entry_unique(s1, a, i as int);
                    assert forall|b: Address| b != a implies applied_nonce(s1, b) == applied_nonce(
                        s0,
                        b,
                    ) by {
                        lemma_same_entries(s0, s1, b);
                    }
                }
                return;
            }
            i = i + 1;
        }
        self.applied.push((a, nonce));
        proof {
            let s1 = self.applied@;
            assert(first_entry(s1, a, s0.len() as int));
            lemma_first_entry_unique(s1, a, s0.len() as int);
            assert forall|b: Address| b != a implies applied_nonce(s1, b) == applied_nonce(s0, b) by {
                lemma_same_entries(s0, s1, b);
            }
        }
    }

    /// Removes and returns up to `max_count` transactions, each time the earliest of least
    /// nonce.
    pub fn drain(&mut self, max_count: usize) -> (r: Vec<Transaction>)
        ensures
            final(self).applied() == old(self).applied(),
            (r@, final(self).pool()) == drain_spec(old(self).pool(), max_count as nat),
    {
        let ghost p0 = self.pool@;
        let mut out: Vec<Transaction> = Vec::new();
        let mut i: usize = 0;
        while i < max_count && self.pool.len() > 0
            invariant
                i <= max_count,
                self.applied@ == old(self).applied@,
                p0 == old(self).pool@,
                drain_spec(p0, max_count as nat) == (
                    out@ + drain_spec(self.pool@, (max_count - i) as nat).0,
                    drain_spec(self.pool@, (max_count - i) as nat).1,
                ),
            decreases max_count - i,
        {
            let ghost before = self.pool@;
            let m = find_min(&self.pool);
            let t = self.pool.remove(m);
            let ghost o0 = out@;
            out.push(t);
            i = i + 1;
            proof {
                let d = drain_spec(self.pool@, (max_count - i) as nat);
                assert(before.remove(m as int) == self.pool@);
                assert(o0 + (seq![t] + d.0) =~= out@ + d.0);
            }
        }
        out
    }
}

/// Whatever `drain_spec` takes came from the pool.
proof fn lemma_drain_from_pool(pool: Seq<Transaction>, k: nat, i: int)
    requires
        0 <= i < drain_spec(pool, k).0.len(),
    ensures
        pool.contains(drain_spec(pool, k).0[i]),
    decreases k,
{
    if k != 0 && pool.len() != 0 {
        lemma_first_min_exists(pool);
        let m = first_min_index(pool);
        let rest = pool.remove(m);
        if i > 0 {
            lemma_drain_from_pool(rest, (k - 1) as nat, i - 1);
            let x = drain_spec(rest, (k - 1) as nat).0[i - 1];
            let j = choose|j: int| 0 <= j < rest.len() && rest[j] == x;
            assert(pool[if j < m { j } else { j + 1 }] == x);
        } else {
            assert(pool[m] == drain_spec(pool, k).0[0]);
        }
    }
}

proof fn lemma_first_min_exists(pool: Seq<Transaction>)
    requires
        pool.len() > 0,
    ensures
        is_first_min(pool, first_min_index(pool)),
    decreases pool.len(),
{
    if pool.len() == 1 {
        assert(is_first_min(pool, 0));
    } else {
        let p = pool.drop_last();
        lemma_first_min_exists(p);
        let c = first_min_index(p);
        let l = pool.len() - 1;
        assert(forall|j: int| 0 <= j < l ==> pool[j] == p[j]);
        if tx_nonce(pool[l]) < tx_nonce(pool[c]) {
            assert(is_first_min(pool, l));
        } else {
            assert(is_first_min(pool, c));
        }
    }
}

/// What `drain` takes comes out in order of nonce: of two transactions of one sender, the lower
/// nonce is taken first, whatever the order in which they were submitted.
pub proof fn lemma_drain_in_nonce_order(pool: Seq<Transaction>, k: nat)
    ensures
        forall|i: int, j: int|
            0 <= i < j < drain_spec(pool, k).0.len() ==> tx_nonce(drain_spec(pool, k).0[i])
                <= tx_nonce(drain_spec(pool, k).0[j]),
    decreases k,
{
    if k != 0 && pool.len() != 0 {
        lemma_first_min_exists(pool);
        let m = first_min_index(pool);
        let rest = pool.remove(m);
        let d = drain_spec(rest, (k - 1) as nat);
        lemma_drain_in_nonce_order(rest, (k - 1) as nat);
        let out = drain_spec(pool, k).0;
        assert(out == seq![pool[m]] + d.0);
        assert forall|i: int, j: int| 0 <= i < j < out.len() implies tx_nonce(out[i]) <= tx_nonce(
            out[j],
        ) by {
            if i == 0 {
                lemma_drain_from_pool(rest, (k - 1) as nat, j - 1);
                let c = choose|c: int| 0 <= c < rest.len() && rest[c] == d.0[j - 1];
                assert(rest[c] == pool[if c < m { c } else { c + 1 }]);
            } else {
                assert(out[i] == d.0[i - 1] && out[j] == d.0[j - 1]);
            }
        }
    }
}

/// Two indices that both hold the first entry of `a` are the same.
proof fn lemma_first_entry_unique(s: Seq<(Address, u64)>, a: Address, i: int)
    requires
        first_entry(s, a, i),
    ensures
        applied_nonce(s, a) == s[i].1,
{
    let k = choose|k: int| first_entry(s, a, k);
    if k < i {
        assert(s[k].0 != a);
    } else if k > i {
        assert(s[i].0 != a);
    }
}

/// Sequences that agree wherever either holds `b` give `b` the same nonce.
proof fn lemma_same_entries(s0: Seq<(Address, u64)>, s1: Seq<(Address, u64)>, b: Address)
    requires
        s0.len() <= s1.len(),
        forall|j: int| 0 <= j < s0.len() && (s0[j].0 == b || s1[j].0 == b) ==> s0[j] == s1[j],
        forall|j: int| 0 <= j < s0.len() ==> (s0[j].0 == b) == (s1[j].0 == b),
        forall|j: int| s0.len() <= j < s1.len() ==> s1[j].0 != b,
    ensures
        applied_nonce(s1, b) == applied_nonce(s0, b),
{
    if exists|k: int| first_entry(s0, b, k) {
        let k = choose|k: int| first_entry(s0, b, k);
        assert(first_entry(s1, b, k));
        lemma_first_entry_unique(s1, b, k);
        lemma_first_entry_unique(s0, b, k);
    } else if exists|k: int| first_entry(s1, b, k) {
        let k = choose|k: int| first_entry(s1, b, k);
        assert(first_entry(s0, b, k));
    }
}

} // verus!
