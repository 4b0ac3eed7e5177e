//! Choice of the next batch: within a byte budget, dependencies first, the rest deferred.
use vstd::prelude::*;

use crate::address::Digest;
use crate::batcher::MAX_BATCH_SIZE;

verus! {

/// A pending transaction as the scheduler sees it: its digest, serialized size, and the digests
/// it depends on.
#[derive(Clone, Debug, PartialEq, Eq, Hash)]
pub struct Candidate {
    pub digest: Digest,
    pub size: usize,
    pub dependencies: Vec<Digest>,
}

/// `d` was applied before, or is the digest of a candidate chosen already.
pub open spec fn available(cands: Seq<Candidate>, applied: Seq<Digest>, chosen: Seq<int>, d: Digest) -> bool {
    applied.contains(d) || exists|j: int| 0 <= j < chosen.len() && cands[chosen[j]].digest == d
}

pub open spec fn ready(cands: Seq<Candidate>, applied: Seq<Digest>, chosen: Seq<int>, c: Candidate) -> bool {
    forall|k: int| 0 <= k < c.dependencies@.len() ==> available(cands, applied, chosen, #[trigger] c.dependencies@[k])
}

/// The greedy choice over the first `n` candidates: the indices chosen and the bytes they use.
/// A candidate is chosen where it fits what is left of `budget` and each of its dependencies is
/// available; otherwise it is deferred.
pub open spec fn schedule_prefix(cands: Seq<Candidate>, applied: Seq<Digest>, budget: nat, n: nat) -> (Seq<int>, nat)
    decreases n,
{
    if n == 0 {
        (Seq::empty(), 0)
    } else {
        let (ch, used) = schedule_prefix(cands, applied, budget, (n - 1) as nat);
        let c = cands[n - 1];
        if used + c.size <= budget && ready(cands, applied, ch, c) {
            (ch.push(n - 1), (used + c.size) as nat)
        } else {
            (ch, used)
        }
    }
}

/// The budget in force: what is asked, capped at the blob bound.
pub open spec fn effective_budget(max_bytes: usize) -> nat {
    if max_bytes <= MAX_BATCH_SIZE {
        max_bytes as nat
    } else {
        MAX_BATCH_SIZE as nat
    }
}

fn is_available(cands: &Vec<Candidate>, applied: &Vec<Digest>, chosen: &Vec<usize>, d: &Digest) -> (r: bool)
    requires
        forall|j: int| 0 <= j < chosen@.len() ==> chosen@[j] < cands@.len(),
    ensures
        r == available(cands@, applied@, chosen@.map_values(|x: usize| x as int), *d),
{
    let ghost ch = chosen@.map_values(|x: usize| x as int);
    let mut i: usize = 0;
    while i < applied.len()
        invariant
            i <= applied@.len(),
            forall|j: int| 0 <= j < i ==> applied@[j] != *d,
        decreases applied@.len() - i,
    {
        if applied[i] == *d {
            assert(applied@[i as int] == *d);
            return true;
        }
        i = i + 1;
    }
    let mut j: usize = 0;
    while j < chosen.len()
        invariant
            j <= chosen@.len(),
            !applied@.contains(*d),
            ch == chosen@.map_values(|x: usize| x as int),
            forall|j: int| 0 <= j < chosen@.len() ==> chosen@[j] < cands@.len(),
            forall|m: int| 0 <= m < j ==> cands@[ch[m]].digest != *d,
        decreases chosen@.len() - j,
    {
        if cands[chosen[j]].digest == *d {
            assert(cands@[ch[j as int]].digest == *d);
            return true;
        }
        j = j + 1;
    }
    false
}

/// Indices of the candidates for the next batch, in candidate order, chosen greedily: each one
/// that fits the remaining budget (at most `MAX_BATCH_SIZE` in all) and whose dependencies are
/// applied or chosen before it; the others stay for a later batch.
pub fn next_batch(cands: &Vec<Candidate>, applied: &Vec<Digest>, max_bytes: usize) -> (r: Vec<usize>)
    ensures
        r@.map_values(|x: usize| x as int) == schedule_prefix(
            cands@,
            applied@,
            effective_budget(max_bytes),
            cands@.len(),
        ).0,
{
    let budget: usize = if max_bytes <= MAX_BATCH_SIZE {
        max_bytes
    } else {
        MAX_BATCH_SIZE
    };
    let mut chosen: Vec<usize> = Vec::new();
    let mut used: usize = 0;
    let mut i: usize = 0;
    while i < cands.len()
        invariant
            i <= cands@.len(),
            budget as nat == effective_budget(max_bytes),
            used <= budget,
            forall|j: int| 0 <= j < chosen@.len() ==> chosen@[j] < i,
            (chosen@.map_values(|x: usize| x as int), used as nat) == schedule_prefix(
                cands@,
                applied@,
                budget as nat,
                i as nat,
            ),
        decreases cands@.len() - i,
    {
        let c = &cands[i];
        let mut ok = c.size <= budget - used;
        let mut k: usize = 0;
        while ok && k < c.dependencies.len()
            invariant
                k <= c.dependencies@.len(),
                i < cands@.len(),
                *c == cands@[i as int],
                used <= budget,
                budget as nat == effective_budget(max_bytes),
                ok ==> c.size <= budget - used,
                forall|j: int| 0 <= j < chosen@.len() ==> chosen@[j] < i,
                (chosen@.map_values(|x: usize| x as int), used as nat) == schedule_prefix(
                    cands@,
                    applied@,
                    budget as nat,
                    i as nat,
                ),
                forall|j: int| 0 <= j < chosen@.len() ==> chosen@[j] < cands@.len(),
                ok ==> forall|m: int| 0 <= m < k ==> available(
                    cands@,
                    applied@,
                    chosen@.map_values(|x: usize| x as int),
                    #[trigger] c.dependencies@[m],
                ),
                !ok ==> !(used + c.size <= budget && ready(
                    cands@,
                    applied@,
                    chosen@.map_values(|x: usize| x as int),
                    *c,
                )),
            decreases c.dependencies@.len() - k,
        {
            if !is_available(cands, applied, &chosen, &c.dependencies[k]) {
                ok = false;
            }
            k = k + 1;
        }
        let ghost before = chosen@.map_values(|x: usize| x as int);
        if ok {
            chosen.push(i);
            used = used + c.size;
            assert(chosen@.map_values(|x: usize| x as int) =~= before.push(i as int));
        }
        i = i + 1;
    }
    chosen
}

/// The chosen indices rise strictly: the batch keeps the order of the candidates, so candidates
/// taken from the pool in nonce order (see `lemma_drain_in_nonce_order`) keep each sender's lower
/// nonce first.
pub proof fn lemma_schedule_keeps_order(cands: Seq<Candidate>, applied: Seq<Digest>, budget: nat, n: nat)
    ensures
        forall|p: int, q: int|
            0 <= p < q < chosen(cands, applied, budget, n).len() ==> #[trigger] chosen(
                cands,
                applied,
                budget,
                n,
            )[p] < #[trigger] chosen(cands, applied, budget, n)[q],
        forall|p: int|
            0 <= p < chosen(cands, applied, budget, n).len() ==> 0 <= #[trigger] chosen(
                cands,
                applied,
                budget,
                n,
            )[p] < n,
    decreases n,
{
    if n > 0 {
        lemma_schedule_keeps_order(cands, applied, budget, (n - 1) as nat);
        let c0 = chosen(cands, applied, budget, (n - 1) as nat);
        let c = chosen(cands, applied, budget, n);
        assert(c == c0 || c == c0.push(n - 1));
        assert forall|p: int| 0 <= p < c.len() implies 0 <= #[trigger] c[p] < n by {
            if p < c0.len() {
                assert(c[p] == c0[p]);
            }
        }
        assert forall|p: int, q: int| 0 <= p < q < c.len() implies #[trigger] c[p] < #[trigger] c[q] by {
            assert(c[p] == c0[p]);
            if q < c0.len() {
                assert(c[q] == c0[q]);
            }
        }
    }
}

/// The indices chosen among the first `n` candidates.
pub open spec fn chosen(cands: Seq<Candidate>, applied: Seq<Digest>, budget: nat, n: nat) -> Seq<int> {
    schedule_prefix(cands, applied, budget, n).0
}

/// The `k`-th dependency of the `p`-th chosen candidate was applied before, or is chosen at an
/// earlier place.
pub open spec fn dependency_placed(cands: Seq<Candidate>, applied: Seq<Digest>, ch: Seq<int>, p: int, k: int) -> bool {
    0 <= p < ch.len() && 0 <= k < cands[ch[p]].dependencies@.len() ==> {
        let d = cands[ch[p]].dependencies@[k];
        applied.contains(d) || exists|q: int| 0 <= q < p && cands[ch[q]].digest == d
    }
}

/// In every batch chosen, each dependency of a chosen transaction was applied before or is
/// chosen at an earlier place, and the sizes sum to at most the budget.
pub proof fn lemma_schedule_dependencies_first(cands: Seq<Candidate>, applied: Seq<Digest>, budget: nat, n: nat)
    requires
        n <= cands.len(),
    ensures
        schedule_prefix(cands, applied, budget, n).1 <= budget,
        forall|p: int, k: int|
            #[trigger] dependency_placed(cands, applied, schedule_prefix(cands, applied, budget, n).0, p, k),
    decreases n,
{
    if n > 0 {
        lemma_schedule_dependencies_first(cands, applied, budget, (n - 1) as nat);
        let (ch0, _) = schedule_prefix(cands, applied, budget, (n - 1) as nat);
        let ch = schedule_prefix(cands, applied, budget, n).0;
        assert forall|p: int, k: int| #[trigger] dependency_placed(cands, applied, ch, p, k) by {
            if 0 <= p < ch.len() && 0 <= k < cands[ch[p]].dependencies@.len() {
                let d = cands[ch[p]].dependencies@[k];
                if p < ch0.len() {
                    assert(ch[p] == ch0[p]);
                    assert(dependency_placed(cands, applied, ch0, p, k));
                    if !applied.contains(d) {
                        let q = choose|q: int| 0 <= q < p && cands[ch0[q]].digest == d;
                        assert(ch[q] == ch0[q]);
                    }
                } else {
                    let c = cands[n - 1];
                    assert(ch[p] == n - 1);
                    assert(available(cands, applied, ch0, c.dependencies@[k]));
                    if !applied.contains(d) {
                        let q = choose|q: int| 0 <= q < ch0.len() && cands[ch0[q]].digest == d;
                        assert(ch[q] == ch0[q]);
                    }
                }
            }
        }
    }
}

} // verus!
