use vstd::prelude::*;
use crate::transaction::{Transaction, TxType};

verus! {

// The account invariant speaks of sums of stored transaction amounts: the
// deposits under dispute, the charged-back withdrawals, the whole ledger.
// A sum runs over a set of transaction ids; since ids are `u32`, it is
// defined by walking the whole id space, which keeps every lemma a plain
// induction over the walk.

/// How much the id `id` contributes to the sum over `s` of the amounts of
/// ledger entries of kind `k`: its stored amount if it is in `s`, is in the
/// ledger and has kind `k`, else nothing.
pub open spec fn share_of(ledger: Map<u32, Transaction>, s: Set<u32>, k: TxType, id: u32) -> int {
    if s.contains(id) && ledger.contains_key(id) && ledger[id].tx_type == k {
        ledger[id].amount as int
    } else {
        0
    }
}

/// The sum of the contributions of the ids below `n`.
pub open spec fn sum_upto(ledger: Map<u32, Transaction>, s: Set<u32>, k: TxType, n: int) -> int
    decreases n,
{
    if n <= 0 {
        0
    } else {
        sum_upto(ledger, s, k, n - 1) + share_of(ledger, s, k, (n - 1) as u32)
    }
}

/// The sum, over the ids in `s`, of the amounts of the ledger's entries of
/// kind `k`.
pub open spec fn sum_ids(ledger: Map<u32, Transaction>, s: Set<u32>, k: TxType) -> int {
    sum_upto(ledger, s, k, 0x1_0000_0000)
}

proof fn lemma_sum_upto_frame(
    l1: Map<u32, Transaction>,
    l2: Map<u32, Transaction>,
    s: Set<u32>,
    k: TxType,
    n: int,
)
    requires
        forall|id: u32|
            s.contains(id) ==> {
                &&& (#[trigger] l1.contains_key(id) <==> l2.contains_key(id))
                &&& (l1.contains_key(id) ==> l1[id] == l2[id])
            },
    ensures
        sum_upto(l1, s, k, n) == sum_upto(l2, s, k, n),
    decreases n,
{
    if n > 0 {
        lemma_sum_upto_frame(l1, l2, s, k, n - 1);
        let j = (n - 1) as u32;
        if s.contains(j) {
            assert(l1.contains_key(j) <==> l2.contains_key(j));
            assert(share_of(l1, s, k, j) == share_of(l2, s, k, j));
        }
    }
}

/// Two ledgers that agree on every id of `s` give `s` the same sum; the sum
/// never reads the ledger outside `s`.
pub proof fn lemma_sum_frame(
    l1: Map<u32, Transaction>,
    l2: Map<u32, Transaction>,
    s: Set<u32>,
    k: TxType,
)
    requires
        forall|id: u32|
            s.contains(id) ==> {
                &&& #[trigger] l1.contains_key(id) <==> l2.contains_key(id)
                &&& l1.contains_key(id) ==> l1[id] == l2[id]
            },
    ensures
        sum_ids(l1, s, k) == sum_ids(l2, s, k),
{
    lemma_sum_upto_frame(l1, l2, s, k, 0x1_0000_0000);
}

proof fn lemma_sum_upto_insert(
    ledger: Map<u32, Transaction>,
    s: Set<u32>,
    k: TxType,
    id: u32,
    n: int,
)
    requires
        !s.contains(id),
        n <= 0x1_0000_0000,
    ensures
        sum_upto(ledger, s.insert(id), k, n) == sum_upto(ledger, s, k, n) + if id < n {
            share_of(ledger, s.insert(id), k, id)
        } else {
            0
        },
    decreases n,
{
    if n > 0 {
        lemma_sum_upto_insert(ledger, s, k, id, n - 1);
        let j = (n - 1) as u32;
        if j == id {
            assert(share_of(ledger, s, k, j) == 0);
        } else {
            assert(s.insert(id).contains(j) == s.contains(j));
            assert(share_of(ledger, s.insert(id), k, j) == share_of(ledger, s, k, j));
        }
    }
}

/// Adding a fresh id to `s` grows the sum by exactly that id's contribution.
pub proof fn lemma_sum_insert(ledger: Map<u32, Transaction>, s: Set<u32>, k: TxType, id: u32)
    requires
        !s.contains(id),
    ensures
        sum_ids(ledger, s.insert(id), k) == sum_ids(ledger, s, k) + share_of(
            ledger,
            s.insert(id),
            k,
            id,
        ),
{
    lemma_sum_upto_insert(ledger, s, k, id, 0x1_0000_0000);
}

/// Taking an id out of `s` shrinks the sum by exactly that id's contribution.
pub proof fn lemma_sum_remove(ledger: Map<u32, Transaction>, s: Set<u32>, k: TxType, id: u32)
    requires
        s.contains(id),
    ensures
        sum_ids(ledger, s.remove(id), k) == sum_ids(ledger, s, k) - share_of(ledger, s, k, id),
{
    let s0 = s.remove(id);
    assert(s0.insert(id) =~= s);
    lemma_sum_upto_insert(ledger, s0, k, id, 0x1_0000_0000);
}

proof fn lemma_sum_upto_le(
    ledger: Map<u32, Transaction>,
    s1: Set<u32>,
    s2: Set<u32>,
    k: TxType,
    n: int,
)
    requires
        s1.subset_of(s2),
    ensures
        sum_upto(ledger, s1, k, n) <= sum_upto(ledger, s2, k, n),
    decreases n,
{
    if n > 0 {
        lemma_sum_upto_le(ledger, s1, s2, k, n - 1);
    }
}

/// Sums grow with the set: every contribution is nonnegative.
pub proof fn lemma_sum_le(ledger: Map<u32, Transaction>, s1: Set<u32>, s2: Set<u32>, k: TxType)
    requires
        s1.subset_of(s2),
    ensures
        sum_ids(ledger, s1, k) <= sum_ids(ledger, s2, k),
{
    lemma_sum_upto_le(ledger, s1, s2, k, 0x1_0000_0000);
}

proof fn lemma_sum_upto_nonneg(ledger: Map<u32, Transaction>, s: Set<u32>, k: TxType, n: int)
    ensures
        0 <= sum_upto(ledger, s, k, n),
    decreases n,
{
    if n > 0 {
        lemma_sum_upto_nonneg(ledger, s, k, n - 1);
    }
}

/// No sum is negative.
pub proof fn lemma_sum_nonneg(ledger: Map<u32, Transaction>, s: Set<u32>, k: TxType)
    ensures
        0 <= sum_ids(ledger, s, k),
{
    lemma_sum_upto_nonneg(ledger, s, k, 0x1_0000_0000);
}

proof fn lemma_sum_upto_disjoint(
    ledger: Map<u32, Transaction>,
    s1: Set<u32>,
    s2: Set<u32>,
    k: TxType,
    n: int,
)
    requires
        s1.disjoint(s2),
    ensures
        sum_upto(ledger, s1.union(s2), k, n) == sum_upto(ledger, s1, k, n) + sum_upto(
            ledger,
            s2,
            k,
            n,
        ),
    decreases n,
{
    if n > 0 {
        lemma_sum_upto_disjoint(ledger, s1, s2, k, n - 1);
    }
}

/// The sum over a union of disjoint sets is the sum of the two sums.
pub proof fn lemma_sum_disjoint(
    ledger: Map<u32, Transaction>,
    s1: Set<u32>,
    s2: Set<u32>,
    k: TxType,
)
    requires
        s1.disjoint(s2),
    ensures
        sum_ids(ledger, s1.union(s2), k) == sum_ids(ledger, s1, k) + sum_ids(ledger, s2, k),
{
    lemma_sum_upto_disjoint(ledger, s1, s2, k, 0x1_0000_0000);
}

proof fn lemma_sum_upto_empty(ledger: Map<u32, Transaction>, k: TxType, n: int)
    ensures
        sum_upto(ledger, Set::empty(), k, n) == 0,
    decreases n,
{
    if n > 0 {
        lemma_sum_upto_empty(ledger, k, n - 1);
    }
}

/// The sum over the empty set is nothing.
pub proof fn lemma_sum_empty(ledger: Map<u32, Transaction>, k: TxType)
    ensures
        sum_ids(ledger, Set::empty(), k) == 0,
{
    lemma_sum_upto_empty(ledger, k, 0x1_0000_0000);
}

proof fn lemma_sum_upto_bound(ledger: Map<u32, Transaction>, s: Set<u32>, k: TxType, n: int)
    requires
        0 <= n,
    ensures
        sum_upto(ledger, s, k, n) <= n * 0xFFFF_FFFF_FFFF_FFFF,
    decreases n,
{
    if n > 0 {
        lemma_sum_upto_bound(ledger, s, k, n - 1);
        assert((n - 1) * 0xFFFF_FFFF_FFFF_FFFF + 0xFFFF_FFFF_FFFF_FFFF == n * 0xFFFF_FFFF_FFFF_FFFF)
            by (nonlinear_arith);
    }
}

/// No sum exceeds the whole id space times the largest amount.
pub proof fn lemma_sum_bound(ledger: Map<u32, Transaction>, s: Set<u32>, k: TxType)
    ensures
        sum_ids(ledger, s, k) <= 0x1_0000_0000 * 0xFFFF_FFFF_FFFF_FFFF,
{
    lemma_sum_upto_bound(ledger, s, k, 0x1_0000_0000);
}

} // verus!
