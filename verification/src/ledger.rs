//! Balance tables: the sum of a finite map from accounts to amounts, and how
//! it changes when one account's entry is written or removed.
use vstd::prelude::*;

verus! {

/// The sum of all amounts in a finite balance table.
pub open spec fn total(m: Map<u64, i128>) -> int
    decreases m.dom().len(),
{
    if m.dom().finite() && m.dom().len() > 0 {
        let k = m.dom().choose();
        m[k] + total(m.remove(k))
    } else {
        0
    }
}

/// The amount held by `k`, zero where it has no entry.
pub open spec fn amount_of(m: Map<u64, i128>, k: u64) -> int {
    if m.contains_key(k) { m[k] as int } else { 0 }
}

/// Every amount in the table is non-negative.
pub open spec fn all_nonneg(m: Map<u64, i128>) -> bool {
    forall|k: u64| #[trigger] m.contains_key(k) ==> m[k] >= 0
}

/// Removing any one entry takes exactly its amount off the total.
pub proof fn lemma_total_remove(m: Map<u64, i128>, j: u64)
    requires
        m.dom().finite(),
        m.contains_key(j),
    ensures
        total(m) == m[j] + total(m.remove(j)),
    decreases m.dom().len(),
{
    let k = m.dom().choose();
    assert(m.dom().contains(k));
    if k != j {
        let mk = m.remove(k);
        let mj = m.remove(j);
        assert(mk.dom() =~= m.dom().remove(k));
        assert(mj.dom() =~= m.dom().remove(j));
        lemma_total_remove(mk, j);
        lemma_total_remove(mj, k);
        assert(mk.remove(j) =~= mj.remove(k));
    }
}

/// Writing `v` for `k` replaces `k`'s amount in the total.
pub proof fn lemma_total_insert(m: Map<u64, i128>, k: u64, v: i128)
    requires
        m.dom().finite(),
    ensures
        total(m.insert(k, v)) == total(m) - amount_of(m, k) + v,
        m.insert(k, v).dom().finite(),
{
    let n = m.insert(k, v);
    assert(n.dom() =~= m.dom().insert(k));
    lemma_total_remove(n, k);
    assert(n.remove(k) =~= m.remove(k));
    if m.contains_key(k) {
        lemma_total_remove(m, k);
    } else {
        assert(m.remove(k) =~= m);
    }
}

/// Dropping `k`'s entry takes its amount off the total.
pub proof fn lemma_total_drop(m: Map<u64, i128>, k: u64)
    requires
        m.dom().finite(),
    ensures
        total(m.remove(k)) == total(m) - amount_of(m, k),
        m.remove(k).dom().finite(),
{
    assert(m.remove(k).dom() =~= m.dom().remove(k));
    if m.contains_key(k) {
        lemma_total_remove(m, k);
    } else {
        assert(m.remove(k) =~= m);
    }
}

/// With non-negative amounts, every single amount is at most the total.
pub proof fn lemma_amount_le_total(m: Map<u64, i128>, k: u64)
    requires
        m.dom().finite(),
        all_nonneg(m),
    ensures
        0 <= amount_of(m, k) <= total(m),
        total(m) >= 0,
{
    lemma_total_nonneg(m);
    if m.contains_key(k) {
        lemma_total_remove(m, k);
        assert(m.remove(k).dom() =~= m.dom().remove(k));
        lemma_total_nonneg(m.remove(k));
    }
}

proof fn lemma_total_nonneg(m: Map<u64, i128>)
    requires
        m.dom().finite(),
        all_nonneg(m),
    ensures
        total(m) >= 0,
    decreases m.dom().len(),
{
    if m.dom().len() > 0 {
        let k = m.dom().choose();
        assert(m.remove(k).dom() =~= m.dom().remove(k));
        lemma_total_nonneg(m.remove(k));
    }
}

/// The empty table sums to zero.
pub proof fn lemma_total_empty()
    ensures
        total(Map::<u64, i128>::empty()) == 0,
{
    assert(Map::<u64, i128>::empty().dom() =~= Set::<u64>::empty());
}

} // verus!
