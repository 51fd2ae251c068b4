//! Laws of the abstract insert and remove transitions that the set's
//! contracts are stated over.

use vstd::prelude::*;

use crate::set::spec_inserted;

verus! {

/// Membership after insert: inserting `v` under key `k` makes `k` present,
/// and when `k` was absent the entry stored under `k` is `v` itself.
pub proof fn lemma_insert_membership<V>(m: Map<usize, V>, k: usize, v: V)
    ensures
        spec_inserted(m, k, v).dom().contains(k),
        !m.dom().contains(k) ==> spec_inserted(m, k, v)[k] == v,
{
}

/// Idempotent insert: after one insert the key is present, so inserting the
/// same key again changes nothing.
pub proof fn lemma_insert_idempotent<V>(m: Map<usize, V>, k: usize, v: V)
    ensures
        spec_inserted(m, k, v).dom().contains(k),
        spec_inserted(spec_inserted(m, k, v), k, v) == spec_inserted(m, k, v),
{
}

/// Insert leaves every other key alone: membership and stored entries of keys
/// other than `k` are exactly as before. In particular, growing the key space
/// by inserting a key far larger than any seen leaves every intermediate key
/// absent.
pub proof fn lemma_insert_other_keys<V>(m: Map<usize, V>, k: usize, v: V)
    ensures
        forall|j: usize|
            j != k ==> spec_inserted(m, k, v).dom().contains(j) == m.dom().contains(j),
        forall|j: usize|
            j != k && m.dom().contains(j) ==> spec_inserted(m, k, v)[j] == m[j],
{
}

/// Removal correctness: removing a present key makes it absent, while every
/// other present key stays present with its entry unchanged.
pub proof fn lemma_remove_present<V>(m: Map<usize, V>, k: usize)
    requires
        m.dom().contains(k),
    ensures
        !m.remove(k).dom().contains(k),
        forall|j: usize|
            j != k ==> m.remove(k).dom().contains(j) == m.dom().contains(j),
        forall|j: usize|
            j != k && m.dom().contains(j) ==> m.remove(k)[j] == m[j],
{
}

/// Removal no-op: removing an absent key leaves the map exactly as it was.
pub proof fn lemma_remove_absent<V>(m: Map<usize, V>, k: usize)
    requires
        !m.dom().contains(k),
    ensures
        m.remove(k) == m,
{
    assert(m.remove(k) =~= m);
}

} // verus!
