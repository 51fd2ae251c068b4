//! The sparse set itself: a sparse array of optional dense positions, indexed
//! by key, paired with a densely packed array of entries.

use vstd::prelude::*;

verus! {

/// An element that can be stored in a [`Sparse`] set: it supplies a total,
/// pure, deterministic mapping to a non-negative integer key. Logically equal
/// elements must map to the same key; the set deduplicates on key equality
/// alone.
pub trait Keyed: Sized {
    /// The key of this element, as a mathematical function of the element.
    spec fn spec_key(&self) -> usize;

    /// The key of this element.
    fn key(&self) -> (k: usize)
        ensures
            k == self.spec_key(),
    ;
}

/// Set mode: a plain `usize` key is its own element.
impl Keyed for usize {
    open spec fn spec_key(&self) -> usize {
        *self
    }

    fn key(&self) -> (k: usize) {
        *self
    }
}

/// Map mode: a key together with an associated value. Only the key takes part
/// in membership; the value rides along in the dense storage.
pub struct Entry<V> {
    pub key: usize,
    pub value: V,
}

impl<V> Keyed for Entry<V> {
    open spec fn spec_key(&self) -> usize {
        self.key
    }

    fn key(&self) -> (k: usize) {
        self.key
    }
}

/// The abstract effect of inserting `v` under key `k` into the map `m`:
/// a no-op when `k` is already present (the earlier entry wins), otherwise
/// the map extended with `k -> v`.
pub open spec fn spec_inserted<V>(m: Map<usize, V>, k: usize, v: V) -> Map<usize, V> {
    if m.dom().contains(k) {
        m
    } else {
        m.insert(k, v)
    }
}

/// The abstract effect of inserting every element of `s` into `m`, in order,
/// each under its own key and following [`spec_inserted`]'s collision policy.
pub open spec fn spec_inserted_all<T: Keyed>(m: Map<usize, T>, s: Seq<T>) -> Map<usize, T>
    decreases s.len(),
{
    if s.len() == 0 {
        m
    } else {
        spec_inserted_all(spec_inserted(m, s.first().spec_key(), s.first()), s.drop_first())
    }
}

/// A sparse set of elements of type `T`, addressed by the keys the elements
/// derive. Two backing arrays: `sparse[k]` holds the position of key `k`'s
/// entry within `dense`, or nothing when `k` is absent; `dense` holds the
/// entries themselves, packed without gaps. The sparse array only ever grows;
/// the dense array stays gap-free under removal by swap-compaction.
pub struct Sparse<T> {
    dense: Vec<T>,
    sparse: Vec<Option<usize>>,
}

impl<T: Keyed> View for Sparse<T> {
    type V = Map<usize, T>;

    /// The set viewed abstractly: the finite map from each present key to the
    /// entry stored under it.
    closed spec fn view(&self) -> Map<usize, T> {
        Map::new(
            |k: usize| k < self.sparse@.len() && self.sparse@[k as int] is Some,
            |k: usize| self.dense@[self.sparse@[k as int]->0 as int],
        )
    }
}

impl<T: Keyed> Sparse<T> {
    /// The two arrays are mutually consistent: every occupied sparse slot
    /// points at a dense entry carrying that key, and every dense entry's key
    /// points back at its own position.
    pub closed spec fn wf(&self) -> bool {
        &&& forall|k: int|
            0 <= k < self.sparse@.len() && (#[trigger] self.sparse@[k]) is Some ==> {
                &&& self.sparse@[k]->0 < self.dense@.len()
                &&& self.dense@[self.sparse@[k]->0 as int].spec_key() == k
            }
        &&& forall|p: int|
            0 <= p < self.dense@.len() ==> {
                &&& (#[trigger] self.dense@[p]).spec_key() < self.sparse@.len()
                &&& self.sparse@[self.dense@[p].spec_key() as int] is Some
                &&& self.sparse@[self.dense@[p].spec_key() as int]->0 == p
            }
    }

    /// How many entries the dense backing storage holds.
    pub closed spec fn spec_dense_len(&self) -> nat {
        self.dense@.len()
    }

    /// An empty set.
    pub fn new() -> (s: Self)
        ensures
            s.wf(),
            s@ == Map::<usize, T>::empty(),
            s.spec_dense_len() == 0,
    {
        let s = Sparse { dense: Vec::new(), sparse: Vec::new() };
        proof {
            assert(s@ =~= Map::<usize, T>::empty());
        }
        s
    }

    /// An empty set with backing storage pre-reserved for about `cap`
    /// entries. Purely a performance hint: behaves exactly like [`Self::new`],
    /// and later growth past `cap` still succeeds.
    pub fn with_capacity(cap: usize) -> (s: Self)
        ensures
            s.wf(),
            s@ == Map::<usize, T>::empty(),
            s.spec_dense_len() == 0,
    {
        let s = Sparse { dense: Vec::with_capacity(cap), sparse: Vec::with_capacity(cap) };
        proof {
            assert(s@ =~= Map::<usize, T>::empty());
        }
        s
    }

    /// Whether the slot for key `idx` is occupied.
    fn contains_idx(&self, idx: usize) -> (present: bool)
        ensures
            present == self@.dom().contains(idx),
    {
        if idx >= self.sparse.len() {
            return false;
        }
        self.sparse[idx].is_some()
    }

    /// Bulk-construct a set by inserting each element of `elems` in order.
    /// Equivalent to repeated [`Self::insert`]: a later element whose key
    /// collides with an earlier one is a no-op, so the earliest entry wins.
    pub fn from(elems: Vec<T>) -> (s: Self)
        requires
            forall|i: int|
                0 <= i < elems@.len() ==> (#[trigger] elems@[i]).spec_key() < usize::MAX,
        ensures
            s.wf(),
            s@ == spec_inserted_all(Map::<usize, T>::empty(), elems@),
    {
        let ghost orig = elems@;
        let mut elems = elems;
        let mut s = Self::with_capacity(elems.len());
        while elems.len() > 0
            invariant
                s.wf(),
                forall|i: int|
                    0 <= i < elems@.len() ==> (#[trigger] elems@[i]).spec_key() < usize::MAX,
                spec_inserted_all(s@, elems@) == spec_inserted_all(
                    Map::<usize, T>::empty(),
                    orig,
                ),
            decreases elems@.len(),
        {
            let ghost before = elems@;
            let elem = elems.remove(0);
            proof {
                assert(elems@ =~= before.drop_first());
                assert(elem == before.first());
            }
            s.insert(elem);
        }
        s
    }

    /// Insert `elem` under its key. Returns `true` when the key was already
    /// present — the inverse of the usual set-API polarity: `true` signals
    /// "already existed, nothing done", `false` signals "newly inserted".
    /// When the key is new, the sparse array grows as needed (fresh
    /// intermediate slots stay empty) and the entry is appended to the dense
    /// array; when it is already present the structure is left untouched.
    pub fn insert(&mut self, elem: T) -> (already: bool)
        requires
            old(self).wf(),
            elem.spec_key() < usize::MAX,
        ensures
            final(self).wf(),
            already == old(self)@.dom().contains(elem.spec_key()),
            final(self)@ == spec_inserted(old(self)@, elem.spec_key(), elem),
            final(self).spec_dense_len() == old(self).spec_dense_len() + if already { 0int } else { 1int },
            already ==> *final(self) == *old(self),
    {
        let key = elem.key();
        if self.contains_idx(key) {
            return true;
        }
        let ghost pre_sparse = self.sparse@;
        while self.sparse.len() <= key
            invariant
                elem.spec_key() == key < usize::MAX,
                self.dense@ == old(self).dense@,
                pre_sparse.len() <= self.sparse@.len(),
                forall|j: int| 0 <= j < pre_sparse.len() ==> self.sparse@[j] == pre_sparse[j],
                forall|j: int|
                    pre_sparse.len() <= j < self.sparse@.len() ==> self.sparse@[j] is None,
            decreases key + 1 - self.sparse@.len(),
        {
            self.sparse.push(None);
        }
        let pos = self.dense.len();
        self.sparse.set(key, Some(pos));
        self.dense.push(elem);
        proof {
            let news = self.sparse@;
            let newd = self.dense@;
            let olds = old(self).sparse@;
            let oldd = old(self).dense@;
            assert(pre_sparse == olds);
            assert forall|k: int| 0 <= k < news.len() && (#[trigger] news[k]) is Some implies {
                &&& news[k]->0 < newd.len()
                &&& newd[news[k]->0 as int].spec_key() == k
            } by {
                if k != key {
                    assert(0 <= k < olds.len() && olds[k] is Some);
                }
            }
            assert forall|p: int| 0 <= p < newd.len() implies {
                &&& (#[trigger] newd[p]).spec_key() < news.len()
                &&& news[newd[p].spec_key() as int] is Some
                &&& news[newd[p].spec_key() as int]->0 == p
            } by {
                if p < oldd.len() {
                    assert(oldd[p].spec_key() < olds.len());
                    assert(olds[oldd[p].spec_key() as int] is Some);
                    assert(oldd[p].spec_key() != key);
                }
            }
            assert(self@ =~= old(self)@.insert(key, elem));
        }
        false
    }

    /// Whether an element with `elem`'s key is present. Never mutates.
    pub fn contains(&self, elem: T) -> (present: bool)
        ensures
            present == self@.dom().contains(elem.spec_key()),
    {
        let k = elem.key();
        self.contains_idx(k)
    }

    /// Remove the entry stored under `elem`'s key, if any. Returns `true`
    /// exactly when the key was present; an absent or out-of-range key is a
    /// no-op returning `false`. Removal swap-compacts: the last dense entry
    /// is popped and, unless it was itself the removed one, moved into the
    /// vacated position, its sparse slot repointed — so the dense array stays
    /// gap-free at the cost of reordering.
    pub fn remove(&mut self, elem: T) -> (removed: bool)
        requires
            old(self).wf(),
        ensures
            final(self).wf(),
            removed == old(self)@.dom().contains(elem.spec_key()),
            final(self)@ == old(self)@.remove(elem.spec_key()),
            final(self).spec_dense_len() == old(self).spec_dense_len() - if removed { 1int } else { 0int },
            !removed ==> *final(self) == *old(self),
    {
        let key = elem.key();
        if key >= self.sparse.len() {
            proof {
                assert(self@ =~= self@.remove(key));
            }
            return false;
        }
        let slot = self.sparse[key];
        match slot {
            None => {
                proof {
                    assert(self@ =~= self@.remove(key));
                }
                false
            },
            Some(pos) => {
                let ghost olds = self.sparse@;
                let ghost oldd = self.dense@;
                self.sparse.set(key, None);
                assert(pos < self.dense.len());
                let last = self.dense.pop().unwrap();
                if pos < self.dense.len() {
                    // The removed entry was not the dense tail: move the
                    // popped tail entry into the vacated position and repoint
                    // its sparse slot there.
                    let moved_key = last.key();
                    proof {
                        assert(olds[moved_key as int] is Some);
                        assert(olds[moved_key as int]->0 == oldd.len() - 1);
                        assert(moved_key != key);
                    }
                    self.dense.set(pos, last);
                    self.sparse.set(moved_key, Some(pos));
                    proof {
                        let news = self.sparse@;
                        let newd = self.dense@;
                        let mk = last.spec_key() as int;
                        assert forall|k: int|
                            0 <= k < news.len() && (#[trigger] news[k]) is Some implies {
                            &&& news[k]->0 < newd.len()
                            &&& newd[news[k]->0 as int].spec_key() == k
                        } by {
                            if k != key && k != mk {
                                assert(olds[k] is Some);
                                let p = olds[k]->0;
                                assert(oldd[p as int].spec_key() == k);
                                assert(p != pos && p != oldd.len() - 1);
                            }
                        }
                        assert forall|p: int| 0 <= p < newd.len() implies {
                            &&& (#[trigger] newd[p]).spec_key() < news.len()
                            &&& news[newd[p].spec_key() as int] is Some
                            &&& news[newd[p].spec_key() as int]->0 == p
                        } by {
                            if p != pos {
                                let k = oldd[p].spec_key() as int;
                                assert(olds[k] is Some && olds[k]->0 == p);
                                assert(k != key && k != mk);
                            }
                        }
                        assert(self@ =~= old(self)@.remove(key));
                    }
                } else {
                    // The removed entry was the dense tail itself: popping it
                    // already compacted the array; nothing to repoint.
                    proof {
                        assert(pos == oldd.len() - 1);
                        let news = self.sparse@;
                        let newd = self.dense@;
                        assert forall|k: int|
                            0 <= k < news.len() && (#[trigger] news[k]) is Some implies {
                            &&& news[k]->0 < newd.len()
                            &&& newd[news[k]->0 as int].spec_key() == k
                        } by {
                            if k != key {
                                assert(olds[k] is Some);
                                let p = olds[k]->0;
                                assert(oldd[p as int].spec_key() == k);
                                assert(p != pos);
                            }
                        }
                        assert forall|p: int| 0 <= p < newd.len() implies {
                            &&& (#[trigger] newd[p]).spec_key() < news.len()
                            &&& news[newd[p].spec_key() as int] is Some
                            &&& news[newd[p].spec_key() as int]->0 == p
                        } by {
                            let k = oldd[p].spec_key() as int;
                            assert(olds[k] is Some && olds[k]->0 == p);
                            assert(k != key);
                        }
                        assert(self@ =~= old(self)@.remove(key));
                    }
                }
                true
            },
        }
    }

    /// Dense compaction: however the set was built up and torn down, the
    /// dense backing storage holds exactly one entry per present key — no
    /// gaps, no extras.
    pub proof fn lemma_dense_packed(&self)
        requires
            self.wf(),
        ensures
            self.spec_dense_len() == self@.dom().len(),
    {
        let keys = self.dense@.map_values(|e: T| e.spec_key());
        assert(keys.no_duplicates()) by {
            assert forall|i: int, j: int|
                0 <= i < keys.len() && 0 <= j < keys.len() && i != j implies keys[i] != keys[j] by {
                assert(keys[i] == self.dense@[i].spec_key());
                assert(keys[j] == self.dense@[j].spec_key());
                assert(self.sparse@[self.dense@[i].spec_key() as int]->0 == i);
                assert(self.sparse@[self.dense@[j].spec_key() as int]->0 == j);
            }
        }
        assert(keys.to_set() =~= self@.dom()) by {
            assert forall|k: usize| #[trigger] keys.to_set().contains(k) implies self@.dom().contains(
                k,
            ) by {
                let p = choose|p: int| 0 <= p < keys.len() && keys[p] == k;
                assert(self.dense@[p].spec_key() == k);
                assert(self.sparse@[k as int] is Some);
            }
            assert forall|k: usize| self@.dom().contains(k) implies keys.to_set().contains(k) by {
                let p = self.sparse@[k as int]->0;
                assert(self.dense@[p as int].spec_key() == k);
                assert(keys[p as int] == k);
            }
        }
        keys.unique_seq_to_set();
    }
}

} // verus!
