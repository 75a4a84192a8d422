//! The index space of a block: which transaction indices it holds and in
//! which order they are walked.

use vstd::prelude::*;
use crate::cursor::TxnIndex;

verus! {

/// The mathematical content of an index provider: the indices of the block
/// in increasing order, and an exclusive upper bound.
#[verifier::ext_equal]
pub struct Block {
    pub indices: Seq<TxnIndex>,
    pub end: TxnIndex,
}

impl Block {
    /// Strictly increasing, and everything below `end`.
    pub open spec fn wf(self) -> bool {
        &&& forall|i: int, j: int| 0 <= i < j < self.indices.len() ==> self.indices[i] < self.indices[j]
        &&& forall|i: int| 0 <= i < self.indices.len() ==> self.indices[i] < self.end
    }

    pub open spec fn len(self) -> int {
        self.indices.len() as int
    }

    pub open spec fn contains(self, t: TxnIndex) -> bool {
        exists|p: int| 0 <= p < self.indices.len() && self.indices[p] == t
    }

    /// A place where a cursor may stand: on an index of the block, or at the end.
    pub open spec fn is_cursor(self, t: TxnIndex) -> bool {
        self.contains(t) || t == self.end
    }

    /// `r` indices are at most `t`, and all others are above it.
    pub open spec fn splits_at(self, t: TxnIndex, r: int) -> bool {
        &&& 0 <= r <= self.indices.len()
        &&& forall|p: int| 0 <= p < r ==> self.indices[p] <= t
        &&& forall|p: int| r <= p < self.indices.len() ==> self.indices[p] > t
    }

    /// How many indices of the block are at most `t`.
    pub open spec fn count_upto(self, t: TxnIndex) -> int {
        choose|r: int| self.splits_at(t, r)
    }

    /// The slot of `t` in the scheduler's tables, for `t` in the block.
    pub open spec fn slot(self, t: TxnIndex) -> int {
        self.count_upto(t) - 1
    }

    pub open spec fn first(self) -> TxnIndex {
        if self.indices.len() == 0 { self.end } else { self.indices[0] }
    }

    /// The smallest index of the block above `t`, or the end if there is none.
    pub open spec fn next(self, t: TxnIndex) -> TxnIndex {
        if self.count_upto(t) < self.indices.len() {
            self.indices[self.count_upto(t)]
        } else {
            self.end
        }
    }

    /// At most one place splits the indices at `t`.
    pub proof fn lemma_split_unique(self, t: TxnIndex, r: int)
        requires
            self.splits_at(t, r),
        ensures
            self.count_upto(t) == r,
    {
        let c = self.count_upto(t);
        if c < r {
            assert(self.indices[c] <= t);
        } else if r < c {
            assert(self.indices[r] <= t);
        }
    }

    /// The index in slot `p` is in the block, and `p` is its slot.
    pub proof fn lemma_slot_of_index(self, p: int)
        requires
            self.wf(),
            0 <= p < self.len(),
        ensures
            self.contains(self.indices[p]),
            self.slot(self.indices[p]) == p,
            self.next(self.indices[p]) == if p + 1 < self.len() { self.indices[p + 1] } else { self.end },
    {
        assert(self.splits_at(self.indices[p], p + 1));
        self.lemma_split_unique(self.indices[p], p + 1);
    }

    /// An index of the block stands in its slot.
    pub proof fn lemma_slot(self, t: TxnIndex)
        requires
            self.wf(),
            self.contains(t),
        ensures
            0 <= self.slot(t) < self.len(),
            self.indices[self.slot(t)] == t,
            t < self.end,
    {
        let p = choose|p: int| 0 <= p < self.indices.len() && self.indices[p] == t;
        self.lemma_slot_of_index(p);
    }

    /// `next` moves a cursor forward to another place for a cursor, and
    /// stays at the end once it is there.
    pub proof fn lemma_next(self, t: TxnIndex)
        requires
            self.wf(),
        ensures
            self.is_cursor(self.next(t)),
            self.next(t) <= self.end,
            t < self.end ==> self.next(t) > t,
            t >= self.end ==> self.next(t) == self.end,
            forall|x: TxnIndex| self.contains(x) && x > t ==> self.next(t) <= x,
    {
        let n = self.indices.len() as int;
        if n == 0 {
            assert(self.splits_at(t, 0));
            self.lemma_split_unique(t, 0);
        } else if self.indices[n - 1] <= t {
            assert(self.splits_at(t, n));
            self.lemma_split_unique(t, n);
        } else {
            self.lemma_split_exists(t, n - 1);
        }
        let c = self.count_upto(t);
        assert(self.splits_at(t, c));
        if c < n {
            assert(self.indices[c] > t);
        } else if t >= self.end {
        }
        if t >= self.end && c < n {
            assert(self.indices[c] < self.end);
        }
    }

    /// Some place splits the indices at `t`.
    proof fn lemma_split_exists(self, t: TxnIndex, k: int)
        requires
            self.wf(),
            0 <= k < self.indices.len(),
            self.indices[k] > t,
        ensures
            exists|r: int| self.splits_at(t, r),
        decreases k,
    {
        if k == 0 {
            assert(self.splits_at(t, 0));
        } else if self.indices[k - 1] <= t {
            assert(self.splits_at(t, k));
        } else {
            self.lemma_split_exists(t, k - 1);
        }
    }
}

/// An ordered set of transaction indices below an exclusive end. The
/// indices need not be contiguous; `next` defines the order of traversal.
pub struct IndexProvider {
    indices: Vec<TxnIndex>,
    end: TxnIndex,
}

impl View for IndexProvider {
    type V = Block;

    closed spec fn view(&self) -> Block {
        Block { indices: self.indices@, end: self.end }
    }
}

impl IndexProvider {
    /// A provider for the given indices, if they are strictly increasing
    /// and all below `end`.
    pub fn new(indices: Vec<TxnIndex>, end: TxnIndex) -> (r: Option<Self>)
        ensures
            r.is_some() <==> (Block { indices: indices@, end }).wf(),
            r matches Some(p) ==> p@ == (Block { indices: indices@, end }),
    {
        let ghost b = Block { indices: indices@, end };
        let n = indices.len();
        let mut i: usize = 0;
        while i < n
            invariant
                n == indices.len(),
                0 <= i <= n,
                b == (Block { indices: indices@, end }),
                forall|a: int, c: int| 0 <= a < c < i ==> indices@[a] < indices@[c],
                forall|a: int| 0 <= a < i ==> indices@[a] < end,
            decreases n - i,
        {
            if indices[i] >= end {
                assert(b.indices[i as int] >= b.end);
                return None;
            }
            if i > 0 && indices[i - 1] >= indices[i] {
                assert(b.indices[i - 1] >= b.indices[i as int]);
                return None;
            }
            assert forall|a: int, c: int| 0 <= a < c < i + 1 implies indices@[a] < indices@[c] by {
                if c == i && a < i - 1 {
                    assert(indices@[a] < indices@[i - 1]);
                }
            }
            i = i + 1;
        }
        Some(IndexProvider { indices, end })
    }

    /// The provider of the block `0, 1, .., block_size - 1`.
    pub fn contiguous(block_size: TxnIndex) -> (r: Self)
        ensures
            r@.wf(),
            r@.end == block_size,
            r@.indices.len() == block_size,
            forall|p: int| 0 <= p < block_size ==> r@.indices[p] == p,
    {
        let mut indices: Vec<TxnIndex> = Vec::new();
        let mut i: TxnIndex = 0;
        while i < block_size
            invariant
                0 <= i <= block_size,
                indices@.len() == i,
                forall|p: int| 0 <= p < i ==> indices@[p] == p,
            decreases block_size - i,
        {
            indices.push(i);
            i = i + 1;
        }
        IndexProvider { indices, end: block_size }
    }

    /// Number of transactions in the block.
    pub fn len(&self) -> (r: usize)
        ensures
            r == self@.len(),
    {
        self.indices.len()
    }

    /// The index in slot `p`.
    pub fn index_at(&self, p: usize) -> (r: TxnIndex)
        requires
            p < self@.len(),
        ensures
            r == self@.indices[p as int],
    {
        self.indices[p]
    }

    /// The exclusive upper bound of the block.
    pub fn txn_end_index(&self) -> (r: TxnIndex)
        ensures
            r == self@.end,
    {
        self.end
    }

    /// The first index of the block, or the end where the block is empty.
    pub fn get_first_tid(&self) -> (r: TxnIndex)
        ensures
            r == self@.first(),
    {
        if self.indices.len() == 0 { self.end } else { self.indices[0] }
    }

    /// How many indices of the block are at most `t`, by bisection.
    fn count_upto(&self, t: TxnIndex) -> (r: usize)
        requires
            self@.wf(),
        ensures
            self@.splits_at(t, r as int),
            r == self@.count_upto(t),
    {
        let mut lo: usize = 0;
        let mut hi: usize = self.indices.len();
        while lo < hi
            invariant
                self@.wf(),
                0 <= lo <= hi <= self.indices@.len(),
                forall|p: int| 0 <= p < lo ==> self.indices@[p] <= t,
                forall|p: int| hi <= p < self.indices@.len() ==> self.indices@[p] > t,
            decreases hi - lo,
        {
            let mid: usize = lo + (hi - lo) / 2;
            if self.indices[mid] <= t {
                assert forall|p: int| 0 <= p < mid + 1 implies self.indices@[p] <= t by {
                    if p < mid {
                        assert(self@.indices[p] < self@.indices[mid as int]);
                    }
                }
                lo = mid + 1;
            } else {
                assert forall|p: int| mid <= p < self.indices@.len() implies self.indices@[p] > t by {
                    if p > mid {
                        assert(self@.indices[mid as int] < self@.indices[p]);
                    }
                }
                hi = mid;
            }
        }
        proof {
            self@.lemma_split_unique(t, lo as int);
        }
        lo
    }

    /// The index that follows `t` in the order of traversal: the smallest
    /// index of the block above `t`, or the end.
    pub fn txn_index_right_after(&self, t: TxnIndex) -> (r: TxnIndex)
        requires
            self@.wf(),
        ensures
            r == self@.next(t),
            self@.is_cursor(r),
            r <= self@.end,
            t < self@.end ==> r > t,
            t >= self@.end ==> r == self@.end,
    {
        proof {
            self@.lemma_next(t);
        }
        let c = self.count_upto(t);
        if c < self.indices.len() { self.indices[c] } else { self.end }
    }

    /// The slot of `t`, if `t` is in the block.
    pub fn slot_of(&self, t: TxnIndex) -> (r: Option<usize>)
        requires
            self@.wf(),
        ensures
            r.is_some() <==> self@.contains(t),
            r matches Some(p) ==> p == self@.slot(t) && p < self@.len() && self@.indices[p as int] == t,
    {
        let c = self.count_upto(t);
        if c > 0 && self.indices[c - 1] == t {
            Some(c - 1)
        } else {
            proof {
                if self@.contains(t) {
                    self@.lemma_slot(t);
                }
            }
            None
        }
    }

    /// All indices of the block, in the order of traversal.
    pub fn all_txn_indices(&self) -> (r: Vec<TxnIndex>)
        ensures
            r@ == self@.indices,
    {
        self.indices.clone()
    }
}

} // verus!
