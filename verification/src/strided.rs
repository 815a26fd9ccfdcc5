//! Block decomposition of a strided layout.
//!
//! A layout either covers one contiguous run of storage, or a family of
//! contiguous runs whose start offsets are walked by a [`StridedIndex`]
//! over the non-absorbed leading axes.

use crate::layout::{
    count4, decode4, dominated4, offset4, offset_of_flat, prod_rg, suffix_prods_fit, Layout,
};
use vstd::prelude::*;

verus! {

/// Walks the storage offsets of the row-major multi-indices of a size
/// vector, through an arbitrary stride vector, from a base offset.
pub struct StridedIndex {
    pub dims: Layout,
    pub strides: Layout,
    pub start_offset: usize,
    pub total: usize,
    pub next_k: usize,
}

impl StridedIndex {
    /// The walked (padded) size vector.
    pub open spec fn dims_spec(&self) -> Seq<usize> {
        self.dims@
    }

    /// The stride vector offsets are taken through.
    pub open spec fn strides_spec(&self) -> Seq<usize> {
        self.strides@
    }

    /// The base offset added to every yielded offset.
    pub open spec fn start_spec(&self) -> int {
        self.start_offset as int
    }

    /// How many offsets have been yielded so far.
    pub open spec fn pos(&self) -> int {
        self.next_k as int
    }

    pub open spec fn wf(&self) -> bool {
        &&& self.total == count4(self.dims@)
        &&& self.next_k <= self.total
        &&& forall|idx: Seq<int>|
            dominated4(idx, self.dims@) ==> self.start_offset + #[trigger] offset4(
                idx,
                self.strides@,
            ) <= usize::MAX
    }

    /// The offset the walk yields at position `k`.
    pub open spec fn offset_at(&self, k: int) -> int {
        self.start_offset + offset4(decode4(self.dims@, k), self.strides@)
    }

    pub fn new(dims: &Layout, strides: &Layout, start_offset: usize) -> (r: StridedIndex)
        requires
            suffix_prods_fit(dims@, 4),
            forall|idx: Seq<int>|
                dominated4(idx, dims@) ==> start_offset + #[trigger] offset4(idx, strides@)
                    <= usize::MAX,
        ensures
            r.wf(),
            r.dims_spec() == dims@,
            r.strides_spec() == strides@,
            r.start_spec() == start_offset,
            r.pos() == 0,
    {
        let mut total: usize = 1;
        let mut k: usize = 4;
        while k > 0
            invariant
                k <= 4,
                suffix_prods_fit(dims@, 4),
                total == prod_rg(dims@, k as int, 4),
            decreases k,
        {
            k = k - 1;
            assert(prod_rg(dims@, k as int, 4) == dims@[k as int] * prod_rg(dims@, k as int + 1, 4));
            assert(prod_rg(dims@, k as int, 4) <= usize::MAX);
            total = dims[k] * total;
        }
        StridedIndex { dims: *dims, strides: *strides, start_offset, total, next_k: 0 }
    }

    /// Yields the offset of the next multi-index in row-major order, or
    /// `None` once every index has been walked.
    pub fn next(&mut self) -> (r: Option<usize>)
        requires
            old(self).wf(),
        ensures
            final(self).wf(),
            final(self).dims_spec() == old(self).dims_spec(),
            final(self).strides_spec() == old(self).strides_spec(),
            final(self).start_spec() == old(self).start_spec(),
            match r {
                Some(off) => old(self).pos() < count4(old(self).dims_spec()) && final(self).pos()
                    == old(self).pos() + 1 && off == old(self).offset_at(old(self).pos()),
                None => old(self).pos() == count4(old(self).dims_spec()) && final(self).pos()
                    == old(self).pos(),
            },
    {
        if self.next_k >= self.total {
            None
        } else {
            proof {
                crate::layout::lemma_decode4(self.dims@, self.next_k as int);
                crate::layout::lemma_in_bounds_dominated(
                    decode4(self.dims@, self.next_k as int),
                    self.dims@,
                );
                crate::layout::lemma_offset4_nonneg(
                    decode4(self.dims@, self.next_k as int),
                    self.strides@,
                );
            }
            let off = offset_of_flat(&self.dims, &self.strides, self.next_k);
            let r = self.start_offset + off;
            self.next_k = self.next_k + 1;
            Some(r)
        }
    }
}

/// How the elements of a layout sit in storage: one contiguous run, or a
/// family of equally long contiguous runs addressed by a multi-axis index
/// walk over the leading axes.
pub enum StridedBlocks {
    SingleBlock { start_offset: usize, len: usize },
    MultipleBlocks { block_start_index: StridedIndex, block_len: usize },
}

} // verus!
