//! A shape paired with strides: the layout of one tensor's elements.

use crate::error::{GError, GResult};
use crate::layout::{
    count4, dominated4, offset4, prod_rg, rg_prods_fit, suffix_prods_fit, Layout, MAX_DIM,
};
use crate::layout::{lemma_prod_rg_congruent, lemma_prod_rg_nonneg, lemma_prod_rg_ones,
    lemma_prod_rg_padded, lemma_prod_rg_split};
use crate::shape::Shape;
use crate::strided::{StridedBlocks, StridedIndex};
use vstd::prelude::*;

verus! {

/// An active rank, a size vector and a stride vector.  Only the first
/// `n_dims` axes are meaningful; the sizes beyond them are padding 1s.
#[derive(Clone, Copy, Debug)]
pub struct Dim {
    pub n_dims: usize,
    pub shape: Shape,
    pub stride: Layout,
}

/// The leading `m` entries of a size vector, the rest replaced by 1.
pub open spec fn mask_sizes(s: Seq<usize>, m: int) -> Seq<usize> {
    Seq::new(4, |k: int| if k < m { s[k] } else { 1 })
}

/// The leading `m` entries of a stride vector, the rest replaced by 0.
pub open spec fn mask_strides(st: Seq<usize>, m: int) -> Seq<usize> {
    Seq::new(4, |k: int| if k < m { st[k] } else { 0 })
}

impl Dim {
    pub open spec fn sizes(&self) -> Seq<usize> {
        self.shape@
    }

    pub open spec fn strides(&self) -> Seq<usize> {
        self.stride@
    }

    pub open spec fn rank(&self) -> int {
        self.n_dims as int
    }

    /// The number of elements this layout addresses.
    pub open spec fn count(&self) -> int {
        count4(self.shape@)
    }

    /// The rank fits the capacity and the sizes beyond it are padding 1s.
    pub open spec fn wf(&self) -> bool {
        &&& self.n_dims <= 4
        &&& self.shape@.len() == 4
        &&& self.stride@.len() == 4
        &&& forall|k: int| self.rank() <= k < 4 ==> #[trigger] self.shape@[k] == 1
    }

    /// Scanning axes from the innermost outward, each stride equals the
    /// running product of the sizes already scanned: the layout covers one
    /// gapless row-major span.
    pub open spec fn is_contig_spec(&self) -> bool {
        forall|k: int|
            0 <= k < self.rank() ==> #[trigger] self.stride@[k] == prod_rg(
                self.shape@,
                k + 1,
                self.rank(),
            )
    }

    /// Some axis's stride is exceeded by the next axis's stride: the axes
    /// are not in canonical outermost-to-innermost order.
    pub open spec fn is_permuted_spec(&self) -> bool {
        exists|k: int| 0 <= k < self.rank() - 1 && #[trigger] self.stride@[k] < self.stride@[k + 1]
    }

    /// The `c` innermost axes compose into one contiguous block: each of
    /// their strides equals the product of the sizes inside it.
    pub open spec fn absorb_ok(&self, c: int) -> bool {
        forall|t: int|
            0 <= t < c ==> #[trigger] self.stride@[self.rank() - 1 - t] == prod_rg(
                self.shape@,
                self.rank() - t,
                self.rank(),
            )
    }

    /// With `c` innermost axes absorbed into blocks of `block_len`
    /// elements, `bsi` walks exactly the remaining leading axes.
    pub open spec fn blocks_witness(&self, bsi: StridedIndex, block_len: usize, c: int) -> bool {
        &&& 0 <= c < self.rank()
        &&& self.absorb_ok(c)
        &&& self.strides()[self.rank() - 1 - c] != prod_rg(
            self.shape@,
            self.rank() - c,
            self.rank(),
        )
        &&& block_len == prod_rg(self.shape@, self.rank() - c, self.rank())
        &&& bsi.dims_spec() =~= mask_sizes(self.shape@, self.rank() - c)
        &&& bsi.strides_spec() =~= mask_strides(self.stride@, self.rank() - c)
    }

    /// Some number of absorbed innermost axes explains `bsi` and
    /// `block_len`.
    pub open spec fn decomposes_multi(&self, bsi: StridedIndex, block_len: usize) -> bool {
        exists|c: int| #[trigger] self.blocks_witness(bsi, block_len, c)
    }

    pub fn new(n_dims: usize, shape: Shape, stride: Layout) -> (r: Dim)
        requires
            n_dims <= MAX_DIM,
            forall|k: int| n_dims <= k < 4 ==> #[trigger] shape@[k] == 1,
        ensures
            r.wf(),
            r.n_dims == n_dims,
            r.shape@ == shape@,
            r.stride@ == stride@,
    {
        Dim { n_dims, shape, stride }
    }

    /// The active sizes.
    pub fn shape(&self) -> (r: Vec<usize>)
        requires
            self.wf(),
        ensures
            r@ =~= self.sizes().take(self.rank()),
    {
        let mut v: Vec<usize> = Vec::new();
        let mut i: usize = 0;
        while i < self.n_dims
            invariant
                i <= self.n_dims <= 4,
                self.shape@.len() == 4,
                v@ =~= self.shape@.take(i as int),
            decreases self.n_dims - i,
        {
            v.push(self.shape.0[i]);
            i = i + 1;
        }
        v
    }

    /// The active strides.
    pub fn stride(&self) -> (r: Vec<usize>)
        requires
            self.wf(),
        ensures
            r@ =~= self.strides().take(self.rank()),
    {
        let mut v: Vec<usize> = Vec::new();
        let mut i: usize = 0;
        while i < self.n_dims
            invariant
                i <= self.n_dims <= 4,
                self.stride@.len() == 4,
                v@ =~= self.stride@.take(i as int),
            decreases self.n_dims - i,
        {
            v.push(self.stride[i]);
            i = i + 1;
        }
        v
    }

    /// Replaces the stride vector wholesale.
    pub fn ret_stride(&mut self, stride: Layout)
        ensures
            final(self).n_dims == old(self).n_dims,
            final(self).shape@ == old(self).shape@,
            final(self).stride@ == stride@,
    {
        self.stride = stride;
    }

    /// Canonical row-major strides for the active rank.
    pub fn nd_stride(&self) -> (r: Layout)
        requires
            self.wf(),
            suffix_prods_fit(self.shape@, self.rank()),
        ensures
            forall|k: int|
                0 <= k < self.rank() ==> #[trigger] r@[k] == prod_rg(self.shape@, k + 1, self.rank()),
            forall|k: int| self.rank() <= k < 4 ==> #[trigger] r@[k] == 0,
    {
        self.shape.nd_stride(self.n_dims)
    }

    pub fn shape_layout(&self) -> (r: &Layout)
        ensures
            r@ == self.shape@,
    {
        self.shape.layout()
    }

    pub fn stride_layout(&self) -> (r: &Layout)
        ensures
            r@ == self.strides(),
    {
        &self.stride
    }

    pub fn stride_4d(&self) -> (r: (usize, usize, usize, usize))
        ensures
            r.0 == self.strides()[0] && r.1 == self.strides()[1] && r.2 == self.strides()[2]
                && r.3 == self.strides()[3],
    {
        (self.stride[0], self.stride[1], self.stride[2], self.stride[3])
    }

    pub fn stride_3d(&self) -> (r: (usize, usize, usize))
        ensures
            r.0 == self.strides()[0] && r.1 == self.strides()[1] && r.2 == self.strides()[2],
    {
        (self.stride[0], self.stride[1], self.stride[2])
    }

    pub fn stride_2d(&self) -> (r: (usize, usize))
        ensures
            r.0 == self.strides()[0] && r.1 == self.strides()[1],
    {
        (self.stride[0], self.stride[1])
    }

    pub fn stride_1d(&self) -> (r: usize)
        ensures
            r == self.strides()[0],
    {
        self.stride[0]
    }

    pub fn stride_3(&self) -> (r: usize)
        ensures
            r == self.strides()[3],
    {
        self.stride[3]
    }

    pub fn stride_2(&self) -> (r: usize)
        ensures
            r == self.strides()[2],
    {
        self.stride[2]
    }

    pub fn stride_1(&self) -> (r: usize)
        ensures
            r == self.strides()[1],
    {
        self.stride[1]
    }

    pub fn stride_0(&self) -> (r: usize)
        ensures
            r == self.strides()[0],
    {
        self.stride[0]
    }

    pub fn dim_3(&self) -> (r: usize)
        ensures
            r == self.sizes()[3],
    {
        self.shape.0[3]
    }

    pub fn dim_2(&self) -> (r: usize)
        ensures
            r == self.sizes()[2],
    {
        self.shape.0[2]
    }

    pub fn dim_1(&self) -> (r: usize)
        ensures
            r == self.sizes()[1],
    {
        self.shape.0[1]
    }

    pub fn dim_0(&self) -> (r: usize)
        ensures
            r == self.sizes()[0],
    {
        self.shape.dims1()
    }

    pub fn dim4(&self) -> (r: (usize, usize, usize, usize))
        ensures
            r.0 == self.sizes()[0] && r.1 == self.sizes()[1] && r.2 == self.sizes()[2] && r.3
                == self.sizes()[3],
    {
        self.shape.dims4()
    }

    pub fn dim3(&self) -> (r: (usize, usize, usize))
        ensures
            r.0 == self.sizes()[0] && r.1 == self.sizes()[1] && r.2 == self.sizes()[2],
    {
        self.shape.dims3()
    }

    pub fn dim2(&self) -> (r: (usize, usize))
        ensures
            r.0 == self.sizes()[0] && r.1 == self.sizes()[1],
    {
        self.shape.dims2()
    }

    pub fn dim1(&self) -> (r: usize)
        ensures
            r == self.sizes()[0],
    {
        self.shape.dims1()
    }

    pub fn n_dims(&self) -> (r: usize)
        ensures
            r == self.n_dims,
    {
        self.n_dims
    }

    /// Rows counted over every axis but the leading one.
    pub fn nrows(&self) -> (r: usize)
        requires
            self.sizes()[1] * self.sizes()[2] <= usize::MAX,
            self.sizes()[1] * self.sizes()[2] * self.sizes()[3] <= usize::MAX,
        ensures
            r == self.sizes()[1] * self.sizes()[2] * self.sizes()[3],
    {
        let (_, d1, d2, d3) = self.dim4();
        (d1 * d2) * d3
    }

    pub fn is_vector(&self) -> (r: bool)
        ensures
            r == (self.sizes()[1] == 1 && self.sizes()[2] == 1 && self.sizes()[3] == 1),
    {
        let (_, d1, d2, d3) = self.dim4();
        d1 == 1 && d2 == 1 && d3 == 1
    }

    pub fn is_scalar(&self) -> (r: bool)
        ensures
            r == (self.sizes()[0] == 1 && self.sizes()[1] == 1 && self.sizes()[2] == 1
                && self.sizes()[3] == 1),
    {
        let (d0, d1, d2, d3) = self.dim4();
        d0 == 1 && d1 == 1 && d2 == 1 && d3 == 1
    }

    pub fn elem_count(&self) -> (r: usize)
        requires
            suffix_prods_fit(self.shape@, 4),
        ensures
            r == self.count(),
    {
        self.shape.elem_count()
    }

    /// Restricts one axis to the sub-range `[start, start + len)`.  The
    /// stride is unchanged: narrowing shrinks the logical extent, not the
    /// memory step.  The source layout is never modified.
    pub fn narrow(&self, dim: usize, start: usize, len: usize) -> (r: GResult<Dim>)
        requires
            self.wf(),
        ensures
            match r {
                Ok(d) => {
                    &&& dim < self.rank()
                    &&& start + len <= self.sizes()[dim as int]
                    &&& d.wf()
                    &&& d.n_dims == self.n_dims
                    &&& d.shape@ =~= self.sizes().update(dim as int, len)
                    &&& d.stride@ == self.strides()
                },
                Err(e) => {
                    ||| {
                        &&& dim >= self.rank()
                        &&& e matches GError::DimOutOfRange { shape: sh, dim: d2, op: _ }
                        &&& sh@ == self.shape@
                        &&& d2 == dim
                    }
                    ||| {
                        &&& dim < self.rank()
                        &&& start + len > self.sizes()[dim as int]
                        &&& e matches GError::NarrowInvalidArgs {
                            shape: sh,
                            dim: d2,
                            start: s2,
                            len: l2,
                            msg: _,
                        }
                        &&& sh@ == self.shape@
                        &&& d2 == dim
                        &&& s2 == start
                        &&& l2 == len
                    }
                },
            },
    {
        if dim >= self.n_dims {
            return Err(GError::DimOutOfRange { shape: self.shape, dim, op: "narrow" });
        }
        let size = self.shape.0[dim];
        if start > size || len > size - start {
            return Err(
                GError::NarrowInvalidArgs {
                    shape: self.shape,
                    dim,
                    start,
                    len,
                    msg: "start + len > dim_len",
                },
            );
        }
        let mut sh = self.shape;
        sh.0[dim] = len;
        Ok(Dim { n_dims: self.n_dims, shape: sh, stride: self.stride })
    }

    /// Swaps the size and stride entries of two axes, yielding a view that
    /// walks the same storage in a different order.  The source layout is
    /// never modified.
    pub fn transpose(&self, d1: usize, d2: usize) -> (r: GResult<Dim>)
        requires
            self.wf(),
        ensures
            match r {
                Ok(d) => {
                    &&& d1 < self.rank()
                    &&& d2 < self.rank()
                    &&& d.wf()
                    &&& d.n_dims == self.n_dims
                    &&& d.shape@ =~= self.sizes().update(
                        d1 as int,
                        self.sizes()[d2 as int],
                    ).update(d2 as int, self.sizes()[d1 as int])
                    &&& d.stride@ =~= self.strides().update(
                        d1 as int,
                        self.strides()[d2 as int],
                    ).update(d2 as int, self.strides()[d1 as int])
                },
                Err(e) => {
                    &&& (d1 >= self.rank() || d2 >= self.rank())
                    &&& e matches GError::UnexpectedNumberOfDims { expected, got }
                    &&& expected == if d1 > d2 {
                        d1 as int
                    } else {
                        d2 as int
                    }
                    &&& got == self.n_dims
                },
            },
    {
        if d1 >= self.n_dims || d2 >= self.n_dims {
            let expected = if d1 > d2 {
                d1
            } else {
                d2
            };
            return Err(GError::UnexpectedNumberOfDims { expected, got: self.n_dims });
        }
        let mut sh = self.shape;
        let mut st = self.stride;
        let sa = sh.0[d1];
        let sb = sh.0[d2];
        sh.0[d1] = sb;
        sh.0[d2] = sa;
        let ta = st[d1];
        let tb = st[d2];
        st[d1] = tb;
        st[d2] = ta;
        Ok(Dim { n_dims: self.n_dims, shape: sh, stride: st })
    }

    /// Whether the layout covers one gapless row-major span of storage,
    /// which licenses flat iteration.
    pub fn is_contiguous(&self) -> (r: bool)
        requires
            self.wf(),
        ensures
            r == self.is_contig_spec(),
    {
        let n = self.n_dims;
        let mut acc: usize = 1;
        let mut k: usize = n;
        while k > 0
            invariant
                k <= n <= 4,
                n == self.n_dims,
                self.wf(),
                k > 0 ==> acc == prod_rg(self.shape@, k as int, n as int),
                forall|j: int|
                    k <= j < n ==> #[trigger] self.stride@[j] == prod_rg(self.shape@, j + 1, n as int),
            decreases k,
        {
            k = k - 1;
            if self.stride[k] != acc {
                proof {
                    assert(self.stride@[k as int] != prod_rg(self.shape@, k + 1, self.rank()));
                    assert(!self.is_contig_spec());
                }
                return false;
            }
            if k > 0 {
                assert(prod_rg(self.shape@, k as int, n as int) == self.shape@[k as int] * prod_rg(
                    self.shape@,
                    k as int + 1,
                    n as int,
                ));
                match self.shape.0[k].checked_mul(acc) {
                    Some(v) => {
                        acc = v;
                    },
                    None => {
                        // The running product exceeds every representable
                        // stride, so the next outer axis cannot match it.
                        assert(prod_rg(self.shape@, k as int, n as int) > usize::MAX);
                        assert(self.stride@[k - 1] != prod_rg(
                            self.shape@,
                            (k - 1) + 1,
                            self.rank(),
                        ));
                        assert(!self.is_contig_spec());
                        return false;
                    },
                }
            }
        }
        proof {
            assert forall|j: int|
                0 <= j < self.rank() implies #[trigger] self.stride@[j] == prod_rg(
                self.shape@,
                j + 1,
                self.rank(),
            ) by {
                assert(self.stride@[j] == prod_rg(self.shape@, j + 1, n as int));
            }
            assert(self.is_contig_spec());
        }
        true
    }

    /// Whether some axis pair is out of canonical stride order.
    pub fn is_permuted(&self) -> (r: bool)
        requires
            self.wf(),
        ensures
            r == self.is_permuted_spec(),
    {
        let n = self.n_dims;
        if n < 2 {
            assert(!self.is_permuted_spec());
            return false;
        }
        let mut k: usize = 0;
        while k + 1 < n
            invariant
                n <= 4,
                n == self.n_dims,
                self.wf(),
                k < n,
                forall|j: int| 0 <= j < k ==> !(#[trigger] self.stride@[j] < self.stride@[j + 1]),
            decreases n - k,
        {
            if self.stride[k] < self.stride[k + 1] {
                proof {
                    assert(self.stride@[k as int] < self.stride@[k as int + 1]);
                    assert(self.is_permuted_spec());
                }
                return true;
            }
            k = k + 1;
        }
        proof {
            assert forall|j: int|
                0 <= j < self.rank() - 1 implies !(#[trigger] self.stride@[j] < self.stride@[j
                + 1]) by {}
            assert(!self.is_permuted_spec());
        }
        false
    }

    /// Classifies the layout as one contiguous block, or as a family of
    /// equally long blocks found by greedily absorbing innermost axes
    /// whose stride matches the block length accumulated so far.
    #[verifier::rlimit(60)]
    #[verifier::spinoff_prover]
    pub fn strided_blocks(&self) -> (r: StridedBlocks)
        requires
            self.wf(),
            rg_prods_fit(self.shape@, self.rank()),
            forall|idx: Seq<int>|
                dominated4(idx, self.shape@) ==> #[trigger] offset4(idx, self.stride@)
                    <= usize::MAX,
        ensures
            r matches StridedBlocks::SingleBlock { start_offset, len } ==> self.absorb_ok(
                self.rank(),
            ) && start_offset == 0 && len == prod_rg(self.shape@, 0, self.rank()),
            r matches StridedBlocks::MultipleBlocks { block_start_index, block_len }
                ==> block_start_index.wf() && block_start_index.pos() == 0
                && block_start_index.start_spec() == 0 && self.decomposes_multi(
                block_start_index,
                block_len,
            ),
    {
        let n = self.n_dims;
        let mut block_len: usize = 1;
        let mut c: usize = 0;
        while c < n && self.stride[n - 1 - c] == block_len
            invariant
                c <= n <= 4,
                n == self.n_dims,
                self.wf(),
                rg_prods_fit(self.shape@, n as int),
                block_len == prod_rg(self.shape@, n - c, n as int),
                self.absorb_ok(c as int),
            decreases n - c,
        {
            assert(self.stride@[self.rank() - 1 - c] == prod_rg(
                self.shape@,
                self.rank() - c,
                self.rank(),
            ));
            let ghost c0 = c as int;
            assert(prod_rg(self.shape@, n - c - 1, n as int) == self.shape@[n - c - 1] * prod_rg(
                self.shape@,
                n - c,
                n as int,
            ));
            assert(prod_rg(self.shape@, n - c - 1, n as int) <= usize::MAX);
            block_len = self.shape.0[n - 1 - c] * block_len;
            c = c + 1;
            proof {
                assert forall|t: int|
                    0 <= t < c implies #[trigger] self.stride@[self.rank() - 1 - t] == prod_rg(
                    self.shape@,
                    self.rank() - t,
                    self.rank(),
                ) by {
                    if t < c0 {
                        assert(self.absorb_ok(c0));
                    }
                }
            }
        }
        if c == n {
            proof {
                assert(self.absorb_ok(self.rank()));
                assert(block_len == prod_rg(self.shape@, 0, self.rank()));
            }
            StridedBlocks::SingleBlock { start_offset: 0, len: block_len }
        } else {
            let block_start_index = self.blocks_index_for(c, block_len);
            proof {
                assert(self.decomposes_multi(block_start_index, block_len)) by {
                    assert(self.blocks_witness(block_start_index, block_len, c as int));
                }
            }
            StridedBlocks::MultipleBlocks { block_start_index, block_len }
        }
    }

    /// Builds the index walk over the leading axes that remain after the
    /// `c` innermost axes were absorbed into blocks of `block_len`.
    fn blocks_index_for(&self, c: usize, block_len: usize) -> (bsi: StridedIndex)
        requires
            self.wf(),
            rg_prods_fit(self.shape@, self.rank()),
            forall|idx: Seq<int>|
                dominated4(idx, self.shape@) ==> #[trigger] offset4(idx, self.stride@)
                    <= usize::MAX,
            c < self.n_dims,
            self.absorb_ok(c as int),
            self.strides()[self.rank() - 1 - c] != prod_rg(
                self.shape@,
                self.rank() - c,
                self.rank(),
            ),
            block_len == prod_rg(self.shape@, self.rank() - c, self.rank()),
        ensures
            bsi.wf(),
            bsi.pos() == 0,
            bsi.start_spec() == 0,
            self.blocks_witness(bsi, block_len, c as int),
    {
        let n = self.n_dims;
        let m = n - c;
        let mut d: Layout = [1, 1, 1, 1];
        let mut st: Layout = [0, 0, 0, 0];
        let mut k: usize = 0;
        while k < m
            invariant
                k <= m <= 4,
                self.wf(),
                d@.len() == 4,
                st@.len() == 4,
                forall|j: int| 0 <= j < k ==> #[trigger] d@[j] == self.shape@[j],
                forall|j: int| k <= j < 4 ==> #[trigger] d@[j] == 1,
                forall|j: int| 0 <= j < k ==> #[trigger] st@[j] == self.stride@[j],
                forall|j: int| k <= j < 4 ==> #[trigger] st@[j] == 0,
            decreases m - k,
        {
            d[k] = self.shape.0[k];
            st[k] = self.stride[k];
            k = k + 1;
        }
        proof {
            // Every suffix product of the masked sizes fits.
            assert forall|i: int| 0 <= i <= 4 implies prod_rg(d@, i, 4) <= usize::MAX by {
                if i <= m {
                    lemma_prod_rg_split(d@, i, m as int, 4);
                    lemma_prod_rg_ones(d@, m as int, 4);
                    lemma_prod_rg_congruent(d@, self.shape@, i, m as int);
                    assert(prod_rg(self.shape@, i, m as int) <= usize::MAX);
                    assert(prod_rg(d@, i, 4) == prod_rg(d@, i, m as int) * prod_rg(
                        d@,
                        m as int,
                        4,
                    ));
                    assert(prod_rg(d@, i, 4) == prod_rg(d@, i, m as int));
                    assert(prod_rg(d@, i, m as int) == prod_rg(self.shape@, i, m as int));
                    assert(prod_rg(d@, i, 4) <= usize::MAX);
                } else {
                    lemma_prod_rg_ones(d@, i, 4);
                    assert(prod_rg(d@, i, 4) <= usize::MAX);
                }
            }
            // Every offset through the masked strides is an offset the
            // original layout could reach.
            assert forall|idx: Seq<int>| dominated4(idx, d@) implies 0 + #[trigger] offset4(
                idx,
                st@,
            ) <= usize::MAX by {
                assert(dominated4(idx, self.shape@)) by {
                    assert forall|j: int|
                        0 <= j < 4 implies 0 <= #[trigger] idx[j] && (idx[j] < self.shape@[j]
                        || idx[j] == 0) by {
                        assert(0 <= idx[j] && (idx[j] < d@[j] || idx[j] == 0));
                        if j >= m {
                            assert(d@[j] == 1);
                        }
                    }
                }
                assert(offset4(idx, st@) == offset4(idx, self.stride@)) by {
                    assert forall|j: int|
                        0 <= j < 4 implies idx[j] * (st@[j] as int) == idx[j] * (
                    self.stride@[j] as int) by {
                        if j >= m {
                            assert(idx[j] < d@[j] || idx[j] == 0);
                            assert(d@[j] == 1);
                            assert(idx[j] == 0);
                        }
                    }
                }
                assert(offset4(idx, self.stride@) <= usize::MAX);
            }
        }
        let block_start_index = StridedIndex::new(&d, &st, 0);
        proof {
            assert(block_start_index.dims_spec() =~= mask_sizes(self.shape@, m as int));
            assert(block_start_index.strides_spec() =~= mask_strides(self.stride@, m as int));
            assert(self.blocks_witness(block_start_index, block_len, c as int));
        }
        block_start_index
    }

}

/// A contiguous layout always decomposes into a single block whose length
/// is the full element count.
pub proof fn lemma_contiguous_single_block(d: Dim)
    requires
        d.wf(),
        d.is_contig_spec(),
    ensures
        d.absorb_ok(d.rank()),
        prod_rg(d.shape@, 0, d.rank()) == count4(d.shape@),
{
    assert forall|t: int| 0 <= t < d.rank() implies #[trigger] d.stride@[d.rank() - 1 - t]
        == prod_rg(d.shape@, d.rank() - t, d.rank()) by {
        assert(d.stride@[d.rank() - 1 - t] == prod_rg(d.shape@, (d.rank() - 1 - t) + 1, d.rank()));
    }
    lemma_prod_rg_padded(d.shape@, d.rank(), 0);
}

/// Canonical row-major strides over positive sizes never increase from an
/// outer axis to an inner one.
pub proof fn lemma_canonical_monotone(d: Dim, a: int, b: int)
    requires
        d.wf(),
        d.is_contig_spec(),
        forall|k: int| 0 <= k < d.rank() ==> #[trigger] d.sizes()[k] >= 1,
        0 <= a <= b < d.rank(),
    ensures
        d.strides()[a] >= d.strides()[b],
    decreases b - a,
{
    if a < b {
        lemma_canonical_monotone(d, a + 1, b);
        assert(d.strides()[a] == prod_rg(d.shape@, a + 1, d.rank()));
        assert(d.strides()[a + 1] == prod_rg(d.shape@, a + 2, d.rank()));
        assert(prod_rg(d.shape@, a + 1, d.rank()) == d.shape@[a + 1] * prod_rg(
            d.shape@,
            a + 2,
            d.rank(),
        ));
        lemma_prod_rg_nonneg(d.shape@, a + 2, d.rank());
        assert(d.shape@[a + 1] * prod_rg(d.shape@, a + 2, d.rank()) >= prod_rg(
            d.shape@,
            a + 2,
            d.rank(),
        )) by (nonlinear_arith)
            requires
                d.shape@[a + 1] >= 1,
                prod_rg(d.shape@, a + 2, d.rank()) >= 0,
        ;
    }
}

/// Swapping two axes whose canonical strides differ leaves the strides
/// out of canonical order: the transposed layout is permuted.
pub proof fn lemma_transpose_permuted(d: Dim, t: Dim, i: int, j: int)
    requires
        d.wf(),
        d.is_contig_spec(),
        forall|k: int| 0 <= k < d.rank() ==> #[trigger] d.sizes()[k] >= 1,
        0 <= i < d.rank(),
        0 <= j < d.rank(),
        i != j,
        d.strides()[i] != d.strides()[j],
        t.n_dims == d.n_dims,
        t.stride@ =~= d.strides().update(i, d.strides()[j]).update(j, d.strides()[i]),
    ensures
        t.is_permuted_spec(),
{
    let lo = if i < j {
        i
    } else {
        j
    };
    let hi = if i < j {
        j
    } else {
        i
    };
    assert(t.stride@[lo] == d.strides()[hi]);
    assert(t.stride@[hi] == d.strides()[lo]);
    lemma_canonical_monotone(d, lo, hi);
    assert(d.strides()[lo] > d.strides()[hi]);
    if hi == lo + 1 {
        assert(t.stride@[lo] < t.stride@[lo + 1]);
        assert(t.is_permuted_spec());
    } else {
        lemma_canonical_monotone(d, lo + 1, hi);
        if d.strides()[lo + 1] > d.strides()[hi] {
            assert(t.stride@[lo + 1] == d.strides()[lo + 1]);
            assert(t.stride@[lo] < t.stride@[lo + 1]);
            assert(t.is_permuted_spec());
        } else {
            lemma_canonical_monotone(d, lo + 1, hi - 1);
            assert(t.stride@[hi - 1] == d.strides()[hi - 1]);
            assert(t.stride@[hi - 1] < t.stride@[hi]);
            assert(t.is_permuted_spec());
        }
    }
}

/// A permuted layout over positive sizes is never contiguous.
pub proof fn lemma_permuted_not_contiguous(d: Dim)
    requires
        d.wf(),
        forall|k: int| 0 <= k < d.rank() ==> #[trigger] d.sizes()[k] >= 1,
        d.is_permuted_spec(),
    ensures
        !d.is_contig_spec(),
{
    if d.is_contig_spec() {
        let k = choose|k: int| 0 <= k < d.rank() - 1 && #[trigger] d.stride@[k] < d.stride@[k + 1];
        lemma_canonical_monotone(d, k, k + 1);
        assert(false);
    }
}

} // verus!
