//! Tensors: a contiguous row-major element buffer plus the `Dim` that
//! interprets it, and the broadcasting elementwise engine.

use crate::broadcast::{
    bshape_spec, bstride_spec, can_broadcast_to, compatible, lemma_bview_offset,
    lemma_operand_broadcasts_to_unified, max_rank, project_idx, resolve_broadcast,
};
use crate::dim::Dim;
use crate::error::{GError, GResult};
use crate::layout::{
    count4, decode4, lemma_decode4, lemma_encode_bound, lemma_offset_contig, lemma_prod_rg_padded,
    offset4, offset_of_flat, pad4_ones, prod_rg, suffix_prods_fit, Layout, MAX_DIM,
};
use crate::shape::Shape;
use vstd::prelude::*;

verus! {

/// Marker for element types that support distance computations.
pub trait Distance {}

/// A contiguous element buffer and the layout describing it.  The buffer
/// always holds exactly the row-major elements of the shape.
#[derive(Debug)]
pub struct Tensor<T> {
    pub data: Vec<T>,
    pub dim: Dim,
}

/// Compares two full-capacity size vectors entry by entry.
pub fn same_layout(a: &Layout, b: &Layout) -> (r: bool)
    ensures
        r == (a@ =~= b@),
{
    let r = a[0] == b[0] && a[1] == b[1] && a[2] == b[2] && a[3] == b[3];
    proof {
        if r {
            assert(a@ =~= b@);
        }
    }
    r
}

impl<T> Tensor<T> {
    /// The buffer holds exactly the elements of a contiguous row-major
    /// layout, and its products stay within machine range.
    pub open spec fn wf(&self) -> bool {
        &&& self.dim.wf()
        &&& self.dim.is_contig_spec()
        &&& self.data@.len() == count4(self.dim.shape@)
        &&& suffix_prods_fit(self.dim.shape@, 4)
    }

    /// The element this tensor contributes at flat position `j` of a
    /// row-major walk over the broadcast shape `out_s` of rank `out_rank`.
    pub open spec fn bread(&self, out_s: Seq<usize>, out_rank: int, j: int) -> T {
        self.data@[offset4(
            project_idx(decode4(out_s, j), self.dim.shape@, self.dim.rank(), out_s, out_rank),
            self.dim.stride@,
        )]
    }

    /// The layout of this tensor.
    pub fn dim(&self) -> (r: &Dim)
        ensures
            r == self.dim,
    {
        &self.dim
    }

    /// The active sizes of this tensor's shape.
    pub fn shape(&self) -> (r: Vec<usize>)
        requires
            self.wf(),
        ensures
            r@ =~= self.dim.shape@.take(self.dim.rank()),
    {
        self.dim.shape()
    }

    /// The elements in row-major order.
    pub fn as_slice(&self) -> (r: &[T])
        ensures
            r@ == self.data@,
    {
        self.data.as_slice()
    }

    /// The number of stored elements.
    pub fn elem_count(&self) -> (r: usize)
        requires
            self.wf(),
        ensures
            r == count4(self.dim.shape@),
    {
        self.dim.elem_count()
    }

    /// Wraps a row-major element buffer with the given sizes.  Rejects a
    /// rank beyond the fixed capacity.
    pub fn from_vec(v: Vec<T>, dims: Vec<usize>) -> (r: GResult<Tensor<T>>)
        requires
            dims@.len() <= MAX_DIM ==> suffix_prods_fit(pad4_ones(dims@), 4),
            dims@.len() <= MAX_DIM ==> v@.len() == count4(pad4_ones(dims@)),
        ensures
            dims@.len() <= MAX_DIM ==> (r matches Ok(t) && t.wf() && t.data@ == v@
                && t.dim.n_dims == dims@.len() && t.dim.shape@ =~= pad4_ones(dims@)),
            dims@.len() > MAX_DIM ==> (r matches Err(e) && e matches
                GError::UnexpectedNumberOfDims { expected, got } && expected == MAX_DIM && got
                == dims@.len()),
    {
        let rank = dims.len();
        let shape = match Shape::from_vec(dims) {
            Ok(s) => s,
            Err(e) => {
                return Err(e);
            },
        };
        proof {
            assert forall|i: int| 0 <= i <= rank as int implies prod_rg(shape@, i, rank as int)
                <= usize::MAX by {
                lemma_prod_rg_padded(shape@, rank as int, i);
            }
        }
        let stride = shape.nd_stride(rank);
        let dim = Dim { n_dims: rank, shape, stride };
        proof {
            assert forall|k: int| 0 <= k < dim.rank() implies #[trigger] dim.stride@[k] == prod_rg(
                dim.shape@,
                k + 1,
                dim.rank(),
            ) by {}
        }
        Ok(Tensor { data: v, dim })
    }
}

/// Builds a rank-2 tensor from rows.
pub fn mat<T: Copy, const N: usize, const M: usize>(v: &[[T; N]; M]) -> (r: Tensor<T>)
    requires
        M * N <= usize::MAX,
    ensures
        r.wf(),
        r.dim.n_dims == 2,
        r.dim.shape@ =~= seq![M, N, 1, 1],
        r.data@.len() == M * N,
        forall|i: int, j: int|
            0 <= i < M && 0 <= j < N ==> #[trigger] r.data@[i * N + j] == v@[i]@[j],
{
    let mut data: Vec<T> = Vec::new();
    let mut i: usize = 0;
    while i < M
        invariant
            i <= M,
            M * N <= usize::MAX,
            data@.len() == i * N,
            forall|a: int, b: int|
                0 <= a < i && 0 <= b < N ==> #[trigger] data@[a * N + b] == v@[a]@[b],
        decreases M - i,
    {
        let mut j: usize = 0;
        proof {
            assert((i + 1) * N <= M * N) by (nonlinear_arith)
                requires
                    i < M,
                    N >= 0,
            ;
            assert((i + 1) * N == i * N + N) by (nonlinear_arith);
        }
        while j < N
            invariant
                j <= N,
                i < M,
                M * N <= usize::MAX,
                i * N + N <= M * N,
                data@.len() == i * N + j,
                forall|a: int, b: int|
                    0 <= a < i && 0 <= b < N ==> #[trigger] data@[a * N + b] == v@[a]@[b],
                forall|b: int| 0 <= b < j ==> #[trigger] data@[i * N + b] == v@[i as int]@[b],
            decreases N - j,
        {
            data.push(v[i][j]);
            j = j + 1;
            proof {
                assert forall|a: int, b: int|
                    0 <= a < i && 0 <= b < N implies #[trigger] data@[a * N + b] == v@[a]@[b] by {
                    assert(0 <= a * N + b < i as int * N) by (nonlinear_arith)
                        requires
                            0 <= a < i as int,
                            0 <= b < N as int,
                    ;
                }
            }
        }
        i = i + 1;
        proof {
            assert(i * N == (i - 1) * N + N) by (nonlinear_arith);
        }
    }
    let mut dims: Vec<usize> = Vec::new();
    dims.push(M);
    dims.push(N);
    proof {
        let s = pad4_ones(dims@);
        assert(s =~= seq![M, N, 1, 1]);
        assert(prod_rg(s, 4, 4) == 1);
        assert(prod_rg(s, 3, 4) == 1);
        assert(prod_rg(s, 2, 4) == 1);
        assert(prod_rg(s, 1, 4) == N as int) by (nonlinear_arith)
            requires
                prod_rg(s, 1, 4) == s[1] * prod_rg(s, 2, 4),
                s[1] == N,
                prod_rg(s, 2, 4) == 1,
        ;
        assert(prod_rg(s, 0, 4) == M * N) by (nonlinear_arith)
            requires
                prod_rg(s, 0, 4) == s[0] * prod_rg(s, 1, 4),
                s[0] == M,
                prod_rg(s, 1, 4) == N as int,
        ;
        assert(suffix_prods_fit(s, 4)) by {
            assert forall|i2: int| 0 <= i2 <= 4 implies prod_rg(s, i2, 4) <= usize::MAX by {
                if i2 == 0 {
                } else if i2 == 1 {
                } else if i2 == 2 {
                } else if i2 == 3 {
                } else {
                }
            }
        }
    }
    match Tensor::from_vec(data, dims) {
        Ok(t) => t,
        Err(_) => {
            proof {
                assert(false);
            }
            Tensor { data: Vec::new(), dim: Dim { n_dims: 0, shape: Shape([1, 1, 1, 1]), stride: [0, 0, 0, 0] } }
        },
    }
}

/// Builds a rank-1 tensor from a row of elements.
pub fn arr<T: Copy, const N: usize>(v: &[T; N]) -> (r: Tensor<T>)
    ensures
        r.wf(),
        r.dim.n_dims == 1,
        r.dim.shape@ =~= seq![N, 1, 1, 1],
        r.data@ =~= v@,
{
    let mut data: Vec<T> = Vec::new();
    let mut i: usize = 0;
    while i < N
        invariant
            i <= N,
            data@ =~= v@.take(i as int),
        decreases N - i,
    {
        data.push(v[i]);
        i = i + 1;
    }
    let mut dims: Vec<usize> = Vec::new();
    dims.push(N);
    proof {
        let s = pad4_ones(dims@);
        assert(s =~= seq![N, 1, 1, 1]);
        assert(prod_rg(s, 4, 4) == 1);
        assert(prod_rg(s, 3, 4) == 1);
        assert(prod_rg(s, 2, 4) == 1);
        assert(prod_rg(s, 1, 4) == 1);
        assert(prod_rg(s, 0, 4) == N as int) by (nonlinear_arith)
            requires
                prod_rg(s, 0, 4) == s[0] * prod_rg(s, 1, 4),
                s[0] == N,
                prod_rg(s, 1, 4) == 1,
        ;
        assert(suffix_prods_fit(s, 4)) by {
            assert forall|i2: int| 0 <= i2 <= 4 implies prod_rg(s, i2, 4) <= usize::MAX by {}
        }
        assert(data@ =~= v@);
    }
    match Tensor::from_vec(data, dims) {
        Ok(t) => t,
        Err(_) => {
            proof {
                assert(false);
            }
            Tensor { data: Vec::new(), dim: Dim { n_dims: 0, shape: Shape([1, 1, 1, 1]), stride: [0, 0, 0, 0] } }
        },
    }
}

/// Reads the element an operand contributes at flat position `j` of a
/// row-major walk of the broadcast shape, through its broadcast view.
fn bview_get<T: Copy>(x: &Tensor<T>, view: &Dim, bs: &Shape, j: usize) -> (r: T)
    requires
        x.wf(),
        view.wf(),
        view.shape@ == bs@,
        x.dim.n_dims <= view.n_dims,
        can_broadcast_to(x.dim.shape@, x.dim.rank(), view.shape@, view.rank()),
        view.stride@ =~= bstride_spec(
            x.dim.shape@,
            x.dim.stride@,
            x.dim.rank(),
            view.shape@,
            view.rank(),
        ),
        j < count4(bs@),
    ensures
        r == x.bread(bs@, view.rank(), j as int),
{
    proof {
        lemma_decode4(bs@, j as int);
        let idx = decode4(bs@, j as int);
        crate::layout::lemma_in_bounds_dominated(idx, bs@);
        lemma_bview_offset(x.dim, *view, idx);
        let pj = project_idx(idx, x.dim.shape@, x.dim.rank(), view.shape@, view.rank());
        lemma_offset_contig(x.dim.shape@, x.dim.stride@, x.dim.rank(), pj);
        lemma_encode_bound(x.dim.shape@, pj);
    }
    let off = offset_of_flat(&bs.0, &view.stride, j);
    x.data[off]
}

/// The output of an elementwise operation over two broadcast operands:
/// the unified shape, holding at each row-major position a possible result
/// of the operation on the pair of elements the operands contribute there.
pub open spec fn map2_elems<T, F: Fn(T, T) -> T>(
    lhs: Tensor<T>,
    rhs: Tensor<T>,
    op: F,
    out: Tensor<T>,
) -> bool {
    let bs = bshape_spec(lhs.dim.shape@, lhs.dim.rank(), rhs.dim.shape@, rhs.dim.rank());
    let n = max_rank(lhs.dim.rank(), rhs.dim.rank());
    &&& out.dim.n_dims as int == n
    &&& out.dim.shape@ =~= bs
    &&& out.data@.len() == count4(bs)
    &&& forall|j: int|
        0 <= j < count4(bs) ==> call_ensures(
            op,
            (lhs.bread(bs, n, j), rhs.bread(bs, n, j)),
            #[trigger] out.data@[j],
        )
}

/// Applies a binary element operation to two tensors under broadcasting,
/// collecting the results into a freshly allocated tensor of the unified
/// shape.  Fails, touching nothing, exactly when the shapes cannot be
/// broadcast together.
#[verifier::loop_isolation(false)]
pub fn map2_ref<T: Copy, F: Fn(T, T) -> T>(lhs: &Tensor<T>, rhs: &Tensor<T>, op: F) -> (r: GResult<
    Tensor<T>,
>)
    requires
        lhs.wf(),
        rhs.wf(),
        forall|x: (T, T)| #[trigger] call_requires(op, x),
        suffix_prods_fit(
            bshape_spec(lhs.dim.shape@, lhs.dim.rank(), rhs.dim.shape@, rhs.dim.rank()),
            4,
        ),
    ensures
        match r {
            Ok(out) => compatible(lhs.dim.shape@, lhs.dim.rank(), rhs.dim.shape@, rhs.dim.rank())
                && out.wf() && map2_elems(*lhs, *rhs, op, out),
            Err(e) => !compatible(lhs.dim.shape@, lhs.dim.rank(), rhs.dim.shape@, rhs.dim.rank())
                && e matches GError::IncompatibleShape,
        },
{
    let ghost bs_g = bshape_spec(lhs.dim.shape@, lhs.dim.rank(), rhs.dim.shape@, rhs.dim.rank());
    let ghost n_g = max_rank(lhs.dim.rank(), rhs.dim.rank());
    let bs = match resolve_broadcast(&lhs.dim.shape, lhs.dim.n_dims, &rhs.dim.shape, rhs.dim.n_dims)
    {
        Ok(s) => s,
        Err(e) => {
            return Err(e);
        },
    };
    let n_out = if lhs.dim.n_dims < rhs.dim.n_dims {
        rhs.dim.n_dims
    } else {
        lhs.dim.n_dims
    };
    proof {
        assert(bs@ =~= bs_g);
        assert(n_out as int == n_g);
        assert forall|i: int| 0 <= i <= n_out as int implies prod_rg(bs@, i, n_out as int)
            <= usize::MAX by {
            lemma_prod_rg_padded(bs@, n_out as int, i);
            assert(prod_rg(bs@, i, 4) <= usize::MAX);
        }
    }
    let ost = bs.nd_stride(n_out);
    let out_dim = Dim { n_dims: n_out, shape: bs, stride: ost };
    proof {
        assert(out_dim.wf());
        assert(out_dim.is_contig_spec());
        crate::broadcast::lemma_operand_broadcasts_to_unified(
            lhs.dim.shape@,
            lhs.dim.rank(),
            rhs.dim.shape@,
            rhs.dim.rank(),
        );
        crate::broadcast::lemma_broadcast_symmetric(
            lhs.dim.shape@,
            lhs.dim.rank(),
            rhs.dim.shape@,
            rhs.dim.rank(),
        );
    }
    let lview = match lhs.dim.broadcast_with(&out_dim) {
        Ok(d) => d,
        Err(_) => {
            proof {
                assert(false);
            }
            return Err(GError::IncompatibleShape);
        },
    };
    let rview = match rhs.dim.broadcast_with(&out_dim) {
        Ok(d) => d,
        Err(_) => {
            proof {
                assert(false);
            }
            return Err(GError::IncompatibleShape);
        },
    };
    let count = out_dim.elem_count();
    let mut out: Vec<T> = Vec::new();
    let mut j: usize = 0;
    while j < count
        invariant
            j <= count,
            out@.len() == j,
            forall|jj: int|
                0 <= jj < j ==> call_ensures(
                    op,
                    (lhs.bread(bs_g, n_g, jj), rhs.bread(bs_g, n_g, jj)),
                    #[trigger] out@[jj],
                ),
        decreases count - j,
    {
        let a = bview_get(lhs, &lview, &bs, j);
        let b = bview_get(rhs, &rview, &bs, j);
        let v = op(a, b);
        out.push(v);
        j = j + 1;
    }
    Ok(Tensor { data: out, dim: out_dim })
}

/// Applies a binary element operation to an owned tensor and a second
/// operand under broadcasting.  When the left operand already has the
/// unified shape its buffer is reused and mutated in place, allocating
/// nothing; otherwise the results are collected into a fresh tensor.
#[verifier::loop_isolation(false)]
pub fn map2<T: Copy, F: Fn(T, T) -> T>(lhs: Tensor<T>, rhs: &Tensor<T>, op: F) -> (r: GResult<
    Tensor<T>,
>)
    requires
        lhs.wf(),
        rhs.wf(),
        forall|x: (T, T)| #[trigger] call_requires(op, x),
        suffix_prods_fit(
            bshape_spec(lhs.dim.shape@, lhs.dim.rank(), rhs.dim.shape@, rhs.dim.rank()),
            4,
        ),
    ensures
        match r {
            Ok(out) => compatible(lhs.dim.shape@, lhs.dim.rank(), rhs.dim.shape@, rhs.dim.rank())
                && out.wf() && map2_elems(lhs, *rhs, op, out),
            Err(e) => !compatible(lhs.dim.shape@, lhs.dim.rank(), rhs.dim.shape@, rhs.dim.rank())
                && e matches GError::IncompatibleShape,
        },
{
    let ghost bs_g = bshape_spec(lhs.dim.shape@, lhs.dim.rank(), rhs.dim.shape@, rhs.dim.rank());
    let ghost n_g = max_rank(lhs.dim.rank(), rhs.dim.rank());
    let bs = match resolve_broadcast(&lhs.dim.shape, lhs.dim.n_dims, &rhs.dim.shape, rhs.dim.n_dims)
    {
        Ok(s) => s,
        Err(e) => {
            return Err(e);
        },
    };
    let n_out = if lhs.dim.n_dims < rhs.dim.n_dims {
        rhs.dim.n_dims
    } else {
        lhs.dim.n_dims
    };
    let l_eq = same_layout(&lhs.dim.shape.0, &bs.0);
    if !(l_eq && lhs.dim.n_dims == n_out) {
        return map2_ref(&lhs, rhs, op);
    }
    proof {
        assert(bs@ =~= bs_g);
        assert(n_out as int == n_g);
        assert forall|i: int| 0 <= i <= n_out as int implies prod_rg(bs@, i, n_out as int)
            <= usize::MAX by {
            lemma_prod_rg_padded(bs@, n_out as int, i);
            assert(prod_rg(bs@, i, 4) <= usize::MAX);
        }
    }
    let ost = bs.nd_stride(n_out);
    let out_dim = Dim { n_dims: n_out, shape: bs, stride: ost };
    proof {
        assert(out_dim.wf());
        assert(out_dim.is_contig_spec());
        crate::broadcast::lemma_operand_broadcasts_to_unified(
            lhs.dim.shape@,
            lhs.dim.rank(),
            rhs.dim.shape@,
            rhs.dim.rank(),
        );
        crate::broadcast::lemma_broadcast_symmetric(
            lhs.dim.shape@,
            lhs.dim.rank(),
            rhs.dim.shape@,
            rhs.dim.rank(),
        );
    }
    let rview = match rhs.dim.broadcast_with(&out_dim) {
        Ok(d) => d,
        Err(_) => {
            proof {
                assert(false);
            }
            return Err(GError::IncompatibleShape);
        },
    };
    let count = out_dim.elem_count();
    let ghost l0 = lhs.data@;
    let mut data = lhs.data;
    proof {
        assert(data@.len() == count4(lhs.dim.shape@));
        assert(count4(lhs.dim.shape@) == count4(bs_g));
    }
    let mut j: usize = 0;
    while j < count
        invariant
            j <= count,
            data@.len() == l0.len(),
            forall|jj: int| j <= jj < count ==> #[trigger] data@[jj] == l0[jj],
            forall|jj: int|
                0 <= jj < j ==> call_ensures(
                    op,
                    (lhs.bread(bs_g, n_g, jj), rhs.bread(bs_g, n_g, jj)),
                    #[trigger] data@[jj],
                ),
        decreases count - j,
    {
        proof {
            lemma_decode4(bs@, j as int);
            let idx = decode4(bs@, j as int);
            let pj = project_idx(idx, lhs.dim.shape@, lhs.dim.rank(), bs_g, n_g);
            assert forall|m: int| 0 <= m < 4 implies pj[m] == idx[m] by {
                if m < lhs.dim.rank() {
                    assert(lhs.dim.shape@[m] == bs_g[m]);
                } else {
                    assert(bs_g[m] == 1);
                    assert(0 <= idx[m] < 1);
                }
            }
            assert(pj =~= idx);
            lemma_offset_contig(lhs.dim.shape@, lhs.dim.stride@, lhs.dim.rank(), idx);
        }
        let b = bview_get(rhs, &rview, &bs, j);
        let a = data[j];
        let v = op(a, b);
        data[j] = v;
        j = j + 1;
    }
    Ok(Tensor { data, dim: out_dim })
}

/// Elementwise equality of two tensors under an element comparison.
/// Shapes that differ, in element count or in any axis, compare unequal
/// before any element is read; equal shapes compare their elements in
/// row-major order, stopping at the first mismatch.
#[verifier::loop_isolation(false)]
pub fn eq_with<T: Copy, F: Fn(T, T) -> bool>(lhs: &Tensor<T>, rhs: &Tensor<T>, eqf: F) -> (r: bool)
    requires
        lhs.wf(),
        rhs.wf(),
        forall|x: (T, T)| #[trigger] call_requires(eqf, x),
    ensures
        lhs.dim.shape@ != rhs.dim.shape@ ==> r == false,
        count4(lhs.dim.shape@) != count4(rhs.dim.shape@) ==> r == false,
        lhs.dim.shape@ == rhs.dim.shape@ && r ==> forall|j: int|
            0 <= j < count4(lhs.dim.shape@) ==> call_ensures(
                eqf,
                (lhs.data@[j], rhs.data@[j]),
                true,
            ),
        lhs.dim.shape@ == rhs.dim.shape@ && !r ==> exists|j: int|
            0 <= j < count4(lhs.dim.shape@) && call_ensures(
                eqf,
                (#[trigger] lhs.data@[j], rhs.data@[j]),
                false,
            ),
{
    if !same_layout(&lhs.dim.shape.0, &rhs.dim.shape.0) {
        return false;
    }
    let count = lhs.elem_count();
    let mut j: usize = 0;
    while j < count
        invariant
            j <= count,
            forall|jj: int|
                0 <= jj < j ==> call_ensures(
                    eqf,
                    (#[trigger] lhs.data@[jj], rhs.data@[jj]),
                    true,
                ),
        decreases count - j,
    {
        let ok = eqf(lhs.data[j], rhs.data[j]);
        if !ok {
            return false;
        }
        j = j + 1;
    }
    true
}

} // verus!
