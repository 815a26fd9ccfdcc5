//! Fixed-capacity axis-size vectors and the odometer index iterator.

use crate::error::{GError, GResult};
use crate::layout::{
    count4, pad4_ones, prod_rg, suffix_prods_fit, Layout, MAX_DIM,
};
use vstd::prelude::*;

verus! {

/// Names one axis of a shape.
#[derive(Copy, Clone)]
pub struct Axis(pub usize);

impl Axis {
    pub fn index(&self) -> (r: usize)
        ensures
            r == self.0,
    {
        self.0
    }
}

/// Offset contribution of one axis: index times stride.
pub fn compute_stride_offset(n: usize, stride: usize) -> (r: isize)
    requires
        n * stride <= isize::MAX,
    ensures
        r as int == n * stride,
{
    (n * stride) as isize
}

/// A fixed-capacity vector of axis sizes, right-padded with 1s beyond the
/// active rank.  Zero-sized axes are permitted and describe an empty
/// element space.
#[derive(Clone, Copy, Debug)]
pub struct Shape(pub Layout);

impl View for Shape {
    type V = Seq<usize>;

    open spec fn view(&self) -> Seq<usize> {
        self.0@
    }
}

impl Shape {
    /// Builds a shape from explicit sizes; ranks beyond the fixed capacity
    /// are rejected rather than truncated.
    pub fn from_vec(v: Vec<usize>) -> (r: GResult<Shape>)
        ensures
            v@.len() <= MAX_DIM ==> (r matches Ok(s) && s@ =~= pad4_ones(v@)),
            v@.len() > MAX_DIM ==> (r matches Err(e) && e matches GError::UnexpectedNumberOfDims {
                expected,
                got,
            } && expected == MAX_DIM && got == v@.len()),
    {
        if v.len() > MAX_DIM {
            return Err(GError::UnexpectedNumberOfDims { expected: MAX_DIM, got: v.len() });
        }
        let mut s: Layout = [1, 1, 1, 1];
        let mut i: usize = 0;
        while i < v.len()
            invariant
                i <= v@.len() <= 4,
                s@.len() == 4,
                forall|k: int| 0 <= k < i ==> s@[k] == v@[k],
                forall|k: int| i <= k < 4 ==> s@[k] == 1,
            decreases v@.len() - i,
        {
            s[i] = v[i];
            i = i + 1;
        }
        Ok(Shape(s))
    }

    pub fn from_array<const N: usize>(v: [usize; N]) -> (r: GResult<Shape>)
        ensures
            N <= MAX_DIM ==> (r matches Ok(s) && s@ =~= pad4_ones(v@)),
            N > MAX_DIM ==> (r matches Err(e) && e matches GError::UnexpectedNumberOfDims {
                expected,
                got,
            } && expected == MAX_DIM && got == N),
    {
        let mut vec: Vec<usize> = Vec::new();
        let mut i: usize = 0;
        while i < N
            invariant
                i <= N,
                vec@ =~= v@.take(i as int),
            decreases N - i,
        {
            vec.push(v[i]);
            i = i + 1;
        }
        assert(vec@ =~= v@);
        Shape::from_vec(vec)
    }

    pub fn from_slice(v: &[usize]) -> (r: GResult<Shape>)
        ensures
            v@.len() <= MAX_DIM ==> (r matches Ok(s) && s@ =~= pad4_ones(v@)),
            v@.len() > MAX_DIM ==> (r matches Err(e) && e matches GError::UnexpectedNumberOfDims {
                expected,
                got,
            } && expected == MAX_DIM && got == v@.len()),
    {
        let mut vec: Vec<usize> = Vec::new();
        let mut i: usize = 0;
        while i < v.len()
            invariant
                i <= v@.len(),
                vec@ =~= v@.take(i as int),
            decreases v@.len() - i,
        {
            vec.push(v[i]);
            i = i + 1;
        }
        assert(vec@ =~= v@);
        Shape::from_vec(vec)
    }

    /// The raw padded size vector.
    pub fn layout(&self) -> (r: &Layout)
        ensures
            r@ == self@,
    {
        &self.0
    }

    pub fn dims4(&self) -> (r: (usize, usize, usize, usize))
        ensures
            r.0 == self@[0] && r.1 == self@[1] && r.2 == self@[2] && r.3 == self@[3],
    {
        (self.0[0], self.0[1], self.0[2], self.0[3])
    }

    pub fn dims3(&self) -> (r: (usize, usize, usize))
        ensures
            r.0 == self@[0] && r.1 == self@[1] && r.2 == self@[2],
    {
        (self.0[0], self.0[1], self.0[2])
    }

    pub fn dims2(&self) -> (r: (usize, usize))
        ensures
            r.0 == self@[0] && r.1 == self@[1],
    {
        (self.0[0], self.0[1])
    }

    pub fn dims1(&self) -> (r: usize)
        ensures
            r == self@[0],
    {
        self.0[0]
    }

    /// The number of elements this shape describes: the product of all
    /// stored sizes, padding included.
    pub fn elem_count(&self) -> (r: usize)
        requires
            suffix_prods_fit(self@, 4),
        ensures
            r == count4(self@),
    {
        let mut acc: usize = 1;
        let mut k: usize = 4;
        while k > 0
            invariant
                k <= 4,
                suffix_prods_fit(self@, 4),
                acc == prod_rg(self@, k as int, 4),
            decreases k,
        {
            k = k - 1;
            assert(prod_rg(self@, k as int, 4) == self@[k as int] * prod_rg(self@, k as int + 1, 4));
            assert(prod_rg(self@, k as int, 4) <= usize::MAX);
            acc = self.0[k] * acc;
        }
        acc
    }

    /// Identical to `elem_count`: the fold of all sizes.
    pub fn size(&self) -> (r: usize)
        requires
            suffix_prods_fit(self@, 4),
        ensures
            r == count4(self@),
    {
        self.elem_count()
    }

    /// Canonical row-major strides over the full capacity: the rightmost
    /// axis moves by 1 and each axis to the left by the product of the
    /// sizes to its right.
    pub fn stride_contiguous(&self) -> (r: Layout)
        requires
            suffix_prods_fit(self@, 4),
        ensures
            forall|k: int| 0 <= k < 4 ==> #[trigger] r@[k] == prod_rg(self@, k + 1, 4),
    {
        let mut st: Layout = [0, 0, 0, 0];
        let mut prod: usize = 1;
        let mut k: usize = 4;
        while k > 0
            invariant
                k <= 4,
                st@.len() == 4,
                suffix_prods_fit(self@, 4),
                prod == prod_rg(self@, k as int, 4),
                forall|i: int| k <= i < 4 ==> #[trigger] st@[i] == prod_rg(self@, i + 1, 4),
            decreases k,
        {
            k = k - 1;
            st[k] = prod;
            assert(prod_rg(self@, k as int, 4) == self@[k as int] * prod_rg(self@, k as int + 1, 4));
            assert(prod_rg(self@, k as int, 4) <= usize::MAX);
            prod = self.0[k] * prod;
        }
        st
    }

    /// Canonical row-major strides over the first `n_dims` axes; entries
    /// beyond the active rank are 0.
    pub fn nd_stride(&self, n_dims: usize) -> (r: Layout)
        requires
            n_dims <= MAX_DIM,
            suffix_prods_fit(self@, n_dims as int),
        ensures
            forall|k: int|
                0 <= k < n_dims ==> #[trigger] r@[k] == prod_rg(self@, k + 1, n_dims as int),
            forall|k: int| n_dims <= k < 4 ==> #[trigger] r@[k] == 0,
    {
        let n = n_dims;
        let mut st: Layout = [0, 0, 0, 0];
        let mut prod: usize = 1;
        let mut k: usize = n;
        while k > 0
            invariant
                k <= n <= 4,
                st@.len() == 4,
                suffix_prods_fit(self@, n as int),
                prod == prod_rg(self@, k as int, n as int),
                forall|i: int| k <= i < n ==> #[trigger] st@[i] == prod_rg(self@, i + 1, n as int),
                forall|i: int| n <= i < 4 ==> #[trigger] st@[i] == 0,
            decreases k,
        {
            k = k - 1;
            st[k] = prod;
            assert(prod_rg(self@, k as int, n as int) == self@[k as int] * prod_rg(
                self@,
                k as int + 1,
                n as int,
            ));
            assert(prod_rg(self@, k as int, n as int) <= usize::MAX);
            prod = self.0[k] * prod;
        }
        st
    }

    /// Removes one axis, compacting the remaining sizes leftward; the
    /// vacated slot at the end becomes padding.
    pub fn select_axis(&self, a: Axis) -> (r: Shape)
        requires
            a.0 < MAX_DIM,
        ensures
            forall|k: int| 0 <= k < a.0 ==> #[trigger] r@[k] == self@[k],
            forall|k: int| a.0 <= k < 3 ==> #[trigger] r@[k] == self@[k + 1],
            r@[3] == 1,
    {
        Shape(select_axis(&self.0, a))
    }

    /// All-zero index vector of the given rank (padded with 1s).
    pub fn zero(s: usize) -> (r: GResult<Shape>)
        ensures
            s <= MAX_DIM ==> (r matches Ok(sh) && sh@.len() == 4 && (forall|k: int|
                0 <= k < s ==> sh@[k] == 0) && (forall|k: int| s <= k < 4 ==> sh@[k] == 1)),
            s > MAX_DIM ==> (r matches Err(e) && e matches GError::UnexpectedNumberOfDims {
                expected,
                got,
            } && expected == MAX_DIM && got == s),
    {
        let mut v: Vec<usize> = Vec::new();
        let mut i: usize = 0;
        while i < s
            invariant
                i <= s,
                v@.len() == i,
                forall|k: int| 0 <= k < i ==> v@[k] == 0,
            decreases s - i,
        {
            v.push(0);
            i = i + 1;
        }
        Shape::from_vec(v)
    }

    /// The fixed capacity of the size vector.
    pub fn dim(&self) -> (r: usize)
        ensures
            r == MAX_DIM,
    {
        self.0.len()
    }

    /// Strides for a block-quantized layout: the leading axis advances in
    /// whole blocks of `blck_size` elements.
    pub fn ggml_stride(&self, blck_size: usize) -> (r: Layout)
        requires
            blck_size >= 1,
            (self@[0] as int / blck_size as int) * self@[1] <= usize::MAX,
            (self@[0] as int / blck_size as int) * self@[1] * self@[2] <= usize::MAX,
        ensures
            r@[0] == 1,
            r@[1] == self@[0] as int / blck_size as int,
            r@[2] == r@[1] * self@[1],
            r@[3] == r@[2] * self@[2],
    {
        let mut x: Layout = [0, 0, 0, 0];
        x[0] = 1;
        x[1] = self.0[0] / blck_size;
        x[2] = x[1] * self.0[1];
        x[3] = x[2] * self.0[2];
        x
    }

    /// The first odometer index for a rank-`n_dims` walk, or `None` when
    /// some active axis is empty.
    pub fn first_index(&self, n_dims: usize) -> (r: Option<Shape>)
        requires
            n_dims <= MAX_DIM,
        ensures
            match r {
                Some(sh) => (forall|k: int| 0 <= k < n_dims ==> #[trigger] self@[k] > 0) && (
                forall|k: int| 0 <= k < n_dims ==> sh@[k] == 0) && (forall|k: int|
                    n_dims <= k < 4 ==> sh@[k] == 1),
                None => exists|k: int| 0 <= k < n_dims && #[trigger] self@[k] == 0,
            },
    {
        let mut i: usize = 0;
        while i < n_dims
            invariant
                i <= n_dims <= 4,
                forall|k: int| 0 <= k < i ==> #[trigger] self@[k] > 0,
            decreases n_dims - i,
        {
            if self.0[i] == 0 {
                assert(self@[i as int] == 0);
                return None;
            }
            i = i + 1;
        }
        let mut arr: Layout = [1, 1, 1, 1];
        let mut k: usize = 0;
        while k < n_dims
            invariant
                k <= n_dims <= 4,
                arr@.len() == 4,
                forall|j: int| 0 <= j < k ==> arr@[j] == 0,
                forall|j: int| k <= j < 4 ==> arr@[j] == 1,
            decreases n_dims - k,
        {
            arr[k] = 0;
            k = k + 1;
        }
        Some(Shape(arr))
    }

    /// Advances `index` to its row-major successor within the first
    /// `n_dims` axes: the rightmost axis increments first and overflow
    /// carries leftward.  Returns `None`, with `index` wrapped back to all
    /// zeros, when the walk is complete.
    pub fn next_for(&self, n_dims: usize, index: &mut Shape) -> (r: Option<()>)
        requires
            n_dims <= MAX_DIM,
            forall|k: int| 0 <= k < n_dims ==> #[trigger] old(index)@[k] < self@[k],
        ensures
            final(index)@.len() == 4,
            forall|k: int| n_dims <= k < 4 ==> #[trigger] final(index)@[k] == old(index)@[k],
            match r {
                Some(_) => odometer_step(self@, n_dims as int, old(index)@, final(index)@),
                None => odometer_last(self@, n_dims as int, old(index)@) && (forall|k: int|
                    0 <= k < n_dims ==> #[trigger] final(index)@[k] == 0),
            },
    {
        let mut k: usize = n_dims;
        while k > 0
            invariant
                k <= n_dims <= 4,
                index@.len() == 4,
                forall|j: int| 0 <= j < n_dims ==> #[trigger] old(index)@[j] < self@[j],
                forall|j: int| 0 <= j < k ==> #[trigger] index@[j] == old(index)@[j],
                forall|j: int|
                    k <= j < n_dims ==> #[trigger] index@[j] == 0 && old(index)@[j] == self@[j] - 1,
                forall|j: int| n_dims <= j < 4 ==> #[trigger] index@[j] == old(index)@[j],
            decreases k,
        {
            k = k - 1;
            let next = index.0[k] + 1;
            if next == self.0[k] {
                index.0[k] = 0;
            } else {
                index.0[k] = next;
                proof {
                    assert(index@[k as int] == old(index)@[k as int] + 1 && index@[k as int]
                        < self@[k as int]);
                    assert(odometer_step(self@, n_dims as int, old(index)@, index@));
                }
                return Some(());
            }
        }
        proof {
            assert forall|j: int| 0 <= j < n_dims implies #[trigger] old(index)@[j] == self@[j]
                - 1 by {
                assert(index@[j] == 0);
            }
        }
        None
    }

    /// Total storage offset of a multi-index through a stride vector,
    /// pairing entries up to the shorter of the two.
    pub fn stride_offset(index: &[usize], strides: &[usize]) -> (r: isize)
        requires
            forall|k: int|
                0 <= k <= min_len(index@, strides@) ==> #[trigger] off_prefix(index@, strides@, k)
                    <= isize::MAX,
        ensures
            r as int == off_prefix(index@, strides@, min_len(index@, strides@)),
    {
        let n = if index.len() < strides.len() {
            index.len()
        } else {
            strides.len()
        };
        let mut offset: isize = 0;
        let mut i: usize = 0;
        while i < n
            invariant
                i <= n,
                n == min_len(index@, strides@),
                n <= index@.len(),
                n <= strides@.len(),
                forall|k: int|
                    0 <= k <= n ==> #[trigger] off_prefix(index@, strides@, k) <= isize::MAX,
                offset as int == off_prefix(index@, strides@, i as int),
            decreases n - i,
        {
            assert(off_prefix(index@, strides@, i + 1) == off_prefix(index@, strides@, i as int)
                + index@[i as int] * strides@[i as int]);
            proof {
                lemma_off_prefix_nonneg(index@, strides@, i as int);
                assert(index@[i as int] * strides@[i as int] >= 0) by (nonlinear_arith);
            }
            let term = compute_stride_offset(index[i], strides[i]);
            offset = offset + term;
            i = i + 1;
        }
        offset
    }
}

/// `after` is the row-major successor of `before` within the first `n`
/// axes of `dims`: some axis increments while staying inside its size,
/// the axes left of it are unchanged, and every axis right of it rolls
/// over from its maximum back to zero.
pub open spec fn odometer_step(
    dims: Seq<usize>,
    n: int,
    before: Seq<usize>,
    after: Seq<usize>,
) -> bool {
    exists|p: int|
        0 <= p < n && #[trigger] after[p] == before[p] + 1 && after[p] < dims[p] && (forall|k: int|
            0 <= k < p ==> #[trigger] after[k] == before[k]) && (forall|k: int|
            p < k < n ==> #[trigger] after[k] == 0 && before[k] == dims[k] - 1)
}

/// `idx` is the last row-major index of the first `n` axes of `dims`:
/// every walked axis sits at its maximum.
pub open spec fn odometer_last(dims: Seq<usize>, n: int, idx: Seq<usize>) -> bool {
    forall|k: int| 0 <= k < n ==> #[trigger] idx[k] == dims[k] - 1
}

/// Least of the two sequence lengths.
pub open spec fn min_len(a: Seq<usize>, b: Seq<usize>) -> int {
    if a.len() < b.len() {
        a.len() as int
    } else {
        b.len() as int
    }
}

/// Sum of the first `k` index/stride products.
pub open spec fn off_prefix(idx: Seq<usize>, st: Seq<usize>, k: int) -> int
    decreases k,
{
    if k <= 0 {
        0
    } else {
        off_prefix(idx, st, k - 1) + idx[k - 1] * st[k - 1]
    }
}

pub proof fn lemma_off_prefix_nonneg(idx: Seq<usize>, st: Seq<usize>, k: int)
    ensures
        off_prefix(idx, st, k) >= 0,
    decreases k,
{
    if k > 0 {
        lemma_off_prefix_nonneg(idx, st, k - 1);
        assert(idx[k - 1] * st[k - 1] >= 0) by (nonlinear_arith);
    }
}

pub fn dims1(s: &[usize]) -> (r: usize)
    requires
        s@.len() >= 1,
    ensures
        r == s@[0],
{
    s[0]
}

pub fn dims2(s: &[usize]) -> (r: (usize, usize))
    requires
        s@.len() >= 2,
    ensures
        r.0 == s@[0] && r.1 == s@[1],
{
    (s[0], s[1])
}

pub fn dims3(s: &[usize]) -> (r: (usize, usize, usize))
    requires
        s@.len() >= 3,
    ensures
        r.0 == s@[0] && r.1 == s@[1] && r.2 == s@[2],
{
    (s[0], s[1], s[2])
}

pub fn dims4(s: &[usize]) -> (r: (usize, usize, usize, usize))
    requires
        s@.len() >= 4,
    ensures
        r.0 == s@[0] && r.1 == s@[1] && r.2 == s@[2] && r.3 == s@[3],
{
    (s[0], s[1], s[2], s[3])
}

/// Removes the axis `a` from a full-capacity size vector, compacting the
/// later entries leftward and padding the end with 1.
pub fn select_axis(src: &Layout, a: Axis) -> (r: Layout)
    requires
        a.0 < MAX_DIM,
    ensures
        forall|k: int| 0 <= k < a.0 ==> #[trigger] r@[k] == src@[k],
        forall|k: int| a.0 <= k < 3 ==> #[trigger] r@[k] == src@[k + 1],
        r@[3] == 1,
{
    let mut dst: Layout = [1, 1, 1, 1];
    let mut i: usize = 0;
    while i < a.0
        invariant
            i <= a.0 < 4,
            dst@.len() == 4,
            forall|k: int| 0 <= k < i ==> #[trigger] dst@[k] == src@[k],
            forall|k: int| i <= k < 4 ==> #[trigger] dst@[k] == 1,
        decreases a.0 - i,
    {
        dst[i] = src[i];
        i = i + 1;
    }
    let mut j: usize = a.0;
    while j < 3
        invariant
            a.0 <= j <= 3,
            dst@.len() == 4,
            forall|k: int| 0 <= k < a.0 ==> #[trigger] dst@[k] == src@[k],
            forall|k: int| a.0 <= k < j ==> #[trigger] dst@[k] == src@[k + 1],
            forall|k: int| j <= k < 4 ==> #[trigger] dst@[k] == 1,
        decreases 3 - j,
    {
        dst[j] = src[j + 1];
        j = j + 1;
    }
    dst
}

/// Walks all row-major multi-indices of a shape, rightmost axis first.
pub struct ShapeIter {
    dim: Shape,
    index: Shape,
    first: bool,
    n_dims: usize,
}

impl Shape {
    /// Begins a row-major walk over the first `n` axes.  All walked axes
    /// must be non-empty.
    pub fn iter(&self, n: usize) -> (r: ShapeIter)
        requires
            n <= MAX_DIM,
            forall|k: int| 0 <= k < n ==> #[trigger] self@[k] > 0,
        ensures
            r.wf(),
            r.shape() == self@,
            r.rank() == n,
            !r.started(),
            forall|k: int| 0 <= k < n ==> #[trigger] r.current()[k] == 0,
    {
        let first = self.first_index(n);
        let index = match first {
            Some(sh) => sh,
            None => {
                // Unreachable: every walked axis was checked non-empty.
                assert(false);
                Shape([0, 0, 0, 0])
            },
        };
        ShapeIter { dim: *self, index, first: true, n_dims: n }
    }
}

impl ShapeIter {
    /// The walked shape.
    pub closed spec fn shape(&self) -> Seq<usize> {
        self.dim@
    }

    /// The walked rank.
    pub closed spec fn rank(&self) -> int {
        self.n_dims as int
    }

    /// The index the next call will yield first, before advancing.
    pub closed spec fn current(&self) -> Seq<usize> {
        self.index@
    }

    /// Whether some call has already yielded an index.
    pub closed spec fn started(&self) -> bool {
        !self.first
    }

    pub closed spec fn wf(&self) -> bool {
        &&& self.n_dims <= 4
        &&& self.index@.len() == 4
        &&& self.dim@.len() == 4
        &&& forall|k: int| 0 <= k < self.n_dims ==> #[trigger] self.index@[k] < self.dim@[k]
    }

    /// Yields the current index on the first call without advancing, then
    /// on every later call the row-major successor of the index yielded
    /// before, and `None` once the last index has been yielded.
    pub fn next(&mut self, n_dims: usize) -> (r: Option<Shape>)
        requires
            old(self).wf(),
            n_dims == old(self).rank(),
        ensures
            final(self).wf(),
            final(self).shape() == old(self).shape(),
            final(self).rank() == old(self).rank(),
            final(self).started(),
            match r {
                Some(sh) => sh@ == final(self).current() && (old(self).started()
                    ==> odometer_step(
                    old(self).shape(),
                    n_dims as int,
                    old(self).current(),
                    final(self).current(),
                )) && (!old(self).started() ==> final(self).current() == old(self).current()),
                None => old(self).started() && odometer_last(
                    old(self).shape(),
                    n_dims as int,
                    old(self).current(),
                ) && (forall|k: int| 0 <= k < n_dims ==> #[trigger] final(self).current()[k] == 0),
            },
    {
        if self.first {
            self.first = false;
            Some(self.index)
        } else {
            let dim = self.dim;
            match dim.next_for(n_dims, &mut self.index) {
                Some(()) => Some(self.index),
                None => {
                    proof {
                        assert forall|k: int|
                            0 <= k < self.n_dims implies #[trigger] self.index@[k]
                            < self.dim@[k] by {
                            assert(old(self).current()[k] < old(self).shape()[k]);
                            assert(self.index@[k] == 0);
                        }
                    }
                    None
                },
            }
        }
    }
}

impl PartialEq for Shape {
    /// Two shapes are equal when every stored size, padding included,
    /// agrees; equal sizes force equal element counts.
    fn eq(&self, other: &Shape) -> (r: bool) {
        self.0[0] == other.0[0] && self.0[1] == other.0[1] && self.0[2] == other.0[2] && self.0[3]
            == other.0[3]
    }
}

impl vstd::std_specs::cmp::PartialEqSpecImpl for Shape {
    open spec fn obeys_eq_spec() -> bool {
        true
    }

    open spec fn eq_spec(&self, other: &Shape) -> bool {
        self@ =~= other@
    }
}

} // verus!
