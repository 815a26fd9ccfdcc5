//! Shape broadcasting: unifying two shapes the way array languages do.
//!
//! Two shapes are aligned at their trailing axis.  Aligned axis pairs must
//! be equal or contain a 1; an axis present in only one operand counts as
//! size 1 for the other.  A broadcast view never copies: an axis stretched
//! from size 1 gets stride 0, so every logical position along it reads the
//! same stored element.

use crate::dim::Dim;
use crate::error::{GError, GResult};
use crate::layout::{dominated4, in_bounds4, offset4, Layout, MAX_DIM};
use crate::shape::Shape;
use vstd::prelude::*;

verus! {

/// Size of the axis `t` steps in from the trailing end of a shape of rank
/// `r`; axes beyond the rank count as 1.
pub open spec fn al(s: Seq<usize>, r: int, t: int) -> int {
    if t < r {
        s[r - 1 - t] as int
    } else {
        1
    }
}

/// The greater of the two ranks.
pub open spec fn max_rank(ra: int, rb: int) -> int {
    if ra < rb {
        rb
    } else {
        ra
    }
}

/// Every right-aligned axis pair is equal or one of the pair is 1.
pub open spec fn compatible(a: Seq<usize>, ra: int, b: Seq<usize>, rb: int) -> bool {
    forall|t: int|
        0 <= t < max_rank(ra, rb) ==> #[trigger] al(a, ra, t) == al(b, rb, t) || al(a, ra, t) == 1
            || al(b, rb, t) == 1
}

/// The size of axis `t` (from the right) of the unified shape.
pub open spec fn unified_axis(a: Seq<usize>, ra: int, b: Seq<usize>, rb: int, t: int) -> int {
    if al(a, ra, t) == al(b, rb, t) {
        al(a, ra, t)
    } else if al(a, ra, t) == 1 {
        al(b, rb, t)
    } else {
        al(a, ra, t)
    }
}

/// The unified broadcast shape, padded to the fixed capacity.
pub open spec fn bshape_spec(a: Seq<usize>, ra: int, b: Seq<usize>, rb: int) -> Seq<usize> {
    Seq::new(
        4,
        |k: int|
            if k < max_rank(ra, rb) {
                unified_axis(a, ra, b, rb, max_rank(ra, rb) - 1 - k) as usize
            } else {
                1
            },
    )
}

/// A shape of rank `src_rank` can be read through a view of the target
/// shape: right-aligned, each source axis equals the target axis or is 1.
pub open spec fn can_broadcast_to(
    src: Seq<usize>,
    src_rank: int,
    tgt: Seq<usize>,
    tgt_rank: int,
) -> bool {
    &&& src_rank <= tgt_rank
    &&& forall|t: int|
        0 <= t < src_rank ==> #[trigger] al(src, src_rank, t) == al(tgt, tgt_rank, t) || al(
            src,
            src_rank,
            t,
        ) == 1
}

/// Strides of the broadcast view: a leading axis the source lacks, or an
/// axis stretched from size 1, moves with stride 0; every other axis keeps
/// the source stride.
pub open spec fn bstride_spec(
    src: Seq<usize>,
    src_st: Seq<usize>,
    src_rank: int,
    tgt: Seq<usize>,
    tgt_rank: int,
) -> Seq<usize> {
    Seq::new(
        4,
        |k: int|
            if k < tgt_rank - src_rank || k >= tgt_rank {
                0usize
            } else if src[k - (tgt_rank - src_rank)] == tgt[k] {
                src_st[k - (tgt_rank - src_rank)]
            } else {
                0usize
            },
    )
}

/// The source multi-index that a view multi-index reads: kept axes carry
/// their component down; stretched or missing axes read position 0.
pub open spec fn project_idx(
    idx: Seq<int>,
    src: Seq<usize>,
    src_rank: int,
    tgt: Seq<usize>,
    tgt_rank: int,
) -> Seq<int> {
    Seq::new(
        4,
        |m: int|
            if m < src_rank && src[m] == tgt[m + (tgt_rank - src_rank)] {
                idx[m + (tgt_rank - src_rank)]
            } else {
                0
            },
    )
}

/// Computes the unified broadcast shape of two shapes of the given ranks,
/// or reports that they cannot be unified.  Succeeds exactly when every
/// right-aligned axis pair is equal or one of the pair is 1.
pub fn resolve_broadcast(lhs: &Shape, l_rank: usize, rhs: &Shape, r_rank: usize) -> (r: GResult<
    Shape,
>)
    requires
        l_rank <= MAX_DIM,
        r_rank <= MAX_DIM,
    ensures
        match r {
            Ok(s) => compatible(lhs@, l_rank as int, rhs@, r_rank as int) && s@ =~= bshape_spec(
                lhs@,
                l_rank as int,
                rhs@,
                r_rank as int,
            ),
            Err(e) => !compatible(lhs@, l_rank as int, rhs@, r_rank as int) && e matches
                GError::IncompatibleShape,
        },
{
    let n = if l_rank < r_rank {
        r_rank
    } else {
        l_rank
    };
    let ghost ra = l_rank as int;
    let ghost rb = r_rank as int;
    let mut arr: Layout = [1, 1, 1, 1];
    let mut t: usize = 0;
    while t < n
        invariant
            t <= n <= 4,
            n as int == max_rank(ra, rb),
            ra == l_rank as int,
            rb == r_rank as int,
            l_rank <= 4,
            r_rank <= 4,
            lhs@.len() == 4,
            rhs@.len() == 4,
            arr@.len() == 4,
            forall|u: int|
                0 <= u < t ==> (#[trigger] al(lhs@, ra, u) == al(rhs@, rb, u) || al(lhs@, ra, u)
                    == 1 || al(rhs@, rb, u) == 1),
            forall|u: int|
                0 <= u < t ==> #[trigger] arr@[n - 1 - u] == unified_axis(lhs@, ra, rhs@, rb, u),
            forall|k: int| 0 <= k < n - t ==> #[trigger] arr@[k] == 1,
            forall|k: int| n <= k < 4 ==> #[trigger] arr@[k] == 1,
        decreases n - t,
    {
        let av = if t < l_rank {
            lhs.0[l_rank - 1 - t]
        } else {
            1
        };
        let bv = if t < r_rank {
            rhs.0[r_rank - 1 - t]
        } else {
            1
        };
        assert(av as int == al(lhs@, ra, t as int));
        assert(bv as int == al(rhs@, rb, t as int));
        if av == bv {
            arr[n - 1 - t] = av;
        } else if av == 1 {
            arr[n - 1 - t] = bv;
        } else if bv == 1 {
            arr[n - 1 - t] = av;
        } else {
            proof {
                assert(!(al(lhs@, ra, t as int) == al(rhs@, rb, t as int) || al(lhs@, ra, t as int)
                    == 1 || al(rhs@, rb, t as int) == 1));
                assert(!compatible(lhs@, ra, rhs@, rb));
            }
            return Err(GError::IncompatibleShape);
        }
        t = t + 1;
    }
    proof {
        assert forall|u: int| 0 <= u < max_rank(ra, rb) implies (#[trigger] al(lhs@, ra, u) == al(
            rhs@,
            rb,
            u,
        ) || al(lhs@, ra, u) == 1 || al(rhs@, rb, u) == 1) by {}
        assert(compatible(lhs@, ra, rhs@, rb));
        assert forall|k: int| 0 <= k < 4 implies #[trigger] arr@[k] == bshape_spec(
            lhs@,
            ra,
            rhs@,
            rb,
        )[k] by {
            if k < n {
                assert(arr@[n - 1 - (n - 1 - k)] == unified_axis(lhs@, ra, rhs@, rb, n - 1 - k));
            }
        }
    }
    Ok(Shape(arr))
}

impl Dim {
    /// Builds the broadcast view of this layout onto a (wider) target
    /// layout: the target's shape with stride 0 on every stretched or
    /// missing axis.  Fails exactly when some right-aligned axis pair
    /// neither matches nor reads a size-1 source axis.
    pub fn broadcast_with(&self, target: &Dim) -> (r: GResult<Dim>)
        requires
            self.wf(),
            target.wf(),
        ensures
            match r {
                Ok(d) => {
                    &&& can_broadcast_to(self.shape@, self.rank(), target.shape@, target.rank())
                    &&& d.wf()
                    &&& d.n_dims == target.n_dims
                    &&& d.shape@ == target.shape@
                    &&& d.stride@ =~= bstride_spec(
                        self.shape@,
                        self.stride@,
                        self.rank(),
                        target.shape@,
                        target.rank(),
                    )
                },
                Err(e) => {
                    &&& !can_broadcast_to(self.shape@, self.rank(), target.shape@, target.rank())
                    &&& e matches GError::IncompatibleShape
                },
            },
    {
        if target.n_dims < self.n_dims {
            return Err(GError::IncompatibleShape);
        }
        let shift = target.n_dims - self.n_dims;
        let mut st: Layout = [0, 0, 0, 0];
        let mut m: usize = 0;
        while m < self.n_dims
            invariant
                m <= self.n_dims,
                self.wf(),
                target.wf(),
                self.n_dims + shift == target.n_dims,
                st@.len() == 4,
                forall|u: int|
                    0 <= u < m ==> (#[trigger] self.shape@[self.rank() - 1 - u] == target.shape@[
                        target.rank() - 1 - u
                    ] || self.shape@[self.rank() - 1 - u] == 1),
                forall|k: int|
                    target.rank() - m <= k < target.rank() ==> #[trigger] st@[k] == bstride_spec(
                        self.shape@,
                        self.stride@,
                        self.rank(),
                        target.shape@,
                        target.rank(),
                    )[k],
                forall|k: int|
                    0 <= k < 4 && !(target.rank() - m <= k < target.rank()) ==> #[trigger] st@[k]
                        == 0,
            decreases self.n_dims - m,
        {
            // Work from the trailing axis inward.
            let s_ax = self.n_dims - 1 - m;
            let t_ax = target.n_dims - 1 - m;
            let sv = self.shape.0[s_ax];
            let tv = target.shape.0[t_ax];
            if sv == tv {
                st[t_ax] = self.stride[s_ax];
            } else if sv == 1 {
                st[t_ax] = 0;
            } else {
                proof {
                    assert(al(self.shape@, self.rank(), m as int) == sv);
                    assert(al(target.shape@, target.rank(), m as int) == tv);
                    assert(!can_broadcast_to(
                        self.shape@,
                        self.rank(),
                        target.shape@,
                        target.rank(),
                    ));
                }
                return Err(GError::IncompatibleShape);
            }
            proof {
                assert(t_ax as int == s_ax + shift);
                assert(st@[t_ax as int] == bstride_spec(
                    self.shape@,
                    self.stride@,
                    self.rank(),
                    target.shape@,
                    target.rank(),
                )[t_ax as int]);
            }
            m = m + 1;
        }
        proof {
            assert forall|t: int| 0 <= t < self.rank() implies #[trigger] al(
                self.shape@,
                self.rank(),
                t,
            ) == al(target.shape@, target.rank(), t) || al(self.shape@, self.rank(), t) == 1 by {
                assert(self.shape@[self.rank() - 1 - t] == target.shape@[target.rank() - 1 - t]
                    || self.shape@[self.rank() - 1 - t] == 1);
            }
            assert(can_broadcast_to(self.shape@, self.rank(), target.shape@, target.rank()));
            assert forall|k: int| 0 <= k < 4 implies #[trigger] st@[k] == bstride_spec(
                self.shape@,
                self.stride@,
                self.rank(),
                target.shape@,
                target.rank(),
            )[k] by {
                let b = bstride_spec(
                    self.shape@,
                    self.stride@,
                    self.rank(),
                    target.shape@,
                    target.rank(),
                );
                if k < target.rank() - self.rank() || k >= target.rank() {
                    assert(b[k] == 0);
                    assert(st@[k] == 0);
                }
            }
        }
        Ok(Dim { n_dims: target.n_dims, shape: target.shape, stride: st })
    }
}

/// Broadcasting is shape-symmetric: two shapes are compatible in either
/// order, and the unified shape does not depend on the order.
pub proof fn lemma_broadcast_symmetric(a: Seq<usize>, ra: int, b: Seq<usize>, rb: int)
    ensures
        compatible(a, ra, b, rb) == compatible(b, rb, a, ra),
        compatible(a, ra, b, rb) ==> bshape_spec(a, ra, b, rb) =~= bshape_spec(b, rb, a, ra),
{
    assert(max_rank(ra, rb) == max_rank(rb, ra));
    if compatible(a, ra, b, rb) {
        assert forall|t: int| 0 <= t < max_rank(rb, ra) implies #[trigger] al(b, rb, t) == al(
            a,
            ra,
            t,
        ) || al(b, rb, t) == 1 || al(a, ra, t) == 1 by {
            assert(al(a, ra, t) == al(b, rb, t) || al(a, ra, t) == 1 || al(b, rb, t) == 1);
        }
        assert forall|k: int| 0 <= k < 4 implies bshape_spec(a, ra, b, rb)[k] == bshape_spec(
            b,
            rb,
            a,
            ra,
        )[k] by {
            if k < max_rank(ra, rb) {
                let t = max_rank(ra, rb) - 1 - k;
                assert(al(a, ra, t) == al(b, rb, t) || al(a, ra, t) == 1 || al(b, rb, t) == 1);
                assert(unified_axis(a, ra, b, rb, t) == unified_axis(b, rb, a, ra, t));
            }
        }
    }
    if compatible(b, rb, a, ra) {
        assert forall|t: int| 0 <= t < max_rank(ra, rb) implies #[trigger] al(a, ra, t) == al(
            b,
            rb,
            t,
        ) || al(a, ra, t) == 1 || al(b, rb, t) == 1 by {
            assert(al(b, rb, t) == al(a, ra, t) || al(b, rb, t) == 1 || al(a, ra, t) == 1);
        }
    }
}

/// A shape is always compatible with the shape it unifies to: each of its
/// aligned axes equals the unified axis or is 1.
pub proof fn lemma_operand_broadcasts_to_unified(a: Seq<usize>, ra: int, b: Seq<usize>, rb: int)
    requires
        0 <= ra <= 4,
        0 <= rb <= 4,
        compatible(a, ra, b, rb),
    ensures
        can_broadcast_to(a, ra, bshape_spec(a, ra, b, rb), max_rank(ra, rb)),
        can_broadcast_to(b, rb, bshape_spec(b, rb, a, ra), max_rank(ra, rb)),
    decreases 0int,
{
    let n = max_rank(ra, rb);
    let u = bshape_spec(a, ra, b, rb);
    assert forall|t: int| 0 <= t < ra implies #[trigger] al(a, ra, t) == al(u, n, t) || al(a, ra, t)
        == 1 by {
        assert(al(a, ra, t) == al(b, rb, t) || al(a, ra, t) == 1 || al(b, rb, t) == 1);
        assert(u[n - 1 - t] == unified_axis(a, ra, b, rb, t));
        assert(al(u, n, t) == unified_axis(a, ra, b, rb, t));
    }
    lemma_broadcast_symmetric(a, ra, b, rb);
    let u2 = bshape_spec(b, rb, a, ra);
    assert forall|t: int| 0 <= t < rb implies #[trigger] al(b, rb, t) == al(u2, n, t) || al(
        b,
        rb,
        t,
    ) == 1 by {
        assert(al(b, rb, t) == al(a, ra, t) || al(b, rb, t) == 1 || al(a, ra, t) == 1);
        assert(u2[n - 1 - t] == unified_axis(b, rb, a, ra, t));
        assert(al(u2, n, t) == unified_axis(b, rb, a, ra, t));
    }
}

/// Reading a broadcast view at a view multi-index touches exactly the
/// storage offset of the projected source multi-index; projection keeps
/// indices dominated and keeps in-bounds indices in bounds.
pub proof fn lemma_bview_offset(src: Dim, view: Dim, idx: Seq<int>)
    requires
        src.wf(),
        view.wf(),
        src.n_dims <= view.n_dims,
        can_broadcast_to(src.shape@, src.rank(), view.shape@, view.rank()),
        view.stride@ =~= bstride_spec(
            src.shape@,
            src.stride@,
            src.rank(),
            view.shape@,
            view.rank(),
        ),
        dominated4(idx, view.shape@),
    ensures
        dominated4(
            project_idx(idx, src.shape@, src.rank(), view.shape@, view.rank()),
            src.shape@,
        ),
        in_bounds4(idx, view.shape@) ==> in_bounds4(
            project_idx(idx, src.shape@, src.rank(), view.shape@, view.rank()),
            src.shape@,
        ),
        offset4(idx, view.stride@) == offset4(
            project_idx(idx, src.shape@, src.rank(), view.shape@, view.rank()),
            src.stride@,
        ),
{
    let s = src.shape@;
    let sst = src.stride@;
    let g = view.shape@;
    let vst = view.stride@;
    let sr = src.rank();
    let vr = view.rank();
    let shift = vr - sr;
    let j = project_idx(idx, s, sr, g, vr);

    // Alignment rewritten left-to-right: each source axis m pairs with
    // target axis m + shift.
    assert forall|m: int| 0 <= m < sr implies #[trigger] s[m] == g[m + shift] || s[m] == 1 by {
        let t = sr - 1 - m;
        assert(al(s, sr, t) == al(g, vr, t) || al(s, sr, t) == 1);
        assert(al(s, sr, t) == s[m]);
        assert(al(g, vr, t) == g[vr - 1 - t]);
        assert(vr - 1 - t == m + shift);
    }

    assert forall|m: int| 0 <= m < 4 implies 0 <= #[trigger] j[m] && (j[m] < s[m] || j[m] == 0) by {
        if m < sr && s[m] == g[m + shift] {
            assert(j[m] == idx[m + shift]);
            assert(0 <= idx[m + shift] && (idx[m + shift] < g[m + shift] || idx[m + shift] == 0));
        } else {
            assert(j[m] == 0);
        }
    }

    assert(in_bounds4(idx, g) ==> in_bounds4(j, s)) by {
        if in_bounds4(idx, g) {
            assert forall|m: int| 0 <= m < 4 implies 0 <= #[trigger] j[m] < s[m] by {
                if m < sr && s[m] == g[m + shift] {
                    assert(j[m] == idx[m + shift]);
                    assert(idx[m + shift] < g[m + shift]);
                } else if m < sr {
                    assert(s[m] == 1);
                    assert(j[m] == 0);
                } else {
                    assert(s[m] == 1);
                    assert(j[m] == 0);
                }
            }
        }
    }

    // Term-by-term: view term k contributes exactly source term k - shift,
    // or nothing where the stride is 0.
    assert forall|k: int| 0 <= k < 4 implies #[trigger] (idx[k] * vst[k]) == if shift <= k < shift
        + sr {
        j[k - shift] * sst[k - shift]
    } else {
        0
    } by {
        if k < shift || k >= vr {
            assert(vst[k] == 0);
        } else {
            let m = k - shift;
            if s[m] == g[k] {
                assert(vst[k] == sst[m]);
                assert(j[m] == idx[k]);
            } else {
                assert(vst[k] == 0);
                assert(j[m] == 0);
            }
        }
        if shift + sr <= k < vr {
            // Axes past the source's rank sit beyond `shift + sr` only when
            // the view is wider than source rank plus shift, which cannot
            // happen: vr == sr + shift.
            assert(false);
        }
    }

    assert forall|m: int| !(0 <= m < sr) && 0 <= m < 4 implies #[trigger] (j[m] * sst[m]) == 0 by {
        assert(j[m] == 0);
    }

    // Assemble the two four-term sums for each possible shift.
    assert(offset4(idx, vst) == idx[0] * vst[0] + idx[1] * vst[1] + idx[2] * vst[2] + idx[3]
        * vst[3]);
    assert(offset4(j, sst) == j[0] * sst[0] + j[1] * sst[1] + j[2] * sst[2] + j[3] * sst[3]);
    if shift == 0 {
        assert(offset4(idx, vst) == offset4(j, sst));
    } else if shift == 1 {
        assert(offset4(idx, vst) == offset4(j, sst));
    } else if shift == 2 {
        assert(offset4(idx, vst) == offset4(j, sst));
    } else if shift == 3 {
        assert(offset4(idx, vst) == offset4(j, sst));
    } else {
        assert(shift == 4);
        assert(offset4(idx, vst) == offset4(j, sst));
    }
}

} // verus!
