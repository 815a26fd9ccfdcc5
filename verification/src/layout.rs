//! The mathematical model of fixed-capacity shapes and strides.
//!
//! Every shape or stride vector in this crate is a `[usize; 4]` whose entries
//! beyond the active rank are padding.  The spec functions here give the
//! row-major (C order) interpretation of such vectors: products of axis
//! sizes, the flat index of a multi-index, its inverse, and the storage
//! offset reached through a stride vector.

use vstd::arithmetic::div_mod::{
    lemma_fundamental_div_mod, lemma_fundamental_div_mod_converse, lemma_mod_bound,
};
use vstd::prelude::*;

verus! {

/// Greatest number of axes a shape or stride vector can describe.
pub const MAX_DIM: usize = 4;

/// Fixed-capacity array of per-axis values (sizes or strides).
pub type Layout = [usize; 4];

/// Product of the entries `s[i..j]`.
pub open spec fn prod_rg(s: Seq<usize>, i: int, j: int) -> int
    decreases j - i,
{
    if i >= j {
        1
    } else {
        s[i] * prod_rg(s, i + 1, j)
    }
}

/// Number of elements described by a full (padded) size vector.
pub open spec fn count4(s: Seq<usize>) -> int {
    prod_rg(s, 0, 4)
}

/// Every suffix product of the first `n` entries fits in a `usize`.
/// This is the machine-level side condition under which canonical strides
/// and element counts can be computed without overflow.
pub open spec fn suffix_prods_fit(s: Seq<usize>, n: int) -> bool {
    forall|i: int| 0 <= i <= n ==> prod_rg(s, i, n) <= usize::MAX
}

/// Every range product of the first `n` entries fits in a `usize`.
pub open spec fn rg_prods_fit(s: Seq<usize>, n: int) -> bool {
    forall|i: int, j: int| 0 <= i <= j <= n ==> #[trigger] prod_rg(s, i, j) <= usize::MAX
}

/// The sizes `v`, right-padded with 1s to the fixed capacity.
pub open spec fn pad4_ones(v: Seq<usize>) -> Seq<usize> {
    Seq::new(4, |i: int| if i < v.len() { v[i] } else { 1 })
}

/// A multi-index that addresses a cell of the size vector `s`.
pub open spec fn in_bounds4(idx: Seq<int>, s: Seq<usize>) -> bool {
    idx.len() == 4 && (forall|k: int| 0 <= k < 4 ==> 0 <= #[trigger] idx[k] < s[k])
}

/// Storage offset of `idx` through the stride vector `st`.
pub open spec fn offset4(idx: Seq<int>, st: Seq<usize>) -> int {
    idx[0] * st[0] + idx[1] * st[1] + idx[2] * st[2] + idx[3] * st[3]
}

/// Row-major flat position of the multi-index `idx` within the sizes `s`.
pub open spec fn encode4(s: Seq<usize>, idx: Seq<int>) -> int {
    ((idx[0] * s[1] + idx[1]) * s[2] + idx[2]) * s[3] + idx[3]
}

/// Row-major multi-index of the flat position `j` within the sizes `s`.
pub open spec fn decode4(s: Seq<usize>, j: int) -> Seq<int> {
    seq![
        j / (s[3] as int) / (s[2] as int) / (s[1] as int),
        (j / (s[3] as int) / (s[2] as int)) % (s[1] as int),
        (j / (s[3] as int)) % (s[2] as int),
        j % (s[3] as int),
    ]
}

pub proof fn lemma_prod_rg_nonneg(s: Seq<usize>, i: int, j: int)
    ensures
        prod_rg(s, i, j) >= 0,
    decreases j - i,
{
    if i < j {
        lemma_prod_rg_nonneg(s, i + 1, j);
    }
}

/// A positive range product forces every factor in the range to be positive,
/// and conversely.
pub proof fn lemma_prod_rg_pos(s: Seq<usize>, i: int, j: int)
    ensures
        prod_rg(s, i, j) > 0 <==> (forall|k: int| i <= k < j ==> #[trigger] s[k] > 0),
    decreases j - i,
{
    if i < j {
        lemma_prod_rg_pos(s, i + 1, j);
        lemma_prod_rg_nonneg(s, i + 1, j);
        let p = prod_rg(s, i + 1, j);
        assert((s[i] * p > 0) <==> (s[i] > 0 && p > 0)) by (nonlinear_arith)
            requires
                p >= 0,
                s[i] >= 0,
        ;
    }
}

/// Splitting a range product at a midpoint.
pub proof fn lemma_prod_rg_split(s: Seq<usize>, i: int, j: int, k: int)
    requires
        i <= j <= k,
    ensures
        prod_rg(s, i, k) == prod_rg(s, i, j) * prod_rg(s, j, k),
    decreases j - i,
{
    if i < j {
        lemma_prod_rg_split(s, i + 1, j, k);
        assert(prod_rg(s, i, k) == s[i] * (prod_rg(s, i + 1, j) * prod_rg(s, j, k)));
        assert(s[i] * (prod_rg(s, i + 1, j) * prod_rg(s, j, k)) == (s[i] * prod_rg(s, i + 1, j))
            * prod_rg(s, j, k)) by (nonlinear_arith);
    }
}

/// A run of size-1 axes contributes nothing to a product.
pub proof fn lemma_prod_rg_ones(s: Seq<usize>, i: int, j: int)
    requires
        forall|k: int| i <= k < j ==> #[trigger] s[k] == 1,
    ensures
        prod_rg(s, i, j) == 1,
    decreases j - i,
{
    if i < j {
        lemma_prod_rg_ones(s, i + 1, j);
    }
}

/// For a size vector padded with 1s beyond rank `n`, products up to `n`
/// and products up to the full capacity agree.
pub proof fn lemma_prod_rg_padded(s: Seq<usize>, n: int, i: int)
    requires
        0 <= i <= n <= 4,
        forall|k: int| n <= k < 4 ==> #[trigger] s[k] == 1,
    ensures
        prod_rg(s, i, n) == prod_rg(s, i, 4),
{
    lemma_prod_rg_split(s, i, n, 4);
    lemma_prod_rg_ones(s, n, 4);
}

/// Two size vectors that agree entrywise have equal range products.
pub proof fn lemma_prod_rg_congruent(a: Seq<usize>, b: Seq<usize>, i: int, j: int)
    requires
        forall|k: int| i <= k < j ==> #[trigger] a[k] == b[k],
    ensures
        prod_rg(a, i, j) == prod_rg(b, i, j),
    decreases j - i,
{
    if i < j {
        lemma_prod_rg_congruent(a, b, i + 1, j);
    }
}

/// The flat position of an in-bounds multi-index lies below the element count.
pub proof fn lemma_encode_bound(s: Seq<usize>, idx: Seq<int>)
    requires
        in_bounds4(idx, s),
    ensures
        0 <= encode4(s, idx) < count4(s),
{
    let s0 = s[0] as int;
    let s1 = s[1] as int;
    let s2 = s[2] as int;
    let s3 = s[3] as int;
    assert(prod_rg(s, 4, 4) == 1);
    assert(prod_rg(s, 3, 4) == s3);
    assert(prod_rg(s, 2, 4) == s2 * s3);
    assert(prod_rg(s, 1, 4) == s1 * (s2 * s3));
    assert(count4(s) == s0 * (s1 * (s2 * s3)));
    let i0 = idx[0];
    let i1 = idx[1];
    let i2 = idx[2];
    let i3 = idx[3];
    assert(0 <= ((i0 * s1 + i1) * s2 + i2) * s3 + i3 < s0 * (s1 * (s2 * s3)))
        by (nonlinear_arith)
        requires
            0 <= i0 < s0,
            0 <= i1 < s1,
            0 <= i2 < s2,
            0 <= i3 < s3,
    ;
}

/// Decoding a flat position below the element count yields an in-bounds
/// multi-index that encodes back to the same position.
pub proof fn lemma_decode4(s: Seq<usize>, j: int)
    requires
        s.len() == 4,
        0 <= j < count4(s),
    ensures
        in_bounds4(decode4(s, j), s),
        encode4(s, decode4(s, j)) == j,
{
    let s0 = s[0] as int;
    let s1 = s[1] as int;
    let s2 = s[2] as int;
    let s3 = s[3] as int;
    assert(count4(s) == s0 * (s1 * (s2 * s3))) by {
        assert(prod_rg(s, 4, 4) == 1);
        assert(prod_rg(s, 3, 4) == s3);
        assert(prod_rg(s, 2, 4) == s2 * s3);
        assert(prod_rg(s, 1, 4) == s1 * (s2 * s3));
    }
    lemma_prod_rg_pos(s, 0, 4);
    assert(s0 > 0 && s1 > 0 && s2 > 0 && s3 > 0);

    let a = j / s3;
    let i3 = j % s3;
    lemma_fundamental_div_mod(j, s3);
    lemma_mod_bound(j, s3);
    assert(0 <= a) by (nonlinear_arith)
        requires
            j == s3 * a + i3,
            0 <= i3 < s3,
            0 <= j,
    ;
    assert(a < s0 * (s1 * s2)) by (nonlinear_arith)
        requires
            j == s3 * a + i3,
            0 <= i3 < s3,
            j < s0 * (s1 * (s2 * s3)),
            s3 > 0,
            a >= 0,
    ;

    let b = a / s2;
    let i2 = a % s2;
    lemma_fundamental_div_mod(a, s2);
    lemma_mod_bound(a, s2);
    assert(0 <= b) by (nonlinear_arith)
        requires
            a == s2 * b + i2,
            0 <= i2 < s2,
            0 <= a,
    ;
    assert(b < s0 * s1) by (nonlinear_arith)
        requires
            a == s2 * b + i2,
            0 <= i2 < s2,
            a < s0 * (s1 * s2),
            s2 > 0,
            b >= 0,
    ;

    let i0 = b / s1;
    let i1 = b % s1;
    lemma_fundamental_div_mod(b, s1);
    lemma_mod_bound(b, s1);
    assert(0 <= i0) by (nonlinear_arith)
        requires
            b == s1 * i0 + i1,
            0 <= i1 < s1,
            0 <= b,
    ;
    assert(i0 < s0) by (nonlinear_arith)
        requires
            b == s1 * i0 + i1,
            0 <= i1 < s1,
            b < s0 * s1,
            s1 > 0,
            i0 >= 0,
    ;

    let idx = decode4(s, j);
    assert(idx[0] == i0 && idx[1] == i1 && idx[2] == i2 && idx[3] == i3);
    assert(encode4(s, idx) == j) by (nonlinear_arith)
        requires
            encode4(s, idx) == ((i0 * s1 + i1) * s2 + i2) * s3 + i3,
            b == s1 * i0 + i1,
            a == s2 * b + i2,
            j == s3 * a + i3,
    ;
}

/// Encoding is injective: decoding the flat position of an in-bounds
/// multi-index recovers that multi-index.
pub proof fn lemma_encode_decode_id(s: Seq<usize>, idx: Seq<int>)
    requires
        s.len() == 4,
        in_bounds4(idx, s),
    ensures
        decode4(s, encode4(s, idx)) =~= idx,
{
    let s1 = s[1] as int;
    let s2 = s[2] as int;
    let s3 = s[3] as int;
    let i0 = idx[0];
    let i1 = idx[1];
    let i2 = idx[2];
    let i3 = idx[3];
    let j = encode4(s, idx);
    let q2 = (i0 * s1 + i1) * s2 + i2;
    let q1 = i0 * s1 + i1;
    assert(j == s3 * q2 + i3) by (nonlinear_arith)
        requires
            j == q2 * s3 + i3,
    ;
    lemma_fundamental_div_mod_converse(j, s3, q2, i3);
    assert(q2 == s2 * q1 + i2) by (nonlinear_arith)
        requires
            q2 == q1 * s2 + i2,
    ;
    lemma_fundamental_div_mod_converse(q2, s2, q1, i2);
    assert(q1 == s1 * i0 + i1) by (nonlinear_arith)
        requires
            q1 == i0 * s1 + i1,
    ;
    lemma_fundamental_div_mod_converse(q1, s1, i0, i1);
}

/// Through canonical (row-major) strides, the storage offset of a
/// multi-index is exactly its row-major flat position.  The stride entries
/// beyond the active rank may hold anything: the padded sizes there are 1,
/// so those index components are 0.
pub proof fn lemma_offset_contig(s: Seq<usize>, st: Seq<usize>, n: int, idx: Seq<int>)
    requires
        s.len() == 4,
        st.len() == 4,
        0 <= n <= 4,
        forall|k: int| n <= k < 4 ==> #[trigger] s[k] == 1,
        forall|k: int| 0 <= k < n ==> #[trigger] st[k] == prod_rg(s, k + 1, n),
        in_bounds4(idx, s),
    ensures
        offset4(idx, st) == encode4(s, idx),
{
    let s1 = s[1] as int;
    let s2 = s[2] as int;
    let s3 = s[3] as int;
    let i0 = idx[0];
    let i1 = idx[1];
    let i2 = idx[2];
    let i3 = idx[3];
    // Canonical strides over the full capacity.
    let c0 = prod_rg(s, 1, 4);
    let c1 = prod_rg(s, 2, 4);
    let c2 = prod_rg(s, 3, 4);
    let c3 = prod_rg(s, 4, 4);
    assert(c3 == 1);
    assert(c2 == s3);
    assert(c1 == s2 * s3);
    assert(c0 == s1 * (s2 * s3));
    // Entries beyond the rank have size 1, so their index component is 0.
    assert forall|k: int| n <= k < 4 implies idx[k] == 0 by {
        assert(0 <= idx[k] < s[k]);
    }
    // Each term of the two offset sums agrees.
    assert forall|k: int| 0 <= k < 4 implies idx[k] * (st[k] as int) == idx[k] * prod_rg(
        s,
        k + 1,
        4,
    ) by {
        if k < n {
            lemma_prod_rg_padded(s, n, k + 1);
            assert(st[k] == prod_rg(s, k + 1, n));
            assert(st[k] as int == prod_rg(s, k + 1, 4));
        } else {
            assert(idx[k] == 0);
            assert(idx[k] * (st[k] as int) == 0) by (nonlinear_arith)
                requires
                    idx[k] == 0,
            ;
            assert(idx[k] * prod_rg(s, k + 1, 4) == 0) by (nonlinear_arith)
                requires
                    idx[k] == 0,
            ;
        }
    }
    assert(offset4(idx, st) == i0 * c0 + i1 * c1 + i2 * c2 + i3 * c3);
    assert(i0 * (s1 * (s2 * s3)) + i1 * (s2 * s3) + i2 * s3 + i3 * 1 == ((i0 * s1 + i1) * s2 + i2)
        * s3 + i3) by (nonlinear_arith);
}

/// A multi-index each of whose components is either inside the size vector
/// or sitting at the origin.  This covers both genuine in-bounds indices and
/// indices over a shape whose trailing axes were replaced by padding.
pub open spec fn dominated4(idx: Seq<int>, s: Seq<usize>) -> bool {
    idx.len() == 4 && (forall|k: int|
        0 <= k < 4 ==> 0 <= #[trigger] idx[k] && (idx[k] < s[k] || idx[k] == 0))
}

/// Every offset reachable through `st` from a dominated multi-index of `s`
/// fits in a `usize`.
pub open spec fn offsets_fit(s: Seq<usize>, st: Seq<usize>) -> bool {
    forall|idx: Seq<int>| dominated4(idx, s) ==> #[trigger] offset4(idx, st) <= usize::MAX
}

pub proof fn lemma_in_bounds_dominated(idx: Seq<int>, s: Seq<usize>)
    requires
        in_bounds4(idx, s),
    ensures
        dominated4(idx, s),
{
}

pub proof fn lemma_offset4_nonneg(idx: Seq<int>, st: Seq<usize>)
    requires
        idx.len() == 4,
        forall|k: int| 0 <= k < 4 ==> #[trigger] idx[k] >= 0,
    ensures
        offset4(idx, st) >= 0,
{
    assert(idx[0] * st[0] >= 0) by (nonlinear_arith)
        requires
            idx[0] >= 0,
            st[0] >= 0,
    ;
    assert(idx[1] * st[1] >= 0) by (nonlinear_arith)
        requires
            idx[1] >= 0,
            st[1] >= 0,
    ;
    assert(idx[2] * st[2] >= 0) by (nonlinear_arith)
        requires
            idx[2] >= 0,
            st[2] >= 0,
    ;
    assert(idx[3] * st[3] >= 0) by (nonlinear_arith)
        requires
            idx[3] >= 0,
            st[3] >= 0,
    ;
}

/// Storage offset of the `j`-th row-major multi-index of the sizes `s`,
/// taken through the strides `st`.
pub fn offset_of_flat(s: &Layout, st: &Layout, j: usize) -> (r: usize)
    requires
        j < count4(s@),
        offset4(decode4(s@, j as int), st@) <= usize::MAX,
    ensures
        r == offset4(decode4(s@, j as int), st@),
{
    proof {
        lemma_decode4(s@, j as int);
        lemma_prod_rg_pos(s@, 0, 4);
    }
    let ghost idx = decode4(s@, j as int);
    let i3 = j % s[3];
    let a = j / s[3];
    let i2 = a % s[2];
    let b = a / s[2];
    let i1 = b % s[1];
    let i0 = b / s[1];
    assert(i0 as int == idx[0] && i1 as int == idx[1] && i2 as int == idx[2] && i3 as int
        == idx[3]);
    proof {
        lemma_offset4_nonneg(idx, st@);
        assert(idx[0] * st@[0] >= 0 && idx[1] * st@[1] >= 0 && idx[2] * st@[2] >= 0 && idx[3]
            * st@[3] >= 0) by (nonlinear_arith)
            requires
                idx[0] >= 0 && idx[1] >= 0 && idx[2] >= 0 && idx[3] >= 0,
                st@[0] >= 0 && st@[1] >= 0 && st@[2] >= 0 && st@[3] >= 0,
        ;
    }
    let t0 = i0 * st[0];
    let t1 = i1 * st[1];
    let t2 = i2 * st[2];
    let t3 = i3 * st[3];
    t0 + t1 + t2 + t3
}

} // verus!
