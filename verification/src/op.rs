//! The 1-D convolution kernel, driven by the strided layout model.

use crate::dim::Dim;
use crate::error::GResult;
use crate::layout::{encode4, lemma_encode_bound, lemma_encode_decode_id};
use crate::tensor::Tensor;
use vstd::arithmetic::div_mod::lemma_fundamental_div_mod;
use vstd::prelude::*;

verus! {

/// The element-type contract the compute kernels rely on: a zero value
/// and total addition and multiplication, each pinned to its own
/// specification-level meaning.
pub trait TensorType: Copy + Sized {
    spec fn zero_spec() -> Self;

    spec fn add_spec(self, o: Self) -> Self;

    spec fn mul_spec(self, o: Self) -> Self;

    fn zero() -> (r: Self)
        ensures
            r == Self::zero_spec(),
    ;

    fn add(self, o: Self) -> (r: Self)
        ensures
            r == self.add_spec(o),
    ;

    fn mul(self, o: Self) -> (r: Self)
        ensures
            r == self.mul_spec(o),
    ;
}

impl TensorType for i64 {
    open spec fn zero_spec() -> i64 {
        0i64
    }

    open spec fn add_spec(self, o: i64) -> i64 {
        vstd::wrapping::i64_specs::wrapping_add(self, o)
    }

    open spec fn mul_spec(self, o: i64) -> i64 {
        vstd::wrapping::i64_specs::wrapping_mul(self, o)
    }

    fn zero() -> (r: i64) {
        0
    }

    fn add(self, o: i64) -> (r: i64) {
        self.wrapping_add(o)
    }

    fn mul(self, o: i64) -> (r: i64) {
        self.wrapping_mul(o)
    }
}

/// Dot product of the first `n` element pairs, accumulated left to right.
pub open spec fn dot_spec<T: TensorType>(a: Seq<T>, b: Seq<T>) -> T
    decreases a.len(),
{
    if a.len() == 0 || b.len() == 0 {
        T::zero_spec()
    } else {
        dot_spec(a.drop_last(), b.drop_last()).add_spec(a.last().mul_spec(b.last()))
    }
}

/// Accumulating dot product over two contiguous runs: `a[a_start..a_start
/// + len]` against `b[..len]`.
#[verifier::loop_isolation(false)]
pub fn vec_dot<T: TensorType>(a: &Vec<T>, a_start: usize, b: &Vec<T>, len: usize) -> (r: T)
    requires
        a_start + len <= a@.len(),
        len <= b@.len(),
    ensures
        r == dot_spec(a@.subrange(a_start as int, a_start + len), b@.take(len as int)),
{
    let alen = a.len();
    let mut d = T::zero();
    let mut i: usize = 0;
    while i < len
        invariant
            i <= len,
            d == dot_spec(a@.subrange(a_start as int, a_start + i), b@.take(i as int)),
        decreases len - i,
    {
        d = d.add(a[a_start + i].mul(b[i]));
        i = i + 1;
        proof {
            let sa = a@.subrange(a_start as int, a_start + i);
            let sb = b@.take(i as int);
            assert(sa.drop_last() =~= a@.subrange(a_start as int, a_start + i - 1));
            assert(sb.drop_last() =~= b@.take(i - 1));
            assert(sa.last() == a@[a_start + i - 1]);
            assert(sb.last() == b@[i - 1]);
        }
    }
    d
}

/// Parameters of a 1-D convolution.
#[derive(Debug, Clone, Copy, PartialEq, Eq, Structural)]
pub struct ParamsConv1D {
    pub b_size: usize,
    pub l_in: usize,
    pub c_out: usize,
    pub c_in: usize,
    pub k_size: usize,
    pub padding: usize,
    pub stride: usize,
    pub dilation: usize,
}

impl ParamsConv1D {
    /// The stride and kernel are non-degenerate and the kernel's reach
    /// stays inside the padded input.
    pub open spec fn valid(&self) -> bool {
        &&& self.stride >= 1
        &&& self.k_size >= 1
        &&& self.l_in + 2 * self.padding <= usize::MAX
        &&& self.dilation * (self.k_size - 1) < self.l_in + 2 * self.padding
    }

    /// Number of output positions: `(l_in + 2*padding - dilation*(k_size
    /// - 1) - 1) / stride + 1`, rounding down.
    pub open spec fn l_out_spec(&self) -> int {
        (self.l_in + 2 * self.padding - self.dilation * (self.k_size - 1) - 1) / (
        self.stride as int) + 1
    }

    pub fn l_out(&self) -> (r: usize)
        requires
            self.valid(),
        ensures
            r == self.l_out_spec(),
    {
        let reach = self.dilation * (self.k_size - 1);
        let num = self.l_in + 2 * self.padding - reach - 1;
        proof {
            lemma_fundamental_div_mod(num as int, self.stride as int);
            assert(num as int / (self.stride as int) <= num) by (nonlinear_arith)
                requires
                    self.stride >= 1,
                    num >= 0,
            ;
        }
        num / self.stride + 1
    }

    /// The output shape: batch, output channels, output positions.
    pub fn out_dims(&self) -> (r: Vec<usize>)
        requires
            self.valid(),
        ensures
            r@ =~= seq![self.b_size, self.c_out, self.l_out_spec() as usize],
    {
        let l_out = self.l_out();
        let mut v: Vec<usize> = Vec::new();
        v.push(self.b_size);
        v.push(self.c_out);
        v.push(l_out);
        v
    }
}

/// Storage offset of input element (batch, channel, position) through the
/// input layout's strides.
pub open spec fn inp_off(d: Dim, b: int, ci: int, l: int) -> int {
    b * d.strides()[0] + ci * d.strides()[1] + l * d.strides()[2]
}

/// Storage offset of kernel weight (out channel, in channel, tap).
pub open spec fn k_off(d: Dim, co: int, ci: int, off: int) -> int {
    co * d.strides()[0] + ci * d.strides()[1] + off * d.strides()[2]
}

/// The input channel vector at one batch and position.
pub open spec fn inp_row<T: TensorType>(inp: Seq<T>, d: Dim, c_in: int, b: int, l: int) -> Seq<T> {
    Seq::new(c_in as nat, |ci: int| inp[inp_off(d, b, ci, l)])
}

/// The kernel's channel vector for one output channel and tap.
pub open spec fn k_row<T: TensorType>(k: Seq<T>, d: Dim, c_in: int, co: int, off: int) -> Seq<T> {
    Seq::new(c_in as nat, |ci: int| k[k_off(d, co, ci, off)])
}

/// Flat index of output cell (batch, out channel, position) in the
/// `[b_size, c_out, l_out]` output buffer.
pub open spec fn didx(p: ParamsConv1D, b: int, co: int, l: int) -> int {
    (b * p.c_out + co) * p.l_out_spec() + l
}

/// Value of one output cell after the first `taps` kernel taps have been
/// accumulated onto `init`: each tap whose input position falls inside
/// the unpadded input adds the dot product of the input channel vector
/// and that tap's kernel weights; taps that fall in the implicit zero
/// padding are skipped.
pub open spec fn conv_cell<T: TensorType>(
    p: ParamsConv1D,
    init: T,
    inp: Seq<T>,
    inp_d: Dim,
    k: Seq<T>,
    k_d: Dim,
    b: int,
    co: int,
    l: int,
    taps: int,
) -> T
    decreases taps,
{
    if taps <= 0 {
        init
    } else {
        let prev = conv_cell(p, init, inp, inp_d, k, k_d, b, co, l, taps - 1);
        let off = taps - 1;
        let src_l = p.stride * l + off * p.dilation;
        if src_l < p.padding || src_l >= p.padding + p.l_in {
            prev
        } else {
            prev.add_spec(
                dot_spec(
                    inp_row(inp, inp_d, p.c_in as int, b, src_l - p.padding),
                    k_row(k, k_d, p.c_in as int, co, off),
                ),
            )
        }
    }
}

/// Length of the output buffer the convolution fills.
pub open spec fn dst_len_spec(p: ParamsConv1D) -> int {
    p.b_size * (p.c_out * p.l_out_spec())
}

/// Output cells at distinct (batch, channel, position) triples occupy
/// distinct buffer slots.
proof fn lemma_didx_inj(p: ParamsConv1D, b1: int, co1: int, l1: int, b2: int, co2: int, l2: int)
    requires
        p.valid(),
        0 <= b1 < p.b_size,
        0 <= co1 < p.c_out,
        0 <= l1 < p.l_out_spec(),
        0 <= b2 < p.b_size,
        0 <= co2 < p.c_out,
        0 <= l2 < p.l_out_spec(),
        !(b1 == b2 && co1 == co2 && l1 == l2),
    ensures
        didx(p, b1, co1, l1) != didx(p, b2, co2, l2),
{
    let lo = p.l_out_spec() as usize;
    let s = seq![p.b_size, p.c_out, lo, 1usize];
    let i1 = seq![b1, co1, l1, 0int];
    let i2 = seq![b2, co2, l2, 0int];
    assert(p.l_out_spec() >= 1);
    assert(encode4(s, i1) == didx(p, b1, co1, l1)) by (nonlinear_arith)
        requires
            encode4(s, i1) == ((b1 * p.c_out + co1) * (lo as int) + l1) * 1 + 0,
            didx(p, b1, co1, l1) == (b1 * p.c_out + co1) * p.l_out_spec() + l1,
            lo as int == p.l_out_spec(),
    ;
    assert(encode4(s, i2) == didx(p, b2, co2, l2)) by (nonlinear_arith)
        requires
            encode4(s, i2) == ((b2 * p.c_out + co2) * (lo as int) + l2) * 1 + 0,
            didx(p, b2, co2, l2) == (b2 * p.c_out + co2) * p.l_out_spec() + l2,
            lo as int == p.l_out_spec(),
    ;
    lemma_encode_decode_id(s, i1);
    lemma_encode_decode_id(s, i2);
    if didx(p, b1, co1, l1) == didx(p, b2, co2, l2) {
        assert(i1 =~= i2);
        assert(false);
    }
}

/// Every output cell sits inside the output buffer.
proof fn lemma_didx_bound(p: ParamsConv1D, b: int, co: int, l: int)
    requires
        p.valid(),
        0 <= b < p.b_size,
        0 <= co < p.c_out,
        0 <= l < p.l_out_spec(),
    ensures
        0 <= didx(p, b, co, l) < dst_len_spec(p),
{
    let lo = p.l_out_spec() as usize;
    let s = seq![p.b_size, p.c_out, lo, 1usize];
    let i1 = seq![b, co, l, 0int];
    assert(p.l_out_spec() >= 1);
    assert(encode4(s, i1) == didx(p, b, co, l)) by (nonlinear_arith)
        requires
            encode4(s, i1) == ((b * p.c_out + co) * (lo as int) + l) * 1 + 0,
            didx(p, b, co, l) == (b * p.c_out + co) * p.l_out_spec() + l,
            lo as int == p.l_out_spec(),
    ;
    lemma_encode_bound(s, i1);
    assert(crate::layout::count4(s) == dst_len_spec(p)) by {
        assert(crate::layout::prod_rg(s, 4, 4) == 1);
        assert(crate::layout::prod_rg(s, 3, 4) == 1);
        assert(crate::layout::prod_rg(s, 2, 4) == lo as int) by (nonlinear_arith)
            requires
                crate::layout::prod_rg(s, 2, 4) == s[2] * crate::layout::prod_rg(s, 3, 4),
                s[2] == lo,
                crate::layout::prod_rg(s, 3, 4) == 1,
        ;
        assert(crate::layout::prod_rg(s, 1, 4) == p.c_out * (lo as int)) by (nonlinear_arith)
            requires
                crate::layout::prod_rg(s, 1, 4) == s[1] * crate::layout::prod_rg(s, 2, 4),
                s[1] == p.c_out,
                crate::layout::prod_rg(s, 2, 4) == lo as int,
        ;
        assert(crate::layout::prod_rg(s, 0, 4) == p.b_size * (p.c_out * (lo as int)))
            by (nonlinear_arith)
            requires
                crate::layout::prod_rg(s, 0, 4) == s[0] * crate::layout::prod_rg(s, 1, 4),
                s[0] == p.b_size,
                crate::layout::prod_rg(s, 1, 4) == p.c_out * (lo as int),
        ;
    }
}

/// The scratch layout the input is repacked into: batch-major,
/// position-major, channel-minor.
pub open spec fn scr_shape(p: ParamsConv1D) -> Seq<usize> {
    seq![p.b_size, p.l_in, p.c_in, 1usize]
}

/// Scratch cell `i` holds the input element for the batch, position and
/// channel that `i` decodes to.
pub open spec fn repacked_at<T: TensorType>(
    p: ParamsConv1D,
    inp: Seq<T>,
    inp_d: Dim,
    cont: Seq<T>,
    i: int,
) -> bool {
    cont[i] == inp[inp_off(
        inp_d,
        crate::layout::decode4(scr_shape(p), i)[0],
        crate::layout::decode4(scr_shape(p), i)[2],
        crate::layout::decode4(scr_shape(p), i)[1],
    )]
}

/// Computes a 1-D convolution over a strided input and kernel,
/// accumulating into `dst`, whose layout is `[b_size, c_out, l_out]`.
///
/// The input is first repacked into a contiguous batch-major,
/// position-major, channel-minor scratch buffer, so the inner dot product
/// runs over a contiguous channel run whatever the input's original
/// layout.  Then, for each output channel and each kernel tap in
/// ascending order, the tap's contribution is accumulated into that
/// channel's cells; output positions whose source position falls in the
/// implicit zero padding are skipped.  Each output cell is owned by
/// exactly one output channel, so channels touch disjoint cells.
#[verifier::loop_isolation(false)]
#[verifier::rlimit(100)]
pub fn conv1d<T: TensorType>(
    p: &ParamsConv1D,
    inp: &Vec<T>,
    inp_d: &Dim,
    k: &Vec<T>,
    k_d: &Dim,
    dst: &mut Vec<T>,
) -> (r: GResult<()>)
    requires
        p.valid(),
        forall|b: int, ci: int, l: int|
            0 <= b < p.b_size && 0 <= ci < p.c_in && 0 <= l < p.l_in ==> 0 <= #[trigger] inp_off(
                *inp_d,
                b,
                ci,
                l,
            ) < inp@.len(),
        forall|co: int, ci: int, off: int|
            0 <= co < p.c_out && 0 <= ci < p.c_in && 0 <= off < p.k_size ==> 0 <= #[trigger] k_off(
                *k_d,
                co,
                ci,
                off,
            ) < k@.len(),
        old(dst)@.len() == dst_len_spec(*p),
        p.b_size * (p.l_in * p.c_in) <= usize::MAX,
        p.b_size * p.l_in <= usize::MAX,
    ensures
        r matches Ok(()),
        final(dst)@.len() == old(dst)@.len(),
        forall|b: int, co: int, l: int|
            0 <= b < p.b_size && 0 <= co < p.c_out && 0 <= l < p.l_out_spec()
                ==> final(dst)@[#[trigger] didx(*p, b, co, l)] == conv_cell(
                *p,
                old(dst)@[didx(*p, b, co, l)],
                inp@,
                *inp_d,
                k@,
                *k_d,
                b,
                co,
                l,
                p.k_size as int,
            ),
{
    let inp_len = inp.len();
    let k_len = k.len();
    let dst_len = dst.len();
    let l_out = p.l_out();
    let (s0, s1, s2) = (inp_d.stride_0(), inp_d.stride_1(), inp_d.stride_2());
    let (k0, k1, k2) = (k_d.stride_0(), k_d.stride_1(), k_d.stride_2());
    let ghost scr = scr_shape(*p);
    let ghost dst0 = old(dst)@;

    // Repack the input: batch-major, position-major, channel-minor.
    let mut inp_cont: Vec<T> = Vec::new();
    let mut b_idx: usize = 0;
    while b_idx < p.b_size
        invariant
            b_idx <= p.b_size,
            inp_cont@.len() == b_idx * (p.l_in * p.c_in),
            forall|i: int|
                0 <= i < inp_cont@.len() ==> #[trigger] repacked_at(*p, inp@, *inp_d, inp_cont@, i),
        decreases p.b_size - b_idx,
    {
        let mut src_l: usize = 0;
        while src_l < p.l_in
            invariant
                src_l <= p.l_in,
                b_idx < p.b_size,
                inp_cont@.len() == b_idx * (p.l_in * p.c_in) + src_l * p.c_in,
                forall|i: int|
                    0 <= i < inp_cont@.len() ==> #[trigger] repacked_at(
                        *p,
                        inp@,
                        *inp_d,
                        inp_cont@,
                        i,
                    ),
            decreases p.l_in - src_l,
        {
            let mut src_c: usize = 0;
            while src_c < p.c_in
                invariant
                    src_c <= p.c_in,
                    src_l < p.l_in,
                    b_idx < p.b_size,
                    inp_cont@.len() == b_idx * (p.l_in * p.c_in) + src_l * p.c_in + src_c,
                    forall|i: int|
                        0 <= i < inp_cont@.len() ==> #[trigger] repacked_at(
                            *p,
                            inp@,
                            *inp_d,
                            inp_cont@,
                            i,
                        ),
                decreases p.c_in - src_c,
            {
                proof {
                    assert(0 <= inp_off(*inp_d, b_idx as int, src_c as int, src_l as int)
                        < inp@.len());
                    assert(b_idx * s0 >= 0 && src_c * s1 >= 0 && src_l * s2 >= 0)
                        by (nonlinear_arith);
                }
                let inp_idx = b_idx * s0 + src_c * s1 + src_l * s2;
                let v = inp[inp_idx];
                let ghost pre_cont = inp_cont@;
                inp_cont.push(v);
                proof {
                    let i = inp_cont@.len() - 1;
                    let idx4 = seq![b_idx as int, src_l as int, src_c as int, 0int];
                    assert(encode4(scr, idx4) == i) by (nonlinear_arith)
                        requires
                            encode4(scr, idx4) == ((b_idx * (p.l_in as int) + src_l) * (
                            p.c_in as int) + src_c) * 1 + 0,
                            i == b_idx * ((p.l_in as int) * p.c_in) + src_l * p.c_in + src_c,
                    ;
                    lemma_encode_decode_id(scr, idx4);
                    assert(repacked_at(*p, inp@, *inp_d, inp_cont@, i));
                    assert forall|i2: int| 0 <= i2 < inp_cont@.len() implies #[trigger] repacked_at(
                        *p,
                        inp@,
                        *inp_d,
                        inp_cont@,
                        i2,
                    ) by {
                        if i2 < i {
                            assert(repacked_at(*p, inp@, *inp_d, pre_cont, i2));
                            assert(inp_cont@[i2] == pre_cont[i2]);
                        }
                    }
                }
                src_c = src_c + 1;
            }
            src_l = src_l + 1;
            proof {
                assert(b_idx * ((p.l_in as int) * p.c_in) + (src_l - 1) * p.c_in + p.c_in == b_idx
                    * ((p.l_in as int) * p.c_in) + src_l * p.c_in) by (nonlinear_arith);
            }
        }
        b_idx = b_idx + 1;
        proof {
            assert((b_idx - 1) * ((p.l_in as int) * p.c_in) + (p.l_in as int) * p.c_in == b_idx * (
            (p.l_in as int) * p.c_in)) by (nonlinear_arith);
        }
    }

    // Accumulate each kernel tap into each output channel's cells, taps in
    // ascending order so every cell folds its contributions left to right.
    let mut dst_c: usize = 0;
    while dst_c < p.c_out
        invariant
            dst_c <= p.c_out,
            dst@.len() == dst0.len(),
            forall|b2: int, co2: int, l2: int|
                0 <= b2 < p.b_size && 0 <= co2 < p.c_out && 0 <= l2 < p.l_out_spec()
                    ==> dst@[#[trigger] didx(*p, b2, co2, l2)] == conv_cell(
                    *p,
                    dst0[didx(*p, b2, co2, l2)],
                    inp@,
                    *inp_d,
                    k@,
                    *k_d,
                    b2,
                    co2,
                    l2,
                    if co2 < dst_c {
                        p.k_size as int
                    } else {
                        0
                    },
                ),
        decreases p.c_out - dst_c,
    {
        let mut off: usize = 0;
        while off < p.k_size
            invariant
                off <= p.k_size,
                dst_c < p.c_out,
                dst@.len() == dst0.len(),
                forall|b2: int, co2: int, l2: int|
                    0 <= b2 < p.b_size && 0 <= co2 < p.c_out && 0 <= l2 < p.l_out_spec()
                        ==> dst@[#[trigger] didx(*p, b2, co2, l2)] == conv_cell(
                        *p,
                        dst0[didx(*p, b2, co2, l2)],
                        inp@,
                        *inp_d,
                        k@,
                        *k_d,
                        b2,
                        co2,
                        l2,
                        if co2 < dst_c {
                            p.k_size as int
                        } else if co2 == dst_c {
                            off as int
                        } else {
                            0
                        },
                    ),
            decreases p.k_size - off,
        {
            // This output channel's kernel weights for this tap.
            let mut k_cont: Vec<T> = Vec::new();
            let mut ci: usize = 0;
            while ci < p.c_in
                invariant
                    ci <= p.c_in,
                    dst_c < p.c_out,
                    off < p.k_size,
                    k_cont@.len() == ci,
                    forall|c2: int|
                        0 <= c2 < ci ==> #[trigger] k_cont@[c2] == k@[k_off(
                            *k_d,
                            dst_c as int,
                            c2,
                            off as int,
                        )],
                decreases p.c_in - ci,
            {
                proof {
                    assert(0 <= k_off(*k_d, dst_c as int, ci as int, off as int) < k@.len());
                    assert(dst_c * k0 >= 0 && ci * k1 >= 0 && off * k2 >= 0) by (nonlinear_arith);
                }
                k_cont.push(k[dst_c * k0 + ci * k1 + off * k2]);
                ci = ci + 1;
            }
            let mut b2_idx: usize = 0;
            while b2_idx < p.b_size
                invariant
                    b2_idx <= p.b_size,
                    dst@.len() == dst0.len(),
                    forall|b2: int, co2: int, l2: int|
                        0 <= b2 < p.b_size && 0 <= co2 < p.c_out && 0 <= l2 < p.l_out_spec()
                            ==> dst@[#[trigger] didx(*p, b2, co2, l2)] == conv_cell(
                            *p,
                            dst0[didx(*p, b2, co2, l2)],
                            inp@,
                            *inp_d,
                            k@,
                            *k_d,
                            b2,
                            co2,
                            l2,
                            if co2 < dst_c {
                                p.k_size as int
                            } else if co2 == dst_c && b2 < b2_idx {
                                off + 1
                            } else if co2 == dst_c {
                                off as int
                            } else {
                                0
                            },
                        ),
                decreases p.b_size - b2_idx,
            {
                let mut dst_l: usize = 0;
                while dst_l < l_out
                    invariant
                        dst_l <= l_out,
                        b2_idx < p.b_size,
                        dst@.len() == dst0.len(),
                        forall|b2: int, co2: int, l2: int|
                            0 <= b2 < p.b_size && 0 <= co2 < p.c_out && 0 <= l2 < p.l_out_spec()
                                ==> dst@[#[trigger] didx(*p, b2, co2, l2)] == conv_cell(
                                *p,
                                dst0[didx(*p, b2, co2, l2)],
                                inp@,
                                *inp_d,
                                k@,
                                *k_d,
                                b2,
                                co2,
                                l2,
                                if co2 < dst_c {
                                    p.k_size as int
                                } else if co2 == dst_c && (b2 < b2_idx || (b2 == b2_idx && l2
                                    < dst_l)) {
                                    off + 1
                                } else if co2 == dst_c {
                                    off as int
                                } else {
                                    0
                                },
                            ),
                    decreases l_out - dst_l,
                {
                    proof {
                        // The source position stays within the padded input.
                        let num = p.l_in + 2 * p.padding - p.dilation * (p.k_size - 1) - 1;
                        lemma_fundamental_div_mod(num as int, p.stride as int);
                        assert(p.stride * dst_l <= num) by (nonlinear_arith)
                            requires
                                dst_l < l_out,
                                l_out == num as int / (p.stride as int) + 1,
                                num == (p.stride as int) * (num as int / (p.stride as int)) + (
                                num as int % (p.stride as int)),
                                num as int % (p.stride as int) >= 0,
                                p.stride >= 1,
                        ;
                        assert(off * p.dilation <= p.dilation * (p.k_size - 1))
                            by (nonlinear_arith)
                            requires
                                0 <= off < p.k_size,
                                p.dilation >= 0,
                        ;
                    }
                    let src_l = p.stride * dst_l + off * p.dilation;
                    if src_l >= p.padding && src_l < p.padding + p.l_in {
                        let sl = src_l - p.padding;
                        proof {
                            assert((b2_idx * (p.l_in as int) + sl) * p.c_in + p.c_in <= p.b_size * (
                            (p.l_in as int) * p.c_in)) by (nonlinear_arith)
                                requires
                                    0 <= b2_idx < p.b_size,
                                    0 <= sl < p.l_in,
                                    p.c_in >= 0,
                            ;
                            assert(b2_idx * (p.l_in as int) + sl >= 0) by (nonlinear_arith)
                                requires
                                    b2_idx >= 0,
                                    sl >= 0,
                                    p.l_in >= 0,
                            ;
                            assert(b2_idx * (p.l_in as int) + sl <= p.b_size * (p.l_in as int))
                                by (nonlinear_arith)
                                requires
                                    0 <= b2_idx < p.b_size,
                                    0 <= sl < p.l_in,
                            ;
                            assert((b2_idx * (p.l_in as int) + sl) * p.c_in <= p.b_size * (
                            (p.l_in as int) * p.c_in)) by (nonlinear_arith)
                                requires
                                    0 <= b2_idx < p.b_size,
                                    0 <= sl < p.l_in,
                                    p.c_in >= 0,
                            ;
                        }
                        let base = (b2_idx * p.l_in + sl) * p.c_in;
                        let d = vec_dot(&inp_cont, base, &k_cont, p.c_in);
                        proof {
                            lemma_didx_bound(*p, b2_idx as int, dst_c as int, dst_l as int);
                            assert(((b2_idx * p.c_out + dst_c) * (l_out as int) + dst_l) == didx(
                                *p,
                                b2_idx as int,
                                dst_c as int,
                                dst_l as int,
                            )) by (nonlinear_arith)
                                requires
                                    l_out as int == p.l_out_spec(),
                                    didx(*p, b2_idx as int, dst_c as int, dst_l as int) == (b2_idx
                                        * p.c_out + dst_c) * p.l_out_spec() + dst_l,
                            ;
                            assert((b2_idx * p.c_out + dst_c) * (l_out as int) >= 0)
                                by (nonlinear_arith)
                                requires
                                    b2_idx >= 0,
                                    dst_c >= 0,
                                    p.c_out >= 0,
                                    l_out >= 0,
                            ;
                            assert(b2_idx * p.c_out + dst_c < p.b_size * p.c_out)
                                by (nonlinear_arith)
                                requires
                                    0 <= b2_idx < p.b_size,
                                    0 <= dst_c < p.c_out,
                            ;
                            assert(p.b_size * p.c_out <= dst_len_spec(*p)) by (nonlinear_arith)
                                requires
                                    dst_len_spec(*p) == p.b_size * (p.c_out * p.l_out_spec()),
                                    p.l_out_spec() >= 1,
                                    p.b_size >= 0,
                                    p.c_out >= 0,
                            ;
                            assert((b2_idx * p.c_out + dst_c) * (l_out as int) + dst_l
                                < dst_len_spec(*p));
                        }
                        let di = (b2_idx * p.c_out + dst_c) * l_out + dst_l;
                        let cur = dst[di];
                        let v = cur.add(d);
                        let ghost pre = dst@;
                        dst[di] = v;
                        proof {
                            let b2 = b2_idx as int;
                            let co2 = dst_c as int;
                            let l2 = dst_l as int;
                            // The dot product's operands are exactly the
                            // specification's channel vectors.
                            assert(inp_cont@.subrange(base as int, base + p.c_in) =~= inp_row(
                                inp@,
                                *inp_d,
                                p.c_in as int,
                                b2,
                                sl as int,
                            )) by {
                                assert forall|c2: int| 0 <= c2 < p.c_in implies inp_cont@.subrange(
                                    base as int,
                                    base + p.c_in,
                                )[c2] == inp@[inp_off(*inp_d, b2, c2, sl as int)] by {
                                    let i = base + c2;
                                    let idx4 = seq![b2, sl as int, c2, 0int];
                                    assert(encode4(scr, idx4) == i) by (nonlinear_arith)
                                        requires
                                            encode4(scr, idx4) == ((b2 * (p.l_in as int)
                                                + sl as int) * (p.c_in as int) + c2) * 1 + 0,
                                            i == (b2 * (p.l_in as int) + sl as int) * (
                                            p.c_in as int) + c2,
                                    ;
                                    lemma_encode_decode_id(scr, idx4);
                                    assert(repacked_at(*p, inp@, *inp_d, inp_cont@, i));
                                }
                            }
                            assert(k_cont@.take(p.c_in as int) =~= k_row(
                                k@,
                                *k_d,
                                p.c_in as int,
                                co2,
                                off as int,
                            ));
                            // The written cell folds this tap onto its value.
                            assert(dst@[didx(*p, b2, co2, l2)] == conv_cell(
                                *p,
                                dst0[didx(*p, b2, co2, l2)],
                                inp@,
                                *inp_d,
                                k@,
                                *k_d,
                                b2,
                                co2,
                                l2,
                                off + 1,
                            ));
                            // Every other cell is untouched.
                            assert forall|b3: int, co3: int, l3: int|
                                0 <= b3 < p.b_size && 0 <= co3 < p.c_out && 0 <= l3
                                    < p.l_out_spec() && !(b3 == b2 && co3 == co2 && l3 == l2)
                                implies dst@[#[trigger] didx(*p, b3, co3, l3)] == pre[didx(
                                *p,
                                b3,
                                co3,
                                l3,
                            )] by {
                                lemma_didx_inj(*p, b3, co3, l3, b2, co2, l2);
                                lemma_didx_bound(*p, b3, co3, l3);
                            }
                        }
                    } else {
                        proof {
                            assert forall|b3: int, co3: int, l3: int|
                                b3 == b2_idx as int && co3 == dst_c as int && l3 == dst_l as int
                                implies conv_cell(
                                *p,
                                dst0[didx(*p, b3, co3, l3)],
                                inp@,
                                *inp_d,
                                k@,
                                *k_d,
                                b3,
                                co3,
                                l3,
                                off + 1,
                            ) == conv_cell(
                                *p,
                                dst0[didx(*p, b3, co3, l3)],
                                inp@,
                                *inp_d,
                                k@,
                                *k_d,
                                b3,
                                co3,
                                l3,
                                off as int,
                            ) by {}
                        }
                    }
                    dst_l = dst_l + 1;
                }
                b2_idx = b2_idx + 1;
            }
            off = off + 1;
        }
        dst_c = dst_c + 1;
    }
    Ok(())
}

/// Placeholder entry point for a single-stride convolution between
/// tensors; it performs no work and leaves the destination unchanged.
pub fn conv_1d_1s<T: TensorType>(a: &Tensor<T>, b: Tensor<T>, dst: &mut Tensor<T>) -> (r: GResult<
    (),
>)
    ensures
        r matches Ok(()),
        *final(dst) == *old(dst),
{
    let _ = a;
    let _ = b;
    Ok(())
}

} // verus!
