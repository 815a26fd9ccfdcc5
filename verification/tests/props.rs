use gtensor::{
    arr, compute_stride_offset, conv1d, conv_1d_1s, dims2, dims4, eq_with, map2, map2_ref, mat,
    resolve_broadcast, select_axis, vec_dot, Axis, Dim, GError, ParamsConv1D, Shape,
    StridedBlocks, Tensor,
};

fn canonical_dim(dims: Vec<usize>) -> Dim {
    let shape = Shape::from_vec(dims.clone()).unwrap();
    let stride = shape.nd_stride(dims.len());
    Dim { n_dims: dims.len(), shape, stride }
}

#[test]
fn broadcast_resolves_compatible_shapes() {
    let a = Shape::from_vec(vec![4, 3]).unwrap();
    let b = Shape::from_vec(vec![3]).unwrap();
    let r = resolve_broadcast(&a, 2, &b, 1).unwrap();
    assert_eq!(*r.layout(), [4, 3, 1, 1]);

    let c = Shape::from_vec(vec![1, 5]).unwrap();
    let d = Shape::from_vec(vec![6, 1]).unwrap();
    let r2 = resolve_broadcast(&c, 2, &d, 2).unwrap();
    assert_eq!(*r2.layout(), [6, 5, 1, 1]);
}

#[test]
fn broadcast_rejects_incompatible_shapes() {
    let a = Shape::from_vec(vec![4, 3]).unwrap();
    let b = Shape::from_vec(vec![2]).unwrap();
    let r = resolve_broadcast(&a, 2, &b, 1);
    assert!(matches!(r, Err(GError::IncompatibleShape)));
}

#[test]
fn broadcast_is_symmetric() {
    let a = Shape::from_vec(vec![4, 1, 2]).unwrap();
    let b = Shape::from_vec(vec![5, 2]).unwrap();
    let ab = resolve_broadcast(&a, 3, &b, 2).unwrap();
    let ba = resolve_broadcast(&b, 2, &a, 3).unwrap();
    assert_eq!(*ab.layout(), *ba.layout());

    let c = Shape::from_vec(vec![3]).unwrap();
    assert!(resolve_broadcast(&a, 3, &c, 1).is_err());
    assert!(resolve_broadcast(&c, 1, &a, 3).is_err());
}

#[test]
fn contiguous_dim_is_a_single_block() {
    let d = canonical_dim(vec![4, 3, 2]);
    assert!(d.is_contiguous());
    let count = d.elem_count();
    match d.strided_blocks() {
        StridedBlocks::SingleBlock { start_offset, len } => {
            assert_eq!(start_offset, 0);
            assert_eq!(len, count);
        },
        StridedBlocks::MultipleBlocks { .. } => panic!("contiguous layout split into blocks"),
    }
}

#[test]
fn transposed_dim_is_permuted_and_blocked() {
    let d = canonical_dim(vec![4, 3]);
    assert!(!d.is_permuted());
    assert!(d.is_contiguous());
    let t = d.transpose(0, 1).unwrap();
    assert!(t.is_permuted());
    assert!(!t.is_contiguous());
    // The source layout is untouched.
    assert_eq!(*d.shape_layout(), [4, 3, 1, 1]);
    assert_eq!(*d.stride_layout(), [3, 1, 0, 0]);

    match t.strided_blocks() {
        StridedBlocks::SingleBlock { .. } => panic!("transposed layout treated as contiguous"),
        StridedBlocks::MultipleBlocks { mut block_start_index, block_len } => {
            // No trailing axis matches the running block length, so each
            // element is its own block, walked in the transposed order.
            assert_eq!(block_len, 1);
            let mut offsets = Vec::new();
            while let Some(off) = block_start_index.next() {
                offsets.push(off);
            }
            assert_eq!(offsets, vec![0, 3, 6, 9, 1, 4, 7, 10, 2, 5, 8, 11]);
        },
    }
}

#[test]
fn broadcast_add_of_rows() {
    let m1 = mat(&[
        [0.0, 0.0, 0.0],
        [1.0, 1.0, 1.0],
        [2.0, 2.0, 2.0],
        [3.0, 3.0, 3.0],
    ]);
    let m2 = arr(&[1.0, 2.0, 3.0]);
    let m3 = map2(m1, &m2, |a: f64, b: f64| a + b).unwrap();
    assert_eq!(
        m3.as_slice(),
        &[1.0, 2.0, 3.0, 2.0, 3.0, 4.0, 3.0, 4.0, 5.0, 4.0, 5.0, 6.0]
    );
    assert_eq!(*m3.dim().shape_layout(), [4, 3, 1, 1]);
    assert_eq!(m3.dim().n_dims(), 2);
}

#[test]
fn broadcast_add_stretches_both_operands() {
    let col = Tensor::from_vec(vec![10.0, 20.0], vec![2, 1]).unwrap();
    let row = Tensor::from_vec(vec![1.0, 2.0, 3.0], vec![1, 3]).unwrap();
    let sum = map2_ref(&col, &row, |a: f64, b: f64| a + b).unwrap();
    assert_eq!(sum.as_slice(), &[11.0, 12.0, 13.0, 21.0, 22.0, 23.0]);
}

#[test]
fn equality_is_false_for_different_element_counts() {
    let m1 = mat(&[
        [0.0, 0.0, 0.0],
        [1.0, 1.0, 1.0],
        [2.0, 2.0, 2.0],
        [3.0, 3.0, 3.0],
    ]);
    let m3 = arr(&[1.0, 2.0, 3.0]);
    assert!(!eq_with(&m1, &m3, |a: f64, b: f64| a == b));

    let m2 = mat(&[
        [0.0, 0.0, 0.0],
        [1.0, 1.0, 1.0],
        [2.0, 2.0, 2.0],
        [3.0, 3.0, 3.0],
    ]);
    assert!(eq_with(&m1, &m2, |a: f64, b: f64| a == b));

    let m4 = mat(&[
        [0.0, 0.0, 0.0],
        [1.0, 1.0, 1.0],
        [2.0, 2.0, 2.0],
        [3.0, 3.0, 4.0],
    ]);
    assert!(!eq_with(&m1, &m4, |a: f64, b: f64| a == b));
}

#[test]
fn conv_output_length() {
    let p = ParamsConv1D {
        b_size: 1,
        l_in: 5,
        c_out: 1,
        c_in: 1,
        k_size: 3,
        padding: 1,
        stride: 1,
        dilation: 1,
    };
    assert_eq!(p.l_out(), 5);
    assert_eq!(p.out_dims(), vec![1, 1, 5]);

    let p0 = ParamsConv1D { padding: 0, ..p };
    assert_eq!(p0.l_out(), 3);
    assert_eq!(p0.out_dims(), vec![1, 1, 3]);
}

#[test]
fn conv_accumulates_dot_products() {
    let p = ParamsConv1D {
        b_size: 1,
        l_in: 5,
        c_out: 1,
        c_in: 1,
        k_size: 3,
        padding: 1,
        stride: 1,
        dilation: 1,
    };
    let inp = Tensor::from_vec(vec![1i64, 2, 3, 4, 5], vec![1, 1, 5]).unwrap();
    let k = Tensor::from_vec(vec![1i64, 1, 1], vec![1, 1, 3]).unwrap();
    let mut dst: Vec<i64> = vec![0; 5];
    conv1d(&p, &inp.data, &inp.dim, &k.data, &k.dim, &mut dst).unwrap();
    assert_eq!(dst, vec![3, 6, 9, 12, 9]);
}

#[test]
fn conv_with_channels_and_batches() {
    // Two input channels, two output channels, no padding.
    let p = ParamsConv1D {
        b_size: 1,
        l_in: 3,
        c_out: 2,
        c_in: 2,
        k_size: 2,
        padding: 0,
        stride: 1,
        dilation: 1,
    };
    assert_eq!(p.l_out(), 2);
    // Input layout [b, c_in, l]: channel 0 = [1,2,3], channel 1 = [10,20,30].
    let inp = Tensor::from_vec(vec![1i64, 2, 3, 10, 20, 30], vec![1, 2, 3]).unwrap();
    // Kernel layout [c_out, c_in, k]: out channel 0 taps both input
    // channels with weight 1; out channel 1 weights channel 1 only.
    let k = Tensor::from_vec(vec![1i64, 1, 1, 1, 0, 0, 1, 1], vec![2, 2, 2]).unwrap();
    let mut dst: Vec<i64> = vec![0; 4];
    conv1d(&p, &inp.data, &inp.dim, &k.data, &k.dim, &mut dst).unwrap();
    // Out channel 0: (1+10) + (2+20), (2+20) + (3+30).
    // Out channel 1: 10 + 20, 20 + 30.
    assert_eq!(dst, vec![33, 55, 30, 50]);
}

#[test]
fn conv_entry_point_reports_ok() {
    let a = Tensor::from_vec(vec![1i64, 2], vec![2]).unwrap();
    let b = Tensor::from_vec(vec![3i64], vec![1]).unwrap();
    let mut dst = Tensor::from_vec(vec![0i64, 0], vec![2]).unwrap();
    assert!(conv_1d_1s(&a, b, &mut dst).is_ok());
    assert_eq!(dst.as_slice(), &[0, 0]);
}

#[test]
fn dot_product_of_runs() {
    let a = vec![7i64, 1, 2, 3];
    let b = vec![4i64, 5, 6];
    assert_eq!(vec_dot(&a, 1, &b, 3), 32);
    assert_eq!(vec_dot(&a, 0, &b, 0), 0);
}

#[test]
fn narrow_checks_its_arguments() {
    let d = canonical_dim(vec![4, 3]);
    // In-range narrowing shrinks one axis and keeps the strides.
    let n = d.narrow(0, 1, 2).unwrap();
    assert_eq!(*n.shape_layout(), [2, 3, 1, 1]);
    assert_eq!(*n.stride_layout(), *d.stride_layout());

    // A sub-range past the end of the axis is rejected and the source is
    // left unmodified.
    let e = d.narrow(1, 2, 2);
    assert!(matches!(
        e,
        Err(GError::NarrowInvalidArgs { dim: 1, start: 2, len: 2, .. })
    ));
    assert_eq!(*d.shape_layout(), [4, 3, 1, 1]);

    let e2 = d.narrow(2, 0, 1);
    assert!(matches!(e2, Err(GError::DimOutOfRange { dim: 2, .. })));
}

#[test]
fn transpose_checks_its_axes() {
    let d = canonical_dim(vec![4, 3]);
    let e = d.transpose(0, 2);
    assert!(matches!(
        e,
        Err(GError::UnexpectedNumberOfDims { expected: 2, got: 2 })
    ));
    let t = d.transpose(1, 0).unwrap();
    assert_eq!(*t.shape_layout(), [3, 4, 1, 1]);
    assert_eq!(*t.stride_layout(), [1, 3, 0, 0]);
}

#[test]
fn shape_rejects_excess_rank() {
    let r = Shape::from_vec(vec![1, 2, 3, 4, 5]);
    assert!(matches!(
        r,
        Err(GError::UnexpectedNumberOfDims { expected: 4, got: 5 })
    ));
}

#[test]
fn shape_accessors_and_axes() {
    let s = Shape::from_vec(vec![4, 3, 2]).unwrap();
    assert_eq!(s.dims4(), (4, 3, 2, 1));
    assert_eq!(s.dims3(), (4, 3, 2));
    assert_eq!(s.dims2(), (4, 3));
    assert_eq!(s.dims1(), 4);
    assert_eq!(s.elem_count(), 24);
    assert_eq!(s.size(), 24);
    assert_eq!(s.dim(), 4);
    assert_eq!(dims2(&[9usize, 8]), (9, 8));
    assert_eq!(dims4(&[9usize, 8, 7, 6]), (9, 8, 7, 6));

    let axis = Axis(1);
    assert_eq!(axis.index(), 1);
    let cut = s.select_axis(axis);
    assert_eq!(*cut.layout(), [4, 2, 1, 1]);
    assert_eq!(select_axis(&[4, 3, 2, 1], Axis(0)), [3, 2, 1, 1]);

    assert!(Shape::from_vec(vec![4, 3]).unwrap() == Shape::from_vec(vec![4, 3]).unwrap());
    assert!(Shape::from_vec(vec![4, 3]).unwrap() != Shape::from_vec(vec![3, 4]).unwrap());
}

#[test]
fn dim_accessors() {
    let d = canonical_dim(vec![4, 3, 2]);
    assert_eq!(d.n_dims(), 3);
    assert_eq!(d.shape(), vec![4, 3, 2]);
    assert_eq!(d.stride(), vec![6, 2, 1]);
    assert_eq!(d.dim4(), (4, 3, 2, 1));
    assert_eq!(d.dim3(), (4, 3, 2));
    assert_eq!(d.dim2(), (4, 3));
    assert_eq!(d.dim1(), 4);
    assert_eq!((d.dim_0(), d.dim_1(), d.dim_2(), d.dim_3()), (4, 3, 2, 1));
    assert_eq!(d.stride_4d(), (6, 2, 1, 0));
    assert_eq!(d.stride_3d(), (6, 2, 1));
    assert_eq!(d.stride_2d(), (6, 2));
    assert_eq!(d.stride_1d(), 6);
    assert_eq!((d.stride_0(), d.stride_1(), d.stride_2(), d.stride_3()), (6, 2, 1, 0));
    assert_eq!(d.nrows(), 6);
    assert_eq!(d.elem_count(), 24);
    assert!(!d.is_vector());
    assert!(!d.is_scalar());
    let v = canonical_dim(vec![5]);
    assert!(v.is_vector());
    let sc = canonical_dim(vec![1]);
    assert!(sc.is_scalar());

    let mut d2 = canonical_dim(vec![4, 3, 2]);
    d2.ret_stride([9, 9, 9, 9]);
    assert_eq!(*d2.stride_layout(), [9, 9, 9, 9]);
}

#[test]
fn odometer_walks_row_major() {
    let s = Shape::from_vec(vec![2, 3]).unwrap();
    let mut it = s.iter(2);
    let mut seen = Vec::new();
    while let Some(ix) = it.next(2) {
        let l = *ix.layout();
        seen.push((l[0], l[1]));
    }
    assert_eq!(
        seen,
        vec![(0, 0), (0, 1), (0, 2), (1, 0), (1, 1), (1, 2)]
    );
}

#[test]
fn stride_offsets_accumulate() {
    assert_eq!(compute_stride_offset(3, 5), 15);
    assert_eq!(Shape::stride_offset(&[1, 2], &[6, 2, 1]), 10);
}

#[test]
fn empty_axes_broadcast_to_empty() {
    let empty = Tensor::from_vec(Vec::<f64>::new(), vec![0]).unwrap();
    let one = Tensor::from_vec(vec![5.0], vec![1]).unwrap();
    let out = map2_ref(&empty, &one, |a: f64, b: f64| a + b).unwrap();
    assert_eq!(out.as_slice().len(), 0);
    assert_eq!(*out.dim().shape_layout(), [0, 1, 1, 1]);
}

#[test]
fn same_shape_add_runs_in_place() {
    let a = Tensor::from_vec(vec![1.0, 2.0, 3.0, 4.0], vec![2, 2]).unwrap();
    let b = Tensor::from_vec(vec![10.0, 20.0, 30.0, 40.0], vec![2, 2]).unwrap();
    let c = map2(a, &b, |x: f64, y: f64| x + y).unwrap();
    assert_eq!(c.as_slice(), &[11.0, 22.0, 33.0, 44.0]);
}
