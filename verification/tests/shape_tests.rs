use gtensor::{Dim, Shape};

#[test]
fn test_tensor_transpose() {
    let d = [4usize, 3, 2, 1];
    let _t = d.iter();
}

#[test]
fn test_dyn_dim_select_axis() {
    let d = Shape::from_vec(vec![4usize, 3, 2, 2]).unwrap();
    let s = d.stride_contiguous();
    println!("s:{:?}", s);
}

#[test]
fn test_shape_iter() {
    let d = Shape::from_vec(vec![3, 2]).unwrap();
    let strides = d.ggml_stride(1);
    println!("strides:{:?}", strides);
    println!("old strides:{:?}", d.nd_stride(2));

    let dim = Dim { n_dims: 2, shape: d, stride: [0usize; 4] };
    println!("nd strides:{:?}", dim.nd_stride());
}
