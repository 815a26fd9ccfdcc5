use gtensor::{arr, eq_with, map2, map2_ref, mat};

#[test]
fn test_add() {
    let m1 = mat(&[
        [0.0, 0.0, 0.0],
        [1.0, 1.0, 1.0],
        [2.0, 2.0, 2.0],
        [3.0, 3.0, 3.0],
    ]);
    println!("m1 dim:{:?}", m1.dim);
    println!("m1 {:?}", m1);
    println!("m1 stride:{:?}", m1.dim.stride);
    let m2 = arr(&[1.0, 2.0, 3.0]);

    let m3 = map2(m1, &m2, |a: f64, b: f64| a + b).unwrap();
    println!("m3:{:?}", m3);
}

#[test]
fn test_sub() {
    let m1 = mat(&[
        [0.0, 0.0, 0.0],
        [1.0, 1.0, 1.0],
        [2.0, 2.0, 2.0],
        [3.0, 3.0, 3.0],
    ]);
    println!("m1 dim:{:?}", m1.dim);
    println!("m1 {:?}", m1.as_slice());
    println!("m1 stride:{:?}", m1.dim.stride);
    let m2 = arr(&[1.0, 2.0, 3.0]);

    let m3 = map2_ref(&m1, &m2, |a: f64, b: f64| a - b).unwrap();
    println!("m3:{:?}", m3);
}

#[test]
fn test_mul() {
    let m1 = mat(&[
        [0.0, 0.0, 0.0],
        [1.0, 1.0, 1.0],
        [2.0, 2.0, 2.0],
        [3.0, 3.0, 3.0],
    ]);
    println!("m1 dim:{:?}", m1.dim);
    println!("m1 {:?}", m1);
    println!("m1 stride:{:?}", m1.dim.stride);
    let m2 = arr(&[1.0, 2.0, 3.0]);

    let m3 = map2(m1, &m2, |a: f64, b: f64| a * b).unwrap();
    println!("m3:{:?}", m3);
}

#[test]
fn test_div() {
    let m1 = mat(&[
        [0.0, 0.0, 0.0],
        [1.0, 1.0, 1.0],
        [2.0, 2.0, 2.0],
        [3.0, 3.0, 3.0],
    ]);
    println!("m1 dim:{:?}", m1.dim);
    println!("m1 {:?}", m1);
    println!("m1 stride:{:?}", m1.dim.stride);
    let m2 = arr(&[1.0, 2.0, 3.0]);

    let m3 = map2(m1, &m2, |a: f64, b: f64| a / b).unwrap();
    println!("m3:{:?}", m3);
}

#[test]
fn test_rem() {
    let m1 = mat(&[
        [0.0, 0.0, 0.0],
        [1.0, 1.0, 1.0],
        [2.0, 2.0, 2.0],
        [3.0, 3.0, 3.0],
    ]);
    println!("m1 dim:{:?}", m1.dim);
    println!("m1 {:?}", m1);
    println!("m1 stride:{:?}", m1.dim.stride);
    let m2 = arr(&[1.0, 2.0, 3.0]);

    let m3 = map2(m1, &m2, |a: f64, b: f64| a % b).unwrap();
    println!("m3:{:?}", m3);
}

#[test]
fn test_eq() {
    let m1 = mat(&[
        [0.0, 0.0, 0.0],
        [1.0, 1.0, 1.0],
        [2.0, 2.0, 2.0],
        [3.0, 3.0, 3.0],
    ]);
    let m2 = mat(&[
        [0.0, 0.0, 0.0],
        [1.0, 1.0, 1.0],
        [2.0, 2.0, 2.0],
        [3.0, 3.0, 3.0],
    ]);
    let m3 = arr(&[1.0, 2.0, 3.0]);

    println!("{}", eq_with(&m1, &m2, |a: f64, b: f64| a == b));
    println!("{}", eq_with(&m2, &m3, |a: f64, b: f64| a == b));
}
