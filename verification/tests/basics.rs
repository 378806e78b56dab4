use matrix_engine::{Matrix, Scalar};

fn cells(values: &[f64]) -> Vec<Scalar> {
    values.iter().map(|v| Scalar::from_bits(v.to_bits())).collect()
}

#[test]
fn test_echelon_form() {
    let mut m = Matrix::new(4, 4);
    let init = cells(&[
        1.0, 0.0, 0.0, 0.0, 0.0, 1.0, 0.0, 0.0, 0.0, 0.0, 1.0, 0.0, 0.0, 0.0, 0.0, 1.0,
    ]);
    m.load_from_vector(init);
    let s = "4 4 1 0 0 0 0 1 0 0 0 0 1 0 0 0 0 1".to_owned();
    let x = Matrix::create_from_string(&s).unwrap();
    m.echelon_form();
    assert_eq!(m, x);
}

#[test]
fn test_identity() {
    let mut m = Matrix::new(4, 4);
    let init = cells(&[
        1.0, 0.0, 0.0, 0.0, 0.0, 1.0, 0.0, 0.0, 0.0, 0.0, 1.0, 0.0, 0.0, 0.0, 0.0, 1.0,
    ]);
    m.load_from_vector(init);
    assert_eq!(m, Matrix::identity(4));
}

#[test]
fn test_deteminant() {
    let mut m = Matrix::new(4, 4);
    let init = cells(&[
        1.0, 0.0, 0.0, 0.0, 0.0, 1.0, 0.0, 0.0, 0.0, 0.0, 1.0, 0.0, 0.0, 0.0, 0.0, 1.0,
    ]);
    m.load_from_vector(init);
    assert_eq!(m.determinant(), Option::Some(Scalar::from_bits(1.0f64.to_bits())));
    assert_eq!(m.cofactor_determinant(), Option::Some(Scalar::from_bits(1.0f64.to_bits())));
}

#[test]
fn test_deteminant_fail() {
    let mut m = Matrix::new(2, 2);
    let init = cells(&[1.0, 1.0, 1.0, 1.0]);
    m.load_from_vector(init);
    assert_eq!(m.determinant(), Option::Some(Scalar::from_bits(0.0f64.to_bits())));
    assert_eq!(m.cofactor_determinant(), Option::Some(Scalar::from_bits(0.0f64.to_bits())));
}

#[test]
fn test_inverse() {
    let mut m = Matrix::new(4, 4);
    let init = cells(&[
        -1.0, 0.0, 0.0, 0.0, 0.0, -1.0, 0.0, 0.0, 0.0, 0.0, -1.0, 0.0, 0.0, 0.0, 0.0, -1.0,
    ]);
    m.load_from_vector(init);
    let mut i = Matrix::new(4, 4);
    let init = cells(&[
        -1.0, 0.0, 0.0, 0.0, 0.0, -1.0, 0.0, 0.0, 0.0, 0.0, -1.0, 0.0, 0.0, 0.0, 0.0, -1.0,
    ]);
    i.load_from_vector(init);
    assert_eq!(m.inverse(), Option::Some(i));
}
