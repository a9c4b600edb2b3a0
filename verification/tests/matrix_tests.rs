use raytracer::Matrix;
use raytracer::MatrixError;
use raytracer::Scalar;
use raytracer::SCALE;
use raytracer::feq;

fn s(x: f64) -> Scalar {
    Scalar::from_raw((x * SCALE as f64).round() as i64)
}

fn mat(rows: &[&[f64]]) -> Matrix {
    Matrix::with_values(
        rows.iter().map(|row| row.iter().map(|&v| s(v)).collect()).collect(),
    )
}

#[test]
fn default_matrix() {
    let m = Matrix::new(4, 3);
    assert_eq!(m.height, 4);
    assert_eq!(m.width, 3);

    let mut count = 0;
    let mut iter = m.iter();
    while let Some((y, x)) = iter.next() {
        count += 1;
        assert_eq!(m.at(y, x), s(0.0));
    }
    assert_eq!(count, 12);
}

#[test]
fn indexing1() {
    let m = mat(&[
        &[1.0, 2.0, 3.0, 4.0],
        &[5.5, 6.5, 7.5, 8.5],
        &[9.0, 10.0, 11.0, 12.0],
        &[13.5, 14.5, 15.5, 16.5],
    ]);

    assert_eq!(m.at(0, 0), s(1.0));
    assert_eq!(m.at(0, 3), s(4.0));
    assert_eq!(m.at(1, 0), s(5.5));
    assert_eq!(m.at(1, 2), s(7.5));
    assert_eq!(m.at(2, 2), s(11.0));
    assert_eq!(m.at(3, 0), s(13.5));
    assert_eq!(m.at(3, 2), s(15.5));
}

#[test]
fn indexing2() {
    let m = mat(&[&[-3.0, 5.0], &[1.0, -2.0]]);

    assert_eq!(m.at(0, 0), s(-3.0));
    assert_eq!(m.at(0, 1), s(5.0));
    assert_eq!(m.at(1, 0), s(1.0));
    assert_eq!(m.at(1, 1), s(-2.0));
}

#[test]
fn indexing3() {
    let m = mat(&[&[-3.0, 5.0, 0.0], &[1.0, -2.0, -7.0], &[0.0, 1.0, 1.0]]);

    assert_eq!(m.at(0, 0), s(-3.0));
    assert_eq!(m.at(1, 1), s(-2.0));
    assert_eq!(m.at(2, 2), s(1.0));
}

#[test]
fn equivalence() {
    let m = mat(&[&[1.0, 2.0], &[3.0, 4.0]]);
    assert_eq!(m, m);

    let m2 = mat(&[&[1.0, 2.0], &[3.0, 4.0]]);
    assert_eq!(m, m2);

    let m3 = mat(&[&[1.0], &[2.0]]);
    assert_ne!(m, m3);

    let m4 = mat(&[&[1.0, 2.0], &[3.0, 10.0]]);
    assert_ne!(m, m4);
}

#[test]
fn multiplication4x4() {
    let m1 = mat(&[
        &[1.0, 2.0, 3.0, 4.0],
        &[5.0, 6.0, 7.0, 8.0],
        &[9.0, 8.0, 7.0, 6.0],
        &[5.0, 4.0, 3.0, 2.0],
    ]);
    let m2 = mat(&[
        &[-2.0, 1.0, 2.0, 3.0],
        &[3.0, 2.0, 1.0, -1.0],
        &[4.0, 3.0, 6.0, 5.0],
        &[1.0, 2.0, 7.0, 8.0],
    ]);
    let expected = mat(&[
        &[20.0, 22.0, 50.0, 48.0],
        &[44.0, 54.0, 114.0, 108.0],
        &[40.0, 58.0, 110.0, 102.0],
        &[16.0, 26.0, 46.0, 42.0],
    ]);
    assert_eq!(Ok(expected.clone()), m1.mul(&m2));

    let r = Ok(m1.clone()).and_then(|a: Matrix| a.mul(&m2));
    assert_eq!(Ok(expected.clone()), r);

    let r = Ok(m2.clone()).and_then(|b: Matrix| m1.mul(&b));
    assert_eq!(Ok(expected.clone()), r);
}

#[test]
fn multiplication_wrong_sizes() {
    let m1 = mat(&[&[1.0, 2.0], &[3.0, 4.0]]);
    let m2 = mat(&[&[1.0, 2.0, 3.0]]);
    assert!(m1.mul(&m2).is_err());
    assert_eq!(Err(MatrixError::DimensionMismatch), m1.mul(&m2));
}

#[test]
fn multiplication_tuple() {
    let m1 = mat(&[
        &[1.0, 2.0, 3.0, 4.0],
        &[2.0, 4.0, 4.0, 2.0],
        &[8.0, 6.0, 4.0, 1.0],
        &[0.0, 0.0, 0.0, 1.0],
    ]);
    let tuple = mat(&[&[1.0], &[2.0], &[3.0], &[1.0]]);
    assert_eq!(4, tuple.height);
    assert_eq!(1, tuple.width);

    let expected = mat(&[&[18.0], &[24.0], &[33.0], &[1.0]]);
    assert_eq!(Ok(expected), m1.mul(&tuple));
}

#[test]
fn identity() {
    let m = mat(&[
        &[1.0, 2.0, 3.0, 4.0],
        &[2.0, 4.0, 4.0, 2.0],
        &[8.0, 6.0, 4.0, 1.0],
        &[0.0, 0.0, 0.0, 1.0],
    ]);
    let expected = mat(&[
        &[1.0, 0.0, 0.0, 0.0],
        &[0.0, 1.0, 0.0, 0.0],
        &[0.0, 0.0, 1.0, 0.0],
        &[0.0, 0.0, 0.0, 1.0],
    ]);
    assert_eq!(expected, m.identity());
}

#[test]
fn identity_of_non_square_matrix() {
    let id = Matrix::new(3, 2).identity();
    assert_eq!(id.at(0, 0), s(1.0));
    assert_eq!(id.at(1, 1), s(1.0));
    assert_eq!(id.at(0, 1), s(0.0));
    assert_eq!(id.at(1, 0), s(0.0));
    assert_eq!(id.at(2, 0), s(0.0));
    assert_eq!(id.at(2, 1), s(0.0));
}

#[test]
fn identity_inverse() {
    let m = Matrix::new_identity(4, 4);
    assert_eq!(Ok(s(1.0)), m.determinate());
    let inverse = m.inverse();
    assert_eq!(Ok(m), inverse);
}

#[test]
fn transpose() {
    let m = mat(&[
        &[0.0, 9.0, 3.0, 0.0],
        &[9.0, 8.0, 0.0, 8.0],
        &[1.0, 8.0, 5.0, 3.0],
        &[0.0, 0.0, 5.0, 8.0],
    ]);
    let expected = mat(&[
        &[0.0, 9.0, 1.0, 0.0],
        &[9.0, 8.0, 8.0, 0.0],
        &[3.0, 0.0, 5.0, 5.0],
        &[0.0, 8.0, 3.0, 8.0],
    ]);
    assert_eq!(expected, m.transpose());
}

#[test]
fn transpose_twice_returns_the_matrix() {
    let m = mat(&[&[1.5, -2.0, 3.25], &[0.0, 7.0, -8.5]]);
    assert_eq!(m, m.transpose().transpose());
    assert_eq!(m.transpose().transpose().dimensions(), (2, 3));
}

#[test]
fn determinate2x2() {
    let m = mat(&[&[1.0, 5.0], &[-3.0, 2.0]]);
    assert_eq!(Ok(s(17.0)), m.determinate());
}

#[test]
fn determinate3x3() {
    let a = mat(&[&[1.0, 2.0, 6.0], &[-5.0, 8.0, -4.0], &[2.0, 6.0, 4.0]]);
    assert_eq!(Ok(s(56.0)), a.cofactor(0, 0));
    assert_eq!(Ok(s(12.0)), a.cofactor(0, 1));
    assert_eq!(Ok(s(-46.0)), a.cofactor(0, 2));
    assert_eq!(Ok(s(-196.0)), a.determinate());
}

#[test]
fn determinate4x4() {
    let a = mat(&[
        &[-2.0, -8.0, 3.0, 5.0],
        &[-3.0, 1.0, 7.0, 3.0],
        &[1.0, 2.0, -9.0, 6.0],
        &[-6.0, 7.0, 7.0, -9.0],
    ]);
    assert_eq!(Ok(s(690.0)), a.cofactor(0, 0));
    assert_eq!(Ok(s(447.0)), a.cofactor(0, 1));
    assert_eq!(Ok(s(210.0)), a.cofactor(0, 2));
    assert_eq!(Ok(s(51.0)), a.cofactor(0, 3));
    assert_eq!(Ok(s(-4071.0)), a.determinate());
}

#[test]
fn determinate_not_square() {
    let a = mat(&[&[-2.0, -8.0, 5.0], &[-3.0, 1.0, 3.0]]);
    assert!(a.determinate().is_err());
    assert_eq!(Err(MatrixError::NotSquare), a.determinate());
}

#[test]
fn determinate_unknown() {
    assert!(mat(&[&[1.0, 2.0, 3.0]]).determinate().is_err());
}

#[test]
fn determinate_too_small() {
    assert_eq!(Err(MatrixError::TooSmall), mat(&[&[5.0]]).determinate());
}

#[test]
fn submatrix_pass() {
    let m = mat(&[&[1.0, 5.0, 0.0], &[-3.0, 2.0, 7.0], &[0.0, 6.0, -3.0]]);
    assert_eq!(
        mat(&[&[-3.0, 2.0], &[0.0, 6.0]]),
        m.submatrix(0, 2).unwrap()
    );

    let m = mat(&[
        &[-6.0, 1.0, 1.0, 6.0],
        &[-8.0, 5.0, 8.0, 6.0],
        &[-1.0, 0.0, 8.0, 2.0],
        &[-7.0, 1.0, -1.0, 1.0],
    ]);
    assert_eq!(
        mat(&[&[-6.0, 1.0, 6.0], &[-8.0, 8.0, 6.0], &[-7.0, -1.0, 1.0]]),
        m.submatrix(2, 1).unwrap()
    );
}

#[test]
fn submatrix_beyond_size() {
    let m = mat(&[&[1.0, 5.0, 0.0], &[-3.0, 2.0, 7.0], &[0.0, 6.0, -3.0]]);
    assert!(m.submatrix(3, 2).is_err());
    assert!(m.submatrix(0, 3).is_err());
    assert_eq!(Err(MatrixError::OutOfBounds), m.submatrix(3, 2));
}

#[test]
fn minor_3x3() {
    let a = mat(&[&[3.0, 5.0, 0.0], &[2.0, -1.0, -7.0], &[6.0, -1.0, 5.0]]);
    let b = a.submatrix(1, 0).unwrap();
    assert_eq!(Ok(s(25.0)), b.determinate());
    assert_eq!(Ok(s(25.0)), a.minor(1, 0));
}

#[test]
fn minor_invalid_size() {
    assert!(mat(&[&[1.0, 2.0]]).minor(0, 0).is_err());
}

#[test]
fn cofactor_3x3() {
    let a = mat(&[&[3.0, 5.0, 0.0], &[2.0, -1.0, -7.0], &[6.0, -1.0, 5.0]]);
    assert_eq!(Ok(s(-12.0)), a.minor(0, 0));
    assert_eq!(Ok(s(-12.0)), a.cofactor(0, 0));
    assert_eq!(Ok(s(25.0)), a.minor(1, 0));
    assert_eq!(Ok(s(-25.0)), a.cofactor(1, 0));
}

#[test]
fn inversion1() {
    let a = mat(&[
        &[6.0, 4.0, 4.0, 4.0],
        &[5.0, 5.0, 7.0, 6.0],
        &[4.0, -9.0, 3.0, -7.0],
        &[9.0, 1.0, 7.0, -6.0],
    ]);
    assert_eq!(Ok(s(-2120.0)), a.determinate());
    assert!(a.is_invertable());
}

#[test]
fn inversion2() {
    let a = mat(&[
        &[-4.0, 2.0, -2.0, -3.0],
        &[9.0, 6.0, 2.0, 6.0],
        &[0.0, -5.0, 1.0, -5.0],
        &[0.0, 0.0, 0.0, 0.0],
    ]);
    assert_eq!(Ok(s(0.0)), a.determinate());
    assert!(!a.is_invertable());
    assert_eq!(Err(MatrixError::NotInvertible), a.inverse());
}

#[test]
fn inversion_calculation() {
    let a = mat(&[
        &[-5.0, 2.0, 6.0, -8.0],
        &[1.0, -5.0, 1.0, 8.0],
        &[7.0, 7.0, -6.0, -7.0],
        &[1.0, -3.0, 7.0, 4.0],
    ]);
    let b = a.inverse().unwrap();
    assert_eq!(Ok(s(532.0)), a.determinate());
    assert_eq!(Ok(s(-160.0)), a.cofactor(2, 3));
    assert!(feq(s(-160.0 / 532.0), b.at(3, 2)));

    assert_eq!(Ok(s(105.0)), a.cofactor(3, 2));
    assert!(feq(s(105.0 / 532.0), b.at(2, 3)));
    assert_eq!(
        mat(&[
            &[0.21805, 0.45113, 0.24060, -0.04511],
            &[-0.80827, -1.45677, -0.44361, 0.52068],
            &[-0.07895, -0.22368, -0.05263, 0.19737],
            &[-0.52256, -0.81391, -0.30075, 0.30639],
        ]),
        b
    );
}

#[test]
fn inverse_scenarios1() {
    let a = mat(&[
        &[8.0, -5.0, 9.0, 2.0],
        &[7.0, 5.0, 6.0, 1.0],
        &[-6.0, 0.0, 9.0, 6.0],
        &[-3.0, 0.0, -9.0, -4.0],
    ]);

    assert_eq!(
        mat(&[
            &[-0.15385, -0.15385, -0.28205, -0.53846],
            &[-0.07692, 0.12308, 0.02564, 0.03077],
            &[0.35897, 0.35897, 0.43590, 0.92308],
            &[-0.69231, -0.69231, -0.76923, -1.92308],
        ]),
        a.inverse().unwrap()
    );
}

#[test]
fn inverse_scenarios2() {
    let a = mat(&[
        &[9.0, 3.0, 0.0, 9.0],
        &[-5.0, -2.0, -6.0, -3.0],
        &[-4.0, 9.0, 6.0, 4.0],
        &[-7.0, 6.0, 6.0, 2.0],
    ]);

    assert_eq!(
        mat(&[
            &[-0.04074, -0.07778, 0.14444, -0.22222],
            &[-0.07778, 0.03333, 0.36667, -0.33333],
            &[-0.02901, -0.14630, -0.10926, 0.12963],
            &[0.17778, 0.06667, -0.26667, 0.33333],
        ]),
        a.inverse().unwrap()
    );
}

#[test]
fn inversing_multiplication() {
    let a = mat(&[
        &[3.0, -9.0, 7.0, 3.0],
        &[3.0, -8.0, 2.0, -9.0],
        &[-4.0, 4.0, 4.0, 1.0],
        &[-6.0, 5.0, -1.0, 1.0],
    ]);

    let b = mat(&[
        &[8.0, 2.0, 2.0, 2.0],
        &[3.0, -1.0, 7.0, 0.0],
        &[7.0, 0.0, 5.0, 4.0],
        &[6.0, -2.0, 0.0, 5.0],
    ]);

    let c = a.mul(&b);
    assert_eq!(
        Ok(a),
        c.and_then(|c| b.inverse().and_then(|bi| c.mul(&bi)))
    );
}

#[test]
fn inverse_of_two_by_two_is_undefined() {
    let m = mat(&[&[1.0, 2.0], &[3.0, 4.0]]);
    assert!(m.is_invertable());
    assert_eq!(Err(MatrixError::TooSmall), m.inverse());
}

#[test]
fn inverse_of_unimodular_matrix_is_exact() {
    // determinant one, so no division rounds: the product with the
    // inverse is the identity cell for cell, not merely within tolerance
    let a = mat(&[&[1.0, 2.0, 3.0], &[0.0, 1.0, 4.0], &[5.0, 6.0, 0.0]]);
    assert_eq!(Ok(s(1.0)), a.determinate());
    let inv = a.inverse().unwrap();
    assert_eq!(
        mat(&[&[-24.0, 18.0, 5.0], &[20.0, -15.0, -4.0], &[-5.0, 4.0, 1.0]]),
        inv
    );
    let product = a.mul(&inv).unwrap();
    for y in 0..3 {
        for x in 0..3 {
            let expected = if y == x { s(1.0) } else { s(0.0) };
            assert_eq!(product.at(y, x), expected);
        }
    }
}

#[test]
fn multiplication_is_associative() {
    let a = mat(&[&[1.0, 2.0, 3.0], &[4.0, 5.0, 6.0]]);
    let b = mat(&[&[7.0, 8.0], &[9.0, 10.0], &[11.0, 12.0]]);
    let c = mat(&[&[13.0, -14.0], &[15.0, -16.0]]);

    let left = a.mul(&b).unwrap().mul(&c).unwrap();
    let right = a.mul(&b.mul(&c).unwrap()).unwrap();
    assert_eq!(left, right);
    for y in 0..2 {
        for x in 0..2 {
            assert_eq!(left.at(y, x), right.at(y, x));
        }
    }
}
