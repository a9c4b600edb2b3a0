use std::f64::consts::PI;
use raytracer::Matrix;
use raytracer::Point;
use raytracer::Vector;
use raytracer::Scalar;
use raytracer::Shear;
use raytracer::SCALE;

fn s(x: f64) -> Scalar {
    Scalar::from_raw((x * SCALE as f64).round() as i64)
}

fn mat(rows: &[&[f64]]) -> Matrix {
    Matrix::with_values(
        rows.iter().map(|row| row.iter().map(|&v| s(v)).collect()).collect(),
    )
}

fn rotation_x(radians: f64) -> Matrix {
    Matrix::rotation_x(s(radians.sin()), s(radians.cos()))
}

fn rotation_y(radians: f64) -> Matrix {
    Matrix::rotation_y(s(radians.sin()), s(radians.cos()))
}

fn rotation_z(radians: f64) -> Matrix {
    Matrix::rotation_z(s(radians.sin()), s(radians.cos()))
}

#[test]
fn translation() {
    let t = Matrix::translation(s(5.0), s(-3.0), s(2.0));
    assert_eq!(
        mat(&[
            &[1.0, 0.0, 0.0, 5.0],
            &[0.0, 1.0, 0.0, -3.0],
            &[0.0, 0.0, 1.0, 2.0],
            &[0.0, 0.0, 0.0, 1.0],
        ]),
        t
    );

    assert!(t.is_invertable())
}

#[test]
fn translate_point1() {
    let t = Matrix::translation(s(5.0), s(-3.0), s(2.0));
    let p = Point::new(s(-3.0), s(4.0), s(5.0));
    assert_eq!(Ok(Point::new(s(2.0), s(1.0), s(7.0))), t.mul_point(p));
}

#[test]
fn translate_point2() {
    let t = Matrix::translation(s(5.0), s(-3.0), s(2.0)).inverse();
    let p = Point::new(s(-3.0), s(4.0), s(5.0));
    assert_eq!(
        Ok(Point::new(s(-8.0), s(7.0), s(3.0))),
        t.and_then(|t| t.mul_point(p))
    );
}

#[test]
fn translate_vector_returns_itself() {
    let t = Matrix::translation(s(5.0), s(-3.0), s(2.0)).inverse();
    let v = Vector::new(s(-3.0), s(4.0), s(5.0));
    assert_eq!(Ok(v), t.and_then(|t| t.mul_vector(v)));
}

#[test]
fn scaling_point() {
    let sc = Matrix::scale(s(2.0), s(3.0), s(4.0));
    let p = Point::new(s(-4.0), s(6.0), s(8.0));
    assert_eq!(Ok(Point::new(s(-8.0), s(18.0), s(32.0))), sc.mul_point(p));
}

#[test]
fn scaling_vector() {
    let sc = Matrix::scale(s(2.0), s(3.0), s(4.0));
    let v = Vector::new(s(-4.0), s(6.0), s(8.0));
    assert_eq!(Ok(Vector::new(s(-8.0), s(18.0), s(32.0))), sc.mul_vector(v));
}

#[test]
fn scaling_vector_inverse() {
    let sc = Matrix::scale(s(2.0), s(3.0), s(4.0)).inverse();
    let v = Vector::new(s(-4.0), s(6.0), s(8.0));
    assert_eq!(
        Ok(Vector::new(s(-2.0), s(2.0), s(2.0))),
        sc.and_then(|sc| sc.mul_vector(v))
    );
}

#[test]
fn scaling_point_reflection() {
    // scaling a point by a negative value flips the axis
    let p = Point::new(s(2.0), s(3.0), s(4.0));
    let sc = Matrix::scale(s(-1.0), s(1.0), s(1.0));
    assert_eq!(Ok(Point::new(s(-2.0), s(3.0), s(4.0))), sc.mul_point(p));
}

#[test]
fn rotating_point_around_x_axis_regular() {
    let p = Point::new(s(0.0), s(1.0), s(0.0));
    let half_quarter = rotation_x(PI / 4.0);
    let full_quarter = rotation_x(PI / 2.0);
    assert_eq!(
        Ok(Point::new(s(0.0), s(2f64.sqrt() / 2.0), s(2f64.sqrt() / 2.0))),
        half_quarter.mul_point(p)
    );
    assert_eq!(Ok(Point::new(s(0.0), s(0.0), s(1.0))), full_quarter.mul_point(p));
}

#[test]
fn rotating_point_around_x_axis_inverse() {
    let p = Point::new(s(0.0), s(1.0), s(0.0));
    let half_quarter = rotation_x(PI / 4.0);
    assert_eq!(
        Ok(Point::new(s(0.0), s(2f64.sqrt() / 2.0), s(-(2f64.sqrt() / 2.0)))),
        half_quarter.inverse().and_then(|m| m.mul_point(p))
    );
}

#[test]
fn rotating_point_around_y_axis() {
    let p = Point::new(s(0.0), s(0.0), s(1.0));
    let half_quarter = rotation_y(PI / 4.0);
    let full_quarter = rotation_y(PI / 2.0);
    assert_eq!(
        Ok(Point::new(s(2f64.sqrt() / 2.0), s(0.0), s(2f64.sqrt() / 2.0))),
        half_quarter.mul_point(p)
    );
    assert_eq!(Ok(Point::new(s(1.0), s(0.0), s(0.0))), full_quarter.mul_point(p));
}

#[test]
fn rotating_point_around_z_axis() {
    let p = Point::new(s(0.0), s(1.0), s(0.0));
    let half_quarter = rotation_z(PI / 4.0);
    let full_quarter = rotation_z(PI / 2.0);
    assert_eq!(
        Ok(Point::new(s(-(2f64.sqrt() / 2.0)), s(2f64.sqrt() / 2.0), s(0.0))),
        half_quarter.mul_point(p)
    );
    assert_eq!(Ok(Point::new(s(-1.0), s(0.0), s(0.0))), full_quarter.mul_point(p));
}

#[test]
fn shearing_x_by_y() {
    let p = Point::new(s(2.0), s(3.0), s(4.0));
    let sh = Matrix::shear(Shear::XY);
    assert_eq!(Ok(Point::new(s(5.0), s(3.0), s(4.0))), sh.mul_point(p));
}

#[test]
fn shearing_x_by_z() {
    let p = Point::new(s(2.0), s(3.0), s(4.0));
    let sh = Matrix::shear(Shear::XZ);
    assert_eq!(Ok(Point::new(s(6.0), s(3.0), s(4.0))), sh.mul_point(p));
}

#[test]
fn shearing_y_by_x() {
    let p = Point::new(s(2.0), s(3.0), s(4.0));
    let sh = Matrix::shear(Shear::YX);
    assert_eq!(Ok(Point::new(s(2.0), s(5.0), s(4.0))), sh.mul_point(p));
}

#[test]
fn shearing_y_by_z() {
    let p = Point::new(s(2.0), s(3.0), s(4.0));
    let sh = Matrix::shear(Shear::YZ);
    assert_eq!(Ok(Point::new(s(2.0), s(7.0), s(4.0))), sh.mul_point(p));
}

#[test]
fn shearing_z_by_x() {
    let p = Point::new(s(2.0), s(3.0), s(4.0));
    let sh = Matrix::shear(Shear::ZX);
    assert_eq!(Ok(Point::new(s(2.0), s(3.0), s(6.0))), sh.mul_point(p));
}

#[test]
fn shearing_z_by_6() {
    let p = Point::new(s(2.0), s(3.0), s(4.0));
    let sh = Matrix::shear(Shear::ZY);
    assert_eq!(Ok(Point::new(s(2.0), s(3.0), s(7.0))), sh.mul_point(p));
}

#[test]
fn composed_transforms_apply_in_one_step() {
    // applying two transforms one after the other matches applying their
    // product
    let t = Matrix::translation(s(1.0), s(-2.0), s(3.0));
    let sc = Matrix::scale(s(2.0), s(2.0), s(2.0));
    let p = Point::new(s(4.0), s(5.0), s(6.0));

    let one_by_one = t.mul_point(sc.mul_point(p).unwrap()).unwrap();
    let composed = t.mul(&sc).unwrap().mul_point(p).unwrap();
    assert_eq!(one_by_one, composed);
}
