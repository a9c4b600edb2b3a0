use raytracer::Scalar;
use raytracer::SCALE;
use raytracer::MAX_RAW;
use raytracer::THRESHOLD_RAW;
use raytracer::feq;

fn s(x: f64) -> Scalar {
    Scalar::from_raw((x * SCALE as f64).round() as i64)
}

#[test]
fn scalar_arithmetic_is_exact_on_small_values() {
    assert_eq!(s(1.5).add(s(2.25)), s(3.75));
    assert_eq!(s(1.5).sub(s(2.25)), s(-0.75));
    assert_eq!(s(1.5).mul(s(2.0)), s(3.0));
    assert_eq!(s(3.0).div(s(2.0)), s(1.5));
    assert_eq!(s(-4.0).neg(), s(4.0));
}

#[test]
fn scalar_multiplication_rounds_to_nearest() {
    // a third of a unit squared falls between representable values
    let third = Scalar::from_raw(333_333_333);
    let squared = third.mul(third);
    assert_eq!(squared.raw, 111_111_111);
}

#[test]
fn scalar_arithmetic_saturates() {
    let top = Scalar::from_raw(MAX_RAW);
    assert_eq!(top.add(top).raw, MAX_RAW);
    assert_eq!(top.neg().sub(top).raw, -MAX_RAW);
    assert_eq!(top.mul(top).raw, MAX_RAW);
}

#[test]
fn scalar_square_root() {
    assert_eq!(s(4.0).sqrt(), s(2.0));
    assert_eq!(s(0.0).sqrt(), s(0.0));
    assert_eq!(s(2.0).sqrt().raw, 1_414_213_562);
}

#[test]
fn feq_is_tolerance_based() {
    assert!(feq(s(1.0), Scalar::from_raw(SCALE + THRESHOLD_RAW - 1)));
    assert!(!feq(s(1.0), Scalar::from_raw(SCALE + THRESHOLD_RAW)));
    assert!(feq(s(-2.0), s(-2.0)));
    assert!(!feq(s(-2.0), s(2.0)));
}
