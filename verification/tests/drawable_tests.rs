use raytracer::Point;
use raytracer::Vector;
use raytracer::Scalar;
use raytracer::SCALE;
use raytracer::feq;

fn s(x: f64) -> Scalar {
    Scalar::from_raw((x * SCALE as f64).round() as i64)
}

#[test]
fn vector_to_point() {
    let point = Point::new(s(1.0), s(2.0), s(3.0));
    let vector = Vector::new(s(1.0), s(2.0), s(3.0));
    assert_eq!(vector.add_point(point), Point::new(s(2.0), s(4.0), s(6.0)));
}

#[test]
fn vector_to_vector() {
    let vector1 = Vector::new(s(1.0), s(2.0), s(3.0));
    let vector2 = Vector::new(s(1.0), s(2.0), s(3.0));
    assert_eq!(vector1.add(vector2), Vector::new(s(2.0), s(4.0), s(6.0)));
}

#[test]
fn point_to_vector() {
    let point = Point::new(s(1.0), s(2.0), s(3.0));
    let vector = Vector::new(s(1.0), s(2.0), s(3.0));
    assert_eq!(point.add(vector), Point::new(s(2.0), s(4.0), s(6.0)));
}

#[test]
fn point_from_a_point() {
    let point1 = Point::new(s(1.0), s(2.0), s(3.0));
    let point2 = Point::new(s(10.0), s(20.0), s(30.0));
    assert_eq!(point2.sub(point1), Vector::new(s(9.0), s(18.0), s(27.0)));
}

#[test]
fn vector_from_a_vector() {
    let vector1 = Vector::new(s(1.0), s(2.0), s(3.0));
    let vector2 = Vector::new(s(10.0), s(20.0), s(30.0));
    assert_eq!(vector2.sub(vector1), Vector::new(s(9.0), s(18.0), s(27.0)));
}

#[test]
fn vector_from_a_point() {
    let point = Point::new(s(10.0), s(20.0), s(30.0));
    let vector = Vector::new(s(1.0), s(2.0), s(3.0));
    assert_eq!(point.sub_vector(vector), Point::new(s(9.0), s(18.0), s(27.0)));
}

#[test]
fn point() {
    let point = Point::new(s(1.0), s(2.0), s(3.0));
    assert_eq!(point.negate(), Point::new(s(-1.0), s(-2.0), s(-3.0)));
}

#[test]
fn vector() {
    let vector = Vector::new(s(1.0), s(2.0), s(3.0));
    assert_eq!(vector.negate(), Vector::new(s(-1.0), s(-2.0), s(-3.0)));
}

#[test]
fn multiplying_point_and_vector() {
    let point = Point::new(s(1.0), s(2.0), s(3.0));
    assert_eq!(point.mul(s(2.0)), Point::new(s(2.0), s(4.0), s(6.0)));

    let vector = Vector::new(s(1.0), s(2.0), s(3.0));
    assert_eq!(vector.mul(s(2.0)), Vector::new(s(2.0), s(4.0), s(6.0)));
}

#[test]
fn dividing_point_and_vector() {
    let point = Point::new(s(1.0), s(2.0), s(3.0));
    assert_eq!(point.div(s(2.0)), Point::new(s(0.5), s(1.0), s(1.5)));

    let vector = Vector::new(s(1.0), s(2.0), s(3.0));
    assert_eq!(vector.div(s(2.0)), Vector::new(s(0.5), s(1.0), s(1.5)));
}

#[test]
fn magnitude_of_vector() {
    let vector = Vector::new(s(1.0), s(2.0), s(3.0));
    let x: f64 = 14.0;
    assert!(feq(vector.magnitude(), s(x.sqrt())));
}

#[test]
fn normalize_vector() {
    let vector = Vector::new(s(4.0), s(0.0), s(0.0));
    assert_eq!(vector.normalize(), Vector::new(s(1.0), s(0.0), s(0.0)));

    let vector = Vector::new(s(1.0), s(2.0), s(3.0));
    assert_eq!(
        vector.normalize(),
        Vector::new(s(0.26726), s(0.53452), s(0.80178))
    )
}

#[test]
fn magnitude_of_a_normalized_vector_is_always_one() {
    let vector = Vector::new(s(4.0), s(0.0), s(0.0));
    assert_eq!(vector.normalize().magnitude(), s(1.0));
}

#[test]
fn magnitude_after_normalizing_is_one_within_tolerance() {
    let vector = Vector::new(s(1.0), s(2.0), s(3.0));
    assert!(feq(vector.normalize().magnitude(), s(1.0)));
    let vector = Vector::new(s(-0.3), s(0.4), s(1.2));
    assert!(feq(vector.normalize().magnitude(), s(1.0)));
}

#[test]
fn dot_product_with_vectors() {
    let vector1 = Vector::new(s(1.0), s(2.0), s(3.0));
    let vector2 = Vector::new(s(2.0), s(3.0), s(4.0));
    assert_eq!(vector1.dot(&vector2), s(20.0));
    assert_eq!(vector2.dot(&vector1), s(20.0));
}

#[test]
fn cross_product_with_vectors() {
    let vector1 = Vector::new(s(1.0), s(2.0), s(3.0));
    let vector2 = Vector::new(s(2.0), s(3.0), s(4.0));
    assert_eq!(vector1.cross(&vector2), Vector::new(s(-1.0), s(2.0), s(-1.0)));
    assert_eq!(vector2.cross(&vector1), Vector::new(s(1.0), s(-2.0), s(1.0)));
}

#[test]
fn adding_then_subtracting_a_vector_returns_the_point() {
    let p = Point::new(s(2.5), s(-7.0), s(0.125));
    let v = Vector::new(s(100.0), s(-0.25), s(3.5));
    let back = p.add(v).sub_vector(v);
    assert_eq!(back.0, p.0);
    assert_eq!(back.1, p.1);
    assert_eq!(back.2, p.2);
}
