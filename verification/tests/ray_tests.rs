use raytracer::Point;
use raytracer::Vector;
use raytracer::Ray;
use raytracer::Sphere;
use raytracer::Intersection;
use raytracer::Intersections;
use raytracer::Scalar;
use raytracer::SCALE;

fn s(x: f64) -> Scalar {
    Scalar::from_raw((x * SCALE as f64).round() as i64)
}

#[test]
fn computing_distance() {
    let point = Point::new(s(2.0), s(3.0), s(4.0));
    let vector = Vector::new(s(1.0), s(0.0), s(0.0));
    let ray = Ray::new(point, vector);
    assert_eq!(ray.position(s(0.0)), Point::new(s(2.0), s(3.0), s(4.0)));
    assert_eq!(ray.position(s(1.0)), Point::new(s(3.0), s(3.0), s(4.0)));
    assert_eq!(ray.position(s(-1.0)), Point::new(s(1.0), s(3.0), s(4.0)));
    assert_eq!(ray.position(s(2.5)), Point::new(s(4.5), s(3.0), s(4.0)));
}

#[test]
fn ray_intersects_sphere_at_two_points() {
    let ray = Ray::new(Point::new(s(0.0), s(0.0), s(-5.0)), Vector::new(s(0.0), s(0.0), s(1.0)));
    let sphere = Sphere::new();
    let intersections = sphere.intersect(ray).unwrap();
    assert_eq!(2, intersections.len());
    assert_eq!(s(4.0), intersections.get(0).t);
    assert_eq!(s(6.0), intersections.get(1).t);
}

#[test]
fn ray_intersects_sphere_at_tangent() {
    let ray = Ray::new(Point::new(s(0.0), s(1.0), s(-5.0)), Vector::new(s(0.0), s(0.0), s(1.0)));
    let sphere = Sphere::new();
    let intersections = sphere.intersect(ray).unwrap();
    assert_eq!(2, intersections.len());
    assert_eq!(s(5.0), intersections.get(0).t);
    assert_eq!(s(5.0), intersections.get(1).t);
}

#[test]
fn ray_misses_sphere() {
    let ray = Ray::new(Point::new(s(0.0), s(2.0), s(-5.0)), Vector::new(s(0.0), s(0.0), s(1.0)));
    let sphere = Sphere::new();
    let intersections = sphere.intersect(ray);
    assert_eq!(None, intersections);
}

#[test]
fn ray_originates_inside_sphere() {
    let ray = Ray::new(Point::new(s(0.0), s(0.0), s(0.0)), Vector::new(s(0.0), s(0.0), s(1.0)));
    let sphere = Sphere::new();
    let intersections = sphere.intersect(ray).unwrap();
    assert_eq!(2, intersections.len());
    assert_eq!(s(-1.0), intersections.get(0).t);
    assert_eq!(s(1.0), intersections.get(1).t);
}

#[test]
fn ray_infront_of_sphere() {
    let ray = Ray::new(Point::new(s(0.0), s(0.0), s(5.0)), Vector::new(s(0.0), s(0.0), s(1.0)));
    let sphere = Sphere::new();
    let intersections = sphere.intersect(ray).unwrap();
    assert_eq!(2, intersections.len());
    assert_eq!(s(-6.0), intersections.get(0).t);
    assert_eq!(s(-4.0), intersections.get(1).t);
}

#[test]
fn hit_with_all_positive() {
    let sphere = Sphere::new();
    let intersections = Intersections(vec![
        Intersection { t: s(1.0), object: &sphere },
        Intersection { t: s(2.0), object: &sphere },
    ]);
    assert_eq!(s(1.0), intersections.hit().unwrap().t);
}

#[test]
fn hit_with_some_negative() {
    let sphere = Sphere::new();
    let intersections = Intersections(vec![
        Intersection { t: s(-1.0), object: &sphere },
        Intersection { t: s(2.0), object: &sphere },
    ]);
    assert_eq!(s(2.0), intersections.hit().unwrap().t);
}

#[test]
fn hit_with_all_negative() {
    let sphere = Sphere::new();
    let intersections = Intersections(vec![
        Intersection { t: s(-1.0), object: &sphere },
        Intersection { t: s(-2.0), object: &sphere },
    ]);
    assert_eq!(None, intersections.hit());
}

#[test]
fn hit_always_lowest_nonnegative_intersection() {
    let sphere = Sphere::new();
    let intersections = Intersections(vec![
        Intersection { t: s(5.0), object: &sphere },
        Intersection { t: s(7.0), object: &sphere },
        Intersection { t: s(-3.0), object: &sphere },
        Intersection { t: s(2.0), object: &sphere },
    ]);
    assert_eq!(s(2.0), intersections.hit().unwrap().t);
}

#[test]
fn hit_excludes_zero() {
    let sphere = Sphere::new();
    let intersections = Intersections(vec![
        Intersection { t: s(0.0), object: &sphere },
        Intersection { t: s(3.0), object: &sphere },
    ]);
    assert_eq!(s(3.0), intersections.hit().unwrap().t);
}
