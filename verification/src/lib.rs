//! A small geometric kernel for a ray tracer: affine points and free
//! vectors, dense numeric matrices with determinant and inverse, affine
//! transform builders, and ray-sphere intersection.
//!
//! All coordinates are fixed-point numbers (`Scalar`): an `i64` count of
//! units of one billionth. Every arithmetic operation is specified exactly,
//! rounding and saturation included, so every geometric result is pinned
//! down to the unit.

pub mod drawable;
pub mod iterator;
pub mod matrix;
pub mod ray;
pub mod scalar;
pub mod util;

pub use drawable::Point;
pub use drawable::Vector;
pub use iterator::DimensionalIterator;
pub use iterator::reverse_tuple;
pub use matrix::Matrix;
pub use matrix::MatrixError;
pub use matrix::transformations::Shear;
pub use ray::Ray;
pub use ray::Sphere;
pub use ray::Intersection;
pub use ray::Intersections;
pub use scalar::Scalar;
pub use scalar::SCALE;
pub use scalar::MAX_RAW;
pub use util::feq;
pub use util::THRESHOLD_RAW;
