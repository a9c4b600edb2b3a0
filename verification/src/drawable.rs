//! Geometric primitives.
//!
//! `Point` is an affine location and `Vector` a free displacement. The two
//! are distinct types so that meaningless combinations (adding two points,
//! subtracting a point from a vector) cannot be written at all. Equality on
//! both is tolerance-based, componentwise.

use vstd::prelude::*;
use crate::scalar::Scalar;
use crate::scalar::add_raw;
use crate::scalar::sub_raw;
use crate::scalar::neg_raw;
use crate::scalar::mul_raw;
use crate::scalar::div_raw;
use crate::scalar::sqrt_raw;
use crate::scalar::is_isqrt;
use crate::scalar::abs_raw;
use crate::scalar::lemma_mul_raw_err;
use crate::scalar::lemma_div_raw_err;
use crate::scalar::SCALE;
use crate::scalar::MAX_RAW;
use crate::util::feq;
use crate::util::feq_raw;

verus! {

#[derive(Debug, Copy, Clone)]
pub struct Point(pub Scalar, pub Scalar, pub Scalar);

#[derive(Debug, Copy, Clone)]
pub struct Vector(pub Scalar, pub Scalar, pub Scalar);

/// A dot product of raw triples, as it is computed: left to right,
/// rounding each step.
pub open spec fn dot3_raw(x1: int, y1: int, z1: int, x2: int, y2: int, z2: int) -> int {
    add_raw(add_raw(mul_raw(x1, x2), mul_raw(y1, y2)), mul_raw(z1, z2))
}

/// Squaring a rounded quotient: the error against the exact square grows
/// with the rounding error times the operand sizes.
#[verifier::rlimit(50)]
proof fn lemma_sq_err(n: int, m: int, x: int, s: int, bx: int)
    by (nonlinear_arith)
    requires
        abs_raw(n * m - x * s) <= m,
        abs_raw(x) <= bx,
        m >= 0,
        s > 0,
        bx >= 0,
    ensures
        abs_raw((n * n) * (m * m) - (x * x) * (s * s)) <= 2 * s * (bx * m) + m * m,
{
}

/// A product of a raw value with itself never comes out negative.
proof fn lemma_mul_self_nonneg(a: int)
    ensures
        mul_raw(a, a) >= 0,
{
    assert(a * a >= 0) by (nonlinear_arith);
}

impl Point {
    pub fn new(x: Scalar, y: Scalar, z: Scalar) -> (r: Point)
        ensures
            r == (Point(x, y, z)),
    {
        Point(x, y, z)
    }

    /// Componentwise sign flip.
    pub fn negate(&self) -> (r: Point)
        ensures
            r.0.raw as int == neg_raw(self.0.raw as int),
            r.1.raw as int == neg_raw(self.1.raw as int),
            r.2.raw as int == neg_raw(self.2.raw as int),
    {
        Point(self.0.neg(), self.1.neg(), self.2.neg())
    }

    /// `Point + Vector` is the point displaced by the vector.
    pub fn add(self, rhs: Vector) -> (r: Point)
        ensures
            r.0.raw as int == add_raw(self.0.raw as int, rhs.0.raw as int),
            r.1.raw as int == add_raw(self.1.raw as int, rhs.1.raw as int),
            r.2.raw as int == add_raw(self.2.raw as int, rhs.2.raw as int),
    {
        Point(self.0.add(rhs.0), self.1.add(rhs.1), self.2.add(rhs.2))
    }

    /// `Point - Point` is the displacement from `rhs` to `self`.
    pub fn sub(self, rhs: Point) -> (r: Vector)
        ensures
            r.0.raw as int == sub_raw(self.0.raw as int, rhs.0.raw as int),
            r.1.raw as int == sub_raw(self.1.raw as int, rhs.1.raw as int),
            r.2.raw as int == sub_raw(self.2.raw as int, rhs.2.raw as int),
    {
        Vector(self.0.sub(rhs.0), self.1.sub(rhs.1), self.2.sub(rhs.2))
    }

    /// `Point - Vector` is the point displaced backwards by the vector.
    pub fn sub_vector(self, rhs: Vector) -> (r: Point)
        ensures
            r.0.raw as int == sub_raw(self.0.raw as int, rhs.0.raw as int),
            r.1.raw as int == sub_raw(self.1.raw as int, rhs.1.raw as int),
            r.2.raw as int == sub_raw(self.2.raw as int, rhs.2.raw as int),
    {
        Point(self.0.sub(rhs.0), self.1.sub(rhs.1), self.2.sub(rhs.2))
    }

    /// Scale every component by a scalar factor.
    pub fn mul(self, factor: Scalar) -> (r: Point)
        ensures
            r.0.raw as int == mul_raw(self.0.raw as int, factor.raw as int),
            r.1.raw as int == mul_raw(self.1.raw as int, factor.raw as int),
            r.2.raw as int == mul_raw(self.2.raw as int, factor.raw as int),
    {
        Point(self.0.mul(factor), self.1.mul(factor), self.2.mul(factor))
    }

    /// Divide every component by a scalar factor.
    pub fn div(self, factor: Scalar) -> (r: Point)
        requires
            factor.raw != 0,
        ensures
            r.0.raw as int == div_raw(self.0.raw as int, factor.raw as int),
            r.1.raw as int == div_raw(self.1.raw as int, factor.raw as int),
            r.2.raw as int == div_raw(self.2.raw as int, factor.raw as int),
    {
        Point(self.0.div(factor), self.1.div(factor), self.2.div(factor))
    }

    /// Componentwise tolerance equality of two points.
    pub open spec fn feq_spec(self, rhs: Point) -> bool {
        feq_raw(self.0.raw as int, rhs.0.raw as int) && feq_raw(self.1.raw as int, rhs.1.raw as int)
            && feq_raw(self.2.raw as int, rhs.2.raw as int)
    }
}

impl PartialEq for Point {
    fn eq(&self, rhs: &Point) -> (r: bool) {
        feq(self.0, rhs.0) && feq(self.1, rhs.1) && feq(self.2, rhs.2)
    }
}

impl vstd::std_specs::cmp::PartialEqSpecImpl for Point {
    open spec fn obeys_eq_spec() -> bool {
        true
    }

    open spec fn eq_spec(&self, rhs: &Point) -> bool {
        self.feq_spec(*rhs)
    }
}

impl Vector {
    pub fn new(x: Scalar, y: Scalar, z: Scalar) -> (r: Vector)
        ensures
            r == (Vector(x, y, z)),
    {
        Vector(x, y, z)
    }

    /// Componentwise sign flip.
    pub fn negate(&self) -> (r: Vector)
        ensures
            r.0.raw as int == neg_raw(self.0.raw as int),
            r.1.raw as int == neg_raw(self.1.raw as int),
            r.2.raw as int == neg_raw(self.2.raw as int),
    {
        Vector(self.0.neg(), self.1.neg(), self.2.neg())
    }

    /// The dot product as it is computed: left to right, rounding each step.
    pub open spec fn dot_spec(self, rhs: Vector) -> int {
        dot3_raw(
            self.0.raw as int,
            self.1.raw as int,
            self.2.raw as int,
            rhs.0.raw as int,
            rhs.1.raw as int,
            rhs.2.raw as int,
        )
    }

    /// Raw value of the Euclidean norm of the vector.
    pub open spec fn magnitude_raw(self) -> int {
        sqrt_raw(self.dot_spec(self))
    }

    /// The dot product of a vector with itself is never negative.
    pub proof fn lemma_dot_self_nonneg(self)
        ensures
            self.dot_spec(self) >= 0,
    {
        lemma_mul_self_nonneg(self.0.raw as int);
        lemma_mul_self_nonneg(self.1.raw as int);
        lemma_mul_self_nonneg(self.2.raw as int);
    }

    /// The smaller the result, the larger the angle between the vectors.
    pub fn dot(&self, rhs: &Vector) -> (r: Scalar)
        ensures
            r.raw as int == self.dot_spec(*rhs),
    {
        self.0.mul(rhs.0).add(self.1.mul(rhs.1)).add(self.2.mul(rhs.2))
    }

    /// Distance covered by walking the vector.
    pub fn magnitude(&self) -> (r: Scalar)
        ensures
            r.raw as int == self.magnitude_raw(),
            r.raw >= 0,
            is_isqrt(self.dot_spec(*self) * SCALE as int, r.raw as int),
    {
        proof {
            self.lemma_dot_self_nonneg();
        }
        self.dot(self).sqrt()
    }

    /// The unit vector pointing the same way: each component divided by the
    /// magnitude. The zero vector has no direction, so a magnitude of zero
    /// is ruled out by precondition.
    pub fn normalize(&self) -> (r: Vector)
        requires
            self.magnitude_raw() != 0,
        ensures
            r.0.raw as int == div_raw(self.0.raw as int, self.magnitude_raw()),
            r.1.raw as int == div_raw(self.1.raw as int, self.magnitude_raw()),
            r.2.raw as int == div_raw(self.2.raw as int, self.magnitude_raw()),
    {
        let magnitude = self.magnitude();
        Vector(self.0.div(magnitude), self.1.div(magnitude), self.2.div(magnitude))
    }

    /// The vector perpendicular to the two given vectors.
    pub fn cross(&self, rhs: &Vector) -> (r: Vector)
        ensures
            r.0.raw as int == sub_raw(
                mul_raw(self.1.raw as int, rhs.2.raw as int),
                mul_raw(self.2.raw as int, rhs.1.raw as int),
            ),
            r.1.raw as int == sub_raw(
                mul_raw(self.2.raw as int, rhs.0.raw as int),
                mul_raw(self.0.raw as int, rhs.2.raw as int),
            ),
            r.2.raw as int == sub_raw(
                mul_raw(self.0.raw as int, rhs.1.raw as int),
                mul_raw(self.1.raw as int, rhs.0.raw as int),
            ),
    {
        Vector(
            self.1.mul(rhs.2).sub(self.2.mul(rhs.1)),
            self.2.mul(rhs.0).sub(self.0.mul(rhs.2)),
            self.0.mul(rhs.1).sub(self.1.mul(rhs.0)),
        )
    }

    /// `Vector + Vector` adds componentwise.
    pub fn add(self, rhs: Vector) -> (r: Vector)
        ensures
            r.0.raw as int == add_raw(self.0.raw as int, rhs.0.raw as int),
            r.1.raw as int == add_raw(self.1.raw as int, rhs.1.raw as int),
            r.2.raw as int == add_raw(self.2.raw as int, rhs.2.raw as int),
    {
        Vector(self.0.add(rhs.0), self.1.add(rhs.1), self.2.add(rhs.2))
    }

    /// `Vector + Point` is the point displaced by the vector.
    pub fn add_point(self, rhs: Point) -> (r: Point)
        ensures
            r.0.raw as int == add_raw(self.0.raw as int, rhs.0.raw as int),
            r.1.raw as int == add_raw(self.1.raw as int, rhs.1.raw as int),
            r.2.raw as int == add_raw(self.2.raw as int, rhs.2.raw as int),
    {
        Point(self.0.add(rhs.0), self.1.add(rhs.1), self.2.add(rhs.2))
    }

    /// `Vector - Vector` subtracts componentwise.
    pub fn sub(self, rhs: Vector) -> (r: Vector)
        ensures
            r.0.raw as int == sub_raw(self.0.raw as int, rhs.0.raw as int),
            r.1.raw as int == sub_raw(self.1.raw as int, rhs.1.raw as int),
            r.2.raw as int == sub_raw(self.2.raw as int, rhs.2.raw as int),
    {
        Vector(self.0.sub(rhs.0), self.1.sub(rhs.1), self.2.sub(rhs.2))
    }

    /// Scale every component by a scalar factor.
    pub fn mul(self, factor: Scalar) -> (r: Vector)
        ensures
            r.0.raw as int == mul_raw(self.0.raw as int, factor.raw as int),
            r.1.raw as int == mul_raw(self.1.raw as int, factor.raw as int),
            r.2.raw as int == mul_raw(self.2.raw as int, factor.raw as int),
    {
        Vector(self.0.mul(factor), self.1.mul(factor), self.2.mul(factor))
    }

    /// Divide every component by a scalar factor.
    pub fn div(self, factor: Scalar) -> (r: Vector)
        requires
            factor.raw != 0,
        ensures
            r.0.raw as int == div_raw(self.0.raw as int, factor.raw as int),
            r.1.raw as int == div_raw(self.1.raw as int, factor.raw as int),
            r.2.raw as int == div_raw(self.2.raw as int, factor.raw as int),
    {
        Vector(self.0.div(factor), self.1.div(factor), self.2.div(factor))
    }

    /// Componentwise tolerance equality of two vectors.
    pub open spec fn feq_spec(self, rhs: Vector) -> bool {
        feq_raw(self.0.raw as int, rhs.0.raw as int) && feq_raw(self.1.raw as int, rhs.1.raw as int)
            && feq_raw(self.2.raw as int, rhs.2.raw as int)
    }
}

impl PartialEq for Vector {
    fn eq(&self, rhs: &Vector) -> (r: bool) {
        feq(self.0, rhs.0) && feq(self.1, rhs.1) && feq(self.2, rhs.2)
    }
}

impl vstd::std_specs::cmp::PartialEqSpecImpl for Vector {
    open spec fn obeys_eq_spec() -> bool {
        true
    }

    open spec fn eq_spec(&self, rhs: &Vector) -> bool {
        self.feq_spec(*rhs)
    }
}

/// Normalizing a vector and measuring the result gives one, up to the
/// tolerance. The zero vector is excluded (there is no direction to keep),
/// and with it every vector shorter than a tenth of a unit, whose own
/// quantisation error outweighs the tolerance; components are capped at
/// ten thousand units, far past the geometric range the kernel works in.
pub proof fn lemma_normalize_magnitude(v: Vector)
    requires
        abs_raw(v.0.raw as int) <= 10_000_000_000_000,
        abs_raw(v.1.raw as int) <= 10_000_000_000_000,
        abs_raw(v.2.raw as int) <= 10_000_000_000_000,
        v.magnitude_raw() >= SCALE as int / 10,
    ensures
        ({
            let m = v.magnitude_raw();
            feq_raw(
                sqrt_raw(
                    dot3_raw(
                        div_raw(v.0.raw as int, m),
                        div_raw(v.1.raw as int, m),
                        div_raw(v.2.raw as int, m),
                        div_raw(v.0.raw as int, m),
                        div_raw(v.1.raw as int, m),
                        div_raw(v.2.raw as int, m),
                    ),
                ),
                SCALE as int,
            )
        }),
{
    let s = SCALE as int;
    let mr = MAX_RAW as int;
    let x = v.0.raw as int;
    let y = v.1.raw as int;
    let z = v.2.raw as int;
    let qx = mul_raw(x, x);
    let qy = mul_raw(y, y);
    let qz = mul_raw(z, z);
    let d = v.dot_spec(v);
    let m = v.magnitude_raw();
    let qq = x * x + y * y + z * z;

    // The rounded dot product of v with itself tracks the exact sum of
    // squares to within three units.
    assert(abs_raw(x * x) <= 100_000_000_000_000_000_000_000_000 && x * x >= 0)
        by (nonlinear_arith)
        requires
            abs_raw(x) <= 10_000_000_000_000,
    {}
    assert(abs_raw(y * y) <= 100_000_000_000_000_000_000_000_000 && y * y >= 0)
        by (nonlinear_arith)
        requires
            abs_raw(y) <= 10_000_000_000_000,
    {}
    assert(abs_raw(z * z) <= 100_000_000_000_000_000_000_000_000 && z * z >= 0)
        by (nonlinear_arith)
        requires
            abs_raw(z) <= 10_000_000_000_000,
    {}
    lemma_mul_raw_err(x, x);
    lemma_mul_raw_err(y, y);
    lemma_mul_raw_err(z, z);
    lemma_mul_self_nonneg(x);
    lemma_mul_self_nonneg(y);
    lemma_mul_self_nonneg(z);
    assert(qx <= 200_000_000_000_000_000 && qy <= 200_000_000_000_000_000 && qz
        <= 200_000_000_000_000_000);
    assert(add_raw(qx, qy) == qx + qy);
    assert(d == qx + qy + qz);
    assert(0 <= d <= 600_000_000_000_000_000);
    assert(abs_raw(d * s - qq) <= 3 * s);

    // The magnitude is the integer square root of the scaled dot product.
    crate::scalar::lemma_isqrt_exists(d * s);
    assert(is_isqrt(d * s, m));
    assert(m * m <= d * s < (m + 1) * (m + 1));
    assert(m >= 100_000_000);
    assert(m <= 25_000_000_000_000) by (nonlinear_arith)
        requires
            m * m <= 600_000_000_000_000_000 * (SCALE as int),
            m >= 0,
    {}

    // Each component is at most a whisker longer than the magnitude.
    assert((m + 60_000) * (m + 60_000) == m * m + 120_000 * m + 3_600_000_000)
        by (nonlinear_arith);
    assert((m + 1) * (m + 1) == m * m + 2 * m + 1) by (nonlinear_arith);
    assert(x * x <= qq && y * y <= qq && z * z <= qq) by (nonlinear_arith)
        requires
            qq == x * x + y * y + z * z,
    {}
    assert(qq <= m * m + 2 * m + 1 + 3 * s);
    assert(abs_raw(x) <= m + 60_000) by (nonlinear_arith)
        requires
            x * x <= (m + 60_000) * (m + 60_000),
            m >= 0,
    {}
    assert(abs_raw(y) <= m + 60_000) by (nonlinear_arith)
        requires
            y * y <= (m + 60_000) * (m + 60_000),
            m >= 0,
    {}
    assert(abs_raw(z) <= m + 60_000) by (nonlinear_arith)
        requires
            z * z <= (m + 60_000) * (m + 60_000),
            m >= 0,
    {}

    // Dividing by the magnitude rounds each component by at most one part
    // in the magnitude; the quotients stay near one unit.
    assert(abs_raw(x) * s <= (mr - 1) * m && abs_raw(y) * s <= (mr - 1) * m && abs_raw(z) * s <= (mr
        - 1) * m) by (nonlinear_arith)
        requires
            abs_raw(x) <= m + 60_000,
            abs_raw(y) <= m + 60_000,
            abs_raw(z) <= m + 60_000,
            m >= 100_000_000,
            s == 1_000_000_000,
            mr == 1_000_000_000_000_000_000,
    {}
    lemma_div_raw_err(x, m);
    lemma_div_raw_err(y, m);
    lemma_div_raw_err(z, m);
    let nx = div_raw(x, m);
    let ny = div_raw(y, m);
    let nz = div_raw(z, m);
    assert(abs_raw(nx) <= s + 700_000 && abs_raw(ny) <= s + 700_000 && abs_raw(nz) <= s + 700_000)
        by (nonlinear_arith)
        requires
            abs_raw(nx * m - x * s) <= m,
            abs_raw(ny * m - y * s) <= m,
            abs_raw(nz * m - z * s) <= m,
            abs_raw(x) <= m + 60_000,
            abs_raw(y) <= m + 60_000,
            abs_raw(z) <= m + 60_000,
            m >= 100_000_000,
            s == 1_000_000_000,
    {}

    // The sum of squared quotients, scaled by the squared magnitude, sits
    // close to the squared scale times the squared magnitude.
    let tt = nx * nx + ny * ny + nz * nz;
    lemma_sq_err(nx, m, x, s, m + 60_000);
    lemma_sq_err(ny, m, y, s, m + 60_000);
    lemma_sq_err(nz, m, z, s, m + 60_000);
    assert(tt * (m * m) == (nx * nx) * (m * m) + (ny * ny) * (m * m) + (nz * nz) * (m * m)
        && qq * (s * s) == (x * x) * (s * s) + (y * y) * (s * s) + (z * z) * (s * s))
        by (nonlinear_arith)
        requires
            tt == nx * nx + ny * ny + nz * nz,
            qq == x * x + y * y + z * z,
    {}
    assert(abs_raw(tt * (m * m) - qq * (s * s)) <= 6 * s * ((m + 60_000) * m) + 3 * (m * m));
    assert(abs_raw(qq - m * m) <= 2 * m + 1 + 3 * s);
    assert(abs_raw(qq * (s * s) - (m * m) * (s * s)) <= (2 * m + 1 + 3 * s) * (s * s))
        by (nonlinear_arith)
        requires
            abs_raw(qq - m * m) <= 2 * m + 1 + 3 * s,
            s > 0,
    {}
    assert(abs_raw(tt - s * s) * (m * m) <= 6 * s * ((m + 60_000) * m) + 3 * (m * m) + (2 * m + 1
        + 3 * s) * (s * s)) by (nonlinear_arith)
        requires
            abs_raw(tt * (m * m) - qq * (s * s)) <= 6 * s * ((m + 60_000) * m) + 3 * (m * m),
            abs_raw(qq * (s * s) - (m * m) * (s * s)) <= (2 * m + 1 + 3 * s) * (s * s),
    {}
    assert(6 * s * ((m + 60_000) * m) + 3 * (m * m) + (2 * m + 1 + 3 * s) * (s * s)
        <= 2_000_000_000_000 * (m * m)) by (nonlinear_arith)
        requires
            m >= 100_000_000,
            s == 1_000_000_000,
    {}
    assert(abs_raw(tt - s * s) <= 2_000_000_000_000) by (nonlinear_arith)
        requires
            abs_raw(tt - s * s) * (m * m) <= 2_000_000_000_000 * (m * m),
            m >= 100_000_000,
    {}

    // The rounded dot product of the quotients with themselves, and its
    // square root, land within the tolerance of one.
    assert(abs_raw(nx * nx) <= (mr - 1) * s && abs_raw(ny * ny) <= (mr - 1) * s && abs_raw(nz * nz)
        <= (mr - 1) * s && nx * nx >= 0 && ny * ny >= 0 && nz * nz >= 0) by (nonlinear_arith)
        requires
            abs_raw(nx) <= s + 700_000,
            abs_raw(ny) <= s + 700_000,
            abs_raw(nz) <= s + 700_000,
            s == 1_000_000_000,
            mr == 1_000_000_000_000_000_000,
    {}
    lemma_mul_raw_err(nx, nx);
    lemma_mul_raw_err(ny, ny);
    lemma_mul_raw_err(nz, nz);
    lemma_mul_self_nonneg(nx);
    lemma_mul_self_nonneg(ny);
    lemma_mul_self_nonneg(nz);
    let px = mul_raw(nx, nx);
    let py = mul_raw(ny, ny);
    let pz = mul_raw(nz, nz);
    assert(nx * nx <= 2 * (s * s) && ny * ny <= 2 * (s * s) && nz * nz <= 2 * (s * s))
        by (nonlinear_arith)
        requires
            abs_raw(nx) <= s + 700_000,
            abs_raw(ny) <= s + 700_000,
            abs_raw(nz) <= s + 700_000,
            s == 1_000_000_000,
    {}
    assert(px <= 3 * s && py <= 3 * s && pz <= 3 * s) by (nonlinear_arith)
        requires
            abs_raw(px * s - nx * nx) <= s,
            abs_raw(py * s - ny * ny) <= s,
            abs_raw(pz * s - nz * nz) <= s,
            nx * nx <= 2 * (s * s),
            ny * ny <= 2 * (s * s),
            nz * nz <= 2 * (s * s),
            s == 1_000_000_000,
    {}
    let dn = dot3_raw(nx, ny, nz, nx, ny, nz);
    assert(add_raw(px, py) == px + py);
    assert(dn == px + py + pz);
    assert(dn >= 0);
    assert(abs_raw(dn * s - tt) <= 3 * s);
    assert(abs_raw(dn - s) * s <= 2_003_000_000_000) by (nonlinear_arith)
        requires
            abs_raw(dn * s - tt) <= 3 * s,
            abs_raw(tt - s * s) <= 2_000_000_000_000,
            s == 1_000_000_000,
    {}
    assert(abs_raw(dn - s) <= 2_003);

    let mn = sqrt_raw(dn);
    crate::scalar::lemma_isqrt_exists(dn * s);
    assert(is_isqrt(dn * s, mn));
    assert(s - 2_003 <= dn <= s + 2_003);
    assert(!(mn >= s + 3_000)) by (nonlinear_arith)
        requires
            mn * mn <= dn * s,
            dn <= s + 2_003,
            s == 1_000_000_000,
            mn >= 0,
    {}
    assert(!(mn <= s - 3_000)) by (nonlinear_arith)
        requires
            dn * s < (mn + 1) * (mn + 1),
            dn >= s - 2_003,
            s == 1_000_000_000,
            mn >= 0,
    {}
    assert(feq_raw(mn, s));
}

/// Adding a vector to a point and then subtracting the same vector gives
/// the original point back exactly, whenever neither step saturates.
pub proof fn lemma_add_sub_roundtrip(p: Point, v: Vector)
    requires
        crate::scalar::in_range(p.0.raw + v.0.raw),
        crate::scalar::in_range(p.1.raw + v.1.raw),
        crate::scalar::in_range(p.2.raw + v.2.raw),
        crate::scalar::in_range(p.0.raw as int),
        crate::scalar::in_range(p.1.raw as int),
        crate::scalar::in_range(p.2.raw as int),
    ensures
        sub_raw(add_raw(p.0.raw as int, v.0.raw as int), v.0.raw as int) == p.0.raw as int,
        sub_raw(add_raw(p.1.raw as int, v.1.raw as int), v.1.raw as int) == p.1.raw as int,
        sub_raw(add_raw(p.2.raw as int, v.2.raw as int), v.2.raw as int) == p.2.raw as int,
{
}

} // verus!
