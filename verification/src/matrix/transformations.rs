//! Affine transform builders.
//!
//! Each builder returns a four-by-four matrix over homogeneous
//! coordinates. Applying a transform converts a `Point` to a column with a
//! final one, and a `Vector` to a column with a final zero, so that
//! translation moves points and leaves vectors alone. Transforms compose
//! by ordinary matrix multiplication.

use vstd::prelude::*;
use crate::matrix::Matrix;
use crate::matrix::MatrixError;
use crate::matrix::ops::mat_mul_cell;
use crate::drawable::Point;
use crate::drawable::Vector;
use crate::scalar::Scalar;
use crate::scalar::SCALE;
use crate::scalar::in_range;
use crate::scalar::lemma_mul_raw_one;
use crate::scalar::lemma_mul_raw_zero;

verus! {

/// Which off-diagonal coupling a shear matrix sets: `XY` moves x in
/// proportion to y, and so on.
pub enum Shear {
    XY,
    XZ,
    YX,
    YZ,
    ZX,
    ZY,
}

/// A four-row, one-column grid holding a homogeneous coordinate column.
pub open spec fn homo_col(x: int, y: int, z: int, w: int) -> Seq<Seq<int>> {
    seq![seq![x], seq![y], seq![z], seq![w]]
}

impl Point {
    /// The point as a homogeneous column matrix, with a final one.
    pub fn matrix(&self) -> (r: Matrix)
        ensures
            r.wf(),
            r.height == 4,
            r.width == 1,
            r.rows() == homo_col(self.0.raw as int, self.1.raw as int, self.2.raw as int, SCALE as int),
    {
        let grid = vec![vec![self.0], vec![self.1], vec![self.2], vec![Scalar::one()]];
        proof {
            assert(grid@.len() == 4);
            assert(grid@[0]@.len() == 1 && grid@[0]@[0] == self.0);
            assert(grid@[1]@.len() == 1 && grid@[1]@[0] == self.1);
            assert(grid@[2]@.len() == 1 && grid@[2]@[0] == self.2);
            assert(grid@[3]@.len() == 1 && grid@[3]@[0].raw == SCALE);
        }
        let m = Matrix::with_values(grid);
        proof {
            assert(m.ent(0, 0) == self.0.raw as int);
            assert(m.ent(1, 0) == self.1.raw as int);
            assert(m.ent(2, 0) == self.2.raw as int);
            assert(m.ent(3, 0) == SCALE as int);
            assert(m.rows().len() == 4);
            assert(m.rows()[0].len() == 1 && m.rows()[1].len() == 1 && m.rows()[2].len() == 1
                && m.rows()[3].len() == 1);
            assert(m.rows() =~~= homo_col(
                self.0.raw as int,
                self.1.raw as int,
                self.2.raw as int,
                SCALE as int,
            ));
        }
        m
    }
}

impl Vector {
    /// The vector as a homogeneous column matrix, with a final zero.
    pub fn matrix(&self) -> (r: Matrix)
        ensures
            r.wf(),
            r.height == 4,
            r.width == 1,
            r.rows() == homo_col(self.0.raw as int, self.1.raw as int, self.2.raw as int, 0),
    {
        let grid = vec![vec![self.0], vec![self.1], vec![self.2], vec![Scalar::zero()]];
        proof {
            assert(grid@.len() == 4);
            assert(grid@[0]@.len() == 1 && grid@[0]@[0] == self.0);
            assert(grid@[1]@.len() == 1 && grid@[1]@[0] == self.1);
            assert(grid@[2]@.len() == 1 && grid@[2]@[0] == self.2);
            assert(grid@[3]@.len() == 1 && grid@[3]@[0].raw == 0);
        }
        let m = Matrix::with_values(grid);
        proof {
            assert(m.ent(0, 0) == self.0.raw as int);
            assert(m.ent(1, 0) == self.1.raw as int);
            assert(m.ent(2, 0) == self.2.raw as int);
            assert(m.ent(3, 0) == 0);
            assert(m.rows().len() == 4);
            assert(m.rows()[0].len() == 1 && m.rows()[1].len() == 1 && m.rows()[2].len() == 1
                && m.rows()[3].len() == 1);
            assert(m.rows() =~~= homo_col(self.0.raw as int, self.1.raw as int, self.2.raw as int, 0));
        }
        m
    }
}

impl Matrix {
    /// The identity with the rightmost column set to `(x, y, z, 1)`.
    pub fn translation(x: Scalar, y: Scalar, z: Scalar) -> (r: Matrix)
        ensures
            r.wf(),
            r.height == 4,
            r.width == 4,
            r.ent(0, 0) == SCALE as int && r.ent(0, 1) == 0 && r.ent(0, 2) == 0 && r.ent(0, 3)
                == x.raw as int,
            r.ent(1, 0) == 0 && r.ent(1, 1) == SCALE as int && r.ent(1, 2) == 0 && r.ent(1, 3)
                == y.raw as int,
            r.ent(2, 0) == 0 && r.ent(2, 1) == 0 && r.ent(2, 2) == SCALE as int && r.ent(2, 3)
                == z.raw as int,
            r.ent(3, 0) == 0 && r.ent(3, 1) == 0 && r.ent(3, 2) == 0 && r.ent(3, 3) == SCALE as int,
    {
        let o = Scalar::one();
        let n = Scalar::zero();
        Matrix::with_values(
            vec![vec![o, n, n, x], vec![n, o, n, y], vec![n, n, o, z], vec![n, n, n, o]],
        )
    }

    /// The diagonal `(x, y, z, 1)`.
    pub fn scale(x: Scalar, y: Scalar, z: Scalar) -> (r: Matrix)
        ensures
            r.wf(),
            r.height == 4,
            r.width == 4,
            r.ent(0, 0) == x.raw as int && r.ent(0, 1) == 0 && r.ent(0, 2) == 0 && r.ent(0, 3) == 0,
            r.ent(1, 0) == 0 && r.ent(1, 1) == y.raw as int && r.ent(1, 2) == 0 && r.ent(1, 3) == 0,
            r.ent(2, 0) == 0 && r.ent(2, 1) == 0 && r.ent(2, 2) == z.raw as int && r.ent(2, 3) == 0,
            r.ent(3, 0) == 0 && r.ent(3, 1) == 0 && r.ent(3, 2) == 0 && r.ent(3, 3) == SCALE as int,
    {
        let o = Scalar::one();
        let n = Scalar::zero();
        Matrix::with_values(
            vec![vec![x, n, n, n], vec![n, y, n, n], vec![n, n, z, n], vec![n, n, n, o]],
        )
    }

    /// Right-handed rotation about the x axis. The caller supplies the
    /// sine and cosine of the angle.
    pub fn rotation_x(sin: Scalar, cos: Scalar) -> (r: Matrix)
        ensures
            r.wf(),
            r.height == 4,
            r.width == 4,
            r.ent(0, 0) == SCALE as int && r.ent(0, 1) == 0 && r.ent(0, 2) == 0 && r.ent(0, 3) == 0,
            r.ent(1, 0) == 0 && r.ent(1, 1) == cos.raw as int && r.ent(1, 2) == crate::scalar::neg_raw(
                sin.raw as int,
            ) && r.ent(1, 3) == 0,
            r.ent(2, 0) == 0 && r.ent(2, 1) == sin.raw as int && r.ent(2, 2) == cos.raw as int
                && r.ent(2, 3) == 0,
            r.ent(3, 0) == 0 && r.ent(3, 1) == 0 && r.ent(3, 2) == 0 && r.ent(3, 3) == SCALE as int,
    {
        let o = Scalar::one();
        let n = Scalar::zero();
        Matrix::with_values(
            vec![
                vec![o, n, n, n],
                vec![n, cos, sin.neg(), n],
                vec![n, sin, cos, n],
                vec![n, n, n, o],
            ],
        )
    }

    /// Right-handed rotation about the y axis. The caller supplies the
    /// sine and cosine of the angle.
    pub fn rotation_y(sin: Scalar, cos: Scalar) -> (r: Matrix)
        ensures
            r.wf(),
            r.height == 4,
            r.width == 4,
            r.ent(0, 0) == cos.raw as int && r.ent(0, 1) == 0 && r.ent(0, 2) == sin.raw as int
                && r.ent(0, 3) == 0,
            r.ent(1, 0) == 0 && r.ent(1, 1) == SCALE as int && r.ent(1, 2) == 0 && r.ent(1, 3) == 0,
            r.ent(2, 0) == crate::scalar::neg_raw(sin.raw as int) && r.ent(2, 1) == 0 && r.ent(2, 2)
                == cos.raw as int && r.ent(2, 3) == 0,
            r.ent(3, 0) == 0 && r.ent(3, 1) == 0 && r.ent(3, 2) == 0 && r.ent(3, 3) == SCALE as int,
    {
        let o = Scalar::one();
        let n = Scalar::zero();
        Matrix::with_values(
            vec![
                vec![cos, n, sin, n],
                vec![n, o, n, n],
                vec![sin.neg(), n, cos, n],
                vec![n, n, n, o],
            ],
        )
    }

    /// Right-handed rotation about the z axis. The caller supplies the
    /// sine and cosine of the angle.
    pub fn rotation_z(sin: Scalar, cos: Scalar) -> (r: Matrix)
        ensures
            r.wf(),
            r.height == 4,
            r.width == 4,
            r.ent(0, 0) == cos.raw as int && r.ent(0, 1) == crate::scalar::neg_raw(sin.raw as int)
                && r.ent(0, 2) == 0 && r.ent(0, 3) == 0,
            r.ent(1, 0) == sin.raw as int && r.ent(1, 1) == cos.raw as int && r.ent(1, 2) == 0
                && r.ent(1, 3) == 0,
            r.ent(2, 0) == 0 && r.ent(2, 1) == 0 && r.ent(2, 2) == SCALE as int && r.ent(2, 3) == 0,
            r.ent(3, 0) == 0 && r.ent(3, 1) == 0 && r.ent(3, 2) == 0 && r.ent(3, 3) == SCALE as int,
    {
        let o = Scalar::one();
        let n = Scalar::zero();
        Matrix::with_values(
            vec![
                vec![cos, sin.neg(), n, n],
                vec![sin, cos, n, n],
                vec![n, n, o, n],
                vec![n, n, n, o],
            ],
        )
    }

    /// The identity with exactly one off-diagonal coupling factor set to
    /// one, chosen by `relation`.
    pub fn shear(relation: Shear) -> (r: Matrix)
        ensures
            r.wf(),
            r.height == 4,
            r.width == 4,
            r.ent(0, 0) == SCALE as int && r.ent(1, 1) == SCALE as int && r.ent(2, 2) == SCALE as int
                && r.ent(3, 3) == SCALE as int,
            r.ent(0, 1) == (if relation is XY {
                SCALE as int
            } else {
                0
            }),
            r.ent(0, 2) == (if relation is XZ {
                SCALE as int
            } else {
                0
            }),
            r.ent(1, 0) == (if relation is YX {
                SCALE as int
            } else {
                0
            }),
            r.ent(1, 2) == (if relation is YZ {
                SCALE as int
            } else {
                0
            }),
            r.ent(2, 0) == (if relation is ZX {
                SCALE as int
            } else {
                0
            }),
            r.ent(2, 1) == (if relation is ZY {
                SCALE as int
            } else {
                0
            }),
            r.ent(0, 3) == 0 && r.ent(1, 3) == 0 && r.ent(2, 3) == 0,
            r.ent(3, 0) == 0 && r.ent(3, 1) == 0 && r.ent(3, 2) == 0,
    {
        let o = Scalar::one();
        let n = Scalar::zero();
        let (xy, xz, yx, yz, zx, zy) = match relation {
            Shear::XY => (o, n, n, n, n, n),
            Shear::XZ => (n, o, n, n, n, n),
            Shear::YX => (n, n, o, n, n, n),
            Shear::YZ => (n, n, n, o, n, n),
            Shear::ZX => (n, n, n, n, o, n),
            Shear::ZY => (n, n, n, n, n, o),
        };
        Matrix::with_values(
            vec![
                vec![o, xy, xz, n],
                vec![yx, o, yz, n],
                vec![zx, zy, o, n],
                vec![n, n, n, o],
            ],
        )
    }

    /// Apply the matrix to a point through its homogeneous column. The
    /// result must have rows for all three components, so the matrix needs
    /// at least three rows; the multiplication itself is defined exactly
    /// when the matrix is four wide.
    pub fn mul_point(&self, rhs: Point) -> (r: Result<Point, MatrixError>)
        requires
            self.wf(),
            self.height >= 3,
        ensures
            r is Ok <==> self.width == 4,
            r matches Ok(p) ==> {
                let col = homo_col(rhs.0.raw as int, rhs.1.raw as int, rhs.2.raw as int, SCALE as int);
                &&& p.0.raw as int == mat_mul_cell(self.rows(), col, 0, 0)
                &&& p.1.raw as int == mat_mul_cell(self.rows(), col, 1, 0)
                &&& p.2.raw as int == mat_mul_cell(self.rows(), col, 2, 0)
            },
            r matches Err(e) ==> e == (MatrixError::DimensionMismatch),
    {
        match self.mul(&rhs.matrix()) {
            Err(e) => Err(e),
            Ok(matrix) => Ok(Point::new(matrix.at(0, 0), matrix.at(1, 0), matrix.at(2, 0))),
        }
    }

    /// Apply the matrix to a vector through its homogeneous column: the
    /// final zero makes any translation part a no-op.
    pub fn mul_vector(&self, rhs: Vector) -> (r: Result<Vector, MatrixError>)
        requires
            self.wf(),
            self.height >= 3,
        ensures
            r is Ok <==> self.width == 4,
            r matches Ok(v) ==> {
                let col = homo_col(rhs.0.raw as int, rhs.1.raw as int, rhs.2.raw as int, 0);
                &&& v.0.raw as int == mat_mul_cell(self.rows(), col, 0, 0)
                &&& v.1.raw as int == mat_mul_cell(self.rows(), col, 1, 0)
                &&& v.2.raw as int == mat_mul_cell(self.rows(), col, 2, 0)
            },
            r matches Err(e) ==> e == (MatrixError::DimensionMismatch),
    {
        match self.mul(&rhs.matrix()) {
            Err(e) => Err(e),
            Ok(matrix) => Ok(Vector::new(matrix.at(0, 0), matrix.at(1, 0), matrix.at(2, 0))),
        }
    }
}

/// A translation moves a point by its offsets and leaves a vector alone.
/// The final homogeneous coordinate — one for points, zero for vectors —
/// is what lets the offset column act on the one and not the other. Stated
/// for any matrix of the shape `translation` builds, over the product
/// cells that `mul_point` and `mul_vector` return, whenever neither the
/// coordinates nor the moved point saturate.
pub proof fn lemma_translation_moves_points_not_vectors(
    t: Matrix,
    x: Scalar,
    y: Scalar,
    z: Scalar,
    px: int,
    py: int,
    pz: int,
)
    requires
        t.wf(),
        t.height == 4,
        t.width == 4,
        t.ent(0, 0) == SCALE as int && t.ent(0, 1) == 0 && t.ent(0, 2) == 0 && t.ent(0, 3)
            == x.raw as int,
        t.ent(1, 0) == 0 && t.ent(1, 1) == SCALE as int && t.ent(1, 2) == 0 && t.ent(1, 3)
            == y.raw as int,
        t.ent(2, 0) == 0 && t.ent(2, 1) == 0 && t.ent(2, 2) == SCALE as int && t.ent(2, 3)
            == z.raw as int,
        in_range(px),
        in_range(py),
        in_range(pz),
        in_range(x.raw as int),
        in_range(y.raw as int),
        in_range(z.raw as int),
        in_range(px + x.raw),
        in_range(py + y.raw),
        in_range(pz + z.raw),
    ensures
        ({
            let moved = homo_col(px, py, pz, SCALE as int);
            &&& mat_mul_cell(t.rows(), moved, 0, 0) == px + x.raw
            &&& mat_mul_cell(t.rows(), moved, 1, 0) == py + y.raw
            &&& mat_mul_cell(t.rows(), moved, 2, 0) == pz + z.raw
        }),
        ({
            let kept = homo_col(px, py, pz, 0);
            &&& mat_mul_cell(t.rows(), kept, 0, 0) == px
            &&& mat_mul_cell(t.rows(), kept, 1, 0) == py
            &&& mat_mul_cell(t.rows(), kept, 2, 0) == pz
        }),
{
    reveal_with_fuel(crate::matrix::ops::mul_cell, 5);
    lemma_mul_raw_one(px);
    lemma_mul_raw_one(py);
    lemma_mul_raw_one(pz);
    lemma_mul_raw_one(x.raw as int);
    lemma_mul_raw_one(y.raw as int);
    lemma_mul_raw_one(z.raw as int);
    lemma_mul_raw_zero(px);
    lemma_mul_raw_zero(py);
    lemma_mul_raw_zero(pz);
    lemma_mul_raw_zero(x.raw as int);
    lemma_mul_raw_zero(y.raw as int);
    lemma_mul_raw_zero(z.raw as int);
}

} // verus!
