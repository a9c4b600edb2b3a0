//! Dense numeric matrices.
//!
//! A `Matrix` is a rectangular grid of scalars stored as a sequence of
//! rows. The well-formedness predicate `wf` says that the stored grid
//! matches the declared `height` and `width`; every constructor
//! establishes it and every operation preserves it.

pub mod laws;
pub mod ops;
pub mod transformations;

use vstd::prelude::*;
use crate::scalar::Scalar;

verus! {

#[derive(Debug, Clone)]
pub struct Matrix {
    pub height: usize,
    pub width: usize,
    pub values: Vec<Vec<Scalar>>,
}

/// Why a matrix operation could not produce a result.
#[derive(Debug, Clone, Copy, PartialEq, Eq, Structural)]
pub enum MatrixError {
    /// The inner dimensions of a multiplication disagree.
    DimensionMismatch,
    /// A determinant was asked of a non-square matrix.
    NotSquare,
    /// A determinant was asked of a matrix smaller than the two-by-two
    /// base case of the cofactor expansion.
    TooSmall,
    /// An inverse was asked of a matrix whose determinant is zero up to
    /// the tolerance.
    NotInvertible,
    /// A submatrix was asked to skip a row or column that does not exist.
    OutOfBounds,
}

impl Matrix {
    /// The grid as a sequence of rows of raw scalar values.
    pub open spec fn rows(&self) -> Seq<Seq<int>> {
        self.values@.map_values(|row: Vec<Scalar>| row@.map_values(|s: Scalar| s.raw as int))
    }

    /// The stored grid matches the declared dimensions.
    pub open spec fn wf(&self) -> bool {
        &&& self.values@.len() == self.height
        &&& forall|y: int|
            0 <= y < self.height ==> (#[trigger] self.values@[y])@.len() == self.width
    }

    /// Raw value of the cell in row `y`, column `x`.
    pub open spec fn ent(&self, y: int, x: int) -> int {
        self.rows()[y][x]
    }

    pub open spec fn is_square(&self) -> bool {
        self.height == self.width
    }
}

} // verus!
