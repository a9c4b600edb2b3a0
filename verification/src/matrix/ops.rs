//! Matrix construction, access, traversal, multiplication.

use vstd::prelude::*;
use crate::matrix::Matrix;
use crate::matrix::MatrixError;
use crate::iterator::DimensionalIterator;
use crate::scalar::Scalar;
use crate::scalar::add_raw;
use crate::scalar::sub_raw;
use crate::scalar::neg_raw;
use crate::scalar::mul_raw;
use crate::scalar::div_raw;
use crate::scalar::SCALE;
use crate::util::feq;
use crate::util::feq_raw;

verus! {

/// One cell of a matrix product, as it is computed: the first `k` products
/// of row `y` of `a` against column `x` of `b`, accumulated left to right.
pub open spec fn mul_cell(a: Seq<Seq<int>>, b: Seq<Seq<int>>, y: int, x: int, k: nat) -> int
    decreases k,
{
    if k == 0 {
        0
    } else {
        add_raw(mul_cell(a, b, y, x, (k - 1) as nat), mul_raw(a[y][k - 1], b[k - 1][x]))
    }
}

/// Cell `(y, x)` of the product of `a` and `b`.
pub open spec fn mat_mul_cell(a: Seq<Seq<int>>, b: Seq<Seq<int>>, y: int, x: int) -> int {
    mul_cell(a, b, y, x, b.len())
}

/// The grid `m` with row `sy` and column `sx` deleted. The width of `m` is
/// read off its first row.
pub open spec fn sub_grid(m: Seq<Seq<int>>, sy: int, sx: int) -> Seq<Seq<int>> {
    Seq::new(
        (m.len() - 1) as nat,
        |i: int|
            Seq::new(
                (m[0].len() - 1) as nat,
                |j: int|
                    m[if i < sy {
                        i
                    } else {
                        i + 1
                    }][
                        if j < sx {
                            j
                        } else {
                            j + 1
                        }
                    ],
            ),
    )
}

/// The first `n` terms of the cofactor expansion of `m` along row zero,
/// accumulated left to right.
pub open spec fn det_expand(m: Seq<Seq<int>>, n: nat) -> int
    decreases m.len(), 0nat, n,
{
    if n == 0 || m.len() == 0 {
        0
    } else {
        let x = n - 1;
        let minor = det_raw(sub_grid(m, 0, x));
        let cof = if x % 2 == 1 {
            neg_raw(minor)
        } else {
            minor
        };
        add_raw(det_expand(m, (n - 1) as nat), mul_raw(cof, m[0][x]))
    }
}

/// The determinant of a square grid, as the kernel computes it: the closed
/// form for the two-by-two case, Laplace expansion along row zero above it.
pub open spec fn det_raw(m: Seq<Seq<int>>) -> int
    decreases m.len(), 1nat, 0nat,
{
    if m.len() == 2 {
        sub_raw(mul_raw(m[0][0], m[1][1]), mul_raw(m[0][1], m[1][0]))
    } else {
        det_expand(m, m.len())
    }
}

/// Determinant of the grid with row `y` and column `x` deleted.
pub open spec fn minor_raw(m: Seq<Seq<int>>, y: int, x: int) -> int {
    det_raw(sub_grid(m, y, x))
}

/// The signed minor: negated where `y + x` is odd.
pub open spec fn cof_raw(m: Seq<Seq<int>>, y: int, x: int) -> int {
    if (y + x) % 2 == 1 {
        neg_raw(minor_raw(m, y, x))
    } else {
        minor_raw(m, y, x)
    }
}

impl Matrix {
    /// A zero-filled matrix of the given dimensions.
    pub fn new(height: usize, width: usize) -> (r: Matrix)
        ensures
            r.wf(),
            r.height == height,
            r.width == width,
            forall|y: int, x: int|
                0 <= y < height && 0 <= x < width ==> #[trigger] r.ent(y, x) == 0,
    {
        let mut values: Vec<Vec<Scalar>> = Vec::new();
        let mut y: usize = 0;
        while y < height
            invariant
                y <= height,
                values@.len() == y,
                forall|i: int| 0 <= i < y ==> (#[trigger] values@[i])@.len() == width,
                forall|i: int, j: int|
                    0 <= i < y && 0 <= j < width ==> (#[trigger] values@[i]@[j]).raw == 0,
            decreases height - y,
        {
            let mut row: Vec<Scalar> = Vec::new();
            let mut x: usize = 0;
            while x < width
                invariant
                    x <= width,
                    row@.len() == x,
                    forall|j: int| 0 <= j < x ==> (#[trigger] row@[j]).raw == 0,
                decreases width - x,
            {
                row.push(Scalar::zero());
                x = x + 1;
            }
            values.push(row);
            y = y + 1;
        }
        Matrix { height, width, values }
    }

    /// Build a matrix from explicit row data. The rows must be uniform and
    /// at least one row must be supplied; malformed literal data is a
    /// programming error, so it is ruled out by precondition rather than
    /// reported as a recoverable error.
    pub fn with_values(values: Vec<Vec<Scalar>>) -> (r: Matrix)
        requires
            values@.len() >= 1,
            forall|y: int|
                0 <= y < values@.len() ==> (#[trigger] values@[y])@.len() == values@[0]@.len(),
        ensures
            r.wf(),
            r.height == values@.len(),
            r.width == values@[0]@.len(),
            forall|y: int, x: int|
                0 <= y < r.height && 0 <= x < r.width ==> #[trigger] r.ent(y, x) == values@[y]@[x].raw,
    {
        let height = values.len();
        let width = values[0].len();
        Matrix { height, width, values }
    }

    /// A fresh traversal over this matrix's cells, reporting `(row, col)`.
    pub fn iter(&self) -> (r: DimensionalIterator)
        ensures
            r.wf(),
            r.produced() == 0,
            r.reversed(),
            r.dims() == (self.height, self.width),
    {
        DimensionalIterator::matrix(self.dimensions())
    }

    /// The pair `(height, width)`.
    pub fn dimensions(&self) -> (r: (usize, usize))
        ensures
            r == (self.height, self.width),
    {
        (self.height, self.width)
    }

    /// Read the cell in row `y`, column `x`.
    pub fn at(&self, y: usize, x: usize) -> (r: Scalar)
        requires
            self.wf(),
            y < self.height,
            x < self.width,
        ensures
            r.raw as int == self.ent(y as int, x as int),
    {
        self.values[y][x]
    }

    /// Write the cell in row `y`, column `x`.
    pub fn set(&mut self, y: usize, x: usize, value: Scalar)
        requires
            old(self).wf(),
            y < old(self).height,
            x < old(self).width,
        ensures
            final(self).wf(),
            final(self).height == old(self).height,
            final(self).width == old(self).width,
            final(self).ent(y as int, x as int) == value.raw,
            forall|y2: int, x2: int|
                0 <= y2 < old(self).height && 0 <= x2 < old(self).width && !(y2 == y && x2 == x)
                    ==> #[trigger] final(self).ent(y2, x2) == old(self).ent(y2, x2),
    {
        self.values[y][x] = value;
    }

    /// The identity matrix of this matrix's dimensions: one on the main
    /// diagonal as far as it reaches, zero elsewhere.
    pub fn identity(&self) -> (r: Matrix)
        ensures
            r.wf(),
            r.height == self.height,
            r.width == self.width,
            forall|y: int, x: int|
                0 <= y < self.height && 0 <= x < self.width ==> #[trigger] r.ent(y, x) == (if y == x {
                    SCALE as int
                } else {
                    0
                }),
    {
        let mut id = Matrix::new(self.height, self.width);
        let mut y: usize = 0;
        while y < self.height
            invariant
                id.wf(),
                id.height == self.height,
                id.width == self.width,
                y <= self.height,
                forall|i: int, j: int|
                    0 <= i < y && 0 <= j < self.width ==> #[trigger] id.ent(i, j) == (if i == j {
                        SCALE as int
                    } else {
                        0
                    }),
                forall|i: int, j: int|
                    y <= i < self.height && 0 <= j < self.width ==> #[trigger] id.ent(i, j) == 0,
            decreases self.height - y,
        {
            if y < self.width {
                id.set(y, y, Scalar::one());
            }
            y = y + 1;
        }
        id
    }

    /// The identity matrix with `y` rows and `x` columns.
    pub fn new_identity(y: usize, x: usize) -> (r: Matrix)
        ensures
            r.wf(),
            r.height == y,
            r.width == x,
            forall|i: int, j: int|
                0 <= i < y && 0 <= j < x ==> #[trigger] r.ent(i, j) == (if i == j {
                    SCALE as int
                } else {
                    0
                }),
    {
        let m = Matrix::new(y, x);
        m.identity()
    }

    /// The matrix flipped about its main diagonal.
    pub fn transpose(&self) -> (r: Matrix)
        requires
            self.wf(),
        ensures
            r.wf(),
            r.height == self.width,
            r.width == self.height,
            forall|y: int, x: int|
                0 <= y < self.width && 0 <= x < self.height ==> #[trigger] r.ent(y, x) == self.ent(
                    x,
                    y,
                ),
    {
        let mut values: Vec<Vec<Scalar>> = Vec::new();
        let mut y: usize = 0;
        while y < self.width
            invariant
                self.wf(),
                y <= self.width,
                values@.len() == y,
                forall|i: int| 0 <= i < y ==> (#[trigger] values@[i])@.len() == self.height,
                forall|i: int, j: int|
                    0 <= i < y && 0 <= j < self.height ==> (#[trigger] values@[i]@[j]).raw
                        == self.ent(j, i),
            decreases self.width - y,
        {
            let mut row: Vec<Scalar> = Vec::new();
            let mut x: usize = 0;
            while x < self.height
                invariant
                    self.wf(),
                    y < self.width,
                    x <= self.height,
                    row@.len() == x,
                    forall|j: int| 0 <= j < x ==> (#[trigger] row@[j]).raw == self.ent(j, y as int),
                decreases self.height - x,
            {
                row.push(self.at(x, y));
                x = x + 1;
            }
            values.push(row);
            y = y + 1;
        }
        Matrix { height: self.width, width: self.height, values }
    }
}

/// Two rows of equal length whose cells are pairwise equal up to the
/// tolerance.
pub open spec fn row_feq(a: Seq<int>, b: Seq<int>) -> bool {
    a.len() == b.len() && forall|x: int| 0 <= x < a.len() ==> feq_raw(a[x], #[trigger] b[x])
}

impl PartialEq for Matrix {
    /// Same dimensions, and every pair of cells equal up to the tolerance.
    fn eq(&self, rhs: &Matrix) -> (r: bool) {
        if self.height != rhs.height || self.width != rhs.width {
            return false;
        }
        if self.values.len() != rhs.values.len() {
            return false;
        }
        let mut y: usize = 0;
        while y < self.values.len()
            invariant
                y <= self.values@.len(),
                self.values@.len() == rhs.values@.len(),
                forall|i: int| 0 <= i < y ==> row_feq(self.rows()[i], #[trigger] rhs.rows()[i]),
            decreases self.values@.len() - y,
        {
            if self.values[y].len() != rhs.values[y].len() {
                proof {
                    assert(self.rows()[y as int].len() != rhs.rows()[y as int].len());
                    assert(!row_feq(self.rows()[y as int], rhs.rows()[y as int]));
                }
                return false;
            }
            let mut x: usize = 0;
            while x < self.values[y].len()
                invariant
                    y < self.values@.len(),
                    self.values@.len() == rhs.values@.len(),
                    self.values@[y as int]@.len() == rhs.values@[y as int]@.len(),
                    x <= self.values@[y as int]@.len(),
                    forall|j: int|
                        0 <= j < x ==> feq_raw(
                            self.rows()[y as int][j],
                            #[trigger] rhs.rows()[y as int][j],
                        ),
                decreases self.values@[y as int]@.len() - x,
            {
                if !feq(self.values[y][x], rhs.values[y][x]) {
                    proof {
                        assert(!feq_raw(
                            self.rows()[y as int][x as int],
                            rhs.rows()[y as int][x as int],
                        ));
                        assert(!row_feq(self.rows()[y as int], rhs.rows()[y as int]));
                    }
                    return false;
                }
                x = x + 1;
            }
            y = y + 1;
        }
        true
    }
}

impl vstd::std_specs::cmp::PartialEqSpecImpl for Matrix {
    open spec fn obeys_eq_spec() -> bool {
        true
    }

    open spec fn eq_spec(&self, rhs: &Matrix) -> bool {
        &&& self.height == rhs.height
        &&& self.width == rhs.width
        &&& self.rows().len() == rhs.rows().len()
        &&& forall|y: int|
            0 <= y < self.rows().len() ==> row_feq(self.rows()[y], #[trigger] rhs.rows()[y])
    }
}

/// Transposing twice gives the original matrix back: whenever `t` is the
/// transpose of `m` and `u` the transpose of `t`, as `transpose` describes
/// them, `u` carries exactly the grid of `m`.
pub proof fn lemma_transpose_involution(m: Matrix, t: Matrix, u: Matrix)
    requires
        m.wf(),
        t.wf(),
        u.wf(),
        t.height == m.width,
        t.width == m.height,
        forall|y: int, x: int|
            0 <= y < t.height && 0 <= x < t.width ==> #[trigger] t.ent(y, x) == m.ent(x, y),
        u.height == t.width,
        u.width == t.height,
        forall|y: int, x: int|
            0 <= y < u.height && 0 <= x < u.width ==> #[trigger] u.ent(y, x) == t.ent(x, y),
    ensures
        u.height == m.height,
        u.width == m.width,
        u.rows() == m.rows(),
{
    assert forall|i: int| 0 <= i < m.height implies u.rows()[i] =~= m.rows()[i] by {
        assert(u.values@[i]@.len() == m.width);
        assert(m.values@[i]@.len() == m.width);
        assert forall|j: int| 0 <= j < m.width implies u.rows()[i][j] == m.rows()[i][j] by {
            assert(u.ent(i, j) == t.ent(j, i));
            assert(t.ent(j, i) == m.ent(i, j));
        }
    }
    assert(u.rows() =~~= m.rows());
}

/// The product of `lhs` and `rhs`, or a dimension mismatch report when the
/// width of `lhs` differs from the height of `rhs`.
fn matrix_mul_helper(lhs: &Matrix, rhs: &Matrix) -> (r: Result<Matrix, MatrixError>)
    requires
        lhs.wf(),
        rhs.wf(),
    ensures
        r is Ok <==> lhs.width == rhs.height,
        r matches Ok(m) ==> {
            &&& m.wf()
            &&& m.height == lhs.height
            &&& m.width == rhs.width
            &&& forall|y: int, x: int|
                0 <= y < m.height && 0 <= x < m.width ==> #[trigger] m.ent(y, x) == mat_mul_cell(
                    lhs.rows(),
                    rhs.rows(),
                    y,
                    x,
                )
        },
        r matches Err(e) ==> e == (MatrixError::DimensionMismatch),
{
    if lhs.width != rhs.height {
        return Err(MatrixError::DimensionMismatch);
    }

    let mut values: Vec<Vec<Scalar>> = Vec::new();
    let mut y: usize = 0;
    while y < lhs.height
        invariant
            lhs.wf(),
            rhs.wf(),
            lhs.width == rhs.height,
            y <= lhs.height,
            values@.len() == y,
            forall|i: int| 0 <= i < y ==> (#[trigger] values@[i])@.len() == rhs.width,
            forall|i: int, j: int|
                0 <= i < y && 0 <= j < rhs.width ==> (#[trigger] values@[i]@[j]).raw
                    == mat_mul_cell(lhs.rows(), rhs.rows(), i, j),
        decreases lhs.height - y,
    {
        let mut row: Vec<Scalar> = Vec::new();
        let mut x: usize = 0;
        while x < rhs.width
            invariant
                lhs.wf(),
                rhs.wf(),
                lhs.width == rhs.height,
                y < lhs.height,
                x <= rhs.width,
                row@.len() == x,
                forall|j: int|
                    0 <= j < x ==> (#[trigger] row@[j]).raw == mat_mul_cell(
                        lhs.rows(),
                        rhs.rows(),
                        y as int,
                        j,
                    ),
            decreases rhs.width - x,
        {
            let mut sum = Scalar::zero();
            let mut k: usize = 0;
            while k < lhs.width
                invariant
                    lhs.wf(),
                    rhs.wf(),
                    lhs.width == rhs.height,
                    y < lhs.height,
                    x < rhs.width,
                    k <= lhs.width,
                    sum.raw as int == mul_cell(lhs.rows(), rhs.rows(), y as int, x as int, k as nat),
                decreases lhs.width - k,
            {
                sum = sum.add(lhs.at(y, k).mul(rhs.at(k, x)));
                k = k + 1;
            }
            row.push(sum);
            x = x + 1;
        }
        values.push(row);
        y = y + 1;
    }
    Ok(Matrix { height: lhs.height, width: rhs.width, values })
}

impl Matrix {
    /// The matrix with row `skip_y` and column `skip_x` deleted; both must
    /// exist.
    pub fn submatrix(&self, skip_y: usize, skip_x: usize) -> (r: Result<Matrix, MatrixError>)
        requires
            self.wf(),
        ensures
            r is Ok <==> (skip_y < self.height && skip_x < self.width),
            r matches Ok(m) ==> {
                &&& m.wf()
                &&& m.height == self.height - 1
                &&& m.width == self.width - 1
                &&& m.rows() == sub_grid(self.rows(), skip_y as int, skip_x as int)
            },
            r matches Err(e) ==> e == (MatrixError::OutOfBounds),
    {
        if skip_y >= self.height || skip_x >= self.width {
            return Err(MatrixError::OutOfBounds);
        }
        let mut values: Vec<Vec<Scalar>> = Vec::new();
        let mut y: usize = 0;
        while y < self.height - 1
            invariant
                self.wf(),
                skip_y < self.height,
                skip_x < self.width,
                y <= self.height - 1,
                values@.len() == y,
                forall|i: int| 0 <= i < y ==> (#[trigger] values@[i])@.len() == self.width - 1,
                forall|i: int, j: int|
                    0 <= i < y && 0 <= j < self.width - 1 ==> (#[trigger] values@[i]@[j]).raw
                        == self.ent(
                        if i < skip_y {
                            i
                        } else {
                            i + 1
                        },
                        if j < skip_x {
                            j
                        } else {
                            j + 1
                        },
                    ),
            decreases self.height - 1 - y,
        {
            let sy = if y < skip_y {
                y
            } else {
                y + 1
            };
            let mut row: Vec<Scalar> = Vec::new();
            let mut x: usize = 0;
            while x < self.width - 1
                invariant
                    self.wf(),
                    skip_y < self.height,
                    skip_x < self.width,
                    y < self.height - 1,
                    sy == (if y < skip_y {
                        y as int
                    } else {
                        y + 1
                    }),
                    x <= self.width - 1,
                    row@.len() == x,
                    forall|j: int|
                        0 <= j < x ==> (#[trigger] row@[j]).raw == self.ent(
                            sy as int,
                            if j < skip_x {
                                j
                            } else {
                                j + 1
                            },
                        ),
                decreases self.width - 1 - x,
            {
                let sx = if x < skip_x {
                    x
                } else {
                    x + 1
                };
                row.push(self.at(sy, sx));
                x = x + 1;
            }
            values.push(row);
            y = y + 1;
        }
        let m = Matrix { height: self.height - 1, width: self.width - 1, values };
        proof {
            assert(m.rows() =~~= sub_grid(self.rows(), skip_y as int, skip_x as int));
        }
        Ok(m)
    }

    /// The determinant, defined for square matrices of the two-by-two base
    /// case and up.
    pub fn determinate(&self) -> (r: Result<Scalar, MatrixError>)
        requires
            self.wf(),
        ensures
            r is Ok <==> (self.is_square() && self.height >= 2),
            r matches Ok(d) ==> d.raw as int == det_raw(self.rows()),
            r matches Err(e) ==> e == (if !self.is_square() {
                MatrixError::NotSquare
            } else {
                MatrixError::TooSmall
            }),
        decreases self.height, 2nat,
    {
        if self.height != self.width {
            return Err(MatrixError::NotSquare);
        }
        if self.height < 2 {
            return Err(MatrixError::TooSmall);
        }
        if self.height == 2 {
            let a = self.at(0, 0);
            let b = self.at(0, 1);
            let c = self.at(1, 0);
            let d = self.at(1, 1);
            return Ok(a.mul(d).sub(b.mul(c)));
        }

        let mut acc = Scalar::zero();
        let mut x: usize = 0;
        while x < self.width
            invariant
                self.wf(),
                self.is_square(),
                self.height >= 3,
                x <= self.width,
                acc.raw as int == det_expand(self.rows(), x as nat),
            decreases self.width - x, 3nat,
        {
            let cof = match self.cofactor(0, x) {
                Ok(c) => c,
                Err(_) => {
                    proof {
                        assert(false);
                    }
                    Scalar::zero()
                },
            };
            acc = acc.add(cof.mul(self.at(0, x)));
            x = x + 1;
        }
        Ok(acc)
    }

    /// Determinant of the submatrix with row `y` and column `x` deleted.
    pub fn minor(&self, y: usize, x: usize) -> (r: Result<Scalar, MatrixError>)
        requires
            self.wf(),
        ensures
            r is Ok <==> (y < self.height && x < self.width && self.is_square() && self.height
                >= 3),
            r matches Ok(d) ==> d.raw as int == minor_raw(self.rows(), y as int, x as int),
            r matches Err(e) ==> e == (if !(y < self.height && x < self.width) {
                MatrixError::OutOfBounds
            } else if !self.is_square() {
                MatrixError::NotSquare
            } else {
                MatrixError::TooSmall
            }),
        decreases self.height, 0nat,
    {
        match self.submatrix(y, x) {
            Ok(m) => m.determinate(),
            Err(e) => Err(e),
        }
    }

    /// The cofactor: the minor, negated where `y + x` is odd.
    pub fn cofactor(&self, y: usize, x: usize) -> (r: Result<Scalar, MatrixError>)
        requires
            self.wf(),
        ensures
            r is Ok <==> (y < self.height && x < self.width && self.is_square() && self.height
                >= 3),
            r matches Ok(d) ==> d.raw as int == cof_raw(self.rows(), y as int, x as int),
            r matches Err(e) ==> e == (if !(y < self.height && x < self.width) {
                MatrixError::OutOfBounds
            } else if !self.is_square() {
                MatrixError::NotSquare
            } else {
                MatrixError::TooSmall
            }),
        decreases self.height, 1nat,
    {
        let odd = (y as u128 + x as u128) % 2 == 1;
        match self.minor(y, x) {
            Ok(m) => if odd {
                Ok(m.neg())
            } else {
                Ok(m)
            },
            Err(e) => Err(e),
        }
    }

    /// Whether the matrix has an inverse: a square matrix with a defined
    /// determinant that is not zero up to the tolerance.
    pub fn is_invertable(&self) -> (r: bool)
        requires
            self.wf(),
        ensures
            r == (self.is_square() && self.height >= 2 && !feq_raw(det_raw(self.rows()), 0)),
    {
        match self.determinate() {
            Ok(x) => {
                if feq(x, Scalar::zero()) {
                    false
                } else {
                    true
                }
            },
            Err(_) => false,
        }
    }

    /// The inverse by the adjugate rule: cell `(y, x)` is the cofactor of
    /// `(x, y)` divided by the determinant. Defined for invertible square
    /// matrices large enough that every cofactor is defined.
    pub fn inverse(&self) -> (r: Result<Matrix, MatrixError>)
        requires
            self.wf(),
        ensures
            r is Ok <==> (self.is_square() && self.height >= 3 && !feq_raw(det_raw(self.rows()), 0)),
            r matches Ok(m) ==> {
                &&& m.wf()
                &&& m.height == self.height
                &&& m.width == self.width
                &&& forall|y: int, x: int|
                    0 <= y < m.height && 0 <= x < m.width ==> #[trigger] m.ent(y, x) == div_raw(
                        cof_raw(self.rows(), x, y),
                        det_raw(self.rows()),
                    )
            },
            r matches Err(e) ==> e == (if !self.is_square() {
                MatrixError::NotSquare
            } else if self.height < 2 {
                MatrixError::TooSmall
            } else if feq_raw(det_raw(self.rows()), 0) {
                MatrixError::NotInvertible
            } else {
                MatrixError::TooSmall
            }),
    {
        let det = match self.determinate() {
            Ok(d) => d,
            Err(e) => {
                return Err(e);
            },
        };
        if feq(det, Scalar::zero()) {
            return Err(MatrixError::NotInvertible);
        }
        let mut values: Vec<Vec<Scalar>> = Vec::new();
        let mut y: usize = 0;
        while y < self.height
            invariant
                self.wf(),
                self.is_square(),
                self.height >= 2,
                det.raw as int == det_raw(self.rows()),
                !feq_raw(det.raw as int, 0),
                y <= self.height,
                y > 0 ==> self.height >= 3,
                values@.len() == y,
                forall|i: int| 0 <= i < y ==> (#[trigger] values@[i])@.len() == self.width,
                forall|i: int, j: int|
                    0 <= i < y && 0 <= j < self.width ==> (#[trigger] values@[i]@[j]).raw
                        == div_raw(cof_raw(self.rows(), j, i), det_raw(self.rows())),
            decreases self.height - y,
        {
            let mut row: Vec<Scalar> = Vec::new();
            let mut x: usize = 0;
            while x < self.width
                invariant
                    self.wf(),
                    self.is_square(),
                    self.height >= 2,
                    det.raw as int == det_raw(self.rows()),
                    !feq_raw(det.raw as int, 0),
                    y < self.height,
                    x <= self.width,
                    x > 0 ==> self.height >= 3,
                    row@.len() == x,
                    forall|j: int|
                        0 <= j < x ==> (#[trigger] row@[j]).raw == div_raw(
                            cof_raw(self.rows(), j, y as int),
                            det_raw(self.rows()),
                        ),
                decreases self.width - x,
            {
                let cof = match self.cofactor(x, y) {
                    Ok(c) => c,
                    Err(e) => {
                        return Err(e);
                    },
                };
                row.push(cof.div(det));
                x = x + 1;
            }
            values.push(row);
            y = y + 1;
        }
        Ok(Matrix { height: self.height, width: self.width, values })
    }

    /// Multiply this matrix by `rhs`: defined exactly when this matrix's
    /// width equals the height of `rhs`.
    pub fn mul(&self, rhs: &Matrix) -> (r: Result<Matrix, MatrixError>)
        requires
            self.wf(),
            rhs.wf(),
        ensures
            r is Ok <==> self.width == rhs.height,
            r matches Ok(m) ==> {
                &&& m.wf()
                &&& m.height == self.height
                &&& m.width == rhs.width
                &&& forall|y: int, x: int|
                    0 <= y < m.height && 0 <= x < m.width ==> #[trigger] m.ent(y, x)
                        == mat_mul_cell(self.rows(), rhs.rows(), y, x)
            },
            r matches Err(e) ==> e == (MatrixError::DimensionMismatch),
    {
        matrix_mul_helper(self, rhs)
    }
}

} // verus!
