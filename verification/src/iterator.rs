//! Dimensional iteration.
//!
//! A reusable traversal over a two-dimensional grid that yields every cell
//! coordinate exactly once. Canvas mode walks a `(width, height)` grid and
//! reports `(x, y)` with `x` moving fastest; matrix mode swaps the
//! dimension pair first, so it walks a `(height, width)` grid internally
//! and reports `(row, col)` with `col` moving fastest. A grid with zero
//! rows or zero columns yields nothing.

use vstd::prelude::*;
use vstd::arithmetic::div_mod::lemma_fundamental_div_mod;
use vstd::arithmetic::div_mod::lemma_fundamental_div_mod_converse;

verus! {

pub struct DimensionalIterator {
    pub dimensions: (usize, usize),
    pub position: (usize, usize),
    pub first_pass: bool,
    pub dimensions_reversed: bool,
}

pub fn reverse_tuple(tuple: (usize, usize), reverse: bool) -> (r: (usize, usize))
    ensures
        r == (if reverse {
            (tuple.1, tuple.0)
        } else {
            tuple
        }),
{
    if reverse {
        return (tuple.1, tuple.0);
    } else {
        return tuple;
    }
}

impl DimensionalIterator {
    /// Width of the grid as it is walked internally.
    pub open spec fn grid_width(&self) -> int {
        if self.dimensions_reversed {
            self.dimensions.1 as int
        } else {
            self.dimensions.0 as int
        }
    }

    /// Height of the grid as it is walked internally.
    pub open spec fn grid_height(&self) -> int {
        if self.dimensions_reversed {
            self.dimensions.0 as int
        } else {
            self.dimensions.1 as int
        }
    }

    pub open spec fn reversed(&self) -> bool {
        self.dimensions_reversed
    }

    pub open spec fn dims(&self) -> (usize, usize) {
        self.dimensions
    }

    /// How many coordinates the iterator yields in all.
    pub open spec fn total(&self) -> int {
        self.grid_width() * self.grid_height()
    }

    /// How many coordinates have been yielded so far.
    pub open spec fn produced(&self) -> int {
        if self.first_pass {
            0
        } else {
            self.position.1 * self.grid_width() + self.position.0 + 1
        }
    }

    /// The coordinate pair reported in step `n`.
    pub open spec fn coord_at(&self, n: int) -> (int, int)
        recommends
            0 <= n < self.total(),
    {
        let x = n % self.grid_width();
        let y = n / self.grid_width();
        if self.dimensions_reversed {
            (y, x)
        } else {
            (x, y)
        }
    }

    pub open spec fn wf(&self) -> bool {
        if self.first_pass {
            self.position == (0usize, 0usize)
        } else {
            self.position.0 < self.grid_width() && self.position.1 < self.grid_height()
        }
    }

    /// The traversal visits every cell exactly once: each in-range cell,
    /// taken here by its internal column `a` and row `b`, is reported at
    /// one step and no two steps report the same coordinate pair.
    pub proof fn lemma_visits_every_cell_once(self, a: int, b: int)
        requires
            0 <= a < self.grid_width(),
            0 <= b < self.grid_height(),
        ensures
            exists|n: int|
                0 <= n < self.total() && #[trigger] self.coord_at(n) == (if self.reversed() {
                    (b, a)
                } else {
                    (a, b)
                }),
            forall|n1: int, n2: int|
                0 <= n1 < self.total() && 0 <= n2 < self.total() && #[trigger] self.coord_at(n1)
                    == #[trigger] self.coord_at(n2) ==> n1 == n2,
    {
        let w = self.grid_width();
        let h = self.grid_height();
        let n = b * w + a;
        lemma_fundamental_div_mod_converse(n, w, b, a);
        assert(n < w * h) by (nonlinear_arith)
            requires
                0 <= a < w,
                0 <= b < h,
                n == b * w + a,
        {}
        assert(0 <= n < self.total() && self.coord_at(n) == (if self.reversed() {
            (b, a)
        } else {
            (a, b)
        }));
        assert forall|n1: int, n2: int|
            0 <= n1 < self.total() && 0 <= n2 < self.total() && #[trigger] self.coord_at(n1)
                == #[trigger] self.coord_at(n2) implies n1 == n2 by {
            lemma_fundamental_div_mod(n1, w);
            lemma_fundamental_div_mod(n2, w);
        }
    }

    /// A fresh traversal that reports `(x, y)` over a `(width, height)` grid.
    pub fn canvas(dimensions: (usize, usize)) -> (r: DimensionalIterator)
        ensures
            r.wf(),
            r.produced() == 0,
            !r.reversed(),
            r.dims() == dimensions,
    {
        DimensionalIterator {
            dimensions: dimensions,
            position: (0, 0),
            first_pass: true,
            dimensions_reversed: false,
        }
    }

    /// A fresh traversal that reports `(row, col)` over a `(height, width)` grid.
    pub fn matrix(dimensions: (usize, usize)) -> (r: DimensionalIterator)
        ensures
            r.wf(),
            r.produced() == 0,
            r.reversed(),
            r.dims() == dimensions,
    {
        DimensionalIterator {
            dimensions: dimensions,
            position: (0, 0),
            first_pass: true,
            dimensions_reversed: true,
        }
    }

    /// Yield the next coordinate pair, or `None` once every cell has been
    /// visited (immediately so on an empty grid).
    pub fn next(&mut self) -> (r: Option<(usize, usize)>)
        requires
            old(self).wf(),
        ensures
            final(self).wf(),
            final(self).dims() == old(self).dims(),
            final(self).reversed() == old(self).reversed(),
            old(self).produced() < old(self).total() ==> {
                &&& r matches Some(c) && c.0 as int == old(self).coord_at(old(self).produced()).0
                    && c.1 as int == old(self).coord_at(old(self).produced()).1
                &&& final(self).produced() == old(self).produced() + 1
            },
            old(self).produced() >= old(self).total() ==> r is None && *final(self) == *old(self),
    {
        let (width, height) = reverse_tuple(self.dimensions, self.dimensions_reversed);
        if width == 0 || height == 0 {
            proof {
                let w = self.grid_width();
                let h = self.grid_height();
                assert(w * h == 0) by (nonlinear_arith)
                    requires
                        w == 0 || h == 0,
                {}
            }
            return None;
        }
        let (x, y) = self.position;

        if self.first_pass {
            self.first_pass = false;
            proof {
                lemma_fundamental_div_mod_converse(0, self.grid_width(), 0, 0);
                let w = self.grid_width();
                let h = self.grid_height();
                assert(0 < w * h) by (nonlinear_arith)
                    requires
                        0 < w,
                        0 < h,
                {}
            }
            return Some(reverse_tuple(self.position, self.dimensions_reversed));
        }

        if x + 1 < width {
            self.position = (x + 1, y);
            proof {
                lemma_fundamental_div_mod_converse(
                    y * self.grid_width() + x + 1,
                    self.grid_width(),
                    y as int,
                    x + 1,
                );
                let w = self.grid_width();
                let h = self.grid_height();
                assert((y as int) * w + x + 1 < w * h) by (nonlinear_arith)
                    requires
                        0 <= x,
                        0 <= y,
                        x + 1 < w,
                        y < h,
                {}
            }
        } else if y + 1 < height {
            self.position = (0, y + 1);
            proof {
                lemma_fundamental_div_mod_converse(
                    (y + 1) * self.grid_width(),
                    self.grid_width(),
                    y + 1,
                    0,
                );
                assert((y + 1) * self.grid_width() == y * self.grid_width() + self.grid_width())
                    by (nonlinear_arith);
                let w = self.grid_width();
                let h = self.grid_height();
                assert((y as int) * w + x + 1 < w * h) by (nonlinear_arith)
                    requires
                        0 <= y,
                        x + 1 == w,
                        y + 1 < h,
                {}
            }
        } else {
            proof {
                let w = self.grid_width();
                let h = self.grid_height();
                assert((y as int) * w + x + 1 == w * h) by (nonlinear_arith)
                    requires
                        x + 1 == w,
                        y + 1 == h,
                {}
            }
            return None;
        }

        Some(reverse_tuple(self.position, self.dimensions_reversed))
    }
}

} // verus!
