//! Algebraic laws of matrix multiplication.
//!
//! The multiplication the kernel computes rounds each product to the
//! nearest representable scalar and saturates at the representable range,
//! so its results coincide with exact integer matrix multiplication as
//! long as every entry is a whole number of scalar units and nothing
//! saturates. Under those conditions multiplication is associative, and a
//! three-by-three matrix whose determinant divides its scaled cofactors
//! multiplies with its computed inverse to exactly the identity. This
//! module states and proves both, together with the bridge between the
//! rounded computation and the exact one.

use vstd::prelude::*;
use vstd::arithmetic::div_mod::lemma_fundamental_div_mod_converse;
use vstd::arithmetic::div_mod::lemma_fundamental_div_mod;
use vstd::arithmetic::div_mod::lemma_mod_multiples_basic;
use crate::matrix::Matrix;
use crate::matrix::ops::mul_cell;
use crate::matrix::ops::mat_mul_cell;
use crate::matrix::ops::sub_grid;
use crate::matrix::ops::det_expand;
use crate::matrix::ops::det_raw;
use crate::matrix::ops::minor_raw;
use crate::matrix::ops::cof_raw;
use crate::scalar::sub_raw;
use crate::scalar::neg_raw;
use crate::scalar::div_raw;
use crate::scalar::clip_raw;
use crate::scalar::add_raw;
use crate::scalar::mul_raw;
use crate::scalar::abs_raw;
use crate::scalar::SCALE;
use crate::scalar::MAX_RAW;

verus! {

/// A grid with `h` rows, each `w` long.
pub open spec fn grid_wf(m: Seq<Seq<int>>, h: int, w: int) -> bool {
    m.len() == h && forall|y: int| 0 <= y < h ==> (#[trigger] m[y]).len() == w
}

/// Width of a grid, read off its first row.
pub open spec fn grid_width(m: Seq<Seq<int>>) -> nat {
    if m.len() > 0 {
        m[0].len()
    } else {
        0
    }
}

/// The first `k` products of row `y` of `a` against column `x` of `b`,
/// summed with mathematical integers: no rounding, no saturation.
pub open spec fn exact_cell(a: Seq<Seq<int>>, b: Seq<Seq<int>>, y: int, x: int, k: nat) -> int
    decreases k,
{
    if k == 0 {
        0
    } else {
        exact_cell(a, b, y, x, (k - 1) as nat) + a[y][k - 1] * b[k - 1][x]
    }
}

/// Exact integer matrix product of `a` and `b`.
pub open spec fn exact_mul(a: Seq<Seq<int>>, b: Seq<Seq<int>>) -> Seq<Seq<int>> {
    Seq::new(a.len(), |y: int| Seq::new(grid_width(b), |x: int| exact_cell(a, b, y, x, b.len())))
}

/// The product grid as the kernel's multiplication describes it: cell by
/// cell through `mat_mul_cell`.
pub open spec fn mat_mul_grid(a: Seq<Seq<int>>, b: Seq<Seq<int>>) -> Seq<Seq<int>> {
    Seq::new(a.len(), |y: int| Seq::new(grid_width(b), |x: int| mat_mul_cell(a, b, y, x)))
}

/// Partial double sum, grouped as `((a b) c)`: the first `j` terms of
/// `exact_cell(a, b, y, t, kk) * c[t][w]`.
spec fn lhs_sum(
    a: Seq<Seq<int>>,
    b: Seq<Seq<int>>,
    c: Seq<Seq<int>>,
    y: int,
    w: int,
    j: nat,
    kk: nat,
) -> int
    decreases j,
{
    if j == 0 {
        0
    } else {
        lhs_sum(a, b, c, y, w, (j - 1) as nat, kk) + exact_cell(a, b, y, j - 1, kk) * c[j - 1][w]
    }
}

/// Partial double sum, grouped as `(a (b c))`: the first `k` terms of
/// `a[y][t] * exact_cell(b, c, t, w, jj)`.
spec fn rhs_sum(
    a: Seq<Seq<int>>,
    b: Seq<Seq<int>>,
    c: Seq<Seq<int>>,
    y: int,
    w: int,
    k: nat,
    jj: nat,
) -> int
    decreases k,
{
    if k == 0 {
        0
    } else {
        rhs_sum(a, b, c, y, w, (k - 1) as nat, jj) + a[y][k - 1] * exact_cell(b, c, k - 1, w, jj)
    }
}

proof fn lemma_lhs_zero(a: Seq<Seq<int>>, b: Seq<Seq<int>>, c: Seq<Seq<int>>, y: int, w: int, j: nat)
    ensures
        lhs_sum(a, b, c, y, w, j, 0) == 0,
    decreases j,
{
    if j > 0 {
        lemma_lhs_zero(a, b, c, y, w, (j - 1) as nat);
    }
}

proof fn lemma_lhs_step(
    a: Seq<Seq<int>>,
    b: Seq<Seq<int>>,
    c: Seq<Seq<int>>,
    y: int,
    w: int,
    j: nat,
    kk: nat,
)
    requires
        kk >= 1,
    ensures
        lhs_sum(a, b, c, y, w, j, kk) == lhs_sum(a, b, c, y, w, j, (kk - 1) as nat) + a[y][kk - 1]
            * exact_cell(b, c, kk - 1, w, j),
    decreases j,
{
    if j == 0 {
    } else {
        lemma_lhs_step(a, b, c, y, w, (j - 1) as nat, kk);
        let p = exact_cell(a, b, y, j - 1, (kk - 1) as nat);
        let q = a[y][kk - 1];
        let r = b[kk - 1][j - 1];
        let cc = c[j - 1][w];
        let s = exact_cell(b, c, kk - 1, w, (j - 1) as nat);
        assert((p + q * r) * cc == p * cc + q * (r * cc)) by (nonlinear_arith);
        assert(q * s + q * (r * cc) == q * (s + r * cc)) by (nonlinear_arith);
    }
}

/// The two groupings of the double sum agree.
proof fn lemma_swap(
    a: Seq<Seq<int>>,
    b: Seq<Seq<int>>,
    c: Seq<Seq<int>>,
    y: int,
    w: int,
    j: nat,
    k: nat,
)
    ensures
        lhs_sum(a, b, c, y, w, j, k) == rhs_sum(a, b, c, y, w, k, j),
    decreases k,
{
    if k == 0 {
        lemma_lhs_zero(a, b, c, y, w, j);
    } else {
        lemma_lhs_step(a, b, c, y, w, j, k);
        lemma_swap(a, b, c, y, w, j, (k - 1) as nat);
    }
}

proof fn lemma_lhs_bridge(
    a: Seq<Seq<int>>,
    b: Seq<Seq<int>>,
    c: Seq<Seq<int>>,
    y: int,
    w: int,
    j: nat,
)
    requires
        0 <= y < a.len(),
        j <= grid_width(b),
    ensures
        exact_cell(exact_mul(a, b), c, y, w, j) == lhs_sum(a, b, c, y, w, j, b.len()),
    decreases j,
{
    if j > 0 {
        lemma_lhs_bridge(a, b, c, y, w, (j - 1) as nat);
        assert(exact_mul(a, b)[y][j - 1] == exact_cell(a, b, y, j - 1, b.len()));
    }
}

proof fn lemma_rhs_bridge(
    a: Seq<Seq<int>>,
    b: Seq<Seq<int>>,
    c: Seq<Seq<int>>,
    y: int,
    w: int,
    k: nat,
)
    requires
        k <= b.len(),
        0 <= w < grid_width(c),
    ensures
        exact_cell(a, exact_mul(b, c), y, w, k) == rhs_sum(a, b, c, y, w, k, c.len()),
    decreases k,
{
    if k > 0 {
        lemma_rhs_bridge(a, b, c, y, w, (k - 1) as nat);
        assert(exact_mul(b, c)[k - 1][w] == exact_cell(b, c, k - 1, w, c.len()));
    }
}

/// Exact integer matrix multiplication is associative: for grids with
/// compatible shapes, `(a b) c` and `a (b c)` are the same grid.
pub proof fn lemma_exact_mul_assoc(
    a: Seq<Seq<int>>,
    b: Seq<Seq<int>>,
    c: Seq<Seq<int>>,
    h: int,
    n: int,
    p: int,
    q: int,
)
    requires
        grid_wf(a, h, n),
        grid_wf(b, n, p),
        grid_wf(c, p, q),
        h >= 1,
        n >= 1,
        p >= 1,
    ensures
        exact_mul(exact_mul(a, b), c) == exact_mul(a, exact_mul(b, c)),
{
    let ab = exact_mul(a, b);
    let bc = exact_mul(b, c);
    assert(grid_width(b) == p);
    assert(grid_width(c) == q);
    assert(ab.len() == h);
    assert(bc.len() == n);
    assert(grid_width(ab) == p);
    assert(grid_width(bc) == q);
    assert forall|y: int, w: int|
        0 <= y < h && 0 <= w < q implies #[trigger] exact_cell(ab, c, y, w, c.len())
        == exact_cell(a, bc, y, w, b.len()) by {
        lemma_lhs_bridge(a, b, c, y, w, p as nat);
        lemma_rhs_bridge(a, b, c, y, w, n as nat);
        lemma_swap(a, b, c, y, w, p as nat, n as nat);
    }
    assert forall|y: int| 0 <= y < h implies exact_mul(ab, c)[y] =~= exact_mul(a, bc)[y] by {
        assert(exact_mul(ab, c)[y].len() == q);
        assert(exact_mul(a, bc)[y].len() == q);
        assert forall|w: int|
            0 <= w < q implies exact_mul(ab, c)[y][w] == exact_mul(a, bc)[y][w] by {
            assert(exact_mul(ab, c)[y][w] == exact_cell(ab, c, y, w, c.len()));
            assert(exact_mul(a, bc)[y][w] == exact_cell(a, bc, y, w, bc.len()));
        }
    }
    assert(exact_mul(exact_mul(a, b), c) =~~= exact_mul(a, exact_mul(b, c)));
}

/// Every cell of the grid is a whole number of scalar units.
pub open spec fn integral_grid(m: Seq<Seq<int>>) -> bool {
    forall|y: int, x: int|
        0 <= y < m.len() && 0 <= x < m[y].len() ==> (#[trigger] m[y][x]) % (SCALE as int) == 0
}

/// Every cell of the grid has magnitude at most `e` raw units.
pub open spec fn grid_bounded(m: Seq<Seq<int>>, e: int) -> bool {
    forall|y: int, x: int|
        0 <= y < m.len() && 0 <= x < m[y].len() ==> abs_raw(#[trigger] m[y][x]) <= e
}

/// Multiplying two whole numbers of scalar units neither rounds nor
/// saturates, as long as the product of their magnitudes stays under the
/// saturation bound.
proof fn lemma_mul_raw_exact(u: int, v: int)
    requires
        u % (SCALE as int) == 0,
        v % (SCALE as int) == 0,
        abs_raw(u * v) <= MAX_RAW as int * SCALE as int,
    ensures
        mul_raw(u, v) * (SCALE as int) == u * v,
        mul_raw(u, v) % (SCALE as int) == 0,
{
    let s = SCALE as int;
    let n = u * v;
    let p = u / s;
    let q = v / s;
    lemma_fundamental_div_mod(u, s);
    lemma_fundamental_div_mod(v, s);
    assert(u == p * s && v == q * s);
    let m = p * q;
    assert(n == (m * s) * s) by (nonlinear_arith)
        requires
            u == p * s,
            v == q * s,
            n == u * v,
            m == p * q,
    {}
    assert(abs_raw(n) == (abs_raw(m) * s) * s && (n < 0 <==> m < 0) && abs_raw(m * s) == abs_raw(m)
        * s) by (nonlinear_arith)
        requires
            n == (m * s) * s,
            s > 0,
    {}
    lemma_fundamental_div_mod_converse((abs_raw(m) * s) * s + s / 2, s, abs_raw(m) * s, s / 2);
    assert((abs_raw(n) + s / 2) / s == abs_raw(m) * s);
    assert(crate::scalar::round_div_raw(n, s) == m * s);
    assert(abs_raw(m) * s <= MAX_RAW as int);
    assert(mul_raw(u, v) == m * s);
    lemma_mod_multiples_basic(m, s);
}

/// A cell of the rounded product equals the exact integer cell scaled
/// down, whenever every entry involved is a whole number of scalar units
/// and neither the products nor the partial sums reach the saturation
/// bound.
proof fn lemma_mul_cell_exact(a: Seq<Seq<int>>, b: Seq<Seq<int>>, y: int, x: int, k: nat)
    requires
        forall|t: int|
            0 <= t < k ==> (#[trigger] a[y][t]) % (SCALE as int) == 0 && b[t][x] % (SCALE as int)
                == 0 && abs_raw(a[y][t] * b[t][x]) <= MAX_RAW as int * SCALE as int,
        forall|t: nat|
            t <= k ==> abs_raw(#[trigger] exact_cell(a, b, y, x, t)) <= MAX_RAW as int
                * SCALE as int,
    ensures
        mul_cell(a, b, y, x, k) * (SCALE as int) == exact_cell(a, b, y, x, k),
        mul_cell(a, b, y, x, k) % (SCALE as int) == 0,
    decreases k,
{
    let s = SCALE as int;
    if k == 0 {
        lemma_mod_multiples_basic(0, s);
    } else {
        lemma_mul_cell_exact(a, b, y, x, (k - 1) as nat);
        lemma_mul_raw_exact(a[y][k - 1], b[k - 1][x]);
        let acc = mul_cell(a, b, y, x, (k - 1) as nat);
        let term = mul_raw(a[y][k - 1], b[k - 1][x]);
        assert((acc + term) * s == exact_cell(a, b, y, x, k)) by (nonlinear_arith)
            requires
                acc * s == exact_cell(a, b, y, x, (k - 1) as nat),
                term * s == a[y][k - 1] * b[k - 1][x],
                exact_cell(a, b, y, x, k) == exact_cell(a, b, y, x, (k - 1) as nat) + a[y][k - 1]
                    * b[k - 1][x],
    {}
        assert(abs_raw(exact_cell(a, b, y, x, k)) <= MAX_RAW as int * s);
        assert(abs_raw(acc + term) <= MAX_RAW as int) by (nonlinear_arith)
            requires
                (acc + term) * s == exact_cell(a, b, y, x, k),
                abs_raw(exact_cell(a, b, y, x, k)) <= MAX_RAW as int * s,
                s > 0,
        {}
        assert(add_raw(acc, term) == acc + term);
        assert((acc + term) % s == 0) by {
            lemma_mod_multiples_basic(acc / s + term / s, s);
            lemma_fundamental_div_mod(acc, s);
            lemma_fundamental_div_mod(term, s);
            assert((acc / s + term / s) * s == acc + term) by (nonlinear_arith)
                requires
                    acc == (acc / s) * s,
                    term == (term / s) * s,
            {}
        }
    }
}

/// The magnitude of an exact cell grows at most linearly in the number of
/// terms, each bounded by the product of the entry bounds.
proof fn lemma_exact_cell_bound(
    a: Seq<Seq<int>>,
    b: Seq<Seq<int>>,
    y: int,
    x: int,
    k: nat,
    e1: int,
    e2: int,
)
    requires
        e1 >= 0,
        e2 >= 0,
        forall|t: int| 0 <= t < k ==> abs_raw(#[trigger] a[y][t]) <= e1 && abs_raw(b[t][x]) <= e2,
    ensures
        abs_raw(exact_cell(a, b, y, x, k)) <= k * (e1 * e2),
    decreases k,
{
    if k > 0 {
        lemma_exact_cell_bound(a, b, y, x, (k - 1) as nat, e1, e2);
        assert(abs_raw(a[y][k - 1] * b[k - 1][x]) <= e1 * e2) by (nonlinear_arith)
            requires
                abs_raw(a[y][k - 1]) <= e1,
                abs_raw(b[k - 1][x]) <= e2,
                e1 >= 0,
                e2 >= 0,
        {}
        assert((k - 1) * (e1 * e2) + e1 * e2 == k * (e1 * e2)) by (nonlinear_arith);
    }
}

/// A rounded quotient is exact when the denominator divides the scaled
/// numerator and the quotient stays inside the saturation range.
proof fn lemma_div_raw_exact(a: int, d: int)
    requires
        d != 0,
        (a * SCALE as int) % d == 0,
        abs_raw(a) * SCALE as int <= (MAX_RAW - 1) as int * abs_raw(d),
    ensures
        div_raw(a, d) * d == a * SCALE as int,
{
    let s = SCALE as int;
    let n = a * s;
    let an = abs_raw(n);
    let ad = abs_raw(d);
    assert(an == abs_raw(a) * s) by (nonlinear_arith)
        requires
            n == a * s,
            s > 0,
            an == abs_raw(n),
    {}
    let k0 = n / d;
    lemma_fundamental_div_mod(n, d);
    assert(n == d * k0);
    assert(an == abs_raw(k0) * ad) by (nonlinear_arith)
        requires
            n == d * k0,
            an == abs_raw(n),
            ad == abs_raw(d),
    {}
    let k = abs_raw(k0);
    assert(an == k * ad);
    lemma_fundamental_div_mod_converse(k * ad + ad / 2, ad, k, ad / 2);
    assert((an + ad / 2) / ad == k);
    let r = crate::scalar::round_div_raw(n, d);
    assert(r * d == n) by (nonlinear_arith)
        requires
            an == k * ad,
            an == abs_raw(n),
            ad == abs_raw(d),
            d != 0,
            r == (if (n < 0) <==> (d < 0) {
                k
            } else {
                -k
            }),
    {}
    assert(k * ad <= ((MAX_RAW - 1) as int) * ad);
    assert(k <= (MAX_RAW - 1) as int) by (nonlinear_arith)
        requires
            k * ad <= ((MAX_RAW - 1) as int) * ad,
            ad > 0,
            k >= 0,
    {}
    assert(clip_raw(r) == r);
}

/// Multiplying a whole number of units by any raw value is exact, as long
/// as the result stays inside the saturation range.
proof fn lemma_mul_raw_mixed(a: int, w: int)
    requires
        a % (SCALE as int) == 0,
        abs_raw((a / SCALE as int) * w) <= MAX_RAW as int,
    ensures
        mul_raw(a, w) == (a / SCALE as int) * w,
{
    let s = SCALE as int;
    let u = a / s;
    lemma_fundamental_div_mod(a, s);
    assert(a == u * s);
    let n = a * w;
    assert(n == (u * w) * s && abs_raw(n) == abs_raw(u * w) * s && (n < 0 <==> u * w < 0))
        by (nonlinear_arith)
        requires
            a == u * s,
            n == a * w,
            s > 0,
    {}
    lemma_fundamental_div_mod_converse(abs_raw(u * w) * s + s / 2, s, abs_raw(u * w), s / 2);
    assert((abs_raw(n) + s / 2) / s == abs_raw(u * w));
    assert(crate::scalar::round_div_raw(n, s) == u * w);
    assert(clip_raw(u * w) == u * w);
}

/// Index of the first row or column of a three-by-three grid other than
/// `k`, and of the second.
pub open spec fn oi0(k: int) -> int {
    if k == 0 {
        1
    } else {
        0
    }
}

pub open spec fn oi1(k: int) -> int {
    if k == 2 {
        1
    } else {
        2
    }
}

/// On a three-by-three grid of whole units with room under the saturation
/// bound, a minor is the exact two-by-two determinant of the remaining
/// entries, scaled.
proof fn lemma_minor3(m: Seq<Seq<int>>, y: int, x: int, e: int)
    requires
        grid_wf(m, 3, 3),
        integral_grid(m),
        grid_bounded(m, e),
        e >= 0,
        0 <= y < 3,
        0 <= x < 3,
        2 * (e * e) <= MAX_RAW as int * SCALE as int,
    ensures
        minor_raw(m, y, x) * SCALE as int == m[oi0(y)][oi0(x)] * m[oi1(y)][oi1(x)] - m[oi0(y)][oi1(
            x,
        )] * m[oi1(y)][oi0(x)],
        minor_raw(m, y, x) % (SCALE as int) == 0,
        abs_raw(minor_raw(m, y, x)) * SCALE as int <= 2 * (e * e),
{
    let s = SCALE as int;
    let sg = sub_grid(m, y, x);
    assert(m[0].len() == 3 && m[1].len() == 3 && m[2].len() == 3);
    assert(sg.len() == 2 && sg[0].len() == 2 && sg[1].len() == 2);
    let aa = m[oi0(y)][oi0(x)];
    let bb = m[oi0(y)][oi1(x)];
    let cc = m[oi1(y)][oi0(x)];
    let dd = m[oi1(y)][oi1(x)];
    assert(sg[0][0] == aa && sg[0][1] == bb && sg[1][0] == cc && sg[1][1] == dd);
    assert(aa % s == 0 && bb % s == 0 && cc % s == 0 && dd % s == 0);
    assert(abs_raw(aa * dd) <= e * e && abs_raw(bb * cc) <= e * e) by (nonlinear_arith)
        requires
            abs_raw(aa) <= e,
            abs_raw(bb) <= e,
            abs_raw(cc) <= e,
            abs_raw(dd) <= e,
            e >= 0,
    {}
    lemma_mul_raw_exact(aa, dd);
    lemma_mul_raw_exact(bb, cc);
    let p = mul_raw(aa, dd);
    let q = mul_raw(bb, cc);
    assert(abs_raw(p - q) * s <= 2 * (e * e)) by (nonlinear_arith)
        requires
            p * s == aa * dd,
            q * s == bb * cc,
            abs_raw(aa * dd) <= e * e,
            abs_raw(bb * cc) <= e * e,
            s > 0,
    {}
    assert(abs_raw(p - q) <= MAX_RAW as int) by (nonlinear_arith)
        requires
            abs_raw(p - q) * s <= 2 * (e * e),
            2 * (e * e) <= MAX_RAW as int * s,
            s > 0,
    {}
    assert(minor_raw(m, y, x) == sub_raw(p, q));
    assert(sub_raw(p, q) == p - q);
    assert((p - q) % s == 0) by {
        lemma_fundamental_div_mod(p, s);
        lemma_fundamental_div_mod(q, s);
        lemma_mod_multiples_basic(p / s - q / s, s);
        assert((p / s - q / s) * s == p - q) by (nonlinear_arith)
            requires
                p == (p / s) * s,
                q == (q / s) * s,
        {}
    }
    assert((p - q) * s == aa * dd - bb * cc);
}

/// On the same grids, a cofactor is the signed exact minor.
proof fn lemma_cof3(m: Seq<Seq<int>>, y: int, x: int, e: int)
    requires
        grid_wf(m, 3, 3),
        integral_grid(m),
        grid_bounded(m, e),
        e >= 0,
        0 <= y < 3,
        0 <= x < 3,
        2 * (e * e) <= MAX_RAW as int * SCALE as int,
    ensures
        cof_raw(m, y, x) * SCALE as int == (if (y + x) % 2 == 1 {
            -(m[oi0(y)][oi0(x)] * m[oi1(y)][oi1(x)] - m[oi0(y)][oi1(x)] * m[oi1(y)][oi0(x)])
        } else {
            m[oi0(y)][oi0(x)] * m[oi1(y)][oi1(x)] - m[oi0(y)][oi1(x)] * m[oi1(y)][oi0(x)]
        }),
        abs_raw(cof_raw(m, y, x)) * SCALE as int <= 2 * (e * e),
{
    let s = SCALE as int;
    lemma_minor3(m, y, x, e);
    let mi = minor_raw(m, y, x);
    if (y + x) % 2 == 1 {
        assert(abs_raw(mi) <= MAX_RAW as int);
        assert(neg_raw(mi) == -mi);
        assert((-mi) * s == -(mi * s)) by (nonlinear_arith);
    }
}

/// On the same grids, the determinant is the exact cofactor expansion of
/// the scaled minors along row zero.
proof fn lemma_det3(m: Seq<Seq<int>>, e: int)
    requires
        grid_wf(m, 3, 3),
        integral_grid(m),
        grid_bounded(m, e),
        e >= 0,
        2 * (e * e) <= MAX_RAW as int * SCALE as int,
        6 * ((e * e) * e) <= MAX_RAW as int * (SCALE as int * SCALE as int),
    ensures
        det_raw(m) * SCALE as int == minor_raw(m, 0, 0) * m[0][0] - minor_raw(m, 0, 1) * m[0][1]
            + minor_raw(m, 0, 2) * m[0][2],
        det_raw(m) % (SCALE as int) == 0,
        abs_raw(det_raw(m)) * (SCALE as int * SCALE as int) <= 6 * ((e * e) * e),
{
    let s = SCALE as int;
    let mr = MAX_RAW as int;
    assert(m[0].len() == 3);
    lemma_minor3(m, 0, 0, e);
    lemma_minor3(m, 0, 1, e);
    lemma_minor3(m, 0, 2, e);
    let mi0 = minor_raw(m, 0, 0);
    let mi1 = minor_raw(m, 0, 1);
    let mi2 = minor_raw(m, 0, 2);
    assert(abs_raw(mi1) <= mr);
    assert(neg_raw(mi1) == -mi1) by (nonlinear_arith)
        requires
            abs_raw(mi1) * s <= 2 * (e * e),
            2 * (e * e) <= mr * s,
            s > 0,
            neg_raw(mi1) == clip_raw(-mi1),
            clip_raw(-mi1) == (if -mi1 > mr {
                mr
            } else if -mi1 < -mr {
                -mr
            } else {
                -mi1
            }),
    {}
    assert((-mi1) % s == 0) by {
        lemma_fundamental_div_mod(mi1, s);
        lemma_mod_multiples_basic(-(mi1 / s), s);
        assert((-(mi1 / s)) * s == -mi1) by (nonlinear_arith)
            requires
                mi1 == (mi1 / s) * s,
        {}
    }
    // Each expansion term multiplies exactly and the running sums stay in
    // range.
    assert(abs_raw(mi0 * m[0][0]) <= mr * s && abs_raw((-mi1) * m[0][1]) <= mr * s && abs_raw(mi2
        * m[0][2]) <= mr * s) by (nonlinear_arith)
        requires
            abs_raw(mi0) * s <= 2 * (e * e),
            abs_raw(mi1) * s <= 2 * (e * e),
            abs_raw(mi2) * s <= 2 * (e * e),
            abs_raw(m[0][0]) <= e,
            abs_raw(m[0][1]) <= e,
            abs_raw(m[0][2]) <= e,
            6 * ((e * e) * e) <= mr * (s * s),
            e >= 0,
            s > 0,
    {}
    lemma_mul_raw_exact(mi0, m[0][0]);
    lemma_mul_raw_exact(-mi1, m[0][1]);
    lemma_mul_raw_exact(mi2, m[0][2]);
    let t0 = mul_raw(mi0, m[0][0]);
    let t1 = mul_raw(-mi1, m[0][1]);
    let t2 = mul_raw(mi2, m[0][2]);
    assert(abs_raw(t0) * (s * s) <= 2 * ((e * e) * e) && abs_raw(t1) * (s * s) <= 2 * ((e * e) * e)
        && abs_raw(t2) * (s * s) <= 2 * ((e * e) * e)) by (nonlinear_arith)
        requires
            t0 * s == mi0 * m[0][0],
            t1 * s == (-mi1) * m[0][1],
            t2 * s == mi2 * m[0][2],
            abs_raw(mi0) * s <= 2 * (e * e),
            abs_raw(mi1) * s <= 2 * (e * e),
            abs_raw(mi2) * s <= 2 * (e * e),
            abs_raw(m[0][0]) <= e,
            abs_raw(m[0][1]) <= e,
            abs_raw(m[0][2]) <= e,
            e >= 0,
            s > 0,
    {}
    assert(abs_raw(t0) <= mr && abs_raw(t0 + t1) <= mr && abs_raw(t0 + t1 + t2) <= mr)
        by (nonlinear_arith)
        requires
            abs_raw(t0) * (s * s) <= 2 * ((e * e) * e),
            abs_raw(t1) * (s * s) <= 2 * ((e * e) * e),
            abs_raw(t2) * (s * s) <= 2 * ((e * e) * e),
            6 * ((e * e) * e) <= mr * (s * s),
            s > 0,
    {}
    reveal_with_fuel(crate::matrix::ops::det_expand, 4);
    assert(det_raw(m) == det_expand(m, 3));
    assert(det_expand(m, 1) == add_raw(0, t0));
    assert(det_expand(m, 2) == add_raw(t0, t1));
    assert(det_expand(m, 3) == add_raw(t0 + t1, t2));
    assert(det_raw(m) == t0 + t1 + t2);
    assert(det_raw(m) * s == mi0 * m[0][0] + (-mi1) * m[0][1] + mi2 * m[0][2]);
    assert((-mi1) * m[0][1] == -(mi1 * m[0][1])) by (nonlinear_arith);
    assert((t0 + t1 + t2) % s == 0) by {
        lemma_fundamental_div_mod(t0, s);
        lemma_fundamental_div_mod(t1, s);
        lemma_fundamental_div_mod(t2, s);
        lemma_mod_multiples_basic(t0 / s + t1 / s + t2 / s, s);
        assert((t0 / s + t1 / s + t2 / s) * s == t0 + t1 + t2) by (nonlinear_arith)
            requires
                t0 == (t0 / s) * s,
                t1 == (t1 / s) * s,
                t2 == (t2 / s) * s,
        {}
    }
    assert(abs_raw(t0 + t1 + t2) * (s * s) <= 6 * ((e * e) * e)) by (nonlinear_arith)
        requires
            abs_raw(t0) * (s * s) <= 2 * ((e * e) * e),
            abs_raw(t1) * (s * s) <= 2 * ((e * e) * e),
            abs_raw(t2) * (s * s) <= 2 * ((e * e) * e),
            s > 0,
    {}
}

/// Distributing a product over a difference.
proof fn lemma_expand(x: int, y: int, z: int)
    ensures
        x * (y - z) == x * y - x * z,
{
    assert(x * (y - z) == x * y - x * z) by (nonlinear_arith);
}

/// Reorderings of a product of three factors.
proof fn lemma_rot(x: int, y: int, z: int)
    ensures
        x * (y * z) == y * (x * z),
        x * (y * z) == z * (x * y),
        x * (y * z) == (y * z) * x,
        x * (y * z) == x * (z * y),
{
    assert(x * (y * z) == y * (x * z) && x * (y * z) == z * (x * y) && x * (y * z) == (y * z) * x
        && x * (y * z) == x * (z * y)) by (nonlinear_arith);
}

/// Negation moves out of a product.
proof fn lemma_neg_mul(x: int, y: int)
    ensures
        x * (-y) == -(x * y),
{
    assert(x * (-y) == -(x * y)) by (nonlinear_arith);
}

/// A row dotted with the cofactors built from itself and one other row
/// vanishes.
proof fn lemma_alien1(p0: int, p1: int, p2: int, q0: int, q1: int, q2: int)
    ensures
        p0 * (p1 * q2 - p2 * q1) - p1 * (p0 * q2 - p2 * q0) + p2 * (p0 * q1 - p1 * q0) == 0,
{
    lemma_expand(p0, p1 * q2, p2 * q1);
    lemma_expand(p1, p0 * q2, p2 * q0);
    lemma_expand(p2, p0 * q1, p1 * q0);
    lemma_rot(p0, p1, q2);
    lemma_rot(p0, p2, q1);
    lemma_rot(p1, p2, q0);
}

/// So does the other row.
proof fn lemma_alien2(p0: int, p1: int, p2: int, q0: int, q1: int, q2: int)
    ensures
        q0 * (p1 * q2 - p2 * q1) - q1 * (p0 * q2 - p2 * q0) + q2 * (p0 * q1 - p1 * q0) == 0,
{
    lemma_expand(q0, p1 * q2, p2 * q1);
    lemma_expand(q1, p0 * q2, p2 * q0);
    lemma_expand(q2, p0 * q1, p1 * q0);
    lemma_rot(q0, p1, q2);
    lemma_rot(q0, p2, q1);
    lemma_rot(q1, p0, q2);
    lemma_rot(q1, p2, q0);
    lemma_rot(q2, p0, q1);
    lemma_rot(q2, p1, q0);
    lemma_rot(p1, q2, q0);
    lemma_rot(p2, q0, q1);
    lemma_rot(p0, q2, q1);
}

/// Laplace expansion along the middle row agrees with expansion along the
/// top row.
proof fn lemma_laplace1(
    a0: int,
    a1: int,
    a2: int,
    b0: int,
    b1: int,
    b2: int,
    c0: int,
    c1: int,
    c2: int,
)
    ensures
        -(b0 * (a1 * c2 - a2 * c1)) + b1 * (a0 * c2 - a2 * c0) - b2 * (a0 * c1 - a1 * c0) == (b1
            * c2 - b2 * c1) * a0 - (b0 * c2 - b2 * c0) * a1 + (b0 * c1 - b1 * c0) * a2,
{
    lemma_expand(b0, a1 * c2, a2 * c1);
    lemma_expand(b1, a0 * c2, a2 * c0);
    lemma_expand(b2, a0 * c1, a1 * c0);
    lemma_expand(a0, b1 * c2, b2 * c1);
    lemma_expand(a1, b0 * c2, b2 * c0);
    lemma_expand(a2, b0 * c1, b1 * c0);
    assert((b1 * c2 - b2 * c1) * a0 == a0 * (b1 * c2 - b2 * c1)) by (nonlinear_arith);
    assert((b0 * c2 - b2 * c0) * a1 == a1 * (b0 * c2 - b2 * c0)) by (nonlinear_arith);
    assert((b0 * c1 - b1 * c0) * a2 == a2 * (b0 * c1 - b1 * c0)) by (nonlinear_arith);
    lemma_rot(b0, a1, c2);
    lemma_rot(b0, a2, c1);
    lemma_rot(b1, a0, c2);
    lemma_rot(b1, a2, c0);
    lemma_rot(b2, a0, c1);
    lemma_rot(b2, a1, c0);
    lemma_rot(a0, b1, c2);
    lemma_rot(a0, b2, c1);
    lemma_rot(a1, b0, c2);
    lemma_rot(a1, b2, c0);
    lemma_rot(a2, b0, c1);
    lemma_rot(a2, b1, c0);
}

/// And so does expansion along the bottom row.
proof fn lemma_laplace2(
    a0: int,
    a1: int,
    a2: int,
    b0: int,
    b1: int,
    b2: int,
    c0: int,
    c1: int,
    c2: int,
)
    ensures
        c0 * (a1 * b2 - a2 * b1) - c1 * (a0 * b2 - a2 * b0) + c2 * (a0 * b1 - a1 * b0) == (b1 * c2
            - b2 * c1) * a0 - (b0 * c2 - b2 * c0) * a1 + (b0 * c1 - b1 * c0) * a2,
{
    lemma_expand(c0, a1 * b2, a2 * b1);
    lemma_expand(c1, a0 * b2, a2 * b0);
    lemma_expand(c2, a0 * b1, a1 * b0);
    lemma_expand(a0, b1 * c2, b2 * c1);
    lemma_expand(a1, b0 * c2, b2 * c0);
    lemma_expand(a2, b0 * c1, b1 * c0);
    assert((b1 * c2 - b2 * c1) * a0 == a0 * (b1 * c2 - b2 * c1)) by (nonlinear_arith);
    assert((b0 * c2 - b2 * c0) * a1 == a1 * (b0 * c2 - b2 * c0)) by (nonlinear_arith);
    assert((b0 * c1 - b1 * c0) * a2 == a2 * (b0 * c1 - b1 * c0)) by (nonlinear_arith);
    lemma_rot(c0, a1, b2);
    lemma_rot(a1, b2, c0);
    lemma_rot(c0, a2, b1);
    lemma_rot(a2, b1, c0);
    lemma_rot(c1, a0, b2);
    lemma_rot(a0, b2, c1);
    lemma_rot(c1, a2, b0);
    lemma_rot(a2, b0, c1);
    lemma_rot(c2, a0, b1);
    lemma_rot(a0, b1, c2);
    lemma_rot(c2, a1, b0);
    lemma_rot(a1, b0, c2);
}

/// A three-by-three matrix times its computed inverse is exactly the
/// identity. Stated for whole-unit matrices with room under the saturation
/// bound whose determinant divides every scaled cofactor, so that none of
/// the divisions rounds - matrices with a determinant of one unit, for
/// instance. `inv` is any matrix with the cells `inverse` returns.
pub proof fn lemma_mul_inverse_three(m: Matrix, inv: Matrix, e: int)
    requires
        m.wf(),
        m.height == 3,
        m.width == 3,
        integral_grid(m.rows()),
        grid_bounded(m.rows(), e),
        e >= 0,
        2 * (e * e) <= ((MAX_RAW - 1) as int) * SCALE as int,
        6 * ((e * e) * e) <= MAX_RAW as int * (SCALE as int * SCALE as int),
        det_raw(m.rows()) != 0,
        forall|y: int, x: int|
            0 <= y < 3 && 0 <= x < 3 ==> (#[trigger] cof_raw(m.rows(), x, y) * SCALE as int)
                % det_raw(m.rows()) == 0,
        inv.wf(),
        inv.height == 3,
        inv.width == 3,
        forall|y: int, x: int|
            0 <= y < 3 && 0 <= x < 3 ==> #[trigger] inv.ent(y, x) == div_raw(
                cof_raw(m.rows(), x, y),
                det_raw(m.rows()),
            ),
    ensures
        forall|i: int, j: int|
            0 <= i < 3 && 0 <= j < 3 ==> #[trigger] mat_mul_cell(m.rows(), inv.rows(), i, j) == (
            if i == j {
                SCALE as int
            } else {
                0
            }),
{
    let s = SCALE as int;
    let mr = MAX_RAW as int;
    let g = m.rows();
    let ir = inv.rows();
    let d = det_raw(g);
    lemma_det3(g, e);
    lemma_fundamental_div_mod(d, s);
    assert(abs_raw(d) >= s) by (nonlinear_arith)
        requires
            d == (d / s) * s,
            d != 0,
            s > 0,
    {}
    assert(ir.len() == 3 && ir[0].len() == 3 && ir[1].len() == 3 && ir[2].len() == 3);
    assert(g[0].len() == 3 && g[1].len() == 3 && g[2].len() == 3);

    // Every inverse cell times the determinant is the scaled cofactor, and
    // every product of a matrix cell with an inverse cell is exact.
    assert forall|k: int, j: int| 0 <= k < 3 && 0 <= j < 3 implies (#[trigger] ir[k][j]) * d
        == cof_raw(g, j, k) * s && abs_raw(ir[k][j]) * s <= 2 * (e * e) by {
        lemma_cof3(g, j, k, e);
        assert(ir[k][j] == inv.ent(k, j));
        assert(abs_raw(cof_raw(g, j, k)) * s <= ((mr - 1) as int) * abs_raw(d)) by (nonlinear_arith)
            requires
                abs_raw(cof_raw(g, j, k)) * s <= 2 * (e * e),
                2 * (e * e) <= (mr - 1) * s,
                abs_raw(d) >= s,
                s > 0,
        {}
        lemma_div_raw_exact(cof_raw(g, j, k), d);
        assert(abs_raw(ir[k][j]) * s <= 2 * (e * e)) by (nonlinear_arith)
            requires
                ir[k][j] * d == cof_raw(g, j, k) * s,
                abs_raw(cof_raw(g, j, k)) * s <= 2 * (e * e),
                abs_raw(d) >= s,
                s > 0,
    {}
    }

    assert forall|i: int, k: int, j: int| 0 <= i < 3 && 0 <= k < 3 && 0 <= j < 3 implies {
        &&& #[trigger] mul_raw(g[i][k], ir[k][j]) == (g[i][k] / s) * ir[k][j]
        &&& abs_raw((g[i][k] / s) * ir[k][j]) * (s * s) <= 2 * ((e * e) * e)
        &&& (g[i][k] / s) * s == g[i][k]
    } by {
        lemma_fundamental_div_mod(g[i][k], s);
        let u = g[i][k] / s;
        assert(abs_raw(u * ir[k][j]) * (s * s) <= 2 * ((e * e) * e)) by (nonlinear_arith)
            requires
                u * s == g[i][k],
                abs_raw(g[i][k]) <= e,
                abs_raw(ir[k][j]) * s <= 2 * (e * e),
                e >= 0,
                s > 0,
        {}
        assert(abs_raw(u * ir[k][j]) <= mr) by (nonlinear_arith)
            requires
                abs_raw(u * ir[k][j]) * (s * s) <= 2 * ((e * e) * e),
                6 * ((e * e) * e) <= mr * (s * s),
                s > 0,
        {}
        lemma_mul_raw_mixed(g[i][k], ir[k][j]);
    }

    // The product cells, assembled and reduced by the adjugate identity.
    assert forall|i: int, j: int| 0 <= i < 3 && 0 <= j < 3 implies #[trigger] mat_mul_cell(
        g,
        ir,
        i,
        j,
    ) == (if i == j {
        s
    } else {
        0
    }) by {
        reveal_with_fuel(crate::matrix::ops::mul_cell, 4);
        let u0 = g[i][0] / s;
        let u1 = g[i][1] / s;
        let u2 = g[i][2] / s;
        let w0 = ir[0][j];
        let w1 = ir[1][j];
        let w2 = ir[2][j];
        assert(mul_raw(g[i][0], w0) == u0 * w0);
        assert(mul_raw(g[i][1], w1) == u1 * w1);
        assert(mul_raw(g[i][2], w2) == u2 * w2);
        assert(abs_raw(u0 * w0 + u1 * w1) <= mr && abs_raw(u0 * w0 + u1 * w1 + u2 * w2) <= mr)
            by (nonlinear_arith)
            requires
                abs_raw(u0 * w0) * (s * s) <= 2 * ((e * e) * e),
                abs_raw(u1 * w1) * (s * s) <= 2 * ((e * e) * e),
                abs_raw(u2 * w2) * (s * s) <= 2 * ((e * e) * e),
                6 * ((e * e) * e) <= mr * (s * s),
                s > 0,
        {}
        let cell = mat_mul_cell(g, ir, i, j);
        assert(cell == u0 * w0 + u1 * w1 + u2 * w2);
        let c0 = cof_raw(g, j, 0) * s;
        let c1 = cof_raw(g, j, 1) * s;
        let c2 = cof_raw(g, j, 2) * s;
        assert((u0 * w0 + u1 * w1 + u2 * w2) * d == (u0 * w0) * d + (u1 * w1) * d + (u2 * w2) * d)
            by (nonlinear_arith);
        assert((u0 * w0) * d == u0 * c0) by (nonlinear_arith)
            requires
                w0 * d == c0,
        {}
        assert((u1 * w1) * d == u1 * c1) by (nonlinear_arith)
            requires
                w1 * d == c1,
        {}
        assert((u2 * w2) * d == u2 * c2) by (nonlinear_arith)
            requires
                w2 * d == c2,
        {}
        assert(cell * d == u0 * c0 + u1 * c1 + u2 * c2);
        assert((u0 * c0 + u1 * c1 + u2 * c2) * s == (u0 * c0) * s + (u1 * c1) * s + (u2 * c2) * s)
            by (nonlinear_arith);
        assert((u0 * c0) * s == g[i][0] * c0) by (nonlinear_arith)
            requires
                u0 * s == g[i][0],
        {}
        assert((u1 * c1) * s == g[i][1] * c1) by (nonlinear_arith)
            requires
                u1 * s == g[i][1],
        {}
        assert((u2 * c2) * s == g[i][2] * c2) by (nonlinear_arith)
            requires
                u2 * s == g[i][2],
        {}
        assert((cell * d) * s == g[i][0] * c0 + g[i][1] * c1 + g[i][2] * c2);

        lemma_cof3(g, j, 0, e);
        lemma_cof3(g, j, 1, e);
        lemma_cof3(g, j, 2, e);
        lemma_minor3(g, 0, 0, e);
        lemma_minor3(g, 0, 1, e);
        lemma_minor3(g, 0, 2, e);
        let a00 = g[0][0];
        let a01 = g[0][1];
        let a02 = g[0][2];
        let a10 = g[1][0];
        let a11 = g[1][1];
        let a12 = g[1][2];
        let a20 = g[2][0];
        let a21 = g[2][1];
        let a22 = g[2][2];
        let n0 = minor_raw(g, 0, 0);
        let n1 = minor_raw(g, 0, 1);
        let n2 = minor_raw(g, 0, 2);
        assert((n0 * a00 - n1 * a01 + n2 * a02) * s == (n0 * a00) * s - (n1 * a01) * s + (n2 * a02)
            * s) by (nonlinear_arith);
        assert((n0 * a00) * s == (n0 * s) * a00) by (nonlinear_arith);
        assert((n1 * a01) * s == (n1 * s) * a01) by (nonlinear_arith);
        assert((n2 * a02) * s == (n2 * s) * a02) by (nonlinear_arith);
        let dss = (a11 * a22 - a12 * a21) * a00 - (a10 * a22 - a12 * a20) * a01 + (a10 * a21 - a11
            * a20) * a02;
        assert((d * s) * s == dss);

        if j == 0 {
            assert(c0 == a11 * a22 - a12 * a21);
            assert(c1 == -(a10 * a22 - a12 * a20));
            assert(c2 == a10 * a21 - a11 * a20);
            lemma_neg_mul(g[i][1], a10 * a22 - a12 * a20);
            if i == 0 {
                assert(a00 * c0 == c0 * a00 && a02 * c2 == c2 * a02) by (nonlinear_arith)
                    requires
                        c0 == a11 * a22 - a12 * a21,
                        c2 == a10 * a21 - a11 * a20,
                {}
                assert(a01 * (a10 * a22 - a12 * a20) == (a10 * a22 - a12 * a20) * a01)
                    by (nonlinear_arith);
                assert((cell * d) * s == dss);
            } else if i == 1 {
                lemma_alien1(a10, a11, a12, a20, a21, a22);
                assert((cell * d) * s == 0);
            } else {
                lemma_alien2(a10, a11, a12, a20, a21, a22);
                assert((cell * d) * s == 0);
            }
        } else if j == 1 {
            assert(c0 == -(a01 * a22 - a02 * a21));
            assert(c1 == a00 * a22 - a02 * a20);
            assert(c2 == -(a00 * a21 - a01 * a20));
            lemma_neg_mul(g[i][0], a01 * a22 - a02 * a21);
            lemma_neg_mul(g[i][2], a00 * a21 - a01 * a20);
            if i == 0 {
                lemma_alien1(a00, a01, a02, a20, a21, a22);
                assert((cell * d) * s == 0);
            } else if i == 1 {
                lemma_laplace1(a00, a01, a02, a10, a11, a12, a20, a21, a22);
                assert((cell * d) * s == dss);
            } else {
                lemma_alien2(a00, a01, a02, a20, a21, a22);
                assert((cell * d) * s == 0);
            }
        } else {
            assert(c0 == a01 * a12 - a02 * a11);
            assert(c1 == -(a00 * a12 - a02 * a10));
            assert(c2 == a00 * a11 - a01 * a10);
            lemma_neg_mul(g[i][1], a00 * a12 - a02 * a10);
            if i == 0 {
                lemma_alien1(a00, a01, a02, a10, a11, a12);
                assert((cell * d) * s == 0);
            } else if i == 1 {
                lemma_alien2(a00, a01, a02, a10, a11, a12);
                assert((cell * d) * s == 0);
            } else {
                lemma_laplace2(a00, a01, a02, a10, a11, a12, a20, a21, a22);
                assert((cell * d) * s == dss);
            }
        }
        assert((cell * d) * s == (if i == j {
            (d * s) * s
        } else {
            0
        }));
        assert(cell == (if i == j {
            s
        } else {
            0
        })) by (nonlinear_arith)
            requires
                (cell * d) * s == (if i == j {
                    (d * s) * s
                } else {
                    0
                }),
                d != 0,
                s > 0,
        {}
    }
}

/// Scaling every entry of the left factor scales every exact cell.
proof fn lemma_exact_cell_scale_left(
    small: Seq<Seq<int>>,
    big: Seq<Seq<int>>,
    c: Seq<Seq<int>>,
    y: int,
    w: int,
    k: nat,
)
    requires
        forall|t: int| 0 <= t < k ==> (#[trigger] small[y][t]) * (SCALE as int) == big[y][t],
    ensures
        exact_cell(small, c, y, w, k) * (SCALE as int) == exact_cell(big, c, y, w, k),
    decreases k,
{
    if k > 0 {
        lemma_exact_cell_scale_left(small, big, c, y, w, (k - 1) as nat);
        let s = SCALE as int;
        assert((exact_cell(small, c, y, w, (k - 1) as nat) + small[y][k - 1] * c[k - 1][w]) * s
            == exact_cell(small, c, y, w, (k - 1) as nat) * s + (small[y][k - 1] * s) * c[k - 1][w])
            by (nonlinear_arith);
    }
}

/// Scaling every entry of the right factor scales every exact cell.
proof fn lemma_exact_cell_scale_right(
    a: Seq<Seq<int>>,
    small: Seq<Seq<int>>,
    big: Seq<Seq<int>>,
    y: int,
    w: int,
    k: nat,
)
    requires
        forall|t: int| 0 <= t < k ==> (#[trigger] small[t][w]) * (SCALE as int) == big[t][w],
    ensures
        exact_cell(a, small, y, w, k) * (SCALE as int) == exact_cell(a, big, y, w, k),
    decreases k,
{
    if k > 0 {
        lemma_exact_cell_scale_right(a, small, big, y, w, (k - 1) as nat);
        let s = SCALE as int;
        assert((exact_cell(a, small, y, w, (k - 1) as nat) + a[y][k - 1] * small[k - 1][w]) * s
            == exact_cell(a, small, y, w, (k - 1) as nat) * s + a[y][k - 1] * (small[k - 1][w] * s))
            by (nonlinear_arith);
    }
}

/// Grids of whole scalar units multiply exactly when the inner dimension
/// times the entry-bound product stays under the saturation bound: the
/// rounded product grid is the exact integer product scaled down, again
/// whole-unit, with its cells bounded accordingly.
pub proof fn lemma_mat_mul_grid_exact(
    a: Seq<Seq<int>>,
    b: Seq<Seq<int>>,
    h: int,
    n: int,
    p: int,
    e1: int,
    e2: int,
)
    requires
        grid_wf(a, h, n),
        grid_wf(b, n, p),
        integral_grid(a),
        integral_grid(b),
        grid_bounded(a, e1),
        grid_bounded(b, e2),
        e1 >= 0,
        e2 >= 0,
        n >= 1,
        n * (e1 * e2) <= MAX_RAW as int * SCALE as int,
    ensures
        grid_wf(mat_mul_grid(a, b), h, p),
        integral_grid(mat_mul_grid(a, b)),
        forall|y: int, x: int|
            0 <= y < h && 0 <= x < p ==> #[trigger] mat_mul_cell(a, b, y, x) * (SCALE as int)
                == exact_cell(a, b, y, x, n as nat),
        forall|y: int, x: int|
            0 <= y < h && 0 <= x < p ==> abs_raw(#[trigger] mat_mul_cell(a, b, y, x)) * (
            SCALE as int) <= n * (e1 * e2),
{
    let s = SCALE as int;
    assert(grid_width(b) == p);
    assert forall|y: int, x: int| 0 <= y < h && 0 <= x < p implies #[trigger] mat_mul_cell(
        a,
        b,
        y,
        x,
    ) * s == exact_cell(a, b, y, x, n as nat) && mat_mul_cell(a, b, y, x) % s == 0 && abs_raw(
        mat_mul_cell(a, b, y, x),
    ) * s <= n * (e1 * e2) by {
        assert forall|t: int| 0 <= t < n implies (#[trigger] a[y][t]) % s == 0 && b[t][x] % s == 0
            && abs_raw(a[y][t] * b[t][x]) <= MAX_RAW as int * s by {
            assert(a[y].len() == n);
            assert(b[t].len() == p);
            assert(abs_raw(a[y][t] * b[t][x]) <= e1 * e2 && e1 * e2 <= n * (e1 * e2))
                by (nonlinear_arith)
                requires
                    abs_raw(a[y][t]) <= e1,
                    abs_raw(b[t][x]) <= e2,
                    e1 >= 0,
                    e2 >= 0,
                    n >= 1,
            {}
        }
        assert forall|t: nat| t <= n implies abs_raw(#[trigger] exact_cell(a, b, y, x, t))
            <= MAX_RAW as int * s by {
            lemma_exact_cell_bound(a, b, y, x, t, e1, e2);
            assert(t * (e1 * e2) <= n * (e1 * e2)) by (nonlinear_arith)
                requires
                    0 <= t <= n,
                    e1 >= 0,
                    e2 >= 0,
            {}
        }
        lemma_mul_cell_exact(a, b, y, x, n as nat);
        lemma_exact_cell_bound(a, b, y, x, n as nat, e1, e2);
        assert(abs_raw(mat_mul_cell(a, b, y, x)) * s == abs_raw(exact_cell(a, b, y, x, n as nat)))
            by (nonlinear_arith)
            requires
                mat_mul_cell(a, b, y, x) * s == exact_cell(a, b, y, x, n as nat),
                s > 0,
        {}
    }
    assert forall|y: int| 0 <= y < h implies (#[trigger] mat_mul_grid(a, b)[y]).len() == p by {}
}

/// Multiplication of whole-unit, bounded matrices is associative: with
/// compatible shapes and room under the saturation bound for every
/// intermediate product, `(a b) c` and `a (b c)` are the same grid, cell
/// for cell, under the multiplication the kernel computes.
pub proof fn lemma_mat_mul_assoc(
    a: Seq<Seq<int>>,
    b: Seq<Seq<int>>,
    c: Seq<Seq<int>>,
    h: int,
    n: int,
    p: int,
    q: int,
    e: int,
)
    requires
        grid_wf(a, h, n),
        grid_wf(b, n, p),
        grid_wf(c, p, q),
        integral_grid(a),
        integral_grid(b),
        integral_grid(c),
        grid_bounded(a, e),
        grid_bounded(b, e),
        grid_bounded(c, e),
        h >= 1,
        n >= 1,
        p >= 1,
        q >= 1,
        e >= 0,
        n * (e * e) <= MAX_RAW as int * SCALE as int,
        p * (e * e) <= MAX_RAW as int * SCALE as int,
        (n * p) * ((e * e) * e) <= (MAX_RAW as int * SCALE as int) * SCALE as int,
    ensures
        mat_mul_grid(mat_mul_grid(a, b), c) == mat_mul_grid(a, mat_mul_grid(b, c)),
{
    let s = SCALE as int;
    let ab = mat_mul_grid(a, b);
    let bc = mat_mul_grid(b, c);
    let eab = exact_mul(a, b);
    let ebc = exact_mul(b, c);
    lemma_mat_mul_grid_exact(a, b, h, n, p, e, e);
    lemma_mat_mul_grid_exact(b, c, n, p, q, e, e);
    lemma_exact_mul_assoc(a, b, c, h, n, p, q);

    assert forall|y: int, x: int| 0 <= y < h && 0 <= x < p implies (#[trigger] ab[y][x]) * s
        == eab[y][x] by {
        assert(ab[y][x] == mat_mul_cell(a, b, y, x));
        assert(eab[y][x] == exact_cell(a, b, y, x, n as nat));
    }
    assert forall|y: int, x: int| 0 <= y < n && 0 <= x < q implies (#[trigger] bc[y][x]) * s
        == ebc[y][x] by {
        assert(bc[y][x] == mat_mul_cell(b, c, y, x));
        assert(ebc[y][x] == exact_cell(b, c, y, x, p as nat));
    }

    // The outer products, cell by cell.
    assert forall|y: int, w: int| 0 <= y < h && 0 <= w < q implies #[trigger] mat_mul_cell(
        ab,
        c,
        y,
        w,
    ) == mat_mul_cell(a, bc, y, w) by {
        // Left grouping: (a b) c.
        assert forall|t: int| 0 <= t < p implies (#[trigger] ab[y][t]) % s == 0 && c[t][w] % s == 0
            && abs_raw(ab[y][t] * c[t][w]) <= MAX_RAW as int * s by {
            assert(abs_raw(ab[y][t]) * s <= n * (e * e));
            assert(c[t].len() == q);
            assert(abs_raw(ab[y][t] * c[t][w]) * s <= (n * p) * ((e * e) * e)) by (nonlinear_arith)
                requires
                    abs_raw(ab[y][t]) * s <= n * (e * e),
                    abs_raw(c[t][w]) <= e,
                    s > 0,
                    e >= 0,
                    n >= 1,
                    p >= 1,
            {}
            assert(abs_raw(ab[y][t] * c[t][w]) <= MAX_RAW as int * s) by (nonlinear_arith)
                requires
                    abs_raw(ab[y][t] * c[t][w]) * s <= (n * p) * ((e * e) * e),
                    (n * p) * ((e * e) * e) <= (MAX_RAW as int * s) * s,
                    s > 0,
            {}
        }
        assert forall|t: nat| t <= p implies abs_raw(#[trigger] exact_cell(ab, c, y, w, t))
            <= MAX_RAW as int * s by {
            lemma_exact_cell_scale_left(ab, eab, c, y, w, t);
            assert forall|t2: int| 0 <= t2 < t implies abs_raw(#[trigger] eab[y][t2]) <= n * (e
                * e) && abs_raw(c[t2][w]) <= e by {
                assert(abs_raw(mat_mul_cell(a, b, y, t2)) * s <= n * (e * e));
                assert(mat_mul_cell(a, b, y, t2) * s == exact_cell(a, b, y, t2, n as nat));
                assert(eab[y][t2] == exact_cell(a, b, y, t2, n as nat));
                assert(abs_raw(eab[y][t2]) <= n * (e * e)) by (nonlinear_arith)
                    requires
                        eab[y][t2] == mat_mul_cell(a, b, y, t2) * s,
                        abs_raw(mat_mul_cell(a, b, y, t2)) * s <= n * (e * e),
                        s > 0,
                {}
                assert(c[t2].len() == q);
            }
            lemma_exact_cell_bound(eab, c, y, w, t, n * (e * e), e);
            assert(t * ((n * (e * e)) * e) <= (n * p) * ((e * e) * e)) by (nonlinear_arith)
                requires
                    0 <= t <= p,
                    e >= 0,
                    n >= 1,
            {}
            assert(abs_raw(exact_cell(ab, c, y, w, t)) <= MAX_RAW as int * s) by (nonlinear_arith)
                requires
                    exact_cell(ab, c, y, w, t) * s == exact_cell(eab, c, y, w, t),
                    abs_raw(exact_cell(eab, c, y, w, t)) <= (MAX_RAW as int * s) * s,
                    s > 0,
            {}
        }
        lemma_mul_cell_exact(ab, c, y, w, p as nat);
        lemma_exact_cell_scale_left(ab, eab, c, y, w, p as nat);

        // Right grouping: a (b c).
        assert forall|t: int| 0 <= t < n implies (#[trigger] a[y][t]) % s == 0 && bc[t][w] % s == 0
            && abs_raw(a[y][t] * bc[t][w]) <= MAX_RAW as int * s by {
            assert(a[y].len() == n);
            assert(abs_raw(bc[t][w]) * s <= p * (e * e));
            assert(abs_raw(a[y][t] * bc[t][w]) * s <= (n * p) * ((e * e) * e)) by (nonlinear_arith)
                requires
                    abs_raw(bc[t][w]) * s <= p * (e * e),
                    abs_raw(a[y][t]) <= e,
                    s > 0,
                    e >= 0,
                    n >= 1,
                    p >= 1,
            {}
            assert(abs_raw(a[y][t] * bc[t][w]) <= MAX_RAW as int * s) by (nonlinear_arith)
                requires
                    abs_raw(a[y][t] * bc[t][w]) * s <= (n * p) * ((e * e) * e),
                    (n * p) * ((e * e) * e) <= (MAX_RAW as int * s) * s,
                    s > 0,
            {}
        }
        assert forall|t: nat| t <= n implies abs_raw(#[trigger] exact_cell(a, bc, y, w, t))
            <= MAX_RAW as int * s by {
            lemma_exact_cell_scale_right(a, bc, ebc, y, w, t);
            assert forall|t2: int| 0 <= t2 < t implies abs_raw(#[trigger] a[y][t2]) <= e && abs_raw(
                ebc[t2][w],
            ) <= p * (e * e) by {
                assert(a[y].len() == n);
                assert(abs_raw(mat_mul_cell(b, c, t2, w)) * s <= p * (e * e));
                assert(mat_mul_cell(b, c, t2, w) * s == exact_cell(b, c, t2, w, p as nat));
                assert(ebc[t2][w] == exact_cell(b, c, t2, w, p as nat));
                assert(abs_raw(ebc[t2][w]) <= p * (e * e)) by (nonlinear_arith)
                    requires
                        ebc[t2][w] == mat_mul_cell(b, c, t2, w) * s,
                        abs_raw(mat_mul_cell(b, c, t2, w)) * s <= p * (e * e),
                        s > 0,
                {}
            }
            lemma_exact_cell_bound(a, ebc, y, w, t, e, p * (e * e));
            assert(t * (e * (p * (e * e))) <= (n * p) * ((e * e) * e)) by (nonlinear_arith)
                requires
                    0 <= t <= n,
                    e >= 0,
                    p >= 1,
            {}
            assert(abs_raw(exact_cell(a, bc, y, w, t)) <= MAX_RAW as int * s) by (nonlinear_arith)
                requires
                    exact_cell(a, bc, y, w, t) * s == exact_cell(a, ebc, y, w, t),
                    abs_raw(exact_cell(a, ebc, y, w, t)) <= (MAX_RAW as int * s) * s,
                    s > 0,
            {}
        }
        lemma_mul_cell_exact(a, bc, y, w, n as nat);
        lemma_exact_cell_scale_right(a, bc, ebc, y, w, n as nat);

        // Both sides scaled twice give the same exact cell.
        assert(exact_mul(eab, c)[y][w] == exact_cell(eab, c, y, w, p as nat));
        assert(exact_mul(a, ebc)[y][w] == exact_cell(a, ebc, y, w, n as nat));
        assert(exact_mul(eab, c)[y][w] == exact_mul(a, ebc)[y][w]);
        assert((mat_mul_cell(ab, c, y, w) * s) * s == (mat_mul_cell(a, bc, y, w) * s) * s);
        assert(mat_mul_cell(ab, c, y, w) == mat_mul_cell(a, bc, y, w)) by (nonlinear_arith)
            requires
                (mat_mul_cell(ab, c, y, w) * s) * s == (mat_mul_cell(a, bc, y, w) * s) * s,
                s > 0,
        {}
    }

    assert forall|y: int| 0 <= y < h implies mat_mul_grid(ab, c)[y] =~= mat_mul_grid(a, bc)[y] by {
        assert(grid_width(c) == q);
        assert(grid_width(bc) == q);
        assert forall|w: int| 0 <= w < q implies mat_mul_grid(ab, c)[y][w] == mat_mul_grid(
            a,
            bc,
        )[y][w] by {
            assert(mat_mul_grid(ab, c)[y][w] == mat_mul_cell(ab, c, y, w));
            assert(mat_mul_grid(a, bc)[y][w] == mat_mul_cell(a, bc, y, w));
        }
    }
    assert(mat_mul_grid(mat_mul_grid(a, b), c) =~~= mat_mul_grid(a, mat_mul_grid(b, c)));
}

} // verus!
