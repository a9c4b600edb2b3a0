//! Fixed-point scalars.
//!
//! A `Scalar` stands for the rational number `raw / SCALE`. The arithmetic
//! operations round to the nearest representable value (ties away from
//! zero) and saturate at `MAX_RAW` units in either direction; the spec
//! functions below state that behaviour exactly, so the operations are
//! total over all `i64` raw values.

use vstd::prelude::*;

verus! {

/// Raw units per whole number: one unit is a billionth.
pub const SCALE: i64 = 1_000_000_000;

/// Saturation bound for every arithmetic result, in raw units.
pub const MAX_RAW: i64 = 1_000_000_000_000_000_000;

#[derive(Debug, Clone, Copy, PartialEq, Eq, Structural)]
pub struct Scalar {
    pub raw: i64,
}

pub open spec fn abs_raw(x: int) -> int {
    if x < 0 {
        -x
    } else {
        x
    }
}

/// Saturate a mathematical result into the representable range.
pub open spec fn clip_raw(x: int) -> int {
    if x > MAX_RAW as int {
        MAX_RAW as int
    } else if x < -(MAX_RAW as int) {
        -(MAX_RAW as int)
    } else {
        x
    }
}

pub open spec fn in_range(x: int) -> bool {
    -(MAX_RAW as int) <= x <= MAX_RAW as int
}

/// Quotient `n / d` rounded to the nearest integer, ties away from zero.
pub open spec fn round_div_raw(n: int, d: int) -> int
    recommends
        d != 0,
{
    let q = (abs_raw(n) + abs_raw(d) / 2) / abs_raw(d);
    if (n < 0) <==> (d < 0) {
        q
    } else {
        -q
    }
}

pub open spec fn add_raw(a: int, b: int) -> int {
    clip_raw(a + b)
}

pub open spec fn sub_raw(a: int, b: int) -> int {
    clip_raw(a - b)
}

pub open spec fn neg_raw(a: int) -> int {
    clip_raw(-a)
}

pub open spec fn mul_raw(a: int, b: int) -> int {
    clip_raw(round_div_raw(a * b, SCALE as int))
}

pub open spec fn div_raw(a: int, b: int) -> int
    recommends
        b != 0,
{
    clip_raw(round_div_raw(a * (SCALE as int), b))
}

/// `r` is the integer square root of `n`: the greatest `r` with `r * r <= n`.
pub open spec fn is_isqrt(n: int, r: int) -> bool {
    0 <= r && r * r <= n < (r + 1) * (r + 1)
}

/// Raw value of the square root of the scalar with raw value `a`.
pub open spec fn sqrt_raw(a: int) -> int
    recommends
        a >= 0,
{
    choose|r: int| #[trigger] is_isqrt(a * (SCALE as int), r)
}

/// Rounding a quotient moves it by no more than the denominator.
pub proof fn lemma_round_div_err(n: int, d: int)
    requires
        d > 0,
    ensures
        abs_raw(round_div_raw(n, d) * d - n) <= d,
{
    let a = abs_raw(n);
    let xx = a + d / 2;
    vstd::arithmetic::div_mod::lemma_fundamental_div_mod(xx, d);
    let q = xx / d;
    assert(q * d == a + d / 2 - (xx % d));
    assert(abs_raw(q * d - a) <= d);
    if n >= 0 {
        assert(round_div_raw(n, d) == q);
    } else {
        assert(round_div_raw(n, d) == -q);
        assert((-q) * d == -(q * d)) by (nonlinear_arith);
    }
}

/// A rounded product is within one scalar unit of the true product, as
/// long as the true product stays inside the saturation range.
pub proof fn lemma_mul_raw_err(a: int, b: int)
    requires
        abs_raw(a * b) <= (MAX_RAW - 1) as int * SCALE as int,
    ensures
        abs_raw(mul_raw(a, b) * SCALE as int - a * b) <= SCALE as int,
{
    let s = SCALE as int;
    lemma_round_div_err(a * b, s);
    let q = round_div_raw(a * b, s);
    assert(abs_raw(q * s) <= abs_raw(a * b) + s);
    assert(abs_raw(q) * s == abs_raw(q * s)) by (nonlinear_arith)
        requires
            s > 0,
    {}
    assert(abs_raw(q) <= MAX_RAW as int);
    assert(clip_raw(q) == q);
}

/// A rounded quotient, multiplied back by the denominator, is within one
/// denominator of the scaled numerator, as long as the quotient stays
/// inside the saturation range.
pub proof fn lemma_div_raw_err(a: int, d: int)
    requires
        d > 0,
        abs_raw(a) * SCALE as int <= (MAX_RAW - 1) as int * d,
    ensures
        abs_raw(div_raw(a, d) * d - a * SCALE as int) <= d,
{
    let s = SCALE as int;
    lemma_round_div_err(a * s, d);
    let q = round_div_raw(a * s, d);
    assert(abs_raw(a * s) == abs_raw(a) * s) by (nonlinear_arith)
        requires
            s > 0,
    {}
    assert(abs_raw(q * d) <= abs_raw(a) * s + d);
    assert(abs_raw(q) * d == abs_raw(q * d)) by (nonlinear_arith)
        requires
            d > 0,
    {}
    assert(abs_raw(q) <= MAX_RAW as int) by (nonlinear_arith)
        requires
            abs_raw(q) * d <= (MAX_RAW - 1) as int * d + d,
            d > 0,
    {}
    assert(clip_raw(q) == q);
}

/// Multiplying by one whole unit only saturates: no rounding happens.
pub proof fn lemma_mul_raw_one(a: int)
    ensures
        mul_raw(SCALE as int, a) == clip_raw(a),
        mul_raw(a, SCALE as int) == clip_raw(a),
{
    let s = SCALE as int;
    assert(abs_raw(s * a) == s * abs_raw(a) && abs_raw(a * s) == s * abs_raw(a) && (s * a < 0 <==> a
        < 0) && (a * s < 0 <==> a < 0) && s * a == a * s) by (nonlinear_arith)
        requires
            s > 0,
    {}
    vstd::arithmetic::div_mod::lemma_fundamental_div_mod_converse(
        s * abs_raw(a) + s / 2,
        s,
        abs_raw(a),
        s / 2,
    );
    assert(round_div_raw(s * a, s) == a);
    assert(round_div_raw(a * s, s) == a);
}

/// Multiplying by zero gives zero.
pub proof fn lemma_mul_raw_zero(a: int)
    ensures
        mul_raw(0, a) == 0,
        mul_raw(a, 0) == 0,
{
    let s = SCALE as int;
    assert(0 * a == 0 && a * 0 == 0) by (nonlinear_arith);
    assert((abs_raw(0) + s / 2) / s == 0);
}

/// Every non-negative integer has an integer square root.
pub proof fn lemma_isqrt_exists(n: int)
    requires
        n >= 0,
    ensures
        exists|r: int| #[trigger] is_isqrt(n, r),
    decreases n,
{
    if n == 0 {
        assert(is_isqrt(0, 0));
    } else {
        lemma_isqrt_exists(n - 1);
        let r = choose|r: int| #[trigger] is_isqrt(n - 1, r);
        if (r + 1) * (r + 1) <= n {
            assert(is_isqrt(n, r + 1)) by (nonlinear_arith)
                requires
                    is_isqrt(n - 1, r),
                    (r + 1) * (r + 1) <= n,
            {}
        } else {
            assert(is_isqrt(n, r));
        }
    }
}

/// The magnitude and the sign of a product of two bounded factors.
proof fn lemma_abs_mul(a: int, b: int)
    by (nonlinear_arith)
    requires
        abs_raw(a) <= 0x8000_0000_0000_0000,
        abs_raw(b) <= 0x8000_0000_0000_0000,
    ensures
        abs_raw(a * b) == abs_raw(a) * abs_raw(b),
        abs_raw(a * b) <= 0x4000_0000_0000_0000_0000_0000_0000_0000,
        a * b < 0 <==> ((a < 0) != (b < 0)) && a != 0 && b != 0,
{
}

fn abs_u128(x: i64) -> (r: u128)
    ensures
        r as int == abs_raw(x as int),
{
    if x < 0 {
        (-(x as i128)) as u128
    } else {
        x as u128
    }
}

fn round_div_u128(n: u128, d: u128) -> (r: u128)
    requires
        0 < d <= 0x1_0000_0000_0000_0000,
        n <= 0x4000_0000_0000_0000_0000_0000_0000_0000,
    ensures
        r as int == (n as int + (d as int) / 2) / (d as int),
{
    (n + d / 2) / d
}

fn signed_clip(q: u128, neg: bool) -> (r: i64)
    requires
        q <= 0x4000_0000_0000_0000_0000_0000_0000_0000,
    ensures
        r as int == clip_raw(if neg { -(q as int) } else { q as int }),
{
    if q > MAX_RAW as u128 {
        if neg {
            -MAX_RAW
        } else {
            MAX_RAW
        }
    } else {
        let qi = q as i64;
        if neg {
            -qi
        } else {
            qi
        }
    }
}

proof fn lemma_isqrt_unique(n: int, r1: int, r2: int)
    by (nonlinear_arith)
    requires
        is_isqrt(n, r1),
        is_isqrt(n, r2),
    ensures
        r1 == r2,
{
}

fn isqrt_u128(n: u128) -> (r: u64)
    ensures
        is_isqrt(n as int, r as int),
{
    let mut lo: u128 = 0;
    let mut hi: u128 = 0x1_0000_0000_0000_0000;
    proof {
        assert((n as int) < (0x1_0000_0000_0000_0000 as int) * (0x1_0000_0000_0000_0000 as int))
            by (nonlinear_arith)
            requires
                n <= u128::MAX,
        {}
    }
    while hi - lo > 1
        invariant
            0 <= lo < hi <= 0x1_0000_0000_0000_0000,
            (lo as int) * (lo as int) <= n as int,
            (n as int) < (hi as int) * (hi as int),
        decreases hi - lo,
    {
        let mid = lo + (hi - lo) / 2;
        proof {
            assert((mid as int) * (mid as int) <= u128::MAX as int) by (nonlinear_arith)
                requires
                    0 <= mid < 0x1_0000_0000_0000_0000,
            {}
        }
        if mid * mid <= n {
            lo = mid;
        } else {
            hi = mid;
        }
    }
    lo as u64
}

impl Scalar {
    pub fn from_raw(raw: i64) -> (r: Scalar)
        ensures
            r.raw == raw,
    {
        Scalar { raw }
    }

    pub fn zero() -> (r: Scalar)
        ensures
            r.raw == 0,
    {
        Scalar { raw: 0 }
    }

    pub fn one() -> (r: Scalar)
        ensures
            r.raw == SCALE,
    {
        Scalar { raw: SCALE }
    }

    pub fn add(self, rhs: Scalar) -> (r: Scalar)
        ensures
            r.raw as int == add_raw(self.raw as int, rhs.raw as int),
    {
        let s: i128 = self.raw as i128 + rhs.raw as i128;
        let r: i64 = if s > MAX_RAW as i128 {
            MAX_RAW
        } else if s < -(MAX_RAW as i128) {
            -MAX_RAW
        } else {
            s as i64
        };
        Scalar { raw: r }
    }

    pub fn sub(self, rhs: Scalar) -> (r: Scalar)
        ensures
            r.raw as int == sub_raw(self.raw as int, rhs.raw as int),
    {
        let s: i128 = self.raw as i128 - rhs.raw as i128;
        let r: i64 = if s > MAX_RAW as i128 {
            MAX_RAW
        } else if s < -(MAX_RAW as i128) {
            -MAX_RAW
        } else {
            s as i64
        };
        Scalar { raw: r }
    }

    pub fn neg(self) -> (r: Scalar)
        ensures
            r.raw as int == neg_raw(self.raw as int),
    {
        let s: i128 = -(self.raw as i128);
        let r: i64 = if s > MAX_RAW as i128 {
            MAX_RAW
        } else if s < -(MAX_RAW as i128) {
            -MAX_RAW
        } else {
            s as i64
        };
        Scalar { raw: r }
    }

    pub fn mul(self, rhs: Scalar) -> (r: Scalar)
        ensures
            r.raw as int == mul_raw(self.raw as int, rhs.raw as int),
    {
        proof {
            lemma_abs_mul(self.raw as int, rhs.raw as int);
        }
        let neg: bool = (self.raw < 0) != (rhs.raw < 0);
        let au = abs_u128(self.raw);
        let bu = abs_u128(rhs.raw);
        let p: u128 = au * bu;
        let q = round_div_u128(p, SCALE as u128);
        Scalar { raw: signed_clip(q, neg) }
    }

    pub fn div(self, rhs: Scalar) -> (r: Scalar)
        requires
            rhs.raw != 0,
        ensures
            r.raw as int == div_raw(self.raw as int, rhs.raw as int),
    {
        proof {
            lemma_abs_mul(self.raw as int, SCALE as int);
        }
        let neg: bool = (self.raw < 0) != (rhs.raw < 0);
        let au = abs_u128(self.raw);
        let du = abs_u128(rhs.raw);
        let p: u128 = au * (SCALE as u128);
        let q = round_div_u128(p, du);
        Scalar { raw: signed_clip(q, neg) }
    }

    /// Floor square root of a non-negative scalar, in scalar units.
    pub fn sqrt(self) -> (r: Scalar)
        requires
            self.raw >= 0,
        ensures
            r.raw as int == sqrt_raw(self.raw as int),
            is_isqrt(self.raw as int * SCALE as int, r.raw as int),
            r.raw >= 0,
    {
        let n: u128 = (self.raw as u128) * (SCALE as u128);
        proof {
            assert((self.raw as int) * (SCALE as int) <= 10_000_000_000_000_000_000_000_000_000 as int)
                by (nonlinear_arith)
                requires
                    0 <= self.raw <= i64::MAX,
            {}
        }
        let q = isqrt_u128(n);
        proof {
            assert((q as int) * (q as int) <= n as int);
            assert(q as int <= 100_000_000_000_000 as int) by (nonlinear_arith)
                requires
                    0 <= q,
                    (q as int) * (q as int) <= 10_000_000_000_000_000_000_000_000_000 as int,
            {}
            assert(is_isqrt(n as int, q as int));
            assert(exists|r: int| #[trigger] is_isqrt((self.raw as int) * (SCALE as int), r));
            lemma_isqrt_unique(n as int, q as int, sqrt_raw(self.raw as int));
        }
        Scalar { raw: q as i64 }
    }
}

} // verus!
