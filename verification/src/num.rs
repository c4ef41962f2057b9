//! Exact fixed-point arithmetic helpers.
//!
//! Scalars are `i64` values scaled by [`SCALE`] (one world unit is `SCALE`
//! fixed-point units).  Intermediate products are computed in `i128`, and
//! every stored quantity is kept inside a documented bound by clamping, so
//! no operation of the simulation can overflow.

use vstd::prelude::*;

verus! {

/// Fixed-point units per world unit.
pub const SCALE: i64 = 1000;

/// Microseconds per second; time is measured in microseconds.
pub const MICROS: i64 = 1_000_000;

/// Truncating (round-toward-zero) division, as a mathematical function.
pub open spec fn tdiv(a: int, b: int) -> int {
    if a >= 0 {
        a / b
    } else {
        -((-a) / b)
    }
}

/// Clamp `v` into the symmetric interval `[-bound, bound]`.
pub open spec fn clip(v: int, bound: int) -> int {
    if v < -bound {
        -bound
    } else if v > bound {
        bound
    } else {
        v
    }
}

/// Truncating division of a 128-bit value by a positive divisor.
pub fn tdiv_i128(a: i128, b: i128) -> (r: i128)
    requires
        b > 0,
        a > i128::MIN,
    ensures
        r == tdiv(a as int, b as int),
{
    if a >= 0 {
        let q: i128 = a / b;
        assert(q == tdiv(a as int, b as int)) by {
            assert(a as int / b as int >= 0) by (nonlinear_arith)
                requires a >= 0, b > 0;
        };
        q
    } else {
        let neg: i128 = -a;
        let q: i128 = neg / b;
        assert(neg as int / b as int >= 0) by (nonlinear_arith)
            requires neg >= 0, b > 0;
        assert(neg as int / b as int <= neg) by (nonlinear_arith)
            requires neg >= 0, b > 0;
        -q
    }
}

/// Clamp a 128-bit intermediate into `[-bound, bound]` and narrow to `i64`.
pub fn clip_i128(v: i128, bound: i64) -> (r: i64)
    requires
        0 < bound,
    ensures
        r == clip(v as int, bound as int),
{
    if v < -(bound as i128) {
        -bound
    } else if v > bound as i128 {
        bound
    } else {
        v as i64
    }
}

/// Dividing a value of magnitude at most `m` by a positive `b` gives a
/// quotient of magnitude at most `m / b`.
pub proof fn lemma_tdiv_mag(a: int, b: int, m: int)
    requires
        b > 0,
        0 <= m,
        -m <= a <= m,
    ensures
        -(m / b) <= tdiv(a, b) <= m / b,
{
    if a >= 0 {
        assert(0 <= a / b <= m / b) by (nonlinear_arith)
            requires 0 <= a <= m, b > 0;
    } else {
        assert(0 <= (-a) / b <= m / b) by (nonlinear_arith)
            requires 0 <= -a <= m, b > 0;
    }
}

/// The integer square root, as a mathematical function.
pub open spec fn sqrt_floor(n: int) -> int
    decreases n,
{
    if n < 1 {
        0
    } else {
        let s = sqrt_floor(n - 1);
        if (s + 1) * (s + 1) <= n {
            s + 1
        } else {
            s
        }
    }
}

/// `sqrt_floor(n)` is the greatest integer whose square does not exceed `n`.
pub proof fn lemma_sqrt_floor(n: int)
    requires
        n >= 0,
    ensures
        sqrt_floor(n) >= 0,
        sqrt_floor(n) * sqrt_floor(n) <= n,
        (sqrt_floor(n) + 1) * (sqrt_floor(n) + 1) > n,
    decreases n,
{
    if n < 1 {
    } else {
        lemma_sqrt_floor(n - 1);
        let s = sqrt_floor(n - 1);
        if (s + 1) * (s + 1) <= n {
            assert((s + 2) * (s + 2) > (s + 1) * (s + 1)) by (nonlinear_arith)
                requires s >= 0;
        } else {
        }
    }
}

/// Binary-search integer square root of a 64-bit value.
pub fn isqrt_u64(n: u64) -> (r: u64)
    ensures
        r == sqrt_floor(n as int),
{
    proof {
        lemma_sqrt_floor(n as int);
    }
    let mut lo: u64 = 0;
    let mut hi: u64 = 4_294_967_296;
    assert((hi as int) * (hi as int) > n as int) by (nonlinear_arith)
        requires hi == 4_294_967_296u64, n <= u64::MAX;
    // Invariant: lo^2 <= n < hi^2, so the root lies in [lo, hi).
    while lo + 1 < hi
        invariant
            lo < hi <= 4_294_967_296,
            (lo as int) * (lo as int) <= n as int,
            (hi as int) * (hi as int) > n as int,
        decreases hi - lo,
    {
        let mid: u64 = lo + (hi - lo) / 2;
        assert((mid as int) * (mid as int) <= 4_294_967_296i64 * 4_294_967_296i64)
            by (nonlinear_arith)
            requires 0 <= mid as int <= 4_294_967_296i64;
        let sq: u128 = (mid as u128) * (mid as u128);
        if sq <= n as u128 {
            lo = mid;
        } else {
            hi = mid;
        }
    }
    proof {
        let s = sqrt_floor(n as int);
        assert(s * s <= n as int);
        assert((n as int) < (s + 1) * (s + 1));
        if lo < s {
            assert((lo as int + 1) * (lo as int + 1) <= s * s) by (nonlinear_arith)
                requires 0 <= lo as int + 1 <= s;
        }
        if s < lo {
            assert((s + 1) * (s + 1) <= (lo as int) * (lo as int)) by (nonlinear_arith)
                requires 0 <= s + 1 <= lo as int;
        }
    }
    lo
}

} // verus!
