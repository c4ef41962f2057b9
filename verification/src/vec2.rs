//! Two-dimensional fixed-point vectors and rotations.

use vstd::prelude::*;

use crate::num::{clip, clip_i128, isqrt_u64, sqrt_floor, tdiv, tdiv_i128, SCALE};

verus! {

/// A 2D vector of fixed-point coordinates ([`SCALE`] units per world unit).
#[derive(Clone, Copy, Debug, PartialEq, Eq, Hash, Structural)]
pub struct Vec2 {
    pub x: i64,
    pub y: i64,
}

/// A rotation, stored as the fixed-point cosine and sine of the angle.
///
/// The pair is supplied by the caller (the identity via [`Rot::identity`]);
/// a well-formed rotation keeps both components within `[-SCALE, SCALE]`.
#[derive(Clone, Copy, Debug, PartialEq, Eq, Structural)]
pub struct Rot {
    pub c: i64,
    pub s: i64,
}

impl Vec2 {
    /// Both coordinates lie within `[-bound, bound]`.
    pub open spec fn in_range(self, bound: int) -> bool {
        -bound <= self.x <= bound && -bound <= self.y <= bound
    }

    /// The squared Euclidean norm, as a mathematical integer.
    pub open spec fn norm2(self) -> int {
        self.x * self.x + self.y * self.y
    }

    /// The fixed-point Euclidean norm: the integer square root of `norm2`.
    pub open spec fn norm(self) -> int {
        sqrt_floor(self.norm2())
    }

    /// The 2D cross product (signed area), as a mathematical integer.
    pub open spec fn cross(self, other: Vec2) -> int {
        self.x * other.y - self.y * other.x
    }

    /// The dot product, as a mathematical integer.
    pub open spec fn dot(self, other: Vec2) -> int {
        self.x * other.x + self.y * other.y
    }

    pub fn new(x: i64, y: i64) -> (r: Vec2)
        ensures
            r == (Vec2 { x, y }),
    {
        Vec2 { x, y }
    }

    pub fn zero() -> (r: Vec2)
        ensures
            r == (Vec2 { x: 0, y: 0 }),
    {
        Vec2 { x: 0, y: 0 }
    }

    /// Exact vector sum; the caller keeps both inputs small enough.
    pub fn add(self, other: Vec2) -> (r: Vec2)
        requires
            self.in_range(0x2000_0000_0000_0000),
            other.in_range(0x2000_0000_0000_0000),
        ensures
            r.x == self.x + other.x,
            r.y == self.y + other.y,
    {
        Vec2 { x: self.x + other.x, y: self.y + other.y }
    }

    /// Exact vector difference; the caller keeps both inputs small enough.
    pub fn sub(self, other: Vec2) -> (r: Vec2)
        requires
            self.in_range(0x2000_0000_0000_0000),
            other.in_range(0x2000_0000_0000_0000),
        ensures
            r.x == self.x - other.x,
            r.y == self.y - other.y,
    {
        Vec2 { x: self.x - other.x, y: self.y - other.y }
    }

    /// The fixed-point norm (length) of a vector with bounded coordinates.
    pub fn length(self) -> (r: i64)
        requires
            self.in_range(3_000_000_000),
        ensures
            r == self.norm(),
            0 <= r <= 4_242_640_688,
    {
        let x = self.x as i128;
        let y = self.y as i128;
        assert(x * x <= 9_000_000_000_000_000_000i128 && x * x >= 0) by (nonlinear_arith)
            requires -3_000_000_000i128 <= x <= 3_000_000_000i128;
        assert(y * y <= 9_000_000_000_000_000_000i128 && y * y >= 0) by (nonlinear_arith)
            requires -3_000_000_000i128 <= y <= 3_000_000_000i128;
        let n2: u64 = (x * x + y * y) as u64;
        let r = isqrt_u64(n2);
        proof {
            lemma_sqrt_bound_43(n2 as int);
        }
        r as i64
    }

    /// Rotate by `rot`: the fixed-point form of the usual rotation matrix.
    pub fn rotate(self, rot: Rot) -> (r: Vec2)
        requires
            self.in_range(1_000_000_000_000),
            rot.wf(),
        ensures
            r == spec_rotate(self, rot),
    {
        let x = self.x as i128;
        let y = self.y as i128;
        let c = rot.c as i128;
        let s = rot.s as i128;
        proof {
            lemma_mul_range(self.x as int, rot.c as int, 1_000_000_000_000, SCALE as int);
            lemma_mul_range(self.x as int, rot.s as int, 1_000_000_000_000, SCALE as int);
            lemma_mul_range(self.y as int, rot.c as int, 1_000_000_000_000, SCALE as int);
            lemma_mul_range(self.y as int, rot.s as int, 1_000_000_000_000, SCALE as int);
        }
        let rx = tdiv_i128(x * c - y * s, SCALE as i128);
        let ry = tdiv_i128(x * s + y * c, SCALE as i128);
        proof {
            lemma_tdiv_bound(x * c - y * s, SCALE as int, 2_000_000_000_000_000);
            lemma_tdiv_bound(x * s + y * c, SCALE as int, 2_000_000_000_000_000);
        }
        Vec2 { x: rx as i64, y: ry as i64 }
    }
}

/// Rotation of `v` by `rot` in fixed point, as a mathematical function.
pub open spec fn spec_rotate(v: Vec2, rot: Rot) -> Vec2 {
    Vec2 {
        x: tdiv(v.x * rot.c - v.y * rot.s, SCALE as int) as i64,
        y: tdiv(v.x * rot.s + v.y * rot.c, SCALE as int) as i64,
    }
}

impl Rot {
    /// Cosine and sine both fit in one fixed-point unit.
    pub open spec fn wf(self) -> bool {
        -SCALE <= self.c <= SCALE && -SCALE <= self.s <= SCALE
    }

    /// The identity rotation (angle zero).
    pub fn identity() -> (r: Rot)
        ensures
            r == (Rot { c: SCALE, s: 0i64 }),
            r.wf(),
    {
        Rot { c: SCALE, s: 0 }
    }

    /// A rotation from an explicit cosine/sine pair, clamped to one unit.
    pub fn from_cos_sin(c: i64, s: i64) -> (r: Rot)
        ensures
            r.c == clip(c as int, SCALE as int),
            r.s == clip(s as int, SCALE as int),
            r.wf(),
    {
        Rot { c: clip_i128(c as i128, SCALE), s: clip_i128(s as i128, SCALE) }
    }
}

/// A product of values bounded by `ba` and `bb` is bounded by `ba * bb`.
proof fn lemma_mul_range(a: int, b: int, ba: int, bb: int)
    requires
        -ba <= a <= ba,
        -bb <= b <= bb,
        0 <= ba,
        0 <= bb,
    ensures
        -(ba * bb) <= a * b <= ba * bb,
{
    assert(-(ba * bb) <= a * b <= ba * bb) by (nonlinear_arith)
        requires -ba <= a <= ba, -bb <= b <= bb, 0 <= ba, 0 <= bb;
}

/// Truncating division shrinks magnitudes: `|a| <= m` gives `|a/b| <= m`.
pub proof fn lemma_tdiv_bound(a: int, b: int, m: int)
    requires
        b > 0,
        0 <= m,
        -m <= a <= m,
    ensures
        -m <= tdiv(a, b) <= m,
        b > 1 ==> -m <= tdiv(a, b) * b <= m,
{
    if a >= 0 {
        assert(0 <= a / b <= a) by (nonlinear_arith)
            requires a >= 0, b > 0;
        assert(a / b * b <= a && a / b * b >= 0) by (nonlinear_arith)
            requires a >= 0, b > 0;
    } else {
        assert(0 <= (-a) / b <= -a) by (nonlinear_arith)
            requires -a >= 0, b > 0;
        assert((-a) / b * b <= -a && (-a) / b * b >= 0) by (nonlinear_arith)
            requires -a >= 0, b > 0;
        assert(tdiv(a, b) * b == -((-a) / b * b)) by (nonlinear_arith)
            requires a < 0, b > 0, tdiv(a, b) == -((-a) / b);
    }
}

/// The square root of a 64-bit value fits well inside `i64`.
proof fn lemma_sqrt_bound_43(n: int)
    requires
        0 <= n <= 18_000_000_000_000_000_000,
    ensures
        0 <= sqrt_floor(n) <= 4_242_640_688,
{
    crate::num::lemma_sqrt_floor(n);
    let s = sqrt_floor(n);
    if s > 4_242_640_688 {
        assert(s * s >= 4_242_640_689 * 4_242_640_689) by (nonlinear_arith)
            requires s >= 4_242_640_689;
    }
}

} // verus!
