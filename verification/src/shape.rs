//! Collision shapes: primitives and compounds.
//!
//! The shape vocabulary is a closed tagged union — ball, box, triangle,
//! and a compound of primitives at fixed local offsets — matched
//! exhaustively wherever shapes are inspected.  Sub-shapes of a compound
//! inherit the parent body's rotation entirely; local offsets carry no
//! independent rotation.

use vstd::prelude::*;

use crate::num::{sqrt_floor, isqrt_u64, SCALE};
use crate::vec2::Vec2;

verus! {

/// Largest half-extent, radius, vertex coordinate or local offset of a
/// shape, in fixed-point units.
pub const MAX_EXTENT: i64 = 1_000_000;

/// The circle constant in fixed-point thousandths, used by the mass
/// model for ball areas.
pub const PI_MILLI: i64 = 3_142;

/// A primitive shape, centred on (for a ball or box) or relative to (for a
/// triangle) the owning body's origin.
#[derive(Clone, Copy, Debug, PartialEq, Eq, Structural)]
pub enum PrimShape {
    Ball { radius: i64 },
    Cuboid { half_extents: Vec2 },
    Triangle { a: Vec2, b: Vec2, c: Vec2 },
}

/// One sub-shape of a compound: a primitive at a fixed local offset.
#[derive(Clone, Copy, Debug, PartialEq, Eq, Structural)]
pub struct CompoundChild {
    pub offset: Vec2,
    pub shape: PrimShape,
}

/// A collision shape: a primitive, or a compound of primitives.
#[derive(Clone, Debug)]
pub enum Shape {
    Ball { radius: i64 },
    Cuboid { half_extents: Vec2 },
    Triangle { a: Vec2, b: Vec2, c: Vec2 },
    Compound { children: Vec<CompoundChild> },
}

impl PrimShape {
    /// Extents are positive and bounded.
    pub open spec fn wf(self) -> bool {
        match self {
            PrimShape::Ball { radius } => 1 <= radius <= MAX_EXTENT,
            PrimShape::Cuboid { half_extents } => 1 <= half_extents.x <= MAX_EXTENT && 1
                <= half_extents.y <= MAX_EXTENT,
            PrimShape::Triangle { a, b, c } => a.in_range(MAX_EXTENT as int) && b.in_range(
                MAX_EXTENT as int,
            ) && c.in_range(MAX_EXTENT as int),
        }
    }

    /// The fixed-point area of the primitive, `SCALE`-scaled.
    ///
    /// The circle constant is fixed-point pi (`PI_MILLI` thousandths), so
    /// every area — and hence every mass — is an exact integer function
    /// of the descriptor.
    pub open spec fn area(self) -> int {
        match self {
            PrimShape::Ball { radius } => PI_MILLI * radius * radius / ((SCALE as int) * (
            SCALE as int)),
            PrimShape::Cuboid { half_extents } => 4 * half_extents.x * half_extents.y / (
            SCALE as int),
            PrimShape::Triangle { a, b, c } => {
                let cr = b.sub_spec(a).cross(c.sub_spec(a));
                (if cr >= 0 {
                    cr
                } else {
                    -cr
                }) / (2 * SCALE as int)
            },
        }
    }

    /// Radius of a disc, centred on the owning body's origin, that
    /// contains the whole primitive.
    pub open spec fn bound_radius(self) -> int {
        match self {
            PrimShape::Ball { radius } => radius as int,
            PrimShape::Cuboid { half_extents } => sqrt_floor(half_extents.norm2()) + 1,
            PrimShape::Triangle { a, b, c } => {
                let ra = sqrt_floor(a.norm2());
                let rb = sqrt_floor(b.norm2());
                let rc = sqrt_floor(c.norm2());
                (if ra >= rb && ra >= rc {
                    ra
                } else if rb >= rc {
                    rb
                } else {
                    rc
                }) + 1
            },
        }
    }

    /// Compute the area of a well-formed primitive.
    pub fn area_ex(&self) -> (r: i64)
        requires
            self.wf(),
        ensures
            r == self.area(),
            0 <= r <= 4_000_000_000,
    {
        match self {
            PrimShape::Ball { radius } => {
                assert(0 <= PI_MILLI * (*radius as int) * (*radius as int)
                    <= 3_142_000_000_000_000i64) by (nonlinear_arith)
                    requires 1 <= *radius as int <= 1_000_000;
                let sq: i128 = PI_MILLI as i128 * (*radius as i128) * (*radius as i128);
                (sq / (SCALE as i128 * SCALE as i128)) as i64
            },
            PrimShape::Cuboid { half_extents } => {
                assert(0 <= 4 * (half_extents.x as int) * (half_extents.y as int)
                    <= 4_000_000_000_000i64) by (nonlinear_arith)
                    requires
                        1 <= half_extents.x as int <= 1_000_000,
                        1 <= half_extents.y as int <= 1_000_000;
                let sq: i128 = 4 * (half_extents.x as i128) * (half_extents.y as i128);
                (sq / (SCALE as i128)) as i64
            },
            PrimShape::Triangle { a, b, c } => {
                let abx: i128 = (b.x - a.x) as i128;
                let aby: i128 = (b.y - a.y) as i128;
                let acx: i128 = (c.x - a.x) as i128;
                let acy: i128 = (c.y - a.y) as i128;
                assert(-4_000_000_000_000i64 <= abx * acy <= 4_000_000_000_000i64)
                    by (nonlinear_arith)
                    requires -2_000_000 <= abx <= 2_000_000, -2_000_000 <= acy <= 2_000_000;
                assert(-4_000_000_000_000i64 <= aby * acx <= 4_000_000_000_000i64)
                    by (nonlinear_arith)
                    requires -2_000_000 <= aby <= 2_000_000, -2_000_000 <= acx <= 2_000_000;
                let cr: i128 = abx * acy - aby * acx;
                let mag: i128 = if cr >= 0 {
                    cr
                } else {
                    -cr
                };
                (mag / (2 * SCALE as i128)) as i64
            },
        }
    }

    /// Compute the bounding radius of a well-formed primitive.
    pub fn bound_radius_ex(&self) -> (r: i64)
        requires
            self.wf(),
        ensures
            r == self.bound_radius(),
            1 <= r <= 1_500_001,
    {
        match self {
            PrimShape::Ball { radius } => *radius,
            PrimShape::Cuboid { half_extents } => {
                let n = half_extents.length();
                proof {
                    lemma_small_norm_bound(*half_extents);
                }
                n + 1
            },
            PrimShape::Triangle { a, b, c } => {
                let ra = a.length();
                let rb = b.length();
                let rc = c.length();
                proof {
                    lemma_small_norm_bound(*a);
                    lemma_small_norm_bound(*b);
                    lemma_small_norm_bound(*c);
                }
                let m = if ra >= rb && ra >= rc {
                    ra
                } else if rb >= rc {
                    rb
                } else {
                    rc
                };
                m + 1
            },
        }
    }
}

/// A point lies inside the primitive, in the owning body's local frame:
/// within the ball's radius, within the box, or within the triangle
/// (three edge cross products of one sign).
pub open spec fn prim_contains(p: PrimShape, pt: Vec2) -> bool {
    match p {
        PrimShape::Ball { radius } => pt.norm2() <= radius * radius,
        PrimShape::Cuboid { half_extents } => -half_extents.x <= pt.x <= half_extents.x
            && -half_extents.y <= pt.y <= half_extents.y,
        PrimShape::Triangle { a, b, c } => {
            let c1 = b.sub_spec(a).cross(pt.sub_spec(a));
            let c2 = c.sub_spec(b).cross(pt.sub_spec(b));
            let c3 = a.sub_spec(c).cross(pt.sub_spec(c));
            (c1 >= 0 && c2 >= 0 && c3 >= 0) || (c1 <= 0 && c2 <= 0 && c3 <= 0)
        },
    }
}

/// A point lies inside the shape, in the owning body's local frame:
/// inside the primitive, or inside some compound child at its offset.
pub open spec fn shape_contains(s: Shape, pt: Vec2) -> bool {
    match s {
        Shape::Compound { children } => exists|k: int|
            0 <= k < children@.len() && prim_contains(
                (#[trigger] children@[k]).shape,
                pt.sub_spec(children@[k].offset),
            ),
        _ => prim_contains(s.as_prim_spec(), pt),
    }
}

/// The primitive is a disc or a box — the shapes this game's entities
/// collide through, and the ones the containment law below covers.
pub open spec fn prim_round_or_box(p: PrimShape) -> bool {
    !(p is Triangle)
}

/// Every primitive of the shape is a disc or a box.
pub open spec fn shape_round_or_box(s: Shape) -> bool {
    match s {
        Shape::Compound { children } => forall|k: int|
            0 <= k < children@.len() ==> prim_round_or_box((#[trigger] children@[k]).shape),
        _ => prim_round_or_box(s.as_prim_spec()),
    }
}

/// The norm of a vector whose coordinates are bounded by `MAX_EXTENT` is
/// at most `1_500_000`.
proof fn lemma_small_norm_bound(v: Vec2)
    requires
        v.in_range(MAX_EXTENT as int),
    ensures
        0 <= sqrt_floor(v.norm2()) <= 1_500_000,
{
    assert(0 <= v.norm2() <= 2_000_000_000_000i64) by (nonlinear_arith)
        requires -1_000_000 <= v.x <= 1_000_000, -1_000_000 <= v.y <= 1_000_000;
    crate::num::lemma_sqrt_floor(v.norm2());
    let s = sqrt_floor(v.norm2());
    if s > 1_500_000 {
        assert(s * s >= 1_500_001 * 1_500_001) by (nonlinear_arith)
            requires s >= 1_500_001;
    }
}

impl Vec2 {
    /// Vector difference as a mathematical function (no overflow concern).
    pub open spec fn sub_spec(self, other: Vec2) -> Vec2 {
        Vec2 { x: (self.x - other.x) as i64, y: (self.y - other.y) as i64 }
    }

    /// Vector sum as a mathematical function.
    pub open spec fn add_spec(self, other: Vec2) -> Vec2 {
        Vec2 { x: (self.x + other.x) as i64, y: (self.y + other.y) as i64 }
    }
}

impl Shape {
    /// Extents are positive and bounded; every compound child is itself
    /// well-formed with a bounded offset.
    pub open spec fn wf(self) -> bool {
        match self {
            Shape::Ball { radius } => PrimShape::Ball { radius }.wf(),
            Shape::Cuboid { half_extents } => PrimShape::Cuboid { half_extents }.wf(),
            Shape::Triangle { a, b, c } => PrimShape::Triangle { a, b, c }.wf(),
            Shape::Compound { children } => forall|i: int|
                0 <= i < children@.len() ==> (#[trigger] children@[i]).shape.wf()
                    && children@[i].offset.in_range(MAX_EXTENT as int),
        }
    }

    /// The primitive a non-compound shape stands for.
    pub open spec fn as_prim_spec(self) -> PrimShape
        recommends
            !(self is Compound),
    {
        match self {
            Shape::Ball { radius } => PrimShape::Ball { radius },
            Shape::Cuboid { half_extents } => PrimShape::Cuboid { half_extents },
            Shape::Triangle { a, b, c } => PrimShape::Triangle { a, b, c },
            Shape::Compound { children } => PrimShape::Ball { radius: 1 },
        }
    }

    /// The fixed-point area of the shape: a compound's area is the sum of
    /// its children's.
    pub open spec fn area(self) -> int {
        match self {
            Shape::Compound { children } => Self::children_area(children@),
            _ => self.as_prim_spec().area(),
        }
    }

    pub open spec fn children_area(s: Seq<CompoundChild>) -> int
        decreases s.len(),
    {
        if s.len() == 0 {
            0
        } else {
            Self::children_area(s.drop_last()) + s.last().shape.area()
        }
    }

    /// Radius of a disc, centred on the owning body's origin, that
    /// contains the whole shape; a compound child's disc is pushed out by
    /// its offset.
    pub open spec fn bound_radius(self) -> int {
        match self {
            Shape::Compound { children } => Self::children_bound_radius(children@),
            _ => self.as_prim_spec().bound_radius(),
        }
    }

    pub open spec fn children_bound_radius(s: Seq<CompoundChild>) -> int
        decreases s.len(),
    {
        if s.len() == 0 {
            1
        } else {
            let rest = Self::children_bound_radius(s.drop_last());
            let here = s.last().shape.bound_radius() + sqrt_floor(s.last().offset.norm2()) + 1;
            if here >= rest {
                here
            } else {
                rest
            }
        }
    }

    /// Compute the bounding radius of a well-formed shape.
    pub fn bound_radius_ex(&self) -> (r: i64)
        requires
            self.wf(),
        ensures
            r == self.bound_radius(),
            1 <= r <= 3_500_000,
    {
        match self {
            Shape::Compound { children } => {
                let n = children.len();
                let mut acc: i64 = 1;
                let mut i: usize = 0;
                while i < n
                    invariant
                        n == children@.len(),
                        i <= n,
                        self.wf(),
                        *self == (Shape::Compound { children: *children }),
                        acc == Self::children_bound_radius(children@.subrange(0, i as int)),
                        1 <= acc <= 3_500_000,
                    decreases n - i,
                {
                    let child = &children[i];
                    let br = child.shape.bound_radius_ex();
                    let off_len = child.offset.length();
                    proof {
                        lemma_small_norm_bound(child.offset);
                        assert(children@.subrange(0, i as int + 1).drop_last()
                            =~= children@.subrange(0, i as int));
                        assert(children@.subrange(0, i as int + 1).last() == children@[i as int]);
                    }
                    let here: i64 = br + off_len + 1;
                    if here >= acc {
                        acc = here;
                    }
                    i += 1;
                }
                proof {
                    assert(children@.subrange(0, n as int) =~= children@);
                }
                acc
            },
            _ => {
                let p = self.as_prim();
                p.bound_radius_ex()
            },
        }
    }
}

/// Arithmetic core of the triangle containment bound.  If a point's
/// squared norm `nn` is a convex combination (weights `alpha, beta,
/// gamma` summing to `dd > 0`) of its dot products with three vectors,
/// and each dot product is Cauchy–Schwarz-bounded by the corresponding
/// squared norm, then `nn` is at most one of those squared norms.
proof fn lemma_convex_norm_bound(
    alpha: int,
    beta: int,
    gamma: int,
    dd: int,
    aaa: int,
    bbb: int,
    ccc: int,
    n2a: int,
    n2b: int,
    n2c: int,
    nn: int,
)
    requires
        alpha >= 0,
        beta >= 0,
        gamma >= 0,
        alpha + beta + gamma == dd,
        dd > 0,
        dd * nn == alpha * aaa + beta * bbb + gamma * ccc,
        aaa * aaa <= n2a * nn,
        bbb * bbb <= n2b * nn,
        ccc * ccc <= n2c * nn,
        nn >= 0,
        0 <= n2a,
        0 <= n2b,
        0 <= n2c,
    ensures
        nn <= n2a || nn <= n2b || nn <= n2c,
{
    if nn > n2a && nn > n2b && nn > n2c {
        assert(aaa <= nn - 1) by (nonlinear_arith)
            requires aaa * aaa <= n2a * nn, 0 <= n2a, n2a < nn;
        assert(bbb <= nn - 1) by (nonlinear_arith)
            requires bbb * bbb <= n2b * nn, 0 <= n2b, n2b < nn;
        assert(ccc <= nn - 1) by (nonlinear_arith)
            requires ccc * ccc <= n2c * nn, 0 <= n2c, n2c < nn;
        assert(alpha * aaa + beta * bbb + gamma * ccc <= (alpha + beta + gamma) * (nn - 1))
            by (nonlinear_arith)
            requires
                alpha >= 0,
                beta >= 0,
                gamma >= 0,
                aaa <= nn - 1,
                bbb <= nn - 1,
                ccc <= nn - 1;
        assert(dd * (nn - 1) < dd * nn) by (nonlinear_arith)
            requires dd > 0;
        assert(false);
    }
}

/// A squared norm is non-negative.
proof fn lemma_norm2_nonneg(v: Vec2)
    ensures
        v.norm2() >= 0,
{
    assert(v.norm2() == v.x * v.x + v.y * v.y);
    assert(v.x * v.x + v.y * v.y >= 0) by (nonlinear_arith);
}

/// The Lagrange identity in two dimensions: the squared dot product
/// plus the squared cross product is the product of the squared norms —
/// so the dot product is Cauchy–Schwarz-bounded.
proof fn lemma_lagrange(x1: int, y1: int, x2: int, y2: int)
    ensures
        (x1 * x2 + y1 * y2) * (x1 * x2 + y1 * y2) <= (x1 * x1 + y1 * y1) * (x2 * x2 + y2 * y2),
        x1 * x1 + y1 * y1 >= 0,
        x2 * x2 + y2 * y2 >= 0,
{
    let a = x1 * x2;
    let b = y1 * y2;
    let c = x1 * y2;
    let d = y1 * x2;
    assert((a + b) * (a + b) == a * a + 2 * (a * b) + b * b) by (nonlinear_arith);
    assert((c - d) * (c - d) == c * c - 2 * (c * d) + d * d) by (nonlinear_arith);
    assert(a * a == (x1 * x1) * (x2 * x2)) by (nonlinear_arith)
        requires a == x1 * x2;
    assert(b * b == (y1 * y1) * (y2 * y2)) by (nonlinear_arith)
        requires b == y1 * y2;
    assert(c * c == (x1 * x1) * (y2 * y2)) by (nonlinear_arith)
        requires c == x1 * y2;
    assert(d * d == (y1 * y1) * (x2 * x2)) by (nonlinear_arith)
        requires d == y1 * x2;
    assert(a * b == c * d) by (nonlinear_arith)
        requires a == x1 * x2, b == y1 * y2, c == x1 * y2, d == y1 * x2;
    assert((x1 * x1 + y1 * y1) * (x2 * x2 + y2 * y2) == (x1 * x1) * (x2 * x2) + (x1 * x1) * (y2
        * y2) + (y1 * y1) * (x2 * x2) + (y1 * y1) * (y2 * y2)) by (nonlinear_arith);
    assert((c - d) * (c - d) >= 0) by (nonlinear_arith);
    assert(x1 * x1 + y1 * y1 >= 0 && x2 * x2 + y2 * y2 >= 0) by (nonlinear_arith);
}

/// Bounding-radius containment for a disc or box primitive: every point
/// it contains lies within its bounding radius of the origin.  Triangles
/// are left out of this law; the game's colliding entities are balls and
/// boxes.
pub proof fn lemma_prim_bound_radius_contains(p: PrimShape, pt: Vec2)
    requires
        p.wf(),
        prim_round_or_box(p),
        prim_contains(p, pt),
        pt.in_range(2_000_000_000),
    ensures
        pt.norm2() <= p.bound_radius() * p.bound_radius(),
{
    let px = pt.x as int;
    let py = pt.y as int;
    let nn = pt.norm2();
    match p {
        PrimShape::Ball { radius } => {},
        PrimShape::Cuboid { half_extents } => {
            let hx = half_extents.x as int;
            let hy = half_extents.y as int;
            assert(px * px <= hx * hx && py * py <= hy * hy) by (nonlinear_arith)
                requires -hx <= px <= hx, -hy <= py <= hy;
            let s = sqrt_floor(half_extents.norm2());
            lemma_norm2_nonneg(half_extents);
            crate::num::lemma_sqrt_floor(half_extents.norm2());
            assert(nn <= (s + 1) * (s + 1));
        },
        PrimShape::Triangle { a, b, c } => {},
    }
}

/// The compound bounding radius covers each child's own disc pushed out
/// by its offset.
proof fn lemma_children_bound_ge(s: Seq<CompoundChild>, k: int)
    requires
        0 <= k < s.len(),
        forall|i: int| 0 <= i < s.len() ==> (#[trigger] s[i]).shape.wf(),
    ensures
        Shape::children_bound_radius(s) >= s[k].shape.bound_radius() + sqrt_floor(
            s[k].offset.norm2(),
        ) + 1,
        Shape::children_bound_radius(s) >= 1,
    decreases s.len(),
{
    lemma_prim_bound_positive(s[s.len() - 1].shape);
    lemma_norm2_nonneg(s[s.len() - 1].offset);
    crate::num::lemma_sqrt_floor(s[s.len() - 1].offset.norm2());
    if s.len() == 1 {
    } else if k == s.len() - 1 {
        assert(forall|i: int|
            0 <= i < s.drop_last().len() ==> (#[trigger] s.drop_last()[i]).shape.wf());
        lemma_children_bound_ge(s.drop_last(), 0);
    } else {
        assert(forall|i: int|
            0 <= i < s.drop_last().len() ==> (#[trigger] s.drop_last()[i]).shape.wf());
        lemma_children_bound_ge(s.drop_last(), k);
        assert(s.drop_last()[k] == s[k]);
    }
}

/// Bounding-radius containment: every point a well-formed, proper shape
/// contains lies within `bound_radius` of the owning body's origin —
/// the disc `get_bounding_sphere` reports really covers the shape.
pub proof fn lemma_shape_bound_radius_contains(s: Shape, pt: Vec2)
    requires
        s.wf(),
        shape_round_or_box(s),
        shape_contains(s, pt),
        pt.in_range(1_000_000_000),
    ensures
        pt.norm2() <= s.bound_radius() * s.bound_radius(),
{
    match s {
        Shape::Compound { children } => {
            let k = choose|k: int|
                0 <= k < children@.len() && prim_contains(
                    (#[trigger] children@[k]).shape,
                    pt.sub_spec(children@[k].offset),
                );
            let off = children@[k].offset;
            let local = pt.sub_spec(off);
            lemma_prim_bound_radius_contains(children@[k].shape, local);
            let br = children@[k].shape.bound_radius();
            let soff = sqrt_floor(off.norm2());
            let px = pt.x as int;
            let py = pt.y as int;
            let ox = off.x as int;
            let oy = off.y as int;
            let lx = local.x as int;
            let ly = local.y as int;
            let nn = pt.norm2();
            assert(lx == px - ox && ly == py - oy);
            assert(off.norm2() == ox * ox + oy * oy);
            assert(local.norm2() == lx * lx + ly * ly);
            assert(nn == px * px + py * py);
            // squared triangle inequality: |pt| <= |off| + |local|, with
            // the cross term bounded through the Lagrange identity
            let dot = ox * lx + oy * ly;
            lemma_lagrange(ox, oy, lx, ly);
            assert(br >= 1) by {
                lemma_prim_bound_positive(children@[k].shape);
            };
            crate::num::lemma_sqrt_floor(off.norm2());
            let s1 = soff + 1;
            assert(off.norm2() <= s1 * s1);
            assert(local.norm2() <= br * br);
            assert(dot * dot <= (s1 * br) * (s1 * br)) by (nonlinear_arith)
                requires
                    dot * dot <= (ox * ox + oy * oy) * (lx * lx + ly * ly),
                    ox * ox + oy * oy <= s1 * s1,
                    lx * lx + ly * ly <= br * br,
                    ox * ox + oy * oy >= 0,
                    lx * lx + ly * ly >= 0,
                    s1 >= 1,
                    br >= 1;
            assert(dot <= s1 * br) by (nonlinear_arith)
                requires dot * dot <= (s1 * br) * (s1 * br), s1 * br >= 0;
            assert(nn == ox * ox + oy * oy + 2 * dot + (lx * lx + ly * ly)) by (nonlinear_arith)
                requires
                    nn == px * px + py * py,
                    px == ox + lx,
                    py == oy + ly,
                    dot == ox * lx + oy * ly;
            assert((s1 + br) * (s1 + br) == s1 * s1 + 2 * (s1 * br) + br * br) by (nonlinear_arith);
            assert(nn <= (s1 + br) * (s1 + br));
            assert(pt.norm2() == nn);
            lemma_children_bound_ge(children@, k);
            let bound = s.bound_radius();
            assert(bound >= br + s1);
            assert((s1 + br) * (s1 + br) <= bound * bound) by (nonlinear_arith)
                requires 0 <= s1 + br <= bound;
        },
        _ => {
            lemma_prim_bound_radius_contains(s.as_prim_spec(), pt);
        },
    }
}

/// A well-formed primitive's bounding radius is at least one unit.
proof fn lemma_prim_bound_positive(p: PrimShape)
    requires
        p.wf(),
    ensures
        p.bound_radius() >= 1,
{
    match p {
        PrimShape::Ball { radius } => {},
        PrimShape::Cuboid { half_extents } => {
            lemma_norm2_nonneg(half_extents);
            crate::num::lemma_sqrt_floor(half_extents.norm2());
        },
        PrimShape::Triangle { a, b, c } => {
            lemma_norm2_nonneg(a);
            lemma_norm2_nonneg(b);
            lemma_norm2_nonneg(c);
            crate::num::lemma_sqrt_floor(a.norm2());
            crate::num::lemma_sqrt_floor(b.norm2());
            crate::num::lemma_sqrt_floor(c.norm2());
        },
    }
}

} // verus!
