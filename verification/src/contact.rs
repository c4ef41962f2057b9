//! Contact detection between shapes at world poses.
//!
//! The contact model is exact fixed-point geometry for ball/ball and
//! ball/box pairs — the pairs this game's entities produce — and a
//! conservative bounding-disc test for the remaining pairs.  Each
//! predicate is a mathematical function of the poses and descriptors, and
//! the executable tests return exactly what the predicates say.

use vstd::prelude::*;

use crate::num::{clip, clip_i128, SCALE};
use crate::shape::{PrimShape, Shape};
use crate::vec2::{spec_rotate, Rot, Vec2};

verus! {

/// Largest body coordinate the contact tests accept; slightly above the
/// world bound so compound children pushed out by their offsets still fit.
pub const POS_RANGE: i64 = 1_100_000_000;

/// The reverse rotation: same cosine, negated sine.
pub open spec fn conj_spec(r: Rot) -> Rot {
    Rot { c: r.c, s: -r.s as i64 }
}

/// Two discs touch: the squared centre distance is at most the squared
/// radius sum.
pub open spec fn balls_touch(pa: Vec2, ra: int, pb: Vec2, rb: int) -> bool {
    pb.sub_spec(pa).norm2() <= (ra + rb) * (ra + rb)
}

/// A ball touches a rotated box: the ball centre is carried into the box
/// frame, clamped to the box, and the clamped point must lie within the
/// ball's radius.
pub open spec fn ball_cuboid_touch(ball_c: Vec2, r: int, box_pos: Vec2, box_rot: Rot, he: Vec2) -> bool {
    let d = spec_rotate(ball_c.sub_spec(box_pos), conj_spec(box_rot));
    let close = Vec2 { x: clip(d.x as int, he.x as int) as i64, y: clip(d.y as int, he.y as int) as i64 };
    d.sub_spec(close).norm2() <= r * r
}

/// Contact between two primitives at world poses.
pub open spec fn prims_touch(a: PrimShape, pa: Vec2, ra: Rot, b: PrimShape, pb: Vec2, rb: Rot) -> bool {
    match (a, b) {
        (PrimShape::Ball { radius: r1 }, PrimShape::Ball { radius: r2 }) => balls_touch(
            pa,
            r1 as int,
            pb,
            r2 as int,
        ),
        (PrimShape::Ball { radius: r1 }, PrimShape::Cuboid { half_extents }) => ball_cuboid_touch(
            pa,
            r1 as int,
            pb,
            rb,
            half_extents,
        ),
        (PrimShape::Cuboid { half_extents }, PrimShape::Ball { radius: r2 }) => ball_cuboid_touch(
            pb,
            r2 as int,
            pa,
            ra,
            half_extents,
        ),
        _ => balls_touch(pa, a.bound_radius(), pb, b.bound_radius()),
    }
}

/// World position of a compound child: the parent position plus the local
/// offset carried through the parent rotation.
pub open spec fn child_world(pos: Vec2, rot: Rot, off: Vec2) -> Vec2 {
    pos.add_spec(spec_rotate(off, rot))
}

/// Contact between a primitive and a whole shape.
pub open spec fn prim_vs_shape(p: PrimShape, pp: Vec2, pr: Rot, s: Shape, sp: Vec2, sr: Rot) -> bool {
    match s {
        Shape::Compound { children } => exists|j: int|
            0 <= j < children@.len() && prims_touch(
                p,
                pp,
                pr,
                (#[trigger] children@[j]).shape,
                child_world(sp, sr, children@[j].offset),
                sr,
            ),
        _ => prims_touch(p, pp, pr, s.as_prim_spec(), sp, sr),
    }
}

/// Contact between two shapes at world poses: the model's touching
/// predicate.  A compound touches through any of its children.
pub open spec fn shapes_touch(a: Shape, pa: Vec2, ra: Rot, b: Shape, pb: Vec2, rb: Rot) -> bool {
    match a {
        Shape::Compound { children } => exists|i: int|
            0 <= i < children@.len() && prim_vs_shape(
                (#[trigger] children@[i]).shape,
                child_world(pa, ra, children@[i].offset),
                ra,
                b,
                pb,
                rb,
            ),
        _ => prim_vs_shape(a.as_prim_spec(), pa, ra, b, pb, rb),
    }
}

impl Shape {
    /// The primitive a non-compound shape stands for (executable form).
    pub fn as_prim(&self) -> (r: PrimShape)
        requires
            !(*self is Compound),
        ensures
            r == self.as_prim_spec(),
    {
        match self {
            Shape::Ball { radius } => PrimShape::Ball { radius: *radius },
            Shape::Cuboid { half_extents } => PrimShape::Cuboid { half_extents: *half_extents },
            Shape::Triangle { a, b, c } => PrimShape::Triangle { a: *a, b: *b, c: *c },
            Shape::Compound { .. } => PrimShape::Ball { radius: 1 },
        }
    }
}

/// Decide `balls_touch` exactly, in 128-bit arithmetic.
pub fn balls_touch_ex(pa: Vec2, ra: i64, pb: Vec2, rb: i64) -> (r: bool)
    requires
        pa.in_range(POS_RANGE as int),
        pb.in_range(POS_RANGE as int),
        0 <= ra <= 4_000_000,
        0 <= rb <= 4_000_000,
    ensures
        r == balls_touch(pa, ra as int, pb, rb as int),
{
    let dx: i128 = pb.x as i128 - pa.x as i128;
    let dy: i128 = pb.y as i128 - pa.y as i128;
    assert(0 <= dx * dx <= 5_000_000_000_000_000_000i64 * 4i64) by (nonlinear_arith)
        requires -2_200_000_000i128 <= dx <= 2_200_000_000i128;
    assert(0 <= dy * dy <= 5_000_000_000_000_000_000i64 * 4i64) by (nonlinear_arith)
        requires -2_200_000_000i128 <= dy <= 2_200_000_000i128;
    let n2: i128 = dx * dx + dy * dy;
    let rr: i128 = ra as i128 + rb as i128;
    assert(0 <= rr * rr <= 64_000_000_000_000i64) by (nonlinear_arith)
        requires 0 <= rr <= 8_000_000i128;
    n2 <= rr * rr
}

/// Decide `ball_cuboid_touch` exactly.
pub fn ball_cuboid_touch_ex(ball_c: Vec2, r: i64, box_pos: Vec2, box_rot: Rot, he: Vec2) -> (res:
    bool)
    requires
        ball_c.in_range(POS_RANGE as int),
        box_pos.in_range(POS_RANGE as int),
        0 <= r <= 4_000_000,
        box_rot.wf(),
        1 <= he.x <= 1_000_000,
        1 <= he.y <= 1_000_000,
    ensures
        res == ball_cuboid_touch(ball_c, r as int, box_pos, box_rot, he),
{
    let delta = ball_c.sub(box_pos);
    let cj = Rot { c: box_rot.c, s: -box_rot.s };
    assert(cj == conj_spec(box_rot));
    let d = delta.rotate(cj);
    proof {
        assert(-4_400_000_000_000i64 <= delta.x * cj.c - delta.y * cj.s <= 4_400_000_000_000i64
            && -4_400_000_000_000i64 <= delta.x * cj.s + delta.y * cj.c <= 4_400_000_000_000i64)
            by (nonlinear_arith)
            requires
                -2_200_000_000 <= delta.x <= 2_200_000_000,
                -2_200_000_000 <= delta.y <= 2_200_000_000,
                -1000 <= cj.c <= 1000,
                -1000 <= cj.s <= 1000;
        crate::num::lemma_tdiv_mag(
            delta.x * cj.c - delta.y * cj.s,
            SCALE as int,
            4_400_000_000_000,
        );
        crate::num::lemma_tdiv_mag(
            delta.x * cj.s + delta.y * cj.c,
            SCALE as int,
            4_400_000_000_000,
        );
        assert(4_400_000_000_000int / (SCALE as int) == 4_400_000_000int);
    }
    let cx: i64 = clip_i128(d.x as i128, he.x);
    let cy: i64 = clip_i128(d.y as i128, he.y);
    let ex: i128 = d.x as i128 - cx as i128;
    let ey: i128 = d.y as i128 - cy as i128;
    assert(0 <= ex * ex <= 5_000_000_000_000_000_000i64 * 4i64) by (nonlinear_arith)
        requires -4_400_001_000i128 <= ex <= 4_400_001_000i128;
    assert(0 <= ey * ey <= 5_000_000_000_000_000_000i64 * 4i64) by (nonlinear_arith)
        requires -4_400_001_000i128 <= ey <= 4_400_001_000i128;
    assert(0 <= (r as i128) * (r as i128) <= 16_000_000_000_000i64) by (nonlinear_arith)
        requires 0 <= r <= 4_000_000;
    let n2: i128 = ex * ex + ey * ey;
    n2 <= (r as i128) * (r as i128)
}

/// Decide `prims_touch` exactly.
pub fn prims_touch_ex(a: &PrimShape, pa: Vec2, ra: Rot, b: &PrimShape, pb: Vec2, rb: Rot) -> (r:
    bool)
    requires
        a.wf(),
        b.wf(),
        pa.in_range(POS_RANGE as int),
        pb.in_range(POS_RANGE as int),
        ra.wf(),
        rb.wf(),
    ensures
        r == prims_touch(*a, pa, ra, *b, pb, rb),
{
    match (a, b) {
        (PrimShape::Ball { radius: r1 }, PrimShape::Ball { radius: r2 }) => balls_touch_ex(
            pa,
            *r1,
            pb,
            *r2,
        ),
        (PrimShape::Ball { radius: r1 }, PrimShape::Cuboid { half_extents }) => ball_cuboid_touch_ex(
            pa,
            *r1,
            pb,
            rb,
            *half_extents,
        ),
        (PrimShape::Cuboid { half_extents }, PrimShape::Ball { radius: r2 }) => ball_cuboid_touch_ex(
            pb,
            *r2,
            pa,
            ra,
            *half_extents,
        ),
        _ => {
            let bra = a.bound_radius_ex();
            let brb = b.bound_radius_ex();
            balls_touch_ex(pa, bra, pb, brb)
        },
    }
}

/// World position of a compound child (executable form).
pub fn child_world_ex(pos: Vec2, rot: Rot, off: Vec2) -> (r: Vec2)
    requires
        pos.in_range(1_000_000_000),
        off.in_range(1_000_000),
        rot.wf(),
    ensures
        r == child_world(pos, rot, off),
        r.in_range(POS_RANGE as int),
{
    proof {
        assert(-2_000_000_000i64 <= off.x * rot.c - off.y * rot.s <= 2_000_000_000i64
            && -2_000_000_000i64 <= off.x * rot.s + off.y * rot.c <= 2_000_000_000i64)
            by (nonlinear_arith)
            requires
                -1_000_000 <= off.x <= 1_000_000,
                -1_000_000 <= off.y <= 1_000_000,
                -1000 <= rot.c <= 1000,
                -1000 <= rot.s <= 1000;
        crate::num::lemma_tdiv_mag(off.x * rot.c - off.y * rot.s, SCALE as int, 2_000_000_000);
        crate::num::lemma_tdiv_mag(off.x * rot.s + off.y * rot.c, SCALE as int, 2_000_000_000);
        assert(2_000_000_000int / (SCALE as int) == 2_000_000int);
    }
    let ro = off.rotate(rot);
    pos.add(ro)
}

/// Decide `prim_vs_shape` exactly.
pub fn prim_vs_shape_ex(p: &PrimShape, pp: Vec2, pr: Rot, s: &Shape, sp: Vec2, sr: Rot) -> (r:
    bool)
    requires
        p.wf(),
        s.wf(),
        pp.in_range(POS_RANGE as int),
        sp.in_range(1_000_000_000),
        pr.wf(),
        sr.wf(),
    ensures
        r == prim_vs_shape(*p, pp, pr, *s, sp, sr),
{
    match s {
        Shape::Compound { children } => {
            let n = children.len();
            let mut j: usize = 0;
            while j < n
                invariant
                    n == children@.len(),
                    j <= n,
                    p.wf(),
                    s.wf(),
                    *s == (Shape::Compound { children: *children }),
                    pp.in_range(POS_RANGE as int),
                    sp.in_range(1_000_000_000),
                    pr.wf(),
                    sr.wf(),
                    forall|jj: int|
                        0 <= jj < j ==> !prims_touch(
                            *p,
                            pp,
                            pr,
                            (#[trigger] children@[jj]).shape,
                            child_world(sp, sr, children@[jj].offset),
                            sr,
                        ),
                decreases n - j,
            {
                let child = &children[j];
                let cw = child_world_ex(sp, sr, child.offset);
                if prims_touch_ex(p, pp, pr, &child.shape, cw, sr) {
                    return true;
                }
                j += 1;
            }
            false
        },
        _ => {
            let bp = s.as_prim();
            prims_touch_ex(p, pp, pr, &bp, sp, sr)
        },
    }
}

/// Decide `shapes_touch` — the model's touching predicate — exactly.
pub fn shapes_touch_ex(a: &Shape, pa: Vec2, ra: Rot, b: &Shape, pb: Vec2, rb: Rot) -> (r: bool)
    requires
        a.wf(),
        b.wf(),
        pa.in_range(1_000_000_000),
        pb.in_range(1_000_000_000),
        ra.wf(),
        rb.wf(),
    ensures
        r == shapes_touch(*a, pa, ra, *b, pb, rb),
{
    match a {
        Shape::Compound { children } => {
            let n = children.len();
            let mut i: usize = 0;
            while i < n
                invariant
                    n == children@.len(),
                    i <= n,
                    a.wf(),
                    b.wf(),
                    *a == (Shape::Compound { children: *children }),
                    pa.in_range(1_000_000_000),
                    pb.in_range(1_000_000_000),
                    ra.wf(),
                    rb.wf(),
                    forall|ii: int|
                        0 <= ii < i ==> !prim_vs_shape(
                            (#[trigger] children@[ii]).shape,
                            child_world(pa, ra, children@[ii].offset),
                            ra,
                            *b,
                            pb,
                            rb,
                        ),
                decreases n - i,
            {
                let child = &children[i];
                let cw = child_world_ex(pa, ra, child.offset);
                if prim_vs_shape_ex(&child.shape, cw, ra, b, pb, rb) {
                    return true;
                }
                i += 1;
            }
            false
        },
        _ => {
            let ap = a.as_prim();
            prim_vs_shape_ex(&ap, pa, ra, b, pb, rb)
        },
    }
}

} // verus!
