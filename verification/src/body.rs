//! Rigid bodies, colliders, and the declarative arguments they are built
//! from.
//!
//! A body carries pose, velocities, queued momentum changes, a mobility
//! mode and a gameplay role tag.  A collider carries the shape and the
//! material properties and points back at its owning body.  Masses follow
//! the fixed-point mass model: density times the model area of the shape.

use vstd::prelude::*;

use crate::arena::Id;
use crate::num::{clip, tdiv, SCALE};
use crate::shape::{PrimShape, Shape};
use crate::vec2::{Rot, Vec2};

verus! {

/// Largest body coordinate, in fixed-point units.
pub const MAX_COORD: i64 = 1_000_000_000;

/// Largest linear or angular velocity magnitude.
pub const MAX_VEL: i64 = 1_000_000_000;

/// Largest queued impulse magnitude per axis.
pub const MAX_PENDING: i64 = 1_000_000_000_000;

/// Largest density accepted by the material arguments.
pub const MAX_DENSITY: i64 = 1_000_000;

/// Largest body mass the mass model produces.
pub const MAX_MASS: i64 = 1_000_000_000_000;

/// Whether the simulation moves a body.
#[derive(Clone, Copy, Debug, PartialEq, Eq, Structural)]
pub enum Mobility {
    Fixed,
    Dynamic,
}

/// Application-defined classification, used to decide gameplay effects.
#[derive(Clone, Copy, Debug, PartialEq, Eq, Structural)]
pub enum RoleTag {
    Neutral,
    Bullet,
    Wall,
}

/// A simulated rigid body.
#[derive(Clone, Copy, Debug, PartialEq, Eq, Structural)]
pub struct RigidBody {
    pub pos: Vec2,
    pub rot: Rot,
    pub linvel: Vec2,
    pub angvel: i64,
    pub mobility: Mobility,
    pub role: RoleTag,
    pub mass: i64,
    pub pending_impulse: Vec2,
    pub pending_torque: i64,
}

impl RigidBody {
    /// All stored quantities lie inside the world bounds.
    pub open spec fn wf(self) -> bool {
        &&& self.pos.in_range(MAX_COORD as int)
        &&& self.rot.wf()
        &&& self.linvel.in_range(MAX_VEL as int)
        &&& -MAX_VEL <= self.angvel <= MAX_VEL
        &&& 1 <= self.mass <= MAX_MASS
        &&& self.pending_impulse.in_range(MAX_PENDING as int)
        &&& -MAX_PENDING <= self.pending_torque <= MAX_PENDING
    }
}

/// A collider: a shape plus material properties, attached to one body.
#[derive(Clone, Debug)]
pub struct Collider {
    pub shape: Shape,
    pub density: i64,
    pub restitution: i64,
    pub friction: i64,
    pub sensor: bool,
    pub role: RoleTag,
    pub parent: Id,
}

impl Collider {
    pub open spec fn wf(self) -> bool {
        &&& self.shape.wf()
        &&& 1 <= self.density <= MAX_DENSITY
        &&& 0 <= self.restitution <= 10 * SCALE
        &&& 0 <= self.friction <= 10 * SCALE
    }
}

/// Declarative arguments for a body: mobility, initial pose and velocity,
/// and the gameplay role tag.
#[derive(Clone, Copy, Debug, PartialEq, Eq, Structural)]
pub struct BodyArgs {
    pub mobility: Mobility,
    pub pos: Vec2,
    pub vel: Vec2,
    pub role: RoleTag,
}

impl BodyArgs {
    pub open spec fn wf(self) -> bool {
        self.pos.in_range(MAX_COORD as int) && self.vel.in_range(MAX_VEL as int)
    }
}

impl Default for BodyArgs {
    /// A dynamic, untagged body at rest at the origin.
    fn default() -> (r: BodyArgs)
        ensures
            r == (BodyArgs {
                mobility: Mobility::Dynamic,
                pos: Vec2 { x: 0i64, y: 0i64 },
                vel: Vec2 { x: 0i64, y: 0i64 },
                role: RoleTag::Neutral,
            }),
            r.wf(),
    {
        BodyArgs {
            mobility: Mobility::Dynamic,
            pos: Vec2 { x: 0, y: 0 },
            vel: Vec2 { x: 0, y: 0 },
            role: RoleTag::Neutral,
        }
    }
}

/// Declarative material arguments for a collider.
#[derive(Clone, Copy, Debug, PartialEq, Eq, Structural)]
pub struct MaterialArgs {
    pub density: i64,
    pub restitution: i64,
    pub friction: i64,
    pub sensor: bool,
    pub role: RoleTag,
}

impl MaterialArgs {
    pub open spec fn wf(self) -> bool {
        1 <= self.density <= MAX_DENSITY && 0 <= self.restitution <= 10 * SCALE && 0
            <= self.friction <= 10 * SCALE
    }
}

impl Default for MaterialArgs {
    /// Density 1, restitution 0.7, friction 0.5, solid, untagged.
    fn default() -> (r: MaterialArgs)
        ensures
            r == (MaterialArgs {
                density: SCALE,
                restitution: 700i64,
                friction: 500i64,
                sensor: false,
                role: RoleTag::Neutral,
            }),
            r.wf(),
    {
        MaterialArgs {
            density: SCALE,
            restitution: 700,
            friction: 500,
            sensor: false,
            role: RoleTag::Neutral,
        }
    }
}

/// The mass the model assigns: density times the shape's model area,
/// rescaled, kept within `[1, MAX_MASS]`.
pub open spec fn mass_spec(density: i64, shape: Shape) -> int {
    let m = density * shape.area() / (SCALE as int);
    if m < 1 {
        1
    } else if m > MAX_MASS {
        MAX_MASS as int
    } else {
        m
    }
}

/// The model area of a well-formed primitive is bounded.
pub proof fn lemma_prim_area_bound(p: PrimShape)
    requires
        p.wf(),
    ensures
        0 <= p.area() <= 4_000_000_000,
{
    match p {
        PrimShape::Ball { radius } => {
            assert(0 <= crate::shape::PI_MILLI * (radius as int) * (radius as int)
                <= 3_142_000_000_000_000i64) by (nonlinear_arith)
                requires 1 <= radius <= 1_000_000;
            crate::num::lemma_tdiv_mag(
                crate::shape::PI_MILLI * (radius as int) * (radius as int),
                (SCALE as int) * (SCALE as int),
                3_142_000_000_000_000,
            );
            assert(3_142_000_000_000_000int / ((SCALE as int) * (SCALE as int))
                == 3_142_000_000int);
        },
        PrimShape::Cuboid { half_extents } => {
            assert(0 <= 4 * (half_extents.x as int) * (half_extents.y as int)
                <= 4_000_000_000_000i64) by (nonlinear_arith)
                requires 1 <= half_extents.x <= 1_000_000, 1 <= half_extents.y <= 1_000_000;
            crate::num::lemma_tdiv_mag(
                4 * (half_extents.x as int) * (half_extents.y as int),
                SCALE as int,
                4_000_000_000_000,
            );
        },
        PrimShape::Triangle { a, b, c } => {
            let u = b.sub_spec(a);
            let v = c.sub_spec(a);
            assert(u.in_range(2_000_000) && v.in_range(2_000_000));
            assert(-8_000_000_000_000i64 <= u.x * v.y - u.y * v.x <= 8_000_000_000_000i64)
                by (nonlinear_arith)
                requires
                    -2_000_000 <= u.x <= 2_000_000,
                    -2_000_000 <= u.y <= 2_000_000,
                    -2_000_000 <= v.x <= 2_000_000,
                    -2_000_000 <= v.y <= 2_000_000;
            let cr = u.cross(v);
            let mag = if cr >= 0 { cr } else { -cr };
            crate::num::lemma_tdiv_mag(mag, 2 * SCALE as int, 8_000_000_000_000);
            assert(8_000_000_000_000int / (2 * SCALE as int) == 4_000_000_000int);
        },
    }
}

/// The model area of a well-formed shape is non-negative, and bounded in
/// terms of the number of compound children.
pub proof fn lemma_children_area_bound(s: Seq<crate::shape::CompoundChild>)
    requires
        forall|i: int| 0 <= i < s.len() ==> (#[trigger] s[i]).shape.wf(),
    ensures
        0 <= Shape::children_area(s) <= 4_000_000_000 * s.len(),
    decreases s.len(),
{
    if s.len() == 0 {
    } else {
        lemma_children_area_bound(s.drop_last());
        lemma_prim_area_bound(s.last().shape);
    }
}

/// Compute the model mass of a shape with the given density.
pub fn mass_ex(density: i64, shape: &Shape) -> (r: i64)
    requires
        1 <= density <= MAX_DENSITY,
        shape.wf(),
    ensures
        r == mass_spec(density, *shape),
        1 <= r <= MAX_MASS,
{
    let area: i128 = match shape {
        Shape::Compound { children } => {
            let n = children.len();
            let mut acc: i128 = 0;
            let mut i: usize = 0;
            while i < n
                invariant
                    n == children@.len(),
                    i <= n,
                    shape.wf(),
                    *shape == (Shape::Compound { children: *children }),
                    acc == Shape::children_area(children@.subrange(0, i as int)),
                    0 <= acc <= 4_000_000_000i64 * (i as i128),
                decreases n - i,
            {
                let a = children[i].shape.area_ex();
                proof {
                    assert(children@.subrange(0, i as int + 1).drop_last() =~= children@.subrange(
                        0,
                        i as int,
                    ));
                    assert(children@.subrange(0, i as int + 1).last() == children@[i as int]);
                }
                acc = acc + a as i128;
                i += 1;
            }
            proof {
                assert(children@.subrange(0, n as int) =~= children@);
            }
            acc
        },
        _ => {
            let p = shape.as_prim();
            p.area_ex() as i128
        },
    };
    proof {
        assert(0 <= (density as int) * (area as int) <= 1_000_000int * 80_000_000_000_000_000_000_000_000_000)
            by (nonlinear_arith)
            requires 1 <= density <= 1_000_000, 0 <= area <= 80_000_000_000_000_000_000_000_000_000i128;
    }
    let num: i128 = (density as i128) * area;
    let m: i128 = num / (SCALE as i128);
    proof {
        assert((density as int) * (area as int) / (SCALE as int) >= 0) by (nonlinear_arith)
            requires (density as int) * (area as int) >= 0, SCALE as int == 1000;
    }
    if m < 1 {
        1
    } else if m > MAX_MASS as i128 {
        MAX_MASS
    } else {
        m as i64
    }
}

} // verus!
