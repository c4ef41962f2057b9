//! Player and dummy steering, fire-rate control, and the debug wall
//! spawner.
//!
//! Steering combines a drag impulse proportional to current velocity —
//! scaled so that top speed settles at the walking or sprinting limit —
//! with an acceleration impulse along the normalised movement
//! direction.  The caller supplies the movement
//! direction and the frame duration; input polling is a collaborator's
//! concern.

use vstd::prelude::*;

use crate::body::{BodyArgs, MaterialArgs, Mobility, RigidBody, RoleTag, MAX_PENDING};
use crate::handle::queue_impulse;
use crate::num::{clip, clip_i128, tdiv, tdiv_i128, MICROS, SCALE};
use crate::physics::{EntityHandle, PhysicsWorld};
use crate::registry::lemma_distinct_live_bodies;
use crate::shape::Shape;
use crate::vec2::Vec2;
use crate::SimError;

verus! {

/// Walking acceleration, fixed-point units per second squared.
pub const WALKING_ACCELERATION: i64 = 20_000;

/// Top walking speed, fixed-point units per second.
pub const WALKING_SPEED: i64 = 4_500;

/// Top sprinting speed, fixed-point units per second.
pub const SPRINTING_SPEED: i64 = 8_500;

/// Minimum time between shots, in microseconds.
pub const FIRE_COOLDOWN: u64 = 100_000;

/// The drag impulse of one steering update: minus the velocity, scaled by
/// the body's drive strength over its top speed and by the frame time.
pub open spec fn movement_drag_impulse(v: Vec2, ps: int, ms: int, dt: int) -> Vec2 {
    Vec2 {
        x: clip(-tdiv(v.x * ps * dt, ms * (MICROS as int)), MAX_PENDING as int) as i64,
        y: clip(-tdiv(v.y * ps * dt, ms * (MICROS as int)), MAX_PENDING as int) as i64,
    }
}

/// The acceleration impulse of one steering update: the normalised
/// movement direction, scaled by the drive strength and the frame time.
/// A zero direction contributes nothing.
pub open spec fn movement_accel_impulse(dir: Vec2, ps: int, dt: int) -> Vec2 {
    let n = dir.norm();
    if n == 0 {
        Vec2 { x: 0i64, y: 0i64 }
    } else {
        Vec2 {
            x: clip(tdiv(dir.x * ps * dt, n * (MICROS as int)), MAX_PENDING as int) as i64,
            y: clip(tdiv(dir.y * ps * dt, n * (MICROS as int)), MAX_PENDING as int) as i64,
        }
    }
}

/// One steering update for the body behind `h`: queue the drag impulse,
/// then the acceleration impulse along `move_dir`.
///
/// The drive strength is `WALKING_ACCELERATION` times the body's mass;
/// the top speed is the walking or sprinting limit.  Reports
/// `InvalidHandle`, changing nothing, exactly when the handle is dead.
pub fn movement_step(
    h: &EntityHandle,
    w: &mut PhysicsWorld,
    move_dir: Vec2,
    sprinting: bool,
    dt: u64,
) -> (r: Result<(), SimError>)
    requires
        old(w).wf(),
        move_dir.in_range(SCALE as int),
        dt <= 1_000_000,
    ensures
        final(w).wf(),
        !old(w).handle_live(*h) ==> r is Err && *final(w) == *old(w),
        old(w).handle_live(*h) ==> r is Ok && final(w).handle_live(*h) && final(w).body_of(*h)
            == queue_impulse(
            queue_impulse(
                old(w).body_of(*h),
                movement_drag_impulse(
                    old(w).body_of(*h).linvel,
                    20 * old(w).body_of(*h).mass as int,
                    if sprinting {
                        SPRINTING_SPEED as int
                    } else {
                        WALKING_SPEED as int
                    },
                    dt as int,
                ),
            ),
            movement_accel_impulse(move_dir, 20 * old(w).body_of(*h).mass as int, dt as int),
        ),
        final(w).colliders == old(w).colliders,
        final(w).gravity == old(w).gravity,
        final(w).dt == old(w).dt,
        forall|h2: EntityHandle| old(w).handle_live(h2) == #[trigger] final(w).handle_live(h2),
        forall|h2: EntityHandle|
            old(w).handle_live(h2) && h2 != h ==> #[trigger] final(w).body_of(h2) == old(
                w,
            ).body_of(h2),
{
    if !h.live_in(w) {
        return Err(SimError::InvalidHandle);
    }
    let b: RigidBody = match w.bodies.get(h.body) {
        Some(b) => *b,
        None => {
            return Err(SimError::InvalidHandle);
        },
    };
    proof {
        assert(b.wf()) by {
            assert(w.bodies.slots@[h.body.index as int].val is Some);
        }
    }
    let ps: i64 = 20 * b.mass;
    let ms: i64 = if sprinting {
        SPRINTING_SPEED
    } else {
        WALKING_SPEED
    };
    proof {
        assert(-20_000_000_000_000_000_000_000i128 <= b.linvel.x as i128 * ps as i128
            <= 20_000_000_000_000_000_000_000i128 && -20_000_000_000_000_000_000_000i128
            <= b.linvel.y as i128 * ps as i128 <= 20_000_000_000_000_000_000_000i128
            && -20_000_000_000_000_000_000_000_000_000i128 <= b.linvel.x as i128 * ps as i128 * dt
            as i128 <= 20_000_000_000_000_000_000_000_000_000i128
            && -20_000_000_000_000_000_000_000_000_000i128 <= b.linvel.y as i128 * ps as i128 * dt
            as i128 <= 20_000_000_000_000_000_000_000_000_000i128) by (nonlinear_arith)
            requires
                -1_000_000_000 <= b.linvel.x <= 1_000_000_000,
                -1_000_000_000 <= b.linvel.y <= 1_000_000_000,
                0 <= ps <= 20_000_000_000_000i128,
                0 <= dt <= 1_000_000;
    }
    let drag = Vec2 {
        x: clip_i128(
            -tdiv_i128(b.linvel.x as i128 * ps as i128 * dt as i128, ms as i128 * MICROS as i128),
            MAX_PENDING,
        ),
        y: clip_i128(
            -tdiv_i128(b.linvel.y as i128 * ps as i128 * dt as i128, ms as i128 * MICROS as i128),
            MAX_PENDING,
        ),
    };
    proof {
        assert(drag == movement_drag_impulse(b.linvel, ps as int, ms as int, dt as int)) by {
            assert(tdiv(-(b.linvel.x * ps * dt), ms * (MICROS as int)) == -tdiv(
                b.linvel.x * ps * dt,
                ms * (MICROS as int),
            ));
            assert(tdiv(-(b.linvel.y * ps * dt), ms * (MICROS as int)) == -tdiv(
                b.linvel.y * ps * dt,
                ms * (MICROS as int),
            ));
        }
    }
    let ghost w_pre = *w;
    let _ = h.add_linvel(drag, w);
    let n = move_dir.length();
    let accel: Vec2 = if n == 0 {
        Vec2 { x: 0, y: 0 }
    } else {
        proof {
            assert(-20_000_000_000_000_000i128 * 1_000_000_000 <= move_dir.x as i128 * ps as i128
                * dt as i128 <= 20_000_000_000_000_000i128 * 1_000_000_000
                && -20_000_000_000_000_000i128 * 1_000_000_000 <= move_dir.y as i128 * ps as i128
                * dt as i128 <= 20_000_000_000_000_000i128 * 1_000_000_000
                && -20_000_000_000_000_000i128 <= move_dir.x as i128 * ps as i128
                <= 20_000_000_000_000_000i128 && -20_000_000_000_000_000i128 <= move_dir.y as i128
                * ps as i128 <= 20_000_000_000_000_000i128) by (nonlinear_arith)
                requires
                    -1000 <= move_dir.x <= 1000,
                    -1000 <= move_dir.y <= 1000,
                    0 <= ps <= 20_000_000_000_000i128,
                    0 <= dt <= 1_000_000;
        }
        Vec2 {
            x: clip_i128(
                tdiv_i128(
                    move_dir.x as i128 * ps as i128 * dt as i128,
                    n as i128 * MICROS as i128,
                ),
                MAX_PENDING,
            ),
            y: clip_i128(
                tdiv_i128(
                    move_dir.y as i128 * ps as i128 * dt as i128,
                    n as i128 * MICROS as i128,
                ),
                MAX_PENDING,
            ),
        }
    };
    proof {
        assert(accel == movement_accel_impulse(move_dir, ps as int, dt as int));
    }
    let _ = h.add_linvel(accel, w);
    proof {
        assert forall|h2: EntityHandle|
            old(w).handle_live(h2) && h2 != h implies #[trigger] w.body_of(h2) == old(w).body_of(
            h2,
        ) by {
            lemma_distinct_live_bodies(w_pre, h2, *h);
        }
    }
    Ok(())
}

/// Fire-rate control: a shot is accepted only after the cooldown has
/// elapsed since the last one.
#[derive(Clone, Copy, Debug, PartialEq, Eq, Structural)]
pub struct FireControl {
    pub time_since_shot: u64,
}

impl FireControl {
    pub open spec fn wf(self) -> bool {
        self.time_since_shot <= 1_000_000_000
    }

    /// Start ready to fire.
    pub fn new() -> (r: FireControl)
        ensures
            r.wf(),
            r.time_since_shot == 1_000_000_000u64,
    {
        FireControl { time_since_shot: 1_000_000_000 }
    }

    /// One frame of fire control: fire when requested and off cooldown —
    /// resetting the clock — otherwise let the clock advance (saturating,
    /// so idling never overflows it).
    pub fn on_frame(&mut self, want_fire: bool, dt: u64) -> (fired: bool)
        requires
            old(self).wf(),
            dt <= 1_000_000,
        ensures
            final(self).wf(),
            fired == (want_fire && old(self).time_since_shot > FIRE_COOLDOWN),
            fired ==> final(self).time_since_shot == 0u64,
            !fired ==> final(self).time_since_shot == (if old(self).time_since_shot + dt
                > 1_000_000_000 {
                1_000_000_000u64
            } else {
                (old(self).time_since_shot + dt) as u64
            }),
    {
        if want_fire && self.time_since_shot > FIRE_COOLDOWN {
            self.time_since_shot = 0;
            true
        } else {
            let t = self.time_since_shot + dt;
            self.time_since_shot = if t > 1_000_000_000 {
                1_000_000_000
            } else {
                t
            };
            false
        }
    }
}

/// The half-extent a raw draw maps to: between one and six and a bit
/// world units.
pub open spec fn wall_size(x: u64) -> int {
    1000 + (x as int) % 5400
}

/// The coordinate a raw draw maps to: within the debug field.
pub open spec fn wall_pos(x: u64) -> int {
    (x as int) % 102_400
}

/// Spawn one fixed wall per draw: an axis-aligned box whose size and
/// position are mapped from the four raw numbers of the draw.  The
/// randomness itself is the caller's; this function is a pure function
/// of the numbers handed in.
pub fn spawn_debug_walls(
    w: &mut PhysicsWorld,
    debug_colliders: &mut Vec<EntityHandle>,
    draws: &Vec<(u64, u64, u64, u64)>,
) -> (count: usize)
    requires
        old(w).wf(),
    ensures
        final(w).wf(),
        count == draws@.len(),
        final(debug_colliders)@.len() == old(debug_colliders)@.len() + draws@.len(),
        forall|k: int|
            #![trigger final(debug_colliders)@[old(debug_colliders)@.len() + k]]
            0 <= k < draws@.len() ==> {
                let h = final(debug_colliders)@[old(debug_colliders)@.len() + k];
                &&& final(w).handle_live(h)
                &&& final(w).body_of(h).pos == (Vec2 {
                    x: wall_pos(draws@[k].2) as i64,
                    y: wall_pos(draws@[k].3) as i64,
                })
                &&& final(w).body_of(h).mobility == Mobility::Fixed
                &&& final(w).body_of(h).role == RoleTag::Wall
                &&& final(w).collider_of(h).shape == (Shape::Cuboid {
                    half_extents: Vec2 {
                        x: wall_size(draws@[k].0) as i64,
                        y: wall_size(draws@[k].1) as i64,
                    },
                })
            },
        forall|j: int|
            0 <= j < old(debug_colliders)@.len() ==> #[trigger] final(debug_colliders)@[j] == old(
                debug_colliders,
            )@[j],
        forall|h: EntityHandle|
            #[trigger] old(w).handle_live(h) ==> final(w).handle_live(h) && final(w).body_of(h)
                == old(w).body_of(h) && final(w).collider_of(h) == old(w).collider_of(h),
{
    let n = draws.len();
    let ghost base = debug_colliders@.len();
    let mut i: usize = 0;
    while i < n
        invariant
            n == draws@.len(),
            i <= n,
            w.wf(),
            base == old(debug_colliders)@.len(),
            debug_colliders@.len() == base + i,
            forall|k: int|
                #![trigger debug_colliders@[base + k]]
                0 <= k < i ==> {
                    let h = debug_colliders@[base + k];
                    &&& w.handle_live(h)
                    &&& w.body_of(h).pos == (Vec2 {
                        x: wall_pos(draws@[k].2) as i64,
                        y: wall_pos(draws@[k].3) as i64,
                    })
                    &&& w.body_of(h).mobility == Mobility::Fixed
                    &&& w.body_of(h).role == RoleTag::Wall
                    &&& w.collider_of(h).shape == (Shape::Cuboid {
                        half_extents: Vec2 {
                            x: wall_size(draws@[k].0) as i64,
                            y: wall_size(draws@[k].1) as i64,
                        },
                    })
                },
            forall|j: int|
                0 <= j < base ==> #[trigger] debug_colliders@[j] == old(debug_colliders)@[j],
            forall|h: EntityHandle|
                #[trigger] old(w).handle_live(h) ==> w.handle_live(h) && w.body_of(h) == old(
                    w,
                ).body_of(h) && w.collider_of(h) == old(w).collider_of(h),
        decreases n - i,
    {
        let d = draws[i];
        let sx: i64 = 1000 + (d.0 % 5400) as i64;
        let sy: i64 = 1000 + (d.1 % 5400) as i64;
        let px: i64 = (d.2 % 102_400) as i64;
        let py: i64 = (d.3 % 102_400) as i64;
        let args = BodyArgs {
            mobility: Mobility::Fixed,
            pos: Vec2 { x: px, y: py },
            vel: Vec2 { x: 0, y: 0 },
            role: RoleTag::Wall,
        };
        let mat = MaterialArgs {
            density: 1000,
            restitution: 500,
            friction: 500,
            sensor: false,
            role: RoleTag::Wall,
        };
        let shape = Shape::Cuboid { half_extents: Vec2 { x: sx, y: sy } };
        let ghost w_pre = *w;
        let h = w.insert(args, mat, shape);
        debug_colliders.push(h);
        proof {
            assert forall|h2: EntityHandle|
                #[trigger] old(w).handle_live(h2) implies w.handle_live(h2) && w.body_of(h2)
                == old(w).body_of(h2) && w.collider_of(h2) == old(w).collider_of(h2) by {
                assert(w_pre.handle_live(h2));
                assert(w.handle_live(h2) && w.body_of(h2) == w_pre.body_of(h2) && w.collider_of(
                    h2,
                ) == w_pre.collider_of(h2));
            }
            assert forall|k: int|
                #![trigger debug_colliders@[base + k]]
                0 <= k < i + 1 implies {
                let hk = debug_colliders@[base + k];
                &&& w.handle_live(hk)
                &&& w.body_of(hk).pos == (Vec2 {
                    x: wall_pos(draws@[k].2) as i64,
                    y: wall_pos(draws@[k].3) as i64,
                })
                &&& w.body_of(hk).mobility == Mobility::Fixed
                &&& w.body_of(hk).role == RoleTag::Wall
                &&& w.collider_of(hk).shape == (Shape::Cuboid {
                    half_extents: Vec2 {
                        x: wall_size(draws@[k].0) as i64,
                        y: wall_size(draws@[k].1) as i64,
                    },
                })
            } by {
                if k < i {
                    let hk = debug_colliders@[base + k];
                    assert(w_pre.handle_live(hk));
                    assert(w.handle_live(hk) && w.body_of(hk) == w_pre.body_of(hk)
                        && w.collider_of(hk) == w_pre.collider_of(hk));
                } else {
                    assert(debug_colliders@[base + k] == h);
                }
            }
        }
        i += 1;
    }
    proof {
        assert forall|h2: EntityHandle|
            #[trigger] old(w).handle_live(h2) implies w.handle_live(h2) && w.body_of(h2) == old(
            w,
        ).body_of(h2) && w.collider_of(h2) == old(w).collider_of(h2) by {}
    }
    n
}

} // verus!
