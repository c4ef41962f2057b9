//! Transient gameplay entities and their creation policies.
//!
//! The registry owns the collections of bullets, dummies and corpses that
//! are layered on top of the physics arena.  Bullets decelerate under
//! drag and are pruned once they come to rest; a dummy whose health runs
//! out is converted — exactly once — into a corpse, and its physics body
//! is deleted.

use vstd::prelude::*;

use crate::body::{BodyArgs, MaterialArgs, Mobility, RigidBody, RoleTag, MAX_COORD, MAX_VEL};
use crate::handle::queue_impulse;
use crate::lights::{ColorRgba, Light, LightHandle, LightRegistry};
use crate::num::{tdiv, tdiv_i128, MICROS, SCALE};
use crate::physics::{body_from_args, collider_from_args, EntityHandle, PhysicsWorld};
use crate::shape::Shape;
use crate::vec2::Vec2;
use crate::SimError;

verus! {

/// Fixed-point health of a freshly spawned dummy (one hundred points).
pub const START_HEALTH: i64 = 100_000;

/// Magnitude bound for stored health values.
pub const MAX_HEALTH: i64 = 1_000_000_000_000;

/// Bullet ball radius (one tenth of a unit).
pub const BULLET_RADIUS: i64 = 100;

/// Bullet material density (one and a half units).
pub const BULLET_DENSITY: i64 = 1500;

/// Dummy ball radius (one unit).
pub const DUMMY_RADIUS: i64 = 1000;

/// Time each corpse animation frame is held, in microseconds.
pub const ANIMATION_FRAME_TIME: u64 = 100_000;

/// A health-bearing entity: the player, or an AI-driven dummy.
#[derive(Clone, Copy, Debug, PartialEq, Eq, Structural)]
pub struct Dummy {
    pub collider: EntityHandle,
    pub health: i64,
    /// Deflection threshold: bullets at or below this speed bounce off
    /// without damage.
    pub deflection: i64,
    /// Facing angle in fixed-point degrees, for rendering and corpses.
    pub angle: i64,
    pub light: Option<LightHandle>,
}

impl Dummy {
    pub open spec fn wf(self) -> bool {
        &&& -MAX_HEALTH <= self.health <= MAX_HEALTH
        &&& 0 <= self.deflection <= MAX_VEL
    }
}

/// What remains of a dummy: a position and facing, no physics body.
#[derive(Clone, Copy, Debug, PartialEq, Eq, Structural)]
pub struct Corpse {
    pub pos: Vec2,
    pub animation_stage: i32,
    pub time_elapsed: u64,
    pub angle: i64,
}

impl Corpse {
    pub open spec fn wf(self) -> bool {
        &&& 1 <= self.animation_stage <= 4
        &&& self.time_elapsed <= 2_000_000
    }

    /// Advance the decay animation by one frame of `dt` microseconds:
    /// stages run 1 through 4, each held for `ANIMATION_FRAME_TIME`.
    pub fn update_animation(&mut self, dt: u64)
        requires
            old(self).wf(),
            dt <= 1_000_000,
        ensures
            final(self).wf(),
            *final(self) == (if 1 <= old(self).animation_stage < 4 {
                if old(self).time_elapsed > ANIMATION_FRAME_TIME {
                    Corpse {
                        animation_stage: (old(self).animation_stage + 1) as i32,
                        time_elapsed: 0u64,
                        ..*old(self)
                    }
                } else {
                    Corpse { time_elapsed: (old(self).time_elapsed + dt) as u64, ..*old(self) }
                }
            } else {
                *old(self)
            }),
    {
        if 1 <= self.animation_stage && self.animation_stage < 4 {
            if self.time_elapsed > ANIMATION_FRAME_TIME {
                self.animation_stage = self.animation_stage + 1;
                self.time_elapsed = 0;
            } else {
                self.time_elapsed = self.time_elapsed + dt;
            }
        }
    }
}

/// The collections of transient entities.
pub struct EntityRegistry {
    pub bullets: Vec<EntityHandle>,
    pub dummies: Vec<Dummy>,
    pub corpses: Vec<Corpse>,
    /// Velocity-proportional bullet drag coefficient, fixed-point per
    /// second.
    pub drag_coef: i64,
    /// A bullet slower than this is pruned, fixed-point units per second.
    pub stop_threshold: i64,
}

/// Every handle in the list refers into the given world: it is live, or
/// it was and its slots have since been vacated or reissued.
pub open spec fn handles_tracked(w: PhysicsWorld, s: Seq<EntityHandle>) -> bool {
    forall|i: int| 0 <= i < s.len() ==> w.handle_live(#[trigger] s[i]) || w.handle_stale(s[i])
}

/// No handle appears twice.
pub open spec fn distinct_handles(s: Seq<EntityHandle>) -> bool {
    forall|i: int, j: int|
        0 <= i < s.len() && 0 <= j < s.len() && i != j ==> #[trigger] s[i] != #[trigger] s[j]
}

impl EntityRegistry {
    pub open spec fn wf(self) -> bool {
        &&& 0 <= self.drag_coef <= 1_000_000
        &&& 0 <= self.stop_threshold <= MAX_VEL
        &&& forall|i: int| 0 <= i < self.dummies@.len() ==> (#[trigger] self.dummies@[i]).wf()
        &&& forall|i: int| 0 <= i < self.corpses@.len() ==> (#[trigger] self.corpses@[i]).wf()
    }

    /// An empty registry with a drag of two units per second per unit of
    /// speed and a stop threshold of four units per second.
    pub fn new() -> (r: EntityRegistry)
        ensures
            r.wf(),
            r.bullets@.len() == 0,
            r.dummies@.len() == 0,
            r.corpses@.len() == 0,
            r.drag_coef == 2000i64,
            r.stop_threshold == 4000i64,
    {
        EntityRegistry {
            bullets: Vec::new(),
            dummies: Vec::new(),
            corpses: Vec::new(),
            drag_coef: 2000,
            stop_threshold: 4000,
        }
    }
}

/// Spawn a bullet: a small dense dynamic ball tagged `Bullet`, added to
/// the active bullet collection.
pub fn spawn_bullet(
    w: &mut PhysicsWorld,
    registry: &mut EntityRegistry,
    pos: Vec2,
    vel: Vec2,
) -> (r: EntityHandle)
    requires
        old(w).wf(),
        old(registry).wf(),
        handles_tracked(*old(w), old(registry).bullets@),
        distinct_handles(old(registry).bullets@),
        pos.in_range(MAX_COORD as int),
        vel.in_range(MAX_VEL as int),
    ensures
        final(w).wf(),
        final(registry).wf(),
        handles_tracked(*final(w), final(registry).bullets@),
        distinct_handles(final(registry).bullets@),
        final(w).handle_live(r),
        final(w).body_of(r) == body_from_args(
            BodyArgs { mobility: Mobility::Dynamic, pos, vel, role: RoleTag::Bullet },
            crate::body::mass_spec(BULLET_DENSITY, Shape::Ball { radius: BULLET_RADIUS }),
        ),
        final(w).collider_of(r) == collider_from_args(
            MaterialArgs {
                density: BULLET_DENSITY,
                restitution: 100i64,
                friction: 700i64,
                sensor: false,
                role: RoleTag::Bullet,
            },
            Shape::Ball { radius: BULLET_RADIUS },
            r.body,
        ),
        final(registry).bullets@ == old(registry).bullets@.push(r),
        final(registry).dummies == old(registry).dummies,
        final(registry).corpses == old(registry).corpses,
        forall|h: EntityHandle|
            old(w).handle_live(h) ==> #[trigger] final(w).handle_live(h) && h != r
                && final(w).body_of(h) == old(w).body_of(h)
                && final(w).collider_of(h) == old(w).collider_of(h),
        forall|h: EntityHandle|
            old(w).handle_stale(h) ==> #[trigger] final(w).handle_stale(h) && h != r,
{
    let args = BodyArgs { mobility: Mobility::Dynamic, pos, vel, role: RoleTag::Bullet };
    let mat = MaterialArgs {
        density: BULLET_DENSITY,
        restitution: 100,
        friction: 700,
        sensor: false,
        role: RoleTag::Bullet,
    };
    let h = w.insert(args, mat, Shape::Ball { radius: BULLET_RADIUS });
    let ghost bullets0 = registry.bullets@;
    registry.bullets.push(h);
    proof {
        assert forall|h2: EntityHandle|
            old(w).handle_stale(h2) implies #[trigger] w.handle_stale(h2) && h2 != h by {
            assert(w.handle_stale(h2));
        }
        assert forall|i: int, j: int|
            0 <= i < registry.bullets@.len() && 0 <= j < registry.bullets@.len() && i != j
                implies #[trigger] registry.bullets@[i] != #[trigger] registry.bullets@[j] by {
            if i < bullets0.len() && j == bullets0.len() {
                let e = bullets0[i];
                assert(old(w).handle_live(e) || old(w).handle_stale(e));
                if old(w).handle_live(e) {
                    assert(w.handle_live(e));
                    assert(e != h);
                } else {
                    assert(old(w).handle_stale(e));
                    assert(w.handle_stale(e));
                    assert(e != h);
                }
            }
            if j < bullets0.len() && i == bullets0.len() {
                let e = bullets0[j];
                assert(old(w).handle_live(e) || old(w).handle_stale(e));
                if old(w).handle_live(e) {
                    assert(w.handle_live(e));
                    assert(e != h);
                } else {
                    assert(old(w).handle_stale(e));
                    assert(w.handle_stale(e));
                    assert(e != h);
                }
            }
        }
    }
    h
}

/// Spawn a dummy: a dynamic unit ball with full health, a deflection
/// threshold, and a personal radial light.
///
/// Fails with `CapacityExceeded` — leaving world and registry untouched —
/// exactly when the light registry refuses the registration.
pub fn spawn_dummy(
    w: &mut PhysicsWorld,
    registry: &mut EntityRegistry,
    lights: &mut LightRegistry,
    pos: Vec2,
    deflection: i64,
) -> (r: Result<EntityHandle, SimError>)
    requires
        old(w).wf(),
        old(registry).wf(),
        old(lights).wf(),
        pos.in_range(MAX_COORD as int),
        0 <= deflection <= MAX_VEL,
    ensures
        final(w).wf(),
        final(registry).wf(),
        final(lights).wf(),
        old(lights).next_id >= crate::lights::MAX_LIGHTS ==> r == Err::<EntityHandle, SimError>(
            SimError::CapacityExceeded,
        ) && *final(w) == *old(w) && *final(registry) == *old(registry) && *final(lights) == *old(lights),
        old(lights).next_id < crate::lights::MAX_LIGHTS ==> match r {
            Ok(h) => {
                &&& final(w).handle_live(h)
                &&& final(w).body_of(h) == body_from_args(
                    BodyArgs {
                        mobility: Mobility::Dynamic,
                        pos,
                        vel: Vec2 { x: 0i64, y: 0i64 },
                        role: RoleTag::Neutral,
                    },
                    crate::body::mass_spec(SCALE, Shape::Ball { radius: DUMMY_RADIUS }),
                )
                &&& final(registry).dummies@ == old(registry).dummies@.push(
                    Dummy {
                        collider: h,
                        health: START_HEALTH,
                        deflection,
                        angle: 0i64,
                        light: Some(LightHandle(old(lights).next_id)),
                    },
                )
                &&& final(w).collider_of(h) == collider_from_args(
                    MaterialArgs {
                        density: SCALE,
                        restitution: 700i64,
                        friction: 500i64,
                        sensor: false,
                        role: RoleTag::Neutral,
                    },
                    Shape::Ball { radius: DUMMY_RADIUS },
                    h.body,
                )
                &&& final(registry).bullets == old(registry).bullets
                &&& final(registry).corpses == old(registry).corpses
                &&& final(lights).next_id == old(lights).next_id + 1
                &&& final(lights).lights@ == old(lights).lights@.insert(
                    old(lights).next_id,
                    Light::Radial {
                        pos,
                        color: ColorRgba { r: SCALE, g: SCALE, b: SCALE, a: 0i64 },
                        radius: (15 * SCALE) as i64,
                    },
                )
                &&& forall|h2: EntityHandle|
                    old(w).handle_live(h2) ==> #[trigger] final(w).handle_live(h2) && h2 != h
                        && final(w).body_of(h2) == old(w).body_of(h2) && final(w).collider_of(h2)
                        == old(w).collider_of(h2)
            },
            Err(_) => false,
        },
{
    let light = lights.spawn_light(
        Light::Radial {
            pos,
            color: ColorRgba { r: SCALE, g: SCALE, b: SCALE, a: 0 },
            radius: 15 * SCALE,
        },
    );
    let lh = match light {
        Ok(lh) => lh,
        Err(_) => {
            return Err(SimError::CapacityExceeded);
        },
    };
    let args = BodyArgs {
        mobility: Mobility::Dynamic,
        pos,
        vel: Vec2 { x: 0, y: 0 },
        role: RoleTag::Neutral,
    };
    let h = w.insert(args, MaterialArgs::default(), Shape::Ball { radius: DUMMY_RADIUS });
    registry.dummies.push(
        Dummy {
            collider: h,
            health: START_HEALTH,
            deflection,
            angle: 0,
            light: Some(lh),
        },
    );
    Ok(h)
}

/// The velocity-proportional drag impulse for one tick: minus the
/// velocity, scaled by the coefficient and the timestep.
pub open spec fn drag_impulse(v: Vec2, coef: i64, dt: int) -> Vec2 {
    Vec2 {
        x: (-tdiv(v.x * coef * dt, (SCALE as int) * (MICROS as int))) as i64,
        y: (-tdiv(v.y * coef * dt, (SCALE as int) * (MICROS as int))) as i64,
    }
}

/// Two distinct live handles own distinct bodies and distinct colliders.
pub proof fn lemma_distinct_live_bodies(w: PhysicsWorld, h1: EntityHandle, h2: EntityHandle)
    requires
        w.wf(),
        w.handle_live(h1),
        w.handle_live(h2),
        h1 != h2,
    ensures
        h1.body != h2.body,
        h1.shape != h2.shape,
{
    if h1.shape == h2.shape {
        assert(w.colliders.get_spec(h1.shape).parent == h1.body);
        assert(w.colliders.get_spec(h2.shape).parent == h2.body);
        assert(h1.body == h2.body);
        assert(h1 == h2);
    }
    if h1.body == h2.body {
        let i = h1.shape.index as int;
        let j = h2.shape.index as int;
        if i != j {
            assert(w.colliders.slots@[i].val->Some_0.parent
                != w.colliders.slots@[j].val->Some_0.parent);
            assert(false);
        } else {
            assert(h1.shape.gen == w.colliders.slots@[i].gen);
            assert(h2.shape.gen == w.colliders.slots@[j].gen);
            assert(h1.shape == h2.shape);
            assert(false);
        }
    }
}

/// What one drag pass does: each live tracked bullet's body gains
/// exactly the drag impulse for its own current velocity, every other
/// body is untouched, and liveness is unchanged.
pub open spec fn drag_rel(
    w0: PhysicsWorld,
    bullets: Seq<EntityHandle>,
    coef: i64,
    dt: int,
    w1: PhysicsWorld,
) -> bool {
    &&& w1.colliders == w0.colliders
    &&& w1.gravity == w0.gravity
    &&& w1.dt == w0.dt
    &&& forall|h: EntityHandle| w0.handle_live(h) == #[trigger] w1.handle_live(h)
    &&& forall|h: EntityHandle| w0.handle_stale(h) == #[trigger] w1.handle_stale(h)
    &&& forall|k: int|
        0 <= k < bullets.len() && w0.handle_live(#[trigger] bullets[k]) ==> w1.body_of(bullets[k])
            == queue_impulse(
            w0.body_of(bullets[k]),
            drag_impulse(w0.body_of(bullets[k]).linvel, coef, dt),
        )
    &&& forall|h: EntityHandle|
        #[trigger] w0.handle_live(h) && (forall|k: int|
            0 <= k < bullets.len() ==> h != #[trigger] bullets[k]) ==> w1.body_of(h) == w0.body_of(
            h,
        )
}

/// Queue the per-tick drag impulse on every live tracked bullet.
///
/// Each live bullet's body gains exactly the drag impulse for its own
/// current velocity; dead handles are skipped, and every body that no
/// bullet owns is untouched.
pub fn apply_bullet_drag(w: &mut PhysicsWorld, bullets: &Vec<EntityHandle>, coef: i64, dt: u64)
    requires
        old(w).wf(),
        distinct_handles(bullets@),
        0 <= coef <= 1_000_000,
        dt <= 1_000_000,
    ensures
        final(w).wf(),
        drag_rel(*old(w), bullets@, coef, dt as int, *final(w)),
{
    let n = bullets.len();
    let mut i: usize = 0;
    while i < n
        invariant
            n == bullets@.len(),
            i <= n,
            old(w).wf(),
            w.wf(),
            distinct_handles(bullets@),
            0 <= coef <= 1_000_000,
            dt <= 1_000_000,
            w.colliders == old(w).colliders,
            w.gravity == old(w).gravity,
            w.dt == old(w).dt,
            forall|h: EntityHandle| old(w).handle_live(h) == #[trigger] w.handle_live(h),
            forall|h: EntityHandle| old(w).handle_stale(h) == #[trigger] w.handle_stale(h),
            forall|k: int|
                0 <= k < i && old(w).handle_live(#[trigger] bullets@[k]) ==> w.body_of(bullets@[k])
                    == queue_impulse(
                    old(w).body_of(bullets@[k]),
                    drag_impulse(old(w).body_of(bullets@[k]).linvel, coef, dt as int),
                ),
            forall|h: EntityHandle|
                #[trigger] old(w).handle_live(h) && (forall|k: int|
                    0 <= k < i ==> h != #[trigger] bullets@[k]) ==> w.body_of(h) == old(w).body_of(
                    h,
                ),
        decreases n - i,
    {
        let h = bullets[i];
        if h.live_in(w) {
            let b: RigidBody = match w.bodies.get(h.body) {
                Some(b) => *b,
                None => {
                    proof {
                        assert(false);
                    }
                    vstd::pervasive::unreached()
                },
            };
            proof {
                assert(b == w.body_of(h));
                assert(b == old(w).body_of(h));
                assert(b.wf()) by {
                    assert(w.bodies.slots@[h.body.index as int].val is Some);
                }
                assert(-1_000_000_000_000_000i128 <= b.linvel.x as i128 * coef as i128
                    <= 1_000_000_000_000_000i128 && -1_000_000_000_000_000i128 <= b.linvel.y as i128
                    * coef as i128 <= 1_000_000_000_000_000i128
                    && -1_000_000_000_000_000_000_000i128 <= b.linvel.x as i128 * coef as i128 * dt
                    as i128 <= 1_000_000_000_000_000_000_000i128
                    && -1_000_000_000_000_000_000_000i128 <= b.linvel.y as i128 * coef as i128 * dt
                    as i128 <= 1_000_000_000_000_000_000_000i128) by (nonlinear_arith)
                    requires
                        -1_000_000_000 <= b.linvel.x <= 1_000_000_000,
                        -1_000_000_000 <= b.linvel.y <= 1_000_000_000,
                        0 <= coef <= 1_000_000,
                        0 <= dt <= 1_000_000;
                crate::num::lemma_tdiv_mag(
                    b.linvel.x as int * coef as int * dt as int,
                    (SCALE as int) * (MICROS as int),
                    1_000_000_000_000_000_000_000,
                );
                crate::num::lemma_tdiv_mag(
                    b.linvel.y as int * coef as int * dt as int,
                    (SCALE as int) * (MICROS as int),
                    1_000_000_000_000_000_000_000,
                );
                assert(1_000_000_000_000_000_000_000int / ((SCALE as int) * (MICROS as int))
                    == 1_000_000_000_000int);
            }
            let imp = Vec2 {
                x: -(tdiv_i128(
                    b.linvel.x as i128 * coef as i128 * dt as i128,
                    SCALE as i128 * MICROS as i128,
                ) as i64),
                y: -(tdiv_i128(
                    b.linvel.y as i128 * coef as i128 * dt as i128,
                    SCALE as i128 * MICROS as i128,
                ) as i64),
            };
            proof {
                assert(imp == drag_impulse(b.linvel, coef, dt as int));
            }
            let ghost w_pre = *w;
            let _ = h.add_linvel(imp, w);
            proof {
                assert forall|k: int|
                    0 <= k < i && old(w).handle_live(#[trigger] bullets@[k]) implies w.body_of(
                    bullets@[k],
                ) == queue_impulse(
                    old(w).body_of(bullets@[k]),
                    drag_impulse(old(w).body_of(bullets@[k]).linvel, coef, dt as int),
                ) by {
                    let hk = bullets@[k];
                    assert(w_pre.handle_live(hk));
                    lemma_distinct_live_bodies(w_pre, hk, h);
                    assert(w.body_of(hk) == w_pre.body_of(hk));
                }
                assert forall|h2: EntityHandle|
                    #[trigger] old(w).handle_live(h2) && (forall|k: int|
                        0 <= k < i + 1 ==> h2 != #[trigger] bullets@[k]) implies w.body_of(h2)
                    == old(w).body_of(h2) by {
                    assert(h2 != bullets@[i as int]);
                    assert(w_pre.handle_live(h2));
                    lemma_distinct_live_bodies(w_pre, h2, h);
                    assert(w.body_of(h2) == w_pre.body_of(h2));
                }
            }
        }
        i += 1;
    }
}

/// A tracked bullet is kept when it is still live and moving at or above
/// the stop threshold.
pub open spec fn kept_bullet(w: PhysicsWorld, h: EntityHandle, stop: i64) -> bool {
    w.handle_live(h) && w.body_of(h).linvel.norm() >= stop
}

/// The bullets that survive a prune pass, in order.
pub open spec fn kept_bullets(w: PhysicsWorld, s: Seq<EntityHandle>, stop: i64) -> Seq<
    EntityHandle,
>
    decreases s.len(),
{
    if s.len() == 0 {
        Seq::empty()
    } else {
        let rest = kept_bullets(w, s.drop_last(), stop);
        if kept_bullet(w, s.last(), stop) {
            rest.push(s.last())
        } else {
            rest
        }
    }
}

/// What one prune pass does: exactly the live tracked bullets moving at
/// or above the stop threshold survive, in order; slower ones are
/// deleted from the world, and every other entity is untouched.
pub open spec fn prune_rel(
    w0: PhysicsWorld,
    bullets0: Seq<EntityHandle>,
    stop: i64,
    w1: PhysicsWorld,
    bullets1: Seq<EntityHandle>,
) -> bool {
    &&& bullets1 == kept_bullets(w0, bullets0, stop)
    &&& w1.gravity == w0.gravity
    &&& w1.dt == w0.dt
    &&& forall|k: int|
        0 <= k < bullets0.len() && w0.handle_live(#[trigger] bullets0[k]) && w0.body_of(
            bullets0[k],
        ).linvel.norm() < stop ==> !w1.handle_live(bullets0[k]) && w1.handle_stale(bullets0[k])
    &&& forall|h: EntityHandle|
        #[trigger] w0.handle_live(h) && (forall|k: int|
            0 <= k < bullets0.len() ==> h != #[trigger] bullets0[k] || kept_bullet(w0, h, stop))
            ==> w1.handle_live(h) && w1.body_of(h) == w0.body_of(h) && w1.collider_of(h)
            == w0.collider_of(h)
    &&& forall|h: EntityHandle| w0.handle_stale(h) ==> #[trigger] w1.handle_stale(h)
    &&& forall|h: EntityHandle| w1.handle_live(h) ==> w0.handle_live(h)
    &&& forall|h: EntityHandle|
        #[trigger] w0.handle_live(h) ==> w1.handle_live(h) || w1.handle_stale(h)
}

/// Prune bullets that have come to rest: each live tracked bullet slower
/// than the stop threshold is deleted from the world and leaves the
/// active collection; dead handles leave the collection as already
/// resolved.  Every other entity is untouched.
pub fn prune_stopped_bullets(w: &mut PhysicsWorld, bullets: &mut Vec<EntityHandle>, stop: i64)
    requires
        old(w).wf(),
        handles_tracked(*old(w), old(bullets)@),
        distinct_handles(old(bullets)@),
        0 <= stop <= MAX_VEL,
    ensures
        final(w).wf(),
        handles_tracked(*final(w), final(bullets)@),
        distinct_handles(final(bullets)@),
        prune_rel(*old(w), old(bullets)@, stop, *final(w), final(bullets)@),
{
    let n = bullets.len();
    let mut kept: Vec<EntityHandle> = Vec::new();
    let mut i: usize = 0;
    proof {
        assert(kept@ =~= kept_bullets(*old(w), old(bullets)@.subrange(0, 0), stop));
    }
    while i < n
        invariant
            n == old(bullets)@.len(),
            i <= n,
            *bullets == *old(bullets),
            old(w).wf(),
            w.wf(),
            handles_tracked(*old(w), old(bullets)@),
            distinct_handles(old(bullets)@),
            0 <= stop <= MAX_VEL,
            w.gravity == old(w).gravity,
            w.dt == old(w).dt,
            kept@ == kept_bullets(*old(w), old(bullets)@.subrange(0, i as int), stop),
            forall|k: int|
                0 <= k < i && old(w).handle_live(#[trigger] old(bullets)@[k]) && old(w).body_of(
                    old(bullets)@[k],
                ).linvel.norm() < stop ==> !w.handle_live(old(bullets)@[k]) && w.handle_stale(
                    old(bullets)@[k],
                ),
            forall|h: EntityHandle|
                #[trigger] old(w).handle_live(h) && (forall|k: int|
                    0 <= k < i ==> h != #[trigger] old(bullets)@[k] || kept_bullet(
                        *old(w),
                        h,
                        stop,
                    )) ==> w.handle_live(h) && w.body_of(h) == old(w).body_of(h) && w.collider_of(h)
                    == old(w).collider_of(h),
            forall|h: EntityHandle| old(w).handle_stale(h) ==> #[trigger] w.handle_stale(h),
            forall|h: EntityHandle| w.handle_live(h) ==> old(w).handle_live(h),
            forall|h: EntityHandle|
                #[trigger] old(w).handle_live(h) ==> w.handle_live(h) || w.handle_stale(h),
        decreases n - i,
    {
        let h = bullets[i];
        proof {
            assert(old(bullets)@.subrange(0, i as int + 1).drop_last() =~= old(bullets)@.subrange(
                0,
                i as int,
            ));
            assert(old(bullets)@.subrange(0, i as int + 1).last() == old(bullets)@[i as int]);
        }
        if h.live_in(w) {
            proof {
                assert(old(w).handle_live(h));
                assert(w.body_of(h) == old(w).body_of(h)) by {
                    assert forall|k: int| 0 <= k < i implies h != old(bullets)@[k] || kept_bullet(
                        *old(w),
                        h,
                        stop,
                    ) by {
                        if h == old(bullets)@[k] {
                            assert(false);
                        }
                    }
                }
            }
            let b: RigidBody = match w.bodies.get(h.body) {
                Some(b) => *b,
                None => {
                    proof {
                        assert(false);
                    }
                    vstd::pervasive::unreached()
                },
            };
            proof {
                assert(b.wf()) by {
                    assert(w.bodies.slots@[h.body.index as int].val is Some);
                }
            }
            let speed = b.linvel.length();
            if speed < stop {
                let ghost w_pre = *w;
                w.remove(h);
                proof {
                    assert(!kept_bullet(*old(w), h, stop));
                    assert forall|h2: EntityHandle|
                        #[trigger] old(w).handle_live(h2) && (forall|k: int|
                            0 <= k < i + 1 ==> h2 != #[trigger] old(bullets)@[k] || kept_bullet(
                                *old(w),
                                h2,
                                stop,
                            )) implies w.handle_live(h2) && w.body_of(h2) == old(w).body_of(h2)
                        && w.collider_of(h2) == old(w).collider_of(h2) by {
                        assert(h2 != h || kept_bullet(*old(w), h2, stop));
                        assert(h2 != h);
                        assert(w_pre.handle_live(h2));
                    }
                }
            } else {
                kept.push(h);
                proof {
                    assert(kept_bullet(*old(w), h, stop));
                }
            }
        } else {
            proof {
                assert(!old(w).handle_live(h)) by {
                    if old(w).handle_live(h) {
                        assert forall|k: int| 0 <= k < i implies h != old(bullets)@[k]
                            || kept_bullet(*old(w), h, stop) by {
                            if h == old(bullets)@[k] {
                                assert(false);
                            }
                        }
                    }
                }
                assert(!kept_bullet(*old(w), h, stop));
            }
        }
        i += 1;
    }
    proof {
        assert(old(bullets)@.subrange(0, n as int) =~= old(bullets)@);
        assert forall|i2: int, j2: int|
            0 <= i2 < kept@.len() && 0 <= j2 < kept@.len() && i2 != j2 implies #[trigger] kept@[i2]
            != #[trigger] kept@[j2] by {
            lemma_kept_distinct(*old(w), old(bullets)@, stop);
        }
        lemma_kept_tracked(*old(w), *w, old(bullets)@, stop);
    }
    *bullets = kept;
}

/// Every kept bullet appears among the originals.
proof fn lemma_kept_subset(w: PhysicsWorld, s: Seq<EntityHandle>, stop: i64)
    ensures
        forall|k: int|
            0 <= k < kept_bullets(w, s, stop).len() ==> exists|j: int|
                0 <= j < s.len() && s[j] == #[trigger] kept_bullets(w, s, stop)[k],
    decreases s.len(),
{
    if s.len() > 0 {
        lemma_kept_subset(w, s.drop_last(), stop);
        assert forall|k: int|
            0 <= k < kept_bullets(w, s, stop).len() implies exists|j: int|
            0 <= j < s.len() && s[j] == #[trigger] kept_bullets(w, s, stop)[k] by {
            let rest = kept_bullets(w, s.drop_last(), stop);
            if k < rest.len() {
                let j = choose|j: int| 0 <= j < s.drop_last().len() && s.drop_last()[j] == rest[k];
                assert(s[j] == rest[k]);
                assert(kept_bullets(w, s, stop)[k] == rest[k]);
            } else {
                assert(kept_bullets(w, s, stop)[k] == s.last());
                assert(s[s.len() - 1] == s.last());
            }
        }
    }
}

/// Pruning a distinct list yields a distinct list.
proof fn lemma_kept_distinct(w: PhysicsWorld, s: Seq<EntityHandle>, stop: i64)
    requires
        distinct_handles(s),
    ensures
        distinct_handles(kept_bullets(w, s, stop)),
    decreases s.len(),
{
    if s.len() > 0 {
        assert(distinct_handles(s.drop_last()));
        lemma_kept_distinct(w, s.drop_last(), stop);
        lemma_kept_subset(w, s.drop_last(), stop);
        let rest = kept_bullets(w, s.drop_last(), stop);
        if kept_bullet(w, s.last(), stop) {
            assert forall|i2: int, j2: int|
                0 <= i2 < rest.push(s.last()).len() && 0 <= j2 < rest.push(s.last()).len() && i2
                    != j2 implies #[trigger] rest.push(s.last())[i2] != #[trigger] rest.push(
                s.last(),
            )[j2] by {
                if i2 < rest.len() && j2 == rest.len() {
                    let j = choose|j: int|
                        0 <= j < s.drop_last().len() && s.drop_last()[j] == rest[i2];
                    assert(s[j] == rest[i2]);
                    assert(s[j] != s.last());
                }
                if j2 < rest.len() && i2 == rest.len() {
                    let j = choose|j: int|
                        0 <= j < s.drop_last().len() && s.drop_last()[j] == rest[j2];
                    assert(s[j] == rest[j2]);
                    assert(s[j] != s.last());
                }
            }
        }
    }
}

/// Every kept bullet is still live in the pruned world, with its state
/// preserved.
proof fn lemma_kept_tracked(w0: PhysicsWorld, w1: PhysicsWorld, s: Seq<EntityHandle>, stop: i64)
    requires
        forall|h: EntityHandle|
            #[trigger] w0.handle_live(h) && kept_bullet(w0, h, stop) ==> w1.handle_live(h),
    ensures
        handles_tracked(w1, kept_bullets(w0, s, stop)),
    decreases s.len(),
{
    if s.len() > 0 {
        lemma_kept_tracked(w0, w1, s.drop_last(), stop);
        let rest = kept_bullets(w0, s.drop_last(), stop);
        if kept_bullet(w0, s.last(), stop) {
            assert(w0.handle_live(s.last()));
            assert(w1.handle_live(s.last()));
            assert forall|k: int|
                0 <= k < kept_bullets(w0, s, stop).len() implies w1.handle_live(
                #[trigger] kept_bullets(w0, s, stop)[k],
            ) || w1.handle_stale(kept_bullets(w0, s, stop)[k]) by {
                if k < rest.len() {
                    assert(kept_bullets(w0, s, stop)[k] == rest[k]);
                }
            }
        }
    }
}

/// Every surviving dummy appears among the originals.
pub proof fn lemma_surviving_subset(s: Seq<Dummy>)
    ensures
        forall|k: int|
            0 <= k < surviving_dummies(s).len() ==> exists|j: int|
                0 <= j < s.len() && s[j] == #[trigger] surviving_dummies(s)[k],
    decreases s.len(),
{
    if s.len() > 0 {
        lemma_surviving_subset(s.drop_last());
        let rest = surviving_dummies(s.drop_last());
        assert forall|k: int|
            0 <= k < surviving_dummies(s).len() implies exists|j: int|
            0 <= j < s.len() && s[j] == #[trigger] surviving_dummies(s)[k] by {
            if k < rest.len() {
                assert(surviving_dummies(s)[k] == rest[k]);
                let j = choose|j: int| 0 <= j < s.drop_last().len() && s.drop_last()[j] == rest[k];
                assert(s[j] == rest[k]);
            } else {
                assert(surviving_dummies(s)[k] == s.last());
                assert(s[s.len() - 1] == s.last());
            }
        }
    }
}

/// A death pass keeps the surviving dummies' colliders distinct.
pub proof fn lemma_surviving_distinct(s: Seq<Dummy>)
    requires
        distinct_handles(dummy_colliders(s)),
    ensures
        distinct_handles(dummy_colliders(surviving_dummies(s))),
    decreases s.len(),
{
    if s.len() > 0 {
        assert(dummy_colliders(s.drop_last()) =~= dummy_colliders(s).drop_last());
        assert(distinct_handles(dummy_colliders(s.drop_last()))) by {
            assert forall|i2: int, j2: int|
                0 <= i2 < dummy_colliders(s.drop_last()).len() && 0 <= j2 < dummy_colliders(
                    s.drop_last(),
                ).len() && i2 != j2 implies #[trigger] dummy_colliders(s.drop_last())[i2]
                != #[trigger] dummy_colliders(s.drop_last())[j2] by {
                assert(dummy_colliders(s)[i2] != dummy_colliders(s)[j2]);
            }
        };
        lemma_surviving_distinct(s.drop_last());
        lemma_surviving_subset(s.drop_last());
        let rest = surviving_dummies(s.drop_last());
        if s.last().health > 0 {
            assert forall|i2: int, j2: int|
                0 <= i2 < dummy_colliders(surviving_dummies(s)).len() && 0 <= j2 < dummy_colliders(
                    surviving_dummies(s),
                ).len() && i2 != j2 implies #[trigger] dummy_colliders(surviving_dummies(s))[i2]
                != #[trigger] dummy_colliders(surviving_dummies(s))[j2] by {
                assert(surviving_dummies(s) == rest.push(s.last()));
                if i2 < rest.len() && j2 == rest.len() {
                    let j = choose|j: int|
                        0 <= j < s.drop_last().len() && s.drop_last()[j] == rest[i2];
                    assert(dummy_colliders(s)[j] == rest[i2].collider);
                    assert(dummy_colliders(s)[s.len() - 1] == s.last().collider);
                    assert(dummy_colliders(s)[j] != dummy_colliders(s)[s.len() - 1]);
                } else if j2 < rest.len() && i2 == rest.len() {
                    let j = choose|j: int|
                        0 <= j < s.drop_last().len() && s.drop_last()[j] == rest[j2];
                    assert(dummy_colliders(s)[j] == rest[j2].collider);
                    assert(dummy_colliders(s)[s.len() - 1] == s.last().collider);
                    assert(dummy_colliders(s)[j] != dummy_colliders(s)[s.len() - 1]);
                } else {
                    assert(dummy_colliders(rest)[i2] != dummy_colliders(rest)[j2]);
                    assert(dummy_colliders(rest)[i2] == dummy_colliders(surviving_dummies(s))[i2]);
                    assert(dummy_colliders(rest)[j2] == dummy_colliders(surviving_dummies(s))[j2]);
                }
            }
        }
    }
}

/// Fresh corpses are well-formed.
pub proof fn lemma_new_corpses_wf(w: PhysicsWorld, s: Seq<Dummy>)
    ensures
        forall|k: int| 0 <= k < new_corpses(w, s).len() ==> (#[trigger] new_corpses(w, s)[k]).wf(),
    decreases s.len(),
{
    if s.len() > 0 {
        lemma_new_corpses_wf(w, s.drop_last());
        let rest = new_corpses(w, s.drop_last());
        assert forall|k: int|
            0 <= k < new_corpses(w, s).len() implies (#[trigger] new_corpses(w, s)[k]).wf() by {
            if k < rest.len() {
                assert(new_corpses(w, s)[k] == rest[k]);
            }
        }
    }
}

/// Every surviving dummy is well-formed if the originals were.
pub proof fn lemma_surviving_wf(s: Seq<Dummy>)
    requires
        forall|i: int| 0 <= i < s.len() ==> (#[trigger] s[i]).wf(),
    ensures
        forall|k: int|
            0 <= k < surviving_dummies(s).len() ==> (#[trigger] surviving_dummies(s)[k]).wf(),
{
    lemma_surviving_subset(s);
    assert forall|k: int|
        0 <= k < surviving_dummies(s).len() implies (#[trigger] surviving_dummies(s)[k]).wf() by {
        let j = choose|j: int| 0 <= j < s.len() && s[j] == surviving_dummies(s)[k];
        assert(s[j].wf());
    }
}

/// A dummy dying in a prefix also dies in any longer prefix.
proof fn lemma_dying_widen(s: Seq<Dummy>, i: int, key: u32)
    requires
        0 <= i,
        dying_light_in(s, 0, i, key),
    ensures
        dying_light_in(s, 0, i + 1, key),
{
    let kk = choose|kk: int|
        0 <= kk < i && (#[trigger] s[kk]).health <= 0 && s[kk].light == Some(LightHandle(key));
    assert(0 <= kk < i + 1 && s[kk].health <= 0 && s[kk].light == Some(LightHandle(key)));
}

/// Removal justifications carry over to a longer prefix.
proof fn lemma_lights_widen(s: Seq<Dummy>, i: int, cur: LightRegistry, orig: LightRegistry)
    requires
        0 <= i,
        forall|key: u32|
            orig.lights@.contains_key(key) && !(#[trigger] cur.lights@.contains_key(key))
                ==> dying_light_in(s, 0, i, key),
    ensures
        forall|key: u32|
            orig.lights@.contains_key(key) && !(#[trigger] cur.lights@.contains_key(key))
                ==> dying_light_in(s, 0, i + 1, key),
{
    assert forall|key: u32|
        orig.lights@.contains_key(key) && !(#[trigger] cur.lights@.contains_key(key))
            implies dying_light_in(s, 0, i + 1, key) by {
        assert(dying_light_in(s, 0, i, key));
        lemma_dying_widen(s, i, key);
    }
}

/// The corpse a dying dummy leaves: its body's last position and its
/// facing angle; a dummy whose body is already gone rests at the origin.
pub open spec fn corpse_of(w: PhysicsWorld, d: Dummy) -> Corpse {
    Corpse {
        pos: if w.handle_live(d.collider) {
            w.body_of(d.collider).pos
        } else {
            Vec2 { x: 0i64, y: 0i64 }
        },
        animation_stage: 1i32,
        time_elapsed: 0u64,
        angle: d.angle,
    }
}

impl Dummy {
    /// The corpse this dummy would leave right now.
    pub fn get_corpse(&self, w: &PhysicsWorld) -> (r: Corpse)
        ensures
            r == corpse_of(*w, *self),
    {
        let pos: Vec2 = if self.collider.live_in(w) {
            match w.bodies.get(self.collider.body) {
                Some(b) => b.pos,
                None => {
                    proof {
                        assert(false);
                    }
                    vstd::pervasive::unreached()
                },
            }
        } else {
            Vec2 { x: 0, y: 0 }
        };
        Corpse { pos, animation_stage: 1, time_elapsed: 0, angle: self.angle }
    }
}

/// The dummies that survive a death pass: exactly those with positive
/// health, unchanged and in order.
pub open spec fn surviving_dummies(s: Seq<Dummy>) -> Seq<Dummy>
    decreases s.len(),
{
    if s.len() == 0 {
        Seq::empty()
    } else {
        let rest = surviving_dummies(s.drop_last());
        if s.last().health > 0 {
            rest.push(s.last())
        } else {
            rest
        }
    }
}

/// The corpses a death pass appends: one per dying dummy, in order.
pub open spec fn new_corpses(w: PhysicsWorld, s: Seq<Dummy>) -> Seq<Corpse>
    decreases s.len(),
{
    if s.len() == 0 {
        Seq::empty()
    } else {
        let rest = new_corpses(w, s.drop_last());
        if s.last().health <= 0 {
            rest.push(corpse_of(w, s.last()))
        } else {
            rest
        }
    }
}

/// The handles the dummies own, in order.
pub open spec fn dummy_colliders(s: Seq<Dummy>) -> Seq<EntityHandle> {
    s.map_values(|d: Dummy| d.collider)
}

/// A dummy in `s[lo..hi]` is dying and owns light `key`.
pub open spec fn dying_light_in(s: Seq<Dummy>, lo: int, hi: int, key: u32) -> bool {
    exists|k: int|
        lo <= k < hi && (#[trigger] s[k]).health <= 0 && s[k].light == Some(LightHandle(key))
}

/// What one death pass does: exactly the dummies with positive health
/// survive, each dying dummy leaves one corpse and loses its physics
/// body and its light, and everything else — other bodies, other lights,
/// the light id counter — is untouched.
pub open spec fn deaths_rel(
    w0: PhysicsWorld,
    dummies0: Seq<Dummy>,
    corpses0: Seq<Corpse>,
    l0: LightRegistry,
    w1: PhysicsWorld,
    dummies1: Seq<Dummy>,
    corpses1: Seq<Corpse>,
    l1: LightRegistry,
) -> bool {
    &&& dummies1 == surviving_dummies(dummies0)
    &&& corpses1 == corpses0 + new_corpses(w0, dummies0)
    &&& forall|k: int|
        0 <= k < dummies0.len() && (#[trigger] dummies0[k]).health <= 0 ==> !w1.handle_live(
            dummies0[k].collider,
        )
    &&& forall|h: EntityHandle|
        #[trigger] w0.handle_live(h) && (forall|k: int|
            0 <= k < dummies0.len() ==> (#[trigger] dummies0[k]).health > 0 || h
                != dummies0[k].collider) ==> w1.handle_live(h) && w1.body_of(h) == w0.body_of(h)
            && w1.collider_of(h) == w0.collider_of(h)
    &&& forall|h: EntityHandle| w0.handle_stale(h) ==> #[trigger] w1.handle_stale(h)
    &&& forall|h: EntityHandle| #[trigger] w1.handle_live(h) ==> w0.handle_live(h)
    &&& forall|h: EntityHandle|
        #[trigger] w0.handle_live(h) ==> w1.handle_live(h) || w1.handle_stale(h)
    &&& forall|k: int|
        0 <= k < dummies0.len() && (#[trigger] dummies0[k]).health <= 0 && dummies0[k].light
            is Some ==> !l1.lights@.contains_key(dummies0[k].light->Some_0.0)
    &&& forall|key: u32|
        #[trigger] l1.lights@.contains_key(key) ==> l0.lights@.contains_key(key)
            && l1.lights@[key] == l0.lights@[key]
    &&& forall|key: u32|
        l0.lights@.contains_key(key) && !(#[trigger] l1.lights@.contains_key(key))
            ==> dying_light_in(dummies0, 0, dummies0.len() as int, key)
    &&& l1.next_id == l0.next_id
    &&& w1.gravity == w0.gravity
    &&& w1.dt == w0.dt
}

/// Convert every dummy whose health has run out into a corpse — exactly
/// once — deleting its physics body and unregistering its light.
///
/// Surviving dummies and every other entity are untouched.
#[verifier::rlimit(60)]
pub fn resolve_dummy_deaths(
    w: &mut PhysicsWorld,
    dummies: &mut Vec<Dummy>,
    corpses: &mut Vec<Corpse>,
    lights: &mut LightRegistry,
)
    requires
        old(w).wf(),
        old(lights).wf(),
        distinct_handles(dummy_colliders(old(dummies)@)),
    ensures
        final(w).wf(),
        final(lights).wf(),
        deaths_rel(
            *old(w),
            old(dummies)@,
            old(corpses)@,
            *old(lights),
            *final(w),
            final(dummies)@,
            final(corpses)@,
            *final(lights),
        ),
{
    let n = dummies.len();
    let mut kept: Vec<Dummy> = Vec::new();
    let mut i: usize = 0;
    proof {
        assert(kept@ =~= surviving_dummies(old(dummies)@.subrange(0, 0)));
        assert(corpses@ =~= old(corpses)@ + new_corpses(*old(w), old(dummies)@.subrange(0, 0)));
    }
    while i < n
        invariant
            n == old(dummies)@.len(),
            i <= n,
            *dummies == *old(dummies),
            old(w).wf(),
            w.wf(),
            old(lights).wf(),
            lights.wf(),
            distinct_handles(dummy_colliders(old(dummies)@)),
            w.gravity == old(w).gravity,
            w.dt == old(w).dt,
            kept@ == surviving_dummies(old(dummies)@.subrange(0, i as int)),
            corpses@ == old(corpses)@ + new_corpses(*old(w), old(dummies)@.subrange(0, i as int)),
            forall|k: int|
                0 <= k < i && (#[trigger] old(dummies)@[k]).health <= 0 ==> !w.handle_live(
                    old(dummies)@[k].collider,
                ),
            forall|h: EntityHandle|
                #[trigger] old(w).handle_live(h) && (forall|k: int|
                    0 <= k < i ==> (#[trigger] old(dummies)@[k]).health > 0 || h != old(dummies)@[k].collider) ==> w.handle_live(h) && w.body_of(h) == old(w).body_of(h)
                    && w.collider_of(h) == old(w).collider_of(h),
            forall|h: EntityHandle| old(w).handle_stale(h) ==> #[trigger] w.handle_stale(h),
            forall|h: EntityHandle| #[trigger] w.handle_live(h) ==> old(w).handle_live(h),
            forall|h: EntityHandle|
                #[trigger] old(w).handle_live(h) ==> w.handle_live(h) || w.handle_stale(h),
            forall|k: int|
                0 <= k < i && (#[trigger] old(dummies)@[k]).health <= 0 && old(dummies)@[k].light
                    is Some ==> !lights.lights@.contains_key(old(dummies)@[k].light->Some_0.0),
            forall|key: u32|
                #[trigger] lights.lights@.contains_key(key) ==> old(lights).lights@.contains_key(
                    key,
                ) && lights.lights@[key] == old(lights).lights@[key],
            forall|key: u32|
                old(lights).lights@.contains_key(key) && !(#[trigger] lights.lights@.contains_key(
                    key,
                )) ==> dying_light_in(old(dummies)@, 0, i as int, key),
            lights.next_id == old(lights).next_id,
        decreases n - i,
    {
        let d: Dummy = dummies[i];
        proof {
            assert(old(dummies)@.subrange(0, i as int + 1).drop_last() =~= old(dummies)@.subrange(
                0,
                i as int,
            ));
            assert(old(dummies)@.subrange(0, i as int + 1).last() == old(dummies)@[i as int]);
        }
        if d.health > 0 {
            kept.push(d);
            proof {
                lemma_lights_widen(old(dummies)@, i as int, *lights, *old(lights));
            }
        } else {
            let pos: Vec2 = if d.collider.live_in(w) {
                match w.bodies.get(d.collider.body) {
                    Some(b) => b.pos,
                    None => {
                        proof {
                            assert(false);
                        }
                        vstd::pervasive::unreached()
                    },
                }
            } else {
                Vec2 { x: 0, y: 0 }
            };
            proof {
                // the dummy's collider is untouched so far, so its state —
                // and hence the corpse position — is that of the old world
                if old(w).handle_live(d.collider) {
                    assert forall|k: int|
                        0 <= k < i implies (#[trigger] old(dummies)@[k]).health > 0 || d.collider
                        != old(dummies)@[k].collider by {
                        if d.collider == old(dummies)@[k].collider {
                            assert(dummy_colliders(old(dummies)@)[k] == old(dummies)@[k].collider);
                            assert(dummy_colliders(old(dummies)@)[i as int] == d.collider);
                            assert(false);
                        }
                    }
                    assert(w.handle_live(d.collider));
                    assert(w.body_of(d.collider) == old(w).body_of(d.collider));
                } else {
                    assert(!w.handle_live(d.collider));
                }
                assert(Corpse { pos, animation_stage: 1i32, time_elapsed: 0u64, angle: d.angle }
                    == corpse_of(*old(w), d));
            }
            corpses.push(Corpse { pos, animation_stage: 1, time_elapsed: 0, angle: d.angle });
            let ghost w_pre = *w;
            w.remove(d.collider);
            proof {
                assert forall|h2: EntityHandle|
                    #[trigger] old(w).handle_live(h2) && (forall|k: int|
                        0 <= k < i + 1 ==> (#[trigger] old(dummies)@[k]).health > 0 || h2 != old(dummies)@[k].collider) implies w.handle_live(h2) && w.body_of(h2) == old(w).body_of(h2) && w.collider_of(h2) == old(w).collider_of(h2) by {
                    assert(old(dummies)@[i as int].health > 0 || h2 != old(dummies)@[i as int].collider);
                    assert(h2 != d.collider);
                    assert forall|k: int|
                        0 <= k < i implies (#[trigger] old(dummies)@[k]).health > 0 || h2 != old(dummies)@[k].collider by {}
                    assert(w_pre.handle_live(h2));
                    assert(w_pre.body_of(h2) == old(w).body_of(h2));
                    assert(w_pre.collider_of(h2) == old(w).collider_of(h2));
                    assert(w.handle_live(h2));
                    assert(w.body_of(h2) == w_pre.body_of(h2));
                    assert(w.collider_of(h2) == w_pre.collider_of(h2));
                }
            }
            let ghost lights_pre = *lights;
            match d.light {
                Some(lh) => {
                    lights.remove_light(&lh);
                    proof {
                        assert forall|key: u32|
                            old(lights).lights@.contains_key(key) && !(
                        #[trigger] lights.lights@.contains_key(key)) implies dying_light_in(
                            old(dummies)@,
                            0,
                            i as int + 1,
                            key,
                        ) by {
                            if lights_pre.lights@.contains_key(key) {
                                assert(key == lh.0);
                                assert(old(dummies)@[i as int].health <= 0);
                                assert(old(dummies)@[i as int].light == Some(LightHandle(key)));
                                assert(dying_light_in(old(dummies)@, 0, i as int + 1, key));
                            } else {
                                assert(dying_light_in(old(dummies)@, 0, i as int, key));
                                lemma_dying_widen(old(dummies)@, i as int, key);
                            }
                        }
                    }
                },
                None => {
                    proof {
                        lemma_lights_widen(old(dummies)@, i as int, *lights, *old(lights));
                    }
                },
            }
        }
        i += 1;
    }
    proof {
        assert(old(dummies)@.subrange(0, n as int) =~= old(dummies)@);
    }
    *dummies = kept;
}

} // verus!
