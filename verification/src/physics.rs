//! The physics world: the body/shape arena and the single step operation.
//!
//! The world exclusively owns all bodies and colliders; every other
//! component refers to them only through [`EntityHandle`] values.  One
//! call to [`PhysicsWorld::step`] advances every dynamic body by the
//! pre-set timestep, consumes queued impulses, and returns this tick's
//! contact and force events directly (there is no event queue: the tick
//! loop is single-threaded).

use vstd::pervasive::unreached;
use vstd::prelude::*;

use crate::arena::{Arena, Id, Slot};
use crate::body::{
    mass_ex, mass_spec, BodyArgs, Collider, MaterialArgs, Mobility, RigidBody, RoleTag, MAX_COORD,
    MAX_MASS, MAX_PENDING, MAX_VEL,
};
use crate::num::{clip, clip_i128, tdiv, tdiv_i128, MICROS, SCALE};
use crate::shape::Shape;
use crate::vec2::{Rot, Vec2};

verus! {

/// The sole externally visible reference to a simulated object: the
/// owning body's id paired with its collider's id.  Equality is by
/// identity of both ids.
#[derive(Clone, Copy, Debug, PartialEq, Eq, Hash, Structural)]
pub struct EntityHandle {
    pub body: Id,
    pub shape: Id,
}

/// An ephemeral per-tick fact: the two colliders are touching.
#[derive(Clone, Copy, Debug, PartialEq, Eq, Structural)]
pub struct ContactEvent {
    pub a: Id,
    pub b: Id,
}

/// An ephemeral per-tick fact: the interaction magnitude (the fixed-point
/// relative speed) between two touching colliders.
#[derive(Clone, Copy, Debug, PartialEq, Eq, Structural)]
pub struct ForceEvent {
    pub a: Id,
    pub b: Id,
    pub magnitude: i64,
}

/// The body/shape arena, gravity, and the integration timestep.
pub struct PhysicsWorld {
    pub bodies: Arena<RigidBody>,
    pub colliders: Arena<Collider>,
    pub gravity: Vec2,
    pub dt: u64,
}

impl PhysicsWorld {
    /// Every stored body and collider is well-formed, every collider's
    /// parent body is live and carries the collider's model mass, and no
    /// two colliders share a body.
    pub open spec fn wf(self) -> bool {
        &&& forall|i: int|
            0 <= i < self.bodies.slots@.len() && (#[trigger] self.bodies.slots@[i]).val is Some
                ==> self.bodies.slots@[i].val->Some_0.wf()
        &&& forall|i: int|
            0 <= i < self.colliders.slots@.len() && (#[trigger] self.colliders.slots@[i]).val
                is Some ==> {
                let c = self.colliders.slots@[i].val->Some_0;
                &&& c.wf()
                &&& self.bodies.live(c.parent)
                &&& self.bodies.get_spec(c.parent).mass == mass_spec(c.density, c.shape)
            }
        &&& forall|i: int, j: int|
            0 <= i < self.colliders.slots@.len() && 0 <= j < self.colliders.slots@.len() && i != j
                && (#[trigger] self.colliders.slots@[i]).val is Some
                && (#[trigger] self.colliders.slots@[j]).val is Some
                ==> self.colliders.slots@[i].val->Some_0.parent
                != self.colliders.slots@[j].val->Some_0.parent
        &&& self.gravity.in_range(MAX_VEL as int)
        &&& self.dt <= 1_000_000
    }

    /// The handle refers to a live body and its own live collider.
    pub open spec fn handle_live(self, h: EntityHandle) -> bool {
        &&& self.bodies.live(h.body)
        &&& self.colliders.live(h.shape)
        &&& self.colliders.get_spec(h.shape).parent == h.body
    }

    /// Both halves of the handle are stale: they referred into the arena
    /// once and their slots have been vacated or reissued since.
    pub open spec fn handle_stale(self, h: EntityHandle) -> bool {
        self.bodies.stale(h.body) && self.colliders.stale(h.shape)
    }

    /// The body a live handle refers to.
    pub open spec fn body_of(self, h: EntityHandle) -> RigidBody {
        self.bodies.get_spec(h.body)
    }

    /// The collider a live handle refers to.
    pub open spec fn collider_of(self, h: EntityHandle) -> Collider {
        self.colliders.get_spec(h.shape)
    }

    /// An empty world: no gravity (a top-down game) and a default
    /// timestep of five milliseconds.
    pub fn new() -> (r: PhysicsWorld)
        ensures
            r.wf(),
            r.bodies.len_spec() == 0,
            r.colliders.len_spec() == 0,
            r.gravity == (Vec2 { x: 0i64, y: 0i64 }),
            r.dt == 5000u64,
            forall|h: EntityHandle| !r.handle_live(h),
    {
        PhysicsWorld {
            bodies: Arena::new(),
            colliders: Arena::new(),
            gravity: Vec2 { x: 0, y: 0 },
            dt: 5000,
        }
    }
}

/// The body a fresh insertion creates from its arguments.
pub open spec fn body_from_args(args: BodyArgs, mass: int) -> RigidBody {
    RigidBody {
        pos: args.pos,
        rot: Rot { c: SCALE, s: 0i64 },
        linvel: args.vel,
        angvel: 0i64,
        mobility: args.mobility,
        role: args.role,
        mass: mass as i64,
        pending_impulse: Vec2 { x: 0i64, y: 0i64 },
        pending_torque: 0i64,
    }
}

/// The collider a fresh insertion creates from its arguments.
pub open spec fn collider_from_args(mat: MaterialArgs, shape: Shape, parent: Id) -> Collider {
    Collider {
        shape: shape,
        density: mat.density,
        restitution: mat.restitution,
        friction: mat.friction,
        sensor: mat.sensor,
        role: mat.role,
        parent: parent,
    }
}

impl PhysicsWorld {
    /// Create one body and one collider from declarative arguments and
    /// insert them, returning a fresh handle.
    ///
    /// Insertion always succeeds (bounded only by memory).  The returned
    /// handle is live, refers to exactly the requested body and collider,
    /// and differs from every handle that was live before and from every
    /// stale handle.
    pub fn insert(&mut self, args: BodyArgs, mat: MaterialArgs, shape: Shape) -> (r: EntityHandle)
        requires
            old(self).wf(),
            args.wf(),
            mat.wf(),
            shape.wf(),
        ensures
            final(self).wf(),
            final(self).handle_live(r),
            final(self).body_of(r) == body_from_args(args, mass_spec(mat.density, shape)),
            final(self).collider_of(r) == collider_from_args(mat, shape, r.body),
            forall|h: EntityHandle|
                old(self).handle_live(h) ==> #[trigger] final(self).handle_live(h) && h != r
                    && final(self).body_of(h) == old(self).body_of(h) && final(self).collider_of(h)
                    == old(self).collider_of(h),
            forall|h: EntityHandle|
                old(self).handle_stale(h) ==> #[trigger] final(self).handle_stale(h) && h != r,
            final(self).gravity == old(self).gravity,
            final(self).dt == old(self).dt,
    {
        let mass = mass_ex(mat.density, &shape);
        let b = RigidBody {
            pos: args.pos,
            rot: Rot { c: SCALE, s: 0 },
            linvel: args.vel,
            angvel: 0,
            mobility: args.mobility,
            role: args.role,
            mass: mass,
            pending_impulse: Vec2 { x: 0, y: 0 },
            pending_torque: 0,
        };
        let bid = self.bodies.insert(b);
        let c = Collider {
            shape: shape,
            density: mat.density,
            restitution: mat.restitution,
            friction: mat.friction,
            sensor: mat.sensor,
            role: mat.role,
            parent: bid,
        };
        let cid = self.colliders.insert(c);
        proof {
            let w0 = *old(self);
            assert(b.wf());
            assert forall|i: int|
                0 <= i < self.bodies.slots@.len() && (#[trigger] self.bodies.slots@[i]).val
                    is Some implies self.bodies.slots@[i].val->Some_0.wf() by {
                if i != bid.index as int {
                    assert(self.bodies.slots@[i] == w0.bodies.slots@[i]);
                } else {
                    assert(self.bodies.get_spec(bid) == b);
                }
            }
            assert forall|i: int|
                0 <= i < self.colliders.slots@.len() && (#[trigger] self.colliders.slots@[i]).val
                    is Some implies {
                let cc = self.colliders.slots@[i].val->Some_0;
                &&& cc.wf()
                &&& self.bodies.live(cc.parent)
                &&& self.bodies.get_spec(cc.parent).mass == mass_spec(cc.density, cc.shape)
            } by {
                if i == cid.index as int {
                    assert(self.colliders.get_spec(cid) == c);
                    assert(self.bodies.get_spec(bid) == b);
                } else {
                    assert(self.colliders.slots@[i] == w0.colliders.slots@[i]);
                    let cc = w0.colliders.slots@[i].val->Some_0;
                    assert(w0.bodies.live(cc.parent));
                    assert(self.bodies.get_spec(cc.parent) == w0.bodies.get_spec(cc.parent));
                }
            }
            assert forall|i: int, j: int|
                0 <= i < self.colliders.slots@.len() && 0 <= j < self.colliders.slots@.len() && i
                    != j && (#[trigger] self.colliders.slots@[i]).val is Some
                    && (#[trigger] self.colliders.slots@[j]).val is Some implies self.colliders.slots@[i].val->Some_0.parent
                != self.colliders.slots@[j].val->Some_0.parent by {
                if i != cid.index as int && j != cid.index as int {
                    assert(self.colliders.slots@[i] == w0.colliders.slots@[i]);
                    assert(self.colliders.slots@[j] == w0.colliders.slots@[j]);
                } else if i == cid.index as int {
                    assert(self.colliders.slots@[j] == w0.colliders.slots@[j]);
                    let cj = w0.colliders.slots@[j].val->Some_0;
                    assert(w0.bodies.live(cj.parent));
                    assert(self.bodies.get_spec(cj.parent) == w0.bodies.get_spec(cj.parent));
                    assert(cj.parent != bid);
                    assert(self.colliders.get_spec(cid) == c);
                } else {
                    assert(self.colliders.slots@[i] == w0.colliders.slots@[i]);
                    let ci = w0.colliders.slots@[i].val->Some_0;
                    assert(w0.bodies.live(ci.parent));
                    assert(self.bodies.get_spec(ci.parent) == w0.bodies.get_spec(ci.parent));
                    assert(ci.parent != bid);
                    assert(self.colliders.get_spec(cid) == c);
                }
            }
        }
        EntityHandle { body: bid, shape: cid }
    }

    /// Delete the body and its collider and invalidate the handle; a
    /// no-op on a handle that is not live.  Returns whether it was live.
    ///
    /// After removal the handle is stale: every query with it reports
    /// `InvalidHandle`, and no later insertion can return a handle equal
    /// to it.
    pub fn remove(&mut self, h: EntityHandle) -> (r: bool)
        requires
            old(self).wf(),
        ensures
            final(self).wf(),
            r == old(self).handle_live(h),
            !final(self).handle_live(h),
            r ==> final(self).handle_stale(h),
            !r ==> *final(self) == *old(self),
            forall|h2: EntityHandle|
                old(self).handle_live(h2) && h2 != h ==> #[trigger] final(self).handle_live(h2)
                    && final(self).body_of(h2) == old(self).body_of(h2)
                    && final(self).collider_of(h2) == old(self).collider_of(h2),
            forall|h2: EntityHandle|
                old(self).handle_stale(h2) ==> #[trigger] final(self).handle_stale(h2),
            forall|h2: EntityHandle|
                #[trigger] final(self).handle_live(h2) ==> old(self).handle_live(h2),
            final(self).gravity == old(self).gravity,
            final(self).dt == old(self).dt,
    {
        let live = match self.colliders.get(h.shape) {
            Some(c) => c.parent == h.body && self.bodies.contains(h.body),
            None => false,
        };
        if !live {
            return false;
        }
        self.bodies.remove(h.body);
        self.colliders.remove(h.shape);
        proof {
            assert forall|h2: EntityHandle|
                old(self).handle_live(h2) && h2 != h implies #[trigger] final(self).handle_live(h2)
                && final(self).body_of(h2) == old(self).body_of(h2)
                && final(self).collider_of(h2) == old(self).collider_of(h2) by {
                if h2.shape == h.shape {
                    assert(old(self).collider_of(h2).parent == h2.body);
                    assert(h2.body == h.body);
                }
                assert(h2.shape != h.shape);
                if h2.body == h.body {
                    // two live colliders with the same parent would break
                    // the world invariant
                    assert(old(self).colliders.slots@[h2.shape.index as int].val->Some_0.parent
                        == old(self).colliders.slots@[h.shape.index as int].val->Some_0.parent);
                }
                assert(h2.body != h.body);
            }
        }
        true
    }
}

/// Handle lifecycle law at the world level: after a live handle is
/// removed, every query on it reports it dead, and any later insertion —
/// whether or not it reuses the arena slots — returns a handle different
/// from it, so a stale handle never silently aliases a new entity.
///
/// The states are related by the contracts of [`PhysicsWorld::remove`]
/// and [`PhysicsWorld::insert`]: `w1` is `w0` after removing the live
/// handle `h`, and `r` is the handle a later insertion into `w1`
/// returned.
pub proof fn lemma_world_handle_lifecycle(
    w0: PhysicsWorld,
    h: EntityHandle,
    w1: PhysicsWorld,
    w2: PhysicsWorld,
    r: EntityHandle,
)
    requires
        w0.handle_live(h),
        // what remove(h) on w0 ensures of w1
        !w1.handle_live(h),
        w1.handle_stale(h),
        // what a later insert into w1 ensures of w2 and r
        w2.handle_live(r),
        forall|h2: EntityHandle|
            w1.handle_stale(h2) ==> #[trigger] w2.handle_stale(h2) && h2 != r,
    ensures
        r != h,
        !w1.handle_live(h),
        w2.handle_stale(h),
        !w2.handle_live(h),
{
    assert(w2.handle_stale(h));
}

/// One integration step of a single body: queued impulses and gravity are
/// turned into velocity, the velocity into displacement, and every stored
/// quantity is clamped back into the world bounds.  Fixed bodies are
/// untouched.  Orientation is not integrated: this layer's gameplay
/// drives facing angles through explicit sets.
pub open spec fn integrate_body(b: RigidBody, g: Vec2, dt: int) -> RigidBody {
    if b.mobility is Dynamic {
        let vx = clip(
            b.linvel.x + tdiv(g.x * dt, MICROS as int) + tdiv(
                b.pending_impulse.x * SCALE as int,
                b.mass as int,
            ),
            MAX_VEL as int,
        ) as i64;
        let vy = clip(
            b.linvel.y + tdiv(g.y * dt, MICROS as int) + tdiv(
                b.pending_impulse.y * SCALE as int,
                b.mass as int,
            ),
            MAX_VEL as int,
        ) as i64;
        let av = clip(
            b.angvel + tdiv(b.pending_torque * SCALE as int, b.mass as int),
            MAX_VEL as int,
        ) as i64;
        let px = clip(b.pos.x + tdiv(vx * dt, MICROS as int), MAX_COORD as int) as i64;
        let py = clip(b.pos.y + tdiv(vy * dt, MICROS as int), MAX_COORD as int) as i64;
        RigidBody {
            pos: Vec2 { x: px, y: py },
            linvel: Vec2 { x: vx, y: vy },
            angvel: av,
            pending_impulse: Vec2 { x: 0i64, y: 0i64 },
            pending_torque: 0i64,
            ..b
        }
    } else {
        b
    }
}

/// Compute `integrate_body` exactly.
pub fn integrate_ex(b: &RigidBody, g: Vec2, dt: u64) -> (r: RigidBody)
    requires
        b.wf(),
        g.in_range(MAX_VEL as int),
        dt <= 1_000_000,
    ensures
        r == integrate_body(*b, g, dt as int),
        r.wf(),
{
    match b.mobility {
        Mobility::Fixed => *b,
        Mobility::Dynamic => {
            proof {
                assert(-1_000_000_000_000_000i64 <= g.x * (dt as int) <= 1_000_000_000_000_000i64
                    && -1_000_000_000_000_000i64 <= g.y * (dt as int) <= 1_000_000_000_000_000i64)
                    by (nonlinear_arith)
                    requires
                        -1_000_000_000 <= g.x <= 1_000_000_000,
                        -1_000_000_000 <= g.y <= 1_000_000_000,
                        0 <= dt <= 1_000_000;
            }
            let gx: i128 = tdiv_i128(g.x as i128 * dt as i128, MICROS as i128);
            let gy: i128 = tdiv_i128(g.y as i128 * dt as i128, MICROS as i128);
            let ix: i128 = tdiv_i128(
                b.pending_impulse.x as i128 * SCALE as i128,
                b.mass as i128,
            );
            let iy: i128 = tdiv_i128(
                b.pending_impulse.y as i128 * SCALE as i128,
                b.mass as i128,
            );
            let vx: i64 = clip_i128(b.linvel.x as i128 + gx + ix, MAX_VEL);
            let vy: i64 = clip_i128(b.linvel.y as i128 + gy + iy, MAX_VEL);
            let ta: i128 = tdiv_i128(b.pending_torque as i128 * SCALE as i128, b.mass as i128);
            let av: i64 = clip_i128(b.angvel as i128 + ta, MAX_VEL);
            proof {
                assert(-1_000_000_000_000_000i64 <= vx * (dt as int) <= 1_000_000_000_000_000i64
                    && -1_000_000_000_000_000i64 <= vy * (dt as int) <= 1_000_000_000_000_000i64)
                    by (nonlinear_arith)
                    requires
                        -1_000_000_000 <= vx <= 1_000_000_000,
                        -1_000_000_000 <= vy <= 1_000_000_000,
                        0 <= dt <= 1_000_000;
            }
            let px: i64 = clip_i128(
                b.pos.x as i128 + tdiv_i128(vx as i128 * dt as i128, MICROS as i128),
                MAX_COORD,
            );
            let py: i64 = clip_i128(
                b.pos.y as i128 + tdiv_i128(vy as i128 * dt as i128, MICROS as i128),
                MAX_COORD,
            );
            RigidBody {
                pos: Vec2 { x: px, y: py },
                linvel: Vec2 { x: vx, y: vy },
                angvel: av,
                pending_impulse: Vec2 { x: 0, y: 0 },
                pending_torque: 0,
                ..*b
            }
        },
    }
}

/// The colliders in slots `i` and `j` are both present and touching, and
/// at least one of the owning bodies is dynamic.
pub open spec fn pair_touching(w: PhysicsWorld, i: int, j: int) -> bool {
    &&& 0 <= i < w.colliders.slots@.len()
    &&& 0 <= j < w.colliders.slots@.len()
    &&& w.colliders.slots@[i].val is Some
    &&& w.colliders.slots@[j].val is Some
    &&& {
        let ci = w.colliders.slots@[i].val->Some_0;
        let cj = w.colliders.slots@[j].val->Some_0;
        let bi = w.bodies.get_spec(ci.parent);
        let bj = w.bodies.get_spec(cj.parent);
        &&& (bi.mobility is Dynamic || bj.mobility is Dynamic)
        &&& crate::contact::shapes_touch(ci.shape, bi.pos, bi.rot, cj.shape, bj.pos, bj.rot)
    }
}

/// The contact event reported for slots `i < j`.
pub open spec fn event_at(w: PhysicsWorld, i: int, j: int) -> ContactEvent {
    ContactEvent {
        a: Id { index: i as usize, gen: w.colliders.slots@[i].gen },
        b: Id { index: j as usize, gen: w.colliders.slots@[j].gen },
    }
}

/// The force event that accompanies a contact: its magnitude is the
/// fixed-point relative speed of the two owning bodies.
pub open spec fn force_of(w: PhysicsWorld, e: ContactEvent) -> ForceEvent {
    let ca = w.colliders.slots@[e.a.index as int].val->Some_0;
    let cb = w.colliders.slots@[e.b.index as int].val->Some_0;
    let ba = w.bodies.get_spec(ca.parent);
    let bb = w.bodies.get_spec(cb.parent);
    ForceEvent {
        a: e.a,
        b: e.b,
        magnitude: ba.linvel.sub_spec(bb.linvel).norm() as i64,
    }
}

/// The contact events for pairs `(i, j')` with `j <= j'`, in slot order.
pub open spec fn inner_events(w: PhysicsWorld, i: int, j: int) -> Seq<ContactEvent>
    decreases w.colliders.slots@.len() - j,
{
    if j < 0 || j >= w.colliders.slots@.len() {
        Seq::empty()
    } else {
        (if pair_touching(w, i, j) {
            seq![event_at(w, i, j)]
        } else {
            Seq::empty()
        }) + inner_events(w, i, j + 1)
    }
}

/// The contact events for pairs `(i', j)` with `i <= i' < j`, in slot
/// order.
pub open spec fn outer_events(w: PhysicsWorld, i: int) -> Seq<ContactEvent>
    decreases w.colliders.slots@.len() - i,
{
    if i < 0 || i >= w.colliders.slots@.len() {
        Seq::empty()
    } else {
        inner_events(w, i, i + 1) + outer_events(w, i + 1)
    }
}

/// This tick's contact events: every unordered pair of present colliders
/// that touch with a dynamic participant, enumerated in slot order.
pub open spec fn contact_events_seq(w: PhysicsWorld) -> Seq<ContactEvent> {
    outer_events(w, 0)
}

/// What one physics step does: every dynamic body is advanced by
/// `integrate_body`, fixed bodies and all colliders are untouched,
/// liveness is unchanged, and the returned events are exactly the
/// touching pairs of the advanced world with their relative speeds.
pub open spec fn step_rel(
    w0: PhysicsWorld,
    w1: PhysicsWorld,
    events: Seq<ContactEvent>,
    forces: Seq<ForceEvent>,
) -> bool {
    &&& w1.bodies.slots@.len() == w0.bodies.slots@.len()
    &&& forall|i: int|
        0 <= i < w0.bodies.slots@.len() ==> (#[trigger] w1.bodies.slots@[i]).gen
            == w0.bodies.slots@[i].gen && w1.bodies.slots@[i].val == match w0.bodies.slots@[i].val {
            Some(b) => Some(integrate_body(b, w0.gravity, w0.dt as int)),
            None => None::<RigidBody>,
        }
    &&& w1.colliders == w0.colliders
    &&& w1.gravity == w0.gravity
    &&& w1.dt == w0.dt
    &&& forall|h: EntityHandle| w0.handle_live(h) == #[trigger] w1.handle_live(h)
    &&& forall|h: EntityHandle| w0.handle_stale(h) == #[trigger] w1.handle_stale(h)
    &&& events == contact_events_seq(w1)
    &&& forces.len() == events.len()
    &&& forall|k: int| 0 <= k < events.len() ==> #[trigger] forces[k] == force_of(w1, events[k])
}

impl PhysicsWorld {
    /// Advance the world by the pre-set timestep `dt` and report this
    /// tick's contact and force events.
    ///
    /// Every dynamic body consumes its queued impulses and moves by its
    /// velocity; fixed bodies and all colliders are untouched.  The
    /// returned events are exactly the touching pairs of the advanced
    /// world, in slot order; handles stay live across the step.
    ///
    /// Contacts are reported, not resolved: this step applies no
    /// collision response, so contacts never alter motion here — the
    /// gameplay layer consumes the events — and restitution and friction
    /// are model data only.  Orientation likewise does not integrate
    /// from angular velocity; facing is driven by explicit sets.
    pub fn step(&mut self) -> (r: (Vec<ContactEvent>, Vec<ForceEvent>))
        requires
            old(self).wf(),
        ensures
            final(self).wf(),
            step_rel(*old(self), *final(self), r.0@, r.1@),
    {
        let n = self.bodies.slots.len();
        let ghost w0 = *self;
        let mut i: usize = 0;
        while i < n
            invariant
                n == self.bodies.slots@.len(),
                n == w0.bodies.slots@.len(),
                i <= n,
                w0.wf(),
                self.colliders == w0.colliders,
                self.gravity == w0.gravity,
                self.dt == w0.dt,
                forall|k: int| i <= k < n ==> self.bodies.slots@[k] == w0.bodies.slots@[k],
                forall|k: int|
                    0 <= k < i ==> (#[trigger] self.bodies.slots@[k]).gen == w0.bodies.slots@[k].gen
                        && self.bodies.slots@[k].val == match w0.bodies.slots@[k].val {
                        Some(b) => Some(integrate_body(b, w0.gravity, w0.dt as int)),
                        None => None::<RigidBody>,
                    },
            decreases n - i,
        {
            let ov: Option<RigidBody> = self.bodies.slots[i].val;
            match ov {
                Some(b) => {
                    proof {
                        assert(self.bodies.slots@[i as int] == w0.bodies.slots@[i as int]);
                        assert(w0.bodies.slots@[i as int].val is Some);
                        assert(b == w0.bodies.slots@[i as int].val->Some_0);
                        assert(b.wf());
                    }
                    let nb = integrate_ex(&b, self.gravity, self.dt);
                    let g = self.bodies.slots[i].gen;
                    self.bodies.slots[i] = Slot { gen: g, val: Some(nb) };
                },
                None => {},
            }
            i += 1;
        }
        proof {
            lemma_wf_after_integration(w0, *self);
        }
        let ghost w1 = *self;
        let mut events: Vec<ContactEvent> = Vec::new();
        let mut forces: Vec<ForceEvent> = Vec::new();
        let m = self.colliders.slots.len();
        let mut a: usize = 0;
        proof {
            assert(events@ + outer_events(w1, 0) =~= outer_events(w1, 0));
        }
        while a < m
            invariant
                m == self.colliders.slots@.len(),
                a <= m,
                *self == w1,
                self.wf(),
                outer_events(w1, 0) == events@ + outer_events(w1, a as int),
                forces@.len() == events@.len(),
                forall|k: int| 0 <= k < events@.len() ==> forces@[k] == force_of(w1, events@[k]),
            decreases m - a,
        {
            let mut bidx: usize = a + 1;
            proof {
                assert(outer_events(w1, a as int) =~= inner_events(w1, a as int, a as int + 1)
                    + outer_events(w1, a as int + 1));
                assert(events@ + (inner_events(w1, a as int, a as int + 1) + outer_events(
                    w1,
                    a as int + 1,
                )) =~= events@ + inner_events(w1, a as int, a as int + 1) + outer_events(
                    w1,
                    a as int + 1,
                ));
            }
            while bidx < m
                invariant
                    m == self.colliders.slots@.len(),
                    a < m,
                    a < bidx <= m,
                    *self == w1,
                    self.wf(),
                    outer_events(w1, 0) == events@ + inner_events(w1, a as int, bidx as int)
                        + outer_events(w1, a as int + 1),
                    forces@.len() == events@.len(),
                    forall|k: int| 0 <= k < events@.len() ==> forces@[k] == force_of(w1, events@[k]),
                decreases m - bidx,
            {
                let touching: bool = {
                    let sa = &self.colliders.slots[a];
                    let sb = &self.colliders.slots[bidx];
                    match (&sa.val, &sb.val) {
                        (Some(ca), Some(cb)) => {
                            proof {
                                assert(self.colliders.slots@[a as int].val is Some);
                                assert(self.colliders.slots@[bidx as int].val is Some);
                            }
                            let ba = match self.bodies.get(ca.parent) {
                                Some(x) => *x,
                                None => {
                                    proof {
                                        assert(false);
                                    }
                                    unreached()
                                },
                            };
                            let bb = match self.bodies.get(cb.parent) {
                                Some(x) => *x,
                                None => {
                                    proof {
                                        assert(false);
                                    }
                                    unreached()
                                },
                            };
                            let dyn_pair = match (ba.mobility, bb.mobility) {
                                (Mobility::Fixed, Mobility::Fixed) => false,
                                _ => true,
                            };
                            if dyn_pair {
                                crate::contact::shapes_touch_ex(
                                    &ca.shape,
                                    ba.pos,
                                    ba.rot,
                                    &cb.shape,
                                    bb.pos,
                                    bb.rot,
                                )
                            } else {
                                false
                            }
                        },
                        _ => false,
                    }
                };
                proof {
                    assert(inner_events(w1, a as int, bidx as int) == (if pair_touching(
                        w1,
                        a as int,
                        bidx as int,
                    ) {
                        seq![event_at(w1, a as int, bidx as int)]
                    } else {
                        Seq::empty()
                    }) + inner_events(w1, a as int, bidx as int + 1));
                    assert(touching == pair_touching(w1, a as int, bidx as int));
                }
                if touching {
                    let ga = self.colliders.slots[a].gen;
                    let gb = self.colliders.slots[bidx].gen;
                    let ev = ContactEvent {
                        a: Id { index: a, gen: ga },
                        b: Id { index: bidx, gen: gb },
                    };
                    let mag: i64 = {
                        let ca_parent = match &self.colliders.slots[a].val {
                            Some(c) => c.parent,
                            None => {
                                proof {
                                    assert(false);
                                }
                                unreached()
                            },
                        };
                        let cb_parent = match &self.colliders.slots[bidx].val {
                            Some(c) => c.parent,
                            None => {
                                proof {
                                    assert(false);
                                }
                                unreached()
                            },
                        };
                        let ba = match self.bodies.get(ca_parent) {
                            Some(x) => *x,
                            None => {
                                proof {
                                    assert(false);
                                }
                                unreached()
                            },
                        };
                        let bb = match self.bodies.get(cb_parent) {
                            Some(x) => *x,
                            None => {
                                proof {
                                    assert(false);
                                }
                                unreached()
                            },
                        };
                        ba.linvel.sub(bb.linvel).length()
                    };
                    proof {
                        assert(ev == event_at(w1, a as int, bidx as int));
                    }
                    let ghost ev_old = events@;
                    events.push(ev);
                    forces.push(ForceEvent { a: ev.a, b: ev.b, magnitude: mag });
                    proof {
                        assert(events@ =~= ev_old + seq![event_at(w1, a as int, bidx as int)]);
                        assert(ev_old + inner_events(w1, a as int, bidx as int) + outer_events(
                            w1,
                            a as int + 1,
                        ) =~= events@ + inner_events(w1, a as int, bidx as int + 1) + outer_events(
                            w1,
                            a as int + 1,
                        ));
                        assert(forces@.last() == force_of(w1, events@.last()));
                    }
                } else {
                    proof {
                        assert(events@ + inner_events(w1, a as int, bidx as int) + outer_events(
                            w1,
                            a as int + 1,
                        ) =~= events@ + inner_events(w1, a as int, bidx as int + 1) + outer_events(
                            w1,
                            a as int + 1,
                        ));
                    }
                }
                bidx += 1;
            }
            proof {
                assert(inner_events(w1, a as int, m as int) =~= Seq::<ContactEvent>::empty());
                assert(events@ + inner_events(w1, a as int, m as int) + outer_events(
                    w1,
                    a as int + 1,
                ) =~= events@ + outer_events(w1, a as int + 1));
            }
            a += 1;
        }
        proof {
            assert(outer_events(w1, m as int) =~= Seq::<ContactEvent>::empty());
            assert(events@ + outer_events(w1, m as int) =~= events@);
            assert(events@ == contact_events_seq(w1));
            assert forall|h: EntityHandle|
                w0.handle_live(h) == #[trigger] self.handle_live(h) by {
                if (h.body.index as int) < w0.bodies.slots@.len() {
                    assert(self.bodies.slots@[h.body.index as int].gen
                        == w0.bodies.slots@[h.body.index as int].gen);
                }
            }
            assert forall|h: EntityHandle|
                w0.handle_stale(h) == #[trigger] self.handle_stale(h) by {
                if (h.body.index as int) < w0.bodies.slots@.len() {
                    assert(self.bodies.slots@[h.body.index as int].gen
                        == w0.bodies.slots@[h.body.index as int].gen);
                }
            }
        }
        (events, forces)
    }
}

/// A touching pair appears in the inner enumeration that starts at or
/// before it.
proof fn lemma_inner_member(w: PhysicsWorld, i: int, lo: int, j: int)
    requires
        0 <= lo <= j < w.colliders.slots@.len(),
        pair_touching(w, i, j),
    ensures
        inner_events(w, i, lo).contains(event_at(w, i, j)),
    decreases j - lo,
{
    let head: Seq<ContactEvent> = if pair_touching(w, i, lo) {
        seq![event_at(w, i, lo)]
    } else {
        Seq::empty()
    };
    let rest = inner_events(w, i, lo + 1);
    assert(inner_events(w, i, lo) == head + rest);
    if lo == j {
        assert((head + rest)[0] == event_at(w, i, j));
        assert(inner_events(w, i, lo).contains(event_at(w, i, j)));
    } else {
        lemma_inner_member(w, i, lo + 1, j);
        let k = choose|k: int| 0 <= k < rest.len() && rest[k] == event_at(w, i, j);
        assert((head + rest)[head.len() + k] == event_at(w, i, j));
        assert(inner_events(w, i, lo).contains(event_at(w, i, j)));
    }
}

/// Exhaustiveness: every touching pair of present colliders is reported
/// in this tick's contact events.
pub proof fn lemma_contact_events_exhaustive(w: PhysicsWorld, i: int, j: int)
    requires
        0 <= i < j < w.colliders.slots@.len(),
        pair_touching(w, i, j),
    ensures
        contact_events_seq(w).contains(event_at(w, i, j)),
{
    lemma_outer_member(w, 0, i, j);
}

proof fn lemma_outer_member(w: PhysicsWorld, lo: int, i: int, j: int)
    requires
        0 <= lo <= i < j < w.colliders.slots@.len(),
        pair_touching(w, i, j),
    ensures
        outer_events(w, lo).contains(event_at(w, i, j)),
    decreases i - lo,
{
    let head = inner_events(w, lo, lo + 1);
    let rest = outer_events(w, lo + 1);
    assert(outer_events(w, lo) == head + rest);
    if lo == i {
        lemma_inner_member(w, i, i + 1, j);
        let k = choose|k: int| 0 <= k < head.len() && head[k] == event_at(w, i, j);
        assert((head + rest)[k] == event_at(w, i, j));
        assert(outer_events(w, lo).contains(event_at(w, i, j)));
    } else {
        lemma_outer_member(w, lo + 1, i, j);
        let k = choose|k: int| 0 <= k < rest.len() && rest[k] == event_at(w, i, j);
        assert((head + rest)[head.len() + k] == event_at(w, i, j));
        assert(outer_events(w, lo).contains(event_at(w, i, j)));
    }
}

proof fn lemma_inner_sound(w: PhysicsWorld, i: int, lo: int, k: int)
    requires
        0 <= k < inner_events(w, i, lo).len(),
    ensures
        exists|j: int|
            lo <= j < w.colliders.slots@.len() && #[trigger] pair_touching(w, i, j)
                && inner_events(w, i, lo)[k] == event_at(w, i, j),
    decreases w.colliders.slots@.len() - lo,
{
    let head: Seq<ContactEvent> = if pair_touching(w, i, lo) {
        seq![event_at(w, i, lo)]
    } else {
        Seq::empty()
    };
    let rest = inner_events(w, i, lo + 1);
    assert(inner_events(w, i, lo) == head + rest);
    if k < head.len() {
        assert(pair_touching(w, i, lo) && inner_events(w, i, lo)[k] == event_at(w, i, lo));
    } else {
        lemma_inner_sound(w, i, lo + 1, k - head.len());
        let j = choose|j: int|
            lo + 1 <= j < w.colliders.slots@.len() && #[trigger] pair_touching(w, i, j)
                && rest[k - head.len()] == event_at(w, i, j);
        assert(pair_touching(w, i, j) && inner_events(w, i, lo)[k] == event_at(w, i, j));
    }
}

/// Soundness: every reported contact event names a touching pair of
/// present colliders, in slot order.
pub proof fn lemma_contact_events_sound(w: PhysicsWorld, k: int)
    requires
        0 <= k < contact_events_seq(w).len(),
    ensures
        exists|i: int, j: int|
            0 <= i < j < w.colliders.slots@.len() && #[trigger] pair_touching(w, i, j)
                && contact_events_seq(w)[k] == event_at(w, i, j),
{
    lemma_outer_sound(w, 0, k);
    let (i, j) = choose|i: int, j: int|
        0 <= i && i < j < w.colliders.slots@.len() && #[trigger] pair_touching(w, i, j)
            && outer_events(w, 0)[k] == event_at(w, i, j);
    assert(pair_touching(w, i, j) && contact_events_seq(w)[k] == event_at(w, i, j));
}

proof fn lemma_outer_sound(w: PhysicsWorld, lo: int, k: int)
    requires
        lo >= 0,
        0 <= k < outer_events(w, lo).len(),
    ensures
        exists|i: int, j: int|
            lo <= i && i < j < w.colliders.slots@.len() && #[trigger] pair_touching(w, i, j)
                && outer_events(w, lo)[k] == event_at(w, i, j),
    decreases w.colliders.slots@.len() - lo,
{
    let head = inner_events(w, lo, lo + 1);
    let rest = outer_events(w, lo + 1);
    assert(outer_events(w, lo) == head + rest);
    if k < head.len() {
        lemma_inner_sound(w, lo, lo + 1, k);
        let j = choose|j: int|
            lo + 1 <= j < w.colliders.slots@.len() && #[trigger] pair_touching(w, lo, j) && head[k]
                == event_at(w, lo, j);
        assert(pair_touching(w, lo, j) && outer_events(w, lo)[k] == event_at(w, lo, j));
    } else {
        lemma_outer_sound(w, lo + 1, k - head.len());
        let (i, j) = choose|i: int, j: int|
            lo + 1 <= i && i < j < w.colliders.slots@.len() && #[trigger] pair_touching(w, i, j)
                && rest[k - head.len()] == event_at(w, i, j);
        assert(pair_touching(w, i, j) && outer_events(w, lo)[k] == event_at(w, i, j));
    }
}

/// Integrating every body preserves world well-formedness.
proof fn lemma_wf_after_integration(w0: PhysicsWorld, w1: PhysicsWorld)
    requires
        w0.wf(),
        w1.bodies.slots@.len() == w0.bodies.slots@.len(),
        forall|k: int|
            0 <= k < w0.bodies.slots@.len() ==> (#[trigger] w1.bodies.slots@[k]).gen
                == w0.bodies.slots@[k].gen && w1.bodies.slots@[k].val == match w0.bodies.slots@[k].val {
                Some(b) => Some(integrate_body(b, w0.gravity, w0.dt as int)),
                None => None::<RigidBody>,
            },
        w1.colliders == w0.colliders,
        w1.gravity == w0.gravity,
        w1.dt == w0.dt,
    ensures
        w1.wf(),
{
    assert forall|i: int|
        0 <= i < w1.bodies.slots@.len() && (#[trigger] w1.bodies.slots@[i]).val
            is Some implies w1.bodies.slots@[i].val->Some_0.wf() by {
        assert(w0.bodies.slots@[i].val is Some);
        let b = w0.bodies.slots@[i].val->Some_0;
        assert(b.wf());
        lemma_integrate_wf(b, w0.gravity, w0.dt as int);
    }
    assert forall|i: int|
        0 <= i < w1.colliders.slots@.len() && (#[trigger] w1.colliders.slots@[i]).val
            is Some implies {
        let c = w1.colliders.slots@[i].val->Some_0;
        &&& c.wf()
        &&& w1.bodies.live(c.parent)
        &&& w1.bodies.get_spec(c.parent).mass == mass_spec(c.density, c.shape)
    } by {
        let c = w0.colliders.slots@[i].val->Some_0;
        assert(w0.bodies.live(c.parent));
        assert(w1.bodies.slots@[c.parent.index as int].gen
            == w0.bodies.slots@[c.parent.index as int].gen);
    }
}

/// Integration keeps a body well-formed and fixes mass, mobility, role.
proof fn lemma_integrate_wf(b: RigidBody, g: Vec2, dt: int)
    requires
        b.wf(),
    ensures
        integrate_body(b, g, dt).wf(),
        integrate_body(b, g, dt).mass == b.mass,
        integrate_body(b, g, dt).mobility == b.mobility,
        integrate_body(b, g, dt).role == b.role,
        integrate_body(b, g, dt).rot == b.rot,
{
}

} // verus!
