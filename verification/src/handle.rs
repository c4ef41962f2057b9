//! Queries and mutators on an [`EntityHandle`].
//!
//! All reads are pure given a live handle; every operation on a handle
//! whose body or shape has been removed reports
//! [`SimError::InvalidHandle`] and leaves the world untouched — a stale
//! handle never aliases a reused arena slot.
//!
//! The impulse mutators queue momentum changes that the next
//! [`PhysicsWorld::step`] consumes; the velocity and pose setters take
//! effect immediately.

use vstd::prelude::*;

use crate::arena::{Id, Slot};
use crate::body::{RigidBody, MAX_COORD, MAX_PENDING, MAX_VEL};
use crate::num::{clip, clip_i128, SCALE};
use crate::physics::{EntityHandle, PhysicsWorld};
use crate::shape::{PrimShape, Shape};
use crate::vec2::{Rot, Vec2};
use crate::SimError;

verus! {

/// `b` with the impulse `v` added to its queued momentum change, clamped
/// to the pending bound.
pub open spec fn queue_impulse(b: RigidBody, v: Vec2) -> RigidBody {
    RigidBody {
        pending_impulse: Vec2 {
            x: clip(b.pending_impulse.x + v.x, MAX_PENDING as int) as i64,
            y: clip(b.pending_impulse.y + v.y, MAX_PENDING as int) as i64,
        },
        ..b
    }
}

/// `b` with the torque impulse `t` added to its queued angular momentum
/// change, clamped to the pending bound.
pub open spec fn queue_torque(b: RigidBody, t: i64) -> RigidBody {
    RigidBody { pending_torque: clip(b.pending_torque + t, MAX_PENDING as int) as i64, ..b }
}

/// `b` with its linear velocity set to `v`, clamped to the world bound.
pub open spec fn with_linvel(b: RigidBody, v: Vec2) -> RigidBody {
    RigidBody {
        linvel: Vec2 {
            x: clip(v.x as int, MAX_VEL as int) as i64,
            y: clip(v.y as int, MAX_VEL as int) as i64,
        },
        ..b
    }
}

/// `b` with its angular velocity set to `w`, clamped to the world bound.
pub open spec fn with_angvel(b: RigidBody, w: i64) -> RigidBody {
    RigidBody { angvel: clip(w as int, MAX_VEL as int) as i64, ..b }
}

/// `b` moved to `p`, clamped to the world bound.
pub open spec fn with_pos(b: RigidBody, p: Vec2) -> RigidBody {
    RigidBody {
        pos: Vec2 {
            x: clip(p.x as int, MAX_COORD as int) as i64,
            y: clip(p.y as int, MAX_COORD as int) as i64,
        },
        ..b
    }
}

/// `b` rotated to `r`, each component clamped to one fixed-point unit.
pub open spec fn with_rot(b: RigidBody, r: Rot) -> RigidBody {
    RigidBody {
        rot: Rot {
            c: clip(r.c as int, SCALE as int) as i64,
            s: clip(r.s as int, SCALE as int) as i64,
        },
        ..b
    }
}

/// Replacing a live body with a well-formed body of the same mass keeps
/// the whole world well-formed.
pub proof fn lemma_wf_after_body_update(w0: PhysicsWorld, w1: PhysicsWorld, id: Id, nb: RigidBody)
    requires
        w0.wf(),
        w0.bodies.live(id),
        nb.wf(),
        nb.mass == w0.bodies.get_spec(id).mass,
        w1.bodies.slots@ == w0.bodies.slots@.update(
            id.index as int,
            Slot { gen: id.gen, val: Some(nb) },
        ),
        w1.colliders == w0.colliders,
        w1.gravity == w0.gravity,
        w1.dt == w0.dt,
    ensures
        w1.wf(),
        forall|h: EntityHandle| w0.handle_live(h) == #[trigger] w1.handle_live(h),
        forall|h: EntityHandle| w0.handle_stale(h) == #[trigger] w1.handle_stale(h),
{
    assert forall|i: int|
        0 <= i < w1.bodies.slots@.len() && (#[trigger] w1.bodies.slots@[i]).val
            is Some implies w1.bodies.slots@[i].val->Some_0.wf() by {
        if i != id.index as int {
            assert(w1.bodies.slots@[i] == w0.bodies.slots@[i]);
        }
    }
    assert forall|i: int|
        0 <= i < w1.colliders.slots@.len() && (#[trigger] w1.colliders.slots@[i]).val
            is Some implies {
        let cc = w1.colliders.slots@[i].val->Some_0;
        &&& cc.wf()
        &&& w1.bodies.live(cc.parent)
        &&& w1.bodies.get_spec(cc.parent).mass == crate::body::mass_spec(cc.density, cc.shape)
    } by {
        assert(w1.colliders.slots@[i] == w0.colliders.slots@[i]);
        let cc = w0.colliders.slots@[i].val->Some_0;
        assert(w0.bodies.live(cc.parent));
        if cc.parent.index == id.index {
            assert(cc.parent.gen == id.gen);
        }
    }
    assert forall|h: EntityHandle| w0.handle_live(h) == #[trigger] w1.handle_live(h) by {
        if h.body.index == id.index {
        }
    }
    assert forall|h: EntityHandle| w0.handle_stale(h) == #[trigger] w1.handle_stale(h) by {
        if h.body.index == id.index {
        }
    }
}

impl EntityHandle {
    /// Whether the handle is live in the given world.
    pub fn live_in(&self, w: &PhysicsWorld) -> (r: bool)
        ensures
            r == w.handle_live(*self),
    {
        match w.colliders.get(self.shape) {
            Some(c) => c.parent == self.body && w.bodies.contains(self.body),
            None => false,
        }
    }

    /// The body's position.
    pub fn get_pos(&self, w: &PhysicsWorld) -> (r: Result<Vec2, SimError>)
        ensures
            r == if w.handle_live(*self) {
                Ok::<Vec2, SimError>(w.body_of(*self).pos)
            } else {
                Err::<Vec2, SimError>(SimError::InvalidHandle)
            },
    {
        if self.live_in(w) {
            match w.bodies.get(self.body) {
                Some(b) => Ok(b.pos),
                None => Err(SimError::InvalidHandle),
            }
        } else {
            Err(SimError::InvalidHandle)
        }
    }

    /// The body's linear velocity.
    pub fn get_linvel(&self, w: &PhysicsWorld) -> (r: Result<Vec2, SimError>)
        ensures
            r == if w.handle_live(*self) {
                Ok::<Vec2, SimError>(w.body_of(*self).linvel)
            } else {
                Err::<Vec2, SimError>(SimError::InvalidHandle)
            },
    {
        if self.live_in(w) {
            match w.bodies.get(self.body) {
                Some(b) => Ok(b.linvel),
                None => Err(SimError::InvalidHandle),
            }
        } else {
            Err(SimError::InvalidHandle)
        }
    }

    /// The body's linear velocity (alias used by render collaborators).
    pub fn get_vel(&self, w: &PhysicsWorld) -> (r: Result<Vec2, SimError>)
        ensures
            r == if w.handle_live(*self) {
                Ok::<Vec2, SimError>(w.body_of(*self).linvel)
            } else {
                Err::<Vec2, SimError>(SimError::InvalidHandle)
            },
    {
        self.get_linvel(w)
    }

    /// The body's angular velocity.
    pub fn get_angvel(&self, w: &PhysicsWorld) -> (r: Result<i64, SimError>)
        ensures
            r == if w.handle_live(*self) {
                Ok::<i64, SimError>(w.body_of(*self).angvel)
            } else {
                Err::<i64, SimError>(SimError::InvalidHandle)
            },
    {
        if self.live_in(w) {
            match w.bodies.get(self.body) {
                Some(b) => Ok(b.angvel),
                None => Err(SimError::InvalidHandle),
            }
        } else {
            Err(SimError::InvalidHandle)
        }
    }

    /// The body's mass under the fixed-point mass model.
    pub fn get_mass(&self, w: &PhysicsWorld) -> (r: Result<i64, SimError>)
        ensures
            r == if w.handle_live(*self) {
                Ok::<i64, SimError>(w.body_of(*self).mass)
            } else {
                Err::<i64, SimError>(SimError::InvalidHandle)
            },
    {
        if self.live_in(w) {
            match w.bodies.get(self.body) {
                Some(b) => Ok(b.mass),
                None => Err(SimError::InvalidHandle),
            }
        } else {
            Err(SimError::InvalidHandle)
        }
    }

    /// The body's centre of mass; in this model it is the body origin.
    pub fn get_center_of_mass(&self, w: &PhysicsWorld) -> (r: Result<Vec2, SimError>)
        ensures
            r == if w.handle_live(*self) {
                Ok::<Vec2, SimError>(w.body_of(*self).pos)
            } else {
                Err::<Vec2, SimError>(SimError::InvalidHandle)
            },
    {
        self.get_pos(w)
    }

    /// The body's rotation, as its fixed-point cosine/sine pair.
    pub fn get_rotation(&self, w: &PhysicsWorld) -> (r: Result<Rot, SimError>)
        ensures
            r == if w.handle_live(*self) {
                Ok::<Rot, SimError>(w.body_of(*self).rot)
            } else {
                Err::<Rot, SimError>(SimError::InvalidHandle)
            },
    {
        if self.live_in(w) {
            match w.bodies.get(self.body) {
                Some(b) => Ok(b.rot),
                None => Err(SimError::InvalidHandle),
            }
        } else {
            Err(SimError::InvalidHandle)
        }
    }

    /// A disc containing the whole shape: the body position together with
    /// the shape's bounding radius.  Used for visibility culling.
    pub fn get_bounding_sphere(&self, w: &PhysicsWorld) -> (r: Result<(Vec2, i64), SimError>)
        requires
            w.wf(),
        ensures
            r == if w.handle_live(*self) {
                Ok::<(Vec2, i64), SimError>(
                    (w.body_of(*self).pos, w.collider_of(*self).shape.bound_radius() as i64),
                )
            } else {
                Err::<(Vec2, i64), SimError>(SimError::InvalidHandle)
            },
    {
        if self.live_in(w) {
            let pos = match w.bodies.get(self.body) {
                Some(b) => b.pos,
                None => {
                    return Err(SimError::InvalidHandle);
                },
            };
            match w.colliders.get(self.shape) {
                Some(c) => {
                    proof {
                        assert(w.colliders.slots@[self.shape.index as int].val is Some);
                    }
                    Ok((pos, c.shape.bound_radius_ex()))
                },
                None => Err(SimError::InvalidHandle),
            }
        } else {
            Err(SimError::InvalidHandle)
        }
    }

    /// The body's pose together with a borrow of its shape, for drawing
    /// and spatial queries.
    pub fn pose_and_shape<'a>(&self, w: &'a PhysicsWorld) -> (r: Result<
        (Vec2, Rot, &'a Shape),
        SimError,
    >)
        ensures
            w.handle_live(*self) ==> match r {
                Ok(t) => t.0 == w.body_of(*self).pos && t.1 == w.body_of(*self).rot && *t.2
                    == w.collider_of(*self).shape,
                Err(_) => false,
            },
            !w.handle_live(*self) ==> r is Err,
    {
        if self.live_in(w) {
            let (pos, rot) = match w.bodies.get(self.body) {
                Some(b) => (b.pos, b.rot),
                None => {
                    return Err(SimError::InvalidHandle);
                },
            };
            match w.colliders.get(self.shape) {
                Some(c) => Ok((pos, rot, &c.shape)),
                None => Err(SimError::InvalidHandle),
            }
        } else {
            Err(SimError::InvalidHandle)
        }
    }

    /// The shape decomposed into primitives at world positions, for
    /// drawing and queries.
    ///
    /// A compound reports one entry per sub-shape, at the parent position
    /// plus the local offset carried through the parent rotation; a
    /// primitive reports itself at the body position.
    pub fn decompose(&self, w: &PhysicsWorld) -> (r: Result<Vec<(Vec2, PrimShape)>, SimError>)
        requires
            w.wf(),
        ensures
            !w.handle_live(*self) ==> r == Err::<Vec<(Vec2, PrimShape)>, SimError>(
                SimError::InvalidHandle,
            ),
            w.handle_live(*self) ==> match r {
                Ok(v) => {
                    let b = w.body_of(*self);
                    match w.collider_of(*self).shape {
                        Shape::Compound { children } => v@.len() == children@.len() && forall|
                            k: int,
                        |
                            0 <= k < children@.len() ==> #[trigger] v@[k] == (
                            crate::contact::child_world(
                                b.pos,
                                b.rot,
                                children@[k].offset,
                            ), children@[k].shape),
                        _ => v@.len() == 1 && v@[0] == (
                        b.pos,
                        w.collider_of(*self).shape.as_prim_spec(),
                        ),
                    }
                },
                Err(_) => false,
            },
    {
        if !self.live_in(w) {
            return Err(SimError::InvalidHandle);
        }
        let b: RigidBody = match w.bodies.get(self.body) {
            Some(b) => *b,
            None => {
                return Err(SimError::InvalidHandle);
            },
        };
        let c = match w.colliders.get(self.shape) {
            Some(c) => c,
            None => {
                return Err(SimError::InvalidHandle);
            },
        };
        proof {
            assert(w.bodies.slots@[self.body.index as int].val is Some);
            assert(w.colliders.slots@[self.shape.index as int].val is Some);
        }
        let mut out: Vec<(Vec2, PrimShape)> = Vec::new();
        match &c.shape {
            Shape::Compound { children } => {
                let n = children.len();
                let mut k: usize = 0;
                while k < n
                    invariant
                        n == children@.len(),
                        k <= n,
                        b.wf(),
                        c.shape.wf(),
                        c.shape == (Shape::Compound { children: *children }),
                        out@.len() == k,
                        forall|j: int|
                            0 <= j < k ==> #[trigger] out@[j] == (crate::contact::child_world(
                                b.pos,
                                b.rot,
                                children@[j].offset,
                            ), children@[j].shape),
                    decreases n - k,
                {
                    let child = &children[k];
                    let cw = crate::contact::child_world_ex(b.pos, b.rot, child.offset);
                    out.push((cw, child.shape));
                    k += 1;
                }
            },
            _ => {
                let p = c.shape.as_prim();
                out.push((b.pos, p));
            },
        }
        Ok(out)
    }

    /// Queue a linear impulse, to be consumed by the next step.
    pub fn add_linvel(&self, v: Vec2, w: &mut PhysicsWorld) -> (r: Result<(), SimError>)
        requires
            old(w).wf(),
        ensures
            final(w).wf(),
            old(w).handle_live(*self) ==> r is Ok && final(w).bodies.slots@ == old(
                w,
            ).bodies.slots@.update(
                self.body.index as int,
                Slot { gen: self.body.gen, val: Some(queue_impulse(old(w).body_of(*self), v)) },
            ),
            !old(w).handle_live(*self) ==> r is Err && *final(w) == *old(w),
            final(w).colliders == old(w).colliders,
            final(w).gravity == old(w).gravity,
            final(w).dt == old(w).dt,
            forall|h: EntityHandle| old(w).handle_live(h) == #[trigger] final(w).handle_live(h),
            forall|h: EntityHandle| old(w).handle_stale(h) == #[trigger] final(w).handle_stale(h),
    {
        if !self.live_in(w) {
            return Err(SimError::InvalidHandle);
        }
        let b = match w.bodies.get(self.body) {
            Some(b) => *b,
            None => {
                return Err(SimError::InvalidHandle);
            },
        };
        let nb = RigidBody {
            pending_impulse: Vec2 {
                x: clip_i128(b.pending_impulse.x as i128 + v.x as i128, MAX_PENDING),
                y: clip_i128(b.pending_impulse.y as i128 + v.y as i128, MAX_PENDING),
            },
            ..b
        };
        let ghost w0 = *w;
        w.bodies.update(self.body, nb);
        proof {
            lemma_wf_after_body_update(w0, *w, self.body, nb);
        }
        Ok(())
    }

    /// Queue an angular (torque) impulse, consumed by the next step.
    pub fn add_angvel(&self, t: i64, w: &mut PhysicsWorld) -> (r: Result<(), SimError>)
        requires
            old(w).wf(),
        ensures
            final(w).wf(),
            old(w).handle_live(*self) ==> r is Ok && final(w).bodies.slots@ == old(
                w,
            ).bodies.slots@.update(
                self.body.index as int,
                Slot { gen: self.body.gen, val: Some(queue_torque(old(w).body_of(*self), t)) },
            ),
            !old(w).handle_live(*self) ==> r is Err && *final(w) == *old(w),
            final(w).colliders == old(w).colliders,
            final(w).gravity == old(w).gravity,
            final(w).dt == old(w).dt,
            forall|h: EntityHandle| old(w).handle_live(h) == #[trigger] final(w).handle_live(h),
    {
        if !self.live_in(w) {
            return Err(SimError::InvalidHandle);
        }
        let b = match w.bodies.get(self.body) {
            Some(b) => *b,
            None => {
                return Err(SimError::InvalidHandle);
            },
        };
        let nb = RigidBody {
            pending_torque: clip_i128(b.pending_torque as i128 + t as i128, MAX_PENDING),
            ..b
        };
        let ghost w0 = *w;
        w.bodies.update(self.body, nb);
        proof {
            lemma_wf_after_body_update(w0, *w, self.body, nb);
        }
        Ok(())
    }

    /// Set the linear velocity, clamped to the world bound.
    pub fn set_linvel(&self, v: Vec2, w: &mut PhysicsWorld) -> (r: Result<(), SimError>)
        requires
            old(w).wf(),
        ensures
            final(w).wf(),
            old(w).handle_live(*self) ==> r is Ok && final(w).bodies.slots@ == old(
                w,
            ).bodies.slots@.update(
                self.body.index as int,
                Slot { gen: self.body.gen, val: Some(with_linvel(old(w).body_of(*self), v)) },
            ),
            !old(w).handle_live(*self) ==> r is Err && *final(w) == *old(w),
            final(w).colliders == old(w).colliders,
            final(w).gravity == old(w).gravity,
            final(w).dt == old(w).dt,
            forall|h: EntityHandle| old(w).handle_live(h) == #[trigger] final(w).handle_live(h),
    {
        if !self.live_in(w) {
            return Err(SimError::InvalidHandle);
        }
        let b = match w.bodies.get(self.body) {
            Some(b) => *b,
            None => {
                return Err(SimError::InvalidHandle);
            },
        };
        let nb = RigidBody {
            linvel: Vec2 {
                x: clip_i128(v.x as i128, MAX_VEL),
                y: clip_i128(v.y as i128, MAX_VEL),
            },
            ..b
        };
        let ghost w0 = *w;
        w.bodies.update(self.body, nb);
        proof {
            lemma_wf_after_body_update(w0, *w, self.body, nb);
        }
        Ok(())
    }

    /// Set the angular velocity, clamped to the world bound.
    pub fn set_angvel(&self, av: i64, w: &mut PhysicsWorld) -> (r: Result<(), SimError>)
        requires
            old(w).wf(),
        ensures
            final(w).wf(),
            old(w).handle_live(*self) ==> r is Ok && final(w).bodies.slots@ == old(
                w,
            ).bodies.slots@.update(
                self.body.index as int,
                Slot { gen: self.body.gen, val: Some(with_angvel(old(w).body_of(*self), av)) },
            ),
            !old(w).handle_live(*self) ==> r is Err && *final(w) == *old(w),
            final(w).colliders == old(w).colliders,
            final(w).gravity == old(w).gravity,
            final(w).dt == old(w).dt,
            forall|h: EntityHandle| old(w).handle_live(h) == #[trigger] final(w).handle_live(h),
    {
        if !self.live_in(w) {
            return Err(SimError::InvalidHandle);
        }
        let b = match w.bodies.get(self.body) {
            Some(b) => *b,
            None => {
                return Err(SimError::InvalidHandle);
            },
        };
        let nb = RigidBody { angvel: clip_i128(av as i128, MAX_VEL), ..b };
        let ghost w0 = *w;
        w.bodies.update(self.body, nb);
        proof {
            lemma_wf_after_body_update(w0, *w, self.body, nb);
        }
        Ok(())
    }

    /// Teleport the body, clamped to the world bound.
    pub fn set_pos(&self, p: Vec2, w: &mut PhysicsWorld) -> (r: Result<(), SimError>)
        requires
            old(w).wf(),
        ensures
            final(w).wf(),
            old(w).handle_live(*self) ==> r is Ok && final(w).bodies.slots@ == old(
                w,
            ).bodies.slots@.update(
                self.body.index as int,
                Slot { gen: self.body.gen, val: Some(with_pos(old(w).body_of(*self), p)) },
            ),
            !old(w).handle_live(*self) ==> r is Err && *final(w) == *old(w),
            final(w).colliders == old(w).colliders,
            final(w).gravity == old(w).gravity,
            final(w).dt == old(w).dt,
            forall|h: EntityHandle| old(w).handle_live(h) == #[trigger] final(w).handle_live(h),
    {
        if !self.live_in(w) {
            return Err(SimError::InvalidHandle);
        }
        let b = match w.bodies.get(self.body) {
            Some(b) => *b,
            None => {
                return Err(SimError::InvalidHandle);
            },
        };
        let nb = RigidBody {
            pos: Vec2 { x: clip_i128(p.x as i128, MAX_COORD), y: clip_i128(p.y as i128, MAX_COORD) },
            ..b
        };
        let ghost w0 = *w;
        w.bodies.update(self.body, nb);
        proof {
            lemma_wf_after_body_update(w0, *w, self.body, nb);
        }
        Ok(())
    }

    /// Set the body's rotation, components clamped to one unit.
    pub fn set_rotation(&self, rot: Rot, w: &mut PhysicsWorld) -> (r: Result<(), SimError>)
        requires
            old(w).wf(),
        ensures
            final(w).wf(),
            old(w).handle_live(*self) ==> r is Ok && final(w).bodies.slots@ == old(
                w,
            ).bodies.slots@.update(
                self.body.index as int,
                Slot { gen: self.body.gen, val: Some(with_rot(old(w).body_of(*self), rot)) },
            ),
            !old(w).handle_live(*self) ==> r is Err && *final(w) == *old(w),
            final(w).colliders == old(w).colliders,
            final(w).gravity == old(w).gravity,
            final(w).dt == old(w).dt,
            forall|h: EntityHandle| old(w).handle_live(h) == #[trigger] final(w).handle_live(h),
    {
        if !self.live_in(w) {
            return Err(SimError::InvalidHandle);
        }
        let b = match w.bodies.get(self.body) {
            Some(b) => *b,
            None => {
                return Err(SimError::InvalidHandle);
            },
        };
        let nb = RigidBody {
            rot: Rot { c: clip_i128(rot.c as i128, SCALE), s: clip_i128(rot.s as i128, SCALE) },
            ..b
        };
        let ghost w0 = *w;
        w.bodies.update(self.body, nb);
        proof {
            lemma_wf_after_body_update(w0, *w, self.body, nb);
        }
        Ok(())
    }
}

} // verus!
