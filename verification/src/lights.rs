//! Lights and the bounded light registry.
//!
//! Lights are pure data here: positions, colours and radii in fixed
//! point.  The registry is the system's one bounded resource — it refuses
//! a new registration once its identifier supply is exhausted, and the
//! caller must check the result rather than assume success.  Shader
//! value marshaling is an external collaborator's concern.

use std::collections::HashMap;
use vstd::prelude::*;

use crate::vec2::Vec2;
use crate::SimError;

verus! {

broadcast use vstd::std_specs::hash::group_hash_axioms;

/// Most light registrations the registry ever accepts.
pub const MAX_LIGHTS: u32 = 400;

/// A fixed-point RGBA colour (one unit is `num::SCALE`).
#[derive(Clone, Copy, Debug, PartialEq, Eq, Structural)]
pub struct ColorRgba {
    pub r: i64,
    pub g: i64,
    pub b: i64,
    pub a: i64,
}

/// A light source: radial, ambient, or cone.
#[derive(Clone, Copy, Debug, PartialEq, Eq, Structural)]
pub enum Light {
    Radial { pos: Vec2, color: ColorRgba, radius: i64 },
    Ambient { color: ColorRgba },
    Cone { pos: Vec2, color: ColorRgba, radius: i64, rotation: i64, angle: i64 },
}

impl Light {
    /// Move a positioned light; ambient lights have no position.
    pub fn set_pos(&mut self, world_pos: Vec2)
        ensures
            *final(self) == match *old(self) {
                Light::Radial { pos, color, radius } => Light::Radial {
                    pos: world_pos,
                    color,
                    radius,
                },
                Light::Cone { pos, color, radius, rotation, angle } => Light::Cone {
                    pos: world_pos,
                    color,
                    radius,
                    rotation,
                    angle,
                },
                Light::Ambient { color } => Light::Ambient { color },
            },
    {
        match self {
            Light::Radial { pos, .. } => *pos = world_pos,
            Light::Cone { pos, .. } => *pos = world_pos,
            Light::Ambient { .. } => (),
        }
    }

    /// Resize a positioned light; ambient lights have no radius.
    pub fn set_radius(&mut self, new_radius: i64)
        ensures
            *final(self) == match *old(self) {
                Light::Radial { pos, color, radius } => Light::Radial {
                    pos,
                    color,
                    radius: new_radius,
                },
                Light::Cone { pos, color, radius, rotation, angle } => Light::Cone {
                    pos,
                    color,
                    radius: new_radius,
                    rotation,
                    angle,
                },
                Light::Ambient { color } => Light::Ambient { color },
            },
    {
        match self {
            Light::Radial { radius, .. } => *radius = new_radius,
            Light::Cone { radius, .. } => *radius = new_radius,
            Light::Ambient { .. } => (),
        }
    }

    /// Rotate a cone light; other kinds have no rotation.
    pub fn set_rotation(&mut self, rot: i64)
        ensures
            *final(self) == match *old(self) {
                Light::Cone { pos, color, radius, rotation, angle } => Light::Cone {
                    pos,
                    color,
                    radius,
                    rotation: rot,
                    angle,
                },
                other => other,
            },
    {
        if let Light::Cone { rotation, .. } = self {
            *rotation = rot;
        }
    }

    /// Recolour any light.
    pub fn set_color(&mut self, new_color: ColorRgba)
        ensures
            *final(self) == match *old(self) {
                Light::Radial { pos, color, radius } => Light::Radial {
                    pos,
                    color: new_color,
                    radius,
                },
                Light::Cone { pos, color, radius, rotation, angle } => Light::Cone {
                    pos,
                    color: new_color,
                    radius,
                    rotation,
                    angle,
                },
                Light::Ambient { color } => Light::Ambient { color: new_color },
            },
    {
        match self {
            Light::Radial { color, .. } => *color = new_color,
            Light::Cone { color, .. } => *color = new_color,
            Light::Ambient { color } => *color = new_color,
        }
    }

    /// The light's colour.
    pub fn color(&self) -> (r: ColorRgba)
        ensures
            r == match *self {
                Light::Radial { pos, color, radius } => color,
                Light::Ambient { color } => color,
                Light::Cone { pos, color, radius, rotation, angle } => color,
            },
    {
        match self {
            Light::Radial { color, .. } => *color,
            Light::Ambient { color } => *color,
            Light::Cone { color, .. } => *color,
        }
    }

    /// The light's position; ambient lights report the origin.
    pub fn pos(&self) -> (r: Vec2)
        ensures
            r == match *self {
                Light::Radial { pos, color, radius } => pos,
                Light::Ambient { color } => Vec2 { x: 0i64, y: 0i64 },
                Light::Cone { pos, color, radius, rotation, angle } => pos,
            },
    {
        match self {
            Light::Radial { pos, .. } => *pos,
            Light::Ambient { .. } => Vec2 { x: 0, y: 0 },
            Light::Cone { pos, .. } => *pos,
        }
    }

    /// The light's radius; ambient lights report zero.
    pub fn radius(&self) -> (r: i64)
        ensures
            r == match *self {
                Light::Radial { pos, color, radius } => radius,
                Light::Ambient { color } => 0i64,
                Light::Cone { pos, color, radius, rotation, angle } => radius,
            },
    {
        match self {
            Light::Radial { radius, .. } => *radius,
            Light::Ambient { .. } => 0,
            Light::Cone { radius, .. } => *radius,
        }
    }

    /// A small integer naming the variant, for shader marshaling.
    pub fn light_type(&self) -> (r: i32)
        ensures
            r == match *self {
                Light::Radial { pos, color, radius } => 0i32,
                Light::Ambient { color } => 1i32,
                Light::Cone { pos, color, radius, rotation, angle } => 2i32,
            },
    {
        match self {
            Light::Radial { .. } => 0,
            Light::Ambient { .. } => 1,
            Light::Cone { .. } => 2,
        }
    }

    /// The cone rotation; other kinds report zero.
    pub fn rotation(&self) -> (r: i64)
        ensures
            r == match *self {
                Light::Cone { pos, color, radius, rotation, angle } => rotation,
                _ => 0i64,
            },
    {
        match self {
            Light::Cone { rotation, .. } => *rotation,
            _ => 0,
        }
    }

    /// The cone aperture; other kinds report zero.
    pub fn angle(&self) -> (r: i64)
        ensures
            r == match *self {
                Light::Cone { pos, color, radius, rotation, angle } => angle,
                _ => 0i64,
            },
    {
        match self {
            Light::Cone { angle, .. } => *angle,
            _ => 0,
        }
    }
}

/// A stable reference to a registered light.
#[derive(Clone, Copy, Debug, PartialEq, Eq, Hash, Structural)]
pub struct LightHandle(pub u32);

/// The bounded light registry.  Identifiers count up and are never
/// reissued, so the registry accepts at most `MAX_LIGHTS` registrations
/// over its lifetime and refuses the rest with `CapacityExceeded`.
pub struct LightRegistry {
    pub lights: HashMap<u32, Light>,
    pub next_id: u32,
}

impl LightRegistry {
    /// A registered handle always has an id below the issue counter.
    pub open spec fn wf(self) -> bool {
        &&& self.next_id <= MAX_LIGHTS
        &&& forall|k: u32| self.lights@.contains_key(k) ==> k < self.next_id
    }

    pub fn new() -> (r: LightRegistry)
        ensures
            r.wf(),
            r.lights@ == Map::<u32, Light>::empty(),
            r.next_id == 0u32,
    {
        let m: HashMap<u32, Light> = HashMap::new();
        LightRegistry { lights: m, next_id: 0 }
    }

    /// Register a light.  Succeeds exactly while identifiers remain, and
    /// then hands out the next one; the caller must check the result.
    pub fn spawn_light(&mut self, light: Light) -> (r: Result<LightHandle, SimError>)
        requires
            old(self).wf(),
        ensures
            final(self).wf(),
            old(self).next_id < MAX_LIGHTS ==> r == Ok::<LightHandle, SimError>(
                LightHandle(old(self).next_id),
            ) && final(self).lights@ == old(self).lights@.insert(old(self).next_id, light)
                && final(self).next_id == old(self).next_id + 1,
            old(self).next_id >= MAX_LIGHTS ==> r == Err::<LightHandle, SimError>(
                SimError::CapacityExceeded,
            ) && *final(self) == *old(self),
    {
        if self.next_id < MAX_LIGHTS {
            let id = self.next_id;
            self.lights.insert(id, light);
            self.next_id = id + 1;
            Ok(LightHandle(id))
        } else {
            Err(SimError::CapacityExceeded)
        }
    }

    /// Unregister; a no-op on an unknown handle.
    pub fn remove_light(&mut self, h: &LightHandle)
        requires
            old(self).wf(),
        ensures
            final(self).wf(),
            final(self).lights@ == old(self).lights@.remove(h.0),
            final(self).next_id == old(self).next_id,
    {
        self.lights.remove(&h.0);
    }

    /// Replace a registered light; a no-op on an unknown handle.
    pub fn update_light(&mut self, h: &LightHandle, updated: Light)
        requires
            old(self).wf(),
        ensures
            final(self).wf(),
            old(self).lights@.contains_key(h.0) ==> final(self).lights@ == old(
                self,
            ).lights@.insert(h.0, updated),
            !old(self).lights@.contains_key(h.0) ==> final(self).lights@ == old(self).lights@,
            final(self).next_id == old(self).next_id,
    {
        if self.lights.contains_key(&h.0) {
            self.lights.insert(h.0, updated);
        }
        proof {
            if !old(self).lights@.contains_key(h.0) {
                assert(final(self).lights@ =~= old(self).lights@);
            }
        }
    }

    /// Read a registered light.
    pub fn get_light(&self, h: &LightHandle) -> (r: Option<&Light>)
        ensures
            match r {
                Some(l) => self.lights@.contains_key(h.0) && *l == self.lights@[h.0],
                None => !self.lights@.contains_key(h.0),
            },
    {
        self.lights.get(&h.0)
    }

    /// How many lights are registered.
    pub fn spawned_lights(&self) -> (r: usize)
        ensures
            r == self.lights@.len(),
    {
        self.lights.len()
    }
}

} // verus!
