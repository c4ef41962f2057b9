//! Lights, fire control, steering, and the debug wall spawner.

use simcore::body::{Mobility, RoleTag};
use simcore::lights::{ColorRgba, Light, LightRegistry, MAX_LIGHTS};
use simcore::movement::{movement_step, spawn_debug_walls, FireControl};
use simcore::physics::PhysicsWorld;
use simcore::vec2::Vec2;
use simcore::SimError;

fn white() -> ColorRgba {
    ColorRgba { r: 1000, g: 1000, b: 1000, a: 1000 }
}

#[test]
fn light_registry_refuses_past_capacity() {
    let mut reg = LightRegistry::new();
    for i in 0..MAX_LIGHTS {
        let h = reg
            .spawn_light(Light::Ambient { color: white() })
            .expect("capacity remains");
        assert_eq!(h.0, i);
    }
    assert_eq!(reg.spawned_lights(), MAX_LIGHTS as usize);
    // the caller must check: registration is refused, not dropped silently
    assert_eq!(
        reg.spawn_light(Light::Ambient { color: white() }),
        Err(SimError::CapacityExceeded)
    );
    // identifiers are never reissued, so removal does not restore capacity
    reg.remove_light(&simcore::lights::LightHandle(0));
    assert_eq!(
        reg.spawn_light(Light::Ambient { color: white() }),
        Err(SimError::CapacityExceeded)
    );
}

#[test]
fn light_updates_and_getters() {
    let mut reg = LightRegistry::new();
    let h = reg
        .spawn_light(Light::Radial { pos: Vec2 { x: 0, y: 0 }, color: white(), radius: 15_000 })
        .expect("capacity");
    let mut l = *reg.get_light(&h).expect("registered");
    assert_eq!(l.radius(), 15_000);
    assert_eq!(l.light_type(), 0);
    l.set_pos(Vec2 { x: 7, y: 9 });
    l.set_radius(20_000);
    reg.update_light(&h, l);
    let l2 = reg.get_light(&h).expect("registered");
    assert_eq!(l2.pos(), Vec2 { x: 7, y: 9 });
    assert_eq!(l2.radius(), 20_000);
    reg.remove_light(&h);
    assert!(reg.get_light(&h).is_none());
    assert_eq!(reg.spawned_lights(), 0);
}

#[test]
fn fire_control_enforces_the_cooldown() {
    let mut fc = FireControl::new();
    // ready at start
    assert!(fc.on_frame(true, 16_000));
    // immediately after a shot the cooldown blocks
    assert!(!fc.on_frame(true, 16_000));
    let mut frames = 0;
    while !fc.on_frame(true, 16_000) {
        frames += 1;
        assert!(frames < 100);
    }
    // about a tenth of a second at sixteen milliseconds per frame
    assert!(frames >= 5);
    // not wanting to fire never fires
    assert!(!fc.on_frame(false, 1_000_000));
}

#[test]
fn steering_queues_drag_and_acceleration() {
    let mut w = PhysicsWorld::new();
    let h = w.insert(
        simcore::body::BodyArgs {
            mobility: Mobility::Dynamic,
            pos: Vec2 { x: 0, y: 0 },
            vel: Vec2 { x: 0, y: 0 },
            role: RoleTag::Neutral,
        },
        simcore::body::MaterialArgs::default(),
        simcore::shape::Shape::Ball { radius: 1000 },
    );
    // mass pi (3142): drive strength 20 * 3142 = 62840
    // at rest there is no drag; a pure +x move queues dir * ps * dt / (|dir| * 1e6)
    movement_step(&h, &mut w, Vec2 { x: 1000, y: 0 }, false, 16_000).expect("live");
    let b = w.bodies.get(h.body).expect("live");
    // 1000 * 62840 * 16000 / (1000 * 1000000) = 1005
    assert_eq!(b.pending_impulse, Vec2 { x: 1005, y: 0 });
    // a dead handle is rejected
    w.remove(h);
    assert_eq!(
        movement_step(&h, &mut w, Vec2 { x: 1000, y: 0 }, false, 16_000),
        Err(SimError::InvalidHandle)
    );
}

#[test]
fn debug_walls_map_draws_into_the_field() {
    let mut w = PhysicsWorld::new();
    let mut walls = Vec::new();
    let draws = vec![(0u64, 5_399u64, 102_400u64, 102_399u64), (10u64, 20u64, 30u64, 40u64)];
    let count = spawn_debug_walls(&mut w, &mut walls, &draws);
    assert_eq!(count, 2);
    assert_eq!(walls.len(), 2);
    let p0 = walls[0].get_pos(&w).expect("live");
    assert_eq!(p0, Vec2 { x: 0, y: 102_399 });
    let (_, _, shape) = walls[0].pose_and_shape(&w).expect("live");
    match shape {
        simcore::shape::Shape::Cuboid { half_extents } => {
            assert_eq!(*half_extents, Vec2 { x: 1_000, y: 1_000 + 5_399 });
        }
        _ => panic!("expected a box"),
    }
    let p1 = walls[1].get_pos(&w).expect("live");
    assert_eq!(p1, Vec2 { x: 30, y: 40 });
}
