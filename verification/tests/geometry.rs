//! Shapes, compound decomposition, handles, and the integrator.

use simcore::body::{BodyArgs, MaterialArgs, Mobility, RoleTag};
use simcore::contact::ball_cuboid_touch_ex;
use simcore::physics::PhysicsWorld;
use simcore::shape::{CompoundChild, PrimShape, Shape};
use simcore::vec2::{Rot, Vec2};

fn dynamic_ball(w: &mut PhysicsWorld, pos: Vec2, density: i64) -> simcore::physics::EntityHandle {
    w.insert(
        BodyArgs {
            mobility: Mobility::Dynamic,
            pos,
            vel: Vec2 { x: 0, y: 0 },
            role: RoleTag::Neutral,
        },
        MaterialArgs {
            density,
            restitution: 700,
            friction: 500,
            sensor: false,
            role: RoleTag::Neutral,
        },
        Shape::Ball { radius: 1000 },
    )
}

#[test]
fn compound_children_report_parent_position_plus_rotated_offset() {
    let mut w = PhysicsWorld::new();
    let offset = Vec2 { x: 2_000, y: 500 };
    let h = w.insert(
        BodyArgs {
            mobility: Mobility::Dynamic,
            pos: Vec2 { x: 10_000, y: -3_000 },
            vel: Vec2 { x: 0, y: 0 },
            role: RoleTag::Neutral,
        },
        MaterialArgs::default(),
        Shape::Compound {
            children: vec![
                CompoundChild { offset, shape: PrimShape::Ball { radius: 300 } },
                CompoundChild {
                    offset: Vec2 { x: -1_000, y: 0 },
                    shape: PrimShape::Cuboid { half_extents: Vec2 { x: 400, y: 200 } },
                },
            ],
        },
    );
    // identity rotation: child sits at parent position plus its offset
    let parts = h.decompose(&w).expect("live handle");
    assert_eq!(parts.len(), 2);
    assert_eq!(parts[0].0, Vec2 { x: 12_000, y: -2_500 });
    assert_eq!(parts[1].0, Vec2 { x: 9_000, y: -3_000 });
    assert_eq!(parts[0].1, PrimShape::Ball { radius: 300 });
    // quarter turn: rotate(o, 90°) = (-o.y, o.x)
    h.set_rotation(Rot { c: 0, s: 1000 }, &mut w).expect("live handle");
    let parts = h.decompose(&w).expect("live handle");
    assert_eq!(parts[0].0, Vec2 { x: 10_000 - 500, y: -3_000 + 2_000 });
    assert_eq!(parts[1].0, Vec2 { x: 10_000, y: -3_000 - 1_000 });
}

#[test]
fn removed_handle_reports_invalid_and_is_never_reissued() {
    let mut w = PhysicsWorld::new();
    let h = dynamic_ball(&mut w, Vec2 { x: 0, y: 0 }, 1000);
    assert!(h.get_pos(&w).is_ok());
    assert!(w.remove(h));
    // every query on the removed handle reports InvalidHandle
    assert_eq!(h.get_pos(&w), Err(simcore::SimError::InvalidHandle));
    assert_eq!(h.get_linvel(&w), Err(simcore::SimError::InvalidHandle));
    assert_eq!(h.get_mass(&w), Err(simcore::SimError::InvalidHandle));
    assert_eq!(
        h.add_linvel(Vec2 { x: 1, y: 1 }, &mut w),
        Err(simcore::SimError::InvalidHandle)
    );
    // a second removal is a no-op
    assert!(!w.remove(h));
    // a subsequent insert reuses the slot but never the handle
    let h2 = dynamic_ball(&mut w, Vec2 { x: 5, y: 5 }, 1000);
    assert_ne!(h, h2);
    assert_eq!(h.get_pos(&w), Err(simcore::SimError::InvalidHandle));
    assert!(h2.get_pos(&w).is_ok());
}

#[test]
fn impulse_becomes_velocity_over_mass_after_one_step() {
    let mut w = PhysicsWorld::new();
    // ball of radius 1 at density 1: the mass is pi, in fixed point 3142
    let h = dynamic_ball(&mut w, Vec2 { x: 0, y: 0 }, 1000);
    assert_eq!(h.get_mass(&w), Ok(3_142));
    // impulse (6, 0) over mass pi comes out as velocity 6 / pi
    h.add_linvel(Vec2 { x: 6_000, y: 0 }, &mut w).expect("live");
    assert_eq!(h.get_linvel(&w), Ok(Vec2 { x: 0, y: 0 }));
    let _events = w.step();
    let expected_vel = 6_000 * 1_000 / 3_142;
    assert_eq!(h.get_linvel(&w), Ok(Vec2 { x: expected_vel, y: 0 }));
    // and the body then travels by velocity times the timestep
    let _events = w.step();
    let pos = h.get_pos(&w).expect("live");
    assert_eq!(pos.x, 2 * (expected_vel * 5_000 / 1_000_000));
}

#[test]
fn step_reports_touching_pairs_and_their_relative_speed() {
    let mut w = PhysicsWorld::new();
    let a = dynamic_ball(&mut w, Vec2 { x: 0, y: 0 }, 1000);
    let b = dynamic_ball(&mut w, Vec2 { x: 1_500, y: 0 }, 1000);
    let far = dynamic_ball(&mut w, Vec2 { x: 50_000, y: 0 }, 1000);
    b.set_linvel(Vec2 { x: -3_000, y: 0 }, &mut w).expect("live");
    let (events, forces) = w.step();
    assert_eq!(events.len(), 1);
    assert_eq!(events[0].a, a.shape);
    assert_eq!(events[0].b, b.shape);
    assert_eq!(forces.len(), 1);
    // relative speed of the touching pair
    assert_eq!(forces[0].magnitude, 3_000);
    let _ = far;
}

#[test]
fn fixed_bodies_do_not_move_or_collide_with_each_other() {
    let mut w = PhysicsWorld::new();
    let wall_a = w.insert(
        BodyArgs {
            mobility: Mobility::Fixed,
            pos: Vec2 { x: 0, y: 0 },
            vel: Vec2 { x: 0, y: 0 },
            role: RoleTag::Wall,
        },
        MaterialArgs::default(),
        Shape::Cuboid { half_extents: Vec2 { x: 2_000, y: 2_000 } },
    );
    let wall_b = w.insert(
        BodyArgs {
            mobility: Mobility::Fixed,
            pos: Vec2 { x: 1_000, y: 0 },
            vel: Vec2 { x: 0, y: 0 },
            role: RoleTag::Wall,
        },
        MaterialArgs::default(),
        Shape::Cuboid { half_extents: Vec2 { x: 2_000, y: 2_000 } },
    );
    let (events, _forces) = w.step();
    // overlapping fixed geometry produces no events
    assert!(events.is_empty());
    assert_eq!(wall_a.get_pos(&w), Ok(Vec2 { x: 0, y: 0 }));
    assert_eq!(wall_b.get_pos(&w), Ok(Vec2 { x: 1_000, y: 0 }));
    // but a dynamic ball inside a wall does touch it
    let ball = dynamic_ball(&mut w, Vec2 { x: 0, y: 1_500 }, 1000);
    let (events, _forces) = w.step();
    assert_eq!(events.len(), 2);
    let _ = ball;
}

#[test]
fn bounding_sphere_covers_the_shape() {
    let mut w = PhysicsWorld::new();
    let h = w.insert(
        BodyArgs {
            mobility: Mobility::Dynamic,
            pos: Vec2 { x: 7_000, y: 8_000 },
            vel: Vec2 { x: 0, y: 0 },
            role: RoleTag::Neutral,
        },
        MaterialArgs::default(),
        Shape::Cuboid { half_extents: Vec2 { x: 3_000, y: 4_000 } },
    );
    let (center, radius) = h.get_bounding_sphere(&w).expect("live");
    assert_eq!(center, Vec2 { x: 7_000, y: 8_000 });
    // isqrt(3000² + 4000²) + 1 = 5001
    assert_eq!(radius, 5_001);
}

#[test]
fn vector_length_is_the_integer_square_root() {
    assert_eq!(Vec2 { x: 3_000, y: 4_000 }.length(), 5_000);
    assert_eq!(Vec2 { x: 0, y: 0 }.length(), 0);
    assert_eq!(Vec2 { x: -1_000, y: 0 }.length(), 1_000);
    assert_eq!(Vec2 { x: 1, y: 1 }.length(), 1);
    assert_eq!(simcore::num::isqrt_u64(2), 1);
    assert_eq!(simcore::num::isqrt_u64(144), 12);
    assert_eq!(simcore::num::isqrt_u64(u64::MAX), 4_294_967_295);
}

#[test]
fn triangle_mass_follows_the_area_model() {
    let mut w = PhysicsWorld::new();
    // right triangle with legs of two units: area 2, density 1 gives mass 2
    let h = w.insert(
        BodyArgs {
            mobility: Mobility::Dynamic,
            pos: Vec2 { x: 0, y: 0 },
            vel: Vec2 { x: 0, y: 0 },
            role: RoleTag::Neutral,
        },
        MaterialArgs::default(),
        Shape::Triangle {
            a: Vec2 { x: 0, y: 0 },
            b: Vec2 { x: 2_000, y: 0 },
            c: Vec2 { x: 0, y: 2_000 },
        },
    );
    assert_eq!(h.get_mass(&w), Ok(2_000));
}

#[test]
fn collision_world_spawn_and_delete() {
    let mut cw = simcore::timestep::CollisionWorld::new();
    let h = cw.spawn_collider(
        BodyArgs {
            mobility: Mobility::Dynamic,
            pos: Vec2 { x: 1_000, y: 2_000 },
            vel: Vec2 { x: 0, y: 0 },
            role: RoleTag::Neutral,
        },
        MaterialArgs::default(),
        Shape::Ball { radius: 500 },
    );
    assert_eq!(h.get_pos(&cw.physics), Ok(Vec2 { x: 1_000, y: 2_000 }));
    let compound = cw.spawn_compound(
        BodyArgs {
            mobility: Mobility::Fixed,
            pos: Vec2 { x: 0, y: 0 },
            vel: Vec2 { x: 0, y: 0 },
            role: RoleTag::Wall,
        },
        MaterialArgs::default(),
        vec![
            CompoundChild { offset: Vec2 { x: 500, y: 0 }, shape: PrimShape::Ball { radius: 100 } },
            CompoundChild { offset: Vec2 { x: -500, y: 0 }, shape: PrimShape::Ball { radius: 100 } },
        ],
    );
    assert_eq!(compound.decompose(&cw.physics).expect("live").len(), 2);
    assert!(cw.delete_collider(h));
    assert_eq!(h.get_pos(&cw.physics), Err(simcore::SimError::InvalidHandle));
    assert!(compound.get_pos(&cw.physics).is_ok());
}

#[test]
fn ball_box_contact_accounts_for_box_rotation() {
    // box 2x0.2 at origin; ball of radius 0.5 just above the thin side
    let he = Vec2 { x: 2_000, y: 200 };
    let ball_c = Vec2 { x: 0, y: 600 };
    assert!(ball_cuboid_touch_ex(ball_c, 500, Vec2 { x: 0, y: 0 }, Rot { c: 1000, s: 0 }, he));
    let ball_far = Vec2 { x: 0, y: 800 };
    assert!(!ball_cuboid_touch_ex(ball_far, 500, Vec2 { x: 0, y: 0 }, Rot { c: 1000, s: 0 }, he));
    // rotate the box a quarter turn: the long side now faces the ball
    assert!(ball_cuboid_touch_ex(ball_far, 500, Vec2 { x: 0, y: 0 }, Rot { c: 0, s: 1000 }, he));
}
