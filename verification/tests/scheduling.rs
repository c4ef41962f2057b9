//! The fixed-timestep accumulator: tick counts, clamping, and the
//! accumulator invariant.

use simcore::lights::LightRegistry;
use simcore::registry::{Dummy, EntityRegistry};
use simcore::timestep::{CollisionWorld, FIXED_TIME_STEP, MAX_FRAME_TIME};
use simcore::body::{BodyArgs, MaterialArgs, Mobility, RoleTag};
use simcore::shape::Shape;
use simcore::vec2::Vec2;

fn player(cw: &mut CollisionWorld) -> Dummy {
    let h = cw.physics.insert(
        BodyArgs {
            mobility: Mobility::Dynamic,
            pos: Vec2 { x: 0, y: 0 },
            vel: Vec2 { x: 0, y: 0 },
            role: RoleTag::Neutral,
        },
        MaterialArgs::default(),
        Shape::Ball { radius: 1000 },
    );
    Dummy {
        collider: h,
        health: 100_000,
        deflection: 40_000,
        angle: 0,
        light: None,
    }
}

#[test]
fn single_frame_runs_one_tick_and_keeps_remainder() {
    let mut cw = CollisionWorld::new();
    let mut p = player(&mut cw);
    let mut reg = EntityRegistry::new();
    let mut lights = LightRegistry::new();
    let ticks = cw.step(7_500, &mut p, &mut reg, &mut lights);
    assert_eq!(ticks, 1);
    assert_eq!(cw.accumulated_time, 2_500);
}

#[test]
fn short_frames_accumulate_before_ticking() {
    let mut cw = CollisionWorld::new();
    let mut p = player(&mut cw);
    let mut reg = EntityRegistry::new();
    let mut lights = LightRegistry::new();
    let t1 = cw.step(3_000, &mut p, &mut reg, &mut lights);
    assert_eq!(t1, 0);
    assert_eq!(cw.accumulated_time, 3_000);
    let t2 = cw.step(3_000, &mut p, &mut reg, &mut lights);
    assert_eq!(t2, 1);
    assert_eq!(cw.accumulated_time, 1_000);
}

#[test]
fn tick_count_times_step_stays_within_one_step_of_total() {
    // frame deltas below the clamp, summing to T
    let deltas: [u64; 5] = [3_000, 11_000, 4_999, 20_001, 9_000];
    let total: u64 = deltas.iter().sum();
    let mut cw = CollisionWorld::new();
    let mut p = player(&mut cw);
    let mut reg = EntityRegistry::new();
    let mut lights = LightRegistry::new();
    let mut ticks: u64 = 0;
    for d in deltas {
        ticks += cw.step(d, &mut p, &mut reg, &mut lights);
        assert!(cw.accumulated_time < FIXED_TIME_STEP);
    }
    let run = ticks * FIXED_TIME_STEP;
    assert!(run <= total);
    assert!(total - run < FIXED_TIME_STEP);
    assert_eq!(run + cw.accumulated_time, total);
}

#[test]
fn oversized_frame_is_clamped_to_bounded_ticks() {
    let mut cw = CollisionWorld::new();
    let mut p = player(&mut cw);
    let mut reg = EntityRegistry::new();
    let mut lights = LightRegistry::new();
    // a ten-second stall contributes at most MAX_FRAME_TIME worth of ticks
    let ticks = cw.step(10_000_000, &mut p, &mut reg, &mut lights);
    assert_eq!(ticks, MAX_FRAME_TIME / FIXED_TIME_STEP);
    assert_eq!(ticks, 50);
    assert_eq!(cw.accumulated_time, 0);
}

#[test]
fn exact_multiple_of_step_leaves_empty_accumulator() {
    let mut cw = CollisionWorld::new();
    let mut p = player(&mut cw);
    let mut reg = EntityRegistry::new();
    let mut lights = LightRegistry::new();
    let ticks = cw.step(25_000, &mut p, &mut reg, &mut lights);
    assert_eq!(ticks, 5);
    assert_eq!(cw.accumulated_time, 0);
}
