//! Gameplay coupling: damage, knockback, bullet lifecycle, dummy death.

use simcore::body::{BodyArgs, MaterialArgs, Mobility, RoleTag};
use simcore::damage::damage_ex;
use simcore::lights::LightRegistry;
use simcore::registry::{spawn_bullet, spawn_dummy, Corpse, Dummy, EntityRegistry};
use simcore::shape::Shape;
use simcore::timestep::CollisionWorld;
use simcore::vec2::Vec2;

fn stationary_entity(cw: &mut CollisionWorld, deflection: i64) -> Dummy {
    let h = cw.physics.insert(
        BodyArgs {
            mobility: Mobility::Dynamic,
            pos: Vec2 { x: 0, y: 0 },
            vel: Vec2 { x: 0, y: 0 },
            role: RoleTag::Neutral,
        },
        MaterialArgs::default(),
        Shape::Ball { radius: 1000 },
    );
    Dummy {
        collider: h,
        health: 100_000,
        deflection,
        angle: 0,
        light: None,
    }
}

#[test]
fn damage_formula_matches_the_spec_points() {
    // threshold 40: speed 40 deals nothing, 50 deals 10, 1000 is capped at 25
    assert_eq!(damage_ex(40_000, 40_000), 0);
    assert_eq!(damage_ex(50_000, 40_000), 10_000);
    assert_eq!(damage_ex(1_000_000, 40_000), 25_000);
}

#[test]
fn bullet_hit_subtracts_health_and_removes_bullet() {
    // end-to-end: health-100 entity, bullet at speed 65, threshold 40
    let mut cw = CollisionWorld::new();
    let mut p = stationary_entity(&mut cw, 40_000);
    let mut reg = EntityRegistry::new();
    let mut lights = LightRegistry::new();
    let bullet = spawn_bullet(
        &mut cw.physics,
        &mut reg,
        Vec2 { x: -1_400, y: 0 },
        Vec2 { x: 65_000, y: 0 },
    );
    assert_eq!(reg.bullets.len(), 1);
    // bullet moves 325 per tick; after one tick the gap closes below the
    // radius sum and the contact is resolved within that same tick
    let mut ticks_waited = 0;
    while p.health == 100_000 && ticks_waited < 100 {
        cw.step(5_000, &mut p, &mut reg, &mut lights);
        ticks_waited += 1;
    }
    // speed 65 over threshold 40 is capped at 25 damage
    assert_eq!(p.health, 75_000);
    // the damaging bullet left the active collection and the arena
    assert!(reg.bullets.is_empty());
    assert!(!bullet.live_in(&cw.physics));
}

#[test]
fn knockback_is_bullet_velocity_times_mass() {
    let mut cw = CollisionWorld::new();
    let mut p = stationary_entity(&mut cw, 40_000);
    let mut reg = EntityRegistry::new();
    let mut lights = LightRegistry::new();
    spawn_bullet(
        &mut cw.physics,
        &mut reg,
        Vec2 { x: -1_400, y: 0 },
        Vec2 { x: 65_000, y: 0 },
    );
    cw.step(5_000, &mut p, &mut reg, &mut lights);
    assert_eq!(p.health, 75_000);
    // bullet mass model: density 1.5, ball area pi r^2: area of the
    // 0.1-radius ball is 3142 * 100 * 100 / 1000000 = 31, mass 1500 * 31
    // / 1000 = 46; knockback = velocity times mass = (65000 * 46 / 1000,
    // 0) = (2990, 0), queued on the entity's body for the next step
    let body = cw
        .physics
        .bodies
        .get(p.collider.body)
        .expect("entity body must be live");
    assert_eq!(body.pending_impulse.x, 2_990);
    assert_eq!(body.pending_impulse.y, 0);
}

#[test]
fn slow_bullet_deflects_without_damage() {
    let mut cw = CollisionWorld::new();
    // threshold 40, bullet at exactly 40: deflected, no damage
    let mut p = stationary_entity(&mut cw, 40_000);
    let mut reg = EntityRegistry::new();
    let mut lights = LightRegistry::new();
    let bullet = spawn_bullet(
        &mut cw.physics,
        &mut reg,
        Vec2 { x: -1_300, y: 0 },
        Vec2 { x: 40_000, y: 0 },
    );
    cw.step(5_000, &mut p, &mut reg, &mut lights);
    assert_eq!(p.health, 100_000);
    // the bullet survives the contact (still tracked until drag stops it)
    assert!(reg.bullets.contains(&bullet));
}

#[test]
fn stopped_bullet_is_pruned_by_identity() {
    let mut cw = CollisionWorld::new();
    let mut p = stationary_entity(&mut cw, 40_000);
    let mut reg = EntityRegistry::new();
    let mut lights = LightRegistry::new();
    // below the stop threshold of 4 units per second from the start
    let slow = spawn_bullet(
        &mut cw.physics,
        &mut reg,
        Vec2 { x: 50_000, y: 50_000 },
        Vec2 { x: 3_000, y: 0 },
    );
    cw.step(5_000, &mut p, &mut reg, &mut lights);
    assert!(reg.bullets.is_empty());
    assert!(!slow.live_in(&cw.physics));
}

#[test]
fn dead_dummy_becomes_corpse_exactly_once() {
    let mut cw = CollisionWorld::new();
    let mut p = stationary_entity(&mut cw, 40_000);
    let mut reg = EntityRegistry::new();
    let mut lights = LightRegistry::new();
    let h = spawn_dummy(
        &mut cw.physics,
        &mut reg,
        &mut lights,
        Vec2 { x: 10_000, y: 5_000 },
        60_000,
    )
    .expect("light capacity is available");
    assert_eq!(reg.dummies.len(), 1);
    assert_eq!(lights.spawned_lights(), 1);
    let light = reg.dummies[0].light.expect("dummy owns a light");
    // drain its health; the next tick must convert it
    reg.dummies[0].health = 0;
    cw.step(5_000, &mut p, &mut reg, &mut lights);
    assert!(reg.dummies.is_empty());
    assert_eq!(reg.corpses.len(), 1);
    assert_eq!(reg.corpses[0].pos, Vec2 { x: 10_000, y: 5_000 });
    assert_eq!(reg.corpses[0].animation_stage, 1);
    assert!(!h.live_in(&cw.physics));
    assert!(lights.get_light(&light).is_none());
    assert_eq!(lights.spawned_lights(), 0);
    // a further tick adds no second corpse
    cw.step(5_000, &mut p, &mut reg, &mut lights);
    assert_eq!(reg.corpses.len(), 1);
}

#[test]
fn corpse_animation_advances_through_stages() {
    let mut c = Corpse {
        pos: Vec2 { x: 0, y: 0 },
        animation_stage: 1,
        time_elapsed: 0,
        angle: 0,
    };
    // each stage holds for a tenth of a second
    for _ in 0..3 {
        let stage = c.animation_stage;
        while c.animation_stage == stage {
            c.update_animation(20_000);
        }
        assert_eq!(c.animation_stage, stage + 1);
        assert_eq!(c.time_elapsed, 0);
    }
    // stage four is final
    for _ in 0..20 {
        c.update_animation(20_000);
    }
    assert_eq!(c.animation_stage, 4);
}
