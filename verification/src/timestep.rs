//! The fixed-timestep scheduling core.
//!
//! [`CollisionWorld`] wraps the physics world with a single accumulator.
//! Each frame adds its (clamped) duration to the accumulator and runs one
//! full simulation tick per whole `FIXED_TIME_STEP` accumulated, keeping
//! the remainder.  This decouples simulation correctness from render
//! framerate: gameplay logic runs once per tick, not once per frame, and
//! the clamp bounds the worst-case catch-up cost after a stall.
//!
//! Within a tick the order is: physics step, then the damage pass over
//! every living health-bearing entity against the events that step just
//! produced, then bullet drag and pruning, then the dummy death pass.
//! AI steering enters between frames, as impulses queued by the caller.

use vstd::arithmetic::div_mod::{
    lemma_fundamental_div_mod, lemma_fundamental_div_mod_converse, lemma_mod_bound,
};
use vstd::prelude::*;

use crate::damage::{
    apply_collision_damage, first_hit, hit_bullet, lemma_without_distinct, lemma_without_tracked,
    without_handle,
};
use crate::lights::LightRegistry;
use crate::physics::PhysicsWorld;
use crate::registry::{
    apply_bullet_drag, distinct_handles, dummy_colliders, handles_tracked, lemma_new_corpses_wf,
    lemma_surviving_distinct, lemma_surviving_wf, prune_stopped_bullets, resolve_dummy_deaths,
    Dummy, EntityRegistry,
};

verus! {

/// Simulation granularity: one two-hundredth of a second, in
/// microseconds.
pub const FIXED_TIME_STEP: u64 = 5_000;

/// Largest frame duration a single call may contribute, in microseconds.
/// Prevents an unbounded tick backlog after a long frame.
pub const MAX_FRAME_TIME: u64 = 250_000;

/// The physics world together with the fixed-timestep accumulator.
pub struct CollisionWorld {
    pub physics: PhysicsWorld,
    pub accumulated_time: u64,
}

impl CollisionWorld {
    /// After every call to `step`, the accumulator holds less than one
    /// full timestep.
    pub open spec fn wf(self) -> bool {
        &&& self.physics.wf()
        &&& self.accumulated_time < FIXED_TIME_STEP
        &&& self.physics.dt == FIXED_TIME_STEP
    }

    pub fn new() -> (r: CollisionWorld)
        ensures
            r.wf(),
            r.accumulated_time == 0u64,
            r.physics.bodies.len_spec() == 0,
            r.physics.colliders.len_spec() == 0,
            r.physics.gravity == (crate::vec2::Vec2 { x: 0i64, y: 0i64 }),
            r.physics.dt == FIXED_TIME_STEP,
    {
        CollisionWorld { physics: PhysicsWorld::new(), accumulated_time: 0 }
    }
}

impl CollisionWorld {
    /// Create one body with one primitive shape; the scheduling state is
    /// untouched.  See [`PhysicsWorld::insert`] for the full contract.
    pub fn spawn_collider(
        &mut self,
        args: crate::body::BodyArgs,
        mat: crate::body::MaterialArgs,
        shape: crate::shape::Shape,
    ) -> (r: crate::physics::EntityHandle)
        requires
            old(self).wf(),
            args.wf(),
            mat.wf(),
            shape.wf(),
        ensures
            final(self).wf(),
            final(self).accumulated_time == old(self).accumulated_time,
            final(self).physics.handle_live(r),
            final(self).physics.body_of(r) == crate::physics::body_from_args(
                args,
                crate::body::mass_spec(mat.density, shape),
            ),
            final(self).physics.collider_of(r) == crate::physics::collider_from_args(
                mat,
                shape,
                r.body,
            ),
            forall|h: crate::physics::EntityHandle|
                old(self).physics.handle_live(h) ==> #[trigger] final(self).physics.handle_live(h)
                    && h != r && final(self).physics.body_of(h) == old(self).physics.body_of(h)
                    && final(self).physics.collider_of(h) == old(self).physics.collider_of(h),
            forall|h: crate::physics::EntityHandle|
                old(self).physics.handle_stale(h) ==> #[trigger] final(self).physics.handle_stale(
                    h,
                ) && h != r,
    {
        self.physics.insert(args, mat, shape)
    }

    /// Create one body whose single collider is a compound of primitives
    /// at local offsets — one shape attached to one body.
    pub fn spawn_compound(
        &mut self,
        args: crate::body::BodyArgs,
        mat: crate::body::MaterialArgs,
        children: Vec<crate::shape::CompoundChild>,
    ) -> (r: crate::physics::EntityHandle)
        requires
            old(self).wf(),
            args.wf(),
            mat.wf(),
            (crate::shape::Shape::Compound { children }).wf(),
        ensures
            final(self).wf(),
            final(self).accumulated_time == old(self).accumulated_time,
            final(self).physics.handle_live(r),
            final(self).physics.body_of(r) == crate::physics::body_from_args(
                args,
                crate::body::mass_spec(
                    mat.density,
                    crate::shape::Shape::Compound { children },
                ),
            ),
            final(self).physics.collider_of(r) == crate::physics::collider_from_args(
                mat,
                crate::shape::Shape::Compound { children },
                r.body,
            ),
            forall|h: crate::physics::EntityHandle|
                old(self).physics.handle_live(h) ==> #[trigger] final(self).physics.handle_live(h)
                    && h != r && final(self).physics.body_of(h) == old(self).physics.body_of(h)
                    && final(self).physics.collider_of(h) == old(self).physics.collider_of(h),
    {
        self.physics.insert(args, mat, crate::shape::Shape::Compound { children })
    }

    /// Delete a body and its shape and invalidate the handle; a no-op on
    /// a handle that is not live.  See [`PhysicsWorld::remove`].
    pub fn delete_collider(&mut self, h: crate::physics::EntityHandle) -> (r: bool)
        requires
            old(self).wf(),
        ensures
            final(self).wf(),
            final(self).accumulated_time == old(self).accumulated_time,
            r == old(self).physics.handle_live(h),
            !final(self).physics.handle_live(h),
            r ==> final(self).physics.handle_stale(h),
            forall|h2: crate::physics::EntityHandle|
                old(self).physics.handle_live(h2) && h2 != h ==> #[trigger] final(self).physics.handle_live(h2) && final(self).physics.body_of(h2) == old(self).physics.body_of(h2) && final(self).physics.collider_of(h2) == old(self).physics.collider_of(h2),
    {
        self.physics.remove(h)
    }
}

/// A frame duration, clamped to `MAX_FRAME_TIME`.
pub open spec fn clamp_frame(d: int) -> int {
    if d > MAX_FRAME_TIME {
        MAX_FRAME_TIME as int
    } else {
        d
    }
}

/// How many ticks a frame runs, entering with accumulator `acc`.
pub open spec fn frame_ticks(acc: int, d: int) -> int {
    (acc + clamp_frame(d)) / (FIXED_TIME_STEP as int)
}

/// The accumulator left after a frame, entering with accumulator `acc`.
pub open spec fn frame_acc(acc: int, d: int) -> int {
    (acc + clamp_frame(d)) % (FIXED_TIME_STEP as int)
}

/// The accumulator after a whole sequence of frames, starting from zero.
pub open spec fn acc_after(ds: Seq<int>) -> int
    decreases ds.len(),
{
    if ds.len() == 0 {
        0
    } else {
        frame_acc(acc_after(ds.drop_last()), ds.last())
    }
}

/// The total ticks run over a whole sequence of frames.
pub open spec fn ticks_total(ds: Seq<int>) -> int
    decreases ds.len(),
{
    if ds.len() == 0 {
        0
    } else {
        ticks_total(ds.drop_last()) + frame_ticks(acc_after(ds.drop_last()), ds.last())
    }
}

/// The sum of the clamped frame durations.
pub open spec fn clamped_sum(ds: Seq<int>) -> int
    decreases ds.len(),
{
    if ds.len() == 0 {
        0
    } else {
        clamped_sum(ds.drop_last()) + clamp_frame(ds.last())
    }
}

/// Tick-count bound: for any sequence of frame durations whose clamped
/// values sum to `T`, the ticks run satisfy
/// `ticks × FIXED_TIME_STEP ∈ (T − FIXED_TIME_STEP, T]`, and the
/// accumulator afterwards lies in `[0, FIXED_TIME_STEP)`.
pub proof fn lemma_tick_count_bound(ds: Seq<int>)
    requires
        forall|i: int| 0 <= i < ds.len() ==> #[trigger] ds[i] >= 0,
    ensures
        0 <= acc_after(ds) < FIXED_TIME_STEP,
        FIXED_TIME_STEP * ticks_total(ds) + acc_after(ds) == clamped_sum(ds),
        clamped_sum(ds) - FIXED_TIME_STEP < FIXED_TIME_STEP * ticks_total(ds) <= clamped_sum(ds),
    decreases ds.len(),
{
    if ds.len() == 0 {
    } else {
        assert(forall|i: int|
            0 <= i < ds.drop_last().len() ==> #[trigger] ds.drop_last()[i] >= 0);
        lemma_tick_count_bound(ds.drop_last());
        let a = acc_after(ds.drop_last());
        let t = ticks_total(ds.drop_last());
        let d = clamp_frame(ds.last());
        assert(ds[ds.len() - 1] >= 0);
        assert(d >= 0);
        let x = a + d;
        let f = FIXED_TIME_STEP as int;
        lemma_mod_bound(x, f);
        lemma_fundamental_div_mod(x, f);
        assert(f * (t + x / f) == f * t + f * (x / f)) by (nonlinear_arith);
    }
}

/// Clamp bound: one call contributes at most
/// `MAX_FRAME_TIME / FIXED_TIME_STEP` ticks, however large the frame
/// duration was.
pub proof fn lemma_clamp_bound(acc: int, d: int)
    requires
        0 <= acc < FIXED_TIME_STEP,
        0 <= d,
    ensures
        0 <= frame_ticks(acc, d) <= MAX_FRAME_TIME as int / FIXED_TIME_STEP as int,
{
    let f = FIXED_TIME_STEP as int;
    let x = acc + clamp_frame(d);
    assert(x <= f - 1 + MAX_FRAME_TIME);
    assert(x / f <= (f - 1 + MAX_FRAME_TIME) / f) by {
        vstd::arithmetic::div_mod::lemma_div_is_ordered(x, f - 1 + MAX_FRAME_TIME, f);
    };
    assert((FIXED_TIME_STEP - 1 + MAX_FRAME_TIME) as int / (FIXED_TIME_STEP as int) == 50);
    assert(MAX_FRAME_TIME as int / FIXED_TIME_STEP as int == 50);
    assert(x / f >= 0) by {
        vstd::arithmetic::div_mod::lemma_div_is_ordered(0, x, f);
    };
}

/// The well-formedness bundle the tick loop maintains: all four pieces of
/// state are well-formed, every tracked bullet refers into the physics
/// arena, and no handle is tracked twice.
pub open spec fn sim_wf(
    cw: CollisionWorld,
    player: Dummy,
    registry: EntityRegistry,
    lights: LightRegistry,
) -> bool {
    &&& cw.wf()
    &&& player.wf()
    &&& registry.wf()
    &&& lights.wf()
    &&& handles_tracked(cw.physics, registry.bullets@)
    &&& distinct_handles(registry.bullets@)
    &&& distinct_handles(dummy_colliders(registry.dummies@))
}

/// The damage passes over the dummies with indices `0 .. i`, chained in
/// order: each pass sees the world and bullet list its predecessors
/// left, and replaces its own dummy with the damaged one.
pub open spec fn dummy_pass_rel(
    w0: PhysicsWorld,
    ds0: Seq<Dummy>,
    bs0: Seq<crate::physics::EntityHandle>,
    contacts: Seq<crate::physics::ContactEvent>,
    w1: PhysicsWorld,
    ds1: Seq<Dummy>,
    bs1: Seq<crate::physics::EntityHandle>,
    i: int,
) -> bool
    decreases i,
{
    if i <= 0 {
        w1 == w0 && ds1 == ds0 && bs1 == bs0
    } else {
        exists|
            wm: PhysicsWorld,
            dsm: Seq<Dummy>,
            bsm: Seq<crate::physics::EntityHandle>,
            dpost: Dummy,
        |
            dummy_pass_rel(w0, ds0, bs0, contacts, wm, dsm, bsm, i - 1) && #[trigger] crate::damage::damage_rel(
                wm,
                dsm[i - 1],
                bsm,
                contacts,
                w1,
                dpost,
                bs1,
            ) && ds1 == dsm.update(i - 1, dpost)
    }
}

/// What one full simulation tick does, phase by phase and in order: a
/// physics step producing this tick's events, the damage pass for the
/// player and then for every dummy against those same events, bullet
/// drag, bullet pruning, and the dummy death pass.  The intermediate
/// states are existential; each phase is pinned by its own relation.
pub open spec fn tick_rel(
    w0: PhysicsWorld,
    p0: Dummy,
    r0: EntityRegistry,
    l0: LightRegistry,
    w9: PhysicsWorld,
    p9: Dummy,
    r9: EntityRegistry,
    l9: LightRegistry,
) -> bool {
    &&& r9.drag_coef == r0.drag_coef
    &&& r9.stop_threshold == r0.stop_threshold
    &&& exists|
        w1: PhysicsWorld,
        events: Seq<crate::physics::ContactEvent>,
        forces: Seq<crate::physics::ForceEvent>,
        w2: PhysicsWorld,
        bs2: Seq<crate::physics::EntityHandle>,
        w3: PhysicsWorld,
        ds3: Seq<Dummy>,
        bs3: Seq<crate::physics::EntityHandle>,
        w4: PhysicsWorld,
        w5: PhysicsWorld,
        bs5: Seq<crate::physics::EntityHandle>,
    |
        #![trigger crate::physics::step_rel(w0, w1, events, forces),
            crate::damage::damage_rel(w1, p0, r0.bullets@, events, w2, p9, bs2),
            dummy_pass_rel(w2, r0.dummies@, bs2, events, w3, ds3, bs3, r0.dummies@.len() as int),
            crate::registry::drag_rel(w3, bs3, r0.drag_coef, FIXED_TIME_STEP as int, w4),
            crate::registry::prune_rel(w4, bs3, r0.stop_threshold, w5, bs5)]
        {
            &&& crate::physics::step_rel(w0, w1, events, forces)
            &&& crate::damage::damage_rel(w1, p0, r0.bullets@, events, w2, p9, bs2)
            &&& dummy_pass_rel(
                w2,
                r0.dummies@,
                bs2,
                events,
                w3,
                ds3,
                bs3,
                r0.dummies@.len() as int,
            )
            &&& crate::registry::drag_rel(w3, bs3, r0.drag_coef, FIXED_TIME_STEP as int, w4)
            &&& crate::registry::prune_rel(w4, bs3, r0.stop_threshold, w5, bs5)
            &&& crate::registry::deaths_rel(
                w5,
                ds3,
                r0.corpses@,
                l0,
                w9,
                r9.dummies@,
                r9.corpses@,
                l9,
            )
            &&& r9.bullets@ == bs5
        }
}

/// `n` ticks chained in order from the first state to the second; zero
/// ticks change nothing.
pub open spec fn ticks_rel(
    w0: PhysicsWorld,
    p0: Dummy,
    r0: EntityRegistry,
    l0: LightRegistry,
    w1: PhysicsWorld,
    p1: Dummy,
    r1: EntityRegistry,
    l1: LightRegistry,
    n: int,
) -> bool
    decreases n,
{
    if n <= 0 {
        w1 == w0 && p1 == p0 && r1 == r0 && l1 == l0
    } else {
        exists|wm: PhysicsWorld, pm: Dummy, rm: EntityRegistry, lm: LightRegistry|
            ticks_rel(w0, p0, r0, l0, wm, pm, rm, lm, n - 1) && #[trigger] tick_rel(
                wm,
                pm,
                rm,
                lm,
                w1,
                p1,
                r1,
                l1,
            )
    }
}

/// Appending one tick to a chain of `n - 1` ticks gives a chain of `n`.
pub proof fn lemma_ticks_rel_extend(
    w0: PhysicsWorld,
    p0: Dummy,
    r0: EntityRegistry,
    l0: LightRegistry,
    wm: PhysicsWorld,
    pm: Dummy,
    rm: EntityRegistry,
    lm: LightRegistry,
    w1: PhysicsWorld,
    p1: Dummy,
    r1: EntityRegistry,
    l1: LightRegistry,
    n: int,
)
    requires
        n >= 1,
        ticks_rel(w0, p0, r0, l0, wm, pm, rm, lm, n - 1),
        tick_rel(wm, pm, rm, lm, w1, p1, r1, l1),
    ensures
        ticks_rel(w0, p0, r0, l0, w1, p1, r1, l1, n),
{
}

impl CollisionWorld {
    /// Advance the simulation by one render frame of `frame_time`
    /// microseconds.
    ///
    /// The frame duration is clamped to `MAX_FRAME_TIME`; one full tick
    /// runs per whole `FIXED_TIME_STEP` accumulated, and the remainder
    /// stays in the accumulator, which always ends below
    /// `FIXED_TIME_STEP`.  The returned tick count is exact, and never
    /// exceeds `MAX_FRAME_TIME / FIXED_TIME_STEP`.
    pub fn step(
        &mut self,
        frame_time: u64,
        player: &mut Dummy,
        registry: &mut EntityRegistry,
        lights: &mut LightRegistry,
    ) -> (ticks: u64)
        requires
            sim_wf(*old(self), *old(player), *old(registry), *old(lights)),
        ensures
            sim_wf(*final(self), *final(player), *final(registry), *final(lights)),
            ticks == frame_ticks(
                old(self).accumulated_time as int,
                frame_time as int,
            ),
            final(self).accumulated_time == frame_acc(
                old(self).accumulated_time as int,
                frame_time as int,
            ),
            final(self).accumulated_time < FIXED_TIME_STEP,
            ticks <= MAX_FRAME_TIME / FIXED_TIME_STEP,
            final(self).physics.gravity == old(self).physics.gravity,
            final(self).physics.dt == old(self).physics.dt,
            ticks_rel(
                old(self).physics,
                *old(player),
                *old(registry),
                *old(lights),
                final(self).physics,
                *final(player),
                *final(registry),
                *final(lights),
                ticks as int,
            ),
            ticks == 0 ==> final(self).physics == old(self).physics && *final(player) == *old(
                player,
            ) && *final(registry) == *old(registry) && *final(lights) == *old(lights),
    {
        let clamped: u64 = if frame_time > MAX_FRAME_TIME {
            MAX_FRAME_TIME
        } else {
            frame_time
        };
        let ghost total = self.accumulated_time + clamped;
        let mut acc: u64 = self.accumulated_time + clamped;
        let mut ticks: u64 = 0;
        while acc >= FIXED_TIME_STEP
            invariant
                sim_wf(*self, *player, *registry, *lights),
                FIXED_TIME_STEP * ticks + acc == total,
                acc <= total,
                total <= FIXED_TIME_STEP - 1 + MAX_FRAME_TIME,
                self.accumulated_time == old(self).accumulated_time,
                self.physics.gravity == old(self).physics.gravity,
                self.physics.dt == old(self).physics.dt,
                ticks_rel(
                    old(self).physics,
                    *old(player),
                    *old(registry),
                    *old(lights),
                    self.physics,
                    *player,
                    *registry,
                    *lights,
                    ticks as int,
                ),
            decreases acc,
        {
            let ghost w_pre = self.physics;
            let ghost p_pre = *player;
            let ghost r_pre = *registry;
            let ghost l_pre = *lights;
            self.tick(player, registry, lights);
            acc = acc - FIXED_TIME_STEP;
            ticks = ticks + 1;
            proof {
                assert(FIXED_TIME_STEP * (ticks as int) == FIXED_TIME_STEP * (ticks as int - 1)
                    + FIXED_TIME_STEP);
                lemma_ticks_rel_extend(
                    old(self).physics,
                    *old(player),
                    *old(registry),
                    *old(lights),
                    w_pre,
                    p_pre,
                    r_pre,
                    l_pre,
                    self.physics,
                    *player,
                    *registry,
                    *lights,
                    ticks as int,
                );
            }
        }
        self.accumulated_time = acc;
        proof {
            lemma_fundamental_div_mod_converse(
                total as int,
                FIXED_TIME_STEP as int,
                ticks as int,
                acc as int,
            );
            lemma_clamp_bound(old(self).accumulated_time as int, frame_time as int);
        }
        ticks
    }

    /// One full simulation tick: step the physics, resolve this tick's
    /// contacts into damage for the player and every dummy, apply bullet
    /// drag and pruning, and convert dead dummies into corpses.
    ///
    /// Public so that callers who steer entities at tick cadence — AI
    /// movement and aim run once per tick, between ticks — can drive
    /// ticks directly; `step` runs this once per accumulated timestep.
    #[verifier::rlimit(100)]
    pub fn tick(
        &mut self,
        player: &mut Dummy,
        registry: &mut EntityRegistry,
        lights: &mut LightRegistry,
    )
        requires
            sim_wf(*old(self), *old(player), *old(registry), *old(lights)),
        ensures
            sim_wf(*final(self), *final(player), *final(registry), *final(lights)),
            final(self).accumulated_time == old(self).accumulated_time,
            final(self).physics.gravity == old(self).physics.gravity,
            final(self).physics.dt == old(self).physics.dt,
            tick_rel(
                old(self).physics,
                *old(player),
                *old(registry),
                *old(lights),
                final(self).physics,
                *final(player),
                *final(registry),
                *final(lights),
            ),
    {
        let ghost w0 = self.physics;
        let (events, forces) = self.physics.step();
        proof {
            assert forall|k: int|
                0 <= k < registry.bullets@.len() implies self.physics.handle_live(
                #[trigger] registry.bullets@[k],
            ) || self.physics.handle_stale(registry.bullets@[k]) by {
                assert(w0.handle_live(registry.bullets@[k]) || w0.handle_stale(
                    registry.bullets@[k],
                ));
            }
        }
        // damage pass: the player first, then every dummy, all against the
        // same events; a bullet removed by an earlier pass is skipped by a
        // later one
        let ghost w1 = self.physics;
        let ghost bullets1 = registry.bullets@;
        let ghost player_before = *player;
        apply_collision_damage(&mut self.physics, player, &mut registry.bullets, &events);
        proof {
            lemma_damage_pass_lists(
                w1,
                self.physics,
                player_before,
                bullets1,
                registry.bullets@,
                events@,
            );
        }
        let ghost w2 = self.physics;
        let ghost bullets2 = registry.bullets@;
        let ghost dummies2 = registry.dummies@;
        let ghost player2 = *player;
        let n = registry.dummies.len();
        let mut i: usize = 0;
        while i < n
            invariant
                i <= n,
                n == registry.dummies@.len(),
                n == dummies2.len(),
                self.physics.wf(),
                registry.wf(),
                player.wf(),
                lights.wf(),
                handles_tracked(self.physics, registry.bullets@),
                distinct_handles(registry.bullets@),
                distinct_handles(dummy_colliders(registry.dummies@)),
                self.accumulated_time == old(self).accumulated_time,
                self.physics.gravity == old(self).physics.gravity,
                self.physics.dt == old(self).physics.dt,
                *player == player2,
                registry.corpses == old(registry).corpses,
                registry.drag_coef == old(registry).drag_coef,
                registry.stop_threshold == old(registry).stop_threshold,
                dummy_pass_rel(
                    w2,
                    dummies2,
                    bullets2,
                    events@,
                    self.physics,
                    registry.dummies@,
                    registry.bullets@,
                    i as int,
                ),
            decreases n - i,
        {
            let ghost w_iter = self.physics;
            let ghost bullets_iter = registry.bullets@;
            let ghost dummies_iter = registry.dummies@;
            let ent = &mut registry.dummies[i];
            let ghost ent0 = *ent;
            apply_collision_damage(&mut self.physics, ent, &mut registry.bullets, &events);
            proof {
                lemma_damage_pass_lists(
                    w_iter,
                    self.physics,
                    ent0,
                    bullets_iter,
                    registry.bullets@,
                    events@,
                );
                assert(dummy_colliders(registry.dummies@) =~= dummy_colliders(dummies_iter));
                assert forall|k: int|
                    0 <= k < registry.dummies@.len() implies (
                #[trigger] registry.dummies@[k]).wf() by {
                    if k != i as int {
                        assert(registry.dummies@[k] == dummies_iter[k]);
                    }
                }
                let dpost = registry.dummies@[i as int];
                assert(registry.dummies@ =~= dummies_iter.update(i as int + 1 - 1, dpost));
                assert(crate::damage::damage_rel(
                    w_iter,
                    dummies_iter[i as int + 1 - 1],
                    bullets_iter,
                    events@,
                    self.physics,
                    dpost,
                    registry.bullets@,
                ));
                assert(dummy_pass_rel(
                    w2,
                    dummies2,
                    bullets2,
                    events@,
                    w_iter,
                    dummies_iter,
                    bullets_iter,
                    i as int + 1 - 1,
                ));
                assert(dummy_pass_rel(
                    w2,
                    dummies2,
                    bullets2,
                    events@,
                    self.physics,
                    registry.dummies@,
                    registry.bullets@,
                    i as int + 1,
                ));
            }
            i += 1;
        }
        let ghost w3 = self.physics;
        let ghost dummies3 = registry.dummies@;
        let ghost bullets3 = registry.bullets@;
        // bullet drag and pruning (ballistic deceleration to rest)
        let coef = registry.drag_coef;
        let stop = registry.stop_threshold;
        apply_bullet_drag(&mut self.physics, &registry.bullets, coef, FIXED_TIME_STEP);
        proof {
            assert forall|k: int|
                0 <= k < registry.bullets@.len() implies self.physics.handle_live(
                #[trigger] registry.bullets@[k],
            ) || self.physics.handle_stale(registry.bullets@[k]) by {
                assert(w3.handle_live(registry.bullets@[k]) || w3.handle_stale(
                    registry.bullets@[k],
                ));
            }
        }
        let ghost w4 = self.physics;
        prune_stopped_bullets(&mut self.physics, &mut registry.bullets, stop);
        // death pass: dummy-to-corpse conversion happens exactly once,
        // in the tick where health crosses zero
        let ghost w5 = self.physics;
        let ghost dummies5 = registry.dummies@;
        let ghost bullets5 = registry.bullets@;
        resolve_dummy_deaths(
            &mut self.physics,
            &mut registry.dummies,
            &mut registry.corpses,
            lights,
        );
        proof {
            lemma_surviving_wf(dummies5);
            lemma_new_corpses_wf(w5, dummies5);
            lemma_surviving_distinct(dummies5);
            assert forall|k: int|
                0 <= k < registry.bullets@.len() implies self.physics.handle_live(
                #[trigger] registry.bullets@[k],
            ) || self.physics.handle_stale(registry.bullets@[k]) by {
                assert(w5.handle_live(registry.bullets@[k]) || w5.handle_stale(
                    registry.bullets@[k],
                ));
            }
            // assemble the per-tick relation from the phase relations,
            // with the recorded intermediate states as witnesses
            assert(crate::physics::step_rel(w0, w1, events@, forces@));
            assert(crate::damage::damage_rel(
                w1,
                player_before,
                bullets1,
                events@,
                w2,
                *player,
                bullets2,
            ));
            assert(dummy_pass_rel(
                w2,
                dummies2,
                bullets2,
                events@,
                w3,
                dummies3,
                bullets3,
                dummies2.len() as int,
            ));
            assert(crate::registry::drag_rel(
                w3,
                bullets3,
                old(registry).drag_coef,
                FIXED_TIME_STEP as int,
                w4,
            ));
            assert(crate::registry::prune_rel(w4, bullets3, old(registry).stop_threshold, w5, bullets5));
            assert(crate::registry::deaths_rel(
                w5,
                dummies3,
                old(registry).corpses@,
                *old(lights),
                self.physics,
                registry.dummies@,
                registry.corpses@,
                *lights,
            ));
            assert(registry.bullets@ == bullets5);
            assert(tick_rel(
                w0,
                *old(player),
                *old(registry),
                *old(lights),
                self.physics,
                *player,
                *registry,
                *lights,
            ));
        }
    }
}

/// After one damage pass the bullet list is still a distinct, tracked
/// list: either nothing changed, or exactly the hit bullet left it and
/// was deleted from the world.
proof fn lemma_damage_pass_lists(
    w0: PhysicsWorld,
    w1: PhysicsWorld,
    ent0: Dummy,
    bullets0: Seq<crate::physics::EntityHandle>,
    bullets1: Seq<crate::physics::EntityHandle>,
    events: Seq<crate::physics::ContactEvent>,
)
    requires
        handles_tracked(w0, bullets0),
        distinct_handles(bullets0),
        forall|h2: crate::physics::EntityHandle|
            w0.handle_stale(h2) ==> #[trigger] w1.handle_stale(h2),
        forall|h2: crate::physics::EntityHandle|
            #[trigger] w0.handle_live(h2) ==> w1.handle_live(h2) || w1.handle_stale(h2),
        match first_hit(w0, ent0, events, 0) {
            None => bullets1 == bullets0,
            Some(k) => bullets1 == without_handle(bullets0, hit_bullet(w0, ent0, events[k])),
        },
    ensures
        handles_tracked(w1, bullets1),
        distinct_handles(bullets1),
{
    assert(handles_tracked(w1, bullets0)) by {
        assert forall|k: int|
            0 <= k < bullets0.len() implies w1.handle_live(#[trigger] bullets0[k])
            || w1.handle_stale(bullets0[k]) by {
            assert(w0.handle_live(bullets0[k]) || w0.handle_stale(bullets0[k]));
        }
    };
    match first_hit(w0, ent0, events, 0) {
        None => {},
        Some(k) => {
            let bh = hit_bullet(w0, ent0, events[k]);
            lemma_without_tracked(w1, bullets0, bh);
            lemma_without_distinct(bullets0, bh);
        },
    }
}

} // verus!
