//! The damage resolver: raw contacts become health changes, knockback,
//! and bullet removal.
//!
//! Run once per tick per living health-bearing entity.  Only a body
//! tagged `Bullet` deals damage, only above the entity's deflection
//! threshold, and the first damaging contact wins: at most one damage
//! event per entity per tick.  A contact whose other collider is already
//! gone — removed earlier in the same tick by another resolver pass — is
//! skipped, which makes the pass safe under same-tick removal.

use vstd::prelude::*;

use crate::arena::Id;
use crate::body::{RigidBody, MAX_VEL};
use crate::handle::queue_impulse;
use crate::num::{clip, clip_i128, tdiv, tdiv_i128, SCALE};
use crate::physics::{ContactEvent, EntityHandle, PhysicsWorld};
use crate::registry::{Dummy, MAX_HEALTH};
use crate::vec2::Vec2;

verus! {

/// Hard cap on the damage of a single hit (twenty-five points).
pub const DAMAGE_CAP: i64 = 25_000;

/// The damage formula: a linear ramp above the deflection threshold,
/// capped at `DAMAGE_CAP`.
pub open spec fn damage_of(speed: int, threshold: int) -> int {
    if speed > threshold {
        if speed - threshold > DAMAGE_CAP {
            DAMAGE_CAP as int
        } else {
            speed - threshold
        }
    } else {
        0
    }
}

/// Compute the damage formula.
pub fn damage_ex(speed: i64, threshold: i64) -> (r: i64)
    requires
        0 <= speed <= 5_000_000_000,
        0 <= threshold,
    ensures
        r == damage_of(speed as int, threshold as int),
        0 <= r <= DAMAGE_CAP,
{
    if speed > threshold {
        let d = speed - threshold;
        if d > DAMAGE_CAP {
            DAMAGE_CAP
        } else {
            d
        }
    } else {
        0
    }
}

/// The knockback impulse for a bullet body: its velocity direction times
/// its speed times its mass — which is exactly velocity times mass —
/// rescaled to impulse units.
pub open spec fn knockback_impulse(b: RigidBody) -> Vec2 {
    Vec2 {
        x: tdiv(b.linvel.x * b.mass, SCALE as int) as i64,
        y: tdiv(b.linvel.y * b.mass, SCALE as int) as i64,
    }
}

/// Knockback direction law: the knockback of a damaging bullet points
/// exactly along the bullet's velocity at the moment of contact, and its
/// magnitude is the bullet's speed times its mass.
///
/// The law is stated of the mathematical knockback vector
/// `(v.x·m, v.y·m)` — velocity direction times speed times mass is
/// velocity times mass — of which [`knockback_impulse`] is the
/// fixed-point rescaling: it is collinear with the velocity (zero cross
/// product), oriented the same way (non-negative dot product), and its
/// squared magnitude is exactly `m²·|v|²`.
pub proof fn lemma_knockback_direction(b: RigidBody)
    requires
        b.mass >= 0,
    ensures
        (b.linvel.x * b.mass) * b.linvel.y - (b.linvel.y * b.mass) * b.linvel.x == 0,
        (b.linvel.x * b.mass) * b.linvel.x + (b.linvel.y * b.mass) * b.linvel.y >= 0,
        (b.linvel.x * b.mass) * (b.linvel.x * b.mass) + (b.linvel.y * b.mass) * (b.linvel.y
            * b.mass) == b.mass * b.mass * b.linvel.norm2(),
        knockback_impulse(b).x == tdiv(b.linvel.x * b.mass, SCALE as int) as i64,
        knockback_impulse(b).y == tdiv(b.linvel.y * b.mass, SCALE as int) as i64,
{
    let vx = b.linvel.x as int;
    let vy = b.linvel.y as int;
    let m = b.mass as int;
    assert((vx * m) * vy - (vy * m) * vx == 0) by (nonlinear_arith);
    assert((vx * m) * vx + (vy * m) * vy == m * (vx * vx + vy * vy)) by (nonlinear_arith);
    assert(m * (vx * vx + vy * vy) >= 0) by (nonlinear_arith)
        requires m >= 0;
    assert((vx * m) * (vx * m) + (vy * m) * (vy * m) == m * m * (vx * vx + vy * vy))
        by (nonlinear_arith);
}

/// The collider on the other side of a contact, if the event involves
/// `mine` at all.
pub open spec fn other_of(e: ContactEvent, mine: Id) -> Option<Id> {
    if e.a == mine {
        Some(e.b)
    } else if e.b == mine {
        Some(e.a)
    } else {
        None
    }
}

/// The contact damages the entity: it touches the entity's shape, the
/// other collider still exists, its body is tagged `Bullet`, and its
/// speed exceeds the entity's deflection threshold.
pub open spec fn is_damaging(w: PhysicsWorld, ent: Dummy, e: ContactEvent) -> bool {
    match other_of(e, ent.collider.shape) {
        Some(o) => w.colliders.live(o) && {
            let c = w.colliders.get_spec(o);
            w.bodies.live(c.parent) && {
                let b = w.bodies.get_spec(c.parent);
                b.role is Bullet && b.linvel.norm() > ent.deflection
            }
        },
        None => false,
    }
}

/// The handle of the damaging bullet behind a damaging contact.
pub open spec fn hit_bullet(w: PhysicsWorld, ent: Dummy, e: ContactEvent) -> EntityHandle {
    let o = other_of(e, ent.collider.shape)->Some_0;
    EntityHandle { body: w.colliders.get_spec(o).parent, shape: o }
}

/// The bullet body behind a damaging contact.
pub open spec fn hit_body(w: PhysicsWorld, ent: Dummy, e: ContactEvent) -> RigidBody {
    w.bodies.get_spec(w.colliders.get_spec(other_of(e, ent.collider.shape)->Some_0).parent)
}

/// The position of the first damaging contact at or after `k`, if any.
pub open spec fn first_hit(w: PhysicsWorld, ent: Dummy, s: Seq<ContactEvent>, k: int) -> Option<
    int,
>
    decreases s.len() - k,
{
    if k < 0 || k >= s.len() {
        None
    } else if is_damaging(w, ent, s[k]) {
        Some(k)
    } else {
        first_hit(w, ent, s, k + 1)
    }
}

/// What `first_hit` finds is a damaging contact, and nothing before it
/// is.
pub proof fn lemma_first_hit(w: PhysicsWorld, ent: Dummy, s: Seq<ContactEvent>, k: int)
    requires
        0 <= k,
    ensures
        match first_hit(w, ent, s, k) {
            Some(f) => k <= f < s.len() && is_damaging(w, ent, s[f]) && forall|j: int|
                k <= j < f ==> !is_damaging(w, ent, s[j]),
            None => forall|j: int| k <= j < s.len() ==> !is_damaging(w, ent, s[j]),
        },
    decreases s.len() - k,
{
    if k < s.len() && !is_damaging(w, ent, s[k]) {
        lemma_first_hit(w, ent, s, k + 1);
    }
}

/// `s` with every occurrence of `h` removed, order kept.
pub open spec fn without_handle(s: Seq<EntityHandle>, h: EntityHandle) -> Seq<EntityHandle>
    decreases s.len(),
{
    if s.len() == 0 {
        Seq::empty()
    } else {
        let rest = without_handle(s.drop_last(), h);
        if s.last() == h {
            rest
        } else {
            rest.push(s.last())
        }
    }
}

/// Remove a handle from the active bullet collection, by identity.
pub fn remove_handle(bullets: &mut Vec<EntityHandle>, h: EntityHandle)
    ensures
        final(bullets)@ == without_handle(old(bullets)@, h),
{
    let n = bullets.len();
    let mut kept: Vec<EntityHandle> = Vec::new();
    let mut i: usize = 0;
    proof {
        assert(kept@ =~= without_handle(old(bullets)@.subrange(0, 0), h));
    }
    while i < n
        invariant
            n == old(bullets)@.len(),
            i <= n,
            *bullets == *old(bullets),
            kept@ == without_handle(old(bullets)@.subrange(0, i as int), h),
        decreases n - i,
    {
        let b = bullets[i];
        proof {
            assert(old(bullets)@.subrange(0, i as int + 1).drop_last() =~= old(bullets)@.subrange(0, i as int));
            assert(old(bullets)@.subrange(0, i as int + 1).last() == old(bullets)@[i as int]);
        }
        if b != h {
            kept.push(b);
        }
        i += 1;
    }
    proof {
        assert(old(bullets)@.subrange(0, n as int) =~= old(bullets)@);
    }
    *bullets = kept;
}

/// Decide `is_damaging` for one contact.
fn is_damaging_ex(w: &PhysicsWorld, ent: &Dummy, e: &ContactEvent) -> (r: bool)
    requires
        w.wf(),
        ent.wf(),
    ensures
        r == is_damaging(*w, *ent, *e),
{
    let mine = ent.collider.shape;
    let o: Id = if e.a == mine {
        e.b
    } else if e.b == mine {
        e.a
    } else {
        return false;
    };
    let c = match w.colliders.get(o) {
        Some(c) => c,
        None => {
            return false;
        },
    };
    proof {
        assert(w.colliders.slots@[o.index as int].val is Some);
    }
    let b = match w.bodies.get(c.parent) {
        Some(b) => *b,
        None => {
            return false;
        },
    };
    match b.role {
        crate::body::RoleTag::Bullet => b.linvel.length() > ent.deflection,
        _ => false,
    }
}

/// Scan the tick's contacts for the first damaging one.
fn find_first_damaging(w: &PhysicsWorld, ent: &Dummy, contacts: &Vec<ContactEvent>) -> (r: Option<
    usize,
>)
    requires
        w.wf(),
        ent.wf(),
    ensures
        match r {
            Some(k) => first_hit(*w, *ent, contacts@, 0) == Some(k as int),
            None => first_hit(*w, *ent, contacts@, 0) is None,
        },
{
    let n = contacts.len();
    let mut k: usize = 0;
    while k < n
        invariant
            n == contacts@.len(),
            k <= n,
            w.wf(),
            ent.wf(),
            first_hit(*w, *ent, contacts@, 0) == first_hit(*w, *ent, contacts@, k as int),
        decreases n - k,
    {
        if is_damaging_ex(w, ent, &contacts[k]) {
            return Some(k);
        }
        k += 1;
    }
    None
}

/// What one damage pass does to the world, the entity and the bullet
/// list, relative to the tick's contacts.  If no contact damages the
/// entity nothing changes; otherwise the first damaging contact wins:
/// the entity loses exactly the formula's damage, the bullet leaves the
/// collection and the arena, the knockback impulse is queued on the
/// entity's body, and everything else is untouched.
pub open spec fn damage_rel(
    w0: PhysicsWorld,
    ent0: Dummy,
    bullets0: Seq<EntityHandle>,
    contacts: Seq<ContactEvent>,
    w1: PhysicsWorld,
    ent1: Dummy,
    bullets1: Seq<EntityHandle>,
) -> bool {
    &&& ent1.collider == ent0.collider
    &&& ent1.deflection == ent0.deflection
    &&& ent1.angle == ent0.angle
    &&& ent1.light == ent0.light
    &&& forall|h2: EntityHandle| w0.handle_stale(h2) ==> #[trigger] w1.handle_stale(h2)
    &&& forall|h2: EntityHandle| #[trigger] w1.handle_live(h2) ==> w0.handle_live(h2)
    &&& forall|h2: EntityHandle|
        #[trigger] w0.handle_live(h2) ==> w1.handle_live(h2) || w1.handle_stale(h2)
    &&& w1.gravity == w0.gravity
    &&& w1.dt == w0.dt
    &&& match first_hit(w0, ent0, contacts, 0) {
        None => w1 == w0 && ent1 == ent0 && bullets1 == bullets0,
        Some(k) => {
            let e = contacts[k];
            let bh = hit_bullet(w0, ent0, e);
            let bb = hit_body(w0, ent0, e);
            &&& ent1.health == clip(
                ent0.health - damage_of(bb.linvel.norm(), ent0.deflection as int),
                MAX_HEALTH as int,
            )
            &&& bullets1 == without_handle(bullets0, bh)
            &&& !w1.handle_live(bh)
            &&& w1.handle_stale(bh)
            &&& (ent0.collider != bh && w0.handle_live(ent0.collider) ==> w1.handle_live(
                ent0.collider,
            ) && w1.body_of(ent0.collider) == queue_impulse(
                w0.body_of(ent0.collider),
                knockback_impulse(bb),
            ) && w1.collider_of(ent0.collider) == w0.collider_of(ent0.collider))
            &&& forall|h2: EntityHandle|
                w0.handle_live(h2) && h2 != bh && h2 != ent0.collider
                    ==> #[trigger] w1.handle_live(h2) && w1.body_of(h2) == w0.body_of(h2)
                    && w1.collider_of(h2) == w0.collider_of(h2)
        },
    }
}

/// Apply this tick's collision damage to one health-bearing entity.
///
/// If no contact in `contacts` damages the entity, nothing changes.
/// Otherwise the first damaging contact wins: the entity loses exactly
/// `damage_of(bullet speed, threshold)` health, the bullet leaves the
/// active collection and its body is deleted, and the knockback impulse —
/// the bullet's velocity times its mass — is queued on the entity's
/// body.  Every other entity's state is untouched.
pub fn apply_collision_damage(
    w: &mut PhysicsWorld,
    ent: &mut Dummy,
    bullets: &mut Vec<EntityHandle>,
    contacts: &Vec<ContactEvent>,
)
    requires
        old(w).wf(),
        old(ent).wf(),
    ensures
        final(w).wf(),
        final(ent).wf(),
        damage_rel(
            *old(w),
            *old(ent),
            old(bullets)@,
            contacts@,
            *final(w),
            *final(ent),
            final(bullets)@,
        ),
{
    let hit = find_first_damaging(w, ent, contacts);
    let k = match hit {
        Some(k) => k,
        None => {
            return ;
        },
    };
    proof {
        lemma_first_hit(*old(w), *old(ent), contacts@, 0);
    }
    let e = contacts[k];
    let mine = ent.collider.shape;
    let o: Id = if e.a == mine {
        e.b
    } else {
        e.a
    };
    let c_parent: Id = match w.colliders.get(o) {
        Some(c) => c.parent,
        None => {
            proof {
                assert(false);
            }
            vstd::pervasive::unreached()
        },
    };
    let b: RigidBody = match w.bodies.get(c_parent) {
        Some(b) => *b,
        None => {
            proof {
                assert(false);
            }
            vstd::pervasive::unreached()
        },
    };
    let speed = b.linvel.length();
    let dmg = damage_ex(speed, ent.deflection);
    ent.health = clip_i128(ent.health as i128 - dmg as i128, MAX_HEALTH);
    proof {
        assert(-1_000_000_000_000_000_000_000i128 <= b.linvel.x as i128 * b.mass as i128
            <= 1_000_000_000_000_000_000_000i128 && -1_000_000_000_000_000_000_000i128
            <= b.linvel.y as i128 * b.mass as i128 <= 1_000_000_000_000_000_000_000i128)
            by (nonlinear_arith)
            requires
                -1_000_000_000 <= b.linvel.x <= 1_000_000_000,
                -1_000_000_000 <= b.linvel.y <= 1_000_000_000,
                1 <= b.mass <= 1_000_000_000_000i64;
        crate::num::lemma_tdiv_mag(
            b.linvel.x as int * b.mass as int,
            SCALE as int,
            1_000_000_000_000_000_000_000,
        );
        crate::num::lemma_tdiv_mag(
            b.linvel.y as int * b.mass as int,
            SCALE as int,
            1_000_000_000_000_000_000_000,
        );
        assert(1_000_000_000_000_000_000_000int / (SCALE as int) == 1_000_000_000_000_000_000int);
    }
    let imp = Vec2 {
        x: tdiv_i128(b.linvel.x as i128 * b.mass as i128, SCALE as i128) as i64,
        y: tdiv_i128(b.linvel.y as i128 * b.mass as i128, SCALE as i128) as i64,
    };
    let bh = EntityHandle { body: c_parent, shape: o };
    proof {
        assert(bh == hit_bullet(*old(w), *old(ent), contacts@[k as int]));
        assert(b == hit_body(*old(w), *old(ent), contacts@[k as int]));
        assert(imp == knockback_impulse(b));
    }
    remove_handle(bullets, bh);
    let ghost w_before_remove = *w;
    let was_live = w.remove(bh);
    let ghost w_after_remove = *w;
    let _ = ent.collider.add_linvel(imp, w);
    proof {
        if old(ent).collider != bh && w_before_remove.handle_live(old(ent).collider) {
            assert(w_after_remove.handle_live(old(ent).collider));
            assert(w_after_remove.body_of(old(ent).collider) == w_before_remove.body_of(
                old(ent).collider,
            ));
        }
        assert forall|h2: EntityHandle|
            w_before_remove.handle_live(h2) && h2 != bh && h2 != old(ent).collider
                implies #[trigger] w.handle_live(h2) && w.body_of(h2) == w_before_remove.body_of(h2)
                && w.collider_of(h2) == w_before_remove.collider_of(h2) by {
            assert(w_after_remove.handle_live(h2));
            assert(w_after_remove.body_of(h2) == w_before_remove.body_of(h2));
            assert(w.handle_live(h2));
            if w_after_remove.handle_live(old(ent).collider) {
                // distinct live handles own distinct bodies
                if h2.body == old(ent).collider.body && h2 != old(ent).collider {
                    assert(w_after_remove.colliders.slots@[h2.shape.index as int].val->Some_0.parent
                        == h2.body);
                    assert(w_after_remove.colliders.slots@[old(ent).collider.shape.index as int].val->Some_0.parent == h2.body);
                    assert(h2.shape == old(ent).collider.shape);
                    assert(false);
                }
                assert(w.body_of(h2) == w_after_remove.body_of(h2));
            } else {
                assert(w.body_of(h2) == w_after_remove.body_of(h2));
            }
        }
    }
}

/// Every element of `without_handle(s, h)` occurs in `s` and differs
/// from `h`.
pub proof fn lemma_without_subset(s: Seq<EntityHandle>, h: EntityHandle)
    ensures
        forall|k: int|
            0 <= k < without_handle(s, h).len() ==> (exists|j: int|
                0 <= j < s.len() && s[j] == #[trigger] without_handle(s, h)[k]) && without_handle(
                s,
                h,
            )[k] != h,
    decreases s.len(),
{
    if s.len() > 0 {
        lemma_without_subset(s.drop_last(), h);
        let rest = without_handle(s.drop_last(), h);
        assert forall|k: int|
            0 <= k < without_handle(s, h).len() implies (exists|j: int|
            0 <= j < s.len() && s[j] == #[trigger] without_handle(s, h)[k]) && without_handle(
            s,
            h,
        )[k] != h by {
            if k < rest.len() {
                assert(without_handle(s, h)[k] == rest[k]);
                let j = choose|j: int| 0 <= j < s.drop_last().len() && s.drop_last()[j] == rest[k];
                assert(s[j] == rest[k]);
            } else {
                assert(without_handle(s, h)[k] == s.last());
                assert(s[s.len() - 1] == s.last());
            }
        }
    }
}

/// Removing a handle from a distinct list leaves a distinct list.
pub proof fn lemma_without_distinct(s: Seq<EntityHandle>, h: EntityHandle)
    requires
        crate::registry::distinct_handles(s),
    ensures
        crate::registry::distinct_handles(without_handle(s, h)),
    decreases s.len(),
{
    if s.len() > 0 {
        assert(crate::registry::distinct_handles(s.drop_last()));
        lemma_without_distinct(s.drop_last(), h);
        lemma_without_subset(s.drop_last(), h);
        let rest = without_handle(s.drop_last(), h);
        if s.last() != h {
            assert forall|i2: int, j2: int|
                0 <= i2 < rest.push(s.last()).len() && 0 <= j2 < rest.push(s.last()).len() && i2
                    != j2 implies #[trigger] rest.push(s.last())[i2] != #[trigger] rest.push(
                s.last(),
            )[j2] by {
                if i2 < rest.len() && j2 == rest.len() {
                    let j = choose|j: int|
                        0 <= j < s.drop_last().len() && s.drop_last()[j] == rest[i2];
                    assert(s[j] == rest[i2]);
                    assert(s[j] != s.last());
                }
                if j2 < rest.len() && i2 == rest.len() {
                    let j = choose|j: int|
                        0 <= j < s.drop_last().len() && s.drop_last()[j] == rest[j2];
                    assert(s[j] == rest[j2]);
                    assert(s[j] != s.last());
                }
            }
        }
    }
}

/// A list tracked in a world stays tracked after removing a handle.
pub proof fn lemma_without_tracked(w: PhysicsWorld, s: Seq<EntityHandle>, h: EntityHandle)
    requires
        crate::registry::handles_tracked(w, s),
    ensures
        crate::registry::handles_tracked(w, without_handle(s, h)),
{
    lemma_without_subset(s, h);
    assert forall|k: int|
        0 <= k < without_handle(s, h).len() implies w.handle_live(
        #[trigger] without_handle(s, h)[k],
    ) || w.handle_stale(without_handle(s, h)[k]) by {
        let j = choose|j: int| 0 <= j < s.len() && s[j] == without_handle(s, h)[k];
        assert(w.handle_live(s[j]) || w.handle_stale(s[j]));
    }
}

} // verus!

