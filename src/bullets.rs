//! Projectiles: fired, advanced, aged and expired.
use vstd::prelude::*;
use crate::game::{
    clamp, clamp_coord, coord_ok, delta_ok, ids_left, in_world, issues, scale_by, scaled,
    IdSource, MovementAndCollision, Vec3, GROUND, UNIT,
};

verus! {

/// Tick budget of a fresh projectile.
pub const BULLET_TICKS: i32 = 300;
/// Projectile speed, in thousandths of a direction length per nominal frame.
pub const SPEED: i64 = 80;

pub struct Bullets {
    pub instances: Vec<BulletInstance>,
}

#[derive(Clone, Copy, Debug)]
pub struct BulletInstance {
    pub id: u128,
    pub collision: MovementAndCollision,
    pub direction: Vec3,
    pub ticks: i32,
}

pub open spec fn dir_ok(d: Vec3) -> bool {
    -UNIT <= d.x <= UNIT && -UNIT <= d.y <= UNIT && -UNIT <= d.z <= UNIT
}

/// Displacement along one axis in one update.
pub open spec fn travel(d: int, delta: int) -> int {
    scaled(d, delta * SPEED, TRAVEL_DEN as int)
}

/// Divisor taking a direction in millionths, a delta in thousandths of a
/// frame and `SPEED` in thousandths back to millionths of a unit.
pub const TRAVEL_DEN: i64 = 1_000_000;

pub open spec fn advance(p: Vec3, d: Vec3, delta: int) -> Vec3 {
    Vec3 {
        x: clamp(p.x + travel(d.x as int, delta)) as i64,
        y: clamp(p.y + travel(d.y as int, delta)) as i64,
        z: clamp(p.z + travel(d.z as int, delta)) as i64,
    }
}

/// One update of one projectile, before the expiry test.
pub open spec fn step_bullet(b: BulletInstance, delta: int) -> BulletInstance {
    let p = advance(b.collision.position, b.direction, delta);
    BulletInstance {
        collision: MovementAndCollision {
            position: p,
            been_hit: b.collision.been_hit || p.y <= GROUND,
            ..b.collision
        },
        ticks: (b.ticks - 1) as i32,
        ..b
    }
}

/// The projectiles that remain after one update, in their order.
pub open spec fn kept_bullets(s: Seq<BulletInstance>, delta: int) -> Seq<BulletInstance>
    decreases s.len(),
{
    if s.len() == 0 {
        Seq::empty()
    } else {
        let rest = kept_bullets(s.drop_last(), delta);
        let b = step_bullet(s.last(), delta);
        if b.ticks > 0 {
            rest.push(b)
        } else {
            rest
        }
    }
}

/// A projectile after one update per element of `deltas`, expiry aside.
pub open spec fn aged(b: BulletInstance, deltas: Seq<int>) -> BulletInstance
    decreases deltas.len(),
{
    if deltas.len() == 0 {
        b
    } else {
        step_bullet(aged(b, deltas.drop_last()), deltas.last())
    }
}

/// Every update takes exactly one tick, whether or not the projectile has
/// been hit, so a projectile with budget `t` survives the first `t - 1`
/// updates and is dropped by update number `t`.
pub proof fn lemma_projectile_lifetime(b: BulletInstance, deltas: Seq<int>)
    requires
        0 < b.ticks,
        deltas.len() <= b.ticks,
    ensures
        aged(b, deltas).ticks == b.ticks - deltas.len(),
        aged(b, deltas).id == b.id,
        aged(b, deltas).collision.id == b.collision.id,
        (aged(b, deltas).ticks > 0) <==> deltas.len() < b.ticks,
    decreases deltas.len(),
{
    if deltas.len() > 0 {
        lemma_projectile_lifetime(b, deltas.drop_last());
    }
}

/// `b` is the update of some projectile of `s`.
pub open spec fn stepped_from(s: Seq<BulletInstance>, delta: int, b: BulletInstance) -> bool {
    exists|i: int| 0 <= i < s.len() && b == #[trigger] step_bullet(s[i], delta)
}

/// An update keeps a projectile exactly when its stepped tick count is
/// positive, and keeps nothing else.
pub proof fn lemma_kept_bullets(s: Seq<BulletInstance>, delta: int)
    ensures
        forall|k: int| 0 <= k < kept_bullets(s, delta).len() ==> (#[trigger] kept_bullets(s, delta)[k]).ticks > 0,
        forall|i: int| 0 <= i < s.len() && step_bullet(s[i], delta).ticks > 0
            ==> kept_bullets(s, delta).contains(#[trigger] step_bullet(s[i], delta)),
        forall|k: int| 0 <= k < kept_bullets(s, delta).len()
            ==> stepped_from(s, delta, #[trigger] kept_bullets(s, delta)[k]),
    decreases s.len(),
{
    if s.len() > 0 {
        let t = s.drop_last();
        lemma_kept_bullets(t, delta);
        let rest = kept_bullets(t, delta);
        let r = kept_bullets(s, delta);
        assert forall|i: int| 0 <= i < s.len() && step_bullet(s[i], delta).ticks > 0
            implies r.contains(#[trigger] step_bullet(s[i], delta)) by {
            if i < s.len() - 1 {
                assert(t[i] == s[i]);
                let j = choose|j: int| 0 <= j < rest.len() && rest[j] == step_bullet(t[i], delta);
                assert(r[j] == rest[j]);
            } else {
                assert(r[r.len() - 1] == step_bullet(s[i], delta));
            }
        }
        assert forall|k: int| 0 <= k < r.len() implies stepped_from(s, delta, #[trigger] r[k]) by {
            if k < rest.len() {
                assert(r[k] == rest[k]);
                assert(stepped_from(t, delta, rest[k]));
                let i = choose|i: int| 0 <= i < t.len() && rest[k] == #[trigger] step_bullet(t[i], delta);
                assert(s[i] == t[i]);
            } else {
                assert(r[k] == step_bullet(s[s.len() - 1], delta));
            }
        }
    }
}

/// Every projectile of `s` has identifiers below `n`.
pub open spec fn bullets_below(s: Seq<BulletInstance>, n: int) -> bool {
    forall|i: int| 0 <= i < s.len() ==> (#[trigger] s[i]).id < n && s[i].collision.id < n
}

/// An update keeps every identifier below the bound it was under.
pub proof fn lemma_kept_bullets_below(s: Seq<BulletInstance>, delta: int, n: int)
    requires
        bullets_below(s, n),
    ensures
        bullets_below(kept_bullets(s, delta), n),
{
    lemma_kept_bullets(s, delta);
    let r = kept_bullets(s, delta);
    assert forall|k: int| 0 <= k < r.len() implies (#[trigger] r[k]).id < n && r[k].collision.id < n by {
        assert(stepped_from(s, delta, r[k]));
        let i = choose|i: int| 0 <= i < s.len() && r[k] == #[trigger] step_bullet(s[i], delta);
        assert(s[i].id < n && s[i].collision.id < n);
    }
}

impl BulletInstance {
    pub open spec fn wf(self) -> bool {
        self.collision.wf() && dir_ok(self.direction) && 0 < self.ticks
    }
}

fn axis_advance(p: i64, d: i64, delta: i64) -> (r: i64)
    requires
        coord_ok(p as int),
        -UNIT <= d <= UNIT,
        delta_ok(delta as int),
    ensures
        r == clamp(p + travel(d as int, delta as int)),
{
    let m: i64 = delta * SPEED;
    assert((if d >= 0 { d as int } else { -d }) * m <= 1_000_000 * 400_000) by (nonlinear_arith)
        requires -1_000_000 <= d <= 1_000_000, 0 <= m <= 400_000;
    let t = scale_by(d, m, TRAVEL_DEN);
    assert(-1_000_000 * 400_000 <= t <= 1_000_000 * 400_000) by (nonlinear_arith)
        requires t == scaled(d as int, m as int, 1_000_000), -1_000_000 <= d <= 1_000_000, 0 <= m <= 400_000;
    clamp_coord(p + t)
}

fn advance_exec(p: Vec3, d: Vec3, delta: i64) -> (r: Vec3)
    requires
        in_world(p),
        dir_ok(d),
        delta_ok(delta as int),
    ensures
        r == advance(p, d, delta as int),
        in_world(r),
{
    Vec3 {
        x: axis_advance(p.x, d.x, delta),
        y: axis_advance(p.y, d.y, delta),
        z: axis_advance(p.z, d.z, delta),
    }
}

impl Bullets {
    pub open spec fn wf(self) -> bool {
        forall|i: int| 0 <= i < self.instances@.len() ==> (#[trigger] self.instances@[i]).wf()
    }

    pub fn new() -> (r: Bullets)
        ensures
            r.instances@ == Seq::<BulletInstance>::empty(),
            r.wf(),
    {
        Bullets { instances: Vec::new() }
    }

    /// Adds a projectile one step of motion ahead of `position`.
    pub fn fire(&mut self, ids: &mut IdSource, position: Vec3, direction: Vec3, delta: i64, radius: i64)
        requires
            old(self).wf(),
            ids_left(*old(ids)) >= 1,
            in_world(position),
            dir_ok(direction),
            delta_ok(delta as int),
            0 <= radius,
        ensures
            final(self).wf(),
            issues(*old(ids), final(self).instances@.last().id, *final(ids)),
            final(self).instances@ == old(self).instances@.push(
                BulletInstance {
                    id: final(self).instances@.last().id,
                    collision: MovementAndCollision {
                        id: final(self).instances@.last().id,
                        radius,
                        position: advance(position, direction, delta as int),
                        been_hit: false,
                        moved: false,
                    },
                    direction,
                    ticks: BULLET_TICKS,
                },
            ),
    {
        let start = advance_exec(position, direction, delta);
        let collision = MovementAndCollision::new(ids, radius, start);
        let instance = BulletInstance { id: collision.id, collision, direction, ticks: BULLET_TICKS };
        self.instances.push(instance);
    }

    /// Advances every projectile, marks those at or below the ground as hit,
    /// and drops those whose tick budget runs out.
    pub fn update(&mut self, delta: i64)
        requires
            old(self).wf(),
            delta_ok(delta as int),
        ensures
            final(self).wf(),
            final(self).instances@ == kept_bullets(old(self).instances@, delta as int),
    {
        let n = self.instances.len();
        let mut kept: Vec<BulletInstance> = Vec::new();
        let mut i: usize = 0;
        while i < n
            invariant
                n == self.instances@.len(),
                self.wf(),
                0 <= i <= n,
                delta_ok(delta as int),
                kept@ == kept_bullets(self.instances@.subrange(0, i as int), delta as int),
                forall|k: int| 0 <= k < kept@.len() ==> (#[trigger] kept@[k]).wf(),
            decreases n - i,
        {
            let b = self.instances[i];
            let p = advance_exec(b.collision.position, b.direction, delta);
            let moved = BulletInstance {
                collision: MovementAndCollision {
                    position: p,
                    been_hit: b.collision.been_hit || p.y <= GROUND,
                    ..b.collision
                },
                ticks: b.ticks - 1,
                ..b
            };
            assert(self.instances@.subrange(0, i + 1).drop_last() =~= self.instances@.subrange(0, i as int));
            if moved.ticks > 0 {
                kept.push(moved);
            }
            i = i + 1;
        }
        assert(self.instances@.subrange(0, n as int) =~= self.instances@);
        self.instances = kept;
    }
}

} // verus!
