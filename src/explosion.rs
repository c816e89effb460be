//! Particle bursts spawned where a unit is destroyed.
use vstd::prelude::*;
use crate::chance::draw;
use crate::game::{clamp, clamp_coord, coord_ok, in_world, scale_by, scaled, Vec3, MAX_DELTA};

verus! {

/// Particles in one burst.
pub const BURST: usize = 10;
/// Horizontal direction components lie in `[-SPREAD, SPREAD)`.
pub const SPREAD: i64 = 100_000;
/// Vertical direction components lie in `[RISE_MIN, RISE_MAX)`.
pub const RISE_MIN: i64 = 10_000;
pub const RISE_MAX: i64 = 150_000;
/// Speeds lie in `[SPEED_MIN, SPEED_MAX)`, in millionths.
pub const SPEED_MIN: i64 = 50_000;
pub const SPEED_MAX: i64 = 200_000;
/// Tick budgets lie in `[TICKS_MIN, TICKS_MAX)`.
pub const TICKS_MIN: i32 = 50;
pub const TICKS_MAX: i32 = 150;
/// Thousandths of a frame times millionths of speed times millionths of a
/// unit, back to millionths of a unit.
pub const PARTICLE_DEN: i64 = 1_000_000_000;

pub struct Explosions {
    pub instances: Vec<ExplosionInstance>,
}

#[derive(Clone, Copy, Debug)]
pub struct ExplosionInstance {
    pub position: Vec3,
    pub direction: Vec3,
    pub speed: i64,
    pub ticks: i32,
}

/// The randomised part of one particle.
#[derive(Clone, Copy, Debug)]
pub struct ParticleDraw {
    pub direction: Vec3,
    pub speed: i64,
    pub ticks: i32,
}

impl ParticleDraw {
    /// Every value lies in the range a burst draws it from.
    pub open spec fn in_range(self) -> bool {
        -SPREAD <= self.direction.x < SPREAD
        && RISE_MIN <= self.direction.y < RISE_MAX
        && -SPREAD <= self.direction.z < SPREAD
        && SPEED_MIN <= self.speed < SPEED_MAX
        && TICKS_MIN <= self.ticks < TICKS_MAX
    }
}

impl ExplosionInstance {
    pub open spec fn wf(self) -> bool {
        in_world(self.position)
        && -SPREAD <= self.direction.x < SPREAD
        && RISE_MIN <= self.direction.y < RISE_MAX
        && -SPREAD <= self.direction.z < SPREAD
        && SPEED_MIN <= self.speed < SPEED_MAX
        && 0 < self.ticks < TICKS_MAX
    }
}

impl ExplosionInstance {
    /// Direction, speed and tick budget lie in the ranges a burst draws from.
    pub open spec fn fresh(self) -> bool {
        (ParticleDraw { direction: self.direction, speed: self.speed, ticks: self.ticks }).in_range()
    }
}

pub open spec fn particle_of(position: Vec3, d: ParticleDraw) -> ExplosionInstance {
    ExplosionInstance { position, direction: d.direction, speed: d.speed, ticks: d.ticks }
}

pub open spec fn drift(d: int, speed: int, delta: int) -> int {
    scaled(d, delta * speed, PARTICLE_DEN as int)
}

/// One update of one particle, before the expiry test.
pub open spec fn step_particle(e: ExplosionInstance, delta: int) -> ExplosionInstance {
    ExplosionInstance {
        position: Vec3 {
            x: clamp(e.position.x + drift(e.direction.x as int, e.speed as int, delta)) as i64,
            y: clamp(e.position.y + drift(e.direction.y as int, e.speed as int, delta)) as i64,
            z: clamp(e.position.z + drift(e.direction.z as int, e.speed as int, delta)) as i64,
        },
        ticks: (e.ticks - 1) as i32,
        ..e
    }
}

/// The particles that remain after one update, in their order.
pub open spec fn kept_particles(s: Seq<ExplosionInstance>, delta: int) -> Seq<ExplosionInstance>
    decreases s.len(),
{
    if s.len() == 0 {
        Seq::empty()
    } else {
        let rest = kept_particles(s.drop_last(), delta);
        let e = step_particle(s.last(), delta);
        if e.ticks > 0 {
            rest.push(e)
        } else {
            rest
        }
    }
}

fn axis_drift(p: i64, d: i64, speed: i64, delta: i64) -> (r: i64)
    requires
        coord_ok(p as int),
        -RISE_MAX <= d <= RISE_MAX,
        0 <= speed <= SPEED_MAX,
        0 <= delta <= MAX_DELTA,
    ensures
        r == clamp(p + drift(d as int, speed as int, delta as int)),
{
    assert(0 <= delta * speed <= 5000 * 200_000) by (nonlinear_arith)
        requires 0 <= delta <= 5000, 0 <= speed <= 200_000;
    let m: i64 = delta * speed;
    assert((if d >= 0 { d as int } else { -d }) * m <= 150_000 * 1_000_000_000) by (nonlinear_arith)
        requires -150_000 <= d <= 150_000, 0 <= m <= 1_000_000_000;
    let t = scale_by(d, m, PARTICLE_DEN);
    assert(-150_000 * 1_000_000_000 <= t <= 150_000 * 1_000_000_000) by (nonlinear_arith)
        requires t == scaled(d as int, m as int, 1_000_000_000), -150_000 <= d <= 150_000,
            0 <= m <= 1_000_000_000;
    clamp_coord(p + t)
}

/// One value drawn from `[low, high)`.
fn draw_between(low: i64, high: i64) -> (r: i64)
    requires
        0 <= low < high,
    ensures
        low <= r < high,
{
    draw(low as u64, high as u64) as i64
}

impl Explosions {
    pub open spec fn wf(self) -> bool {
        forall|i: int| 0 <= i < self.instances@.len() ==> (#[trigger] self.instances@[i]).wf()
    }

    pub fn new() -> (r: Explosions)
        ensures
            r.instances@ == Seq::<ExplosionInstance>::empty(),
            r.wf(),
    {
        Explosions { instances: Vec::new() }
    }

    /// Spawns one particle at `position` for each draw, in order.
    pub fn create_with(&mut self, position: Vec3, draws: &Vec<ParticleDraw>)
        requires
            old(self).wf(),
            in_world(position),
            forall|i: int| 0 <= i < draws@.len() ==> (#[trigger] draws@[i]).in_range(),
        ensures
            final(self).wf(),
            final(self).instances@ == old(self).instances@ + draws@.map_values(
                |d: ParticleDraw| particle_of(position, d),
            ),
    {
        let ghost start = self.instances@;
        let mut i: usize = 0;
        while i < draws.len()
            invariant
                0 <= i <= draws@.len(),
                self.wf(),
                in_world(position),
                forall|k: int| 0 <= k < draws@.len() ==> (#[trigger] draws@[k]).in_range(),
                self.instances@ == start + draws@.subrange(0, i as int).map_values(
                    |d: ParticleDraw| particle_of(position, d),
                ),
            decreases draws@.len() - i,
        {
            let d = draws[i];
            self.instances.push(
                ExplosionInstance { position, direction: d.direction, speed: d.speed, ticks: d.ticks },
            );
            assert(draws@.subrange(0, i + 1).map_values(|d: ParticleDraw| particle_of(position, d))
                =~= draws@.subrange(0, i as int).map_values(|d: ParticleDraw| particle_of(position, d)).push(
                particle_of(position, d),
            ));
            i = i + 1;
        }
        assert(draws@.subrange(0, draws@.len() as int) =~= draws@);
    }

    /// Spawns a burst of `BURST` particles at `position`, each with its own
    /// random direction, speed and tick budget.
    pub fn create(&mut self, position: Vec3)
        requires
            old(self).wf(),
            in_world(position),
        ensures
            final(self).wf(),
            final(self).instances@.len() == old(self).instances@.len() + BURST,
            final(self).instances@.subrange(0, old(self).instances@.len() as int) == old(self).instances@,
            forall|k: int| old(self).instances@.len() <= k < final(self).instances@.len()
                ==> (#[trigger] final(self).instances@[k]).position == position
                && final(self).instances@[k].fresh(),
    {
        let mut draws: Vec<ParticleDraw> = Vec::new();
        let mut i: usize = 0;
        while i < BURST
            invariant
                0 <= i <= BURST,
                draws@.len() == i,
                forall|k: int| 0 <= k < draws@.len() ==> (#[trigger] draws@[k]).in_range(),
            decreases BURST - i,
        {
            let x = draw_between(0, 2 * SPREAD as i64) - SPREAD;
            let y = draw_between(RISE_MIN, RISE_MAX);
            let z = draw_between(0, 2 * SPREAD as i64) - SPREAD;
            let speed = draw_between(SPEED_MIN, SPEED_MAX);
            let ticks = draw_between(TICKS_MIN as i64, TICKS_MAX as i64) as i32;
            draws.push(ParticleDraw { direction: Vec3 { x, y, z }, speed, ticks });
            i = i + 1;
        }
        let ghost before = self.instances@;
        self.create_with(position, &draws);
        assert(self.instances@.subrange(0, before.len() as int) =~= before);
        assert forall|k: int| before.len() <= k < self.instances@.len()
            implies (#[trigger] self.instances@[k]).position == position && self.instances@[k].fresh() by {
            assert(self.instances@[k] == particle_of(position, draws@[k - before.len()]));
        }
    }

    /// Moves every particle along its direction and drops those whose tick
    /// budget runs out.
    pub fn update(&mut self, delta: i64)
        requires
            old(self).wf(),
            0 <= delta <= MAX_DELTA,
        ensures
            final(self).wf(),
            final(self).instances@ == kept_particles(old(self).instances@, delta as int),
    {
        let n = self.instances.len();
        let mut kept: Vec<ExplosionInstance> = Vec::new();
        let mut i: usize = 0;
        while i < n
            invariant
                n == self.instances@.len(),
                self.wf(),
                0 <= i <= n,
                0 <= delta <= MAX_DELTA,
                kept@ == kept_particles(self.instances@.subrange(0, i as int), delta as int),
                forall|k: int| 0 <= k < kept@.len() ==> (#[trigger] kept@[k]).wf(),
            decreases n - i,
        {
            let e = self.instances[i];
            let moved = ExplosionInstance {
                position: Vec3 {
                    x: axis_drift(e.position.x, e.direction.x, e.speed, delta),
                    y: axis_drift(e.position.y, e.direction.y, e.speed, delta),
                    z: axis_drift(e.position.z, e.direction.z, e.speed, delta),
                },
                ticks: e.ticks - 1,
                ..e
            };
            assert(self.instances@.subrange(0, i + 1).drop_last() =~= self.instances@.subrange(0, i as int));
            if moved.ticks > 0 {
                kept.push(moved);
            }
            i = i + 1;
        }
        assert(self.instances@.subrange(0, n as int) =~= self.instances@);
        self.instances = kept;
    }
}

} // verus!
