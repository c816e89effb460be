//! Shared geometry, identifiers and the collidable record.
use vstd::prelude::*;

verus! {

/// One world unit, in the fixed-point scale used for every length.
pub const UNIT: i64 = 1_000_000;
/// A nominal frame, in the fixed-point scale used for frame deltas.
pub const DELTA_ONE: i64 = 1000;
/// The largest frame delta the simulation accepts.
pub const MAX_DELTA: i64 = 5000;
/// Every coordinate stays within this bound on each axis.
pub const WORLD_LIMIT: i64 = 1_000_000_000_000;
/// Height of the ground plane.
pub const GROUND: i64 = 0;
/// Spacing between neighbouring units of the formation grid.
pub const SCALE: i64 = 250_000;
/// Half-extent of the sweep area, in multiples of `SCALE_GRID`.
pub const GRID_WIDTH: i64 = 48;
/// Units are placed on a `ROW_SIZE` by `ROW_SIZE` grid.
pub const ROW_SIZE: usize = 5;
pub const ALIEN_RADIUS: i64 = 30_000;
pub const BULLET_RADIUS: i64 = 40_000;
pub const PLAYER_RADIUS: i64 = 70_000;
/// Render scale of a fresh unit, in millionths.
pub const ALIEN_SCALE: i64 = 2000;

/// A point or direction in fixed-point coordinates.
#[derive(Clone, Copy, PartialEq, Eq, Debug, Structural)]
pub struct Vec3 {
    pub x: i64,
    pub y: i64,
    pub z: i64,
}

/// A frame delta the simulation accepts.
pub open spec fn delta_ok(delta: int) -> bool {
    0 <= delta <= MAX_DELTA
}

pub open spec fn coord_ok(v: int) -> bool {
    -WORLD_LIMIT <= v <= WORLD_LIMIT
}

pub open spec fn in_world(v: Vec3) -> bool {
    coord_ok(v.x as int) && coord_ok(v.y as int) && coord_ok(v.z as int)
}

/// A coordinate pulled back into the play volume.
pub open spec fn clamp(v: int) -> int {
    if v < -WORLD_LIMIT {
        -WORLD_LIMIT as int
    } else if v > WORLD_LIMIT {
        WORLD_LIMIT as int
    } else {
        v
    }
}

pub fn clamp_coord(v: i64) -> (r: i64)
    ensures
        r == clamp(v as int),
        coord_ok(r as int),
{
    if v < -WORLD_LIMIT {
        -WORLD_LIMIT
    } else if v > WORLD_LIMIT {
        WORLD_LIMIT
    } else {
        v
    }
}

/// `v * m / den`, rounded toward zero.
pub open spec fn scaled(v: int, m: int, den: int) -> int {
    if v >= 0 {
        (v * m) / den
    } else {
        -(((-v) * m) / den)
    }
}

pub fn scale_by(v: i64, m: i64, den: i64) -> (r: i64)
    requires
        den > 0,
        0 <= m,
        -0x7fff_ffff_ffff_ffff <= v,
        (if v >= 0 { v as int } else { -v }) * m <= 0x7fff_ffff_ffff_ffff,
    ensures
        r == scaled(v as int, m as int, den as int),
{
    let a: i64 = if v >= 0 { v } else { -v };
    assert(0 <= a * m) by (nonlinear_arith)
        requires 0 <= a, 0 <= m;
    let q: i64 = (a * m) / den;
    if v >= 0 {
        q
    } else {
        -q
    }
}

pub open spec fn dist2(a: Vec3, b: Vec3) -> int {
    (a.x - b.x) * (a.x - b.x) + (a.y - b.y) * (a.y - b.y) + (a.z - b.z) * (a.z - b.z)
}

/// Source of identifiers: each one handed out is one more than the last.
pub struct IdSource {
    pub next: u128,
}

impl IdSource {
    pub fn new() -> (r: IdSource)
        ensures
            r.next == 1,
    {
        IdSource { next: 1 }
    }

    /// How many identifiers this source can still hand out.
    pub fn left(&self) -> (r: u128)
        ensures
            r == ids_left(*self),
    {
        u128::MAX - self.next
    }
}

/// `r` is what one call of `get_next_id` returns on `before`, leaving `after`.
pub open spec fn issues(before: IdSource, r: u128, after: IdSource) -> bool {
    r == before.next && after.next == before.next + 1
}

/// How many identifiers `ids` can still hand out.
pub open spec fn ids_left(ids: IdSource) -> int {
    u128::MAX - ids.next
}

pub fn get_next_id(ids: &mut IdSource) -> (r: u128)
    requires
        ids_left(*old(ids)) >= 1,
    ensures
        issues(*old(ids), r, *final(ids)),
{
    let r = ids.next;
    ids.next = ids.next + 1;
    r
}

/// Over any run of calls on one source, a later identifier is strictly
/// greater than an earlier one, so no identifier is ever handed out twice.
pub proof fn lemma_ids_strictly_increase(states: Seq<IdSource>, ids: Seq<u128>)
    requires
        states.len() == ids.len() + 1,
        forall|k: int| 0 <= k < ids.len() ==> issues(#[trigger] states[k], ids[k], states[k + 1]),
    ensures
        forall|i: int, j: int| 0 <= i < j < ids.len() ==> ids[i] < ids[j],
{
    assert forall|k: int| 0 <= k <= ids.len() implies #[trigger] states[k].next == states[0].next + k by {
        lemma_issued_offset(states, ids, k);
    }
    assert forall|i: int, j: int| 0 <= i < j < ids.len() implies ids[i] < ids[j] by {
        assert(issues(states[i], ids[i], states[i + 1]));
        assert(issues(states[j], ids[j], states[j + 1]));
        assert(states[i].next == states[0].next + i);
        assert(states[j].next == states[0].next + j);
    }
}

proof fn lemma_issued_offset(states: Seq<IdSource>, ids: Seq<u128>, k: int)
    requires
        states.len() == ids.len() + 1,
        forall|k: int| 0 <= k < ids.len() ==> issues(#[trigger] states[k], ids[k], states[k + 1]),
        0 <= k <= ids.len(),
    ensures
        states[k].next == states[0].next + k,
    decreases k,
{
    if k > 0 {
        lemma_issued_offset(states, ids, k - 1);
        assert(issues(states[k - 1], ids[k - 1], states[k]));
    }
}

/// The collision-relevant part of every entity.
#[derive(Clone, Copy, Debug)]
pub struct MovementAndCollision {
    pub id: u128,
    pub radius: i64,
    pub position: Vec3,
    pub been_hit: bool,
    pub moved: bool,
}

/// `a` overlaps `b`: their distance is below `a`'s radius alone.
pub open spec fn hits(a: MovementAndCollision, b: MovementAndCollision) -> bool {
    0 <= a.radius && dist2(a.position, b.position) < a.radius * a.radius
}

/// Overlap depends on the first record's radius alone: changing the second
/// record's radius never changes the outcome, and the test is not symmetric,
/// since swapping the records swaps which radius counts.
pub proof fn lemma_overlap_uses_first_radius(a: MovementAndCollision, b: MovementAndCollision, r: i64)
    ensures
        hits(a, b) == hits(a, MovementAndCollision { radius: r, ..b }),
        hits(b, a) == (0 <= b.radius && dist2(a.position, b.position) < b.radius * b.radius),
{
    assert(dist2(b.position, a.position) == dist2(a.position, b.position)) by (nonlinear_arith);
}

impl MovementAndCollision {
    pub open spec fn wf(self) -> bool {
        0 <= self.radius && in_world(self.position)
    }

    pub fn new(ids: &mut IdSource, radius: i64, position: Vec3) -> (r: MovementAndCollision)
        requires
            ids_left(*old(ids)) >= 1,
        ensures
            issues(*old(ids), r.id, *final(ids)),
            r.radius == radius,
            r.position == position,
            !r.been_hit,
            !r.moved,
    {
        MovementAndCollision {
            id: get_next_id(ids),
            radius,
            position,
            been_hit: false,
            moved: false,
        }
    }

    /// Whether the distance between the two positions is below this record's
    /// radius; the other record's radius plays no part.
    pub fn hit_other(&self, other: &MovementAndCollision) -> (r: bool)
        requires
            in_world(self.position),
            in_world(other.position),
        ensures
            r == hits(*self, *other),
    {
        if self.radius < 0 {
            return false;
        }
        let dx: i128 = self.position.x as i128 - other.position.x as i128;
        let dy: i128 = self.position.y as i128 - other.position.y as i128;
        let dz: i128 = self.position.z as i128 - other.position.z as i128;
        assert(0 <= dx * dx <= 4_000_000_000_000_000_000_000_000) by (nonlinear_arith)
            requires -2_000_000_000_000 <= dx <= 2_000_000_000_000;
        assert(0 <= dy * dy <= 4_000_000_000_000_000_000_000_000) by (nonlinear_arith)
            requires -2_000_000_000_000 <= dy <= 2_000_000_000_000;
        assert(0 <= dz * dz <= 4_000_000_000_000_000_000_000_000) by (nonlinear_arith)
            requires -2_000_000_000_000 <= dz <= 2_000_000_000_000;
        let r: i128 = self.radius as i128;
        assert(0 <= r * r <= 0x7fff_ffff_ffff_ffff * 0x7fff_ffff_ffff_ffff) by (nonlinear_arith)
            requires 0 <= r <= 0x7fff_ffff_ffff_ffff;
        dx * dx + dy * dy + dz * dz < r * r
    }
}

/// An enemy unit of the formation.
#[derive(Clone, Copy, Debug)]
pub struct MovingAlien {
    pub movement_collision: MovementAndCollision,
    /// Facing angle in whole degrees, below 360.
    pub spin: i64,
    pub drop_down: bool,
    pub landed: bool,
    pub time_to_live: i32,
    /// Render scale, in millionths.
    pub scale: i64,
}

/// Every unit of `s` has an identifier below `n`.
pub open spec fn units_below(s: Seq<MovingAlien>, n: int) -> bool {
    forall|i: int| 0 <= i < s.len() ==> (#[trigger] s[i]).movement_collision.id < n
}

impl MovingAlien {
    pub open spec fn wf(self) -> bool {
        self.movement_collision.wf() && 0 <= self.spin < 360 && 0 <= self.scale
    }

    pub fn new(ids: &mut IdSource, position: Vec3, radius: i64, scale: i64) -> (r: MovingAlien)
        requires
            ids_left(*old(ids)) >= 1,
        ensures
            issues(*old(ids), r.movement_collision.id, *final(ids)),
            r.movement_collision.radius == radius,
            r.movement_collision.position == position,
            !r.movement_collision.been_hit,
            !r.movement_collision.moved,
            r.spin == 0,
            !r.drop_down,
            !r.landed,
            r.time_to_live == 0,
            r.scale == scale,
    {
        MovingAlien {
            movement_collision: MovementAndCollision::new(ids, radius, position),
            spin: 0,
            drop_down: false,
            landed: false,
            time_to_live: 0,
            scale,
        }
    }
}

/// The ground plane the units land on.
pub struct Ground {
    pub height: i64,
}

impl Ground {
    pub fn new() -> (r: Ground)
        ensures
            r.height == GROUND,
    {
        Ground { height: GROUND }
    }
}

} // verus!
