//! The swarm controller: formation sweep, collective descent, single-unit
//! drops, and regeneration of the formation.
use vstd::prelude::*;
use crate::chance::draw;
use crate::game::{
    clamp, clamp_coord, coord_ok, delta_ok, ids_left, units_below, IdSource, MovementAndCollision, MovingAlien, Vec3,
    ALIEN_RADIUS, ALIEN_SCALE, GRID_WIDTH, GROUND, MAX_DELTA, ROW_SIZE, SCALE,
};

verus! {

/// Size of one cell of the sweep area, in millionths of a unit.
pub const SCALE_GRID: i64 = 30_000;
/// A unit lands once its height minus this margin is below the ground.
pub const TOUCH_GROUND: i64 = 20_000;
/// How far the march height drops after four laps.
pub const MOVE_DOWN_TARGET: i64 = 120_000;
/// March height of a fresh formation.
pub const MARCH_START: i64 = 300_000;
/// Sweep speed multiplier, in thousandths.
pub const DIFFICULTY: i64 = 30;
/// Descent per nominal frame, in millionths of a unit per thousandth of a frame.
pub const DESCENT_RATE: i64 = 10;
/// A drop starts only when a draw from `[0, 100)` exceeds this.
pub const DROP_THRESHOLD: u64 = 75;
/// Sweep turns happen past this bound on either horizontal axis.
pub const SWEEP_BOUND: i64 = GRID_WIDTH * SCALE_GRID;
/// Laps that make up one full circuit of the perimeter.
pub const LAPS_PER_ROW: i32 = 4;
/// Units in a fresh formation.
pub const ARMY_SIZE: usize = ROW_SIZE * ROW_SIZE;

pub struct AlienArmy {
    pub all_aliens: Vec<MovingAlien>,
    /// Sweep direction along x; the unit moves by minus this times the step.
    pub add_x: i64,
    /// Sweep direction along z; the unit moves by minus this times the step.
    pub add_z: i64,
    /// Height every sweeping unit is pinned to.
    pub march_down: i64,
    /// Collective descent in progress.
    pub all_move_down: bool,
    /// Sides of the perimeter completed since the last row drop.
    pub lap: i32,
}

/// Neither dropping nor landed: the unit moves with the formation.
pub open spec fn eligible(a: MovingAlien) -> bool {
    !a.drop_down && !a.landed
}

/// Dropping and not yet landed.
pub open spec fn falling(a: MovingAlien) -> bool {
    a.drop_down && !a.landed
}

pub open spec fn descent_step(delta: int) -> int {
    DESCENT_RATE * delta
}

pub open spec fn sweep_step(delta: int) -> int {
    (delta * SCALE * DIFFICULTY) / 1_000_000
}

/// Moves a unit down by `down`, optionally turning it, and lands it once it
/// touches the ground.
pub open spec fn descend(a: MovingAlien, down: int, spin: bool) -> MovingAlien {
    let y = clamp(a.movement_collision.position.y - down);
    MovingAlien {
        movement_collision: MovementAndCollision {
            position: Vec3 { y: y as i64, ..a.movement_collision.position },
            ..a.movement_collision
        },
        spin: if spin { ((a.spin + 1) % 360) as i64 } else { a.spin },
        landed: a.landed || y - TOUCH_GROUND < GROUND,
        ..a
    }
}

/// Moves a unit along the sweep direction at the march height.
pub open spec fn sweep(a: MovingAlien, add_x: int, add_z: int, march: int, step: int) -> MovingAlien {
    let p = a.movement_collision.position;
    MovingAlien {
        movement_collision: MovementAndCollision {
            position: Vec3 {
                x: clamp(p.x - add_x * step) as i64,
                y: march as i64,
                z: clamp(p.z - add_z * step) as i64,
            },
            moved: true,
            ..a.movement_collision
        },
        ..a
    }
}

/// One frame of movement of one unit under the given army state.
pub open spec fn step_unit(a: MovingAlien, army: AlienArmy, delta: int) -> MovingAlien {
    let down = descent_step(delta);
    let a1 = if a.drop_down && !a.movement_collision.been_hit && !a.landed {
        descend(a, down, true)
    } else {
        a
    };
    if army.all_move_down {
        if eligible(a1) {
            descend(a1, down, false)
        } else {
            a1
        }
    } else if eligible(a1) {
        sweep(a1, army.add_x as int, army.add_z as int, army.march_down as int, sweep_step(delta))
    } else {
        a1
    }
}

pub open spec fn stepped_all(p: Seq<MovingAlien>, army: AlienArmy, delta: int) -> Seq<MovingAlien> {
    Seq::new(p.len(), |i: int| step_unit(p[i], army, delta))
}

/// The moved flag set exactly on the units that are falling.
pub open spec fn mark_moving(a: MovingAlien) -> MovingAlien {
    MovingAlien {
        movement_collision: MovementAndCollision { moved: falling(a), ..a.movement_collision },
        ..a
    }
}

pub open spec fn set_dropping(a: MovingAlien) -> MovingAlien {
    MovingAlien { drop_down: true, ..a }
}

pub open spec fn wrap(v: int, n: int) -> int {
    if v < n {
        v
    } else {
        v - n
    }
}

/// The unit `j` places after `start`, wrapping round, is eligible.
pub open spec fn free_at(s: Seq<MovingAlien>, start: int, j: int) -> bool {
    eligible(s[wrap(start + j, s.len() as int)])
}

/// `j` is the first offset from `start` at which an eligible unit stands.
pub open spec fn first_free(s: Seq<MovingAlien>, start: int, j: int) -> bool {
    0 <= j < s.len() && free_at(s, start, j) && forall|i: int| 0 <= i < j ==> !#[trigger] free_at(s, start, i)
}

/// The units after the start of a frame: moved flags reset, and at most one
/// new unit dropping, chosen by the draw and the start index.
pub open spec fn picked(s: Seq<MovingAlien>, draw: u64, start: int) -> Seq<MovingAlien> {
    let r = s.map_values(|a: MovingAlien| mark_moving(a));
    if (forall|i: int| 0 <= i < s.len() ==> !#[trigger] falling(s[i])) && s.len() > 0 && draw
        > DROP_THRESHOLD && exists|j: int| first_free(s, start, j) {
        let j = choose|j: int| first_free(s, start, j);
        let k = wrap(start + j, s.len() as int);
        r.update(k, set_dropping(r[k]))
    } else {
        r
    }
}

/// Running extremes of the sweeping units' horizontal coordinates, each
/// starting from zero: (max x, min x, max z, min z).
pub open spec fn extremes(t: Seq<MovingAlien>) -> (int, int, int, int)
    decreases t.len(),
{
    if t.len() == 0 {
        (0, 0, 0, 0)
    } else {
        let (mx, nx, mz, nz) = extremes(t.drop_last());
        let a = t.last();
        let p = a.movement_collision.position;
        if eligible(a) {
            (
                if p.x > mx { p.x as int } else { mx },
                if p.x < nx { p.x as int } else { nx },
                if p.z > mz { p.z as int } else { mz },
                if p.z < nz { p.z as int } else { nz },
            )
        } else {
            (mx, nx, mz, nz)
        }
    }
}

/// Height of the last unit that took part in the collective descent, or
/// zero when none did.
pub open spec fn last_descent_y(p: Seq<MovingAlien>, t: Seq<MovingAlien>) -> int
    decreases p.len(),
{
    if p.len() == 0 || t.len() != p.len() {
        0
    } else if eligible(p.last()) {
        t.last().movement_collision.position.y as int
    } else {
        last_descent_y(p.drop_last(), t.drop_last())
    }
}

/// The sweep turn taken on the given extremes: new (add_x, add_z, lap).
pub open spec fn turned(add_x: int, add_z: int, lap: int, e: (int, int, int, int)) -> (int, int, int) {
    let (mx, nx, mz, nz) = e;
    if add_z == 0 && mx > SWEEP_BOUND {
        (0, -1, lap + 1)
    } else if add_x != -1 && nz < -SWEEP_BOUND {
        (-1, 0, lap + 1)
    } else if add_z != 1 && nx < -SWEEP_BOUND {
        (0, 1, lap + 1)
    } else if add_x != 1 && mz > SWEEP_BOUND {
        (1, 0, lap + 1)
    } else {
        (add_x, add_z, lap)
    }
}

/// The army's scalar state after a frame in which the units went from `p`
/// to `t`: (add_x, add_z, lap, all_move_down, march_down).
pub open spec fn sweep_state(old: AlienArmy, p: Seq<MovingAlien>, t: Seq<MovingAlien>) -> (
    int,
    int,
    int,
    bool,
    int,
) {
    let e = if old.all_move_down {
        (0, 0, 0, 0)
    } else {
        extremes(t)
    };
    let last_y = if old.all_move_down {
        last_descent_y(p, t)
    } else {
        0
    };
    let (ax, az, lap) = turned(old.add_x as int, old.add_z as int, old.lap as int, e);
    let descending = old.all_move_down && !(last_y <= old.march_down);
    if lap >= LAPS_PER_ROW {
        (ax, az, 0, true, clamp(old.march_down - MOVE_DOWN_TARGET))
    } else {
        (ax, az, lap, descending, old.march_down as int)
    }
}

/// `new` is `old` after one frame of movement with the given draws.
pub open spec fn frame_moved(old: AlienArmy, new: AlienArmy, delta: int, draw: u64, start: int) -> bool {
    let p = picked(old.all_aliens@, draw, start);
    &&& new.all_aliens@ == stepped_all(p, old, delta)
    &&& sweep_state(old, p, new.all_aliens@) == (
        new.add_x as int,
        new.add_z as int,
        new.lap as int,
        new.all_move_down,
        new.march_down as int,
    )
}

/// Number of landed units.
pub open spec fn landed_count(s: Seq<MovingAlien>) -> nat
    decreases s.len(),
{
    if s.len() == 0 {
        0
    } else {
        landed_count(s.drop_last()) + if s.last().landed { 1nat } else { 0nat }
    }
}

/// The landed units, in their order.
pub open spec fn landed_only(s: Seq<MovingAlien>) -> Seq<MovingAlien>
    decreases s.len(),
{
    if s.len() == 0 {
        Seq::empty()
    } else if s.last().landed {
        landed_only(s.drop_last()).push(s.last())
    } else {
        landed_only(s.drop_last())
    }
}

/// Where unit `k` of a fresh formation stands.
pub open spec fn grid_position(k: int) -> Vec3 {
    Vec3 {
        x: ((k / ROW_SIZE as int) * SCALE - ROW_SIZE * SCALE / 2) as i64,
        y: MARCH_START,
        z: ((k % ROW_SIZE as int) * SCALE - ROW_SIZE * SCALE / 2) as i64,
    }
}

/// Unit `k` of a fresh formation, given its identifier.
pub open spec fn fresh_unit(k: int, id: u128) -> MovingAlien {
    MovingAlien {
        movement_collision: MovementAndCollision {
            id,
            radius: ALIEN_RADIUS,
            position: grid_position(k),
            been_hit: false,
            moved: false,
        },
        spin: 0,
        drop_down: false,
        landed: false,
        time_to_live: 0,
        scale: ALIEN_SCALE,
    }
}

/// The fresh formation whose identifiers start at `first`.
pub open spec fn fresh_army(first: u128) -> Seq<MovingAlien> {
    Seq::new(ARMY_SIZE as nat, |k: int| fresh_unit(k, (first + k) as u128))
}


/// The sweep turns from purely horizontal to depth-negative exactly when the
/// largest tracked x passes the bound; every turn adds exactly one lap; the
/// fourth lap resets the count, starts the collective descent and lowers
/// the march height by `MOVE_DOWN_TARGET`; without a turn, laps and march
/// height stay as they were. Directions stay on one axis at a time.
pub proof fn lemma_sweep_turns(old: AlienArmy, p: Seq<MovingAlien>, t: Seq<MovingAlien>)
    requires
        old.wf(),
    ensures
        ({
            let (ax, az, lap, descending, march) = sweep_state(old, p, t);
            let e = if old.all_move_down {
                (0int, 0int, 0int, 0int)
            } else {
                extremes(t)
            };
            let turn = ax != old.add_x || az != old.add_z;
            &&& old.add_z == 0 ==> ((ax == 0 && az == -1) <==> e.0 > SWEEP_BOUND)
            &&& (ax == 0) != (az == 0)
            &&& -1 <= ax <= 1 && -1 <= az <= 1
            &&& turn && old.lap + 1 == LAPS_PER_ROW ==> lap == 0 && descending && march == clamp(
                old.march_down - MOVE_DOWN_TARGET,
            )
            &&& turn && old.lap + 1 < LAPS_PER_ROW ==> lap == old.lap + 1 && march == old.march_down
            &&& !turn ==> lap == old.lap && march == old.march_down
        }),
{
}

/// A landed unit stays landed, and where it is, through a frame of
/// movement; a unit that falls this frame lands exactly when its new height
/// minus the touch margin is below the ground.
pub proof fn lemma_landed_stays(s: Seq<MovingAlien>, army: AlienArmy, delta: int, draw: u64, start: int)
    requires
        s.len() > 0 ==> 0 <= start < s.len(),
    ensures
        ({
            let q = picked(s, draw, start);
            let t = stepped_all(q, army, delta);
            &&& q.len() == s.len() && t.len() == s.len()
            &&& forall|i: int| 0 <= i < s.len() && s[i].landed ==> (#[trigger] t[i]).landed
            &&& forall|i: int|
                0 <= i < s.len() && s[i].landed ==> (#[trigger] t[i]).movement_collision.position
                    == s[i].movement_collision.position && t[i].movement_collision.id
                    == s[i].movement_collision.id
            &&& forall|i: int|
                0 <= i < s.len() && falling(q[i]) && !q[i].movement_collision.been_hit
                    ==> (#[trigger] t[i]).landed == (clamp(
                    q[i].movement_collision.position.y - descent_step(delta),
                ) - TOUCH_GROUND < GROUND)
        }),
{
    let q = picked(s, draw, start);
    assert forall|i: int| 0 <= i < s.len() implies #[trigger] q[i].landed == s[i].landed
        && q[i].movement_collision.position == s[i].movement_collision.position
        && q[i].movement_collision.id == s[i].movement_collision.id by {
        assert(q[i].landed == s[i].landed);
    }
}

fn descend_exec(a: MovingAlien, down: i64, spin: bool) -> (r: MovingAlien)
    requires
        a.wf(),
        0 <= down <= DESCENT_RATE * MAX_DELTA,
    ensures
        r == descend(a, down as int, spin),
        r.wf(),
{
    let y = clamp_coord(a.movement_collision.position.y - down);
    MovingAlien {
        movement_collision: MovementAndCollision {
            position: Vec3 { y, ..a.movement_collision.position },
            ..a.movement_collision
        },
        spin: if spin { (a.spin + 1) % 360 } else { a.spin },
        landed: a.landed || y - TOUCH_GROUND < GROUND,
        ..a
    }
}

fn step_alien(a: MovingAlien, army: &AlienArmy, delta: i64, down: i64, step: i64) -> (r: MovingAlien)
    requires
        a.wf(),
        army.wf(),
        delta_ok(delta as int),
        down == descent_step(delta as int),
        step == sweep_step(delta as int),
    ensures
        r == step_unit(a, *army, delta as int),
        r.wf(),
{
    let a1 = if a.drop_down && !a.movement_collision.been_hit && !a.landed {
        descend_exec(a, down, true)
    } else {
        a
    };
    if army.all_move_down {
        if !a1.drop_down && !a1.landed {
            descend_exec(a1, down, false)
        } else {
            a1
        }
    } else if !a1.drop_down && !a1.landed {
        let p = a1.movement_collision.position;
        let dx: i64 = if army.add_x > 0 { step } else if army.add_x < 0 { -step } else { 0 };
        let dz: i64 = if army.add_z > 0 { step } else if army.add_z < 0 { -step } else { 0 };
        let ax = army.add_x;
        let az = army.add_z;
        assert(dx == ax * step) by (nonlinear_arith)
            requires -1 <= ax <= 1, dx == (if ax > 0 { step as int } else if ax < 0 { -step } else { 0int });
        assert(dz == az * step) by (nonlinear_arith)
            requires -1 <= az <= 1, dz == (if az > 0 { step as int } else if az < 0 { -step } else { 0int });
        let x = clamp_coord(p.x - dx);
        let z = clamp_coord(p.z - dz);
        MovingAlien {
            movement_collision: MovementAndCollision {
                position: Vec3 { x, y: army.march_down, z },
                moved: true,
                ..a1.movement_collision
            },
            ..a1
        }
    } else {
        a1
    }
}

/// Keeping only the landed units keeps every identifier below its bound.
pub proof fn lemma_landed_only_below(s: Seq<MovingAlien>, n: int)
    requires
        units_below(s, n),
    ensures
        units_below(landed_only(s), n),
    decreases s.len(),
{
    if s.len() > 0 {
        lemma_landed_only_below(s.drop_last(), n);
        assert(s.last() == s[s.len() - 1]);
    }
}

impl AlienArmy {
    pub open spec fn wf(self) -> bool {
        &&& -1 <= self.add_x <= 1
        &&& -1 <= self.add_z <= 1
        &&& (self.add_x == 0) != (self.add_z == 0)
        &&& 0 <= self.lap < LAPS_PER_ROW
        &&& coord_ok(self.march_down as int)
        &&& forall|i: int| 0 <= i < self.all_aliens@.len() ==> (#[trigger] self.all_aliens@[i]).wf()
    }

    /// The sweep state of a fresh formation: moving along x, no laps, no
    /// descent, at the starting march height.
    pub open spec fn at_start(self) -> bool {
        self.add_x == 1 && self.add_z == 0 && self.lap == 0 && !self.all_move_down && self.march_down
            == MARCH_START
    }

    pub fn new() -> (r: AlienArmy)
        ensures
            r.wf(),
            r.at_start(),
            r.all_aliens@ == Seq::<MovingAlien>::empty(),
    {
        AlienArmy {
            all_aliens: Vec::new(),
            add_x: 1,
            add_z: 0,
            march_down: MARCH_START,
            all_move_down: false,
            lap: 0,
        }
    }

    /// Resets the moved flags and, when no unit is falling and `draw` exceeds
    /// the threshold, starts the first eligible unit from `start` on (wrapping
    /// round) dropping. Returns the descent step of this frame.
    fn move_down_picker(&mut self, delta: i64, draw: u64, start: usize) -> (down: i64)
        requires
            old(self).wf(),
            delta_ok(delta as int),
            old(self).all_aliens@.len() > 0 ==> start < old(self).all_aliens@.len(),
        ensures
            final(self).wf(),
            final(self).all_aliens@ == picked(old(self).all_aliens@, draw, start as int),
            final(self).add_x == old(self).add_x,
            final(self).add_z == old(self).add_z,
            final(self).lap == old(self).lap,
            final(self).all_move_down == old(self).all_move_down,
            final(self).march_down == old(self).march_down,
            down == descent_step(delta as int),
    {
        let ghost s = self.all_aliens@;
        let n = self.all_aliens.len();
        let mut any_falling = false;
        let mut i: usize = 0;
        while i < n
            invariant
                n == self.all_aliens@.len(),
                n == s.len(),
                0 <= i <= n,
                forall|k: int| 0 <= k < i ==> self.all_aliens@[k] == mark_moving(#[trigger] s[k]),
                forall|k: int| i <= k < n ==> self.all_aliens@[k] == s[k],
                forall|k: int| 0 <= k < n ==> (#[trigger] s[k]).wf(),
                !any_falling ==> forall|k: int| 0 <= k < i ==> !#[trigger] falling(s[k]),
                any_falling ==> exists|k: int| 0 <= k < i && #[trigger] falling(s[k]),
                self.wf(),
                self.add_x == old(self).add_x,
                self.add_z == old(self).add_z,
                self.lap == old(self).lap,
                self.all_move_down == old(self).all_move_down,
                self.march_down == old(self).march_down,
                s == old(self).all_aliens@,
            decreases n - i,
        {
            let a = self.all_aliens[i];
            let f = a.drop_down && !a.landed;
            if f {
                assert(falling(s[i as int]));
                any_falling = true;
            }
            self.all_aliens.set(
                i,
                MovingAlien { movement_collision: MovementAndCollision { moved: f, ..a.movement_collision }, ..a },
            );
            i = i + 1;
        }
        let ghost r = s.map_values(|a: MovingAlien| mark_moving(a));
        assert(self.all_aliens@ =~= r);
        if !any_falling && n > 0 && draw > DROP_THRESHOLD {
            let mut j: usize = 0;
            let mut idx: usize = start;
            let mut done = false;
            while j < n && !done
                invariant
                    n == self.all_aliens@.len(),
                    n == s.len(),
                    r.len() == n,
                    r == s.map_values(|a: MovingAlien| mark_moving(a)),
                    start < n,
                    0 <= j <= n,
                    j < n ==> idx == wrap(start + j, n as int),
                    forall|k: int| 0 <= k < n ==> (#[trigger] s[k]).wf(),
                    forall|i: int| 0 <= i < j ==> !#[trigger] free_at(s, start as int, i),
                    !done ==> self.all_aliens@ == r,
                    done ==> j < n && free_at(s, start as int, j as int) && self.all_aliens@ == r.update(
                        idx as int,
                        set_dropping(r[idx as int]),
                    ),
                    self.wf(),
                    self.add_x == old(self).add_x,
                    self.add_z == old(self).add_z,
                    self.lap == old(self).lap,
                    self.all_move_down == old(self).all_move_down,
                    self.march_down == old(self).march_down,
                decreases 2 * (n - j) + (if done { 0int } else { 1int }),
            {
                let a = self.all_aliens[idx];
                assert(a == mark_moving(s[idx as int]));
                if !a.drop_down && !a.landed {
                    self.all_aliens.set(idx, MovingAlien { drop_down: true, ..a });
                    done = true;
                } else {
                    j = j + 1;
                    idx = if idx + 1 >= n { 0 } else { idx + 1 };
                }
            }
            if done {
                assert(first_free(s, start as int, j as int));
                let ghost jj = choose|jj: int| first_free(s, start as int, jj);
                assert(jj == j) by {
                    if jj < j {
                        assert(!free_at(s, start as int, jj));
                    } else if jj > j {
                        assert(!free_at(s, start as int, j as int));
                    }
                }
            } else {
                assert forall|jj: int| !first_free(s, start as int, jj) by {
                    if 0 <= jj < n {
                        assert(!free_at(s, start as int, jj));
                    }
                }
            }
        } else {
            if any_falling {
                let ghost k = choose|k: int| 0 <= k < n && #[trigger] falling(s[k]);
                assert(falling(s[k]));
            }
        }
        DESCENT_RATE * delta
    }

    /// One frame of formation movement with the random draws given: `draw`
    /// decides whether a new drop may start, `start` where the search for a
    /// unit to drop begins.
    pub fn update_with(&mut self, delta: i64, draw: u64, start: usize)
        requires
            old(self).wf(),
            delta_ok(delta as int),
            old(self).all_aliens@.len() > 0 ==> start < old(self).all_aliens@.len(),
        ensures
            final(self).wf(),
            frame_moved(*old(self), *final(self), delta as int, draw, start as int),
            final(self).all_aliens@.len() == old(self).all_aliens@.len(),
            forall|i: int|
                0 <= i < old(self).all_aliens@.len() ==> (#[trigger] final(self).all_aliens@[i]).movement_collision.id
                    == old(self).all_aliens@[i].movement_collision.id,
    {
        let ghost s0 = self.all_aliens@;
        let down = self.move_down_picker(delta, draw, start);
        let ghost p = self.all_aliens@;
        let step: i64 = delta * SCALE * DIFFICULTY / 1_000_000;
        let n = self.all_aliens.len();
        let mut t: Vec<MovingAlien> = Vec::new();
        let mut max_x: i64 = 0;
        let mut min_x: i64 = 0;
        let mut max_z: i64 = 0;
        let mut min_z: i64 = 0;
        let mut last_y: i64 = 0;
        let mut i: usize = 0;
        while i < n
            invariant
                n == p.len(),
                self.all_aliens@ == p,
                self.wf(),
                delta_ok(delta as int),
                down == descent_step(delta as int),
                step == sweep_step(delta as int),
                0 <= i <= n,
                t@.len() == i,
                forall|k: int| 0 <= k < i ==> t@[k] == step_unit(#[trigger] p[k], *self, delta as int),
                forall|k: int| 0 <= k < i ==> (#[trigger] t@[k]).wf(),
                !self.all_move_down ==> (max_x as int, min_x as int, max_z as int, min_z as int) == extremes(t@),
                self.all_move_down ==> max_x == 0 && min_x == 0 && max_z == 0 && min_z == 0,
                self.all_move_down ==> last_y == last_descent_y(p.subrange(0, i as int), t@),
                !self.all_move_down ==> last_y == 0,
                coord_ok(max_x as int) && coord_ok(min_x as int) && coord_ok(max_z as int) && coord_ok(min_z as int),
            decreases n - i,
        {
            let a = self.all_aliens[i];
            let a2 = step_alien(a, self, delta, down, step);
            let ghost t0 = t@;
            t.push(a2);
            assert(t@.drop_last() =~= t0);
            assert(p.subrange(0, i + 1).drop_last() =~= p.subrange(0, i as int));
            if self.all_move_down {
                if !a.drop_down && !a.landed {
                    last_y = a2.movement_collision.position.y;
                }
            } else if !a2.drop_down && !a2.landed {
                let q = a2.movement_collision.position;
                if q.x > max_x {
                    max_x = q.x;
                }
                if q.x < min_x {
                    min_x = q.x;
                }
                if q.z > max_z {
                    max_z = q.z;
                }
                if q.z < min_z {
                    min_z = q.z;
                }
            }
            i = i + 1;
        }
        assert(p.subrange(0, n as int) =~= p);
        assert(t@ =~= stepped_all(p, *old(self), delta as int));
        assert forall|k: int| 0 <= k < n implies (#[trigger] p[k]).movement_collision.id == s0[k].movement_collision.id by {
            if exists|j: int| first_free(s0, start as int, j) {
                let j = choose|j: int| first_free(s0, start as int, j);
                let k0 = wrap(start + j, s0.len() as int);
                if k == k0 {
                    assert(p[k].movement_collision.id == s0[k].movement_collision.id);
                }
            }
        }
        self.all_aliens = t;
        if self.add_z == 0 && max_x > SWEEP_BOUND {
            self.add_x = 0;
            self.add_z = -1;
            self.lap = self.lap + 1;
        } else if self.add_x != -1 && min_z < -SWEEP_BOUND {
            self.add_x = -1;
            self.add_z = 0;
            self.lap = self.lap + 1;
        } else if self.add_z != 1 && min_x < -SWEEP_BOUND {
            self.add_x = 0;
            self.add_z = 1;
            self.lap = self.lap + 1;
        } else if self.add_x != 1 && max_z > SWEEP_BOUND {
            self.add_x = 1;
            self.add_z = 0;
            self.lap = self.lap + 1;
        }
        if last_y <= self.march_down {
            self.all_move_down = false;
        }
        if self.lap >= LAPS_PER_ROW {
            self.lap = 0;
            self.all_move_down = true;
            self.march_down = clamp_coord(self.march_down - MOVE_DOWN_TARGET);
        }
    }

    /// One frame of formation movement, with fresh random draws.
    pub fn update(&mut self, delta: i64)
        requires
            old(self).wf(),
            delta_ok(delta as int),
        ensures
            final(self).wf(),
            exists|draw: u64, start: int|
                draw < 100 && (old(self).all_aliens@.len() > 0 ==> 0 <= start < old(self).all_aliens@.len())
                    && #[trigger] frame_moved(*old(self), *final(self), delta as int, draw, start),
            final(self).all_aliens@.len() == old(self).all_aliens@.len(),
            forall|i: int|
                0 <= i < old(self).all_aliens@.len() ==> (#[trigger] final(self).all_aliens@[i]).movement_collision.id
                    == old(self).all_aliens@[i].movement_collision.id,
    {
        let d = draw(0, 100);
        let n = self.all_aliens.len();
        let start: usize = if n > 0 { draw(0, n as u64) as usize } else { 0 };
        self.update_with(delta, d, start);
        assert(frame_moved(*old(self), *self, delta as int, d, start as int));
    }

    /// Restores the starting sweep state, keeps only the landed units, and
    /// adds a fresh formation.
    fn create_new_army(&mut self, ids: &mut IdSource)
        requires
            old(self).wf(),
            ids_left(*old(ids)) >= ARMY_SIZE,
        ensures
            final(self).wf(),
            final(self).at_start(),
            final(self).all_aliens@ == landed_only(old(self).all_aliens@) + fresh_army(old(ids).next),
            final(ids).next == old(ids).next + ARMY_SIZE,
    {
        self.add_x = 1;
        self.add_z = 0;
        self.lap = 0;
        self.all_move_down = false;
        self.march_down = MARCH_START;
        let n = self.all_aliens.len();
        let mut kept: Vec<MovingAlien> = Vec::new();
        let mut i: usize = 0;
        while i < n
            invariant
                n == self.all_aliens@.len(),
                0 <= i <= n,
                kept@ == landed_only(self.all_aliens@.subrange(0, i as int)),
                forall|k: int| 0 <= k < self.all_aliens@.len() ==> (#[trigger] self.all_aliens@[k]).wf(),
                forall|k: int| 0 <= k < kept@.len() ==> (#[trigger] kept@[k]).wf(),
            decreases n - i,
        {
            let a = self.all_aliens[i];
            assert(self.all_aliens@.subrange(0, i + 1).drop_last() =~= self.all_aliens@.subrange(0, i as int));
            if a.landed {
                kept.push(a);
            }
            i = i + 1;
        }
        assert(self.all_aliens@.subrange(0, n as int) =~= self.all_aliens@);
        let ghost base = kept@;
        let ghost first = ids.next;
        let half: i64 = (ROW_SIZE as i64) * SCALE / 2;
        let mut k: usize = 0;
        while k < ARMY_SIZE
            invariant
                0 <= k <= ARMY_SIZE,
                ids.next == first + k,
                ids_left(*ids) >= ARMY_SIZE - k,
                half == ROW_SIZE * SCALE / 2,
                kept@ == base + fresh_army(first).subrange(0, k as int),
                forall|j: int| 0 <= j < kept@.len() ==> (#[trigger] kept@[j]).wf(),
            decreases ARMY_SIZE - k,
        {
            let row: i64 = (k / ROW_SIZE) as i64;
            let col: i64 = (k % ROW_SIZE) as i64;
            let position = Vec3 { x: row * SCALE - half, y: MARCH_START, z: col * SCALE - half };
            let alien = MovingAlien::new(ids, position, ALIEN_RADIUS, ALIEN_SCALE);
            assert(alien == fresh_unit(k as int, (first + k) as u128));
            kept.push(alien);
            assert(fresh_army(first).subrange(0, k + 1) =~= fresh_army(first).subrange(0, k as int).push(
                fresh_unit(k as int, (first + k) as u128),
            ));
            k = k + 1;
        }
        assert(fresh_army(first).subrange(0, ARMY_SIZE as int) =~= fresh_army(first));
        self.all_aliens = kept;
    }

    /// Regenerates the formation when it is empty or every unit has landed.
    /// Returns whether it did, and the landed count it saw (zero when it did
    /// not regenerate).
    pub fn create_new_army_if_needed(&mut self, ids: &mut IdSource) -> (r: (bool, usize))
        requires
            old(self).wf(),
            ids_left(*old(ids)) >= ARMY_SIZE,
        ensures
            final(self).wf(),
            r.0 == (old(self).all_aliens@.len() == landed_count(old(self).all_aliens@)),
            r.0 ==> {
                &&& r.1 == landed_count(old(self).all_aliens@)
                &&& final(self).at_start()
                &&& final(self).all_aliens@ == landed_only(old(self).all_aliens@) + fresh_army(old(ids).next)
                &&& final(ids).next == old(ids).next + ARMY_SIZE
            },
            !r.0 ==> r.1 == 0 && *final(self) == *old(self) && *final(ids) == *old(ids),
            units_below(old(self).all_aliens@, old(ids).next as int) ==> units_below(
                final(self).all_aliens@,
                final(ids).next as int,
            ),
    {
        let ghost s0 = self.all_aliens@;
        let ghost first = ids.next;
        let n = self.all_aliens.len();
        let mut landed: usize = 0;
        let mut i: usize = 0;
        while i < n
            invariant
                n == self.all_aliens@.len(),
                0 <= i <= n,
                landed == landed_count(self.all_aliens@.subrange(0, i as int)),
                landed <= i,
            decreases n - i,
        {
            assert(self.all_aliens@.subrange(0, i + 1).drop_last() =~= self.all_aliens@.subrange(0, i as int));
            if self.all_aliens[i].landed {
                landed = landed + 1;
            }
            i = i + 1;
        }
        assert(self.all_aliens@.subrange(0, n as int) =~= self.all_aliens@);
        if n == 0 || n == landed {
            self.create_new_army(ids);
            proof {
                if units_below(s0, first as int) {
                    lemma_landed_only_below(s0, first as int);
                    let l = landed_only(s0);
                    let f = fresh_army(first);
                    assert forall|k: int| 0 <= k < self.all_aliens@.len() implies (
                    #[trigger] self.all_aliens@[k]).movement_collision.id < ids.next by {
                        if k < l.len() {
                            assert(self.all_aliens@[k] == l[k]);
                        } else {
                            assert(self.all_aliens@[k] == f[k - l.len()]);
                        }
                    }
                }
            }
            (true, landed)
        } else {
            (false, 0)
        }
    }
}

} // verus!
