//! The per-frame collision and removal cascade, and the state it reconciles:
//! formation, projectiles, particles, destroyed remnants, score and level.
use vstd::prelude::*;
use crate::alien_army::{landed_count, AlienArmy, ARMY_SIZE};
use crate::bullets::{bullets_below, dir_ok, lemma_kept_bullets_below, BulletInstance, Bullets};
use crate::explosion::{Explosions, BURST};
use crate::game::{delta_ok, DELTA_ONE, MAX_DELTA, hits, ids_left, in_world, IdSource, MovementAndCollision, MovingAlien, Vec3, BULLET_RADIUS, units_below};

verus! {

/// Countdown of a destroyed remnant.
pub const REMNANT_TICKS: i32 = 60;
/// Frames between two shots.
pub const FIRE_COOLDOWN: i32 = 30;
/// The fire countdown is pulled back to -1 once it falls below this.
pub const COUNTDOWN_FLOOR: i32 = -10000;
/// Frames between two status reports.
pub const REPORT_EVERY: i32 = 60;

/// Everything the simulation owns between frames.
pub struct World {
    pub army: AlienArmy,
    pub bullets: Bullets,
    pub explosions: Explosions,
    /// Destroyed units shrinking away.
    pub exploding: Vec<MovingAlien>,
    pub score: i64,
    pub level: i64,
    pub ids: IdSource,
    pub fire_countdown: i32,
}

/// What one collision pass found.
#[derive(Clone, Copy, Debug)]
pub struct Collisions {
    /// The player overlaps some unit and must go back to where it was.
    pub blocked: bool,
    /// Units destroyed this frame.
    pub destroyed: usize,
}

pub open spec fn sat_add(a: int, b: int) -> int {
    if a + b > i64::MAX {
        i64::MAX as int
    } else if a + b < i64::MIN {
        i64::MIN as int
    } else {
        a + b
    }
}

/// The projectiles of `bs` that do not overlap `a`, in their order.
pub open spec fn misses(bs: Seq<BulletInstance>, a: MovingAlien) -> Seq<BulletInstance>
    decreases bs.len(),
{
    if bs.len() == 0 {
        Seq::empty()
    } else {
        let rest = misses(bs.drop_last(), a);
        if hits(bs.last().collision, a.movement_collision) {
            rest
        } else {
            rest.push(bs.last())
        }
    }
}

/// The projectiles left once units `k` and above have been checked, from
/// the last unit down.
pub open spec fn bullets_left(us: Seq<MovingAlien>, bs: Seq<BulletInstance>, k: int) -> Seq<BulletInstance>
    decreases us.len() - k,
{
    if k >= us.len() || k < 0 {
        bs
    } else {
        misses(bullets_left(us, bs, k + 1), us[k])
    }
}

/// Unit `k` took at least one projectile.
pub open spec fn shot(us: Seq<MovingAlien>, bs: Seq<BulletInstance>, k: int) -> bool {
    bullets_left(us, bs, k).len() < bullets_left(us, bs, k + 1).len()
}

/// Unit `o` wins its overlap with unit `k`: `o` reaches `k`, and either `k`
/// does not reach back or, when both reach each other, `o` comes first.
pub open spec fn beats(us: Seq<MovingAlien>, o: int, k: int) -> bool {
    &&& 0 <= o < us.len()
    &&& 0 <= k < us.len()
    &&& us[o].movement_collision.id != us[k].movement_collision.id
    &&& hits(us[o].movement_collision, us[k].movement_collision)
    &&& (o < k || !hits(us[k].movement_collision, us[o].movement_collision))
}

/// Some other unit wins its overlap with unit `k`, which is destroyed.
pub open spec fn rammed(us: Seq<MovingAlien>, k: int) -> bool {
    exists|o: int| #[trigger] beats(us, o, k)
}

/// Unit `o` wins an overlap with some other unit, and starts dropping.
pub open spec fn rams(us: Seq<MovingAlien>, o: int) -> bool {
    exists|k: int| #[trigger] beats(us, o, k)
}

pub open spec fn destroyed(us: Seq<MovingAlien>, bs: Seq<BulletInstance>, k: int) -> bool {
    shot(us, bs, k) || rammed(us, k)
}

/// Unit `k`, dropping from now on if it overlaps another unit.
pub open spec fn marked(us: Seq<MovingAlien>, k: int) -> MovingAlien {
    MovingAlien { drop_down: us[k].drop_down || rams(us, k), ..us[k] }
}

pub open spec fn remnant_of(a: MovingAlien) -> MovingAlien {
    MovingAlien { time_to_live: REMNANT_TICKS, ..a }
}

/// The units among the first `n` that survive the pass, in order.
pub open spec fn survivors(us: Seq<MovingAlien>, bs: Seq<BulletInstance>, n: int) -> Seq<MovingAlien>
    decreases n,
{
    if n <= 0 {
        Seq::empty()
    } else if destroyed(us, bs, n - 1) {
        survivors(us, bs, n - 1)
    } else {
        survivors(us, bs, n - 1).push(marked(us, n - 1))
    }
}

/// The remnants of the units among the first `n` destroyed by the pass.
pub open spec fn remnants(us: Seq<MovingAlien>, bs: Seq<BulletInstance>, n: int) -> Seq<MovingAlien>
    decreases n,
{
    if n <= 0 {
        Seq::empty()
    } else if destroyed(us, bs, n - 1) {
        remnants(us, bs, n - 1).push(remnant_of(marked(us, n - 1)))
    } else {
        remnants(us, bs, n - 1)
    }
}

/// Where the particles of the bursts for `rs` start, burst by burst.
pub open spec fn burst_positions(rs: Seq<MovingAlien>) -> Seq<Vec3>
    decreases rs.len(),
{
    if rs.len() == 0 {
        Seq::empty()
    } else {
        burst_positions(rs.drop_last()) + Seq::new(
            BURST as nat,
            |i: int| rs.last().movement_collision.position,
        )
    }
}

/// One frame of shrinking for a remnant.
pub open spec fn aged_remnant(a: MovingAlien) -> MovingAlien {
    MovingAlien { time_to_live: (a.time_to_live - 1) as i32, scale: (a.scale * 9 / 10) as i64, ..a }
}

/// The remnants that remain after one frame, in order.
pub open spec fn kept_remnants(s: Seq<MovingAlien>) -> Seq<MovingAlien>
    decreases s.len(),
{
    if s.len() == 0 {
        Seq::empty()
    } else {
        let rest = kept_remnants(s.drop_last());
        let a = aged_remnant(s.last());
        if a.time_to_live > 0 {
            rest.push(a)
        } else {
            rest
        }
    }
}

pub open spec fn remnant_ok(a: MovingAlien) -> bool {
    a.wf() && 0 < a.time_to_live <= REMNANT_TICKS
}

proof fn lemma_misses_none(bs: Seq<BulletInstance>, a: MovingAlien)
    requires
        forall|j: int| 0 <= j < bs.len() ==> !#[trigger] hits(bs[j].collision, a.movement_collision),
    ensures
        misses(bs, a) == bs,
    decreases bs.len(),
{
    if bs.len() > 0 {
        let t = bs.drop_last();
        assert forall|j: int| 0 <= j < t.len() implies !#[trigger] hits(t[j].collision, a.movement_collision) by {
            assert(t[j] == bs[j]);
        }
        lemma_misses_none(t, a);
        assert(bs.drop_last().push(bs.last()) =~= bs);
    }
}

proof fn lemma_misses_sub(bs: Seq<BulletInstance>, a: MovingAlien)
    ensures
        forall|j: int| 0 <= j < misses(bs, a).len() ==> bs.contains(#[trigger] misses(bs, a)[j]),
        misses(bs, a).len() <= bs.len(),
    decreases bs.len(),
{
    if bs.len() > 0 {
        let t = bs.drop_last();
        lemma_misses_sub(t, a);
        let m = misses(bs, a);
        assert forall|j: int| 0 <= j < m.len() implies bs.contains(#[trigger] m[j]) by {
            if j < misses(t, a).len() {
                assert(m[j] == misses(t, a)[j]);
                assert(t.contains(m[j]));
                let i = choose|i: int| 0 <= i < t.len() && t[i] == m[j];
                assert(bs[i] == t[i]);
            } else {
                assert(m[j] == bs[bs.len() - 1]);
            }
        }
    }
}

proof fn lemma_left_sub(us: Seq<MovingAlien>, bs: Seq<BulletInstance>, k: int)
    ensures
        forall|j: int| 0 <= j < bullets_left(us, bs, k).len() ==> bs.contains(#[trigger] bullets_left(us, bs, k)[j]),
    decreases us.len() - k,
{
    if 0 <= k < us.len() {
        lemma_left_sub(us, bs, k + 1);
        let t = bullets_left(us, bs, k + 1);
        lemma_misses_sub(t, us[k]);
        let m = bullets_left(us, bs, k);
        assert forall|j: int| 0 <= j < m.len() implies bs.contains(#[trigger] m[j]) by {
            assert(t.contains(m[j]));
            let i = choose|i: int| 0 <= i < t.len() && t[i] == m[j];
            assert(bs.contains(t[i]));
        }
    }
}

/// A unit that no projectile of `bs` reaches is not shot.
proof fn lemma_not_shot(us: Seq<MovingAlien>, bs: Seq<BulletInstance>, k: int)
    requires
        0 <= k < us.len(),
        forall|j: int| 0 <= j < bs.len() ==> !#[trigger] hits(bs[j].collision, us[k].movement_collision),
    ensures
        !shot(us, bs, k),
{
    let t = bullets_left(us, bs, k + 1);
    lemma_left_sub(us, bs, k + 1);
    assert forall|j: int| 0 <= j < t.len() implies !#[trigger] hits(t[j].collision, us[k].movement_collision) by {
        assert(bs.contains(t[j]));
        let i = choose|i: int| 0 <= i < bs.len() && bs[i] == t[j];
        assert(!hits(bs[i].collision, us[k].movement_collision));
    }
    lemma_misses_none(t, us[k]);
}

/// Every unit among the first `n` ends up either among the survivors (when
/// not destroyed) or among the remnants (when destroyed).
pub proof fn lemma_outcome_members(us: Seq<MovingAlien>, bs: Seq<BulletInstance>, n: int)
    ensures
        forall|k: int|
            0 <= k < n && destroyed(us, bs, k) ==> remnants(us, bs, n).contains(
                #[trigger] remnant_of(marked(us, k)),
            ),
        forall|k: int| 0 <= k < n && !destroyed(us, bs, k) ==> survivors(us, bs, n).contains(#[trigger] marked(us, k)),
    decreases n,
{
    if n > 0 {
        lemma_outcome_members(us, bs, n - 1);
        let r0 = remnants(us, bs, n - 1);
        let s0 = survivors(us, bs, n - 1);
        let r = remnants(us, bs, n);
        let s = survivors(us, bs, n);
        assert forall|k: int| 0 <= k < n && destroyed(us, bs, k) implies r.contains(
            #[trigger] remnant_of(marked(us, k)),
        ) by {
            if k < n - 1 {
                let i = choose|i: int| 0 <= i < r0.len() && r0[i] == remnant_of(marked(us, k));
                assert(r[i] == r0[i]);
            } else {
                assert(r[r.len() - 1] == remnant_of(marked(us, k)));
            }
        }
        assert forall|k: int| 0 <= k < n && !destroyed(us, bs, k) implies s.contains(#[trigger] marked(us, k)) by {
            if k < n - 1 {
                let i = choose|i: int| 0 <= i < s0.len() && s0[i] == marked(us, k);
                assert(s[i] == s0[i]);
            } else {
                assert(s[s.len() - 1] == marked(us, k));
            }
        }
    }
}

/// Two units that overlap, in either direction or both, where no third unit
/// overlaps either of them and no projectile reaches either: exactly one of
/// the two is destroyed and becomes a remnant, and the other survives and
/// starts dropping. Never both are destroyed.
pub proof fn lemma_pair_collision(us: Seq<MovingAlien>, bs: Seq<BulletInstance>, a: int, b: int)
    requires
        0 <= a < us.len(),
        0 <= b < us.len(),
        us[a].movement_collision.id != us[b].movement_collision.id,
        hits(us[a].movement_collision, us[b].movement_collision) || hits(
            us[b].movement_collision,
            us[a].movement_collision,
        ),
        forall|o: int|
            0 <= o < us.len() && o != a && o != b ==> {
                &&& !hits(#[trigger] us[o].movement_collision, us[a].movement_collision)
                &&& !hits(us[a].movement_collision, us[o].movement_collision)
                &&& !hits(us[o].movement_collision, us[b].movement_collision)
                &&& !hits(us[b].movement_collision, us[o].movement_collision)
            },
        forall|j: int|
            0 <= j < bs.len() ==> !hits(#[trigger] bs[j].collision, us[a].movement_collision) && !hits(
                bs[j].collision,
                us[b].movement_collision,
            ),
    ensures
        destroyed(us, bs, a) != destroyed(us, bs, b),
        ({
            let (w, l) = if beats(us, a, b) {
                (a, b)
            } else {
                (b, a)
            };
            &&& !destroyed(us, bs, w)
            &&& marked(us, w).drop_down
            &&& survivors(us, bs, us.len() as int).contains(marked(us, w))
            &&& destroyed(us, bs, l)
            &&& remnants(us, bs, us.len() as int).contains(remnant_of(marked(us, l)))
        }),
{
    assert forall|j: int| 0 <= j < bs.len() implies !#[trigger] hits(bs[j].collision, us[a].movement_collision) by {}
    assert forall|j: int| 0 <= j < bs.len() implies !#[trigger] hits(bs[j].collision, us[b].movement_collision) by {
        assert(!hits(bs[j].collision, us[a].movement_collision) && !hits(bs[j].collision, us[b].movement_collision));
    }
    lemma_not_shot(us, bs, a);
    lemma_not_shot(us, bs, b);
    assert(beats(us, a, b) != beats(us, b, a));
    assert(rammed(us, a) == beats(us, b, a)) by {
        if rammed(us, a) {
            let o = choose|o: int| #[trigger] beats(us, o, a);
            if o != b {
                assert(o != a);
                assert(!hits(us[o].movement_collision, us[a].movement_collision));
            }
        }
    }
    assert(rammed(us, b) == beats(us, a, b)) by {
        if rammed(us, b) {
            let o = choose|o: int| #[trigger] beats(us, o, b);
            if o != a {
                assert(o != b);
                assert(!hits(us[o].movement_collision, us[b].movement_collision));
            }
        }
    }
    if beats(us, a, b) {
        assert(rams(us, a));
    } else {
        assert(rams(us, b));
    }
    lemma_outcome_members(us, bs, us.len() as int);
}

proof fn lemma_outcome_below(us: Seq<MovingAlien>, bs: Seq<BulletInstance>, n: int, bound: int)
    requires
        units_below(us, bound),
        n <= us.len(),
    ensures
        units_below(survivors(us, bs, n), bound),
        units_below(remnants(us, bs, n), bound),
    decreases n,
{
    if n > 0 {
        lemma_outcome_below(us, bs, n - 1, bound);
        assert(us[n - 1].movement_collision.id < bound);
    }
}

proof fn lemma_left_below(us: Seq<MovingAlien>, bs: Seq<BulletInstance>, k: int, bound: int)
    requires
        bullets_below(bs, bound),
    ensures
        bullets_below(bullets_left(us, bs, k), bound),
{
    lemma_left_sub(us, bs, k);
    let t = bullets_left(us, bs, k);
    assert forall|j: int| 0 <= j < t.len() implies (#[trigger] t[j]).id < bound && t[j].collision.id < bound by {
        assert(bs.contains(t[j]));
        let i = choose|i: int| 0 <= i < bs.len() && bs[i] == t[j];
        assert(bs[i].id < bound && bs[i].collision.id < bound);
    }
}

proof fn lemma_kept_remnants_below(s: Seq<MovingAlien>, bound: int)
    requires
        units_below(s, bound),
    ensures
        units_below(kept_remnants(s), bound),
    decreases s.len(),
{
    if s.len() > 0 {
        lemma_kept_remnants_below(s.drop_last(), bound);
        assert(s.last() == s[s.len() - 1]);
    }
}

/// In a well-formed world the identifier handed out next differs from that
/// of every live unit, projectile and remnant.
pub proof fn lemma_next_id_is_fresh(w: World)
    requires
        w.wf(),
    ensures
        forall|i: int| 0 <= i < w.army.all_aliens@.len() ==> (#[trigger] w.army.all_aliens@[i]).movement_collision.id != w.ids.next,
        forall|i: int|
            0 <= i < w.bullets.instances@.len() ==> (#[trigger] w.bullets.instances@[i]).id != w.ids.next
                && w.bullets.instances@[i].collision.id != w.ids.next,
        forall|i: int| 0 <= i < w.exploding@.len() ==> (#[trigger] w.exploding@[i]).movement_collision.id != w.ids.next,
{
}

fn misses_exec(bs: &Vec<BulletInstance>, a: &MovingAlien) -> (r: Vec<BulletInstance>)
    requires
        in_world(a.movement_collision.position),
        forall|i: int| 0 <= i < bs@.len() ==> (#[trigger] bs@[i]).wf(),
    ensures
        r@ == misses(bs@, *a),
        r@.len() <= bs@.len(),
        forall|i: int| 0 <= i < r@.len() ==> (#[trigger] r@[i]).wf(),
{
    let mut r: Vec<BulletInstance> = Vec::new();
    let mut i: usize = 0;
    while i < bs.len()
        invariant
            0 <= i <= bs@.len(),
            in_world(a.movement_collision.position),
            forall|k: int| 0 <= k < bs@.len() ==> (#[trigger] bs@[k]).wf(),
            r@ == misses(bs@.subrange(0, i as int), *a),
            r@.len() <= i,
            forall|k: int| 0 <= k < r@.len() ==> (#[trigger] r@[k]).wf(),
        decreases bs@.len() - i,
    {
        let b = bs[i];
        assert(bs@.subrange(0, i + 1).drop_last() =~= bs@.subrange(0, i as int));
        if !b.collision.hit_other(&a.movement_collision) {
            r.push(b);
        }
        i = i + 1;
    }
    assert(bs@.subrange(0, bs@.len() as int) =~= bs@);
    r
}

fn rammed_exec(us: &Vec<MovingAlien>, k: usize) -> (r: bool)
    requires
        k < us@.len(),
        forall|i: int| 0 <= i < us@.len() ==> (#[trigger] us@[i]).wf(),
    ensures
        r == rammed(us@, k as int),
{
    let target = us[k].movement_collision;
    let mut o: usize = 0;
    while o < us.len()
        invariant
            k < us@.len(),
            target == us@[k as int].movement_collision,
            forall|i: int| 0 <= i < us@.len() ==> (#[trigger] us@[i]).wf(),
            0 <= o <= us@.len(),
            forall|j: int| 0 <= j < o ==> !#[trigger] beats(us@, j, k as int),
        decreases us@.len() - o,
    {
        let c = us[o].movement_collision;
        if c.id != target.id && c.hit_other(&target) && (o < k || !target.hit_other(&c)) {
            assert(beats(us@, o as int, k as int));
            return true;
        }
        o = o + 1;
    }
    assert forall|j: int| !#[trigger] beats(us@, j, k as int) by {
        if 0 <= j < us@.len() {
            assert(!beats(us@, j, k as int));
        }
    }
    false
}

fn rams_exec(us: &Vec<MovingAlien>, o: usize) -> (r: bool)
    requires
        o < us@.len(),
        forall|i: int| 0 <= i < us@.len() ==> (#[trigger] us@[i]).wf(),
    ensures
        r == rams(us@, o as int),
{
    let me = us[o].movement_collision;
    let mut k: usize = 0;
    while k < us.len()
        invariant
            o < us@.len(),
            me == us@[o as int].movement_collision,
            forall|i: int| 0 <= i < us@.len() ==> (#[trigger] us@[i]).wf(),
            0 <= k <= us@.len(),
            forall|j: int| 0 <= j < k ==> !#[trigger] beats(us@, o as int, j),
        decreases us@.len() - k,
    {
        let c = us[k].movement_collision;
        if me.id != c.id && me.hit_other(&c) && (o < k || !c.hit_other(&me)) {
            assert(beats(us@, o as int, k as int));
            return true;
        }
        k = k + 1;
    }
    assert forall|j: int| !#[trigger] beats(us@, o as int, j) by {
        if 0 <= j < us@.len() {
            assert(!beats(us@, o as int, j));
        }
    }
    false
}

/// The frame delta, in thousandths of a frame, from the rate kept from the
/// last frame and the milliseconds elapsed since it: the new rate is the
/// elapsed time over 128, the delta is the old rate plus the new rate over
/// 128, and a delta above `MAX_DELTA` (a start-up hitch) becomes one frame.
/// The kept rate saturates at `u64::MAX`; any rate that large already gives
/// a delta above `MAX_DELTA`.
pub open spec fn smoothed(last_rate: int, elapsed_ms: int) -> (int, int) {
    let exact = elapsed_ms * 1000 / 128;
    let rate = if exact > u64::MAX { u64::MAX as int } else { exact };
    let raw = last_rate + rate / 128;
    (if raw > MAX_DELTA { DELTA_ONE as int } else { raw }, rate)
}

/// Returns the frame delta and the rate to keep for the next frame.
pub fn smooth_delta(last_rate: u64, elapsed_ms: u64) -> (r: (i64, u64))
    ensures
        (r.0 as int, r.1 as int) == smoothed(last_rate as int, elapsed_ms as int),
        delta_ok(r.0 as int),
{
    let exact: u128 = elapsed_ms as u128 * 1000 / 128;
    let rate: u128 = if exact > u64::MAX as u128 { u64::MAX as u128 } else { exact };
    let raw: u128 = last_rate as u128 + rate / 128;
    let delta: i64 = if raw > MAX_DELTA as u128 { DELTA_ONE } else { raw as i64 };
    (delta, rate as u64)
}

impl World {
    pub open spec fn wf(self) -> bool {
        &&& self.army.wf()
        &&& self.bullets.wf()
        &&& self.explosions.wf()
        &&& forall|i: int| 0 <= i < self.exploding@.len() ==> remnant_ok(#[trigger] self.exploding@[i])
        &&& COUNTDOWN_FLOOR <= self.fire_countdown <= FIRE_COOLDOWN
        &&& self.ids_fresh()
    }

    /// Every live unit, projectile and remnant carries an identifier below
    /// the next one to be handed out, so a fresh identifier is unlike all of
    /// them.
    pub open spec fn ids_fresh(self) -> bool {
        &&& units_below(self.army.all_aliens@, self.ids.next as int)
        &&& bullets_below(self.bullets.instances@, self.ids.next as int)
        &&& units_below(self.exploding@, self.ids.next as int)
    }

    pub fn new() -> (r: World)
        ensures
            r.wf(),
            r.army.at_start(),
            r.army.all_aliens@.len() == 0,
            r.bullets.instances@.len() == 0,
            r.explosions.instances@.len() == 0,
            r.exploding@.len() == 0,
            r.score == 0,
            r.level == 0,
            r.ids.next == 1,
            r.fire_countdown == 0,
    {
        World {
            army: AlienArmy::new(),
            bullets: Bullets::new(),
            explosions: Explosions::new(),
            exploding: Vec::new(),
            score: 0,
            level: 0,
            ids: IdSource::new(),
            fire_countdown: 0,
        }
    }
    /// Runs the collision pass on the current snapshot: the player against
    /// every unit, every projectile against every unit (from the last unit
    /// down; a projectile that hits is gone at once and scores one), and
    /// every unit against every other. Of two units where one reaches the
    /// other, the reached one is destroyed and the reaching one starts
    /// dropping; when both reach each other, the one earlier in the formation
    /// survives. Then it applies the outcome in one pass: destroyed units
    /// leave the formation as remnants with a particle burst each.
    pub fn collide(&mut self, player: &MovementAndCollision) -> (r: Collisions)
        requires
            old(self).wf(),
            in_world(player.position),
        ensures
            final(self).wf(),
            ({
                let us = old(self).army.all_aliens@;
                let bs = old(self).bullets.instances@;
                let rs = remnants(us, bs, us.len() as int);
                let e0 = old(self).explosions.instances@;
                let e1 = final(self).explosions.instances@;
                &&& r.blocked == exists|k: int|
                    0 <= k < us.len() && #[trigger] hits(*player, us[k].movement_collision)
                &&& final(self).army.all_aliens@ == survivors(us, bs, us.len() as int)
                &&& final(self).bullets.instances@ == bullets_left(us, bs, 0)
                &&& final(self).score == sat_add(
                    old(self).score as int,
                    bs.len() - bullets_left(us, bs, 0).len(),
                )
                &&& final(self).exploding@ == old(self).exploding@ + rs
                &&& r.destroyed == rs.len()
                &&& e1.len() == e0.len() + BURST * rs.len()
                &&& e1.subrange(0, e0.len() as int) == e0
                &&& e1.subrange(e0.len() as int, e1.len() as int).map_values(
                    |e: crate::explosion::ExplosionInstance| e.position,
                ) == burst_positions(rs)
            }),
            final(self).army.add_x == old(self).army.add_x,
            final(self).army.add_z == old(self).army.add_z,
            final(self).army.lap == old(self).army.lap,
            final(self).army.all_move_down == old(self).army.all_move_down,
            final(self).army.march_down == old(self).army.march_down,
            final(self).level == old(self).level,
            final(self).ids == old(self).ids,
            final(self).fire_countdown == old(self).fire_countdown,
    {
        let ghost us = self.army.all_aliens@;
        let ghost bs = self.bullets.instances@;
        let ghost e0 = self.explosions.instances@;
        let ghost x0 = self.exploding@;
        let n = self.army.all_aliens.len();

        let mut blocked = false;
        let mut k: usize = 0;
        while k < n
            invariant
                n == us.len(),
                self.army.all_aliens@ == us,
                self.army.wf(),
                in_world(player.position),
                0 <= k <= n,
                blocked == exists|j: int| 0 <= j < k && #[trigger] hits(*player, us[j].movement_collision),
            decreases n - k,
        {
            if player.hit_other(&self.army.all_aliens[k].movement_collision) {
                blocked = true;
            }
            k = k + 1;
        }

        let nb = self.bullets.instances.len();
        let mut cur: Vec<BulletInstance> = Vec::new();
        std::mem::swap(&mut cur, &mut self.bullets.instances);
        let mut shot_flags: Vec<bool> = Vec::new();
        let mut j: usize = 0;
        while j < n
            invariant
                0 <= j <= n,
                shot_flags@.len() == j,
            decreases n - j,
        {
            shot_flags.push(false);
            j = j + 1;
        }
        let mut i: usize = n;
        while i > 0
            invariant
                n == us.len(),
                self.army.all_aliens@ == us,
                self.army.wf(),
                0 <= i <= n,
                shot_flags@.len() == n,
                cur@ == bullets_left(us, bs, i as int),
                cur@.len() <= bs.len(),
                forall|k: int| 0 <= k < cur@.len() ==> (#[trigger] cur@[k]).wf(),
                forall|k: int| i <= k < n ==> shot_flags@[k] == shot(us, bs, k),
            decreases i,
        {
            i = i - 1;
            let next = misses_exec(&cur, &self.army.all_aliens[i]);
            assert(bullets_left(us, bs, i as int) == misses(bullets_left(us, bs, i + 1), us[i as int]));
            shot_flags.set(i, next.len() < cur.len());
            cur = next;
        }
        let hits_total: usize = nb - cur.len();
        let raised: i128 = self.score as i128 + hits_total as i128;
        self.score = if raised > i64::MAX as i128 { i64::MAX } else { raised as i64 };
        self.bullets.instances = cur;

        let mut live: Vec<MovingAlien> = Vec::new();
        let mut count: usize = 0;
        let mut k: usize = 0;
        while k < n
            invariant
                n == us.len(),
                self.army.all_aliens@ == us,
                self.army.wf(),
                self.explosions.wf(),
                0 <= k <= n,
                shot_flags@.len() == n,
                forall|j: int| 0 <= j < n ==> shot_flags@[j] == shot(us, bs, j),
                live@ == survivors(us, bs, k as int),
                forall|j: int| 0 <= j < live@.len() ==> (#[trigger] live@[j]).wf(),
                self.exploding@ == x0 + remnants(us, bs, k as int),
                forall|j: int| 0 <= j < self.exploding@.len() ==> remnant_ok(#[trigger] self.exploding@[j]),
                count == remnants(us, bs, k as int).len(),
                count <= k,
                self.bullets.instances@ == bullets_left(us, bs, 0),
                self.bullets.wf(),
                self.score == sat_add(old(self).score as int, bs.len() - bullets_left(us, bs, 0).len()),
                self.army.add_x == old(self).army.add_x,
                self.army.add_z == old(self).army.add_z,
                self.army.lap == old(self).army.lap,
                self.army.all_move_down == old(self).army.all_move_down,
                self.army.march_down == old(self).army.march_down,
                self.level == old(self).level,
                self.ids == old(self).ids,
                self.fire_countdown == old(self).fire_countdown,
                self.explosions.instances@.len() == e0.len() + BURST * count,
                self.explosions.instances@.subrange(0, e0.len() as int) == e0,
                self.explosions.instances@.subrange(
                    e0.len() as int,
                    self.explosions.instances@.len() as int,
                ).map_values(|e: crate::explosion::ExplosionInstance| e.position) == burst_positions(
                    remnants(us, bs, k as int),
                ),
            decreases n - k,
        {
            let a = self.army.all_aliens[k];
            let gone = shot_flags[k] || rammed_exec(&self.army.all_aliens, k);
            let pushed = rams_exec(&self.army.all_aliens, k);
            let m = MovingAlien { drop_down: a.drop_down || pushed, ..a };
            assert(m == marked(us, k as int));
            if gone {
                let ghost r0 = remnants(us, bs, k as int);
                let ghost ex = self.explosions.instances@;
                let rem = MovingAlien { time_to_live: REMNANT_TICKS, ..m };
                self.exploding.push(rem);
                self.explosions.create(m.movement_collision.position);
                let ghost ex1 = self.explosions.instances@;
                assert(r0.push(rem).drop_last() =~= r0);
                assert(ex1.subrange(0, e0.len() as int) =~= e0) by {
                    assert(ex1.subrange(0, ex.len() as int) == ex);
                    assert forall|j: int| 0 <= j < e0.len() implies ex1[j] == e0[j] by {
                        assert(ex1.subrange(0, ex.len() as int)[j] == ex[j]);
                        assert(ex.subrange(0, e0.len() as int)[j] == e0[j]);
                    }
                }
                assert(ex1.subrange(e0.len() as int, ex1.len() as int).map_values(
                    |e: crate::explosion::ExplosionInstance| e.position,
                ) =~= burst_positions(r0) + Seq::new(BURST as nat, |i: int| rem.movement_collision.position)) by {
                    let old_map = ex.subrange(e0.len() as int, ex.len() as int).map_values(
                        |e: crate::explosion::ExplosionInstance| e.position,
                    );
                    assert forall|j: int| 0 <= j < ex.len() - e0.len() implies ex1[e0.len() + j].position
                        == old_map[j] by {
                        assert(ex1.subrange(0, ex.len() as int)[e0.len() + j] == ex[e0.len() + j]);
                    }
                }
                count = count + 1;
            } else {
                live.push(m);
            }
            k = k + 1;
        }
        self.army.all_aliens = live;
        proof {
            let bound = self.ids.next as int;
            lemma_outcome_below(us, bs, n as int, bound);
            lemma_left_below(us, bs, 0, bound);
            let rs = remnants(us, bs, n as int);
            assert forall|j: int| 0 <= j < self.exploding@.len() implies (
            #[trigger] self.exploding@[j]).movement_collision.id < bound by {
                if j < x0.len() {
                    assert(self.exploding@[j] == x0[j]);
                } else {
                    assert(self.exploding@[j] == rs[j - x0.len()]);
                }
            }
        }
        Collisions { blocked, destroyed: count }
    }
    /// Counts down every remnant's timer, shrinks it by a tenth, and drops
    /// those whose timer runs out.
    pub fn age_remnants(&mut self)
        requires
            old(self).wf(),
        ensures
            final(self).wf(),
            final(self).exploding@ == kept_remnants(old(self).exploding@),
            final(self).army == old(self).army,
            final(self).bullets == old(self).bullets,
            final(self).explosions == old(self).explosions,
            final(self).score == old(self).score,
            final(self).level == old(self).level,
            final(self).ids == old(self).ids,
            final(self).fire_countdown == old(self).fire_countdown,
    {
        let n = self.exploding.len();
        let mut kept: Vec<MovingAlien> = Vec::new();
        let mut i: usize = 0;
        while i < n
            invariant
                n == self.exploding@.len(),
                forall|k: int| 0 <= k < n ==> remnant_ok(#[trigger] self.exploding@[k]),
                0 <= i <= n,
                kept@ == kept_remnants(self.exploding@.subrange(0, i as int)),
                forall|k: int| 0 <= k < kept@.len() ==> remnant_ok(#[trigger] kept@[k]),
            decreases n - i,
        {
            let a = self.exploding[i];
            assert(0 <= a.scale * 9 <= 9 * 0x7fff_ffff_ffff_ffff) by (nonlinear_arith)
                requires 0 <= a.scale <= 0x7fff_ffff_ffff_ffff;
            let shrunk: i128 = a.scale as i128 * 9 / 10;
            let b = MovingAlien { time_to_live: a.time_to_live - 1, scale: shrunk as i64, ..a };
            assert(self.exploding@.subrange(0, i + 1).drop_last() =~= self.exploding@.subrange(0, i as int));
            if b.time_to_live > 0 {
                kept.push(b);
            }
            i = i + 1;
        }
        assert(self.exploding@.subrange(0, n as int) =~= self.exploding@);
        proof {
            lemma_kept_remnants_below(self.exploding@, self.ids.next as int);
        }
        self.exploding = kept;
    }

    /// Advances the formation, the projectiles, the remnants and the
    /// particles by one frame, in that order.
    pub fn advance(&mut self, delta: i64)
        requires
            old(self).wf(),
            delta_ok(delta as int),
        ensures
            final(self).wf(),
            exists|draw: u64, start: int|
                draw < 100 && (old(self).army.all_aliens@.len() > 0 ==> 0 <= start
                    < old(self).army.all_aliens@.len()) && #[trigger] crate::alien_army::frame_moved(
                    old(self).army,
                    final(self).army,
                    delta as int,
                    draw,
                    start,
                ),
            final(self).bullets.instances@ == crate::bullets::kept_bullets(
                old(self).bullets.instances@,
                delta as int,
            ),
            final(self).exploding@ == kept_remnants(old(self).exploding@),
            final(self).explosions.instances@ == crate::explosion::kept_particles(
                old(self).explosions.instances@,
                delta as int,
            ),
            final(self).score == old(self).score,
            final(self).level == old(self).level,
            final(self).ids == old(self).ids,
            final(self).fire_countdown == old(self).fire_countdown,
    {
        let ghost a0 = self.army;
        self.army.update(delta);
        let ghost a1 = self.army;
        let ghost (d, st) = choose|d: u64, st: int|
            d < 100 && (a0.all_aliens@.len() > 0 ==> 0 <= st < a0.all_aliens@.len())
                && #[trigger] crate::alien_army::frame_moved(a0, a1, delta as int, d, st);
        proof {
            assert forall|i: int| 0 <= i < self.army.all_aliens@.len() implies (
            #[trigger] self.army.all_aliens@[i]).movement_collision.id < self.ids.next by {
                assert(self.army.all_aliens@[i].movement_collision.id == a0.all_aliens@[i].movement_collision.id);
            }
            lemma_kept_bullets_below(self.bullets.instances@, delta as int, self.ids.next as int);
        }
        self.bullets.update(delta);
        self.age_remnants();
        self.explosions.update(delta);
        assert(crate::alien_army::frame_moved(old(self).army, self.army, delta as int, d, st));
    }

    /// Counts the fire cooldown down and, when `fire` is held and the
    /// cooldown has run out, fires a projectile from `position` along
    /// `direction` and restarts the cooldown. Returns whether it fired.
    pub fn trigger(&mut self, fire: bool, position: Vec3, direction: Vec3, delta: i64) -> (fired: bool)
        requires
            old(self).wf(),
            ids_left(old(self).ids) >= 1,
            in_world(position),
            dir_ok(direction),
            delta_ok(delta as int),
        ensures
            final(self).wf(),
            ({
                let c = if old(self).fire_countdown - 1 < COUNTDOWN_FLOOR {
                    -1
                } else {
                    old(self).fire_countdown - 1
                };
                &&& fired == (fire && c <= 0)
                &&& final(self).fire_countdown == if fired { FIRE_COOLDOWN as int } else { c }
            }),
            fired ==> final(self).bullets.instances@.len() == old(self).bullets.instances@.len() + 1
                && final(self).bullets.instances@.drop_last() == old(self).bullets.instances@
                && final(self).bullets.instances@.last().collision.position == crate::bullets::advance(
                position,
                direction,
                delta as int,
            ) && final(self).bullets.instances@.last().collision.radius == BULLET_RADIUS
                && final(self).bullets.instances@.last().direction == direction
                && final(self).bullets.instances@.last().ticks == crate::bullets::BULLET_TICKS
                && final(self).ids.next == old(self).ids.next + 1,
            !fired ==> final(self).bullets == old(self).bullets && final(self).ids == old(self).ids,
            final(self).army == old(self).army,
            final(self).exploding == old(self).exploding,
            final(self).explosions == old(self).explosions,
            final(self).score == old(self).score,
            final(self).level == old(self).level,
    {
        self.fire_countdown = self.fire_countdown - 1;
        if self.fire_countdown < COUNTDOWN_FLOOR {
            self.fire_countdown = -1;
        }
        if fire && self.fire_countdown <= 0 {
            self.fire_countdown = FIRE_COOLDOWN;
            self.bullets.fire(&mut self.ids, position, direction, delta, BULLET_RADIUS);
            assert(self.bullets.instances@.drop_last() =~= old(self).bullets.instances@);
            true
        } else {
            false
        }
    }

    /// Regenerates the formation when it is empty or fully landed; then the
    /// landed count comes off the score and the level goes up by one.
    /// Returns whether it regenerated.
    pub fn regenerate(&mut self) -> (r: bool)
        requires
            old(self).wf(),
            ids_left(old(self).ids) >= ARMY_SIZE,
        ensures
            final(self).wf(),
            r == (old(self).army.all_aliens@.len() == landed_count(old(self).army.all_aliens@)),
            r ==> final(self).score == sat_add(
                old(self).score as int,
                -landed_count(old(self).army.all_aliens@),
            ) && final(self).level == sat_add(old(self).level as int, 1) && final(self).army.at_start()
                && final(self).army.all_aliens@ == crate::alien_army::landed_only(old(self).army.all_aliens@)
                + crate::alien_army::fresh_army(old(self).ids.next),
            !r ==> final(self).score == old(self).score && final(self).level == old(self).level
                && final(self).army == old(self).army && final(self).ids == old(self).ids,
            final(self).bullets == old(self).bullets,
            final(self).exploding == old(self).exploding,
            final(self).explosions == old(self).explosions,
            final(self).fire_countdown == old(self).fire_countdown,
    {
        let (created, landed) = self.army.create_new_army_if_needed(&mut self.ids);
        if created {
            let lowered: i128 = self.score as i128 - landed as i128;
            self.score = if lowered < i64::MIN as i128 { i64::MIN } else { lowered as i64 };
            self.level = if self.level < i64::MAX { self.level + 1 } else { i64::MAX };
        }
        created
    }

    /// Whether this frame's status line is due.
    pub fn report_due(&self) -> (r: bool)
        ensures
            r == (self.fire_countdown as int % REPORT_EVERY as int == 0),
    {
        self.fire_countdown % REPORT_EVERY == 0
    }
}

} // verus!
