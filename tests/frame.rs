use invaders::bullets::BulletInstance;
use invaders::game::{MovementAndCollision, MovingAlien, Vec3, ALIEN_RADIUS, ALIEN_SCALE, BULLET_RADIUS};
use invaders::world::{smooth_delta, World, REMNANT_TICKS};

fn far_player() -> MovementAndCollision {
    MovementAndCollision {
        id: 0,
        radius: 70_000,
        position: Vec3 { x: 0, y: 50_000, z: 5_000_000 },
        been_hit: false,
        moved: false,
    }
}

fn add_unit(world: &mut World, x: i64, y: i64, z: i64, radius: i64) {
    let a = MovingAlien::new(&mut world.ids, Vec3 { x, y, z }, radius, ALIEN_SCALE);
    world.army.all_aliens.push(a);
}

fn add_bullet(world: &mut World, x: i64, y: i64, z: i64) {
    let c = MovementAndCollision::new(&mut world.ids, BULLET_RADIUS, Vec3 { x, y, z });
    world.bullets.instances.push(BulletInstance { id: c.id, collision: c, direction: Vec3 { x: 0, y: 0, z: 0 }, ticks: 300 });
}


#[test]
fn projectile_hit_end_to_end() {
    let mut world = World::new();
    add_unit(&mut world, 0, 300_000, 0, ALIEN_RADIUS);
    add_bullet(&mut world, 20_000, 300_000, 0);
    let unit_id = world.army.all_aliens[0].movement_collision.id;
    let r = world.collide(&far_player());
    assert!(!r.blocked);
    assert_eq!(r.destroyed, 1);
    assert!(world.bullets.instances.is_empty());
    assert_eq!(world.score, 1);
    assert!(world.army.all_aliens.is_empty());
    assert_eq!(world.exploding.len(), 1);
    assert_eq!(world.exploding[0].time_to_live, 60);
    assert_eq!(REMNANT_TICKS, 60);
    assert_eq!(world.exploding[0].movement_collision.id, unit_id);
    assert_eq!(world.explosions.instances.len(), 10);
    for p in &world.explosions.instances {
        assert_eq!(p.position, Vec3 { x: 0, y: 300_000, z: 0 });
    }
    for _ in 0..59 {
        world.age_remnants();
    }
    assert_eq!(world.exploding.len(), 1);
    assert_eq!(world.exploding[0].time_to_live, 1);
    world.age_remnants();
    assert!(world.exploding.is_empty());
}

#[test]
fn remnant_shrinks_each_frame() {
    let mut world = World::new();
    add_unit(&mut world, 0, 300_000, 0, ALIEN_RADIUS);
    add_bullet(&mut world, 0, 300_000, 0);
    world.collide(&far_player());
    world.age_remnants();
    assert_eq!(world.exploding[0].scale, 1800);
    assert_eq!(world.exploding[0].time_to_live, 59);
}

#[test]
fn two_projectiles_on_one_unit_score_two_and_remove_it_once() {
    let mut world = World::new();
    add_unit(&mut world, 0, 300_000, 0, ALIEN_RADIUS);
    add_unit(&mut world, 1_000_000, 300_000, 0, ALIEN_RADIUS);
    add_bullet(&mut world, 10_000, 300_000, 0);
    add_bullet(&mut world, 0, 310_000, 0);
    let r = world.collide(&far_player());
    assert_eq!(r.destroyed, 1);
    assert_eq!(world.score, 2);
    assert_eq!(world.army.all_aliens.len(), 1);
    assert_eq!(world.army.all_aliens[0].movement_collision.position.x, 1_000_000);
    assert_eq!(world.exploding.len(), 1);
    assert_eq!(world.explosions.instances.len(), 10);
}

#[test]
fn projectile_is_spent_on_the_last_unit_first() {
    let mut world = World::new();
    add_unit(&mut world, 0, 300_000, 0, 1);
    add_unit(&mut world, 30_000, 300_000, 0, 1);
    add_bullet(&mut world, 15_000, 300_000, 0);
    let r = world.collide(&far_player());
    assert_eq!(r.destroyed, 1);
    assert_eq!(world.score, 1);
    assert_eq!(world.army.all_aliens.len(), 1);
    assert_eq!(world.army.all_aliens[0].movement_collision.position.x, 0);
}

#[test]
fn unit_collision_end_to_end() {
    let mut world = World::new();
    add_unit(&mut world, 0, 300_000, 0, 30_000);
    add_unit(&mut world, 20_000, 300_000, 0, 10_000);
    let first = world.army.all_aliens[0].movement_collision.id;
    let second = world.army.all_aliens[1].movement_collision.id;
    let r = world.collide(&far_player());
    assert_eq!(r.destroyed, 1);
    assert_eq!(world.army.all_aliens.len(), 1);
    assert_eq!(world.army.all_aliens[0].movement_collision.id, first);
    assert!(world.army.all_aliens[0].drop_down);
    assert_eq!(world.exploding.len(), 1);
    assert_eq!(world.exploding[0].movement_collision.id, second);
    assert_eq!(world.score, 0);
}

#[test]
fn unit_collision_end_to_end_reversed_order() {
    let mut world = World::new();
    add_unit(&mut world, 20_000, 300_000, 0, 10_000);
    add_unit(&mut world, 0, 300_000, 0, 30_000);
    let small = world.army.all_aliens[0].movement_collision.id;
    let large = world.army.all_aliens[1].movement_collision.id;
    world.collide(&far_player());
    assert_eq!(world.army.all_aliens.len(), 1);
    assert_eq!(world.army.all_aliens[0].movement_collision.id, large);
    assert!(world.army.all_aliens[0].drop_down);
    assert_eq!(world.exploding[0].movement_collision.id, small);
}

#[test]
fn player_overlap_blocks_without_destroying() {
    let mut world = World::new();
    add_unit(&mut world, 0, 300_000, 0, ALIEN_RADIUS);
    let player = MovementAndCollision {
        id: 0,
        radius: 70_000,
        position: Vec3 { x: 0, y: 250_000, z: 0 },
        been_hit: false,
        moved: false,
    };
    let r = world.collide(&player);
    assert!(r.blocked);
    assert_eq!(r.destroyed, 0);
    assert_eq!(world.army.all_aliens.len(), 1);
}

#[test]
fn empty_collision_scan_is_silent() {
    let mut world = World::new();
    let r = world.collide(&far_player());
    assert!(!r.blocked);
    assert_eq!(r.destroyed, 0);
    assert_eq!(world.score, 0);
}

#[test]
fn regeneration_penalises_landed_units_and_raises_level() {
    let mut world = World::new();
    assert!(world.regenerate());
    assert_eq!(world.level, 1);
    assert_eq!(world.score, 0);
    assert_eq!(world.army.all_aliens.len(), 25);
    assert!(!world.regenerate());
    for a in world.army.all_aliens.iter_mut() {
        a.landed = true;
    }
    world.score = 10;
    assert!(world.regenerate());
    assert_eq!(world.score, -15);
    assert_eq!(world.level, 2);
    assert_eq!(world.army.all_aliens.len(), 50);
}

#[test]
fn fire_cooldown() {
    let mut world = World::new();
    let here = Vec3 { x: 0, y: 50_000, z: 0 };
    let ahead = Vec3 { x: 0, y: 0, z: -1_000_000 };
    assert!(world.trigger(true, here, ahead, 1000));
    assert_eq!(world.fire_countdown, 30);
    assert_eq!(world.bullets.instances.len(), 1);
    assert_eq!(world.bullets.instances[0].collision.radius, BULLET_RADIUS);
    assert_eq!(world.bullets.instances[0].collision.position, Vec3 { x: 0, y: 50_000, z: -80_000 });
    for _ in 0..29 {
        assert!(!world.trigger(true, here, ahead, 1000));
    }
    assert_eq!(world.fire_countdown, 1);
    assert!(world.trigger(true, here, ahead, 1000));
    assert_eq!(world.bullets.instances.len(), 2);
    assert!(!world.trigger(false, here, ahead, 1000));
    assert_eq!(world.fire_countdown, 29);
}

#[test]
fn fire_countdown_wraps_back_to_minus_one() {
    let mut world = World::new();
    world.fire_countdown = -10000;
    assert!(!world.trigger(false, Vec3 { x: 0, y: 0, z: 0 }, Vec3 { x: 0, y: 0, z: 0 }, 0));
    assert_eq!(world.fire_countdown, -1);
}

#[test]
fn report_cadence() {
    let mut world = World::new();
    assert!(world.report_due());
    world.fire_countdown = -60;
    assert!(world.report_due());
    world.fire_countdown = -30;
    assert!(!world.report_due());
}

#[test]
fn delta_smoothing() {
    assert_eq!(smooth_delta(0, 16), (0, 125));
    assert_eq!(smooth_delta(125, 16), (125, 125));
    assert_eq!(smooth_delta(125, 1280), (203, 10_000));
    assert_eq!(smooth_delta(4_993, 128), (5_000, 1_000));
    assert_eq!(smooth_delta(5_000, 128), (1_000, 1_000));
    assert_eq!(smooth_delta(0, 1_000_000), (1_000, 7_812_500));
    assert_eq!(smooth_delta(0, u64::MAX), (1_000, u64::MAX));
}

#[test]
fn advance_moves_everything_one_frame() {
    let mut world = World::new();
    world.regenerate();
    let here = Vec3 { x: 0, y: 50_000, z: 0 };
    world.trigger(true, here, Vec3 { x: 0, y: 0, z: -1_000_000 }, 1000);
    world.advance(1000);
    assert_eq!(world.bullets.instances[0].collision.position.z, -160_000);
    assert_eq!(world.bullets.instances[0].ticks, 299);
}

#[test]
fn mutual_overlap_destroys_exactly_one() {
    let mut world = World::new();
    add_unit(&mut world, 0, 300_000, 0, ALIEN_RADIUS);
    add_unit(&mut world, 10_000, 300_000, 0, ALIEN_RADIUS);
    let first = world.army.all_aliens[0].movement_collision.id;
    let second = world.army.all_aliens[1].movement_collision.id;
    let r = world.collide(&far_player());
    assert_eq!(r.destroyed, 1);
    assert_eq!(world.army.all_aliens.len(), 1);
    assert_eq!(world.army.all_aliens[0].movement_collision.id, first);
    assert!(world.army.all_aliens[0].drop_down);
    assert_eq!(world.exploding.len(), 1);
    assert_eq!(world.exploding[0].movement_collision.id, second);
    assert_eq!(world.explosions.instances.len(), 10);
}

#[test]
fn mutual_overlap_among_other_units() {
    let mut world = World::new();
    add_unit(&mut world, 1_000_000, 300_000, 0, ALIEN_RADIUS);
    add_unit(&mut world, 0, 300_000, 0, ALIEN_RADIUS);
    add_unit(&mut world, -2_000_000, 300_000, 0, ALIEN_RADIUS);
    add_unit(&mut world, 0, 300_000, 20_000, ALIEN_RADIUS);
    let survivor = world.army.all_aliens[1].movement_collision.id;
    let lost = world.army.all_aliens[3].movement_collision.id;
    world.collide(&far_player());
    assert_eq!(world.army.all_aliens.len(), 3);
    assert!(world.army.all_aliens.iter().any(|a| a.movement_collision.id == survivor && a.drop_down));
    assert!(world.army.all_aliens.iter().all(|a| a.movement_collision.id != lost));
    assert_eq!(world.exploding.len(), 1);
    assert_eq!(world.exploding[0].movement_collision.id, lost);
    assert!(!world.army.all_aliens[0].drop_down);
}

#[test]
fn fresh_ids_differ_from_live_ones() {
    let mut world = World::new();
    world.regenerate();
    world.trigger(true, Vec3 { x: 0, y: 50_000, z: 0 }, Vec3 { x: 0, y: 0, z: -1_000_000 }, 1000);
    for a in world.army.all_aliens.iter_mut() {
        a.landed = true;
    }
    world.regenerate();
    let mut seen: Vec<u128> = world.army.all_aliens.iter().map(|a| a.movement_collision.id).collect();
    seen.extend(world.bullets.instances.iter().map(|b| b.collision.id));
    let total = seen.len();
    seen.sort();
    seen.dedup();
    assert_eq!(seen.len(), total);
    assert!(seen.iter().all(|&id| id < world.ids.next));
}
