use invaders::alien_army::{AlienArmy, ARMY_SIZE, MARCH_START, SWEEP_BOUND};
use invaders::game::{IdSource, MovingAlien, Vec3, ALIEN_RADIUS, ALIEN_SCALE};

fn fresh() -> (AlienArmy, IdSource) {
    let mut ids = IdSource::new();
    let mut army = AlienArmy::new();
    let (created, landed) = army.create_new_army_if_needed(&mut ids);
    assert!(created);
    assert_eq!(landed, 0);
    (army, ids)
}

fn lone(ids: &mut IdSource, x: i64, y: i64, z: i64) -> AlienArmy {
    let mut army = AlienArmy::new();
    army.all_aliens.push(MovingAlien::new(ids, Vec3 { x, y, z }, ALIEN_RADIUS, ALIEN_SCALE));
    army
}

#[test]
fn regeneration_builds_grid() {
    let (army, ids) = fresh();
    assert_eq!(army.all_aliens.len(), 25);
    assert_eq!(ARMY_SIZE, 25);
    assert_eq!(army.all_aliens[0].movement_collision.position, Vec3 { x: -625_000, y: MARCH_START, z: -625_000 });
    assert_eq!(army.all_aliens[7].movement_collision.position, Vec3 { x: -375_000, y: 300_000, z: -125_000 });
    assert_eq!(army.all_aliens[24].movement_collision.position, Vec3 { x: 375_000, y: 300_000, z: 375_000 });
    for (k, a) in army.all_aliens.iter().enumerate() {
        assert!(!a.landed && !a.drop_down);
        assert_eq!(a.movement_collision.id, k as u128 + 1);
    }
    assert_eq!(ids.next, 26);
}

#[test]
fn no_regeneration_while_units_are_active() {
    let (mut army, mut ids) = fresh();
    let (created, landed) = army.create_new_army_if_needed(&mut ids);
    assert!(!created);
    assert_eq!(landed, 0);
    assert_eq!(army.all_aliens.len(), 25);
    army.all_aliens[3].landed = true;
    let (created, landed) = army.create_new_army_if_needed(&mut ids);
    assert!(!created);
    assert_eq!(landed, 0);
}

#[test]
fn regeneration_when_all_landed_keeps_landed_units() {
    let (mut army, mut ids) = fresh();
    for a in army.all_aliens.iter_mut() {
        a.landed = true;
    }
    army.lap = 2;
    army.march_down = 60_000;
    army.all_move_down = true;
    army.add_x = 0;
    army.add_z = -1;
    let (created, landed) = army.create_new_army_if_needed(&mut ids);
    assert!(created);
    assert_eq!(landed, 25);
    assert_eq!(army.all_aliens.len(), 50);
    assert!(army.all_aliens[..25].iter().all(|a| a.landed));
    assert!(army.all_aliens[25..].iter().all(|a| !a.landed && !a.drop_down));
    assert_eq!(army.all_aliens[25].movement_collision.position.y, MARCH_START);
    assert_eq!(army.lap, 0);
    assert_eq!(army.march_down, MARCH_START);
    assert!(!army.all_move_down);
    assert_eq!((army.add_x, army.add_z), (1, 0));
}

#[test]
fn regeneration_purges_units_that_did_not_land() {
    let mut ids = IdSource::new();
    let mut army = lone(&mut ids, 0, 0, 0);
    army.all_aliens[0].landed = true;
    let (created, landed) = army.create_new_army_if_needed(&mut ids);
    assert!(created);
    assert_eq!(landed, 1);
    assert_eq!(army.all_aliens.len(), 26);
    assert_eq!(army.all_aliens[0].movement_collision.id, 1);
}

#[test]
fn sweep_moves_every_active_unit() {
    let (mut army, _ids) = fresh();
    army.update_with(1000, 0, 0);
    let a = army.all_aliens[0];
    assert_eq!(a.movement_collision.position, Vec3 { x: -632_500, y: 300_000, z: -625_000 });
    assert!(a.movement_collision.moved);
    assert_eq!(army.lap, 0);
}

#[test]
fn turn_from_horizontal_to_depth_past_bound() {
    let mut ids = IdSource::new();
    let mut army = lone(&mut ids, 1_435_000, 300_000, 0);
    army.add_x = -1;
    army.update_with(1000, 0, 0);
    assert_eq!(army.all_aliens[0].movement_collision.position.x, 1_442_500);
    assert!(1_442_500 > SWEEP_BOUND);
    assert_eq!((army.add_x, army.add_z), (0, -1));
    assert_eq!(army.lap, 1);
}

#[test]
fn no_turn_at_the_bound_itself() {
    let mut ids = IdSource::new();
    let mut army = lone(&mut ids, 1_432_500, 300_000, 0);
    army.add_x = -1;
    army.update_with(1000, 0, 0);
    assert_eq!(army.all_aliens[0].movement_collision.position.x, SWEEP_BOUND);
    assert_eq!((army.add_x, army.add_z), (-1, 0));
    assert_eq!(army.lap, 0);
}

#[test]
fn fourth_lap_drops_a_row() {
    let mut ids = IdSource::new();
    let mut army = lone(&mut ids, 1_435_000, 300_000, 0);
    army.add_x = -1;
    army.lap = 3;
    army.update_with(1000, 0, 0);
    assert_eq!(army.lap, 0);
    assert!(army.all_move_down);
    assert_eq!(army.march_down, 180_000);
    army.update_with(1000, 0, 0);
    assert_eq!(army.all_aliens[0].movement_collision.position.y, 290_000);
    assert!(army.all_move_down);
}

#[test]
fn collective_descent_ends_at_march_height() {
    let mut ids = IdSource::new();
    let mut army = lone(&mut ids, 0, 185_000, 0);
    army.all_move_down = true;
    army.march_down = 180_000;
    army.update_with(1000, 0, 0);
    assert_eq!(army.all_aliens[0].movement_collision.position.y, 175_000);
    assert!(!army.all_move_down);
}

#[test]
fn dropping_unit_lands_and_stays_landed() {
    let mut ids = IdSource::new();
    let mut army = lone(&mut ids, 0, 25_000, 0);
    army.all_aliens[0].drop_down = true;
    army.update_with(1000, 0, 0);
    let a = army.all_aliens[0];
    assert_eq!(a.movement_collision.position.y, 15_000);
    assert!(a.landed);
    assert_eq!(a.spin, 1);
    for _ in 0..10 {
        army.update_with(1000, 99, 0);
        assert!(army.all_aliens[0].landed);
        assert_eq!(army.all_aliens[0].movement_collision.position.y, 15_000);
    }
}

#[test]
fn dropping_unit_above_margin_keeps_falling() {
    let mut ids = IdSource::new();
    let mut army = lone(&mut ids, 0, 30_000, 0);
    army.all_aliens[0].drop_down = true;
    army.update_with(1000, 0, 0);
    assert_eq!(army.all_aliens[0].movement_collision.position.y, 20_000);
    assert!(!army.all_aliens[0].landed);
    army.update_with(1000, 0, 0);
    assert!(army.all_aliens[0].landed);
}

#[test]
fn draw_above_threshold_starts_one_drop() {
    let (mut army, _ids) = fresh();
    army.update_with(1000, 76, 3);
    let dropping: Vec<usize> = (0..25).filter(|&k| army.all_aliens[k].drop_down).collect();
    assert_eq!(dropping, vec![3]);
    assert_eq!(army.all_aliens[3].movement_collision.position.y, 290_000);
    assert_eq!(army.all_aliens[3].spin, 1);
}

#[test]
fn draw_at_threshold_starts_nothing() {
    let (mut army, _ids) = fresh();
    army.update_with(1000, 75, 3);
    assert!(army.all_aliens.iter().all(|a| !a.drop_down));
}

#[test]
fn drop_search_wraps_past_ineligible_units() {
    let (mut army, _ids) = fresh();
    army.all_aliens[24].landed = true;
    army.all_aliens[0].landed = true;
    army.update_with(1000, 90, 24);
    let dropping: Vec<usize> = (0..25).filter(|&k| army.all_aliens[k].drop_down).collect();
    assert_eq!(dropping, vec![1]);
}

#[test]
fn no_new_drop_while_one_is_falling() {
    let (mut army, _ids) = fresh();
    army.all_aliens[5].drop_down = true;
    army.update_with(1000, 99, 0);
    let dropping: Vec<usize> = (0..25).filter(|&k| army.all_aliens[k].drop_down).collect();
    assert_eq!(dropping, vec![5]);
    assert!(army.all_aliens[5].movement_collision.moved);
}

#[test]
fn random_update_keeps_at_most_one_new_drop() {
    let (mut army, _ids) = fresh();
    for _ in 0..50 {
        army.update(1000);
        let falling = army.all_aliens.iter().filter(|a| a.drop_down && !a.landed).count();
        assert!(falling <= 1);
    }
}

#[test]
fn empty_army_update_is_silent() {
    let mut army = AlienArmy::new();
    army.update(1000);
    assert!(army.all_aliens.is_empty());
    assert_eq!(army.lap, 0);
}
