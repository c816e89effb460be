use invaders::game::{IdSource, MovementAndCollision, Vec3};

fn record(id: u128, radius: i64, x: i64, y: i64, z: i64) -> MovementAndCollision {
    MovementAndCollision { id, radius, position: Vec3 { x, y, z }, been_hit: false, moved: false }
}

#[test]
fn overlap_uses_only_the_first_radius() {
    let a = record(1, 40_000, 0, 0, 0);
    let b = record(2, 10_000, 20_000, 0, 0);
    assert!(a.hit_other(&b));
    assert!(!b.hit_other(&a));
}

#[test]
fn overlap_is_strict() {
    let a = record(1, 30_000, 0, 0, 0);
    let b = record(2, 30_000, 30_000, 0, 0);
    assert!(!a.hit_other(&b));
    let c = record(3, 30_000, 29_999, 0, 0);
    assert!(a.hit_other(&c));
}

#[test]
fn overlap_in_three_dimensions() {
    // distance 5 * 10_000 = 50_000
    let a = record(1, 50_001, 0, 0, 0);
    let b = record(2, 0, 30_000, 40_000, 0);
    assert!(a.hit_other(&b));
    let c = record(3, 50_000, 0, 0, 0);
    assert!(!c.hit_other(&b));
    let d = record(4, 0, 0, 30_000, -40_000);
    assert!(a.hit_other(&d));
}

#[test]
fn zero_radius_never_hits() {
    let a = record(1, 0, 0, 0, 0);
    let b = record(2, 10, 0, 0, 0);
    assert!(!a.hit_other(&b));
    assert!(b.hit_other(&a));
}

#[test]
fn new_record_takes_a_fresh_id() {
    let mut ids = IdSource::new();
    let a = MovementAndCollision::new(&mut ids, 7, Vec3 { x: 1, y: 2, z: 3 });
    let b = MovementAndCollision::new(&mut ids, 7, Vec3 { x: 1, y: 2, z: 3 });
    assert_eq!(a.id, 1);
    assert_eq!(b.id, 2);
    assert_eq!(a.radius, 7);
    assert_eq!(a.position, Vec3 { x: 1, y: 2, z: 3 });
    assert!(!a.been_hit && !a.moved);
}
