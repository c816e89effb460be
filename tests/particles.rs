use invaders::explosion::{
    ExplosionInstance, Explosions, ParticleDraw, BURST, RISE_MAX, RISE_MIN, SPEED_MAX, SPEED_MIN, SPREAD,
    TICKS_MAX, TICKS_MIN,
};
use invaders::game::Vec3;

#[test]
fn burst_has_ten_particles_in_range() {
    let mut e = Explosions::new();
    let at = Vec3 { x: 5, y: 6, z: 7 };
    e.create(at);
    assert_eq!(e.instances.len(), 10);
    assert_eq!(BURST, 10);
    for p in &e.instances {
        assert_eq!(p.position, at);
        assert!(p.ticks >= 50 && p.ticks < 150);
        assert!(p.speed >= 50_000 && p.speed < 200_000);
        assert!(p.direction.x >= -SPREAD && p.direction.x < SPREAD);
        assert!(p.direction.y >= RISE_MIN && p.direction.y < RISE_MAX);
        assert!(p.direction.z >= -SPREAD && p.direction.z < SPREAD);
        assert!(p.speed >= SPEED_MIN && p.speed < SPEED_MAX);
        assert!(p.ticks >= TICKS_MIN && p.ticks < TICKS_MAX);
    }
    e.create(at);
    assert_eq!(e.instances.len(), 20);
}

#[test]
fn bursts_vary_between_particles() {
    let mut e = Explosions::new();
    e.create(Vec3 { x: 0, y: 0, z: 0 });
    let first: &ExplosionInstance = &e.instances[0];
    let all_same = e.instances.iter().all(|p| p.direction == first.direction && p.speed == first.speed && p.ticks == first.ticks);
    assert!(!all_same);
}

#[test]
fn create_with_uses_given_draws() {
    let mut e = Explosions::new();
    let draws = vec![
        ParticleDraw { direction: Vec3 { x: 50_000, y: 100_000, z: -50_000 }, speed: 100_000, ticks: 50 },
        ParticleDraw { direction: Vec3 { x: -100_000, y: 10_000, z: 99_999 }, speed: 199_999, ticks: 149 },
    ];
    e.create_with(Vec3 { x: 1, y: 2, z: 3 }, &draws);
    assert_eq!(e.instances.len(), 2);
    assert_eq!(e.instances[1].direction, Vec3 { x: -100_000, y: 10_000, z: 99_999 });
    assert_eq!(e.instances[1].speed, 199_999);
    assert_eq!(e.instances[1].ticks, 149);
    assert_eq!(e.instances[0].position, Vec3 { x: 1, y: 2, z: 3 });
}

#[test]
fn particle_update_moves_and_expires() {
    let mut e = Explosions::new();
    let draws = vec![ParticleDraw { direction: Vec3 { x: 50_000, y: 100_000, z: -50_000 }, speed: 100_000, ticks: 50 }];
    e.create_with(Vec3 { x: 0, y: 0, z: 0 }, &draws);
    e.update(1000);
    assert_eq!(e.instances[0].position, Vec3 { x: 5_000, y: 10_000, z: -5_000 });
    assert_eq!(e.instances[0].ticks, 49);
    for _ in 0..48 {
        e.update(1000);
    }
    assert_eq!(e.instances.len(), 1);
    e.update(1000);
    assert!(e.instances.is_empty());
}
