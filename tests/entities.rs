use asteroids::asteroid::{Asteroid, ASTEROID_SIDES};
use asteroids::geometry::{dist_sq, Vec2};
use asteroids::laser::Laser;
use asteroids::particle::{Particle, FULL_LIFE};
use asteroids::physics::resolve_pair;
use asteroids::ship::{ControlModel, Controls, Ship, HIT_GRACE_FRAMES, SHIP_HEALTH};

fn no_keys() -> Controls {
    Controls { forward: false, back: false, left: false, right: false, fire: false }
}

#[test]
fn take_hit_during_grace_keeps_health() {
    let mut ship = Ship::new(100_000, 100_000);
    ship.iframes = 5;
    ship.take_hit();
    assert_eq!(ship.health, SHIP_HEALTH);
    assert_eq!(ship.iframes, 5);
}

#[test]
fn take_hit_costs_one_and_starts_grace() {
    let mut ship = Ship::new(100_000, 100_000);
    ship.take_hit();
    assert_eq!(ship.health, SHIP_HEALTH - 1);
    assert_eq!(ship.iframes, HIT_GRACE_FRAMES);
    ship.take_hit();
    assert_eq!(ship.health, SHIP_HEALTH - 1);
}

#[test]
fn wrecked_ship_takes_no_damage() {
    let mut ship = Ship::new(100_000, 100_000);
    ship.health = 0;
    ship.take_hit();
    assert_eq!(ship.health, 0);
    assert_eq!(ship.iframes, 0);
}

#[test]
fn hull_points_up_at_start() {
    let ship = Ship::new(400_000, 300_000);
    let v = ship.vertices();
    assert_eq!(v.len(), 3);
    // Centre (415000, 285000); the nose is 30 px from it, straight up.
    assert_eq!(v[1], Vec2 { x: 415_000, y: 255_000 });
    assert_eq!(v[0], Vec2 { x: 430_000, y: 300_000 });
    assert_eq!(v[2], Vec2 { x: 400_000, y: 300_000 });
}

#[test]
fn thrust_accelerates_along_facing() {
    let mut ship = Ship::new(400_000, 300_000);
    let keys = Controls { forward: true, ..no_keys() };
    ship.steer(16, keys, ControlModel::Thrust, 800_000, 600_000);
    assert_eq!(ship.velocity, Vec2 { x: 0, y: -80 });
    assert_eq!(ship.position, Vec2 { x: 400_000, y: 299_920 });
}

#[test]
fn turning_changes_rotation() {
    let mut ship = Ship::new(400_000, 300_000);
    let keys = Controls { right: true, ..no_keys() };
    ship.steer(16, keys, ControlModel::Thrust, 800_000, 600_000);
    assert_eq!(ship.rotation, 274_000);
    let keys = Controls { left: true, ..no_keys() };
    ship.steer(16, keys, ControlModel::Thrust, 800_000, 600_000);
    ship.steer(16, keys, ControlModel::Thrust, 800_000, 600_000);
    assert_eq!(ship.rotation, 266_000);
}

#[test]
fn wall_stops_the_ship() {
    let mut ship = Ship::new(10, 300_000);
    ship.velocity = Vec2 { x: -500, y: 0 };
    ship.steer(16, no_keys(), ControlModel::Thrust, 800_000, 600_000);
    assert_eq!(ship.position.x, 0);
    assert_eq!(ship.velocity.x, 0);
}

#[test]
fn slide_model_moves_on_axes() {
    let mut ship = Ship::new(400_000, 300_000);
    let keys = Controls { forward: true, right: true, ..no_keys() };
    ship.steer(10, keys, ControlModel::Slide, 800_000, 600_000);
    assert_eq!(ship.position, Vec2 { x: 403_000, y: 297_000 });
    assert_eq!(ship.velocity, Vec2 { x: 0, y: 0 });
}

#[test]
fn asteroid_drifts_and_spins() {
    let mut a = Asteroid::new(100_000, 100_000, 100_000, -50_000, 30_000, 7);
    a.tick(16);
    assert_eq!(a.position, Vec2 { x: 101_600, y: 99_200 });
    assert_eq!(a.rotation, 480);
    assert_eq!(a.num_sides, ASTEROID_SIDES);
}

#[test]
fn asteroid_take_hit_stops_at_zero() {
    let mut a = Asteroid::new(0, 0, 0, 0, 30_000, 1);
    a.take_hit();
    assert_eq!(a.health, 0);
    a.take_hit();
    assert_eq!(a.health, 0);
}

#[test]
fn split_halves_and_cross_references() {
    let parent = Asteroid::new(200_000, 200_000, 10_000, 0, 50_000, 4);
    let (a, b) = parent.split(11, 0);
    assert_eq!(a.radius, 25_000);
    assert_eq!(b.radius, 25_000);
    assert_eq!(a.id, 11);
    assert_eq!(b.id, 12);
    assert_eq!(a.ignore_collision_with, Some(12));
    assert_eq!(b.ignore_collision_with, Some(11));
    assert_eq!(a.position, parent.position);
    assert_eq!(a.velocity, Vec2 { x: 110_000, y: 0 });
    assert_eq!(b.velocity, Vec2 { x: -90_000, y: 0 });
    assert_eq!(a.health, 1);
}

#[test]
fn separated_siblings_lose_exemption() {
    let parent = Asteroid::new(200_000, 200_000, 0, 0, 50_000, 4);
    let (mut a, b) = parent.split(11, 0);
    // Still overlapping: the exemption holds and they do not bounce.
    let (a1, b1, bounced) = resolve_pair(a, b);
    assert!(!bounced);
    assert_eq!(a1.ignore_collision_with, Some(12));
    assert_eq!(b1.ignore_collision_with, Some(11));
    // Drawn apart: both exemptions clear.
    a.position = Vec2 { x: 260_000, y: 200_000 };
    let (a2, b2, bounced) = resolve_pair(a, b);
    assert!(!bounced);
    assert_eq!(a2.ignore_collision_with, None);
    assert_eq!(b2.ignore_collision_with, None);
}

#[test]
fn head_on_bounce_swaps_and_separates() {
    let a = Asteroid::new(100_000, 100_000, 40_000, 0, 20_000, 1);
    let b = Asteroid::new(130_000, 100_000, -40_000, 0, 20_000, 2);
    let (a2, b2, bounced) = resolve_pair(a, b);
    assert!(bounced);
    assert_eq!(a2.velocity, b.velocity);
    assert_eq!(b2.velocity, a.velocity);
    assert!(dist_sq(&a2.position, &b2.position) >= 40_000u64 * 40_000);
}

#[test]
fn diagonal_head_on_bounce_swaps() {
    let a = Asteroid::new(100_000, 100_000, 30_000, 40_000, 25_000, 1);
    let b = Asteroid::new(124_000, 132_000, -30_000, -40_000, 25_000, 2);
    let (a2, b2, bounced) = resolve_pair(a, b);
    assert!(bounced);
    assert_eq!(a2.velocity, b.velocity);
    assert_eq!(b2.velocity, a.velocity);
    assert!(dist_sq(&a2.position, &b2.position) >= 50_000u64 * 50_000);
}

#[test]
fn separating_pair_does_not_bounce() {
    let a = Asteroid::new(100_000, 100_000, -40_000, 0, 20_000, 1);
    let b = Asteroid::new(130_000, 100_000, 40_000, 0, 20_000, 2);
    let (a2, b2, bounced) = resolve_pair(a, b);
    assert!(!bounced);
    assert_eq!(a2, a);
    assert_eq!(b2, b);
}

#[test]
fn heavier_asteroid_moves_less() {
    let a = Asteroid::new(100_000, 100_000, 0, 0, 40_000, 1);
    let b = Asteroid::new(150_000, 100_000, -50_000, 0, 20_000, 2);
    let (a2, b2, bounced) = resolve_pair(a, b);
    assert!(bounced);
    // Masses 16:4; the small one bounces back, the large one is nudged.
    assert_eq!(a2.velocity, Vec2 { x: -20_000, y: 0 });
    assert_eq!(b2.velocity, Vec2 { x: 30_000, y: 0 });
}

#[test]
fn laser_flies() {
    let mut l = Laser::new(0, 0, 500_000, -250_000, 3);
    l.tick(20);
    assert_eq!(l.position, Vec2 { x: 10_000, y: -5_000 });
    assert_eq!(l.id, 3);
}

#[test]
fn particle_fades_and_slows() {
    let mut p = Particle::new(1_000, 1_000, 100_000);
    assert_eq!(p.lifetime, FULL_LIFE);
    assert!(p.velocity.x.abs() <= 100_000 && p.velocity.y.abs() <= 100_000);
    assert!(p.size >= 2_000 && p.size < 6_000);
    p.velocity = Vec2 { x: 100_000, y: -50_000 };
    p.tick(100);
    assert_eq!(p.lifetime, 800);
    assert_eq!(p.position, Vec2 { x: 11_000, y: -4_000 });
    assert_eq!(p.velocity, Vec2 { x: 98_000, y: -49_000 });
    assert!(p.alive());
    p.tick(400);
    assert!(!p.alive());
}

#[test]
fn launch_is_exact() {
    let p = Particle::launch(1_000, 2_000, 100_000, 90_000, 3_000);
    assert_eq!(p.position, Vec2 { x: 1_000, y: 2_000 });
    assert_eq!(p.velocity, Vec2 { x: 0, y: 100_000 });
    assert_eq!(p.size, 3_000);
    assert_eq!(p.lifetime, FULL_LIFE);
}

#[test]
fn contact_point_on_rim() {
    let a = Asteroid::new(0, 0, 0, 0, 20_000, 1);
    let b = Asteroid::new(30_000, 40_000, 0, 0, 20_000, 2);
    assert_eq!(asteroids::physics::contact_point(&a, &b), Vec2 { x: 12_000, y: 16_000 });
    assert_eq!(asteroids::physics::contact_point(&a, &a), Vec2 { x: 0, y: 0 });
}
