use asteroids::asteroid::Asteroid;
use asteroids::game::{Game, Status, MAX_ASTEROIDS};
use asteroids::geometry::{dist_sq, Vec2};
use asteroids::laser::Laser;
use asteroids::session::{Phase, Session};
use asteroids::ship::{Controls, HIT_GRACE_FRAMES};
use std::collections::HashSet;

fn no_keys() -> Controls {
    Controls { forward: false, back: false, left: false, right: false, fire: false }
}

fn fire_keys() -> Controls {
    Controls { fire: true, ..no_keys() }
}

/// An 800 by 600 game with no asteroids and no refills.
fn quiet_game() -> Game {
    let mut g = Game::new(800, 600);
    g.asteroids.clear();
    g.asteroid_counter = 0;
    g.max_asteroids = 0;
    g
}

fn ids_unique(g: &Game) -> bool {
    let a: HashSet<u32> = g.asteroids.iter().map(|a| a.id).collect();
    let l: HashSet<u32> = g.lasers.iter().map(|l| l.id).collect();
    a.len() == g.asteroids.len() && l.len() == g.lasers.len()
}

#[test]
fn new_game_starts_clean() {
    let g = Game::new(800, 600);
    assert_eq!(g.width, 800_000);
    assert_eq!(g.height, 600_000);
    assert_eq!(g.center, Vec2 { x: 400_000, y: 300_000 });
    assert_eq!(g.player.position, g.center);
    assert_eq!(g.player.health, 5);
    assert_eq!(g.score, 0);
    assert!(g.lasers.is_empty());
    assert!(g.asteroids.len() <= MAX_ASTEROIDS);
    assert_eq!(g.asteroid_counter as usize, g.asteroids.len());
    assert_eq!(g.status(), Status::Playing);
    assert!(!g.check_game_over());
}

#[test]
fn spawned_asteroids_on_edges_and_apart() {
    let g = Game::new(1600, 1200);
    for (k, a) in g.asteroids.iter().enumerate() {
        assert_eq!(a.id as usize, k + 1);
        let p = a.position;
        assert!(p.x == 0 || p.x == g.width || p.y == 0 || p.y == g.height);
        assert!(a.radius >= 10_000 && a.radius < 100_000);
        assert_eq!(a.radius % 8, 0);
        assert_eq!(a.health, 1);
        for b in &g.asteroids[..k] {
            let gap = (a.radius + b.radius + 10_000) as u64;
            assert!(dist_sq(&a.position, &b.position) >= gap * gap);
        }
    }
}

#[test]
fn tiny_arena_spawns_nothing() {
    let g = Game::new(1, 1);
    assert!(g.asteroids.is_empty());
}

#[test]
fn spawner_fills_shortfall_by_edges() {
    let mut g = quiet_game();
    g.max_asteroids = 7;
    g.generate_asteroids();
    // Seven short: one for each of the four edges, three wait.
    assert!(g.asteroids.len() <= 4);
    assert_eq!(g.asteroid_counter as usize, g.asteroids.len());
}

#[test]
fn ship_collision_costs_one_health() {
    let mut g = quiet_game();
    assert_eq!(g.player.iframes, 0);
    assert_eq!(g.player.health, 5);
    // The ship's nose is at (415000, 255000).
    g.asteroids.push(Asteroid::new(415_000, 255_000, 0, 0, 15_000, 1));
    g.asteroid_counter = 1;
    g.tick(16, no_keys());
    assert_eq!(g.player.health, 4);
    assert_eq!(g.player.iframes, HIT_GRACE_FRAMES);
    assert!(g.asteroids.iter().all(|a| a.id != 1));
}

#[test]
fn second_hit_within_grace_is_free() {
    let mut g = quiet_game();
    g.asteroids.push(Asteroid::new(415_000, 255_000, 0, 0, 15_000, 1));
    g.asteroids.push(Asteroid::new(400_000, 300_000, 0, 0, 15_000, 2));
    g.asteroid_counter = 2;
    g.tick(16, no_keys());
    assert_eq!(g.player.health, 4);
    assert!(g.asteroids.is_empty());
}

#[test]
fn ship_collision_splits_large_asteroid() {
    let mut g = quiet_game();
    g.asteroids.push(Asteroid::new(415_000, 255_000, 0, 0, 30_000, 1));
    g.asteroid_counter = 1;
    g.tick(16, no_keys());
    assert_eq!(g.player.health, 4);
    assert_eq!(g.asteroids.len(), 2);
    assert!(g.asteroids.iter().all(|a| a.radius == 15_000));
    assert_eq!(g.asteroid_counter, 3);
}

#[test]
fn laser_kill_splits_large_asteroid() {
    let mut g = quiet_game();
    g.asteroids.push(Asteroid::new(100_000, 100_000, 0, 0, 50_000, 1));
    g.asteroid_counter = 1;
    g.lasers.push(Laser::new(100_000, 100_000, 0, 0, 1));
    g.laser_counter = 1;
    g.tick(16, no_keys());
    assert_eq!(g.asteroids.len(), 2);
    assert!(g.asteroids.iter().all(|a| a.radius == 25_000));
    let ids: Vec<u32> = g.asteroids.iter().map(|a| a.id).collect();
    assert_eq!(ids, vec![2, 3]);
    assert_eq!(g.asteroids[0].ignore_collision_with, Some(3));
    assert_eq!(g.asteroids[1].ignore_collision_with, Some(2));
    assert!(g.lasers.is_empty());
    assert_eq!(g.score, 1);
}

#[test]
fn score_counts_each_kill_once() {
    let mut g = quiet_game();
    g.asteroids.push(Asteroid::new(100_000, 100_000, 0, 0, 50_000, 1));
    g.asteroids.push(Asteroid::new(600_000, 100_000, 0, 0, 15_000, 2));
    g.asteroid_counter = 2;
    g.lasers.push(Laser::new(100_000, 100_000, 0, 0, 1));
    g.lasers.push(Laser::new(600_000, 100_000, 0, 0, 2));
    g.laser_counter = 2;
    g.tick(16, no_keys());
    assert_eq!(g.score, 2);
    assert_eq!(g.asteroids.len(), 2);
    assert!(g.lasers.is_empty());
}

#[test]
fn two_lasers_on_one_asteroid_score_once() {
    let mut g = quiet_game();
    g.asteroids.push(Asteroid::new(100_000, 100_000, 0, 0, 15_000, 1));
    g.asteroid_counter = 1;
    g.lasers.push(Laser::new(100_000, 100_000, 0, 0, 1));
    g.lasers.push(Laser::new(101_000, 100_000, 0, 0, 2));
    g.laser_counter = 2;
    g.tick(16, no_keys());
    assert_eq!(g.score, 1);
    assert!(g.asteroids.is_empty());
    // The second laser found nothing alive to strike and flies on.
    assert_eq!(g.lasers.len(), 1);
    assert_eq!(g.lasers[0].id, 2);
}

#[test]
fn fire_once_per_cooldown() {
    let mut g = quiet_game();
    let mut fired_at: Vec<usize> = vec![];
    for n in 1..=30 {
        let before = g.laser_counter;
        g.tick(16, fire_keys());
        assert!(g.laser_counter - before <= 1);
        if g.laser_counter > before {
            fired_at.push(n);
        }
    }
    assert_eq!(fired_at, vec![1, 14, 27]);
}

#[test]
fn no_fire_without_trigger() {
    let mut g = quiet_game();
    for _ in 0..10 {
        g.tick(16, no_keys());
    }
    assert_eq!(g.laser_counter, 0);
    assert!(g.lasers.is_empty());
}

#[test]
fn laser_leaves_from_nose_upward() {
    let mut g = quiet_game();
    g.tick(16, fire_keys());
    assert_eq!(g.lasers.len(), 1);
    // Fired from (415000, 255000) at 500 px/s up, then flown 16 ms.
    assert_eq!(g.lasers[0].velocity, Vec2 { x: 0, y: -500_000 });
    assert_eq!(g.lasers[0].position, Vec2 { x: 415_000, y: 247_000 });
}

#[test]
fn off_arena_entities_removed() {
    let mut g = quiet_game();
    g.asteroids.push(Asteroid::new(-20_000, 100_000, 0, 0, 15_000, 1));
    g.asteroids.push(Asteroid::new(-10_000, 100_000, 0, 0, 15_000, 2));
    g.asteroid_counter = 2;
    g.lasers.push(Laser::new(-1, 500_000, 0, 0, 1));
    g.lasers.push(Laser::new(0, 500_000, 0, 0, 2));
    g.laser_counter = 2;
    g.tick(16, no_keys());
    let ids: Vec<u32> = g.asteroids.iter().map(|a| a.id).collect();
    assert_eq!(ids, vec![2]);
    let ids: Vec<u32> = g.lasers.iter().map(|l| l.id).collect();
    assert_eq!(ids, vec![2]);
}

#[test]
fn ids_unique_over_many_ticks() {
    let mut g = Game::new(800, 600);
    for n in 0..400 {
        let keys = Controls { fire: true, forward: n % 50 < 10, left: n % 70 < 20, ..no_keys() };
        g.tick(16, keys);
        assert!(ids_unique(&g));
        assert!(g.asteroids.iter().all(|a| a.id <= g.asteroid_counter));
        assert!(g.lasers.iter().all(|l| l.id <= g.laser_counter));
    }
}

#[test]
fn death_delays_game_over() {
    let mut g = quiet_game();
    g.player.health = 1;
    g.asteroids.push(Asteroid::new(415_000, 255_000, 0, 0, 15_000, 1));
    g.asteroid_counter = 1;
    g.tick(16, no_keys());
    assert_eq!(g.player.health, 0);
    assert_eq!(g.death_timer, 984);
    assert!(g.particles.len() >= 30);
    assert_eq!(g.status(), Status::Playing);
    let mut ticks = 0;
    while !g.is_game_over() {
        g.tick(16, no_keys());
        ticks += 1;
    }
    assert_eq!(ticks, 62);
    assert!(g.check_game_over());
}

#[test]
fn reaching_target_wins() {
    let mut g = quiet_game();
    g.set_win_score(3);
    g.score = 2;
    assert!(!g.is_won());
    g.score = 3;
    assert!(g.is_won());
    assert_eq!(g.status(), Status::Won);
}

#[test]
fn won_session_holds_score() {
    let mut s = Session::new(800, 600);
    assert_eq!(s.phase, Phase::NotStarted);
    assert!(!s.frame(16, no_keys(), false));
    assert_eq!(s.phase, Phase::NotStarted);
    assert!(!s.frame(16, no_keys(), true));
    assert_eq!(s.phase, Phase::Playing);
    s.game.asteroids.clear();
    s.game.asteroid_counter = 0;
    s.game.max_asteroids = 0;
    s.game.set_win_score(1);
    s.game.asteroids.push(Asteroid::new(100_000, 100_000, 0, 0, 15_000, 1));
    s.game.asteroid_counter = 1;
    s.game.lasers.push(Laser::new(100_000, 100_000, 0, 0, 1));
    s.game.laser_counter = 1;
    assert!(s.frame(16, no_keys(), false));
    assert_eq!(s.game.score, 1);
    assert_eq!(s.phase, Phase::Won);
    s.game.asteroids.push(Asteroid::new(100_000, 100_000, 0, 0, 15_000, 2));
    s.game.asteroid_counter = 2;
    s.game.lasers.push(Laser::new(100_000, 100_000, 0, 0, 2));
    s.game.laser_counter = 2;
    for _ in 0..5 {
        assert!(!s.frame(16, fire_keys(), false));
        assert_eq!(s.game.score, 1);
        assert_eq!(s.phase, Phase::Won);
    }
    assert!(!s.frame(16, no_keys(), true));
    assert_eq!(s.phase, Phase::Playing);
    assert_eq!(s.game.score, 0);
}

#[test]
fn reset_restores_start() {
    let mut g = Game::new(800, 600);
    for _ in 0..20 {
        g.tick(16, fire_keys());
    }
    g.score = 7;
    g.player.health = 2;
    g.reset();
    assert_eq!(g.score, 0);
    assert_eq!(g.player.health, 5);
    assert_eq!(g.player.position, g.center);
    assert!(g.lasers.is_empty());
    assert!(g.particles.is_empty());
    assert_eq!(g.laser_counter, 0);
    assert_eq!(g.asteroid_counter as usize, g.asteroids.len());
    assert_eq!(g.width, 800_000);
}

#[test]
fn won_game_tick_changes_nothing() {
    let mut g = quiet_game();
    g.set_win_score(1);
    g.score = 1;
    g.asteroids.push(Asteroid::new(100_000, 100_000, 0, 0, 15_000, 1));
    g.asteroid_counter = 1;
    g.lasers.push(Laser::new(100_000, 100_000, 0, 0, 1));
    g.laser_counter = 1;
    g.tick(16, fire_keys());
    assert_eq!(g.score, 1);
    assert_eq!(g.asteroids.len(), 1);
    assert_eq!(g.lasers.len(), 1);
    assert_eq!(g.laser_counter, 1);
}

#[test]
fn place_on_clear_edge() {
    let mut g = quiet_game();
    assert!(g.place(0, 20_000, 300_000, 0));
    assert_eq!(g.asteroids.len(), 1);
    let a = g.asteroids[0];
    assert_eq!(a.position, Vec2 { x: 0, y: 300_000 });
    assert_eq!(a.radius, 20_000);
    assert_eq!(a.id, 1);
    assert_eq!(a.rotation, 0);
    // Straight at the centre, which lies level with it.
    assert_eq!(a.velocity, Vec2 { x: 100_000, y: 0 });
    // A second one overlapping the first is refused.
    assert!(!g.place(0, 20_000, 320_000, 0));
    assert_eq!(g.asteroids.len(), 1);
    // An edge too short for the radius is refused.
    let mut tiny = Game::new(30, 30);
    tiny.asteroids.clear();
    assert!(!tiny.place(0, 20_000, 20_000, 0));
}

#[test]
fn new_game_has_asteroids() {
    let g = Game::new(800, 600);
    assert!(!g.asteroids.is_empty());
}

#[test]
fn bounce_sparks_at_contact() {
    let mut g = quiet_game();
    g.asteroids.push(Asteroid::new(100_000, 100_000, 40_000, 0, 20_000, 1));
    g.asteroids.push(Asteroid::new(130_000, 100_000, -40_000, 0, 20_000, 2));
    g.asteroid_counter = 2;
    g.bounce_asteroids();
    assert_eq!(g.particles.len(), 3);
    // The first moved to x = 94000 and its rim toward the second is 20 px on.
    for p in &g.particles {
        assert_eq!(p.position, Vec2 { x: 114_000, y: 100_000 });
    }
}
