//! A game session: the ship, the asteroids, the lasers and the sparks, the
//! counters that name them, and the score.
use vstd::prelude::*;
use crate::asteroid::Asteroid;
use crate::geometry::Vec2;
use crate::laser::Laser;
use crate::particle::Particle;
use crate::ship::{ControlModel, Ship, ARENA_LIMIT};

verus! {

/// Asteroids kept on the field.
pub const MAX_ASTEROIDS: usize = 20;

/// Time between shots, in milliseconds.
pub const LASER_COOLDOWN: i64 = 200;

/// Score that wins the game.
pub const WIN_SCORE: u32 = 100;

/// Time between the ship's wreck and the end of the game, in milliseconds.
pub const DEATH_DELAY: i64 = 1000;

/// Where a session stands.
#[derive(Clone, Copy, Debug, PartialEq, Eq, Structural)]
pub enum Status {
    Playing,
    GameOver,
    Won,
}

pub struct Game {
    /// Arena size, in units.
    pub width: i64,
    pub height: i64,
    pub center: Vec2,
    pub player: Ship,
    pub asteroids: Vec<Asteroid>,
    /// The last asteroid id handed out.
    pub asteroid_counter: u32,
    pub max_asteroids: usize,
    pub lasers: Vec<Laser>,
    /// The last laser id handed out.
    pub laser_counter: u32,
    /// Milliseconds.
    pub laser_cooldown: i64,
    pub laser_cooldown_remaining: i64,
    pub score: u32,
    pub particles: Vec<Particle>,
    /// Milliseconds left before a wreck ends the game.
    pub death_timer: i64,
    pub win_score: u32,
    pub control: ControlModel,
    /// Whether a shot carries the ship's own velocity.
    pub inherit_ship_velocity: bool,
}

/// Every asteroid is well formed and named by an id no later than `counter`,
/// and no two share an id.
pub open spec fn asteroids_ok(s: Seq<Asteroid>, counter: u32) -> bool {
    &&& forall|i: int| 0 <= i < s.len() ==> (#[trigger] s[i]).wf() && s[i].id <= counter
    &&& forall|i: int, j: int|
        0 <= i < s.len() && 0 <= j < s.len() && i != j ==> (#[trigger] s[i]).id != (#[trigger] s[j]).id
}

/// Every laser is well formed and named by an id no later than `counter`, and
/// no two share an id.
pub open spec fn lasers_ok(s: Seq<Laser>, counter: u32) -> bool {
    &&& forall|i: int| 0 <= i < s.len() ==> (#[trigger] s[i]).wf() && s[i].id <= counter
    &&& forall|i: int, j: int|
        0 <= i < s.len() && 0 <= j < s.len() && i != j ==> (#[trigger] s[i]).id != (#[trigger] s[j]).id
}

pub open spec fn particles_ok(s: Seq<Particle>) -> bool {
    forall|i: int| 0 <= i < s.len() ==> (#[trigger] s[i]).wf() && s[i].lifetime > 0
}

impl Game {
    pub open spec fn wf(&self) -> bool {
        &&& 0 < self.width <= ARENA_LIMIT
        &&& 0 < self.height <= ARENA_LIMIT
        &&& self.center.x == self.width / 2
        &&& self.center.y == self.height / 2
        &&& self.player.wf()
        &&& asteroids_ok(self.asteroids@, self.asteroid_counter)
        &&& lasers_ok(self.lasers@, self.laser_counter)
        &&& particles_ok(self.particles@)
        &&& self.max_asteroids <= 1000
        &&& 0 < self.laser_cooldown <= 60_000
        &&& -0x1_0000 <= self.laser_cooldown_remaining <= self.laser_cooldown
        &&& -0x1_0000 <= self.death_timer <= DEATH_DELAY
    }

    /// Whether the game has ended.
    pub open spec fn status_spec(&self) -> Status {
        if self.player.health == 0 && self.death_timer <= 0 {
            Status::GameOver
        } else if self.score >= self.win_score {
            Status::Won
        } else {
            Status::Playing
        }
    }

    /// Where the session stands: lost once the wreck's delay has run out,
    /// won once the score reaches the target.
    pub fn status(&self) -> (r: Status)
        ensures
            r == self.status_spec(),
    {
        if self.player.health == 0 && self.death_timer <= 0 {
            Status::GameOver
        } else if self.score >= self.win_score {
            Status::Won
        } else {
            Status::Playing
        }
    }

    /// Whether the game has ended, lost or won.
    pub fn check_game_over(&self) -> (r: bool)
        ensures
            r == (self.status_spec() != Status::Playing),
    {
        let s: Status = self.status();
        match s {
            Status::Playing => false,
            _ => true,
        }
    }

    pub fn is_game_over(&self) -> (r: bool)
        ensures
            r == (self.status_spec() == Status::GameOver),
    {
        let s: Status = self.status();
        match s {
            Status::GameOver => true,
            _ => false,
        }
    }

    pub fn is_won(&self) -> (r: bool)
        ensures
            r == (self.status_spec() == Status::Won),
    {
        let s: Status = self.status();
        match s {
            Status::Won => true,
            _ => false,
        }
    }
}

} // verus!
