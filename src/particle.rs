//! Short-lived sparks thrown out by wrecks, splits and bounces.
use vstd::prelude::*;
use crate::asteroid::{moved, speed_ok, travel, travel_exec, MAX_SPEED};
use crate::geometry::{
    cosine, cosine_spec, div_toward_zero, div_trunc, in_world, sine, sine_spec, world_add, Vec2,
    FULL_TURN, TRIG_ONE,
};
use crate::random::pick;

verus! {

/// The lifetime of a new spark, in thousandths.
pub const FULL_LIFE: i64 = 1000;

/// Smallest and largest size of a spark at full life, in units.
pub const MIN_SPARK: i64 = 2000;

pub const MAX_SPARK: i64 = 6000;

#[derive(Clone, Copy, Debug, PartialEq, Eq, Structural)]
pub struct Particle {
    pub position: Vec2,
    /// Units per second.
    pub velocity: Vec2,
    /// Thousandths of the full life; the spark is gone at zero.
    pub lifetime: i64,
    pub size: i64,
}

/// A spark at `(x, y)` at full life, flying at `speed` toward `angle`.
pub open spec fn spark(x: i64, y: i64, speed: int, angle: int, size: int) -> Particle {
    Particle {
        position: Vec2 { x, y },
        velocity: Vec2 {
            x: div_trunc(speed * cosine_spec(angle), TRIG_ONE as int) as i64,
            y: div_trunc(speed * sine_spec(angle), TRIG_ONE as int) as i64,
        },
        lifetime: FULL_LIFE,
        size: size as i64,
    }
}

/// A spark after `dt` milliseconds of flight.
pub open spec fn aged(p: Particle, dt: int) -> Particle {
    Particle {
        position: Vec2 {
            x: moved(p.position.x as int, travel(p.velocity.x as int, dt)) as i64,
            y: moved(p.position.y as int, travel(p.velocity.y as int, dt)) as i64,
        },
        velocity: Vec2 {
            x: div_trunc(p.velocity.x * 98, 100) as i64,
            y: div_trunc(p.velocity.y * 98, 100) as i64,
        },
        lifetime: (p.lifetime - 2 * dt) as i64,
        size: p.size,
    }
}

/// The sparks of `s` after `dt` milliseconds, the burnt-out ones dropped,
/// in their order.
pub open spec fn age_all(s: Seq<Particle>, dt: int) -> Seq<Particle>
    decreases s.len(),
{
    if s.len() == 0 {
        Seq::empty()
    } else {
        let rest = age_all(s.drop_last(), dt);
        let q = aged(s.last(), dt);
        if q.lifetime > 0 {
            rest.push(q)
        } else {
            rest
        }
    }
}

impl Particle {
    pub open spec fn wf(&self) -> bool {
        &&& in_world(self.position)
        &&& speed_ok(self.velocity)
        &&& -0x2_0000 <= self.lifetime <= FULL_LIFE
        &&& MIN_SPARK <= self.size < MAX_SPARK
    }

    /// A spark at `(x, y)` flying at `speed` toward `angle`, of `size`, at
    /// full life.
    pub fn launch(x: i64, y: i64, speed: i64, angle: i64, size: i64) -> (r: Particle)
        requires
            in_world(Vec2 { x, y }),
            0 <= speed <= MAX_SPEED,
            0 <= angle < FULL_TURN,
            MIN_SPARK <= size < MAX_SPARK,
        ensures
            r.wf(),
            r == spark(x, y, speed as int, angle as int, size as int),
    {
        let c: i64 = cosine(angle);
        let s: i64 = sine(angle);
        assert(-speed * 10_000 <= speed * c <= speed * 10_000 && -speed * 10_000 <= speed * s <= speed
            * 10_000) by (nonlinear_arith)
            requires
                0 <= speed,
                -10_000 <= c <= 10_000,
                -10_000 <= s <= 10_000,
        ;
        let vx: i128 = div_toward_zero((speed * c) as i128, TRIG_ONE as i128);
        let vy: i128 = div_toward_zero((speed * s) as i128, TRIG_ONE as i128);
        assert(-speed <= vx <= speed && -speed <= vy <= speed) by (nonlinear_arith)
            requires
                vx == div_trunc(speed * c, 10_000),
                vy == div_trunc(speed * s, 10_000),
                -speed * 10_000 <= speed * c <= speed * 10_000,
                -speed * 10_000 <= speed * s <= speed * 10_000,
        ;
        Particle {
            position: Vec2 { x, y },
            velocity: Vec2 { x: vx as i64, y: vy as i64 },
            lifetime: FULL_LIFE,
            size,
        }
    }

    /// A spark at `(x, y)` flying at `speed` in a random direction, with a
    /// random size.
    pub fn new(x: i64, y: i64, speed: i64) -> (r: Particle)
        requires
            in_world(Vec2 { x, y }),
            0 <= speed <= MAX_SPEED,
        ensures
            r.wf(),
            exists|a: int, sz: int|
                0 <= a < FULL_TURN && MIN_SPARK <= sz < MAX_SPARK && r == #[trigger] spark(
                    x,
                    y,
                    speed as int,
                    a,
                    sz,
                ),
    {
        let angle: i64 = pick(0, FULL_TURN);
        let size: i64 = pick(MIN_SPARK, MAX_SPARK);
        Particle::launch(x, y, speed, angle, size)
    }

    /// Whether the spark still shows.
    pub fn alive(&self) -> (r: bool)
        ensures
            r == (self.lifetime > 0),
    {
        self.lifetime > 0
    }

    /// Fly for `dt` milliseconds, fade at twice the rate of time, and slow
    /// by a fiftieth.
    pub fn tick(&mut self, dt: u16)
        requires
            old(self).wf(),
            old(self).lifetime > 0,
        ensures
            final(self).wf(),
            final(self).position.x == moved(
                old(self).position.x as int,
                travel(old(self).velocity.x as int, dt as int),
            ),
            final(self).position.y == moved(
                old(self).position.y as int,
                travel(old(self).velocity.y as int, dt as int),
            ),
            final(self).lifetime == old(self).lifetime - 2 * dt,
            final(self).velocity.x == div_trunc(old(self).velocity.x * 98, 100),
            final(self).velocity.y == div_trunc(old(self).velocity.y * 98, 100),
            final(self).size == old(self).size,
            *final(self) == aged(*old(self), dt as int),
    {
        let dx: i64 = travel_exec(self.velocity.x, dt);
        let dy: i64 = travel_exec(self.velocity.y, dt);
        self.position.x = world_add(self.position.x, dx);
        self.position.y = world_add(self.position.y, dy);
        self.lifetime = self.lifetime - 2 * dt as i64;
        let vx: i128 = div_toward_zero((self.velocity.x * 98) as i128, 100);
        let vy: i128 = div_toward_zero((self.velocity.y * 98) as i128, 100);
        assert(-MAX_SPEED <= vx <= MAX_SPEED && -MAX_SPEED <= vy <= MAX_SPEED) by (nonlinear_arith)
            requires
                vx == div_trunc(self.velocity.x * 98, 100),
                vy == div_trunc(self.velocity.y * 98, 100),
                -MAX_SPEED <= self.velocity.x <= MAX_SPEED,
                -MAX_SPEED <= self.velocity.y <= MAX_SPEED,
        ;
        self.velocity = Vec2 { x: vx as i64, y: vy as i64 };
    }
}

} // verus!
