//! Asteroids: drifting, spinning discs that lasers break apart.
use vstd::prelude::*;
use crate::geometry::{
    clamp, clamp_spec, cosine, cosine_spec, div_toward_zero, div_trunc, in_world, sine,
    sine_spec, world_add, wrap_angle, wrap_angle_spec, Vec2, FULL_TURN, TRIG_ONE, WORLD_LIMIT,
};

verus! {

/// The largest speed of an asteroid or a laser on either axis, in units per
/// second.
pub const MAX_SPEED: i64 = 0x80_0000;

/// The largest radius of an asteroid, in units.
pub const MAX_RADIUS: i64 = 0x2_0000;

/// Asteroids wider than this split in two when destroyed.
pub const SPLIT_THRESHOLD: i64 = 20_000;

/// The speed at which the two halves of a split leave their parent's course.
pub const SPLIT_SPEED: i64 = 100_000;

/// Spin of an asteroid, in millidegrees per millisecond.
pub const SPIN_RATE: i64 = 30;

/// Sides of the polygon an asteroid is drawn as.
pub const ASTEROID_SIDES: u8 = 8;

#[derive(Clone, Copy, Debug, PartialEq, Eq, Structural)]
pub struct Asteroid {
    pub id: u32,
    pub position: Vec2,
    /// Units per second.
    pub velocity: Vec2,
    pub radius: i64,
    /// Millidegrees, cosmetic.
    pub rotation: i64,
    pub health: u32,
    pub num_sides: u8,
    /// The sibling of a split that this asteroid does not bounce off while
    /// the two still overlap.
    pub ignore_collision_with: Option<u32>,
}

pub open spec fn speed_ok(v: Vec2) -> bool {
    -MAX_SPEED <= v.x <= MAX_SPEED && -MAX_SPEED <= v.y <= MAX_SPEED
}

/// A velocity component held to the speed limit.
pub open spec fn limit_speed_spec(v: int) -> int {
    clamp_spec(v, -MAX_SPEED as int, MAX_SPEED as int)
}

/// How far a coordinate moves in `dt` milliseconds at `v` units per second.
pub open spec fn travel(v: int, dt: int) -> int {
    div_trunc(v * dt, 1000)
}

/// A coordinate moved by `d` and held inside the world.
pub open spec fn moved(a: int, d: int) -> int {
    clamp_spec(a + d, -WORLD_LIMIT as int, WORLD_LIMIT as int)
}

/// A velocity component held to the speed limit.
pub fn limit_speed(v: i64) -> (r: i64)
    ensures
        r == limit_speed_spec(v as int),
        -MAX_SPEED <= r <= MAX_SPEED,
{
    clamp(v, -MAX_SPEED, MAX_SPEED)
}

/// How far a coordinate moves in `dt` milliseconds at `v` units per second.
pub fn travel_exec(v: i64, dt: u16) -> (r: i64)
    requires
        -MAX_SPEED <= v <= MAX_SPEED,
    ensures
        r == travel(v as int, dt as int),
        -WORLD_LIMIT <= r <= WORLD_LIMIT,
{
    assert(-0x80_0000_0000 <= v * dt <= 0x80_0000_0000) by (nonlinear_arith)
        requires
            -0x80_0000 <= v <= 0x80_0000,
            0 <= dt <= 0xffff,
    ;
    let r: i128 = div_toward_zero((v * dt as i64) as i128, 1000);
    r as i64
}

impl Asteroid {
    pub open spec fn wf(&self) -> bool {
        &&& in_world(self.position)
        &&& speed_ok(self.velocity)
        &&& 0 < self.radius <= MAX_RADIUS
        &&& 0 <= self.rotation < FULL_TURN
    }

    /// A whole asteroid of one hit point.
    pub fn new(x_pos: i64, y_pos: i64, x_vel: i64, y_vel: i64, radius: i64, id: u32) -> (r: Asteroid)
        requires
            in_world(Vec2 { x: x_pos, y: y_pos }),
            speed_ok(Vec2 { x: x_vel, y: y_vel }),
            0 < radius <= MAX_RADIUS,
        ensures
            r.wf(),
            r.id == id,
            r.position == (Vec2 { x: x_pos, y: y_pos }),
            r.velocity == (Vec2 { x: x_vel, y: y_vel }),
            r.radius == radius,
            r.rotation == 0,
            r.health == 1,
            r.num_sides == ASTEROID_SIDES,
            r.ignore_collision_with.is_none(),
    {
        Asteroid {
            id,
            position: Vec2 { x: x_pos, y: y_pos },
            velocity: Vec2 { x: x_vel, y: y_vel },
            radius,
            rotation: 0,
            health: 1,
            num_sides: ASTEROID_SIDES,
            ignore_collision_with: None,
        }
    }

    /// One half of a split, exempt from bouncing off its sibling `ignore_id`.
    pub fn new_split(
        x_pos: i64,
        y_pos: i64,
        x_vel: i64,
        y_vel: i64,
        radius: i64,
        id: u32,
        ignore_id: u32,
    ) -> (r: Asteroid)
        requires
            in_world(Vec2 { x: x_pos, y: y_pos }),
            speed_ok(Vec2 { x: x_vel, y: y_vel }),
            0 < radius <= MAX_RADIUS,
        ensures
            r.wf(),
            r.id == id,
            r.position == (Vec2 { x: x_pos, y: y_pos }),
            r.velocity == (Vec2 { x: x_vel, y: y_vel }),
            r.radius == radius,
            r.rotation == 0,
            r.health == 1,
            r.num_sides == ASTEROID_SIDES,
            r.ignore_collision_with == Some(ignore_id),
    {
        Asteroid {
            id,
            position: Vec2 { x: x_pos, y: y_pos },
            velocity: Vec2 { x: x_vel, y: y_vel },
            radius,
            rotation: 0,
            health: 1,
            num_sides: ASTEROID_SIDES,
            ignore_collision_with: Some(ignore_id),
        }
    }

    /// Drift for `dt` milliseconds and spin.
    pub fn tick(&mut self, dt: u16)
        requires
            old(self).wf(),
        ensures
            final(self).wf(),
            final(self).position.x == moved(
                old(self).position.x as int,
                travel(old(self).velocity.x as int, dt as int),
            ),
            final(self).position.y == moved(
                old(self).position.y as int,
                travel(old(self).velocity.y as int, dt as int),
            ),
            final(self).rotation == wrap_angle_spec(old(self).rotation + SPIN_RATE * dt),
            final(self).id == old(self).id,
            final(self).velocity == old(self).velocity,
            final(self).radius == old(self).radius,
            final(self).health == old(self).health,
            final(self).num_sides == old(self).num_sides,
            final(self).ignore_collision_with == old(self).ignore_collision_with,
    {
        let dx: i64 = travel_exec(self.velocity.x, dt);
        let dy: i64 = travel_exec(self.velocity.y, dt);
        self.position.x = world_add(self.position.x, dx);
        self.position.y = world_add(self.position.y, dy);
        self.rotation = wrap_angle(self.rotation + SPIN_RATE * dt as i64);
    }

    /// Lose one hit point, if any is left.
    pub fn take_hit(&mut self)
        ensures
            final(self).health == (if old(self).health > 0 {
                old(self).health - 1
            } else {
                0
            }),
            final(self).id == old(self).id,
            final(self).position == old(self).position,
            final(self).velocity == old(self).velocity,
            final(self).radius == old(self).radius,
            final(self).rotation == old(self).rotation,
            final(self).num_sides == old(self).num_sides,
            final(self).ignore_collision_with == old(self).ignore_collision_with,
    {
        if self.health > 0 {
            self.health = self.health - 1;
        }
    }

    /// Whether destroying this asteroid splits it.
    pub open spec fn splits(&self) -> bool {
        self.radius > SPLIT_THRESHOLD
    }

    /// The two halves of this asteroid, with ids `first_id` and
    /// `first_id + 1`, thrown apart along the direction `angle`.
    pub fn split(&self, first_id: u32, angle: i64) -> (r: (Asteroid, Asteroid))
        requires
            self.wf(),
            self.radius >= 2,
            first_id < u32::MAX,
            0 <= angle < FULL_TURN,
        ensures
            r.0.wf(),
            r.1.wf(),
            split_pair(*self, first_id, angle as int, r.0, r.1),
    {
        let c: i64 = cosine(angle);
        let s: i64 = sine(angle);
        let push: Vec2 = Vec2 {
            x: div_toward_zero((SPLIT_SPEED * c) as i128, TRIG_ONE as i128) as i64,
            y: div_toward_zero((SPLIT_SPEED * s) as i128, TRIG_ONE as i128) as i64,
        };
        let half: i64 = self.radius / 2;
        let id1: u32 = first_id;
        let id2: u32 = first_id + 1;
        let a: Asteroid = Asteroid::new_split(
            self.position.x,
            self.position.y,
            limit_speed(self.velocity.x + push.x),
            limit_speed(self.velocity.y + push.y),
            half,
            id1,
            id2,
        );
        let b: Asteroid = Asteroid::new_split(
            self.position.x,
            self.position.y,
            limit_speed(self.velocity.x - push.x),
            limit_speed(self.velocity.y - push.y),
            half,
            id2,
            id1,
        );
        (a, b)
    }
}

/// The push that a split at `angle` gives each half, in units per second.
pub open spec fn split_push(angle: int) -> Vec2 {
    Vec2 {
        x: div_trunc(SPLIT_SPEED * cosine_spec(angle), TRIG_ONE as int) as i64,
        y: div_trunc(SPLIT_SPEED * sine_spec(angle), TRIG_ONE as int) as i64,
    }
}

/// `a` and `b` are the halves of `parent` split at `angle` with ids
/// `first_id` and `first_id + 1`: each is half as wide, starts where the
/// parent was, whole, unturned, and exempt from bouncing off the other, and
/// they leave along opposite pushes added to the parent's velocity.
pub open spec fn split_pair(parent: Asteroid, first_id: u32, angle: int, a: Asteroid, b: Asteroid) -> bool {
    let push = split_push(angle);
    &&& a.id == first_id
    &&& b.id == first_id + 1
    &&& a.ignore_collision_with == Some(b.id)
    &&& b.ignore_collision_with == Some(a.id)
    &&& a.radius == parent.radius / 2
    &&& b.radius == parent.radius / 2
    &&& a.position == parent.position
    &&& b.position == parent.position
    &&& a.velocity.x == limit_speed_spec(parent.velocity.x + push.x)
    &&& a.velocity.y == limit_speed_spec(parent.velocity.y + push.y)
    &&& b.velocity.x == limit_speed_spec(parent.velocity.x - push.x)
    &&& b.velocity.y == limit_speed_spec(parent.velocity.y - push.y)
    &&& a.health == 1 && b.health == 1
    &&& a.rotation == 0 && b.rotation == 0
    &&& a.num_sides == ASTEROID_SIDES && b.num_sides == ASTEROID_SIDES
}

} // verus!
