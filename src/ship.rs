//! The player's ship: a triangle that turns, thrusts and takes hits.
use vstd::prelude::*;
use crate::geometry::{
    clamp, clamp_spec, cosine, cosine_spec, div_toward_zero, div_trunc, in_world, rotate,
    rotate_spec, sine, sine_spec, wrap_angle, wrap_angle_spec, Vec2, FULL_TURN, TRIG_ONE,
};

verus! {

/// The largest arena side, in units.
pub const ARENA_LIMIT: i64 = 0x400_0000;

/// Hit points of a new ship.
pub const SHIP_HEALTH: usize = 5;

/// Frames of invincibility after a hit.
pub const HIT_GRACE_FRAMES: u32 = 120;

/// The largest speed of the ship on either axis, in units per frame.
pub const SHIP_MAX_SPEED: i64 = 0x10_0000;

/// Thrust, in units per frame gained per millisecond.
pub const THRUST: i64 = 5;

/// Turning rate, in millidegrees per millisecond.
pub const TURN_RATE: i64 = 250;

/// Speed of the ship under the sliding control model, in units per
/// millisecond.
pub const SLIDE_SPEED: i64 = 300;

/// The facing of a new ship: straight up the screen.
pub const START_ROTATION: i64 = 270_000;

/// The keys held during one frame.
#[derive(Clone, Copy, Debug, PartialEq, Eq, Structural)]
pub struct Controls {
    pub forward: bool,
    pub back: bool,
    pub left: bool,
    pub right: bool,
    pub fire: bool,
}

/// How the movement keys act on the ship.
#[derive(Clone, Copy, Debug, PartialEq, Eq, Structural)]
pub enum ControlModel {
    /// Forward and back thrust along the facing; left and right turn it.
    Thrust,
    /// The keys move the ship at a fixed speed along the screen's axes.
    Slide,
}

#[derive(Clone, Copy, Debug, PartialEq, Eq, Structural)]
pub struct Ship {
    pub position: Vec2,
    /// Units per frame.
    pub velocity: Vec2,
    pub health: usize,
    /// Frames of invincibility left.
    pub iframes: u32,
    /// Millidegrees, clockwise on screen from the x axis.
    pub rotation: i64,
}

/// The hull's corners around its centre before turning.
pub open spec fn hull_offset(k: int) -> Vec2 {
    if k == 0 {
        Vec2 { x: -15_000i64, y: 15_000i64 }
    } else if k == 1 {
        Vec2 { x: 30_000, y: 0 }
    } else {
        Vec2 { x: -15_000i64, y: -15_000i64 }
    }
}

/// The centre the hull turns about.
pub open spec fn hull_center(p: Vec2) -> Vec2 {
    Vec2 { x: (p.x + 15_000) as i64, y: (p.y - 15_000) as i64 }
}

/// Corner `k` of the hull of a ship at `p` facing `rot`.
pub open spec fn hull_vertex(p: Vec2, rot: int, k: int) -> Vec2 {
    let c = cosine_spec(rot);
    let s = sine_spec(rot);
    let t = rotate_spec(hull_offset(k), c, s);
    Vec2 { x: (hull_center(p).x + t.0) as i64, y: (hull_center(p).y + t.1) as i64 }
}

/// A coordinate moved by `d` and held to `[0, hi]`, with the velocity that
/// a wall stop leaves on that axis.
pub open spec fn wall_stop(p: int, d: int, v: int, hi: int) -> (int, int) {
    let q = clamp_spec(p + d, 0, hi);
    (q, if q == 0 || q == hi {
        0
    } else {
        v
    })
}

pub open spec fn limit_ship_speed(v: int) -> int {
    clamp_spec(v, -SHIP_MAX_SPEED as int, SHIP_MAX_SPEED as int)
}

/// The ship after one frame of `dt` milliseconds of steering in an arena
/// `w` by `h`.
pub open spec fn steer_spec(ship: Ship, dt: int, keys: Controls, model: ControlModel, w: int, h: int) -> Ship {
    match model {
        ControlModel::Thrust => {
            let c = cosine_spec(ship.rotation as int);
            let s = sine_spec(ship.rotation as int);
            let tx = div_trunc(THRUST * dt * c, TRIG_ONE as int);
            let ty = div_trunc(THRUST * dt * s, TRIG_ONE as int);
            let (vx, vy) = if keys.forward {
                (ship.velocity.x + tx, ship.velocity.y + ty)
            } else if keys.back {
                (ship.velocity.x - tx, ship.velocity.y - ty)
            } else {
                (ship.velocity.x as int, ship.velocity.y as int)
            };
            let rot = if keys.left {
                wrap_angle_spec(ship.rotation - TURN_RATE * dt)
            } else if keys.right {
                wrap_angle_spec(ship.rotation + TURN_RATE * dt)
            } else {
                ship.rotation as int
            };
            let vx = limit_ship_speed(vx);
            let vy = limit_ship_speed(vy);
            let (px, vx) = wall_stop(ship.position.x as int, vx, vx, w);
            let (py, vy) = wall_stop(ship.position.y as int, vy, vy, h);
            Ship {
                position: Vec2 { x: px as i64, y: py as i64 },
                velocity: Vec2 { x: vx as i64, y: vy as i64 },
                rotation: rot as i64,
                ..ship
            }
        },
        ControlModel::Slide => {
            let step = SLIDE_SPEED * dt;
            let dx = (if keys.right {
                step
            } else {
                0
            }) - (if keys.left {
                step
            } else {
                0
            });
            let dy = (if keys.back {
                step
            } else {
                0
            }) - (if keys.forward {
                step
            } else {
                0
            });
            Ship {
                position: Vec2 {
                    x: clamp_spec(ship.position.x + dx, 0, w) as i64,
                    y: clamp_spec(ship.position.y + dy, 0, h) as i64,
                },
                velocity: Vec2 { x: 0, y: 0 },
                ..ship
            }
        },
    }
}

impl Ship {
    pub open spec fn wf(&self) -> bool {
        &&& 0 <= self.position.x <= ARENA_LIMIT
        &&& 0 <= self.position.y <= ARENA_LIMIT
        &&& -SHIP_MAX_SPEED <= self.velocity.x <= SHIP_MAX_SPEED
        &&& -SHIP_MAX_SPEED <= self.velocity.y <= SHIP_MAX_SPEED
        &&& 0 <= self.rotation < FULL_TURN
    }

    /// A whole ship at rest at `(x, y)`, facing up.
    pub open spec fn new_spec(x: i64, y: i64) -> Ship {
        Ship {
            position: Vec2 { x, y },
            velocity: Vec2 { x: 0, y: 0 },
            health: SHIP_HEALTH,
            iframes: 0,
            rotation: START_ROTATION,
        }
    }

    /// A whole ship at rest at `(x, y)`, facing up.
    pub fn new(x: i64, y: i64) -> (r: Ship)
        requires
            0 <= x <= ARENA_LIMIT,
            0 <= y <= ARENA_LIMIT,
        ensures
            r.wf(),
            r == Ship::new_spec(x, y),
    {
        Ship {
            position: Vec2 { x, y },
            velocity: Vec2 { x: 0, y: 0 },
            health: SHIP_HEALTH,
            iframes: 0,
            rotation: START_ROTATION,
        }
    }

    /// Lose one hit point and start the grace period, unless the grace
    /// period is running or the ship is already wrecked.
    pub fn take_hit(&mut self)
        ensures
            old(self).iframes == 0 && old(self).health > 0 ==> final(self).health == old(
                self,
            ).health - 1 && final(self).iframes == HIT_GRACE_FRAMES,
            !(old(self).iframes == 0 && old(self).health > 0) ==> *final(self) == *old(self),
            final(self).position == old(self).position,
            final(self).velocity == old(self).velocity,
            final(self).rotation == old(self).rotation,
    {
        if self.iframes == 0 && self.health > 0 {
            self.health = self.health - 1;
            self.iframes = HIT_GRACE_FRAMES;
        }
    }

    /// The hull's three corners: the back-left, the nose, the back-right.
    pub fn vertices(&self) -> (r: Vec<Vec2>)
        requires
            self.wf(),
        ensures
            r@.len() == 3,
            forall|k: int| 0 <= k < 3 ==> #[trigger] r@[k] == hull_vertex(self.position, self.rotation as int, k),
            forall|k: int| 0 <= k < 3 ==> in_world(#[trigger] r@[k]),
    {
        let c: i64 = cosine(self.rotation);
        let s: i64 = sine(self.rotation);
        let center: Vec2 = Vec2 { x: self.position.x + 15_000, y: self.position.y - 15_000 };
        let mut r: Vec<Vec2> = Vec::new();
        let offsets: [Vec2; 3] = [
            Vec2 { x: -15_000, y: 15_000 },
            Vec2 { x: 30_000, y: 0 },
            Vec2 { x: -15_000, y: -15_000 },
        ];
        let mut k: usize = 0;
        while k < 3
            invariant
                k <= 3,
                r@.len() == k,
                center == hull_center(self.position),
                c == cosine_spec(self.rotation as int),
                s == sine_spec(self.rotation as int),
                -TRIG_ONE <= c <= TRIG_ONE,
                -TRIG_ONE <= s <= TRIG_ONE,
                self.wf(),
                forall|j: int| 0 <= j < 3 ==> offsets@[j] == hull_offset(j),
                forall|j: int| 0 <= j < k ==> #[trigger] r@[j] == hull_vertex(self.position, self.rotation as int, j),
                forall|j: int| 0 <= j < k ==> in_world(#[trigger] r@[j]),
            decreases 3 - k,
        {
            let o: Vec2 = offsets[k];
            assert(o == hull_offset(k as int));
            assert(-15_000 <= o.x <= 30_000 && -15_000 <= o.y <= 15_000);
            let t: Vec2 = rotate(o, c, s);
            assert(-30_000 <= t.x <= 30_000 && -30_000 <= t.y <= 30_000) by {
                let o = hull_offset(k as int);
                assert(-TRIG_ONE * 30_000 <= o.x * c - o.y * s <= TRIG_ONE * 30_000) by (nonlinear_arith)
                    requires
                        -10_000 <= c <= 10_000,
                        -10_000 <= s <= 10_000,
                        -15_000 <= o.x <= 30_000,
                        -15_000 <= o.y <= 15_000,
                        (o.x == -15_000 && (o.y == 15_000 || o.y == -15_000)) || (o.x == 30_000 && o.y == 0),
                ;
                assert(-TRIG_ONE * 30_000 <= o.x * s + o.y * c <= TRIG_ONE * 30_000) by (nonlinear_arith)
                    requires
                        -10_000 <= c <= 10_000,
                        -10_000 <= s <= 10_000,
                        (o.x == -15_000 && (o.y == 15_000 || o.y == -15_000)) || (o.x == 30_000 && o.y == 0),
                ;
            }
            r.push(Vec2 { x: center.x + t.x, y: center.y + t.y });
            k = k + 1;
        }
        r
    }

    /// One frame of `dt` milliseconds of steering in an arena `w` by `h`:
    /// thrust and turning, or sliding, then a stop at the walls.
    pub fn steer(&mut self, dt: u16, keys: Controls, model: ControlModel, w: i64, h: i64)
        requires
            old(self).wf(),
            0 < w <= ARENA_LIMIT,
            0 < h <= ARENA_LIMIT,
        ensures
            final(self).wf(),
            *final(self) == steer_spec(*old(self), dt as int, keys, model, w as int, h as int),
    {
        match model {
            ControlModel::Thrust => {
                let c: i64 = cosine(self.rotation);
                let s: i64 = sine(self.rotation);
                let thrust: i64 = THRUST * dt as i64;
                assert(-0x1_0000_0000 <= thrust * c <= 0x1_0000_0000 && -0x1_0000_0000 <= thrust * s
                    <= 0x1_0000_0000) by (nonlinear_arith)
                    requires
                        0 <= thrust <= 5 * 0xffff,
                        -10_000 <= c <= 10_000,
                        -10_000 <= s <= 10_000,
                ;
                let tx: i64 = div_toward_zero((thrust * c) as i128, TRIG_ONE as i128) as i64;
                let ty: i64 = div_toward_zero((thrust * s) as i128, TRIG_ONE as i128) as i64;
                let mut vx: i64 = self.velocity.x;
                let mut vy: i64 = self.velocity.y;
                if keys.forward {
                    vx = vx + tx;
                    vy = vy + ty;
                } else if keys.back {
                    vx = vx - tx;
                    vy = vy - ty;
                }
                if keys.left {
                    self.rotation = wrap_angle(self.rotation - TURN_RATE * dt as i64);
                } else if keys.right {
                    self.rotation = wrap_angle(self.rotation + TURN_RATE * dt as i64);
                }
                vx = clamp(vx, -SHIP_MAX_SPEED, SHIP_MAX_SPEED);
                vy = clamp(vy, -SHIP_MAX_SPEED, SHIP_MAX_SPEED);
                let px: i64 = clamp(self.position.x + vx, 0, w);
                let py: i64 = clamp(self.position.y + vy, 0, h);
                if px == 0 || px == w {
                    vx = 0;
                }
                if py == 0 || py == h {
                    vy = 0;
                }
                self.position = Vec2 { x: px, y: py };
                self.velocity = Vec2 { x: vx, y: vy };
            },
            ControlModel::Slide => {
                let step: i64 = SLIDE_SPEED * dt as i64;
                let mut dx: i64 = 0;
                let mut dy: i64 = 0;
                if keys.right {
                    dx = dx + step;
                }
                if keys.left {
                    dx = dx - step;
                }
                if keys.back {
                    dy = dy + step;
                }
                if keys.forward {
                    dy = dy - step;
                }
                self.position = Vec2 {
                    x: clamp(self.position.x + dx, 0, w),
                    y: clamp(self.position.y + dy, 0, h),
                };
                self.velocity = Vec2 { x: 0, y: 0 };
            },
        }
    }
}

} // verus!
