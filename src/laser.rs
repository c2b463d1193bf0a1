//! Laser bolts fired by the ship.
use vstd::prelude::*;
use crate::asteroid::{moved, speed_ok, travel, travel_exec};
use crate::geometry::{in_world, world_add, Vec2};

verus! {

#[derive(Clone, Copy, Debug, PartialEq, Eq, Structural)]
pub struct Laser {
    pub id: u32,
    pub position: Vec2,
    /// Units per second.
    pub velocity: Vec2,
}

/// A laser after `dt` milliseconds of flight.
pub open spec fn flown(l: Laser, dt: int) -> Laser {
    Laser {
        position: Vec2 {
            x: moved(l.position.x as int, travel(l.velocity.x as int, dt)) as i64,
            y: moved(l.position.y as int, travel(l.velocity.y as int, dt)) as i64,
        },
        ..l
    }
}

impl Laser {
    pub open spec fn wf(&self) -> bool {
        in_world(self.position) && speed_ok(self.velocity)
    }

    pub fn new(x_pos: i64, y_pos: i64, x_vel: i64, y_vel: i64, id: u32) -> (r: Laser)
        requires
            in_world(Vec2 { x: x_pos, y: y_pos }),
            speed_ok(Vec2 { x: x_vel, y: y_vel }),
        ensures
            r.wf(),
            r.id == id,
            r.position == (Vec2 { x: x_pos, y: y_pos }),
            r.velocity == (Vec2 { x: x_vel, y: y_vel }),
    {
        Laser { id, position: Vec2 { x: x_pos, y: y_pos }, velocity: Vec2 { x: x_vel, y: y_vel } }
    }

    /// Fly for `dt` milliseconds.
    pub fn tick(&mut self, dt: u16)
        requires
            old(self).wf(),
        ensures
            final(self).wf(),
            final(self).position.x == moved(
                old(self).position.x as int,
                travel(old(self).velocity.x as int, dt as int),
            ),
            final(self).position.y == moved(
                old(self).position.y as int,
                travel(old(self).velocity.y as int, dt as int),
            ),
            final(self).id == old(self).id,
            final(self).velocity == old(self).velocity,
            *final(self) == flown(*old(self), dt as int),
    {
        let dx: i64 = travel_exec(self.velocity.x, dt);
        let dy: i64 = travel_exec(self.velocity.y, dt);
        self.position.x = world_add(self.position.x, dx);
        self.position.y = world_add(self.position.y, dy);
    }
}

} // verus!
