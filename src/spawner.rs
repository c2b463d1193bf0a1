//! Spawning asteroids along the arena's edges to keep the field full.
use vstd::prelude::*;
use crate::asteroid::{speed_ok, Asteroid, ASTEROID_SIDES, MAX_RADIUS};
use crate::game::Game;
use crate::geometry::{
    closer_than, cosine, cosine_spec, dist_sq, dist_sq_spec, div_toward_zero, div_trunc,
    in_world, isqrt, rotate, rotate_spec, sine, sine_spec, Vec2, FULL_TURN, TRIG_ONE,
};
use crate::physics::{lemma_root_unique, root};
use crate::random::pick;
use crate::ship::ARENA_LIMIT;

verus! {

/// Smallest and largest radius of a new asteroid, in units; drawn radii are
/// multiples of 8 so that two generations of splits halve them exactly.
pub const MIN_SPAWN_RADIUS: i64 = 10_000;

pub const MAX_SPAWN_RADIUS: i64 = 100_000;

/// Speed of a new asteroid, in units per second.
pub const SPAWN_SPEED: i64 = 100_000;

/// Room kept free around a new asteroid, in units.
pub const SPAWN_PADDING: i64 = 10_000;

/// A new asteroid's course turns clockwise from the centre by up to this
/// angle, in millidegrees.
pub const SPAWN_JITTER: i64 = 30_000;

/// Tries at placing each new asteroid.
pub const SPAWN_ATTEMPTS: u32 = 10;

/// No asteroid of `s` comes within `SPAWN_PADDING` of a disc at `p` of
/// radius `r`.
pub open spec fn clear_of(p: Vec2, r: int, s: Seq<Asteroid>) -> bool {
    forall|j: int|
        0 <= j < s.len() ==> #[trigger] dist_sq_spec(p, s[j].position) >= (r + s[j].radius
            + SPAWN_PADDING) * (r + s[j].radius + SPAWN_PADDING)
}

/// The point lies on an edge of the `w` by `h` arena, at least `r` from
/// both ends of it.
pub open spec fn on_edge(p: Vec2, r: int, w: int, h: int) -> bool {
    ((p.x == 0 || p.x == w) && r <= p.y < h - r) || ((p.y == 0 || p.y == h) && r <= p.x < w - r)
}

/// The length of edge `side` (left, top, right, bottom).
pub open spec fn edge_span(g: Game, side: int) -> int {
    if side % 2 == 0 {
        g.height as int
    } else {
        g.width as int
    }
}

/// The point `off` along edge `side`.
pub open spec fn edge_point(g: Game, side: int, off: int) -> Vec2 {
    if side == 0 {
        Vec2 { x: 0, y: off as i64 }
    } else if side == 1 {
        Vec2 { x: off as i64, y: 0 }
    } else if side == 2 {
        Vec2 { x: g.width, y: off as i64 }
    } else {
        Vec2 { x: off as i64, y: g.height }
    }
}

/// The asteroid that `place` adds.
pub open spec fn spawned(g: Game, side: int, radius: i64, off: int, jitter: int) -> Asteroid {
    let p = edge_point(g, side, off);
    let v = aim_spec(p, g.center, jitter);
    Asteroid {
        id: (g.asteroid_counter + 1) as u32,
        position: p,
        velocity: Vec2 { x: v.0 as i64, y: v.1 as i64 },
        radius,
        rotation: 0,
        health: 1,
        num_sides: ASTEROID_SIDES,
        ignore_collision_with: None,
    }
}

/// The course of a new asteroid at `from`: `SPAWN_SPEED` toward `to`,
/// turned by `jitter` millidegrees.
pub open spec fn aim_spec(from: Vec2, to: Vec2, jitter: int) -> (int, int) {
    let dx = to.x - from.x;
    let dy = to.y - from.y;
    let l = root(dist_sq_spec(from, to));
    let base = if l == 0 {
        Vec2 { x: 0, y: 0 }
    } else {
        Vec2 { x: div_trunc(dx * SPAWN_SPEED, l) as i64, y: div_trunc(dy * SPAWN_SPEED, l) as i64 }
    };
    rotate_spec(base, cosine_spec(jitter), sine_spec(jitter))
}

/// `a` is a new asteroid for an arena `w` by `h`, clear of all of `prior`:
/// whole, unexempt, on an edge, of a radius in the spawn range, with a
/// course aimed near `center`.
pub open spec fn fresh_spawn(a: Asteroid, w: int, h: int, center: Vec2, prior: Seq<Asteroid>) -> bool {
    &&& a.wf()
    &&& a.health == 1
    &&& a.ignore_collision_with.is_none()
    &&& MIN_SPAWN_RADIUS <= a.radius < MAX_SPAWN_RADIUS
    &&& a.rotation == 0
    &&& on_edge(a.position, a.radius as int, w, h)
    &&& clear_of(a.position, a.radius as int, prior)
    &&& exists|j: int|
        0 <= j < SPAWN_JITTER && (a.velocity.x as int, a.velocity.y as int) == #[trigger] aim_spec(
            a.position,
            center,
            j,
        )
}

/// The fields that spawning leaves alone.
pub open spec fn same_but_asteroids(a: Game, b: Game) -> bool {
    &&& a.width == b.width
    &&& a.height == b.height
    &&& a.center == b.center
    &&& a.player == b.player
    &&& a.max_asteroids == b.max_asteroids
    &&& a.lasers@ == b.lasers@
    &&& a.laser_counter == b.laser_counter
    &&& a.laser_cooldown == b.laser_cooldown
    &&& a.laser_cooldown_remaining == b.laser_cooldown_remaining
    &&& a.score == b.score
    &&& a.particles@ == b.particles@
    &&& a.death_timer == b.death_timer
    &&& a.win_score == b.win_score
    &&& a.control == b.control
    &&& a.inherit_ship_velocity == b.inherit_ship_velocity
}

/// Whether a disc at `p` of radius `r` comes within `SPAWN_PADDING` of any
/// asteroid of `s`.
pub fn overlaps_any(p: &Vec2, r: i64, s: &Vec<Asteroid>) -> (b: bool)
    requires
        in_world(*p),
        0 < r <= MAX_RADIUS,
        forall|i: int| 0 <= i < s@.len() ==> (#[trigger] s@[i]).wf(),
    ensures
        b == !clear_of(*p, r as int, s@),
{
    let mut i: usize = 0;
    while i < s.len()
        invariant
            i <= s@.len(),
            in_world(*p),
            0 < r <= MAX_RADIUS,
            forall|k: int| 0 <= k < s@.len() ==> (#[trigger] s@[k]).wf(),
            clear_of(*p, r as int, s@.subrange(0, i as int)),
        decreases s@.len() - i,
    {
        let a: Asteroid = s[i];
        if closer_than(p, &a.position, r + a.radius + SPAWN_PADDING) {
            assert(!clear_of(*p, r as int, s@)) by {
                assert(s@[i as int] == a);
            }
            return true;
        }
        assert forall|j: int| 0 <= j < i + 1 implies #[trigger] dist_sq_spec(*p, s@.subrange(0, i + 1)[j].position) >= (r
            + s@.subrange(0, i + 1)[j].radius + SPAWN_PADDING) * (r + s@.subrange(0, i + 1)[j].radius
            + SPAWN_PADDING) by {
            if j < i {
                assert(s@.subrange(0, i + 1)[j] == s@.subrange(0, i as int)[j]);
            }
        }
        i = i + 1;
    }
    assert(s@.subrange(0, s@.len() as int) == s@);
    false
}

/// The course of a new asteroid at `from`, aimed at `to` and turned by
/// `jitter` millidegrees.
pub fn aim(from: Vec2, to: Vec2, jitter: i64) -> (r: Vec2)
    requires
        0 <= from.x <= ARENA_LIMIT,
        0 <= from.y <= ARENA_LIMIT,
        0 <= to.x <= ARENA_LIMIT,
        0 <= to.y <= ARENA_LIMIT,
        0 <= jitter < FULL_TURN,
    ensures
        (r.x as int, r.y as int) == aim_spec(from, to, jitter as int),
        speed_ok(r),
{
    let ds: u64 = dist_sq(&from, &to);
    let l: u64 = isqrt(ds);
    proof {
        lemma_root_unique(ds as int, l as int);
    }
    let dx: i64 = to.x - from.x;
    let dy: i64 = to.y - from.y;
    let base: Vec2 = if l == 0 {
        Vec2 { x: 0, y: 0 }
    } else {
        proof {
            assert(dx * dx <= ds && dy * dy <= ds) by (nonlinear_arith)
                requires
                    ds == dx * dx + dy * dy,
            ;
            assert(-(l as int) <= dx <= l && -(l as int) <= dy <= l) by (nonlinear_arith)
                requires
                    dx * dx <= ds,
                    dy * dy <= ds,
                    ds < (l + 1) * (l + 1),
                    l >= 1,
            ;
            assert(-(l as int) * SPAWN_SPEED <= dx * SPAWN_SPEED <= l * SPAWN_SPEED) by (nonlinear_arith)
                requires
                    -(l as int) <= dx <= l,
            ;
            assert(-(l as int) * SPAWN_SPEED <= dy * SPAWN_SPEED <= l * SPAWN_SPEED) by (nonlinear_arith)
                requires
                    -(l as int) <= dy <= l,
            ;
        }
        let bx: i128 = div_toward_zero((dx as i128) * (SPAWN_SPEED as i128), l as i128);
        let by_: i128 = div_toward_zero((dy as i128) * (SPAWN_SPEED as i128), l as i128);
        proof {
            assert(-SPAWN_SPEED <= bx <= SPAWN_SPEED) by (nonlinear_arith)
                requires
                    bx == div_trunc(dx * SPAWN_SPEED, l as int),
                    -(l as int) * SPAWN_SPEED <= dx * SPAWN_SPEED <= l * SPAWN_SPEED,
                    l >= 1,
            ;
            assert(-SPAWN_SPEED <= by_ <= SPAWN_SPEED) by (nonlinear_arith)
                requires
                    by_ == div_trunc(dy * SPAWN_SPEED, l as int),
                    -(l as int) * SPAWN_SPEED <= dy * SPAWN_SPEED <= l * SPAWN_SPEED,
                    l >= 1,
            ;
        }
        Vec2 { x: bx as i64, y: by_ as i64 }
    };
    assert(-SPAWN_SPEED <= base.x <= SPAWN_SPEED && -SPAWN_SPEED <= base.y <= SPAWN_SPEED);
    let c: i64 = cosine(jitter);
    let s: i64 = sine(jitter);
    let r: Vec2 = rotate(base, c, s);
    proof {
        let (rx, ry) = rotate_spec(base, c as int, s as int);
        assert(-2 * SPAWN_SPEED * TRIG_ONE <= base.x * c - base.y * s <= 2 * SPAWN_SPEED * TRIG_ONE)
            by (nonlinear_arith)
            requires
                -100_000 <= base.x <= 100_000,
                -100_000 <= base.y <= 100_000,
                -10_000 <= c <= 10_000,
                -10_000 <= s <= 10_000,
        ;
        assert(-2 * SPAWN_SPEED * TRIG_ONE <= base.x * s + base.y * c <= 2 * SPAWN_SPEED * TRIG_ONE)
            by (nonlinear_arith)
            requires
                -100_000 <= base.x <= 100_000,
                -100_000 <= base.y <= 100_000,
                -10_000 <= c <= 10_000,
                -10_000 <= s <= 10_000,
        ;
        assert(-2 * SPAWN_SPEED <= rx <= 2 * SPAWN_SPEED) by (nonlinear_arith)
            requires
                rx == div_trunc(base.x * c - base.y * s, 10_000),
                -2 * SPAWN_SPEED * TRIG_ONE <= base.x * c - base.y * s <= 2 * SPAWN_SPEED * TRIG_ONE,
        ;
        assert(-2 * SPAWN_SPEED <= ry <= 2 * SPAWN_SPEED) by (nonlinear_arith)
            requires
                ry == div_trunc(base.x * s + base.y * c, 10_000),
                -2 * SPAWN_SPEED * TRIG_ONE <= base.x * s + base.y * c <= 2 * SPAWN_SPEED * TRIG_ONE,
        ;
    }
    r
}

/// `now` is `before` with asteroids appended, each one a fresh spawn clear
/// of all before it and named by the next id in turn.
pub open spec fn spawned_after(before: Game, now: Game) -> bool {
    let n = before.asteroids@.len();
    &&& same_but_asteroids(before, now)
    &&& now.asteroids@.len() >= n
    &&& now.asteroids@.subrange(0, n as int) == before.asteroids@
    &&& now.asteroid_counter == before.asteroid_counter + (now.asteroids@.len() - n)
    &&& forall|k: int|
        n <= k < now.asteroids@.len() ==> {
            &&& fresh_spawn(
                #[trigger] now.asteroids@[k],
                now.width as int,
                now.height as int,
                now.center,
                now.asteroids@.subrange(0, k),
            )
            &&& now.asteroids@[k].id == before.asteroid_counter + (k - n) + 1
        }
}

proof fn lemma_spawned_after_trans(a: Game, b: Game, c: Game)
    requires
        spawned_after(a, b),
        spawned_after(b, c),
    ensures
        spawned_after(a, c),
{
    let n = a.asteroids@.len();
    let m = b.asteroids@.len();
    assert(c.asteroids@.subrange(0, n as int) == b.asteroids@.subrange(0, n as int)) by {
        assert(c.asteroids@.subrange(0, m as int) == b.asteroids@);
    }
    assert forall|k: int| n <= k < c.asteroids@.len() implies {
        &&& fresh_spawn(
            #[trigger] c.asteroids@[k],
            c.width as int,
            c.height as int,
            c.center,
            c.asteroids@.subrange(0, k),
        )
        &&& c.asteroids@[k].id == a.asteroid_counter + (k - n) + 1
    } by {
        if k < m {
            assert(c.asteroids@[k] == b.asteroids@[k]) by {
                assert(c.asteroids@.subrange(0, m as int)[k] == c.asteroids@[k]);
            }
            assert(c.asteroids@.subrange(0, k) == b.asteroids@.subrange(0, k)) by {
                assert(c.asteroids@.subrange(0, m as int) == b.asteroids@);
                assert(c.asteroids@.subrange(0, k) =~= c.asteroids@.subrange(0, m as int).subrange(0, k));
            }
        }
    }
}

impl Game {
    /// Place an asteroid of `radius` at `off` along edge `side` (left, top,
    /// right, bottom), its course turned by `jitter`, if the spot is clear
    /// of every asteroid and an id is left.
    pub fn place(&mut self, side: usize, radius: i64, off: i64, jitter: i64) -> (placed: bool)
        requires
            old(self).wf(),
            side < 4,
            MIN_SPAWN_RADIUS <= radius < MAX_SPAWN_RADIUS,
            0 <= jitter < SPAWN_JITTER,
            edge_span(*old(self), side as int) - radius > radius ==> radius <= off < edge_span(
                *old(self),
                side as int,
            ) - radius,
        ensures
            final(self).wf(),
            spawned_after(*old(self), *final(self)),
            placed == (edge_span(*old(self), side as int) - radius > radius && clear_of(
                edge_point(*old(self), side as int, off as int),
                radius as int,
                old(self).asteroids@,
            ) && old(self).asteroid_counter < u32::MAX),
            placed ==> final(self).asteroids@ == old(self).asteroids@.push(
                spawned(*old(self), side as int, radius, off as int, jitter as int),
            ),
            !placed ==> final(self).asteroids@ == old(self).asteroids@,
    {
        let span: i64 = if side % 2 == 0 {
            self.height
        } else {
            self.width
        };
        if span - radius <= radius {
            assert(self.asteroids@.subrange(0, self.asteroids@.len() as int) == self.asteroids@);
            return false;
        }
        let pos: Vec2 = if side == 0 {
            Vec2 { x: 0, y: off }
        } else if side == 1 {
            Vec2 { x: off, y: 0 }
        } else if side == 2 {
            Vec2 { x: self.width, y: off }
        } else {
            Vec2 { x: off, y: self.height }
        };
        assert(pos == edge_point(*self, side as int, off as int));
        if overlaps_any(&pos, radius, &self.asteroids) || self.asteroid_counter == u32::MAX {
            assert(self.asteroids@.subrange(0, self.asteroids@.len() as int) == self.asteroids@);
            return false;
        }
        let v: Vec2 = aim(pos, self.center, jitter);
        let id: u32 = self.asteroid_counter + 1;
        let a: Asteroid = Asteroid::new(pos.x, pos.y, v.x, v.y, radius, id);
        assert(a == spawned(*self, side as int, radius, off as int, jitter as int));
        let ghost before = self.asteroids@;
        self.asteroid_counter = id;
        self.asteroids.push(a);
        assert(self.asteroids@.subrange(0, before.len() as int) == before);
        assert(self.asteroids@[before.len() as int] == a);
        assert(fresh_spawn(a, self.width as int, self.height as int, self.center, before));
        assert forall|i: int, j: int|
            0 <= i < self.asteroids@.len() && 0 <= j < self.asteroids@.len() && i != j
                implies (#[trigger] self.asteroids@[i]).id != (#[trigger] self.asteroids@[j]).id by {
            if i < before.len() && j < before.len() {
                assert(self.asteroids@[i] == before[i]);
                assert(self.asteroids@[j] == before[j]);
            } else if i < before.len() {
                assert(self.asteroids@[i] == before[i]);
            } else if j < before.len() {
                assert(self.asteroids@[j] == before[j]);
            }
        }
        true
    }

    /// One try at placing an asteroid on edge `side`: a random radius, a
    /// random point on the edge and a random turn of its course. On an empty
    /// field with room on that edge the try succeeds.
    pub fn try_spawn(&mut self, side: usize) -> (placed: bool)
        requires
            old(self).wf(),
            side < 4,
        ensures
            final(self).wf(),
            spawned_after(*old(self), *final(self)),
            final(self).asteroids@.len() == old(self).asteroids@.len() + (if placed {
                1int
            } else {
                0int
            }),
            old(self).asteroids@.len() == 0 && edge_span(*old(self), side as int) > 2 * MAX_SPAWN_RADIUS
                && old(self).asteroid_counter < u32::MAX ==> placed,
    {
        let radius: i64 = 8 * pick(1250, 12_500);
        let span: i64 = if side % 2 == 0 {
            self.height
        } else {
            self.width
        };
        let off: i64 = if span - radius > radius {
            pick(radius, span - radius)
        } else {
            0
        };
        let jitter: i64 = pick(0, SPAWN_JITTER);
        self.place(side, radius, off, jitter)
    }

    /// Refill the field toward `max_asteroids`: the shortfall is shared out
    /// evenly among the four edges (the remainder waits for a later frame),
    /// and each new asteroid gets a bounded number of tries at a clear spot.
    pub fn generate_asteroids(&mut self)
        requires
            old(self).wf(),
        ensures
            final(self).wf(),
            spawned_after(*old(self), *final(self)),
            final(self).asteroids@.len() - old(self).asteroids@.len() <= 4 * ((old(
                self,
            ).max_asteroids - if old(self).asteroids@.len() < old(self).max_asteroids {
                old(self).asteroids@.len() as int
            } else {
                old(self).max_asteroids as int
            }) / 4),
            old(self).asteroids@.len() == 0 && old(self).max_asteroids >= 4 && old(self).height > 2
                * MAX_SPAWN_RADIUS && old(self).asteroid_counter < u32::MAX
                ==> final(self).asteroids@.len() >= 1,
    {
        let ghost start = *self;
        let ghost room = start.asteroids@.len() == 0 && start.max_asteroids >= 4 && start.height > 2
            * MAX_SPAWN_RADIUS && start.asteroid_counter < u32::MAX;
        let have: usize = if self.asteroids.len() < self.max_asteroids {
            self.asteroids.len()
        } else {
            self.max_asteroids
        };
        let per_side: usize = (self.max_asteroids - have) / 4;
        assert(self.asteroids@.subrange(0, self.asteroids@.len() as int) == self.asteroids@);
        let mut side: usize = 0;
        while side < 4
            invariant
                side <= 4,
                self.wf(),
                spawned_after(start, *self),
                self.asteroids@.len() - start.asteroids@.len() <= side * per_side,
                per_side <= 250,
                room ==> start.asteroids@.len() == 0 && start.height > 2 * MAX_SPAWN_RADIUS
                    && start.asteroid_counter < u32::MAX,
                room ==> per_side >= 1,
                room && side > 0 ==> self.asteroids@.len() >= 1,
            decreases 4 - side,
        {
            let mut n: usize = 0;
            while n < per_side
                invariant
                    side < 4,
                    n <= per_side,
                    self.wf(),
                    spawned_after(start, *self),
                    self.asteroids@.len() - start.asteroids@.len() <= side * per_side + n,
                    per_side <= 250,
                room ==> start.asteroids@.len() == 0 && start.height > 2 * MAX_SPAWN_RADIUS
                    && start.asteroid_counter < u32::MAX,
                    room ==> per_side >= 1,
                    room && (side > 0 || n > 0) ==> self.asteroids@.len() >= 1,
                decreases per_side - n,
            {
                let mut attempts: u32 = 0;
                let mut placed: bool = false;
                while attempts < SPAWN_ATTEMPTS && !placed
                    invariant
                        side < 4,
                        n < per_side,
                        self.wf(),
                        spawned_after(start, *self),
                        self.asteroids@.len() - start.asteroids@.len() <= side * per_side + n + (
                        if placed {
                            1int
                        } else {
                            0int
                        }),
                        per_side <= 250,
                        room && (side > 0 || n > 0 || attempts > 0) ==> self.asteroids@.len() >= 1,
                        placed ==> attempts > 0,
                        room ==> per_side >= 1,
                room ==> start.asteroids@.len() == 0 && start.height > 2 * MAX_SPAWN_RADIUS
                    && start.asteroid_counter < u32::MAX,

                    decreases SPAWN_ATTEMPTS - attempts,
                {
                    let ghost mid = *self;
                    proof {
                        if room && side == 0 && n == 0 && attempts == 0 {
                            assert(side * per_side == 0) by (nonlinear_arith)
                                requires
                                    side == 0,
                            ;
                            assert(self.asteroids@.len() == 0);
                        }
                    }
                    placed = self.try_spawn(side);
                    proof {
                        lemma_spawned_after_trans(start, mid, *self);
                    }
                    attempts = attempts + 1;
                }
                n = n + 1;
            }
            assert(side * per_side + per_side == (side + 1) * per_side) by (nonlinear_arith);
            side = side + 1;
        }
    }
}

} // verus!
