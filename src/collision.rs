//! The passes of one frame: firing, the ship's collisions, bounces, laser
//! strikes, and the removal of what was destroyed.
use vstd::prelude::*;
use crate::asteroid::{moved, split_pair, travel, Asteroid, MAX_SPEED, SPIN_RATE, SPLIT_THRESHOLD};
use crate::game::{asteroids_ok, lasers_ok, particles_ok, Game, DEATH_DELAY};
use crate::geometry::{
    closer_than, cosine, cosine_spec, dist_sq_spec, div_toward_zero, div_trunc, in_world, sine,
    sine_spec, wrap_angle_spec, Vec2, FULL_TURN, TRIG_ONE,
};
use crate::laser::{flown, Laser};
use crate::particle::{spark, Particle, MAX_SPARK, MIN_SPARK};
use crate::physics::{contact_point, resolve_pair, resolve_spec};
use crate::random::pick;
use crate::ship::{hull_vertex, Controls, Ship};

verus! {

/// Muzzle speed of a laser, in units per second.
pub const LASER_SPEED: i64 = 500_000;

/// The laser that a ship fires with id `id`: from its nose, at the ship's
/// velocity when `inherit` holds, plus `LASER_SPEED` along its facing.
pub open spec fn shot(ship: Ship, id: u32, inherit: bool) -> Laser {
    let c = cosine_spec(ship.rotation as int);
    let s = sine_spec(ship.rotation as int);
    let bx: int = if inherit { ship.velocity.x as int } else { 0 };
    let by: int = if inherit { ship.velocity.y as int } else { 0 };
    Laser {
        id,
        position: hull_vertex(ship.position, ship.rotation as int, 1),
        velocity: Vec2 {
            x: (bx + div_trunc(LASER_SPEED * c, TRIG_ONE as int)) as i64,
            y: (by + div_trunc(LASER_SPEED * s, TRIG_ONE as int)) as i64,
        },
    }
}

/// The fields that no pass of a frame changes.
pub open spec fn frame_fixed(a: Game, b: Game) -> bool {
    &&& a.width == b.width
    &&& a.height == b.height
    &&& a.center == b.center
    &&& a.max_asteroids == b.max_asteroids
    &&& a.laser_cooldown == b.laser_cooldown
    &&& a.win_score == b.win_score
    &&& a.control == b.control
    &&& a.inherit_ship_velocity == b.inherit_ship_velocity
}

/// An asteroid after `dt` milliseconds of drift and spin.
pub open spec fn advanced(a: Asteroid, dt: int) -> Asteroid {
    Asteroid {
        position: Vec2 {
            x: moved(a.position.x as int, travel(a.velocity.x as int, dt)) as i64,
            y: moved(a.position.y as int, travel(a.velocity.y as int, dt)) as i64,
        },
        rotation: wrap_angle_spec(a.rotation + SPIN_RATE * dt) as i64,
        ..a
    }
}

/// The asteroid has left the `w` by `h` arena by more than its radius.
pub open spec fn off_arena(a: Asteroid, w: int, h: int) -> bool {
    a.position.x > w + a.radius || a.position.y > h + a.radius || a.position.x < -a.radius
        || a.position.y < -a.radius
}

/// The point has left the `w` by `h` arena.
pub open spec fn outside(p: Vec2, w: int, h: int) -> bool {
    p.x > w || p.y > h || p.x < 0 || p.y < 0
}

/// One of the ship's corners lies inside the asteroid.
pub open spec fn touches(ship: Ship, a: Asteroid) -> bool {
    exists|k: int|
        0 <= k < 3 && #[trigger] dist_sq_spec(
            hull_vertex(ship.position, ship.rotation as int, k),
            a.position,
        ) < a.radius * a.radius
}

/// Asteroids born this frame: well formed, named by ids no later than `hi`
/// and later than any of `field`, no two alike.
pub open spec fn born_ok(s: Seq<Asteroid>, field: Seq<Asteroid>, hi: int) -> bool {
    &&& forall|i: int| 0 <= i < s.len() ==> (#[trigger] s[i]).wf() && s[i].id <= hi
    &&& forall|i: int, j: int|
        0 <= i < s.len() && 0 <= j < field.len() ==> (#[trigger] field[j]).id < (#[trigger] s[i]).id
    &&& forall|i: int, j: int|
        0 <= i < s.len() && 0 <= j < s.len() && i != j ==> (#[trigger] s[i]).id != (#[trigger] s[j]).id
}

/// Each id listed in `ids` from `from` on names an asteroid of `field` that
/// left the arena or touched the ship.
pub open spec fn removal_justified(
    ids: Seq<u32>,
    from: int,
    field: Seq<Asteroid>,
    ship: Ship,
    w: int,
    h: int,
) -> bool {
    forall|t: int| from <= t < ids.len() ==> #[trigger] justified(ids[t], field, ship, w, h)
}

/// `id` names an asteroid of `field` that left the arena or touched the
/// ship.
pub open spec fn justified(id: u32, field: Seq<Asteroid>, ship: Ship, w: int, h: int) -> bool {
    exists|k: int|
        0 <= k < field.len() && id == (#[trigger] field[k]).id && (off_arena(field[k], w, h)
            || touches(ship, field[k]))
}

/// Two neighbours of `s` are the halves of a split of `parent`.
pub open spec fn halves_in(s: Seq<Asteroid>, parent: Asteroid) -> bool {
    exists|i: int, angle: int|
        0 <= i && i + 1 < s.len() && 0 <= angle < FULL_TURN && #[trigger] split_pair(
            parent,
            s[i].id,
            angle,
            s[i],
            s[i + 1],
        )
}

pub proof fn lemma_halves_in_prefix(s: Seq<Asteroid>, t: Seq<Asteroid>, parent: Asteroid)
    requires
        halves_in(s, parent),
        s.len() <= t.len(),
        t.subrange(0, s.len() as int) == s,
    ensures
        halves_in(t, parent),
{
    let (i, angle) = choose|i: int, angle: int|
        0 <= i && i + 1 < s.len() && 0 <= angle < FULL_TURN && #[trigger] split_pair(
            parent,
            s[i].id,
            angle,
            s[i],
            s[i + 1],
        );
    assert(t[i] == t.subrange(0, s.len() as int)[i]);
    assert(t[i + 1] == t.subrange(0, s.len() as int)[i + 1]);
    assert(split_pair(parent, t[i].id, angle, t[i], t[i + 1]));
}

pub proof fn lemma_halves_in_suffix(s: Seq<Asteroid>, pre: Seq<Asteroid>, parent: Asteroid)
    requires
        halves_in(s, parent),
    ensures
        halves_in(pre + s, parent),
{
    let (i, angle) = choose|i: int, angle: int|
        0 <= i && i + 1 < s.len() && 0 <= angle < FULL_TURN && #[trigger] split_pair(
            parent,
            s[i].id,
            angle,
            s[i],
            s[i + 1],
        );
    let t = pre + s;
    let j = i + pre.len();
    assert(t[j] == s[i]);
    assert(t[j + 1] == s[i + 1]);
    assert(split_pair(parent, t[j].id, angle, t[j], t[j + 1]));
}

/// The laser meets a live asteroid: its point lies inside the disc.
pub open spec fn hits(l: Laser, a: Asteroid) -> bool {
    a.health > 0 && dist_sq_spec(l.position, a.position) < a.radius * a.radius
}

/// The index of the first asteroid from `k` on that the laser hits, or the
/// length of the field if none.
pub open spec fn first_hit(field: Seq<Asteroid>, l: Laser, k: int) -> int
    decreases field.len() - k,
{
    if k < 0 || k >= field.len() {
        field.len() as int
    } else if hits(l, field[k]) {
        k
    } else {
        first_hit(field, l, k + 1)
    }
}

/// An asteroid after one hit.
pub open spec fn damaged(a: Asteroid) -> Asteroid {
    Asteroid {
        health: (if a.health > 0 {
            a.health - 1
        } else {
            0
        }) as u32,
        ..a
    }
}

/// The field after one laser strikes the first asteroid it hits, if any.
pub open spec fn struck_by(field: Seq<Asteroid>, l: Laser) -> Seq<Asteroid> {
    let i = first_hit(field, l, 0);
    if i < field.len() {
        field.update(i, damaged(field[i]))
    } else {
        field
    }
}

/// The field after the first `n` lasers of `ls`, each flown `dt`
/// milliseconds, strike in turn.
pub open spec fn strike_fold(ls: Seq<Laser>, field: Seq<Asteroid>, dt: int, n: int) -> Seq<Asteroid>
    decreases n,
{
    if n <= 0 {
        field
    } else {
        struck_by(strike_fold(ls, field, dt, n - 1), flown(ls[n - 1], dt))
    }
}

/// Laser `k` of `ls` strikes an asteroid when its turn comes.
pub open spec fn laser_struck(ls: Seq<Laser>, field: Seq<Asteroid>, dt: int, k: int) -> bool {
    first_hit(strike_fold(ls, field, dt, k), flown(ls[k], dt), 0) < field.len()
}

proof fn lemma_first_hit_bound(field: Seq<Asteroid>, l: Laser, k: int)
    requires
        k >= 0,
    ensures
        first_hit(field, l, k) <= field.len(),
        first_hit(field, l, k) < field.len() ==> first_hit(field, l, k) >= k,
    decreases field.len() - k,
{
    if k < field.len() && !hits(l, field[k]) {
        lemma_first_hit_bound(field, l, k + 1);
    }
}

proof fn lemma_strike_fold_len(ls: Seq<Laser>, field: Seq<Asteroid>, dt: int, n: int)
    ensures
        strike_fold(ls, field, dt, n).len() == field.len(),
    decreases n,
{
    if n > 0 {
        lemma_strike_fold_len(ls, field, dt, n - 1);
        let f = strike_fold(ls, field, dt, n - 1);
        lemma_first_hit_bound(f, flown(ls[n - 1], dt), 0);
    }
}

/// `id` names an asteroid destroyed between `before` and `after`.
pub open spec fn kill_justified(id: u32, before: Seq<Asteroid>, after: Seq<Asteroid>) -> bool {
    exists|j: int|
        0 <= j < after.len() && id == (#[trigger] after[j]).id && before[j].health > 0
            && after[j].health == 0
}

/// Each id listed in `ids` from `from` on names a destroyed asteroid.
pub open spec fn kills_justified(ids: Seq<u32>, from: int, before: Seq<Asteroid>, after: Seq<Asteroid>) -> bool {
    forall|t: int| from <= t < ids.len() ==> #[trigger] kill_justified(ids[t], before, after)
}

/// `id` names a laser of `ls` that struck or left the `w` by `h` arena.
pub open spec fn laser_justified(id: u32, ls: Seq<Laser>, field: Seq<Asteroid>, dt: int, w: int, h: int) -> bool {
    exists|k: int|
        0 <= k < ls.len() && id == (#[trigger] ls[k]).id && (laser_struck(ls, field, dt, k) || outside(
            flown(ls[k], dt).position,
            w,
            h,
        ))
}

/// Each id listed in `ids` from `from` on names a spent laser.
pub open spec fn lasers_removal_justified(
    ids: Seq<u32>,
    from: int,
    ls: Seq<Laser>,
    field: Seq<Asteroid>,
    dt: int,
    w: int,
    h: int,
) -> bool {
    forall|t: int| from <= t < ids.len() ==> #[trigger] laser_justified(ids[t], ls, field, dt, w, h)
}

/// `b` is `a` with fewer hit points, and nothing else changed.
pub open spec fn only_damaged(a: Asteroid, b: Asteroid) -> bool {
    &&& b.health <= a.health
    &&& b == Asteroid { health: b.health, ..a }
}

/// How many of the first `n` asteroids went from alive in `before` to
/// destroyed in `after`.
pub open spec fn kills(before: Seq<Asteroid>, after: Seq<Asteroid>, n: int) -> nat
    decreases n,
{
    if n <= 0 {
        0
    } else {
        kills(before, after, n - 1) + (if before[n - 1].health > 0 && after[n - 1].health == 0 {
            1nat
        } else {
            0nat
        })
    }
}

/// How many asteroids went from alive in `before` to destroyed in `after`.
pub open spec fn kill_count(before: Seq<Asteroid>, after: Seq<Asteroid>) -> nat {
    kills(before, after, before.len() as int)
}

pub open spec fn saturating(v: int) -> int {
    if v > u32::MAX {
        u32::MAX as int
    } else {
        v
    }
}

proof fn lemma_kills_none(s: Seq<Asteroid>, n: int)
    ensures
        kills(s, s, n) == 0,
    decreases n,
{
    if n > 0 {
        lemma_kills_none(s, n - 1);
    }
}

proof fn lemma_kills_update(before: Seq<Asteroid>, after: Seq<Asteroid>, k: int, x: Asteroid, n: int)
    requires
        0 <= k < after.len(),
        before.len() == after.len(),
        0 <= n <= after.len(),
        after[k].health > 0,
        before[k].health >= after[k].health,
    ensures
        kills(before, after.update(k, x), n) == kills(before, after, n) + (if n > k && x.health
            == 0 {
            1int
        } else {
            0int
        }),
    decreases n,
{
    if n > 0 {
        lemma_kills_update(before, after, k, x, n - 1);
    }
}

/// `s` after the pair `(i, j)` is tested for a bounce.
pub open spec fn bounce_step(s: Seq<Asteroid>, i: int, j: int) -> Seq<Asteroid> {
    let r = resolve_spec(s[i], s[j]);
    s.update(i, r.0).update(j, r.1)
}

/// `s` after the pairs `(i, j)`, `(i, j + 1)`, ..., `(i, n - 1)` are
/// tested in turn.
pub open spec fn bounce_row(s: Seq<Asteroid>, i: int, j: int, n: int) -> Seq<Asteroid>
    decreases n - j,
{
    if j < 0 || j >= n {
        s
    } else {
        bounce_row(bounce_step(s, i, j), i, j + 1, n)
    }
}

/// `s` after every pair `(p, q)` with `i <= p < q < n` is tested, in order.
pub open spec fn bounce_all(s: Seq<Asteroid>, i: int, n: int) -> Seq<Asteroid>
    decreases n - i,
{
    if i < 0 || i >= n {
        s
    } else {
        bounce_all(bounce_row(s, i, i + 1, n), i + 1, n)
    }
}

/// `p` is a new spark at `at`, flying at a speed in `[lo, hi)`.
pub open spec fn sparked(p: Particle, at: Vec2, lo: int, hi: int) -> bool {
    exists|sp: int, a: int, sz: int|
        lo <= sp < hi && 0 <= a < FULL_TURN && MIN_SPARK <= sz < MAX_SPARK && p == #[trigger] spark(
            at.x,
            at.y,
            sp,
            a,
            sz,
        )
}

/// On a field of two asteroids the bounce pass resolves that one pair.
pub proof fn lemma_two_asteroid_bounce(s: Seq<Asteroid>)
    requires
        s.len() == 2,
    ensures
        bounce_all(s, 0, 2) == seq![resolve_spec(s[0], s[1]).0, resolve_spec(s[0], s[1]).1],
{
    let r = resolve_spec(s[0], s[1]);
    let t = bounce_step(s, 0, 1);
    assert(bounce_row(s, 0, 1, 2) == bounce_row(t, 0, 2, 2));
    assert(bounce_row(t, 0, 2, 2) == t);
    assert(bounce_all(t, 1, 2) == bounce_all(bounce_row(t, 1, 2, 2), 2, 2));
    assert(bounce_row(t, 1, 2, 2) == t);
    assert(t =~= seq![r.0, r.1]);
}

/// Add `count` sparks at `at`, each flying at a speed drawn from `[lo, hi)`.
pub fn burst(particles: &mut Vec<Particle>, at: Vec2, count: u32, lo: i64, hi: i64)
    requires
        particles_ok(old(particles)@),
        in_world(at),
        0 <= lo < hi <= MAX_SPEED,
    ensures
        particles_ok(final(particles)@),
        final(particles)@.len() == old(particles)@.len() + count,
        final(particles)@.subrange(0, old(particles)@.len() as int) == old(particles)@,
        forall|k: int|
            old(particles)@.len() <= k < final(particles)@.len() ==> sparked(
                #[trigger] final(particles)@[k],
                at,
                lo as int,
                hi as int,
            ),
{
    let mut i: u32 = 0;
    while i < count
        invariant
            i <= count,
            particles_ok(particles@),
            particles@.len() == old(particles)@.len() + i,
            particles@.subrange(0, old(particles)@.len() as int) == old(particles)@,
            forall|k: int|
                old(particles)@.len() <= k < particles@.len() ==> sparked(
                    #[trigger] particles@[k],
                    at,
                    lo as int,
                    hi as int,
                ),
            in_world(at),
            0 <= lo < hi <= MAX_SPEED,
        decreases count - i,
    {
        let speed: i64 = pick(lo, hi);
        let p: Particle = Particle::new(at.x, at.y, speed);
        let ghost pre = particles@;
        particles.push(p);
        proof {
            assert(particles@.subrange(0, old(particles)@.len() as int) =~= pre.subrange(
                0,
                old(particles)@.len() as int,
            ));
            assert forall|k: int|
                old(particles)@.len() <= k < particles@.len() implies sparked(
                    #[trigger] particles@[k],
                    at,
                    lo as int,
                    hi as int,
                ) by {
                if k < pre.len() {
                    assert(particles@[k] == pre[k]);
                } else {
                    let (a, sz) = choose|a: int, sz: int|
                        0 <= a < FULL_TURN && MIN_SPARK <= sz < MAX_SPARK && p == #[trigger] spark(
                            at.x,
                            at.y,
                            speed as int,
                            a,
                            sz,
                        );
                    assert(particles@[k] == spark(at.x, at.y, speed as int, a, sz));
                }
            }
        }
        i = i + 1;
    }
}

impl Game {
    /// Fire a laser from the ship's nose if the trigger is held and the gun
    /// has cooled down.
    pub fn fire_laser(&mut self, keys: Controls) -> (fired: bool)
        requires
            old(self).wf(),
        ensures
            final(self).wf(),
            frame_fixed(*old(self), *final(self)),
            fired == (old(self).laser_cooldown_remaining <= 0 && keys.fire && old(self).laser_counter
                < u32::MAX),
            fired ==> final(self).laser_counter == old(self).laser_counter + 1
                && final(self).laser_cooldown_remaining == old(self).laser_cooldown
                && final(self).lasers@ == old(self).lasers@.push(
                shot(old(self).player, (old(self).laser_counter + 1) as u32, old(self).inherit_ship_velocity),
            ) && final(self).lasers@.len() == old(self).lasers@.len() + 1
                && final(self).lasers@.subrange(0, old(self).lasers@.len() as int) == old(self).lasers@
                && final(self).lasers@.last().id == final(self).laser_counter
                && final(self).lasers@.last().position == hull_vertex(
                old(self).player.position,
                old(self).player.rotation as int,
                1,
            ),
            !fired ==> final(self).laser_counter == old(self).laser_counter
                && final(self).laser_cooldown_remaining == old(self).laser_cooldown_remaining
                && final(self).lasers@ == old(self).lasers@,
            final(self).player == old(self).player,
            final(self).asteroids@ == old(self).asteroids@,
            final(self).asteroid_counter == old(self).asteroid_counter,
            final(self).particles@ == old(self).particles@,
            final(self).score == old(self).score,
            final(self).death_timer == old(self).death_timer,
    {
        if self.laser_cooldown_remaining <= 0 && keys.fire && self.laser_counter < u32::MAX {
            let id: u32 = self.laser_counter + 1;
            let verts: Vec<Vec2> = self.player.vertices();
            let nose: Vec2 = verts[1];
            let c: i64 = cosine(self.player.rotation);
            let s: i64 = sine(self.player.rotation);
            let (bx, by): (i64, i64) = if self.inherit_ship_velocity {
                (self.player.velocity.x, self.player.velocity.y)
            } else {
                (0, 0)
            };
            assert(-LASER_SPEED * TRIG_ONE <= LASER_SPEED * c <= LASER_SPEED * TRIG_ONE && -LASER_SPEED
                * TRIG_ONE <= LASER_SPEED * s <= LASER_SPEED * TRIG_ONE) by (nonlinear_arith)
                requires
                    -10_000 <= c <= 10_000,
                    -10_000 <= s <= 10_000,
            ;
            let mx: i128 = div_toward_zero((LASER_SPEED * c) as i128, TRIG_ONE as i128);
            let my: i128 = div_toward_zero((LASER_SPEED * s) as i128, TRIG_ONE as i128);
            assert(-LASER_SPEED <= mx <= LASER_SPEED && -LASER_SPEED <= my <= LASER_SPEED)
                by (nonlinear_arith)
                requires
                    mx == div_trunc(LASER_SPEED * c, TRIG_ONE as int),
                    my == div_trunc(LASER_SPEED * s, TRIG_ONE as int),
                    -LASER_SPEED * TRIG_ONE <= LASER_SPEED * c <= LASER_SPEED * TRIG_ONE,
                    -LASER_SPEED * TRIG_ONE <= LASER_SPEED * s <= LASER_SPEED * TRIG_ONE,
            ;
            let laser: Laser = Laser::new(nose.x, nose.y, bx + mx as i64, by + my as i64, id);
            let ghost before = self.lasers@;
            assert(laser == shot(self.player, id, self.inherit_ship_velocity));
            self.lasers.push(laser);
            self.laser_counter = id;
            self.laser_cooldown_remaining = self.laser_cooldown;
            assert(self.lasers@.subrange(0, before.len() as int) == before);
            assert forall|i: int, j: int|
                0 <= i < self.lasers@.len() && 0 <= j < self.lasers@.len() && i != j
                    implies (#[trigger] self.lasers@[i]).id != (#[trigger] self.lasers@[j]).id by {
                if i < before.len() {
                    assert(self.lasers@[i] == before[i]);
                }
                if j < before.len() {
                    assert(self.lasers@[j] == before[j]);
                }
            }
            true
        } else {
            false
        }
    }

    /// Split `parent` into two halves born this frame, if ids are left:
    /// sparks fly, and the halves go to `born`.
    fn split_off(&mut self, parent: Asteroid, born: &mut Vec<Asteroid>)
        requires
            old(self).wf(),
            parent.wf(),
            parent.radius > SPLIT_THRESHOLD,
            born_ok(old(born)@, old(self).asteroids@, old(self).asteroid_counter as int),
        ensures
            final(self).wf(),
            born_ok(final(born)@, final(self).asteroids@, final(self).asteroid_counter as int),
            final(self).asteroid_counter >= old(self).asteroid_counter,
            final(born)@.len() >= old(born)@.len(),
            final(born)@.subrange(0, old(born)@.len() as int) == old(born)@,
            old(self).asteroid_counter < u32::MAX - 1 ==> final(self).asteroid_counter == old(
                self,
            ).asteroid_counter + 2 && final(born)@.len() == old(born)@.len() + 2 && exists|angle: int|
                0 <= angle < FULL_TURN && #[trigger] split_pair(
                    parent,
                    (old(self).asteroid_counter + 1) as u32,
                    angle,
                    final(born)@[old(born)@.len() as int],
                    final(born)@[old(born)@.len() as int + 1],
                ),
            old(self).asteroid_counter >= u32::MAX - 1 ==> final(self).asteroid_counter == old(
                self,
            ).asteroid_counter && final(born)@ == old(born)@,
            frame_fixed(*old(self), *final(self)),
            final(self).player == old(self).player,
            final(self).asteroids@ == old(self).asteroids@,
            final(self).lasers@ == old(self).lasers@,
            final(self).laser_counter == old(self).laser_counter,
            final(self).laser_cooldown_remaining == old(self).laser_cooldown_remaining,
            final(self).score == old(self).score,
            final(self).death_timer == old(self).death_timer,
    {
        if self.asteroid_counter >= u32::MAX - 1 {
            assert(born@.subrange(0, born@.len() as int) == born@);
            return;
        }
        burst(&mut self.particles, parent.position, 15, 100_000, 300_000);
        let angle: i64 = pick(0, FULL_TURN);
        let first: u32 = self.asteroid_counter + 1;
        let (a, b): (Asteroid, Asteroid) = parent.split(first, angle);
        let ghost before = born@;
        born.push(a);
        born.push(b);
        self.asteroid_counter = first + 1;
        assert(born@.subrange(0, before.len() as int) == before);
        assert(born@[before.len() as int] == a);
        assert(born@[before.len() as int + 1] == b);
        assert(split_pair(parent, first, angle as int, born@[before.len() as int], born@[before.len() as int + 1]));
        assert forall|i: int, j: int|
            0 <= i < born@.len() && 0 <= j < born@.len() && i != j implies (#[trigger] born@[i]).id
            != (#[trigger] born@[j]).id by {
            if i < before.len() {
                assert(born@[i] == before[i]);
            }
            if j < before.len() {
                assert(born@[j] == before[j]);
            }
        }
        assert forall|i: int, j: int|
            0 <= i < born@.len() && 0 <= j < self.asteroids@.len() implies (#[trigger] self.asteroids@[j]).id
            < (#[trigger] born@[i]).id by {
            if i < before.len() {
                assert(born@[i] == before[i]);
            }
        }
    }

    /// Move every asteroid, and test each against the ship: an asteroid that
    /// left the arena or touched the ship is marked in `removed`; a touch
    /// costs the ship a hit point (the grace period allowing), and splits a
    /// large asteroid into `born`.
    pub fn advance_asteroids(&mut self, dt: u16, removed: &mut Vec<u32>, born: &mut Vec<Asteroid>)
        requires
            old(self).wf(),
            born_ok(old(born)@, old(self).asteroids@, old(self).asteroid_counter as int),
        ensures
            final(self).wf(),
            born_ok(final(born)@, final(self).asteroids@, final(self).asteroid_counter as int),
            frame_fixed(*old(self), *final(self)),
            final(self).lasers@ == old(self).lasers@,
            final(self).laser_counter == old(self).laser_counter,
            final(self).laser_cooldown_remaining == old(self).laser_cooldown_remaining,
            final(self).score == old(self).score,
            final(self).asteroid_counter >= old(self).asteroid_counter,
            final(self).asteroids@.len() == old(self).asteroids@.len(),
            forall|k: int|
                0 <= k < old(self).asteroids@.len() ==> #[trigger] final(self).asteroids@[k]
                    == advanced(old(self).asteroids@[k], dt as int),
            forall|k: int|
                0 <= k < final(self).asteroids@.len() && (off_arena(
                    #[trigger] final(self).asteroids@[k],
                    final(self).width as int,
                    final(self).height as int,
                ) || touches(old(self).player, final(self).asteroids@[k]))
                    ==> final(removed)@.contains(final(self).asteroids@[k].id),
            final(self).player.position == old(self).player.position,
            final(self).player.velocity == old(self).player.velocity,
            final(self).player.rotation == old(self).player.rotation,
            (forall|k: int|
                0 <= k < final(self).asteroids@.len() ==> !touches(
                    old(self).player,
                    #[trigger] final(self).asteroids@[k],
                )) ==> final(self).player == old(self).player,
            !(old(self).player.iframes == 0 && old(self).player.health > 0) ==> final(self).player
                == old(self).player,
            (exists|k: int|
                0 <= k < final(self).asteroids@.len() && touches(
                    old(self).player,
                    #[trigger] final(self).asteroids@[k],
                )) && old(self).player.iframes == 0 && old(self).player.health > 0
                ==> final(self).player.health == old(self).player.health - 1
                && final(self).player.iframes == crate::ship::HIT_GRACE_FRAMES,
            final(self).death_timer == (if old(self).player.health > 0 && final(self).player.health
                == 0 {
                DEATH_DELAY
            } else {
                old(self).death_timer
            }),
            final(removed)@.len() >= old(removed)@.len(),
            final(removed)@.subrange(0, old(removed)@.len() as int) == old(removed)@,
            removal_justified(
                final(removed)@,
                old(removed)@.len() as int,
                final(self).asteroids@,
                old(self).player,
                final(self).width as int,
                final(self).height as int,
            ),
            final(born)@.len() >= old(born)@.len(),
            final(born)@.subrange(0, old(born)@.len() as int) == old(born)@,
            forall|k: int|
                0 <= k < final(self).asteroids@.len() && touches(
                    old(self).player,
                    #[trigger] final(self).asteroids@[k],
                ) && final(self).asteroids@[k].radius > SPLIT_THRESHOLD && final(self).asteroid_counter
                    < u32::MAX - 1 ==> halves_in(final(born)@, final(self).asteroids@[k]),
    {
        let ghost start = *self;
        let verts: Vec<Vec2> = self.player.vertices();
        let mut i: usize = 0;
        while i < self.asteroids.len()
            invariant
                i <= self.asteroids@.len(),
                self.wf(),
                born_ok(born@, self.asteroids@, self.asteroid_counter as int),
                frame_fixed(start, *self),
                self.lasers@ == start.lasers@,
                self.laser_counter == start.laser_counter,
                self.laser_cooldown_remaining == start.laser_cooldown_remaining,
                self.score == start.score,
                self.asteroid_counter >= start.asteroid_counter,
                self.asteroids@.len() == start.asteroids@.len(),
                verts@.len() == 3,
                forall|v: int| 0 <= v < 3 ==> #[trigger] verts@[v] == hull_vertex(start.player.position, start.player.rotation as int, v),
                forall|v: int| 0 <= v < 3 ==> in_world(#[trigger] verts@[v]),
                forall|k: int|
                    0 <= k < i ==> #[trigger] self.asteroids@[k] == advanced(start.asteroids@[k], dt as int),
                forall|k: int| i <= k < self.asteroids@.len() ==> #[trigger] self.asteroids@[k] == start.asteroids@[k],
                forall|k: int|
                    0 <= k < i && (off_arena(
                        #[trigger] self.asteroids@[k],
                        self.width as int,
                        self.height as int,
                    ) || touches(start.player, self.asteroids@[k])) ==> removed@.contains(self.asteroids@[k].id),
                self.player.position == start.player.position,
                self.player.velocity == start.player.velocity,
                self.player.rotation == start.player.rotation,
                (forall|k: int| 0 <= k < i ==> !touches(start.player, #[trigger] self.asteroids@[k]))
                    ==> self.player == start.player,
                !(start.player.iframes == 0 && start.player.health > 0) ==> self.player == start.player,
                (exists|k: int| 0 <= k < i && touches(start.player, #[trigger] self.asteroids@[k]))
                    && start.player.iframes == 0 && start.player.health > 0
                    ==> self.player.health == start.player.health - 1
                    && self.player.iframes == crate::ship::HIT_GRACE_FRAMES,
                self.player.health <= start.player.health,
                self.death_timer == (if start.player.health > 0 && self.player.health == 0 {
                    DEATH_DELAY
                } else {
                    start.death_timer
                }),
                removed@.len() >= old(removed)@.len(),
                removed@.subrange(0, old(removed)@.len() as int) == old(removed)@,
                removal_justified(
                    removed@,
                    old(removed)@.len() as int,
                    self.asteroids@.subrange(0, i as int),
                    start.player,
                    self.width as int,
                    self.height as int,
                ),
                born@.len() >= old(born)@.len(),
                born@.subrange(0, old(born)@.len() as int) == old(born)@,
                forall|k: int|
                    0 <= k < i && touches(start.player, #[trigger] self.asteroids@[k])
                        && self.asteroids@[k].radius > SPLIT_THRESHOLD && self.asteroid_counter < u32::MAX
                        - 1 ==> halves_in(born@, self.asteroids@[k]),
            decreases start.asteroids@.len() - i,
        {
            let ghost pre = *self;
            let ghost removed_before = removed@;
            let ghost born_before = born@;
            let mut a: Asteroid = self.asteroids[i];
            a.tick(dt);
            self.asteroids.set(i, a);
            assert(self.asteroids@[i as int] == advanced(start.asteroids@[i as int], dt as int));
            assert(asteroids_ok(self.asteroids@, self.asteroid_counter)) by {
                assert forall|p: int, q: int|
                    0 <= p < self.asteroids@.len() && 0 <= q < self.asteroids@.len() && p != q
                        implies (#[trigger] self.asteroids@[p]).id != (#[trigger] self.asteroids@[q]).id by {
                    assert(pre.asteroids@[p].id == self.asteroids@[p].id);
                    assert(pre.asteroids@[q].id == self.asteroids@[q].id);
                }
            }
            assert(born_ok(born@, self.asteroids@, self.asteroid_counter as int)) by {
                assert forall|p: int, q: int|
                    0 <= p < born@.len() && 0 <= q < self.asteroids@.len()
                        implies (#[trigger] self.asteroids@[q]).id < (#[trigger] born@[p]).id by {
                    assert(pre.asteroids@[q].id == self.asteroids@[q].id);
                }
            }
            let w: i64 = self.width;
            let h: i64 = self.height;
            let gone: bool = a.position.x > w + a.radius || a.position.y > h + a.radius
                || a.position.x < -a.radius || a.position.y < -a.radius;
            if gone {
                removed.push(a.id);
                assert(removed@[removed@.len() - 1] == a.id);
            }
            let ghost removed_mid = removed@;
            assert(gone ==> removed_mid.contains(a.id));
            let mut hit: bool = false;
            let mut v: usize = 0;
            while v < 3 && !hit
                invariant
                    v <= 3,
                    verts@.len() == 3,
                    forall|u: int| 0 <= u < 3 ==> in_world(#[trigger] verts@[u]),
                    a.wf(),
                    hit ==> exists|u: int| 0 <= u < v && #[trigger] dist_sq_spec(verts@[u], a.position) < a.radius * a.radius,
                    !hit ==> forall|u: int| 0 <= u < v ==> #[trigger] dist_sq_spec(verts@[u], a.position) >= a.radius * a.radius,
                decreases 3 - v,
            {
                if closer_than(&verts[v], &a.position, a.radius) {
                    hit = true;
                }
                v = v + 1;
            }
            assert(hit == touches(start.player, a)) by {
                if hit {
                    let u = choose|u: int| 0 <= u < v && #[trigger] dist_sq_spec(verts@[u], a.position) < a.radius * a.radius;
                    assert(dist_sq_spec(hull_vertex(start.player.position, start.player.rotation as int, u), a.position) < a.radius * a.radius);
                } else {
                    assert forall|u: int| 0 <= u < 3 implies #[trigger] dist_sq_spec(
                        hull_vertex(start.player.position, start.player.rotation as int, u),
                        a.position,
                    ) >= a.radius * a.radius by {
                        assert(verts@[u] == hull_vertex(start.player.position, start.player.rotation as int, u));
                    }
                }
            }
            if hit {
                let before: usize = self.player.health;
                self.player.take_hit();
                removed.push(a.id);
                assert(removed@[removed@.len() - 1] == a.id);
                if before > 0 && self.player.health == 0 {
                    burst(&mut self.particles, self.player.position, 30, 200_000, 400_000);
                    self.death_timer = DEATH_DELAY;
                }
                if a.radius > SPLIT_THRESHOLD {
                    let ghost born_mid = born@;
                    let ghost c_mid = self.asteroid_counter;
                    self.split_off(a, born);
                    proof {
                        if c_mid < u32::MAX - 1 {
                            let angle = choose|angle: int|
                                0 <= angle < FULL_TURN && #[trigger] split_pair(
                                    a,
                                    (c_mid + 1) as u32,
                                    angle,
                                    born@[born_mid.len() as int],
                                    born@[born_mid.len() as int + 1],
                                );
                            assert(split_pair(
                                a,
                                born@[born_mid.len() as int].id,
                                angle,
                                born@[born_mid.len() as int],
                                born@[born_mid.len() as int + 1],
                            ));
                        }
                    }
                }
            }
            proof {
                assert(born@.subrange(0, old(born)@.len() as int) == old(born)@) by {
                    assert(born@.subrange(0, born_before.len() as int) == born_before);
                    assert(born@.subrange(0, old(born)@.len() as int) =~= born@.subrange(
                        0,
                        born_before.len() as int,
                    ).subrange(0, old(born)@.len() as int));
                }
                assert(born@.subrange(0, born_before.len() as int) == born_before);
                assert forall|k: int|
                    0 <= k < i + 1 && touches(start.player, #[trigger] self.asteroids@[k])
                        && self.asteroids@[k].radius > SPLIT_THRESHOLD && self.asteroid_counter < u32::MAX
                        - 1 implies halves_in(born@, self.asteroids@[k]) by {
                    if k < i {
                        assert(self.asteroids@[k] == pre.asteroids@[k]);
                        lemma_halves_in_prefix(born_before, born@, self.asteroids@[k]);
                    } else {
                        assert(self.asteroids@[k] == a);
                    }
                }
                assert(removed@.subrange(0, old(removed)@.len() as int) == old(removed)@) by {
                    assert(removed@.subrange(0, removed_before.len() as int) =~= removed_before);
                    assert(removed@.subrange(0, old(removed)@.len() as int) =~= removed@.subrange(
                        0,
                        removed_before.len() as int,
                    ).subrange(0, old(removed)@.len() as int));
                }
                assert forall|t: int| old(removed)@.len() <= t < removed@.len() implies #[trigger] justified(
                    removed@[t],
                    self.asteroids@.subrange(0, i + 1),
                    start.player,
                    self.width as int,
                    self.height as int,
                ) by {
                    let f = self.asteroids@.subrange(0, i + 1);
                    if t < removed_before.len() {
                        assert(removed@[t] == removed_before[t]);
                        assert(justified(
                            removed_before[t],
                            pre.asteroids@.subrange(0, i as int),
                            start.player,
                            pre.width as int,
                            pre.height as int,
                        ));
                        let k = choose|k: int|
                            0 <= k < i && removed_before[t] == (#[trigger] pre.asteroids@.subrange(0, i as int)[k]).id && (off_arena(
                                pre.asteroids@.subrange(0, i as int)[k],
                                pre.width as int,
                                pre.height as int,
                            ) || touches(start.player, pre.asteroids@.subrange(0, i as int)[k]));
                        assert(f[k] == pre.asteroids@[k]);
                        assert(pre.asteroids@.subrange(0, i as int)[k] == pre.asteroids@[k]);
                    } else {
                        assert(removed@[t] == a.id);
                        assert(f[i as int] == a);
                    }
                }
            }
            assert forall|k: int|
                0 <= k < i + 1 && (off_arena(
                    #[trigger] self.asteroids@[k],
                    self.width as int,
                    self.height as int,
                ) || touches(start.player, self.asteroids@[k])) implies removed@.contains(self.asteroids@[k].id) by {
                if k < i {
                    assert(self.asteroids@[k] == pre.asteroids@[k]);
                    assert(removed_before.contains(self.asteroids@[k].id));
                    let t = choose|t: int| 0 <= t < removed_before.len() && removed_before[t] == self.asteroids@[k].id;
                    assert(removed@[t] == removed_before[t]);
                } else {
                    assert(self.asteroids@[k] == a);
                    if gone {
                        let t = choose|t: int| 0 <= t < removed_mid.len() && removed_mid[t] == a.id;
                        assert(removed@[t] == removed_mid[t]);
                    }
                }
            }
            assert((forall|k: int| 0 <= k < i + 1 ==> !touches(start.player, #[trigger] self.asteroids@[k]))
                ==> self.player == start.player) by {
                if forall|k: int| 0 <= k < i + 1 ==> !touches(start.player, #[trigger] self.asteroids@[k]) {
                    assert(self.asteroids@[i as int] == a);
                    assert forall|k: int| 0 <= k < i implies !touches(start.player, #[trigger] pre.asteroids@[k]) by {
                        assert(pre.asteroids@[k] == self.asteroids@[k]);
                    }
                }
            }
            assert((exists|k: int| 0 <= k < i + 1 && touches(start.player, #[trigger] self.asteroids@[k]))
                ==> (hit || exists|k: int| 0 <= k < i && touches(start.player, #[trigger] self.asteroids@[k])));
            i = i + 1;
        }
        assert(self.asteroids@.subrange(0, i as int) == self.asteroids@);
    }

    /// Test every pair of asteroids once, in order, for a bounce; sparks fly
    /// where two bounce.
    pub fn bounce_asteroids(&mut self)
        requires
            old(self).wf(),
        ensures
            final(self).wf(),
            frame_fixed(*old(self), *final(self)),
            final(self).player == old(self).player,
            final(self).lasers@ == old(self).lasers@,
            final(self).laser_counter == old(self).laser_counter,
            final(self).laser_cooldown_remaining == old(self).laser_cooldown_remaining,
            final(self).score == old(self).score,
            final(self).death_timer == old(self).death_timer,
            final(self).asteroid_counter == old(self).asteroid_counter,
            final(self).asteroids@ == bounce_all(old(self).asteroids@, 0, old(self).asteroids@.len() as int),
            final(self).asteroids@.len() == old(self).asteroids@.len(),
            forall|k: int|
                0 <= k < old(self).asteroids@.len() ==> (#[trigger] final(self).asteroids@[k]).id
                    == old(self).asteroids@[k].id && final(self).asteroids@[k].health
                    == old(self).asteroids@[k].health && final(self).asteroids@[k].radius
                    == old(self).asteroids@[k].radius,
    {
        let ghost start = *self;
        let n: usize = self.asteroids.len();
        assert(bounce_all(self.asteroids@, 0, n as int) == bounce_all(start.asteroids@, 0, n as int));
        let mut i: usize = 0;
        while i < n
            invariant
                n == self.asteroids@.len(),
                n == start.asteroids@.len(),
                self.wf(),
                frame_fixed(start, *self),
                self.player == start.player,
                self.lasers@ == start.lasers@,
                self.laser_counter == start.laser_counter,
                self.laser_cooldown_remaining == start.laser_cooldown_remaining,
                self.score == start.score,
                self.death_timer == start.death_timer,
                self.asteroid_counter == start.asteroid_counter,
                bounce_all(self.asteroids@, i as int, n as int) == bounce_all(start.asteroids@, 0, n as int),
                forall|k: int|
                    0 <= k < n ==> (#[trigger] self.asteroids@[k]).id == start.asteroids@[k].id
                        && self.asteroids@[k].health == start.asteroids@[k].health
                        && self.asteroids@[k].radius == start.asteroids@[k].radius,
            decreases n - i,
        {
            let mut j: usize = i + 1;
            while j < n
                invariant
                    i < n,
                    n == self.asteroids@.len(),
                    n == start.asteroids@.len(),
                    self.wf(),
                    frame_fixed(start, *self),
                    self.player == start.player,
                    self.lasers@ == start.lasers@,
                    self.laser_counter == start.laser_counter,
                    self.laser_cooldown_remaining == start.laser_cooldown_remaining,
                    self.score == start.score,
                    self.death_timer == start.death_timer,
                    self.asteroid_counter == start.asteroid_counter,
                    i + 1 <= j <= n,
                    bounce_all(bounce_row(self.asteroids@, i as int, j as int, n as int), i + 1, n as int)
                        == bounce_all(start.asteroids@, 0, n as int),
                    forall|k: int|
                        0 <= k < n ==> (#[trigger] self.asteroids@[k]).id == start.asteroids@[k].id
                            && self.asteroids@[k].health == start.asteroids@[k].health
                            && self.asteroids@[k].radius == start.asteroids@[k].radius,
                decreases n - j,
            {
                let ghost pre = self.asteroids@;
                let (a, b, bounced): (Asteroid, Asteroid, bool) = resolve_pair(
                    self.asteroids[i],
                    self.asteroids[j],
                );
                self.asteroids.set(i, a);
                self.asteroids.set(j, b);
                assert(self.asteroids@ == bounce_step(pre, i as int, j as int));
                assert forall|k: int|
                    0 <= k < n implies (#[trigger] self.asteroids@[k]).id == start.asteroids@[k].id
                        && self.asteroids@[k].health == start.asteroids@[k].health
                        && self.asteroids@[k].radius == start.asteroids@[k].radius by {
                    if k != i && k != j {
                        assert(self.asteroids@[k] == pre[k]);
                    }
                }
                assert(asteroids_ok(self.asteroids@, self.asteroid_counter)) by {
                    assert forall|p: int, q: int|
                        0 <= p < n && 0 <= q < n && p != q
                            implies (#[trigger] self.asteroids@[p]).id != (#[trigger] self.asteroids@[q]).id by {
                        assert(start.asteroids@[p].id == self.asteroids@[p].id);
                        assert(start.asteroids@[q].id == self.asteroids@[q].id);
                    }
                    assert forall|p: int| 0 <= p < n implies (#[trigger] self.asteroids@[p]).wf()
                        && self.asteroids@[p].id <= self.asteroid_counter by {
                        if p != i && p != j {
                            assert(self.asteroids@[p] == pre[p]);
                        }
                        assert(start.asteroids@[p].id == self.asteroids@[p].id);
                    }
                }
                if bounced {
                    let at: Vec2 = contact_point(&a, &b);
                    burst(&mut self.particles, at, 3, 50_000, 150_000);
                }
                j = j + 1;
            }
            i = i + 1;
        }
    }

    /// Fly every laser; in order, each laser that meets a live asteroid
    /// deals one hit to the first such asteroid (in field order) and is
    /// spent. A destroyed asteroid scores a point, is marked in
    /// `removed_asteroids`, and splits into `born` if large. A laser that
    /// struck or left the arena is marked in `removed_lasers`.
    pub fn strike_asteroids(
        &mut self,
        dt: u16,
        removed_asteroids: &mut Vec<u32>,
        removed_lasers: &mut Vec<u32>,
        born: &mut Vec<Asteroid>,
    )
        requires
            old(self).wf(),
            born_ok(old(born)@, old(self).asteroids@, old(self).asteroid_counter as int),
        ensures
            final(self).wf(),
            born_ok(final(born)@, final(self).asteroids@, final(self).asteroid_counter as int),
            frame_fixed(*old(self), *final(self)),
            final(self).player == old(self).player,
            final(self).laser_counter == old(self).laser_counter,
            final(self).laser_cooldown_remaining == old(self).laser_cooldown_remaining,
            final(self).death_timer == old(self).death_timer,
            final(self).asteroid_counter >= old(self).asteroid_counter,
            final(self).asteroids@ == strike_fold(
                old(self).lasers@,
                old(self).asteroids@,
                dt as int,
                old(self).lasers@.len() as int,
            ),
            final(self).asteroids@.len() == old(self).asteroids@.len(),
            forall|k: int|
                0 <= k < old(self).asteroids@.len() ==> only_damaged(
                    old(self).asteroids@[k],
                    #[trigger] final(self).asteroids@[k],
                ),
            final(self).score == saturating(
                old(self).score + kill_count(old(self).asteroids@, final(self).asteroids@),
            ),
            forall|k: int|
                0 <= k < old(self).asteroids@.len() && old(self).asteroids@[k].health > 0
                    && (#[trigger] final(self).asteroids@[k]).health == 0
                    ==> final(removed_asteroids)@.contains(final(self).asteroids@[k].id),
            final(removed_asteroids)@.len() >= old(removed_asteroids)@.len(),
            final(removed_asteroids)@.subrange(0, old(removed_asteroids)@.len() as int) == old(
                removed_asteroids,
            )@,
            kills_justified(
                final(removed_asteroids)@,
                old(removed_asteroids)@.len() as int,
                old(self).asteroids@,
                final(self).asteroids@,
            ),
            final(self).lasers@.len() == old(self).lasers@.len(),
            forall|k: int|
                0 <= k < old(self).lasers@.len() ==> #[trigger] final(self).lasers@[k] == flown(
                    old(self).lasers@[k],
                    dt as int,
                ),
            forall|k: int|
                0 <= k < old(self).lasers@.len() && #[trigger] laser_struck(
                    old(self).lasers@,
                    old(self).asteroids@,
                    dt as int,
                    k,
                ) ==> final(removed_lasers)@.contains(old(self).lasers@[k].id),
            forall|k: int|
                0 <= k < old(self).lasers@.len() && outside(
                    (#[trigger] final(self).lasers@[k]).position,
                    final(self).width as int,
                    final(self).height as int,
                ) ==> final(removed_lasers)@.contains(old(self).lasers@[k].id),
            lasers_removal_justified(
                final(removed_lasers)@,
                old(removed_lasers)@.len() as int,
                old(self).lasers@,
                old(self).asteroids@,
                dt as int,
                final(self).width as int,
                final(self).height as int,
            ),
            final(born)@.len() >= old(born)@.len(),
            final(born)@.subrange(0, old(born)@.len() as int) == old(born)@,
            forall|k: int|
                0 <= k < old(self).asteroids@.len() && old(self).asteroids@[k].health > 0
                    && (#[trigger] final(self).asteroids@[k]).health == 0
                    && final(self).asteroids@[k].radius > SPLIT_THRESHOLD
                    && final(self).asteroid_counter < u32::MAX - 1 ==> halves_in(
                    final(born)@,
                    final(self).asteroids@[k],
                ),
    {
        let ghost start = *self;
        proof {
            lemma_kills_none(start.asteroids@, start.asteroids@.len() as int);
        }
        let mut li: usize = 0;
        while li < self.lasers.len()
            invariant
                li <= self.lasers@.len(),
                self.wf(),
                born_ok(born@, self.asteroids@, self.asteroid_counter as int),
                frame_fixed(start, *self),
                self.player == start.player,
                self.laser_counter == start.laser_counter,
                self.laser_cooldown_remaining == start.laser_cooldown_remaining,
                self.death_timer == start.death_timer,
                self.asteroid_counter >= start.asteroid_counter,
                self.asteroids@ == strike_fold(start.lasers@, start.asteroids@, dt as int, li as int),
                self.asteroids@.len() == start.asteroids@.len(),
                forall|k: int|
                    0 <= k < start.asteroids@.len() ==> only_damaged(
                        start.asteroids@[k],
                        #[trigger] self.asteroids@[k],
                    ),
                self.score == saturating(start.score + kill_count(start.asteroids@, self.asteroids@)),
                forall|k: int|
                    0 <= k < start.asteroids@.len() && start.asteroids@[k].health > 0
                        && (#[trigger] self.asteroids@[k]).health == 0
                        ==> removed_asteroids@.contains(self.asteroids@[k].id),
                removed_asteroids@.len() >= old(removed_asteroids)@.len(),
                removed_asteroids@.subrange(0, old(removed_asteroids)@.len() as int) == old(
                    removed_asteroids,
                )@,
                kills_justified(
                    removed_asteroids@,
                    old(removed_asteroids)@.len() as int,
                    start.asteroids@,
                    self.asteroids@,
                ),
                self.lasers@.len() == start.lasers@.len(),
                forall|k: int|
                    0 <= k < li ==> #[trigger] self.lasers@[k] == flown(start.lasers@[k], dt as int),
                forall|k: int| li <= k < start.lasers@.len() ==> #[trigger] self.lasers@[k] == start.lasers@[k],
                forall|k: int|
                    0 <= k < li && #[trigger] laser_struck(start.lasers@, start.asteroids@, dt as int, k)
                        ==> removed_lasers@.contains(start.lasers@[k].id),
                forall|k: int|
                    0 <= k < li && outside(
                        (#[trigger] self.lasers@[k]).position,
                        self.width as int,
                        self.height as int,
                    ) ==> removed_lasers@.contains(start.lasers@[k].id),
                lasers_removal_justified(
                    removed_lasers@,
                    old(removed_lasers)@.len() as int,
                    start.lasers@,
                    start.asteroids@,
                    dt as int,
                    self.width as int,
                    self.height as int,
                ),
                removed_lasers@.len() >= old(removed_lasers)@.len(),
                removed_lasers@.subrange(0, old(removed_lasers)@.len() as int) == old(removed_lasers)@,
                born@.len() >= old(born)@.len(),
                born@.subrange(0, old(born)@.len() as int) == old(born)@,
                forall|k: int|
                    0 <= k < start.asteroids@.len() && start.asteroids@[k].health > 0
                        && (#[trigger] self.asteroids@[k]).health == 0
                        && self.asteroids@[k].radius > SPLIT_THRESHOLD
                        && self.asteroid_counter < u32::MAX - 1 ==> halves_in(born@, self.asteroids@[k]),
            decreases start.lasers@.len() - li,
        {
            let ghost lasers_pre = self.lasers@;
            let ghost removed_l_pre = removed_lasers@;
            let ghost field = self.asteroids@;
            let mut l: Laser = self.lasers[li];
            l.tick(dt);
            self.lasers.set(li, l);
            assert(l == flown(start.lasers@[li as int], dt as int));
            assert(lasers_ok(self.lasers@, self.laser_counter)) by {
                assert forall|p: int, q: int|
                    0 <= p < self.lasers@.len() && 0 <= q < self.lasers@.len() && p != q
                        implies (#[trigger] self.lasers@[p]).id != (#[trigger] self.lasers@[q]).id by {
                    assert(start.lasers@[p].id == self.lasers@[p].id);
                    assert(start.lasers@[q].id == self.lasers@[q].id);
                }
                assert forall|p: int| 0 <= p < self.lasers@.len() implies (#[trigger] self.lasers@[p]).wf()
                    && self.lasers@[p].id <= self.laser_counter by {
                    if p != li {
                        assert(self.lasers@[p] == lasers_pre[p]);
                    }
                }
            }
            proof {
                lemma_strike_fold_len(start.lasers@, start.asteroids@, dt as int, li as int);
            }
            let mut k: usize = 0;
            let mut struck: bool = false;
            while k < self.asteroids.len() && !struck
                invariant
                    k <= self.asteroids@.len(),
                    l.wf(),
                    l == flown(start.lasers@[li as int], dt as int),
                    field == strike_fold(start.lasers@, start.asteroids@, dt as int, li as int),
                    field.len() == start.asteroids@.len(),
                    self.asteroids@.len() == field.len(),
                    !struck ==> self.asteroids@ == field && first_hit(field, l, 0) == first_hit(
                        field,
                        l,
                        k as int,
                    ),
                    struck ==> self.asteroids@ == struck_by(field, l) && first_hit(field, l, 0)
                        < field.len() && removed_lasers@.contains(l.id),
                    self.lasers@ == lasers_pre.update(li as int, l),
                    lasers_ok(self.lasers@, self.laser_counter),
                    li < self.lasers@.len(),
                    removed_lasers@.subrange(0, removed_l_pre.len() as int) == removed_l_pre,
                    removed_lasers@.len() >= removed_l_pre.len(),
                    !struck ==> removed_lasers@.len() == removed_l_pre.len(),
                    struck ==> removed_lasers@.len() == removed_l_pre.len() + 1
                        && removed_lasers@[removed_l_pre.len() as int] == l.id,
                    self.wf(),
                    born_ok(born@, self.asteroids@, self.asteroid_counter as int),
                    frame_fixed(start, *self),
                    self.player == start.player,
                    self.laser_counter == start.laser_counter,
                    self.laser_cooldown_remaining == start.laser_cooldown_remaining,
                    self.death_timer == start.death_timer,
                    self.asteroid_counter >= start.asteroid_counter,
                    forall|q: int|
                        0 <= q < start.asteroids@.len() ==> only_damaged(
                            start.asteroids@[q],
                            #[trigger] self.asteroids@[q],
                        ),
                    self.score == saturating(start.score + kill_count(start.asteroids@, self.asteroids@)),
                    forall|q: int|
                        0 <= q < start.asteroids@.len() && start.asteroids@[q].health > 0
                            && (#[trigger] self.asteroids@[q]).health == 0
                            ==> removed_asteroids@.contains(self.asteroids@[q].id),
                    removed_asteroids@.len() >= old(removed_asteroids)@.len(),
                    removed_asteroids@.subrange(0, old(removed_asteroids)@.len() as int) == old(
                        removed_asteroids,
                    )@,
                    kills_justified(
                        removed_asteroids@,
                        old(removed_asteroids)@.len() as int,
                        start.asteroids@,
                        self.asteroids@,
                    ),
                    born@.len() >= old(born)@.len(),
                    born@.subrange(0, old(born)@.len() as int) == old(born)@,
                    forall|q: int|
                        0 <= q < start.asteroids@.len() && start.asteroids@[q].health > 0
                            && (#[trigger] self.asteroids@[q]).health == 0
                            && self.asteroids@[q].radius > SPLIT_THRESHOLD
                            && self.asteroid_counter < u32::MAX - 1 ==> halves_in(born@, self.asteroids@[q]),
                decreases self.asteroids@.len() - k,
            {
                let a: Asteroid = self.asteroids[k];
                if a.health > 0 && closer_than(&l.position, &a.position, a.radius) {
                    let ghost cur = self.asteroids@;
                    let ghost removed_a_pre = removed_asteroids@;
                    let ghost born_pre = born@;
                    let ghost killed_pre = kills_justified(
                        removed_asteroids@,
                        old(removed_asteroids)@.len() as int,
                        start.asteroids@,
                        self.asteroids@,
                    );
                    assert(hits(l, a));
                    let mut a2: Asteroid = a;
                    a2.take_hit();
                    self.asteroids.set(k, a2);
                    proof {
                        assert(first_hit(field, l, k as int) == k);
                        assert(self.asteroids@ == struck_by(field, l));
                        lemma_kills_update(start.asteroids@, cur, k as int, a2, cur.len() as int);
                        assert forall|p: int, q: int|
                            0 <= p < self.asteroids@.len() && 0 <= q < self.asteroids@.len() && p != q
                                implies (#[trigger] self.asteroids@[p]).id != (#[trigger] self.asteroids@[q]).id by {
                            assert(start.asteroids@[p].id == self.asteroids@[p].id);
                            assert(start.asteroids@[q].id == self.asteroids@[q].id);
                        }
                        assert forall|p: int| 0 <= p < self.asteroids@.len() implies (#[trigger] self.asteroids@[p]).wf()
                            && self.asteroids@[p].id <= self.asteroid_counter by {
                            if p != k {
                                assert(self.asteroids@[p] == cur[p]);
                            }
                        }
                        assert forall|p: int, q: int|
                            0 <= p < born@.len() && 0 <= q < self.asteroids@.len()
                                implies (#[trigger] self.asteroids@[q]).id < (#[trigger] born@[p]).id by {
                            assert(cur[q].id == self.asteroids@[q].id);
                        }
                        assert forall|q: int|
                            0 <= q < start.asteroids@.len() && q != k && start.asteroids@[q].health > 0
                                && (#[trigger] self.asteroids@[q]).health == 0
                                implies removed_asteroids@.contains(self.asteroids@[q].id) by {
                            assert(self.asteroids@[q] == cur[q]);
                        }
                        assert forall|t: int|
                            old(removed_asteroids)@.len() <= t < removed_asteroids@.len() implies #[trigger] kill_justified(
                                removed_asteroids@[t],
                                start.asteroids@,
                                self.asteroids@,
                            ) by {
                            assert(kill_justified(removed_asteroids@[t], start.asteroids@, cur));
                            let j = choose|j: int|
                                0 <= j < cur.len() && removed_asteroids@[t] == (#[trigger] cur[j]).id
                                    && start.asteroids@[j].health > 0 && cur[j].health == 0;
                            assert(j != k);
                            assert(self.asteroids@[j] == cur[j]);
                        }
                        assert forall|q: int|
                            0 <= q < start.asteroids@.len() && q != k && start.asteroids@[q].health > 0
                                && (#[trigger] self.asteroids@[q]).health == 0
                                && self.asteroids@[q].radius > SPLIT_THRESHOLD
                                && self.asteroid_counter < u32::MAX - 1 implies halves_in(born@, self.asteroids@[q]) by {
                            assert(self.asteroids@[q] == cur[q]);
                        }
                    }
                    removed_lasers.push(l.id);
                    assert(removed_lasers@[removed_lasers@.len() - 1] == l.id);
                    assert(removed_lasers@.subrange(0, removed_l_pre.len() as int) =~= removed_l_pre);
                    if a2.health == 0 {
                        let ghost removed_a_mid = removed_asteroids@;
                        removed_asteroids.push(a2.id);
                        assert(removed_asteroids@[removed_asteroids@.len() - 1] == a2.id);
                        proof {
                            assert(removed_asteroids@.subrange(0, old(removed_asteroids)@.len() as int)
                                =~= removed_a_mid.subrange(0, old(removed_asteroids)@.len() as int));
                            assert forall|t: int|
                                old(removed_asteroids)@.len() <= t < removed_asteroids@.len() implies #[trigger] kill_justified(
                                    removed_asteroids@[t],
                                    start.asteroids@,
                                    self.asteroids@,
                                ) by {
                                if t < removed_a_mid.len() {
                                    assert(removed_asteroids@[t] == removed_a_mid[t]);
                                } else {
                                    assert(self.asteroids@[k as int] == a2);
                                    assert(start.asteroids@[k as int].health > 0);
                                }
                            }
                            assert forall|q: int|
                                0 <= q < start.asteroids@.len() && start.asteroids@[q].health > 0
                                    && (#[trigger] self.asteroids@[q]).health == 0
                                    implies removed_asteroids@.contains(self.asteroids@[q].id) by {
                                if q != k {
                                    assert(self.asteroids@[q] == cur[q]);
                                    assert(removed_a_mid.contains(self.asteroids@[q].id));
                                    let t = choose|t: int| 0 <= t < removed_a_mid.len() && removed_a_mid[t] == self.asteroids@[q].id;
                                    assert(removed_asteroids@[t] == removed_a_mid[t]);
                                }
                            }
                        }
                        if a2.radius > SPLIT_THRESHOLD {
                            let ghost born_mid = born@;
                            let ghost c_mid = self.asteroid_counter;
                            self.split_off(a2, born);
                            proof {
                                if c_mid < u32::MAX - 1 {
                                    let angle = choose|angle: int|
                                        0 <= angle < FULL_TURN && #[trigger] split_pair(
                                            a2,
                                            (c_mid + 1) as u32,
                                            angle,
                                            born@[born_mid.len() as int],
                                            born@[born_mid.len() as int + 1],
                                        );
                                    assert(split_pair(
                                        a2,
                                        born@[born_mid.len() as int].id,
                                        angle,
                                        born@[born_mid.len() as int],
                                        born@[born_mid.len() as int + 1],
                                    ));
                                }
                                assert(born@.subrange(0, born_mid.len() as int) == born_mid);
                                assert(born@.subrange(0, old(born)@.len() as int) =~= born@.subrange(
                                    0,
                                    born_mid.len() as int,
                                ).subrange(0, old(born)@.len() as int));
                                assert forall|q: int|
                                    0 <= q < start.asteroids@.len() && start.asteroids@[q].health > 0
                                        && (#[trigger] self.asteroids@[q]).health == 0
                                        && self.asteroids@[q].radius > SPLIT_THRESHOLD
                                        && self.asteroid_counter < u32::MAX - 1 implies halves_in(
                                        born@,
                                        self.asteroids@[q],
                                    ) by {
                                    if q != k {
                                        assert(self.asteroids@[q] == cur[q]);
                                        lemma_halves_in_prefix(born_mid, born@, self.asteroids@[q]);
                                    } else {
                                        assert(self.asteroids@[q] == a2);
                                    }
                                }
                            }
                        }
                        if self.score < u32::MAX {
                            self.score = self.score + 1;
                        }
                    }
                    struck = true;
                } else {
                    assert(!hits(l, a));
                    assert(first_hit(field, l, k as int) == first_hit(field, l, k + 1));
                }
                k = k + 1;
            }
            assert(self.asteroids@ == struck_by(field, l));
            assert(self.asteroids@ == strike_fold(start.lasers@, start.asteroids@, dt as int, li + 1));
            assert(laser_struck(start.lasers@, start.asteroids@, dt as int, li as int) == struck);
            let gone: bool = l.position.x > self.width || l.position.y > self.height || l.position.x < 0
                || l.position.y < 0;
            let ghost removed_l_mid = removed_lasers@;
            if gone {
                removed_lasers.push(l.id);
                assert(removed_lasers@[removed_lasers@.len() - 1] == l.id);
            }
            proof {
                assert(removed_lasers@.subrange(0, removed_l_pre.len() as int) =~= removed_l_pre);
                assert(removed_lasers@.subrange(0, old(removed_lasers)@.len() as int) =~= removed_l_pre.subrange(
                    0,
                    old(removed_lasers)@.len() as int,
                )) by {
                    assert forall|t: int| 0 <= t < old(removed_lasers)@.len() implies removed_lasers@[t]
                        == removed_l_pre[t] by {
                        assert(removed_lasers@.subrange(0, removed_l_pre.len() as int)[t] == removed_l_pre[t]);
                    }
                }
                assert forall|t: int|
                    old(removed_lasers)@.len() <= t < removed_lasers@.len() implies #[trigger] laser_justified(
                        removed_lasers@[t],
                        start.lasers@,
                        start.asteroids@,
                        dt as int,
                        self.width as int,
                        self.height as int,
                    ) by {
                    if t < removed_l_pre.len() {
                        assert(removed_lasers@[t] == removed_l_pre[t]);
                    } else {
                        assert(removed_lasers@[t] == l.id);
                        assert(l.id == start.lasers@[li as int].id);
                        if t < removed_l_mid.len() {
                            assert(struck);
                        }
                        assert(laser_struck(start.lasers@, start.asteroids@, dt as int, li as int) || outside(
                            flown(start.lasers@[li as int], dt as int).position,
                            self.width as int,
                            self.height as int,
                        ));
                    }
                }
                assert forall|q: int|
                    0 <= q < li + 1 && #[trigger] laser_struck(start.lasers@, start.asteroids@, dt as int, q)
                        implies removed_lasers@.contains(start.lasers@[q].id) by {
                    if q < li {
                        assert(self.lasers@[q] == lasers_pre[q]);
                        assert(removed_l_pre.contains(start.lasers@[q].id));
                        let t = choose|t: int| 0 <= t < removed_l_pre.len() && removed_l_pre[t] == start.lasers@[q].id;
                        assert(removed_lasers@[t] == removed_l_pre[t]);
                    } else {
                        assert(self.lasers@[q] == l);
                        assert(start.lasers@[q].id == l.id);
                        if struck {
                            let t = choose|t: int| 0 <= t < removed_l_mid.len() && removed_l_mid[t] == l.id;
                            assert(removed_lasers@[t] == removed_l_mid[t]);
                        } else {
                            assert(removed_lasers@[removed_lasers@.len() - 1] == l.id);
                        }
                    }
                }
                assert forall|q: int|
                    0 <= q < li + 1 && outside(
                        (#[trigger] self.lasers@[q]).position,
                        self.width as int,
                        self.height as int,
                    ) implies removed_lasers@.contains(start.lasers@[q].id) by {
                    if q < li {
                        assert(self.lasers@[q] == lasers_pre[q]);
                        assert(removed_l_pre.contains(start.lasers@[q].id));
                        let t = choose|t: int| 0 <= t < removed_l_pre.len() && removed_l_pre[t] == start.lasers@[q].id;
                        assert(removed_lasers@[t] == removed_l_pre[t]);
                    } else {
                        assert(self.lasers@[q] == l);
                        assert(start.lasers@[q].id == l.id);
                        if struck {
                            let t = choose|t: int| 0 <= t < removed_l_mid.len() && removed_l_mid[t] == l.id;
                            assert(removed_lasers@[t] == removed_l_mid[t]);
                        } else {
                            assert(removed_lasers@[removed_lasers@.len() - 1] == l.id);
                        }
                    }
                }
                assert forall|q: int| 0 <= q < li + 1 implies #[trigger] self.lasers@[q] == flown(start.lasers@[q], dt as int) by {
                    if q < li {
                        assert(self.lasers@[q] == lasers_pre[q]);
                    }
                }
                assert forall|q: int| li + 1 <= q < start.lasers@.len() implies #[trigger] self.lasers@[q] == start.lasers@[q] by {
                    assert(self.lasers@[q] == lasers_pre[q]);
                }
            }
            li = li + 1;
        }
    }
}

} // verus!
