//! One frame of the simulation, and the start of a session.
use vstd::prelude::*;
use crate::asteroid::Asteroid;
use crate::asteroid::SPLIT_THRESHOLD;
use crate::collision::{
    advanced, born_ok, bounce_all, frame_fixed, halves_in, justified, kill_count,
    kill_justified, laser_justified, laser_struck, lasers_removal_justified, removal_justified,
    kills_justified, lemma_halves_in_prefix, lemma_halves_in_suffix, off_arena,
    lemma_two_asteroid_bounce, only_damaged, outside, saturating, shot, strike_fold, touches,
};
use crate::game::{
    Status, asteroids_ok, lasers_ok, particles_ok, Game, DEATH_DELAY, LASER_COOLDOWN,
    MAX_ASTEROIDS, WIN_SCORE,
};
use crate::geometry::{Vec2, SUBPIXELS, WORLD_LIMIT};
use crate::spawner::MAX_SPAWN_RADIUS;
use crate::physics::{
    bounces, lemma_head_on_bounce, lemma_separated_siblings_released, overlapping, resolve_spec,
};
use crate::laser::{flown, Laser};
use crate::particle::{age_all, Particle};
use crate::ship::{steer_spec, ControlModel, Controls, Ship, HIT_GRACE_FRAMES};

verus! {

/// Whether `id` is among `ids`.
pub fn listed(ids: &Vec<u32>, id: u32) -> (r: bool)
    ensures
        r == ids@.contains(id),
{
    let mut i: usize = 0;
    while i < ids.len()
        invariant
            i <= ids@.len(),
            forall|j: int| 0 <= j < i ==> ids@[j] != id,
        decreases ids@.len() - i,
    {
        if ids[i] == id {
            return true;
        }
        i = i + 1;
    }
    false
}

/// The frame state that removing entities leaves alone.
pub open spec fn same_but_lists(a: Game, b: Game) -> bool {
    &&& frame_fixed(a, b)
    &&& a.player == b.player
    &&& a.asteroid_counter == b.asteroid_counter
    &&& a.laser_counter == b.laser_counter
    &&& a.laser_cooldown_remaining == b.laser_cooldown_remaining
    &&& a.score == b.score
    &&& a.death_timer == b.death_timer
}

impl Game {
    /// Drop every asteroid whose id is in `removed`, keeping the order of
    /// the rest.
    pub fn prune_asteroids(&mut self, removed: &Vec<u32>)
        requires
            old(self).wf(),
        ensures
            final(self).wf(),
            same_but_lists(*old(self), *final(self)),
            final(self).lasers@ == old(self).lasers@,
            final(self).particles@ == old(self).particles@,
            forall|k: int|
                0 <= k < final(self).asteroids@.len() ==> !removed@.contains(
                    (#[trigger] final(self).asteroids@[k]).id,
                ) && old(self).asteroids@.contains(final(self).asteroids@[k]),
            forall|j: int|
                0 <= j < old(self).asteroids@.len() && !removed@.contains(
                    (#[trigger] old(self).asteroids@[j]).id,
                ) ==> final(self).asteroids@.contains(old(self).asteroids@[j]),
            final(self).asteroids@.len() <= old(self).asteroids@.len(),
    {
        let ghost start = self.asteroids@;
        let mut kept: Vec<Asteroid> = Vec::new();
        let ghost mut idx: Seq<int> = Seq::empty();
        let mut i: usize = 0;
        while i < self.asteroids.len()
            invariant
                i <= start.len(),
                self.asteroids@ == start,
                asteroids_ok(start, self.asteroid_counter),
                kept@.len() == idx.len(),
                kept@.len() <= i,
                forall|r: int| 0 <= r < idx.len() ==> 0 <= #[trigger] idx[r] < i && kept@[r] == start[idx[r]],
                forall|r1: int, r2: int| 0 <= r1 < r2 < idx.len() ==> #[trigger] idx[r1] < #[trigger] idx[r2],
                forall|r: int| 0 <= r < kept@.len() ==> !removed@.contains((#[trigger] kept@[r]).id),
                forall|j: int|
                    0 <= j < i && !removed@.contains((#[trigger] start[j]).id) ==> kept@.contains(start[j]),
            decreases start.len() - i,
        {
            let a: Asteroid = self.asteroids[i];
            if !listed(removed, a.id) {
                let ghost kept_pre = kept@;
                kept.push(a);
                proof {
                    idx = idx.push(i as int);
                    assert(kept@[kept@.len() - 1] == a);
                    assert forall|j: int|
                        0 <= j < i + 1 && !removed@.contains((#[trigger] start[j]).id) implies kept@.contains(start[j]) by {
                        if j < i {
                            let t = choose|t: int| 0 <= t < kept_pre.len() && kept_pre[t] == start[j];
                            assert(kept@[t] == kept_pre[t]);
                        }
                    }
                }
            }
            i = i + 1;
        }
        proof {
            assert forall|p: int, q: int|
                0 <= p < kept@.len() && 0 <= q < kept@.len() && p != q implies (#[trigger] kept@[p]).id
                != (#[trigger] kept@[q]).id by {
                if p < q {
                    assert(idx[p] < idx[q]);
                } else {
                    assert(idx[q] < idx[p]);
                }
                assert(kept@[p] == start[idx[p]]);
                assert(kept@[q] == start[idx[q]]);
            }
            assert forall|k: int| 0 <= k < kept@.len() implies start.contains(#[trigger] kept@[k]) by {
                assert(kept@[k] == start[idx[k]]);
            }
        }
        self.asteroids = kept;
    }

    /// Drop every laser whose id is in `removed`, keeping the order of the
    /// rest.
    pub fn prune_lasers(&mut self, removed: &Vec<u32>)
        requires
            old(self).wf(),
        ensures
            final(self).wf(),
            same_but_lists(*old(self), *final(self)),
            final(self).asteroids@ == old(self).asteroids@,
            final(self).particles@ == old(self).particles@,
            forall|k: int|
                0 <= k < final(self).lasers@.len() ==> !removed@.contains(
                    (#[trigger] final(self).lasers@[k]).id,
                ) && old(self).lasers@.contains(final(self).lasers@[k]),
            forall|j: int|
                0 <= j < old(self).lasers@.len() && !removed@.contains(
                    (#[trigger] old(self).lasers@[j]).id,
                ) ==> final(self).lasers@.contains(old(self).lasers@[j]),
            final(self).lasers@.len() <= old(self).lasers@.len(),
    {
        let ghost start = self.lasers@;
        let mut kept: Vec<Laser> = Vec::new();
        let ghost mut idx: Seq<int> = Seq::empty();
        let mut i: usize = 0;
        while i < self.lasers.len()
            invariant
                i <= start.len(),
                self.lasers@ == start,
                lasers_ok(start, self.laser_counter),
                kept@.len() == idx.len(),
                kept@.len() <= i,
                forall|r: int| 0 <= r < idx.len() ==> 0 <= #[trigger] idx[r] < i && kept@[r] == start[idx[r]],
                forall|r1: int, r2: int| 0 <= r1 < r2 < idx.len() ==> #[trigger] idx[r1] < #[trigger] idx[r2],
                forall|r: int| 0 <= r < kept@.len() ==> !removed@.contains((#[trigger] kept@[r]).id),
                forall|j: int|
                    0 <= j < i && !removed@.contains((#[trigger] start[j]).id) ==> kept@.contains(start[j]),
            decreases start.len() - i,
        {
            let l: Laser = self.lasers[i];
            if !listed(removed, l.id) {
                let ghost kept_pre = kept@;
                kept.push(l);
                proof {
                    idx = idx.push(i as int);
                    assert(kept@[kept@.len() - 1] == l);
                    assert forall|j: int|
                        0 <= j < i + 1 && !removed@.contains((#[trigger] start[j]).id) implies kept@.contains(start[j]) by {
                        if j < i {
                            let t = choose|t: int| 0 <= t < kept_pre.len() && kept_pre[t] == start[j];
                            assert(kept@[t] == kept_pre[t]);
                        }
                    }
                }
            }
            i = i + 1;
        }
        proof {
            assert forall|p: int, q: int|
                0 <= p < kept@.len() && 0 <= q < kept@.len() && p != q implies (#[trigger] kept@[p]).id
                != (#[trigger] kept@[q]).id by {
                if p < q {
                    assert(idx[p] < idx[q]);
                } else {
                    assert(idx[q] < idx[p]);
                }
                assert(kept@[p] == start[idx[p]]);
                assert(kept@[q] == start[idx[q]]);
            }
            assert forall|k: int| 0 <= k < kept@.len() implies start.contains(#[trigger] kept@[k]) by {
                assert(kept@[k] == start[idx[k]]);
            }
        }
        self.lasers = kept;
    }

    /// Add the asteroids born this frame to the field, after the others.
    pub fn merge_born(&mut self, born: Vec<Asteroid>)
        requires
            old(self).wf(),
            forall|i: int| 0 <= i < born@.len() ==> (#[trigger] born@[i]).wf() && born@[i].id <= old(self).asteroid_counter,
            forall|i: int, j: int|
                0 <= i < born@.len() && 0 <= j < born@.len() && i != j ==> (#[trigger] born@[i]).id
                    != (#[trigger] born@[j]).id,
            forall|i: int, j: int|
                0 <= i < born@.len() && 0 <= j < old(self).asteroids@.len() ==> (#[trigger] born@[i]).id
                    != (#[trigger] old(self).asteroids@[j]).id,
        ensures
            final(self).wf(),
            same_but_lists(*old(self), *final(self)),
            final(self).lasers@ == old(self).lasers@,
            final(self).particles@ == old(self).particles@,
            final(self).asteroids@ == old(self).asteroids@ + born@,
    {
        let ghost start = self.asteroids@;
        let mut i: usize = 0;
        while i < born.len()
            invariant
                i <= born@.len(),
                self.wf(),
                same_but_lists(*old(self), *self),
                self.lasers@ == old(self).lasers@,
                self.particles@ == old(self).particles@,
                self.asteroids@ == start + born@.subrange(0, i as int),
                forall|p: int| 0 <= p < born@.len() ==> (#[trigger] born@[p]).wf() && born@[p].id <= self.asteroid_counter,
                forall|p: int, q: int|
                    0 <= p < born@.len() && 0 <= q < born@.len() && p != q ==> (#[trigger] born@[p]).id
                        != (#[trigger] born@[q]).id,
                forall|p: int, q: int|
                    0 <= p < born@.len() && 0 <= q < start.len() ==> (#[trigger] born@[p]).id
                        != (#[trigger] start[q]).id,
            decreases born@.len() - i,
        {
            let ghost pre = self.asteroids@;
            self.asteroids.push(born[i]);
            proof {
                assert(self.asteroids@ == start + born@.subrange(0, i + 1));
                assert forall|p: int, q: int|
                    0 <= p < self.asteroids@.len() && 0 <= q < self.asteroids@.len() && p != q
                        implies (#[trigger] self.asteroids@[p]).id != (#[trigger] self.asteroids@[q]).id by {
                    if p < start.len() && q < start.len() {
                        assert(self.asteroids@[p] == start[p]);
                        assert(self.asteroids@[q] == start[q]);
                    } else if p < start.len() {
                        assert(self.asteroids@[p] == start[p]);
                        assert(self.asteroids@[q] == born@[q - start.len()]);
                    } else if q < start.len() {
                        assert(self.asteroids@[q] == start[q]);
                        assert(self.asteroids@[p] == born@[p - start.len()]);
                    } else {
                        assert(self.asteroids@[p] == born@[p - start.len()]);
                        assert(self.asteroids@[q] == born@[q - start.len()]);
                    }
                }
                assert forall|p: int| 0 <= p < self.asteroids@.len() implies (#[trigger] self.asteroids@[p]).wf()
                    && self.asteroids@[p].id <= self.asteroid_counter by {
                    if p < start.len() {
                        assert(self.asteroids@[p] == start[p]);
                    } else {
                        assert(self.asteroids@[p] == born@[p - start.len()]);
                    }
                }
            }
            i = i + 1;
        }
        assert(born@.subrange(0, born@.len() as int) == born@);
    }

    /// Age every spark by `dt` milliseconds and drop the burnt-out ones.
    pub fn update_particles(&mut self, dt: u16)
        requires
            old(self).wf(),
        ensures
            final(self).wf(),
            same_but_lists(*old(self), *final(self)),
            final(self).asteroids@ == old(self).asteroids@,
            final(self).lasers@ == old(self).lasers@,
            final(self).particles@ == age_all(old(self).particles@, dt as int),
    {
        let mut kept: Vec<Particle> = Vec::new();
        let mut i: usize = 0;
        while i < self.particles.len()
            invariant
                i <= self.particles@.len(),
                particles_ok(self.particles@),
                particles_ok(kept@),
                kept@ == age_all(self.particles@.subrange(0, i as int), dt as int),
            decreases self.particles@.len() - i,
        {
            let mut p: Particle = self.particles[i];
            p.tick(dt);
            if p.alive() {
                kept.push(p);
            }
            assert(self.particles@.subrange(0, i + 1).drop_last() == self.particles@.subrange(0, i as int));
            i = i + 1;
        }
        assert(self.particles@.subrange(0, self.particles@.len() as int) == self.particles@);
        self.particles = kept;
    }

    /// A session in an arena of `width` by `height` pixels: the ship at rest
    /// in the middle facing up, a first field of asteroids, thrust controls,
    /// and shots that carry the ship's velocity.
    pub fn new(width: u16, height: u16) -> (r: Game)
        requires
            width > 0,
            height > 0,
        ensures
            r.wf(),
            r.width == width * SUBPIXELS,
            r.height == height * SUBPIXELS,
            r.player == Ship::new_spec(r.center.x, r.center.y),
            r.lasers@.len() == 0,
            r.particles@.len() == 0,
            r.score == 0,
            r.laser_counter == 0,
            r.laser_cooldown_remaining == 0,
            r.death_timer == 0,
            r.max_asteroids == MAX_ASTEROIDS,
            r.laser_cooldown == LASER_COOLDOWN,
            r.win_score == WIN_SCORE,
            r.control == ControlModel::Thrust,
            r.inherit_ship_velocity,
            r.asteroids@.len() <= MAX_ASTEROIDS,
            r.asteroid_counter == r.asteroids@.len(),
            forall|k: int|
                0 <= k < r.asteroids@.len() ==> crate::spawner::fresh_spawn(
                    #[trigger] r.asteroids@[k],
                    r.width as int,
                    r.height as int,
                    r.center,
                    r.asteroids@.subrange(0, k),
                ) && r.asteroids@[k].id == k + 1,
            height * SUBPIXELS > 2 * MAX_SPAWN_RADIUS ==> r.asteroids@.len() >= 1,
    {
        let w: i64 = width as i64 * SUBPIXELS;
        let h: i64 = height as i64 * SUBPIXELS;
        let center: Vec2 = Vec2 { x: w / 2, y: h / 2 };
        let mut game: Game = Game {
            width: w,
            height: h,
            center,
            player: Ship::new(center.x, center.y),
            asteroids: Vec::new(),
            asteroid_counter: 0,
            max_asteroids: MAX_ASTEROIDS,
            lasers: Vec::new(),
            laser_counter: 0,
            laser_cooldown: LASER_COOLDOWN,
            laser_cooldown_remaining: 0,
            score: 0,
            particles: Vec::new(),
            death_timer: 0,
            win_score: WIN_SCORE,
            control: ControlModel::Thrust,
            inherit_ship_velocity: true,
        };
        game.generate_asteroids();
        game
    }

    /// Start the game over in the same arena and with the same settings.
    pub fn reset(&mut self)
        requires
            old(self).wf(),
        ensures
            final(self).wf(),
            frame_fixed(*old(self), *final(self)),
            final(self).player == Ship::new_spec(old(self).center.x, old(self).center.y),
            final(self).lasers@.len() == 0,
            final(self).particles@.len() == 0,
            final(self).score == 0,
            final(self).laser_counter == 0,
            final(self).laser_cooldown_remaining == 0,
            final(self).death_timer == 0,
            final(self).asteroid_counter == final(self).asteroids@.len(),
            final(self).asteroids@.len() <= final(self).max_asteroids,
            forall|k: int|
                0 <= k < final(self).asteroids@.len() ==> crate::spawner::fresh_spawn(
                    #[trigger] final(self).asteroids@[k],
                    final(self).width as int,
                    final(self).height as int,
                    final(self).center,
                    final(self).asteroids@.subrange(0, k),
                ) && final(self).asteroids@[k].id == k + 1,
            reset_result(*old(self), *final(self)),
    {
        self.asteroids = Vec::new();
        self.asteroid_counter = 0;
        self.lasers = Vec::new();
        self.laser_counter = 0;
        self.laser_cooldown_remaining = 0;
        self.player = Ship::new(self.center.x, self.center.y);
        self.score = 0;
        self.particles = Vec::new();
        self.death_timer = 0;
        self.generate_asteroids();
    }

    /// Choose how the movement keys act on the ship.
    pub fn set_control_model(&mut self, model: ControlModel)
        ensures
            *final(self) == (Game { control: model, ..*old(self) }),
    {
        self.control = model;
    }

    /// Choose the score that wins.
    pub fn set_win_score(&mut self, score: u32)
        ensures
            *final(self) == (Game { win_score: score, ..*old(self) }),
    {
        self.win_score = score;
    }

    /// Choose whether a shot carries the ship's velocity.
    pub fn set_inherit_ship_velocity(&mut self, inherit: bool)
        ensures
            *final(self) == (Game { inherit_ship_velocity: inherit, ..*old(self) }),
    {
        self.inherit_ship_velocity = inherit;
    }
}

/// A game started over from `old`: same arena and settings, a new ship in
/// the middle, no lasers or sparks, counters and timers at zero, and a fresh
/// field, not empty when the field wants asteroids and the side edges have
/// room for the largest one.
pub open spec fn reset_result(old: Game, new: Game) -> bool {
    &&& new.wf()
    &&& frame_fixed(old, new)
    &&& new.player == Ship::new_spec(old.center.x, old.center.y)
    &&& new.lasers@.len() == 0
    &&& new.particles@.len() == 0
    &&& new.score == 0
    &&& new.laser_counter == 0
    &&& new.laser_cooldown_remaining == 0
    &&& new.death_timer == 0
    &&& new.asteroid_counter == new.asteroids@.len()
    &&& new.asteroids@.len() <= new.max_asteroids
    &&& forall|k: int|
        0 <= k < new.asteroids@.len() ==> crate::spawner::fresh_spawn(
            #[trigger] new.asteroids@[k],
            new.width as int,
            new.height as int,
            new.center,
            new.asteroids@.subrange(0, k),
        ) && new.asteroids@[k].id == k + 1
    &&& (old.max_asteroids >= 4 && old.height > 2 * MAX_SPAWN_RADIUS ==> new.asteroids@.len() >= 1)
}

/// In a frame whose field is two asteroids of one size meeting head-on
/// after their drift, with equal and opposite velocities along the line
/// between their centres, and with no laser in flight, the two survive the
/// frame with their velocities exchanged and no longer overlapping.
pub proof fn lemma_tick_head_on(old: Game, new: Game, d: int, keys: Controls)
    requires
        old.wf(),
        old.status_spec() == Status::Playing,
        tick_result(old, new, d, keys),
        old.asteroids@.len() == 2,
        old.lasers@.len() == 0,
        !fires(old, keys),
        drifted(old, d)[0].radius == drifted(old, d)[1].radius,
        drifted(old, d)[0].velocity.x == -drifted(old, d)[1].velocity.x,
        drifted(old, d)[0].velocity.y == -drifted(old, d)[1].velocity.y,
        drifted(old, d)[0].velocity.x * (drifted(old, d)[1].position.y - drifted(old, d)[0].position.y)
            == drifted(old, d)[0].velocity.y * (drifted(old, d)[1].position.x - drifted(old, d)[0].position.x),
        bounces(drifted(old, d)[0], drifted(old, d)[1]),
        -WORLD_LIMIT / 2 <= drifted(old, d)[0].position.x <= WORLD_LIMIT / 2,
        -WORLD_LIMIT / 2 <= drifted(old, d)[0].position.y <= WORLD_LIMIT / 2,
        -WORLD_LIMIT / 2 <= drifted(old, d)[1].position.x <= WORLD_LIMIT / 2,
        -WORLD_LIMIT / 2 <= drifted(old, d)[1].position.y <= WORLD_LIMIT / 2,
        !doomed(old, d, keys, 0),
        !doomed(old, d, keys, 1),
    ensures
        new.asteroids@.contains(resolve_spec(drifted(old, d)[0], drifted(old, d)[1]).0),
        new.asteroids@.contains(resolve_spec(drifted(old, d)[0], drifted(old, d)[1]).1),
        resolve_spec(drifted(old, d)[0], drifted(old, d)[1]).0.velocity == drifted(old, d)[1].velocity,
        resolve_spec(drifted(old, d)[0], drifted(old, d)[1]).1.velocity == drifted(old, d)[0].velocity,
        !overlapping(
            resolve_spec(drifted(old, d)[0], drifted(old, d)[1]).0,
            resolve_spec(drifted(old, d)[0], drifted(old, d)[1]).1,
        ),
{
    let s = drifted(old, d);
    let a = s[0];
    let b = s[1];
    assert(old.asteroids@[0].wf() && old.asteroids@[1].wf());
    assert(a.wf() && b.wf());
    lemma_two_asteroid_bounce(s);
    lemma_head_on_bounce(a, b);
    assert(lasers_in_play(old, d, keys).len() == 0);
    assert(struck(old, d, keys) == bounced(old, d));
    assert(struck(old, d, keys)[0] == resolve_spec(a, b).0);
    assert(struck(old, d, keys)[1] == resolve_spec(a, b).1);
}

/// In a frame whose field is two split siblings that have drawn apart past
/// touching after their drift, with no laser in flight, both survive the
/// frame with their exemptions cleared.
pub proof fn lemma_tick_siblings_released(old: Game, new: Game, d: int, keys: Controls)
    requires
        old.status_spec() == Status::Playing,
        tick_result(old, new, d, keys),
        old.asteroids@.len() == 2,
        old.lasers@.len() == 0,
        !fires(old, keys),
        drifted(old, d)[0].ignore_collision_with == Some(drifted(old, d)[1].id),
        drifted(old, d)[1].ignore_collision_with == Some(drifted(old, d)[0].id),
        !overlapping(drifted(old, d)[0], drifted(old, d)[1]),
        !doomed(old, d, keys, 0),
        !doomed(old, d, keys, 1),
    ensures
        new.asteroids@.contains(resolve_spec(drifted(old, d)[0], drifted(old, d)[1]).0),
        new.asteroids@.contains(resolve_spec(drifted(old, d)[0], drifted(old, d)[1]).1),
        resolve_spec(drifted(old, d)[0], drifted(old, d)[1]).0.ignore_collision_with.is_none(),
        resolve_spec(drifted(old, d)[0], drifted(old, d)[1]).1.ignore_collision_with.is_none(),
{
    let s = drifted(old, d);
    lemma_two_asteroid_bounce(s);
    lemma_separated_siblings_released(s[0], s[1]);
    assert(lasers_in_play(old, d, keys).len() == 0);
    assert(struck(old, d, keys) == bounced(old, d));
    assert(struck(old, d, keys)[0] == resolve_spec(s[0], s[1]).0);
    assert(struck(old, d, keys)[1] == resolve_spec(s[0], s[1]).1);
}

/// What is left of a countdown after `dt` milliseconds; one that has run
/// out stays where it is.
pub open spec fn count_down(r: int, dt: int) -> int {
    if r > 0 {
        r - dt
    } else {
        r
    }
}

/// Whether a frame with `keys` fires a laser.
pub open spec fn fires(g: Game, keys: Controls) -> bool {
    g.laser_cooldown_remaining <= 0 && keys.fire && g.laser_counter < u32::MAX
}

/// The ship as it stands when the frame's collisions are tested.
pub open spec fn steered(g: Game, dt: int, keys: Controls) -> Ship {
    steer_spec(g.player, dt, keys, g.control, g.width as int, g.height as int)
}

/// The lasers in flight this frame: those of `g`, and the new shot if one
/// is fired.
pub open spec fn lasers_in_play(g: Game, dt: int, keys: Controls) -> Seq<Laser> {
    if fires(g, keys) {
        g.lasers@.push(
            shot(steered(g, dt, keys), (g.laser_counter + 1) as u32, g.inherit_ship_velocity),
        )
    } else {
        g.lasers@
    }
}

/// The asteroids after drifting.
pub open spec fn drifted(g: Game, dt: int) -> Seq<Asteroid> {
    Seq::new(g.asteroids@.len(), |k: int| advanced(g.asteroids@[k], dt))
}

/// The asteroids after drifting and bouncing.
pub open spec fn bounced(g: Game, dt: int) -> Seq<Asteroid> {
    bounce_all(drifted(g, dt), 0, g.asteroids@.len() as int)
}

/// The asteroids after drifting, bouncing and the lasers' strikes.
pub open spec fn struck(g: Game, dt: int, keys: Controls) -> Seq<Asteroid> {
    let ls = lasers_in_play(g, dt, keys);
    strike_fold(ls, bounced(g, dt), dt, ls.len() as int)
}

/// Asteroid `k` of `g` is destroyed this frame: it left the arena or
/// touched the ship while drifting, or a laser took its last hit point.
pub open spec fn doomed(g: Game, dt: int, keys: Controls, k: int) -> bool {
    off_arena(drifted(g, dt)[k], g.width as int, g.height as int) || touches(
        steered(g, dt, keys),
        drifted(g, dt)[k],
    ) || (bounced(g, dt)[k].health > 0 && struck(g, dt, keys)[k].health == 0)
}

/// The grace period after its frame's countdown.
pub open spec fn grace_after(g: Game) -> int {
    if g.player.iframes > 0 {
        g.player.iframes - 1
    } else {
        0
    }
}

/// Some drifted asteroid touches the ship.
pub open spec fn ship_touched(g: Game, dt: int, keys: Controls) -> bool {
    exists|k: int| 0 <= k < g.asteroids@.len() && #[trigger] touches(steered(g, dt, keys), drifted(g, dt)[k])
}

/// A finished game does not change.
pub open spec fn frozen(a: Game, b: Game) -> bool {
    &&& frame_fixed(a, b)
    &&& a.player == b.player
    &&& a.asteroids@ == b.asteroids@
    &&& a.lasers@ == b.lasers@
    &&& a.particles@ == b.particles@
    &&& a.asteroid_counter == b.asteroid_counter
    &&& a.laser_counter == b.laser_counter
    &&& a.laser_cooldown_remaining == b.laser_cooldown_remaining
    &&& a.score == b.score
    &&& a.death_timer == b.death_timer
}

/// What one frame of `dt` milliseconds with `keys` held makes of `old`.
pub open spec fn tick_result(old: Game, new: Game, dt: int, keys: Controls) -> bool {
    if old.status_spec() != Status::Playing {
        frozen(old, new)
    } else {
        let ship = steered(old, dt, keys);
        let n = old.asteroids@.len();
        let ls = lasers_in_play(old, dt, keys);
        &&& new.wf()
        &&& frame_fixed(old, new)
        &&& new.laser_counter == old.laser_counter + (if fires(old, keys) {
            1int
        } else {
            0int
        })
        &&& new.laser_cooldown_remaining == count_down(
            if fires(old, keys) {
                old.laser_cooldown as int
            } else {
                old.laser_cooldown_remaining as int
            },
            dt,
        )
        &&& new.player.position == ship.position
        &&& new.player.rotation == ship.rotation
        &&& new.player.velocity == ship.velocity
        &&& (ship_touched(old, dt, keys) && grace_after(old) == 0 && old.player.health > 0
            ==> new.player.health == old.player.health - 1 && new.player.iframes == HIT_GRACE_FRAMES)
        &&& (!(ship_touched(old, dt, keys) && grace_after(old) == 0 && old.player.health > 0)
            ==> new.player.health == old.player.health && new.player.iframes == grace_after(old))
        &&& new.score == saturating(old.score + kill_count(bounced(old, dt), struck(old, dt, keys)))
        &&& forall|k: int|
            0 <= k < n && #[trigger] doomed(old, dt, keys, k) ==> forall|j: int|
                0 <= j < new.asteroids@.len() ==> (#[trigger] new.asteroids@[j]).id != old.asteroids@[k].id
        &&& forall|k: int|
            0 <= k < n && !#[trigger] doomed(old, dt, keys, k) ==> new.asteroids@.contains(
                struck(old, dt, keys)[k],
            )
        &&& forall|k: int|
            0 <= k < n && #[trigger] touches(ship, drifted(old, dt)[k]) && drifted(old, dt)[k].radius
                > SPLIT_THRESHOLD && new.asteroid_counter < u32::MAX - 1 ==> halves_in(
                new.asteroids@,
                drifted(old, dt)[k],
            )
        &&& forall|k: int|
            0 <= k < n && bounced(old, dt)[k].health > 0 && (#[trigger] struck(old, dt, keys)[k]).health
                == 0 && struck(old, dt, keys)[k].radius > SPLIT_THRESHOLD && new.asteroid_counter
                < u32::MAX - 1 ==> halves_in(new.asteroids@, struck(old, dt, keys)[k])
        &&& forall|k: int|
            0 <= k < ls.len() && !#[trigger] laser_struck(ls, bounced(old, dt), dt, k) && !outside(
                flown(ls[k], dt).position,
                old.width as int,
                old.height as int,
            ) ==> new.lasers@.contains(flown(ls[k], dt))
        &&& forall|k: int|
            0 <= k < ls.len() && (#[trigger] laser_struck(ls, bounced(old, dt), dt, k) || outside(
                flown(ls[k], dt).position,
                old.width as int,
                old.height as int,
            )) ==> forall|j: int| 0 <= j < new.lasers@.len() ==> (#[trigger] new.lasers@[j]).id != ls[k].id
        &&& new.death_timer == count_down(
            if old.player.health > 0 && new.player.health == 0 {
                DEATH_DELAY as int
            } else {
                old.death_timer as int
            },
            dt,
        )
    }
}

/// An asteroid is destroyed in a frame exactly when its id is listed for
/// removal.
proof fn lemma_doomed_listed(
    g0: Game,
    d: int,
    keys: Controls,
    at: Ship,
    adv: Seq<Asteroid>,
    b: Seq<Asteroid>,
    st: Seq<Asteroid>,
    r1: Seq<u32>,
    r: Seq<u32>,
)
    requires
        adv == drifted(g0, d),
        b == bounced(g0, d),
        st == struck(g0, d, keys),
        at.position == steered(g0, d, keys).position,
        at.rotation == steered(g0, d, keys).rotation,
        adv.len() == g0.asteroids@.len(),
        st.len() == adv.len(),
        b.len() == adv.len(),
        forall|k: int| 0 <= k < adv.len() ==> (#[trigger] adv[k]).id == st[k].id && b[k].id == st[k].id,
        forall|i: int, j: int|
            0 <= i < adv.len() && 0 <= j < adv.len() && i != j ==> (#[trigger] adv[i]).id != (#[trigger] adv[j]).id,
        removal_justified(r1, 0, adv, at, g0.width as int, g0.height as int),
        forall|k: int|
            0 <= k < adv.len() && (off_arena(#[trigger] adv[k], g0.width as int, g0.height as int) || touches(
                at,
                adv[k],
            )) ==> r1.contains(adv[k].id),
        r1.len() <= r.len(),
        r.subrange(0, r1.len() as int) == r1,
        kills_justified(r, r1.len() as int, b, st),
        forall|k: int| 0 <= k < b.len() && b[k].health > 0 && (#[trigger] st[k]).health == 0 ==> r.contains(st[k].id),
    ensures
        forall|k: int| 0 <= k < adv.len() ==> (#[trigger] doomed(g0, d, keys, k)) == r.contains(st[k].id),
{
    let ship = steered(g0, d, keys);
    assert forall|k: int| 0 <= k < adv.len() implies (#[trigger] doomed(g0, d, keys, k)) == r.contains(st[k].id) by {
        let id = st[k].id;
        assert(touches(at, adv[k]) == touches(ship, adv[k]));
        if doomed(g0, d, keys, k) {
            if off_arena(adv[k], g0.width as int, g0.height as int) || touches(at, adv[k]) {
                assert(r1.contains(adv[k].id));
                let t = choose|t: int| 0 <= t < r1.len() && r1[t] == adv[k].id;
                assert(r.subrange(0, r1.len() as int)[t] == r[t]);
            }
        } else if r.contains(id) {
            let t = choose|t: int| 0 <= t < r.len() && r[t] == id;
            if t < r1.len() {
                assert(r.subrange(0, r1.len() as int)[t] == r[t]);
                assert(justified(r1[t], adv, at, g0.width as int, g0.height as int));
                let j = choose|j: int|
                    0 <= j < adv.len() && r1[t] == (#[trigger] adv[j]).id && (off_arena(
                        adv[j],
                        g0.width as int,
                        g0.height as int,
                    ) || touches(at, adv[j]));
                assert(touches(at, adv[j]) == touches(ship, adv[j]));
                assert(j == k);
            } else {
                assert(kill_justified(r[t], b, st));
                let j = choose|j: int|
                    0 <= j < st.len() && r[t] == (#[trigger] st[j]).id && b[j].health > 0 && st[j].health == 0;
                assert(adv[j].id == adv[k].id);
                assert(j == k);
            }
        }
    }
}

/// The field at the end of a frame keeps exactly the unlisted asteroids of
/// `st`, and no other asteroid bears a listed one's id.
proof fn lemma_field_after(
    st: Seq<Asteroid>,
    pruned: Seq<Asteroid>,
    gen: Seq<Asteroid>,
    born: Seq<Asteroid>,
    fin: Seq<Asteroid>,
    r: Seq<u32>,
    pcount: u32,
)
    requires
        fin == gen + born,
        pruned.len() <= gen.len(),
        gen.subrange(0, pruned.len() as int) == pruned,
        forall|j: int| pruned.len() <= j < gen.len() ==> (#[trigger] gen[j]).id > pcount,
        forall|k: int| 0 <= k < st.len() ==> (#[trigger] st[k]).id <= pcount,
        forall|j: int| 0 <= j < pruned.len() ==> !r.contains((#[trigger] pruned[j]).id),
        forall|k: int| 0 <= k < st.len() && !r.contains((#[trigger] st[k]).id) ==> pruned.contains(st[k]),
        forall|i: int, k: int| 0 <= i < born.len() && 0 <= k < st.len() ==> (#[trigger] st[k]).id < (#[trigger] born[i]).id,
    ensures
        forall|k: int|
            0 <= k < st.len() && r.contains((#[trigger] st[k]).id) ==> forall|j: int|
                0 <= j < fin.len() ==> (#[trigger] fin[j]).id != st[k].id,
        forall|k: int| 0 <= k < st.len() && !r.contains((#[trigger] st[k]).id) ==> fin.contains(st[k]),
{
    assert forall|k: int|
        0 <= k < st.len() && r.contains((#[trigger] st[k]).id) implies forall|j: int|
            0 <= j < fin.len() ==> (#[trigger] fin[j]).id != st[k].id by {
        assert forall|j: int| 0 <= j < fin.len() implies (#[trigger] fin[j]).id != st[k].id by {
            if j < pruned.len() {
                assert(fin[j] == gen[j]);
                assert(gen.subrange(0, pruned.len() as int)[j] == gen[j]);
            } else if j < gen.len() {
                assert(fin[j] == gen[j]);
            } else {
                assert(fin[j] == born[j - gen.len()]);
            }
        }
    }
    assert forall|k: int| 0 <= k < st.len() && !r.contains((#[trigger] st[k]).id) implies fin.contains(st[k]) by {
        let t = choose|t: int| 0 <= t < pruned.len() && pruned[t] == st[k];
        assert(gen.subrange(0, pruned.len() as int)[t] == gen[t]);
        assert(fin[t] == st[k]);
    }
}

/// A laser survives a frame exactly when it neither struck nor left the
/// arena.
proof fn lemma_lasers_after(
    ls: Seq<Laser>,
    field: Seq<Asteroid>,
    d: int,
    fl: Seq<Laser>,
    r: Seq<u32>,
    fin: Seq<Laser>,
    w: int,
    h: int,
)
    requires
        fl.len() == ls.len(),
        forall|k: int| 0 <= k < ls.len() ==> #[trigger] fl[k] == flown(ls[k], d),
        forall|i: int, j: int|
            0 <= i < ls.len() && 0 <= j < ls.len() && i != j ==> (#[trigger] ls[i]).id != (#[trigger] ls[j]).id,
        forall|k: int| 0 <= k < ls.len() && #[trigger] laser_struck(ls, field, d, k) ==> r.contains(ls[k].id),
        forall|k: int| 0 <= k < ls.len() && outside((#[trigger] fl[k]).position, w, h) ==> r.contains(ls[k].id),
        lasers_removal_justified(r, 0, ls, field, d, w, h),
        forall|j: int| 0 <= j < fin.len() ==> !r.contains((#[trigger] fin[j]).id),
        forall|k: int| 0 <= k < fl.len() && !r.contains((#[trigger] fl[k]).id) ==> fin.contains(fl[k]),
    ensures
        forall|k: int|
            0 <= k < ls.len() && !#[trigger] laser_struck(ls, field, d, k) && !outside(
                flown(ls[k], d).position,
                w,
                h,
            ) ==> fin.contains(flown(ls[k], d)),
        forall|k: int|
            0 <= k < ls.len() && (#[trigger] laser_struck(ls, field, d, k) || outside(
                flown(ls[k], d).position,
                w,
                h,
            )) ==> forall|j: int| 0 <= j < fin.len() ==> (#[trigger] fin[j]).id != ls[k].id,
{
    assert forall|k: int|
        0 <= k < ls.len() && !#[trigger] laser_struck(ls, field, d, k) && !outside(
            flown(ls[k], d).position,
            w,
            h,
        ) implies fin.contains(flown(ls[k], d)) by {
        assert(fl[k] == flown(ls[k], d));
        if r.contains(ls[k].id) {
            let t = choose|t: int| 0 <= t < r.len() && r[t] == ls[k].id;
            assert(laser_justified(r[t], ls, field, d, w, h));
            let j = choose|j: int|
                0 <= j < ls.len() && r[t] == (#[trigger] ls[j]).id && (laser_struck(ls, field, d, j) || outside(
                    flown(ls[j], d).position,
                    w,
                    h,
                ));
            assert(j == k);
        }
    }
    assert forall|k: int|
        0 <= k < ls.len() && (#[trigger] laser_struck(ls, field, d, k) || outside(
            flown(ls[k], d).position,
            w,
            h,
        )) implies forall|j: int| 0 <= j < fin.len() ==> (#[trigger] fin[j]).id != ls[k].id by {
        assert(fl[k] == flown(ls[k], d));
        assert(r.contains(ls[k].id));
    }
}

/// What the moving half of a frame makes of `old`: steering, firing, the
/// countdowns, drift, the ship's collisions, bounces and laser strikes.
pub open spec fn played(
    old: Game,
    new: Game,
    d: int,
    keys: Controls,
    ra: Seq<u32>,
    rl: Seq<u32>,
    born: Seq<Asteroid>,
) -> bool {
    let ship = steered(old, d, keys);
    let n = old.asteroids@.len();
    let ls = lasers_in_play(old, d, keys);
    &&& new.wf()
    &&& born_ok(born, new.asteroids@, new.asteroid_counter as int)
    &&& frame_fixed(old, new)
    &&& new.asteroid_counter >= old.asteroid_counter
    &&& new.laser_counter == old.laser_counter + (if fires(old, keys) {
        1int
    } else {
        0int
    })
    &&& new.laser_cooldown_remaining == count_down(
        if fires(old, keys) {
            old.laser_cooldown as int
        } else {
            old.laser_cooldown_remaining as int
        },
        d,
    )
    &&& new.player.position == ship.position
    &&& new.player.rotation == ship.rotation
    &&& new.player.velocity == ship.velocity
    &&& (ship_touched(old, d, keys) && grace_after(old) == 0 && old.player.health > 0
        ==> new.player.health == old.player.health - 1 && new.player.iframes == HIT_GRACE_FRAMES)
    &&& (!(ship_touched(old, d, keys) && grace_after(old) == 0 && old.player.health > 0)
        ==> new.player.health == old.player.health && new.player.iframes == grace_after(old))
    &&& new.death_timer == (if old.player.health > 0 && new.player.health == 0 {
        DEATH_DELAY as int
    } else {
        old.death_timer as int
    })
    &&& new.score == saturating(old.score + kill_count(bounced(old, d), struck(old, d, keys)))
    &&& new.asteroids@ == struck(old, d, keys)
    &&& new.asteroids@.len() == n
    &&& forall|k: int| 0 <= k < n ==> (#[trigger] new.asteroids@[k]).id == old.asteroids@[k].id
    &&& forall|k: int| 0 <= k < n ==> (#[trigger] doomed(old, d, keys, k)) == ra.contains(new.asteroids@[k].id)
    &&& new.lasers@.len() == ls.len()
    &&& forall|k: int| 0 <= k < ls.len() ==> #[trigger] new.lasers@[k] == flown(ls[k], d)
    &&& forall|k: int| 0 <= k < ls.len() && #[trigger] laser_struck(ls, bounced(old, d), d, k) ==> rl.contains(ls[k].id)
    &&& forall|k: int|
        0 <= k < ls.len() && outside((#[trigger] new.lasers@[k]).position, new.width as int, new.height as int)
            ==> rl.contains(ls[k].id)
    &&& lasers_removal_justified(rl, 0, ls, bounced(old, d), d, old.width as int, old.height as int)
    &&& forall|k: int|
        0 <= k < n && #[trigger] touches(ship, drifted(old, d)[k]) && drifted(old, d)[k].radius
            > SPLIT_THRESHOLD && new.asteroid_counter < u32::MAX - 1 ==> halves_in(born, drifted(old, d)[k])
    &&& forall|k: int|
        0 <= k < n && bounced(old, d)[k].health > 0 && (#[trigger] struck(old, d, keys)[k]).health == 0
            && struck(old, d, keys)[k].radius > SPLIT_THRESHOLD && new.asteroid_counter < u32::MAX - 1
            ==> halves_in(born, struck(old, d, keys)[k])
}

impl Game {
    /// The moving half of a frame: steer, fire, count down, drift, collide
    /// with the ship, bounce and strike, listing what is destroyed.
    #[verifier::rlimit(100)]
    #[verifier::spinoff_prover]
    pub fn play_frame(
        &mut self,
        dt: u16,
        keys: Controls,
        removed_asteroids: &mut Vec<u32>,
        removed_lasers: &mut Vec<u32>,
        born: &mut Vec<Asteroid>,
    )
        requires
            old(self).wf(),
            old(removed_asteroids)@.len() == 0,
            old(removed_lasers)@.len() == 0,
            old(born)@.len() == 0,
        ensures
            played(
                *old(self),
                *final(self),
                dt as int,
                keys,
                final(removed_asteroids)@,
                final(removed_lasers)@,
                final(born)@,
            ),
    {
        let ghost g0 = *self;
        let model: ControlModel = self.control;
        let w: i64 = self.width;
        let h: i64 = self.height;
        self.player.steer(dt, keys, model, w, h);
        self.fire_laser(keys);
        assert(self.lasers@ == lasers_in_play(g0, dt as int, keys));
        if self.laser_cooldown_remaining > 0 {
            self.laser_cooldown_remaining = self.laser_cooldown_remaining - dt as i64;
        }
        if self.player.iframes > 0 {
            self.player.iframes = self.player.iframes - 1;
        }
        let ghost c0 = *self;
        self.advance_asteroids(dt, removed_asteroids, born);
        let ghost g_adv = *self;
        let ghost removed_adv = removed_asteroids@;
        let ghost born_adv = born@;
        assert(self.asteroids@ =~= drifted(g0, dt as int));
        self.bounce_asteroids();
        assert(self.asteroids@ == bounced(g0, dt as int));
        assert(born_ok(born@, self.asteroids@, self.asteroid_counter as int)) by {
            assert forall|i: int, j: int|
                0 <= i < born@.len() && 0 <= j < self.asteroids@.len() implies (#[trigger] self.asteroids@[j]).id
                < (#[trigger] born@[i]).id by {
                assert(g_adv.asteroids@[j].id == self.asteroids@[j].id);
            }
        }
        let ghost g_b = *self;
        self.strike_asteroids(dt, removed_asteroids, removed_lasers, born);
        proof {
            let d = dt as int;
            let n = g0.asteroids@.len() as int;
            let ship = steered(g0, d, keys);
            assert(self.asteroids@ == struck(g0, d, keys));
            assert(c0.player.position == ship.position && c0.player.rotation == ship.rotation);
            assert forall|x: Asteroid| touches(c0.player, x) == touches(ship, x) by {
                assert(touches(c0.player, x) == touches(ship, x));
            }
            assert(ship_touched(g0, d, keys) == exists|k: int|
                0 <= k < g_adv.asteroids@.len() && touches(c0.player, #[trigger] g_adv.asteroids@[k])) by {
                if ship_touched(g0, d, keys) {
                    let k = choose|k: int| 0 <= k < g0.asteroids@.len() && #[trigger] touches(ship, drifted(g0, d)[k]);
                    assert(touches(c0.player, g_adv.asteroids@[k]));
                }
                if exists|k: int| 0 <= k < g_adv.asteroids@.len() && touches(c0.player, #[trigger] g_adv.asteroids@[k]) {
                    let k = choose|k: int| 0 <= k < g_adv.asteroids@.len() && touches(c0.player, #[trigger] g_adv.asteroids@[k]);
                    assert(touches(ship, drifted(g0, d)[k]));
                }
            }
            assert forall|k: int| 0 <= k < n implies (#[trigger] g_adv.asteroids@[k]).id == self.asteroids@[k].id
                && g_b.asteroids@[k].id == self.asteroids@[k].id && self.asteroids@[k].id == g0.asteroids@[k].id by {
                assert(only_damaged(g_b.asteroids@[k], self.asteroids@[k]));
                assert(g_adv.asteroids@[k] == advanced(g0.asteroids@[k], d));
            }
            lemma_doomed_listed(
                g0, d, keys, c0.player, g_adv.asteroids@, g_b.asteroids@, self.asteroids@, removed_adv,
                removed_asteroids@,
            );
            assert forall|k: int|
                0 <= k < n && #[trigger] touches(ship, drifted(g0, d)[k]) && drifted(g0, d)[k].radius
                    > SPLIT_THRESHOLD && self.asteroid_counter < u32::MAX - 1 implies halves_in(
                    born@,
                    drifted(g0, d)[k],
                ) by {
                assert(touches(c0.player, g_adv.asteroids@[k]));
                assert(halves_in(born_adv, g_adv.asteroids@[k]));
                lemma_halves_in_prefix(born_adv, born@, g_adv.asteroids@[k]);
            }
        }
    }

    /// The settling half of a frame: drop what was destroyed, refill the
    /// field, add the halves born this frame, age the sparks and count down
    /// the wreck's delay.
    pub fn settle_frame(&mut self, dt: u16, removed_asteroids: &Vec<u32>, removed_lasers: &Vec<u32>, born: Vec<Asteroid>)
        requires
            old(self).wf(),
            born_ok(born@, old(self).asteroids@, old(self).asteroid_counter as int),
        ensures
            final(self).wf(),
            frame_fixed(*old(self), *final(self)),
            final(self).player == old(self).player,
            final(self).score == old(self).score,
            final(self).laser_counter == old(self).laser_counter,
            final(self).laser_cooldown_remaining == old(self).laser_cooldown_remaining,
            final(self).asteroid_counter >= old(self).asteroid_counter,
            final(self).death_timer == count_down(old(self).death_timer as int, dt as int),
            forall|k: int|
                0 <= k < old(self).asteroids@.len() && removed_asteroids@.contains(
                    (#[trigger] old(self).asteroids@[k]).id,
                ) ==> forall|j: int|
                    0 <= j < final(self).asteroids@.len() ==> (#[trigger] final(self).asteroids@[j]).id
                        != old(self).asteroids@[k].id,
            forall|k: int|
                0 <= k < old(self).asteroids@.len() && !removed_asteroids@.contains(
                    (#[trigger] old(self).asteroids@[k]).id,
                ) ==> final(self).asteroids@.contains(old(self).asteroids@[k]),
            forall|p: Asteroid| halves_in(born@, p) ==> #[trigger] halves_in(final(self).asteroids@, p),
            forall|j: int|
                0 <= j < final(self).lasers@.len() ==> !removed_lasers@.contains(
                    (#[trigger] final(self).lasers@[j]).id,
                ),
            forall|k: int|
                0 <= k < old(self).lasers@.len() && !removed_lasers@.contains(
                    (#[trigger] old(self).lasers@[k]).id,
                ) ==> final(self).lasers@.contains(old(self).lasers@[k]),
    {
        let ghost g_s = *self;
        self.prune_asteroids(removed_asteroids);
        self.prune_lasers(removed_lasers);
        let ghost pruned = *self;
        self.generate_asteroids();
        let ghost g_gen = *self;
        proof {
            assert forall|i: int, j: int|
                0 <= i < born@.len() && 0 <= j < self.asteroids@.len() implies (#[trigger] born@[i]).id
                != (#[trigger] self.asteroids@[j]).id by {
                let n = pruned.asteroids@.len();
                if j < n {
                    assert(self.asteroids@.subrange(0, n as int)[j] == self.asteroids@[j]);
                    assert(g_s.asteroids@.contains(pruned.asteroids@[j]));
                    let t = choose|t: int| 0 <= t < g_s.asteroids@.len() && g_s.asteroids@[t] == pruned.asteroids@[j];
                    assert(g_s.asteroids@[t].id < born@[i].id);
                } else {
                    assert(self.asteroids@[j].id == pruned.asteroid_counter + (j - n) + 1);
                }
            }
        }
        let ghost born_v = born@;
        self.merge_born(born);
        self.update_particles(dt);
        if self.death_timer > 0 {
            self.death_timer = self.death_timer - dt as i64;
        }
        proof {
            assert forall|k: int| 0 <= k < g_s.asteroids@.len() implies (#[trigger] g_s.asteroids@[k]).id
                <= pruned.asteroid_counter by {}
            lemma_field_after(
                g_s.asteroids@, pruned.asteroids@, g_gen.asteroids@, born_v, self.asteroids@,
                removed_asteroids@, pruned.asteroid_counter,
            );
            assert forall|p: Asteroid| halves_in(born_v, p) implies #[trigger] halves_in(self.asteroids@, p) by {
                lemma_halves_in_suffix(born_v, g_gen.asteroids@, p);
            }
        }
    }

    /// Advance the session by one frame of `dt` milliseconds with `keys`
    /// held: steer, fire, count down, move and collide everything, remove
    /// the destroyed, refill the field and age the sparks. A game that has
    /// ended, lost or won, stays as it is.
    #[verifier::rlimit(100)]
    #[verifier::spinoff_prover]
    pub fn tick(&mut self, dt: u16, keys: Controls)
        requires
            old(self).wf(),
        ensures
            final(self).wf(),
            tick_result(*old(self), *final(self), dt as int, keys),
    {
        let status: Status = self.status();
        match status {
            Status::Playing => {},
            _ => {
                return;
            },
        }
        let ghost g0 = *self;
        let mut removed_asteroids: Vec<u32> = Vec::new();
        let mut removed_lasers: Vec<u32> = Vec::new();
        let mut born: Vec<Asteroid> = Vec::new();
        self.play_frame(dt, keys, &mut removed_asteroids, &mut removed_lasers, &mut born);
        let ghost g_p = *self;
        let ghost born_v = born@;
        self.settle_frame(dt, &removed_asteroids, &removed_lasers, born);
        proof {
            let d = dt as int;
            let n = g0.asteroids@.len() as int;
            let ls = lasers_in_play(g0, d, keys);
            let fin = *self;
            assert forall|k: int| 0 <= k < n && #[trigger] doomed(g0, d, keys, k) implies forall|j: int|
                0 <= j < fin.asteroids@.len() ==> (#[trigger] fin.asteroids@[j]).id != g0.asteroids@[k].id by {
                assert(removed_asteroids@.contains(g_p.asteroids@[k].id));
                assert(g_p.asteroids@[k].id == g0.asteroids@[k].id);
            }
            assert forall|k: int| 0 <= k < n && !#[trigger] doomed(g0, d, keys, k) implies fin.asteroids@.contains(
                struck(g0, d, keys)[k],
            ) by {
                assert(!removed_asteroids@.contains(g_p.asteroids@[k].id));
                assert(g_p.asteroids@[k] == struck(g0, d, keys)[k]);
            }
            assert forall|k: int|
                0 <= k < n && #[trigger] touches(steered(g0, d, keys), drifted(g0, d)[k]) && drifted(g0, d)[k].radius
                    > SPLIT_THRESHOLD && fin.asteroid_counter < u32::MAX - 1 implies halves_in(
                    fin.asteroids@,
                    drifted(g0, d)[k],
                ) by {
                assert(halves_in(born_v, drifted(g0, d)[k]));
            }
            assert forall|k: int|
                0 <= k < n && bounced(g0, d)[k].health > 0 && (#[trigger] struck(g0, d, keys)[k]).health
                    == 0 && struck(g0, d, keys)[k].radius > SPLIT_THRESHOLD && fin.asteroid_counter
                    < u32::MAX - 1 implies halves_in(fin.asteroids@, struck(g0, d, keys)[k]) by {
                assert(halves_in(born_v, struck(g0, d, keys)[k]));
            }
            assert(lasers_ok(g_p.lasers@, g_p.laser_counter));
            assert forall|i: int, j: int|
                0 <= i < ls.len() && 0 <= j < ls.len() && i != j implies (#[trigger] ls[i]).id != (#[trigger] ls[j]).id by {
                assert(g_p.lasers@[i] == flown(ls[i], d));
                assert(g_p.lasers@[j] == flown(ls[j], d));
            }
            lemma_lasers_after(
                ls, bounced(g0, d), d, g_p.lasers@, removed_lasers@, fin.lasers@, g0.width as int,
                g0.height as int,
            );
        }
    }
}

} // verus!
