//! Elastic bounces between asteroids.
use vstd::prelude::*;
use crate::asteroid::{limit_speed_spec, moved, Asteroid, MAX_SPEED};
use crate::geometry::{
    dist_sq, dist_sq_spec, lemma_dist_sq_symmetric, div_toward_zero, div_trunc, in_world,
    is_isqrt, isqrt, lemma_root_exists, world_add, Vec2, WORLD_LIMIT,
};

verus! {

/// How far beyond half their overlap two bouncing asteroids are each pushed
/// apart, in units.
pub const SEPARATION_GAP: i64 = 1000;

/// One of the two asteroids names the other as its exempt sibling.
pub open spec fn exempt(a: Asteroid, b: Asteroid) -> bool {
    a.ignore_collision_with == Some(b.id) || b.ignore_collision_with == Some(a.id)
}

/// The distance at which two asteroids touch.
pub open spec fn reach(a: Asteroid, b: Asteroid) -> int {
    a.radius + b.radius
}

pub open spec fn gap_sq(a: Asteroid, b: Asteroid) -> int {
    dist_sq_spec(a.position, b.position)
}

pub open spec fn overlapping(a: Asteroid, b: Asteroid) -> bool {
    gap_sq(a, b) < reach(a, b) * reach(a, b)
}

/// The relative velocity of `b` seen from `a`, dotted with the offset from
/// `a` to `b`: negative while they approach each other.
pub open spec fn closing(a: Asteroid, b: Asteroid) -> int {
    (b.velocity.x - a.velocity.x) * (b.position.x - a.position.x) + (b.velocity.y
        - a.velocity.y) * (b.position.y - a.position.y)
}

/// Mass, taken as the area up to a constant factor.
pub open spec fn mass(a: Asteroid) -> int {
    a.radius * a.radius
}

/// Two asteroids bounce when they overlap at distinct centres, approach each
/// other, and neither is the other's exempt sibling.
pub open spec fn bounces(a: Asteroid, b: Asteroid) -> bool {
    &&& !exempt(a, b)
    &&& 0 < gap_sq(a, b)
    &&& overlapping(a, b)
    &&& closing(a, b) < 0
}

/// The integer square root of `n`.
pub open spec fn root(n: int) -> int {
    choose|r: int| #[trigger] is_isqrt(n, r)
}

/// The velocity change, on an axis where the offset is `dc`, of an asteroid
/// bouncing off one of mass `other`: `2 * other * closing * dc / (total * gap_sq)`.
pub open spec fn impulse(other: int, total: int, vn: int, dc: int, ds: int) -> int {
    div_trunc(2 * other * vn * dc, total * ds)
}

/// How far each asteroid moves, on an axis where the offset is `dc`, to clear
/// a distance of `s` along an offset of length `l`: `dc * s / l`, rounded away
/// from zero.
pub open spec fn shift(dc: int, s: int, l: int) -> int {
    if dc >= 0 {
        (dc * s + l - 1) / l
    } else {
        -(((-dc) * s + l - 1) / l)
    }
}

/// How far each of two bouncing asteroids moves along their offset.
pub open spec fn push_apart(a: Asteroid, b: Asteroid) -> int {
    (reach(a, b) - root(gap_sq(a, b))) / 2 + SEPARATION_GAP
}

/// `a` with its exemption cleared when it names `b` and the two have drawn
/// apart.
pub open spec fn released(a: Asteroid, b: Asteroid) -> Asteroid {
    if a.ignore_collision_with == Some(b.id) && !overlapping(a, b) {
        Asteroid { ignore_collision_with: None, ..a }
    } else {
        a
    }
}

/// The pair after one bounce test: exemptions between separated siblings
/// are cleared; a bouncing pair exchanges momentum along the line between
/// the centres (masses as areas) and is pushed apart past touching.
pub open spec fn resolve_spec(a: Asteroid, b: Asteroid) -> (Asteroid, Asteroid) {
    if bounces(a, b) {
        let dx = b.position.x - a.position.x;
        let dy = b.position.y - a.position.y;
        let ds = gap_sq(a, b);
        let vn = closing(a, b);
        let total = mass(a) + mass(b);
        let l = root(ds);
        let s = push_apart(a, b);
        (
            Asteroid {
                velocity: Vec2 {
                    x: limit_speed_spec(a.velocity.x + impulse(mass(b), total, vn, dx, ds)) as i64,
                    y: limit_speed_spec(a.velocity.y + impulse(mass(b), total, vn, dy, ds)) as i64,
                },
                position: Vec2 {
                    x: moved(a.position.x as int, -shift(dx, s, l)) as i64,
                    y: moved(a.position.y as int, -shift(dy, s, l)) as i64,
                },
                ..a
            },
            Asteroid {
                velocity: Vec2 {
                    x: limit_speed_spec(b.velocity.x - impulse(mass(a), total, vn, dx, ds)) as i64,
                    y: limit_speed_spec(b.velocity.y - impulse(mass(a), total, vn, dy, ds)) as i64,
                },
                position: Vec2 {
                    x: moved(b.position.x as int, shift(dx, s, l)) as i64,
                    y: moved(b.position.y as int, shift(dy, s, l)) as i64,
                },
                ..b
            },
        )
    } else {
        (released(a, b), released(b, a))
    }
}

/// `root` is the integer square root.
pub proof fn lemma_root_unique(n: int, r: int)
    requires
        is_isqrt(n, r),
    ensures
        root(n) == r,
{
    let q = root(n);
    assert(is_isqrt(n, q));
    if q < r {
        assert((q + 1) * (q + 1) <= r * r) by (nonlinear_arith)
            requires
                0 <= q < r,
        ;
    } else if q > r {
        assert((r + 1) * (r + 1) <= q * q) by (nonlinear_arith)
            requires
                0 <= r < q,
        ;
    }
}

/// A component of an offset is no longer than the offset's integer root.
proof fn lemma_component_within_root(dc: int, other: int, l: int)
    requires
        l >= 0,
        dc * dc + other * other < (l + 1) * (l + 1),
    ensures
        -l <= dc <= l,
{
    assert(other * other >= 0) by (nonlinear_arith);
    if dc > l {
        assert(dc * dc >= (l + 1) * (l + 1)) by (nonlinear_arith)
            requires
                dc >= l + 1,
                l >= 0,
        ;
    } else if dc < -l {
        assert(dc * dc >= (l + 1) * (l + 1)) by (nonlinear_arith)
            requires
                -dc >= l + 1,
                l >= 0,
        ;
    }
}

/// A velocity component held to the speed limit.
fn limit_speed_wide(v: i128) -> (r: i64)
    ensures
        r == limit_speed_spec(v as int),
{
    if v < -(MAX_SPEED as i128) {
        -MAX_SPEED
    } else if v > MAX_SPEED as i128 {
        MAX_SPEED
    } else {
        v as i64
    }
}

/// The shift of `shift` on one axis, with `|dc| <= l`.
fn shift_exec(dc: i64, s: i64, l: i64) -> (r: i64)
    requires
        1 <= l <= 0x4_0000,
        0 <= s <= 0x4_0000,
        -l <= dc <= l,
    ensures
        r == shift(dc as int, s as int, l as int),
        -s <= r <= s,
{
    let m: i64 = if dc >= 0 {
        dc
    } else {
        -dc
    };
    assert(0 <= m * s <= l * s) by (nonlinear_arith)
        requires
            0 <= m <= l,
            0 <= s,
    ;
    assert(l * s <= 0x10_0000_0000) by (nonlinear_arith)
        requires
            1 <= l <= 0x4_0000,
            0 <= s <= 0x4_0000,
    ;
    let q: i64 = (m * s + l - 1) / l;
    assert(q <= s) by (nonlinear_arith)
        requires
            q == (m * s + l - 1) / (l as int),
            0 <= m * s <= l * s,
            l >= 1,
            s >= 0,
    ;
    assert(q >= 0) by (nonlinear_arith)
        requires
            q == (m * s + l - 1) / (l as int),
            0 <= m * s,
            l >= 1,
    ;
    if dc >= 0 {
        q
    } else {
        -q
    }
}

/// Test one pair of asteroids for a bounce and resolve it; the flag tells
/// whether they bounced.
pub fn resolve_pair(a: Asteroid, b: Asteroid) -> (r: (Asteroid, Asteroid, bool))
    requires
        a.wf(),
        b.wf(),
    ensures
        r.0.wf(),
        r.1.wf(),
        (r.0, r.1) == resolve_spec(a, b),
        r.2 == bounces(a, b),
        r.0.id == a.id && r.0.health == a.health && r.0.radius == a.radius,
        r.1.id == b.id && r.1.health == b.health && r.1.radius == b.radius,
{
    let ds: u64 = dist_sq(&a.position, &b.position);
    let reach_ab: i64 = a.radius + b.radius;
    assert(0 < reach_ab * reach_ab <= 0x10_0000_0000) by (nonlinear_arith)
        requires
            0 < reach_ab <= 0x4_0000,
    ;
    let reach_sq: u64 = (reach_ab * reach_ab) as u64;
    let ignore_ab: bool = match a.ignore_collision_with {
        Some(i) => i == b.id,
        None => false,
    };
    let ignore_ba: bool = match b.ignore_collision_with {
        Some(i) => i == a.id,
        None => false,
    };
    let is_exempt: bool = ignore_ab || ignore_ba;
    if is_exempt || ds == 0 || ds >= reach_sq {
        let mut a1: Asteroid = a;
        let mut b1: Asteroid = b;
        if ds >= reach_sq {
            if ignore_ab {
                a1.ignore_collision_with = None;
            }
            if ignore_ba {
                b1.ignore_collision_with = None;
            }
        }
        proof {
            lemma_dist_sq_symmetric(a.position, b.position);
        }
        return (a1, b1, false);
    }
    let dx: i64 = b.position.x - a.position.x;
    let dy: i64 = b.position.y - a.position.y;
    let l: u64 = isqrt(ds);
    proof {
        lemma_root_unique(ds as int, l as int);
        assert(l * l <= ds);
        assert(l < reach_ab) by (nonlinear_arith)
            requires
                l * l <= ds,
                ds < reach_ab * reach_ab,
                reach_ab > 0,
        ;
        assert(l >= 1) by (nonlinear_arith)
            requires
                ds >= 1,
                ds < (l + 1) * (l + 1),
        ;
        lemma_component_within_root(dx as int, dy as int, l as int);
        lemma_component_within_root(dy as int, dx as int, l as int);
    }
    let rvx: i64 = b.velocity.x - a.velocity.x;
    let rvy: i64 = b.velocity.y - a.velocity.y;
    assert(-0x400_0000_0000 <= rvx * dx <= 0x400_0000_0000) by (nonlinear_arith)
        requires
            -0x100_0000 <= rvx <= 0x100_0000,
            -0x4_0000 <= dx <= 0x4_0000,
    ;
    assert(-0x400_0000_0000 <= rvy * dy <= 0x400_0000_0000) by (nonlinear_arith)
        requires
            -0x100_0000 <= rvy <= 0x100_0000,
            -0x4_0000 <= dy <= 0x4_0000,
    ;
    let vn: i64 = rvx * dx + rvy * dy;
    if vn >= 0 {
        return (a, b, false);
    }
    assert(0 < a.radius * a.radius <= 0x4_0000_0000 && 0 < b.radius * b.radius <= 0x4_0000_0000)
        by (nonlinear_arith)
        requires
            0 < a.radius <= 0x2_0000,
            0 < b.radius <= 0x2_0000,
    ;
    let ma: i128 = (a.radius as i128) * (a.radius as i128);
    let mb: i128 = (b.radius as i128) * (b.radius as i128);
    let total: i128 = ma + mb;
    assert(0 < total * ds <= 0x8_0000_0000 * 0x10_0000_0000) by (nonlinear_arith)
        requires
            0 < total <= 0x8_0000_0000,
            0 < ds <= 0x10_0000_0000,
    ;
    let den: i128 = total * ds as i128;
    assert(-0x1_0000_0000_0000_0000_0000_0000 <= 2 * mb * vn * dx <= 0x1_0000_0000_0000_0000_0000_0000)
        by (nonlinear_arith)
        requires
            0 < mb <= 0x4_0000_0000,
            -0x800_0000_0000 <= vn <= 0x800_0000_0000,
            -0x4_0000 <= dx <= 0x4_0000,
    ;
    assert(-0x1_0000_0000_0000_0000_0000_0000 <= 2 * mb * vn * dy <= 0x1_0000_0000_0000_0000_0000_0000)
        by (nonlinear_arith)
        requires
            0 < mb <= 0x4_0000_0000,
            -0x800_0000_0000 <= vn <= 0x800_0000_0000,
            -0x4_0000 <= dy <= 0x4_0000,
    ;
    assert(-0x1_0000_0000_0000_0000_0000_0000 <= 2 * ma * vn * dx <= 0x1_0000_0000_0000_0000_0000_0000)
        by (nonlinear_arith)
        requires
            0 < ma <= 0x4_0000_0000,
            -0x800_0000_0000 <= vn <= 0x800_0000_0000,
            -0x4_0000 <= dx <= 0x4_0000,
    ;
    assert(-0x1_0000_0000_0000_0000_0000_0000 <= 2 * ma * vn * dy <= 0x1_0000_0000_0000_0000_0000_0000)
        by (nonlinear_arith)
        requires
            0 < ma <= 0x4_0000_0000,
            -0x800_0000_0000 <= vn <= 0x800_0000_0000,
            -0x4_0000 <= dy <= 0x4_0000,
    ;
    assert(-0x1_0000_0000_0000_0000_0000 <= 2 * mb * vn <= 0x1_0000_0000_0000_0000_0000)
        by (nonlinear_arith)
        requires
            0 < mb <= 0x4_0000_0000,
            -0x800_0000_0000 <= vn <= 0x800_0000_0000,
    ;
    assert(-0x1_0000_0000_0000_0000_0000 <= 2 * ma * vn <= 0x1_0000_0000_0000_0000_0000)
        by (nonlinear_arith)
        requires
            0 < ma <= 0x4_0000_0000,
            -0x800_0000_0000 <= vn <= 0x800_0000_0000,
    ;
    let vn_w: i128 = vn as i128;
    let ia_x: i128 = div_toward_zero(2 * mb * vn_w * dx as i128, den);
    let ia_y: i128 = div_toward_zero(2 * mb * vn_w * dy as i128, den);
    let ib_x: i128 = div_toward_zero(2 * ma * vn_w * dx as i128, den);
    let ib_y: i128 = div_toward_zero(2 * ma * vn_w * dy as i128, den);
    let s: i64 = (reach_ab - l as i64) / 2 + SEPARATION_GAP;
    let sx: i64 = shift_exec(dx, s, l as i64);
    let sy: i64 = shift_exec(dy, s, l as i64);
    let a2: Asteroid = Asteroid {
        velocity: Vec2 {
            x: limit_speed_wide(a.velocity.x as i128 + ia_x),
            y: limit_speed_wide(a.velocity.y as i128 + ia_y),
        },
        position: Vec2 { x: world_add(a.position.x, -sx), y: world_add(a.position.y, -sy) },
        ..a
    };
    let b2: Asteroid = Asteroid {
        velocity: Vec2 {
            x: limit_speed_wide(b.velocity.x as i128 - ib_x),
            y: limit_speed_wide(b.velocity.y as i128 - ib_y),
        },
        position: Vec2 { x: world_add(b.position.x, sx), y: world_add(b.position.y, sy) },
        ..b
    };
    (a2, b2, true)
}

proof fn lemma_div_exact(q: int, den: int)
    requires
        den > 0,
    ensures
        div_trunc(q * den, den) == q,
{
    if q >= 0 {
        assert((q * den) / den == q) by (nonlinear_arith)
            requires
                den > 0,
                q >= 0,
        ;
        assert(q * den >= 0) by (nonlinear_arith)
            requires
                den > 0,
                q >= 0,
        ;
    } else {
        assert(((-q) * den) / den == -q) by (nonlinear_arith)
            requires
                den > 0,
                q < 0,
        ;
        assert(q * den < 0 && -(q * den) == (-q) * den) by (nonlinear_arith)
            requires
                den > 0,
                q < 0,
        ;
    }
}

/// Rounding away from zero makes the shift at least its exact share:
/// `|shift| * l >= |dc| * s`, on the side of `dc`.
proof fn lemma_shift_covers(dc: int, s: int, l: int)
    requires
        l >= 1,
        s >= 0,
    ensures
        dc >= 0 ==> shift(dc, s, l) >= 0 && shift(dc, s, l) * l >= dc * s,
        dc < 0 ==> shift(dc, s, l) <= 0 && (-shift(dc, s, l)) * l >= (-dc) * s,
{
    let u = if dc >= 0 {
        dc
    } else {
        -dc
    };
    let q = (u * s + l - 1) / l;
    assert(q >= 0 && q * l >= u * s) by (nonlinear_arith)
        requires
            u >= 0,
            s >= 0,
            l >= 1,
            q == (u * s + l - 1) / l,
    ;
}

/// Moving each of two points outward by at least its share of `s` along
/// their offset `(u, v)` (as magnitudes) spreads them to `l + 2 * s`.
proof fn lemma_spread(u: int, v: int, p: int, q: int, s: int, l: int)
    requires
        u >= 0,
        v >= 0,
        p >= 0,
        q >= 0,
        s >= 0,
        l >= 1,
        p * l >= u * s,
        q * l >= v * s,
        l * l <= u * u + v * v,
    ensures
        (u + 2 * p) * (u + 2 * p) + (v + 2 * q) * (v + 2 * q) >= (l + 2 * s) * (l + 2 * s),
{
    let eu = u + 2 * p;
    let ev = v + 2 * q;
    let t = l + 2 * s;
    assert(eu * l >= u * t) by (nonlinear_arith)
        requires
            eu == u + 2 * p,
            t == l + 2 * s,
            p * l >= u * s,
    ;
    assert(ev * l >= v * t) by (nonlinear_arith)
        requires
            ev == v + 2 * q,
            t == l + 2 * s,
            q * l >= v * s,
    ;
    assert((eu * l) * (eu * l) >= (u * t) * (u * t)) by (nonlinear_arith)
        requires
            eu * l >= u * t,
            u * t >= 0,
    ;
    assert((ev * l) * (ev * l) >= (v * t) * (v * t)) by (nonlinear_arith)
        requires
            ev * l >= v * t,
            v * t >= 0,
    ;
    assert(u * t >= 0 && v * t >= 0) by (nonlinear_arith)
        requires
            u >= 0,
            v >= 0,
            t >= 1,
    ;
    assert((eu * l) * (eu * l) == (eu * eu) * (l * l)) by (nonlinear_arith);
    assert((ev * l) * (ev * l) == (ev * ev) * (l * l)) by (nonlinear_arith);
    assert((u * t) * (u * t) == (u * u) * (t * t)) by (nonlinear_arith);
    assert((v * t) * (v * t) == (v * v) * (t * t)) by (nonlinear_arith);
    assert((eu * eu + ev * ev) * (l * l) == (eu * eu) * (l * l) + (ev * ev) * (l * l))
        by (nonlinear_arith);
    assert((u * u + v * v) * (t * t) == (u * u) * (t * t) + (v * v) * (t * t)) by (nonlinear_arith);
    assert((u * u + v * v) * (t * t) >= (l * l) * (t * t)) by (nonlinear_arith)
        requires
            l * l <= u * u + v * v,
    ;
    assert(eu * eu + ev * ev >= t * t) by (nonlinear_arith)
        requires
            (eu * eu + ev * ev) * (l * l) >= (l * l) * (t * t),
            l >= 1,
    ;
}

/// Two asteroids of one size that meet head-on, with equal and opposite
/// velocities along the line between their centres, exchange velocities and
/// come out of the bounce no longer overlapping.
pub proof fn lemma_head_on_bounce(a: Asteroid, b: Asteroid)
    requires
        a.wf(),
        b.wf(),
        a.radius == b.radius,
        a.velocity.x == -b.velocity.x,
        a.velocity.y == -b.velocity.y,
        a.velocity.x * (b.position.y - a.position.y) == a.velocity.y * (b.position.x
            - a.position.x),
        bounces(a, b),
        -WORLD_LIMIT / 2 <= a.position.x <= WORLD_LIMIT / 2,
        -WORLD_LIMIT / 2 <= a.position.y <= WORLD_LIMIT / 2,
        -WORLD_LIMIT / 2 <= b.position.x <= WORLD_LIMIT / 2,
        -WORLD_LIMIT / 2 <= b.position.y <= WORLD_LIMIT / 2,
    ensures
        resolve_spec(a, b).0.velocity == b.velocity,
        resolve_spec(a, b).1.velocity == a.velocity,
        !overlapping(resolve_spec(a, b).0, resolve_spec(a, b).1),
{
    let dx = b.position.x - a.position.x;
    let dy = b.position.y - a.position.y;
    let ds = gap_sq(a, b);
    let vx = a.velocity.x as int;
    let vy = a.velocity.y as int;
    let m = mass(a);
    let vn = closing(a, b);
    let den = (m + m) * ds;
    assert(m > 0) by (nonlinear_arith)
        requires
            m == a.radius * a.radius,
            a.radius > 0,
    ;
    assert(den > 0) by (nonlinear_arith)
        requires
            den == (m + m) * ds,
            m > 0,
            ds > 0,
    ;
    assert(vn == -2 * (vx * dx + vy * dy)) by (nonlinear_arith)
        requires
            vn == (b.velocity.x - a.velocity.x) * dx + (b.velocity.y - a.velocity.y) * dy,
            b.velocity.x == -vx,
            b.velocity.y == -vy,
            a.velocity.x == vx,
            a.velocity.y == vy,
    ;
    assert(vy * dx * dy == vx * dy * dy) by (nonlinear_arith)
        requires
            vx * dy == vy * dx,
    ;
    assert(vx * dx * dy == vy * dx * dx) by (nonlinear_arith)
        requires
            vx * dy == vy * dx,
    ;
    assert(ds == dx * dx + dy * dy);
    assert(vn * dx == -2 * (vx * dx * dx + vy * dx * dy)) by (nonlinear_arith)
        requires
            vn == -2 * (vx * dx + vy * dy),
    ;
    assert(vn * dy == -2 * (vx * dx * dy + vy * dy * dy)) by (nonlinear_arith)
        requires
            vn == -2 * (vx * dx + vy * dy),
    ;
    assert(vx * dx * dx + vx * dy * dy == vx * ds) by (nonlinear_arith)
        requires
            ds == dx * dx + dy * dy,
    ;
    assert(vy * dx * dx + vy * dy * dy == vy * ds) by (nonlinear_arith)
        requires
            ds == dx * dx + dy * dy,
    ;
    assert(2 * m * vn * dx == (-2 * vx) * den) by (nonlinear_arith)
        requires
            vn * dx == -2 * (vx * ds),
            den == (m + m) * ds,
    ;
    assert(2 * m * vn * dy == (-2 * vy) * den) by (nonlinear_arith)
        requires
            vn * dy == -2 * (vy * ds),
            den == (m + m) * ds,
    ;
    lemma_div_exact(-2 * vx, den);
    lemma_div_exact(-2 * vy, den);
    assert(impulse(m, m + m, vn, dx, ds) == -2 * vx);
    assert(impulse(m, m + m, vn, dy, ds) == -2 * vy);

    // Separation.
    let l = root(ds);
    let r = reach(a, b);
    let s = push_apart(a, b);
    lemma_dist_sq_symmetric(a.position, b.position);
    lemma_root_exists(ds as nat);
    assert(is_isqrt(ds, l));
    assert(l < r) by (nonlinear_arith)
        requires
            l * l <= ds,
            ds < r * r,
            r > 0,
            l >= 0,
    ;
    assert(l >= 1) by (nonlinear_arith)
        requires
            ds >= 1,
            l >= 0,
            ds < (l + 1) * (l + 1),
    ;
    lemma_component_within_root(dx, dy, l);
    lemma_component_within_root(dy, dx, l);
    let sx = shift(dx, s, l);
    let sy = shift(dy, s, l);
    lemma_shift_covers(dx, s, l);
    lemma_shift_covers(dy, s, l);
    assert(-s <= sx <= s && -s <= sy <= s) by (nonlinear_arith)
        requires
            -l <= dx <= l,
            -l <= dy <= l,
            l >= 1,
            s >= 0,
            sx == shift(dx, s, l),
            sy == shift(dy, s, l),
            dx >= 0 ==> sx >= 0 && sx == (dx * s + l - 1) / l,
            dx < 0 ==> sx == -(((-dx) * s + l - 1) / l),
            dy >= 0 ==> sy == (dy * s + l - 1) / l,
            dy < 0 ==> sy == -(((-dy) * s + l - 1) / l),
    ;
    let (a2, b2) = resolve_spec(a, b);
    assert(b2.position.x - a2.position.x == dx + 2 * sx);
    assert(b2.position.y - a2.position.y == dy + 2 * sy);
    let u = if dx >= 0 {
        dx
    } else {
        -dx
    };
    let v = if dy >= 0 {
        dy
    } else {
        -dy
    };
    let p = if dx >= 0 {
        sx
    } else {
        -sx
    };
    let q = if dy >= 0 {
        sy
    } else {
        -sy
    };
    assert(u * u == dx * dx && v * v == dy * dy) by (nonlinear_arith)
        requires
            u == dx || u == -dx,
            v == dy || v == -dy,
    ;
    lemma_spread(u, v, p, q, s, l);
    assert((dx + 2 * sx) * (dx + 2 * sx) == (u + 2 * p) * (u + 2 * p)) by (nonlinear_arith)
        requires
            (u == dx && p == sx) || (u == -dx && p == -sx),
    ;
    assert((dy + 2 * sy) * (dy + 2 * sy) == (v + 2 * q) * (v + 2 * q)) by (nonlinear_arith)
        requires
            (v == dy && q == sy) || (v == -dy && q == -sy),
    ;
    assert((l + 2 * s) * (l + 2 * s) >= r * r) by (nonlinear_arith)
        requires
            l + 2 * s >= r,
            r > 0,
    ;
}

/// Two split siblings that have drawn apart past touching lose their
/// exemption on both sides, and do not bounce.
pub proof fn lemma_separated_siblings_released(a: Asteroid, b: Asteroid)
    requires
        a.ignore_collision_with == Some(b.id),
        b.ignore_collision_with == Some(a.id),
        !overlapping(a, b),
    ensures
        resolve_spec(a, b).0.ignore_collision_with.is_none(),
        resolve_spec(a, b).1.ignore_collision_with.is_none(),
        resolve_spec(a, b).0.velocity == a.velocity,
        resolve_spec(a, b).1.velocity == b.velocity,
{
    lemma_dist_sq_symmetric(a.position, b.position);
}

/// Where two asteroids meet: the centre of `a` moved by its radius toward
/// the centre of `b`, or the centre of `a` if they coincide.
pub open spec fn contact_spec(a: Asteroid, b: Asteroid) -> Vec2 {
    let ds = gap_sq(a, b);
    let l = root(ds);
    if ds == 0 {
        a.position
    } else {
        Vec2 {
            x: moved(a.position.x as int, div_trunc((b.position.x - a.position.x) * a.radius, l)) as i64,
            y: moved(a.position.y as int, div_trunc((b.position.y - a.position.y) * a.radius, l)) as i64,
        }
    }
}

/// Where two asteroids meet.
pub fn contact_point(a: &Asteroid, b: &Asteroid) -> (r: Vec2)
    requires
        a.wf(),
        b.wf(),
    ensures
        r == contact_spec(*a, *b),
        in_world(r),
{
    let ds: u64 = dist_sq(&a.position, &b.position);
    if ds == 0 {
        return a.position;
    }
    let l: u64 = isqrt(ds);
    let dx: i64 = b.position.x - a.position.x;
    let dy: i64 = b.position.y - a.position.y;
    proof {
        lemma_root_unique(ds as int, l as int);
        assert(l >= 1) by (nonlinear_arith)
            requires
                ds >= 1,
                l >= 0,
                ds < (l + 1) * (l + 1),
        ;
        lemma_component_within_root(dx as int, dy as int, l as int);
        lemma_component_within_root(dy as int, dx as int, l as int);
    }
    let r: i64 = a.radius;
    assert(-(l as int) * r <= dx * r <= l * r && -(l as int) * r <= dy * r <= l * r) by (nonlinear_arith)
        requires
            -(l as int) <= dx <= l,
            -(l as int) <= dy <= l,
            r > 0,
    ;
    assert(-0x8000_0000 * 0x2_0000 <= dx * r <= 0x8000_0000 * 0x2_0000 && -0x8000_0000 * 0x2_0000 <= dy * r
        <= 0x8000_0000 * 0x2_0000) by (nonlinear_arith)
        requires
            -0x8000_0000 <= dx <= 0x8000_0000,
            -0x8000_0000 <= dy <= 0x8000_0000,
            0 < r <= 0x2_0000,
    ;
    let ox: i128 = div_toward_zero((dx as i128) * (r as i128), l as i128);
    let oy: i128 = div_toward_zero((dy as i128) * (r as i128), l as i128);
    assert(-r <= ox <= r && -r <= oy <= r) by (nonlinear_arith)
        requires
            ox == div_trunc(dx * r, l as int),
            oy == div_trunc(dy * r, l as int),
            -(l as int) * r <= dx * r <= l * r,
            -(l as int) * r <= dy * r <= l * r,
            l >= 1,
    ;
    Vec2 { x: world_add(a.position.x, ox as i64), y: world_add(a.position.y, oy as i64) }
}

} // verus!
