//! Fixed-point plane geometry.
//!
//! Lengths are counted in sub-pixel units (`SUBPIXELS` to a pixel), times in
//! milliseconds and angles in millidegrees. Every point of the simulation stays
//! inside the square of half-width `WORLD_LIMIT`, so that squared distances fit
//! in a `u64`.
use vstd::prelude::*;

verus! {

/// Sub-pixel units in one pixel.
pub const SUBPIXELS: i64 = 1000;

/// Half-width of the square that every simulated point stays in.
pub const WORLD_LIMIT: i64 = 0x4000_0000;

/// Millidegrees in a full turn.
pub const FULL_TURN: i64 = 360_000;

/// Millidegrees in a half turn.
pub const HALF_TURN: i64 = 180_000;

/// The fixed-point value of 1 for sines and cosines.
pub const TRIG_ONE: i64 = 10_000;

/// A point or a vector of the plane, in sub-pixel units.
#[derive(Clone, Copy, Debug, PartialEq, Eq, Structural)]
pub struct Vec2 {
    pub x: i64,
    pub y: i64,
}

pub open spec fn in_world(v: Vec2) -> bool {
    -WORLD_LIMIT <= v.x <= WORLD_LIMIT && -WORLD_LIMIT <= v.y <= WORLD_LIMIT
}

/// The square of the Euclidean distance between two points.
pub open spec fn dist_sq_spec(a: Vec2, b: Vec2) -> int {
    (b.x - a.x) * (b.x - a.x) + (b.y - a.y) * (b.y - a.y)
}

pub proof fn lemma_dist_sq_symmetric(a: Vec2, b: Vec2)
    ensures
        dist_sq_spec(a, b) == dist_sq_spec(b, a),
        dist_sq_spec(a, b) >= 0,
{
    assert(dist_sq_spec(a, b) == dist_sq_spec(b, a) && dist_sq_spec(a, b) >= 0) by (nonlinear_arith);
}

/// Division that rounds toward zero, as Rust's `/` does on signed integers.
pub open spec fn div_trunc(a: int, b: int) -> int {
    if a >= 0 {
        a / b
    } else {
        -((-a) / b)
    }
}

/// `v` held inside `[lo, hi]`.
pub open spec fn clamp_spec(v: int, lo: int, hi: int) -> int {
    if v < lo {
        lo
    } else if v > hi {
        hi
    } else {
        v
    }
}

/// An angle brought into `[0, FULL_TURN)`.
pub open spec fn wrap_angle_spec(a: int) -> int {
    a % (FULL_TURN as int)
}

/// Bhaskara's rational approximation of the sine on a half turn, scaled by
/// `TRIG_ONE`: exact at 0, 30, 90, 150 and 180 degrees.
pub open spec fn half_sine(a: int) -> int {
    let p = a * (HALF_TURN - a);
    (TRIG_ONE * 4 * p) / (40_500_000_000 - p)
}

/// The sine of an angle in `[0, FULL_TURN)`, scaled by `TRIG_ONE`.
pub open spec fn sine_spec(a: int) -> int {
    if a < HALF_TURN {
        half_sine(a)
    } else {
        -half_sine(a - HALF_TURN)
    }
}

/// The cosine of an angle in `[0, FULL_TURN)`, scaled by `TRIG_ONE`.
pub open spec fn cosine_spec(a: int) -> int {
    sine_spec(wrap_angle_spec(a + 90_000))
}

/// The vector `v` turned by the angle whose cosine and sine are `c` and `s`
/// (fixed-point), each component rounded toward zero.
pub open spec fn rotate_spec(v: Vec2, c: int, s: int) -> (int, int) {
    (div_trunc(v.x * c - v.y * s, TRIG_ONE as int), div_trunc(v.x * s + v.y * c, TRIG_ONE as int))
}

/// Integer square root: the largest `r` with `r * r <= n`.
pub open spec fn is_isqrt(n: int, r: int) -> bool {
    0 <= r && r * r <= n < (r + 1) * (r + 1)
}

/// Every natural number has an integer square root.
pub proof fn lemma_root_exists(n: nat)
    ensures
        exists|r: int| is_isqrt(n as int, r),
    decreases n,
{
    if n == 0 {
        assert(is_isqrt(0, 0));
    } else {
        lemma_root_exists((n - 1) as nat);
        let r = choose|r: int| #[trigger] is_isqrt(n - 1, r);
        if (r + 1) * (r + 1) <= n {
            assert(n < (r + 2) * (r + 2)) by (nonlinear_arith)
                requires
                    n - 1 < (r + 1) * (r + 1),
                    r >= 0,
            ;
            assert(is_isqrt(n as int, r + 1));
        } else {
            assert(is_isqrt(n as int, r));
        }
    }
}

/// The square of the distance between two points of the world.
pub fn dist_sq(a: &Vec2, b: &Vec2) -> (r: u64)
    requires
        in_world(*a),
        in_world(*b),
    ensures
        r == dist_sq_spec(*a, *b),
{
    let dx: i64 = b.x - a.x;
    let dy: i64 = b.y - a.y;
    assert(dx * dx <= 0x4000_0000_0000_0000) by (nonlinear_arith)
        requires
            -0x8000_0000 <= dx <= 0x8000_0000,
    ;
    assert(dy * dy <= 0x4000_0000_0000_0000) by (nonlinear_arith)
        requires
            -0x8000_0000 <= dy <= 0x8000_0000,
    ;
    assert(0 <= dx * dx && 0 <= dy * dy) by (nonlinear_arith);
    let sx: u64 = (dx * dx) as u64;
    let sy: u64 = (dy * dy) as u64;
    sx + sy
}

/// Whether two points lie strictly closer together than `reach`.
pub fn closer_than(a: &Vec2, b: &Vec2, reach: i64) -> (r: bool)
    requires
        in_world(*a),
        in_world(*b),
        0 <= reach <= WORLD_LIMIT,
    ensures
        r == (dist_sq_spec(*a, *b) < reach * reach),
{
    assert(reach * reach <= 0x1000_0000_0000_0000) by (nonlinear_arith)
        requires
            0 <= reach <= 0x4000_0000,
    ;
    let d: u64 = dist_sq(a, b);
    d < (reach * reach) as u64
}

/// Division rounding toward zero by a positive divisor.
pub fn div_toward_zero(a: i128, b: i128) -> (r: i128)
    requires
        b > 0,
        a > i128::MIN,
    ensures
        r == div_trunc(a as int, b as int),
        -(a as int) <= r <= a || a <= r <= -(a as int),
{
    if a >= 0 {
        assert(a / b <= a) by (nonlinear_arith)
            requires
                a >= 0,
                b > 0,
        ;
        a / b
    } else {
        let m: i128 = -a;
        assert(m / b <= m) by (nonlinear_arith)
            requires
                m >= 0,
                b > 0,
        ;
        -(m / b)
    }
}

/// `v` held inside `[lo, hi]`.
pub fn clamp(v: i64, lo: i64, hi: i64) -> (r: i64)
    requires
        lo <= hi,
    ensures
        r == clamp_spec(v as int, lo as int, hi as int),
        lo <= r <= hi,
{
    if v < lo {
        lo
    } else if v > hi {
        hi
    } else {
        v
    }
}

/// A sum of a coordinate and a displacement, held inside the world.
pub fn world_add(a: i64, d: i64) -> (r: i64)
    requires
        -WORLD_LIMIT <= a <= WORLD_LIMIT,
        -WORLD_LIMIT <= d <= WORLD_LIMIT,
    ensures
        r == clamp_spec(a + d, -WORLD_LIMIT as int, WORLD_LIMIT as int),
{
    clamp(a + d, -WORLD_LIMIT, WORLD_LIMIT)
}

/// An angle brought into `[0, FULL_TURN)`.
pub fn wrap_angle(a: i64) -> (r: i64)
    ensures
        r == wrap_angle_spec(a as int),
        0 <= r < FULL_TURN,
{
    let m: i64 = a % FULL_TURN;
    if m < 0 {
        m + FULL_TURN
    } else {
        m
    }
}

proof fn lemma_half_sine_bounds(a: int)
    requires
        0 <= a <= HALF_TURN,
    ensures
        0 <= a * (HALF_TURN - a) <= 8_100_000_000,
        0 <= half_sine(a) <= TRIG_ONE,
{
    let p = a * (HALF_TURN - a);
    assert(0 <= p <= 8_100_000_000) by (nonlinear_arith)
        requires
            0 <= a <= 180_000,
            p == a * (180_000 - a),
    ;
    let num = TRIG_ONE * 4 * p;
    let den = 40_500_000_000 - p;
    assert(num / den <= TRIG_ONE) by (nonlinear_arith)
        requires
            0 <= p <= 8_100_000_000,
            num == 10_000 * 4 * p,
            den == 40_500_000_000 - p,
    ;
    assert(0 <= num / den) by (nonlinear_arith)
        requires
            0 <= num,
            den > 0,
    ;
}

/// The sine of an angle in `[0, FULL_TURN)`, scaled by `TRIG_ONE`.
pub fn sine(a: i64) -> (r: i64)
    requires
        0 <= a < FULL_TURN,
    ensures
        r == sine_spec(a as int),
        -TRIG_ONE <= r <= TRIG_ONE,
{
    let h: i64 = if a < HALF_TURN {
        a
    } else {
        a - HALF_TURN
    };
    proof {
        lemma_half_sine_bounds(h as int);
    }
    let p: i64 = h * (HALF_TURN - h);
    assert(0 <= p <= 8_100_000_000);
    assert(0 <= 40_000 * p <= 324_000_000_000_000) by (nonlinear_arith)
        requires
            0 <= p <= 8_100_000_000,
    ;
    let v: i64 = (40_000 * p) / (40_500_000_000 - p);
    if a < HALF_TURN {
        v
    } else {
        -v
    }
}

/// The cosine of an angle in `[0, FULL_TURN)`, scaled by `TRIG_ONE`.
pub fn cosine(a: i64) -> (r: i64)
    requires
        0 <= a < FULL_TURN,
    ensures
        r == cosine_spec(a as int),
        -TRIG_ONE <= r <= TRIG_ONE,
{
    sine(wrap_angle(a + 90_000))
}

/// `v` turned by the angle whose fixed-point cosine and sine are `c` and `s`.
pub fn rotate(v: Vec2, c: i64, s: i64) -> (r: Vec2)
    requires
        -WORLD_LIMIT <= v.x <= WORLD_LIMIT,
        -WORLD_LIMIT <= v.y <= WORLD_LIMIT,
        -TRIG_ONE <= c <= TRIG_ONE,
        -TRIG_ONE <= s <= TRIG_ONE,
    ensures
        r.x == rotate_spec(v, c as int, s as int).0,
        r.y == rotate_spec(v, c as int, s as int).1,
{
    assert(-0x1_0000_0000_0000 <= v.x * c <= 0x1_0000_0000_0000) by (nonlinear_arith)
        requires
            -0x4000_0000 <= v.x <= 0x4000_0000,
            -10_000 <= c <= 10_000,
    ;
    assert(-0x1_0000_0000_0000 <= v.y * s <= 0x1_0000_0000_0000) by (nonlinear_arith)
        requires
            -0x4000_0000 <= v.y <= 0x4000_0000,
            -10_000 <= s <= 10_000,
    ;
    assert(-0x1_0000_0000_0000 <= v.x * s <= 0x1_0000_0000_0000) by (nonlinear_arith)
        requires
            -0x4000_0000 <= v.x <= 0x4000_0000,
            -10_000 <= s <= 10_000,
    ;
    assert(-0x1_0000_0000_0000 <= v.y * c <= 0x1_0000_0000_0000) by (nonlinear_arith)
        requires
            -0x4000_0000 <= v.y <= 0x4000_0000,
            -10_000 <= c <= 10_000,
    ;
    let rx: i128 = div_toward_zero((v.x * c - v.y * s) as i128, TRIG_ONE as i128);
    let ry: i128 = div_toward_zero((v.x * s + v.y * c) as i128, TRIG_ONE as i128);
    Vec2 { x: rx as i64, y: ry as i64 }
}

/// Integer square root.
pub fn isqrt(n: u64) -> (r: u64)
    ensures
        is_isqrt(n as int, r as int),
{
    // Search for the root in [lo, hi): lo * lo <= n < hi * hi.
    let mut lo: u64 = 0;
    let mut hi: u64 = 0x1_0000_0000;
    assert(n < hi * hi) by (nonlinear_arith)
        requires
            n < 0x1_0000_0000_0000_0000,
            hi == 0x1_0000_0000,
    ;
    while hi - lo > 1
        invariant
            lo < hi <= 0x1_0000_0000,
            lo * lo <= n,
            n < hi * hi,
        decreases hi - lo,
    {
        let mid: u64 = lo + (hi - lo) / 2;
        assert(mid * mid <= 0x1_0000_0000_0000_0000) by (nonlinear_arith)
            requires
                mid <= 0x1_0000_0000,
        ;
        if (mid as u128) * (mid as u128) <= n as u128 {
            lo = mid;
        } else {
            hi = mid;
        }
    }
    lo
}

} // verus!
