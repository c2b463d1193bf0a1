//! Random draws, from macroquad's generator.
use vstd::prelude::*;

verus! {

/// The largest span that `roll` draws from.
pub const ROLL_SPAN: u32 = 0x10_0000;

/// Relies on macroquad::rand::gen_range (quad-rand) on `u32`: it scales a
/// 32-bit draw `k` to `low + (high - low) * k / 2^32` in `f64` and truncates,
/// which is exact below 2^20 and so lands in `[low, high)`.
#[verifier::external_body]
fn gen_range_u32(low: u32, high: u32) -> (r: u32)
    requires
        low < high <= ROLL_SPAN,
    ensures
        low <= r < high,
{
    macroquad::rand::gen_range(low, high)
}

/// A value drawn from `[lo, hi)`.
pub fn pick(lo: i64, hi: i64) -> (r: i64)
    requires
        lo < hi,
        hi - lo <= 0x1_0000_0000,
    ensures
        lo <= r < hi,
{
    let f: u32 = gen_range_u32(0, ROLL_SPAN);
    let span: i64 = hi - lo;
    assert(0 <= span * (f as int) < span * 0x10_0000) by (nonlinear_arith)
        requires
            0 < span <= 0x1_0000_0000,
            0 <= f < 0x10_0000,
    ;
    let off: i64 = (span * f as i64) / (ROLL_SPAN as i64);
    assert(off < span) by (nonlinear_arith)
        requires
            off == (span * f) / 0x10_0000,
            span * f < span * 0x10_0000,
            span > 0,
    ;
    lo + off
}

} // verus!
