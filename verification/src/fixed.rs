//! Fixed-point arithmetic shared by the simulation.
//!
//! A stored quantity is an `i32` (or `u32`) number of thousandths. Rates are
//! per second; elapsed time is a `u64` number of nanoseconds. Results that leave
//! the `i32` range are clamped to it.

use vstd::prelude::*;

verus! {

/// Thousandths in one whole unit of length or health.
pub const UNIT: i32 = 1000;

/// Nanoseconds in one second.
pub const NANOS_PER_SECOND: u64 = 1_000_000_000;

/// `v` limited to the closed interval from `lo` to `hi`.
pub open spec fn clamp(v: int, lo: int, hi: int) -> int {
    if v < lo {
        lo
    } else if v > hi {
        hi
    } else {
        v
    }
}

/// `v` limited to the range of `i32`.
pub open spec fn clamp_i32(v: int) -> int {
    clamp(v, i32::MIN as int, i32::MAX as int)
}

/// `v` limited to the range of `i64`.
pub open spec fn clamp_i64(v: int) -> int {
    clamp(v, i64::MIN as int, i64::MAX as int)
}

/// Quotient of `n` by a positive `d`, rounded toward zero.
pub open spec fn div_trunc(n: int, d: int) -> int
    recommends
        d > 0,
{
    if n >= 0 {
        n / d
    } else {
        -((-n) / d)
    }
}

/// Change of a quantity that moves at `rate` per second during `delta`
/// nanoseconds, rounded toward zero.
pub open spec fn rate_over(rate: int, delta: int) -> int {
    div_trunc(rate * delta, NANOS_PER_SECOND as int)
}

/// A quantity `value` after moving at `rate` per second for `delta`
/// nanoseconds, kept inside the `i32` range.
pub open spec fn advanced(value: int, rate: int, delta: int) -> int {
    clamp_i32(value + rate_over(rate, delta))
}

/// `r` is the integer square root of `n`, rounded down.
pub open spec fn is_floor_sqrt(r: int, n: int) -> bool {
    0 <= r && r * r <= n < (r + 1) * (r + 1)
}

/// The integer square root of `n`, rounded down.
pub open spec fn floor_sqrt(n: int) -> int {
    choose|r: int| is_floor_sqrt(r, n)
}

/// At most one number is the rounded-down square root of `n`.
pub proof fn lemma_floor_sqrt_unique(a: int, b: int, n: int)
    requires
        is_floor_sqrt(a, n),
        is_floor_sqrt(b, n),
    ensures
        a == b,
{
    if a < b {
        assert((a + 1) * (a + 1) <= b * b) by (nonlinear_arith)
            requires
                0 <= a,
                a + 1 <= b,
        ;
    } else if b < a {
        assert((b + 1) * (b + 1) <= a * a) by (nonlinear_arith)
            requires
                0 <= b,
                b + 1 <= a,
        ;
    }
}

/// A number that is a rounded-down square root of `n` is the one that
/// `floor_sqrt` names.
pub proof fn lemma_floor_sqrt_is(r: int, n: int)
    requires
        is_floor_sqrt(r, n),
    ensures
        floor_sqrt(n) == r,
{
    lemma_floor_sqrt_unique(r, floor_sqrt(n), n);
}

/// Narrows a wide intermediate result to `i32`, clamping at the ends.
pub fn saturate_i32(v: i128) -> (r: i32)
    ensures
        r == clamp_i32(v as int),
{
    if v < i32::MIN as i128 {
        i32::MIN
    } else if v > i32::MAX as i128 {
        i32::MAX
    } else {
        v as i32
    }
}

/// Narrows a wide intermediate result to `i64`, clamping at the ends.
pub fn saturate_i64(v: i128) -> (r: i64)
    ensures
        r == clamp_i64(v as int),
{
    if v < i64::MIN as i128 {
        i64::MIN
    } else if v > i64::MAX as i128 {
        i64::MAX
    } else {
        v as i64
    }
}

/// Change during `delta` nanoseconds of a quantity that moves at `rate` per
/// second.
pub fn rate_over_time(rate: i32, delta: u64) -> (r: i128)
    ensures
        r == rate_over(rate as int, delta as int),
{
    let magnitude: u128 = if rate >= 0 {
        rate as u128
    } else {
        (0 - rate as i64) as u128
    };
    assert(magnitude * delta <= 0x8000_0000 * 0xFFFF_FFFF_FFFF_FFFF) by (nonlinear_arith)
        requires
            0 <= magnitude <= 0x8000_0000,
            0 <= delta <= 0xFFFF_FFFF_FFFF_FFFF,
    ;
    let product: u128 = magnitude * (delta as u128);
    let quotient: u128 = product / (NANOS_PER_SECOND as u128);
    if rate >= 0 {
        assert(rate * delta == magnitude * delta) by (nonlinear_arith)
            requires
                rate == magnitude,
        ;
        quotient as i128
    } else {
        assert(-(rate * delta) == magnitude * delta) by (nonlinear_arith)
            requires
                -rate == magnitude,
        ;
        assert(rate * delta < 0 || delta == 0) by (nonlinear_arith)
            requires
                rate < 0,
                delta >= 0,
        ;
        0 - quotient as i128
    }
}

/// Moves `value` at `rate` per second for `delta` nanoseconds.
pub fn advance(value: i32, rate: i32, delta: u64) -> (r: i32)
    ensures
        r == advanced(value as int, rate as int, delta as int),
{
    let change: i128 = rate_over_time(rate, delta);
    assert(-0x1_0000_0000_0000_0000_0000_0000 < change < 0x1_0000_0000_0000_0000_0000_0000) by {
        lemma_rate_over_bound(rate as int, delta as int);
    }
    saturate_i32(value as i128 + change)
}

/// The change over a time step is no larger in size than the product of the
/// rate and the step.
pub proof fn lemma_rate_over_bound(rate: int, delta: int)
    requires
        i32::MIN <= rate <= i32::MAX,
        0 <= delta <= u64::MAX,
    ensures
        -0x8000_0000 * 0x1_0000_0000_0000_0000 <= rate_over(rate, delta) <= 0x8000_0000
            * 0x1_0000_0000_0000_0000,
{
    let p = rate * delta;
    assert(-0x8000_0000 * 0x1_0000_0000_0000_0000 <= p <= 0x8000_0000 * 0x1_0000_0000_0000_0000)
        by (nonlinear_arith)
        requires
            p == rate * delta,
            -0x8000_0000 <= rate <= 0x8000_0000,
            0 <= delta <= 0x1_0000_0000_0000_0000,
    ;
    if p >= 0 {
        assert(0 <= p / 1_000_000_000 <= p) by (nonlinear_arith)
            requires
                p >= 0,
        ;
    } else {
        assert(0 <= (-p) / 1_000_000_000 <= -p) by (nonlinear_arith)
            requires
                -p >= 0,
        ;
    }
}

/// Integer square root, rounded down.
pub fn isqrt(n: u128) -> (r: u64)
    ensures
        is_floor_sqrt(r as int, n as int),
        r == floor_sqrt(n as int),
{
    let mut low: u128 = 0;
    let mut high: u128 = 0x1_0000_0000_0000_0000;
    assert(0x1_0000_0000_0000_0000 * 0x1_0000_0000_0000_0000 > n) by (nonlinear_arith)
        requires
            n <= 0xFFFF_FFFF_FFFF_FFFF_FFFF_FFFF_FFFF_FFFF,
    ;
    while high - low > 1
        invariant
            low < high <= 0x1_0000_0000_0000_0000,
            low * low <= n < high * high,
        decreases high - low,
    {
        let mid: u128 = low + (high - low) / 2;
        assert(mid * mid <= 0xFFFF_FFFF_FFFF_FFFF * 0xFFFF_FFFF_FFFF_FFFF) by (nonlinear_arith)
            requires
                0 <= mid <= 0xFFFF_FFFF_FFFF_FFFF,
        ;
        if mid * mid <= n {
            low = mid;
        } else {
            high = mid;
        }
    }
    proof {
        lemma_floor_sqrt_is(low as int, n as int);
    }
    low as u64
}

} // verus!
