//! Three-component fixed-point vectors.

use crate::fixed::{advance, advanced, clamp_i32, floor_sqrt, isqrt, saturate_i32};
use vstd::prelude::*;

verus! {

/// A point or direction in space; each component counts thousandths.
#[derive(Clone, Copy, Debug, PartialEq, Eq, Structural)]
pub struct Vec3 {
    pub x: i32,
    pub y: i32,
    pub z: i32,
}

/// Square of the difference of two coordinates.
pub open spec fn gap_squared(a: int, b: int) -> int {
    (a - b) * (a - b)
}

/// Component of a vector after the vector is given a new length: the sign of
/// `c`, and the rounded-down root of `c² · length² / norm_squared` as size.
pub open spec fn rescaled(c: int, norm_squared: int, length: int) -> int {
    let root = floor_sqrt((c * c) * (length * length) / norm_squared);
    clamp_i32(
        if c >= 0 {
            root
        } else {
            -root
        },
    )
}

/// `c · numerator / denominator`, rounded toward zero and kept in `i32`.
pub open spec fn proportion(c: int, numerator: int, denominator: int) -> int {
    clamp_i32(crate::fixed::div_trunc(c * numerator, denominator))
}

fn square_of_gap(a: i32, b: i32) -> (r: u128)
    ensures
        r == gap_squared(a as int, b as int),
        r <= 0xFFFF_FFFF * 0xFFFF_FFFF,
{
    let d: i64 = a as i64 - b as i64;
    let m: u64 = if d >= 0 {
        d as u64
    } else {
        (0 - d) as u64
    };
    assert(m * m == (a - b) * (a - b)) by (nonlinear_arith)
        requires
            m == a - b || m == -(a - b),
    ;
    assert(m * m <= 0xFFFF_FFFF * 0xFFFF_FFFF) by (nonlinear_arith)
        requires
            0 <= m <= 0xFFFF_FFFF,
    ;
    (m as u128) * (m as u128)
}

fn rescale_component(c: i32, norm_squared: u128, length: u32) -> (r: i32)
    requires
        norm_squared > 0,
    ensures
        r == rescaled(c as int, norm_squared as int, length as int),
{
    let cc: u128 = square_of_gap(c, 0);
    assert(cc <= 0x8000_0000 * 0x8000_0000) by (nonlinear_arith)
        requires
            cc == (c - 0) * (c - 0),
            -0x8000_0000 <= c <= 0x8000_0000,
    ;
    assert(cc == c * c);
    assert(length * length <= 0xFFFF_FFFF * 0xFFFF_FFFF) by (nonlinear_arith)
        requires
            0 <= length <= 0xFFFF_FFFF,
    ;
    let ll: u128 = (length as u128) * (length as u128);
    assert(cc * ll <= (0x8000_0000 * 0x8000_0000) * (0xFFFF_FFFF * 0xFFFF_FFFF))
        by (nonlinear_arith)
        requires
            0 <= cc <= 0x8000_0000 * 0x8000_0000,
            0 <= ll <= 0xFFFF_FFFF * 0xFFFF_FFFF,
    ;
    let root: u64 = isqrt(cc * ll / norm_squared);
    if c >= 0 {
        saturate_i32(root as i128)
    } else {
        saturate_i32(0 - root as i128)
    }
}

fn proportion_of(c: i32, numerator: u64, denominator: u64) -> (r: i32)
    requires
        denominator > 0,
    ensures
        r == proportion(c as int, numerator as int, denominator as int),
{
    let magnitude: u128 = if c >= 0 {
        c as u128
    } else {
        (0 - c as i64) as u128
    };
    assert(magnitude * numerator <= 0x8000_0000 * 0xFFFF_FFFF_FFFF_FFFF) by (nonlinear_arith)
        requires
            0 <= magnitude <= 0x8000_0000,
            0 <= numerator <= 0xFFFF_FFFF_FFFF_FFFF,
    ;
    let quotient: u128 = magnitude * (numerator as u128) / (denominator as u128);
    assert(quotient <= magnitude * numerator) by (nonlinear_arith)
        requires
            quotient == (magnitude * numerator) / (denominator as int),
            denominator > 0,
            magnitude * numerator >= 0,
    ;
    if c >= 0 {
        assert(c * numerator == magnitude * numerator) by (nonlinear_arith)
            requires
                c == magnitude,
        ;
        saturate_i32(quotient as i128)
    } else {
        assert(-(c * numerator) == magnitude * numerator) by (nonlinear_arith)
            requires
                -c == magnitude,
        ;
        assert(c * numerator < 0 || numerator == 0) by (nonlinear_arith)
            requires
                c < 0,
                numerator >= 0,
        ;
        saturate_i32(0 - quotient as i128)
    }
}

impl Vec3 {
    /// The vector with the given components.
    pub fn new(x: i32, y: i32, z: i32) -> (v: Vec3)
        ensures
            v == (Vec3 { x, y, z }),
    {
        Vec3 { x, y, z }
    }

    /// The origin.
    pub open spec fn zero() -> Vec3 {
        Vec3 { x: 0, y: 0, z: 0 }
    }

    /// Square of the Euclidean distance between two points.
    pub open spec fn distance_squared(self, other: Vec3) -> int {
        gap_squared(self.x as int, other.x as int) + gap_squared(self.y as int, other.y as int)
            + gap_squared(self.z as int, other.z as int)
    }

    /// Square of the Euclidean length.
    pub open spec fn length_squared(self) -> int {
        self.distance_squared(Vec3::zero())
    }

    /// Each component moved at the matching component of `rate` for `delta`
    /// nanoseconds.
    pub open spec fn advanced(self, rate: Vec3, delta: u64) -> Vec3 {
        Vec3 {
            x: advanced(self.x as int, rate.x as int, delta as int) as i32,
            y: advanced(self.y as int, rate.y as int, delta as int) as i32,
            z: advanced(self.z as int, rate.z as int, delta as int) as i32,
        }
    }

    /// The vector of the same direction and the given length; the origin stays
    /// the origin.
    pub open spec fn with_length(self, length: u32) -> Vec3 {
        if self.length_squared() == 0 {
            Vec3::zero()
        } else {
            Vec3 {
                x: rescaled(self.x as int, self.length_squared(), length as int) as i32,
                y: rescaled(self.y as int, self.length_squared(), length as int) as i32,
                z: rescaled(self.z as int, self.length_squared(), length as int) as i32,
            }
        }
    }

    /// Each component multiplied by `numerator / denominator`.
    pub open spec fn scaled(self, numerator: u64, denominator: u64) -> Vec3 {
        Vec3 {
            x: proportion(self.x as int, numerator as int, denominator as int) as i32,
            y: proportion(self.y as int, numerator as int, denominator as int) as i32,
            z: proportion(self.z as int, numerator as int, denominator as int) as i32,
        }
    }

    /// Component-wise sum, each component kept in `i32`.
    pub open spec fn plus(self, other: Vec3) -> Vec3 {
        Vec3 {
            x: clamp_i32(self.x + other.x) as i32,
            y: clamp_i32(self.y + other.y) as i32,
            z: clamp_i32(self.z + other.z) as i32,
        }
    }

    /// Component-wise difference, each component kept in `i32`.
    pub open spec fn minus(self, other: Vec3) -> Vec3 {
        Vec3 {
            x: clamp_i32(self.x - other.x) as i32,
            y: clamp_i32(self.y - other.y) as i32,
            z: clamp_i32(self.z - other.z) as i32,
        }
    }

    /// Square of the Euclidean distance to `other`.
    pub fn distance_squared_to(&self, other: &Vec3) -> (r: u128)
        ensures
            r == self.distance_squared(*other),
    {
        square_of_gap(self.x, other.x) + square_of_gap(self.y, other.y) + square_of_gap(
            self.z,
            other.z,
        )
    }

    /// Square of the Euclidean distance to the origin.
    pub fn squared_length(&self) -> (r: u128)
        ensures
            r == self.length_squared(),
    {
        let origin = Vec3 { x: 0, y: 0, z: 0 };
        self.distance_squared_to(&origin)
    }

    /// Moves the point at velocity `rate` for `delta` nanoseconds.
    pub fn advance(&self, rate: &Vec3, delta: u64) -> (r: Vec3)
        ensures
            r == self.advanced(*rate, delta),
    {
        Vec3 {
            x: advance(self.x, rate.x, delta),
            y: advance(self.y, rate.y, delta),
            z: advance(self.z, rate.z, delta),
        }
    }

    /// Stretches or shrinks the vector to the given length.
    pub fn resized(&self, length: u32) -> (r: Vec3)
        ensures
            r == self.with_length(length),
    {
        let norm_squared: u128 = self.squared_length();
        if norm_squared == 0 {
            Vec3 { x: 0, y: 0, z: 0 }
        } else {
            Vec3 {
                x: rescale_component(self.x, norm_squared, length),
                y: rescale_component(self.y, norm_squared, length),
                z: rescale_component(self.z, norm_squared, length),
            }
        }
    }

    /// Multiplies the vector by the fraction `numerator / denominator`.
    pub fn scale(&self, numerator: u64, denominator: u64) -> (r: Vec3)
        requires
            denominator > 0,
        ensures
            r == self.scaled(numerator, denominator),
    {
        Vec3 {
            x: proportion_of(self.x, numerator, denominator),
            y: proportion_of(self.y, numerator, denominator),
            z: proportion_of(self.z, numerator, denominator),
        }
    }

    /// Component-wise sum.
    pub fn saturating_add(&self, other: &Vec3) -> (r: Vec3)
        ensures
            r == self.plus(*other),
    {
        Vec3 {
            x: saturate_i32(self.x as i128 + other.x as i128),
            y: saturate_i32(self.y as i128 + other.y as i128),
            z: saturate_i32(self.z as i128 + other.z as i128),
        }
    }

    /// Component-wise difference.
    pub fn saturating_sub(&self, other: &Vec3) -> (r: Vec3)
        ensures
            r == self.minus(*other),
    {
        Vec3 {
            x: saturate_i32(self.x as i128 - other.x as i128),
            y: saturate_i32(self.y as i128 - other.y as i128),
            z: saturate_i32(self.z as i128 - other.z as i128),
        }
    }
}

} // verus!
