//! Fixed-point scalars.
//!
//! Every field, source and particle quantity in this crate is a fixed-point
//! number: an `i64` holding the real value multiplied by `SCALE = 2^16`.
//! Stored values are kept within `[-MAG_LIMIT, MAG_LIMIT]`; results that
//! would leave that range saturate to the nearest bound, the fixed-point
//! analogue of a floating-point overflow running off to infinity.

use vstd::prelude::*;

verus! {

/// Number of fractional bits of the fixed-point representation.
pub const SCALE_BITS: u32 = 16;

/// One, in fixed-point units: `2^SCALE_BITS`.
pub const SCALE: i64 = 65536;

/// Largest magnitude a stored value may have: `2^40`.
pub const MAG_LIMIT: i64 = 0x100_0000_0000;

/// Largest supported linear grid dimension.
pub const MAX_GRID_SIZE: usize = 4096;

/// True of every value held in a grid cell.
pub open spec fn bounded(v: int) -> bool {
    -MAG_LIMIT <= v <= MAG_LIMIT
}

/// Saturation to the stored range.
pub open spec fn clamp_mag(v: int) -> int {
    if v > MAG_LIMIT as int {
        MAG_LIMIT as int
    } else if v < -MAG_LIMIT as int {
        -MAG_LIMIT as int
    } else {
        v
    }
}

/// Division truncating toward zero, as the hardware divides.
pub open spec fn tdiv(a: int, d: int) -> int
    recommends
        d > 0,
{
    if a >= 0 {
        a / d
    } else {
        -((-a) / d)
    }
}

/// Saturate a raw value into the stored range.
pub fn clamp(v: i64) -> (r: i64)
    ensures
        r == clamp_mag(v as int),
        bounded(r as int),
{
    if v > MAG_LIMIT {
        MAG_LIMIT
    } else if v < -MAG_LIMIT {
        -MAG_LIMIT
    } else {
        v
    }
}

/// Truncating division of a fixed-point value by a small positive divisor.
pub fn div_trunc(a: i64, d: u32) -> (r: i64)
    requires
        d >= 1,
        -0x4000_0000_0000_0000 <= a <= 0x4000_0000_0000_0000,
    ensures
        r == tdiv(a as int, d as int),
{
    if a >= 0 {
        ((a as u64) / (d as u64)) as i64
    } else {
        let q = (((-a) as u64) / (d as u64)) as i64;
        -q
    }
}

} // verus!
