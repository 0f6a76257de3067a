//! Lengths and positions on the canvas, counted in 256ths of a pixel.
//!
//! The editor works in fractions of a pixel and the compositor in whole ones;
//! these are the ways from one to the other.
use vstd::prelude::*;

verus! {

/// How many units one pixel is.
pub const UNITS_PER_PIXEL: i128 = 256;

/// The whole pixels at or below a position.
pub open spec fn pixels_down(units: int) -> int {
    units / 256
}

/// The whole pixels at or above a position.
pub open spec fn pixels_up(units: int) -> int {
    -((-units) / 256)
}

/// The whole pixel nearest to a position; half way goes away from zero.
pub open spec fn pixels_near(units: int) -> int {
    if units >= 0 {
        (units + 128) / 256
    } else {
        -((-units + 128) / 256)
    }
}

/// The nearest value a `u32` can hold.
pub open spec fn to_u32(value: int) -> u32 {
    if value < 0 {
        0
    } else if value > u32::MAX {
        u32::MAX
    } else {
        value as u32
    }
}

/// The nearest value an `i32` can hold.
pub open spec fn to_i32(value: int) -> i32 {
    if value < i32::MIN {
        i32::MIN
    } else if value > i32::MAX {
        i32::MAX
    } else {
        value as i32
    }
}

/// The whole pixels at or below a position.
pub fn floor(units: i128) -> (r: i128)
    requires
        units > i128::MIN + 256,
    ensures
        r == pixels_down(units as int),
{
    if units >= 0 {
        units / 256
    } else {
        let up: i128 = (-units + 255) / 256;
        proof {
            assert(-((-(units as int) + 255) / 256) == units as int / 256) by (nonlinear_arith);
        }
        -up
    }
}

/// The whole pixels at or above a position.
pub fn ceil(units: i128) -> (r: i128)
    requires
        i128::MIN + 256 < units < i128::MAX - 256,
    ensures
        r == pixels_up(units as int),
{
    -floor(-units)
}

/// The whole pixel nearest to a position.
pub fn round(units: i128) -> (r: i128)
    requires
        i128::MIN + 256 < units < i128::MAX - 256,
    ensures
        r == pixels_near(units as int),
{
    if units >= 0 {
        (units + 128) / 256
    } else {
        -((-units + 128) / 256)
    }
}

/// A value as a `u32`, held at the ends of its range.
pub fn saturate_u32(value: i128) -> (r: u32)
    ensures
        r == to_u32(value as int),
{
    if value < 0 {
        0
    } else if value > u32::MAX as i128 {
        u32::MAX
    } else {
        value as u32
    }
}

/// A value as an `i32`, held at the ends of its range.
pub fn saturate_i32(value: i128) -> (r: i32)
    ensures
        r == to_i32(value as int),
{
    if value < i32::MIN as i128 {
        i32::MIN
    } else if value > i32::MAX as i128 {
        i32::MAX
    } else {
        value as i32
    }
}

/// A position lies on or past the pixel below it and short of the next, on or
/// short of the pixel above it and past the one before, and no further than
/// half a pixel from the nearest, which half way is the one away from zero.
pub proof fn law_pixels_are_two_hundred_and_fifty_six_units(units: int)
    ensures
        pixels_down(units) * 256 <= units < pixels_down(units) * 256 + 256,
        pixels_up(units) * 256 - 256 < units <= pixels_up(units) * 256,
        -128 <= pixels_near(units) * 256 - units <= 128,
        pixels_near(units) * 256 - units == 128 ==> units > 0,
        pixels_near(units) * 256 - units == -128 ==> units < 0,
{
}

/// Moving by a whole pixel moves what is rounded by one.
pub proof fn law_a_whole_pixel_is_one(units: int)
    ensures
        pixels_down(units + 256) == pixels_down(units) + 1,
        pixels_up(units + 256) == pixels_up(units) + 1,
        units >= 0 || units <= -384 ==> pixels_near(units + 256) == pixels_near(units) + 1,
        pixels_near(-units) == -pixels_near(units),
{
}

/// What a number can hold is kept, and what it cannot is held at its end.
pub proof fn law_what_fits_is_kept(value: int)
    ensures
        0 <= value <= 0xffff_ffff ==> to_u32(value) == value,
        value < 0 ==> to_u32(value) == 0,
        value > 0xffff_ffff ==> to_u32(value) == 0xffff_ffff,
        -0x8000_0000 <= value <= 0x7fff_ffff ==> to_i32(value) == value,
        value < -0x8000_0000 ==> to_i32(value) == -0x8000_0000,
        value > 0x7fff_ffff ==> to_i32(value) == 0x7fff_ffff,
{
}

} // verus!
