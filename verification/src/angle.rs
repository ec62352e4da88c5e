//! Heading angles and their normalization.
//!
//! A heading is kept in fixed-point radians: `RAD_UNITS` angle units per
//! radian, with `PI_UNITS` the engine's half-turn constant. After every
//! update the heading is wrapped back into the half-open interval
//! `(-PI_UNITS, PI_UNITS]` by one addition or subtraction of a full turn,
//! which keeps the stored angle bounded across frames.

use vstd::prelude::*;

verus! {

/// Angle units per radian.
pub const RAD_UNITS: i64 = 1000000;

/// The engine's half-turn: pi radians in angle units.
pub const PI_UNITS: i64 = 3141593;

/// A full turn: two pi radians in angle units.
pub const TWO_PI_UNITS: i64 = 2 * PI_UNITS;

/// Wraps a heading into `(-PI_UNITS, PI_UNITS]` by adding or subtracting one
/// full turn when it lies outside, leaving it congruent to the input modulo a
/// full turn. One step suffices for any per-frame rotation delta, hence the
/// one-and-a-half-turn bound on the input.
pub fn normalize_heading(heading: i64) -> (r: i64)
    requires
        -(TWO_PI_UNITS + PI_UNITS) < heading <= TWO_PI_UNITS + PI_UNITS,
    ensures
        -PI_UNITS < r <= PI_UNITS,
        r == heading || r == heading - TWO_PI_UNITS || r == heading + TWO_PI_UNITS,
        (r - heading) % (TWO_PI_UNITS as int) == 0,
{
    if heading > PI_UNITS {
        heading - TWO_PI_UNITS
    } else if heading <= -PI_UNITS {
        heading + TWO_PI_UNITS
    } else {
        heading
    }
}

} // verus!

