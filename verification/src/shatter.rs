//! The burst of little squares an enemy leaves behind when it dies.

use crate::bits::{at_most, less, nan, scaled};
use vstd::prelude::*;

verus! {

/// How many pieces a shattering enemy throws out.
pub const PIECES: usize = 11;

/// Travel speed in world units per second, by its bit pattern: sixty reference
/// pixels, 375.
pub const SPEED: u32 = 0x43bb_8000;

/// The longest a piece may live, by its bit pattern: 1.
pub const LIFE_SECONDS: u32 = 0x3f80_0000;

/// Below this fraction of its original size a piece is invisible, by its bit
/// pattern: 0.001.
pub const VANISHED: u32 = 0x3a83_126f;

/// Whether a piece is still worth drawing.
pub fn is_alive(scale: u32, age_seconds: u32) -> (alive: bool)
    ensures
        alive == (!nan(scale) && !nan(age_seconds) && scaled(age_seconds) <= scaled(LIFE_SECONDS)
            && scaled(scale) > scaled(VANISHED)),
{
    proof {
        assert(!nan(LIFE_SECONDS) && !nan(VANISHED));
    }
    at_most(age_seconds, LIFE_SECONDS) && less(VANISHED, scale)
}

} // verus!
