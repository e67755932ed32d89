//! The constants of player movement, each by its bit pattern.
//!
//! Velocity approaches its target exponentially; the integration itself is
//! floating-point arithmetic and is done outside.

use crate::bits::{cap, capped, clamp, clamped, nan, ZERO};
use vstd::prelude::*;

verus! {

/// Half the player's collision hitbox width and height; visual art is
/// independent. 12.
pub const PLAYER_HALF_SIZE: u32 = 0x4140_0000;

/// Top speed in world units per second: 937.5.
///
/// Velocity settles at 2.5 reference pixels per frame of 60 Hz, or 150 per
/// second. One reference pixel is 6.25 world units.
pub const TOP_SPEED: u32 = 0x446a_6000;

/// How sharply velocity approaches its target, per second: 13.38861.
///
/// Four fifths of the velocity are kept each frame of 60 Hz; the equivalent
/// continuous decay reproduces that ramp.
pub const MOVEMENT_RESPONSE: u32 = 0x4156_37bf;

/// The longest frame that is integrated in one go, in seconds: 0.05.
pub const MAX_FRAME_SECONDS: u32 = 0x3d4c_cccd;

/// Top speed in world units per second.
pub fn top_speed() -> (speed: u32)
    ensures
        speed == TOP_SPEED,
{
    TOP_SPEED
}

/// How sharply velocity approaches its target, per second.
pub fn movement_response() -> (response: u32)
    ensures
        response == MOVEMENT_RESPONSE,
{
    MOVEMENT_RESPONSE
}

/// The part of a frame that effects age by: a frame spike counts as the longest
/// frame.
pub fn effect_seconds(elapsed: u32) -> (seconds: u32)
    ensures
        seconds == capped(elapsed, MAX_FRAME_SECONDS),
{
    proof {
        assert(!nan(MAX_FRAME_SECONDS));
    }
    cap(elapsed, MAX_FRAME_SECONDS)
}

/// The part of a frame that movement is integrated over: never less than
/// nothing, so that returning to a backgrounded tab does not teleport anyone.
pub fn motion_seconds(elapsed: u32) -> (seconds: u32)
    ensures
        seconds == clamped(elapsed, ZERO, MAX_FRAME_SECONDS),
{
    proof {
        assert(!nan(ZERO) && !nan(MAX_FRAME_SECONDS));
    }
    clamp(elapsed, ZERO, MAX_FRAME_SECONDS)
}

} // verus!
