//! Opcodes the arena server sends.

use vstd::prelude::*;

verus! {

/// The announcement before any stepping.
pub const HANDSHAKE: u8 = 0x81;

/// The answer to a step.
pub const STEP: u8 = 0x82;

/// The answer to a reset.
pub const RESET: u8 = 0x83;

/// The acknowledgement of a close.
pub const CLOSED: u8 = 0x84;

/// A failure that ends the session.
pub const ERROR: u8 = 0xff;

} // verus!
