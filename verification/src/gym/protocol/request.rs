//! Opcodes a client may send.

use vstd::prelude::*;

verus! {

/// One step of every env.
pub const STEP: u8 = 0x01;

/// A restart of every env.
pub const RESET: u8 = 0x02;

/// The end of the session.
pub const CLOSE: u8 = 0x03;

} // verus!
