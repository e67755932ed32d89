//! Error codes carried by an error record.

use vstd::prelude::*;

verus! {

/// The request could not be parsed, or asked for something impossible.
pub const PROTOCOL: u32 = 1;

/// An arena or a worker failed.
pub const ARENA: u32 = 2;

} // verus!
