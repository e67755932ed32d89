//! The fixed mapping between reference pixels and world units.
//!
//! Lengths that are whole numbers of world units are kept as whole numbers.

use vstd::prelude::*;

verus! {

/// Half the width of the arena, in world units.
pub const WORLD_HALF_WIDTH: i16 = 3_000;

/// Half the height of the arena, in world units.
pub const WORLD_HALF_HEIGHT: i16 = 2_000;

/// Half the width of the arena, by its bit pattern.
pub const WORLD_HALF_X: u32 = 0x453b_8000;

/// Half the height of the arena, by its bit pattern.
pub const WORLD_HALF_Y: u32 = 0x44fa_0000;

/// Spacing of the arena's minor grid lines.
///
/// Chosen so it divides the world on both axes: the world wraps, so a spacing
/// that does not tile exactly would show a gap of the wrong size at the seam.
pub const GRID_SPACING: i16 = 125;

/// Every this many minor lines is drawn as a major one.
pub const GRID_MAJOR_EVERY: i16 = 4;

/// Spacing of the small registration marks on the floor.
pub const MARK_SPACING: i16 = 500;

/// Minor grid lines across the world.
pub const GRID_COLUMNS: i16 = 48;

/// Minor grid lines down the world.
pub const GRID_ROWS: i16 = 32;

/// Registration marks across the world.
pub const MARK_COLUMNS: i16 = 12;

/// Registration marks down the world.
pub const MARK_ROWS: i16 = 8;

/// Height of the reference screen, in its own pixels.
pub const REFERENCE_SCREEN: i16 = 128;

/// World units the camera shows across, at its widest.
pub const VIEW_WIDTH: i16 = 1_600;

/// World units the camera shows down the screen.
pub const VIEW_HEIGHT: i16 = 800;

/// One reference pixel in world units, by its bit pattern: 6.25.
pub const PIXEL: u32 = 0x40c8_0000;

/// Every repeating floor feature fits the world a whole number of times, so the
/// floor has no seam where the world wraps.
pub proof fn law_floor_tiles()
    ensures
        GRID_COLUMNS * GRID_SPACING == 2 * WORLD_HALF_WIDTH,
        GRID_ROWS * GRID_SPACING == 2 * WORLD_HALF_HEIGHT,
        MARK_COLUMNS * MARK_SPACING == 2 * WORLD_HALF_WIDTH,
        MARK_ROWS * MARK_SPACING == 2 * WORLD_HALF_HEIGHT,
        GRID_COLUMNS as int % GRID_MAJOR_EVERY as int == 0,
        GRID_ROWS as int % GRID_MAJOR_EVERY as int == 0,
{
}

} // verus!
