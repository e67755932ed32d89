//! The floor, the viewport and the pieces of a shattered enemy.

use dodge_royale::scale::{
    GRID_COLUMNS, GRID_MAJOR_EVERY, GRID_ROWS, GRID_SPACING, MARK_COLUMNS, MARK_ROWS,
    MARK_SPACING, PIXEL, REFERENCE_SCREEN, VIEW_HEIGHT, VIEW_WIDTH, WORLD_HALF_HEIGHT,
    WORLD_HALF_WIDTH,
};
use dodge_royale::shatter::{is_alive, LIFE_SECONDS, PIECES, SPEED};

fn world_size() -> (f32, f32) {
    (
        f32::from(WORLD_HALF_WIDTH) * 2.0,
        f32::from(WORLD_HALF_HEIGHT) * 2.0,
    )
}

/// Every repeating floor feature must fit the world a whole number of times,
/// or the seam shows a gap of the wrong size when the world wraps.
#[test]
fn floor_markings_tile_the_world_exactly() {
    let size = world_size();
    for spacing in [f32::from(GRID_SPACING), f32::from(MARK_SPACING)] {
        for extent in [size.0, size.1] {
            let count = extent / spacing;
            assert!(
                (count - count.round()).abs() < 0.001,
                "{extent} does not divide by {spacing}"
            );
        }
    }
}

#[test]
fn the_line_counts_match_their_spacing() {
    let size = world_size();
    for (count, spacing, extent) in [
        (GRID_COLUMNS, GRID_SPACING, size.0),
        (GRID_ROWS, GRID_SPACING, size.1),
        (MARK_COLUMNS, MARK_SPACING, size.0),
        (MARK_ROWS, MARK_SPACING, size.1),
    ] {
        let span = f32::from(count) * f32::from(spacing);
        assert!(
            (span - extent).abs() < 0.001,
            "{count} at {spacing} does not span {extent}"
        );
    }
}

#[test]
fn major_lines_tile_the_world_exactly() {
    let size = world_size();
    let major = f32::from(GRID_SPACING) * f32::from(GRID_MAJOR_EVERY);
    for extent in [size.0, size.1] {
        let count = extent / major;
        assert!(
            (count - count.round()).abs() < 0.001,
            "{extent} does not divide by major spacing {major}"
        );
    }
}

#[test]
fn one_reference_pixel_scales_to_the_current_viewport() {
    // The reference screen is 128 px tall; the game views 800 world units.
    assert!((f32::from_bits(PIXEL) - 6.25).abs() < f32::EPSILON);
    assert_eq!(
        f32::from_bits(PIXEL),
        f32::from(VIEW_HEIGHT) / f32::from(REFERENCE_SCREEN)
    );
}

#[test]
fn the_viewport_is_wider_than_it_is_tall() {
    let width = f32::from(VIEW_WIDTH);
    let height = f32::from(VIEW_HEIGHT);
    assert!(width > height);
    assert!(f32::from(REFERENCE_SCREEN) > 0.0);
}

#[test]
fn burst_matches_the_reference_count_and_speed() {
    // Eleven pieces travelling one reference pixel per 60 Hz frame.
    assert_eq!(PIECES, 11);
    let per_second = 60.0 * f32::from_bits(PIXEL);
    assert!((f32::from_bits(SPEED) - per_second).abs() < f32::EPSILON);
    assert!((f32::from_bits(LIFE_SECONDS) - 1.0).abs() < f32::EPSILON);
}

#[test]
fn a_piece_lives_until_its_age_or_its_size_runs_out() {
    let life = f32::from_bits(LIFE_SECONDS);
    assert!(!is_alive(1.0_f32.to_bits(), (life + 0.001).to_bits()));
    assert!(is_alive(1.0_f32.to_bits(), 0.0_f32.to_bits()));
    assert!(is_alive(1.0_f32.to_bits(), life.to_bits()));
    assert!(!is_alive(0.001_f32.to_bits(), 0.0_f32.to_bits()));
    assert!(!is_alive(f32::NAN.to_bits(), 0.0_f32.to_bits()));
    assert!(!is_alive(1.0_f32.to_bits(), f32::NAN.to_bits()));
}

#[test]
fn a_piece_that_has_shrunk_to_nothing_is_no_longer_alive() {
    assert!(
        !is_alive(0.0001_f32.to_bits(), 0.1_f32.to_bits()),
        "sub-pixel pieces should be retired"
    );
}
