//! The palette, the themes and the font that names them.

use dodge_royale::art::{
    color, shadow_translation, theme, Rgb, Theme, INK, PICO8, SHADOW_DROP, THEMES,
};
use dodge_royale::glyphs::{glyph, text_width, GLYPH_HEIGHT, GLYPH_WIDTH};
use dodge_royale::scale::PIXEL;
use dodge_royale::settings::THEME_COUNT;

#[test]
fn palette_holds_the_sixteen_reference_colors() {
    assert_eq!(PICO8.len(), 16);
    assert_eq!(color(0), Rgb::new(0, 0, 0));
    assert_eq!(color(7), Rgb::new(255, 241, 232));
    assert_eq!(color(12), Rgb::new(41, 173, 255));
}

#[test]
fn out_of_range_indices_fall_back_to_ink_instead_of_panicking() {
    assert_eq!(color(16), color(INK));
    assert_eq!(color(u8::MAX), color(INK));
}

#[test]
fn every_theme_pairs_a_background_with_a_shadow() {
    assert_eq!(THEMES.len(), 13);
    for index in 0..THEMES.len() {
        let entry = Theme::at(index).expect("a theme in the table");
        assert!(entry.background < 16, "{} background", entry.name);
        assert!(entry.shadow < 16, "{} shadow", entry.name);
        assert!(!entry.name.is_empty());
    }
    assert!(Theme::at(THEMES.len()).is_none());
}

#[test]
fn theme_table_matches_the_reference_cart() {
    let found = theme("blue").expect("blue theme exists");
    assert_eq!((found.background, found.shadow), (12, 1));
    let neon = theme("neon green").expect("neon green theme exists");
    assert_eq!((neon.background, neon.shadow), (0, 11));
    assert!(theme("chartreuse").is_none());
}

#[test]
fn the_palette_holds_exactly_as_many_themes_as_settings_expects() {
    assert_eq!(THEMES.len(), THEME_COUNT);
}

#[test]
fn every_theme_name_is_renderable_by_the_font() {
    for index in 0..THEMES.len() {
        let theme = Theme::at(index).expect("a theme in the table");
        for character in theme.name.chars() {
            assert!(
                glyph(character).is_some(),
                "{:?} contains an unrenderable {character:?}",
                theme.name
            );
        }
    }
}

#[test]
fn default_theme_is_the_reference_default() {
    let default = Theme::default();
    assert_eq!(default.name, "blue");
    assert_eq!((default.background, default.shadow), (12, 1));
}

#[test]
fn shadows_sit_behind_the_body_that_casts_them() {
    let offset = shadow_translation();
    assert!(f32::from_bits(offset.x).abs() < f32::EPSILON);
    assert!((f32::from_bits(offset.y) + f32::from_bits(PIXEL)).abs() < f32::EPSILON);
    assert!(
        f32::from_bits(offset.z) < 0.0,
        "shadow must not draw over its body"
    );
}

#[test]
fn shadows_fall_straight_down_by_one_reference_pixel() {
    assert_eq!(f32::from_bits(SHADOW_DROP), -f32::from_bits(PIXEL));
    assert_eq!(shadow_translation().x, 0);
    assert_eq!(f32::from_bits(shadow_translation().z), -0.1);
}

#[test]
fn every_glyph_is_five_rows_of_three_bits() {
    for character in "ABCDEFGHIJKLMNOPQRSTUVWXYZ0123456789".chars() {
        let found = glyph(character).expect("character has a glyph");
        assert_eq!(found.len(), GLYPH_HEIGHT);
        for row in found {
            assert!(row < 0b1000, "{character} row {row:#b} exceeds three bits");
        }
    }
}

#[test]
fn glyphs_are_the_shapes_they_were_drawn_as() {
    assert_eq!(glyph('A'), Some([0b111, 0b101, 0b111, 0b101, 0b101]));
    assert_eq!(glyph('Q'), Some([0b111, 0b101, 0b101, 0b111, 0b001]));
    assert_eq!(glyph('3'), Some([0b111, 0b001, 0b011, 0b001, 0b111]));
    assert_eq!(glyph('O'), glyph('0'));
    assert_eq!(glyph('S'), glyph('5'));
}

#[test]
fn lowercase_resolves_to_the_same_glyph_as_uppercase() {
    assert_eq!(glyph('a'), glyph('A'));
    assert_eq!(glyph('z'), glyph('Z'));
}

#[test]
fn space_is_blank_and_unknown_characters_have_no_glyph() {
    assert_eq!(glyph(' '), Some([0; GLYPH_HEIGHT]));
    assert!(glyph('@').is_none());
    assert!(glyph('é').is_none());
    assert!(glyph('\n').is_none());
}

#[test]
fn distinct_letters_have_distinct_shapes() {
    assert_ne!(glyph('D'), glyph('O'));
    assert_ne!(glyph('E'), glyph('F'));
    assert_ne!(glyph('R'), glyph('P'));
}

#[test]
fn text_width_counts_glyphs_and_the_gaps_between_them() {
    // One glyph is GLYPH_WIDTH wide; each extra glyph adds a column of space.
    assert_eq!(text_width(""), 0);
    assert_eq!(text_width("A"), GLYPH_WIDTH);
    assert_eq!(text_width("AB"), GLYPH_WIDTH * 2 + 1);
    assert_eq!(text_width("ABC"), GLYPH_WIDTH * 3 + 2);
}
