//! The config screen's values.

use dodge_royale::settings::{Difficulty, Settings, MAX_ENEMIES, THEME_COUNT};

#[test]
fn difficulty_tuning_matches_the_reference_cart() {
    for (level, speed, interval) in [
        (Difficulty::Easy, 0.8_f32, 1.4_f32),
        (Difficulty::Normal, 1.0, 1.0),
        (Difficulty::Hard, 1.6, 0.8),
    ] {
        assert!((f32::from_bits(level.enemy_speed()) - speed).abs() < f32::EPSILON);
        assert!((f32::from_bits(level.spawn_interval()) - interval).abs() < f32::EPSILON);
    }
}

#[test]
fn difficulty_cycles_in_both_directions_and_wraps() {
    assert_eq!(Difficulty::Easy.next(), Difficulty::Normal);
    assert_eq!(Difficulty::Normal.next(), Difficulty::Hard);
    assert_eq!(Difficulty::Hard.next(), Difficulty::Easy);
    assert_eq!(Difficulty::Easy.previous(), Difficulty::Hard);
}

#[test]
fn every_level_has_its_label() {
    assert_eq!(Difficulty::Easy.label(), "EASY");
    assert_eq!(Difficulty::Normal.label(), "NORMAL");
    assert_eq!(Difficulty::Hard.label(), "HARD");
    assert_eq!(Difficulty::default(), Difficulty::Normal);
}

#[test]
fn defaults_match_the_reference_cart_except_enemy_count() {
    let settings = Settings::default();
    assert_eq!(settings.theme, 0);
    assert_eq!(settings.difficulty, Difficulty::Normal);
    assert_eq!(settings.starting_enemies, 100);
    assert!(settings.powerups);
}

#[test]
fn a_full_cycle_either_way_shows_every_theme_once() {
    for forward in [true, false] {
        for start in 0..THEME_COUNT {
            let mut settings = Settings { theme: start, ..Settings::default() };
            let mut shown = vec![start];
            for _ in 1..THEME_COUNT {
                settings.cycle_theme(forward);
                assert!(!shown.contains(&settings.theme), "{} again, too early", settings.theme);
                shown.push(settings.theme);
            }
            settings.cycle_theme(forward);
            assert_eq!(settings.theme, start, "and then the first one again");
        }
    }
}

#[test]
fn theme_cycling_wraps_across_every_theme() {
    let mut settings = Settings::default();
    for _ in 0..THEME_COUNT {
        settings.cycle_theme(true);
    }
    assert_eq!(settings.theme, 0, "a full cycle returns to the first theme");
    settings.cycle_theme(false);
    assert_eq!(
        settings.theme,
        THEME_COUNT - 1,
        "stepping back wraps to the last"
    );
}

#[test]
fn typing_digits_appends_and_stops_at_the_cap() {
    let mut settings = Settings::default();
    settings.set_enemies(0);
    for digit in [1_u32, 2, 3] {
        settings.push_enemy_digit(digit);
    }
    assert_eq!(settings.starting_enemies, 123);
    // A fourth digit would exceed the cap, so the keystroke is ignored.
    settings.push_enemy_digit(9);
    assert_eq!(settings.starting_enemies, 123);
    assert_eq!(MAX_ENEMIES, 999);
}

#[test]
fn a_keystroke_that_is_no_digit_is_ignored() {
    let mut settings = Settings::default();
    settings.set_enemies(7);
    settings.push_enemy_digit(10);
    settings.push_enemy_digit(u32::MAX);
    assert_eq!(settings.starting_enemies, 7);
    settings.starting_enemies = usize::MAX;
    settings.push_enemy_digit(1);
    assert_eq!(settings.starting_enemies, usize::MAX);
}

#[test]
fn backspace_removes_the_last_digit() {
    let mut settings = Settings::default();
    settings.set_enemies(123);
    settings.pop_enemy_digit();
    assert_eq!(settings.starting_enemies, 12);
    settings.pop_enemy_digit();
    settings.pop_enemy_digit();
    assert_eq!(settings.starting_enemies, 0);
    // Removing from zero is harmless.
    settings.pop_enemy_digit();
    assert_eq!(settings.starting_enemies, 0);
}

#[test]
fn backspace_undoes_a_digit_that_was_accepted() {
    let mut settings = Settings::default();
    for digit in 0..=9 {
        settings.set_enemies(42);
        settings.push_enemy_digit(digit);
        assert_eq!(settings.starting_enemies, 420 + digit as usize);
        settings.pop_enemy_digit();
        assert_eq!(settings.starting_enemies, 42);
    }
}

#[test]
fn bumping_stays_inside_the_allowed_range() {
    let mut settings = Settings::default();
    settings.set_enemies(0);
    settings.bump_enemies(false);
    assert_eq!(settings.starting_enemies, 0, "cannot go below zero");
    settings.bump_enemies(true);
    assert_eq!(settings.starting_enemies, 1);
    settings.set_enemies(MAX_ENEMIES);
    settings.bump_enemies(true);
    assert_eq!(
        settings.starting_enemies, MAX_ENEMIES,
        "cannot exceed the cap"
    );
}

#[test]
fn setting_a_value_clamps_to_the_cap() {
    let mut settings = Settings::default();
    settings.set_enemies(100_000);
    assert_eq!(settings.starting_enemies, MAX_ENEMIES);
}
