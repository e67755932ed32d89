//! The screens of the interactive game.

use dodge_royale::bits::Vec2;
use dodge_royale::enemy_population::EnemyPopulation;
use dodge_royale::game::config::{
    apply_enemy_count, draw_config, navigate, value_of, ConfigCursor, ConfigKeys, Effect, BACK_ROW,
    ENEMIES_ROW, POWERUPS_ROW, ROWS, THEME_ROW,
};
use dodge_royale::game::drawing::{Drawing, Shape};
use dodge_royale::game::field::{answered_direction, field_range, Anchors, ANCHOR_FRAMES};
use dodge_royale::game::menu::{draw_menu, navigate as navigate_menu, step, MenuKeys};
use dodge_royale::game::player::{
    input_axis, player_picture, read_keyboard, trail_is_over, HeldKeys,
};
use dodge_royale::game::screen::{return_after_defeat, Screen, Transition};
use dodge_royale::game::text::{text_pixels, Pixel};
use dodge_royale::game::world::{
    spawn_grid, spawn_landmarks, spawn_origin, spawn_world, tile_axis_visible, FloorRect, Strength,
};
use dodge_royale::settings::{Difficulty, Settings};

/// Whether a tile can be seen along an axis by a camera there.
fn visible(tile: i16, camera: f32, world_half: f32, view_half: f32) -> bool {
    tile_axis_visible(
        tile,
        (camera - view_half).to_bits(),
        (camera + view_half).to_bits(),
        world_half.to_bits(),
    )
}

#[test]
fn adjacent_floor_copies_appear_only_at_a_visible_seam() {
    let half_world = 3_000.0;
    let half_view = 800.0;
    for tile in [-1, 1] {
        assert!(!visible(tile, 0.0, half_world, half_view));
    }
    assert!(visible(0, 0.0, half_world, half_view));
    assert!(visible(-1, -2_200.0, half_world, half_view));
    assert!(visible(1, 2_200.0, half_world, half_view));
    assert!(!visible(1, -2_200.0, half_world, half_view));
    assert!(!visible(-1, 2_200.0, half_world, half_view));
    assert!(!visible(2, 2_200.0, half_world, half_view));
}

#[test]
fn the_floor_is_laid_out_from_one_corner() {
    let grid = spawn_grid();
    assert_eq!(grid.len(), 48 + 32 + 12 * 8 * 2);
    let line = |x: i32, strength: Strength| FloorRect {
        x,
        y: 0,
        width: 1,
        height: 4_000,
        strength,
        depth: -9,
    };
    assert_eq!(grid[0], line(-3_000, Strength::Major));
    assert_eq!(grid[1], line(-2_875, Strength::Minor));
    assert_eq!(grid[47], line(2_875, Strength::Minor));
    assert_eq!((grid[48].x, grid[48].y, grid[48].width), (0, -2_000, 6_000));
    assert_eq!((grid[80].x, grid[80].y, grid[80].width, grid[80].height), (-3_000, -2_000, 14, 2));
    assert_eq!((grid[81].width, grid[81].height), (2, 14));
    assert_eq!((grid[271].x, grid[271].y), (2_500, 1_500));
    assert_eq!(f32::from_bits(Strength::Minor.alpha()), 0.16);
    assert_eq!(f32::from_bits(Strength::Major.alpha()), 0.30);
    assert_eq!(f32::from_bits(Strength::Marking.alpha()), 0.45);
}

#[test]
fn landmarks_and_the_spawn_point_are_framed() {
    let landmarks = spawn_landmarks();
    assert_eq!(landmarks.len(), 6 * 11 + 16);
    assert_eq!((landmarks[0].x, landmarks[0].y), (-960 - 160, 600));
    assert_eq!((landmarks[0].width, landmarks[0].height), (3, 160));
    assert_eq!((landmarks[4].x, landmarks[4].width), (-960 - 148, 1));
    assert_eq!((landmarks[8].x, landmarks[9].x, landmarks[10].x), (-984, -960, -936));
    assert_eq!((landmarks[66].x, landmarks[66].y), (240, 0));
    assert_eq!((landmarks[81].x, landmarks[81].y, landmarks[81].height), (0, -480, 28));
    let origin = spawn_origin();
    assert_eq!(origin.len(), 14);
    assert_eq!((origin[0].x, origin[0].height), (-72, 144));
    assert_eq!((origin[13].width, origin[13].height), (2, 32));
}

#[test]
fn nine_copies_of_the_floor_surround_the_middle_one() {
    let tiles = spawn_world();
    assert_eq!(tiles.len(), 9);
    assert_eq!((tiles[0].x, tiles[0].y), (-1, -1));
    assert_eq!((tiles[0].center_x, tiles[0].center_y), (-6_000, -4_000));
    assert_eq!((tiles[5].x, tiles[5].y, tiles[5].center_y), (0, 1, 4_000));
    let shown: Vec<usize> = (0..9).filter(|place| tiles[*place].visible).collect();
    assert_eq!(shown, vec![4]);
}

#[test]
fn stepping_through_a_menu_wraps_at_both_ends() {
    assert_eq!((step(0, 5, true), step(4, 5, true)), (1, 0));
    assert_eq!((step(3, 5, false), step(0, 5, false)), (2, 4));
    assert_eq!(step(7, 0, true), 0);
    for start in 0..5 {
        assert_eq!(step(step(start, 5, true), 5, false), start);
    }
}

fn texts(drawings: &[Drawing]) -> Vec<(&str, i32, i32)> {
    drawings
        .iter()
        .filter_map(|drawing| match &drawing.shape {
            Shape::Text(text) => Some((text.as_str(), drawing.x, drawing.y)),
            Shape::Square => None,
        })
        .collect()
}

fn markers(drawings: &[Drawing]) -> Vec<(i32, i32, i32)> {
    drawings
        .iter()
        .filter(|drawing| matches!(drawing.shape, Shape::Square))
        .map(|drawing| (drawing.x, drawing.y, drawing.scale))
        .collect()
}

#[test]
fn the_title_screen_marks_the_item_that_is_selected() {
    let menu = draw_menu(1);
    assert_eq!(
        texts(&menu),
        vec![("DODGE ROYALE", 0, 150), ("START GAME", 0, -40), ("CONFIG", 0, -136)]
    );
    assert_eq!(markers(&menu), vec![(-420, -136, 28)]);
    assert_eq!(markers(&draw_menu(0)), vec![(-420, -40, 28)]);
}

fn menu_keys(down: bool, up: bool, select: bool) -> MenuKeys {
    MenuKeys { down, up, select }
}

#[test]
fn the_title_screen_leads_into_play_and_config() {
    let mut cursor = 0;
    let mut transition = Transition::default();
    assert!(navigate_menu(menu_keys(true, false, false), &mut cursor, &mut transition));
    assert_eq!(cursor, 1);
    assert!(!navigate_menu(menu_keys(false, false, true), &mut cursor, &mut transition));
    assert_eq!(transition.target, Some(Screen::Config));
    assert!(
        !navigate_menu(menu_keys(true, false, false), &mut cursor, &mut transition),
        "nothing happens while a wipe is running"
    );
    assert_eq!(cursor, 1);
    let mut transition = Transition::default();
    navigate_menu(menu_keys(false, true, false), &mut cursor, &mut transition);
    navigate_menu(menu_keys(false, false, true), &mut cursor, &mut transition);
    assert_eq!((cursor, transition.target), (0, Some(Screen::Playing)));
}

#[test]
fn a_wipe_switches_once_at_full_cover() {
    let mut transition = Transition::default();
    assert!(!transition.advance(0.5_f32.to_bits()).visible, "an idle wipe is hidden");
    transition.start(Screen::Playing);
    transition.start(Screen::Config);
    assert!(transition.is_running());
    assert_eq!(transition.target, Some(Screen::Playing), "repeat requests are ignored");
    let mut switches = Vec::new();
    for progress in [0.4_f32, 0.8, 1.0, 1.4, 1.9] {
        let wiped = transition.advance(progress.to_bits());
        assert!(wiped.visible);
        switches.push(wiped.switch);
    }
    assert_eq!(switches, vec![None, None, Some(Screen::Playing), None, None]);
    let wiped = transition.advance(2.1_f32.to_bits());
    assert_eq!((wiped.switch, wiped.visible), (None, false));
    assert!(!transition.is_running());
    assert_eq!(Screen::default(), Screen::Menu);
}

#[test]
fn one_long_frame_covers_and_clears_the_screen() {
    let mut transition = Transition::default();
    transition.start(Screen::Menu);
    let wiped = transition.advance(5.0_f32.to_bits());
    assert_eq!((wiped.switch, wiped.visible), (Some(Screen::Menu), false));
}

#[test]
fn a_defeated_player_returns_to_the_title() {
    let mut transition = Transition::default();
    return_after_defeat(&[4, 5], &[1], &mut transition);
    assert!(!transition.is_running(), "somebody else was hit");
    return_after_defeat(&[4, 1], &[1], &mut transition);
    assert_eq!(transition.target, Some(Screen::Menu));
}

fn keys() -> ConfigKeys {
    ConfigKeys {
        down: false,
        up: false,
        right: false,
        left: false,
        select: false,
        escape: false,
        backspace: false,
        digits: Vec::new(),
    }
}

/// A config screen.
struct Config {
    settings: Settings,
    cursor: ConfigCursor,
    transition: Transition,
}

impl Config {
    fn at(row: usize) -> Config {
        Config {
            settings: Settings::default(),
            cursor: ConfigCursor { row, typing: false },
            transition: Transition::default(),
        }
    }

    fn press(&mut self, keys: ConfigKeys) -> Effect {
        navigate(&keys, &mut self.settings, &mut self.cursor, &mut self.transition)
    }
}

#[test]
fn typing_replaces_the_count_and_then_extends_it() {
    let mut config = Config::at(ENEMIES_ROW);
    assert_eq!(config.press(ConfigKeys { digits: vec![4], ..keys() }), Effect::Redraw);
    assert_eq!(config.settings.starting_enemies, 4);
    config.press(ConfigKeys { digits: vec![2, 7], ..keys() });
    assert_eq!(config.settings.starting_enemies, 427);
    config.press(ConfigKeys { digits: vec![1], ..keys() });
    assert_eq!(config.settings.starting_enemies, 427, "past the cap nothing is typed");
    config.press(ConfigKeys { backspace: true, ..keys() });
    assert_eq!(config.settings.starting_enemies, 42);
    config.press(ConfigKeys { right: true, ..keys() });
    assert_eq!((config.settings.starting_enemies, config.cursor.typing), (43, false));
    config.press(ConfigKeys { digits: vec![9], ..keys() });
    assert_eq!(config.settings.starting_enemies, 9, "an arrow ends the typing");
}

#[test]
fn digits_do_nothing_on_other_rows_or_beside_an_arrow() {
    let mut config = Config::at(THEME_ROW);
    assert_eq!(config.press(ConfigKeys { digits: vec![4], ..keys() }), Effect::Nothing);
    let mut config = Config::at(ENEMIES_ROW);
    config.press(ConfigKeys { digits: vec![4], down: true, ..keys() });
    assert_eq!(config.settings.starting_enemies, 100);
    assert_eq!(config.cursor.row, ENEMIES_ROW + 1);
}

#[test]
fn arrows_change_the_row_they_are_on() {
    let mut config = Config::at(THEME_ROW);
    assert_eq!(config.press(ConfigKeys { left: true, ..keys() }), Effect::Repaint);
    assert_eq!(config.settings.theme, 12);
    config.press(ConfigKeys { down: true, ..keys() });
    assert_eq!(config.press(ConfigKeys { right: true, ..keys() }), Effect::Redraw);
    assert_eq!(config.settings.difficulty, Difficulty::Hard);
    config.press(ConfigKeys { up: true, ..keys() });
    config.press(ConfigKeys { up: true, ..keys() });
    assert_eq!(config.cursor.row, BACK_ROW);
    let mut config = Config::at(POWERUPS_ROW);
    config.press(ConfigKeys { left: true, ..keys() });
    assert!(!config.settings.powerups);
}

#[test]
fn escape_and_the_back_row_leave_the_screen() {
    let mut config = Config::at(THEME_ROW);
    assert_eq!(config.press(ConfigKeys { select: true, ..keys() }), Effect::Nothing);
    assert!(!config.transition.is_running());
    config.press(ConfigKeys { escape: true, ..keys() });
    assert_eq!(config.transition.target, Some(Screen::Menu));
    assert_eq!(
        config.press(ConfigKeys { right: true, ..keys() }),
        Effect::Nothing,
        "nothing happens while a wipe is running"
    );
    let mut config = Config::at(BACK_ROW);
    config.press(ConfigKeys { select: true, ..keys() });
    assert!(config.transition.is_running());
}

#[test]
fn the_config_screen_shows_every_row_and_tags_what_is_unread() {
    let settings = Settings::default();
    let screen = draw_config(&settings, ENEMIES_ROW);
    let shown = texts(&screen);
    assert_eq!(shown[0], ("CONFIG", 0, 260));
    assert_eq!(shown[1], ("THEME", -300, 130));
    assert_eq!(shown[2], ("blue", 260, 130));
    assert!(shown.contains(&("100", 260, -46)));
    assert!(shown.contains(&("ON", 260, -134)));
    assert!(shown.contains(&("BACK", -300, -222)));
    let tags: Vec<&(&str, i32, i32)> =
        shown.iter().filter(|(text, _, _)| *text == "NOT IMPLEMENTED").collect();
    assert_eq!(tags, vec![&("NOT IMPLEMENTED", -300, 8), &("NOT IMPLEMENTED", -300, -168)]);
    assert!(screen.iter().filter(|drawing| drawing.faded).all(|drawing| drawing.depth == 59));
    assert_eq!(markers(&screen), vec![(-500, -46, 24)]);
    assert_eq!(value_of(&settings, BACK_ROW), None);
    assert_eq!(ROWS[BACK_ROW], "BACK");
}

#[test]
fn the_chosen_count_is_carried_into_play() {
    let mut settings = Settings::default();
    settings.set_enemies(321);
    let mut population = EnemyPopulation::default();
    apply_enemy_count(&settings, &mut population);
    assert_eq!(population.target_count, 321);
    assert_eq!(population.budget_per_frame, 64);
}

#[test]
fn opposite_keys_cancel() {
    let axis = |negative: bool, positive: bool| f32::from_bits(input_axis(negative, positive));
    assert_eq!((axis(true, false), axis(false, true)), (-1.0, 1.0));
    assert_eq!((axis(true, true), axis(false, false)), (0.0, 0.0));
    let held = HeldKeys { left: false, right: true, down: true, up: false };
    let direction = read_keyboard(held, false).expect("the keyboard steers");
    assert_eq!((f32::from_bits(direction.x), f32::from_bits(direction.y)), (1.0, -1.0));
    assert_eq!(read_keyboard(held, true), None, "a watched agent steers itself");
}

#[test]
fn the_player_is_a_filled_circle() {
    let picture = player_picture();
    assert_eq!(picture.len(), 9 * 9 * 4);
    let opacity = |x: usize, y: usize| picture[(y * 9 + x) * 4 + 3];
    assert_eq!((opacity(4, 4), opacity(0, 4), opacity(2, 0)), (255, 255, 255));
    assert_eq!((opacity(0, 0), opacity(1, 0), opacity(8, 8)), (0, 0, 0));
    assert_eq!(&picture[..3], &[255, 255, 255]);
    let filled = (0..81).filter(|pixel| picture[pixel * 4 + 3] == 255).count();
    assert_eq!(filled, 69);
    assert!(trail_is_over((10.0_f32 / 60.0).to_bits()) && !trail_is_over(0.1_f32.to_bits()));
}

#[test]
fn a_text_lights_the_pixels_of_its_glyphs() {
    // The figure one: a dot left of the top, a stem, and a foot.
    let pixels = text_pixels("1");
    assert!(pixels.contains(&Pixel { character: 0, column: 1, row: 4 }));
    assert!(pixels.contains(&Pixel { character: 0, column: 0, row: 3 }));
    assert!(pixels.contains(&Pixel { character: 0, column: 2, row: 0 }));
    assert!(!pixels.contains(&Pixel { character: 0, column: 2, row: 4 }));
    assert_eq!(pixels.len(), 1 + 2 + 1 + 1 + 3);
    assert_eq!(pixels[0], Pixel { character: 0, column: 1, row: 4 }, "from the top");
    assert!(text_pixels(" ~").is_empty(), "a space and an unknown character stay blank");
    let word = text_pixels("~1");
    assert!(word.iter().all(|pixel| pixel.character == 1) && word.len() == 8);
}

fn bits(x: f32, y: f32) -> Vec2 {
    Vec2 { x: x.to_bits(), y: y.to_bits() }
}

#[test]
fn an_answer_is_paired_with_the_frame_it_is_about() {
    let mut anchors = Anchors::default();
    for frame in 0..200_u32 {
        anchors.record(frame, bits(frame as f32, 0.0));
    }
    assert_eq!(anchors.find(199), Some(bits(199.0, 0.0)));
    let oldest = 200 - u32::try_from(ANCHOR_FRAMES).expect("a small number");
    assert_eq!(anchors.find(oldest), Some(bits(oldest as f32, 0.0)));
    assert_eq!(anchors.find(oldest - 1), None, "a stale answer finds no place");
    anchors.record(150, bits(1.0, 1.0));
    assert_eq!(anchors.find(150), Some(bits(1.0, 1.0)), "the latest record counts");
    anchors.clear();
    assert_eq!(anchors.find(199), None);
}

#[test]
fn only_two_finite_numbers_are_a_direction() {
    let one = 1.0_f32.to_bits();
    assert_eq!(answered_direction(&[one, 0]), bits(1.0, 0.0));
    assert_eq!(answered_direction(&[one]), bits(0.0, 0.0));
    assert_eq!(answered_direction(&[one, f32::NAN.to_bits()]), bits(0.0, 0.0));
}

#[test]
fn a_field_spans_its_lowest_and_highest_number() {
    let range = |values: &[f32]| {
        let bits: Vec<u32> = values.iter().map(|value| value.to_bits()).collect();
        field_range(&bits).map(|(low, high)| (f32::from_bits(low), f32::from_bits(high)))
    };
    assert_eq!(range(&[2.0, f32::NAN, -3.0, 1.0]), Some((-3.0, 2.0)));
    assert_eq!(range(&[2.0, f32::INFINITY]), None);
    assert_eq!(range(&[f32::NAN]), None);
    assert_eq!(range(&[]), None);
}
