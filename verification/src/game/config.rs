//! The config screen.
//!
//! The theme and enemy rows take effect. Difficulty and powerups are stored but
//! read by nothing, so each of those is labelled on screen as not implemented.

use crate::art::{Theme, THEMES};
use crate::enemy_population::EnemyPopulation;
use crate::game::drawing::{
    add_label, add_marker, label_shown, marker_shown, shown, Drawing, Shape, Shown,
};
use crate::game::menu::{step, stepped};
use crate::game::screen::{Screen, Transition};
use crate::settings::{
    count_bumped, count_erased, count_typed, level_after, level_before, theme_stepped, Settings,
};
use crate::text::{decimal, push_decimal};
use vstd::prelude::*;
use vstd::string::*;

verus! {

/// The rows, in order. The final row leaves the screen.
pub const ROWS: [&'static str; 5] = ["THEME", "DIFFICULTY", "ENEMIES", "POWERUPS", "BACK"];

/// How many rows there are.
pub const ROW_COUNT: usize = 5;

/// Index of the theme row.
pub const THEME_ROW: usize = 0;

/// Index of the difficulty row.
pub const DIFFICULTY_ROW: usize = 1;

/// Index of the typeable enemy-count row.
pub const ENEMIES_ROW: usize = 2;

/// Index of the powerups row.
pub const POWERUPS_ROW: usize = 3;

/// Index of the row that returns to the title screen.
pub const BACK_ROW: usize = 4;

pub const TITLE_SCALE: i32 = 20;

pub const ROW_SCALE: i32 = 12;

pub const TAG_SCALE: i32 = 5;

pub const ROW_SPACING: i32 = 88;

pub const FIRST_ROW_Y: i32 = 130;

pub const LABEL_X: i32 = -300;

pub const VALUE_X: i32 = 260;

pub const MARKER_X: i32 = -500;

/// Which config row is highlighted, and whether digits are being typed into it.
#[derive(Clone, Copy, Debug, PartialEq, Eq, Structural)]
pub struct ConfigCursor {
    pub row: usize,
    pub typing: bool,
}

impl Default for ConfigCursor {
    fn default() -> (cursor: Self)
        ensures
            cursor == (ConfigCursor { row: 0, typing: false }),
    {
        ConfigCursor { row: 0, typing: false }
    }
}

/// The display name of a theme, by index.
pub open spec fn theme_called(index: usize) -> Seq<char> {
    if index < 13 {
        THEMES@[index as int].0@
    } else {
        "blue"@
    }
}

/// The display name of a theme, by index.
pub fn theme_name(index: usize) -> (name: &'static str)
    ensures
        name@ == theme_called(index),
{
    match Theme::at(index) {
        Some(theme) => theme.name,
        None => "blue",
    }
}

/// The value shown for a row, if it has one.
pub open spec fn value_shown(settings: Settings, row: int) -> Option<Seq<char>> {
    if row == THEME_ROW {
        Some(theme_called(settings.theme))
    } else if row == DIFFICULTY_ROW {
        Some(settings.difficulty.name())
    } else if row == ENEMIES_ROW {
        Some(decimal(settings.starting_enemies as nat))
    } else if row == POWERUPS_ROW {
        Some(
            if settings.powerups {
                "ON"@
            } else {
                "OFF"@
            },
        )
    } else {
        None
    }
}

/// The value shown for a row, if it has one.
pub fn value_of(settings: &Settings, row: usize) -> (value: Option<String>)
    ensures
        match value_shown(*settings, row as int) {
            Some(text) => value matches Some(found) && found@ == text,
            None => value is None,
        },
{
    if row == THEME_ROW {
        Some(theme_name(settings.theme).to_owned())
    } else if row == DIFFICULTY_ROW {
        Some(settings.difficulty.label().to_owned())
    } else if row == ENEMIES_ROW {
        let mut text: String = "".to_owned();
        push_decimal(&mut text, settings.starting_enemies as u64);
        proof {
            reveal_strlit("");
            assert(text@ =~= decimal(settings.starting_enemies as nat));
        }
        Some(text)
    } else if row == POWERUPS_ROW {
        if settings.powerups {
            Some("ON".to_owned())
        } else {
            Some("OFF".to_owned())
        }
    } else {
        None
    }
}

/// Carry the chosen count into the population controller when play begins.
pub fn apply_enemy_count(settings: &Settings, population: &mut EnemyPopulation)
    ensures
        *final(population) == (EnemyPopulation {
            target_count: settings.starting_enemies,
            ..*old(population)
        }),
{
    population.target_count = settings.starting_enemies;
}

/// The settings after a left or right press on one row.
pub open spec fn changed(settings: Settings, row: usize, forward: bool) -> Settings {
    if row == THEME_ROW {
        Settings { theme: theme_stepped(settings.theme, forward), ..settings }
    } else if row == DIFFICULTY_ROW {
        Settings {
            difficulty: if forward {
                level_after(settings.difficulty)
            } else {
                level_before(settings.difficulty)
            },
            ..settings
        }
    } else if row == ENEMIES_ROW {
        Settings {
            starting_enemies: count_bumped(settings.starting_enemies, forward),
            ..settings
        }
    } else if row == POWERUPS_ROW {
        Settings { powerups: !settings.powerups, ..settings }
    } else {
        settings
    }
}

/// Apply a left or right press to one row.
pub fn change_row(settings: &mut Settings, row: usize, forward: bool)
    ensures
        *final(settings) == changed(*old(settings), row, forward),
{
    if row == THEME_ROW {
        settings.cycle_theme(forward);
    } else if row == DIFFICULTY_ROW {
        settings.difficulty = if forward {
            settings.difficulty.next()
        } else {
            settings.difficulty.previous()
        };
    } else if row == ENEMIES_ROW {
        settings.bump_enemies(forward);
    } else if row == POWERUPS_ROW {
        settings.powerups = !settings.powerups;
    }
}

/// A left press undoes a right press on every row, but on the largest count of
/// enemies, which a right press leaves as it is.
pub proof fn law_changes_undo(settings: Settings, row: usize)
    requires
        settings.valid(),
        row == ENEMIES_ROW ==> settings.starting_enemies < crate::settings::MAX_ENEMIES,
    ensures
        changed(changed(settings, row, true), row, false) == settings,
        changed(settings, row, true).valid(),
        changed(settings, row, false).valid(),
{
    crate::settings::law_levels_undo(settings.difficulty);
    crate::settings::law_themes_undo(settings.theme);
    crate::settings::law_edits_stay_valid(settings, 0, true);
    crate::settings::law_edits_stay_valid(settings, 0, false);
}

/// The count and whether one is being typed, after a digit. The first digit
/// after selecting the row replaces the value; later ones extend it.
pub open spec fn digit_typed(state: (usize, bool), digit: u32) -> (usize, bool) {
    let before: usize = if state.1 {
        state.0
    } else {
        0
    };
    (count_typed(before, digit), true)
}

/// The same after these digits.
pub open spec fn digits_typed(state: (usize, bool), digits: Seq<u32>) -> (usize, bool)
    decreases digits.len(),
{
    if digits.len() == 0 {
        state
    } else {
        digit_typed(digits_typed(state, digits.drop_last()), digits.last())
    }
}

/// The same after these digits and then, perhaps, an erased one.
pub open spec fn edited(state: (usize, bool), digits: Seq<u32>, erase: bool) -> (usize, bool) {
    let typed = digits_typed(state, digits);
    if erase {
        (count_erased(typed.0), true)
    } else {
        typed
    }
}

/// Typing replaces what was there with the number that is typed, as far as it
/// is one of at most three digits.
pub proof fn law_typing_replaces_the_count(count: usize, first: u32, second: u32, third: u32)
    requires
        first <= 9,
        second <= 9,
        third <= 9,
    ensures
        digits_typed((count, false), seq![first]) == (first as usize, true),
        digits_typed((count, false), seq![first, second]) == ((first * 10 + second) as usize, true),
        digits_typed((count, false), seq![first, second, third]) == (
            (first * 100 + second * 10 + third) as usize,
            true,
        ),
{
    reveal_with_fuel(digits_typed, 4);
    assert(seq![first].drop_last() =~= Seq::empty());
    assert(seq![first, second].drop_last() =~= seq![first]);
    assert(seq![first, second, third].drop_last() =~= seq![first, second]);
}

/// Type digits into the enemy count, and then, perhaps, erase one. Says whether
/// there was anything to do.
fn edit_enemies(settings: &mut Settings, typing: &mut bool, digits: &[u32], erase: bool) -> (done:
    bool)
    ensures
        done == (digits@.len() > 0 || erase),
        ({
            let after = edited((old(settings).starting_enemies, *old(typing)), digits@, erase);
            &&& *final(settings) == (Settings { starting_enemies: after.0, ..*old(settings) })
            &&& *final(typing) == after.1
        }),
{
    let ghost start = (settings.starting_enemies, *typing);
    let mut index: usize = 0;
    assert(digits@.take(0) =~= Seq::empty());
    while index < digits.len()
        invariant
            index <= digits@.len(),
            start == (old(settings).starting_enemies, *old(typing)),
            *settings == (Settings {
                starting_enemies: digits_typed(start, digits@.take(index as int)).0,
                ..*old(settings)
            }),
            *typing == digits_typed(start, digits@.take(index as int)).1,
        decreases digits@.len() - index,
    {
        proof {
            assert(digits@.take(index + 1).drop_last() =~= digits@.take(index as int));
        }
        if !*typing {
            settings.set_enemies(0);
            *typing = true;
        }
        settings.push_enemy_digit(digits[index]);
        index = index + 1;
    }
    assert(digits@.take(index as int) =~= digits@);
    if erase {
        settings.pop_enemy_digit();
        *typing = true;
    }
    digits.len() > 0 || erase
}

/// The keys that were just pressed on the config screen.
#[derive(Debug)]
pub struct ConfigKeys {
    pub down: bool,
    pub up: bool,
    pub right: bool,
    pub left: bool,
    pub select: bool,
    pub escape: bool,
    pub backspace: bool,
    /// The digit keys, in the order they arrived.
    pub digits: Vec<u32>,
}

/// What the keys did on the config screen.
#[derive(Clone, Copy, Debug, PartialEq, Eq, Structural)]
pub enum Effect {
    /// Nothing to show.
    Nothing,
    /// The screen is to be drawn anew.
    Redraw,
    /// So is everything, in another theme.
    Repaint,
}

/// The screen's state: the settings, the cursor, and the wipe.
pub struct ConfigState {
    pub settings: Settings,
    pub cursor: ConfigCursor,
    pub transition: Transition,
}

impl ConfigKeys {
    /// An arrow key is among them.
    pub open spec fn moves(self) -> bool {
        self.down || self.up || self.right || self.left
    }

    /// They lead back to the title screen.
    pub open spec fn leaves(self, row: usize) -> bool {
        (self.select && row == BACK_ROW) || self.escape
    }

    /// They edit the enemy count: digits type straight into it.
    pub open spec fn edits(self, row: usize) -> bool {
        row == ENEMIES_ROW && !self.moves() && (self.digits@.len() > 0 || self.backspace)
    }
}

/// What the keys do: leave, type, move between rows, or change a row's value.
pub open spec fn navigated(state: ConfigState, keys: ConfigKeys) -> (ConfigState, Effect) {
    let cursor = state.cursor;
    let settings = state.settings;
    if state.transition.runs() {
        (state, Effect::Nothing)
    } else if keys.leaves(cursor.row) {
        (
            ConfigState { transition: state.transition.started(Screen::Menu), ..state },
            Effect::Nothing,
        )
    } else if keys.edits(cursor.row) {
        let after = edited(
            (settings.starting_enemies, cursor.typing),
            keys.digits@,
            keys.backspace,
        );
        (
            ConfigState {
                settings: Settings { starting_enemies: after.0, ..settings },
                cursor: ConfigCursor { typing: after.1, ..cursor },
                ..state
            },
            Effect::Redraw,
        )
    } else if keys.down || keys.up {
        (
            ConfigState {
                cursor: ConfigCursor {
                    row: stepped(cursor.row, ROW_COUNT, keys.down) as usize,
                    typing: false,
                },
                ..state
            },
            Effect::Redraw,
        )
    } else if keys.right || keys.left {
        let after = changed(settings, cursor.row, keys.right);
        (
            ConfigState {
                settings: after,
                cursor: ConfigCursor { typing: false, ..cursor },
                ..state
            },
            if cursor.row == THEME_ROW && after.theme < 13 {
                Effect::Repaint
            } else {
                Effect::Redraw
            },
        )
    } else {
        (state, Effect::Nothing)
    }
}

/// Move between rows, change a row's value, or leave.
pub fn navigate(
    keys: &ConfigKeys,
    settings: &mut Settings,
    cursor: &mut ConfigCursor,
    transition: &mut Transition,
) -> (effect: Effect)
    ensures
        (
            ConfigState {
                settings: *final(settings),
                cursor: *final(cursor),
                transition: *final(transition),
            },
            effect,
        ) == navigated(
            ConfigState {
                settings: *old(settings),
                cursor: *old(cursor),
                transition: *old(transition),
            },
            *keys,
        ),
{
    if transition.is_running() {
        return Effect::Nothing;
    }
    if keys.select && cursor.row == BACK_ROW {
        transition.start(Screen::Menu);
        return Effect::Nothing;
    }
    if keys.escape {
        transition.start(Screen::Menu);
        return Effect::Nothing;
    }
    if cursor.row == ENEMIES_ROW && !(keys.down || keys.up || keys.left || keys.right) {
        let mut typing: bool = cursor.typing;
        let done: bool = edit_enemies(settings, &mut typing, keys.digits.as_slice(), keys.backspace);
        cursor.typing = typing;
        if done {
            return Effect::Redraw;
        }
    }
    if keys.down || keys.up {
        cursor.row = step(cursor.row, ROW_COUNT, keys.down);
        cursor.typing = false;
        Effect::Redraw
    } else if keys.right || keys.left {
        change_row(settings, cursor.row, keys.right);
        cursor.typing = false;
        if cursor.row == THEME_ROW && settings.theme < 13 {
            Effect::Repaint
        } else {
            Effect::Redraw
        }
    } else {
        Effect::Nothing
    }
}

/// Where a row is drawn.
pub open spec fn row_height(index: int) -> int {
    FIRST_ROW_Y - index * ROW_SPACING
}

/// A row whose value is stored but unread.
pub open spec fn unread(index: int) -> bool {
    index != THEME_ROW && index != ENEMIES_ROW && index != BACK_ROW
}

/// What the config screen shows of one row.
pub open spec fn row_shown(settings: Settings, index: int, selected: usize) -> Seq<Shown> {
    let y = row_height(index);
    let label = seq![label_shown(ROWS@[index]@, LABEL_X as int, y, ROW_SCALE as int)];
    let value = match value_shown(settings, index) {
        Some(text) => seq![label_shown(text, VALUE_X as int, y, ROW_SCALE as int)],
        None => Seq::empty(),
    };
    let tag = if unread(index) {
        seq![
            Shown {
                text: Some("NOT IMPLEMENTED"@),
                x: LABEL_X as int,
                y: y - 34,
                scale: TAG_SCALE as int,
                depth: 59,
                faded: true,
            },
        ]
    } else {
        Seq::empty()
    };
    let marker = if index == selected {
        seq![marker_shown(MARKER_X as int, y, ROW_SCALE * 2)]
    } else {
        Seq::empty()
    };
    label + value + tag + marker
}

/// What the config screen shows of its first rows, below the title.
pub open spec fn rows_shown(settings: Settings, selected: usize, count: nat) -> Seq<Shown>
    decreases count,
{
    if count == 0 {
        seq![label_shown("CONFIG"@, 0, 260, TITLE_SCALE as int)]
    } else {
        rows_shown(settings, selected, (count - 1) as nat) + row_shown(
            settings,
            count - 1,
            selected,
        )
    }
}

/// Draw one row.
fn draw_row(drawings: &mut Vec<Drawing>, settings: &Settings, index: usize, selected: usize)
    requires
        index < ROW_COUNT,
    ensures
        shown(final(drawings)@) == shown(old(drawings)@) + row_shown(
            *settings,
            index as int,
            selected,
        ),
{
    let y: i32 = FIRST_ROW_Y - index as i32 * ROW_SPACING;
    let ghost before = shown(drawings@);
    let ghost label = seq![
        label_shown(ROWS@[index as int]@, LABEL_X as int, y as int, ROW_SCALE as int),
    ];
    add_label(drawings, ROWS[index].to_owned(), LABEL_X, y, ROW_SCALE);
    assert(shown(drawings@) =~= before + label);
    let ghost mut value: Seq<Shown> = Seq::empty();
    if let Some(text) = value_of(settings, index) {
        proof {
            value = seq![label_shown(text@, VALUE_X as int, y as int, ROW_SCALE as int)];
        }
        add_label(drawings, text, VALUE_X, y, ROW_SCALE);
    }
    assert(shown(drawings@) =~= before + (label + value));
    let ghost mut tag: Seq<Shown> = Seq::empty();
    if index != THEME_ROW && index != ENEMIES_ROW && index != BACK_ROW {
        let drawing: Drawing = Drawing {
            shape: Shape::Text("NOT IMPLEMENTED".to_owned()),
            x: LABEL_X,
            y: y - 34,
            scale: TAG_SCALE,
            depth: 59,
            faded: true,
        };
        proof {
            tag = seq![drawing@];
        }
        let ghost so_far = shown(drawings@);
        drawings.push(drawing);
        assert(shown(drawings@) =~= so_far.push(drawing@));
    }
    assert(shown(drawings@) =~= before + (label + value + tag));
    let ghost mut marker: Seq<Shown> = Seq::empty();
    if index == selected {
        proof {
            marker = seq![marker_shown(MARKER_X as int, y as int, ROW_SCALE * 2)];
        }
        add_marker(drawings, MARKER_X, y, ROW_SCALE * 2);
    }
    assert(shown(drawings@) =~= before + (label + value + tag + marker));
    assert(row_shown(*settings, index as int, selected) =~= label + value + tag + marker);
}

/// Draw the whole screen.
pub fn draw_config(settings: &Settings, selected: usize) -> (drawings: Vec<Drawing>)
    ensures
        shown(drawings@) == rows_shown(*settings, selected, ROW_COUNT as nat),
{
    let mut drawings: Vec<Drawing> = Vec::new();
    add_label(&mut drawings, "CONFIG".to_owned(), 0, 260, TITLE_SCALE);
    assert(shown(drawings@) =~= rows_shown(*settings, selected, 0));
    let mut index: usize = 0;
    while index < ROW_COUNT
        invariant
            index <= ROW_COUNT,
            shown(drawings@) == rows_shown(*settings, selected, index as nat),
        decreases ROW_COUNT - index,
    {
        draw_row(&mut drawings, settings, index, selected);
        index = index + 1;
    }
    drawings
}

/// A press to the left or right changes the value of its own row and no other.
pub proof fn law_rows_change_only_themselves(settings: Settings, row: usize, forward: bool)
    ensures
        ({
            let after = changed(settings, row, forward);
            &&& row != THEME_ROW ==> after.theme == settings.theme
            &&& row != DIFFICULTY_ROW ==> after.difficulty == settings.difficulty
            &&& row != ENEMIES_ROW ==> after.starting_enemies == settings.starting_enemies
            &&& row != POWERUPS_ROW ==> after.powerups == settings.powerups
            &&& row == POWERUPS_ROW ==> after.powerups != settings.powerups
            &&& row == DIFFICULTY_ROW ==> after.difficulty != settings.difficulty
            &&& row == THEME_ROW && settings.theme < 13 ==> after.theme != settings.theme
                && after.theme < 13
            &&& row == ENEMIES_ROW && forward && settings.starting_enemies < 999
                ==> after.starting_enemies == settings.starting_enemies + 1
            &&& row == ENEMIES_ROW && !forward && settings.starting_enemies > 0
                ==> after.starting_enemies == settings.starting_enemies - 1
        }),
{
    crate::settings::law_levels_follow_each_other(settings.difficulty);
    if settings.theme < 13 {
        crate::settings::law_themes_follow_each_other(settings.theme);
    }
}

/// While a wipe runs the keys do nothing, and keys that say nothing never do.
pub proof fn law_keys_wait_for_the_wipe(state: ConfigState, keys: ConfigKeys)
    ensures
        state.transition.progress is Some ==> navigated(state, keys) == (state, Effect::Nothing),
        !keys.down && !keys.up && !keys.left && !keys.right && !keys.select && !keys.escape
            && !keys.backspace && keys.digits@.len() == 0 ==> navigated(state, keys) == (
            state,
            Effect::Nothing,
        ),
{
}

/// Escape, and the last row where it is selected, lead back to the title screen
/// and change nothing else.
pub proof fn law_the_way_back(state: ConfigState, keys: ConfigKeys)
    requires
        state.transition.progress is None,
        keys.escape || (keys.select && state.cursor.row == BACK_ROW),
    ensures
        ({
            let (after, effect) = navigated(state, keys);
            &&& after.settings == state.settings
            &&& after.cursor == state.cursor
            &&& after.transition.progress == Some(0u32)
            &&& after.transition.target == Some(Screen::Menu)
            &&& effect == Effect::Nothing
        }),
{
}

/// Up and down move the highlight by one row, around both ends, end any typing and
/// leave the settings alone.
pub proof fn law_the_highlight_moves_by_one(state: ConfigState, keys: ConfigKeys)
    requires
        state.transition.progress is None,
        !keys.escape,
        !keys.select,
        keys.down != keys.up,
        state.cursor.row < ROW_COUNT,
    ensures
        ({
            let (after, effect) = navigated(state, keys);
            let row = state.cursor.row;
            &&& after.settings == state.settings
            &&& after.transition == state.transition
            &&& !after.cursor.typing
            &&& effect == Effect::Redraw
            &&& keys.down && row < 4 ==> after.cursor.row == row + 1
            &&& keys.down && row == 4 ==> after.cursor.row == 0
            &&& keys.up && row > 0 ==> after.cursor.row == row - 1
            &&& keys.up && row == 0 ==> after.cursor.row == 4
        }),
{
}

/// Left and right change the highlighted row, in the direction that was pressed,
/// and end any typing; a changed theme repaints everything.
pub proof fn law_values_change_where_the_highlight_is(state: ConfigState, keys: ConfigKeys)
    requires
        state.transition.progress is None,
        !keys.escape,
        !keys.select,
        !keys.down && !keys.up,
        keys.right != keys.left,
        state.settings.theme < 13,
    ensures
        ({
            let (after, effect) = navigated(state, keys);
            &&& after.settings == changed(state.settings, state.cursor.row, keys.right)
            &&& after.cursor.row == state.cursor.row
            &&& !after.cursor.typing
            &&& after.transition == state.transition
            &&& effect == Effect::Repaint <==> state.cursor.row == THEME_ROW
            &&& effect != Effect::Nothing
        }),
{
    law_rows_change_only_themselves(state.settings, state.cursor.row, keys.right);
}

/// A digit on the enemies row replaces the count when it is the first and extends
/// it when it is not, as long as the count stays in range; erasing takes the last
/// digit away. Nothing else changes.
pub proof fn law_digits_go_into_the_count(state: ConfigState, keys: ConfigKeys, digit: u32)
    requires
        state.transition.progress is None,
        !keys.escape && !keys.select,
        !keys.down && !keys.up && !keys.left && !keys.right,
        state.cursor.row == ENEMIES_ROW,
        digit <= 9,
        (keys.digits@ == seq![digit] && !keys.backspace) || (keys.digits@.len() == 0
            && keys.backspace),
    ensures
        ({
            let (after, effect) = navigated(state, keys);
            let count = state.settings.starting_enemies;
            &&& effect == Effect::Redraw
            &&& after.settings == (Settings {
                starting_enemies: after.settings.starting_enemies,
                ..state.settings
            })
            &&& after.cursor.row == ENEMIES_ROW && after.cursor.typing
            &&& after.transition == state.transition
            &&& keys.backspace ==> after.settings.starting_enemies == count / 10
            &&& !keys.backspace && !state.cursor.typing ==> after.settings.starting_enemies
                == digit
            &&& !keys.backspace && state.cursor.typing && count * 10 + digit <= 999
                ==> after.settings.starting_enemies == count * 10 + digit
            &&& !keys.backspace && state.cursor.typing && count * 10 + digit > 999
                ==> after.settings.starting_enemies == count
        }),
{
    reveal_with_fuel(digits_typed, 2);
    if !keys.backspace {
        assert(keys.digits@.drop_last() =~= Seq::empty());
    }
}

/// Each row shows its own setting: the theme by its name, the level by its name,
/// the count in digits and the powerups as on or off. The last row shows nothing.
pub proof fn law_rows_show_their_own_setting(settings: Settings, other: Settings)
    requires
        settings.theme < 13,
    ensures
        value_shown(settings, 0) == Some(THEMES@[settings.theme as int].0@),
        value_shown(settings, 1) == Some(settings.difficulty.name()),
        value_shown(settings, 2) == Some(decimal(settings.starting_enemies as nat)),
        value_shown(settings, 3) == Some(
            if settings.powerups {
                "ON"@
            } else {
                "OFF"@
            },
        ),
        value_shown(settings, 4) is None,
        other.theme == settings.theme ==> value_shown(other, 0) == value_shown(settings, 0),
        other.difficulty == settings.difficulty ==> value_shown(other, 1) == value_shown(
            settings,
            1,
        ),
        other.starting_enemies == settings.starting_enemies ==> value_shown(other, 2)
            == value_shown(settings, 2),
        other.powerups == settings.powerups ==> value_shown(other, 3) == value_shown(settings, 3),
{
}

/// A row shows its label first and then its value, if it has one; the rows nothing
/// reads yet, and only those, say so; and the marker stands, last, beside the row
/// that is highlighted.
pub proof fn law_rows_are_drawn_as_they_are(settings: Settings, index: int, selected: usize)
    requires
        0 <= index < 5,
        settings.theme < 13,
    ensures
        ({
            let drawn = row_shown(settings, index, selected);
            let tagged = index == 1 || index == 3;
            &&& drawn[0].text == Some(ROWS@[index]@)
            &&& drawn[0].y == 130 - 88 * index
            &&& index < 4 ==> drawn[1].text == value_shown(settings, index) && drawn[1].y
                == drawn[0].y && drawn[1].x > drawn[0].x
            &&& tagged ==> drawn[2].text == Some("NOT IMPLEMENTED"@) && drawn[2].faded
            &&& drawn.len() == 1 + (if index < 4 {
                1int
            } else {
                0
            }) + (if tagged {
                1int
            } else {
                0
            }) + (if index == selected {
                1int
            } else {
                0
            })
            &&& index == selected ==> drawn.last().text is None && drawn.last().y == drawn[0].y
                && drawn.last().x < drawn[0].x
        }),
{
}

/// The screen shows its title first and then every row whole, each after the one
/// before: `first` is where the row at `index` begins.
pub proof fn law_screens_show_every_row(
    settings: Settings,
    selected: usize,
    count: nat,
    index: int,
) -> (first: int)
    requires
        0 <= index < count <= 5,
        settings.theme < 13,
    ensures
        ({
            let drawn = rows_shown(settings, selected, count);
            let row = row_shown(settings, index, selected);
            &&& drawn[0].text == Some("CONFIG"@)
            &&& drawn[0].y > 130 && drawn[0].x == 0
            &&& first >= 1 + index && first + row.len() <= drawn.len()
            &&& drawn.subrange(first, first + row.len()) == row
            &&& index == 0 ==> first == 1
            &&& index == count - 1 ==> first + row.len() == drawn.len()
            &&& index + 1 < count ==> drawn[first + row.len()].text == Some(ROWS@[index + 1]@)
        }),
    decreases count,
{
    let before = rows_shown(settings, selected, (count - 1) as nat);
    let last = row_shown(settings, count - 1, selected);
    let drawn = rows_shown(settings, selected, count);
    law_rows_are_drawn_as_they_are(settings, count - 1, selected);
    assert(drawn == before + last);
    if index == count - 1 {
        if count == 1 {
            assert(before =~= seq![label_shown("CONFIG"@, 0, 260, TITLE_SCALE as int)]);
        } else {
            let nearer = law_screens_show_every_row(
                settings,
                selected,
                (count - 1) as nat,
                count - 2,
            );
            law_rows_are_drawn_as_they_are(settings, count - 2, selected);
        }
        assert(drawn.subrange(before.len() as int, (before.len() + last.len()) as int) =~= last);
        before.len() as int
    } else {
        let first = law_screens_show_every_row(settings, selected, (count - 1) as nat, index);
        let row = row_shown(settings, index, selected);
        law_rows_are_drawn_as_they_are(settings, index, selected);
        assert(drawn.subrange(first, first + row.len()) =~= before.subrange(
            first,
            first + row.len(),
        ));
        if index == count - 2 {
            assert(drawn[first + row.len()] == last[0]);
        }
        first
    }
}

} // verus!
