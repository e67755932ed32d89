//! Player-facing settings.
//!
//! The theme and the enemy count both take effect. Difficulty and powerups are
//! stored faithfully, with their tuning values attached, but nothing reads
//! them yet. The config screen marks those rows as unimplemented rather than
//! pretending otherwise.

use vstd::prelude::*;

verus! {

/// The largest enemy count the config screen accepts.
pub const MAX_ENEMIES: usize = 999;

/// How many themes there are to choose from.
pub const THEME_COUNT: usize = 13;

/// The three difficulty levels.
#[derive(Clone, Copy, Debug, PartialEq, Eq, Structural)]
pub enum Difficulty {
    Easy,
    Normal,
    Hard,
}

impl Default for Difficulty {
    fn default() -> (level: Self)
        ensures
            level == Difficulty::Normal,
    {
        Difficulty::Normal
    }
}

/// The level after this one, wrapping from hard back to easy.
pub open spec fn level_after(level: Difficulty) -> Difficulty {
    match level {
        Difficulty::Easy => Difficulty::Normal,
        Difficulty::Normal => Difficulty::Hard,
        Difficulty::Hard => Difficulty::Easy,
    }
}

/// The level before this one, wrapping from easy back to hard.
pub open spec fn level_before(level: Difficulty) -> Difficulty {
    match level {
        Difficulty::Easy => Difficulty::Hard,
        Difficulty::Normal => Difficulty::Easy,
        Difficulty::Hard => Difficulty::Normal,
    }
}

impl Difficulty {
    /// The name a level is shown by.
    pub open spec fn name(self) -> Seq<char> {
        match self {
            Difficulty::Easy => "EASY"@,
            Difficulty::Normal => "NORMAL"@,
            Difficulty::Hard => "HARD"@,
        }
    }

    /// The name shown on the config screen.
    pub fn label(self) -> (label: &'static str)
        ensures
            label@ == self.name(),
    {
        match self {
            Difficulty::Easy => "EASY",
            Difficulty::Normal => "NORMAL",
            Difficulty::Hard => "HARD",
        }
    }

    /// Enemy speed multiplier, by its bit pattern: 0.8, 1.0 and 1.6.
    pub fn enemy_speed(self) -> (bits: u32)
        ensures
            bits == match self {
                Difficulty::Easy => 0x3f4c_cccdu32,
                Difficulty::Normal => 0x3f80_0000u32,
                Difficulty::Hard => 0x3fcc_cccdu32,
            },
    {
        match self {
            Difficulty::Easy => 0x3f4c_cccd,
            Difficulty::Normal => 0x3f80_0000,
            Difficulty::Hard => 0x3fcc_cccd,
        }
    }

    /// Spawn interval multiplier, by its bit pattern: 1.4, 1.0 and 0.8.
    pub fn spawn_interval(self) -> (bits: u32)
        ensures
            bits == match self {
                Difficulty::Easy => 0x3fb3_3333u32,
                Difficulty::Normal => 0x3f80_0000u32,
                Difficulty::Hard => 0x3f4c_cccdu32,
            },
    {
        match self {
            Difficulty::Easy => 0x3fb3_3333,
            Difficulty::Normal => 0x3f80_0000,
            Difficulty::Hard => 0x3f4c_cccd,
        }
    }

    /// The next level, wrapping from hard back to easy.
    pub fn next(self) -> (level: Self)
        ensures
            level == level_after(self),
    {
        match self {
            Difficulty::Easy => Difficulty::Normal,
            Difficulty::Normal => Difficulty::Hard,
            Difficulty::Hard => Difficulty::Easy,
        }
    }

    /// The previous level, wrapping from easy back to hard.
    pub fn previous(self) -> (level: Self)
        ensures
            level == level_before(self),
    {
        match self {
            Difficulty::Easy => Difficulty::Hard,
            Difficulty::Normal => Difficulty::Easy,
            Difficulty::Hard => Difficulty::Normal,
        }
    }
}

/// Everything the config screen can change.
#[derive(Clone, Copy, Debug, PartialEq, Eq, Structural)]
pub struct Settings {
    /// Which theme is painted.
    pub theme: usize,
    pub difficulty: Difficulty,
    /// Enemies the arena is kept stocked with.
    pub starting_enemies: usize,
    pub powerups: bool,
}

/// The theme one place on or back, wrapping at both ends.
pub open spec fn theme_stepped(theme: usize, forward: bool) -> usize {
    if forward {
        if theme == usize::MAX {
            theme % THEME_COUNT
        } else {
            ((theme + 1) % THEME_COUNT as int) as usize
        }
    } else if theme == 0 {
        (THEME_COUNT - 1) as usize
    } else {
        (theme - 1) as usize
    }
}

/// The count after a typed digit: a digit that is none, or that would exceed
/// the largest count, is ignored.
pub open spec fn count_typed(count: usize, digit: u32) -> usize {
    if digit <= 9 && count * 10 + digit <= MAX_ENEMIES {
        (count * 10 + digit) as usize
    } else {
        count
    }
}

/// The count without its last digit.
pub open spec fn count_erased(count: usize) -> usize {
    (count / 10) as usize
}

/// The count one up or down, staying within zero and the largest count.
pub open spec fn count_bumped(count: usize, forward: bool) -> usize {
    if forward {
        if count < MAX_ENEMIES {
            (count + 1) as usize
        } else {
            MAX_ENEMIES
        }
    } else if count == 0 {
        0
    } else {
        (count - 1) as usize
    }
}

impl Settings {
    /// What the config screen keeps true of the settings it edits.
    pub open spec fn valid(self) -> bool {
        self.theme < THEME_COUNT && self.starting_enemies <= MAX_ENEMIES
    }

    /// Step to the next or previous theme, wrapping at both ends.
    pub fn cycle_theme(&mut self, forward: bool)
        ensures
            *final(self) == (Settings {
                theme: theme_stepped(old(self).theme, forward),
                ..*old(self)
            }),
    {
        self.theme = if forward {
            self.theme.saturating_add(1) % THEME_COUNT
        } else if self.theme == 0 {
            THEME_COUNT - 1
        } else {
            self.theme - 1
        };
    }

    /// Append a typed digit, ignoring anything that would exceed the largest
    /// count.
    pub fn push_enemy_digit(&mut self, digit: u32)
        ensures
            *final(self) == (Settings {
                starting_enemies: count_typed(old(self).starting_enemies, digit),
                ..*old(self)
            }),
    {
        if digit > 9 || self.starting_enemies > MAX_ENEMIES {
            return;
        }
        let next: usize = self.starting_enemies * 10 + digit as usize;
        if next <= MAX_ENEMIES {
            self.starting_enemies = next;
        }
    }

    /// Remove the last typed digit.
    pub fn pop_enemy_digit(&mut self)
        ensures
            *final(self) == (Settings {
                starting_enemies: count_erased(old(self).starting_enemies),
                ..*old(self)
            }),
    {
        self.starting_enemies = self.starting_enemies / 10;
    }

    /// Step the count by one, staying within zero and the largest count.
    pub fn bump_enemies(&mut self, forward: bool)
        ensures
            *final(self) == (Settings {
                starting_enemies: count_bumped(old(self).starting_enemies, forward),
                ..*old(self)
            }),
    {
        self.starting_enemies = if forward {
            if self.starting_enemies < MAX_ENEMIES {
                self.starting_enemies + 1
            } else {
                MAX_ENEMIES
            }
        } else {
            self.starting_enemies.saturating_sub(1)
        };
    }

    /// Replace the count, clamped to the largest one.
    pub fn set_enemies(&mut self, value: usize)
        ensures
            *final(self) == (Settings {
                starting_enemies: if value > MAX_ENEMIES {
                    MAX_ENEMIES
                } else {
                    value
                },
                ..*old(self)
            }),
    {
        self.starting_enemies = if value > MAX_ENEMIES { MAX_ENEMIES } else { value };
    }
}

impl Default for Settings {
    /// The first theme at normal difficulty with a hundred enemies, powerups on.
    fn default() -> (settings: Self)
        ensures
            settings == (Settings {
                theme: 0,
                difficulty: Difficulty::Normal,
                starting_enemies: 100,
                powerups: true,
            }),
            settings.valid(),
    {
        Settings {
            theme: 0,
            difficulty: Difficulty::Normal,
            starting_enemies: 100,
            powerups: true,
        }
    }
}

/// Going on and going back through the levels undo each other.
pub proof fn law_levels_undo(level: Difficulty)
    ensures
        level_before(level_after(level)) == level,
        level_after(level_before(level)) == level,
        level_after(level_after(level_after(level))) == level,
{
}

/// Going on and going back through the themes undo each other.
pub proof fn law_themes_undo(theme: usize)
    requires
        theme < THEME_COUNT,
    ensures
        theme_stepped(theme_stepped(theme, true), false) == theme,
        theme_stepped(theme_stepped(theme, false), true) == theme,
{
}

/// So many steps through the themes, all onward or all back.
pub open spec fn themes_along(theme: usize, forward: bool, steps: nat) -> usize
    decreases steps,
{
    if steps == 0 {
        theme
    } else {
        theme_stepped(themes_along(theme, forward, (steps - 1) as nat), forward)
    }
}

proof fn lemma_themes_along(theme: usize, forward: bool, steps: nat)
    requires
        theme < THEME_COUNT,
        steps <= THEME_COUNT,
    ensures
        themes_along(theme, forward, steps) == if forward {
            if theme + steps < THEME_COUNT {
                theme + steps
            } else {
                theme + steps - THEME_COUNT
            }
        } else if steps <= theme {
            theme - steps
        } else {
            theme + THEME_COUNT - steps
        },
    decreases steps,
{
    if steps > 0 {
        lemma_themes_along(theme, forward, (steps - 1) as nat);
    }
}

/// A full cycle, either way, returns to the theme it started from, and nothing
/// shorter does: it shows every theme once.
pub proof fn law_theme_cycle(theme: usize, forward: bool)
    requires
        theme < THEME_COUNT,
    ensures
        themes_along(theme, forward, THEME_COUNT as nat) == theme,
        forall|steps: nat|
            0 < steps < THEME_COUNT ==> #[trigger] themes_along(theme, forward, steps) != theme,
        forall|one: nat, other: nat|
            one < other < THEME_COUNT ==> #[trigger] themes_along(theme, forward, one)
                != #[trigger] themes_along(theme, forward, other),
{
    lemma_themes_along(theme, forward, THEME_COUNT as nat);
    assert forall|steps: nat| 0 < steps < THEME_COUNT implies #[trigger] themes_along(
        theme,
        forward,
        steps,
    ) != theme by {
        lemma_themes_along(theme, forward, steps);
    }
    assert forall|one: nat, other: nat| one < other < THEME_COUNT implies #[trigger] themes_along(
        theme,
        forward,
        one,
    ) != #[trigger] themes_along(theme, forward, other) by {
        lemma_themes_along(theme, forward, one);
        lemma_themes_along(theme, forward, other);
    }
}

/// Erasing undoes a digit that was accepted.
pub proof fn law_erasing_undoes_typing(count: usize, digit: u32)
    requires
        digit <= 9,
        count * 10 + digit <= MAX_ENEMIES,
    ensures
        count_erased(count_typed(count, digit)) == count,
{
}

/// No edit leaves the range of counts or the list of themes.
pub proof fn law_edits_stay_valid(settings: Settings, digit: u32, forward: bool)
    requires
        settings.valid(),
    ensures
        theme_stepped(settings.theme, forward) < THEME_COUNT,
        count_typed(settings.starting_enemies, digit) <= MAX_ENEMIES,
        count_erased(settings.starting_enemies) <= MAX_ENEMIES,
        count_bumped(settings.starting_enemies, forward) <= MAX_ENEMIES,
{
}

/// A bump is one up or one down, and stops at both ends of the range.
pub proof fn law_bumps_are_one(count: usize)
    requires
        count <= MAX_ENEMIES,
    ensures
        count < MAX_ENEMIES ==> count_bumped(count, true) == count + 1,
        count == MAX_ENEMIES ==> count_bumped(count, true) == count,
        count > 0 ==> count_bumped(count, false) == count - 1,
        count == 0 ==> count_bumped(count, false) == 0,
        0 < count < MAX_ENEMIES ==> count_bumped(count_bumped(count, true), false) == count,
{
}

/// A digit that is accepted becomes the last digit of the count, with the count
/// in front of it; one that would exceed the range changes nothing.
pub proof fn law_digits_extend_the_count(count: usize, digit: u32)
    requires
        digit <= 9,
    ensures
        count * 10 + digit <= MAX_ENEMIES ==> count_typed(count, digit) as int / 10 == count
            && count_typed(count, digit) as int % 10 == digit,
        count * 10 + digit > MAX_ENEMIES ==> count_typed(count, digit) == count,
        10 * count_erased(count) <= count < 10 * count_erased(count) + 10,
        digit < 9 ==> count_typed(count, (digit + 10) as u32) == count,
{
}

/// Going onward through the themes takes them one after the other, from the last
/// one back to the first; going back takes them the other way.
pub proof fn law_themes_follow_each_other(theme: usize)
    requires
        theme < THEME_COUNT,
    ensures
        theme + 1 < THEME_COUNT ==> theme_stepped(theme, true) == theme + 1,
        theme + 1 == THEME_COUNT ==> theme_stepped(theme, true) == 0,
        theme > 0 ==> theme_stepped(theme, false) == theme - 1,
        theme == 0 ==> theme_stepped(theme, false) == THEME_COUNT - 1,
{
}

/// The levels follow each other from easy to hard and then begin again, and no
/// level is its own neighbour.
pub proof fn law_levels_follow_each_other(level: Difficulty)
    ensures
        level == Difficulty::Easy <==> level_after(level) == Difficulty::Normal,
        level == Difficulty::Normal <==> level_after(level) == Difficulty::Hard,
        level == Difficulty::Hard <==> level_after(level) == Difficulty::Easy,
        level_before(level_after(level)) == level,
        level_after(level) != level && level_before(level) != level,
{
}

/// The levels are called easy, normal and hard, in the order they follow each
/// other.
pub proof fn law_levels_are_called_in_order(level: Difficulty)
    ensures
        level.name() == "EASY"@ || level.name() == "NORMAL"@ || level.name() == "HARD"@,
        level == Difficulty::Easy ==> level.name() == "EASY"@,
        level.name() == "EASY"@ ==> level_after(level).name() == "NORMAL"@,
        level.name() == "NORMAL"@ ==> level_after(level).name() == "HARD"@,
        level.name() == "HARD"@ ==> level_after(level).name() == "EASY"@,
{
    reveal_strlit("EASY");
    reveal_strlit("NORMAL");
    reveal_strlit("HARD");
    assert("EASY"@[0] == 'E' && "NORMAL"@[0] == 'N' && "HARD"@[0] == 'H');
}

} // verus!
